use vstd::prelude::*;

verus! {

/// An opaque, externally authenticated principal identifier.
///
/// The ledger owns no internal structure of an identity: it only compares
/// identities for equality and uses them as partition keys for user and plan
/// records.  Proving that a caller actually controls an identity is the
/// host's concern and happens before the ledger is entered.
#[derive(Clone, Copy, Debug, PartialEq, Eq, Structural)]
pub struct Identity(pub u64);

/// Longest symbol text accepted by [`ShortSymbol::new`].
pub const SHORT_SYMBOL_MAX_LEN: usize = 9;

/// The numeric value a symbol byte packs to: `_` then digits, upper case,
/// lower case, in that order starting at one.  Zero marks a byte that no
/// symbol may contain.
pub open spec fn sym_byte_code(b: u8) -> int {
    if b == 95 {
        1
    } else if 48 <= b && b <= 57 {
        2 + (b - 48)
    } else if 65 <= b && b <= 90 {
        12 + (b - 65)
    } else if 97 <= b && b <= 122 {
        38 + (b - 97)
    } else {
        0
    }
}

/// Whether `b` may appear in a short symbol: an ASCII letter, digit or `_`.
pub open spec fn is_sym_byte(b: u8) -> bool {
    sym_byte_code(b) != 0
}

/// The packed value of a symbol text: successive bytes fill in from the low
/// end, six bits each.
pub open spec fn sym_encode(s: Seq<u8>) -> int
    decreases s.len(),
{
    if s.len() == 0 {
        0
    } else {
        64 * sym_encode(s.drop_last()) + sym_byte_code(s.last())
    }
}

/// Exclusive upper bound of the packed value of a symbol text of `n` bytes.
pub open spec fn sym_cap(n: nat) -> int
    decreases n,
{
    if n == 0 {
        1
    } else {
        64 * sym_cap((n - 1) as nat)
    }
}

pub proof fn lemma_sym_cap_pos(n: nat)
    ensures
        sym_cap(n) >= 1,
    decreases n,
{
    if n > 0 {
        lemma_sym_cap_pos((n - 1) as nat);
    }
}

pub proof fn lemma_sym_cap_mono(i: nat, j: nat)
    requires
        i <= j,
    ensures
        sym_cap(i) <= sym_cap(j),
    decreases j,
{
    if i < j {
        lemma_sym_cap_mono(i, (j - 1) as nat);
        lemma_sym_cap_pos((j - 1) as nat);
    }
}

pub proof fn lemma_sym_cap_max()
    ensures
        sym_cap(SHORT_SYMBOL_MAX_LEN as nat) == 0x40000000000000,
{
    assert(sym_cap(0) == 1);
    assert(sym_cap(1) == 64);
    assert(sym_cap(2) == 4096);
    assert(sym_cap(3) == 262144);
    assert(sym_cap(4) == 16777216);
    assert(sym_cap(5) == 1073741824);
    assert(sym_cap(6) == 68719476736);
    assert(sym_cap(7) == 4398046511104);
    assert(sym_cap(8) == 281474976710656);
    assert(sym_cap(9) == 18014398509481984);
}

/// A short symbolic tag: at most nine bytes drawn from ASCII letters, digits
/// and `_`, packed six bits per byte into one word.  Goal plans carry one as
/// their category label; the ledger stores and compares it and reads nothing
/// else of it.
#[derive(Clone, Copy, Debug, PartialEq, Eq, Structural)]
pub struct ShortSymbol {
    code: u64,
}

impl ShortSymbol {
    /// The packed value this symbol holds.
    pub closed spec fn spec_code(self) -> u64 {
        self.code
    }

    /// Packs `text` into a symbol.  Returns `None` exactly when the text is
    /// over nine bytes long or holds a byte that is not an ASCII letter,
    /// digit or `_`.
    pub fn new(text: &[u8]) -> (r: Option<ShortSymbol>)
        ensures
            r is Some <==> (text@.len() <= SHORT_SYMBOL_MAX_LEN && forall|j: int|
                0 <= j < text@.len() ==> is_sym_byte(#[trigger] text@[j])),
            r matches Some(s) ==> s.spec_code() == sym_encode(text@),
    {
        if text.len() > SHORT_SYMBOL_MAX_LEN {
            return None;
        }
        let mut acc: u64 = 0;
        let mut i: usize = 0;
        while i < text.len()
            invariant
                0 <= i <= text@.len() <= SHORT_SYMBOL_MAX_LEN,
                forall|j: int| 0 <= j < i ==> is_sym_byte(#[trigger] text@[j]),
                acc == sym_encode(text@.subrange(0, i as int)),
                acc < sym_cap(i as nat),
            decreases text@.len() - i,
        {
            let b = text[i];
            let c = sym_byte_code_exec(b);
            if c == 0 {
                return None;
            }
            proof {
                lemma_sym_cap_mono((i + 1) as nat, SHORT_SYMBOL_MAX_LEN as nat);
                lemma_sym_cap_max();
                assert(sym_cap((i + 1) as nat) == 64 * sym_cap(i as nat));
                assert(text@.subrange(0, i + 1).drop_last() =~= text@.subrange(0, i as int));
                assert(text@.subrange(0, i + 1).last() == text@[i as int]);
            }
            acc = acc * 64 + c;
            i = i + 1;
        }
        proof {
            assert(text@.subrange(0, text@.len() as int) =~= text@);
        }
        Some(ShortSymbol { code: acc })
    }

    /// The packed value, for callers that persist or display the symbol.
    pub fn code(&self) -> (c: u64)
        ensures
            c == self.spec_code(),
    {
        self.code
    }
}

/// The packed value of one symbol byte; zero for a byte no symbol may hold.
fn sym_byte_code_exec(b: u8) -> (c: u64)
    ensures
        c == sym_byte_code(b),
        c <= 63,
{
    if b == 95 {
        1
    } else if 48 <= b && b <= 57 {
        2 + (b - 48) as u64
    } else if 65 <= b && b <= 90 {
        12 + (b - 65) as u64
    } else if 97 <= b && b <= 122 {
        38 + (b - 97) as u64
    } else {
        0
    }
}

/// The per-identity aggregate record.
#[derive(Clone, Copy, Debug, PartialEq, Eq, Structural)]
pub struct User {
    /// Sum of `balance` over all of this identity's plans not yet withdrawn.
    /// Never negative in any state the entry points produce.
    pub total_balance: i128,
    /// How many plans were ever created for this identity; assigns the next
    /// plan id and never decreases.
    pub savings_count: u64,
}

/// The kind of a savings plan, with the per-kind data.
#[derive(Clone, Copy, Debug, PartialEq, Eq, Structural)]
pub enum PlanType {
    /// No maturity constraint; withdrawable whenever funds are available.
    Flexi,
    /// Withdrawal is blocked until ledger time reaches the payload maturity.
    Lock(u64),
    /// Tracks progress toward a target: category label, target amount,
    /// contribution interval.
    Goal(ShortSymbol, i128, u32),
    /// A pooled plan shared across a group: group id, public flag,
    /// contribution interval, target amount.
    Group(u64, bool, u32, i128),
}

/// One savings commitment, keyed by `(Identity, plan_id)`.
#[derive(Clone, Copy, Debug, PartialEq, Eq, Structural)]
pub struct SavingsPlan {
    /// Unique per identity, assigned at creation from the user's count.
    pub plan_id: u64,
    pub plan_type: PlanType,
    /// Principal currently held; never negative in any state the entry
    /// points produce.
    pub balance: i128,
    /// Ledger time the plan was created.
    pub start_time: u64,
    /// Ledger time of the latest deposit.
    pub last_deposit: u64,
    /// Ledger time of the latest withdrawal, zero before the first.
    pub last_withdraw: u64,
    /// Accrual input in basis points; informational.
    pub interest_rate: u32,
    /// A goal or lock was reached, or the plan was fully withdrawn.
    pub is_completed: bool,
    /// Terminal: once set, no balance-affecting operation touches the plan.
    pub is_withdrawn: bool,
}

/// The closed key set of the persistent store: four singletons and the two
/// per-identity record families.
#[derive(Clone, Copy, Debug, PartialEq, Eq, Structural)]
pub enum DataKey {
    Admin,
    Paused,
    FeeRecipient,
    FeeBps,
    User(Identity),
    SavingsPlan(Identity, u64),
}

} // verus!
