use vstd::prelude::*;

use crate::storage_types::{DataKey, Identity, PlanType, SavingsPlan, User};

verus! {

/// Upper bound of a fee rate in basis points: one hundred percent.
pub const MAX_FEE_BPS: u32 = 10000;

/// One user record held in the store, keyed by its owner identity.
#[derive(Clone, Copy, Debug, PartialEq, Eq, Structural)]
pub struct UserRec {
    pub owner: Identity,
    pub data: User,
}

/// One savings plan held in the store, keyed by its owner identity together
/// with the plan id carried inside the plan itself.
#[derive(Clone, Copy, Debug, PartialEq, Eq, Structural)]
pub struct PlanRec {
    pub owner: Identity,
    pub plan: SavingsPlan,
}

/// No two user records share an owner.
pub open spec fn unique_user_keys(users: Seq<UserRec>) -> bool {
    forall|i: int, j: int|
        0 <= i < users.len() && 0 <= j < users.len() && i != j ==> (#[trigger] users[i].owner)
            != (#[trigger] users[j].owner)
}

/// No two plan records share both owner and plan id.
pub open spec fn unique_plan_keys(plans: Seq<PlanRec>) -> bool {
    forall|i: int, j: int|
        0 <= i < plans.len() && 0 <= j < plans.len() && i != j ==> !((#[trigger] plans[i]).owner
            == (#[trigger] plans[j]).owner && plans[i].plan.plan_id == plans[j].plan.plan_id)
}

/// Index of the record for `id`, scanning from the end; `-1` when absent.
pub open spec fn user_idx(users: Seq<UserRec>, id: Identity) -> int
    decreases users.len(),
{
    if users.len() == 0 {
        -1
    } else if users.last().owner == id {
        users.len() - 1
    } else {
        user_idx(users.drop_last(), id)
    }
}

/// The user record stored for `id`, if any.
pub open spec fn find_user(users: Seq<UserRec>, id: Identity) -> Option<User> {
    let i = user_idx(users, id);
    if i < 0 {
        None
    } else {
        Some(users[i].data)
    }
}

/// Index of the record for `(id, pid)`, scanning from the end; `-1` when
/// absent.
pub open spec fn plan_idx(plans: Seq<PlanRec>, id: Identity, pid: u64) -> int
    decreases plans.len(),
{
    if plans.len() == 0 {
        -1
    } else if plans.last().owner == id && plans.last().plan.plan_id == pid {
        plans.len() - 1
    } else {
        plan_idx(plans.drop_last(), id, pid)
    }
}

/// The savings plan stored for `(id, pid)`, if any.
pub open spec fn find_plan(plans: Seq<PlanRec>, id: Identity, pid: u64) -> Option<SavingsPlan> {
    let i = plan_idx(plans, id, pid);
    if i < 0 {
        None
    } else {
        Some(plans[i].plan)
    }
}

/// Whether this record is an open-ended plan of `id` still accepting
/// withdrawals.
pub open spec fn is_active_flexi(r: PlanRec, id: Identity) -> bool {
    r.owner == id && r.plan.plan_type is Flexi && !r.plan.is_withdrawn
}

/// Index of the active open-ended plan of `id`, scanning from the end; `-1`
/// when there is none.
pub open spec fn flexi_idx(plans: Seq<PlanRec>, id: Identity) -> int
    decreases plans.len(),
{
    if plans.len() == 0 {
        -1
    } else if is_active_flexi(plans.last(), id) {
        plans.len() - 1
    } else {
        flexi_idx(plans.drop_last(), id)
    }
}

/// The user sequence after writing `data` under `id`: the record for `id` is
/// replaced in place, or appended when absent.
pub open spec fn set_user_seq(users: Seq<UserRec>, id: Identity, data: User) -> Seq<UserRec> {
    let i = user_idx(users, id);
    let rec = UserRec { owner: id, data };
    if i < 0 {
        users.push(rec)
    } else {
        users.update(i, rec)
    }
}

/// The plan sequence after writing `plan` under `id`: the record for the key
/// is replaced in place, or appended when absent.
pub open spec fn set_plan_seq(plans: Seq<PlanRec>, id: Identity, plan: SavingsPlan) -> Seq<
    PlanRec,
> {
    let i = plan_idx(plans, id, plan.plan_id);
    let rec = PlanRec { owner: id, plan };
    if i < 0 {
        plans.push(rec)
    } else {
        plans.update(i, rec)
    }
}

/// The user sequence after deleting the record for `id`; unchanged when the
/// key is absent.
pub open spec fn remove_user_seq(users: Seq<UserRec>, id: Identity) -> Seq<UserRec> {
    let i = user_idx(users, id);
    if i < 0 {
        users
    } else {
        users.remove(i)
    }
}

/// The plan sequence after deleting the record for `(id, pid)`; unchanged
/// when the key is absent.
pub open spec fn remove_plan_seq(plans: Seq<PlanRec>, id: Identity, pid: u64) -> Seq<PlanRec> {
    let i = plan_idx(plans, id, pid);
    if i < 0 {
        plans
    } else {
        plans.remove(i)
    }
}

/// `user_idx` lands on the record for `id`, scanning from the end, and is
/// `-1` exactly when no record has that owner.
pub proof fn lemma_user_idx(users: Seq<UserRec>, id: Identity)
    ensures
        -1 <= user_idx(users, id) < users.len(),
        user_idx(users, id) >= 0 ==> users[user_idx(users, id)].owner == id,
        forall|j: int| user_idx(users, id) < j < users.len() ==> (#[trigger] users[j]).owner != id,
        user_idx(users, id) == -1 <==> (forall|j: int|
            0 <= j < users.len() ==> (#[trigger] users[j]).owner != id),
    decreases users.len(),
{
    if users.len() > 0 {
        lemma_user_idx(users.drop_last(), id);
        assert(forall|j: int|
            0 <= j < users.len() - 1 ==> users.drop_last()[j] == #[trigger] users[j]);
    }
}

/// `plan_idx` lands on the record for `(id, pid)`, and is `-1` exactly when
/// no record has that key.
pub proof fn lemma_plan_idx(plans: Seq<PlanRec>, id: Identity, pid: u64)
    ensures
        -1 <= plan_idx(plans, id, pid) < plans.len(),
        plan_idx(plans, id, pid) >= 0 ==> plans[plan_idx(plans, id, pid)].owner == id
            && plans[plan_idx(plans, id, pid)].plan.plan_id == pid,
        forall|j: int|
            plan_idx(plans, id, pid) < j < plans.len() ==> !((#[trigger] plans[j]).owner == id
                && plans[j].plan.plan_id == pid),
        plan_idx(plans, id, pid) == -1 <==> (forall|j: int|
            0 <= j < plans.len() ==> !((#[trigger] plans[j]).owner == id && plans[j].plan.plan_id
                == pid)),
    decreases plans.len(),
{
    if plans.len() > 0 {
        lemma_plan_idx(plans.drop_last(), id, pid);
        assert(forall|j: int|
            0 <= j < plans.len() - 1 ==> plans.drop_last()[j] == #[trigger] plans[j]);
    }
}

/// `flexi_idx` lands on an active open-ended plan of `id`, and is `-1`
/// exactly when there is none.
pub proof fn lemma_flexi_idx(plans: Seq<PlanRec>, id: Identity)
    ensures
        -1 <= flexi_idx(plans, id) < plans.len(),
        flexi_idx(plans, id) >= 0 ==> is_active_flexi(plans[flexi_idx(plans, id)], id),
        flexi_idx(plans, id) == -1 <==> (forall|j: int|
            0 <= j < plans.len() ==> !is_active_flexi(#[trigger] plans[j], id)),
    decreases plans.len(),
{
    if plans.len() > 0 {
        lemma_flexi_idx(plans.drop_last(), id);
        assert(forall|j: int|
            0 <= j < plans.len() - 1 ==> plans.drop_last()[j] == #[trigger] plans[j]);
    }
}

/// Under a key different from both, replacing record `i` does not move the
/// index for `id2`.
proof fn lemma_user_idx_update_other(users: Seq<UserRec>, i: int, rec: UserRec, id2: Identity)
    requires
        0 <= i < users.len(),
        users[i].owner != id2,
        rec.owner != id2,
    ensures
        user_idx(users.update(i, rec), id2) == user_idx(users, id2),
    decreases users.len(),
{
    let s2 = users.update(i, rec);
    if i == users.len() - 1 {
        assert(s2.drop_last() =~= users.drop_last());
    } else {
        assert(s2.last() == users.last());
        if users.last().owner != id2 {
            assert(s2.drop_last() =~= users.drop_last().update(i, rec));
            lemma_user_idx_update_other(users.drop_last(), i, rec, id2);
        }
    }
}

/// Replacing the last-scanned record for an owner keeps its index.
proof fn lemma_user_idx_update_at(users: Seq<UserRec>, i: int, rec: UserRec)
    requires
        0 <= i < users.len(),
        users[i].owner == rec.owner,
        forall|j: int| i < j < users.len() ==> (#[trigger] users[j]).owner != rec.owner,
    ensures
        user_idx(users.update(i, rec), rec.owner) == i,
    decreases users.len(),
{
    let s2 = users.update(i, rec);
    if i == users.len() - 1 {
        assert(s2.last() == rec);
    } else {
        assert(s2.last() == users.last());
        assert(s2.drop_last() =~= users.drop_last().update(i, rec));
        assert(forall|j: int|
            i < j < users.len() - 1 ==> (#[trigger] users.drop_last()[j]).owner != rec.owner);
        lemma_user_idx_update_at(users.drop_last(), i, rec);
    }
}

/// A store write under `id` is read back under `id` and leaves every other
/// owner's record as it was; the sequence grows only when the key was absent.
pub proof fn lemma_set_user_seq(users: Seq<UserRec>, id: Identity, data: User, id2: Identity)
    ensures
        find_user(set_user_seq(users, id, data), id2) == if id2 == id {
            Some(data)
        } else {
            find_user(users, id2)
        },
        set_user_seq(users, id, data).len() == if user_idx(users, id) >= 0 {
            users.len()
        } else {
            users.len() + 1
        },
{
    let i = user_idx(users, id);
    let rec = UserRec { owner: id, data };
    let s2 = set_user_seq(users, id, data);
    lemma_user_idx(users, id);
    if i < 0 {
        assert(s2.last() == rec);
        assert(s2.drop_last() =~= users);
        if id2 != id {
            lemma_user_idx(users, id2);
            lemma_user_idx(s2, id2);
        }
    } else {
        if id2 == id {
            lemma_user_idx_update_at(users, i, rec);
        } else {
            lemma_user_idx_update_other(users, i, rec, id2);
            lemma_user_idx(users, id2);
        }
    }
}

/// A store write keeps user keys unique.
pub proof fn lemma_set_user_seq_unique(users: Seq<UserRec>, id: Identity, data: User)
    requires
        unique_user_keys(users),
    ensures
        unique_user_keys(set_user_seq(users, id, data)),
{
    let i = user_idx(users, id);
    let s2 = set_user_seq(users, id, data);
    lemma_user_idx(users, id);
    if i < 0 {
        assert(forall|j: int| 0 <= j < users.len() ==> (#[trigger] s2[j]) == users[j]);
    } else {
        assert(forall|j: int|
            0 <= j < users.len() ==> (#[trigger] s2[j]).owner == users[j].owner);
    }
}

/// Under a key different from both, replacing record `i` does not move the
/// index for `(id2, pid2)`.
proof fn lemma_plan_idx_update_other(
    plans: Seq<PlanRec>,
    i: int,
    rec: PlanRec,
    id2: Identity,
    pid2: u64,
)
    requires
        0 <= i < plans.len(),
        !(plans[i].owner == id2 && plans[i].plan.plan_id == pid2),
        !(rec.owner == id2 && rec.plan.plan_id == pid2),
    ensures
        plan_idx(plans.update(i, rec), id2, pid2) == plan_idx(plans, id2, pid2),
    decreases plans.len(),
{
    let s2 = plans.update(i, rec);
    if i == plans.len() - 1 {
        assert(s2.drop_last() =~= plans.drop_last());
    } else {
        assert(s2.last() == plans.last());
        if !(plans.last().owner == id2 && plans.last().plan.plan_id == pid2) {
            assert(s2.drop_last() =~= plans.drop_last().update(i, rec));
            lemma_plan_idx_update_other(plans.drop_last(), i, rec, id2, pid2);
        }
    }
}

/// Replacing the last-scanned record for a key keeps its index.
proof fn lemma_plan_idx_update_at(plans: Seq<PlanRec>, i: int, rec: PlanRec)
    requires
        0 <= i < plans.len(),
        plans[i].owner == rec.owner,
        plans[i].plan.plan_id == rec.plan.plan_id,
        forall|j: int|
            i < j < plans.len() ==> !((#[trigger] plans[j]).owner == rec.owner
                && plans[j].plan.plan_id == rec.plan.plan_id),
    ensures
        plan_idx(plans.update(i, rec), rec.owner, rec.plan.plan_id) == i,
    decreases plans.len(),
{
    let s2 = plans.update(i, rec);
    if i == plans.len() - 1 {
        assert(s2.last() == rec);
    } else {
        assert(s2.last() == plans.last());
        assert(s2.drop_last() =~= plans.drop_last().update(i, rec));
        assert(forall|j: int|
            i < j < plans.len() - 1 ==> !((#[trigger] plans.drop_last()[j]).owner == rec.owner
                && plans.drop_last()[j].plan.plan_id == rec.plan.plan_id));
        lemma_plan_idx_update_at(plans.drop_last(), i, rec);
    }
}

/// A store write under `(id, plan.plan_id)` is read back under that key and
/// leaves every other key's record as it was; the sequence grows only when
/// the key was absent.
pub proof fn lemma_set_plan_seq(
    plans: Seq<PlanRec>,
    id: Identity,
    plan: SavingsPlan,
    id2: Identity,
    pid2: u64,
)
    ensures
        find_plan(set_plan_seq(plans, id, plan), id2, pid2) == if id2 == id && pid2
            == plan.plan_id {
            Some(plan)
        } else {
            find_plan(plans, id2, pid2)
        },
        set_plan_seq(plans, id, plan).len() == if plan_idx(plans, id, plan.plan_id) >= 0 {
            plans.len()
        } else {
            plans.len() + 1
        },
{
    let i = plan_idx(plans, id, plan.plan_id);
    let rec = PlanRec { owner: id, plan };
    let s2 = set_plan_seq(plans, id, plan);
    lemma_plan_idx(plans, id, plan.plan_id);
    if i < 0 {
        assert(s2.last() == rec);
        assert(s2.drop_last() =~= plans);
        if !(id2 == id && pid2 == plan.plan_id) {
            lemma_plan_idx(plans, id2, pid2);
            lemma_plan_idx(s2, id2, pid2);
        }
    } else {
        if id2 == id && pid2 == plan.plan_id {
            lemma_plan_idx_update_at(plans, i, rec);
        } else {
            lemma_plan_idx_update_other(plans, i, rec, id2, pid2);
            lemma_plan_idx(plans, id2, pid2);
        }
    }
}

/// A store write keeps plan keys unique.
pub proof fn lemma_set_plan_seq_unique(plans: Seq<PlanRec>, id: Identity, plan: SavingsPlan)
    requires
        unique_plan_keys(plans),
    ensures
        unique_plan_keys(set_plan_seq(plans, id, plan)),
{
    let i = plan_idx(plans, id, plan.plan_id);
    let s2 = set_plan_seq(plans, id, plan);
    lemma_plan_idx(plans, id, plan.plan_id);
    if i < 0 {
        assert(forall|j: int| 0 <= j < plans.len() ==> (#[trigger] s2[j]) == plans[j]);
    } else {
        assert(forall|j: int|
            0 <= j < plans.len() ==> (#[trigger] s2[j]).owner == plans[j].owner && s2[j].plan.plan_id
                == plans[j].plan.plan_id);
    }
}

/// A store delete under `id` erases exactly that owner's record, keeps
/// every other owner's record, and keeps keys unique.
pub proof fn lemma_remove_user_seq(users: Seq<UserRec>, id: Identity, id2: Identity)
    requires
        unique_user_keys(users),
    ensures
        unique_user_keys(remove_user_seq(users, id)),
        find_user(remove_user_seq(users, id), id2) == if id2 == id {
            None::<User>
        } else {
            find_user(users, id2)
        },
{
    let i = user_idx(users, id);
    lemma_user_idx(users, id);
    if i >= 0 {
        let s2 = users.remove(i);
        users.remove_ensures(i);
        assert forall|a: int, b: int|
            0 <= a < s2.len() && 0 <= b < s2.len() && a != b implies (#[trigger] s2[a]).owner
            != (#[trigger] s2[b]).owner by {
            let a0 = if a < i { a } else { a + 1 };
            let b0 = if b < i { b } else { b + 1 };
            assert(s2[a] == users[a0]);
            assert(s2[b] == users[b0]);
        }
        lemma_user_idx(s2, id2);
        if id2 == id {
            assert forall|j: int| 0 <= j < s2.len() implies (#[trigger] s2[j]).owner != id by {
                let j0 = if j < i { j } else { j + 1 };
                assert(s2[j] == users[j0]);
            }
        } else {
            let k = user_idx(users, id2);
            lemma_user_idx(users, id2);
            if k < 0 {
                assert forall|j: int| 0 <= j < s2.len() implies (#[trigger] s2[j]).owner != id2 by {
                    let j0 = if j < i { j } else { j + 1 };
                    assert(s2[j] == users[j0]);
                }
            } else {
                let k2 = if k < i { k } else { k - 1 };
                assert(s2[k2] == users[k]);
                let m = user_idx(s2, id2);
                assert(m >= 0);
                assert(s2[m].owner == id2);
                assert(m == k2);
            }
        }
    }
}

/// A store delete under `(id, pid)` erases exactly that key's record, keeps
/// every other key's record, and keeps keys unique.
pub proof fn lemma_remove_plan_seq(
    plans: Seq<PlanRec>,
    id: Identity,
    pid: u64,
    id2: Identity,
    pid2: u64,
)
    requires
        unique_plan_keys(plans),
    ensures
        unique_plan_keys(remove_plan_seq(plans, id, pid)),
        find_plan(remove_plan_seq(plans, id, pid), id2, pid2) == if id2 == id && pid2 == pid {
            None::<SavingsPlan>
        } else {
            find_plan(plans, id2, pid2)
        },
{
    let i = plan_idx(plans, id, pid);
    lemma_plan_idx(plans, id, pid);
    if i >= 0 {
        let s2 = plans.remove(i);
        plans.remove_ensures(i);
        assert forall|a: int, b: int|
            0 <= a < s2.len() && 0 <= b < s2.len() && a != b implies !((#[trigger] s2[a]).owner
            == (#[trigger] s2[b]).owner && s2[a].plan.plan_id == s2[b].plan.plan_id) by {
            let a0 = if a < i { a } else { a + 1 };
            let b0 = if b < i { b } else { b + 1 };
            assert(s2[a] == plans[a0]);
            assert(s2[b] == plans[b0]);
        }
        lemma_plan_idx(s2, id2, pid2);
        if id2 == id && pid2 == pid {
            assert forall|j: int| 0 <= j < s2.len() implies !((#[trigger] s2[j]).owner == id
                && s2[j].plan.plan_id == pid) by {
                let j0 = if j < i { j } else { j + 1 };
                assert(s2[j] == plans[j0]);
            }
        } else {
            let k = plan_idx(plans, id2, pid2);
            lemma_plan_idx(plans, id2, pid2);
            if k < 0 {
                assert forall|j: int| 0 <= j < s2.len() implies !((#[trigger] s2[j]).owner == id2
                    && s2[j].plan.plan_id == pid2) by {
                    let j0 = if j < i { j } else { j + 1 };
                    assert(s2[j] == plans[j0]);
                }
            } else {
                let k2 = if k < i { k } else { k - 1 };
                assert(s2[k2] == plans[k]);
                let m = plan_idx(s2, id2, pid2);
                assert(m >= 0);
                assert(s2[m].owner == id2 && s2[m].plan.plan_id == pid2);
                assert(m == k2);
            }
        }
    }
}

/// When a record for the key exists at `i` and keys are unique, the scan
/// finds exactly that record.
pub proof fn lemma_plan_idx_of_match(plans: Seq<PlanRec>, id: Identity, pid: u64, i: int)
    requires
        unique_plan_keys(plans),
        0 <= i < plans.len(),
        plans[i].owner == id,
        plans[i].plan.plan_id == pid,
    ensures
        plan_idx(plans, id, pid) == i,
{
    lemma_plan_idx(plans, id, pid);
}

/// The mathematical content of a [`Store`]: the four administrative
/// singletons and the two record families.
#[verifier::ext_equal]
pub ghost struct StoreView {
    pub admin: Option<Identity>,
    pub admin_pubkey: Option<Seq<u8>>,
    pub paused: Option<bool>,
    pub fee_recipient: Option<Identity>,
    pub fee_bps: Option<u32>,
    pub users: Seq<UserRec>,
    pub plans: Seq<PlanRec>,
}

impl StoreView {
    /// The store as it stands before any write.
    pub open spec fn init() -> StoreView {
        StoreView {
            admin: None,
            admin_pubkey: None,
            paused: None,
            fee_recipient: None,
            fee_bps: None,
            users: Seq::empty(),
            plans: Seq::empty(),
        }
    }

    /// Record keys are unique and the stored fee rate is in range.
    pub open spec fn wf(self) -> bool {
        &&& unique_user_keys(self.users)
        &&& unique_plan_keys(self.plans)
        &&& (self.fee_bps matches Some(b) ==> b <= MAX_FEE_BPS)
    }

    /// The global write gate; an absent flag means the ledger is not paused.
    pub open spec fn is_paused(self) -> bool {
        self.paused == Some(true)
    }

    /// The fee rate in force; an absent record means a rate of zero.
    pub open spec fn fee_bps_or_default(self) -> u32 {
        match self.fee_bps {
            Some(b) => b,
            None => 0,
        }
    }

    /// The view after deleting the record under `key`; deleting an absent
    /// key changes nothing.
    pub open spec fn remove_key(self, key: DataKey) -> StoreView {
        match key {
            DataKey::Admin => StoreView { admin: None, admin_pubkey: None, ..self },
            DataKey::Paused => StoreView { paused: None, ..self },
            DataKey::FeeRecipient => StoreView { fee_recipient: None, ..self },
            DataKey::FeeBps => StoreView { fee_bps: None, ..self },
            DataKey::User(id) => StoreView { users: remove_user_seq(self.users, id), ..self },
            DataKey::SavingsPlan(id, pid) => StoreView {
                plans: remove_plan_seq(self.plans, id, pid),
                ..self
            },
        }
    }

    /// Whether a record is stored under `key`.
    pub open spec fn has_key(self, key: DataKey) -> bool {
        match key {
            DataKey::Admin => self.admin is Some,
            DataKey::Paused => self.paused is Some,
            DataKey::FeeRecipient => self.fee_recipient is Some,
            DataKey::FeeBps => self.fee_bps is Some,
            DataKey::User(id) => find_user(self.users, id) is Some,
            DataKey::SavingsPlan(id, pid) => find_plan(self.plans, id, pid) is Some,
        }
    }
}

/// The typed persistent map all ledger records live in, keyed by
/// [`DataKey`].  Reads of an absent key return `None`; writes are in-place
/// and keep record keys unique.
pub struct Store {
    admin: Option<Identity>,
    admin_pubkey: Option<Vec<u8>>,
    paused: Option<bool>,
    fee_recipient: Option<Identity>,
    fee_bps: Option<u32>,
    users: Vec<UserRec>,
    plans: Vec<PlanRec>,
}

impl View for Store {
    type V = StoreView;

    closed spec fn view(&self) -> StoreView {
        StoreView {
            admin: self.admin,
            admin_pubkey: match self.admin_pubkey {
                Some(v) => Some(v@),
                None => None,
            },
            paused: self.paused,
            fee_recipient: self.fee_recipient,
            fee_bps: self.fee_bps,
            users: self.users@,
            plans: self.plans@,
        }
    }
}

/// Position of the record for `id`, scanning from the end.
fn user_pos(users: &Vec<UserRec>, id: Identity) -> (r: Option<usize>)
    ensures
        r matches Some(i) ==> i < users@.len() && user_idx(users@, id) == i,
        r is None ==> user_idx(users@, id) == -1,
{
    let mut i: usize = users.len();
    proof {
        assert(users@.subrange(0, i as int) =~= users@);
    }
    while i > 0
        invariant
            i <= users@.len(),
            user_idx(users@, id) == user_idx(users@.subrange(0, i as int), id),
        decreases i,
    {
        i = i - 1;
        let ghost prefix_len: int = i as int + 1;
        proof {
            assert(users@.subrange(0, prefix_len).last() == users@[i as int]);
        }
        if users[i].owner == id {
            return Some(i);
        }
        proof {
            assert(users@.subrange(0, prefix_len).drop_last() =~= users@.subrange(0, i as int));
        }
    }
    None
}

/// Position of the record for `(id, pid)`, scanning from the end.
fn plan_pos(plans: &Vec<PlanRec>, id: Identity, pid: u64) -> (r: Option<usize>)
    ensures
        r matches Some(i) ==> i < plans@.len() && plan_idx(plans@, id, pid) == i,
        r is None ==> plan_idx(plans@, id, pid) == -1,
{
    let mut i: usize = plans.len();
    proof {
        assert(plans@.subrange(0, i as int) =~= plans@);
    }
    while i > 0
        invariant
            i <= plans@.len(),
            plan_idx(plans@, id, pid) == plan_idx(plans@.subrange(0, i as int), id, pid),
        decreases i,
    {
        i = i - 1;
        let ghost prefix_len: int = i as int + 1;
        proof {
            assert(plans@.subrange(0, prefix_len).last() == plans@[i as int]);
        }
        if plans[i].owner == id && plans[i].plan.plan_id == pid {
            return Some(i);
        }
        proof {
            assert(plans@.subrange(0, prefix_len).drop_last() =~= plans@.subrange(0, i as int));
        }
    }
    None
}

/// Position of the active open-ended plan of `id`, scanning from the end.
fn flexi_pos(plans: &Vec<PlanRec>, id: Identity) -> (r: Option<usize>)
    ensures
        r matches Some(i) ==> i < plans@.len() && flexi_idx(plans@, id) == i,
        r is None ==> flexi_idx(plans@, id) == -1,
{
    let mut i: usize = plans.len();
    proof {
        assert(plans@.subrange(0, i as int) =~= plans@);
    }
    while i > 0
        invariant
            i <= plans@.len(),
            flexi_idx(plans@, id) == flexi_idx(plans@.subrange(0, i as int), id),
        decreases i,
    {
        i = i - 1;
        let ghost prefix_len: int = i as int + 1;
        proof {
            assert(plans@.subrange(0, prefix_len).last() == plans@[i as int]);
        }
        let r = &plans[i];
        if r.owner == id && matches!(r.plan.plan_type, PlanType::Flexi) && !r.plan.is_withdrawn {
            return Some(i);
        }
        proof {
            assert(plans@.subrange(0, prefix_len).drop_last() =~= plans@.subrange(0, i as int));
        }
    }
    None
}

impl Store {
    /// An empty store: no singleton set, no user, no plan.
    pub fn new() -> (s: Store)
        ensures
            s@ == StoreView::init(),
            s@.wf(),
    {
        let s = Store {
            admin: None,
            admin_pubkey: None,
            paused: None,
            fee_recipient: None,
            fee_bps: None,
            users: Vec::new(),
            plans: Vec::new(),
        };
        proof {
            assert(s@ =~= StoreView::init());
        }
        s
    }

    /// Read of the user record for `id`.
    pub fn get_user(&self, id: Identity) -> (r: Option<User>)
        ensures
            r == find_user(self@.users, id),
    {
        match user_pos(&self.users, id) {
            Some(i) => Some(self.users[i].data),
            None => None,
        }
    }

    /// Write of the user record for `id`.
    pub fn set_user(&mut self, id: Identity, data: User)
        requires
            old(self)@.wf(),
        ensures
            final(self)@.wf(),
            final(self)@ == (StoreView {
                users: set_user_seq(old(self)@.users, id, data),
                ..old(self)@
            }),
    {
        let rec = UserRec { owner: id, data };
        match user_pos(&self.users, id) {
            Some(i) => {
                self.users[i] = rec;
            },
            None => {
                self.users.push(rec);
            },
        }
        proof {
            lemma_set_user_seq_unique(old(self)@.users, id, data);
            assert(self@ =~= (StoreView {
                users: set_user_seq(old(self)@.users, id, data),
                ..old(self)@
            }));
        }
    }

    /// Read of the savings plan record for `(id, pid)`.
    pub fn get_plan(&self, id: Identity, pid: u64) -> (r: Option<SavingsPlan>)
        ensures
            r == find_plan(self@.plans, id, pid),
    {
        match plan_pos(&self.plans, id, pid) {
            Some(i) => Some(self.plans[i].plan),
            None => None,
        }
    }

    /// Write of the savings plan record for `(id, plan.plan_id)`.
    pub fn set_plan(&mut self, id: Identity, plan: SavingsPlan)
        requires
            old(self)@.wf(),
        ensures
            final(self)@.wf(),
            final(self)@ == (StoreView {
                plans: set_plan_seq(old(self)@.plans, id, plan),
                ..old(self)@
            }),
    {
        let rec = PlanRec { owner: id, plan };
        match plan_pos(&self.plans, id, plan.plan_id) {
            Some(i) => {
                self.plans[i] = rec;
            },
            None => {
                self.plans.push(rec);
            },
        }
        proof {
            lemma_set_plan_seq_unique(old(self)@.plans, id, plan);
            assert(self@ =~= (StoreView {
                plans: set_plan_seq(old(self)@.plans, id, plan),
                ..old(self)@
            }));
        }
    }

    /// The active open-ended plan of `id`, if any.
    pub fn get_active_flexi(&self, id: Identity) -> (r: Option<SavingsPlan>)
        ensures
            flexi_idx(self@.plans, id) >= 0 ==> r == Some(
                self@.plans[flexi_idx(self@.plans, id)].plan,
            ),
            flexi_idx(self@.plans, id) == -1 ==> r is None,
    {
        match flexi_pos(&self.plans, id) {
            Some(i) => Some(self.plans[i].plan),
            None => None,
        }
    }

    /// Read of the admin singleton.
    pub fn get_admin(&self) -> (r: Option<Identity>)
        ensures
            r == self@.admin,
    {
        self.admin
    }

    /// Write of the admin singleton and its public key record.
    pub fn set_admin(&mut self, id: Identity, pubkey: Vec<u8>)
        requires
            old(self)@.wf(),
        ensures
            final(self)@.wf(),
            final(self)@ == (StoreView {
                admin: Some(id),
                admin_pubkey: Some(pubkey@),
                ..old(self)@
            }),
    {
        self.admin = Some(id);
        self.admin_pubkey = Some(pubkey);
        proof {
            assert(self@ =~= (StoreView {
                admin: Some(id),
                admin_pubkey: Some(pubkey@),
                ..old(self)@
            }));
        }
    }

    /// Read of the pause flag, closed by default.
    pub fn get_paused(&self) -> (r: bool)
        ensures
            r == self@.is_paused(),
    {
        match self.paused {
            Some(p) => p,
            None => false,
        }
    }

    /// Write of the pause flag.
    pub fn set_paused(&mut self, p: bool)
        requires
            old(self)@.wf(),
        ensures
            final(self)@.wf(),
            final(self)@ == (StoreView { paused: Some(p), ..old(self)@ }),
    {
        self.paused = Some(p);
        proof {
            assert(self@ =~= (StoreView { paused: Some(p), ..old(self)@ }));
        }
    }

    /// Read of the fee recipient singleton.
    pub fn get_fee_recipient(&self) -> (r: Option<Identity>)
        ensures
            r == self@.fee_recipient,
    {
        self.fee_recipient
    }

    /// Write of the fee recipient singleton.
    pub fn set_fee_recipient(&mut self, id: Identity)
        requires
            old(self)@.wf(),
        ensures
            final(self)@.wf(),
            final(self)@ == (StoreView { fee_recipient: Some(id), ..old(self)@ }),
    {
        self.fee_recipient = Some(id);
        proof {
            assert(self@ =~= (StoreView { fee_recipient: Some(id), ..old(self)@ }));
        }
    }

    /// Read of the fee rate singleton, zero by default.
    pub fn get_fee_bps(&self) -> (r: u32)
        ensures
            r == self@.fee_bps_or_default(),
    {
        match self.fee_bps {
            Some(b) => b,
            None => 0,
        }
    }

    /// Write of the fee rate singleton; the range bound is part of the
    /// store's own well-formedness.
    pub fn set_fee_bps(&mut self, bps: u32)
        requires
            old(self)@.wf(),
            bps <= MAX_FEE_BPS,
        ensures
            final(self)@.wf(),
            final(self)@ == (StoreView { fee_bps: Some(bps), ..old(self)@ }),
    {
        self.fee_bps = Some(bps);
        proof {
            assert(self@ =~= (StoreView { fee_bps: Some(bps), ..old(self)@ }));
        }
    }

    /// Deletes the record under `key`; deleting an absent key changes
    /// nothing.
    pub fn remove(&mut self, key: DataKey)
        requires
            old(self)@.wf(),
        ensures
            final(self)@.wf(),
            final(self)@ == old(self)@.remove_key(key),
    {
        match key {
            DataKey::Admin => {
                self.admin = None;
                self.admin_pubkey = None;
            },
            DataKey::Paused => {
                self.paused = None;
            },
            DataKey::FeeRecipient => {
                self.fee_recipient = None;
            },
            DataKey::FeeBps => {
                self.fee_bps = None;
            },
            DataKey::User(id) => {
                proof {
                    lemma_remove_user_seq(self@.users, id, id);
                }
                match user_pos(&self.users, id) {
                    Some(i) => {
                        self.users.remove(i);
                    },
                    None => {},
                }
            },
            DataKey::SavingsPlan(id, pid) => {
                proof {
                    lemma_remove_plan_seq(self@.plans, id, pid, id, pid);
                }
                match plan_pos(&self.plans, id, pid) {
                    Some(i) => {
                        self.plans.remove(i);
                    },
                    None => {},
                }
            },
        }
        proof {
            assert(self@ =~= old(self)@.remove_key(key));
        }
    }

    /// Whether a record is stored under `key`.
    pub fn has(&self, key: DataKey) -> (r: bool)
        ensures
            r == self@.has_key(key),
    {
        match key {
            DataKey::Admin => self.admin.is_some(),
            DataKey::Paused => self.paused.is_some(),
            DataKey::FeeRecipient => self.fee_recipient.is_some(),
            DataKey::FeeBps => self.fee_bps.is_some(),
            DataKey::User(id) => self.get_user(id).is_some(),
            DataKey::SavingsPlan(id, pid) => self.get_plan(id, pid).is_some(),
        }
    }
}

} // verus!
