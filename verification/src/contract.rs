use vstd::prelude::*;

use crate::errors::SavingsError;
use crate::storage_types::{DataKey, Identity, PlanType, SavingsPlan, User};
use crate::store::{
    find_plan, find_user, flexi_idx, set_plan_seq, set_user_seq, Store, StoreView, MAX_FEE_BPS,
};
use vstd::arithmetic::div_mod::{
    lemma_div_by_multiple, lemma_div_is_ordered, lemma_fundamental_div_mod,
    lemma_hoist_over_denominator,
};

verus! {

// Every entry point is specified by a transition function from the store view
// and the call's inputs to the store view after the call and the call's
// result.  A failed call returns the view unchanged: no domain rule violation
// commits anything.  The executable methods promise to realise exactly these
// transitions.

/// Sets the admin singleton once; a second attempt changes nothing.
pub open spec fn initialize_spec(v: StoreView, admin: Identity, pubkey: Seq<u8>) -> (
    StoreView,
    Result<(), SavingsError>,
) {
    if v.admin is Some {
        (v, Err(SavingsError::AlreadyInitialized))
    } else {
        (StoreView { admin: Some(admin), admin_pubkey: Some(pubkey), ..v }, Ok(()))
    }
}

/// Whether `caller` is the stored admin; no operation gated on this succeeds
/// before `initialize`.
pub open spec fn is_admin(v: StoreView, caller: Identity) -> bool {
    v.admin == Some(caller)
}

/// Closes the global write gate; admin only.
pub open spec fn pause_spec(v: StoreView, caller: Identity) -> (
    StoreView,
    Result<(), SavingsError>,
) {
    if !is_admin(v, caller) {
        (v, Err(SavingsError::Unauthorized))
    } else {
        (StoreView { paused: Some(true), ..v }, Ok(()))
    }
}

/// Opens the global write gate; admin only.
pub open spec fn unpause_spec(v: StoreView, caller: Identity) -> (
    StoreView,
    Result<(), SavingsError>,
) {
    if !is_admin(v, caller) {
        (v, Err(SavingsError::Unauthorized))
    } else {
        (StoreView { paused: Some(false), ..v }, Ok(()))
    }
}

/// Sets the destination of early-break fees; admin only.
pub open spec fn set_fee_recipient_spec(v: StoreView, caller: Identity, recipient: Identity) -> (
    StoreView,
    Result<(), SavingsError>,
) {
    if !is_admin(v, caller) {
        (v, Err(SavingsError::Unauthorized))
    } else {
        (StoreView { fee_recipient: Some(recipient), ..v }, Ok(()))
    }
}

/// Sets the early-break fee rate; admin only, and a rate over one hundred
/// percent is rejected without touching the stored rate.
pub open spec fn set_fee_bps_spec(v: StoreView, caller: Identity, bps: u32) -> (
    StoreView,
    Result<(), SavingsError>,
) {
    if !is_admin(v, caller) {
        (v, Err(SavingsError::Unauthorized))
    } else if bps > MAX_FEE_BPS {
        (v, Err(SavingsError::InvalidFeeBps))
    } else {
        (StoreView { fee_bps: Some(bps), ..v }, Ok(()))
    }
}

/// Creates the aggregate record of an identity; creating it twice is an
/// error, not a silent success.
pub open spec fn initialize_user_spec(v: StoreView, user: Identity) -> (
    StoreView,
    Result<(), SavingsError>,
) {
    if v.is_paused() {
        (v, Err(SavingsError::ContractPaused))
    } else if find_user(v.users, user) is Some {
        (v, Err(SavingsError::UserAlreadyExists))
    } else {
        (
            StoreView {
                users: set_user_seq(v.users, user, User { total_balance: 0, savings_count: 0 }),
                ..v
            },
            Ok(()),
        )
    }
}

/// The record a freshly created plan starts from: seeded balance, both
/// timestamps at the current ledger time, flags clear.
pub open spec fn new_plan(pid: u64, plan_type: PlanType, amount: i128, now: u64) -> SavingsPlan {
    SavingsPlan {
        plan_id: pid,
        plan_type,
        balance: amount,
        start_time: now,
        last_deposit: now,
        last_withdraw: 0,
        interest_rate: 0,
        is_completed: false,
        is_withdrawn: false,
    }
}

/// Creates a plan for an existing user: the next plan id is the user's
/// count, the count then grows by one, and the seeded amount joins the
/// user's aggregate balance.  Arithmetic that cannot be carried out is
/// reported, never wrapped.
pub open spec fn create_plan_spec(
    v: StoreView,
    user: Identity,
    plan_type: PlanType,
    amount: i128,
    now: u64,
) -> (StoreView, Result<u64, SavingsError>) {
    if v.is_paused() {
        (v, Err(SavingsError::ContractPaused))
    } else {
        match find_user(v.users, user) {
            None => (v, Err(SavingsError::UserNotFound)),
            Some(u) => if u.savings_count == u64::MAX || u.total_balance + amount > i128::MAX
                || u.total_balance + amount < i128::MIN {
                (v, Err(SavingsError::InsufficientBalance))
            } else {
                let pid = u.savings_count;
                let u2 = User {
                    total_balance: (u.total_balance + amount) as i128,
                    savings_count: (u.savings_count + 1) as u64,
                };
                (
                    StoreView {
                        users: set_user_seq(v.users, user, u2),
                        plans: set_plan_seq(v.plans, user, new_plan(pid, plan_type, amount, now)),
                        ..v
                    },
                    Ok(pid),
                )
            },
        }
    }
}

/// Withdraws `amount` from the identity's active open-ended plan.  A partial
/// withdrawal keeps the plan active; draining it to zero completes and
/// closes it.
pub open spec fn withdraw_flexi_spec(v: StoreView, user: Identity, amount: i128, now: u64) -> (
    StoreView,
    Result<i128, SavingsError>,
) {
    if v.is_paused() {
        (v, Err(SavingsError::ContractPaused))
    } else {
        match find_user(v.users, user) {
            None => (v, Err(SavingsError::UserNotFound)),
            Some(u) => {
                let fi = flexi_idx(v.plans, user);
                if fi < 0 {
                    (v, Err(SavingsError::PlanNotFound))
                } else {
                    let p = v.plans[fi].plan;
                    if amount > p.balance || p.balance - amount > i128::MAX || u.total_balance
                        - amount < i128::MIN || u.total_balance - amount > i128::MAX {
                        (v, Err(SavingsError::InsufficientBalance))
                    } else {
                        let drained = p.balance == amount;
                        let p2 = SavingsPlan {
                            balance: (p.balance - amount) as i128,
                            last_withdraw: now,
                            is_completed: p.is_completed || drained,
                            is_withdrawn: drained,
                            ..p
                        };
                        let u2 = User { total_balance: (u.total_balance - amount) as i128, ..u };
                        (
                            StoreView {
                                users: set_user_seq(v.users, user, u2),
                                plans: set_plan_seq(v.plans, user, p2),
                                ..v
                            },
                            Ok(amount),
                        )
                    }
                }
            },
        }
    }
}

/// The withdrawal state machine of a time-locked plan.  The guards run in a
/// fixed order — pause gate, user record, plan record, plan kind, maturity,
/// terminal flag, aggregate arithmetic — and the first failing guard names
/// the error while nothing is committed.  When every guard passes, the whole
/// balance pays out, the plan becomes terminal and the user's aggregate
/// shrinks by exactly the payout.
pub open spec fn withdraw_lock_spec(v: StoreView, user: Identity, plan_id: u64, now: u64) -> (
    StoreView,
    Result<i128, SavingsError>,
) {
    if v.is_paused() {
        (v, Err(SavingsError::ContractPaused))
    } else {
        match find_user(v.users, user) {
            None => (v, Err(SavingsError::UserNotFound)),
            Some(u) => match find_plan(v.plans, user, plan_id) {
                None => (v, Err(SavingsError::PlanNotFound)),
                Some(p) => match p.plan_type {
                    PlanType::Lock(maturity) => if now < maturity {
                        (v, Err(SavingsError::LockNotMatured))
                    } else if p.is_withdrawn {
                        (v, Err(SavingsError::AlreadyWithdrawn))
                    } else if u.total_balance - p.balance < i128::MIN || u.total_balance - p.balance
                        > i128::MAX {
                        (v, Err(SavingsError::InsufficientBalance))
                    } else {
                        let p2 = SavingsPlan {
                            balance: 0,
                            last_withdraw: now,
                            is_completed: true,
                            is_withdrawn: true,
                            ..p
                        };
                        let u2 = User {
                            total_balance: (u.total_balance - p.balance) as i128,
                            ..u
                        };
                        (
                            StoreView {
                                users: set_user_seq(v.users, user, u2),
                                plans: set_plan_seq(v.plans, user, p2),
                                ..v
                            },
                            Ok(p.balance),
                        )
                    },
                    _ => (v, Err(SavingsError::PlanNotFound)),
                },
            },
        }
    }
}

/// The split of an early withdrawal from a commitment-bearing plan: the fee
/// is `balance * bps / 10000`, rounded down, routed to the fee recipient and
/// deducted from what returns to the saver.  The two parts always rebuild
/// the balance exactly and the fee never exceeds it.
pub fn early_break_split(balance: i128, bps: u32) -> (r: (i128, i128))
    requires
        balance >= 0,
        bps <= MAX_FEE_BPS,
    ensures
        r.0 == balance * bps / (MAX_FEE_BPS as int),
        r.1 == balance - r.0,
        r.0 + r.1 == balance,
        0 <= r.0 <= balance,
{
    let b = balance as u128;
    let q = b / 10000;
    let rem = b % 10000;
    proof {
        let bi = balance as int;
        let bpsi = bps as int;
        lemma_fundamental_div_mod(bi, 10000);
        assert((bi / 10000) * bpsi <= (bi / 10000) * 10000) by (nonlinear_arith)
            requires
                bpsi <= 10000,
                bi / 10000 >= 0,
        ;
        assert(bi * bpsi == ((bi % 10000) * bpsi) + ((bi / 10000) * bpsi) * 10000)
            by (nonlinear_arith)
            requires
                bi == 10000 * (bi / 10000) + bi % 10000,
        ;
        lemma_hoist_over_denominator((bi % 10000) * bpsi, (bi / 10000) * bpsi, 10000nat);
        assert((bi % 10000) * bpsi <= (bi % 10000) * 10000) by (nonlinear_arith)
            requires
                bpsi <= 10000,
                bi % 10000 >= 0,
        ;
        lemma_div_is_ordered((bi % 10000) * bpsi, (bi % 10000) * 10000, 10000);
        lemma_div_by_multiple(bi % 10000, 10000);
    }
    let fee_u = q * (bps as u128) + (rem * (bps as u128)) / 10000;
    let fee = fee_u as i128;
    (fee, balance - fee)
}

/// The savings ledger.  It holds the persistent store and exposes the public
/// operation surface; every method realises its transition function exactly.
///
/// Callers pass the acting identity and, where time matters, the current
/// ledger timestamp.  The host proves that the acting identity authorized
/// the call before the ledger is entered; operations reserved to the admin
/// additionally compare the caller against the stored admin identity here.
pub struct NesteraContract {
    store: Store,
}

impl View for NesteraContract {
    type V = StoreView;

    closed spec fn view(&self) -> StoreView {
        self.store@
    }
}

impl NesteraContract {
    /// A fresh ledger with an empty store.
    pub fn new() -> (c: NesteraContract)
        ensures
            c@ == StoreView::init(),
            c@.wf(),
    {
        NesteraContract { store: Store::new() }
    }

    /// Sets the admin identity and its public key record, exactly once.
    pub fn initialize(&mut self, admin: Identity, admin_pubkey: Vec<u8>) -> (r: Result<
        (),
        SavingsError,
    >)
        requires
            old(self)@.wf(),
        ensures
            final(self)@.wf(),
            r == initialize_spec(old(self)@, admin, admin_pubkey@).1,
            final(self)@ == initialize_spec(old(self)@, admin, admin_pubkey@).0,
    {
        if self.store.get_admin().is_some() {
            return Err(SavingsError::AlreadyInitialized);
        }
        self.store.set_admin(admin, admin_pubkey);
        Ok(())
    }

    /// Closes the global write gate.
    pub fn pause(&mut self, caller: Identity) -> (r: Result<(), SavingsError>)
        requires
            old(self)@.wf(),
        ensures
            final(self)@.wf(),
            r == pause_spec(old(self)@, caller).1,
            final(self)@ == pause_spec(old(self)@, caller).0,
    {
        if !self.caller_is_admin(caller) {
            return Err(SavingsError::Unauthorized);
        }
        self.store.set_paused(true);
        Ok(())
    }

    /// Opens the global write gate.
    pub fn unpause(&mut self, caller: Identity) -> (r: Result<(), SavingsError>)
        requires
            old(self)@.wf(),
        ensures
            final(self)@.wf(),
            r == unpause_spec(old(self)@, caller).1,
            final(self)@ == unpause_spec(old(self)@, caller).0,
    {
        if !self.caller_is_admin(caller) {
            return Err(SavingsError::Unauthorized);
        }
        self.store.set_paused(false);
        Ok(())
    }

    /// Sets the destination of early-break fees.
    pub fn set_fee_recipient(&mut self, caller: Identity, recipient: Identity) -> (r: Result<
        (),
        SavingsError,
    >)
        requires
            old(self)@.wf(),
        ensures
            final(self)@.wf(),
            r == set_fee_recipient_spec(old(self)@, caller, recipient).1,
            final(self)@ == set_fee_recipient_spec(old(self)@, caller, recipient).0,
    {
        if !self.caller_is_admin(caller) {
            return Err(SavingsError::Unauthorized);
        }
        self.store.set_fee_recipient(recipient);
        Ok(())
    }

    /// The destination of early-break fees, if one was ever set.
    pub fn get_fee_recipient(&self) -> (r: Option<Identity>)
        ensures
            r == self@.fee_recipient,
    {
        self.store.get_fee_recipient()
    }

    /// Sets the early-break fee rate in basis points.
    pub fn set_early_break_fee_bps(&mut self, caller: Identity, bps: u32) -> (r: Result<
        (),
        SavingsError,
    >)
        requires
            old(self)@.wf(),
        ensures
            final(self)@.wf(),
            r == set_fee_bps_spec(old(self)@, caller, bps).1,
            final(self)@ == set_fee_bps_spec(old(self)@, caller, bps).0,
    {
        if !self.caller_is_admin(caller) {
            return Err(SavingsError::Unauthorized);
        }
        if bps > MAX_FEE_BPS {
            return Err(SavingsError::InvalidFeeBps);
        }
        self.store.set_fee_bps(bps);
        Ok(())
    }

    /// The early-break fee rate in force, zero until one is set.
    pub fn get_early_break_fee_bps(&self) -> (r: u32)
        ensures
            r == self@.fee_bps_or_default(),
    {
        self.store.get_fee_bps()
    }

    /// Creates the aggregate record of `user`.
    pub fn initialize_user(&mut self, user: Identity) -> (r: Result<(), SavingsError>)
        requires
            old(self)@.wf(),
        ensures
            final(self)@.wf(),
            r == initialize_user_spec(old(self)@, user).1,
            final(self)@ == initialize_user_spec(old(self)@, user).0,
            crate::laws::consistent(old(self)@) ==> crate::laws::consistent(final(self)@),
    {
        proof {
            if crate::laws::consistent(self@) {
                crate::laws::lemma_initialize_user_consistent(self@, user);
            }
        }
        if self.store.get_paused() {
            return Err(SavingsError::ContractPaused);
        }
        if self.store.get_user(user).is_some() {
            return Err(SavingsError::UserAlreadyExists);
        }
        self.store.set_user(user, User { total_balance: 0, savings_count: 0 });
        Ok(())
    }

    /// Creates a savings plan of the given kind for `user`, seeded with
    /// `initial_amount`, and returns the new plan id.
    pub fn create_savings_plan(
        &mut self,
        user: Identity,
        plan_type: PlanType,
        initial_amount: i128,
        now: u64,
    ) -> (r: Result<u64, SavingsError>)
        requires
            old(self)@.wf(),
            initial_amount >= 0,
        ensures
            final(self)@.wf(),
            r == create_plan_spec(old(self)@, user, plan_type, initial_amount, now).1,
            final(self)@ == create_plan_spec(old(self)@, user, plan_type, initial_amount, now).0,
            crate::laws::consistent(old(self)@) ==> crate::laws::consistent(final(self)@),
    {
        proof {
            if crate::laws::consistent(self@) {
                crate::laws::lemma_create_plan_consistent(
                    self@,
                    user,
                    plan_type,
                    initial_amount,
                    now,
                );
            }
        }
        if self.store.get_paused() {
            return Err(SavingsError::ContractPaused);
        }
        let u = match self.store.get_user(user) {
            None => return Err(SavingsError::UserNotFound),
            Some(u) => u,
        };
        if u.savings_count == u64::MAX {
            return Err(SavingsError::InsufficientBalance);
        }
        let new_total = match u.total_balance.checked_add(initial_amount) {
            None => return Err(SavingsError::InsufficientBalance),
            Some(t) => t,
        };
        let pid = u.savings_count;
        let plan = SavingsPlan {
            plan_id: pid,
            plan_type,
            balance: initial_amount,
            start_time: now,
            last_deposit: now,
            last_withdraw: 0,
            interest_rate: 0,
            is_completed: false,
            is_withdrawn: false,
        };
        let u2 = User { total_balance: new_total, savings_count: pid + 1 };
        self.store.set_plan(user, plan);
        self.store.set_user(user, u2);
        proof {
            assert(self@ =~= create_plan_spec(
                old(self)@,
                user,
                plan_type,
                initial_amount,
                now,
            ).0);
        }
        Ok(pid)
    }

    /// Withdraws `amount` from the caller's active open-ended plan.
    pub fn withdraw_flexi(&mut self, user: Identity, amount: i128, now: u64) -> (r: Result<
        i128,
        SavingsError,
    >)
        requires
            old(self)@.wf(),
            amount >= 0,
        ensures
            final(self)@.wf(),
            r == withdraw_flexi_spec(old(self)@, user, amount, now).1,
            final(self)@ == withdraw_flexi_spec(old(self)@, user, amount, now).0,
            crate::laws::consistent(old(self)@) ==> crate::laws::consistent(final(self)@),
    {
        proof {
            if crate::laws::consistent(self@) {
                crate::laws::lemma_withdraw_flexi_consistent(self@, user, amount, now);
            }
        }
        if self.store.get_paused() {
            return Err(SavingsError::ContractPaused);
        }
        let u = match self.store.get_user(user) {
            None => return Err(SavingsError::UserNotFound),
            Some(u) => u,
        };
        let p = match self.store.get_active_flexi(user) {
            None => return Err(SavingsError::PlanNotFound),
            Some(p) => p,
        };
        proof {
            crate::store::lemma_flexi_idx(old(self)@.plans, user);
        }
        if amount > p.balance {
            return Err(SavingsError::InsufficientBalance);
        }
        let new_total = match u.total_balance.checked_sub(amount) {
            None => return Err(SavingsError::InsufficientBalance),
            Some(t) => t,
        };
        let drained = p.balance == amount;
        let p2 = SavingsPlan {
            balance: p.balance - amount,
            last_withdraw: now,
            is_completed: p.is_completed || drained,
            is_withdrawn: drained,
            ..p
        };
        let u2 = User { total_balance: new_total, ..u };
        self.store.set_plan(user, p2);
        self.store.set_user(user, u2);
        proof {
            assert(self@ =~= withdraw_flexi_spec(old(self)@, user, amount, now).0);
        }
        Ok(amount)
    }

    /// Pays out a matured time-locked plan in full and closes it.
    pub fn withdraw_lock_save(&mut self, user: Identity, plan_id: u64, now: u64) -> (r: Result<
        i128,
        SavingsError,
    >)
        requires
            old(self)@.wf(),
        ensures
            final(self)@.wf(),
            r == withdraw_lock_spec(old(self)@, user, plan_id, now).1,
            final(self)@ == withdraw_lock_spec(old(self)@, user, plan_id, now).0,
            crate::laws::consistent(old(self)@) ==> crate::laws::consistent(final(self)@),
    {
        proof {
            if crate::laws::consistent(self@) {
                crate::laws::lemma_withdraw_lock_consistent(self@, user, plan_id, now);
            }
        }
        if self.store.get_paused() {
            return Err(SavingsError::ContractPaused);
        }
        let u = match self.store.get_user(user) {
            None => return Err(SavingsError::UserNotFound),
            Some(u) => u,
        };
        let p = match self.store.get_plan(user, plan_id) {
            None => return Err(SavingsError::PlanNotFound),
            Some(p) => p,
        };
        let maturity = match p.plan_type {
            PlanType::Lock(m) => m,
            _ => return Err(SavingsError::PlanNotFound),
        };
        if now < maturity {
            return Err(SavingsError::LockNotMatured);
        }
        if p.is_withdrawn {
            return Err(SavingsError::AlreadyWithdrawn);
        }
        let withdrawal_amount = p.balance;
        let new_total = match u.total_balance.checked_sub(withdrawal_amount) {
            None => return Err(SavingsError::InsufficientBalance),
            Some(t) => t,
        };
        let p2 = SavingsPlan {
            balance: 0,
            last_withdraw: now,
            is_completed: true,
            is_withdrawn: true,
            ..p
        };
        let u2 = User { total_balance: new_total, ..u };
        self.store.set_plan(user, p2);
        self.store.set_user(user, u2);
        proof {
            assert(self@ =~= withdraw_lock_spec(old(self)@, user, plan_id, now).0);
        }
        Ok(withdrawal_amount)
    }

    /// The aggregate record of `user`, if one exists.
    pub fn get_user(&self, user: Identity) -> (r: Option<User>)
        ensures
            r == find_user(self@.users, user),
    {
        self.store.get_user(user)
    }

    /// The savings plan stored for `(user, plan_id)`, if one exists.
    pub fn get_savings_plan(&self, user: Identity, plan_id: u64) -> (r: Option<SavingsPlan>)
        ensures
            r == find_plan(self@.plans, user, plan_id),
    {
        self.store.get_plan(user, plan_id)
    }

    /// Whether the global write gate is closed.  Read-only and never gated
    /// itself.
    pub fn is_paused(&self) -> (r: bool)
        ensures
            r == self@.is_paused(),
    {
        self.store.get_paused()
    }

    /// The stored admin identity, if the ledger was initialized.
    pub fn get_admin(&self) -> (r: Option<Identity>)
        ensures
            r == self@.admin,
    {
        self.store.get_admin()
    }

    /// Writes an aggregate record directly, as the host's storage would when
    /// seeding a ledger; bypasses every domain rule.
    pub fn set_user_record(&mut self, user: Identity, data: User)
        requires
            old(self)@.wf(),
        ensures
            final(self)@.wf(),
            final(self)@ == (StoreView {
                users: set_user_seq(old(self)@.users, user, data),
                ..old(self)@
            }),
    {
        self.store.set_user(user, data);
    }

    /// Writes a plan record directly, as the host's storage would when
    /// seeding a ledger; bypasses every domain rule.
    pub fn set_plan_record(&mut self, user: Identity, plan: SavingsPlan)
        requires
            old(self)@.wf(),
        ensures
            final(self)@.wf(),
            final(self)@ == (StoreView {
                plans: set_plan_seq(old(self)@.plans, user, plan),
                ..old(self)@
            }),
    {
        self.store.set_plan(user, plan);
    }

    /// Whether a record is stored under `key`.
    pub fn has(&self, key: DataKey) -> (r: bool)
        ensures
            r == self@.has_key(key),
    {
        self.store.has(key)
    }

    /// Deletes the record under `key` directly, as the host's storage would;
    /// bypasses every domain rule.
    pub fn remove_record(&mut self, key: DataKey)
        requires
            old(self)@.wf(),
        ensures
            final(self)@.wf(),
            final(self)@ == old(self)@.remove_key(key),
    {
        self.store.remove(key);
    }

    /// Whether `caller` is the stored admin.
    fn caller_is_admin(&self, caller: Identity) -> (r: bool)
        ensures
            r == is_admin(self@, caller),
    {
        match self.store.get_admin() {
            Some(a) => a.0 == caller.0,
            None => false,
        }
    }
}

} // verus!
