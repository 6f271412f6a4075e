use vstd::prelude::*;

use crate::contract::{
    create_plan_spec, initialize_user_spec, withdraw_flexi_spec, withdraw_lock_spec,
};
use crate::errors::SavingsError;
use crate::storage_types::{Identity, PlanType, SavingsPlan, User};
use crate::store::{
    find_plan, find_user, flexi_idx, lemma_flexi_idx, lemma_plan_idx, lemma_plan_idx_of_match,
    lemma_set_plan_seq, lemma_set_plan_seq_unique, lemma_set_user_seq, lemma_set_user_seq_unique,
    lemma_user_idx, plan_idx, user_idx, PlanRec, StoreView, UserRec,
};

verus! {

/// What a plan record contributes to its owner's aggregate balance: its
/// balance while it has not been withdrawn, nothing afterwards.
pub open spec fn active_contrib(r: PlanRec, id: Identity) -> int {
    if r.owner == id && !r.plan.is_withdrawn {
        r.plan.balance as int
    } else {
        0
    }
}

/// Sum of `balance` over all of `id`'s plans not yet withdrawn.
pub open spec fn sum_active(plans: Seq<PlanRec>, id: Identity) -> int
    decreases plans.len(),
{
    if plans.len() == 0 {
        0
    } else {
        sum_active(plans.drop_last(), id) + active_contrib(plans.last(), id)
    }
}

/// Replacing one record moves the sum by the difference of the two records'
/// contributions.
pub proof fn lemma_sum_update(plans: Seq<PlanRec>, i: int, rec: PlanRec, id: Identity)
    requires
        0 <= i < plans.len(),
    ensures
        sum_active(plans.update(i, rec), id) == sum_active(plans, id) - active_contrib(
            plans[i],
            id,
        ) + active_contrib(rec, id),
    decreases plans.len(),
{
    let s2 = plans.update(i, rec);
    if i == plans.len() - 1 {
        assert(s2.drop_last() =~= plans.drop_last());
        assert(s2.last() == rec);
    } else {
        assert(s2.last() == plans.last());
        assert(s2.drop_last() =~= plans.drop_last().update(i, rec));
        lemma_sum_update(plans.drop_last(), i, rec, id);
    }
}

/// Appending a record adds exactly its contribution.
pub proof fn lemma_sum_push(plans: Seq<PlanRec>, rec: PlanRec, id: Identity)
    ensures
        sum_active(plans.push(rec), id) == sum_active(plans, id) + active_contrib(rec, id),
{
    assert(plans.push(rec).drop_last() =~= plans);
    assert(plans.push(rec).last() == rec);
}

/// An identity that owns no plan has an empty sum.
pub proof fn lemma_sum_absent(plans: Seq<PlanRec>, id: Identity)
    requires
        forall|j: int| 0 <= j < plans.len() ==> (#[trigger] plans[j]).owner != id,
    ensures
        sum_active(plans, id) == 0,
    decreases plans.len(),
{
    if plans.len() > 0 {
        assert(forall|j: int|
            0 <= j < plans.len() - 1 ==> plans.drop_last()[j] == #[trigger] plans[j]);
        lemma_sum_absent(plans.drop_last(), id);
    }
}

/// With no negative balances the sum is never negative.
pub proof fn lemma_sum_nonneg(plans: Seq<PlanRec>, id: Identity)
    requires
        forall|j: int| 0 <= j < plans.len() ==> (#[trigger] plans[j]).plan.balance >= 0,
    ensures
        sum_active(plans, id) >= 0,
    decreases plans.len(),
{
    if plans.len() > 0 {
        assert(forall|j: int|
            0 <= j < plans.len() - 1 ==> plans.drop_last()[j] == #[trigger] plans[j]);
        lemma_sum_nonneg(plans.drop_last(), id);
    }
}

/// With no negative balances the sum covers each single active plan.
pub proof fn lemma_sum_lower_bound(plans: Seq<PlanRec>, i: int, id: Identity)
    requires
        forall|j: int| 0 <= j < plans.len() ==> (#[trigger] plans[j]).plan.balance >= 0,
        0 <= i < plans.len(),
        plans[i].owner == id,
        !plans[i].plan.is_withdrawn,
    ensures
        sum_active(plans, id) >= plans[i].plan.balance,
    decreases plans.len(),
{
    assert(forall|j: int| 0 <= j < plans.len() - 1 ==> plans.drop_last()[j] == #[trigger] plans[j]);
    if i == plans.len() - 1 {
        lemma_sum_nonneg(plans.drop_last(), id);
    } else {
        lemma_sum_lower_bound(plans.drop_last(), i, id);
    }
}

/// Whether the owner of a plan record holds a user record whose creation
/// count is past the plan's id.
pub open spec fn owner_counts_plan(users: Seq<UserRec>, r: PlanRec) -> bool {
    match find_user(users, r.owner) {
        Some(u) => r.plan.plan_id < u.savings_count,
        None => false,
    }
}

/// No plan's balance is negative.
pub open spec fn balances_nonneg(plans: Seq<PlanRec>) -> bool {
    forall|j: int| 0 <= j < plans.len() ==> (#[trigger] plans[j]).plan.balance >= 0
}

/// Every plan belongs to a recorded user and carries an id below that
/// user's creation count.
pub open spec fn plans_owned(v: StoreView) -> bool {
    forall|j: int| 0 <= j < v.plans.len() ==> owner_counts_plan(v.users, #[trigger] v.plans[j])
}

/// Every user's aggregate balance equals the sum of balances of that
/// identity's plans not yet withdrawn.
pub open spec fn totals_match(v: StoreView) -> bool {
    forall|k: int|
        0 <= k < v.users.len() ==> (#[trigger] v.users[k]).data.total_balance == sum_active(
            v.plans,
            v.users[k].owner,
        )
}

/// The ledger invariant: a well-formed store in which balances are
/// non-negative, every plan is owned by a recorded user, and each user's
/// aggregate balance moves in lockstep with that identity's plan balances.
/// It holds of the empty store and every entry point preserves it.
pub open spec fn consistent(v: StoreView) -> bool {
    &&& v.wf()
    &&& balances_nonneg(v.plans)
    &&& plans_owned(v)
    &&& totals_match(v)
}

/// The empty store is consistent.
pub proof fn lemma_init_consistent()
    ensures
        consistent(StoreView::init()),
{
}

/// Creating a user record keeps the ledger consistent: the new aggregate is
/// zero and no plan yet refers to the new identity.
pub proof fn lemma_initialize_user_consistent(v: StoreView, user: Identity)
    requires
        consistent(v),
    ensures
        consistent(initialize_user_spec(v, user).0),
{
    let v2 = initialize_user_spec(v, user).0;
    if !v.is_paused() && find_user(v.users, user) is None {
        let data = User { total_balance: 0, savings_count: 0 };
        lemma_user_idx(v.users, user);
        lemma_set_user_seq_unique(v.users, user, data);
        assert(v2.users == v.users.push(UserRec { owner: user, data }));
        assert(forall|j: int|
            0 <= j < v.plans.len() ==> (#[trigger] v.plans[j]).owner != user) by {
            assert forall|j: int| 0 <= j < v.plans.len() implies (#[trigger] v.plans[j]).owner
                != user by {
                assert(owner_counts_plan(v.users, v.plans[j]));
            }
        }
        assert forall|j: int| 0 <= j < v2.plans.len() implies owner_counts_plan(
            v2.users,
            #[trigger] v2.plans[j],
        ) by {
            assert(owner_counts_plan(v.users, v.plans[j]));
            lemma_set_user_seq(v.users, user, data, v.plans[j].owner);
        }
        assert forall|k: int|
            0 <= k < v2.users.len() implies (#[trigger] v2.users[k]).data.total_balance
            == sum_active(v2.plans, v2.users[k].owner) by {
            if k < v.users.len() {
                assert(v2.users[k] == v.users[k]);
            } else {
                assert(v2.users[k] == UserRec { owner: user, data });
                lemma_sum_absent(v.plans, user);
            }
        }
    }
}

/// Creating a plan keeps the ledger consistent: the seeded amount joins both
/// the plan and its owner's aggregate, and the fresh id collides with no
/// stored plan.
pub proof fn lemma_create_plan_consistent(
    v: StoreView,
    user: Identity,
    plan_type: PlanType,
    amount: i128,
    now: u64,
)
    requires
        consistent(v),
        amount >= 0,
    ensures
        consistent(create_plan_spec(v, user, plan_type, amount, now).0),
{
    let v2 = create_plan_spec(v, user, plan_type, amount, now).0;
    if !v.is_paused() && find_user(v.users, user) is Some {
        let u = find_user(v.users, user)->Some_0;
        if u.savings_count != u64::MAX && u.total_balance + amount <= i128::MAX && u.total_balance
            + amount >= i128::MIN {
            let pid = u.savings_count;
            let plan = crate::contract::new_plan(pid, plan_type, amount, now);
            let u2 = User {
                total_balance: (u.total_balance + amount) as i128,
                savings_count: (u.savings_count + 1) as u64,
            };
            let iu = user_idx(v.users, user);
            lemma_user_idx(v.users, user);
            lemma_set_user_seq_unique(v.users, user, u2);
            lemma_set_plan_seq_unique(v.plans, user, plan);
            // no stored plan of this user carries the fresh id
            assert forall|j: int| 0 <= j < v.plans.len() implies !((#[trigger] v.plans[j]).owner
                == user && v.plans[j].plan.plan_id == pid) by {
                assert(owner_counts_plan(v.users, v.plans[j]));
            }
            lemma_plan_idx(v.plans, user, pid);
            assert(plan_idx(v.plans, user, pid) == -1);
            assert(v2.plans == v.plans.push(PlanRec { owner: user, plan }));
            assert(v2.users == v.users.update(iu, UserRec { owner: user, data: u2 }));
            assert(balances_nonneg(v2.plans)) by {
                assert forall|j: int| 0 <= j < v2.plans.len() implies (#[trigger] v2.plans[j]).plan.balance
                    >= 0 by {
                    if j < v.plans.len() {
                        assert(v2.plans[j] == v.plans[j]);
                    }
                }
            }
            assert forall|j: int| 0 <= j < v2.plans.len() implies owner_counts_plan(
                v2.users,
                #[trigger] v2.plans[j],
            ) by {
                lemma_set_user_seq(v.users, user, u2, v2.plans[j].owner);
                if j < v.plans.len() {
                    assert(v2.plans[j] == v.plans[j]);
                    assert(owner_counts_plan(v.users, v.plans[j]));
                }
            }
            assert forall|k: int|
                0 <= k < v2.users.len() implies (#[trigger] v2.users[k]).data.total_balance
                == sum_active(v2.plans, v2.users[k].owner) by {
                lemma_sum_push(v.plans, PlanRec { owner: user, plan }, v2.users[k].owner);
                if k == iu {
                    assert(v2.users[k] == UserRec { owner: user, data: u2 });
                } else {
                    assert(v2.users[k] == v.users[k]);
                    assert(v.users[k].owner != user);
                }
            }
        }
    }
}

/// A withdrawal from an open-ended plan keeps the ledger consistent: plan
/// and aggregate shrink by the same amount.
pub proof fn lemma_withdraw_flexi_consistent(v: StoreView, user: Identity, amount: i128, now: u64)
    requires
        consistent(v),
    ensures
        consistent(withdraw_flexi_spec(v, user, amount, now).0),
{
    let v2 = withdraw_flexi_spec(v, user, amount, now).0;
    let fi = flexi_idx(v.plans, user);
    lemma_flexi_idx(v.plans, user);
    if !v.is_paused() && find_user(v.users, user) is Some && fi >= 0 {
        let u = find_user(v.users, user)->Some_0;
        let p = v.plans[fi].plan;
        if !(amount > p.balance || p.balance - amount > i128::MAX || u.total_balance - amount
            < i128::MIN || u.total_balance - amount > i128::MAX) {
            let drained = p.balance == amount;
            let p2 = SavingsPlan {
                balance: (p.balance - amount) as i128,
                last_withdraw: now,
                is_completed: p.is_completed || drained,
                is_withdrawn: drained,
                ..p
            };
            let u2 = User { total_balance: (u.total_balance - amount) as i128, ..u };
            let rec2 = PlanRec { owner: user, plan: p2 };
            let iu = user_idx(v.users, user);
            lemma_user_idx(v.users, user);
            lemma_set_user_seq_unique(v.users, user, u2);
            lemma_set_plan_seq_unique(v.plans, user, p2);
            lemma_plan_idx_of_match(v.plans, user, p.plan_id, fi);
            assert(v2.plans == v.plans.update(fi, rec2));
            assert(v2.users == v.users.update(iu, UserRec { owner: user, data: u2 }));
            assert(balances_nonneg(v2.plans)) by {
                assert forall|j: int|
                    0 <= j < v2.plans.len() implies (#[trigger] v2.plans[j]).plan.balance >= 0 by {
                    if j != fi {
                        assert(v2.plans[j] == v.plans[j]);
                    }
                }
            }
            assert forall|j: int| 0 <= j < v2.plans.len() implies owner_counts_plan(
                v2.users,
                #[trigger] v2.plans[j],
            ) by {
                lemma_set_user_seq(v.users, user, u2, v2.plans[j].owner);
                if j != fi {
                    assert(v2.plans[j] == v.plans[j]);
                    assert(owner_counts_plan(v.users, v.plans[j]));
                } else {
                    assert(owner_counts_plan(v.users, v.plans[fi]));
                }
            }
            assert forall|k: int|
                0 <= k < v2.users.len() implies (#[trigger] v2.users[k]).data.total_balance
                == sum_active(v2.plans, v2.users[k].owner) by {
                lemma_sum_update(v.plans, fi, rec2, v2.users[k].owner);
                if k == iu {
                    assert(v2.users[k] == UserRec { owner: user, data: u2 });
                    assert(active_contrib(v.plans[fi], user) == p.balance);
                    assert(active_contrib(rec2, user) == p.balance - amount);
                } else {
                    assert(v2.users[k] == v.users[k]);
                    assert(v.users[k].owner != user);
                    assert(active_contrib(v.plans[fi], v.users[k].owner) == 0);
                    assert(active_contrib(rec2, v.users[k].owner) == 0);
                }
            }
        }
    }
}

/// A lock payout keeps the ledger consistent: the full balance leaves both
/// the plan and its owner's aggregate.
pub proof fn lemma_withdraw_lock_consistent(v: StoreView, user: Identity, plan_id: u64, now: u64)
    requires
        consistent(v),
    ensures
        consistent(withdraw_lock_spec(v, user, plan_id, now).0),
{
    let v2 = withdraw_lock_spec(v, user, plan_id, now).0;
    lemma_plan_idx(v.plans, user, plan_id);
    if !v.is_paused() && find_user(v.users, user) is Some && find_plan(v.plans, user, plan_id)
        is Some {
        let u = find_user(v.users, user)->Some_0;
        let p = find_plan(v.plans, user, plan_id)->Some_0;
        if p.plan_type is Lock && now >= p.plan_type->Lock_0 && !p.is_withdrawn && u.total_balance
            - p.balance >= i128::MIN && u.total_balance - p.balance <= i128::MAX {
            let ip = plan_idx(v.plans, user, plan_id);
            let p2 = SavingsPlan {
                balance: 0,
                last_withdraw: now,
                is_completed: true,
                is_withdrawn: true,
                ..p
            };
            let u2 = User { total_balance: (u.total_balance - p.balance) as i128, ..u };
            let rec2 = PlanRec { owner: user, plan: p2 };
            let iu = user_idx(v.users, user);
            lemma_user_idx(v.users, user);
            lemma_set_user_seq_unique(v.users, user, u2);
            lemma_set_plan_seq_unique(v.plans, user, p2);
            lemma_plan_idx_of_match(v.plans, user, plan_id, ip);
            assert(v2.plans == v.plans.update(ip, rec2));
            assert(v2.users == v.users.update(iu, UserRec { owner: user, data: u2 }));
            assert(balances_nonneg(v2.plans)) by {
                assert forall|j: int|
                    0 <= j < v2.plans.len() implies (#[trigger] v2.plans[j]).plan.balance >= 0 by {
                    if j != ip {
                        assert(v2.plans[j] == v.plans[j]);
                    }
                }
            }
            assert forall|j: int| 0 <= j < v2.plans.len() implies owner_counts_plan(
                v2.users,
                #[trigger] v2.plans[j],
            ) by {
                lemma_set_user_seq(v.users, user, u2, v2.plans[j].owner);
                if j != ip {
                    assert(v2.plans[j] == v.plans[j]);
                    assert(owner_counts_plan(v.users, v.plans[j]));
                } else {
                    assert(owner_counts_plan(v.users, v.plans[ip]));
                }
            }
            assert forall|k: int|
                0 <= k < v2.users.len() implies (#[trigger] v2.users[k]).data.total_balance
                == sum_active(v2.plans, v2.users[k].owner) by {
                lemma_sum_update(v.plans, ip, rec2, v2.users[k].owner);
                if k == iu {
                    assert(v2.users[k] == UserRec { owner: user, data: u2 });
                    assert(active_contrib(v.plans[ip], user) == p.balance);
                    assert(active_contrib(rec2, user) == 0);
                } else {
                    assert(v2.users[k] == v.users[k]);
                    assert(v.users[k].owner != user);
                    assert(active_contrib(v.plans[ip], v.users[k].owner) == 0);
                    assert(active_contrib(rec2, v.users[k].owner) == 0);
                }
            }
        }
    }
}

/// On a consistent ledger a lock payout never fails for lack of aggregate
/// balance: the aggregate always covers each single active plan.
pub proof fn lemma_withdraw_lock_solvent(v: StoreView, user: Identity, plan_id: u64, now: u64)
    requires
        consistent(v),
    ensures
        withdraw_lock_spec(v, user, plan_id, now).1 != Err::<i128, SavingsError>(
            SavingsError::InsufficientBalance,
        ),
{
    if !v.is_paused() && find_user(v.users, user) is Some && find_plan(v.plans, user, plan_id)
        is Some {
        let u = find_user(v.users, user)->Some_0;
        let p = find_plan(v.plans, user, plan_id)->Some_0;
        if p.plan_type is Lock && now >= p.plan_type->Lock_0 && !p.is_withdrawn {
            let ip = plan_idx(v.plans, user, plan_id);
            lemma_plan_idx(v.plans, user, plan_id);
            let iu = user_idx(v.users, user);
            lemma_user_idx(v.users, user);
            lemma_sum_lower_bound(v.plans, ip, user);
            assert(u.total_balance == sum_active(v.plans, user));
        }
    }
}

/// A successful lock payout returns exactly the plan's pre-call balance, and
/// running the withdrawal again afterwards fails as already withdrawn while
/// mutating nothing.
pub proof fn lemma_withdraw_lock_once(
    v: StoreView,
    user: Identity,
    plan_id: u64,
    now: u64,
    later: u64,
)
    requires
        withdraw_lock_spec(v, user, plan_id, now).1 is Ok,
        now <= later,
    ensures
        find_plan(v.plans, user, plan_id) matches Some(p) && withdraw_lock_spec(
            v,
            user,
            plan_id,
            now,
        ).1 == Ok::<i128, SavingsError>(p.balance),
        withdraw_lock_spec(withdraw_lock_spec(v, user, plan_id, now).0, user, plan_id, later).1
            == Err::<i128, SavingsError>(SavingsError::AlreadyWithdrawn),
        withdraw_lock_spec(withdraw_lock_spec(v, user, plan_id, now).0, user, plan_id, later).0
            == withdraw_lock_spec(v, user, plan_id, now).0,
{
    let v2 = withdraw_lock_spec(v, user, plan_id, now).0;
    let u = find_user(v.users, user)->Some_0;
    let p = find_plan(v.plans, user, plan_id)->Some_0;
    lemma_plan_idx(v.plans, user, plan_id);
    let p2 = SavingsPlan {
        balance: 0,
        last_withdraw: now,
        is_completed: true,
        is_withdrawn: true,
        ..p
    };
    let u2 = User { total_balance: (u.total_balance - p.balance) as i128, ..u };
    lemma_set_user_seq(v.users, user, u2, user);
    lemma_set_plan_seq(v.plans, user, p2, user, plan_id);
    assert(find_plan(v2.plans, user, plan_id) == Some(p2));
    assert(find_user(v2.users, user) == Some(u2));
}

/// A lock withdrawal attempted before maturity fails as not matured and
/// mutates nothing.
pub proof fn lemma_withdraw_lock_not_matured(v: StoreView, user: Identity, plan_id: u64, now: u64)
    requires
        !v.is_paused(),
        find_user(v.users, user) is Some,
        find_plan(v.plans, user, plan_id) matches Some(p) && p.plan_type matches PlanType::Lock(m)
            && now < m,
    ensures
        withdraw_lock_spec(v, user, plan_id, now).1 == Err::<i128, SavingsError>(
            SavingsError::LockNotMatured,
        ),
        withdraw_lock_spec(v, user, plan_id, now).0 == v,
{
}

/// A lock withdrawal against a stored plan of any other kind fails exactly
/// as an absent plan does, and mutates nothing.
pub proof fn lemma_withdraw_lock_wrong_kind(v: StoreView, user: Identity, plan_id: u64, now: u64)
    requires
        !v.is_paused(),
        find_user(v.users, user) is Some,
        find_plan(v.plans, user, plan_id) matches Some(p) && !(p.plan_type is Lock),
    ensures
        withdraw_lock_spec(v, user, plan_id, now).1 == Err::<i128, SavingsError>(
            SavingsError::PlanNotFound,
        ),
        withdraw_lock_spec(v, user, plan_id, now).0 == v,
{
}

/// While the ledger is paused, user creation, plan creation and both
/// withdrawal paths all fail as paused and mutate nothing.
pub proof fn lemma_paused_blocks_writes(
    v: StoreView,
    user: Identity,
    plan_type: PlanType,
    amount: i128,
    plan_id: u64,
    now: u64,
)
    requires
        v.is_paused(),
    ensures
        initialize_user_spec(v, user).1 == Err::<(), SavingsError>(SavingsError::ContractPaused),
        initialize_user_spec(v, user).0 == v,
        create_plan_spec(v, user, plan_type, amount, now).1 == Err::<u64, SavingsError>(
            SavingsError::ContractPaused,
        ),
        create_plan_spec(v, user, plan_type, amount, now).0 == v,
        withdraw_flexi_spec(v, user, amount, now).1 == Err::<i128, SavingsError>(
            SavingsError::ContractPaused,
        ),
        withdraw_flexi_spec(v, user, amount, now).0 == v,
        withdraw_lock_spec(v, user, plan_id, now).1 == Err::<i128, SavingsError>(
            SavingsError::ContractPaused,
        ),
        withdraw_lock_spec(v, user, plan_id, now).0 == v,
{
}

} // verus!
