use nestera::contract::NesteraContract;
use nestera::errors::SavingsError;
use nestera::storage_types::{Identity, PlanType, SavingsPlan, User};

fn lock_plan_record(plan_id: u64, maturity: u64, balance: i128, start: u64) -> SavingsPlan {
    SavingsPlan {
        plan_id,
        plan_type: PlanType::Lock(maturity),
        balance,
        start_time: start,
        last_deposit: start,
        last_withdraw: 0,
        interest_rate: 800,
        is_completed: false,
        is_withdrawn: false,
    }
}

#[test]
fn test_withdraw_lock_save_success() {
    let mut ledger = NesteraContract::new();
    let user_addr = Identity(100);
    let plan_id = 1u64;

    // Set up user data
    ledger.set_user_record(user_addr, User { total_balance: 1_000_000, savings_count: 1 });

    // Set up lock savings plan with maturity time in the past
    let maturity_time = 1000000u64;
    ledger.set_plan_record(user_addr, lock_plan_record(plan_id, maturity_time, 500_000, 900000));

    // Perform withdrawal at a ledger time after maturity
    let withdrawn = ledger.withdraw_lock_save(user_addr, plan_id, maturity_time + 100);
    assert_eq!(withdrawn, Ok(500_000));

    // Verify plan is marked as withdrawn
    let updated_plan = ledger.get_savings_plan(user_addr, plan_id).unwrap();
    assert!(updated_plan.is_withdrawn);
    assert_eq!(updated_plan.balance, 0);
    assert!(updated_plan.is_completed);
    assert_eq!(updated_plan.last_withdraw, maturity_time + 100);

    // Verify user balance is updated
    let updated_user = ledger.get_user(user_addr).unwrap();
    assert_eq!(updated_user.total_balance, 500_000);
}

#[test]
fn test_withdraw_lock_save_not_matured() {
    let mut ledger = NesteraContract::new();
    let user_addr = Identity(101);
    let plan_id = 1u64;

    ledger.set_user_record(user_addr, User { total_balance: 1_000_000, savings_count: 1 });

    // Lock savings plan with maturity time in the future
    let maturity_time = 2000000u64;
    ledger.set_plan_record(user_addr, lock_plan_record(plan_id, maturity_time, 500_000, 1000000));

    // A withdrawal before maturity fails with LockNotMatured
    let r = ledger.withdraw_lock_save(user_addr, plan_id, maturity_time - 100);
    assert_eq!(r, Err(SavingsError::LockNotMatured));
}

#[test]
fn test_withdraw_lock_save_already_withdrawn() {
    let mut ledger = NesteraContract::new();
    let user_addr = Identity(102);
    let plan_id = 1u64;

    ledger.set_user_record(user_addr, User { total_balance: 500_000, savings_count: 1 });

    // Lock savings plan that has already been withdrawn
    let maturity_time = 1000000u64;
    let plan = SavingsPlan {
        plan_id,
        plan_type: PlanType::Lock(maturity_time),
        balance: 0,
        start_time: 900000,
        last_deposit: 900000,
        last_withdraw: 1000100,
        interest_rate: 800,
        is_completed: true,
        is_withdrawn: true,
    };
    ledger.set_plan_record(user_addr, plan);

    let r = ledger.withdraw_lock_save(user_addr, plan_id, maturity_time + 200);
    assert_eq!(r, Err(SavingsError::AlreadyWithdrawn));
}

#[test]
fn test_withdraw_lock_save_user_not_found() {
    let mut ledger = NesteraContract::new();
    let user_addr = Identity(103);
    let plan_id = 1u64;

    // No user data at all
    let r = ledger.withdraw_lock_save(user_addr, plan_id, 1000000);
    assert_eq!(r, Err(SavingsError::UserNotFound));
}

#[test]
fn test_withdraw_lock_save_plan_not_found() {
    let mut ledger = NesteraContract::new();
    let user_addr = Identity(104);
    let plan_id = 1u64;

    ledger.set_user_record(user_addr, User { total_balance: 1_000_000, savings_count: 0 });

    // No plan stored
    let r = ledger.withdraw_lock_save(user_addr, plan_id, 1000000);
    assert_eq!(r, Err(SavingsError::PlanNotFound));
}

#[test]
fn test_withdraw_lock_save_wrong_plan_type() {
    let mut ledger = NesteraContract::new();
    let user_addr = Identity(105);
    let plan_id = 1u64;

    ledger.set_user_record(user_addr, User { total_balance: 1_000_000, savings_count: 1 });

    // A Flexi plan instead of a Lock plan
    let flexi_plan = SavingsPlan {
        plan_id,
        plan_type: PlanType::Flexi,
        balance: 500_000,
        start_time: 1000000,
        last_deposit: 1000000,
        last_withdraw: 0,
        interest_rate: 500,
        is_completed: false,
        is_withdrawn: false,
    };
    ledger.set_plan_record(user_addr, flexi_plan);

    // Fails with PlanNotFound because it is not a Lock plan
    let r = ledger.withdraw_lock_save(user_addr, plan_id, 1000000);
    assert_eq!(r, Err(SavingsError::PlanNotFound));
}

#[test]
fn test_withdraw_lock_save_balance_update() {
    let mut ledger = NesteraContract::new();
    let user_addr = Identity(106);
    let plan_id = 1u64;

    // User with multiple savings
    let initial_balance = 2_000_000i128;
    let lock_balance = 750_000i128;
    ledger.set_user_record(user_addr, User { total_balance: initial_balance, savings_count: 2 });

    let maturity_time = 1000000u64;
    ledger.set_plan_record(
        user_addr,
        lock_plan_record(plan_id, maturity_time, lock_balance, 900000),
    );

    let withdrawn = ledger.withdraw_lock_save(user_addr, plan_id, maturity_time + 100);
    assert_eq!(withdrawn, Ok(lock_balance));

    // Verify user balance is correctly decremented
    let updated_user = ledger.get_user(user_addr).unwrap();
    assert_eq!(updated_user.total_balance, initial_balance - lock_balance);
    assert_eq!(updated_user.total_balance, 1_250_000);
}

#[test]
fn lock_withdraw_before_maturity_mutates_nothing() {
    let mut ledger = NesteraContract::new();
    let user_addr = Identity(107);

    let user = User { total_balance: 1_000_000, savings_count: 1 };
    let plan = lock_plan_record(1, 1_000_000, 500_000, 900000);
    ledger.set_user_record(user_addr, user);
    ledger.set_plan_record(user_addr, plan);

    // Ledger time just before maturity
    let r = ledger.withdraw_lock_save(user_addr, 1, 999_900);
    assert_eq!(r, Err(SavingsError::LockNotMatured));

    // Plan and user state are identical to the pre-call state
    assert_eq!(ledger.get_user(user_addr), Some(user));
    assert_eq!(ledger.get_savings_plan(user_addr, 1), Some(plan));
}

#[test]
fn lock_withdraw_twice_fails_and_mutates_nothing() {
    let mut ledger = NesteraContract::new();
    let user_addr = Identity(108);

    ledger.set_user_record(user_addr, User { total_balance: 500_000, savings_count: 1 });
    ledger.set_plan_record(user_addr, lock_plan_record(1, 1_000_000, 500_000, 900000));

    let first = ledger.withdraw_lock_save(user_addr, 1, 1_000_100);
    assert_eq!(first, Ok(500_000));

    let user_after = ledger.get_user(user_addr);
    let plan_after = ledger.get_savings_plan(user_addr, 1);

    // A second attempt fails as already withdrawn and changes nothing
    let second = ledger.withdraw_lock_save(user_addr, 1, 1_000_200);
    assert_eq!(second, Err(SavingsError::AlreadyWithdrawn));
    assert_eq!(ledger.get_user(user_addr), user_after);
    assert_eq!(ledger.get_savings_plan(user_addr, 1), plan_after);
}

#[test]
fn flexi_partial_withdrawal_keeps_plan_active() {
    let mut ledger = NesteraContract::new();
    let user_addr = Identity(109);

    ledger.initialize_user(user_addr).unwrap();
    let pid = ledger.create_savings_plan(user_addr, PlanType::Flexi, 500_000, 1000).unwrap();
    assert_eq!(pid, 0);

    let r = ledger.withdraw_flexi(user_addr, 200_000, 2000);
    assert_eq!(r, Ok(200_000));

    let plan = ledger.get_savings_plan(user_addr, pid).unwrap();
    assert_eq!(plan.balance, 300_000);
    assert!(!plan.is_withdrawn);
    assert!(!plan.is_completed);
    assert_eq!(plan.last_withdraw, 2000);
    assert_eq!(ledger.get_user(user_addr).unwrap().total_balance, 300_000);
}

#[test]
fn flexi_full_withdrawal_closes_plan() {
    let mut ledger = NesteraContract::new();
    let user_addr = Identity(110);

    ledger.initialize_user(user_addr).unwrap();
    let pid = ledger.create_savings_plan(user_addr, PlanType::Flexi, 500_000, 1000).unwrap();

    let r = ledger.withdraw_flexi(user_addr, 500_000, 3000);
    assert_eq!(r, Ok(500_000));

    let plan = ledger.get_savings_plan(user_addr, pid).unwrap();
    assert_eq!(plan.balance, 0);
    assert!(plan.is_withdrawn);
    assert!(plan.is_completed);
    assert_eq!(ledger.get_user(user_addr).unwrap().total_balance, 0);
}

#[test]
fn flexi_withdrawal_over_balance_fails() {
    let mut ledger = NesteraContract::new();
    let user_addr = Identity(111);

    ledger.initialize_user(user_addr).unwrap();
    ledger.create_savings_plan(user_addr, PlanType::Flexi, 100, 1000).unwrap();

    let r = ledger.withdraw_flexi(user_addr, 101, 2000);
    assert_eq!(r, Err(SavingsError::InsufficientBalance));
    assert_eq!(ledger.get_user(user_addr).unwrap().total_balance, 100);
}

#[test]
fn flexi_withdrawal_without_flexi_plan_fails() {
    let mut ledger = NesteraContract::new();
    let user_addr = Identity(112);

    ledger.initialize_user(user_addr).unwrap();
    ledger.create_savings_plan(user_addr, PlanType::Lock(5000), 100, 1000).unwrap();

    let r = ledger.withdraw_flexi(user_addr, 50, 2000);
    assert_eq!(r, Err(SavingsError::PlanNotFound));
}

#[test]
fn create_savings_plan_assigns_sequential_ids() {
    let mut ledger = NesteraContract::new();
    let user_addr = Identity(113);

    ledger.initialize_user(user_addr).unwrap();
    let first = ledger.create_savings_plan(user_addr, PlanType::Flexi, 1000, 500).unwrap();
    let second = ledger.create_savings_plan(user_addr, PlanType::Lock(9000), 2000, 600).unwrap();
    assert_eq!(first, 0);
    assert_eq!(second, 1);

    let user = ledger.get_user(user_addr).unwrap();
    assert_eq!(user.savings_count, 2);
    assert_eq!(user.total_balance, 3000);

    let plan = ledger.get_savings_plan(user_addr, second).unwrap();
    assert_eq!(plan.plan_id, 1);
    assert_eq!(plan.balance, 2000);
    assert_eq!(plan.start_time, 600);
    assert_eq!(plan.last_deposit, 600);
    assert_eq!(plan.last_withdraw, 0);
    assert!(!plan.is_completed);
    assert!(!plan.is_withdrawn);
}

#[test]
fn create_savings_plan_requires_user() {
    let mut ledger = NesteraContract::new();
    let r = ledger.create_savings_plan(Identity(114), PlanType::Flexi, 1000, 500);
    assert_eq!(r, Err(SavingsError::UserNotFound));
}

#[test]
fn create_savings_plan_reports_exhausted_plan_ids() {
    let mut ledger = NesteraContract::new();
    let user_addr = Identity(116);

    // a user whose creation count has reached the last representable id
    ledger.set_user_record(user_addr, User { total_balance: 0, savings_count: u64::MAX });
    let r = ledger.create_savings_plan(user_addr, PlanType::Flexi, 1, 500);
    assert_eq!(r, Err(SavingsError::InsufficientBalance));
    assert_eq!(
        ledger.get_user(user_addr),
        Some(User { total_balance: 0, savings_count: u64::MAX })
    );
}

#[test]
fn create_savings_plan_reports_aggregate_overflow() {
    let mut ledger = NesteraContract::new();
    let user_addr = Identity(117);

    ledger.set_user_record(user_addr, User { total_balance: i128::MAX, savings_count: 1 });
    let r = ledger.create_savings_plan(user_addr, PlanType::Flexi, 1, 500);
    assert_eq!(r, Err(SavingsError::InsufficientBalance));
    assert_eq!(
        ledger.get_user(user_addr),
        Some(User { total_balance: i128::MAX, savings_count: 1 })
    );
}

#[test]
fn initialize_user_rejects_second_creation() {
    let mut ledger = NesteraContract::new();
    let user_addr = Identity(115);

    assert_eq!(ledger.initialize_user(user_addr), Ok(()));
    let user = ledger.get_user(user_addr).unwrap();
    assert_eq!(user.total_balance, 0);
    assert_eq!(user.savings_count, 0);

    assert_eq!(ledger.initialize_user(user_addr), Err(SavingsError::UserAlreadyExists));
}
