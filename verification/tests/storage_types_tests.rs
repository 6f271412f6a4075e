use nestera::contract::NesteraContract;
use nestera::storage_types::{DataKey, Identity, PlanType, SavingsPlan, ShortSymbol, User};

#[test]
fn test_user_instantiation() {
    let user = User { total_balance: 1_000_000, savings_count: 3 };

    assert_eq!(user.total_balance, 1_000_000);
    assert_eq!(user.savings_count, 3);
}

#[test]
fn test_flexi_savings_plan() {
    let plan = SavingsPlan {
        plan_id: 1,
        plan_type: PlanType::Flexi,
        balance: 500_000,
        start_time: 1000000,
        last_deposit: 1000100,
        last_withdraw: 0,
        interest_rate: 500, // 5.00% APY
        is_completed: false,
        is_withdrawn: false,
    };

    assert_eq!(plan.plan_id, 1);
    assert_eq!(plan.plan_type, PlanType::Flexi);
    assert_eq!(plan.balance, 500_000);
    assert!(!plan.is_completed);
}

#[test]
fn test_lock_savings_plan() {
    let locked_until = 2000000;
    let plan = SavingsPlan {
        plan_id: 2,
        plan_type: PlanType::Lock(locked_until),
        balance: 1_000_000,
        start_time: 1000000,
        last_deposit: 1000000,
        last_withdraw: 0,
        interest_rate: 800,
        is_completed: false,
        is_withdrawn: false,
    };

    assert_eq!(plan.plan_id, 2);
    match plan.plan_type {
        PlanType::Lock(until) => assert_eq!(until, locked_until),
        _ => panic!("Expected Lock plan type"),
    }
}

#[test]
fn test_goal_savings_plan() {
    let plan = SavingsPlan {
        plan_id: 3,
        plan_type: PlanType::Goal(
            ShortSymbol::new(b"education").unwrap(),
            5_000_000,
            1u32, // e.g. 1 = weekly
        ),
        balance: 2_000_000,
        start_time: 1000000,
        last_deposit: 1500000,
        last_withdraw: 0,
        interest_rate: 600,
        is_completed: false,
        is_withdrawn: false,
    };

    assert_eq!(plan.plan_id, 3);
    match plan.plan_type {
        PlanType::Goal(category, target_amount, contribution_type) => {
            assert_eq!(category, ShortSymbol::new(b"education").unwrap());
            assert_eq!(target_amount, 5_000_000);
            assert_eq!(contribution_type, 1u32);
        },
        _ => panic!("Expected Goal plan type"),
    }
}

#[test]
fn test_group_savings_plan() {
    let plan = SavingsPlan {
        plan_id: 4,
        plan_type: PlanType::Group(101, true, 2u32, 10_000_000),
        balance: 3_000_000,
        start_time: 1000000,
        last_deposit: 1600000,
        last_withdraw: 0,
        interest_rate: 700,
        is_completed: false,
        is_withdrawn: false,
    };

    assert_eq!(plan.plan_id, 4);
    match plan.plan_type {
        PlanType::Group(group_id, is_public, contribution_type, target_amount) => {
            assert_eq!(group_id, 101);
            assert!(is_public);
            assert_eq!(contribution_type, 2u32);
            assert_eq!(target_amount, 10_000_000);
        },
        _ => panic!("Expected Group plan type"),
    }
}

#[test]
fn test_data_key_admin() {
    let key = DataKey::Admin;
    assert_eq!(key, DataKey::Admin);
}

#[test]
fn test_data_key_user() {
    let user_address = Identity(17);
    let key = DataKey::User(user_address);

    match key {
        DataKey::User(addr) => assert_eq!(addr, user_address),
        _ => panic!("Expected User data key"),
    }
}

#[test]
fn test_data_key_savings_plan() {
    let user_address = Identity(23);
    let plan_id = 42;
    let key = DataKey::SavingsPlan(user_address, plan_id);

    match key {
        DataKey::SavingsPlan(addr, id) => {
            assert_eq!(addr, user_address);
            assert_eq!(id, plan_id);
        },
        _ => panic!("Expected SavingsPlan data key"),
    }
}

#[test]
fn test_xdr_compatibility_user() {
    let mut ledger = NesteraContract::new();

    let user = User { total_balance: 1_500_000, savings_count: 5 };

    let key = Identity(77);
    ledger.set_user_record(key, user);
    let retrieved_user: User = ledger.get_user(key).unwrap();
    assert_eq!(user, retrieved_user);
}

#[test]
fn test_xdr_compatibility_savings_plan() {
    let mut ledger = NesteraContract::new();

    let plan = SavingsPlan {
        plan_id: 1,
        plan_type: PlanType::Flexi,
        balance: 750_000,
        start_time: 1000000,
        last_deposit: 1100000,
        last_withdraw: 1050000,
        interest_rate: 550,
        is_completed: false,
        is_withdrawn: false,
    };

    let key = Identity(78);
    ledger.set_plan_record(key, plan);
    let retrieved_plan: SavingsPlan = ledger.get_savings_plan(key, 1).unwrap();
    assert_eq!(plan, retrieved_plan);
}

#[test]
fn test_xdr_compatibility_all_plan_types() {
    let mut ledger = NesteraContract::new();
    let owner = Identity(79);

    // Flexi
    let flexi_plan = SavingsPlan {
        plan_id: 0,
        plan_type: PlanType::Flexi,
        balance: 1_000_000,
        start_time: 1000000,
        last_deposit: 1100000,
        last_withdraw: 0,
        interest_rate: 500,
        is_completed: false,
        is_withdrawn: false,
    };
    ledger.set_plan_record(owner, flexi_plan);
    let retrieved: SavingsPlan = ledger.get_savings_plan(owner, 0).unwrap();
    assert_eq!(flexi_plan, retrieved);

    // Lock
    let lock_plan = SavingsPlan {
        plan_id: 1,
        plan_type: PlanType::Lock(2000000),
        balance: 1_000_000,
        start_time: 1000000,
        last_deposit: 1100000,
        last_withdraw: 0,
        interest_rate: 500,
        is_completed: false,
        is_withdrawn: false,
    };
    ledger.set_plan_record(owner, lock_plan);
    let retrieved: SavingsPlan = ledger.get_savings_plan(owner, 1).unwrap();
    assert_eq!(lock_plan, retrieved);

    // Goal
    let goal_plan = SavingsPlan {
        plan_id: 2,
        plan_type: PlanType::Goal(ShortSymbol::new(b"vacation").unwrap(), 3_000_000, 1u32),
        balance: 1_000_000,
        start_time: 1000000,
        last_deposit: 1100000,
        last_withdraw: 0,
        interest_rate: 500,
        is_completed: false,
        is_withdrawn: false,
    };
    ledger.set_plan_record(owner, goal_plan);
    let retrieved: SavingsPlan = ledger.get_savings_plan(owner, 2).unwrap();
    assert_eq!(goal_plan, retrieved);

    // Group
    let group_plan = SavingsPlan {
        plan_id: 3,
        plan_type: PlanType::Group(200, false, 3u32, 8_000_000),
        balance: 1_000_000,
        start_time: 1000000,
        last_deposit: 1100000,
        last_withdraw: 0,
        interest_rate: 500,
        is_completed: false,
        is_withdrawn: false,
    };
    ledger.set_plan_record(owner, group_plan);
    let retrieved: SavingsPlan = ledger.get_savings_plan(owner, 3).unwrap();
    assert_eq!(group_plan, retrieved);
}

#[test]
fn test_completed_plan() {
    let plan = SavingsPlan {
        plan_id: 5,
        plan_type: PlanType::Goal(ShortSymbol::new(b"house").unwrap(), 10_000_000, 2u32),
        balance: 10_000_000,
        start_time: 1000000,
        last_deposit: 2000000,
        last_withdraw: 0,
        interest_rate: 650,
        is_completed: true,
        is_withdrawn: false,
    };

    assert!(plan.is_completed);
    assert_eq!(plan.balance, 10_000_000);
}

#[test]
fn test_plan_type_patterns() {
    // Values can be extracted from each plan type variant.
    let lock_plan = PlanType::Lock(1234567);
    if let PlanType::Lock(timestamp) = lock_plan {
        assert_eq!(timestamp, 1234567);
    }

    let goal_plan = PlanType::Goal(ShortSymbol::new(b"car").unwrap(), 2_000_000, 3u32);
    if let PlanType::Goal(cat, amount, contrib) = goal_plan {
        assert_eq!(cat, ShortSymbol::new(b"car").unwrap());
        assert_eq!(amount, 2_000_000);
        assert_eq!(contrib, 3u32);
    }

    let group_plan = PlanType::Group(999, true, 1u32, 5_000_000);
    if let PlanType::Group(id, public, contrib, amount) = group_plan {
        assert_eq!(id, 999);
        assert!(public);
        assert_eq!(contrib, 1u32);
        assert_eq!(amount, 5_000_000);
    }
}

#[test]
fn short_symbol_packs_known_values() {
    assert_eq!(ShortSymbol::new(b"").unwrap().code(), 0);
    assert_eq!(ShortSymbol::new(b"_").unwrap().code(), 1);
    assert_eq!(ShortSymbol::new(b"0").unwrap().code(), 2);
    assert_eq!(ShortSymbol::new(b"9").unwrap().code(), 11);
    assert_eq!(ShortSymbol::new(b"A").unwrap().code(), 12);
    assert_eq!(ShortSymbol::new(b"Z").unwrap().code(), 37);
    assert_eq!(ShortSymbol::new(b"a").unwrap().code(), 38);
    assert_eq!(ShortSymbol::new(b"z").unwrap().code(), 63);
    // successive bytes fill in from the low end, six bits each
    assert_eq!(ShortSymbol::new(b"ab").unwrap().code(), 38 * 64 + 39);
}

#[test]
fn short_symbol_rejects_bad_text() {
    // a tenth byte is one too many
    assert!(ShortSymbol::new(b"abcdefghij").is_none());
    // nine bytes are fine
    assert!(ShortSymbol::new(b"abcdefghi").is_some());
    // a space may not appear
    assert!(ShortSymbol::new(b"bad cat").is_none());
    assert!(ShortSymbol::new(b"-").is_none());
}

#[test]
fn short_symbol_distinguishes_texts() {
    let car = ShortSymbol::new(b"car").unwrap();
    let cat = ShortSymbol::new(b"cat").unwrap();
    assert_ne!(car, cat);
    assert_eq!(car, ShortSymbol::new(b"car").unwrap());
}
