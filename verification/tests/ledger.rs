use divider::balances::UserAmountMap;
use divider::ledger::CONSISTENCY_CHECK_INTERVAL;
use divider::transaction::{Benefit, Transaction};
use divider::{Ledger, Timestamp, TransactionError, User};

fn ledger() -> Ledger {
    Ledger::new(vec!["Bilbo", "Frodo", "Legolas", "Gimli"])
}

fn balance(ledger: &Ledger, name: &str) -> i64 {
    ledger.get_balances().get(name).unwrap()
}

/// The ledger with `extra` added to the balance that it holds for `name`.
fn with_balance_off_by(ledger: &Ledger, name: &str, extra: i64) -> Ledger {
    let mut balances: Vec<(String, i64)> = ledger.get_balances().entries().clone();
    for entry in balances.iter_mut() {
        if entry.0 == name {
            entry.1 += extra;
        }
    }
    let users: Vec<User> = ledger.get_users().into_iter().cloned().collect();
    Ledger::from_parts(
        ledger.next_id(),
        balances,
        users,
        ledger.get_transactions().clone(),
        ledger.total_spend(),
    )
}

fn add_transaction_bilbo(ledger: &mut Ledger) {
    let contributions = vec![("Bilbo", 6000)];
    let benefits = vec![
        ("Frodo", Benefit::Even),
        ("Legolas", Benefit::Even),
        ("Bilbo", Benefit::Even),
    ];
    ledger.add_expense(contributions, benefits, "", None).unwrap()
}

fn add_transaction_frodo(ledger: &mut Ledger) {
    let contributions = vec![("Frodo", 3000)];
    let benefits = vec![
        ("Frodo", Benefit::Even),
        ("Legolas", Benefit::Sum(600)),
        ("Gimli", Benefit::Even),
    ];
    ledger.add_expense(contributions, benefits, "", None).unwrap()
}

#[test]
fn create_and_get_users() {
    let ledger = ledger();
    let users = ledger.get_users();

    assert_eq!(users.len(), 4);
    assert!(users.contains(&&User::new("Bilbo")));
    assert!(users.contains(&&User::new("Frodo")));
    assert!(users.contains(&&User::new("Legolas")));
    assert!(users.contains(&&User::new("Gimli")));
    assert!(!users.contains(&&User::new("Merry")));
}

#[test]
fn new_ledger_starts_from_nothing() {
    let ledger = ledger();
    assert_eq!(ledger.next_id(), 1);
    assert_eq!(ledger.total_spend(), 0);
    assert!(ledger.get_transactions().is_empty());
    assert_eq!(ledger.get_balances().len(), 4);
    for name in ["Bilbo", "Frodo", "Legolas", "Gimli"] {
        assert_eq!(balance(&ledger, name), 0);
    }
}

#[test]
fn new_ledger_counts_a_repeated_name_once() {
    let ledger = Ledger::new(vec!["Bilbo", "Frodo", "Bilbo"]);
    assert_eq!(ledger.get_users().len(), 2);
    assert_eq!(ledger.get_balances().len(), 2);
}

#[test]
fn simple_transfer() {
    let mut ledger = ledger();

    ledger.add_transfer("Bilbo", "Frodo", 3200, "", None).unwrap();

    assert_eq!(ledger.total_spend(), 0);
    assert_eq!(balance(&ledger, "Bilbo"), 3200);
    assert_eq!(balance(&ledger, "Frodo"), -3200);
    assert_eq!(balance(&ledger, "Gimli"), 0);

    let recorded = &ledger.get_transactions()[0];
    assert!(recorded.is_direct);
    assert_eq!(recorded.id, 1);
    assert_eq!(recorded.contributions, vec![("Bilbo".to_string(), 3200)]);
    assert_eq!(recorded.benefits, vec![("Frodo".to_string(), Benefit::Sum(3200))]);
    assert_eq!(ledger.next_id(), 2);
}

#[test]
fn unrecognised_user() {
    let mut ledger = ledger();

    let res = ledger.add_transfer("Bilbo", "Merry", 3200, "", None);

    assert!(res.is_err());
    assert!(matches!(res, Err(TransactionError::UnknownUser(..))));
    assert_eq!(res, Err(TransactionError::UnknownUser("Merry".to_string())));
}

#[test]
fn first_unknown_user_is_reported() {
    let mut ledger = ledger();
    let res = ledger.add_expense(
        vec![("Bilbo", 100), ("Pippin", 100)],
        vec![("Merry", Benefit::Even), ("Frodo", Benefit::Even)],
        "",
        None,
    );
    assert_eq!(res, Err(TransactionError::UnknownUser("Pippin".to_string())));
}

#[test]
fn refused_transaction_changes_nothing() {
    let mut ledger = ledger();
    add_transaction_bilbo(&mut ledger);

    let unknown = ledger.add_transfer("Bilbo", "Merry", 3200, "", None);
    assert!(unknown.is_err());
    let excess =
        ledger.add_expense(vec![("Bilbo", 100)], vec![("Frodo", Benefit::Sum(200))], "", None);
    assert_eq!(excess, Err(TransactionError::ExcessBenefits { specified: 200, spent: 100 }));
    let insufficient =
        ledger.add_expense(vec![("Bilbo", 100)], vec![("Frodo", Benefit::Sum(50))], "", None);
    assert_eq!(
        insufficient,
        Err(TransactionError::InsufficientBenefits { specified: 50, spent: 100 })
    );

    assert_eq!(ledger.get_transactions().len(), 1);
    assert_eq!(ledger.next_id(), 2);
    assert_eq!(ledger.total_spend(), 6000);
    assert_eq!(balance(&ledger, "Bilbo"), 4000);
    assert_eq!(balance(&ledger, "Frodo"), -2000);
    assert_eq!(balance(&ledger, "Legolas"), -2000);
    assert_eq!(balance(&ledger, "Gimli"), 0);
}

#[test]
fn complex_expense() {
    let mut ledger = ledger();

    add_transaction_bilbo(&mut ledger);
    add_transaction_frodo(&mut ledger);

    assert_eq!(ledger.get_transactions().len(), 2);
    assert_eq!(ledger.total_spend(), 9000);
    assert_eq!(balance(&ledger, "Bilbo"), 4000);
    assert_eq!(balance(&ledger, "Frodo"), -200);
    assert_eq!(balance(&ledger, "Legolas"), -2600);
    assert_eq!(balance(&ledger, "Gimli"), -1200);
}

#[test]
fn ids_count_up_from_one() {
    let mut ledger = ledger();
    add_transaction_bilbo(&mut ledger);
    add_transaction_frodo(&mut ledger);
    let given = Transaction::new(
        vec![("Gimli", 500)],
        vec![("Bilbo", Benefit::Even)],
        "Ale",
        false,
        Some(77),
        Some(Timestamp { secs: 1_651_406_400, nanos: 0 }),
    );
    ledger.add_transaction(given).unwrap();

    let ids: Vec<usize> = ledger.get_transactions().iter().map(|t| t.id).collect();
    assert_eq!(ids, vec![1, 2, 3]);
    assert_eq!(ledger.next_id(), 4);
    let last = &ledger.get_transactions()[2];
    assert_eq!(last.description, "Ale");
    assert_eq!(last.datetime, Timestamp { secs: 1_651_406_400, nanos: 0 });
}

#[test]
fn consistency_check() {
    const INTERVAL: usize = CONSISTENCY_CHECK_INTERVAL;
    let mut ledger = ledger();

    let repeated_transactions = (INTERVAL - 1) / 2;

    for _ in 0..repeated_transactions {
        add_transaction_bilbo(&mut ledger);
        add_transaction_frodo(&mut ledger);
    }

    // before reapplying all
    assert_eq!(balance(&ledger, "Bilbo"), (repeated_transactions as i64) * 4000);
    assert_eq!(balance(&ledger, "Frodo"), (repeated_transactions as i64) * -200);
    assert_eq!(balance(&ledger, "Legolas"), (repeated_transactions as i64) * -2600);
    assert_eq!(balance(&ledger, "Gimli"), (repeated_transactions as i64) * -1200);

    // mess with one of the values
    let mut ledger = with_balance_off_by(&ledger, "Bilbo", 10000);

    // one of these should do the consistency check
    add_transaction_bilbo(&mut ledger);
    add_transaction_frodo(&mut ledger);

    // after reapplying all
    assert_eq!(balance(&ledger, "Bilbo"), ((repeated_transactions + 1) as i64) * 4000);
    assert_eq!(balance(&ledger, "Frodo"), ((repeated_transactions + 1) as i64) * -200);
    assert_eq!(balance(&ledger, "Legolas"), ((repeated_transactions + 1) as i64) * -2600);
    assert_eq!(balance(&ledger, "Gimli"), ((repeated_transactions + 1) as i64) * -1200);
}

#[test]
fn check_comes_with_the_hundredth_transaction_and_not_before() {
    let mut ledger = ledger();
    for _ in 0..49 {
        add_transaction_bilbo(&mut ledger);
        add_transaction_frodo(&mut ledger);
    }
    assert_eq!(ledger.get_transactions().len(), 98);
    let mut ledger = with_balance_off_by(&ledger, "Gimli", 777);

    add_transaction_bilbo(&mut ledger);
    assert_eq!(ledger.get_transactions().len(), 99);
    assert_eq!(balance(&ledger, "Gimli"), 49 * -1200 + 777);
    assert_eq!(balance(&ledger, "Bilbo"), 50 * 4000);

    add_transaction_frodo(&mut ledger);
    assert_eq!(ledger.get_transactions().len(), 100);
    assert_eq!(balance(&ledger, "Gimli"), 50 * -1200);
    assert_eq!(balance(&ledger, "Bilbo"), 50 * 4000);
    assert_eq!(ledger.total_spend(), 50 * 9000);

    let mut ledger = with_balance_off_by(&ledger, "Gimli", 5);
    for _ in 0..49 {
        add_transaction_bilbo(&mut ledger);
        add_transaction_frodo(&mut ledger);
    }
    add_transaction_bilbo(&mut ledger);
    assert_eq!(ledger.get_transactions().len(), 199);
    assert_eq!(balance(&ledger, "Gimli"), 99 * -1200 + 5);
    add_transaction_frodo(&mut ledger);
    assert_eq!(ledger.get_transactions().len(), 200);
    assert_eq!(balance(&ledger, "Gimli"), 100 * -1200);
}

#[test]
fn reapply_all_restores_what_the_history_gives() {
    let mut ledger = ledger();
    add_transaction_bilbo(&mut ledger);
    add_transaction_frodo(&mut ledger);
    ledger.add_transfer("Gimli", "Bilbo", 1500, "", None).unwrap();

    let mut spoiled = with_balance_off_by(&ledger, "Bilbo", 12345);
    spoiled = with_balance_off_by(&spoiled, "Frodo", -1);
    assert_eq!(balance(&spoiled, "Bilbo"), 2500 + 12345);

    spoiled.reapply_all().unwrap();

    assert_eq!(balance(&spoiled, "Bilbo"), 2500);
    assert_eq!(balance(&spoiled, "Frodo"), -200);
    assert_eq!(balance(&spoiled, "Legolas"), -2600);
    assert_eq!(balance(&spoiled, "Gimli"), 300);
    assert_eq!(spoiled.total_spend(), 9000);
    assert_eq!(spoiled.get_transactions().len(), 3);
    assert_eq!(spoiled.next_id(), 4);

    spoiled.reapply_all().unwrap();
    assert_eq!(balance(&spoiled, "Bilbo"), 2500);
    assert_eq!(spoiled.total_spend(), 9000);
}

#[test]
fn reapply_all_reports_a_history_that_cannot_be_replayed() {
    let stray = Transaction::new(
        vec![("Merry", 100)],
        vec![("Bilbo", Benefit::Even)],
        "",
        false,
        Some(1),
        None,
    );
    let mut loaded = Ledger::from_parts(
        2,
        vec![("Bilbo".to_string(), 55)],
        vec![User::new("Bilbo")],
        vec![stray],
        100,
    );
    assert_eq!(loaded.reapply_all(), Err(TransactionError::UnknownUser("Merry".to_string())));
    assert_eq!(balance(&loaded, "Bilbo"), 55);
    assert_eq!(loaded.total_spend(), 100);
}

#[test]
fn adding_a_user() {
    let mut ledger = ledger();
    ledger.add_user("Merry");

    let users = ledger.get_users();
    assert_eq!(users.len(), 5);
    assert!(users.contains(&&User::new("Merry")));
    for (i, one) in users.iter().enumerate() {
        for other in users.iter().skip(i + 1) {
            assert_ne!(one, other);
        }
    }
    assert_eq!(balance(&ledger, "Merry"), 0);

    ledger.add_transfer("Bilbo", "Merry", 3200, "", None).unwrap();
    assert_eq!(balance(&ledger, "Merry"), -3200);
}

#[test]
fn adding_a_known_user_keeps_the_balance() {
    let mut ledger = ledger();
    ledger.add_transfer("Bilbo", "Frodo", 3200, "", None).unwrap();
    ledger.add_user("Frodo");
    assert_eq!(ledger.get_users().len(), 4);
    assert_eq!(balance(&ledger, "Frodo"), -3200);
}

#[test]
fn undo_by_id() {
    let mut ledger = ledger();
    add_transaction_bilbo(&mut ledger);
    add_transaction_frodo(&mut ledger);

    ledger.reverse_by_id(1).unwrap();

    assert_eq!(ledger.get_transactions().len(), 3);
    let undo = &ledger.get_transactions()[2];
    assert_eq!(undo.id, 3);
    assert_eq!(undo.description, "Undo 0001");
    assert!(!undo.is_direct);
    assert_eq!(
        undo.contributions,
        vec![
            ("Frodo".to_string(), 2000),
            ("Legolas".to_string(), 2000),
            ("Bilbo".to_string(), 2000)
        ]
    );
    assert_eq!(undo.benefits, vec![("Bilbo".to_string(), Benefit::Sum(6000))]);
    assert_eq!(balance(&ledger, "Bilbo"), 0);
    assert_eq!(balance(&ledger, "Frodo"), 1800);
    assert_eq!(balance(&ledger, "Legolas"), -600);
    assert_eq!(balance(&ledger, "Gimli"), -1200);
    assert_eq!(ledger.total_spend(), 9000 + 6000);

    ledger.reverse_by_id(3).unwrap();
    assert_eq!(balance(&ledger, "Bilbo"), 4000);
    assert_eq!(ledger.get_transactions()[3].description, "Undo 0003");
}

#[test]
fn undo_of_an_unknown_id() {
    let mut ledger = ledger();
    add_transaction_bilbo(&mut ledger);
    assert_eq!(ledger.reverse_by_id(7), Err(TransactionError::UnknownTransactionId(7)));
    assert_eq!(ledger.reverse_by_id(0), Err(TransactionError::UnknownTransactionId(0)));
    assert_eq!(ledger.get_transactions().len(), 1);
}

#[test]
fn undo_that_rounding_makes_impossible() {
    let mut ledger = ledger();
    ledger
        .add_expense(
            vec![("Bilbo", 1000)],
            vec![("Frodo", Benefit::Even), ("Legolas", Benefit::Even), ("Gimli", Benefit::Even)],
            "",
            None,
        )
        .unwrap();
    assert_eq!(balance(&ledger, "Frodo"), -333);
    assert_eq!(
        ledger.reverse_by_id(1),
        Err(TransactionError::ExcessBenefits { specified: 1000, spent: 999 })
    );
    assert_eq!(ledger.get_transactions().len(), 1);
}

#[test]
fn balance_out_of_range() {
    let mut ledger = ledger();
    ledger.add_transfer("Bilbo", "Frodo", i64::MAX - 10, "", None).unwrap();
    let res = ledger.add_transfer("Bilbo", "Frodo", 11, "", None);
    assert_eq!(res, Err(TransactionError::Overflow));
    assert_eq!(balance(&ledger, "Bilbo"), i64::MAX - 10);
    assert_eq!(ledger.get_transactions().len(), 1);
    ledger.add_transfer("Bilbo", "Frodo", 10, "", None).unwrap();
    assert_eq!(balance(&ledger, "Bilbo"), i64::MAX);
    assert_eq!(balance(&ledger, "Frodo"), -i64::MAX);
}

#[test]
fn spending_out_of_range() {
    let mut ledger = ledger();
    ledger
        .add_expense(vec![("Bilbo", i64::MAX)], vec![("Bilbo", Benefit::Even)], "", None)
        .unwrap();
    assert_eq!(ledger.total_spend(), i64::MAX);
    assert_eq!(balance(&ledger, "Bilbo"), 0);
    let res = ledger.add_expense(vec![("Bilbo", 1)], vec![("Bilbo", Benefit::Even)], "", None);
    assert_eq!(res, Err(TransactionError::Overflow));
    ledger.add_transfer("Bilbo", "Frodo", 1, "", None).unwrap();
    assert_eq!(ledger.total_spend(), i64::MAX);
}

#[test]
fn id_counter_exhausted() {
    let mut loaded = Ledger::from_parts(
        usize::MAX,
        vec![("Bilbo".to_string(), 0), ("Frodo".to_string(), 0)],
        vec![User::new("Bilbo"), User::new("Frodo")],
        Vec::new(),
        0,
    );
    assert_eq!(loaded.add_transfer("Bilbo", "Frodo", 1, "", None), Err(TransactionError::Overflow));
    assert!(loaded.get_transactions().is_empty());
}

#[test]
fn ledger_from_parts() {
    let loaded = Ledger::from_parts(
        9,
        vec![("Bilbo".to_string(), 5), ("Frodo".to_string(), -5), ("Bilbo".to_string(), 7)],
        vec![User::new("Frodo"), User::new("Merry"), User::new("Frodo")],
        Vec::new(),
        42,
    );
    assert_eq!(loaded.next_id(), 9);
    assert_eq!(loaded.total_spend(), 42);
    assert_eq!(loaded.get_users().len(), 2);
    assert_eq!(loaded.get_balances().len(), 3);
    assert_eq!(balance(&loaded, "Bilbo"), 7);
    assert_eq!(balance(&loaded, "Frodo"), -5);
    assert_eq!(balance(&loaded, "Merry"), 0);
}

#[test]
fn apply_transaction_leaves_its_arguments() {
    let mut balances = UserAmountMap::new();
    balances.insert("Bilbo".to_string(), 10);
    balances.insert("Frodo".to_string(), 20);
    let transfer = Transaction::new(
        vec![("Bilbo", 5)],
        vec![("Frodo", Benefit::Sum(5))],
        "",
        true,
        None,
        None,
    );
    let (total, after) = Ledger::apply_transaction(100, &balances, &transfer).unwrap();
    assert_eq!(total, 100);
    assert_eq!(after.get("Bilbo"), Some(15));
    assert_eq!(after.get("Frodo"), Some(15));
    assert_eq!(balances.get("Bilbo"), Some(10));

    let expense = Transaction::new(
        vec![("Bilbo", 5)],
        vec![("Frodo", Benefit::Sum(5))],
        "",
        false,
        None,
        None,
    );
    let (total, _) = Ledger::apply_transaction(100, &balances, &expense).unwrap();
    assert_eq!(total, 105);
    assert_eq!(Ledger::unknown_user(&balances, &expense), None);
}

#[test]
fn balances_are_a_copy() {
    let mut ledger = ledger();
    let mut copy = ledger.get_balances();
    copy.insert("Bilbo".to_string(), 99);
    assert_eq!(balance(&ledger, "Bilbo"), 0);
    ledger.add_transfer("Bilbo", "Frodo", 1, "", None).unwrap();
    assert_eq!(copy.get("Bilbo"), Some(99));
}

#[test]
fn interval_is_one_hundred() {
    assert_eq!(CONSISTENCY_CHECK_INTERVAL, 100);
    assert!(Ledger::needs_consistency_check(100));
    assert!(Ledger::needs_consistency_check(200));
    assert!(!Ledger::needs_consistency_check(99));
    assert!(!Ledger::needs_consistency_check(101));
}
