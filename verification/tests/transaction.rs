use divider::transaction::{Benefit, Transaction};
use divider::{Timestamp, TransactionError};

fn noon() -> Timestamp {
    Timestamp { secs: 1_651_406_400, nanos: 0 }
}

fn dinner() -> Transaction {
    let contrib = vec![("Bilbo", 3200), ("Frodo", 1200)];
    let benefit = vec![
        ("Legolas", Benefit::Even),
        ("Frodo", Benefit::Even),
        ("Gimli", Benefit::Sum(1000)),
    ];
    Transaction::new(contrib, benefit, "", false, None, Some(noon()))
}

#[test]
fn total_spent() {
    assert_eq!(dinner().total_spending(), 4400);
}

#[test]
fn balance_distribution() {
    let transaction = dinner();
    let balance_delta = transaction.balance_updates().unwrap();

    assert_eq!(balance_delta.len(), 4);

    assert_eq!(transaction.num_even_benefits(), 2);
    assert_eq!(transaction.total_spending(), 4400);
    assert_eq!(transaction.specified_benefits(), 1000);
    assert_eq!(transaction.benefits_per_even(), Ok(1700));

    assert_eq!(balance_delta.get("Bilbo"), Some(3200));
    assert_eq!(balance_delta.get("Legolas"), Some(-1700));
    assert_eq!(balance_delta.get("Frodo"), Some(-500));
    assert_eq!(balance_delta.get("Gimli"), Some(-1000));

    let sum: i64 = balance_delta.entries().iter().map(|entry| entry.1).sum();
    assert_eq!(sum, 0);
}

#[test]
fn reverse_transaction() {
    let transaction = dinner();
    let reversed = transaction.reverse().unwrap();

    assert_eq!(reversed.specified_benefits(), 4400);
    assert_eq!(reversed.id, 0);
    assert!(!reversed.is_direct);
    assert_eq!(reversed.description, "Undo 0000");

    let reversed_delta = reversed.balance_updates().unwrap();
    let forward_delta = transaction.balance_updates().unwrap();
    assert_eq!(reversed_delta.len(), forward_delta.len());

    for (user, delta) in reversed_delta.entries() {
        assert!(forward_delta.contains_key(user));
        assert_eq!(forward_delta.get(user), Some(-delta));
    }
}

#[test]
fn insufficient_benefits() {
    let contrib = vec![("Bilbo", 3200)];
    let benefit = vec![("Gimli", Benefit::Sum(1000)), ("Frodo", Benefit::Sum(1200))];

    let result = Transaction::new(contrib, benefit, "", false, None, None).balance_updates();

    match result {
        Err(TransactionError::InsufficientBenefits { specified, spent })
            if specified == 2200 && spent == 3200 => {}
        _ => panic!("Result does not match InsufficientBenefits: {:?}", &result),
    }
}

#[test]
fn excess_benefits() {
    let contrib = vec![("Bilbo", 3200)];
    let benefit = vec![
        ("Gimli", Benefit::Sum(4000)),
        ("Frodo", Benefit::Even),
        ("Legolas", Benefit::Even),
    ];

    let result = Transaction::new(contrib, benefit, "", false, None, None).balance_updates();

    match result {
        Err(TransactionError::ExcessBenefits { specified, spent })
            if specified == 4000 && spent == 3200 => {}
        _ => panic!("Result does not match ExcessBenefits: {:?}", &result),
    }
}

#[test]
fn no_evens() {
    let contrib = vec![("Bilbo", 3200)];
    let benefit = vec![("Gimli", Benefit::Sum(2200)), ("Frodo", Benefit::Sum(1000))];

    let balance_delta =
        Transaction::new(contrib, benefit, "", false, None, None).balance_updates().unwrap();

    assert_eq!(balance_delta.get("Bilbo"), Some(3200));
    assert_eq!(balance_delta.get("Gimli"), Some(-2200));
    assert_eq!(balance_delta.get("Frodo"), Some(-1000));
    assert!(!balance_delta.contains_key("Legolas"));
}

#[test]
fn repeated_users_add_up() {
    let transaction = Transaction::new(
        vec![("Bilbo", 1000), ("Frodo", 500), ("Bilbo", 250)],
        vec![
            ("Frodo", Benefit::Sum(300)),
            ("Gimli", Benefit::Even),
            ("Frodo", Benefit::Even),
            ("Frodo", Benefit::Sum(50)),
        ],
        "",
        false,
        None,
        None,
    );
    assert_eq!(transaction.total_spending(), 1750);
    assert_eq!(transaction.specified_benefits(), 350);
    assert_eq!(transaction.num_even_benefits(), 2);
    assert_eq!(transaction.benefits_per_even(), Ok(700));
    let delta = transaction.balance_updates().unwrap();
    assert_eq!(delta.len(), 3);
    assert_eq!(delta.get("Bilbo"), Some(1250));
    assert_eq!(delta.get("Frodo"), Some(500 - 300 - 700 - 50));
    assert_eq!(delta.get("Gimli"), Some(-700));
    let names: Vec<&str> = delta.entries().iter().map(|entry| entry.0.as_str()).collect();
    assert_eq!(names, vec!["Bilbo", "Frodo", "Gimli"]);
}

#[test]
fn exactly_specified_without_evens() {
    let transaction = Transaction::new(
        vec![("Bilbo", 3200)],
        vec![("Gimli", Benefit::Sum(2200)), ("Frodo", Benefit::Sum(1000))],
        "",
        false,
        None,
        None,
    );
    assert_eq!(transaction.benefits_per_even(), Ok(0));
    let delta = transaction.balance_updates().unwrap();
    let sum: i64 = delta.entries().iter().map(|entry| entry.1).sum();
    assert_eq!(sum, 0);
}

#[test]
fn empty_transaction() {
    let transaction = Transaction::new(Vec::new(), Vec::new(), "", false, None, None);
    assert_eq!(transaction.total_spending(), 0);
    assert_eq!(transaction.specified_benefits(), 0);
    assert_eq!(transaction.num_even_benefits(), 0);
    assert_eq!(transaction.benefits_per_even(), Ok(0));
    assert_eq!(transaction.balance_updates().unwrap().len(), 0);
}

#[test]
fn evens_with_nothing_left() {
    let transaction = Transaction::new(
        vec![("Bilbo", 1000)],
        vec![("Gimli", Benefit::Sum(1000)), ("Frodo", Benefit::Even)],
        "",
        false,
        None,
        None,
    );
    assert_eq!(transaction.benefits_per_even(), Ok(0));
    let delta = transaction.balance_updates().unwrap();
    assert_eq!(delta.get("Frodo"), Some(0));
    assert_eq!(delta.get("Gimli"), Some(-1000));
}

#[test]
fn share_is_rounded_down() {
    let transaction = Transaction::new(
        vec![("Bilbo", 1000)],
        vec![("Frodo", Benefit::Even), ("Legolas", Benefit::Even), ("Gimli", Benefit::Even)],
        "",
        false,
        None,
        None,
    );
    assert_eq!(transaction.benefits_per_even(), Ok(333));
    let delta = transaction.balance_updates().unwrap();
    let sum: i64 = delta.entries().iter().map(|entry| entry.1).sum();
    assert_eq!(sum, 1000 % 3);

    let reversed = transaction.reverse().unwrap();
    assert_eq!(reversed.total_spending(), 999);
    assert_eq!(
        reversed.balance_updates().err(),
        Some(TransactionError::ExcessBenefits { specified: 1000, spent: 999 })
    );
}

#[test]
fn totals_out_of_range() {
    let transaction = Transaction::new(
        vec![("Bilbo", i64::MAX), ("Frodo", 1)],
        vec![("Gimli", Benefit::Even)],
        "",
        false,
        None,
        None,
    );
    assert_eq!(transaction.total_spending(), i64::MAX as i128 + 1);
    assert_eq!(transaction.benefits_per_even(), Err(TransactionError::Overflow));
    assert_eq!(transaction.balance_updates().err(), Some(TransactionError::Overflow));
    assert_eq!(transaction.reverse().err(), Some(TransactionError::Overflow));

    let lowest = Transaction::new(
        vec![("Bilbo", i64::MIN)],
        vec![("Gimli", Benefit::Sum(i64::MIN))],
        "",
        false,
        None,
        None,
    );
    assert_eq!(lowest.total_spending(), i64::MIN as i128);
    assert_eq!(lowest.balance_updates().err(), Some(TransactionError::Overflow));
}

#[test]
fn share_out_of_range() {
    let transaction = Transaction::new(
        vec![("Bilbo", i64::MAX)],
        vec![("Gimli", Benefit::Sum(-i64::MAX)), ("Frodo", Benefit::Even)],
        "",
        false,
        None,
        None,
    );
    assert_eq!(transaction.benefits_per_even(), Err(TransactionError::Overflow));
}

#[test]
fn change_out_of_range() {
    let transaction = Transaction::new(
        vec![("Bilbo", i64::MAX), ("Frodo", -i64::MAX)],
        vec![("Bilbo", Benefit::Sum(-1)), ("Frodo", Benefit::Sum(1))],
        "",
        false,
        None,
        None,
    );
    assert_eq!(transaction.benefits_per_even(), Ok(0));
    assert_eq!(transaction.balance_updates().err(), Some(TransactionError::Overflow));
}

#[test]
fn negative_amounts_are_taken_as_given() {
    let transaction = Transaction::new(
        vec![("Bilbo", 1000), ("Frodo", -400)],
        vec![("Gimli", Benefit::Sum(-100)), ("Legolas", Benefit::Even)],
        "",
        false,
        None,
        None,
    );
    assert_eq!(transaction.total_spending(), 600);
    assert_eq!(transaction.benefits_per_even(), Ok(700));
    let delta = transaction.balance_updates().unwrap();
    assert_eq!(delta.get("Frodo"), Some(-400));
    assert_eq!(delta.get("Gimli"), Some(100));
    assert_eq!(delta.get("Legolas"), Some(-700));
}

#[test]
fn new_keeps_what_it_is_given() {
    let transaction = Transaction::new(
        vec![("Bilbo", 3200)],
        vec![("Legolas", Benefit::Even), ("Gimli", Benefit::Sum(1000))],
        "Dinner",
        false,
        Some(214),
        Some(noon()),
    );
    assert_eq!(transaction.id, 214);
    assert_eq!(transaction.datetime, noon());
    assert_eq!(transaction.description, "Dinner");
    assert!(!transaction.is_direct);
    assert_eq!(transaction.contributions, vec![("Bilbo".to_string(), 3200)]);
    assert_eq!(
        transaction.benefits,
        vec![("Legolas".to_string(), Benefit::Even), ("Gimli".to_string(), Benefit::Sum(1000))]
    );
    assert_eq!(transaction.reverse().unwrap().description, "Undo 00d6");
}

#[test]
fn new_without_id_or_time() {
    let transaction = Transaction::new(Vec::new(), Vec::new(), "", true, None, None);
    assert_eq!(transaction.id, 0);
    assert!(transaction.is_direct);
    // The clock is read: any moment of this century will do.
    assert!(transaction.datetime.secs > 946_684_800);
    assert!(transaction.datetime.nanos < 2_000_000_000);
}

#[test]
fn reversal_of_a_transfer() {
    let transfer = Transaction::new(
        vec![("Bilbo", 3200)],
        vec![("Frodo", Benefit::Sum(3200))],
        "",
        true,
        Some(5),
        None,
    );
    let reversed = transfer.reverse().unwrap();
    assert!(!reversed.is_direct);
    assert_eq!(reversed.contributions, vec![("Frodo".to_string(), 3200)]);
    assert_eq!(reversed.benefits, vec![("Bilbo".to_string(), Benefit::Sum(3200))]);
    let delta = reversed.balance_updates().unwrap();
    assert_eq!(delta.get("Bilbo"), Some(-3200));
    assert_eq!(delta.get("Frodo"), Some(3200));
}

#[test]
fn reversal_fails_as_the_split_does() {
    let excess = Transaction::new(
        vec![("Bilbo", 3200)],
        vec![("Gimli", Benefit::Sum(4000))],
        "",
        false,
        None,
        None,
    );
    assert_eq!(
        excess.reverse().err(),
        Some(TransactionError::ExcessBenefits { specified: 4000, spent: 3200 })
    );
    let short = Transaction::new(
        vec![("Bilbo", 3200)],
        vec![("Gimli", Benefit::Sum(1000))],
        "",
        false,
        None,
        None,
    );
    assert_eq!(
        short.reverse().err(),
        Some(TransactionError::InsufficientBenefits { specified: 1000, spent: 3200 })
    );
}

#[test]
fn transaction_on_one_line() {
    let transaction = Transaction::new(
        vec![("Bilbo", 3200)],
        vec![("Legolas", Benefit::Even), ("Gimli", Benefit::Sum(1000))],
        "Dinner",
        false,
        Some(214),
        Some(noon()),
    );
    let repr = transaction.render("2022-05-01 12:00 +01:00", "From", "To", "Description");
    let expected = [
        "00d6\t2022-05-01 12:00 +01:00 ",
        "From: Bilbo: 32.00; ",
        "To: Legolas: Even; Gimli: 10.00; ",
        "Description: Dinner",
    ]
    .concat();
    assert_eq!(repr, expected);
}

#[test]
fn empty_transaction_on_one_line() {
    let transaction = Transaction::new(Vec::new(), Vec::new(), "", true, None, Some(noon()));
    assert_eq!(transaction.render("now", "<", ">", "#"), "0000\tnow <: >: #: ");
}
