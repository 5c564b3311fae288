use record_store::Contract;
use record_store::StoreError;

#[test]
fn get_default_greeting() {
    let contract = Contract::new("bob.near".to_string());
    assert_eq!(contract.get_greeting(), "Hello".to_string());
}

#[test]
fn set_then_get_greeting() {
    let mut contract = Contract::new("bob.near".to_string());
    contract.set_greeting("howdy".to_string());
    assert_eq!(contract.get_greeting(), "howdy".to_string());
}

#[test]
fn add_report() {
    let mut contract = Contract::new("bob.near".to_string());
    let report_id = contract.add_report(
        "bob.near".to_string(),
        "done today".to_string(),
        "goal tomorrow".to_string(),
        "blocker".to_string(),
        "word appreciation".to_string(),
    );
    assert_eq!(report_id, 0);
    assert_eq!(contract.report_count(), 1);
}

#[test]
fn get_report() {
    let mut contract = Contract::new("bob.near".to_string());
    let report_id = contract.add_report(
        "bob.near".to_string(),
        "done today".to_string(),
        "goal tomorrow".to_string(),
        "blocker".to_string(),
        "word appreciation".to_string(),
    );
    let report = contract.get_report(report_id).unwrap();
    assert_eq!(report.id, 0);
    assert_eq!(report.author, "bob.near".to_string());
    assert_eq!(report.done_today, "done today".to_string());
    assert_eq!(report.goal_tomorrow, "goal tomorrow".to_string());
    assert_eq!(report.blocker, "blocker".to_string());
    assert_eq!(report.word_appreciation, "word appreciation".to_string());
}

#[test]
fn update_report() {
    let mut contract = Contract::new("bob.near".to_string());
    let report_id = contract.add_report(
        "bob.near".to_string(),
        "done today".to_string(),
        "goal tomorrow".to_string(),
        "blocker".to_string(),
        "word appreciation".to_string(),
    );
    assert_eq!(contract.report_count(), 1);
    contract.update_report(
        "bob.near".to_string(),
        report_id,
        "updated done today".to_string(),
        "updated goal tomorrow".to_string(),
        "updated blocker".to_string(),
        "updated word appreciation".to_string(),
    );
    let report = contract.get_report(report_id).unwrap();
    assert_eq!(report.id, 0);
    assert_eq!(report.author, "bob.near".to_string());
    assert_eq!(report.done_today, "updated done today".to_string());
    assert_eq!(report.goal_tomorrow, "updated goal tomorrow".to_string());
    assert_eq!(report.blocker, "updated blocker".to_string());
    assert_eq!(
        report.word_appreciation,
        "updated word appreciation".to_string()
    );
}

#[test]
fn delete_report() {
    let mut contract = Contract::new("bob.near".to_string());
    let report_id = contract.add_report(
        "bob.near".to_string(),
        "done today".to_string(),
        "goal tomorrow".to_string(),
        "blocker".to_string(),
        "word appreciation".to_string(),
    );
    assert_eq!(contract.report_count(), 1);
    contract.delete_report("bob.near".to_string(), report_id).unwrap();
    assert_eq!(contract.report_count(), 0);
}

#[test]
fn owner_gated_delete_scenario() {
    let mut contract = Contract::new("o.near".to_string());
    let id = contract.add_report(
        "a.near".to_string(),
        "x".to_string(),
        "y".to_string(),
        "z".to_string(),
        "w".to_string(),
    );
    assert_eq!(id, 0);
    let report = contract.get_report(0).unwrap();
    assert_eq!(report.id, 0);
    assert_eq!(report.author, "a.near".to_string());
    assert_eq!(report.done_today, "x".to_string());
    assert_eq!(report.goal_tomorrow, "y".to_string());
    assert_eq!(report.blocker, "z".to_string());
    assert_eq!(report.word_appreciation, "w".to_string());
    let denied = contract.delete_report("a.near".to_string(), 0);
    assert_eq!(denied, Err(StoreError::PermissionDenied));
    let still_there = contract.get_report(0).unwrap();
    assert_eq!(still_there.author, "a.near".to_string());
    assert_eq!(still_there.done_today, "x".to_string());
    contract.delete_report("o.near".to_string(), 0).unwrap();
    let gone = contract.get_report(0);
    assert_eq!(gone.unwrap_err(), StoreError::NotFound);
}

#[test]
fn get_missing_report_fails() {
    let contract = Contract::new("bob.near".to_string());
    let missing = contract.get_report(7);
    assert_eq!(missing.unwrap_err(), StoreError::NotFound);
}

#[test]
fn update_inserts_when_absent() {
    let mut contract = Contract::new("bob.near".to_string());
    contract.update_report(
        "carol.near".to_string(),
        3,
        "late start".to_string(),
        "catch up".to_string(),
        "none".to_string(),
        "thanks".to_string(),
    );
    assert_eq!(contract.report_count(), 1);
    let report = contract.get_report(3).unwrap();
    assert_eq!(report.id, 3);
    assert_eq!(report.author, "carol.near".to_string());
    assert_eq!(report.done_today, "late start".to_string());
}

#[test]
fn update_restamps_author() {
    let mut contract = Contract::new("bob.near".to_string());
    let id = contract.add_report(
        "alice.near".to_string(),
        "wrote docs".to_string(),
        "write tests".to_string(),
        "none".to_string(),
        "thanks alice".to_string(),
    );
    contract.update_report(
        "carol.near".to_string(),
        id,
        "wrote docs".to_string(),
        "write tests".to_string(),
        "none".to_string(),
        "thanks alice".to_string(),
    );
    let report = contract.get_report(id).unwrap();
    assert_eq!(report.author, "carol.near".to_string());
}

#[test]
fn delete_absent_id_is_noop() {
    let mut contract = Contract::new("bob.near".to_string());
    let id = contract.add_report(
        "bob.near".to_string(),
        "a".to_string(),
        "b".to_string(),
        "c".to_string(),
        "d".to_string(),
    );
    contract.delete_report("bob.near".to_string(), 9).unwrap();
    assert_eq!(contract.report_count(), 1);
    assert!(contract.get_report(id).is_ok());
}

#[test]
fn size_derived_id_reuse_after_delete() {
    let mut contract = Contract::new("bob.near".to_string());
    let first = contract.add_report(
        "bob.near".to_string(),
        "one".to_string(),
        "two".to_string(),
        "three".to_string(),
        "four".to_string(),
    );
    let second = contract.add_report(
        "bob.near".to_string(),
        "five".to_string(),
        "six".to_string(),
        "seven".to_string(),
        "eight".to_string(),
    );
    assert_eq!(first, 0);
    assert_eq!(second, 1);
    contract.delete_report("bob.near".to_string(), first).unwrap();
    assert_eq!(contract.report_count(), 1);
    // The next size-derived id lands on a record still on hand and
    // overwrites it.
    let third = contract.add_report(
        "bob.near".to_string(),
        "nine".to_string(),
        "ten".to_string(),
        "eleven".to_string(),
        "twelve".to_string(),
    );
    assert_eq!(third, 1);
    assert_eq!(contract.report_count(), 1);
    let report = contract.get_report(1).unwrap();
    assert_eq!(report.done_today, "nine".to_string());
    assert_eq!(contract.get_report(0).unwrap_err(), StoreError::NotFound);
}

#[test]
fn set_greeting_to_empty_string() {
    let mut contract = Contract::new("bob.near".to_string());
    contract.set_greeting("".to_string());
    assert_eq!(contract.get_greeting(), "".to_string());
}

#[test]
fn duplicate_copies_every_field() {
    let mut contract = Contract::new("bob.near".to_string());
    let id = contract.add_report(
        "bob.near".to_string(),
        "a".to_string(),
        "b".to_string(),
        "c".to_string(),
        "d".to_string(),
    );
    let report = contract.get_report(id).unwrap();
    let copy = report.duplicate();
    assert_eq!(copy.id, report.id);
    assert_eq!(copy.author, report.author);
    assert_eq!(copy.done_today, report.done_today);
    assert_eq!(copy.goal_tomorrow, report.goal_tomorrow);
    assert_eq!(copy.blocker, report.blocker);
    assert_eq!(copy.word_appreciation, report.word_appreciation);
}
