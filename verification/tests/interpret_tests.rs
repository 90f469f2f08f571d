use oredash::interpret::{parse_line, parse_lines};
use oredash::record::{Status, StatusRecord};

fn fresh_record() -> StatusRecord {
    StatusRecord::new(String::from("pubkey"), String::from("wallets/a.json"), 0, 0)
}

#[test]
fn balance_line_stores_second_token() {
    let mut rec = fresh_record();
    parse_line("Balance: 12.5 ORE", &mut rec, 100);
    assert_eq!(rec.balance, "12.5");
}

#[test]
fn claimable_line_accumulates_delta() {
    let mut rec = fresh_record();
    parse_line("Claimable: 1.0 ORE", &mut rec, 100);
    assert_eq!(rec.claimable_nanos, 1_000_000_000);
    assert_eq!(rec.gained_nanos, 1_000_000_000);
    parse_line("Claimable: 1.000000009 ORE", &mut rec, 200);
    assert_eq!(rec.claimable_nanos, 1_000_000_009);
    assert_eq!(rec.gained_nanos, 1_000_000_009);
}

#[test]
fn claimable_decrease_subtracts() {
    let mut rec = fresh_record();
    parse_line("Claimable: 1.0 ORE", &mut rec, 0);
    parse_line("Claimable: 0.5 ORE", &mut rec, 0);
    parse_line("Claimable: 2.0 ORE", &mut rec, 0);
    // 1.0, then -0.5, then +1.5: signed deltas add up, decreases included.
    assert_eq!(rec.gained_nanos, 2_000_000_000);
    assert_eq!(rec.claimable_nanos, 2_000_000_000);
}

#[test]
fn valid_hash_sets_mining() {
    let mut rec = fresh_record();
    parse_line("found a valid hash!", &mut rec, 0);
    assert_eq!(rec.status, Status::Mining);
}

#[test]
fn landed_transaction_sets_success() {
    let mut rec = fresh_record();
    parse_line("Transaction did not land", &mut rec, 0);
    assert_eq!(rec.attempts, 1);
    parse_line("Transaction landed successfully", &mut rec, 777);
    assert_eq!(rec.status, Status::Success);
    assert_eq!(rec.attempts, 0);
    assert_eq!(rec.hits, 1);
    assert_eq!(rec.last_success_ms, Some(777));
}

#[test]
fn failed_transaction_sets_sending() {
    let mut rec = fresh_record();
    parse_line("Transaction did not land", &mut rec, 0);
    parse_line("Transaction did not land", &mut rec, 0);
    assert_eq!(rec.status, Status::Sending);
    assert_eq!(rec.attempts, 2);
}

#[test]
fn empty_line_changes_nothing() {
    let mut rec = fresh_record();
    parse_line("Balance: 3 ORE", &mut rec, 5);
    let before_balance = rec.balance.clone();
    let before_claimable = rec.claimable_nanos;
    let before_status = rec.status;
    let before_attempts = rec.attempts;
    let before_gained = rec.gained_nanos;
    let before_hits = rec.hits;
    let before_last = rec.last_success_ms;
    parse_line("", &mut rec, 99);
    assert_eq!(rec.balance, before_balance);
    assert_eq!(rec.claimable_nanos, before_claimable);
    assert_eq!(rec.status, before_status);
    assert_eq!(rec.attempts, before_attempts);
    assert_eq!(rec.gained_nanos, before_gained);
    assert_eq!(rec.hits, before_hits);
    assert_eq!(rec.last_success_ms, before_last);
}

#[test]
fn unmatched_line_changes_nothing() {
    let mut rec = fresh_record();
    parse_line("some unrelated chatter", &mut rec, 0);
    assert_eq!(rec.status, Status::Starting);
    assert_eq!(rec.balance, "0 ORE");
    assert_eq!(rec.attempts, 0);
}

#[test]
fn batch_applies_lines_in_order() {
    let mut rec = fresh_record();
    parse_lines("Balance: 5 ORE\nClaimable: 2.5 ORE\nfound a valid hash\n", &mut rec, 42);
    assert_eq!(rec.balance, "5");
    assert_eq!(rec.claimable_nanos, 2_500_000_000);
    assert_eq!(rec.status, Status::Mining);
}

#[test]
fn batch_handles_crlf_and_blank_lines() {
    let mut rec = fresh_record();
    parse_lines("Balance: 7 ORE\r\n\nClaimable: 1 ORE\n", &mut rec, 0);
    assert_eq!(rec.balance, "7");
    assert_eq!(rec.claimable_nanos, 1_000_000_000);
}

#[test]
fn balance_precedence_over_contains_markers() {
    // A balance line mentioning other markers is still a balance line.
    let mut rec = fresh_record();
    parse_line("Balance: 1 valid hash", &mut rec, 0);
    assert_eq!(rec.balance, "1");
    assert_eq!(rec.status, Status::Starting);
}
