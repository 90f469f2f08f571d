use oredash::record::Status;
use oredash::supervisor::{LineOutcome, Supervisor, FAILURE_CEILING, FLUSH_THRESHOLD};

fn fresh() -> Supervisor {
    Supervisor::new(String::from("id"), String::from("wallets/a.json"), 0, 0)
}

#[test]
fn streak_of_ten_does_not_kill() {
    let mut sup = fresh();
    for _ in 0..FAILURE_CEILING {
        let o = sup.on_line("Transaction did not land", 0);
        assert_ne!(o, LineOutcome::Kill);
    }
    assert_eq!(sup.attempts, 10);
}

#[test]
fn eleventh_failure_kills() {
    let mut sup = fresh();
    for _ in 0..FAILURE_CEILING {
        assert_ne!(sup.on_line("Transaction did not land", 0), LineOutcome::Kill);
    }
    let o = sup.on_line("Transaction did not land", 0);
    assert_eq!(o, LineOutcome::Kill);
    assert_eq!(sup.attempts, 11);
}

#[test]
fn non_failure_line_resets_streak() {
    let mut sup = fresh();
    for _ in 0..FAILURE_CEILING {
        sup.on_line("Transaction did not land", 0);
    }
    sup.on_line("found a valid hash", 0);
    assert_eq!(sup.attempts, 0);
    // The streak starts over: ten more failures still do not kill.
    for _ in 0..FAILURE_CEILING {
        assert_ne!(sup.on_line("Transaction did not land", 0), LineOutcome::Kill);
    }
}

#[test]
fn buffer_flushes_at_threshold() {
    let mut sup = fresh();
    let long_line = "x".repeat(FLUSH_THRESHOLD);
    let o = sup.on_line(&long_line, 0);
    assert_eq!(o, LineOutcome::Flush);
    assert!(sup.buffer.is_empty());
}

#[test]
fn short_lines_are_kept_until_eof() {
    let mut sup = fresh();
    let o = sup.on_line("Balance: 9 ORE", 0);
    assert_eq!(o, LineOutcome::Keep);
    // Not interpreted yet: the buffer has not reached the threshold.
    assert_eq!(sup.record.balance, "0 ORE");
    let flushed = sup.on_eof(0);
    assert!(flushed);
    assert_eq!(sup.record.balance, "9");
    assert!(sup.buffer.is_empty());
    assert!(!sup.on_eof(0));
}

#[test]
fn flush_interprets_whole_buffer_in_order() {
    let mut sup = fresh();
    sup.on_line("Claimable: 1.0 ORE", 0);
    sup.on_line("Claimable: 0.25 ORE", 0);
    sup.on_line("Transaction landed", 7);
    sup.on_eof(7);
    assert_eq!(sup.record.claimable_nanos, 250_000_000);
    assert_eq!(sup.record.gained_nanos, 250_000_000);
    assert_eq!(sup.record.status, Status::Success);
    assert_eq!(sup.record.hits, 1);
    assert_eq!(sup.record.last_success_ms, Some(7));
}

#[test]
fn restart_preserves_slot_and_identity() {
    let mut sup = Supervisor::new(String::from("id"), String::from("wallets/a.json"), 5, 0);
    sup.on_line("Balance: 9 ORE", 0);
    sup.on_eof(0);
    sup.on_line("Transaction did not land", 0);
    sup.restart(123);
    assert_eq!(sup.attempts, 0);
    assert!(sup.buffer.is_empty());
    assert_eq!(sup.record.instance_id, 5);
    assert_eq!(sup.record.identifier, "id");
    assert_eq!(sup.record.wallet_path, "wallets/a.json");
    assert_eq!(sup.record.balance, "0 ORE");
    assert_eq!(sup.record.tracking_start_ms, 123);
}
