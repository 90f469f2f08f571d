use oredash::record::{Status, StatusRecord};
use oredash::report::{build_report, gained_rate, hits_rate};
use oredash::store::Store;

fn record_with(
    slot: usize,
    balance: &str,
    claimable_nanos: u64,
    status: Status,
    last_success_ms: Option<u64>,
    attempts: u64,
) -> StatusRecord {
    let mut r = StatusRecord::new(String::from("id"), String::from("wallets/a.json"), slot, 0);
    r.balance = String::from(balance);
    r.claimable_nanos = claimable_nanos;
    r.status = status;
    r.last_success_ms = last_success_ms;
    r.attempts = attempts;
    r
}

#[test]
fn zero_elapsed_time_gives_zero_rates() {
    let mut store = Store::new();
    let mut r = record_with(0, "1", 0, Status::Mining, None, 0);
    r.gained_nanos = 5_000_000_000;
    r.hits = 3;
    store.merge(String::from("wallets/a.json"), r);
    let rep = build_report(&store, 1000, 0);
    assert_eq!(rep.gained_rate, 0);
    assert_eq!(rep.hits_rate_milli, 0);
}

#[test]
fn rates_over_one_minute() {
    // 100 units gained and 5 hits over one minute: the gained rate is
    // scaled down by ten, the hit rate is in thousandths per minute.
    assert_eq!(gained_rate(100_000_000_000, 60_000), 10_000_000_000);
    assert_eq!(hits_rate(5, 60_000), 5_000);
}

#[test]
fn negative_gained_gives_negative_rate() {
    assert_eq!(gained_rate(-100_000_000_000, 60_000), -10_000_000_000);
}

#[test]
fn last_record_wins_balance_and_claimable() {
    let mut store = Store::new();
    let key = String::from("wallets/a.json");
    store.merge(key.clone(), record_with(0, "1.5", 100, Status::Mining, None, 0));
    store.merge(key.clone(), record_with(1, "2.5", 200, Status::Mining, None, 0));
    let rep = build_report(&store, 0, 0);
    assert_eq!(rep.rows.len(), 1);
    assert_eq!(rep.rows[0].balance_nanos, 2_500_000_000);
    assert_eq!(rep.rows[0].claimable_nanos, 200);
    assert_eq!(rep.rows[0].mining_count, 2);
}

#[test]
fn success_is_suppressed_after_ttl() {
    let mut store = Store::new();
    let key = String::from("wallets/a.json");
    store.merge(key.clone(), record_with(0, "1", 0, Status::Success, Some(1000), 0));
    store.merge(key.clone(), record_with(1, "1", 0, Status::Success, Some(5000), 0));
    store.merge(key.clone(), record_with(2, "1", 0, Status::Success, None, 0));
    // At 3500 ms the first success is 2500 ms old (stale), the second is
    // still fresh, the third never landed one.
    let rep = build_report(&store, 3500, 0);
    assert_eq!(rep.rows[0].success_count, 1);
}

#[test]
fn sending_attempts_listed_in_order() {
    let mut store = Store::new();
    let key = String::from("wallets/a.json");
    store.merge(key.clone(), record_with(0, "1", 0, Status::Sending, None, 4));
    store.merge(key.clone(), record_with(1, "1", 0, Status::Mining, None, 0));
    store.merge(key.clone(), record_with(2, "1", 0, Status::Sending, None, 9));
    let rep = build_report(&store, 0, 0);
    assert_eq!(rep.rows[0].sending_attempts, vec![4, 9]);
    assert_eq!(rep.rows[0].mining_count, 1);
}

#[test]
fn fleet_totals_sum_accounts() {
    let mut store = Store::new();
    store.merge(String::from("wallets/a.json"), record_with(0, "1.5", 100, Status::Mining, None, 0));
    store.merge(String::from("wallets/b.json"), record_with(0, "2", 300, Status::Mining, None, 0));
    let mut r = record_with(1, "3", 500, Status::Mining, None, 0);
    r.gained_nanos = 7;
    r.hits = 2;
    store.merge(String::from("wallets/b.json"), r);
    let rep = build_report(&store, 0, 0);
    // Per account the last record wins; accounts then add up.
    assert_eq!(rep.total_balance_nanos, 1_500_000_000 + 3_000_000_000);
    assert_eq!(rep.total_claimable_nanos, 100 + 500);
    assert_eq!(rep.total_gained_nanos, 7);
    assert_eq!(rep.total_hits, 2);
}
