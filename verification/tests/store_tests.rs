use oredash::record::StatusRecord;
use oredash::store::Store;

fn record_for(slot: usize, balance: &str) -> StatusRecord {
    let mut r = StatusRecord::new(String::from("id"), String::from("wallets/a.json"), slot, 0);
    r.balance = String::from(balance);
    r
}

#[test]
fn merge_appends_new_account() {
    let mut store = Store::new();
    store.merge(String::from("wallets/a.json"), record_for(0, "1"));
    assert_eq!(store.accounts.len(), 1);
    assert_eq!(store.accounts[0].key, "wallets/a.json");
    assert_eq!(store.accounts[0].records.len(), 1);
}

#[test]
fn merge_same_slot_replaces() {
    let mut store = Store::new();
    let key = String::from("wallets/a.json");
    store.merge(key.clone(), record_for(3, "first"));
    store.merge(key.clone(), record_for(3, "second"));
    assert_eq!(store.accounts.len(), 1);
    assert_eq!(store.accounts[0].records.len(), 1);
    assert_eq!(store.accounts[0].records[0].balance, "second");
    assert_eq!(store.accounts[0].records[0].instance_id, 3);
}

#[test]
fn merge_new_slot_appends() {
    let mut store = Store::new();
    let key = String::from("wallets/a.json");
    store.merge(key.clone(), record_for(0, "a"));
    store.merge(key.clone(), record_for(1, "b"));
    assert_eq!(store.accounts.len(), 1);
    assert_eq!(store.accounts[0].records.len(), 2);
    assert_eq!(store.accounts[0].records[0].balance, "a");
    assert_eq!(store.accounts[0].records[1].balance, "b");
}

#[test]
fn merge_keeps_accounts_separate() {
    let mut store = Store::new();
    store.merge(String::from("wallets/a.json"), record_for(0, "a"));
    store.merge(String::from("wallets/b.json"), record_for(0, "b"));
    assert_eq!(store.accounts.len(), 2);
    assert_eq!(store.accounts[0].records[0].balance, "a");
    assert_eq!(store.accounts[1].records[0].balance, "b");
}

#[test]
fn merge_batch_last_snapshot_wins_per_slot() {
    let mut store = Store::new();
    let key = String::from("wallets/a.json");
    let batch = vec![
        (key.clone(), record_for(0, "one")),
        (key.clone(), record_for(0, "two")),
        (key.clone(), record_for(1, "other")),
        (key.clone(), record_for(0, "three")),
    ];
    store.merge_batch(batch);
    assert_eq!(store.accounts.len(), 1);
    assert_eq!(store.accounts[0].records.len(), 2);
    assert_eq!(store.accounts[0].records[0].balance, "three");
    assert_eq!(store.accounts[0].records[1].balance, "other");
}
