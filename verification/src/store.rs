//! The aggregation store: account key to the ordered records of that
//! account's workers, merged snapshot by snapshot.
//!
//! A snapshot replaces the record holding the same slot index, or is
//! appended when the slot is new; records are never removed.  Well-formed
//! stores keep account keys unique and, within an account, slot indices
//! unique, so a slot always holds exactly the last snapshot merged into it.

use vstd::prelude::*;
use vstd::pervasive::VecAdditionalExecFns;

use crate::record::StatusRecord;

verus! {

/// One account's key and its workers' records, in insertion order.
pub struct AccountRecords {
    pub key: String,
    pub records: Vec<StatusRecord>,
}

/// The model of an account entry.
#[verifier::ext_equal]
pub ghost struct AccountModel {
    pub key: Seq<char>,
    pub records: Seq<StatusRecord>,
}

impl View for AccountRecords {
    type V = AccountModel;

    open spec fn view(&self) -> AccountModel {
        AccountModel { key: self.key@, records: self.records@ }
    }
}

/// The shared keyed store.
pub struct Store {
    pub accounts: Vec<AccountRecords>,
}

impl View for Store {
    type V = Seq<AccountModel>;

    open spec fn view(&self) -> Seq<AccountModel> {
        self.accounts@.map_values(|a: AccountRecords| a@)
    }
}

/// No two records of the sequence share a slot index.
pub open spec fn slots_unique(rs: Seq<StatusRecord>) -> bool {
    forall|i: int, j: int|
        0 <= i < j < rs.len() ==> (#[trigger] rs[i]).instance_id != (#[trigger] rs[j]).instance_id
}

/// Some record of the sequence occupies the given slot.
pub open spec fn has_slot(rs: Seq<StatusRecord>, slot: usize) -> bool {
    exists|i: int| 0 <= i < rs.len() && (#[trigger] rs[i]).instance_id == slot
}

/// An index of a record occupying the given slot.
pub open spec fn slot_index(rs: Seq<StatusRecord>, slot: usize) -> int {
    choose|i: int| 0 <= i < rs.len() && (#[trigger] rs[i]).instance_id == slot
}

/// Merging one snapshot into an account's records: replace the record in
/// the snapshot's slot, or append when the slot is new.
pub open spec fn merge_records(rs: Seq<StatusRecord>, r: StatusRecord) -> Seq<StatusRecord> {
    if has_slot(rs, r.instance_id) {
        rs.update(slot_index(rs, r.instance_id), r)
    } else {
        rs.push(r)
    }
}

/// No two accounts of the store share a key.
pub open spec fn keys_unique(s: Seq<AccountModel>) -> bool {
    forall|i: int, j: int| 0 <= i < j < s.len() ==> (#[trigger] s[i]).key != (#[trigger] s[j]).key
}

/// Some account of the store has the given key.
pub open spec fn has_key(s: Seq<AccountModel>, key: Seq<char>) -> bool {
    exists|i: int| 0 <= i < s.len() && (#[trigger] s[i]).key == key
}

/// An index of an account with the given key.
pub open spec fn key_index(s: Seq<AccountModel>, key: Seq<char>) -> int {
    choose|i: int| 0 <= i < s.len() && (#[trigger] s[i]).key == key
}

/// A well-formed store: unique keys, unique slots per account.
pub open spec fn store_wf(s: Seq<AccountModel>) -> bool {
    keys_unique(s) && forall|i: int| 0 <= i < s.len() ==> slots_unique((#[trigger] s[i]).records)
}

/// Merging one snapshot into the store under its account key.
pub open spec fn merge_into(s: Seq<AccountModel>, key: Seq<char>, r: StatusRecord) -> Seq<
    AccountModel,
> {
    if has_key(s, key) {
        let a = key_index(s, key);
        s.update(a, AccountModel { key: key, records: merge_records(s[a].records, r) })
    } else {
        s.push(AccountModel { key: key, records: seq![r] })
    }
}

/// Merging a whole batch of keyed snapshots, in order.
pub open spec fn merge_all(s: Seq<AccountModel>, batch: Seq<(String, StatusRecord)>) -> Seq<
    AccountModel,
>
    decreases batch.len(),
{
    if batch.len() == 0 {
        s
    } else {
        merge_all(merge_into(s, batch[0].0@, batch[0].1), batch.drop_first())
    }
}

/// The index of the account holding `key`, scanning in order.
fn find_account(accounts: &Vec<AccountRecords>, key: &String) -> (r: Option<usize>)
    ensures
        match r {
            Some(i) => i < accounts@.len() && accounts@[i as int].key@ == key@,
            None => forall|k: int| 0 <= k < accounts@.len() ==> (#[trigger] accounts@[k]).key@ != key@,
        },
{
    let n = accounts.len();
    let mut i: usize = 0;
    while i < n
        invariant
            i <= n,
            n == accounts@.len(),
            forall|k: int| 0 <= k < i ==> (#[trigger] accounts@[k]).key@ != key@,
        decreases n - i,
    {
        if accounts[i].key == *key {
            return Some(i);
        }
        i += 1;
    }
    None
}

/// The index of the record in the given slot, scanning in order.
fn find_slot(records: &Vec<StatusRecord>, slot: usize) -> (r: Option<usize>)
    ensures
        match r {
            Some(j) => j < records@.len() && records@[j as int].instance_id == slot,
            None => !has_slot(records@, slot),
        },
{
    let n = records.len();
    let mut j: usize = 0;
    while j < n
        invariant
            j <= n,
            n == records@.len(),
            forall|k: int| 0 <= k < j ==> (#[trigger] records@[k]).instance_id != slot,
        decreases n - j,
    {
        if records[j].instance_id == slot {
            return Some(j);
        }
        j += 1;
    }
    None
}

impl Store {
    /// An empty store.
    pub fn new() -> (s: Store)
        ensures
            s@ =~= Seq::<AccountModel>::empty(),
            store_wf(s@),
    {
        Store { accounts: Vec::new() }
    }

    /// Merges one keyed snapshot: the consumer loop's single step.
    pub fn merge(&mut self, key: String, rec: StatusRecord)
        requires
            store_wf(old(self)@),
        ensures
            store_wf(final (self)@),
            final (self)@ == merge_into(old(self)@, key@, rec),
    {
        let ghost s0 = self@;
        match find_account(&self.accounts, &key) {
            Some(a) => {
                proof {
                    assert(s0[a as int].key == key@);
                    assert(has_key(s0, key@));
                    let c = key_index(s0, key@);
                    assert(s0[c].key == key@);
                    if c != a {
                        assert(false);
                    }
                }
                let mut acc = self.accounts.remove(a);
                let ghost rs0 = acc.records@;
                match find_slot(&acc.records, rec.instance_id) {
                    Some(j) => {
                        proof {
                            assert(rs0[j as int].instance_id == rec.instance_id);
                            assert(has_slot(rs0, rec.instance_id));
                            let cj = slot_index(rs0, rec.instance_id);
                            assert(rs0[cj].instance_id == rec.instance_id);
                            if cj != j {
                                assert(false);
                            }
                        }
                        acc.records.set(j, rec);
                    },
                    None => {
                        acc.records.push(rec);
                    },
                }
                proof {
                    assert(acc.records@ =~= merge_records(rs0, rec));
                }
                self.accounts.insert(a, acc);
                proof {
                    assert(final (self)@ =~~= merge_into(s0, key@, rec));
                    lemma_merge_slot_last_wins(rs0, rec);
                    assert(store_wf(final (self)@));
                }
            },
            None => {
                proof {
                    assert(!has_key(s0, key@));
                }
                let mut records: Vec<StatusRecord> = Vec::new();
                records.push(rec);
                self.accounts.push(AccountRecords { key, records });
                proof {
                    assert(final (self)@ =~~= merge_into(s0, key@, rec));
                }
            },
        }
    }

    /// Merges a drained batch of keyed snapshots, in arrival order.
    pub fn merge_batch(&mut self, batch: Vec<(String, StatusRecord)>)
        requires
            store_wf(old(self)@),
        ensures
            store_wf(final (self)@),
            final (self)@ == merge_all(old(self)@, batch@),
    {
        let mut rest = batch;
        while rest.len() > 0
            invariant
                store_wf(self@),
                merge_all(self@, rest@) == merge_all(old(self)@, batch@),
            decreases rest@.len(),
        {
            let ghost rest0 = rest@;
            let (key, rec) = rest.remove(0);
            proof {
                assert(rest@ =~= rest0.drop_first());
            }
            self.merge(key, rec);
        }
    }
}

/// Merge law: after a snapshot is merged, its slot holds exactly one
/// record — the snapshot itself — and slots stay unique.
pub proof fn lemma_merge_slot_last_wins(rs: Seq<StatusRecord>, r: StatusRecord)
    requires
        slots_unique(rs),
    ensures
        slots_unique(merge_records(rs, r)),
        exists|j: int|
            0 <= j < merge_records(rs, r).len() && (#[trigger] merge_records(rs, r)[j]) == r,
        forall|j: int|
            0 <= j < merge_records(rs, r).len() && (#[trigger] merge_records(rs, r)[j]).instance_id
                == r.instance_id ==> merge_records(rs, r)[j] == r,
{
    let m = merge_records(rs, r);
    if has_slot(rs, r.instance_id) {
        let i = slot_index(rs, r.instance_id);
        assert(rs[i].instance_id == r.instance_id);
        assert(m[i] == r);
    } else {
        assert(m[rs.len() as int] == r);
    }
}

/// Merge law at the store: two snapshots delivered for the same slot of
/// the same account leave that account holding exactly one record in the
/// slot — the one merged last.
pub proof fn lemma_store_slot_last_wins(
    s: Seq<AccountModel>,
    key: Seq<char>,
    r1: StatusRecord,
    r2: StatusRecord,
)
    requires
        store_wf(s),
        r1.instance_id == r2.instance_id,
    ensures
        ({
            let s2 = merge_into(merge_into(s, key, r1), key, r2);
            has_key(s2, key) && {
                let rs = s2[key_index(s2, key)].records;
                (exists|j: int| 0 <= j < rs.len() && (#[trigger] rs[j]) == r2) && (forall|j: int|
                    0 <= j < rs.len() && (#[trigger] rs[j]).instance_id == r2.instance_id ==> rs[j]
                        == r2)
            }
        }),
{
    let s1 = merge_into(s, key, r1);
    if has_key(s, key) {
        let a = key_index(s, key);
        assert(s[a].key == key);
        assert(s1[a].key == key);
        assert(has_key(s1, key));
        let a1 = key_index(s1, key);
        assert(s1[a1].key == key);
        if a1 != a {
            assert(s[if a1 < a {
                a1
            } else {
                a
            }].key == s[if a1 < a {
                a
            } else {
                a1
            }].key);
            assert(false);
        }
        let s2 = merge_into(s1, key, r2);
        let a2 = key_index(s2, key);
        assert(s2[a1].key == key);
        assert(has_key(s2, key));
        if a2 != a1 {
            assert(s1[if a2 < a1 {
                a2
            } else {
                a1
            }].key == s1[if a2 < a1 {
                a1
            } else {
                a2
            }].key);
            assert(false);
        }
        lemma_merge_same_slot_twice(s[a].records, r1, r2);
    } else {
        let n = s.len() as int;
        assert(s1 == s.push(AccountModel { key: key, records: seq![r1] }));
        assert(s1[n].key == key);
        assert(has_key(s1, key));
        let a1 = key_index(s1, key);
        assert(s1[a1].key == key);
        if a1 != n {
            assert(s[a1].key == key);
            assert(false);
        }
        assert(merge_records(Seq::<StatusRecord>::empty(), r1) =~= seq![r1]);
        let s2 = merge_into(s1, key, r2);
        let a2 = key_index(s2, key);
        assert(s2[a1].key == key);
        assert(has_key(s2, key));
        if a2 != a1 {
            if a2 < n {
                assert(s[a2].key == key);
            }
            assert(false);
        }
        lemma_merge_same_slot_twice(Seq::<StatusRecord>::empty(), r1, r2);
        assert(s2[a2].records == merge_records(merge_records(Seq::<StatusRecord>::empty(), r1), r2));
    }
}

/// Merge law, iterated: of two snapshots for the same slot, the later one
/// is all that remains in that slot.
pub proof fn lemma_merge_same_slot_twice(rs: Seq<StatusRecord>, r1: StatusRecord, r2: StatusRecord)
    requires
        slots_unique(rs),
        r1.instance_id == r2.instance_id,
    ensures
        ({
            let m = merge_records(merge_records(rs, r1), r2);
            slots_unique(m) && (exists|j: int| 0 <= j < m.len() && (#[trigger] m[j]) == r2)
                && (forall|j: int|
                0 <= j < m.len() && (#[trigger] m[j]).instance_id == r2.instance_id ==> m[j] == r2)
        }),
{
    lemma_merge_slot_last_wins(rs, r1);
    lemma_merge_slot_last_wins(merge_records(rs, r1), r2);
}

} // verus!
