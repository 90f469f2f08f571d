//! The report computation: everything the rendered table shows, computed
//! from a store snapshot — per-account rows, fleet totals and rates.
//!
//! Per account, the balance and claimable shown are those of the last
//! record in iteration order ("last record wins"); Success shows only while
//! the last landed transaction is younger than the display TTL; Sending
//! instances are listed with their failure streaks; Mining instances are
//! counted.  Rates are over the whole session, zero when no time has
//! elapsed.

use vstd::prelude::*;

use crate::amount::{amount_u64, parse_amount};
use crate::interpret::clamp_gained;
use crate::record::{Status, StatusRecord};
use crate::store::{AccountModel, Store};
use crate::supervisor::SUCCESS_TTL_MS;

verus! {

/// One rendered row: an account and the summary of its instances.
pub struct AccountRow {
    pub key: String,
    /// The last record's balance, parsed to nanounits.
    pub balance_nanos: u64,
    /// The last record's claimable quantity, in nanounits.
    pub claimable_nanos: u64,
    /// Instances whose landed transaction is still fresh.
    pub success_count: usize,
    /// Failure streaks of the instances currently sending, in order.
    pub sending_attempts: Vec<u64>,
    /// Instances currently mining.
    pub mining_count: usize,
}

/// The whole computed report.
pub struct Report {
    pub rows: Vec<AccountRow>,
    /// Sum of the per-account balances, in nanounits.
    pub total_balance_nanos: u128,
    /// Sum of the per-account claimable quantities, in nanounits.
    pub total_claimable_nanos: u128,
    /// Sum of every record's cumulative gained quantity, clamped.
    pub total_gained_nanos: i128,
    /// Sum of every record's hit count, clamped.
    pub total_hits: u128,
    /// Gained nanounits per minute of session, scaled down by ten.
    pub gained_rate: i128,
    /// Hits per minute of session, in thousandths.
    pub hits_rate_milli: u128,
}

/// The balance the account shows: the last record's, zero with no records.
pub open spec fn last_balance_nanos(rs: Seq<StatusRecord>) -> u64 {
    if rs.len() == 0 {
        0
    } else {
        amount_u64(rs.last()@.balance)
    }
}

/// The claimable quantity the account shows: the last record's.
pub open spec fn last_claimable_nanos(rs: Seq<StatusRecord>) -> u64 {
    if rs.len() == 0 {
        0
    } else {
        rs.last()@.claimable_nanos
    }
}

/// A record whose last landed transaction is within the display TTL.
pub open spec fn is_fresh_success(r: StatusRecord, now_ms: u64) -> bool {
    r@.status == Status::Success && match r@.last_success_ms {
        Some(t) => now_ms <= t + SUCCESS_TTL_MS,
        None => false,
    }
}

/// How many records show a fresh Success.
pub open spec fn success_count(rs: Seq<StatusRecord>, now_ms: u64) -> int
    decreases rs.len(),
{
    if rs.len() == 0 {
        0
    } else {
        success_count(rs.drop_last(), now_ms) + if is_fresh_success(rs.last(), now_ms) {
            1int
        } else {
            0int
        }
    }
}

/// The failure streaks of the records currently sending, in order.
pub open spec fn sending_list(rs: Seq<StatusRecord>) -> Seq<u64>
    decreases rs.len(),
{
    if rs.len() == 0 {
        Seq::empty()
    } else {
        sending_list(rs.drop_last()) + if rs.last()@.status == Status::Sending {
            seq![rs.last()@.attempts]
        } else {
            Seq::empty()
        }
    }
}

/// How many records are currently mining.
pub open spec fn mining_count(rs: Seq<StatusRecord>) -> int
    decreases rs.len(),
{
    if rs.len() == 0 {
        0
    } else {
        mining_count(rs.drop_last()) + if rs.last()@.status == Status::Mining {
            1int
        } else {
            0int
        }
    }
}

/// The cumulative gained quantity of one account's records, clamped.
pub open spec fn gained_of_records(rs: Seq<StatusRecord>) -> i128
    decreases rs.len(),
{
    if rs.len() == 0 {
        0
    } else {
        clamp_gained(gained_of_records(rs.drop_last()) + rs.last()@.gained_nanos)
    }
}

/// `x` clamped at `u128::MAX`.
pub open spec fn clamp_u128(x: int) -> u128 {
    if x > u128::MAX {
        u128::MAX
    } else {
        x as u128
    }
}

/// The hit count of one account's records, clamped.
pub open spec fn hits_of_records(rs: Seq<StatusRecord>) -> u128
    decreases rs.len(),
{
    if rs.len() == 0 {
        0
    } else {
        clamp_u128(hits_of_records(rs.drop_last()) + rs.last()@.hits)
    }
}

/// Fleet total of the shown balances, exact.
pub open spec fn total_balance(s: Seq<AccountModel>) -> int
    decreases s.len(),
{
    if s.len() == 0 {
        0
    } else {
        total_balance(s.drop_last()) + last_balance_nanos(s.last().records)
    }
}

/// Fleet total of the shown claimable quantities, exact.
pub open spec fn total_claimable(s: Seq<AccountModel>) -> int
    decreases s.len(),
{
    if s.len() == 0 {
        0
    } else {
        total_claimable(s.drop_last()) + last_claimable_nanos(s.last().records)
    }
}

/// Fleet total of the cumulative gained quantities, clamped.
pub open spec fn total_gained(s: Seq<AccountModel>) -> i128
    decreases s.len(),
{
    if s.len() == 0 {
        0
    } else {
        clamp_gained(total_gained(s.drop_last()) + gained_of_records(s.last().records))
    }
}

/// Fleet total of the hit counts, clamped.
pub open spec fn total_hits(s: Seq<AccountModel>) -> u128
    decreases s.len(),
{
    if s.len() == 0 {
        0
    } else {
        clamp_u128(total_hits(s.drop_last()) + hits_of_records(s.last().records))
    }
}

/// Gained nanounits per session minute, scaled down by ten: with elapsed
/// milliseconds `ms`, `gained * 6000 / ms`, zero when no time has elapsed,
/// the magnitude clamped into `i128`.
pub open spec fn gained_rate_spec(gained: i128, elapsed_ms: u64) -> int {
    if elapsed_ms == 0 {
        0
    } else {
        let mag = if gained < 0 {
            -(gained as int)
        } else {
            gained as int
        };
        let scaled = if mag * 6000 > i128::MAX {
            i128::MAX as int
        } else {
            mag * 6000
        };
        let q = scaled / elapsed_ms as int;
        if gained < 0 {
            -q
        } else {
            q
        }
    }
}

/// Hits per session minute, in thousandths: `hits * 60_000_000 / ms`, zero
/// when no time has elapsed, clamped at `u128::MAX` before the division.
pub open spec fn hits_rate_spec(hits: u128, elapsed_ms: u64) -> int {
    if elapsed_ms == 0 {
        0
    } else {
        let scaled = if hits * 60_000_000 > u128::MAX {
            u128::MAX as int
        } else {
            hits * 60_000_000
        };
        scaled / elapsed_ms as int
    }
}

/// The gained-quantity rate, never faulting: zero elapsed time gives zero.
pub fn gained_rate(gained: i128, elapsed_ms: u64) -> (r: i128)
    ensures
        r == gained_rate_spec(gained, elapsed_ms),
{
    if elapsed_ms == 0 {
        return 0;
    }
    let neg = gained < 0;
    let mag: u128 = if neg {
        (-(gained + 1)) as u128 + 1
    } else {
        gained as u128
    };
    let scaled: u128 = match mag.checked_mul(6000) {
        Some(v) => {
            if v > i128::MAX as u128 {
                i128::MAX as u128
            } else {
                v
            }
        },
        None => i128::MAX as u128,
    };
    let q = scaled / (elapsed_ms as u128);
    if neg {
        -(q as i128)
    } else {
        q as i128
    }
}

/// The hit rate, never faulting: zero elapsed time gives zero.
pub fn hits_rate(hits: u128, elapsed_ms: u64) -> (r: u128)
    ensures
        r == hits_rate_spec(hits, elapsed_ms),
{
    if elapsed_ms == 0 {
        return 0;
    }
    let scaled: u128 = match hits.checked_mul(60_000_000) {
        Some(v) => v,
        None => u128::MAX,
    };
    scaled / (elapsed_ms as u128)
}

/// The row shown for one account.
pub open spec fn row_ok(row: AccountRow, a: AccountModel, now_ms: u64) -> bool {
    &&& row.key@ == a.key
    &&& row.balance_nanos == last_balance_nanos(a.records)
    &&& row.claimable_nanos == last_claimable_nanos(a.records)
    &&& row.success_count == success_count(a.records, now_ms)
    &&& row.sending_attempts@ == sending_list(a.records)
    &&& row.mining_count == mining_count(a.records)
}

/// Summarizes one account's records into its row.
fn build_row(key: &String, records: &Vec<StatusRecord>, now_ms: u64) -> (row: AccountRow)
    ensures
        row_ok(row, AccountModel { key: key@, records: records@ }, now_ms),
{
    let n = records.len();
    let balance_nanos: u64 = if n == 0 {
        0
    } else {
        parse_amount(records[n - 1].balance.as_str())
    };
    let claimable_nanos: u64 = if n == 0 {
        0
    } else {
        records[n - 1].claimable_nanos
    };
    proof {
        if n > 0 {
            assert(records@.last() == records@[n - 1]);
        }
    }
    let mut success: usize = 0;
    let mut sending: Vec<u64> = Vec::new();
    let mut mining: usize = 0;
    let mut j: usize = 0;
    while j < n
        invariant
            j <= n,
            n == records@.len(),
            success == success_count(records@.take(j as int), now_ms),
            success <= j,
            sending@ == sending_list(records@.take(j as int)),
            mining == mining_count(records@.take(j as int)),
            mining <= j,
        decreases n - j,
    {
        let r = &records[j];
        proof {
            assert(records@.take(j + 1).drop_last() =~= records@.take(j as int));
            assert(records@.take(j + 1).last() == records@[j as int]);
        }
        match r.status {
            Status::Success => {
                let fresh = match r.last_success_ms {
                    Some(t) => now_ms <= t.saturating_add(SUCCESS_TTL_MS),
                    None => false,
                };
                if fresh {
                    success += 1;
                }
            },
            Status::Sending => {
                sending.push(r.attempts);
            },
            Status::Mining => {
                mining += 1;
            },
            _ => {},
        }
        proof {
            assert(sending@ =~= sending_list(records@.take(j + 1)));
        }
        j += 1;
    }
    proof {
        assert(records@.take(n as int) =~= records@);
    }
    AccountRow {
        key: key.clone(),
        balance_nanos,
        claimable_nanos,
        success_count: success,
        sending_attempts: sending,
        mining_count: mining,
    }
}

/// Sums one account's gained quantities, clamped.
fn gained_of(records: &Vec<StatusRecord>) -> (g: i128)
    ensures
        g == gained_of_records(records@),
{
    let n = records.len();
    let mut g: i128 = 0;
    let mut j: usize = 0;
    while j < n
        invariant
            j <= n,
            n == records@.len(),
            g == gained_of_records(records@.take(j as int)),
        decreases n - j,
    {
        proof {
            assert(records@.take(j + 1).drop_last() =~= records@.take(j as int));
            assert(records@.take(j + 1).last() == records@[j as int]);
        }
        let x = records[j].gained_nanos;
        g = match g.checked_add(x) {
            Some(v) => v,
            None => {
                if x >= 0 {
                    i128::MAX
                } else {
                    i128::MIN
                }
            },
        };
        j += 1;
    }
    proof {
        assert(records@.take(n as int) =~= records@);
    }
    g
}

/// Sums one account's hit counts, clamped.
fn hits_of(records: &Vec<StatusRecord>) -> (h: u128)
    ensures
        h == hits_of_records(records@),
{
    let n = records.len();
    let mut h: u128 = 0;
    let mut j: usize = 0;
    while j < n
        invariant
            j <= n,
            n == records@.len(),
            h == hits_of_records(records@.take(j as int)),
        decreases n - j,
    {
        proof {
            assert(records@.take(j + 1).drop_last() =~= records@.take(j as int));
            assert(records@.take(j + 1).last() == records@[j as int]);
        }
        h = match h.checked_add(records[j].hits as u128) {
            Some(v) => v,
            None => u128::MAX,
        };
        j += 1;
    }
    proof {
        assert(records@.take(n as int) =~= records@);
    }
    h
}

/// Computes the whole report from a store snapshot: the renderer's pure
/// part.  `now_ms` drives the Success display TTL; `elapsed_ms` is the
/// session age the rates are over.
pub fn build_report(store: &Store, now_ms: u64, elapsed_ms: u64) -> (rep: Report)
    ensures
        rep.rows@.len() == store@.len(),
        forall|i: int| 0 <= i < store@.len() ==> row_ok(#[trigger] rep.rows@[i], store@[i], now_ms),
        rep.total_balance_nanos == total_balance(store@),
        rep.total_claimable_nanos == total_claimable(store@),
        rep.total_gained_nanos == total_gained(store@),
        rep.total_hits == total_hits(store@),
        rep.gained_rate == gained_rate_spec(total_gained(store@), elapsed_ms),
        rep.hits_rate_milli == hits_rate_spec(total_hits(store@), elapsed_ms),
{
    let n = store.accounts.len();
    let mut rows: Vec<AccountRow> = Vec::new();
    let mut tb: u128 = 0;
    let mut tc: u128 = 0;
    let mut tg: i128 = 0;
    let mut th: u128 = 0;
    let mut a: usize = 0;
    while a < n
        invariant
            a <= n,
            n == store@.len(),
            store@ == store.accounts@.map_values(|x: crate::store::AccountRecords| x@),
            rows@.len() == a,
            forall|i: int| 0 <= i < a ==> row_ok(#[trigger] rows@[i], store@[i], now_ms),
            tb == total_balance(store@.take(a as int)),
            tb <= a * (u64::MAX as u128),
            tc == total_claimable(store@.take(a as int)),
            tc <= a * (u64::MAX as u128),
            tg == total_gained(store@.take(a as int)),
            th == total_hits(store@.take(a as int)),
        decreases n - a,
    {
        let acc = &store.accounts[a];
        proof {
            assert(store@[a as int] == acc@);
            assert(store@.take(a + 1).drop_last() =~= store@.take(a as int));
            assert(store@.take(a + 1).last() == store@[a as int]);
        }
        let row = build_row(&acc.key, &acc.records, now_ms);
        let g = gained_of(&acc.records);
        let h = hits_of(&acc.records);
        tb = tb + row.balance_nanos as u128;
        tc = tc + row.claimable_nanos as u128;
        tg = match tg.checked_add(g) {
            Some(v) => v,
            None => {
                if g >= 0 {
                    i128::MAX
                } else {
                    i128::MIN
                }
            },
        };
        th = match th.checked_add(h) {
            Some(v) => v,
            None => u128::MAX,
        };
        rows.push(row);
        a += 1;
    }
    proof {
        assert(store@.take(n as int) =~= store@);
    }
    let gained_rate_v = gained_rate(tg, elapsed_ms);
    let hits_rate_v = hits_rate(th, elapsed_ms);
    Report {
        rows,
        total_balance_nanos: tb,
        total_claimable_nanos: tc,
        total_gained_nanos: tg,
        total_hits: th,
        gained_rate: gained_rate_v,
        hits_rate_milli: hits_rate_v,
    }
}

} // verus!
