//! The per-worker status record and its mathematical model.

use vstd::prelude::*;
use vstd::string::StringExecFns;

verus! {

/// What a worker is currently doing, as read from its output.
#[derive(Clone, Copy, Debug, PartialEq, Eq, Structural)]
pub enum Status {
    Starting,
    Mining,
    Sending,
    Success,
    Unknown,
}

/// One worker instance's status, as the line interpreter maintains it.
///
/// Quantities are fixed-point nanounits (see `amount`); timestamps are
/// milliseconds on whatever clock the caller supplies.  `gained_nanos` is
/// the running sum of signed claimable deltas; a claim that lowers the
/// claimable quantity lowers it too — deliberate, if surprising.
pub struct StatusRecord {
    /// Display balance, the token last reported verbatim.
    pub balance: String,
    /// Last parsed claimable quantity, in nanounits.
    pub claimable_nanos: u64,
    pub status: Status,
    /// Resolved public identifier of the owning account.
    pub identifier: String,
    /// Consecutive failed-transaction count, as the interpreter saw it.
    pub attempts: u64,
    /// Path of the owning account's credential file: the account key.
    pub wallet_path: String,
    /// Slot index: unique among the workers of one account.
    pub instance_id: usize,
    /// Clock reading at the last landed transaction, if any.
    pub last_success_ms: Option<u64>,
    /// Running sum of signed claimable deltas, clamped into `i128`.
    pub gained_nanos: i128,
    /// Count of landed transactions.
    pub hits: u64,
    /// Clock reading when this record began tracking.
    pub tracking_start_ms: u64,
}

/// The mathematical model of a `StatusRecord`: strings as character
/// sequences, everything else as plain values.
#[verifier::ext_equal]
pub ghost struct RecordModel {
    pub balance: Seq<char>,
    pub claimable_nanos: u64,
    pub status: Status,
    pub identifier: Seq<char>,
    pub attempts: u64,
    pub wallet_path: Seq<char>,
    pub instance_id: usize,
    pub last_success_ms: Option<u64>,
    pub gained_nanos: i128,
    pub hits: u64,
    pub tracking_start_ms: u64,
}

impl View for StatusRecord {
    type V = RecordModel;

    open spec fn view(&self) -> RecordModel {
        RecordModel {
            balance: self.balance@,
            claimable_nanos: self.claimable_nanos,
            status: self.status,
            identifier: self.identifier@,
            attempts: self.attempts,
            wallet_path: self.wallet_path@,
            instance_id: self.instance_id,
            last_success_ms: self.last_success_ms,
            gained_nanos: self.gained_nanos,
            hits: self.hits,
            tracking_start_ms: self.tracking_start_ms,
        }
    }
}

/// The record a freshly spawned worker starts from.
pub open spec fn initial_record(
    identifier: Seq<char>,
    wallet_path: Seq<char>,
    instance_id: usize,
    start_ms: u64,
) -> RecordModel {
    RecordModel {
        balance: "0 ORE"@,
        claimable_nanos: 0,
        status: Status::Starting,
        identifier: identifier,
        attempts: 0,
        wallet_path: wallet_path,
        instance_id: instance_id,
        last_success_ms: None,
        gained_nanos: 0,
        hits: 0,
        tracking_start_ms: start_ms,
    }
}

impl StatusRecord {
    /// Builds the starting record for a worker instance.
    pub fn new(identifier: String, wallet_path: String, instance_id: usize, start_ms: u64) -> (r:
        StatusRecord)
        ensures
            r@ == initial_record(identifier@, wallet_path@, instance_id, start_ms),
    {
        let r = StatusRecord {
            balance: String::from_str("0 ORE"),
            claimable_nanos: 0,
            status: Status::Starting,
            identifier,
            attempts: 0,
            wallet_path,
            instance_id,
            last_success_ms: None,
            gained_nanos: 0,
            hits: 0,
            tracking_start_ms: start_ms,
        };
        proof {
            assert(r@ =~= initial_record(r.identifier@, r.wallet_path@, instance_id, start_ms));
        }
        r
    }

    /// A deep copy of the record: the snapshot sent across the aggregation
    /// channel.
    pub fn snapshot(&self) -> (r: StatusRecord)
        ensures
            r@ == self@,
    {
        StatusRecord {
            balance: self.balance.clone(),
            claimable_nanos: self.claimable_nanos,
            status: self.status,
            identifier: self.identifier.clone(),
            attempts: self.attempts,
            wallet_path: self.wallet_path.clone(),
            instance_id: self.instance_id,
            last_success_ms: self.last_success_ms,
            gained_nanos: self.gained_nanos,
            hits: self.hits,
            tracking_start_ms: self.tracking_start_ms,
        }
    }
}

} // verus!
