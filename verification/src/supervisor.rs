//! The per-worker supervision decisions: buffering, the failure streak, and
//! when to flush, publish or kill.
//!
//! The runner that spawns the subprocess, reads its output and owns the
//! channel feeds every line to `on_line` and obeys the outcome: `Flush`
//! means publish a snapshot of the record, `Kill` means terminate the
//! subprocess, await its exit and loop back to spawning.  End of stream
//! goes through `on_eof`; every respawn goes through `restart`.

use vstd::prelude::*;
use vstd::string::StringExecFns;

use crate::interpret::{interpret_lines, sat_add_u64, split_lines};
use crate::record::{initial_record, RecordModel, StatusRecord};
use crate::text::{contains_seq, str_contains};

verus! {

/// The consecutive-failure ceiling: one failure more kills the worker.
pub const FAILURE_CEILING: u64 = 10;

/// Buffered output is interpreted and published once it reaches this many
/// characters.
pub const FLUSH_THRESHOLD: usize = 1000;

/// Capacity of the aggregation channel the runner creates.
pub const CHANNEL_CAPACITY: usize = 100;

/// How long a landed transaction keeps showing as Success in the report.
pub const SUCCESS_TTL_MS: u64 = 2000;

/// The aggregator/renderer tick.
pub const TICK_MS: u64 = 1000;

/// What the runner must do after a line has been taken in.
#[derive(Clone, Copy, Debug, PartialEq, Eq, Structural)]
pub enum LineOutcome {
    /// Terminate the subprocess: the failure streak passed the ceiling.
    Kill,
    /// The buffer was interpreted into the record: publish a snapshot.
    Flush,
    /// Nothing to do yet.
    Keep,
}

/// One worker's supervision state.
pub struct Supervisor {
    /// Consecutive failed-transaction count since the last non-failure line.
    pub attempts: u64,
    /// Raw output accumulated since the last flush.
    pub buffer: String,
    /// The record the line interpreter maintains.
    pub record: StatusRecord,
}

/// The model of the supervision state.
#[verifier::ext_equal]
pub ghost struct SupervisorModel {
    pub attempts: u64,
    pub buffer: Seq<char>,
    pub record: RecordModel,
}

impl View for Supervisor {
    type V = SupervisorModel;

    open spec fn view(&self) -> SupervisorModel {
        SupervisorModel { attempts: self.attempts, buffer: self.buffer@, record: self.record@ }
    }
}

/// The flush decision: a buffer at or past the threshold is interpreted
/// into the record, published and cleared.
pub open spec fn flush_step(m: SupervisorModel, now_ms: u64) -> (SupervisorModel, LineOutcome) {
    if m.buffer.len() >= FLUSH_THRESHOLD {
        (
            SupervisorModel {
                buffer: Seq::empty(),
                record: interpret_lines(split_lines(m.buffer), m.record, now_ms),
                ..m
            },
            LineOutcome::Flush,
        )
    } else {
        (m, LineOutcome::Keep)
    }
}

/// What one subprocess output line does to the supervision state, and what
/// the runner must do next.
pub open spec fn line_outcome(m: SupervisorModel, l: Seq<char>, now_ms: u64) -> (
    SupervisorModel,
    LineOutcome,
) {
    let buf = m.buffer + l + "\n"@;
    if contains_seq(l, "Transaction did not land"@) {
        let a = sat_add_u64(m.attempts, 1);
        let m2 = SupervisorModel {
            attempts: a,
            buffer: buf,
            record: RecordModel { attempts: a, ..m.record },
        };
        if a > FAILURE_CEILING {
            (m2, LineOutcome::Kill)
        } else {
            flush_step(m2, now_ms)
        }
    } else {
        flush_step(SupervisorModel { attempts: 0, buffer: buf, ..m }, now_ms)
    }
}

/// What the end of the output stream does: a leftover buffer is interpreted
/// and published.
pub open spec fn eof_step(m: SupervisorModel, now_ms: u64) -> (SupervisorModel, bool) {
    if m.buffer.len() == 0 {
        (m, false)
    } else {
        (
            SupervisorModel {
                buffer: Seq::empty(),
                record: interpret_lines(split_lines(m.buffer), m.record, now_ms),
                ..m
            },
            true,
        )
    }
}

impl Supervisor {
    /// The state a worker's supervision starts from.
    pub fn new(identifier: String, wallet_path: String, instance_id: usize, start_ms: u64) -> (s:
        Supervisor)
        ensures
            s@.attempts == 0,
            s@.buffer == Seq::<char>::empty(),
            s@.record == initial_record(identifier@, wallet_path@, instance_id, start_ms),
    {
        Supervisor {
            attempts: 0,
            buffer: String::new(),
            record: StatusRecord::new(identifier, wallet_path, instance_id, start_ms),
        }
    }

    /// Takes in one line of subprocess output.
    pub fn on_line(&mut self, line: &str, now_ms: u64) -> (o: LineOutcome)
        ensures
            final (self)@ == line_outcome(old(self)@, line@, now_ms).0,
            o == line_outcome(old(self)@, line@, now_ms).1,
    {
        self.buffer.append(line);
        self.buffer.append("\n");
        if str_contains(line, "Transaction did not land") {
            let a = self.attempts.saturating_add(1);
            self.attempts = a;
            self.record.attempts = a;
            if a > FAILURE_CEILING {
                proof {
                    assert(self@ =~= line_outcome(old(self)@, line@, now_ms).0);
                }
                return LineOutcome::Kill;
            }
        } else {
            self.attempts = 0;
        }
        let o = self.flush_if_full(now_ms);
        proof {
            assert(self@ =~= line_outcome(old(self)@, line@, now_ms).0);
        }
        o
    }

    /// Interprets and clears the buffer once it is at the threshold.
    fn flush_if_full(&mut self, now_ms: u64) -> (o: LineOutcome)
        ensures
            final (self)@ == flush_step(old(self)@, now_ms).0,
            o == flush_step(old(self)@, now_ms).1,
    {
        let bl = self.buffer.unicode_len();
        if bl >= FLUSH_THRESHOLD {
            let buf = self.buffer.clone();
            crate::interpret::parse_lines(buf.as_str(), &mut self.record, now_ms);
            self.buffer = String::new();
            proof {
                assert(self@ =~= flush_step(old(self)@, now_ms).0);
            }
            LineOutcome::Flush
        } else {
            LineOutcome::Keep
        }
    }

    /// Takes in the end of the output stream.
    pub fn on_eof(&mut self, now_ms: u64) -> (flushed: bool)
        ensures
            final (self)@ == eof_step(old(self)@, now_ms).0,
            flushed == eof_step(old(self)@, now_ms).1,
    {
        if self.buffer.as_str().is_empty() {
            false
        } else {
            let buf = self.buffer.clone();
            crate::interpret::parse_lines(buf.as_str(), &mut self.record, now_ms);
            self.buffer = String::new();
            proof {
                assert(self@ =~= eof_step(old(self)@, now_ms).0);
            }
            true
        }
    }

    /// Resets the state for a respawned subprocess: the slot, account and
    /// identifier stay; counters, buffer and record start over.
    pub fn restart(&mut self, start_ms: u64)
        ensures
            final (self)@.attempts == 0,
            final (self)@.buffer == Seq::<char>::empty(),
            final (self)@.record == initial_record(
                old(self)@.record.identifier,
                old(self)@.record.wallet_path,
                old(self)@.record.instance_id,
                start_ms,
            ),
    {
        let identifier = self.record.identifier.clone();
        let wallet_path = self.record.wallet_path.clone();
        let instance_id = self.record.instance_id;
        self.attempts = 0;
        self.buffer = String::new();
        self.record = StatusRecord::new(identifier, wallet_path, instance_id, start_ms);
    }
}

/// The line that reports a transaction that did not land.
pub open spec fn failure_line() -> Seq<char> {
    "Transaction did not land"@
}

/// The state after `n` failure lines in a row.
pub open spec fn after_failures(m: SupervisorModel, n: nat, now_ms: u64) -> SupervisorModel
    decreases n,
{
    if n == 0 {
        m
    } else {
        after_failures(line_outcome(m, failure_line(), now_ms).0, (n - 1) as nat, now_ms)
    }
}

/// No line of an `n`-long failure streak from `m` asks for a kill.
pub open spec fn streak_survives(m: SupervisorModel, n: nat, now_ms: u64) -> bool
    decreases n,
{
    n == 0 || (line_outcome(m, failure_line(), now_ms).1 != LineOutcome::Kill && streak_survives(
        line_outcome(m, failure_line(), now_ms).0,
        (n - 1) as nat,
        now_ms,
    ))
}

proof fn lemma_failure_line_matches()
    ensures
        contains_seq(failure_line(), "Transaction did not land"@),
{
    let l = failure_line();
    assert(l.subrange(0, 0 + l.len() as int) =~= l);
}

proof fn lemma_streak_general(m: SupervisorModel, now_ms: u64, n: nat)
    requires
        m.attempts + n <= FAILURE_CEILING,
    ensures
        streak_survives(m, n, now_ms),
        after_failures(m, n, now_ms).attempts == m.attempts + n,
    decreases n,
{
    if n > 0 {
        lemma_failure_line_matches();
        let m2 = line_outcome(m, failure_line(), now_ms).0;
        assert(m2.attempts == m.attempts + 1);
        lemma_streak_general(m2, now_ms, (n - 1) as nat);
    }
}

/// Law: from a fresh streak, the failure ceiling itself is survived — ten
/// consecutive failure lines ask for no kill and leave the count at ten.
pub proof fn lemma_streak_at_ceiling_survives(m: SupervisorModel, now_ms: u64)
    requires
        m.attempts == 0,
    ensures
        streak_survives(m, FAILURE_CEILING as nat, now_ms),
        after_failures(m, FAILURE_CEILING as nat, now_ms).attempts == FAILURE_CEILING,
{
    lemma_streak_general(m, now_ms, FAILURE_CEILING as nat);
}

/// Law: the failure line after the ceiling — the eleventh of a fresh
/// streak — asks for the subprocess to be killed within the same step.
pub proof fn lemma_streak_past_ceiling_kills(m: SupervisorModel, now_ms: u64)
    requires
        m.attempts == 0,
    ensures
        ({
            let at_ceiling = after_failures(m, FAILURE_CEILING as nat, now_ms);
            line_outcome(at_ceiling, failure_line(), now_ms).1 == LineOutcome::Kill
        }),
{
    lemma_streak_general(m, now_ms, FAILURE_CEILING as nat);
    lemma_failure_line_matches();
}

} // verus!
