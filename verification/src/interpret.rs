//! The line interpreter: a stateful classifier that folds raw worker output
//! lines into a status record.
//!
//! Rules, first match wins: a line opening with the balance marker stores
//! its second token verbatim; one opening with the claimable marker parses
//! the new claimable quantity and adds the signed delta to the cumulative
//! gained total; a valid-hash signal sets Mining; a landed transaction sets
//! Success, clears the failure count and bumps the hit count; a failed
//! transaction bumps the failure count and sets Sending; anything else
//! leaves the record untouched.

use vstd::prelude::*;
use vstd::string::StrSliceExecFns;

use crate::amount::{amount_u64, parse_amount};
use crate::record::{RecordModel, Status, StatusRecord};
use crate::text::{
    contains_seq, second_token, second_token_str, starts_with, str_contains, str_starts_with,
};

verus! {

/// `a + b`, clamped at `u64::MAX`.
pub open spec fn sat_add_u64(a: u64, b: u64) -> u64 {
    if a + b > u64::MAX {
        u64::MAX
    } else {
        (a + b) as u64
    }
}

/// `x` clamped into the range of `i128`.
pub open spec fn clamp_gained(x: int) -> i128 {
    if x > i128::MAX {
        i128::MAX
    } else if x < i128::MIN {
        i128::MIN
    } else {
        x as i128
    }
}

/// What one line does to a record: the interpreter's whole meaning.
pub open spec fn line_step(l: Seq<char>, m: RecordModel, now_ms: u64) -> RecordModel {
    if starts_with(l, "Balance:"@) {
        RecordModel { balance: second_token(l), ..m }
    } else if starts_with(l, "Claimable:"@) {
        let v = amount_u64(second_token(l));
        RecordModel {
            claimable_nanos: v,
            gained_nanos: clamp_gained(m.gained_nanos + v - m.claimable_nanos),
            ..m
        }
    } else if contains_seq(l, "valid hash"@) {
        RecordModel { status: Status::Mining, ..m }
    } else if contains_seq(l, "Transaction landed"@) {
        RecordModel {
            status: Status::Success,
            attempts: 0,
            last_success_ms: Some(now_ms),
            hits: sat_add_u64(m.hits, 1),
            ..m
        }
    } else if contains_seq(l, "Transaction did not land"@) {
        RecordModel { attempts: sat_add_u64(m.attempts, 1), status: Status::Sending, ..m }
    } else {
        m
    }
}

/// Folds `line_step` over a sequence of lines, in order.
pub open spec fn interpret_lines(ls: Seq<Seq<char>>, m: RecordModel, now_ms: u64) -> RecordModel
    decreases ls.len(),
{
    if ls.len() == 0 {
        m
    } else {
        interpret_lines(ls.drop_first(), line_step(ls[0], m, now_ms), now_ms)
    }
}

/// The index of the first newline at or after `from`, or the length.
pub open spec fn newline_at(s: Seq<char>, from: int) -> int
    decreases s.len() - from,
{
    if from < 0 || from >= s.len() {
        s.len() as int
    } else if s[from] == '\n' {
        from
    } else {
        newline_at(s, from + 1)
    }
}

/// The lines of a buffer: split at newlines, a carriage return before a
/// newline dropped, no empty line after a trailing newline.
pub open spec fn split_lines(s: Seq<char>) -> Seq<Seq<char>>
    decreases s.len(),
{
    if s.len() == 0 {
        Seq::empty()
    } else {
        let e = newline_at(s, 0);
        let line = if 0 < e < s.len() && s[e - 1] == '\r' {
            s.subrange(0, e - 1)
        } else {
            s.subrange(0, e)
        };
        if 0 <= e < s.len() {
            seq![line] + split_lines(s.skip(e + 1))
        } else {
            seq![line]
        }
    }
}

/// Runtime scan matching `newline_at` from the start of `s`.
fn nl_index(s: &str) -> (r: usize)
    ensures
        r == newline_at(s@, 0),
        r <= s@.len(),
{
    let sl = s.unicode_len();
    let mut i: usize = 0;
    while i < sl
        invariant
            i <= sl,
            sl == s@.len(),
            newline_at(s@, 0) == newline_at(s@, i as int),
        decreases sl - i,
    {
        if s.get_char(i) == '\n' {
            return i;
        }
        i += 1;
    }
    i
}

/// Applies one output line to the record, per the classification rules.
pub fn parse_line(line: &str, rec: &mut StatusRecord, now_ms: u64)
    ensures
        final (rec)@ == line_step(line@, old(rec)@, now_ms),
{
    if str_starts_with(line, "Balance:") {
        let tok = second_token_str(line);
        rec.balance = tok;
        proof {
            assert(rec@ =~= line_step(line@, old(rec)@, now_ms));
        }
    } else if str_starts_with(line, "Claimable:") {
        let tok = second_token_str(line);
        let v = parse_amount(tok.as_str());
        let delta: i128 = v as i128 - rec.claimable_nanos as i128;
        let g = match rec.gained_nanos.checked_add(delta) {
            Some(w) => w,
            None => {
                if delta >= 0 {
                    i128::MAX
                } else {
                    i128::MIN
                }
            },
        };
        rec.claimable_nanos = v;
        rec.gained_nanos = g;
        proof {
            assert(rec@ =~= line_step(line@, old(rec)@, now_ms));
        }
    } else if str_contains(line, "valid hash") {
        rec.status = Status::Mining;
        proof {
            assert(rec@ =~= line_step(line@, old(rec)@, now_ms));
        }
    } else if str_contains(line, "Transaction landed") {
        rec.status = Status::Success;
        rec.attempts = 0;
        rec.last_success_ms = Some(now_ms);
        rec.hits = rec.hits.saturating_add(1);
        proof {
            assert(rec@ =~= line_step(line@, old(rec)@, now_ms));
        }
    } else if str_contains(line, "Transaction did not land") {
        rec.attempts = rec.attempts.saturating_add(1);
        rec.status = Status::Sending;
        proof {
            assert(rec@ =~= line_step(line@, old(rec)@, now_ms));
        }
    }
}

/// The batch variant: applies the interpreter to every line of a buffer,
/// in order.
pub fn parse_lines(buffer: &str, rec: &mut StatusRecord, now_ms: u64)
    ensures
        final (rec)@ == interpret_lines(split_lines(buffer@), old(rec)@, now_ms),
{
    let bl = buffer.unicode_len();
    proof {
        assert(buffer@.skip(0) =~= buffer@);
    }
    let mut pos: usize = 0;
    while pos < bl
        invariant
            pos <= bl,
            bl == buffer@.len(),
            interpret_lines(split_lines(buffer@.skip(pos as int)), rec@, now_ms)
                == interpret_lines(split_lines(buffer@), old(rec)@, now_ms),
        decreases bl - pos,
    {
        let suf = buffer.substring_char(pos, bl);
        proof {
            assert(suf@ =~= buffer@.skip(pos as int));
        }
        let sl = suf.unicode_len();
        let e = nl_index(&suf);
        let te: usize = if e < sl && e > 0 && suf.get_char(e - 1) == '\r' {
            e - 1
        } else {
            e
        };
        let line = suf.substring_char(0, te);
        let ghost pre = rec@;
        parse_line(line, rec, now_ms);
        let next: usize = if e < sl {
            pos + e + 1
        } else {
            bl
        };
        proof {
            let sv = suf@;
            let lines = split_lines(sv);
            assert(line@ =~= sv.subrange(0, te as int));
            if e < sl {
                assert(lines == seq![line@] + split_lines(sv.skip(e + 1)));
                assert(lines[0] == line@);
                assert(lines.drop_first() =~= split_lines(sv.skip(e + 1)));
                assert(sv.skip(e + 1) =~= buffer@.skip(next as int));
                assert(interpret_lines(lines, pre, now_ms) == interpret_lines(
                    split_lines(buffer@.skip(next as int)),
                    rec@,
                    now_ms,
                ));
            } else {
                assert(lines == seq![line@]);
                assert(lines[0] == line@);
                assert(lines.drop_first() =~= Seq::<Seq<char>>::empty());
                assert(interpret_lines(lines, pre, now_ms) == rec@);
                assert(buffer@.skip(next as int) =~= Seq::<char>::empty());
            }
        }
        pos = next;
    }
    proof {
        assert(buffer@.skip(pos as int) =~= Seq::<char>::empty());
        assert(buffer@.skip(bl as int) =~= Seq::<char>::empty());
    }
}

/// Law: an empty line leaves the record exactly as it was.
pub proof fn lemma_empty_line_is_identity(m: RecordModel, now_ms: u64)
    ensures
        line_step(Seq::empty(), m, now_ms) == m,
{
    reveal_strlit("Balance:");
    reveal_strlit("Claimable:");
    reveal_strlit("valid hash");
    reveal_strlit("Transaction landed");
    reveal_strlit("Transaction did not land");
    assert(!starts_with(Seq::empty(), "Balance:"@));
    assert(!starts_with(Seq::empty(), "Claimable:"@));
    assert(!contains_seq(Seq::empty(), "valid hash"@));
    assert(!contains_seq(Seq::empty(), "Transaction landed"@));
    assert(!contains_seq(Seq::empty(), "Transaction did not land"@));
}

/// A line the interpreter reads as a claimable report.
pub open spec fn is_claimable_line(l: Seq<char>) -> bool {
    !starts_with(l, "Balance:"@) && starts_with(l, "Claimable:"@)
}

/// The sum of the signed claimable deltas a line sequence produces, starting
/// from the claimable quantity `prev`.
pub open spec fn delta_sum(ls: Seq<Seq<char>>, prev: u64) -> int
    decreases ls.len(),
{
    if ls.len() == 0 {
        0
    } else if is_claimable_line(ls[0]) {
        let v = amount_u64(second_token(ls[0]));
        (v - prev) + delta_sum(ls.drop_first(), v)
    } else {
        delta_sum(ls.drop_first(), prev)
    }
}

/// No step of the fold would push the cumulative gained total outside the
/// range of `i128`.
pub open spec fn gained_stays_in_range(ls: Seq<Seq<char>>, m: RecordModel, now_ms: u64) -> bool
    decreases ls.len(),
{
    if ls.len() == 0 {
        true
    } else {
        let within = is_claimable_line(ls[0]) ==> {
            let v = amount_u64(second_token(ls[0]));
            i128::MIN <= m.gained_nanos + v - m.claimable_nanos <= i128::MAX
        };
        within && gained_stays_in_range(ls.drop_first(), line_step(ls[0], m, now_ms), now_ms)
    }
}

/// Law: over any line sequence, the cumulative gained quantity moves by
/// exactly the sum of the signed claimable deltas, decreases included, as
/// long as no step leaves the representable range.
pub proof fn lemma_gained_accumulates_deltas(ls: Seq<Seq<char>>, m: RecordModel, now_ms: u64)
    requires
        gained_stays_in_range(ls, m, now_ms),
    ensures
        interpret_lines(ls, m, now_ms).gained_nanos == m.gained_nanos + delta_sum(
            ls,
            m.claimable_nanos,
        ),
    decreases ls.len(),
{
    if ls.len() > 0 {
        let m2 = line_step(ls[0], m, now_ms);
        lemma_gained_accumulates_deltas(ls.drop_first(), m2, now_ms);
    }
}

} // verus!
