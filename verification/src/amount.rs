//! The amount parser: a lossy, never-failing conversion from loosely
//! formatted numeric text to a quantity.
//!
//! Quantities are held as fixed-point integers in nanounits (nine decimal
//! places, the precision the dashboard displays).  Every character that is
//! not a decimal digit or a dot is stripped; the remainder is read as a
//! decimal number when it has at least one digit and at most one dot, and
//! as zero otherwise.  Fractional digits beyond the ninth are dropped, and
//! a value too large for `u64` saturates.

use vstd::prelude::*;
use vstd::string::StrSliceExecFns;

verus! {

/// Nanounits per whole unit: the fixed-point scale of all quantities.
pub const NANOS_PER_UNIT: u64 = 1_000_000_000;

/// A decimal digit.
pub open spec fn is_digit(c: char) -> bool {
    48 <= c as int <= 57
}

/// The value of a decimal digit.
pub open spec fn digit_val(c: char) -> int {
    c as int - 48
}

/// A character the parser keeps: a decimal digit or a dot.
pub open spec fn is_amount_char(c: char) -> bool {
    is_digit(c) || c == '.'
}

/// The subsequence of `s` made of its digits and dots, in order.
pub open spec fn kept_chars(s: Seq<char>) -> Seq<char>
    decreases s.len(),
{
    if s.len() == 0 {
        Seq::empty()
    } else if is_amount_char(s.last()) {
        kept_chars(s.drop_last()).push(s.last())
    } else {
        kept_chars(s.drop_last())
    }
}

/// How many dots a sequence holds.
pub open spec fn dot_count(t: Seq<char>) -> int
    decreases t.len(),
{
    if t.len() == 0 {
        0
    } else {
        dot_count(t.drop_last()) + if t.last() == '.' {
            1int
        } else {
            0int
        }
    }
}

/// The sequence holds at least one decimal digit.
pub open spec fn has_digit(t: Seq<char>) -> bool {
    exists|i: int| 0 <= i < t.len() && is_digit(#[trigger] t[i])
}

/// The kept characters form a readable decimal number: at least one digit,
/// at most one dot.
pub open spec fn amount_readable(t: Seq<char>) -> bool {
    dot_count(t) <= 1 && has_digit(t)
}

/// The index of the first dot, or the length if there is none.
pub open spec fn first_dot(t: Seq<char>, from: int) -> int
    decreases t.len() - from,
{
    if from < 0 || from >= t.len() {
        t.len() as int
    } else if t[from] == '.' {
        from
    } else {
        first_dot(t, from + 1)
    }
}

/// The number written by a sequence of decimal digits, most significant
/// first; an empty sequence writes zero.
pub open spec fn digits_value(t: Seq<char>) -> int
    decreases t.len(),
{
    if t.len() == 0 {
        0
    } else {
        digits_value(t.drop_last()) * 10 + digit_val(t.last())
    }
}

/// Ten to the `n`th power.
pub open spec fn pow10(n: int) -> int
    decreases n,
{
    if n <= 0 {
        1
    } else {
        10 * pow10(n - 1)
    }
}

/// The nanounits written by the fractional digits `t`: the first nine
/// digits, padded with zeros on the right up to nine places.
pub open spec fn frac_nanos(t: Seq<char>) -> int {
    if t.len() >= 9 {
        digits_value(t.take(9))
    } else {
        digits_value(t) * pow10(9 - t.len())
    }
}

/// The quantity, in nanounits, that the string `s` denotes: zero unless its
/// digits and dots form a readable decimal number.
pub open spec fn amount_nanos(s: Seq<char>) -> int {
    let t = kept_chars(s);
    if amount_readable(t) {
        let d = first_dot(t, 0);
        digits_value(t.take(d)) * (NANOS_PER_UNIT as int) + frac_nanos(
            t.skip(if d < t.len() {
                d + 1
            } else {
                d
            }),
        )
    } else {
        0
    }
}

/// `amount_nanos` clamped into `u64`, the value the runtime parser returns.
pub open spec fn amount_u64(s: Seq<char>) -> u64 {
    if amount_nanos(s) > u64::MAX {
        u64::MAX
    } else {
        amount_nanos(s) as u64
    }
}

/// Runtime test matching `is_amount_char`.
fn amount_char(c: char) -> (r: bool)
    ensures
        r == is_amount_char(c),
{
    let u = c as u32;
    (48 <= u && u <= 57) || c == '.'
}

/// Runtime test matching `is_digit`.
fn digit_char(c: char) -> (r: bool)
    ensures
        r == is_digit(c),
{
    let u = c as u32;
    48 <= u && u <= 57
}

proof fn lemma_kept_chars_amount(s: Seq<char>)
    ensures
        forall|i: int| 0 <= i < kept_chars(s).len() ==> is_amount_char(#[trigger] kept_chars(s)[i]),
    decreases s.len(),
{
    if s.len() > 0 {
        lemma_kept_chars_amount(s.drop_last());
        let t0 = kept_chars(s.drop_last());
        if is_amount_char(s.last()) {
            assert forall|i: int| 0 <= i < kept_chars(s).len() implies is_amount_char(
                #[trigger] kept_chars(s)[i],
            ) by {
                if i < t0.len() {
                    assert(kept_chars(s)[i] == t0[i]);
                } else {
                    assert(kept_chars(s)[i] == s.last());
                }
            }
        }
    }
}

proof fn lemma_pow10_pos(n: int)
    ensures
        pow10(n) >= 1,
    decreases n,
{
    if n > 0 {
        lemma_pow10_pos(n - 1);
    }
}

proof fn lemma_pow10_mono(a: int, b: int)
    requires
        a <= b,
    ensures
        pow10(a) <= pow10(b),
    decreases b - a,
{
    if a < b {
        lemma_pow10_mono(a, b - 1);
        lemma_pow10_pos(b - 1);
    }
}

proof fn lemma_digits_value_bound(t: Seq<char>)
    requires
        forall|i: int| 0 <= i < t.len() ==> is_digit(#[trigger] t[i]),
    ensures
        0 <= digits_value(t) < pow10(t.len() as int),
    decreases t.len(),
{
    if t.len() > 0 {
        assert(forall|i: int| 0 <= i < t.drop_last().len() ==> is_digit(#[trigger] t.drop_last()[i]));
        lemma_digits_value_bound(t.drop_last());
    }
}

proof fn lemma_dot_count_nonneg(t: Seq<char>)
    ensures
        dot_count(t) >= 0,
    decreases t.len(),
{
    if t.len() > 0 {
        lemma_dot_count_nonneg(t.drop_last());
    }
}

proof fn lemma_dot_count_one(t: Seq<char>, i: int)
    requires
        0 <= i < t.len(),
        t[i] == '.',
    ensures
        dot_count(t) >= 1,
    decreases t.len(),
{
    lemma_dot_count_nonneg(t.drop_last());
    if i < t.len() - 1 {
        assert(t.drop_last()[i] == '.');
        lemma_dot_count_one(t.drop_last(), i);
    }
}

proof fn lemma_dot_count_two(t: Seq<char>, i: int, j: int)
    requires
        0 <= i < j < t.len(),
        t[i] == '.',
        t[j] == '.',
    ensures
        dot_count(t) >= 2,
    decreases t.len(),
{
    if j == t.len() - 1 {
        assert(t.drop_last()[i] == '.');
        lemma_dot_count_one(t.drop_last(), i);
    } else {
        assert(t.drop_last()[i] == '.');
        assert(t.drop_last()[j] == '.');
        lemma_dot_count_two(t.drop_last(), i, j);
        lemma_dot_count_nonneg(t);
    }
}

proof fn lemma_first_dot_shape(t: Seq<char>, from: int)
    requires
        0 <= from <= t.len(),
    ensures
        from <= first_dot(t, from) <= t.len(),
        forall|k: int| from <= k < first_dot(t, from) ==> t[k] != '.',
        first_dot(t, from) < t.len() ==> t[first_dot(t, from)] == '.',
    decreases t.len() - from,
{
    if from < t.len() && t[from] != '.' {
        lemma_first_dot_shape(t, from + 1);
    }
}

proof fn lemma_kept_chars_no_digit(s: Seq<char>)
    requires
        forall|i: int| 0 <= i < s.len() ==> !is_digit(#[trigger] s[i]),
    ensures
        forall|i: int| 0 <= i < kept_chars(s).len() ==> !is_digit(#[trigger] kept_chars(s)[i]),
    decreases s.len(),
{
    if s.len() > 0 {
        assert(forall|i: int| 0 <= i < s.drop_last().len() ==> !is_digit(#[trigger] s.drop_last()[i]));
        lemma_kept_chars_no_digit(s.drop_last());
        let t0 = kept_chars(s.drop_last());
        if is_amount_char(s.last()) {
            assert forall|i: int| 0 <= i < kept_chars(s).len() implies !is_digit(
                #[trigger] kept_chars(s)[i],
            ) by {
                if i < t0.len() {
                    assert(kept_chars(s)[i] == t0[i]);
                } else {
                    assert(kept_chars(s)[i] == s.last());
                }
            }
        }
    }
}

/// Law: the amount parser is total, and a string without a single decimal
/// digit always denotes zero.
pub proof fn lemma_no_digit_parses_to_zero(s: Seq<char>)
    requires
        forall|i: int| 0 <= i < s.len() ==> !is_digit(#[trigger] s[i]),
    ensures
        amount_nanos(s) == 0,
{
    lemma_kept_chars_no_digit(s);
    assert(!has_digit(kept_chars(s)));
}

/// `acc * 10 + d`, clamped at `u64::MAX`.
fn mul10_add_sat(acc: u64, d: u64) -> (r: u64)
    requires
        d <= 9,
    ensures
        r as int == if acc * 10 + d > u64::MAX {
            u64::MAX as int
        } else {
            acc * 10 + d
        },
{
    match acc.checked_mul(10) {
        Some(m) => m.saturating_add(d),
        None => u64::MAX,
    }
}

/// Reads a quantity from loosely formatted text: everything but digits and
/// dots is ignored, an unreadable remainder gives zero, and the result is
/// the quantity in nanounits, saturating at `u64::MAX`.
pub fn parse_amount(s: &str) -> (r: u64)
    ensures
        r == amount_u64(s@),
{
    let sl = s.unicode_len();
    let mut kept: Vec<char> = Vec::new();
    let mut i: usize = 0;
    while i < sl
        invariant
            i <= sl,
            sl == s@.len(),
            kept@ == kept_chars(s@.take(i as int)),
        decreases sl - i,
    {
        let c = s.get_char(i);
        proof {
            assert(s@.take(i + 1).drop_last() =~= s@.take(i as int));
            assert(s@.take(i + 1).last() == s@[i as int]);
        }
        if amount_char(c) {
            kept.push(c);
        }
        i += 1;
    }
    proof {
        assert(s@.take(sl as int) =~= s@);
    }
    let ghost t = kept_chars(s@);
    proof {
        lemma_kept_chars_amount(s@);
    }

    // Readability: at most one dot, at least one digit.
    let n = kept.len();
    let mut dots: usize = 0;
    let mut saw_digit: bool = false;
    let mut j: usize = 0;
    while j < n
        invariant
            j <= n,
            n == t.len(),
            kept@ == t,
            dots <= j,
            dots == dot_count(t.take(j as int)),
            saw_digit == has_digit(t.take(j as int)),
        decreases n - j,
    {
        let c = kept[j];
        proof {
            assert(t.take(j + 1).drop_last() =~= t.take(j as int));
            assert(t.take(j + 1).last() == t[j as int]);
        }
        let ghost old_dig = saw_digit;
        if c == '.' {
            dots += 1;
        }
        if digit_char(c) {
            saw_digit = true;
        }
        proof {
            if old_dig {
                let k = choose|k: int| 0 <= k < t.take(j as int).len() && is_digit(
                    #[trigger] t.take(j as int)[k],
                );
                assert(is_digit(t.take(j + 1)[k]));
            }
            if is_digit(t[j as int]) {
                assert(is_digit(t.take(j + 1)[j as int]));
            }
            if !old_dig && !is_digit(t[j as int]) {
                assert forall|k: int| 0 <= k < t.take(j + 1).len() implies !is_digit(
                    #[trigger] t.take(j + 1)[k],
                ) by {
                    if k < j {
                        assert(t.take(j as int)[k] == t.take(j + 1)[k]);
                        assert(!has_digit(t.take(j as int)));
                    }
                }
            }
        }
        j += 1;
    }
    proof {
        assert(t.take(n as int) =~= t);
    }
    if dots > 1 || !saw_digit {
        return 0;
    }

    // The integer part: digits before the first dot.
    let mut d: usize = 0;
    while d < n && kept[d] != '.'
        invariant
            d <= n,
            n == t.len(),
            kept@ == t,
            first_dot(t, 0) == first_dot(t, d as int),
        decreases n - d,
    {
        d += 1;
    }
    proof {
        lemma_first_dot_shape(t, 0);
    }
    let mut acc: u64 = 0;
    let mut k: usize = 0;
    while k < d
        invariant
            k <= d <= n,
            n == t.len(),
            kept@ == t,
            d == first_dot(t, 0),
            forall|m: int| 0 <= m < t.len() ==> is_amount_char(#[trigger] t[m]),
            forall|m: int| 0 <= m < d ==> t[m] != '.',
            acc as int == if digits_value(t.take(k as int)) > u64::MAX {
                u64::MAX as int
            } else {
                digits_value(t.take(k as int))
            },
        decreases d - k,
    {
        let c = kept[k];
        let dv = ((c as u32) - 48) as u64;
        proof {
            assert(is_amount_char(t[k as int]) && t[k as int] != '.');
            assert(t.take(k + 1).drop_last() =~= t.take(k as int));
            assert(t.take(k + 1).last() == t[k as int]);
            assert(forall|m: int|
                0 <= m < t.take(k as int).len() ==> is_digit(#[trigger] t.take(k as int)[m]));
            lemma_digits_value_bound(t.take(k as int));
        }
        acc = mul10_add_sat(acc, dv);
        k += 1;
    }

    // The fractional part: up to nine digits after the dot, padded to nine.
    let fs: usize = if d < n {
        d + 1
    } else {
        d
    };
    let ghost u = t.skip(fs as int);
    let mut frac: u64 = 0;
    let mut cnt: usize = 0;
    while fs + cnt < n && cnt < 9
        invariant
            fs <= n,
            n == t.len(),
            kept@ == t,
            cnt <= 9,
            fs + cnt <= n,
            u == t.skip(fs as int),
            d == first_dot(t, 0),
            fs == if d < n {
                d + 1int
            } else {
                d as int
            },
            dot_count(t) <= 1,
            forall|m: int| 0 <= m < t.len() ==> is_amount_char(#[trigger] t[m]),
            forall|m: int| 0 <= m < cnt ==> is_digit(#[trigger] u[m]),
            frac as int == digits_value(u.take(cnt as int)),
            frac < pow10(cnt as int),
        decreases n - fs - cnt,
    {
        let c = kept[fs + cnt];
        proof {
            lemma_first_dot_shape(t, 0);
            if t[fs + cnt] == '.' {
                assert(d < n);
                lemma_dot_count_two(t, d as int, fs + cnt);
            }
            assert(u[cnt as int] == t[fs + cnt]);
            assert(u.take(cnt + 1).drop_last() =~= u.take(cnt as int));
            assert(u.take(cnt + 1).last() == t[fs + cnt]);
            assert(forall|m: int|
                0 <= m < u.take(cnt as int).len() ==> is_digit(#[trigger] u.take(cnt as int)[m]));
            lemma_digits_value_bound(u.take(cnt as int));
            reveal_with_fuel(pow10, 11);
            lemma_pow10_mono(cnt as int, 8);
        }
        let dv = ((c as u32) - 48) as u64;
        frac = frac * 10 + dv;
        cnt += 1;
    }
    let ghost consumed = cnt as int;
    proof {
        assert(pow10(0) == 1);
        assert(frac as int == digits_value(u.take(consumed)) * pow10(0));
    }
    let mut pad: usize = cnt;
    while pad < 9
        invariant
            cnt <= pad <= 9,
            consumed == cnt,
            frac as int == digits_value(u.take(consumed)) * pow10(pad - consumed),
            frac < pow10(pad as int),
        decreases 9 - pad,
    {
        proof {
            reveal_with_fuel(pow10, 11);
            lemma_pow10_mono(pad as int, 8);
            let dv = digits_value(u.take(consumed));
            assert(dv * pow10(pad - consumed) * 10 == dv * pow10(pad + 1 - consumed))
                by (nonlinear_arith)
                requires
                    pow10(pad + 1 - consumed) == 10 * pow10(pad - consumed),
            ;
        }
        frac = frac * 10;
        pad += 1;
    }

    // Combine whole and fractional parts.
    proof {
        if fs + cnt < n {
            assert(cnt == 9);
            assert(u.take(9) =~= u.take(consumed));
            assert(u.len() >= 9);
        } else {
            assert(u.take(consumed) =~= u);
            assert(u.len() == consumed);
        }
        assert(frac as int == frac_nanos(u));
        assert(t.take(d as int) =~= t.take(first_dot(t, 0)));
    }
    let whole = match acc.checked_mul(NANOS_PER_UNIT) {
        Some(m) => m,
        None => u64::MAX,
    };
    let total = whole.saturating_add(frac);
    proof {
        let iv = digits_value(t.take(d as int));
        let fv = frac_nanos(u);
        let nanos = iv * (NANOS_PER_UNIT as int) + fv;
        assert(forall|m: int|
            0 <= m < t.take(d as int).len() ==> is_digit(#[trigger] t.take(d as int)[m]));
        lemma_digits_value_bound(t.take(d as int));
        if iv > u64::MAX {
            assert(iv * (NANOS_PER_UNIT as int) >= iv * 1) by (nonlinear_arith)
                requires
                    iv > 0,
            ;
            assert(nanos > u64::MAX);
        } else {
            assert(acc == iv);
            if acc * (NANOS_PER_UNIT as int) > u64::MAX {
                assert(nanos > u64::MAX);
            }
        }
        assert(amount_readable(t));
        assert(total == amount_u64(s@));
    }
    total
}

} // verus!
