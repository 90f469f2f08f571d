//! Character-level scanning helpers: prefix and substring tests, whitespace
//! tokenization and trimming, written against `Seq<char>` views.

use vstd::prelude::*;
use vstd::string::StrSliceExecFns;

verus! {

/// The sequence begins with the given prefix.
pub open spec fn starts_with(s: Seq<char>, p: Seq<char>) -> bool {
    p.len() <= s.len() && s.take(p.len() as int) == p
}

/// The pattern occurs as a contiguous run somewhere in the sequence.
pub open spec fn contains_seq(s: Seq<char>, p: Seq<char>) -> bool {
    exists|i: int| 0 <= i && i + p.len() <= s.len() && #[trigger] s.subrange(i, i + p.len()) == p
}

/// Whitespace as the line scanner understands it: the ASCII blank characters.
pub open spec fn is_space(c: char) -> bool {
    c == ' ' || c == '\t' || c == '\n' || c == '\r' || c == '\u{b}' || c == '\u{c}'
}

/// Runtime test matching `is_space`.
pub fn space_char(c: char) -> (r: bool)
    ensures
        r == is_space(c),
{
    c == ' ' || c == '\t' || c == '\n' || c == '\r' || c == '\u{b}' || c == '\u{c}'
}

/// Whether `s` begins with `p`, compared character by character.
pub fn str_starts_with(s: &str, p: &str) -> (r: bool)
    ensures
        r == starts_with(s@, p@),
{
    let sl = s.unicode_len();
    let pl = p.unicode_len();
    if pl > sl {
        return false;
    }
    let mut i: usize = 0;
    while i < pl
        invariant
            i <= pl,
            pl == p@.len(),
            sl == s@.len(),
            pl <= sl,
            forall|j: int| 0 <= j < i ==> s@[j] == p@[j],
        decreases pl - i,
    {
        if s.get_char(i) != p.get_char(i) {
            assert(s@.take(pl as int)[i as int] != p@[i as int]);
            return false;
        }
        i += 1;
    }
    assert(s@.take(pl as int) =~= p@);
    true
}

/// Whether the pattern `p` occurs anywhere in `s`.
pub fn str_contains(s: &str, p: &str) -> (r: bool)
    ensures
        r == contains_seq(s@, p@),
{
    let sl = s.unicode_len();
    let pl = p.unicode_len();
    if pl > sl {
        return false;
    }
    if pl == 0 {
        proof {
            assert(s@.subrange(0, 0 + p@.len() as int) =~= p@);
        }
        return true;
    }
    let mut i: usize = 0;
    while i <= sl - pl
        invariant
            1 <= pl <= sl,
            sl == s@.len(),
            pl == p@.len(),
            i <= sl - pl + 1,
            forall|k: int| 0 <= k < i ==> #[trigger] s@.subrange(k, k + pl as int) != p@,
        decreases sl - i,
    {
        if match_at(s, p, i) {
            return true;
        }
        i += 1;
    }
    false
}

/// Whether `p` matches the run of `s` beginning at index `i`.
fn match_at(s: &str, p: &str, i: usize) -> (r: bool)
    requires
        i + p@.len() <= s@.len(),
    ensures
        r == (s@.subrange(i as int, i + p@.len()) == p@),
{
    let sl = s.unicode_len();
    let pl = p.unicode_len();
    let mut j: usize = 0;
    while j < pl
        invariant
            j <= pl,
            pl == p@.len(),
            sl == s@.len(),
            i + pl <= sl,
            forall|k: int| 0 <= k < j ==> s@[i + k] == p@[k],
        decreases pl - j,
    {
        if s.get_char(i + j) != p.get_char(j) {
            assert(s@.subrange(i as int, i + pl as int)[j as int] != p@[j as int]);
            return false;
        }
        j += 1;
    }
    assert(s@.subrange(i as int, i + pl as int) =~= p@);
    true
}

/// The first index at or after `from` whose character's blankness equals
/// `space`; the length of the sequence if there is none.
pub open spec fn scan_to(s: Seq<char>, from: int, space: bool) -> int
    decreases s.len() - from,
{
    if from < 0 || from >= s.len() {
        s.len() as int
    } else if is_space(s[from]) == space {
        from
    } else {
        scan_to(s, from + 1, space)
    }
}

/// Runtime scan matching `scan_to`.
pub fn scan_index(s: &str, from: usize, space: bool) -> (r: usize)
    requires
        from <= s@.len(),
    ensures
        r == scan_to(s@, from as int, space),
        from <= r <= s@.len(),
{
    let sl = s.unicode_len();
    let mut i: usize = from;
    while i < sl
        invariant
            from <= i <= sl,
            sl == s@.len(),
            scan_to(s@, from as int, space) == scan_to(s@, i as int, space),
        decreases sl - i,
    {
        if space_char(s.get_char(i)) == space {
            return i;
        }
        i += 1;
    }
    i
}

/// The second whitespace-delimited token of the sequence; empty if there is
/// no second token.
pub open spec fn second_token(s: Seq<char>) -> Seq<char> {
    let t1s = scan_to(s, 0, false);
    let t1e = scan_to(s, t1s, true);
    let t2s = scan_to(s, t1e, false);
    let t2e = scan_to(s, t2s, true);
    s.subrange(t2s, t2e)
}

/// Extracts the second whitespace-delimited token of `s` as an owned string.
pub fn second_token_str(s: &str) -> (r: String)
    ensures
        r@ == second_token(s@),
{
    let t1s = scan_index(s, 0, false);
    let t1e = scan_index(s, t1s, true);
    let t2s = scan_index(s, t1e, false);
    let t2e = scan_index(s, t2s, true);
    let tok = s.substring_char(t2s, t2e);
    tok.to_owned()
}

/// The index one past the last non-blank character strictly before `upto`;
/// zero if all of them are blank.
pub open spec fn scan_back(s: Seq<char>, upto: int) -> int
    decreases upto,
{
    if upto <= 0 {
        0
    } else if upto > s.len() {
        s.len() as int
    } else if !is_space(s[upto - 1]) {
        upto
    } else {
        scan_back(s, upto - 1)
    }
}

/// The sequence with leading and trailing blanks removed.
pub open spec fn trimmed(s: Seq<char>) -> Seq<char> {
    let a = scan_to(s, 0, false);
    let b = scan_back(s, s.len() as int);
    if a >= b {
        Seq::empty()
    } else {
        s.subrange(a, b)
    }
}

proof fn lemma_scan_back_bounds(s: Seq<char>, upto: int)
    requires
        0 <= upto <= s.len(),
    ensures
        0 <= scan_back(s, upto) <= upto,
    decreases upto,
{
    if upto > 0 && is_space(s[upto - 1]) {
        lemma_scan_back_bounds(s, upto - 1);
    }
}

/// Removes leading and trailing blanks from `s`.
pub fn trim_str(s: &str) -> (r: String)
    ensures
        r@ == trimmed(s@),
{
    let sl = s.unicode_len();
    let a = scan_index(s, 0, false);
    let mut b: usize = sl;
    while b > 0 && space_char(s.get_char(b - 1))
        invariant
            b <= sl,
            sl == s@.len(),
            scan_back(s@, sl as int) == scan_back(s@, b as int),
        decreases b,
    {
        b -= 1;
    }
    proof {
        lemma_scan_back_bounds(s@, b as int);
    }
    if a >= b {
        let r = String::new();
        assert(r@ =~= trimmed(s@));
        r
    } else {
        let t = s.substring_char(a, b);
        t.to_owned()
    }
}

} // verus!
