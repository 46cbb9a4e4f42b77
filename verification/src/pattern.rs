//! Byte classes and the image-URL pattern.
//!
//! A candidate image URL starts with `http://` or `https://`, continues with
//! a run of word characters, `.`, `/`, `-` and whitespace, and ends with a
//! dot followed by one of the recognized extensions (`jpg`, `gif`, `png`,
//! `webp`, and their all-upper-case forms; no mixed case), at a word
//! boundary. Matching is greedy: of all ends that complete a match at a
//! start position, the largest is chosen. The run is deliberately tolerant
//! of whitespace, so a match can span adjacent text; that looseness is part
//! of the pattern, not tightened here.

use vstd::prelude::*;

verus! {

/// Word bytes: ASCII letters, digits and `_`.
pub open spec fn is_word_byte(b: u8) -> bool {
    ('a' as u8) <= b && b <= ('z' as u8)
    || ('A' as u8) <= b && b <= ('Z' as u8)
    || ('0' as u8) <= b && b <= ('9' as u8)
    || b == ('_' as u8)
}

/// Whitespace bytes: space, tab, line feed, vertical tab, form feed,
/// carriage return.
pub open spec fn is_space_byte(b: u8) -> bool {
    b == (' ' as u8) || b == ('\t' as u8) || b == ('\n' as u8) || b == 0x0b || b == 0x0c
        || b == ('\r' as u8)
}

/// Bytes allowed in the body of a candidate URL.
pub open spec fn is_run_byte(b: u8) -> bool {
    is_word_byte(b) || is_space_byte(b) || b == ('.' as u8) || b == ('/' as u8)
        || b == ('-' as u8)
}

pub fn word_byte(b: u8) -> (r: bool)
    ensures
        r == is_word_byte(b),
{
    ('a' as u8) <= b && b <= ('z' as u8)
    || ('A' as u8) <= b && b <= ('Z' as u8)
    || ('0' as u8) <= b && b <= ('9' as u8)
    || b == ('_' as u8)
}

pub fn run_byte(b: u8) -> (r: bool)
    ensures
        r == is_run_byte(b),
{
    word_byte(b) || b == (' ' as u8) || b == ('\t' as u8) || b == ('\n' as u8) || b == 0x0b
        || b == 0x0c || b == ('\r' as u8) || b == ('.' as u8) || b == ('/' as u8)
        || b == ('-' as u8)
}

/// `http://` begins at position `s`.
pub open spec fn http_at(t: Seq<u8>, s: int) -> bool {
    0 <= s && s + 7 <= t.len()
    && t[s] == ('h' as u8) && t[s + 1] == ('t' as u8) && t[s + 2] == ('t' as u8)
    && t[s + 3] == ('p' as u8) && t[s + 4] == (':' as u8) && t[s + 5] == ('/' as u8)
    && t[s + 6] == ('/' as u8)
}

/// `https://` begins at position `s`.
pub open spec fn https_at(t: Seq<u8>, s: int) -> bool {
    0 <= s && s + 8 <= t.len()
    && t[s] == ('h' as u8) && t[s + 1] == ('t' as u8) && t[s + 2] == ('t' as u8)
    && t[s + 3] == ('p' as u8) && t[s + 4] == ('s' as u8) && t[s + 5] == (':' as u8)
    && t[s + 6] == ('/' as u8) && t[s + 7] == ('/' as u8)
}

/// Length of the scheme beginning at `s`, or 0 when neither scheme is there.
pub open spec fn scheme_len_at(t: Seq<u8>, s: int) -> int {
    if https_at(t, s) { 8 } else if http_at(t, s) { 7 } else { 0 }
}

/// One of the three-byte extensions begins at `q`.
pub open spec fn ext3_at(t: Seq<u8>, q: int) -> bool {
    0 <= q && q + 3 <= t.len()
    && (
        (t[q] == ('j' as u8) && t[q + 1] == ('p' as u8) && t[q + 2] == ('g' as u8))
        || (t[q] == ('g' as u8) && t[q + 1] == ('i' as u8) && t[q + 2] == ('f' as u8))
        || (t[q] == ('p' as u8) && t[q + 1] == ('n' as u8) && t[q + 2] == ('g' as u8))
        || (t[q] == ('J' as u8) && t[q + 1] == ('P' as u8) && t[q + 2] == ('G' as u8))
        || (t[q] == ('G' as u8) && t[q + 1] == ('I' as u8) && t[q + 2] == ('F' as u8))
        || (t[q] == ('P' as u8) && t[q + 1] == ('N' as u8) && t[q + 2] == ('G' as u8))
    )
}

/// One of the four-byte extensions begins at `q`.
pub open spec fn ext4_at(t: Seq<u8>, q: int) -> bool {
    0 <= q && q + 4 <= t.len()
    && (
        (t[q] == ('w' as u8) && t[q + 1] == ('e' as u8) && t[q + 2] == ('b' as u8)
            && t[q + 3] == ('p' as u8))
        || (t[q] == ('W' as u8) && t[q + 1] == ('E' as u8) && t[q + 2] == ('B' as u8)
            && t[q + 3] == ('P' as u8))
    )
}

/// Position `e` is a word boundary: the end of the text, or a non-word byte.
pub open spec fn word_boundary_at(t: Seq<u8>, e: int) -> bool {
    e == t.len() || (0 <= e < t.len() && !is_word_byte(t[e]))
}

/// The dot at `d` begins a valid terminator: `.` followed by a recognized
/// extension whose end falls on a word boundary.
pub open spec fn terminator_at(t: Seq<u8>, d: int) -> bool {
    0 <= d < t.len() && t[d] == ('.' as u8)
    && (
        (ext3_at(t, d + 1) && word_boundary_at(t, d + 4))
        || (ext4_at(t, d + 1) && word_boundary_at(t, d + 5))
    )
}

/// End position of the match whose terminating dot is at `d`.
pub open spec fn terminator_end(t: Seq<u8>, d: int) -> int {
    if ext4_at(t, d + 1) && word_boundary_at(t, d + 5) { d + 5 } else { d + 4 }
}

/// A match starts at `s` and its terminating dot is at `d`: a scheme at `s`,
/// run bytes from the end of the scheme up to the dot, and a terminator.
pub open spec fn match_with_dot(t: Seq<u8>, s: int, d: int) -> bool {
    scheme_len_at(t, s) > 0
    && s + scheme_len_at(t, s) <= d
    && (forall|k: int| s + scheme_len_at(t, s) <= k < d ==> is_run_byte(t[k]))
    && terminator_at(t, d)
}

/// The pattern matches at start `s` with end `e`.
pub open spec fn is_match_at(t: Seq<u8>, s: int, e: int) -> bool {
    exists|d: int| match_with_dot(t, s, d) && e == terminator_end(t, d)
}

/// Some match begins at `s`.
pub open spec fn has_match_at(t: Seq<u8>, s: int) -> bool {
    exists|e: int| is_match_at(t, s, e)
}

/// The largest `d <= cap` with `match_with_dot(t, s, d)`, or -1 if none.
pub open spec fn best_dot_from(t: Seq<u8>, s: int, cap: int) -> int
    decreases cap - s + 1,
{
    if cap < s {
        -1
    } else if match_with_dot(t, s, cap) {
        cap
    } else {
        best_dot_from(t, s, cap - 1)
    }
}

/// The terminating dot of the greedy match at `s`, or -1 if none matches.
pub open spec fn chosen_dot(t: Seq<u8>, s: int) -> int {
    best_dot_from(t, s, t.len() as int)
}

/// The end of the greedy match at `s`, or -1 if none matches.
pub open spec fn chosen_end(t: Seq<u8>, s: int) -> int {
    if chosen_dot(t, s) >= 0 {
        terminator_end(t, chosen_dot(t, s))
    } else {
        -1
    }
}

proof fn lemma_best_dot_from(t: Seq<u8>, s: int, cap: int)
    ensures
        best_dot_from(t, s, cap) == -1 || best_dot_from(t, s, cap) >= s,
        best_dot_from(t, s, cap) == -1 ==> forall|d: int| d <= cap ==> !match_with_dot(t, s, d),
        best_dot_from(t, s, cap) >= 0 ==> {
            let b = best_dot_from(t, s, cap);
            s <= b <= cap && match_with_dot(t, s, b)
            && forall|d: int| b < d <= cap ==> !match_with_dot(t, s, d)
        },
    decreases cap - s + 1,
{
    if cap < s {
        assert forall|d: int| d <= cap implies !match_with_dot(t, s, d) by {
            if match_with_dot(t, s, d) {
                assert(s + scheme_len_at(t, s) <= d);
            }
        }
    } else if match_with_dot(t, s, cap) {
    } else {
        lemma_best_dot_from(t, s, cap - 1);
    }
}

/// The greedy end is a match end, and no match at `s` ends later.
pub proof fn lemma_chosen_end(t: Seq<u8>, s: int)
    ensures
        has_match_at(t, s) <==> chosen_end(t, s) >= 0,
        chosen_end(t, s) >= 0 ==> is_match_at(t, s, chosen_end(t, s))
            && s < chosen_end(t, s) <= t.len()
            && (forall|e: int| is_match_at(t, s, e) ==> e <= chosen_end(t, s)),
{
    lemma_best_dot_from(t, s, t.len() as int);
    let b = chosen_dot(t, s);
    if b >= 0 {
        let ce = terminator_end(t, b);
        assert(is_match_at(t, s, ce));
        assert(ce <= t.len()) by {
            if ext4_at(t, b + 1) && word_boundary_at(t, b + 5) {
            } else {
                assert(ext3_at(t, b + 1) && word_boundary_at(t, b + 4));
            }
        }
        assert forall|e: int| is_match_at(t, s, e) implies e <= ce by {
            let d = choose|d: int| match_with_dot(t, s, d) && e == terminator_end(t, d);
            assert(d <= b);
            if d == b {
            } else {
                assert(terminator_end(t, d) <= d + 5);
                assert(ce >= b + 4);
            }
        }
    } else {
        assert forall|e: int| !is_match_at(t, s, e) by {
            if is_match_at(t, s, e) {
                let d = choose|d: int| match_with_dot(t, s, d) && e == terminator_end(t, d);
                assert(d <= t.len());
                assert(!match_with_dot(t, s, d));
            }
        }
    }
}

/// Checks whether the dot at `d` begins a valid terminator; returns the end
/// of the match when it does.
fn terminator_check(t: &[u8], d: usize) -> (r: Option<usize>)
    requires
        d < t@.len(),
        t@[d as int] == ('.' as u8),
    ensures
        match r {
            Some(e) => terminator_at(t@, d as int) && e == terminator_end(t@, d as int),
            None => !terminator_at(t@, d as int),
        },
{
    let n = t.len();
    if n - d >= 5
        && ((t[d + 1] == ('w' as u8) && t[d + 2] == ('e' as u8) && t[d + 3] == ('b' as u8)
                && t[d + 4] == ('p' as u8))
            || (t[d + 1] == ('W' as u8) && t[d + 2] == ('E' as u8) && t[d + 3] == ('B' as u8)
                && t[d + 4] == ('P' as u8)))
        && (d + 5 == n || !word_byte(t[d + 5]))
    {
        Some(d + 5)
    } else if n - d >= 4
        && ((t[d + 1] == ('j' as u8) && t[d + 2] == ('p' as u8) && t[d + 3] == ('g' as u8))
            || (t[d + 1] == ('g' as u8) && t[d + 2] == ('i' as u8) && t[d + 3] == ('f' as u8))
            || (t[d + 1] == ('p' as u8) && t[d + 2] == ('n' as u8) && t[d + 3] == ('g' as u8))
            || (t[d + 1] == ('J' as u8) && t[d + 2] == ('P' as u8) && t[d + 3] == ('G' as u8))
            || (t[d + 1] == ('G' as u8) && t[d + 2] == ('I' as u8) && t[d + 3] == ('F' as u8))
            || (t[d + 1] == ('P' as u8) && t[d + 2] == ('N' as u8) && t[d + 3] == ('G' as u8)))
        && (d + 4 == n || !word_byte(t[d + 4]))
    {
        Some(d + 4)
    } else {
        None
    }
}

/// Finds the greedy match that starts exactly at `s`, if any, and returns
/// its end.
pub fn find_match_end(t: &[u8], s: usize) -> (r: Option<usize>)
    requires
        s <= t@.len(),
    ensures
        match r {
            Some(e) => e == chosen_end(t@, s as int) && s < e && e <= t@.len()
                && is_match_at(t@, s as int, e as int),
            None => !has_match_at(t@, s as int),
        },
{
    proof {
        lemma_chosen_end(t@, s as int);
    }
    let n = t.len();
    let p: usize;
    if n - s >= 8 && t[s] == ('h' as u8) && t[s + 1] == ('t' as u8) && t[s + 2] == ('t' as u8)
        && t[s + 3] == ('p' as u8) && t[s + 4] == ('s' as u8) && t[s + 5] == (':' as u8)
        && t[s + 6] == ('/' as u8) && t[s + 7] == ('/' as u8)
    {
        p = 8;
    } else if n - s >= 7 && t[s] == ('h' as u8) && t[s + 1] == ('t' as u8)
        && t[s + 2] == ('t' as u8) && t[s + 3] == ('p' as u8) && t[s + 4] == (':' as u8)
        && t[s + 5] == ('/' as u8) && t[s + 6] == ('/' as u8)
    {
        p = 7;
    } else {
        proof {
            assert(scheme_len_at(t@, s as int) == 0);
            if has_match_at(t@, s as int) {
                let e = choose|e: int| is_match_at(t@, s as int, e);
                let d = choose|d: int|
                    match_with_dot(t@, s as int, d) && e == terminator_end(t@, d);
                assert(scheme_len_at(t@, s as int) > 0);
            }
        }
        return None;
    }
    assert(p == scheme_len_at(t@, s as int));

    let mut k = s + p;
    while k < n && run_byte(t[k])
        invariant
            s + p <= k <= n,
            n == t@.len(),
            forall|q: int| s + p <= q < k ==> is_run_byte(t@[q]),
        decreases n - k,
    {
        k = k + 1;
    }

    let mut d = k;
    while d > s + p
        invariant
            n == t@.len(),
            p == scheme_len_at(t@, s as int),
            0 < p <= 8,
            s + p <= d <= k <= n,
            forall|q: int| s + p <= q < k ==> is_run_byte(t@[q]),
            k == n || !is_run_byte(t@[k as int]),
            forall|q: int| d <= q < k ==> !terminator_at(t@, q),
        decreases d,
    {
        d = d - 1;
        if t[d] == ('.' as u8) {
            match terminator_check(t, d) {
                Some(e) => {
                    proof {
                        assert(match_with_dot(t@, s as int, d as int));
                        lemma_best_dot_from(t@, s as int, t@.len() as int);
                        let b = chosen_dot(t@, s as int);
                        assert(b != -1);
                        assert(b >= d);
                        if b != d {
                            assert(match_with_dot(t@, s as int, b));
                            assert(terminator_at(t@, b));
                            assert(b < t@.len());
                            assert(b < k) by {
                                if b > k {
                                    // k lies inside b's run, but k ended the run scan
                                    assert(is_run_byte(t@[k as int]));
                                } else if b == k {
                                    // the dot at b is itself a run byte
                                    assert(is_run_byte(t@[b]));
                                }
                            }
                            assert(!terminator_at(t@, b));
                        }
                        assert(chosen_end(t@, s as int) == e);
                    }
                    return Some(e);
                },
                None => {},
            }
        }
    }
    proof {
        if has_match_at(t@, s as int) {
            let e = choose|e: int| is_match_at(t@, s as int, e);
            let dd = choose|dd: int|
                match_with_dot(t@, s as int, dd) && e == terminator_end(t@, dd);
            assert(s + p <= dd);
            assert(terminator_at(t@, dd));
            assert(dd < t@.len());
            assert(dd < k) by {
                if dd > k {
                    assert(is_run_byte(t@[k as int]));
                } else if dd == k {
                    assert(t@[dd] == ('.' as u8));
                    assert(is_run_byte(t@[dd]));
                }
            }
            assert(!terminator_at(t@, dd));
        }
    }
    None
}

} // verus!
