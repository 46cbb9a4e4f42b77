//! The extractor: scans page text for image URLs and de-duplicates them
//! while keeping first-seen order.
//!
//! The scan is the usual non-overlapping, leftmost one: from the current
//! position, the next match is the earliest start that matches, taken with
//! its greedy end; scanning resumes at that end. `all_matches` is the full
//! list of matches in scan order, duplicates included; `dedup_first` keeps
//! the first occurrence of each value.

use vstd::prelude::*;
use crate::pattern::{
    chosen_end, has_match_at, is_match_at, terminator_at, terminator_end, match_with_dot,
    word_boundary_at, ext3_at, ext4_at, http_at, https_at, scheme_len_at, is_run_byte,
    lemma_chosen_end, find_match_end,
};

verus! {

/// The matches of the pattern in `t` from position `pos` on, in scan order,
/// duplicates included.
pub open spec fn match_list_from(t: Seq<u8>, pos: int) -> Seq<Seq<u8>>
    decreases t.len() - pos,
{
    if pos < 0 || pos >= t.len() {
        Seq::empty()
    } else {
        let e = chosen_end(t, pos);
        if 0 <= e && pos < e && e <= t.len() {
            seq![t.subrange(pos, e)] + match_list_from(t, e)
        } else {
            match_list_from(t, pos + 1)
        }
    }
}

/// All matches of the pattern in `t`, in scan order, duplicates included.
pub open spec fn all_matches(t: Seq<u8>) -> Seq<Seq<u8>> {
    match_list_from(t, 0)
}

/// Keeps the first occurrence of each value, in order.
pub open spec fn dedup_first(s: Seq<Seq<u8>>) -> Seq<Seq<u8>>
    decreases s.len(),
{
    if s.len() == 0 {
        Seq::empty()
    } else {
        let front = dedup_first(s.drop_last());
        if front.contains(s.last()) {
            front
        } else {
            front.push(s.last())
        }
    }
}

/// Index of the first occurrence of `x` in `s`; `s.len()` when `x` is absent.
pub open spec fn first_occurrence(s: Seq<Seq<u8>>, x: Seq<u8>) -> int
    decreases s.len(),
{
    if s.len() == 0 {
        0
    } else if s[0] == x {
        0
    } else {
        1 + first_occurrence(s.drop_first(), x)
    }
}

/// The views of a vector of byte vectors.
pub open spec fn byte_views(us: Seq<Vec<u8>>) -> Seq<Seq<u8>> {
    us.map_values(|u: Vec<u8>| u@)
}

pub proof fn lemma_first_occurrence_bounds(s: Seq<Seq<u8>>, x: Seq<u8>)
    ensures
        0 <= first_occurrence(s, x) <= s.len(),
        s.contains(x) <==> first_occurrence(s, x) < s.len(),
        first_occurrence(s, x) < s.len() ==> s[first_occurrence(s, x)] == x,
        forall|i: int| 0 <= i < first_occurrence(s, x) ==> s[i] != x,
    decreases s.len(),
{
    if s.len() == 0 {
    } else if s[0] == x {
    } else {
        lemma_first_occurrence_bounds(s.drop_first(), x);
        let f = first_occurrence(s, x);
        assert(s.contains(x) ==> s.drop_first().contains(x)) by {
            if s.contains(x) {
                let i = choose|i: int| 0 <= i < s.len() && s[i] == x;
                assert(i != 0);
                assert(s.drop_first()[i - 1] == x);
            }
        }
        assert(s.drop_first().contains(x) ==> s.contains(x)) by {
            if s.drop_first().contains(x) {
                let i = choose|i: int| 0 <= i < s.drop_first().len() && s.drop_first()[i] == x;
                assert(s[i + 1] == x);
            }
        }
        assert forall|i: int| 0 <= i < f implies s[i] != x by {
            if i > 0 {
                assert(s.drop_first()[i - 1] != x);
            }
        }
    }
}

proof fn lemma_first_occurrence_push(s: Seq<Seq<u8>>, x: Seq<u8>, y: Seq<u8>)
    ensures
        s.contains(y) ==> first_occurrence(s.push(x), y) == first_occurrence(s, y),
        !s.contains(y) && y == x ==> first_occurrence(s.push(x), y) == s.len(),
    decreases s.len(),
{
    if s.len() == 0 {
        assert(s.push(x)[0] == x);
        if y == x {
            assert(first_occurrence(s.push(x), y) == 0);
        }
    } else {
        assert(s.push(x)[0] == s[0]);
        if s[0] == y {
        } else {
            assert(s.push(x).drop_first() =~= s.drop_first().push(x));
            lemma_first_occurrence_push(s.drop_first(), x, y);
            assert(s.contains(y) ==> s.drop_first().contains(y)) by {
                if s.contains(y) {
                    let i = choose|i: int| 0 <= i < s.len() && s[i] == y;
                    assert(i != 0);
                    assert(s.drop_first()[i - 1] == y);
                }
            }
            assert(s.drop_first().contains(y) ==> s.contains(y)) by {
                if s.drop_first().contains(y) {
                    let i = choose|i: int|
                        0 <= i < s.drop_first().len() && s.drop_first()[i] == y;
                    assert(s[i + 1] == y);
                }
            }
        }
    }
}

/// De-duplication keeps exactly the distinct values, without duplicates,
/// ordered by their first occurrence.
pub proof fn lemma_dedup_first_props(s: Seq<Seq<u8>>)
    ensures
        forall|i: int, j: int| 0 <= i < j < dedup_first(s).len()
            ==> dedup_first(s)[i] != dedup_first(s)[j],
        forall|x: Seq<u8>| dedup_first(s).contains(x) <==> s.contains(x),
        forall|i: int, j: int| 0 <= i < j < dedup_first(s).len()
            ==> first_occurrence(s, dedup_first(s)[i]) < first_occurrence(s, dedup_first(s)[j]),
    decreases s.len(),
{
    if s.len() == 0 {
        assert forall|x: Seq<u8>| !s.contains(x) by {
            if s.contains(x) {
                let i = choose|i: int| 0 <= i < s.len() && s[i] == x;
            }
        }
    } else {
        let s0 = s.drop_last();
        let x = s.last();
        let d0 = dedup_first(s0);
        let d = dedup_first(s);
        lemma_dedup_first_props(s0);
        assert(s =~= s0.push(x));
        assert forall|y: Seq<u8>| s.contains(y) <==> (s0.contains(y) || y == x) by {
            if s.contains(y) {
                let i = choose|i: int| 0 <= i < s.len() && s[i] == y;
                if i < s0.len() {
                    assert(s0[i] == y);
                } else {
                    assert(y == x);
                }
            }
            if s0.contains(y) {
                let i = choose|i: int| 0 <= i < s0.len() && s0[i] == y;
                assert(s[i] == y);
            }
            if y == x {
                assert(s[s.len() - 1] == x);
            }
        }
        if d0.contains(x) {
            assert(d =~= d0);
            // every listed value sits in s0, so its first occurrence is unmoved
            assert forall|i: int| 0 <= i < d.len()
                implies first_occurrence(s, d[i]) == first_occurrence(s0, d[i]) by {
                assert(d0.contains(d[i]));
                assert(s0.contains(d[i]));
                lemma_first_occurrence_push(s0, x, d[i]);
            }
        } else {
            assert(d =~= d0.push(x));
            assert(!s0.contains(x));
            assert forall|i: int, j: int| 0 <= i < j < d.len() implies d[i] != d[j] by {
                if j < d0.len() {
                } else {
                    assert(d[j] == x);
                    assert(d0.contains(d0[i]));
                    assert(d[i] == d0[i]);
                }
            }
            assert forall|y: Seq<u8>| d.contains(y) <==> s.contains(y) by {
                if d.contains(y) {
                    let i = choose|i: int| 0 <= i < d.len() && d[i] == y;
                    if i < d0.len() {
                        assert(d0[i] == y);
                        assert(d0.contains(y));
                    } else {
                        assert(y == x);
                    }
                }
                if s.contains(y) {
                    if s0.contains(y) {
                        assert(d0.contains(y));
                        let i = choose|i: int| 0 <= i < d0.len() && d0[i] == y;
                        assert(d[i] == y);
                    } else {
                        assert(y == x);
                        assert(d[d.len() - 1] == x);
                    }
                }
            }
            assert forall|i: int, j: int| 0 <= i < j < d.len()
                implies first_occurrence(s, d[i]) < first_occurrence(s, d[j]) by {
                if j < d0.len() {
                    assert(d0.contains(d0[i]) && d0.contains(d0[j]));
                    assert(s0.contains(d0[i]) && s0.contains(d0[j]));
                    lemma_first_occurrence_push(s0, x, d0[i]);
                    lemma_first_occurrence_push(s0, x, d0[j]);
                } else {
                    assert(d[j] == x);
                    assert(d0.contains(d0[i]));
                    assert(s0.contains(d0[i]));
                    assert(d[i] == d0[i]);
                    lemma_first_occurrence_push(s0, x, d0[i]);
                    lemma_first_occurrence_push(s0, x, x);
                    lemma_first_occurrence_bounds(s0, d0[i]);
                }
            }
        }
    }
}

/// The extractor's output holds no duplicate URL, and its order is the order
/// of first occurrence in the text.
pub proof fn lemma_extraction_unique_first_seen(t: Seq<u8>)
    ensures
        forall|i: int, j: int| 0 <= i < j < dedup_first(all_matches(t)).len()
            ==> dedup_first(all_matches(t))[i] != dedup_first(all_matches(t))[j],
        forall|x: Seq<u8>| dedup_first(all_matches(t)).contains(x) <==> all_matches(t).contains(x),
        forall|i: int, j: int| 0 <= i < j < dedup_first(all_matches(t)).len()
            ==> first_occurrence(all_matches(t), dedup_first(all_matches(t))[i])
                < first_occurrence(all_matches(t), dedup_first(all_matches(t))[j]),
{
    lemma_dedup_first_props(all_matches(t));
}

proof fn lemma_no_match_anywhere(t: Seq<u8>, pos: int)
    requires
        forall|s: int| !has_match_at(t, s),
    ensures
        match_list_from(t, pos) =~= Seq::<Seq<u8>>::empty(),
    decreases t.len() - pos,
{
    if pos < 0 || pos >= t.len() {
    } else {
        lemma_chosen_end(t, pos);
        assert(chosen_end(t, pos) == -1);
        lemma_no_match_anywhere(t, pos + 1);
    }
}

/// A text in which no dot is followed by a recognized extension — for one,
/// a mixed-case extension such as `.Jpg` — yields no matches at all.
pub proof fn lemma_unrecognized_extension_rejected(t: Seq<u8>)
    requires
        forall|d: int| 0 <= d < t.len() && t[d] == ('.' as u8)
            ==> !ext3_at(t, d + 1) && !ext4_at(t, d + 1),
    ensures
        all_matches(t) =~= Seq::<Seq<u8>>::empty(),
        dedup_first(all_matches(t)) =~= Seq::<Seq<u8>>::empty(),
{
    assert forall|s: int| !has_match_at(t, s) by {
        if has_match_at(t, s) {
            let e = choose|e: int| is_match_at(t, s, e);
            let d = choose|d: int|
                match_with_dot(t, s, d) && e == terminator_end(t, d);
            assert(terminator_at(t, d));
            assert(t[d] == ('.' as u8));
        }
    }
    lemma_no_match_anywhere(t, 0);
}

/// A text that is exactly one well-formed image URL — a scheme, a body of
/// run bytes, and a dot-extension that ends the text — is extracted whole,
/// as the single match.
pub proof fn lemma_whole_url_extracted(t: Seq<u8>, p: int, d: int)
    requires
        scheme_len_at(t, 0) == p,
        p > 0,
        p <= d < t.len(),
        t[d] == ('.' as u8),
        forall|k: int| p <= k < d ==> is_run_byte(t[k]),
        (d + 4 == t.len() && ext3_at(t, d + 1)) || (d + 5 == t.len() && ext4_at(t, d + 1)),
    ensures
        all_matches(t) =~= seq![t],
        dedup_first(all_matches(t)) =~= seq![t],
{
    assert(terminator_at(t, d));
    assert(match_with_dot(t, 0, d));
    let e = terminator_end(t, d);
    assert(e == t.len()) by {
        if ext4_at(t, d + 1) && word_boundary_at(t, d + 5) {
            assert(d + 5 == t.len()) by {
                if d + 4 == t.len() {
                    assert(ext4_at(t, d + 1) ==> d + 1 + 4 <= t.len());
                }
            }
        } else {
            assert(ext3_at(t, d + 1) && word_boundary_at(t, d + 4));
        }
    }
    assert(is_match_at(t, 0, e));
    lemma_chosen_end(t, 0);
    let ce = chosen_end(t, 0);
    assert(ce >= e && ce <= t.len());
    assert(ce == t.len());
    assert(t.subrange(0, ce) =~= t);
    assert(match_list_from(t, t.len() as int) =~= Seq::<Seq<u8>>::empty());
    assert(all_matches(t) =~= seq![t]);
    assert(dedup_first(seq![t]) =~= seq![t]) by {
        let one = seq![t];
        assert(one.drop_last() =~= Seq::<Seq<u8>>::empty());
        assert(dedup_first(one.drop_last()) =~= Seq::<Seq<u8>>::empty());
        assert(!Seq::<Seq<u8>>::empty().contains(t));
        assert(one.last() == t);
    }
}

/// A well-formed image URL: it starts with a scheme and ends with a dot
/// followed by a recognized extension.
pub open spec fn well_formed_url(m: Seq<u8>) -> bool {
    (http_at(m, 0) || https_at(m, 0))
    && (
        (m.len() >= 4 && m[m.len() - 4] == ('.' as u8) && ext3_at(m, m.len() - 3))
        || (m.len() >= 5 && m[m.len() - 5] == ('.' as u8) && ext4_at(m, m.len() - 4))
    )
}

proof fn lemma_match_well_formed(t: Seq<u8>, s: int, e: int)
    requires
        is_match_at(t, s, e),
    ensures
        well_formed_url(t.subrange(s, e)),
{
    let d = choose|d: int| match_with_dot(t, s, d) && e == terminator_end(t, d);
    let p = scheme_len_at(t, s);
    assert(terminator_at(t, d));
    if ext4_at(t, d + 1) && word_boundary_at(t, d + 5) {
        assert(e == d + 5);
        assert(e <= t.len());
    } else {
        assert(ext3_at(t, d + 1) && word_boundary_at(t, d + 4));
        assert(e == d + 4);
        assert(e <= t.len());
    }
    let m = t.subrange(s, e);
    assert(m.len() == e - s);
    assert(e >= s + p + 4);
    assert(forall|i: int| 0 <= i < m.len() ==> m[i] == t[s + i]);
    if https_at(t, s) {
        assert(https_at(m, 0));
    } else {
        assert(http_at(t, s));
        assert(http_at(m, 0));
    }
    if e == d + 5 {
        assert(m[m.len() - 5] == t[d]);
        assert(ext4_at(m, m.len() - 4));
    } else {
        assert(m[m.len() - 4] == t[d]);
        assert(ext3_at(m, m.len() - 3));
    }
}

proof fn lemma_match_list_from_well_formed(t: Seq<u8>, pos: int)
    ensures
        forall|i: int| 0 <= i < match_list_from(t, pos).len()
            ==> well_formed_url(match_list_from(t, pos)[i]),
    decreases t.len() - pos,
{
    if pos < 0 || pos >= t.len() {
        assert(match_list_from(t, pos) =~= Seq::<Seq<u8>>::empty());
    } else {
        let e = chosen_end(t, pos);
        if 0 <= e && pos < e && e <= t.len() {
            lemma_chosen_end(t, pos);
            assert(is_match_at(t, pos, e));
            lemma_match_well_formed(t, pos, e);
            lemma_match_list_from_well_formed(t, e);
            let lst = match_list_from(t, pos);
            assert(lst == seq![t.subrange(pos, e)] + match_list_from(t, e));
            assert forall|i: int| 0 <= i < lst.len() implies well_formed_url(lst[i]) by {
                if i == 0 {
                    assert(lst[0] == t.subrange(pos, e));
                } else {
                    assert(lst[i] == match_list_from(t, e)[i - 1]);
                    assert(well_formed_url(match_list_from(t, e)[i - 1]));
                }
            }
        } else {
            lemma_match_list_from_well_formed(t, pos + 1);
            assert(match_list_from(t, pos) == match_list_from(t, pos + 1));
        }
    }
}

/// Every extracted URL starts with `http://` or `https://` and ends with a
/// dot and one of the recognized extensions.
pub proof fn lemma_extracted_urls_well_formed(t: Seq<u8>)
    ensures
        forall|i: int| 0 <= i < dedup_first(all_matches(t)).len()
            ==> well_formed_url(dedup_first(all_matches(t))[i]),
{
    lemma_match_list_from_well_formed(t, 0);
    lemma_dedup_first_props(all_matches(t));
    let d = dedup_first(all_matches(t));
    assert forall|i: int| 0 <= i < d.len() implies well_formed_url(d[i]) by {
        assert(d.contains(d[i]));
        assert(all_matches(t).contains(d[i]));
        let j = choose|j: int| 0 <= j < all_matches(t).len() && all_matches(t)[j] == d[i];
    }
}

/// Copies `t[a..b]` into a fresh vector.
pub fn copy_range(t: &[u8], a: usize, b: usize) -> (v: Vec<u8>)
    requires
        a <= b && b <= t@.len(),
    ensures
        v@ == t@.subrange(a as int, b as int),
{
    let mut v: Vec<u8> = Vec::new();
    let mut i = a;
    while i < b
        invariant
            a <= i <= b <= t@.len(),
            v@.len() == i - a,
            forall|q: int| 0 <= q < v@.len() ==> v@[q] == t@[a + q],
        decreases b - i,
    {
        v.push(t[i]);
        i = i + 1;
    }
    proof {
        assert(v@ =~= t@.subrange(a as int, b as int));
    }
    v
}

/// Byte-for-byte equality of two byte vectors.
pub fn bytes_eq(a: &Vec<u8>, b: &Vec<u8>) -> (r: bool)
    ensures
        r == (a@ == b@),
{
    if a.len() != b.len() {
        return false;
    }
    let mut i: usize = 0;
    while i < a.len()
        invariant
            i <= a@.len(),
            a@.len() == b@.len(),
            forall|q: int| 0 <= q < i ==> a@[q] == b@[q],
        decreases a@.len() - i,
    {
        if a[i] != b[i] {
            return false;
        }
        i = i + 1;
    }
    proof {
        assert(a@ =~= b@);
    }
    true
}

/// Membership check against the already collected URLs.
fn contains_bytes(us: &Vec<Vec<u8>>, x: &Vec<u8>) -> (r: bool)
    ensures
        r == byte_views(us@).contains(x@),
{
    let mut i: usize = 0;
    while i < us.len()
        invariant
            i <= us@.len(),
            forall|q: int| 0 <= q < i ==> byte_views(us@)[q] != x@,
        decreases us@.len() - i,
    {
        if bytes_eq(&us[i], x) {
            proof {
                assert(byte_views(us@)[i as int] == x@);
            }
            return true;
        }
        i = i + 1;
    }
    proof {
        if byte_views(us@).contains(x@) {
            let q = choose|q: int| 0 <= q < byte_views(us@).len() && byte_views(us@)[q] == x@;
        }
    }
    false
}

/// Scans `html` for image URLs and returns them de-duplicated, in
/// first-seen order.
pub fn get_url_list(html: &[u8]) -> (urls: Vec<Vec<u8>>)
    ensures
        byte_views(urls@) == dedup_first(all_matches(html@)),
{
    let mut urls: Vec<Vec<u8>> = Vec::new();
    let ghost mut seen: Seq<Seq<u8>> = Seq::empty();
    let mut pos: usize = 0;
    proof {
        assert(byte_views(urls@) =~= dedup_first(seen));
    }
    while pos < html.len()
        invariant
            pos <= html@.len(),
            byte_views(urls@) == dedup_first(seen),
            all_matches(html@) == seen + match_list_from(html@, pos as int),
        decreases html@.len() - pos,
    {
        match find_match_end(html, pos) {
            Some(e) => {
                let m = copy_range(html, pos, e);
                proof {
                    assert(match_list_from(html@, pos as int)
                        =~= seq![html@.subrange(pos as int, e as int)]
                            + match_list_from(html@, e as int));
                    let seen2 = seen.push(m@);
                    assert(seen2.drop_last() =~= seen);
                    assert(seen2.last() == m@);
                    assert(seen + match_list_from(html@, pos as int)
                        =~= seen2 + match_list_from(html@, e as int));
                    seen = seen2;
                }
                if !contains_bytes(&urls, &m) {
                    proof {
                        assert(byte_views(urls@.push(m)) =~= byte_views(urls@).push(m@));
                    }
                    urls.push(m);
                } else {
                    proof {
                        assert(dedup_first(seen) =~= byte_views(urls@));
                    }
                }
                pos = e;
            },
            None => {
                proof {
                    lemma_chosen_end(html@, pos as int);
                    assert(chosen_end(html@, pos as int) == -1);
                    assert(match_list_from(html@, pos as int)
                        =~= match_list_from(html@, pos as int + 1));
                }
                pos = pos + 1;
            },
        }
    }
    proof {
        assert(match_list_from(html@, pos as int) =~= Seq::<Seq<u8>>::empty());
        assert(seen =~= all_matches(html@));
    }
    urls
}

} // verus!
