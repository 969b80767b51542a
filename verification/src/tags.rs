//! In-band marker removal: strips `<think>...</think>` and
//! `<part>...</part>` regions (output-format artifacts of the translation
//! backend) together with the whitespace that follows each region.

use crate::text::{from_chars, is_space_char, space_char, to_chars};
use vstd::prelude::*;

verus! {

/// `pat` occurs in `s` starting at position `j`.
pub open spec fn matches_at(s: Seq<char>, pat: Seq<char>, j: int) -> bool {
    0 <= j && j + pat.len() <= s.len() && s.subrange(j, j + pat.len()) == pat
}

/// The position of the first occurrence of `pat` in `s` at or after `j`.
pub open spec fn find_at(s: Seq<char>, pat: Seq<char>, j: int) -> Option<int>
    decreases s.len() - j,
    via find_at_decreases
{
    if j < 0 || j + pat.len() > s.len() {
        None
    } else if matches_at(s, pat, j) {
        Some(j)
    } else {
        find_at(s, pat, j + 1)
    }
}

#[via_fn]
proof fn find_at_decreases(s: Seq<char>, pat: Seq<char>, j: int) {
    if !(j < 0 || j + pat.len() > s.len()) && !matches_at(s, pat, j) {
        if pat.len() == 0 {
            assert(s.subrange(j, j) =~= pat);
        }
    }
}

/// An empty pattern is found wherever the search may begin.
proof fn lemma_empty_pat_matches(s: Seq<char>, pat: Seq<char>, j: int)
    requires
        pat.len() == 0,
        0 <= j <= s.len(),
    ensures
        matches_at(s, pat, j),
{
    assert(s.subrange(j, j) =~= pat);
}

/// A found occurrence lies at or after the start of the search and fits in
/// the text, and it is an occurrence.
pub proof fn lemma_find_at_bounds(s: Seq<char>, pat: Seq<char>, j: int)
    requires
        find_at(s, pat, j) is Some,
    ensures
        j <= find_at(s, pat, j)->0,
        find_at(s, pat, j)->0 + pat.len() <= s.len(),
        matches_at(s, pat, find_at(s, pat, j)->0),
    decreases s.len() - j,
{
    if j < 0 || j + pat.len() > s.len() {
    } else if matches_at(s, pat, j) {
    } else {
        if pat.len() == 0 {
            lemma_empty_pat_matches(s, pat, j);
        }
        lemma_find_at_bounds(s, pat, j + 1);
    }
}

/// The first position at or after `j` that does not hold a whitespace
/// character (or the end of the text).
pub open spec fn run_of_spaces(s: Seq<char>, j: int) -> int
    decreases s.len() - j,
{
    if j < 0 || j >= s.len() || !is_space_char(s[j]) {
        j
    } else {
        run_of_spaces(s, j + 1)
    }
}

/// Skipping a whitespace run never moves backwards nor past the end.
pub proof fn lemma_run_of_spaces_bounds(s: Seq<char>, j: int)
    requires
        0 <= j <= s.len(),
    ensures
        j <= run_of_spaces(s, j) <= s.len(),
    decreases s.len() - j,
{
    if j < s.len() && is_space_char(s[j]) {
        lemma_run_of_spaces_bounds(s, j + 1);
    }
}

/// What remains of `s` from position `i` on after removing every region that
/// starts with `open` and runs to the nearest following `close`, together
/// with the whitespace after the region.  Text whose `open` marker has no
/// matching `close` is kept.
pub open spec fn strip_from(s: Seq<char>, open: Seq<char>, close: Seq<char>, i: int) -> Seq<char>
    decreases s.len() - i,
        when open.len() > 0 && close.len() > 0
    via strip_from_decreases
{
    if i < 0 || i >= s.len() {
        Seq::empty()
    } else if matches_at(s, open, i) && find_at(s, close, i + open.len()) is Some {
        let e = find_at(s, close, i + open.len())->0 + close.len();
        strip_from(s, open, close, run_of_spaces(s, e))
    } else {
        seq![s[i]] + strip_from(s, open, close, i + 1)
    }
}

#[via_fn]
proof fn strip_from_decreases(s: Seq<char>, open: Seq<char>, close: Seq<char>, i: int) {
    if 0 <= i < s.len() && matches_at(s, open, i) && find_at(s, close, i + open.len()) is Some {
        lemma_find_at_bounds(s, close, i + open.len());
        let e = find_at(s, close, i + open.len())->0 + close.len();
        lemma_run_of_spaces_bounds(s, e);
    }
}

/// Runtime test for [`matches_at`].
pub fn chars_match_at(s: &Vec<char>, pat: &Vec<char>, j: usize) -> (r: bool)
    ensures
        r == matches_at(s@, pat@, j as int),
{
    if j > s.len() || s.len() - j < pat.len() {
        proof {
            assert(!matches_at(s@, pat@, j as int));
        }
        return false;
    }
    let mut k: usize = 0;
    while k < pat.len()
        invariant
            j + pat@.len() <= s@.len(),
            s@.len() == s.len(),
            k <= pat@.len(),
            forall|t: int| 0 <= t < k ==> s@[j + t] == pat@[t],
        decreases pat@.len() - k,
    {
        if s[j + k] != pat[k] {
            proof {
                assert(s@.subrange(j as int, j + pat@.len())[k as int] != pat@[k as int]);
            }
            return false;
        }
        k = k + 1;
    }
    proof {
        assert(s@.subrange(j as int, j + pat@.len()) =~= pat@);
    }
    true
}

/// Runtime search for [`find_at`].
pub fn chars_find_at(s: &Vec<char>, pat: &Vec<char>, from: usize) -> (r: Option<usize>)
    requires
        pat@.len() > 0,
    ensures
        match r {
            Some(k) => find_at(s@, pat@, from as int) == Some(k as int),
            None => find_at(s@, pat@, from as int) is None,
        },
{
    let mut j: usize = from;
    while j <= s.len() && s.len() - j >= pat.len()
        invariant
            from <= j,
            pat@.len() > 0,
            s@.len() == s.len(),
            find_at(s@, pat@, from as int) == find_at(s@, pat@, j as int),
        decreases s@.len() + 1 - j,
    {
        if chars_match_at(s, pat, j) {
            return Some(j);
        }
        j = j + 1;
    }
    proof {
        assert(find_at(s@, pat@, j as int) is None);
    }
    None
}

/// Runtime search for [`run_of_spaces`].
pub fn chars_run_of_spaces(s: &Vec<char>, from: usize) -> (r: usize)
    requires
        from <= s@.len(),
    ensures
        r == run_of_spaces(s@, from as int),
        from <= r <= s@.len(),
{
    let mut j: usize = from;
    while j < s.len() && space_char(s[j])
        invariant
            from <= j <= s@.len(),
            run_of_spaces(s@, from as int) == run_of_spaces(s@, j as int),
        decreases s@.len() - j,
    {
        j = j + 1;
    }
    j
}

/// Removes every `open ... close` region from the text, each together with
/// the whitespace that follows it, scanning left to right; an `open` marker
/// with no later `close` is kept verbatim.
pub fn strip_tag_regions(text: &str, open: &str, close: &str) -> (r: String)
    requires
        open@.len() > 0,
        close@.len() > 0,
    ensures
        r@ == strip_from(text@, open@, close@, 0),
{
    let s = to_chars(text);
    let o = to_chars(open);
    let c = to_chars(close);
    let mut out: Vec<char> = Vec::new();
    let mut i: usize = 0;
    while i < s.len()
        invariant
            s@ == text@,
            o@ == open@,
            c@ == close@,
            o@.len() > 0,
            c@.len() > 0,
            i <= s@.len(),
            out@ + strip_from(s@, o@, c@, i as int) == strip_from(s@, o@, c@, 0),
        decreases s@.len() - i,
    {
        let ghost prev_i = i as int;
        let mut advanced = false;
        if chars_match_at(&s, &o, i) {
            match chars_find_at(&s, &c, i + o.len()) {
                Some(k) => {
                    proof {
                        lemma_find_at_bounds(s@, c@, i + o@.len());
                    }
                    let e = k + c.len();
                    let e2 = chars_run_of_spaces(&s, e);
                    i = e2;
                    advanced = true;
                    proof {
                        assert(strip_from(s@, o@, c@, prev_i) == strip_from(s@, o@, c@, i as int));
                    }
                },
                None => {},
            }
        }
        if !advanced {
            proof {
                assert(strip_from(s@, o@, c@, i as int) == seq![s@[i as int]] + strip_from(
                    s@,
                    o@,
                    c@,
                    i + 1,
                ));
            }
            out.push(s[i]);
            i = i + 1;
            proof {
                assert(out@ + strip_from(s@, o@, c@, i as int) =~= strip_from(s@, o@, c@, 0));
            }
        }
    }
    proof {
        assert(out@ =~= strip_from(s@, o@, c@, 0));
    }
    from_chars(&out)
}

/// Text in which the opening marker never occurs passes through the filter
/// unchanged.
pub proof fn lemma_strip_absent_is_identity(s: Seq<char>, open: Seq<char>, close: Seq<char>, i: int)
    requires
        open.len() > 0,
        close.len() > 0,
        0 <= i <= s.len(),
        forall|j: int| !matches_at(s, open, j),
    ensures
        strip_from(s, open, close, i) == s.skip(i),
    decreases s.len() - i,
{
    if i >= s.len() {
        assert(strip_from(s, open, close, i) =~= s.skip(i));
    } else {
        lemma_strip_absent_is_identity(s, open, close, i + 1);
        assert(strip_from(s, open, close, i) == seq![s[i]] + s.skip(i + 1));
        assert(seq![s[i]] + s.skip(i + 1) =~= s.skip(i));
    }
}

/// Strips `<think> ... </think>` reasoning-trace regions and the whitespace
/// after each.
pub fn remove_think_tags(text: &str) -> (r: String)
    ensures
        r@ == strip_from(text@, "<think>"@, "</think>"@, 0),
{
    proof {
        reveal_strlit("<think>");
        reveal_strlit("</think>");
    }
    strip_tag_regions(text, "<think>", "</think>")
}

/// Strips `<part> ... </part>` unit-boundary regions and the whitespace
/// after each.
pub fn remove_part_tags(text: &str) -> (r: String)
    ensures
        r@ == strip_from(text@, "<part>"@, "</part>"@, 0),
{
    proof {
        reveal_strlit("<part>");
        reveal_strlit("</part>");
    }
    strip_tag_regions(text, "<part>", "</part>")
}

} // verus!
