//! The partitioner: splits markdown into length-bounded, sentence-aligned
//! sections and groups sections into translation units.

use crate::numeral::{dec_rep, push_decimal};
use crate::text::{from_chars, is_terminator, push_char, terminator, to_chars};
use vstd::prelude::*;

verus! {

/// The character bound a section buffer may grow to before it is flushed.
pub const SECTION_LIMIT: usize = 2000;

/// How many sections are grouped into one translation unit.
pub const UNIT_SIZE: usize = 3;

/// The views of a sequence of strings.
pub open spec fn views_of(ss: Seq<String>) -> Seq<Seq<char>> {
    ss.map_values(|s: String| s@)
}

/// The concatenation of a sequence of character sequences, in order.
pub open spec fn concat_all(fs: Seq<Seq<char>>) -> Seq<char>
    decreases fs.len(),
{
    if fs.len() == 0 {
        Seq::empty()
    } else {
        fs[0] + concat_all(fs.drop_first())
    }
}

/// Appending one more piece extends the concatenation on the right.
pub proof fn lemma_concat_all_push(fs: Seq<Seq<char>>, x: Seq<char>)
    ensures
        concat_all(fs.push(x)) == concat_all(fs) + x,
    decreases fs.len(),
{
    if fs.len() == 0 {
        assert(fs =~= Seq::<Seq<char>>::empty());
        assert(fs.push(x).drop_first() =~= Seq::<Seq<char>>::empty());
        assert(fs.push(x)[0] == x);
        assert(concat_all(fs.push(x)) == x + concat_all(Seq::<Seq<char>>::empty()));
        assert(concat_all(fs.push(x)) =~= concat_all(fs) + x);
    } else {
        assert(fs.push(x).drop_first() =~= fs.drop_first().push(x));
        lemma_concat_all_push(fs.drop_first(), x);
        assert(fs.push(x)[0] == fs[0]);
        assert(fs[0] + (concat_all(fs.drop_first()) + x) =~= (fs[0] + concat_all(fs.drop_first()))
            + x);
    }
}

/// Every piece is no longer than the whole concatenation.
pub proof fn lemma_concat_all_piece_len(fs: Seq<Seq<char>>, i: int)
    requires
        0 <= i < fs.len(),
    ensures
        fs[i].len() <= concat_all(fs).len(),
    decreases fs.len(),
{
    if i == 0 {
    } else {
        lemma_concat_all_piece_len(fs.drop_first(), i - 1);
    }
}

/// No sentence terminator occurs before the final position: the piece holds
/// at most one sentence.
pub open spec fn single_sentence(s: Seq<char>) -> bool {
    forall|j: int| 0 <= j < s.len() - 1 ==> !is_terminator(s[j])
}

/// The position of the first sentence terminator at or after `i`.
pub open spec fn next_term(s: Seq<char>, i: int) -> Option<int>
    decreases s.len() - i,
{
    if i < 0 || i >= s.len() {
        None
    } else if is_terminator(s[i]) {
        Some(i)
    } else {
        next_term(s, i + 1)
    }
}

/// A found terminator lies in range, is a terminator, and is the first one.
pub proof fn lemma_next_term_bounds(s: Seq<char>, i: int)
    requires
        0 <= i,
        next_term(s, i) is Some,
    ensures
        i <= next_term(s, i)->0 < s.len(),
        is_terminator(s[next_term(s, i)->0]),
        forall|j: int| i <= j < next_term(s, i)->0 ==> !is_terminator(s[j]),
    decreases s.len() - i,
{
    if i < s.len() && !is_terminator(s[i]) {
        lemma_next_term_bounds(s, i + 1);
    }
}

/// A terminator at `t`, with none before it from `i` on, is the one
/// [`next_term`] finds.
pub proof fn lemma_next_term_at(s: Seq<char>, i: int, t: int)
    requires
        0 <= i <= t < s.len(),
        forall|j: int| i <= j < t ==> !is_terminator(s[j]),
        is_terminator(s[t]),
    ensures
        next_term(s, i) == Some(t),
    decreases t - i,
{
    if i < t {
        lemma_next_term_at(s, i + 1, t);
    }
}

/// With no terminator from `i` on, [`next_term`] finds none.
pub proof fn lemma_next_term_none(s: Seq<char>, i: int)
    requires
        0 <= i,
        forall|j: int| i <= j < s.len() ==> !is_terminator(s[j]),
    ensures
        next_term(s, i) is None,
    decreases s.len() - i,
{
    if i < s.len() {
        lemma_next_term_none(s, i + 1);
    }
}

/// The sentence fragments of the text from position `i` on: each runs to
/// the first terminator (inclusive), and any terminator-free tail is one
/// final fragment.
pub open spec fn frags_from(s: Seq<char>, i: int) -> Seq<Seq<char>>
    decreases s.len() - i,
    via frags_from_decreases
{
    if i < 0 || i >= s.len() {
        Seq::empty()
    } else {
        match next_term(s, i) {
            Some(t) => seq![s.subrange(i, t + 1)] + frags_from(s, t + 1),
            None => seq![s.skip(i)],
        }
    }
}

#[via_fn]
proof fn frags_from_decreases(s: Seq<char>, i: int) {
    if 0 <= i < s.len() && next_term(s, i) is Some {
        lemma_next_term_bounds(s, i);
    }
}

/// Splits text into sentence-terminated fragments, keeping every character:
/// the fragments are exactly [`frags_from`] of the text; each ends with the
/// ideographic full stop except possibly the last, no fragment holds a
/// terminator anywhere else, and concatenating the fragments in order
/// reproduces the text exactly.
pub fn split_sentences(text: &str) -> (r: Vec<String>)
    ensures
        views_of(r@) == frags_from(text@, 0),
        concat_all(views_of(r@)) == text@,
        forall|i: int| 0 <= i < r@.len() ==> r@[i]@.len() > 0,
        forall|i: int| 0 <= i < r@.len() ==> single_sentence(#[trigger] r@[i]@),
        forall|i: int| 0 <= i < r@.len() - 1 ==> is_terminator(#[trigger] r@[i]@.last()),
{
    let chars = to_chars(text);
    let n = chars.len();
    let mut out: Vec<String> = Vec::new();
    let mut cur: Vec<char> = Vec::new();
    let mut i: usize = 0;
    proof {
        assert(views_of(out@) + frags_from(chars@, 0) =~= frags_from(chars@, 0));
    }
    while i < n
        invariant
            chars@ == text@,
            n == chars@.len(),
            i <= n,
            i - cur@.len() >= 0,
            cur@ == chars@.subrange(i - cur@.len(), i as int),
            concat_all(views_of(out@)) + cur@ == chars@.subrange(0, i as int),
            views_of(out@) + frags_from(chars@, i - cur@.len()) == frags_from(chars@, 0),
            forall|k: int| 0 <= k < out@.len() ==> out@[k]@.len() > 0,
            forall|k: int| 0 <= k < out@.len() ==> single_sentence(#[trigger] out@[k]@),
            forall|k: int| 0 <= k < out@.len() ==> is_terminator(#[trigger] out@[k]@.last()),
            forall|j: int| 0 <= j < cur@.len() ==> !is_terminator(cur@[j]),
        decreases n - i,
    {
        let c = chars[i];
        let ghost prev_out = out@;
        let ghost prev_cur = cur@;
        let ghost start = i - cur@.len();
        cur.push(c);
        i = i + 1;
        if terminator(c) {
            let frag = from_chars(&cur);
            proof {
                lemma_concat_all_push(views_of(out@), frag@);
                assert(views_of(out@.push(frag)) =~= views_of(out@).push(frag@));
                assert forall|j: int| start <= j < i - 1 implies !is_terminator(
                    chars@[j],
                ) by {
                    assert(prev_cur[j - start] == chars@[j]);
                }
                lemma_next_term_at(chars@, start, i - 1);
                assert(frag@ =~= chars@.subrange(start, i as int));
                assert(frags_from(chars@, start) == seq![chars@.subrange(start, i as int)]
                    + frags_from(chars@, i as int));
            }
            out.push(frag);
            cur = Vec::new();
            proof {
                assert(concat_all(views_of(out@)) + cur@ =~= concat_all(views_of(prev_out))
                    + prev_cur.push(c));
                assert(views_of(out@) + frags_from(chars@, i as int) =~= (views_of(prev_out)
                    + frags_from(chars@, start)));
            }
        } else {
            proof {
                assert(concat_all(views_of(out@)) + cur@ =~= concat_all(views_of(prev_out))
                    + prev_cur.push(c));
            }
        }
        proof {
            assert(cur@ =~= chars@.subrange(i - cur@.len(), i as int));
            assert(chars@.subrange(0, i as int) =~= chars@.subrange(0, i - 1).push(
                chars@[i - 1],
            ));
            assert(concat_all(views_of(prev_out)) + prev_cur.push(c) =~= (concat_all(
                views_of(prev_out),
            ) + prev_cur).push(c));
            assert(concat_all(views_of(out@)) + cur@ =~= chars@.subrange(0, i as int));
        }
    }
    if cur.len() > 0 {
        let frag = from_chars(&cur);
        proof {
            let start = n - cur@.len();
            lemma_concat_all_push(views_of(out@), frag@);
            assert(views_of(out@.push(frag)) =~= views_of(out@).push(frag@));
            assert forall|j: int| start <= j < n implies !is_terminator(chars@[j]) by {
                assert(cur@[j - start] == chars@[j]);
            }
            lemma_next_term_none(chars@, start);
            assert(frag@ =~= chars@.skip(start));
            assert(frags_from(chars@, start) == seq![chars@.skip(start)]);
            assert(views_of(out@.push(frag)) =~= views_of(out@) + frags_from(chars@, start));
        }
        out.push(frag);
    }
    proof {
        assert(chars@.subrange(0, n as int) =~= text@);
        assert(concat_all(views_of(out@)) =~= text@);
        assert(views_of(out@) =~= frags_from(chars@, 0));
    }
    out
}

/// The sections the running buffer `buf` and the fragments from `i` on
/// still yield: the buffer is flushed as one section whenever appending the
/// next fragment would carry it to the limit or beyond, and once more at
/// the end if anything is left in it.
pub open spec fn sections_from(frags: Seq<Seq<char>>, buf: Seq<char>, i: int) -> Seq<Seq<char>>
    decreases frags.len() - i,
{
    if i < 0 || i >= frags.len() {
        if buf.len() > 0 {
            seq![buf]
        } else {
            Seq::empty()
        }
    } else if buf.len() > 0 && buf.len() + frags[i].len() >= SECTION_LIMIT {
        seq![buf] + sections_from(frags, frags[i], i + 1)
    } else {
        sections_from(frags, buf + frags[i], i + 1)
    }
}

/// The partitioner's result on a text: its sentence fragments accumulated
/// into length-bounded sections.
pub open spec fn partition_spec(s: Seq<char>) -> Seq<Seq<char>> {
    sections_from(frags_from(s, 0), Seq::empty(), 0)
}

/// Splits markdown into sections on sentence-terminal punctuation,
/// accumulating sentence fragments into a running buffer and flushing the
/// buffer as one section whenever appending the next fragment would carry it
/// to [`SECTION_LIMIT`] characters or beyond; a non-empty trailing buffer is
/// flushed at the end.
///
/// Concatenating the returned sections in order reproduces the input exactly,
/// every section is non-empty, and every section is either shorter than
/// [`SECTION_LIMIT`] characters or a single over-long sentence kept whole.
/// No section exists at all exactly when the input is empty.
pub fn partition_text(text: &str) -> (r: Vec<String>)
    ensures
        views_of(r@) == partition_spec(text@),
        concat_all(views_of(r@)) == text@,
        forall|i: int| 0 <= i < r@.len() ==> r@[i]@.len() > 0,
        forall|i: int|
            0 <= i < r@.len() ==> r@[i]@.len() < SECTION_LIMIT || single_sentence(
                #[trigger] r@[i]@,
            ),
        r@.len() == 0 <==> text@.len() == 0,
{
    let frags = split_sentences(text);
    let mut sections: Vec<String> = Vec::new();
    let mut buf = String::new();
    let mut buf_chars: usize = 0;
    let mut i: usize = 0;
    proof {
        assert(views_of(sections@) + sections_from(views_of(frags@), buf@, 0) =~= sections_from(
            views_of(frags@),
            Seq::empty(),
            0,
        ));
    }
    while i < frags.len()
        invariant
            concat_all(views_of(frags@)) == text@,
            views_of(frags@) == frags_from(text@, 0),
            forall|k: int| 0 <= k < frags@.len() ==> frags@[k]@.len() > 0,
            forall|k: int| 0 <= k < frags@.len() ==> single_sentence(#[trigger] frags@[k]@),
            i <= frags@.len(),
            buf_chars == buf@.len(),
            views_of(sections@) + sections_from(views_of(frags@), buf@, i as int)
                == partition_spec(text@),
            concat_all(views_of(sections@)) + buf@ == concat_all(
                views_of(frags@.subrange(0, i as int)),
            ),
            forall|k: int| 0 <= k < sections@.len() ==> sections@[k]@.len() > 0,
            forall|k: int|
                0 <= k < sections@.len() ==> sections@[k]@.len() < SECTION_LIMIT
                    || single_sentence(#[trigger] sections@[k]@),
            buf@.len() < SECTION_LIMIT || single_sentence(buf@),
            i > 0 ==> buf@.len() > 0,
        decreases frags@.len() - i,
    {
        let frag = &frags[i];
        let flen = frag.unicode_len();
        let ghost fv = views_of(frags@);
        let ghost prev_buf = buf@;
        let ghost prev_sections = views_of(sections@);
        if buf_chars > 0 && (buf_chars >= SECTION_LIMIT || flen >= SECTION_LIMIT - buf_chars) {
            proof {
                lemma_concat_all_push(views_of(sections@), buf@);
                assert(views_of(sections@.push(buf)) =~= views_of(sections@).push(buf@));
                assert(sections_from(fv, prev_buf, i as int) == seq![prev_buf] + sections_from(
                    fv,
                    fv[i as int],
                    i + 1,
                ));
            }
            sections.push(buf);
            buf = frag.clone();
            buf_chars = flen;
            proof {
                assert(views_of(sections@) + sections_from(fv, buf@, (i + 1) as int)
                    =~= prev_sections + sections_from(fv, prev_buf, i as int));
            }
        } else {
            buf.append(frag.as_str());
            buf_chars = buf_chars + flen;
            proof {
                assert(buf@ =~= prev_buf + fv[i as int]);
                assert(sections_from(fv, prev_buf, i as int) == sections_from(
                    fv,
                    prev_buf + fv[i as int],
                    i + 1,
                ));
            }
        }
        proof {
            let pre = frags@.subrange(0, i as int);
            lemma_concat_all_push(views_of(pre), frags@[i as int]@);
            assert(views_of(frags@.subrange(0, (i + 1) as int)) =~= views_of(pre).push(
                frags@[i as int]@,
            ));
            assert(concat_all(views_of(sections@)) + buf@ =~= concat_all(
                views_of(frags@.subrange(0, (i + 1) as int)),
            ));
        }
        i = i + 1;
    }
    if buf_chars > 0 {
        proof {
            lemma_concat_all_push(views_of(sections@), buf@);
            assert(views_of(sections@.push(buf)) =~= views_of(sections@).push(buf@));
            assert(views_of(sections@.push(buf)) =~= views_of(sections@) + sections_from(
                views_of(frags@),
                buf@,
                frags@.len() as int,
            ));
        }
        sections.push(buf);
    }
    proof {
        assert(frags@.subrange(0, frags@.len() as int) =~= frags@);
        if sections@.len() > 0 {
            lemma_concat_all_piece_len(views_of(sections@), 0);
        }
        assert(views_of(sections@) =~= partition_spec(text@));
    }
    sections
}

/// The in-band marker announcing translation unit `n`.
pub open spec fn part_tag_spec(n: nat) -> Seq<char> {
    "\n\n<part>"@ + dec_rep(n) + "</part>\n\n"@
}

/// Renders the part tag for unit `n`: two blank lines, `<part>`, the decimal
/// number, `</part>`, and two more blank lines.
pub fn part_tag(n: usize) -> (r: String)
    ensures
        r@ == part_tag_spec(n as nat),
{
    let mut out = String::from_str("\n\n<part>");
    push_decimal(n, &mut out);
    out.append("</part>\n\n");
    out
}

/// One joined element: the part tag for position `i` (numbered from one),
/// a blank line, then the section itself.
pub open spec fn tagged_part(parts: Seq<Seq<char>>, i: int) -> Seq<char> {
    part_tag_spec((i + 1) as nat) + "\n\n"@ + parts[i]
}

/// The first `k` tagged elements joined by blank lines.
pub open spec fn join_upto(parts: Seq<Seq<char>>, k: int) -> Seq<char>
    decreases k,
{
    if k <= 0 {
        Seq::empty()
    } else if k == 1 {
        tagged_part(parts, 0)
    } else {
        join_upto(parts, k - 1) + "\n\n"@ + tagged_part(parts, k - 1)
    }
}

/// Joins the sections back into one document, numbering each with its part
/// tag and separating consecutive elements with a blank line.
pub fn join_partition(parts: Vec<String>) -> (r: String)
    ensures
        r@ == join_upto(views_of(parts@), parts@.len() as int),
{
    let mut out = String::new();
    let mut i: usize = 0;
    while i < parts.len()
        invariant
            i <= parts@.len(),
            out@ == join_upto(views_of(parts@), i as int),
        decreases parts@.len() - i,
    {
        if i > 0 {
            out.append("\n\n");
        }
        let tag = part_tag(i + 1);
        out.append(tag.as_str());
        out.append("\n\n");
        out.append(parts[i].as_str());
        proof {
            assert(out@ =~= join_upto(views_of(parts@), (i + 1) as int));
        }
        i = i + 1;
    }
    out
}

/// The first `k` pieces joined by `sep`.
pub open spec fn joined_with(parts: Seq<Seq<char>>, sep: Seq<char>, k: int) -> Seq<char>
    decreases k,
{
    if k <= 0 {
        Seq::empty()
    } else if k == 1 {
        parts[0]
    } else {
        joined_with(parts, sep, k - 1) + sep + parts[k - 1]
    }
}

/// Joins the strings with the given separator between consecutive elements.
pub fn join_strings(parts: &Vec<String>, sep: &str) -> (r: String)
    ensures
        r@ == joined_with(views_of(parts@), sep@, parts@.len() as int),
{
    let mut out = String::new();
    let mut i: usize = 0;
    while i < parts.len()
        invariant
            i <= parts@.len(),
            out@ == joined_with(views_of(parts@), sep@, i as int),
        decreases parts@.len() - i,
    {
        if i > 0 {
            out.append(sep);
        }
        out.append(parts[i].as_str());
        i = i + 1;
    }
    out
}

/// The translation unit starting at section `3 * u`: up to three consecutive
/// sections joined by single spaces.
pub open spec fn unit_of(parts: Seq<Seq<char>>, u: int) -> Seq<char> {
    let b = 3 * u;
    if b + 1 >= parts.len() {
        parts[b]
    } else if b + 2 >= parts.len() {
        parts[b] + " "@ + parts[b + 1]
    } else {
        parts[b] + " "@ + parts[b + 1] + " "@ + parts[b + 2]
    }
}

/// The translation units of a section list: runs of three, space-joined.
pub open spec fn grouped_spec(parts: Seq<Seq<char>>) -> Seq<Seq<char>> {
    Seq::new((((parts.len() + 2) as int / 3) as nat), |u: int| unit_of(parts, u))
}

/// Groups the sections into translation units of [`UNIT_SIZE`] consecutive
/// sections (the last unit may be shorter), joining each run with single
/// spaces.
pub fn group_sections(parts: &Vec<String>) -> (r: Vec<String>)
    ensures
        views_of(r@) == grouped_spec(views_of(parts@)),
        r@.len() == (parts@.len() + UNIT_SIZE - 1) as int / UNIT_SIZE as int,
        forall|u: int| 0 <= u < r@.len() ==> r@[u]@ == unit_of(views_of(parts@), u),
{
    let mut out: Vec<String> = Vec::new();
    let mut b: usize = 0;
    while b < parts.len()
        invariant
            b <= parts@.len(),
            b % 3 == 0 || b == parts@.len(),
            if b % 3 == 0 {
                out@.len() == b as int / 3
            } else {
                out@.len() == (parts@.len() + 2) as int / 3
            },
            forall|u: int| 0 <= u < out@.len() ==> out@[u]@ == unit_of(views_of(parts@), u),
        decreases parts@.len() - b,
    {
        let mut unit = parts[b].clone();
        if parts.len() - b > 1 {
            unit.append(" ");
            unit.append(parts[b + 1].as_str());
        }
        if parts.len() - b > 2 {
            unit.append(" ");
            unit.append(parts[b + 2].as_str());
        }
        proof {
            assert(unit@ =~= unit_of(views_of(parts@), b as int / 3));
        }
        out.push(unit);
        if parts.len() - b >= 3 {
            b = b + 3;
        } else {
            b = parts.len();
        }
    }
    proof {
        assert(views_of(out@) =~= grouped_spec(views_of(parts@)));
    }
    out
}

} // verus!
