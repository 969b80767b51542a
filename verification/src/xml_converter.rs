//! A small XHTML-to-markdown converter of the library's own: it strips a
//! configurable set of elements with their contents, turns `h1`..`h6` into
//! markdown headings and `p` into plain text blocks, drops every other
//! tag, and joins the blocks and the trimmed text between tags with
//! newlines, the way a pull parser's trimmed text events read.

use crate::partition::{joined_with, views_of};
use crate::tags::{
    chars_find_at, chars_match_at, chars_run_of_spaces, find_at, lemma_find_at_bounds, matches_at,
    run_of_spaces,
};
use crate::text::{from_chars, is_space_char, space_char, to_chars};
use crate::xhtml::{push_range, tag_delim};
use vstd::prelude::*;

verus! {

/// An element named `tag` opens at `i`: `<`, the name, and a delimiter.
pub open spec fn elem_open_at(s: Seq<char>, tag: Seq<char>, i: int) -> bool {
    matches_at(s, "<"@ + tag, i) && i + 1 + tag.len() < s.len() && tag_delim(
        s[i + 1 + tag.len()],
    )
}

/// The closing tag of an element name.
pub open spec fn close_tag(tag: Seq<char>) -> Seq<char> {
    "</"@ + tag + ">"@
}

/// The text from `i` on with every element named `tag` removed together
/// with its contents; an opening without a closing tag is kept.
pub open spec fn strip_elem_from(s: Seq<char>, tag: Seq<char>, i: int) -> Seq<char>
    decreases s.len() - i,
    via strip_elem_from_decreases
{
    if i < 0 || i >= s.len() {
        Seq::empty()
    } else if elem_open_at(s, tag, i) && find_at(s, close_tag(tag), i) is Some {
        strip_elem_from(s, tag, find_at(s, close_tag(tag), i)->0 + close_tag(tag).len())
    } else {
        seq![s[i]] + strip_elem_from(s, tag, i + 1)
    }
}

#[via_fn]
proof fn strip_elem_from_decreases(s: Seq<char>, tag: Seq<char>, i: int) {
    if 0 <= i < s.len() && elem_open_at(s, tag, i) && find_at(s, close_tag(tag), i) is Some {
        lemma_find_at_bounds(s, close_tag(tag), i);
        assert(close_tag(tag).len() >= 3) by {
            reveal_strlit("</");
            reveal_strlit(">");
        }
    }
}

/// The text with every element of each named tag removed, the names
/// applied in order.
pub open spec fn strip_all(s: Seq<char>, tags: Seq<Seq<char>>, k: int) -> Seq<char>
    decreases tags.len() - k,
{
    if k < 0 || k >= tags.len() {
        s
    } else {
        strip_all(strip_elem_from(s, tags[k], 0), tags, k + 1)
    }
}

/// The position of the next `<` at or after `i`, or the length of the
/// text when none follows.
pub open spec fn next_lt(s: Seq<char>, i: int) -> int
    decreases s.len() - i,
{
    if i < 0 || i >= s.len() {
        s.len() as int
    } else if s[i] == '<' {
        i
    } else {
        next_lt(s, i + 1)
    }
}

/// The next `<` lies between the start of the search and the end of the
/// text.
pub proof fn lemma_next_lt_bounds(s: Seq<char>, i: int)
    requires
        0 <= i <= s.len(),
    ensures
        i <= next_lt(s, i) <= s.len(),
    decreases s.len() - i,
{
    if i < s.len() && s[i] != '<' {
        lemma_next_lt_bounds(s, i + 1);
    }
}

/// The least position such that everything from it up to `j` is
/// whitespace.
pub open spec fn end_of_trim(t: Seq<char>, j: int) -> int
    decreases j,
{
    if j <= 0 {
        0
    } else if is_space_char(t[j - 1]) {
        end_of_trim(t, j - 1)
    } else {
        j
    }
}

/// The text with its leading and trailing whitespace removed; whitespace-only
/// text trims to nothing.
pub open spec fn trimmed(t: Seq<char>) -> Seq<char> {
    let a = run_of_spaces(t, 0);
    let b = end_of_trim(t, t.len() as int);
    if a <= b {
        t.subrange(a, b)
    } else {
        Seq::empty()
    }
}

/// The text of one block, read the way a pull parser reads it: each text
/// node between tags is trimmed and the nodes are concatenated without a
/// separator; tags vanish, and a `<` without a closing `>` ends the block.
pub open spec fn inner_concat(t: Seq<char>, j: int) -> Seq<char>
    decreases t.len() - j,
    via inner_concat_decreases
{
    if j < 0 || j >= t.len() {
        Seq::empty()
    } else if t[j] == '<' {
        match find_at(t, ">"@, j) {
            Some(g) => inner_concat(t, g + 1),
            None => Seq::empty(),
        }
    } else {
        trimmed(t.subrange(j, next_lt(t, j))) + inner_concat(t, next_lt(t, j))
    }
}

#[via_fn]
proof fn inner_concat_decreases(t: Seq<char>, j: int) {
    reveal_strlit(">");
    if 0 <= j < t.len() {
        if t[j] == '<' {
            if find_at(t, ">"@, j) is Some {
                lemma_find_at_bounds(t, ">"@, j);
            }
        } else {
            lemma_next_lt_bounds(t, j + 1);
        }
    }
}

/// The heading level opening at `i`, or zero when none does.
pub open spec fn heading_at(s: Seq<char>, i: int) -> int {
    if elem_open_at(s, "h1"@, i) {
        1
    } else if elem_open_at(s, "h2"@, i) {
        2
    } else if elem_open_at(s, "h3"@, i) {
        3
    } else if elem_open_at(s, "h4"@, i) {
        4
    } else if elem_open_at(s, "h5"@, i) {
        5
    } else if elem_open_at(s, "h6"@, i) {
        6
    } else {
        0
    }
}

/// The markdown heading marker for a level.
pub open spec fn hashes(n: int) -> Seq<char> {
    if n == 1 {
        "#"@
    } else if n == 2 {
        "##"@
    } else if n == 3 {
        "###"@
    } else if n == 4 {
        "####"@
    } else if n == 5 {
        "#####"@
    } else {
        "######"@
    }
}

/// The closing tag of a heading level.
pub open spec fn h_close(n: int) -> Seq<char> {
    if n == 1 {
        "</h1>"@
    } else if n == 2 {
        "</h2>"@
    } else if n == 3 {
        "</h3>"@
    } else if n == 4 {
        "</h4>"@
    } else if n == 5 {
        "</h5>"@
    } else {
        "</h6>"@
    }
}

/// An element opening starts with `<`.
proof fn lemma_open_starts_lt(s: Seq<char>, tag: Seq<char>, i: int)
    requires
        elem_open_at(s, tag, i),
    ensures
        0 <= i < s.len() && s[i] == '<',
{
    reveal_strlit("<");
    assert(s.subrange(i, i + 1 + tag.len() as int)[0] == s[i]);
    assert(("<"@ + tag)[0] == '<');
}

/// A heading opening starts with `<`.
proof fn lemma_heading_starts_lt(s: Seq<char>, i: int)
    requires
        heading_at(s, i) > 0,
    ensures
        0 <= i < s.len() && s[i] == '<',
{
    if elem_open_at(s, "h1"@, i) {
        lemma_open_starts_lt(s, "h1"@, i);
    } else if elem_open_at(s, "h2"@, i) {
        lemma_open_starts_lt(s, "h2"@, i);
    } else if elem_open_at(s, "h3"@, i) {
        lemma_open_starts_lt(s, "h3"@, i);
    } else if elem_open_at(s, "h4"@, i) {
        lemma_open_starts_lt(s, "h4"@, i);
    } else if elem_open_at(s, "h5"@, i) {
        lemma_open_starts_lt(s, "h5"@, i);
    } else {
        lemma_open_starts_lt(s, "h6"@, i);
    }
}

/// The markdown items of the document from `i` on, in document order: a
/// heading element becomes its marker, a space and the block's text; a `p`
/// element becomes the block's text; any other tag vanishes; text between
/// tags is trimmed and kept when anything remains; a `<` with no closing
/// `>` leaves its trimmed tail as the last item.
pub open spec fn items_from(s: Seq<char>, i: int) -> Seq<Seq<char>>
    decreases s.len() - i,
    via items_from_decreases
{
    if i < 0 || i >= s.len() {
        Seq::empty()
    } else if heading_at(s, i) > 0 && find_at(s, ">"@, i) is Some && find_at(
        s,
        h_close(heading_at(s, i)),
        find_at(s, ">"@, i)->0 + 1,
    ) is Some {
        let n = heading_at(s, i);
        let gt = find_at(s, ">"@, i)->0;
        let c = find_at(s, h_close(n), gt + 1)->0;
        seq![hashes(n) + " "@ + inner_concat(s.subrange(gt + 1, c), 0)] + items_from(
            s,
            c + h_close(n).len(),
        )
    } else if elem_open_at(s, "p"@, i) && find_at(s, ">"@, i) is Some && find_at(
        s,
        "</p>"@,
        find_at(s, ">"@, i)->0 + 1,
    ) is Some {
        let gt = find_at(s, ">"@, i)->0;
        let c = find_at(s, "</p>"@, gt + 1)->0;
        seq![inner_concat(s.subrange(gt + 1, c), 0)] + items_from(s, c + "</p>"@.len())
    } else if s[i] == '<' && find_at(s, ">"@, i) is Some {
        items_from(s, find_at(s, ">"@, i)->0 + 1)
    } else if s[i] == '<' {
        let t = trimmed(s.skip(i));
        if t.len() > 0 {
            seq![t]
        } else {
            Seq::empty()
        }
    } else {
        let e = next_lt(s, i);
        let t = trimmed(s.subrange(i, e));
        (if t.len() > 0 {
            seq![t]
        } else {
            Seq::empty()
        }) + items_from(s, e)
    }
}

#[via_fn]
proof fn items_from_decreases(s: Seq<char>, i: int) {
    reveal_strlit(">");
    if 0 <= i < s.len() {
        if find_at(s, ">"@, i) is Some {
            lemma_find_at_bounds(s, ">"@, i);
            let gt = find_at(s, ">"@, i)->0;
            let n = heading_at(s, i);
            if n > 0 && find_at(s, h_close(n), gt + 1) is Some {
                lemma_find_at_bounds(s, h_close(n), gt + 1);
                assert(h_close(n).len() >= 1) by {
                    reveal_strlit("</h1>");
                    reveal_strlit("</h2>");
                    reveal_strlit("</h3>");
                    reveal_strlit("</h4>");
                    reveal_strlit("</h5>");
                    reveal_strlit("</h6>");
                }
            }
            if find_at(s, "</p>"@, gt + 1) is Some {
                lemma_find_at_bounds(s, "</p>"@, gt + 1);
                assert("</p>"@.len() >= 1) by {
                    reveal_strlit("</p>");
                }
            }
        }
        if s[i] != '<' {
            lemma_next_lt_bounds(s, i + 1);
        }
    }
}

/// Strips every element of one named tag, at runtime.
fn strip_elements(text: &str, tag: &str) -> (r: String)
    ensures
        r@ == strip_elem_from(text@, tag@, 0),
{
    let s = to_chars(text);
    let t = to_chars(tag);
    let mut open_pat: Vec<char> = Vec::new();
    open_pat.push('<');
    let mut k: usize = 0;
    while k < t.len()
        invariant
            t@ == tag@,
            k <= t@.len(),
            open_pat@ == seq!['<'] + t@.subrange(0, k as int),
        decreases t@.len() - k,
    {
        open_pat.push(t[k]);
        k = k + 1;
        proof {
            assert(open_pat@ =~= seq!['<'] + t@.subrange(0, k as int));
        }
    }
    proof {
        reveal_strlit("<");
        assert(t@.subrange(0, t@.len() as int) =~= t@);
        assert(open_pat@ =~= "<"@ + tag@);
    }
    let mut close_pat: Vec<char> = Vec::new();
    close_pat.push('<');
    close_pat.push('/');
    let mut k2: usize = 0;
    while k2 < t.len()
        invariant
            t@ == tag@,
            k2 <= t@.len(),
            close_pat@ == seq!['<', '/'] + t@.subrange(0, k2 as int),
        decreases t@.len() - k2,
    {
        close_pat.push(t[k2]);
        k2 = k2 + 1;
        proof {
            assert(close_pat@ =~= seq!['<', '/'] + t@.subrange(0, k2 as int));
        }
    }
    close_pat.push('>');
    proof {
        reveal_strlit("</");
        reveal_strlit(">");
        assert(t@.subrange(0, t@.len() as int) =~= t@);
        assert(close_pat@ =~= close_tag(tag@));
    }
    let mut out: Vec<char> = Vec::new();
    let mut i: usize = 0;
    while i < s.len()
        invariant
            s@ == text@,
            t@ == tag@,
            open_pat@ == "<"@ + tag@,
            open_pat@.len() == tag@.len() + 1,
            close_pat@ == close_tag(tag@),
            close_pat@.len() == tag@.len() + 3,
            i <= s@.len(),
            out@ + strip_elem_from(s@, t@, i as int) == strip_elem_from(s@, t@, 0),
        decreases s@.len() - i,
    {
        let ghost prev_i = i as int;
        let open_here = chars_match_at(&s, &open_pat, i) && s.len() - i > open_pat.len()
            && crate::xhtml::tag_delim_char(&s, i + open_pat.len());
        proof {
            assert(open_here == elem_open_at(s@, t@, prev_i));
        }
        let close_opt: Option<usize> = if open_here {
            chars_find_at(&s, &close_pat, i)
        } else {
            None
        };
        let mut advanced = false;
        if open_here {
            match close_opt {
                Some(c) => {
                    proof {
                        lemma_find_at_bounds(s@, close_tag(tag@), prev_i);
                    }
                    i = c + close_pat.len();
                    advanced = true;
                    proof {
                        assert(strip_elem_from(s@, t@, prev_i) == strip_elem_from(
                            s@,
                            t@,
                            i as int,
                        ));
                    }
                },
                None => {},
            }
        }
        if !advanced {
            proof {
                assert(!(elem_open_at(s@, t@, prev_i) && find_at(s@, close_tag(tag@), prev_i)
                    is Some));
                assert(strip_elem_from(s@, t@, prev_i) == seq![s@[prev_i]] + strip_elem_from(
                    s@,
                    t@,
                    prev_i + 1,
                ));
            }
            out.push(s[i]);
            i = i + 1;
            proof {
                assert(out@ + strip_elem_from(s@, t@, i as int) =~= strip_elem_from(s@, t@, 0));
            }
        }
    }
    proof {
        assert(out@ =~= strip_elem_from(s@, t@, 0));
    }
    from_chars(&out)
}

/// The characters with leading and trailing whitespace removed, at
/// runtime.
fn trim_chars(v: &Vec<char>) -> (r: Vec<char>)
    ensures
        r@ == trimmed(v@),
{
    let a = chars_run_of_spaces(v, 0);
    let mut b: usize = v.len();
    while b > 0 && space_char(v[b - 1])
        invariant
            b <= v@.len(),
            end_of_trim(v@, v@.len() as int) == end_of_trim(v@, b as int),
        decreases b,
    {
        b = b - 1;
    }
    proof {
        assert(end_of_trim(v@, b as int) == b as int);
    }
    let mut out: Vec<char> = Vec::new();
    if a <= b {
        push_range(&mut out, v, a, b);
        proof {
            assert(out@ =~= trimmed(v@));
        }
    } else {
        proof {
            assert(out@ =~= trimmed(v@));
        }
    }
    out
}

/// The position of the next `<` at or after `i`, at runtime.
fn next_lt_exec(s: &Vec<char>, i: usize) -> (r: usize)
    requires
        i <= s@.len(),
    ensures
        r as int == next_lt(s@, i as int),
        i <= r <= s@.len(),
        (i < s@.len() && s@[i as int] != '<') ==> r > i,
{
    let mut j: usize = i;
    while j < s.len() && s[j] != '<'
        invariant
            i <= j <= s@.len(),
            next_lt(s@, i as int) == next_lt(s@, j as int),
        decreases s@.len() - j,
    {
        j = j + 1;
    }
    proof {
        assert(next_lt(s@, j as int) == j as int);
        if i < s@.len() && s@[i as int] != '<' {
            lemma_next_lt_bounds(s@, i + 1);
        }
    }
    j
}

/// The pull-parsed text of one block, at runtime, mirroring
/// [`inner_concat`].
fn inner_concat_chars(body: &Vec<char>, gt_pat: &Vec<char>) -> (r: Vec<char>)
    requires
        gt_pat@ == ">"@,
        gt_pat@.len() == 1,
    ensures
        r@ == inner_concat(body@, 0),
{
    let mut out: Vec<char> = Vec::new();
    let mut j: usize = 0;
    proof {
        assert(out@ + inner_concat(body@, 0) =~= inner_concat(body@, 0));
    }
    while j < body.len()
        invariant
            gt_pat@ == ">"@,
            gt_pat@.len() == 1,
            j <= body@.len(),
            out@ + inner_concat(body@, j as int) == inner_concat(body@, 0),
        decreases body@.len() - j,
    {
        let ghost prev_j = j as int;
        if body[j] == '<' {
            match chars_find_at(body, gt_pat, j) {
                Some(g) => {
                    proof {
                        lemma_find_at_bounds(body@, ">"@, prev_j);
                    }
                    j = g + 1;
                    proof {
                        assert(inner_concat(body@, prev_j) == inner_concat(body@, j as int));
                    }
                },
                None => {
                    proof {
                        assert(inner_concat(body@, prev_j) =~= Seq::<char>::empty());
                    }
                    j = body.len();
                    proof {
                        assert(out@ + inner_concat(body@, j as int) =~= inner_concat(body@, 0));
                    }
                },
            }
        } else {
            let e = next_lt_exec(body, j);
            let mut chunk: Vec<char> = Vec::new();
            push_range(&mut chunk, body, j, e);
            proof {
                assert(chunk@ =~= body@.subrange(prev_j, e as int));
            }
            let t = trim_chars(&chunk);
            push_range(&mut out, &t, 0, t.len());
            j = e;
            proof {
                assert(t@.subrange(0, t@.len() as int) =~= t@);
                assert(inner_concat(body@, prev_j) == trimmed(
                    body@.subrange(prev_j, next_lt(body@, prev_j)),
                ) + inner_concat(body@, next_lt(body@, prev_j)));
                assert(out@ + inner_concat(body@, j as int) =~= inner_concat(body@, 0));
            }
        }
    }
    proof {
        assert(out@ =~= inner_concat(body@, 0));
    }
    out
}

/// Converts tag-stripped XHTML to its markdown items and joins them with
/// newlines, mirroring [`items_from`].
fn markdown_scan(text: &str) -> (r: String)
    ensures
        r@ == joined_with(items_from(text@, 0), "\n"@, items_from(text@, 0).len() as int),
{
    let s = to_chars(text);
    let gt_pat = to_chars(">");
    let p_pat = to_chars("<p");
    let p_close = to_chars("</p>");
    proof {
        reveal_strlit(">");
        reveal_strlit("</p>");
        reveal_strlit("<p");
        reveal_strlit("p");
        reveal_strlit("<");
    }
    let mut items: Vec<String> = Vec::new();
    let mut i: usize = 0;
    proof {
        assert(views_of(items@) + items_from(s@, 0) =~= items_from(s@, 0));
    }
    while i < s.len()
        invariant
            s@ == text@,
            gt_pat@ == ">"@,
            gt_pat@.len() == 1,
            p_pat@ == "<p"@,
            p_pat@.len() == 2,
            p_pat@ == "<"@ + "p"@,
            "p"@.len() == 1,
            "<"@.len() == 1,
            p_close@ == "</p>"@,
            p_close@.len() == 4,
            i <= s@.len(),
            views_of(items@) + items_from(s@, i as int) == items_from(s@, 0),
        decreases s@.len() - i,
    {
        let ghost prev_i = i as int;
        let level = heading_level(&s, i);
        let gt_opt = chars_find_at(&s, &gt_pat, i);
        proof {
            if gt_opt is Some {
                lemma_find_at_bounds(s@, ">"@, prev_i);
            }
        }
        let mut hclose: Option<usize> = None;
        let mut hclose_len: usize = 0;
        if level > 0 {
            match gt_opt {
                Some(gt) => {
                    let close = heading_close(level);
                    let close_chars = to_chars(close);
                    proof {
                        assert(close_chars@ == h_close(level as int));
                        assert(h_close(level as int).len() == 5) by {
                            reveal_strlit("</h1>");
                            reveal_strlit("</h2>");
                            reveal_strlit("</h3>");
                            reveal_strlit("</h4>");
                            reveal_strlit("</h5>");
                            reveal_strlit("</h6>");
                        }
                    }
                    hclose = chars_find_at(&s, &close_chars, gt + 1);
                    hclose_len = close_chars.len();
                },
                None => {},
            }
        }
        let ghost branch1 = heading_at(s@, prev_i) > 0 && find_at(s@, ">"@, prev_i) is Some
            && find_at(
            s@,
            h_close(heading_at(s@, prev_i)),
            find_at(s@, ">"@, prev_i)->0 + 1,
        ) is Some;
        proof {
            assert(hclose is Some <==> branch1);
        }
        let mut advanced = false;
        match hclose {
            Some(c) => {
                proof {
                    lemma_find_at_bounds(
                        s@,
                        h_close(level as int),
                        find_at(s@, ">"@, prev_i)->0 + 1,
                    );
                }
                let gt = match gt_opt {
                    Some(g) => g,
                    None => 0,
                };
                let mut body: Vec<char> = Vec::new();
                push_range(&mut body, &s, gt + 1, c);
                proof {
                    assert(body@ =~= s@.subrange(gt + 1, c as int));
                }
                let inner = inner_concat_chars(&body, &gt_pat);
                let mut item = String::from_str(hash_marks(level));
                item.append(" ");
                let inner_text = from_chars(&inner);
                item.append(inner_text.as_str());
                let ghost old_items = items@;
                items.push(item);
                i = c + hclose_len;
                advanced = true;
                proof {
                    assert(item@ == hashes(level as int) + " "@ + inner_concat(
                        s@.subrange(gt + 1, c as int),
                        0,
                    ));
                    assert(views_of(items@) =~= views_of(old_items).push(item@));
                    assert(views_of(items@) + items_from(s@, i as int) =~= items_from(s@, 0));
                }
            },
            None => {},
        }
        let p_here = chars_match_at(&s, &p_pat, i) && s.len() - i > 2
            && crate::xhtml::tag_delim_char(&s, i + 2);
        let mut pclose: Option<usize> = None;
        if !advanced && p_here {
            match gt_opt {
                Some(gt) => {
                    pclose = chars_find_at(&s, &p_close, gt + 1);
                },
                None => {},
            }
        }
        let ghost branch2 = !branch1 && elem_open_at(s@, "p"@, prev_i) && find_at(
            s@,
            ">"@,
            prev_i,
        ) is Some && find_at(s@, "</p>"@, find_at(s@, ">"@, prev_i)->0 + 1) is Some;
        if !advanced {
            proof {
                assert(!branch1);
                assert(p_here == elem_open_at(s@, "p"@, prev_i));
                assert(pclose is Some <==> branch2);
            }
            match pclose {
                Some(c) => {
                    proof {
                        lemma_find_at_bounds(s@, "</p>"@, find_at(s@, ">"@, prev_i)->0 + 1);
                    }
                    let gt = match gt_opt {
                        Some(g) => g,
                        None => 0,
                    };
                    let mut body: Vec<char> = Vec::new();
                    push_range(&mut body, &s, gt + 1, c);
                    proof {
                        assert(body@ =~= s@.subrange(gt + 1, c as int));
                    }
                    let inner = inner_concat_chars(&body, &gt_pat);
                    let item = from_chars(&inner);
                    let ghost old_items = items@;
                    items.push(item);
                    i = c + 4;
                    advanced = true;
                    proof {
                        assert(item@ == inner_concat(s@.subrange(gt + 1, c as int), 0));
                        assert(views_of(items@) =~= views_of(old_items).push(item@));
                        assert(views_of(items@) + items_from(s@, i as int) =~= items_from(
                            s@,
                            0,
                        ));
                    }
                },
                None => {},
            }
        }
        if !advanced && s[i] == '<' {
            match gt_opt {
                Some(g) => {
                    i = g + 1;
                    advanced = true;
                    proof {
                        assert(!branch1 && !branch2);
                        assert(items_from(s@, prev_i) == items_from(s@, i as int));
                    }
                },
                None => {
                    // A `<` with no closing `>`: the trimmed tail is the
                    // last item.
                    let mut chunk: Vec<char> = Vec::new();
                    push_range(&mut chunk, &s, i, s.len());
                    proof {
                        assert(chunk@ =~= s@.skip(prev_i));
                    }
                    let t = trim_chars(&chunk);
                    let ghost old_items = items@;
                    if t.len() > 0 {
                        items.push(from_chars(&t));
                        proof {
                            assert(views_of(items@) =~= views_of(old_items).push(t@));
                        }
                    }
                    i = s.len();
                    advanced = true;
                    proof {
                        assert(!branch1 && !branch2);
                        assert(items_from(s@, prev_i) == (if trimmed(s@.skip(prev_i)).len()
                            > 0 {
                            seq![trimmed(s@.skip(prev_i))]
                        } else {
                            Seq::<Seq<char>>::empty()
                        }));
                        assert(views_of(items@) + items_from(s@, i as int) =~= items_from(
                            s@,
                            0,
                        ));
                    }
                },
            }
        }
        if !advanced {
            let e = next_lt_exec(&s, i);
            let mut chunk: Vec<char> = Vec::new();
            push_range(&mut chunk, &s, i, e);
            proof {
                assert(chunk@ =~= s@.subrange(prev_i, e as int));
            }
            let t = trim_chars(&chunk);
            let ghost old_items = items@;
            if t.len() > 0 {
                items.push(from_chars(&t));
                proof {
                    assert(views_of(items@) =~= views_of(old_items).push(t@));
                }
            }
            i = e;
            proof {
                if heading_at(s@, prev_i) > 0 {
                    lemma_heading_starts_lt(s@, prev_i);
                }
                if elem_open_at(s@, "p"@, prev_i) {
                    lemma_open_starts_lt(s@, "p"@, prev_i);
                }
                assert(items_from(s@, prev_i) == (if trimmed(
                    s@.subrange(prev_i, next_lt(s@, prev_i)),
                ).len() > 0 {
                    seq![trimmed(s@.subrange(prev_i, next_lt(s@, prev_i)))]
                } else {
                    Seq::<Seq<char>>::empty()
                }) + items_from(s@, next_lt(s@, prev_i)));
                assert(views_of(items@) + items_from(s@, i as int) =~= items_from(s@, 0));
            }
        }
    }
    proof {
        assert(views_of(items@) =~= items_from(s@, 0));
    }
    join_strings_newline(&items)
}

/// Joins the items with newlines.
fn join_strings_newline(items: &Vec<String>) -> (r: String)
    ensures
        r@ == joined_with(views_of(items@), "\n"@, items@.len() as int),
{
    crate::partition::join_strings(items, "\n")
}

/// The heading level opening at `i`, at runtime.
fn heading_level(s: &Vec<char>, i: usize) -> (r: usize)
    requires
        i < s@.len(),
    ensures
        r as int == heading_at(s@, i as int),
        r <= 6,
{
    proof {
        reveal_strlit("<h1");
        reveal_strlit("<h2");
        reveal_strlit("<h3");
        reveal_strlit("<h4");
        reveal_strlit("<h5");
        reveal_strlit("<h6");
        reveal_strlit("<");
        reveal_strlit("h1");
        reveal_strlit("h2");
        reveal_strlit("h3");
        reveal_strlit("h4");
        reveal_strlit("h5");
        reveal_strlit("h6");
        assert("<"@ + "h1"@ =~= "<h1"@);
        assert("<"@ + "h2"@ =~= "<h2"@);
        assert("<"@ + "h3"@ =~= "<h3"@);
        assert("<"@ + "h4"@ =~= "<h4"@);
        assert("<"@ + "h5"@ =~= "<h5"@);
        assert("<"@ + "h6"@ =~= "<h6"@);
    }
    if heading_open(s, i, "<h1") {
        1
    } else if heading_open(s, i, "<h2") {
        2
    } else if heading_open(s, i, "<h3") {
        3
    } else if heading_open(s, i, "<h4") {
        4
    } else if heading_open(s, i, "<h5") {
        5
    } else if heading_open(s, i, "<h6") {
        6
    } else {
        0
    }
}

/// Whether the three-character opening pattern starts an element at `i`.
fn heading_open(s: &Vec<char>, i: usize, pat: &str) -> (r: bool)
    requires
        pat@.len() == 3,
    ensures
        r == (matches_at(s@, pat@, i as int) && i + 3 < s@.len() && tag_delim(s@[i as int + 3])),
{
    let p = to_chars(pat);
    chars_match_at(s, &p, i) && s.len() - i > 3 && crate::xhtml::tag_delim_char(&s, i + 3)
}

/// The closing tag of a heading level, at runtime.
fn heading_close(level: usize) -> (r: &'static str)
    requires
        1 <= level <= 6,
    ensures
        r@ == h_close(level as int),
{
    if level == 1 {
        "</h1>"
    } else if level == 2 {
        "</h2>"
    } else if level == 3 {
        "</h3>"
    } else if level == 4 {
        "</h4>"
    } else if level == 5 {
        "</h5>"
    } else {
        "</h6>"
    }
}

/// The markdown heading marker for a level.
fn hash_marks(level: usize) -> (r: &'static str)
    requires
        1 <= level <= 6,
    ensures
        r@ == hashes(level as int),
{
    proof {
        reveal_strlit("#");
        reveal_strlit("##");
        reveal_strlit("###");
        reveal_strlit("####");
        reveal_strlit("#####");
        reveal_strlit("######");
    }
    if level == 1 {
        "#"
    } else if level == 2 {
        "##"
    } else if level == 3 {
        "###"
    } else if level == 4 {
        "####"
    } else if level == 5 {
        "#####"
    } else {
        "######"
    }
}

/// The transcoder over a configurable set of skipped elements; `style` and
/// `script` elements are always removed.
#[derive(Debug, Clone)]
pub struct XmlConverter {
    pub skip: Vec<String>,
}

impl XmlConverter {
    /// A converter skipping the given element names.
    pub fn new(skip: Vec<String>) -> (r: XmlConverter)
        ensures
            r.skip == skip,
    {
        XmlConverter { skip }
    }

    /// The element names removed before conversion: the configured ones,
    /// then `style` and `script`.
    pub open spec fn removed_tags(self) -> Seq<Seq<char>> {
        crate::partition::views_of(self.skip@) + seq!["style"@, "script"@]
    }

    /// Converts an XHTML document to markdown: the configured elements and
    /// every `style` and `script` element are removed with their contents,
    /// then headings become `#`..`######` items and paragraphs plain text
    /// items (each block's text nodes trimmed and run together, as a pull
    /// parser reads them), trimmed bare text between tags is an item of its
    /// own, every other tag vanishes, and the items are joined by newlines.
    pub fn convert(&self, html: &str) -> (r: String)
        ensures
            ({
                let items = items_from(strip_all(html@, self.removed_tags(), 0), 0);
                r@ == joined_with(items, "\n"@, items.len() as int)
            }),
    {
        let mut cur = String::from_str(html);
        let mut k: usize = 0;
        while k < self.skip.len()
            invariant
                k <= self.skip@.len(),
                cur@ == partial_strip(html@, self.removed_tags(), k as int),
            decreases self.skip@.len() - k,
        {
            proof {
                assert(self.removed_tags()[k as int] == self.skip@[k as int]@);
            }
            let stripped = strip_elements(cur.as_str(), self.skip[k].as_str());
            cur = stripped;
            k = k + 1;
        }
        proof {
            assert(self.removed_tags()[self.skip@.len() as int] == "style"@);
            assert(self.removed_tags()[(self.skip@.len() + 1) as int] == "script"@);
            assert(self.removed_tags().len() == self.skip@.len() + 2);
        }
        let stripped_style = strip_elements(cur.as_str(), "style");
        proof {
            assert(stripped_style@ == partial_strip(
                html@,
                self.removed_tags(),
                (self.skip@.len() + 1) as int,
            ));
        }
        let stripped_script = strip_elements(stripped_style.as_str(), "script");
        proof {
            assert(stripped_script@ == partial_strip(
                html@,
                self.removed_tags(),
                (self.skip@.len() + 2) as int,
            ));
            assert(stripped_script@ == partial_strip(
                html@,
                self.removed_tags(),
                self.removed_tags().len() as int,
            ));
            lemma_partial_strip_complete(html@, self.removed_tags());
        }
        markdown_scan(stripped_script.as_str())
    }
}

/// The document after the first `k` removals.
pub open spec fn partial_strip(s: Seq<char>, tags: Seq<Seq<char>>, k: int) -> Seq<char>
    decreases k,
{
    if k <= 0 {
        s
    } else {
        strip_elem_from(partial_strip(s, tags, k - 1), tags[k - 1], 0)
    }
}

/// Applying all removals one after the other is the same fold, whichever
/// end it is unrolled from.
proof fn lemma_partial_strip_complete(s: Seq<char>, tags: Seq<Seq<char>>)
    ensures
        partial_strip(s, tags, tags.len() as int) == strip_all(s, tags, 0),
{
    lemma_partial_strip_general(s, tags, 0);
}

/// The suffix fold from `k` over the prefix fold to `k` completes the
/// whole fold.
proof fn lemma_partial_strip_general(s: Seq<char>, tags: Seq<Seq<char>>, k: int)
    requires
        0 <= k <= tags.len(),
    ensures
        strip_all(partial_strip(s, tags, k), tags, k) == partial_strip(
            s,
            tags,
            tags.len() as int,
        ),
    decreases tags.len() - k,
{
    if k < tags.len() {
        lemma_partial_strip_general(s, tags, k + 1);
    }
}

} // verus!
