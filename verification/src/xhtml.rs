//! Image-path rewriting: walks `<img src=...>` and `<image xlink:href=...>`
//! tags in an XHTML chapter and repoints each path at the rebuilt archive's
//! image folder, keeping the file name and leaving all other markup
//! untouched.

use crate::paths::{after_last_slash, file_name_of};
use crate::tags::{chars_find_at, chars_match_at, find_at, lemma_find_at_bounds, matches_at};
use crate::text::{from_chars, is_space_char, space_char, to_chars};
use vstd::prelude::*;

verus! {

/// A character that may follow a tag name inside a tag.
pub open spec fn tag_delim(c: char) -> bool {
    is_space_char(c) || c == '/' || c == '>'
}

/// An `<img ...>` tag starts at `i`.
pub open spec fn img_tag_at(s: Seq<char>, i: int) -> bool {
    matches_at(s, "<img"@, i) && i + 4 < s.len() && tag_delim(s[i + 4])
}

/// An `<image ...>` tag starts at `i`.
pub open spec fn image_tag_at(s: Seq<char>, i: int) -> bool {
    matches_at(s, "<image"@, i) && i + 6 < s.len() && tag_delim(s[i + 6])
}

/// One tag with its link attribute's value replaced by the base folder, a
/// slash, and the value's file name; a tag without the attribute (or with
/// an unterminated value) is left alone.
pub open spec fn rewritten_tag(tag: Seq<char>, attr_pat: Seq<char>, base: Seq<char>) -> Seq<char> {
    if find_at(tag, attr_pat, 0) is Some {
        let v = find_at(tag, attr_pat, 0)->0 + attr_pat.len();
        if find_at(tag, "\""@, v) is Some {
            let q = find_at(tag, "\""@, v)->0;
            tag.take(v) + base + "/"@ + file_name_of(tag.subrange(v, q)) + tag.skip(q)
        } else {
            tag
        }
    } else {
        tag
    }
}

/// The text from position `i` on with the link attribute of every image
/// tag rewritten to point below `base`; all other text is kept verbatim.
pub open spec fn rewrite_from(s: Seq<char>, base: Seq<char>, i: int) -> Seq<char>
    decreases s.len() - i,
    via rewrite_from_decreases
{
    if i < 0 || i >= s.len() {
        Seq::empty()
    } else if (img_tag_at(s, i) || image_tag_at(s, i)) && find_at(s, ">"@, i) is Some {
        let e = find_at(s, ">"@, i)->0;
        let attr_pat = if image_tag_at(s, i) {
            "xlink:href=\""@
        } else {
            "src=\""@
        };
        rewritten_tag(s.subrange(i, e + 1), attr_pat, base) + rewrite_from(s, base, e + 1)
    } else {
        seq![s[i]] + rewrite_from(s, base, i + 1)
    }
}

#[via_fn]
proof fn rewrite_from_decreases(s: Seq<char>, base: Seq<char>, i: int) {
    if 0 <= i < s.len() && (img_tag_at(s, i) || image_tag_at(s, i)) && find_at(s, ">"@, i)
        is Some {
        reveal_strlit(">");
        lemma_find_at_bounds(s, ">"@, i);
    }
}

/// Appends `s[a .. b]` to the buffer.
pub(crate) fn push_range(out: &mut Vec<char>, s: &Vec<char>, a: usize, b: usize)
    requires
        a <= b <= s@.len(),
    ensures
        final(out)@ == old(out)@ + s@.subrange(a as int, b as int),
{
    let mut j: usize = a;
    while j < b
        invariant
            a <= j <= b <= s@.len(),
            out@ == old(out)@ + s@.subrange(a as int, j as int),
        decreases b - j,
    {
        out.push(s[j]);
        j = j + 1;
        proof {
            assert(out@ =~= old(out)@ + s@.subrange(a as int, j as int));
        }
    }
}

/// Appends the file name of `s[a .. b]` — everything after its last `/` —
/// to the buffer.
pub(crate) fn push_file_name_range(out: &mut Vec<char>, s: &Vec<char>, a: usize, b: usize)
    requires
        a <= b <= s@.len(),
    ensures
        final(out)@ == old(out)@ + file_name_of(s@.subrange(a as int, b as int)),
{
    let ghost sub = s@.subrange(a as int, b as int);
    let mut j: usize = b;
    while j > a && s[j - 1] != '/'
        invariant
            a <= j <= b <= s@.len(),
            sub == s@.subrange(a as int, b as int),
            after_last_slash(sub, (b - a) as int) == after_last_slash(sub, (j - a) as int),
        decreases j,
    {
        j = j - 1;
    }
    proof {
        crate::paths::lemma_after_last_slash_bounds(sub, (b - a) as int);
        assert(after_last_slash(sub, (j - a) as int) == (j - a) as int);
        assert(sub.skip((j - a) as int) =~= s@.subrange(j as int, b as int));
    }
    push_range(out, s, j, b);
}

/// Runtime rewriting of one tag, mirroring [`rewritten_tag`].
fn rewrite_tag_chars(tag: &Vec<char>, attr_pat: &Vec<char>, base: &Vec<char>) -> (r: Vec<char>)
    requires
        attr_pat@.len() > 0,
    ensures
        r@ == rewritten_tag(tag@, attr_pat@, base@),
{
    let mut out: Vec<char> = Vec::new();
    let k = match chars_find_at(tag, attr_pat, 0) {
        Some(k) => k,
        None => {
            push_range(&mut out, tag, 0, tag.len());
            proof {
                assert(out@ =~= tag@);
            }
            return out;
        },
    };
    proof {
        lemma_find_at_bounds(tag@, attr_pat@, 0);
        assert(k + attr_pat@.len() <= tag.len());
    }
    let v = k + attr_pat.len();
    let mut qpat: Vec<char> = Vec::new();
    qpat.push('"');
    proof {
        reveal_strlit("\"");
        assert(qpat@ =~= "\""@);
    }
    let q = match chars_find_at(tag, &qpat, v) {
        Some(q) => q,
        None => {
            push_range(&mut out, tag, 0, tag.len());
            proof {
                assert(out@ =~= tag@);
            }
            return out;
        },
    };
    proof {
        lemma_find_at_bounds(tag@, "\""@, v as int);
    }
    push_range(&mut out, tag, 0, v);
    push_range(&mut out, base, 0, base.len());
    out.push('/');
    push_file_name_range(&mut out, tag, v, q);
    push_range(&mut out, tag, q, tag.len());
    proof {
        reveal_strlit("/");
        assert(base@.subrange(0, base@.len() as int) =~= base@);
        assert(tag@.subrange(0, v as int) =~= tag@.take(v as int));
        assert(tag@.subrange(q as int, tag@.len() as int) =~= tag@.skip(q as int));
        assert(out@ =~= rewritten_tag(tag@, attr_pat@, base@));
    }
    out
}

/// Rewrites the link attribute of every `<img>` (its `src`) and `<image>`
/// (its `xlink:href`) tag so the path points at `base/<original file
/// name>`; every other tag and all other text are left untouched.
pub fn rewrite_image_paths(xml: &str, base: &str) -> (r: String)
    ensures
        r@ == rewrite_from(xml@, base@, 0),
{
    let s = to_chars(xml);
    let b = to_chars(base);
    let img_pat = to_chars("<img");
    let image_pat = to_chars("<image");
    let gt_pat = to_chars(">");
    let src_pat = to_chars("src=\"");
    let href_pat = to_chars("xlink:href=\"");
    proof {
        reveal_strlit(">");
        reveal_strlit("src=\"");
        reveal_strlit("xlink:href=\"");
    }
    let mut out: Vec<char> = Vec::new();
    let mut i: usize = 0;
    while i < s.len()
        invariant
            s@ == xml@,
            b@ == base@,
            img_pat@ == "<img"@,
            image_pat@ == "<image"@,
            gt_pat@ == ">"@,
            gt_pat@.len() == 1,
            src_pat@ == "src=\""@,
            src_pat@.len() == 5,
            href_pat@ == "xlink:href=\""@,
            href_pat@.len() == 12,
            i <= s@.len(),
            out@ + rewrite_from(s@, b@, i as int) == rewrite_from(s@, b@, 0),
        decreases s@.len() - i,
    {
        let ghost prev_i = i as int;
        let is_image = chars_match_at(&s, &image_pat, i) && s.len() - i > 6 && tag_delim_char(
            &s,
            i + 6,
        );
        let is_img = chars_match_at(&s, &img_pat, i) && s.len() - i > 4 && tag_delim_char(&s, i + 4);
        let mut advanced = false;
        if is_img || is_image {
            match chars_find_at(&s, &gt_pat, i) {
                Some(e) => {
                    proof {
                        lemma_find_at_bounds(s@, ">"@, i as int);
                    }
                    let mut tag: Vec<char> = Vec::new();
                    push_range(&mut tag, &s, i, e + 1);
                    proof {
                        assert(tag@ =~= s@.subrange(prev_i, e + 1));
                    }
                    let rewritten = if is_image {
                        rewrite_tag_chars(&tag, &href_pat, &b)
                    } else {
                        rewrite_tag_chars(&tag, &src_pat, &b)
                    };
                    let mut k: usize = 0;
                    proof {
                        assert(out@ + rewritten@.subrange(0, 0) =~= out@);
                    }
                    let ghost out0 = out@;
                    while k < rewritten.len()
                        invariant
                            k <= rewritten@.len(),
                            out@ == out0 + rewritten@.subrange(0, k as int),
                        decreases rewritten@.len() - k,
                    {
                        out.push(rewritten[k]);
                        k = k + 1;
                        proof {
                            assert(out@ =~= out0 + rewritten@.subrange(0, k as int));
                        }
                    }
                    proof {
                        assert(rewritten@.subrange(0, rewritten@.len() as int) =~= rewritten@);
                    }
                    i = e + 1;
                    advanced = true;
                    proof {
                        assert(rewrite_from(s@, b@, prev_i) == rewritten@ + rewrite_from(
                            s@,
                            b@,
                            i as int,
                        ));
                        assert(out@ + rewrite_from(s@, b@, i as int) =~= rewrite_from(s@, b@, 0));
                    }
                },
                None => {},
            }
        }
        if !advanced {
            proof {
                assert(!((img_tag_at(s@, prev_i) || image_tag_at(s@, prev_i)) && find_at(
                    s@,
                    ">"@,
                    prev_i,
                ) is Some));
                assert(rewrite_from(s@, b@, prev_i) == seq![s@[prev_i]] + rewrite_from(
                    s@,
                    b@,
                    prev_i + 1,
                ));
            }
            out.push(s[i]);
            i = i + 1;
            proof {
                assert(out@ + rewrite_from(s@, b@, i as int) =~= rewrite_from(s@, b@, 0));
            }
        }
    }
    proof {
        assert(out@ =~= rewrite_from(s@, b@, 0));
    }
    from_chars(&out)
}

/// Runtime test for [`tag_delim`] at a position.
pub(crate) fn tag_delim_char(s: &Vec<char>, i: usize) -> (r: bool)
    requires
        i < s@.len(),
    ensures
        r == tag_delim(s@[i as int]),
{
    let c = s[i];
    space_char(c) || c == '/' || c == '>'
}

/// The default image folder the builder rewrites chapter images into.
pub fn update_image_paths(xml: &str) -> (r: String)
    ensures
        r@ == rewrite_from(xml@, "../Images"@, 0),
{
    rewrite_image_paths(xml, "../Images")
}

/// Text in which no image tag starts passes through the rewriter unchanged.
pub proof fn lemma_rewrite_absent_is_identity(s: Seq<char>, base: Seq<char>, i: int)
    requires
        0 <= i <= s.len(),
        forall|j: int| !img_tag_at(s, j) && !image_tag_at(s, j),
    ensures
        rewrite_from(s, base, i) == s.skip(i),
    decreases s.len() - i,
{
    if i >= s.len() {
        assert(rewrite_from(s, base, i) =~= s.skip(i));
    } else {
        lemma_rewrite_absent_is_identity(s, base, i + 1);
        assert(rewrite_from(s, base, i) == seq![s[i]] + s.skip(i + 1));
        assert(seq![s[i]] + s.skip(i + 1) =~= s.skip(i));
    }
}

} // verus!
