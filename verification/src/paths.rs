//! Resource-path helpers.  Paths inside an EPUB archive are plain
//! `/`-separated strings; these functions pick apart file names, stems and
//! extensions the way the builder matches chapters to markdown pages.

use crate::text::{from_chars, to_chars};
use vstd::prelude::*;

verus! {

/// The position right after the last `/` in `s` (scanning positions `j`
/// down to 1), or 0 when `s` holds no separator.
pub open spec fn after_last_slash(s: Seq<char>, j: int) -> int
    decreases j,
{
    if j <= 0 {
        0
    } else if s[j - 1] == '/' {
        j
    } else {
        after_last_slash(s, j - 1)
    }
}

/// The file name of a path: everything after the last `/`.
pub open spec fn file_name_of(s: Seq<char>) -> Seq<char> {
    s.skip(after_last_slash(s, s.len() as int))
}

/// The result of [`after_last_slash`] stays within the scanned range.
pub proof fn lemma_after_last_slash_bounds(s: Seq<char>, j: int)
    requires
        0 <= j <= s.len(),
    ensures
        0 <= after_last_slash(s, j) <= j,
    decreases j,
{
    if j > 0 && s[j - 1] != '/' {
        lemma_after_last_slash_bounds(s, j - 1);
    }
}

/// The position of the last `.` in `s` at position 1 or later (a leading
/// dot marks a hidden file, not an extension), scanning positions `j` down
/// to 2; the length of `s` when there is none.
pub open spec fn last_dot(s: Seq<char>, j: int) -> int
    decreases j,
{
    if j <= 1 {
        s.len() as int
    } else if s[j - 1] == '.' {
        j - 1
    } else {
        last_dot(s, j - 1)
    }
}

/// The result of [`last_dot`] lies between 1 and the length of `s`.
pub proof fn lemma_last_dot_bounds(s: Seq<char>, j: int)
    requires
        1 <= j <= s.len(),
    ensures
        1 <= last_dot(s, j) <= s.len(),
    decreases j,
{
    if j > 1 && s[j - 1] != '.' {
        lemma_last_dot_bounds(s, j - 1);
    }
}

/// The file stem of a file name: everything before its last `.` (keeping a
/// leading dot, which marks a hidden file rather than an extension).
pub open spec fn stem_of(name: Seq<char>) -> Seq<char> {
    if name.len() == 0 {
        name
    } else {
        name.take(last_dot(name, name.len() as int))
    }
}

/// Extracts the file name of a `/`-separated path.
pub fn file_name(path: &str) -> (r: String)
    ensures
        r@ == file_name_of(path@),
{
    let chars = to_chars(path);
    let mut j: usize = chars.len();
    while j > 0 && chars[j - 1] != '/'
        invariant
            chars@ == path@,
            j <= chars@.len(),
            after_last_slash(chars@, chars@.len() as int) == after_last_slash(chars@, j as int),
        decreases j,
    {
        j = j - 1;
    }
    let mut out: Vec<char> = Vec::new();
    let mut i: usize = j;
    proof {
        lemma_after_last_slash_bounds(chars@, chars@.len() as int);
        assert(after_last_slash(chars@, j as int) == j as int);
    }
    while i < chars.len()
        invariant
            chars@ == path@,
            j <= i <= chars@.len(),
            out@ == chars@.subrange(j as int, i as int),
        decreases chars@.len() - i,
    {
        out.push(chars[i]);
        i = i + 1;
        proof {
            assert(out@ =~= chars@.subrange(j as int, i as int));
        }
    }
    proof {
        assert(chars@.subrange(j as int, chars@.len() as int) =~= file_name_of(chars@));
    }
    from_chars(&out)
}

/// Extracts the file stem of a `/`-separated path: its file name with the
/// final extension removed.
pub fn file_stem(path: &str) -> (r: String)
    ensures
        r@ == stem_of(file_name_of(path@)),
{
    let name = file_name(path);
    let chars = to_chars(name.as_str());
    if chars.len() == 0 {
        return name;
    }
    let mut j: usize = chars.len();
    while j > 1 && chars[j - 1] != '.'
        invariant
            chars@ == name@,
            1 <= j <= chars@.len() || (j == chars@.len() && chars@.len() >= 1),
            j <= chars@.len(),
            j >= 1,
            last_dot(chars@, chars@.len() as int) == last_dot(chars@, j as int),
        decreases j,
    {
        j = j - 1;
    }
    let cut: usize = if j > 1 && chars[j - 1] == '.' {
        j - 1
    } else {
        chars.len()
    };
    proof {
        assert(cut as int == last_dot(chars@, chars@.len() as int));
    }
    let mut out: Vec<char> = Vec::new();
    let mut i: usize = 0;
    while i < cut
        invariant
            chars@ == name@,
            cut <= chars@.len(),
            i <= cut,
            out@ == chars@.subrange(0, i as int),
        decreases cut - i,
    {
        out.push(chars[i]);
        i = i + 1;
        proof {
            assert(out@ =~= chars@.subrange(0, i as int));
        }
    }
    proof {
        assert(chars@.subrange(0, cut as int) =~= stem_of(file_name_of(path@)));
    }
    from_chars(&out)
}

/// The markdown file name a chapter is saved under: its stem with the `.md`
/// extension.
pub fn to_md_name(path: &str) -> (r: String)
    ensures
        r@ == stem_of(file_name_of(path@)) + ".md"@,
{
    let mut out = file_stem(path);
    out.append(".md");
    out
}

/// The destination of a chapter inside the rebuilt archive: `Text/` plus
/// its original file name.
pub fn to_text_path(path: &str) -> (r: String)
    ensures
        r@ == "Text/"@ + file_name_of(path@),
{
    let mut out = String::from_str("Text/");
    let name = file_name(path);
    out.append(name.as_str());
    out
}

/// The destination of an image resource inside the rebuilt archive: the
/// given folder, a `/`, and the image's original file name.
pub fn to_image_path(folder: &str, path: &str) -> (r: String)
    ensures
        r@ == folder@ + "/"@ + file_name_of(path@),
{
    let mut out = String::from_str("");
    out.append(folder);
    out.append("/");
    let name = file_name(path);
    out.append(name.as_str());
    proof {
        reveal_strlit("");
        assert(Seq::<char>::empty() + folder@ + "/"@ + file_name_of(path@) =~= folder@ + "/"@
            + file_name_of(path@));
    }
    out
}

} // verus!
