//! Character-level utilities: conversions between `String` and `Vec<char>`,
//! character classification, quotation-mark folding and XML escaping.

use vstd::prelude::*;

verus! {

/// The sentence terminator the partitioner splits on: the ideographic full
/// stop, U+3002.
pub open spec fn is_terminator(c: char) -> bool {
    c == '\u{3002}'
}

/// The Unicode White_Space code points, as documented for `char::is_whitespace`.
pub open spec fn is_space_char(c: char) -> bool {
    let u = c as u32;
    ||| (0x09 <= u && u <= 0x0d)
    ||| u == 0x20
    ||| u == 0x85
    ||| u == 0xa0
    ||| u == 0x1680
    ||| (0x2000 <= u && u <= 0x200a)
    ||| u == 0x2028
    ||| u == 0x2029
    ||| u == 0x202f
    ||| u == 0x205f
    ||| u == 0x3000
}

/// ASCII letters and digits.
pub open spec fn is_ascii_alnum_char(c: char) -> bool {
    let u = c as u32;
    ||| (0x30 <= u && u <= 0x39)
    ||| (0x41 <= u && u <= 0x5a)
    ||| (0x61 <= u && u <= 0x7a)
}

/// Runtime test for [`is_terminator`].
pub fn terminator(c: char) -> (r: bool)
    ensures
        r == is_terminator(c),
{
    c == '\u{3002}'
}

/// Runtime test for [`is_space_char`].
pub fn space_char(c: char) -> (r: bool)
    ensures
        r == is_space_char(c),
{
    let u = c as u32;
    (0x09 <= u && u <= 0x0d) || u == 0x20 || u == 0x85 || u == 0xa0 || u == 0x1680 || (0x2000 <= u
        && u <= 0x200a) || u == 0x2028 || u == 0x2029 || u == 0x202f || u == 0x205f || u == 0x3000
}

/// Runtime test for [`is_ascii_alnum_char`].
pub fn ascii_alnum_char(c: char) -> (r: bool)
    ensures
        r == is_ascii_alnum_char(c),
{
    let u = c as u32;
    (0x30 <= u && u <= 0x39) || (0x41 <= u && u <= 0x5a) || (0x61 <= u && u <= 0x7a)
}

/// Relies on std's `String::push`: appends the given character to the string.
#[verifier::external_body]
pub(crate) fn push_char(s: &mut String, c: char)
    ensures
        final(s)@ == old(s)@.push(c),
{
    s.push(c)
}

/// Collects the characters of a string slice into a vector.
pub fn to_chars(s: &str) -> (r: Vec<char>)
    ensures
        r@ == s@,
{
    let n = s.unicode_len();
    let mut r: Vec<char> = Vec::new();
    let mut i: usize = 0;
    while i < n
        invariant
            n == s@.len(),
            i <= n,
            r@ == s@.subrange(0, i as int),
        decreases n - i,
    {
        r.push(s.get_char(i));
        i = i + 1;
        proof {
            assert(r@ =~= s@.subrange(0, i as int));
        }
    }
    proof {
        assert(r@ =~= s@);
    }
    r
}

/// Builds a string from a vector of characters.
pub fn from_chars(v: &Vec<char>) -> (r: String)
    ensures
        r@ == v@,
{
    let mut r = String::new();
    let mut i: usize = 0;
    while i < v.len()
        invariant
            i <= v@.len(),
            r@ == v@.subrange(0, i as int),
        decreases v@.len() - i,
    {
        push_char(&mut r, v[i]);
        i = i + 1;
        proof {
            assert(r@ =~= v@.subrange(0, i as int));
        }
    }
    proof {
        assert(r@ =~= v@);
    }
    r
}

/// The curly Japanese quotation marks: the corner brackets U+300C through
/// U+300F.
pub open spec fn corner_quote(c: char) -> bool {
    c == '\u{300c}' || c == '\u{300d}' || c == '\u{300e}' || c == '\u{300f}'
}

/// Folds a curly Japanese quotation mark to a straight double quote and
/// leaves every other character alone.
pub open spec fn fold_quote(c: char) -> char {
    if corner_quote(c) {
        '"'
    } else {
        c
    }
}

/// Replaces the curly Japanese quotation marks (corner brackets, U+300C
/// through U+300F) with straight double quotes.
pub fn replace_jp_symbols(text: &str) -> (r: String)
    ensures
        r@ == text@.map_values(|c: char| fold_quote(c)),
{
    let chars = to_chars(text);
    let mut out: Vec<char> = Vec::new();
    let mut i: usize = 0;
    while i < chars.len()
        invariant
            chars@ == text@,
            i <= chars@.len(),
            out@ == chars@.subrange(0, i as int).map_values(|c: char| fold_quote(c)),
        decreases chars@.len() - i,
    {
        let c = chars[i];
        if c == '\u{300c}' || c == '\u{300d}' || c == '\u{300e}' || c == '\u{300f}' {
            out.push('"');
        } else {
            out.push(c);
        }
        i = i + 1;
        proof {
            assert(out@ =~= chars@.subrange(0, i as int).map_values(|c: char| fold_quote(c)));
        }
    }
    proof {
        assert(chars@.subrange(0, chars@.len() as int) =~= text@);
    }
    from_chars(&out)
}

} // verus!
