//! The language-ratio heuristic that classifies a finished page: the share
//! of ASCII-alphanumeric characters among all non-whitespace characters.

use crate::text::{ascii_alnum_char, is_ascii_alnum_char, is_space_char, space_char, to_chars};
use vstd::prelude::*;

verus! {

/// How many characters from position `i` on are not whitespace.
pub open spec fn nonspace_from(s: Seq<char>, i: int) -> nat
    decreases s.len() - i,
{
    if i < 0 || i >= s.len() {
        0
    } else if is_space_char(s[i]) {
        nonspace_from(s, i + 1)
    } else {
        1 + nonspace_from(s, i + 1)
    }
}

/// How many characters from position `i` on are ASCII letters or digits.
pub open spec fn alnum_from(s: Seq<char>, i: int) -> nat
    decreases s.len() - i,
{
    if i < 0 || i >= s.len() {
        0
    } else if is_ascii_alnum_char(s[i]) {
        1 + alnum_from(s, i + 1)
    } else {
        alnum_from(s, i + 1)
    }
}

/// The text has at least one non-whitespace character, and at least
/// `min_percent` of every hundred non-whitespace characters are ASCII
/// letters or digits.
pub open spec fn passes_language_ratio(s: Seq<char>, min_percent: nat) -> bool {
    let t = nonspace_from(s, 0);
    let a = alnum_from(s, 0);
    t > 0 && a * 100 >= min_percent * t
}

/// Decides whether the text passes the language-ratio heuristic at the given
/// minimum percentage: among its non-whitespace characters (of which there
/// must be at least one) the share of ASCII letters and digits reaches
/// `min` percent.
pub fn check_english_chars(text: &str, min: u32) -> (r: bool)
    ensures
        r == passes_language_ratio(text@, min as nat),
{
    let chars = to_chars(text);
    let mut t: usize = 0;
    let mut a: usize = 0;
    let mut i: usize = 0;
    while i < chars.len()
        invariant
            chars@ == text@,
            i <= chars@.len(),
            t + nonspace_from(chars@, i as int) == nonspace_from(chars@, 0),
            a + alnum_from(chars@, i as int) == alnum_from(chars@, 0),
            t <= i,
            a <= i,
        decreases chars@.len() - i,
    {
        let c = chars[i];
        if !space_char(c) {
            t = t + 1;
        }
        if ascii_alnum_char(c) {
            a = a + 1;
        }
        i = i + 1;
    }
    proof {
        assert((min as u128) * (t as u128) <= 0xffff_ffffu128 * 0xffff_ffff_ffff_ffffu128)
            by (nonlinear_arith)
            requires
                min as u128 <= 0xffff_ffffu128,
                t as u128 <= 0xffff_ffff_ffff_ffffu128,
        ;
    }
    t > 0 && (a as u128) * 100 >= (min as u128) * (t as u128)
}

} // verus!
