//! Pages: the per-chapter unit of the translatable document, with the
//! activity state machine `Incomplete -> Active -> Complete | Error`.

use crate::heuristic::{check_english_chars, passes_language_ratio};
use crate::partition::{concat_all, lemma_concat_all_push, views_of};
use crate::text::from_chars;
use vstd::prelude::*;

verus! {

/// The translation state of one page.
///
/// A page is created `Incomplete`, becomes `Active` when translation starts,
/// and is evaluated to `Complete` or `Error` once every accumulated unit is
/// non-empty; cancellation mid-flight resets it to `Incomplete`.
#[derive(Debug, Clone, Copy, PartialEq, Eq, Structural)]
pub enum Activity {
    Incomplete,
    Active,
    Complete,
    Error,
}

impl Default for Activity {
    fn default() -> (r: Self)
        ensures
            r == Activity::Incomplete,
    {
        Activity::Incomplete
    }
}

/// The minimum percentage of ASCII-alphanumeric characters (among
/// non-whitespace characters) for a finished page to count as translated.
pub const COMPLETE_PERCENT: u32 = 75;

/// Every unit of accumulated text is non-empty.
pub open spec fn all_units_filled(texts: Seq<Seq<char>>) -> bool {
    forall|i: int| 0 <= i < texts.len() ==> texts[i].len() > 0
}

/// The activity a finished page is classified into: `Incomplete` while any
/// unit is still empty; otherwise `Complete` exactly when the concatenated
/// text passes the language-ratio heuristic at [`COMPLETE_PERCENT`], and
/// `Error` when it does not.
pub open spec fn classification(texts: Seq<Seq<char>>) -> Activity {
    if !all_units_filled(texts) {
        Activity::Incomplete
    } else if passes_language_ratio(concat_all(texts), COMPLETE_PERCENT as nat) {
        Activity::Complete
    } else {
        Activity::Error
    }
}

/// Classifies accumulated unit texts by the completion heuristic: any empty
/// unit forces `Incomplete`; otherwise the page is `Complete` exactly when
/// the concatenation of all units passes the language-ratio heuristic, and
/// `Error` otherwise.
pub fn classify_units(texts: &Vec<String>) -> (r: Activity)
    ensures
        r == classification(views_of(texts@)),
{
    let mut whole: Vec<char> = Vec::new();
    let mut i: usize = 0;
    let mut filled = true;
    while i < texts.len()
        invariant
            i <= texts@.len(),
            whole@ == concat_all(views_of(texts@.subrange(0, i as int))),
            filled == all_units_filled(views_of(texts@.subrange(0, i as int))),
        decreases texts@.len() - i,
    {
        let ghost pre = texts@.subrange(0, i as int);
        let unit = to_char_vec(&texts[i]);
        if unit.len() == 0 {
            filled = false;
        }
        proof {
            assert(whole@ =~= concat_all(views_of(pre)) + unit@.subrange(0, 0));
        }
        let mut k: usize = 0;
        while k < unit.len()
            invariant
                k <= unit@.len(),
                whole@ == concat_all(views_of(pre)) + unit@.subrange(0, k as int),
            decreases unit@.len() - k,
        {
            whole.push(unit[k]);
            k = k + 1;
            proof {
                assert(whole@ =~= concat_all(views_of(pre)) + unit@.subrange(0, k as int));
            }
        }
        proof {
            assert(unit@.subrange(0, unit@.len() as int) =~= unit@);
            lemma_concat_all_push(views_of(pre), texts@[i as int]@);
            let vs1 = views_of(pre);
            let vs2 = views_of(texts@.subrange(0, (i + 1) as int));
            assert(vs2 =~= vs1.push(texts@[i as int]@));
            if all_units_filled(vs1) && texts@[i as int]@.len() > 0 {
                assert forall|k: int| 0 <= k < vs2.len() implies vs2[k].len() > 0 by {
                    if k < vs1.len() {
                        assert(vs1[k].len() > 0);
                    }
                }
            }
            if all_units_filled(vs2) {
                assert forall|k: int| 0 <= k < vs1.len() implies vs1[k].len() > 0 by {
                    assert(vs2[k].len() > 0);
                }
                assert(vs2[vs1.len() as int].len() > 0);
            }
        }
        i = i + 1;
    }
    proof {
        assert(texts@.subrange(0, texts@.len() as int) =~= texts@);
    }
    if !filled {
        return Activity::Incomplete;
    }
    let text = from_chars(&whole);
    if check_english_chars(text.as_str(), COMPLETE_PERCENT) {
        Activity::Complete
    } else {
        Activity::Error
    }
}

/// Collects the characters of a string into a vector.
fn to_char_vec(s: &String) -> (r: Vec<char>)
    ensures
        r@ == s@,
{
    crate::text::to_chars(s.as_str())
}

/// One translatable chapter: its resource path, its source-text units, and
/// the translated text accumulated for each unit.
///
/// The invariant [`Page::wf`] — one accumulated text slot per source unit —
/// is established at creation and preserved by every operation.
#[derive(Debug, Clone)]
pub struct Page {
    pub path: String,
    pub text: Vec<String>,
    pub sections: Vec<String>,
    pub activity: Activity,
}

impl Page {
    /// The page invariant: the accumulated texts and the source units have
    /// the same length.
    pub open spec fn wf(self) -> bool {
        self.text@.len() == self.sections@.len()
    }

    /// Creates a page for `path` over the given translation units, with one
    /// empty accumulated text per unit and activity `Incomplete`.
    pub fn new(path: String, sections: Vec<String>) -> (r: Page)
        ensures
            r.wf(),
            r.path == path,
            r.sections == sections,
            r.activity == Activity::Incomplete,
            r.text@.len() == sections@.len(),
            forall|i: int| 0 <= i < r.text@.len() ==> r.text@[i]@.len() == 0,
    {
        let mut text: Vec<String> = Vec::new();
        let mut i: usize = 0;
        while i < sections.len()
            invariant
                i <= sections@.len(),
                text@.len() == i,
                forall|k: int| 0 <= k < text@.len() ==> text@[k]@.len() == 0,
            decreases sections@.len() - i,
        {
            text.push(String::new());
            i = i + 1;
        }
        Page { path, text, sections, activity: Activity::Incomplete }
    }

    /// Clears every accumulated text slot, keeping the slot count.
    pub fn clear_content(&mut self)
        ensures
            final(self).wf() == old(self).wf(),
            final(self).path == old(self).path,
            final(self).sections == old(self).sections,
            final(self).activity == old(self).activity,
            final(self).text@.len() == old(self).text@.len(),
            forall|i: int| 0 <= i < final(self).text@.len() ==> final(self).text@[i]@.len() == 0,
    {
        let mut i: usize = 0;
        while i < self.text.len()
            invariant
                i <= self.text@.len(),
                self.text@.len() == old(self).text@.len(),
                self.path == old(self).path,
                self.sections == old(self).sections,
                self.activity == old(self).activity,
                forall|k: int| 0 <= k < i ==> self.text@[k]@.len() == 0,
                forall|k: int|
                    i <= k < self.text@.len() ==> self.text@[k] == old(self).text@[k],
        decreases self.text@.len() - i,
        {
            self.text.set(i, String::new());
            i = i + 1;
        }
    }

    /// Appends a streamed chunk to the accumulated text of unit `part`;
    /// never overwrites what has already arrived.
    pub fn update_content(&mut self, part: usize, chunk: &str)
        requires
            part < old(self).text@.len(),
        ensures
            final(self).wf() == old(self).wf(),
            final(self).path == old(self).path,
            final(self).sections == old(self).sections,
            final(self).activity == old(self).activity,
            final(self).text@.len() == old(self).text@.len(),
            final(self).text@[part as int]@ == old(self).text@[part as int]@ + chunk@,
            forall|i: int|
                0 <= i < final(self).text@.len() && i != part ==> final(self).text@[i] == old(
                    self,
                ).text@[i],
    {
        let mut slot = self.text[part].clone();
        slot.append(chunk);
        self.text.set(part, slot);
    }

    /// Clears the accumulated text of one unit, leaving the others alone.
    pub fn clear_part(&mut self, part: usize)
        requires
            part < old(self).text@.len(),
        ensures
            final(self).wf() == old(self).wf(),
            final(self).path == old(self).path,
            final(self).sections == old(self).sections,
            final(self).activity == old(self).activity,
            final(self).text@.len() == old(self).text@.len(),
            final(self).text@[part as int]@.len() == 0,
            forall|i: int|
                0 <= i < final(self).text@.len() && i != part ==> final(self).text@[i] == old(
                    self,
                ).text@[i],
    {
        self.text.set(part, String::new());
    }

    /// Re-evaluates the page's activity by the completion heuristic over its
    /// accumulated texts.
    pub fn evaluate(&mut self)
        ensures
            final(self).wf() == old(self).wf(),
            final(self).path == old(self).path,
            final(self).sections == old(self).sections,
            final(self).text == old(self).text,
            final(self).activity == classification(views_of(old(self).text@)),
    {
        let activity = classify_units(&self.text);
        self.activity = activity;
    }
}

} // verus!
