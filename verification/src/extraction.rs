//! Text extraction from scanned page images: the per-image state, the
//! Chain / Batch dispatch plans for the vision backend, and the export
//! format of the extracted text.

use crate::orchestrator::{
    fresh_handles, handles_extended, session_preserved, Method, ServerState, TransError,
};
use crate::session::Settings;
use vstd::prelude::*;

verus! {

/// How many images one batch dispatches concurrently.
pub const EXTRACT_BATCH_SIZE: usize = 6;

/// What the outside encoder returns for the given bytes: their standard
/// base64 text, a function of the bytes alone.
pub uninterp spec fn base64_of(bytes: Seq<u8>) -> Seq<char>;

/// Relies on base64's `STANDARD` engine: encodes the bytes as padded
/// standard base64, four characters for every three bytes begun.  The
/// length bound keeps the encoder's output-size computation from
/// overflowing.
#[verifier::external_body]
fn encode_base64(bytes: &Vec<u8>) -> (r: String)
    requires
        4 * ((bytes@.len() + 2) / 3) <= usize::MAX as int,
    ensures
        r@ == base64_of(bytes@),
        r@.len() == 4 * ((bytes@.len() + 2) / 3),
{
    base64::Engine::encode(&base64::engine::general_purpose::STANDARD, bytes.as_slice())
}

/// One scanned page image and the text extracted from it so far.
#[derive(Debug, Clone)]
pub struct ImagePage {
    pub name: String,
    pub base64: String,
    pub checked: bool,
    pub content: String,
    pub complete: bool,
}

impl ImagePage {
    /// Wraps raw image bytes: encoded for the backend, selected for
    /// extraction, with no text yet.
    pub fn from_bytes(name: String, bytes: Vec<u8>) -> (r: ImagePage)
        requires
            4 * ((bytes@.len() + 2) / 3) <= usize::MAX as int,
        ensures
            r.name == name,
            r.base64@ == base64_of(bytes@),
            r.checked == true,
            r.content@.len() == 0,
            r.complete == false,
    {
        let base64 = encode_base64(&bytes);
        ImagePage { name, base64, checked: true, content: String::new(), complete: false }
    }
}

/// One vision-backend call the driver must make: extract the text of the
/// image at `page`, streaming chunks into its content, under the given
/// cancellation handle.
#[derive(Debug, Clone)]
pub struct ExtractCall {
    pub page: usize,
    pub base64: String,
    pub handle: u64,
}

/// The work one extract request hands to the driver: the calls to make
/// (concurrently), and the follow-up request for the next window, under
/// its own handle.
#[derive(Debug)]
pub struct ExtractPlan {
    pub model: String,
    pub settings: Settings,
    pub calls: Vec<ExtractCall>,
    pub next_page: usize,
    pub next_handle: u64,
}

/// The indices of the selected images in `[i, end)`, in order.
pub open spec fn checked_indices(pages: Seq<ImagePage>, i: int, end: int) -> Seq<int>
    decreases end - i,
{
    if i < 0 || i >= end {
        Seq::empty()
    } else if i < pages.len() && pages[i].checked {
        seq![i] + checked_indices(pages, i + 1, end)
    } else {
        checked_indices(pages, i + 1, end)
    }
}

/// The extraction session: the backend connection, the images, and the
/// execution policy.
#[derive(Debug)]
pub struct Extraction {
    pub server_state: ServerState,
    pub method: Method,
    pub current_page: usize,
    pub pages: Vec<ImagePage>,
    pub image_view: crate::doc::ImageView,
}

/// Every image outside `[lo, hi)` is untouched, and every image inside is
/// reset for a fresh run when selected: content cleared and completion
/// dropped, name, encoding and selection kept.
pub open spec fn window_reset(ps0: Seq<ImagePage>, ps1: Seq<ImagePage>, lo: int, hi: int) -> bool {
    &&& ps1.len() == ps0.len()
    &&& forall|i: int| 0 <= i < ps0.len() && !(lo <= i < hi) ==> ps1[i] == ps0[i]
    &&& forall|i: int|
        0 <= i < ps0.len() && lo <= i < hi ==> {
            let p0 = #[trigger] ps0[i];
            let p1 = ps1[i];
            &&& p1.name == p0.name
            &&& p1.base64 == p0.base64
            &&& p1.checked == p0.checked
            &&& (p0.checked ==> p1.content@.len() == 0 && p1.complete == false)
            &&& (!p0.checked ==> p1 == p0)
        }
}

/// The plan's calls are exactly one per selected image of the window, in
/// order, with consecutive fresh handles.
pub open spec fn extract_calls_ok(
    pages: Seq<ImagePage>,
    lo: int,
    hi: int,
    base: u64,
    calls: Seq<ExtractCall>,
) -> bool {
    let idxs = checked_indices(pages, lo, hi);
    &&& calls.len() == idxs.len()
    &&& forall|j: int|
        0 <= j < idxs.len() ==> {
            let c = #[trigger] calls[j];
            &&& c.page == idxs[j]
            &&& c.base64 == pages[idxs[j]].base64
            &&& c.handle == (base + j) as u64
        }
}

impl Extraction {
    /// Selects or deselects one image; out-of-range indices are ignored.
    pub fn toggle_check(&mut self, page: usize)
        ensures
            final(self).server_state == old(self).server_state,
            final(self).method == old(self).method,
            final(self).current_page == old(self).current_page,
            final(self).image_view == old(self).image_view,
            page >= old(self).pages@.len() ==> final(self).pages == old(self).pages,
            page < old(self).pages@.len() ==> ({
                let p0 = old(self).pages@[page as int];
                let p1 = final(self).pages@[page as int];
                &&& final(self).pages@.len() == old(self).pages@.len()
                &&& forall|i: int|
                    0 <= i < old(self).pages@.len() && i != page ==> final(self).pages@[i] == old(
                        self,
                    ).pages@[i]
                &&& p1.checked == !p0.checked
                &&& p1.name == p0.name
                &&& p1.base64 == p0.base64
                &&& p1.content == p0.content
                &&& p1.complete == p0.complete
            }),
    {
        if page < self.pages.len() {
            let checked = self.pages[page].checked;
            self.pages[page].checked = !checked;
        }
    }

    /// Appends a streamed chunk to one image's extracted text;
    /// out-of-range indices are ignored.
    pub fn update_content(&mut self, page: usize, chunk: &str)
        ensures
            final(self).server_state == old(self).server_state,
            final(self).method == old(self).method,
            final(self).current_page == old(self).current_page,
            final(self).image_view == old(self).image_view,
            page >= old(self).pages@.len() ==> final(self).pages == old(self).pages,
            page < old(self).pages@.len() ==> ({
                let p0 = old(self).pages@[page as int];
                let p1 = final(self).pages@[page as int];
                &&& final(self).pages@.len() == old(self).pages@.len()
                &&& forall|i: int|
                    0 <= i < old(self).pages@.len() && i != page ==> final(self).pages@[i] == old(
                        self,
                    ).pages@[i]
                &&& p1.content@ == p0.content@ + chunk@
                &&& p1.name == p0.name
                &&& p1.base64 == p0.base64
                &&& p1.checked == p0.checked
                &&& p1.complete == p0.complete
            }),
    {
        if page < self.pages.len() {
            let mut content = self.pages[page].content.clone();
            content.append(chunk);
            self.pages[page].content = content;
        }
    }

    /// Marks one image's extraction finished; out-of-range indices are
    /// ignored.
    pub fn mark_complete(&mut self, page: usize)
        ensures
            final(self).server_state == old(self).server_state,
            final(self).method == old(self).method,
            final(self).current_page == old(self).current_page,
            final(self).image_view == old(self).image_view,
            page >= old(self).pages@.len() ==> final(self).pages == old(self).pages,
            page < old(self).pages@.len() ==> ({
                &&& final(self).pages@.len() == old(self).pages@.len()
                &&& forall|i: int|
                    0 <= i < old(self).pages@.len() && i != page ==> final(self).pages@[i] == old(
                        self,
                    ).pages@[i]
                &&& final(self).pages@[page as int].complete == true
                &&& final(self).pages@[page as int].name == old(self).pages@[page as int].name
                &&& final(self).pages@[page as int].base64 == old(self).pages@[page as int].base64
                &&& final(self).pages@[page as int].checked == old(
                    self,
                ).pages@[page as int].checked
                &&& final(self).pages@[page as int].content == old(
                    self,
                ).pages@[page as int].content
            }),
    {
        if page < self.pages.len() {
            self.pages[page].complete = true;
        }
    }

    /// Dispatches extraction for the window of [`EXTRACT_BATCH_SIZE`]
    /// images starting at `page`: requires a connection and a model; the
    /// selected images of the window are cleared and one concurrent call
    /// is planned for each, followed by the request for the next window.
    /// A start index past the images changes nothing and plans nothing.
    pub fn batch_extract(&mut self, page: usize) -> (r: Result<Option<ExtractPlan>, TransError>)
        requires
            old(self).server_state.wf(),
            old(self).server_state.next_handle + EXTRACT_BATCH_SIZE + 1 <= u64::MAX,
            page <= usize::MAX - EXTRACT_BATCH_SIZE,
        ensures
            old(self).server_state.wf() ==> final(self).server_state.wf(),
            r is Err <==> (!old(self).server_state.server.is_connected() || old(
                self,
            ).server_state.current_model is None),
            r is Err ==> *final(self) == *old(self),
            (r matches Ok(p) && p is None) <==> (!(r is Err) && page > old(self).pages@.len()),
            r matches Ok(p) && p is None ==> *final(self) == *old(self),
            r matches Ok(Some(plan)) ==> ({
                let m0 = *old(self);
                let m1 = *final(self);
                let base = m0.server_state.next_handle;
                let lo = page as int;
                let hi = if page + EXTRACT_BATCH_SIZE <= m0.pages@.len() {
                    page + EXTRACT_BATCH_SIZE
                } else {
                    m0.pages@.len() as int
                };
                let n = checked_indices(m0.pages@, lo, hi).len() as int;
                &&& plan.model == m0.server_state.current_model->0
                &&& plan.settings == m0.server_state.settings
                &&& extract_calls_ok(m0.pages@, lo, hi, base, plan.calls@)
                &&& plan.next_page == page + EXTRACT_BATCH_SIZE
                &&& plan.next_handle == (base + n) as u64
                &&& window_reset(m0.pages@, m1.pages@, lo, hi)
                &&& session_preserved(m0.server_state, m1.server_state)
                &&& handles_extended(m0.server_state, m1.server_state, n + 1)
                &&& m1.method == m0.method
                &&& m1.current_page == m0.current_page
                &&& m1.image_view == m0.image_view
            }),
    {
        if !self.server_state.server.connected() {
            return Err(TransError::NotConnected);
        }
        let model = match &self.server_state.current_model {
            Some(m) => m.clone(),
            None => {
                return Err(TransError::NoModel);
            },
        };
        if page > self.pages.len() {
            return Ok(None);
        }
        let settings = self.server_state.settings;
        let base = self.server_state.next_handle;
        let end = if page + EXTRACT_BATCH_SIZE <= self.pages.len() {
            page + EXTRACT_BATCH_SIZE
        } else {
            self.pages.len()
        };
        let mut calls: Vec<ExtractCall> = Vec::new();
        let mut i: usize = page;
        while i < end
            invariant
                page <= i <= end <= self.pages@.len(),
                base + end - page + 1 <= u64::MAX,
                calls@.len() == checked_indices(self.pages@, page as int, i as int).len(),
                extract_calls_ok(self.pages@, page as int, i as int, base, calls@),
                calls@.len() <= i - page,
            decreases end - i,
    {
            if self.pages[i].checked {
                let handle = base + (calls.len() as u64);
                calls.push(
                    ExtractCall { page: i, base64: self.pages[i].base64.clone(), handle },
                );
            }
            proof {
                lemma_checked_indices_extend(self.pages@, page as int, i as int);
            }
            i = i + 1;
        }
        proof {
            lemma_checked_indices_len(self.pages@, page as int, end as int);
        }
        let n = calls.len();
        let mut j: usize = 0;
        while j < n
            invariant
                n <= end - page,
                base + end - page + 1 <= u64::MAX,
                j <= n,
                self.server_state.handles@ == old(self).server_state.handles@ + fresh_handles(
                    base,
                    j as int,
                ),
                self.server_state.next_handle == base,
                session_preserved(old(self).server_state, self.server_state),
                self.pages == old(self).pages,
                self.method == old(self).method,
                self.current_page == old(self).current_page,
                self.image_view == old(self).image_view,
                base == old(self).server_state.next_handle,
            decreases n - j,
        {
            let handle = base + (j as u64);
            self.server_state.handles.push(handle);
            j = j + 1;
            proof {
                assert(old(self).server_state.handles@ + fresh_handles(base, j - 1).push(
                    (base + j - 1) as u64,
                ) =~= old(self).server_state.handles@ + fresh_handles(base, j as int));
            }
        }
        let next_handle = base + (n as u64);
        self.server_state.handles.push(next_handle);
        self.server_state.next_handle = base + (n as u64) + 1;
        proof {
            assert(old(self).server_state.handles@ + fresh_handles(base, n as int).push(
                (base + n) as u64,
            ) =~= old(self).server_state.handles@ + fresh_handles(base, n + 1));
            assert forall|t: int|
                0 <= t < self.server_state.handles@.len() implies self.server_state.handles@[t]
                < self.server_state.next_handle by {
                if t < old(self).server_state.handles@.len() {
                    assert(old(self).server_state.handles@[t]
                        < old(self).server_state.next_handle);
                }
            }
        }
        let ghost ss = self.server_state;
        let mut w: usize = page;
        while w < end
            invariant
                page <= w <= end <= self.pages@.len(),
                self.pages@.len() == old(self).pages@.len(),
                self.server_state == ss,
                self.method == old(self).method,
                self.current_page == old(self).current_page,
                self.image_view == old(self).image_view,
                forall|t: int| 0 <= t < page ==> self.pages@[t] == old(self).pages@[t],
                forall|t: int|
                    end <= t < self.pages@.len() ==> self.pages@[t] == old(self).pages@[t],
                forall|t: int| w <= t < end ==> self.pages@[t] == old(self).pages@[t],
                forall|t: int|
                    page <= t < w ==> {
                        let p0 = #[trigger] old(self).pages@[t];
                        let p1 = self.pages@[t];
                        &&& p1.name == p0.name
                        &&& p1.base64 == p0.base64
                        &&& p1.checked == p0.checked
                        &&& (p0.checked ==> p1.content@.len() == 0 && p1.complete == false)
                        &&& (!p0.checked ==> p1 == p0)
                    },
            decreases end - w,
        {
            if self.pages[w].checked {
                self.pages[w].content = String::new();
                self.pages[w].complete = false;
            }
            w = w + 1;
        }
        Ok(
            Some(
                ExtractPlan {
                    model,
                    settings,
                    calls,
                    next_page: page + EXTRACT_BATCH_SIZE,
                    next_handle,
                },
            ),
        )
    }

    /// Dispatches extraction for one image under the sequential policy: a
    /// selected image is cleared and planned as a single call followed by
    /// the request for the next image; a deselected one is skipped with
    /// only the follow-up planned.  An index past the images changes
    /// nothing and plans nothing.
    pub fn chain_extract(&mut self, page: usize) -> (r: Result<Option<ExtractPlan>, TransError>)
        requires
            old(self).server_state.wf(),
            old(self).server_state.next_handle + 2 <= u64::MAX,
            page < usize::MAX,
        ensures
            old(self).server_state.wf() ==> final(self).server_state.wf(),
            r is Err <==> (!old(self).server_state.server.is_connected() || old(
                self,
            ).server_state.current_model is None),
            r is Err ==> *final(self) == *old(self),
            (r matches Ok(p) && p is None) <==> (!(r is Err) && page >= old(self).pages@.len()),
            r matches Ok(p) && p is None ==> *final(self) == *old(self),
            r matches Ok(Some(plan)) ==> ({
                let m0 = *old(self);
                let m1 = *final(self);
                let base = m0.server_state.next_handle;
                let n: int = if m0.pages@[page as int].checked {
                    1
                } else {
                    0
                };
                &&& plan.model == m0.server_state.current_model->0
                &&& plan.settings == m0.server_state.settings
                &&& extract_calls_ok(m0.pages@, page as int, page + 1, base, plan.calls@)
                &&& plan.next_page == page + 1
                &&& plan.next_handle == (base + n) as u64
                &&& window_reset(m0.pages@, m1.pages@, page as int, page + 1)
                &&& session_preserved(m0.server_state, m1.server_state)
                &&& handles_extended(m0.server_state, m1.server_state, n + 1)
                &&& m1.method == m0.method
                &&& m1.current_page == m0.current_page
                &&& m1.image_view == m0.image_view
            }),
    {
        if !self.server_state.server.connected() {
            return Err(TransError::NotConnected);
        }
        let model = match &self.server_state.current_model {
            Some(m) => m.clone(),
            None => {
                return Err(TransError::NoModel);
            },
        };
        if page >= self.pages.len() {
            return Ok(None);
        }
        let settings = self.server_state.settings;
        let base = self.server_state.next_handle;
        let checked = self.pages[page].checked;
        let mut calls: Vec<ExtractCall> = Vec::new();
        let mut issued: u64 = 0;
        if checked {
            calls.push(
                ExtractCall { page, base64: self.pages[page].base64.clone(), handle: base },
            );
            self.server_state.handles.push(base);
            issued = 1;
            self.pages[page].content = String::new();
            self.pages[page].complete = false;
            proof {
                assert(old(self).server_state.handles@.push(base) =~= old(
                    self,
                ).server_state.handles@ + fresh_handles(base, 1));
            }
        }
        let next_handle = base + issued;
        self.server_state.handles.push(next_handle);
        self.server_state.next_handle = base + issued + 1;
        proof {
            assert(checked_indices(old(self).pages@, (page + 1) as int, (page + 1) as int)
                =~= Seq::<int>::empty());
            if old(self).pages@[page as int].checked {
                assert(old(self).server_state.handles@ + fresh_handles(base, 1).push(
                    (base + 1) as u64,
                ) =~= old(self).server_state.handles@ + fresh_handles(base, 2));
                assert(checked_indices(old(self).pages@, page as int, page + 1) =~= seq![
                    page as int,
                ]);
            } else {
                assert(old(self).server_state.handles@.push(base) =~= old(
                    self,
                ).server_state.handles@ + fresh_handles(base, 1));
                assert(checked_indices(old(self).pages@, page as int, page + 1)
                    =~= Seq::<int>::empty());
            }
            assert forall|t: int|
                0 <= t < self.server_state.handles@.len() implies self.server_state.handles@[t]
                < self.server_state.next_handle by {
                if t < old(self).server_state.handles@.len() {
                    assert(old(self).server_state.handles@[t]
                        < old(self).server_state.next_handle);
                }
            }
        }
        Ok(Some(ExtractPlan { model, settings, calls, next_page: page + 1, next_handle }))
    }
}

/// The exported text of the extraction session from image `i` on: for
/// every selected image with any extracted text, a `<page>` header naming
/// the image, a blank line, and its text.
pub open spec fn saved_text_from(pages: Seq<ImagePage>, i: int) -> Seq<char>
    decreases pages.len() - i,
{
    if i < 0 || i >= pages.len() {
        Seq::empty()
    } else {
        let chunk = if pages[i].checked && pages[i].content@.len() > 0 {
            "\n<page>"@ + pages[i].name@ + "</page>\n\n"@ + pages[i].content@ + "\n"@
        } else {
            Seq::<char>::empty()
        };
        chunk + saved_text_from(pages, i + 1)
    }
}

impl Extraction {
    /// Assembles the exported text of the whole session, in image order.
    pub fn save_text(&self) -> (r: String)
        ensures
            r@ == saved_text_from(self.pages@, 0),
    {
        let mut out = String::new();
        let mut i: usize = 0;
        proof {
            assert(out@ + saved_text_from(self.pages@, 0) =~= saved_text_from(self.pages@, 0));
        }
        while i < self.pages.len()
            invariant
                i <= self.pages@.len(),
                out@ + saved_text_from(self.pages@, i as int) == saved_text_from(self.pages@, 0),
            decreases self.pages@.len() - i,
        {
            let page = &self.pages[i];
            if page.checked && page.content.as_str().unicode_len() > 0 {
                out.append("\n<page>");
                out.append(page.name.as_str());
                out.append("</page>\n\n");
                out.append(page.content.as_str());
                out.append("\n");
            }
            i = i + 1;
            proof {
                assert(out@ + saved_text_from(self.pages@, i as int) =~= saved_text_from(
                    self.pages@,
                    0,
                ));
            }
        }
        out
    }
}

/// Extending the window by one position appends its index exactly when
/// that image is selected.
proof fn lemma_checked_indices_extend(pages: Seq<ImagePage>, lo: int, i: int)
    requires
        0 <= lo <= i,
    ensures
        i < pages.len() && pages[i].checked ==> checked_indices(pages, lo, i + 1)
            == checked_indices(pages, lo, i).push(i),
        !(i < pages.len() && pages[i].checked) ==> checked_indices(pages, lo, i + 1)
            == checked_indices(pages, lo, i),
    decreases i - lo,
{
    if lo < i {
        lemma_checked_indices_extend(pages, lo + 1, i);
        if lo < pages.len() && pages[lo].checked {
            assert(checked_indices(pages, lo, i + 1) == seq![lo] + checked_indices(
                pages,
                lo + 1,
                i + 1,
            ));
            assert(checked_indices(pages, lo, i) == seq![lo] + checked_indices(pages, lo + 1, i));
        } else {
            assert(checked_indices(pages, lo, i + 1) == checked_indices(pages, lo + 1, i + 1));
            assert(checked_indices(pages, lo, i) == checked_indices(pages, lo + 1, i));
        }
        if i < pages.len() && pages[i].checked {
            assert(seq![lo] + checked_indices(pages, lo + 1, i).push(i) =~= (seq![lo]
                + checked_indices(pages, lo + 1, i)).push(i));
        }
    } else {
        assert(checked_indices(pages, lo, i) =~= Seq::<int>::empty());
        assert(checked_indices(pages, i + 1, i + 1) =~= Seq::<int>::empty());
        if i < pages.len() && pages[i].checked {
            assert(checked_indices(pages, lo, i + 1) =~= checked_indices(pages, lo, i).push(i));
        } else {
            assert(checked_indices(pages, lo, i + 1) =~= checked_indices(pages, lo, i));
        }
    }
}

/// A window never selects more images than it holds.
proof fn lemma_checked_indices_len(pages: Seq<ImagePage>, lo: int, hi: int)
    requires
        0 <= lo,
    ensures
        checked_indices(pages, lo, hi).len() <= if hi >= lo {
            hi - lo
        } else {
            0
        },
    decreases hi - lo,
{
    if lo < hi {
        lemma_checked_indices_len(pages, lo + 1, hi);
    }
}

} // verus!
