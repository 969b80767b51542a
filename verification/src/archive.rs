//! The archive reader's view of an EPUB container: the spine in reading
//! order, the resource table, the optional cover, and the table of
//! contents.  The surrounding driver decodes the container into this model;
//! everything read out of it afterwards is decided here.

use crate::page::Page;
use crate::partition::{group_sections, grouped_spec, partition_spec, partition_text, views_of};
use crate::transcode::{convert_html, markdown_of};
use vstd::prelude::*;

verus! {

/// One entry of the archive's resource table.
#[derive(Debug, Clone)]
pub struct ResourceEntry {
    pub id: String,
    pub path: String,
    pub mime: String,
    pub data: Vec<u8>,
}

/// The structured view of one EPUB container.
#[derive(Debug, Clone)]
pub struct Archive {
    /// Resource identifiers in spine (reading) order.
    pub spine: Vec<String>,
    /// The resource table: identifiers mapped to paths, MIME types and
    /// contents.
    pub resources: Vec<ResourceEntry>,
    /// The identifier of the cover image, when the archive names one.
    pub cover_id: Option<String>,
    /// The table of contents: the file name of each content document it
    /// points at, with its human-readable title.
    pub toc: Vec<(String, String)>,
}

/// The position of the first resource with the given identifier, searching
/// from `i` on.
pub open spec fn resource_index_from(rs: Seq<ResourceEntry>, id: Seq<char>, i: int) -> Option<int>
    decreases rs.len() - i,
{
    if i < 0 || i >= rs.len() {
        None
    } else if rs[i].id@ == id {
        Some(i)
    } else {
        resource_index_from(rs, id, i + 1)
    }
}

/// The position of the resource with the given identifier.
pub open spec fn resource_index(rs: Seq<ResourceEntry>, id: Seq<char>) -> Option<int> {
    resource_index_from(rs, id, 0)
}

/// A found resource lies in range and carries the identifier.
pub proof fn lemma_resource_index_bounds(rs: Seq<ResourceEntry>, id: Seq<char>, i: int)
    requires
        0 <= i,
        resource_index_from(rs, id, i) is Some,
    ensures
        i <= resource_index_from(rs, id, i)->0 < rs.len(),
        rs[resource_index_from(rs, id, i)->0].id@ == id,
    decreases rs.len() - i,
{
    if i < rs.len() && rs[i].id@ != id {
        lemma_resource_index_bounds(rs, id, i + 1);
    }
}

impl Archive {
    /// Looks up a resource by identifier: the first table entry carrying
    /// it, exactly when one exists.
    pub fn find_resource(&self, id: &String) -> (r: Option<&ResourceEntry>)
        ensures
            match r {
                Some(e) => resource_index(self.resources@, id@) matches Some(k) && *e
                    == self.resources@[k],
                None => resource_index(self.resources@, id@) is None,
            },
    {
        let mut i: usize = 0;
        while i < self.resources.len()
            invariant
                i <= self.resources@.len(),
                resource_index(self.resources@, id@) == resource_index_from(
                    self.resources@,
                    id@,
                    i as int,
                ),
            decreases self.resources@.len() - i,
        {
            if self.resources[i].id == *id {
                return Some(&self.resources[i]);
            }
            i = i + 1;
        }
        None
    }

    /// Looks up a resource by path: the first table entry whose path
    /// matches, exactly when one exists.
    pub fn find_resource_by_path(&self, path: &String) -> (r: Option<&ResourceEntry>)
        ensures
            match r {
                Some(e) => exists|k: int|
                    0 <= k < self.resources@.len() && *e == self.resources@[k] && e.path@ == path@,
                None => forall|k: int|
                    0 <= k < self.resources@.len() ==> (#[trigger] self.resources@[k]).path@
                        != path@,
            },
    {
        let mut i: usize = 0;
        while i < self.resources.len()
            invariant
                i <= self.resources@.len(),
                forall|k: int|
                    0 <= k < i ==> (#[trigger] self.resources@[k]).path@ != path@,
            decreases self.resources@.len() - i,
        {
            if self.resources[i].path == *path {
                proof {
                    assert(self.resources@[i as int].path@ == path@);
                }
                return Some(&self.resources[i]);
            }
            i = i + 1;
        }
        None
    }
}

/// Every spine identifier resolves through the resource table.
pub open spec fn spine_resolvable(epub: Archive) -> bool {
    forall|k: int|
        0 <= k < epub.spine@.len() ==> resource_index(
            epub.resources@,
            (#[trigger] epub.spine@[k])@,
        ) is Some
}

/// The content-document paths of the archive in spine order: each spine
/// identifier resolved through the resource table.  `None` exactly when
/// some spine identifier has no resource — a malformed archive.
pub fn get_ordered_path(epub: &Archive) -> (r: Option<Vec<String>>)
    ensures
        r is Some <==> (forall|k: int|
            0 <= k < epub.spine@.len() ==> resource_index(
                epub.resources@,
                (#[trigger] epub.spine@[k])@,
            ) is Some),
        r matches Some(paths) ==> ({
            &&& paths@.len() == epub.spine@.len()
            &&& forall|k: int|
                0 <= k < epub.spine@.len() ==> (#[trigger] paths@[k])@
                    == epub.resources@[resource_index(
                    epub.resources@,
                    epub.spine@[k]@,
                )->0].path@
        }),
{
    let mut paths: Vec<String> = Vec::new();
    let mut k: usize = 0;
    while k < epub.spine.len()
        invariant
            k <= epub.spine@.len(),
            paths@.len() == k,
            forall|j: int|
                0 <= j < k ==> resource_index(epub.resources@, (#[trigger] epub.spine@[j])@)
                    is Some,
            forall|j: int|
                0 <= j < k ==> (#[trigger] paths@[j])@ == epub.resources@[resource_index(
                    epub.resources@,
                    epub.spine@[j]@,
                )->0].path@,
        decreases epub.spine@.len() - k,
    {
        match epub.find_resource(&epub.spine[k]) {
            Some(e) => {
                paths.push(e.path.clone());
            },
            None => {
                return None;
            },
        }
        k = k + 1;
    }
    Some(paths)
}

/// Could not open or read a chapter of the archive.
#[derive(Debug, Clone, Copy, PartialEq, Eq, Structural)]
pub enum DocumentError {
    /// A spine identifier has no entry in the resource table.
    MissingResource,
    /// A content document is not valid UTF-8 text.
    BadText,
    /// The outside converter refused a content document.
    Convert,
}

impl DocumentError {
    /// The user-visible description of the error.
    pub fn message(&self) -> (r: String)
        ensures
            *self is MissingResource ==> r@ == "resource missing from archive"@,
            *self is BadText ==> r@ == "content document is not text"@,
            *self is Convert ==> r@ == "could not convert content document"@,
    {
        match self {
            DocumentError::MissingResource => String::from_str("resource missing from archive"),
            DocumentError::BadText => String::from_str("content document is not text"),
            DocumentError::Convert => String::from_str("could not convert content document"),
        }
    }
}

/// Relies on std's `String::from_utf8`: succeeds exactly on valid UTF-8,
/// returning the text the bytes encode.
#[verifier::external_body]
pub(crate) fn utf8_to_string(bytes: &Vec<u8>) -> (r: Option<String>)
    ensures
        r is Some <==> vstd::utf8::valid_utf8(bytes@),
        r matches Some(s) ==> s@ == vstd::utf8::decode_utf8(bytes@),
{
    String::from_utf8(bytes.clone()).ok()
}

/// The translation units a chapter document yields: its markdown (as the
/// outside converter returns it), partitioned into bounded sections and
/// grouped into units of three.
pub open spec fn units_of_chapter(html: Seq<char>) -> Seq<Seq<char>> {
    grouped_spec(partition_spec(markdown_of(html)))
}

/// Builds the page for one chapter document: its markdown partitioned and
/// grouped into translation units.  A chapter whose markdown is empty
/// (image-only or blank) yields no page.  The conversion itself always
/// succeeds in this version of the outside converter.
pub fn page_of(path: String, html: &str) -> (r: Result<Option<Page>, DocumentError>)
    ensures
        r is Ok,
        r matches Ok(Some(p)) ==> ({
            &&& p.wf()
            &&& p.path == path
            &&& views_of(p.sections@) == units_of_chapter(html@)
            &&& p.sections@.len() > 0
            &&& p.activity == crate::page::Activity::Incomplete
            &&& forall|i: int| 0 <= i < p.text@.len() ==> (#[trigger] p.text@[i])@.len() == 0
        }),
        r matches Ok(p) ==> (p is None <==> markdown_of(html@).len() == 0),
        r matches Err(e) ==> e is Convert,
{
    let markdown = match convert_html(html) {
        Ok(m) => m,
        Err(_) => {
            return Err(DocumentError::Convert);
        },
    };
    if markdown.as_str().unicode_len() == 0 {
        proof {
            assert(views_of(Seq::<String>::empty()) =~= Seq::<Seq<char>>::empty());
            assert(markdown_of(html@) =~= Seq::<char>::empty());
        }
        return Ok(None);
    }
    let sections = partition_text(markdown.as_str());
    let units = group_sections(&sections);
    proof {
        assert(views_of(units@) == units_of_chapter(html@));
        assert(grouped_spec(partition_spec(markdown_of(html@))).len() > 0);
        assert(units@.len() > 0);
    }
    Ok(Some(Page::new(path, units)))
}

/// Spine position `k` yields a translatable page: its resource resolves,
/// its bytes are text, and the converter's markdown for it is non-empty.
pub open spec fn chapter_translatable(epub: Archive, k: int) -> bool {
    &&& resource_index(epub.resources@, epub.spine@[k]@) is Some
    &&& ({
        let e = epub.resources@[resource_index(epub.resources@, epub.spine@[k]@)->0];
        &&& vstd::utf8::valid_utf8(e.data@)
        &&& markdown_of(vstd::utf8::decode_utf8(e.data@)).len() > 0
    })
}

/// The spine positions that yield translatable pages, in reading order,
/// from position `k` on.
pub open spec fn kept_chapters(epub: Archive, k: int) -> Seq<int>
    decreases epub.spine@.len() - k,
{
    if k < 0 || k >= epub.spine@.len() {
        Seq::empty()
    } else if chapter_translatable(epub, k) {
        seq![k] + kept_chapters(epub, k + 1)
    } else {
        kept_chapters(epub, k + 1)
    }
}

/// The page the chapter at spine position `k` becomes is the right one:
/// named after its resource's path, fresh and `Incomplete`, holding
/// exactly the chapter's translation units.
pub open spec fn page_matches_chapter(epub: Archive, k: int, p: Page) -> bool {
    let e = epub.resources@[resource_index(epub.resources@, epub.spine@[k]@)->0];
    &&& p.wf()
    &&& p.path@ == e.path@
    &&& views_of(p.sections@) == units_of_chapter(vstd::utf8::decode_utf8(e.data@))
    &&& p.sections@.len() > 0
    &&& p.activity == crate::page::Activity::Incomplete
    &&& forall|i: int| 0 <= i < p.text@.len() ==> (#[trigger] p.text@[i])@.len() == 0
}

/// Builds the translatable document from an archive: one page per
/// spine-ordered content document whose markdown is non-empty, each
/// carrying its translation units, in reading order.  A spine identifier
/// without a resource makes the whole open fail; so does a chapter that is
/// not text, or one the outside converter refuses.
pub fn get_pages(file_name: String, epub: &Archive) -> (r: Result<
    (String, Vec<Page>),
    DocumentError,
>)
    ensures
        r matches Ok(pair) ==> ({
            let idxs = kept_chapters(*epub, 0);
            &&& pair.0 == file_name
            &&& spine_resolvable(*epub)
            &&& pair.1@.len() == idxs.len()
            &&& forall|j: int|
                0 <= j < idxs.len() ==> page_matches_chapter(
                    *epub,
                    idxs[j],
                    #[trigger] pair.1@[j],
                )
        }),
        r is Err <==> (!spine_resolvable(*epub) || exists|k: int|
            0 <= k < epub.spine@.len() && resource_index(
                epub.resources@,
                (#[trigger] epub.spine@[k])@,
            ) is Some && !vstd::utf8::valid_utf8(
                epub.resources@[resource_index(epub.resources@, epub.spine@[k]@)->0].data@,
            )),
        (r matches Err(e) && e is MissingResource) ==> !spine_resolvable(*epub),
        (r matches Err(e) && e is BadText) ==> exists|k: int|
            0 <= k < epub.spine@.len() && resource_index(
                epub.resources@,
                (#[trigger] epub.spine@[k])@,
            ) is Some && !vstd::utf8::valid_utf8(
                epub.resources@[resource_index(epub.resources@, epub.spine@[k]@)->0].data@,
            ),
{
    let mut pages: Vec<Page> = Vec::new();
    let mut k: usize = 0;
    proof {
        assert(kept_chapters(*epub, 0).subrange(0, 0) =~= Seq::<int>::empty());
    }
    while k < epub.spine.len()
        invariant
            k <= epub.spine@.len(),
            forall|j: int|
                0 <= j < k ==> resource_index(epub.resources@, (#[trigger] epub.spine@[j])@)
                    is Some && vstd::utf8::valid_utf8(
                    epub.resources@[resource_index(epub.resources@, epub.spine@[j]@)->0].data@,
                ),
            pages@.len() == kept_chapters(*epub, 0).len() - kept_chapters(*epub, k as int).len(),
            kept_chapters(*epub, 0) =~= kept_chapters(*epub, 0).subrange(
                0,
                pages@.len() as int,
            ) + kept_chapters(*epub, k as int),
            forall|j: int|
                0 <= j < pages@.len() ==> page_matches_chapter(
                    *epub,
                    kept_chapters(*epub, 0)[j],
                    #[trigger] pages@[j],
                ),
        decreases epub.spine@.len() - k,
    {
        let entry = match epub.find_resource(&epub.spine[k]) {
            Some(e) => e,
            None => {
                proof {
                    assert(!spine_resolvable(*epub));
                }
                return Err(DocumentError::MissingResource);
            },
        };
        let html = match utf8_to_string(&entry.data) {
            Some(h) => h,
            None => {
                proof {
                    assert(resource_index(epub.resources@, epub.spine@[k as int]@) is Some
                        && !vstd::utf8::valid_utf8(
                        epub.resources@[resource_index(
                            epub.resources@,
                            epub.spine@[k as int]@,
                        )->0].data@,
                    ));
                }
                return Err(DocumentError::BadText);
            },
        };
        let path = entry.path.clone();
        let ghost idxs0 = kept_chapters(*epub, 0);
        match page_of(path, html.as_str()) {
            Ok(Some(page)) => {
                proof {
                    assert(chapter_translatable(*epub, k as int));
                    assert(kept_chapters(*epub, k as int) == seq![k as int] + kept_chapters(
                        *epub,
                        (k + 1) as int,
                    ));
                    assert(idxs0[pages@.len() as int] == k as int);
                    assert(idxs0.subrange(0, (pages@.len() + 1) as int) =~= idxs0.subrange(
                        0,
                        pages@.len() as int,
                    ).push(k as int));
                    assert(idxs0.subrange(0, (pages@.len() + 1) as int) + kept_chapters(
                        *epub,
                        (k + 1) as int,
                    ) =~= idxs0);
                    assert(page_matches_chapter(*epub, k as int, page));
                }
                pages.push(page);
            },
            Ok(None) => {
                proof {
                    assert(!chapter_translatable(*epub, k as int));
                    assert(kept_chapters(*epub, k as int) == kept_chapters(
                        *epub,
                        (k + 1) as int,
                    ));
                }
            },
            Err(e) => {
                return Err(e);
            },
        }
        k = k + 1;
    }
    proof {
        assert(kept_chapters(*epub, epub.spine@.len() as int) =~= Seq::<int>::empty());
        assert(kept_chapters(*epub, 0).subrange(0, pages@.len() as int) =~= kept_chapters(
            *epub,
            0,
        ));
        assert(spine_resolvable(*epub));
    }
    Ok((file_name, pages))
}

} // verus!
