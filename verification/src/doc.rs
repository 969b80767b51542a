//! The document viewer model: one opened archive, a current page, and the
//! partitioned preview text of that page.

use crate::archive::{resource_index, Archive};
use crate::partition::{join_partition, join_upto, partition_spec, partition_text};
use crate::transcode::{convert_html, markdown_of};
use vstd::prelude::*;
use vstd::utf8::{decode_utf8, valid_utf8};

verus! {

/// Which screen of the application is shown.
#[derive(Debug, Clone, Copy, PartialEq, Eq, Structural)]
pub enum Screen {
    Translation,
    Doc,
    Format,
}

impl Default for Screen {
    fn default() -> (r: Self)
        ensures
            r == Screen::Translation,
    {
        Screen::Translation
    }
}

impl Screen {
    /// The screen's display name.
    pub fn label(&self) -> (r: String)
        ensures
            *self is Doc ==> r@ == "Document"@,
            *self is Translation ==> r@ == "Translation"@,
            *self is Format ==> r@ == "Format"@,
    {
        match self {
            Screen::Doc => String::from_str("Document"),
            Screen::Translation => String::from_str("Translation"),
            Screen::Format => String::from_str("Format"),
        }
    }
}

/// How an extracted page image is shown beside its text.
#[derive(Debug, Clone, Copy, PartialEq, Eq, Structural)]
pub enum ImageView {
    Image,
    Text,
    Split,
}

impl Default for ImageView {
    fn default() -> (r: Self)
        ensures
            r == ImageView::Image,
    {
        ImageView::Image
    }
}

/// A request the document viewer reacts to.
#[derive(Debug, Clone)]
pub enum DocAction {
    SetEpub(String, Vec<u8>),
    OpenEpub,
    SetPage(usize),
    Inc,
    Dec,
}

/// The preview text the viewer shows for page `page` of an archive: the
/// chapter's markdown partitioned into sections and joined back with part
/// tags — or nothing, when the page, its resource or its text cannot be
/// resolved.
pub open spec fn page_preview(a: Archive, page: int) -> Option<Seq<char>> {
    if 0 <= page < a.spine@.len() {
        match resource_index(a.resources@, a.spine@[page]@) {
            Some(k) => {
                let data = a.resources@[k].data@;
                if valid_utf8(data) {
                    let md = markdown_of(decode_utf8(data));
                    Some(join_upto(partition_spec(md), partition_spec(md).len() as int))
                } else {
                    None
                }
            },
            None => None,
        }
    } else {
        None
    }
}

/// The document viewer's state.
#[derive(Debug)]
pub struct Doc {
    pub epub: Option<Archive>,
    pub file_name: Option<String>,
    pub current_page: Option<usize>,
    pub total_pages: usize,
    pub content: String,
}

impl Doc {
    /// A viewer with nothing opened.
    pub fn new() -> (r: Doc)
        ensures
            r.epub is None,
            r.file_name is None,
            r.current_page is None,
            r.total_pages == 0,
            r.content@.len() == 0,
    {
        Doc {
            epub: None,
            file_name: None,
            current_page: None,
            total_pages: 0,
            content: String::new(),
        }
    }

    /// The preview of page `page` of the opened archive: `None` when
    /// nothing is open, the page cannot be resolved, or the outside
    /// converter refuses the chapter; otherwise exactly the chapter's
    /// partitioned markdown with part tags.
    pub fn get_page(&mut self, page: usize) -> (r: Option<String>)
        ensures
            *final(self) == *old(self),
            r matches Some(c) ==> old(self).epub matches Some(a) && page_preview(a, page as int)
                == Some(c@),
            old(self).epub is None ==> r is None,
            (old(self).epub matches Some(a) && page_preview(a, page as int) is None) ==> r
                is None,
            (old(self).epub matches Some(a) && page_preview(a, page as int) is Some) ==> r
                is Some,
    {
        let epub = match &self.epub {
            Some(e) => e,
            None => {
                return None;
            },
        };
        if page >= epub.spine.len() {
            return None;
        }
        let entry = match epub.find_resource(&epub.spine[page]) {
            Some(e) => e,
            None => {
                return None;
            },
        };
        let html = match crate::archive::utf8_to_string(&entry.data) {
            Some(h) => h,
            None => {
                return None;
            },
        };
        let markdown = match convert_html(html.as_str()) {
            Ok(m) => m,
            Err(_) => {
                return None;
            },
        };
        let parts = partition_text(markdown.as_str());
        let joined = join_partition(parts);
        proof {
            crate::archive::lemma_resource_index_bounds(epub.resources@, epub.spine@[page as int]@, 0);
        }
        Some(joined)
    }

    /// Shows page `page`: on a resolvable page the viewer moves there and
    /// installs its preview; otherwise nothing changes.
    pub fn set_page(&mut self, page: usize)
        ensures
            final(self).epub == old(self).epub,
            final(self).file_name == old(self).file_name,
            final(self).total_pages == old(self).total_pages,
            (old(self).epub is Some && page_preview(old(self).epub->0, page as int) is Some)
                ==> final(self).current_page == Some(page) && final(self).content@
                == page_preview(old(self).epub->0, page as int)->0,
            old(self).epub is None ==> *final(self) == *old(self),
            (old(self).epub matches Some(a) && page_preview(a, page as int) is None) ==> *final(self) == *old(self),
    {
        match self.get_page(page) {
            Some(content) => {
                self.current_page = Some(page);
                self.content = content;
            },
            None => {},
        }
    }

    /// Steps forward one page, when a page is current and the next index
    /// is still inside the document.
    pub fn inc_page(&mut self)
        ensures
            final(self).epub == old(self).epub,
            final(self).file_name == old(self).file_name,
            final(self).total_pages == old(self).total_pages,
            (old(self).current_page is None || old(self).current_page->0 + 1 >= old(self).total_pages || old(self).epub is None) ==> ({
                &&& final(self).current_page == old(self).current_page
                &&& final(self).content == old(self).content
            }),
            (old(self).current_page is Some && old(self).current_page->0 + 1 < old(self).total_pages
                && old(self).epub is Some && page_preview(
                old(self).epub->0,
                old(self).current_page->0 + 1,
            ) is Some) ==> final(self).current_page == Some((old(self).current_page->0 + 1) as usize)
                && final(self).content@ == page_preview(
                old(self).epub->0,
                old(self).current_page->0 + 1,
            )->0,
            (old(self).current_page is Some && old(self).epub is Some && page_preview(
                old(self).epub->0,
                old(self).current_page->0 + 1,
            ) is None) ==> ({
                &&& final(self).current_page == old(self).current_page
                &&& final(self).content == old(self).content
            }),
    {
        if let Some(page) = self.current_page {
            if page < usize::MAX && page + 1 < self.total_pages {
                self.set_page(page + 1);
            }
        }
    }

    /// Steps back one page, when a page is current and not the first.
    pub fn dec_page(&mut self)
        ensures
            final(self).epub == old(self).epub,
            final(self).file_name == old(self).file_name,
            final(self).total_pages == old(self).total_pages,
            (old(self).current_page is None || old(self).current_page->0 == 0 || old(self).epub is None) ==> ({
                &&& final(self).current_page == old(self).current_page
                &&& final(self).content == old(self).content
            }),
            (old(self).current_page is Some && old(self).current_page->0 > 0 && old(self).epub is Some
                && page_preview(
                old(self).epub->0,
                old(self).current_page->0 - 1,
            ) is Some) ==> final(self).current_page == Some((old(self).current_page->0 - 1) as usize)
                && final(self).content@ == page_preview(
                old(self).epub->0,
                old(self).current_page->0 - 1,
            )->0,
            (old(self).current_page is Some && old(self).current_page->0 > 0 && old(self).epub is Some
                && page_preview(
                old(self).epub->0,
                old(self).current_page->0 - 1,
            ) is None) ==> ({
                &&& final(self).current_page == old(self).current_page
                &&& final(self).content == old(self).content
            }),
    {
        if let Some(page) = self.current_page {
            if page > 0 {
                self.set_page(page - 1);
            }
        }
    }

    /// Installs a freshly opened archive and shows its first page: when
    /// the first page renders, its preview is on display; when it does
    /// not, the previous text stays.
    pub fn set_epub(&mut self, file_name: String, epub: Archive)
        ensures
            final(self).file_name == Some(file_name),
            final(self).total_pages == epub.spine@.len(),
            final(self).epub == Some(epub),
            final(self).current_page == Some(0usize),
            page_preview(epub, 0) matches Some(c) ==> final(self).content@ == c,
            page_preview(epub, 0) is None ==> final(self).content == old(self).content,
    {
        self.current_page = Some(0);
        self.total_pages = epub.spine.len();
        self.file_name = Some(file_name);
        self.epub = Some(epub);
        self.set_page(0);
    }
}

} // verus!
