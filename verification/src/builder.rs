//! The EPUB builder: reassembles translated or edited pages into a new
//! archive, carrying images and cover over, rendering overridden chapters
//! from markdown, and restoring chapter titles from a table of contents.

use crate::archive::{Archive, ResourceEntry};
use crate::paths::{file_name, file_name_of, stem_of, to_md_name, to_text_path};
use crate::tags::{chars_find_at, find_at, lemma_find_at_bounds, matches_at};
use crate::text::{from_chars, to_chars};
use crate::transcode::{gen_html, gen_html_spec};
use crate::xhtml::{rewrite_from, update_image_paths};
use vstd::prelude::*;

verus! {

/// The stylesheet every rebuilt archive carries.
pub const DEFAULT_STYLESHEET: &'static str = "html { font-size: 100%; line-height: 1.6; }\nbody { font-family: serif; margin: 0; padding: 1em; word-wrap: break-word; }\nh1, h2, h3, h4, h5, h6 { font-weight: bold; line-height: 1.2; margin: 1.5em 0 0.5em 0; }\nh1 { font-size: 2em; text-align: center; page-break-before: always; }\nh2 { font-size: 1.5em; }\np { margin: 0 0 1em 0; text-indent: 1.2em; }\nimg { max-width: 100%; height: auto; display: block; margin: 1em auto; }\n";

/// A transient projection of one edited or translated page, used only
/// while rebuilding an archive.
#[derive(Debug, Clone)]
pub struct BuilderPage {
    pub path: String,
    pub content: String,
}

impl BuilderPage {
    /// The page overrides the given chapter file exactly when the two
    /// paths carry the same file name.
    pub fn is_matching_file(&self, file: &String) -> (r: bool)
        ensures
            r == (file_name_of(self.path@) == file_name_of(file@)),
    {
        let own = file_name(self.path.as_str());
        let other = file_name(file.as_str());
        own == other
    }
}

/// The position of the first table entry whose stem equals `stem`,
/// searching from `i` on.
pub open spec fn first_stem_match(
    path_map: Seq<(String, String)>,
    stem: Seq<char>,
    i: int,
) -> Option<int>
    decreases path_map.len() - i,
{
    if i < 0 || i >= path_map.len() {
        None
    } else if path_map[i].0@ == stem {
        Some(i)
    } else {
        first_stem_match(path_map, stem, i + 1)
    }
}

/// Pairs a spine path with the markdown file that overrides it: the path's
/// stem with the `.md` extension, and the first table entry sharing the
/// stem.  `None` exactly when no table entry shares the stem.
pub fn link_files(path: &String, path_map: &Vec<(String, String)>) -> (r: Option<(String, String)>)
    ensures
        r matches Some(pair) ==> ({
            &&& first_stem_match(path_map@, stem_of(file_name_of(path@)), 0) matches Some(j)
            &&& pair.0@ == stem_of(file_name_of(path@)) + ".md"@
            &&& pair.1 == path_map@[first_stem_match(
                path_map@,
                stem_of(file_name_of(path@)),
                0,
            )->0].1
        }),
        r is None <==> first_stem_match(path_map@, stem_of(file_name_of(path@)), 0) is None,
{
    let stem = crate::paths::file_stem(path.as_str());
    let md_file = to_md_name(path.as_str());
    let mut k: usize = 0;
    while k < path_map.len()
        invariant
            k <= path_map@.len(),
            stem@ == stem_of(file_name_of(path@)),
            md_file@ == stem_of(file_name_of(path@)) + ".md"@,
            first_stem_match(path_map@, stem@, 0) == first_stem_match(path_map@, stem@, k as int),
        decreases path_map@.len() - k,
    {
        if path_map[k].0 == stem {
            let xml = path_map[k].1.clone();
            return Some((md_file, xml));
        }
        k = k + 1;
    }
    None
}

/// One chapter of the archive being rebuilt: destination path, rendered
/// document, and its place in the table of contents.
#[derive(Debug, Clone)]
pub struct ChapterContent {
    pub href: String,
    pub html: String,
    pub title: Option<String>,
    pub level: i32,
}

/// The position of the first page whose file name matches the chapter's
/// markdown name, searching from `i` on.
pub open spec fn first_matching_page(pages: Seq<BuilderPage>, path: Seq<char>, i: int) -> Option<
    int,
>
    decreases pages.len() - i,
{
    if i < 0 || i >= pages.len() {
        None
    } else if file_name_of(pages[i].path@) == file_name_of(stem_of(file_name_of(path)) + ".md"@) {
        Some(i)
    } else {
        first_matching_page(pages, path, i + 1)
    }
}

/// Finds the page overriding the chapter at `path`, exactly the first
/// whose file name equals the chapter's markdown name.
fn find_matching_page<'a>(pages: &'a Vec<BuilderPage>, path: &String) -> (r: Option<
    &'a BuilderPage,
>)
    ensures
        match r {
            Some(p) => first_matching_page(pages@, path@, 0) matches Some(j) && *p == pages@[j],
            None => first_matching_page(pages@, path@, 0) is None,
        },
{
    let md_file = to_md_name(path.as_str());
    let mut i: usize = 0;
    while i < pages.len()
        invariant
            i <= pages@.len(),
            md_file@ == stem_of(file_name_of(path@)) + ".md"@,
            first_matching_page(pages@, path@, 0) == first_matching_page(pages@, path@, i as int),
        decreases pages@.len() - i,
    {
        if pages[i].is_matching_file(&md_file) {
            return Some(&pages[i]);
        }
        i = i + 1;
    }
    None
}

/// One rebuilt chapter is right for its spine path: destined for
/// `Text/<file name>`, untitled and top-level for now, and holding either
/// the transcoding of the overriding page or the original document with
/// its image paths rewritten.
pub open spec fn chapter_ok(
    epub: Archive,
    pages: Seq<BuilderPage>,
    path: Seq<char>,
    c: ChapterContent,
) -> bool {
    &&& c.href@ == "Text/"@ + file_name_of(path)
    &&& c.title is None
    &&& c.level == 1i32
    &&& match first_matching_page(pages, path, 0) {
        Some(j) => c.html@ == gen_html_spec(pages[j].content@),
        None => exists|k: int|
            0 <= k < epub.resources@.len() && (#[trigger] epub.resources@[k]).path@ == path
                && vstd::utf8::valid_utf8(epub.resources@[k].data@) && c.html@ == rewrite_from(
                vstd::utf8::decode_utf8(epub.resources@[k].data@),
                "../Images"@,
                0,
            ),
    }
}

/// Collects the rebuilt chapter documents in spine order: each chapter is
/// the transcoding of its overriding page when one matches (by file stem),
/// else the original document with image paths rewritten; every chapter is
/// destined for `Text/<original file name>`, untitled and top-level until
/// the table of contents is applied.
pub fn collect_contents(epub: &Archive, pages: &Vec<BuilderPage>) -> (r: Result<
    Vec<ChapterContent>,
    crate::archive::DocumentError,
>)
    ensures
        (crate::archive::spine_resolvable(*epub) && (forall|j: int|
            0 <= j < epub.resources@.len() ==> vstd::utf8::valid_utf8(
                (#[trigger] epub.resources@[j]).data@,
            ))) ==> r is Ok,
        r matches Err(e) ==> e is MissingResource || e is BadText,
        (r matches Err(e) && e is MissingResource) ==> !crate::archive::spine_resolvable(*epub),
        (r matches Err(e) && e is BadText) ==> exists|j: int|
            0 <= j < epub.resources@.len() && !vstd::utf8::valid_utf8(
                (#[trigger] epub.resources@[j]).data@,
            ),
        r matches Ok(contents) ==> ({
            &&& crate::archive::spine_resolvable(*epub)
            &&& contents@.len() == epub.spine@.len()
            &&& forall|k: int|
                #![trigger contents@[k]]
                0 <= k < contents@.len() ==> chapter_ok(
                    *epub,
                    pages@,
                    epub.resources@[crate::archive::resource_index(epub.resources@, epub.spine@[k]@)->0].path@,
                    contents@[k])
        }),
{
    let paths = match crate::archive::get_ordered_path(epub) {
        Some(p) => p,
        None => {
            return Err(crate::archive::DocumentError::MissingResource);
        },
    };
    let mut contents: Vec<ChapterContent> = Vec::new();
    let mut k: usize = 0;
    while k < paths.len()
        invariant
            k <= paths@.len(),
            paths@.len() == epub.spine@.len(),
            forall|j: int|
                0 <= j < epub.spine@.len() ==> crate::archive::resource_index(
                    epub.resources@,
                    (#[trigger] epub.spine@[j])@,
                ) is Some,
            forall|j: int|
                0 <= j < epub.spine@.len() ==> (#[trigger] paths@[j])@
                    == epub.resources@[crate::archive::resource_index(
                    epub.resources@,
                    epub.spine@[j]@,
                )->0].path@,
            contents@.len() == k,
            forall|j: int|
                #![trigger contents@[j]]
                0 <= j < k ==> chapter_ok(
                    *epub,
                    pages@,
                    epub.resources@[crate::archive::resource_index(epub.resources@, epub.spine@[j]@)->0].path@,
                    contents@[j]),
        decreases paths@.len() - k,
    {
        let path = &paths[k];
        let html = match find_matching_page(pages, path) {
            Some(page) => gen_html(page.content.as_str()),
            None => {
                let entry = match epub.find_resource_by_path(path) {
                    Some(e) => e,
                    None => {
                        proof {
                            // The path came out of the resource table, so a
                            // lookup by it cannot miss.
                            let idx = crate::archive::resource_index(
                                epub.resources@,
                                epub.spine@[k as int]@,
                            )->0;
                            crate::archive::lemma_resource_index_bounds(
                                epub.resources@,
                                epub.spine@[k as int]@,
                                0,
                            );
                            assert(epub.resources@[idx].path@ == paths@[k as int]@);
                            assert(false);
                        }
                        return Err(crate::archive::DocumentError::MissingResource);
                    },
                };
                let original = match crate::archive::utf8_to_string(&entry.data) {
                    Some(h) => h,
                    None => {
                        return Err(crate::archive::DocumentError::BadText);
                    },
                };
                update_image_paths(original.as_str())
            },
        };
        let href = to_text_path(path.as_str());
        contents.push(ChapterContent { href, html, title: None, level: 1 });
        k = k + 1;
    }
    Ok(contents)
}

/// The position of the last anchor whose key equals the chapter's file
/// name, scanning positions below `j`; later anchors shadow earlier ones.
pub open spec fn last_anchor(anchors: Seq<(String, String)>, name: Seq<char>, j: int) -> Option<
    int,
>
    decreases j,
{
    if j <= 0 || j > anchors.len() {
        None
    } else if anchors[j - 1].0@ == name {
        Some(j - 1)
    } else {
        last_anchor(anchors, name, j - 1)
    }
}

/// Applies table-of-contents titles: a chapter whose file name has an
/// anchor takes that anchor's title; a chapter without one becomes a
/// nested (level-two) entry.
pub fn add_titles(contents: Vec<ChapterContent>, anchors: &Vec<(String, String)>) -> (r: Vec<
    ChapterContent,
>)
    ensures
        r@.len() == contents@.len(),
        forall|k: int|
            0 <= k < contents@.len() ==> ({
                let c0 = #[trigger] contents@[k];
                let c1 = r@[k];
                &&& c1.href == c0.href
                &&& c1.html == c0.html
                &&& match last_anchor(anchors@, file_name_of(c0.href@), anchors@.len() as int) {
                    Some(j) => c1.title == Some(anchors@[j].1) && c1.level == c0.level,
                    None => c1.title == c0.title && c1.level == 2i32,
                }
            }),
{
    let mut out: Vec<ChapterContent> = Vec::new();
    let mut k: usize = 0;
    while k < contents.len()
        invariant
            k <= contents@.len(),
            out@.len() == k,
            forall|j: int|
                0 <= j < k ==> ({
                    let c0 = #[trigger] contents@[j];
                    let c1 = out@[j];
                    &&& c1.href == c0.href
                    &&& c1.html == c0.html
                    &&& match last_anchor(
                        anchors@,
                        file_name_of(c0.href@),
                        anchors@.len() as int,
                    ) {
                        Some(a) => c1.title == Some(anchors@[a].1) && c1.level == c0.level,
                        None => c1.title == c0.title && c1.level == 2i32,
                    }
                }),
        decreases contents@.len() - k,
    {
        let c = &contents[k];
        let name = file_name(c.href.as_str());
        let mut chapter = ChapterContent {
            href: c.href.clone(),
            html: c.html.clone(),
            title: c.title.clone(),
            level: c.level,
        };
        match lookup_anchor(anchors, &name) {
            Some(title) => {
                chapter.title = Some(title);
            },
            None => {
                chapter.level = 2;
            },
        }
        out.push(chapter);
        k = k + 1;
    }
    out
}

/// Looks a chapter file name up among the anchors, taking the latest
/// match.
fn lookup_anchor(anchors: &Vec<(String, String)>, name: &String) -> (r: Option<String>)
    ensures
        match last_anchor(anchors@, name@, anchors@.len() as int) {
            Some(j) => r == Some(anchors@[j].1),
            None => r is None,
        },
{
    let mut j: usize = anchors.len();
    while j > 0
        invariant
            j <= anchors@.len(),
            last_anchor(anchors@, name@, anchors@.len() as int) == last_anchor(
                anchors@,
                name@,
                j as int,
            ),
        decreases j,
    {
        if anchors[j - 1].0 == *name {
            return Some(anchors[j - 1].1.clone());
        }
        j = j - 1;
    }
    None
}

/// The key a link target is filed under: the file name of the target path,
/// cut before any fragment marker.
pub open spec fn anchor_key(url: Seq<char>) -> Seq<char> {
    let name = file_name_of(url);
    match find_at(name, "#"@, 0) {
        Some(h) => name.take(h),
        None => name,
    }
}

/// The links of a markdown document from position `i` on, scanning left to
/// right: each `[title](target)` yields the pair of the target's key and
/// the title; everything else is passed over.
pub open spec fn anchors_from(s: Seq<char>, i: int) -> Seq<(Seq<char>, Seq<char>)>
    decreases s.len() - i,
    via anchors_from_decreases
{
    if i < 0 || i >= s.len() {
        Seq::empty()
    } else if s[i] == '[' && find_at(s, "]"@, i + 1) is Some && find_at(s, "]"@, i + 1)->0 + 1
        < s.len() && s[find_at(s, "]"@, i + 1)->0 + 1] == '(' && find_at(
        s,
        ")"@,
        find_at(s, "]"@, i + 1)->0 + 2,
    ) is Some {
        let cb = find_at(s, "]"@, i + 1)->0;
        let pe = find_at(s, ")"@, cb + 2)->0;
        seq![(anchor_key(s.subrange(cb + 2, pe)), s.subrange(i + 1, cb))] + anchors_from(
            s,
            pe + 1,
        )
    } else {
        anchors_from(s, i + 1)
    }
}

#[via_fn]
proof fn anchors_from_decreases(s: Seq<char>, i: int) {
    if 0 <= i < s.len() && s[i] == '[' && find_at(s, "]"@, i + 1) is Some {
        reveal_strlit("]");
        reveal_strlit(")");
        lemma_find_at_bounds(s, "]"@, i + 1);
        let cb = find_at(s, "]"@, i + 1)->0;
        if find_at(s, ")"@, cb + 2) is Some {
            lemma_find_at_bounds(s, ")"@, cb + 2);
        }
    }
}

/// The view pairs of an anchor list.
pub open spec fn anchor_views(anchors: Seq<(String, String)>) -> Seq<(Seq<char>, Seq<char>)> {
    anchors.map_values(|p: (String, String)| (p.0@, p.1@))
}

/// Reads the chapter anchors out of a table-of-contents markdown document:
/// one `(key, title)` pair per `[title](target)` link, in order, the key
/// being the target's file name without any fragment.
pub fn parse_anchors(markdown: &str) -> (r: Vec<(String, String)>)
    ensures
        anchor_views(r@) == anchors_from(markdown@, 0),
{
    let s = to_chars(markdown);
    let cb_pat = to_chars("]");
    let pe_pat = to_chars(")");
    let hash_pat = to_chars("#");
    proof {
        reveal_strlit("]");
        reveal_strlit(")");
        reveal_strlit("#");
    }
    let mut out: Vec<(String, String)> = Vec::new();
    let mut i: usize = 0;
    proof {
        assert(anchor_views(out@) + anchors_from(s@, 0) =~= anchors_from(s@, 0));
    }
    while i < s.len()
        invariant
            s@ == markdown@,
            cb_pat@ == "]"@,
            pe_pat@ == ")"@,
            hash_pat@ == "#"@,
            cb_pat@.len() == 1,
            pe_pat@.len() == 1,
            hash_pat@.len() == 1,
            i <= s@.len(),
            anchor_views(out@) + anchors_from(s@, i as int) == anchors_from(s@, 0),
        decreases s@.len() - i,
    {
        let ghost prev_i = i as int;
        let mut advanced = false;
        if s[i] == '[' {
            match chars_find_at(&s, &cb_pat, i + 1) {
                Some(cb) => {
                    proof {
                        lemma_find_at_bounds(s@, "]"@, i + 1);
                    }
                    if s.len() - cb > 1 {
                        let open_ok = s[cb + 1] == '(';
                        if open_ok {
                            match chars_find_at(&s, &pe_pat, cb + 2) {
                                Some(pe) => {
                                    proof {
                                        lemma_find_at_bounds(s@, ")"@, cb + 2);
                                    }
                                    let mut title: Vec<char> = Vec::new();
                                    crate::xhtml::push_range(&mut title, &s, i + 1, cb);
                                    let mut url: Vec<char> = Vec::new();
                                    crate::xhtml::push_range(&mut url, &s, cb + 2, pe);
                                    let key = anchor_key_chars(&url, &hash_pat);
                                    let ghost old_out = out@;
                                    out.push((key, from_chars(&title)));
                                    i = pe + 1;
                                    advanced = true;
                                    proof {
                                        assert(title@ =~= s@.subrange(prev_i + 1, cb as int));
                                        assert(url@ =~= s@.subrange(cb + 2, pe as int));
                                        assert(anchor_views(out@) =~= anchor_views(old_out)
                                            + seq![
                                            (
                                                anchor_key(s@.subrange(cb + 2, pe as int)),
                                                s@.subrange(prev_i + 1, cb as int),
                                            ),
                                        ]);
                                        assert(anchor_views(out@) + anchors_from(s@, i as int)
                                            =~= anchors_from(s@, 0));
                                    }
                                },
                                None => {},
                            }
                        }
                    }
                },
                None => {},
            }
        }
        if !advanced {
            proof {
                assert(anchors_from(s@, prev_i) == anchors_from(s@, prev_i + 1));
            }
            i = i + 1;
        }
    }
    proof {
        assert(anchor_views(out@) =~= anchors_from(s@, 0));
    }
    out
}

/// The anchor key of a link target, at runtime.
fn anchor_key_chars(url: &Vec<char>, hash_pat: &Vec<char>) -> (r: String)
    requires
        hash_pat@ == "#"@,
        hash_pat@.len() == 1,
    ensures
        r@ == anchor_key(url@),
{
    let mut name: Vec<char> = Vec::new();
    crate::xhtml::push_file_name_range(&mut name, url, 0, url.len());
    proof {
        assert(url@.subrange(0, url@.len() as int) =~= url@);
    }
    match chars_find_at(&name, hash_pat, 0) {
        Some(h) => {
            proof {
                lemma_find_at_bounds(name@, "#"@, 0);
            }
            let mut cut: Vec<char> = Vec::new();
            crate::xhtml::push_range(&mut cut, &name, 0, h);
            proof {
                assert(cut@ =~= anchor_key(url@));
            }
            from_chars(&cut)
        },
        None => {
            from_chars(&name)
        },
    }
}

/// Whether a resource is an image to carry over: its MIME type starts with
/// `image` and it is not the cover.
pub open spec fn is_image_entry(e: ResourceEntry, cover: Option<String>) -> bool {
    &&& e.mime@.len() >= 5
    &&& e.mime@.subrange(0, 5) == "image"@
    &&& match cover {
        Some(c) => e.id@ != c@,
        None => true,
    }
}

/// Two resource entries carry the same identifier, path, MIME type and
/// contents.
pub open spec fn entry_like(a: ResourceEntry, b: ResourceEntry) -> bool {
    &&& a.id == b.id
    &&& a.path == b.path
    &&& a.mime == b.mime
    &&& a.data@ == b.data@
}

/// The archive's image resources other than the cover, in table order:
/// each entry of the table whose MIME type names an image and which is not
/// the cover, exactly once, in order.
pub open spec fn image_filter(
    rs: Seq<ResourceEntry>,
    cover: Option<String>,
    i: int,
) -> Seq<ResourceEntry>
    decreases rs.len() - i,
{
    if i < 0 || i >= rs.len() {
        Seq::empty()
    } else if is_image_entry(rs[i], cover) {
        seq![rs[i]] + image_filter(rs, cover, i + 1)
    } else {
        image_filter(rs, cover, i + 1)
    }
}

/// The two entry lists carry the same entries, field for field, in the
/// same order.
pub open spec fn entries_like(a: Seq<ResourceEntry>, b: Seq<ResourceEntry>) -> bool {
    &&& a.len() == b.len()
    &&& forall|j: int| 0 <= j < a.len() ==> entry_like(#[trigger] a[j], b[j])
}

/// The archive's image resources other than the cover: exactly the image
/// entries of the resource table with the cover left out, each once, in
/// table order.
pub fn get_images(epub: &Archive) -> (r: Vec<ResourceEntry>)
    ensures
        entries_like(r@, image_filter(epub.resources@, epub.cover_id, 0)),
        forall|j: int| 0 <= j < r@.len() ==> is_image_entry(#[trigger] r@[j], epub.cover_id),
{
    let ghost filtered = image_filter(epub.resources@, epub.cover_id, 0);
    let mut out: Vec<ResourceEntry> = Vec::new();
    let mut k: usize = 0;
    proof {
        assert(filtered.subrange(0, 0) =~= Seq::<ResourceEntry>::empty());
    }
    while k < epub.resources.len()
        invariant
            k <= epub.resources@.len(),
            filtered == image_filter(epub.resources@, epub.cover_id, 0),
            out@.len() == filtered.len() - image_filter(
                epub.resources@,
                epub.cover_id,
                k as int,
            ).len(),
            filtered =~= filtered.subrange(0, out@.len() as int) + image_filter(
                epub.resources@,
                epub.cover_id,
                k as int,
            ),
            forall|j: int|
                0 <= j < out@.len() ==> entry_like(#[trigger] out@[j], filtered[j]),
            forall|j: int| 0 <= j < out@.len() ==> is_image_entry(#[trigger] out@[j], epub.cover_id),
        decreases epub.resources@.len() - k,
    {
        let e = &epub.resources[k];
        let mime_image = is_image_mime(&e.mime);
        let not_cover = match &epub.cover_id {
            Some(c) => !(e.id == *c),
            None => true,
        };
        if mime_image && not_cover {
            proof {
                assert(image_filter(epub.resources@, epub.cover_id, k as int) == seq![
                    epub.resources@[k as int],
                ] + image_filter(epub.resources@, epub.cover_id, (k + 1) as int));
                assert(filtered[out@.len() as int] == epub.resources@[k as int]);
                assert(filtered.subrange(0, (out@.len() + 1) as int) =~= filtered.subrange(
                    0,
                    out@.len() as int,
                ).push(epub.resources@[k as int]));
                assert(filtered.subrange(0, (out@.len() + 1) as int) + image_filter(
                    epub.resources@,
                    epub.cover_id,
                    (k + 1) as int,
                ) =~= filtered);
            }
            out.push(clone_entry(e));
            proof {
                assert(entry_like(out@[out@.len() - 1], epub.resources@[k as int]));
            }
        } else {
            proof {
                assert(!is_image_entry(epub.resources@[k as int], epub.cover_id));
                assert(image_filter(epub.resources@, epub.cover_id, k as int) == image_filter(
                    epub.resources@,
                    epub.cover_id,
                    (k + 1) as int,
                ));
            }
        }
        k = k + 1;
    }
    proof {
        assert(image_filter(epub.resources@, epub.cover_id, epub.resources@.len() as int)
            =~= Seq::<ResourceEntry>::empty());
        assert(filtered.subrange(0, out@.len() as int) =~= filtered);
    }
    out
}

/// The MIME type names an image.
fn is_image_mime(mime: &String) -> (r: bool)
    ensures
        r == (mime@.len() >= 5 && mime@.subrange(0, 5) == "image"@),
{
    let s = mime.as_str();
    if s.unicode_len() < 5 {
        return false;
    }
    let prefix = s.substring_char(0, 5);
    let p = String::from_str(prefix);
    let image = String::from_str("image");
    p == image
}

/// A copy of a resource entry carrying the same fields.
fn clone_entry(e: &ResourceEntry) -> (r: ResourceEntry)
    ensures
        entry_like(r, *e),
{
    let data_copy = copy_bytes(&e.data);
    ResourceEntry { id: e.id.clone(), path: e.path.clone(), mime: e.mime.clone(), data: data_copy }
}

/// The outside archive writer's builder object over its in-memory zip
/// backend, held opaquely: the writer's generic bound lives in one of its
/// private modules, so the type itself cannot be declared to the verifier.
/// What has been handed to it is tracked by the three names below.
#[verifier::external_body]
pub struct EpubPackager {
    inner: epub_builder::EpubBuilder<epub_builder::ZipLibrary>,
}

/// The `(path, MIME type)` pairs of the files handed to the writer's
/// resource interface, in call order.
pub uninterp spec fn packager_resources(p: &EpubPackager) -> Seq<(Seq<char>, Seq<char>)>;

/// The `(path, MIME type)` of the file handed to the writer's dedicated
/// cover interface, when one has been.
pub uninterp spec fn packager_cover(p: &EpubPackager) -> Option<(Seq<char>, Seq<char>)>;

/// The `(destination, document, title, level)` of each chapter handed to
/// the writer's content interface, in spine order.
pub uninterp spec fn packager_chapters(p: &EpubPackager) -> Seq<
    (Seq<char>, Seq<char>, Option<Seq<char>>, int),
>;

/// The view of an optional title.
pub open spec fn opt_str_view(o: Option<String>) -> Option<Seq<char>> {
    match o {
        Some(t) => Some(t@),
        None => None,
    }
}

/// The archive could not be packaged.
#[derive(Debug, Clone, Copy, PartialEq, Eq, Structural)]
pub struct BuildError;

/// Relies on epub-builder's `ZipLibrary::new` and `EpubBuilder::new`: a
/// fresh builder over an in-memory zip, with nothing handed to any of its
/// interfaces yet.
#[verifier::external_body]
fn new_epub_builder() -> (r: Result<EpubPackager, BuildError>)
    ensures
        r matches Ok(p) ==> packager_resources(&p).len() == 0 && packager_cover(&p) is None
            && packager_chapters(&p).len() == 0,
{
    let zip = epub_builder::ZipLibrary::new().map_err(|_| BuildError)?;
    let inner = epub_builder::EpubBuilder::new(zip).map_err(|_| BuildError)?;
    Ok(EpubPackager { inner })
}

/// Relies on epub-builder's `EpubBuilder::epub_version`: marks the archive
/// as EPUB 3.0; nothing is handed to the file interfaces.
#[verifier::external_body]
fn set_epub_version(b: &mut EpubPackager)
    ensures
        packager_resources(final(b)) == packager_resources(old(b)),
        packager_cover(final(b)) == packager_cover(old(b)),
        packager_chapters(final(b)) == packager_chapters(old(b)),
{
    b.inner.epub_version(epub_builder::EpubVersion::V30);
}

/// Relies on epub-builder's `EpubBuilder::stylesheet`: hands the CSS to
/// the resource interface as `stylesheet.css` of type `text/css`; on
/// failure nothing was handed over.
#[verifier::external_body]
fn set_stylesheet(b: &mut EpubPackager, css: &str) -> (r: Result<(), BuildError>)
    ensures
        r is Ok ==> packager_resources(final(b)) == packager_resources(old(b)).push(
            ("stylesheet.css"@, "text/css"@),
        ),
        r is Err ==> packager_resources(final(b)) == packager_resources(old(b)),
        packager_cover(final(b)) == packager_cover(old(b)),
        packager_chapters(final(b)) == packager_chapters(old(b)),
{
    b.inner.stylesheet(css.as_bytes()).map(|_| ()).map_err(|_| BuildError)
}

/// Relies on epub-builder's `EpubBuilder::set_lang`: records the archive's
/// language; nothing is handed to the file interfaces.
#[verifier::external_body]
fn set_language(b: &mut EpubPackager, lang: &str)
    ensures
        packager_resources(final(b)) == packager_resources(old(b)),
        packager_cover(final(b)) == packager_cover(old(b)),
        packager_chapters(final(b)) == packager_chapters(old(b)),
{
    b.inner.set_lang(lang);
}

/// Relies on epub-builder's `EpubBuilder::add_resource`: hands one file to
/// the resource interface under the given path and MIME type; on failure
/// nothing was handed over.
#[verifier::external_body]
fn add_resource(
    b: &mut EpubPackager,
    path: &str,
    data: &Vec<u8>,
    mime: &str,
) -> (r: Result<(), BuildError>)
    ensures
        r is Ok ==> packager_resources(final(b)) == packager_resources(old(b)).push(
            (path@, mime@),
        ),
        r is Err ==> packager_resources(final(b)) == packager_resources(old(b)),
        packager_cover(final(b)) == packager_cover(old(b)),
        packager_chapters(final(b)) == packager_chapters(old(b)),
{
    b.inner.add_resource(path, data.as_slice(), mime).map(|_| ()).map_err(|_| BuildError)
}

/// Relies on epub-builder's `EpubBuilder::add_cover_image`: hands the
/// cover file to the dedicated cover interface; on failure nothing was
/// handed over.
#[verifier::external_body]
fn add_cover_image(
    b: &mut EpubPackager,
    path: &str,
    data: &Vec<u8>,
    mime: &str,
) -> (r: Result<(), BuildError>)
    ensures
        r is Ok ==> packager_cover(final(b)) == Some((path@, mime@)),
        r is Err ==> packager_cover(final(b)) == packager_cover(old(b)),
        packager_resources(final(b)) == packager_resources(old(b)),
        packager_chapters(final(b)) == packager_chapters(old(b)),
{
    b.inner.add_cover_image(path, data.as_slice(), mime).map(|_| ()).map_err(|_| BuildError)
}

/// Relies on epub-builder's `EpubContent::new`, `title`, `level` and
/// `EpubBuilder::add_content`: appends one chapter document to the spine,
/// with its table-of-contents title and nesting level; on failure nothing
/// was handed over.
#[verifier::external_body]
fn add_chapter(b: &mut EpubPackager, chapter: &ChapterContent) -> (r: Result<(), BuildError>)
    ensures
        r is Ok ==> packager_chapters(final(b)) == packager_chapters(old(b)).push(
            (chapter.href@, chapter.html@, opt_str_view(chapter.title), chapter.level as int),
        ),
        r is Err ==> packager_chapters(final(b)) == packager_chapters(old(b)),
        packager_resources(final(b)) == packager_resources(old(b)),
        packager_cover(final(b)) == packager_cover(old(b)),
{
    let mut content = epub_builder::EpubContent::new(
        chapter.href.as_str(),
        chapter.html.as_bytes(),
    );
    if let Some(t) = &chapter.title {
        content = content.title(t.as_str());
    }
    content = content.level(chapter.level);
    b.inner.add_content(content).map(|_| ()).map_err(|_| BuildError)
}

/// Relies on epub-builder's `EpubBuilder::generate`: packages everything
/// handed over into the bytes of a finished archive.  The bytes mix in the
/// packaging time and a fresh identifier, so nothing is promised of them.
#[verifier::external_body]
fn generate_epub(b: EpubPackager) -> (r: Result<Vec<u8>, BuildError>) {
    let mut bytes: Vec<u8> = Vec::new();
    b.inner.generate(&mut bytes).map_err(|_| BuildError)?;
    Ok(bytes)
}

/// The resource files a rebuilt archive receives: the stylesheet, then one
/// `Images/` entry per non-cover image of the original, in table order.
pub open spec fn planned_resources(epub: Archive) -> Seq<(Seq<char>, Seq<char>)> {
    seq![("stylesheet.css"@, "text/css"@)] + image_filter(
        epub.resources@,
        epub.cover_id,
        0,
    ).map_values(|e: ResourceEntry| ("Images/"@ + file_name_of(e.path@), e.mime@))
}

/// The cover a rebuilt archive receives: the original's cover resource
/// under `Images/`, when the archive names one that resolves.
pub open spec fn planned_cover(epub: Archive) -> Option<(Seq<char>, Seq<char>)> {
    match epub.cover_id {
        Some(c) => match crate::archive::resource_index(epub.resources@, c@) {
            Some(k) => Some(
                ("Images/"@ + file_name_of(epub.resources@[k].path@), epub.resources@[k].mime@),
            ),
            None => None,
        },
        None => None,
    }
}

/// The chapter handed over for spine position `k` is the planned one: the
/// right destination, the overriding page's transcoding or the rewritten
/// original, and the title and nesting the table of contents gives it.
pub open spec fn planned_chapter(
    epub: Archive,
    pages: Seq<BuilderPage>,
    anchors: Option<Seq<(String, String)>>,
    k: int,
    entry: (Seq<char>, Seq<char>, Option<Seq<char>>, int),
) -> bool {
    let path = epub.resources@[crate::archive::resource_index(
        epub.resources@,
        epub.spine@[k]@,
    )->0].path@;
    &&& entry.0 == "Text/"@ + file_name_of(path)
    &&& (match first_matching_page(pages, path, 0) {
        Some(j) => entry.1 == gen_html_spec(pages[j].content@),
        None => exists|t: int|
            0 <= t < epub.resources@.len() && (#[trigger] epub.resources@[t]).path@ == path
                && vstd::utf8::valid_utf8(epub.resources@[t].data@) && entry.1 == rewrite_from(
                vstd::utf8::decode_utf8(epub.resources@[t].data@),
                "../Images"@,
                0,
            ),
    })
    &&& (match anchors {
        None => entry.2 is None && entry.3 == 1,
        Some(a) => match last_anchor(a, file_name_of(entry.0), a.len() as int) {
            Some(j) => entry.2 == Some(a[j].1@) && entry.3 == 1,
            None => entry.2 is None && entry.3 == 2,
        },
    })
}

/// Rebuilds one archive from an opened EPUB and a set of page overrides.
#[derive(Debug)]
pub struct DocBuilder {
    pub epub: Archive,
    pub name: String,
    pub pages: Vec<BuilderPage>,
}

impl DocBuilder {
    /// Hands the whole rebuilt archive to the outside writer and returns
    /// it ready to be packaged: the stylesheet and language installed,
    /// exactly one `Images/` resource per non-cover image of the original
    /// in table order, the cover through the dedicated cover mechanism
    /// when the original resolves one, and the chapters in spine order —
    /// each the planned one, titled from the table of contents when
    /// anchors are given.
    pub fn prepare(self, anchors: &Option<Vec<(String, String)>>) -> (r: Result<
        (EpubPackager, String),
        BuildError,
    >)
        ensures
            r matches Ok(pair) ==> ({
                let av = match *anchors {
                    Some(a) => Some(a@),
                    None => None,
                };
                &&& pair.1 == self.name
                &&& crate::archive::spine_resolvable(self.epub)
                &&& packager_resources(&pair.0) == planned_resources(self.epub)
                &&& packager_cover(&pair.0) == planned_cover(self.epub)
                &&& packager_chapters(&pair.0).len() == self.epub.spine@.len()
                &&& forall|k: int|
                    0 <= k < self.epub.spine@.len() ==> planned_chapter(
                        self.epub,
                        self.pages@,
                        av,
                        k,
                        #[trigger] packager_chapters(&pair.0)[k],
                    )
            }),
            !crate::archive::spine_resolvable(self.epub) ==> r is Err,
    {
        let mut builder = match new_epub_builder() {
            Ok(b) => b,
            Err(e) => {
                return Err(e);
            },
        };
        set_epub_version(&mut builder);
        if set_stylesheet(&mut builder, DEFAULT_STYLESHEET).is_err() {
            return Err(BuildError);
        }
        set_language(&mut builder, "en");
        proof {
            reveal_strlit("Images");
            reveal_strlit("/");
            reveal_strlit("Images/");
            assert("Images"@ + "/"@ =~= "Images/"@);
            assert(packager_resources(&builder) =~= seq![("stylesheet.css"@, "text/css"@)]);
        }
        let ghost mapped = image_filter(self.epub.resources@, self.epub.cover_id, 0).map_values(
            |e: ResourceEntry| ("Images/"@ + file_name_of(e.path@), e.mime@),
        );
        let images = get_images(&self.epub);
        let mut k: usize = 0;
        proof {
            assert(packager_resources(&builder) =~= seq![("stylesheet.css"@, "text/css"@)]
                + mapped.subrange(0, 0));
        }
        while k < images.len()
            invariant
                k <= images@.len(),
                entries_like(
                    images@,
                    image_filter(self.epub.resources@, self.epub.cover_id, 0),
                ),
                mapped == image_filter(self.epub.resources@, self.epub.cover_id, 0).map_values(
                    |e: ResourceEntry| ("Images/"@ + file_name_of(e.path@), e.mime@),
                ),
                "Images"@ + "/"@ == "Images/"@,
                packager_resources(&builder) == seq![("stylesheet.css"@, "text/css"@)]
                    + mapped.subrange(0, k as int),
                packager_cover(&builder) is None,
                packager_chapters(&builder).len() == 0,
            decreases images@.len() - k,
        {
            let image = &images[k];
            let dest = crate::paths::to_image_path("Images", image.path.as_str());
            if add_resource(&mut builder, dest.as_str(), &image.data, image.mime.as_str()).is_err()
            {
                return Err(BuildError);
            }
            proof {
                assert(entry_like(
                    images@[k as int],
                    image_filter(self.epub.resources@, self.epub.cover_id, 0)[k as int],
                ));
                assert((dest@, image.mime@) == mapped[k as int]);
                assert(mapped.subrange(0, (k + 1) as int) =~= mapped.subrange(0, k as int).push(
                    mapped[k as int],
                ));
                assert(packager_resources(&builder) =~= seq![("stylesheet.css"@, "text/css"@)]
                    + mapped.subrange(0, (k + 1) as int));
            }
            k = k + 1;
        }
        proof {
            assert(mapped.subrange(0, mapped.len() as int) =~= mapped);
            assert(packager_resources(&builder) =~= planned_resources(self.epub));
        }
        match &self.epub.cover_id {
            Some(cover) => {
                match self.epub.find_resource(cover) {
                    Some(entry) => {
                        let dest = crate::paths::to_image_path("Images", entry.path.as_str());
                        if add_cover_image(
                            &mut builder,
                            dest.as_str(),
                            &entry.data,
                            entry.mime.as_str(),
                        ).is_err() {
                            return Err(BuildError);
                        }
                        proof {
                            assert(packager_cover(&builder) == planned_cover(self.epub));
                        }
                    },
                    None => {
                        proof {
                            assert(packager_cover(&builder) == planned_cover(self.epub));
                        }
                    },
                }
            },
            None => {
                proof {
                    assert(packager_cover(&builder) == planned_cover(self.epub));
                }
            },
        }
        let ghost av: Option<Seq<(String, String)>> = match anchors {
            Some(a) => Some(a@),
            None => None,
        };
        let contents0 = match collect_contents(&self.epub, &self.pages) {
            Ok(c) => c,
            Err(_) => {
                return Err(BuildError);
            },
        };
        let ghost cv0 = contents0@;
        let contents = match anchors {
            Some(a) => add_titles(contents0, a),
            None => contents0,
        };
        let mut j: usize = 0;
        while j < contents.len()
            invariant
                j <= contents@.len(),
                contents@.len() == cv0.len(),
                cv0.len() == self.epub.spine@.len(),
                crate::archive::spine_resolvable(self.epub),
                forall|t: int|
                    #![trigger cv0[t]]
                    0 <= t < cv0.len() ==> chapter_ok(
                        self.epub,
                        self.pages@,
                        self.epub.resources@[crate::archive::resource_index(self.epub.resources@, self.epub.spine@[t]@)->0].path@,
                        cv0[t]),
                match av {
                    None => contents@ == cv0,
                    Some(a) => forall|t: int|
                        #![trigger contents@[t]]
                        0 <= t < cv0.len() ==> ({
                            let c0 = cv0[t];
                            let c1 = contents@[t];
                            &&& c1.href == c0.href
                            &&& c1.html == c0.html
                            &&& match last_anchor(a, file_name_of(c0.href@), a.len() as int) {
                                Some(x) => c1.title == Some(a[x].1) && c1.level == c0.level,
                                None => c1.title == c0.title && c1.level == 2i32,
                            }
                        }),
                },
                packager_resources(&builder) == planned_resources(self.epub),
                packager_cover(&builder) == planned_cover(self.epub),
                packager_chapters(&builder).len() == j,
                forall|t: int|
                    0 <= t < j ==> planned_chapter(
                        self.epub,
                        self.pages@,
                        av,
                        t,
                        #[trigger] packager_chapters(&builder)[t],
                    ),
            decreases contents@.len() - j,
        {
            if add_chapter(&mut builder, &contents[j]).is_err() {
                return Err(BuildError);
            }
            proof {
                let c0 = cv0[j as int];
                let c1 = contents@[j as int];
                assert(chapter_ok(
                    self.epub,
                    self.pages@,
                    self.epub.resources@[crate::archive::resource_index(self.epub.resources@, self.epub.spine@[j as int]@)->0].path@,
                    c0));
                assert(planned_chapter(
                    self.epub,
                    self.pages@,
                    av,
                    j as int,
                    (c1.href@, c1.html@, opt_str_view(c1.title), c1.level as int)));
            }
            j = j + 1;
        }
        Ok((builder, self.name))
    }

    /// Produces the bytes of the rebuilt archive: everything
    /// [`DocBuilder::prepare`] hands over, packaged by the outside writer.
    /// On success the chosen name comes back with the bytes; any failure
    /// discards the partial archive.
    pub fn build(self, anchors: Option<Vec<(String, String)>>) -> (r: Result<
        (Vec<u8>, String),
        BuildError,
    >)
        ensures
            r matches Ok(pair) ==> pair.1 == self.name,
            r is Ok ==> crate::archive::spine_resolvable(self.epub),
            !crate::archive::spine_resolvable(self.epub) ==> r is Err,
    {
        let (packager, name) = match self.prepare(&anchors) {
            Ok(pair) => pair,
            Err(e) => {
                return Err(e);
            },
        };
        let bytes = match generate_epub(packager) {
            Ok(b) => b,
            Err(e) => {
                return Err(e);
            },
        };
        Ok((bytes, name))
    }
}

/// An exact copy of a byte vector.
fn copy_bytes(v: &Vec<u8>) -> (r: Vec<u8>)
    ensures
        r@ == v@,
{
    let mut out: Vec<u8> = Vec::new();
    let mut i: usize = 0;
    while i < v.len()
        invariant
            i <= v@.len(),
            out@ == v@.subrange(0, i as int),
        decreases v@.len() - i,
    {
        out.push(v[i]);
        i = i + 1;
        proof {
            assert(out@ =~= v@.subrange(0, i as int));
        }
    }
    proof {
        assert(out@ =~= v@);
    }
    out
}

} // verus!
