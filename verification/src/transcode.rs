//! The markdown transcoder: HTML to markdown through an outside converter,
//! markdown back to XHTML through an outside renderer, with the library's
//! own tag stripping, quote folding and XML escaping around them.

use crate::tags::{remove_part_tags, remove_think_tags, strip_from};
use crate::text::{fold_quote, from_chars, replace_jp_symbols, to_chars};
use vstd::prelude::*;

verus! {

/// The `<head>` block every rebuilt chapter opens with: charset and the
/// default stylesheet link.
pub const HEADER: &'static str = "\n<head>\n    <meta charset=\"UTF-8\" />\n    <link rel=\"stylesheet\" type=\"text/css\" href=\"../stylesheet.css\" />\n</head>\n";

/// What the outside HTML-to-markdown converter returns for the given
/// document, with `head`, `img` and `image` elements skipped.  The result
/// depends on the document alone.
pub uninterp spec fn markdown_of(html: Seq<char>) -> Seq<char>;

/// What the outside markdown renderer returns for the given markdown, with
/// all extensions enabled.  The result depends on the markdown alone.
pub uninterp spec fn rendered_html_of(markdown: Seq<char>) -> Seq<char>;

/// Could not transcode a chapter: the outside converter refused the
/// document.
#[derive(Debug, Clone, Copy, PartialEq, Eq, Structural)]
pub struct ConvertError;

/// Relies on htmd's `HtmlToMarkdown::convert`, built with
/// `skip_tags(["head", "img", "image"])`: converts an HTML document to
/// markdown, dropping those elements.  The conversion reads nothing but the
/// document, so the result is a function of it; in this version the parser
/// accepts every input, so the call always succeeds.
#[verifier::external_body]
pub fn convert_html(html: &str) -> (r: Result<String, ConvertError>)
    ensures
        r is Ok,
        r matches Ok(s) ==> s@ == markdown_of(html@),
{
    let converter = htmd::HtmlToMarkdown::builder().skip_tags(vec!["head", "img", "image"]).build();
    converter.convert(html).map_err(|_| ConvertError)
}

/// The text holds the start of a numeric character reference: a `&`
/// immediately followed by `#`.
pub open spec fn has_amp_hash(s: Seq<char>) -> bool {
    exists|t: int| 0 <= t && t + 1 < s.len() && #[trigger] s[t] == '&' && s[t + 1] == '#'
}

/// Relies on pulldown-cmark's `Parser::new_ext` (with all options) and
/// `push_html`: renders markdown to HTML.  The rendering reads nothing but
/// the markdown, so the result is a function of it.  Beyond characters of
/// the input, the writer emits only ASCII tag syntax, ASCII character
/// references, percent-encoded link targets, a fixed set of smart
/// punctuation (curly quotes, dashes, ellipsis), and characters decoded
/// from the input's character references — named references never yield a
/// corner quotation mark, and numeric ones are spelled `&#`.  So a corner
/// quotation mark stands in the output only where the input holds the
/// character itself or the start of a numeric reference.  A `<` in the
/// output opens one of the writer's own fixed tags or was copied from raw
/// HTML of the input (text is escaped), and no writer tag is named
/// `think` or `part` nor starts `<p` with a letter after it — so those
/// regions appear in the output only when the input holds a `<`.
#[verifier::external_body]
pub fn to_xml(markdown: &str) -> (r: String)
    ensures
        r@ == rendered_html_of(markdown@),
        forall|j: int|
            0 <= j < r@.len() && crate::text::corner_quote(#[trigger] r@[j]) ==> markdown@.contains(
                r@[j],
            ) || has_amp_hash(markdown@),
        !markdown@.contains('<') ==> (forall|j: int|
            !crate::tags::matches_at(r@, "<think>"@, j) && !crate::tags::matches_at(
                r@,
                "<part>"@,
                j,
            )),
{
    let parser = pulldown_cmark::Parser::new_ext(markdown, pulldown_cmark::Options::all());
    let mut html = String::new();
    pulldown_cmark::html::push_html(&mut html, parser);
    html
}

/// The XML entity for one character: the five XML-unsafe characters become
/// entities, every other character stands for itself.
pub open spec fn escape_char(c: char) -> Seq<char> {
    if c == '&' {
        "&amp;"@
    } else if c == '<' {
        "&lt;"@
    } else if c == '>' {
        "&gt;"@
    } else if c == '"' {
        "&quot;"@
    } else if c == '\'' {
        "&apos;"@
    } else {
        seq![c]
    }
}

/// The text from position `i` on with every XML-unsafe character replaced
/// by its entity.
pub open spec fn escaped_from(s: Seq<char>, i: int) -> Seq<char>
    decreases s.len() - i,
{
    if i < 0 || i >= s.len() {
        Seq::empty()
    } else {
        escape_char(s[i]) + escaped_from(s, i + 1)
    }
}

/// Escapes the XML-unsafe characters `&`, `<`, `>`, `"` and `'` as their
/// standard entities, leaving everything else untouched.
pub fn escape_xml(text: &str) -> (r: String)
    ensures
        r@ == escaped_from(text@, 0),
{
    let chars = to_chars(text);
    let mut out: Vec<char> = Vec::new();
    let mut i: usize = 0;
    while i < chars.len()
        invariant
            chars@ == text@,
            i <= chars@.len(),
            out@ + escaped_from(chars@, i as int) == escaped_from(chars@, 0),
        decreases chars@.len() - i,
    {
        let c = chars[i];
        if c == '&' {
            push_entity(&mut out, "&amp;");
        } else if c == '<' {
            push_entity(&mut out, "&lt;");
        } else if c == '>' {
            push_entity(&mut out, "&gt;");
        } else if c == '"' {
            push_entity(&mut out, "&quot;");
        } else if c == '\'' {
            push_entity(&mut out, "&apos;");
        } else {
            out.push(c);
        }
        i = i + 1;
        proof {
            assert(out@ + escaped_from(chars@, i as int) =~= escaped_from(chars@, 0));
        }
    }
    proof {
        assert(out@ =~= escaped_from(chars@, 0));
    }
    from_chars(&out)
}

/// Appends every character of the entity to the buffer.
fn push_entity(out: &mut Vec<char>, entity: &str)
    ensures
        final(out)@ == old(out)@ + entity@,
{
    let chars = to_chars(entity);
    let mut k: usize = 0;
    while k < chars.len()
        invariant
            chars@ == entity@,
            k <= chars@.len(),
            out@ == old(out)@ + chars@.subrange(0, k as int),
        decreases chars@.len() - k,
    {
        out.push(chars[k]);
        k = k + 1;
        proof {
            assert(out@ =~= old(out)@ + chars@.subrange(0, k as int));
        }
    }
    proof {
        assert(old(out)@ + chars@.subrange(0, chars@.len() as int) =~= old(out)@ + entity@);
    }
}

/// The text wrapped in an XML element: `<tag>`, a newline, the text, a
/// newline, `</tag>`.
pub open spec fn wrap_tag_spec(xml: Seq<char>, tag: Seq<char>) -> Seq<char> {
    "<"@ + tag + ">\n"@ + xml + "\n</"@ + tag + ">"@
}

/// Wraps the text in an XML element of the given name.
pub fn wrap_tag(xml: &str, tag: &str) -> (r: String)
    ensures
        r@ == wrap_tag_spec(xml@, tag@),
{
    let mut out = String::from_str("<");
    out.append(tag);
    out.append(">\n");
    out.append(xml);
    out.append("\n</");
    out.append(tag);
    out.append(">");
    out
}

/// The markdown with the backend's `<think>` and `<part>` regions
/// stripped and the Japanese quotes folded.
pub open spec fn folded_markdown(markdown: Seq<char>) -> Seq<char> {
    strip_from(
        strip_from(markdown, "<think>"@, "</think>"@, 0),
        "<part>"@,
        "</part>"@,
        0,
    ).map_values(|c: char| fold_quote(c))
}

/// What the outside renderer is handed: the folded markdown with its
/// XML-unsafe characters escaped.
pub open spec fn prepared_markdown(markdown: Seq<char>) -> Seq<char> {
    escaped_from(folded_markdown(markdown), 0)
}

/// The rendered body text of a finished chapter.
pub open spec fn rendered_body_of(markdown: Seq<char>) -> Seq<char> {
    rendered_html_of(prepared_markdown(markdown))
}

/// The finished chapter document for a page of translated markdown: the
/// backend's `<think>` and `<part>` regions stripped, Japanese quotes
/// folded, XML-unsafe characters escaped, the result rendered to HTML by
/// the outside renderer, and the rendering wrapped in `<body>` under the
/// default `<head>` inside one `<html>` element.
pub open spec fn gen_html_spec(markdown: Seq<char>) -> Seq<char> {
    let body = wrap_tag_spec(rendered_body_of(markdown), "body"@);
    wrap_tag_spec(HEADER@ + "\n"@ + body, "html"@)
}

/// Quote folding leaves no corner quotation mark behind.
pub proof fn lemma_fold_no_corner(s: Seq<char>, folded: Seq<char>)
    requires
        folded == s.map_values(|c: char| fold_quote(c)),
    ensures
        forall|j: int| 0 <= j < folded.len() ==> !crate::text::corner_quote(#[trigger] folded[j]),
{
    assert forall|j: int|
        0 <= j < folded.len() implies !crate::text::corner_quote(#[trigger] folded[j]) by {
        assert(folded[j] == fold_quote(s[j]));
    }
}

/// Escaping corner-quote-free text yields corner-quote-free text: each
/// character becomes itself or an ASCII entity.
pub proof fn lemma_escaped_no_corner(s: Seq<char>, i: int)
    requires
        forall|j: int| 0 <= j < s.len() ==> !crate::text::corner_quote(#[trigger] s[j]),
    ensures
        forall|j: int|
            0 <= j < escaped_from(s, i).len() ==> !crate::text::corner_quote(
                #[trigger] escaped_from(s, i)[j],
            ),
    decreases s.len() - i,
{
    reveal_strlit("&amp;");
    reveal_strlit("&lt;");
    reveal_strlit("&gt;");
    reveal_strlit("&quot;");
    reveal_strlit("&apos;");
    if 0 <= i < s.len() {
        lemma_escaped_no_corner(s, i + 1);
        let head = escape_char(s[i]);
        assert forall|j: int| 0 <= j < head.len() implies !crate::text::corner_quote(
            #[trigger] head[j],
        ) by {}
        assert forall|j: int|
            0 <= j < escaped_from(s, i).len() implies !crate::text::corner_quote(
            #[trigger] escaped_from(s, i)[j],
        ) by {
            if j < head.len() {
                assert(escaped_from(s, i)[j] == head[j]);
            } else {
                assert(escaped_from(s, i)[j] == escaped_from(s, i + 1)[j - head.len()]);
            }
        }
    }
}

/// Every `&` the escaper emits opens one of the five entities, so its
/// output never holds a `&` followed by `#`.
pub proof fn lemma_escaped_amp_followers(s: Seq<char>, i: int)
    ensures
        forall|t: int|
            0 <= t < escaped_from(s, i).len() && #[trigger] escaped_from(s, i)[t] == '&' ==> t + 1
                < escaped_from(s, i).len() && escaped_from(s, i)[t + 1] != '#',
    decreases s.len() - i,
{
    reveal_strlit("&amp;");
    reveal_strlit("&lt;");
    reveal_strlit("&gt;");
    reveal_strlit("&quot;");
    reveal_strlit("&apos;");
    if 0 <= i < s.len() {
        lemma_escaped_amp_followers(s, i + 1);
        let head = escape_char(s[i]);
        let esc = escaped_from(s, i);
        assert forall|t: int|
            0 <= t < esc.len() && #[trigger] esc[t] == '&' implies t + 1 < esc.len() && esc[t + 1]
            != '#' by {
            if t < head.len() {
                assert(esc[t] == head[t]);
                if t + 1 < head.len() {
                    assert(esc[t + 1] == head[t + 1]);
                }
            } else {
                assert(esc[t] == escaped_from(s, i + 1)[t - head.len()]);
                assert(esc[t + 1] == escaped_from(s, i + 1)[t + 1 - head.len()]);
            }
        }
    }
}

/// The escaper's output holds no `<` at all: the character becomes its
/// entity, whose characters are drawn from `&lt;`.
pub proof fn lemma_escaped_no_lt(s: Seq<char>, i: int)
    ensures
        forall|j: int|
            0 <= j < escaped_from(s, i).len() ==> #[trigger] escaped_from(s, i)[j] != '<',
    decreases s.len() - i,
{
    reveal_strlit("&amp;");
    reveal_strlit("&lt;");
    reveal_strlit("&gt;");
    reveal_strlit("&quot;");
    reveal_strlit("&apos;");
    if 0 <= i < s.len() {
        lemma_escaped_no_lt(s, i + 1);
        let head = escape_char(s[i]);
        assert forall|j: int|
            0 <= j < escaped_from(s, i).len() implies #[trigger] escaped_from(s, i)[j]
            != '<' by {
            if j < head.len() {
                assert(escaped_from(s, i)[j] == head[j]);
            } else {
                assert(escaped_from(s, i)[j] == escaped_from(s, i + 1)[j - head.len()]);
            }
        }
    }
}

/// Renders one page of translated markdown into a complete XHTML chapter
/// document.  The rendered body holds no corner quotation mark — the
/// quotes were folded and every remaining `&` escaped before rendering, so
/// the renderer receives neither the character nor a numeric reference,
/// and it introduces none of its own — and no `<think>` or `<part>`
/// region, since the escaped markdown holds no `<` at all.
pub fn gen_html(markdown: &str) -> (r: String)
    ensures
        r@ == gen_html_spec(markdown@),
        forall|j: int|
            0 <= j < rendered_body_of(markdown@).len() ==> !crate::text::corner_quote(
                #[trigger] rendered_body_of(markdown@)[j],
            ),
        forall|j: int| !crate::tags::matches_at(rendered_body_of(markdown@), "<think>"@, j),
        forall|j: int| !crate::tags::matches_at(rendered_body_of(markdown@), "<part>"@, j),
{
    let no_think = remove_think_tags(markdown);
    let no_part = remove_part_tags(no_think.as_str());
    let folded = replace_jp_symbols(no_part.as_str());
    let escaped = escape_xml(folded.as_str());
    let xml = to_xml(escaped.as_str());
    proof {
        lemma_fold_no_corner(no_part@, folded@);
        lemma_escaped_no_corner(folded@, 0);
        lemma_escaped_amp_followers(folded@, 0);
        lemma_escaped_no_lt(folded@, 0);
        assert(!escaped@.contains('<')) by {
            if escaped@.contains('<') {
                let t = choose|t: int| 0 <= t < escaped@.len() && escaped@[t] == '<';
                assert(escaped@[t] != '<');
            }
        }
        assert forall|j: int|
            0 <= j < rendered_body_of(markdown@).len() implies !crate::text::corner_quote(
            #[trigger] rendered_body_of(markdown@)[j],
        ) by {
            if crate::text::corner_quote(rendered_body_of(markdown@)[j]) {
                let c = rendered_body_of(markdown@)[j];
                assert(xml@[j] == c);
                if escaped@.contains(c) {
                    let t = choose|t: int| 0 <= t < escaped@.len() && escaped@[t] == c;
                    assert(!crate::text::corner_quote(escaped@[t]));
                }
                if has_amp_hash(escaped@) {
                    let t = choose|t: int|
                        0 <= t && t + 1 < escaped@.len() && #[trigger] escaped@[t] == '&'
                            && escaped@[t + 1] == '#';
                    assert(escaped@[t + 1] != '#');
                }
            }
        }
    }
    let body = wrap_tag(xml.as_str(), "body");
    let mut parts = String::from_str(HEADER);
    parts.append("\n");
    parts.append(body.as_str());
    wrap_tag(parts.as_str(), "html")
}

} // verus!
