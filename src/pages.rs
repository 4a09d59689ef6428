//! Page records: effective title, fused body and rendered embedded paragraphs.

use vstd::prelude::*;
use crate::uri::{drupal_uri_to_path, public_path_of};

verus! {

/// One page entity as projected from the store, joined with its menu link.
pub struct PageRow {
    pub nid: u64,
    pub title: String,
    /// Override title, which takes precedence over `title`.
    pub page_title: Option<String>,
    pub body_value: Option<String>,
    pub summary_value: Option<String>,
    /// Secondary custom body field.
    pub field_body_value: Option<String>,
    pub status: i8,
    pub menu_id: Option<u64>,
    pub menu_title: Option<String>,
    pub menu_weight: Option<i32>,
    pub menu_parent: Option<String>,
    pub hero_image_uri: Option<String>,
    pub nav_image_uri: Option<String>,
}

/// A microsite page with its content and menu metadata.
pub struct MicrositePage {
    pub nid: u64,
    pub title: String,
    /// HTML body content.
    pub body_html: String,
    pub status: bool,
    pub menu_id: Option<u64>,
    /// Menu title (may differ from the page title).
    pub menu_title: Option<String>,
    pub menu_weight: Option<i32>,
    /// Parent menu reference (for nesting).
    pub menu_parent: Option<String>,
    /// Hero banner image (storage URI).
    pub hero_image: Option<String>,
    /// Navigation image (storage URI).
    pub nav_image: Option<String>,
}

/// An embedded paragraph of a page: headline, text, optional button and image.
pub struct FeaturedPageRow {
    /// The page that holds the paragraph.
    pub host_nid: u64,
    /// Position of the paragraph in the page's list.
    pub delta: u32,
    pub headline: Option<String>,
    pub summary_text_2: Option<String>,
    pub button_uri: Option<String>,
    pub button_title: Option<String>,
    /// Image file (storage URI).
    pub image_uri: Option<String>,
}

pub open spec fn sv(o: Option<String>) -> Option<Seq<char>> {
    match o {
        Some(s) => Some(s@),
        None => None,
    }
}

/// The blank line that separates body fragments.
pub open spec fn blank_line() -> Seq<char> {
    "\n\n"@
}

/// `parts` extended by the fragment `f` when it is present and non-empty.
pub open spec fn with_fragment(parts: Seq<Seq<char>>, f: Option<Seq<char>>) -> Seq<Seq<char>> {
    match f {
        Some(t) => if t.len() > 0 {
            parts.push(t)
        } else {
            parts
        },
        None => parts,
    }
}

/// The non-empty fragments among summary, primary body and secondary body, in that
/// order.
pub open spec fn present_parts(
    summary: Option<Seq<char>>,
    body: Option<Seq<char>>,
    extra: Option<Seq<char>>,
) -> Seq<Seq<char>> {
    with_fragment(with_fragment(with_fragment(Seq::empty(), summary), body), extra)
}

/// Fragments joined with a blank line between each two.
pub open spec fn join_blank(parts: Seq<Seq<char>>) -> Seq<char>
    decreases parts.len(),
{
    if parts.len() == 0 {
        Seq::empty()
    } else if parts.len() == 1 {
        parts[0]
    } else {
        join_blank(parts.drop_last()) + blank_line() + parts.last()
    }
}

/// The fused body of a page.
pub open spec fn fused_body(
    summary: Option<Seq<char>>,
    body: Option<Seq<char>>,
    extra: Option<Seq<char>>,
) -> Seq<char> {
    join_blank(present_parts(summary, body, extra))
}

/// Appends fragment `f`, if present and non-empty, to a body fused from `parts`.
fn push_fragment(out: &mut String, count: usize, f: &Option<String>, Ghost(parts): Ghost<
    Seq<Seq<char>>,
>) -> (c: usize)
    requires
        count < 3,
        count == parts.len(),
        old(out)@ == join_blank(parts),
    ensures
        final(out)@ == join_blank(with_fragment(parts, sv(*f))),
        c == with_fragment(parts, sv(*f)).len(),
{
    match f {
        Some(s) => {
            if s.as_str().is_empty() {
                return count;
            }
            if count > 0 {
                out.append("\n\n");
                proof {
                    reveal_strlit("\n\n");
                }
            }
            out.append(s.as_str());
            proof {
                let next = parts.push(s@);
                assert(next.drop_last() =~= parts);
            }
            count + 1
        },
        None => count,
    }
}

/// Concatenates the non-empty fragments among summary, body and secondary body, in
/// that order, with a blank line between two of them.
pub fn fuse_body(summary: &Option<String>, body: &Option<String>, extra: &Option<String>) -> (r:
    String)
    ensures
        r@ == fused_body(sv(*summary), sv(*body), sv(*extra)),
{
    let mut out = String::new();
    let ghost p0: Seq<Seq<char>> = Seq::empty();
    let c1 = push_fragment(&mut out, 0, summary, Ghost(p0));
    let ghost p1 = with_fragment(p0, sv(*summary));
    let c2 = push_fragment(&mut out, c1, body, Ghost(p1));
    let ghost p2 = with_fragment(p1, sv(*body));
    let _ = push_fragment(&mut out, c2, extra, Ghost(p2));
    out
}

/// The effective title: the override when present, else the base title.
pub open spec fn effective_title(row: PageRow) -> Seq<char> {
    match row.page_title {
        Some(t) => t@,
        None => row.title@,
    }
}

/// `page` is the page that `row` projects to, with body `body`.
pub open spec fn page_of_row(page: MicrositePage, row: PageRow, body: Seq<char>) -> bool {
    &&& page.nid == row.nid
    &&& page.title@ == effective_title(row)
    &&& page.body_html@ == body
    &&& page.status == (row.status == 1)
    &&& page.menu_id == row.menu_id
    &&& sv(page.menu_title) == sv(row.menu_title)
    &&& page.menu_weight == row.menu_weight
    &&& sv(page.menu_parent) == sv(row.menu_parent)
    &&& sv(page.hero_image) == sv(row.hero_image_uri)
    &&& sv(page.nav_image) == sv(row.nav_image_uri)
}

/// The fused body of a row.
pub open spec fn row_body(row: PageRow) -> Seq<char> {
    fused_body(sv(row.summary_value), sv(row.body_value), sv(row.field_body_value))
}

impl MicrositePage {
    /// Builds a page from its projected row: effective title, fused body, status
    /// flag, and menu and image data carried over.
    pub fn from_row(row: PageRow) -> (page: MicrositePage)
        ensures
            page_of_row(page, row, row_body(row)),
    {
        let body_html = fuse_body(&row.summary_value, &row.body_value, &row.field_body_value);
        let title = match row.page_title {
            Some(t) => t,
            None => row.title,
        };
        MicrositePage {
            nid: row.nid,
            title,
            body_html,
            status: row.status == 1,
            menu_id: row.menu_id,
            menu_title: row.menu_title,
            menu_weight: row.menu_weight,
            menu_parent: row.menu_parent,
            hero_image: row.hero_image_uri,
            nav_image: row.nav_image_uri,
        }
    }
}

/// The image element of a paragraph: present only for an image in the public storage.
pub open spec fn image_markup(p: FeaturedPageRow) -> Seq<char> {
    match sv(p.image_uri) {
        Some(u) => match public_path_of(u) {
            Some(path) => "<p><img src=\""@ + path + "\" alt=\"\"></p>\n"@,
            None => Seq::empty(),
        },
        None => Seq::empty(),
    }
}

/// The heading of a paragraph, if it has a headline.
pub open spec fn headline_markup(p: FeaturedPageRow) -> Seq<char> {
    match sv(p.headline) {
        Some(h) => "<h3>"@ + h + "</h3>\n"@,
        None => Seq::empty(),
    }
}

/// The text block of a paragraph, newline-terminated, if it has one.
pub open spec fn text_markup(p: FeaturedPageRow) -> Seq<char> {
    match sv(p.summary_text_2) {
        Some(t) => t + "\n"@,
        None => Seq::empty(),
    }
}

/// The link of a paragraph's button; its text is the button title, else the URI.
pub open spec fn button_markup(p: FeaturedPageRow) -> Seq<char> {
    match sv(p.button_uri) {
        Some(u) => {
            let label = match sv(p.button_title) {
                Some(t) => t,
                None => u,
            };
            "<p><a href=\""@ + u + "\">"@ + label + "</a></p>\n"@
        },
        None => Seq::empty(),
    }
}

/// The markup of one paragraph: image, heading, text, link, in that order.
pub open spec fn paragraph_markup(p: FeaturedPageRow) -> Seq<char> {
    image_markup(p) + headline_markup(p) + text_markup(p) + button_markup(p)
}

/// The markup of a list of paragraphs, in list order.
pub open spec fn paragraphs_markup(ps: Seq<FeaturedPageRow>) -> Seq<char>
    decreases ps.len(),
{
    if ps.len() == 0 {
        Seq::empty()
    } else {
        paragraphs_markup(ps.drop_last()) + paragraph_markup(ps.last())
    }
}

/// A body extended by paragraph markup: unchanged when the markup is empty, the
/// markup alone when the body is empty, else the two with a blank line between.
pub open spec fn with_featured(body: Seq<char>, featured: Seq<char>) -> Seq<char> {
    if featured.len() == 0 {
        body
    } else if body.len() == 0 {
        featured
    } else {
        body + blank_line() + featured
    }
}

fn push_image(html: &mut String, p: &FeaturedPageRow)
    ensures
        final(html)@ == old(html)@ + image_markup(*p),
{
    if let Some(uri) = &p.image_uri {
        if let Some(src) = drupal_uri_to_path(uri.as_str()) {
            html.append("<p><img src=\"");
            html.append(src.as_str());
            html.append("\" alt=\"\"></p>\n");
        }
    }
    proof {
        reveal_strlit("<p><img src=\"");
        reveal_strlit("\" alt=\"\"></p>\n");
    }
}

fn push_headline(html: &mut String, p: &FeaturedPageRow)
    ensures
        final(html)@ == old(html)@ + headline_markup(*p),
{
    if let Some(headline) = &p.headline {
        html.append("<h3>");
        html.append(headline.as_str());
        html.append("</h3>\n");
    }
    proof {
        reveal_strlit("<h3>");
        reveal_strlit("</h3>\n");
    }
}

fn push_text(html: &mut String, p: &FeaturedPageRow)
    ensures
        final(html)@ == old(html)@ + text_markup(*p),
{
    if let Some(content) = &p.summary_text_2 {
        html.append(content.as_str());
        html.append("\n");
    }
    proof {
        reveal_strlit("\n");
    }
}

fn push_button(html: &mut String, p: &FeaturedPageRow)
    ensures
        final(html)@ == old(html)@ + button_markup(*p),
{
    if let Some(uri) = &p.button_uri {
        html.append("<p><a href=\"");
        html.append(uri.as_str());
        html.append("\">");
        match &p.button_title {
            Some(t) => html.append(t.as_str()),
            None => html.append(uri.as_str()),
        }
        html.append("</a></p>\n");
    }
    proof {
        reveal_strlit("<p><a href=\"");
        reveal_strlit("\">");
        reveal_strlit("</a></p>\n");
    }
}

/// Appends the markup of one paragraph to `html`.
pub fn render_paragraph(html: &mut String, p: &FeaturedPageRow)
    ensures
        final(html)@ == old(html)@ + paragraph_markup(*p),
{
    let ghost start = html@;
    push_image(html, p);
    push_headline(html, p);
    push_text(html, p);
    push_button(html, p);
    assert(html@ =~= start + paragraph_markup(*p));
}

/// The markup of a page's paragraphs, in list order; empty when there are none.
pub fn featured_pages_content(rows: &Vec<FeaturedPageRow>) -> (r: String)
    ensures
        r@ == paragraphs_markup(rows@),
{
    let mut html = String::new();
    let mut i: usize = 0;
    while i < rows.len()
        invariant
            i <= rows@.len(),
            html@ == paragraphs_markup(rows@.subrange(0, i as int)),
        decreases rows@.len() - i,
    {
        render_paragraph(&mut html, &rows[i]);
        assert(rows@.subrange(0, i + 1).drop_last() =~= rows@.subrange(0, i as int));
        i = i + 1;
    }
    assert(rows@.subrange(0, rows@.len() as int) =~= rows@);
    html
}

/// Extends a page's body with paragraph markup, separated by a blank line.
pub fn append_featured(page: &mut MicrositePage, featured: String)
    ensures
        final(page).body_html@ == with_featured(old(page).body_html@, featured@),
        final(page).nid == old(page).nid,
        final(page).title == old(page).title,
        final(page).status == old(page).status,
        final(page).menu_id == old(page).menu_id,
        final(page).menu_title == old(page).menu_title,
        final(page).menu_weight == old(page).menu_weight,
        final(page).menu_parent == old(page).menu_parent,
        final(page).hero_image == old(page).hero_image,
        final(page).nav_image == old(page).nav_image,
{
    if featured.as_str().is_empty() {
        return;
    }
    if page.body_html.as_str().is_empty() {
        page.body_html = featured;
    } else {
        page.body_html.append("\n\n");
        page.body_html.append(featured.as_str());
        proof {
            reveal_strlit("\n\n");
        }
    }
}

/// A page without paragraphs keeps its body unchanged.
pub proof fn lemma_no_paragraphs_keeps_body(body: Seq<char>)
    ensures
        with_featured(body, paragraphs_markup(Seq::empty())) == body,
{
}

/// A paragraph that has only a headline renders as exactly that heading.
pub proof fn lemma_headline_only(p: FeaturedPageRow)
    requires
        p.headline is Some,
        p.summary_text_2 is None,
        p.button_uri is None,
        p.image_uri is None,
    ensures
        paragraph_markup(p) == "<h3>"@ + p.headline->0@ + "</h3>\n"@,
{
    assert(paragraph_markup(p) =~= "<h3>"@ + p.headline->0@ + "</h3>\n"@);
}

} // verus!
