//! Reading a repack page with the `scraper` crate: the hoster entries of
//! the page, and the links inside its spoilers.

use scraper::{Html, Selector};
use vstd::prelude::*;
use crate::links::{
    anchor_views, collect_spoiler_links, hoster_href_spec, no_duplicates, pick_hoster_href,
    sorted_by_key, spoiler_links_spec, spoiler_views, views, Anchor, AnchorView,
};

verus! {

/// The selector of the hoster anchors of a repack page.
pub const HOSTER_SELECTOR: &'static str = "div.entry-content ul > li:nth-child(2) > a";

/// The selector of the spoiler boxes that hold a repack's file links.
pub const SPOILER_SELECTOR: &'static str = "div.entry-content ul > li:nth-child(2) > div.su-spoiler > div.su-spoiler-content";

/// The selector of the links inside a spoiler.
pub const LINK_SELECTOR: &'static str = "a";

/// Whether `scraper`'s `Selector::parse` accepts the text `css`.
pub uninterp spec fn selector_parses(css: Seq<char>) -> bool;

/// What `scraper` finds in the document `html` with the selector `css`:
/// for each element, in document order, its text (the text nodes under it,
/// joined) and the value of its attribute `attr`.
pub uninterp spec fn selected_anchors(html: Seq<char>, css: Seq<char>, attr: Seq<char>) -> Seq<
    AnchorView,
>;

/// What `scraper` finds in the document `html` with the selector `outer`
/// and, inside each element found, with the selector `inner`: for each
/// outer element, in document order, the values of the attribute `attr` of
/// the inner elements, in document order.
pub uninterp spec fn nested_attrs(
    html: Seq<char>,
    outer: Seq<char>,
    inner: Seq<char>,
    attr: Seq<char>,
) -> Seq<Seq<Option<Seq<char>>>>;

/// The text that the error of `scraper`'s `Selector::parse` displays for
/// the text `css` when it refuses it.
pub uninterp spec fn selector_error_of(css: Seq<char>) -> Seq<char>;

/// Parses `css` with `Selector::parse`, the document with
/// `Html::parse_document`, and takes from each element that
/// `Html::select` yields its text (`ElementRef::text`, joined) and the
/// attribute `attr` (`ElementRef::attr`).  Claimed: the result is `Ok`
/// exactly when the selector parses, and is then `selected_anchors` of
/// the arguments, and otherwise the error's `Display` text,
/// `selector_error_of` the selector (each depends on the texts alone).
#[verifier::external_body]
fn select_anchors(html: &str, css: &str, attr: &str) -> (r: Result<Vec<Anchor>, String>)
    ensures
        r is Ok <==> selector_parses(css@),
        r matches Ok(v) ==> anchor_views(v@) == selected_anchors(html@, css@, attr@),
        r matches Err(t) ==> t@ == selector_error_of(css@),
{
    let sel = Selector::parse(css).map_err(|e| e.to_string())?;
    let doc = Html::parse_document(html);
    let found = doc.select(&sel).map(|e| Anchor { text: e.text().collect(), href: e.attr(attr).map(str::to_string) });
    Ok(found.collect())
}

/// Parses `outer`, then `inner`, with `Selector::parse`, the document with
/// `Html::parse_document`, and for each element that `Html::select` yields
/// with `outer` collects the attribute `attr` of the elements that
/// `ElementRef::select` yields inside it with `inner`.  Claimed: the result
/// is `Ok` exactly when both selectors parse, and is then `nested_attrs` of
/// the arguments, and otherwise the `Display` text of the first refusal.
#[verifier::external_body]
fn select_nested_attrs(html: &str, outer: &str, inner: &str, attr: &str) -> (r: Result<Vec<Vec<Option<String>>>, String>)
    ensures
        r is Ok <==> (selector_parses(outer@) && selector_parses(inner@)),
        r matches Ok(v) ==> spoiler_views(v@) == nested_attrs(html@, outer@, inner@, attr@),
        r matches Err(t) ==> t@ == (if selector_parses(outer@) { selector_error_of(inner@) } else { selector_error_of(outer@) }),
{
    let o = Selector::parse(outer).map_err(|e| e.to_string())?;
    let i = Selector::parse(inner).map_err(|e| e.to_string())?;
    let doc = Html::parse_document(html);
    let found = doc.select(&o).map(|e| e.select(&i).map(|l| l.attr(attr).map(str::to_string)).collect());
    Ok(found.collect())
}

/// The error of a page whose selector `css` does not parse: `Selector: `
/// and the reason.
pub open spec fn selector_failure_text(css: Seq<char>) -> Seq<char> {
    "Selector: "@ + selector_error_of(css)
}

/// The text of a selector that does not parse: `Selector: ` and the
/// reason.
fn selector_failure(t: String) -> (r: String)
    ensures
        r@ == "Selector: "@ + t@,
{
    let mut r = String::from_str("Selector: ");
    r.append(t.as_str());
    r
}

/// What the links of a page come to, given its hoster anchors and, when
/// the page has spoilers, their links: the hoster's address alone when
/// there are no spoilers, and otherwise the spoilers' links in key order
/// without repeats.
pub open spec fn page_links_spec(
    anchors: Seq<crate::links::AnchorView>,
    spoilers: Seq<Seq<Option<Seq<char>>>>,
    result: Result<Seq<Seq<char>>, Seq<char>>,
) -> bool {
    match hoster_href_spec(anchors) {
        Err(e) => result == Err::<Seq<Seq<char>>, Seq<char>>(e),
        Ok(h) => if spoilers.len() == 0 {
            result == Ok::<Seq<Seq<char>>, Seq<char>>(seq![h])
        } else {
            result matches Ok(v) && spoiler_links_spec(spoilers, v)
        },
    }
}

/// The links of a page, from its hoster anchors and the links of its
/// spoilers (one list per spoiler box; an empty list of spoilers means the
/// page has none).
pub fn links_from_parts(anchors: &Vec<Anchor>, spoilers: &Vec<Vec<Option<String>>>) -> (r: Result<
    Vec<String>,
    String,
>)
    ensures
        page_links_spec(
            anchor_views(anchors@),
            spoiler_views(spoilers@),
            links_result_view(r),
        ),
        r matches Ok(v) ==> (spoilers@.len() == 0 && v@.len() == 1) || (sorted_by_key(views(v@))
            && no_duplicates(views(v@))),
{
    let href = match pick_hoster_href(anchors) {
        Ok(h) => h,
        Err(e) => return Err(e),
    };
    if spoilers.len() == 0 {
        let ghost hv = href@;
        let v = vec![href];
        assert(views(v@) =~= seq![hv]);
        return Ok(v);
    }
    Ok(collect_spoiler_links(spoilers))
}

/// The result of a function that returns links or an error, as texts.
pub open spec fn links_result_view(r: Result<Vec<String>, String>) -> Result<Seq<Seq<char>>, Seq<char>> {
    match r {
        Ok(v) => Ok(views(v@)),
        Err(e) => Err(e@),
    }
}

/// The hoster anchors of a page: what its hoster selector finds.
pub open spec fn page_anchors(html: Seq<char>) -> Seq<AnchorView> {
    selected_anchors(html, HOSTER_SELECTOR@, "href"@)
}

/// The links of a page's spoilers: what its spoiler and link selectors
/// find.
pub open spec fn page_spoilers(html: Seq<char>) -> Seq<Seq<Option<Seq<char>>>> {
    nested_attrs(html, SPOILER_SELECTOR@, LINK_SELECTOR@, "href"@)
}

/// Reads the download links of a repack page.  The first anchor of the
/// hoster list that names FuckingFast gives the address; when the entry has
/// spoiler boxes, the links inside them are returned instead, in the order
/// of their file names and without repeats.
pub fn get_links_from_page(html: &str) -> (r: Result<Vec<String>, String>)
    ensures
        !selector_parses(HOSTER_SELECTOR@) ==> links_result_view(r) == Err::<Seq<Seq<char>>, Seq<char>>(
            selector_failure_text(HOSTER_SELECTOR@),
        ),
        selector_parses(HOSTER_SELECTOR@) && hoster_href_spec(page_anchors(html@)) is Ok
            && !selector_parses(SPOILER_SELECTOR@) ==> links_result_view(r) == Err::<
            Seq<Seq<char>>,
            Seq<char>,
        >(selector_failure_text(SPOILER_SELECTOR@)),
        selector_parses(HOSTER_SELECTOR@) && hoster_href_spec(page_anchors(html@)) is Ok
            && selector_parses(SPOILER_SELECTOR@) && !selector_parses(LINK_SELECTOR@)
            ==> links_result_view(r) == Err::<Seq<Seq<char>>, Seq<char>>(
            selector_failure_text(LINK_SELECTOR@),
        ),
        selector_parses(HOSTER_SELECTOR@) && (hoster_href_spec(page_anchors(html@)) is Err || (
        selector_parses(SPOILER_SELECTOR@) && selector_parses(LINK_SELECTOR@))) ==> page_links_spec(
            page_anchors(html@),
            page_spoilers(html@),
            links_result_view(r),
        ),
        r matches Ok(v) ==> v@.len() == 1 || (sorted_by_key(views(v@)) && no_duplicates(views(v@))),
{
    let anchors = match select_anchors(html, HOSTER_SELECTOR, "href") {
        Ok(a) => a,
        Err(t) => return Err(selector_failure(t)),
    };
    let href = match pick_hoster_href(&anchors) {
        Ok(h) => h,
        Err(e) => return Err(e),
    };
    let hrefs = match select_nested_attrs(html, SPOILER_SELECTOR, LINK_SELECTOR, "href") {
        Ok(h) => h,
        Err(t) => return Err(selector_failure(t)),
    };
    links_from_parts(&anchors, &hrefs)
}

} // verus!
