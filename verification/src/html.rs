//! Trusted views of a parsed HTML document.  The scraper crate parses
//! the page; these wrappers hand its answers to the verified pipeline as
//! plain values.  Each parse is a pure function of the document text, so
//! the results carry names the contracts can speak about.

use vstd::prelude::*;

verus! {

/// The `href` attribute values of the document's anchor elements that
/// have one, in document order.
pub uninterp spec fn anchor_hrefs_of(html: Seq<char>) -> Seq<Seq<char>>;

/// Relies on scraper's `Html::parse_document`, `Html::select` with the
/// `a` selector, and `ElementRef::attr`: yields the `href` values of the
/// document's anchors that carry one, in document order.
#[verifier::external_body]
pub(crate) fn anchor_hrefs(html: &str) -> (r: Vec<String>)
    ensures
        r.deep_view() == anchor_hrefs_of(html@),
{
    let document = scraper::Html::parse_document(html);
    let a_selector = scraper::Selector::parse("a").unwrap();
    document
        .select(&a_selector)
        .filter_map(|element| element.value().attr("href"))
        .map(|href| href.to_string())
        .collect()
}

/// Whether the scraper crate accepts the string as a CSS selector.
pub uninterp spec fn selector_compiles(sel: Seq<char>) -> bool;

/// The text of each element the selector matches: one inner sequence
/// per matching element, in document order, holding that element's text
/// nodes in order.
pub uninterp spec fn select_texts_of(html: Seq<char>, sel: Seq<char>) -> Seq<Seq<Seq<char>>>;

/// Relies on scraper's `Selector::parse`, `Html::parse_document`,
/// `Html::select` and `ElementRef::text`: nothing when the selector does
/// not compile, else the text nodes of each matching element, in
/// document order.
#[verifier::external_body]
pub(crate) fn select_element_texts(html: &str, sel: &str) -> (r: Option<Vec<Vec<String>>>)
    ensures
        r is Some <==> selector_compiles(sel@),
        (match r {
            Some(v) => v.deep_view() == select_texts_of(html@, sel@),
            None => true,
        }),
{
    let compiled = match scraper::Selector::parse(sel) {
        Ok(c) => c,
        Err(_) => {
            return None;
        },
    };
    let document = scraper::Html::parse_document(html);
    Some(
        document
            .select(&compiled)
            .map(|element| element.text().map(|t| t.to_string()).collect())
            .collect(),
    )
}

/// The raw text inside each `<style>` element, in document order.
pub uninterp spec fn style_texts_of(html: Seq<char>) -> Seq<Seq<char>>;

/// Relies on scraper's `Html::parse_document`, `Html::select` with the
/// `style` selector, and `ElementRef::inner_html`: the raw text of each
/// style element, in document order.
#[verifier::external_body]
pub(crate) fn style_block_texts(html: &str) -> (r: Vec<String>)
    ensures
        r.deep_view() == style_texts_of(html@),
{
    let document = scraper::Html::parse_document(html);
    let style_selector = scraper::Selector::parse("style").unwrap();
    document.select(&style_selector).map(|element| element.inner_html()).collect()
}

} // verus!
