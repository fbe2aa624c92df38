//! What the `scraper` crate finds in HTML, handed over as plain values.
//!
//! Each function parses a fragment with `Html::parse_fragment` and a CSS selector with
//! `Selector::parse`; the outer `None` of each result stands for a selector that does not
//! parse. What the HTML parser and the selector engine find is named, not restated.

use vstd::prelude::*;

verus! {

/// For each element of the fragment `html` that `selector` matches, in document order, the
/// value of its attribute `attr`; `None` where `selector` does not parse.
pub uninterp spec fn scraped_attrs(html: Seq<char>, selector: Seq<char>, attr: Seq<char>) -> Option<
    Seq<Option<Seq<char>>>,
>;

/// For the first element of the fragment `html` that `selector` matches, its first text
/// node; `Some(None)` where nothing matches; `None` where `selector` does not parse.
pub uninterp spec fn scraped_first_text(html: Seq<char>, selector: Seq<char>) -> Option<
    Option<Option<Seq<char>>>,
>;

/// The inner HTML of the first element of the fragment `html` that `selector` matches;
/// `Some(None)` where nothing matches; `None` where `selector` does not parse.
pub uninterp spec fn scraped_inner_html(html: Seq<char>, selector: Seq<char>) -> Option<
    Option<Seq<char>>,
>;

/// `Html::parse_fragment(html)`, `Selector::parse(selector)`, `Html::select`, and for each
/// selected element `Element::attr(attr)`. The contract names the result: the values of the
/// attribute over the matches in document order, or `None` for a selector that does not
/// parse. It says nothing of which elements match.
#[verifier::external_body]
pub(crate) fn select_attrs(html: &str, selector: &str, attr: &str) -> (r: Option<Vec<Option<String>>>)
    ensures
        r.deep_view() == scraped_attrs(html@, selector@, attr@),
{
    match scraper::Selector::parse(selector) {
        Ok(sel) => Some(
            scraper::Html::parse_fragment(html).select(&sel).map(
                |e| e.value().attr(attr).map(String::from),
            ).collect(),
        ),
        Err(_) => None,
    }
}

/// `Html::parse_fragment(html)`, `Selector::parse(selector)`, `Html::select`, then for the
/// first selected element the first item of `ElementRef::text`. The contract names the
/// result; it says nothing of which element matches or what its text is.
#[verifier::external_body]
pub(crate) fn select_first_text(html: &str, selector: &str) -> (r: Option<Option<Option<String>>>)
    ensures
        r.deep_view() == scraped_first_text(html@, selector@),
{
    match scraper::Selector::parse(selector) {
        Ok(sel) => Some(
            scraper::Html::parse_fragment(html).select(&sel).next().map(
                |e| e.text().next().map(String::from),
            ),
        ),
        Err(_) => None,
    }
}

/// `Html::parse_fragment(html)`, `Selector::parse(selector)`, `Html::select`, then for the
/// first selected element `ElementRef::inner_html`. The contract names the result; it says
/// nothing of which element matches or how its inner HTML is serialised.
#[verifier::external_body]
pub(crate) fn select_inner_html(html: &str, selector: &str) -> (r: Option<Option<String>>)
    ensures
        r.deep_view() == scraped_inner_html(html@, selector@),
{
    match scraper::Selector::parse(selector) {
        Ok(sel) => Some(
            scraper::Html::parse_fragment(html).select(&sel).next().map(|e| e.inner_html()),
        ),
        Err(_) => None,
    }
}

} // verus!
