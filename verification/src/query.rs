//! The trusted boundary: the HTML parser, the URL parser, and string
//! building. The document is an opaque queryable capability: the engine
//! only ever asks "the texts of the elements matching this selector" and
//! "this attribute of the first match". Each query is a pure function of
//! the HTML text and the selector text, so the results carry uninterpreted
//! names that the engine's contracts build on.

use vstd::prelude::*;

verus! {

/// Whether scraper's `Selector::parse` accepts this CSS selector text.
pub uninterp spec fn sel_ok(sel: Seq<char>) -> bool;

/// The text of every element of the parsed `html` document that matches the
/// selector `sel`, in document order: for each matching element, the
/// concatenation of its descendant text nodes.
pub uninterp spec fn texts_of(html: Seq<char>, sel: Seq<char>) -> Seq<Seq<char>>;

/// The value of attribute `attr` on the first element of the parsed `html`
/// document that matches `sel`; `None` when nothing matches or the first
/// matching element has no such attribute.
pub uninterp spec fn attr_of(html: Seq<char>, sel: Seq<char>, attr: Seq<char>) -> Option<
    Seq<char>,
>;

/// Whether `url::Url::parse` accepts this text as a URL.
pub uninterp spec fn url_ok(s: Seq<char>) -> bool;

/// Relies on scraper: `Selector::parse`, `Html::parse_document`,
/// `Html::select` and `ElementRef::text`. Returns `None` exactly when the
/// selector text does not parse; otherwise one string per matching element,
/// in document order, each the concatenation of the element's text nodes.
#[verifier::external_body]
pub(crate) fn query_texts(html: &str, sel: &str) -> (r: Option<Vec<String>>)
    ensures
        r is Some <==> sel_ok(sel@),
        match r {
            Some(v) => v@.len() == texts_of(html@, sel@).len() && (forall|i: int|
                0 <= i < v@.len() ==> v@[i]@ == texts_of(html@, sel@)[i]),
            None => true,
        },
{
    let selector = match scraper::Selector::parse(sel) {
        Ok(s) => s,
        Err(_) => return None,
    };
    let doc = scraper::Html::parse_document(html);
    Some(doc.select(&selector).map(|el| el.text().collect::<String>()).collect())
}

/// Relies on scraper: `Selector::parse`, `Html::parse_document`,
/// `Html::select` and `ElementRef::attr`. Looks the attribute up on the
/// first element matching the selector.
#[verifier::external_body]
pub(crate) fn query_attr(html: &str, sel: &str, attr: &str) -> (r: Option<String>)
    ensures
        r is Some ==> sel_ok(sel@) && attr_of(html@, sel@, attr@) == Some(r->0@),
        r is None ==> !sel_ok(sel@) || attr_of(html@, sel@, attr@) is None,
{
    let selector = match scraper::Selector::parse(sel) {
        Ok(s) => s,
        Err(_) => return None,
    };
    let doc = scraper::Html::parse_document(html);
    doc.select(&selector).next().and_then(|el| el.attr(attr)).map(|a| a.to_string())
}

/// Relies on `url::Url::parse`: whether the text parses as a URL.
#[verifier::external_body]
pub(crate) fn parse_url_ok(s: &str) -> (r: bool)
    ensures
        r == url_ok(s@),
{
    url::Url::parse(s).is_ok()
}

/// Relies on `String::from_iter` (via `collect`): builds the string holding
/// exactly these characters, in order.
#[verifier::external_body]
pub(crate) fn chars_string(v: &Vec<char>) -> (s: String)
    ensures
        s@ == v@,
{
    v.iter().collect()
}

} // verus!
