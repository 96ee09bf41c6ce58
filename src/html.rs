use vstd::prelude::*;
use crate::counter::{page_count_from_counter, page_count_of};
use crate::error::ScrapeError;
use crate::table::{records_from_rows, records_of, record_views, rows_fragments, CellNode, CompanyRecord};
use crate::text::{strip_controls, unescape};

verus! {

/// The text of the first text node inside the first element of the parsed document
/// `html` that matches the CSS selector `selector`; `None` if there is none.
pub uninterp spec fn first_text_of(html: Seq<char>, selector: Seq<char>) -> Option<Seq<char>>;

/// For each element of the parsed document `html` that matches the CSS selector
/// `selector`, in document order, the fragments of that row: see `row_fragments`.
pub uninterp spec fn row_fragments_of(html: Seq<char>, selector: Seq<char>) -> Seq<Seq<Seq<char>>>;

/// Relies on scraper's Html::parse_document, Selector::parse, Html::select and
/// ElementRef::text: the first text node inside the first element that matches.
#[verifier::external_body]
fn first_match_text(html: &str, selector: &str) -> (r: Option<String>)
    ensures
        match r {
            Some(t) => first_text_of(html@, selector@) == Some(t@),
            None => first_text_of(html@, selector@) is None,
        },
{
    let doc = scraper::Html::parse_document(html);
    match scraper::Selector::parse(selector) {
        Ok(sel) => match doc.select(&sel).next() {
            Some(e) => e.text().next().map(|t| t.to_string()),
            None => None,
        },
        Err(_) => None,
    }
}

/// Relies on scraper's Html::parse_document, Selector::parse, Html::select,
/// NodeRef::children and Node::as_text: for each matching element, its children, each
/// child's children, and for those the text or the texts of their own children.
#[verifier::external_body]
fn matching_rows(html: &str, selector: &str) -> (r: Vec<Vec<Vec<CellNode>>>)
    ensures
        rows_fragments(r@) == row_fragments_of(html@, selector@),
{
    let doc = scraper::Html::parse_document(html);
    let Ok(sel) = scraper::Selector::parse(selector) else { return Vec::new() };
    doc.select(&sel).map(|tr| tr.children().map(|td| td.children().map(|c|
        match c.value().as_text() {
            Some(t) => CellNode::Text(t.to_string()),
            None => CellNode::Element(
                c.children().map(|g| g.value().as_text().map(|t| t.to_string())).collect(),
            ),
        }).collect()).collect()).collect()
}

/// What reading a page count from an optional counter text gives.
pub open spec fn page_count_result(counter: Option<Seq<char>>) -> Result<u64, ScrapeError> {
    match counter {
        Some(t) => match page_count_of(t) {
            Some(n) => Ok(n as u64),
            None => Err(ScrapeError::Parse),
        },
        None => Err(ScrapeError::Parse),
    }
}

/// The page count that the search page `body` shows in its first `span.count` element.
pub open spec fn search_page_count(body: Seq<char>) -> Result<u64, ScrapeError> {
    page_count_result(first_text_of(strip_controls(body), "span.count"@))
}

/// The records of the result page `body`: one for each `tr` element that is not the
/// header row.
pub open spec fn page_records_of(body: Seq<char>) -> Seq<Seq<Seq<char>>> {
    records_of(row_fragments_of(strip_controls(body), "tr"@))
}

/// The page count for the counter widget's text, where one was found.
pub fn page_count_of_widget(counter: Option<String>) -> (r: Result<u64, ScrapeError>)
    ensures
        match counter {
            Some(t) => match page_count_of(t@) {
                Some(n) => r == Ok::<u64, ScrapeError>(n as u64),
                None => r == Err::<u64, ScrapeError>(ScrapeError::Parse),
            },
            None => r == Err::<u64, ScrapeError>(ScrapeError::Parse),
        },
        r matches Ok(n) ==> 1 <= n < u64::MAX,
{
    match counter {
        Some(t) => page_count_from_counter(t.as_str()),
        None => Err(ScrapeError::Parse),
    }
}

/// Reads the number of pages from the directory's search page: the first text of the
/// first `span.count` element, read as a counter.
pub fn resolve_page_count(body: String) -> (r: Result<u64, ScrapeError>)
    ensures
        r == search_page_count(body@),
        r matches Ok(n) ==> 1 <= n < u64::MAX,
{
    let text = unescape(body);
    let counter = first_match_text(text.as_str(), "span.count");
    page_count_of_widget(counter)
}

/// The records of one result page: every `tr` element that is not the header row, in
/// document order.
pub fn page_records(body: String) -> (r: Vec<CompanyRecord>)
    ensures
        record_views(r@) == page_records_of(body@),
{
    let text = unescape(body);
    let rows = matching_rows(text.as_str(), "tr");
    records_from_rows(&rows)
}

} // verus!
