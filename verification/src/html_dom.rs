//! A page read by the `scraper` crate into plain values: for each element
//! that matches the table selector, the text nodes of its header elements,
//! and the cells of its row elements, each with its text nodes, inner HTML
//! and the attribute values of its links.

use vstd::prelude::*;
use scraper::{Html, Selector};
use crate::bulletin::{CellView, HtmlCell, header_texts_view, rows_cells_view};

verus! {

/// What the `scraper` crate reads from the page `html`: after
/// `Html::parse_document`, for each match of the selector `table`
/// (`Html::select`, in document order), the `ElementRef::text` nodes of each
/// match of `header` below it (`ElementRef::select`). `None` where
/// `Selector::parse` refuses a selector.
pub uninterp spec fn scraper_table_headers(html: Seq<char>, table: Seq<char>, header: Seq<char>) -> Option<Seq<Seq<Seq<Seq<char>>>>>;

/// What the `scraper` crate reads from the page `html`: after
/// `Html::parse_document`, for each match of the selector `table` (in
/// document order), for each match of `row` below it, the matches of `cell`
/// below that row, each with its `ElementRef::text` nodes, its
/// `ElementRef::inner_html`, and the `ElementRef::attr` value `attr` of each
/// match of `link` below it. `None` where `Selector::parse` refuses a selector.
pub uninterp spec fn scraper_table_rows(
    html: Seq<char>,
    table: Seq<char>,
    row: Seq<char>,
    cell: Seq<char>,
    link: Seq<char>,
    attr: Seq<char>,
) -> Option<Seq<Seq<Seq<CellView>>>>;

pub open spec fn headers_of_tables(v: Seq<Vec<Vec<String>>>) -> Seq<Seq<Seq<Seq<char>>>> {
    v.map_values(|t: Vec<Vec<String>>| header_texts_view(t@))
}

pub open spec fn rows_of_tables(v: Seq<Vec<Vec<HtmlCell>>>) -> Seq<Seq<Seq<CellView>>> {
    v.map_values(|t: Vec<Vec<HtmlCell>>| rows_cells_view(t@))
}

/// Reads the header texts of the page's tables with the `scraper` crate, as
/// `scraper_table_headers` describes. The contract names the result.
#[verifier::external_body]
pub(crate) fn read_table_headers(html: &str, table: &str, header: &str) -> (r: Option<Vec<Vec<Vec<String>>>>)
    ensures
        match r {
            Some(v) => scraper_table_headers(html@, table@, header@) == Some(headers_of_tables(v@)),
            None => scraper_table_headers(html@, table@, header@) is None,
        },
{
    let (t, h) = (Selector::parse(table).ok()?, Selector::parse(header).ok()?);
    let texts = |e: scraper::ElementRef| e.text().map(String::from).collect();
    Some(Html::parse_document(html).select(&t).map(|tb| tb.select(&h).map(texts).collect()).collect())
}

/// Reads the cells of the rows of the page's tables with the `scraper`
/// crate, as `scraper_table_rows` describes. The contract names the result.
#[verifier::external_body]
pub(crate) fn read_table_rows(html: &str, table: &str, row: &str, cell: &str, link: &str, attr: &str) -> (r: Option<Vec<Vec<Vec<HtmlCell>>>>)
    ensures
        match r {
            Some(v) => scraper_table_rows(html@, table@, row@, cell@, link@, attr@) == Some(rows_of_tables(v@)),
            None => scraper_table_rows(html@, table@, row@, cell@, link@, attr@) is None,
        },
{
    let s = |css: &str| Selector::parse(css).ok();
    let (t, r, c, l) = (s(table)?, s(row)?, s(cell)?, s(link)?);
    Some(Html::parse_document(html).select(&t).map(|tb| tb.select(&r).map(|tr| tr.select(&c).map(|td| HtmlCell {
        texts: td.text().map(String::from).collect(),
        inner_html: td.inner_html(),
        links: td.select(&l).map(|a| a.attr(attr).map(String::from)).collect(),
    }).collect()).collect()).collect())
}

} // verus!
