//! The PHIVOLCS bulletin page: its quake table read into rows of named
//! fields, and the rows read into quakes.
//!
//! A page is read by the `scraper` crate into plain tables (`HtmlTable`):
//! the texts of each header cell (`th p`) and, for each table row (`tr`), its
//! cells (`td`) with their text nodes, inner HTML and the `href` of each
//! link (`a`); a date is linked by its cell's last link. The table whose
//! headers are exactly the bulletin's six columns gives one row of fields per
//! non-empty table row.

use vstd::prelude::*;
use crate::fields::{datetime_field, decimal_field, depth_field, opt_str, spec_datetime_field, spec_decimal_field, spec_depth_field, spec_text_field, text_field};
use crate::html_dom::{headers_of_tables, read_table_headers, read_table_rows, rows_of_tables, scraper_table_headers, scraper_table_rows};
use crate::decimal::{Decimal, DecimalView};
use crate::phivolcs::ScraperError;
use crate::quake::{Quake, QuakeView, find_province, province_ok, province_ok_exec, quake_views, spec_find_province};
use crate::text::{chars_of, join, replace_all, replace_all_exec, string_of, trim, trim_chars};

verus! {

/// The views of a list of strings.
pub open spec fn strs(v: Seq<String>) -> Seq<Seq<char>> {
    v.map_values(|s: String| s@)
}

/// A table cell as read from the page: its text nodes, its inner HTML, and
/// the `href` of each of its links, in document order (`None` for a link
/// without `href`).
pub struct HtmlCell {
    pub texts: Vec<String>,
    pub inner_html: String,
    pub links: Vec<Option<String>>,
}

pub struct CellView {
    pub texts: Seq<Seq<char>>,
    pub inner_html: Seq<char>,
    pub links: Seq<Option<Seq<char>>>,
}

pub open spec fn opt_strs(v: Seq<Option<String>>) -> Seq<Option<Seq<char>>> {
    v.map_values(|o: Option<String>| opt_str(o))
}

impl View for HtmlCell {
    type V = CellView;

    open spec fn view(&self) -> CellView {
        CellView {
            texts: strs(self.texts@),
            inner_html: self.inner_html@,
            links: opt_strs(self.links@),
        }
    }
}

/// A table as read from the page: the text nodes of each header cell, and the cells of each row.
pub struct HtmlTable {
    pub header_texts: Vec<Vec<String>>,
    pub rows: Vec<Vec<HtmlCell>>,
}

pub struct TableView {
    pub header_texts: Seq<Seq<Seq<char>>>,
    pub rows: Seq<Seq<CellView>>,
}

pub open spec fn cells_view(cells: Seq<HtmlCell>) -> Seq<CellView> {
    cells.map_values(|c: HtmlCell| c@)
}

/// The texts of a table's header cells.
pub open spec fn header_texts_view(v: Seq<Vec<String>>) -> Seq<Seq<Seq<char>>> {
    v.map_values(|h: Vec<String>| strs(h@))
}

/// The cells of a table's rows.
pub open spec fn rows_cells_view(v: Seq<Vec<HtmlCell>>) -> Seq<Seq<CellView>> {
    v.map_values(|r: Vec<HtmlCell>| cells_view(r@))
}

impl View for HtmlTable {
    type V = TableView;

    open spec fn view(&self) -> TableView {
        TableView { header_texts: header_texts_view(self.header_texts@), rows: rows_cells_view(self.rows@) }
    }
}

pub open spec fn tables_view(ts: Seq<HtmlTable>) -> Seq<TableView> {
    ts.map_values(|t: HtmlTable| t@)
}

/// The fields of one bulletin row, by the names the bulletin gives them.
#[derive(Debug)]
pub struct Row {
    pub date_time: Option<String>,
    pub latitude: Option<String>,
    pub longitude: Option<String>,
    pub depth: Option<String>,
    pub mag: Option<String>,
    pub location: Option<String>,
    pub province: Option<String>,
    pub url: Option<String>,
}

pub struct RowView {
    pub date_time: Option<Seq<char>>,
    pub latitude: Option<Seq<char>>,
    pub longitude: Option<Seq<char>>,
    pub depth: Option<Seq<char>>,
    pub mag: Option<Seq<char>>,
    pub location: Option<Seq<char>>,
    pub province: Option<Seq<char>>,
    pub url: Option<Seq<char>>,
}

impl View for Row {
    type V = RowView;

    open spec fn view(&self) -> RowView {
        RowView {
            date_time: opt_str(self.date_time),
            latitude: opt_str(self.latitude),
            longitude: opt_str(self.longitude),
            depth: opt_str(self.depth),
            mag: opt_str(self.mag),
            location: opt_str(self.location),
            province: opt_str(self.province),
            url: opt_str(self.url),
        }
    }
}

pub open spec fn empty_row() -> RowView {
    RowView {
        date_time: None,
        latitude: None,
        longitude: None,
        depth: None,
        mag: None,
        location: None,
        province: None,
        url: None,
    }
}

/// `r` with the field named `key` set to `value`; a key that names none of
/// the fields leaves `r` as it is.
pub open spec fn row_insert(r: RowView, key: Seq<char>, value: Seq<char>) -> RowView {
    if key == "Date - Time"@ {
        RowView { date_time: Some(value), ..r }
    } else if key == "Latitude"@ {
        RowView { latitude: Some(value), ..r }
    } else if key == "Longitude"@ {
        RowView { longitude: Some(value), ..r }
    } else if key == "Depth"@ {
        RowView { depth: Some(value), ..r }
    } else if key == "Mag"@ {
        RowView { mag: Some(value), ..r }
    } else if key == "Location"@ {
        RowView { location: Some(value), ..r }
    } else if key == "Province"@ {
        RowView { province: Some(value), ..r }
    } else if key == "url"@ {
        RowView { url: Some(value), ..r }
    } else {
        r
    }
}

/// Whether two texts are equal.
pub fn same_text(a: &str, b: &str) -> (r: bool)
    ensures
        r == (a@ == b@),
{
    let x = chars_of(a);
    let y = chars_of(b);
    if x.len() != y.len() {
        proof {
            assert(x@.len() != y@.len());
        }
        return false;
    }
    let mut i: usize = 0;
    while i < x.len()
        invariant
            i <= x.len() == y.len(),
            x@ == a@,
            y@ == b@,
            forall|k: int| 0 <= k < i ==> x@[k] == y@[k],
        decreases x.len() - i,
    {
        if x[i] != y[i] {
            proof {
                assert(x@[i as int] != y@[i as int]);
                assert(x@ != y@);
            }
            return false;
        }
        i = i + 1;
    }
    proof {
        assert(x@ =~= y@);
    }
    true
}

impl Row {
    pub fn new() -> (r: Row)
        ensures
            r@ == empty_row(),
    {
        Row {
            date_time: None,
            latitude: None,
            longitude: None,
            depth: None,
            mag: None,
            location: None,
            province: None,
            url: None,
        }
    }

    /// Sets the field named `key` to `value` (as `HashMap::insert` would for that key).
    pub fn insert(&mut self, key: &str, value: String)
        ensures
            final(self)@ == row_insert(old(self)@, key@, value@),
    {
        if same_text(key, "Date - Time") {
            self.date_time = Some(value);
        } else if same_text(key, "Latitude") {
            self.latitude = Some(value);
        } else if same_text(key, "Longitude") {
            self.longitude = Some(value);
        } else if same_text(key, "Depth") {
            self.depth = Some(value);
        } else if same_text(key, "Mag") {
            self.mag = Some(value);
        } else if same_text(key, "Location") {
            self.location = Some(value);
        } else if same_text(key, "Province") {
            self.province = Some(value);
        } else if same_text(key, "url") {
            self.url = Some(value);
        }
    }

    pub fn is_empty(&self) -> (b: bool)
        ensures
            b == (self@ == empty_row()),
    {
        self.date_time.is_none() && self.latitude.is_none() && self.longitude.is_none()
            && self.depth.is_none() && self.mag.is_none() && self.location.is_none()
            && self.province.is_none() && self.url.is_none()
    }
}

impl Clone for Row {
    fn clone(&self) -> (r: Self)
        ensures
            r@ == self@,
    {
        Row {
            date_time: self.date_time.clone(),
            latitude: self.latitude.clone(),
            longitude: self.longitude.clone(),
            depth: self.depth.clone(),
            mag: self.mag.clone(),
            location: self.location.clone(),
            province: self.province.clone(),
            url: self.url.clone(),
        }
    }
}

/// The texts trimmed, without those that are then empty.
pub open spec fn sanitize(ts: Seq<Seq<char>>) -> Seq<Seq<char>>
    decreases ts.len(),
{
    if ts.len() == 0 {
        Seq::<Seq<char>>::empty()
    } else {
        let rest = sanitize(ts.drop_last());
        let t = trim(ts.last());
        if t.len() > 0 {
            rest.push(t)
        } else {
            rest
        }
    }
}

/// The last of the texts, or `"error"` where there is none.
pub open spec fn last_or_error(ts: Seq<Seq<char>>) -> Seq<char> {
    if ts.len() > 0 {
        ts.last()
    } else {
        "error"@
    }
}

/// The bulletin's header: the first text node of each header cell that has one, trimmed.
pub open spec fn headers_of(hts: Seq<Seq<Seq<char>>>) -> Seq<Seq<char>>
    decreases hts.len(),
{
    if hts.len() == 0 {
        Seq::<Seq<char>>::empty()
    } else {
        let rest = headers_of(hts.drop_last());
        if hts.last().len() > 0 {
            rest.push(trim(hts.last()[0]))
        } else {
            rest
        }
    }
}

pub open spec fn expected_headers() -> Seq<Seq<char>> {
    seq!["Date - Time"@, "Latitude"@, "Longitude"@, "Depth"@, "Mag"@, "Location"@]
}

/// The headers, taken as a set, are exactly the bulletin's six columns.
pub open spec fn headers_match(hs: Seq<Seq<char>>) -> bool {
    &&& forall|i: int| 0 <= i < hs.len() ==> expected_headers().contains(#[trigger] hs[i])
    &&& forall|j: int| 0 <= j < expected_headers().len() ==> hs.contains(#[trigger] expected_headers()[j])
}

/// The `href` of a cell's last link; `None` without a link.
pub open spec fn last_link(cell: CellView) -> Option<Option<Seq<char>>> {
    if cell.links.len() > 0 {
        Some(cell.links.last())
    } else {
        None
    }
}

/// The last link of a date cell, with `\` made `/`, after the page's address
/// (a link without `href` counts as empty).
pub open spec fn cell_url(cell: CellView, source_url: Seq<char>) -> Seq<char> {
    let href = match last_link(cell) {
        Some(Some(h)) => h,
        _ => Seq::<char>::empty(),
    };
    source_url + replace_all(href, seq!['\\'], seq!['/'])
}

/// The fields a cell under `header` gives to its row.
pub open spec fn spec_apply_cell(r: RowView, header: Seq<char>, cell: CellView, source_url: Seq<char>) -> RowView {
    if header == "Date - Time"@ {
        let text = last_or_error(sanitize(cell.texts));
        row_insert(row_insert(r, "url"@, cell_url(cell, source_url)), "Date - Time"@, text + " +08"@)
    } else if header == "Location"@ {
        let (location, province) = spec_find_province(join(sanitize(cell.texts), " "@));
        row_insert(row_insert(r, "Location"@, location), "Province"@, province)
    } else if header == "Mag"@ {
        row_insert(r, "Mag"@, last_or_error(sanitize(cell.texts)))
    } else {
        row_insert(r, header, trim(cell.inner_html))
    }
}

/// A cell that can be read without a failure: a date cell holds a link, a
/// location cell's text can be split at its last parenthesis.
pub open spec fn cell_ok(header: Seq<char>, cell: CellView) -> bool {
    &&& header == "Date - Time"@ ==> cell.links.len() > 0
    &&& header == "Location"@ ==> province_ok(join(sanitize(cell.texts), " "@))
}

/// The fields of a table row, its cells read in order under their headers;
/// cells past the last header give no field.
pub open spec fn build_row(headers: Seq<Seq<char>>, cells: Seq<CellView>, source_url: Seq<char>) -> RowView
    decreases cells.len(),
{
    if cells.len() == 0 {
        empty_row()
    } else {
        let r = build_row(headers, cells.drop_last(), source_url);
        let idx = cells.len() - 1;
        if idx < headers.len() {
            spec_apply_cell(r, headers[idx], cells.last(), source_url)
        } else {
            r
        }
    }
}

pub open spec fn row_ok(headers: Seq<Seq<char>>, cells: Seq<CellView>) -> bool {
    forall|i: int| 0 <= i < cells.len() && i < headers.len() ==> cell_ok(headers[i], #[trigger] cells[i])
}

/// The rows of fields of a table's rows that have cells.
pub open spec fn rows_of(headers: Seq<Seq<char>>, rows: Seq<Seq<CellView>>, source_url: Seq<char>) -> Seq<RowView>
    decreases rows.len(),
{
    if rows.len() == 0 {
        Seq::<RowView>::empty()
    } else {
        let rest = rows_of(headers, rows.drop_last(), source_url);
        if rows.last().len() > 0 {
            rest.push(build_row(headers, rows.last(), source_url))
        } else {
            rest
        }
    }
}

/// The rows of fields a table gives: none unless its headers are the bulletin's.
pub open spec fn table_rows(t: TableView, source_url: Seq<char>) -> Seq<RowView> {
    let hs = headers_of(t.header_texts);
    if headers_match(hs) {
        rows_of(hs, t.rows, source_url)
    } else {
        Seq::<RowView>::empty()
    }
}

/// The rows of fields of all the tables of a page, table after table.
pub open spec fn parse_tables(ts: Seq<TableView>, source_url: Seq<char>) -> Seq<RowView>
    decreases ts.len(),
{
    if ts.len() == 0 {
        Seq::<RowView>::empty()
    } else {
        parse_tables(ts.drop_last(), source_url) + table_rows(ts.last(), source_url)
    }
}

pub open spec fn table_ok(t: TableView) -> bool {
    let hs = headers_of(t.header_texts);
    headers_match(hs) ==> forall|r: int| 0 <= r < t.rows.len() ==> row_ok(hs, #[trigger] t.rows[r])
}

/// Every cell of the page that is read can be read without a failure.
pub open spec fn tables_ok(ts: Seq<TableView>) -> bool {
    forall|i: int| 0 <= i < ts.len() ==> table_ok(#[trigger] ts[i])
}

/// The texts trimmed, without those that are then empty.
pub fn sanitize_text(texts: &Vec<String>) -> (r: Vec<String>)
    ensures
        strs(r@) == sanitize(strs(texts@)),
{
    let mut r: Vec<String> = Vec::new();
    let mut i: usize = 0;
    while i < texts.len()
        invariant
            i <= texts.len(),
            strs(r@) == sanitize(strs(texts@).subrange(0, i as int)),
        decreases texts.len() - i,
    {
        let ghost prev = strs(texts@).subrange(0, i as int);
        let ghost next = strs(texts@).subrange(0, i + 1);
        proof {
            assert(next.drop_last() =~= prev);
        }
        let cs = chars_of(texts[i].as_str());
        let t = trim_chars(&cs);
        if t.len() > 0 {
            let s = string_of(&t);
            r.push(s);
            proof {
                assert(strs(r@) =~= sanitize(prev).push(t@));
            }
        }
        i = i + 1;
    }
    proof {
        assert(strs(texts@).subrange(0, texts@.len() as int) =~= strs(texts@));
    }
    r
}

/// The last of the texts, or `"error"`.
fn last_or_error_exec(ts: &Vec<String>) -> (r: String)
    ensures
        r@ == last_or_error(strs(ts@)),
{
    if ts.len() > 0 {
        ts[ts.len() - 1].clone()
    } else {
        String::from_str("error")
    }
}

/// The texts joined with `sep` between them.
pub fn join_texts(parts: &Vec<String>, sep: &str) -> (r: String)
    ensures
        r@ == join(strs(parts@), sep@),
{
    let mut r = String::new();
    let mut i: usize = 0;
    while i < parts.len()
        invariant
            i <= parts.len(),
            r@ == join(strs(parts@).subrange(0, i as int), sep@),
        decreases parts.len() - i,
    {
        let ghost next = strs(parts@).subrange(0, i + 1);
        proof {
            assert(next.drop_last() =~= strs(parts@).subrange(0, i as int));
        }
        if i > 0 {
            r.append(sep);
        }
        r.append(parts[i].as_str());
        proof {
            if i == 0 {
                assert(r@ =~= next[0]);
            }
        }
        i = i + 1;
    }
    proof {
        assert(strs(parts@).subrange(0, parts@.len() as int) =~= strs(parts@));
    }
    r
}

/// The bulletin's header read from the header cells' texts.
pub fn table_headers(header_texts: &Vec<Vec<String>>) -> (r: Vec<String>)
    ensures
        strs(r@) == headers_of(header_texts_view(header_texts@)),
{
    let ghost all = header_texts_view(header_texts@);
    let mut r: Vec<String> = Vec::new();
    let mut i: usize = 0;
    while i < header_texts.len()
        invariant
            i <= header_texts.len(),
            all == header_texts_view(header_texts@),
            strs(r@) == headers_of(all.subrange(0, i as int)),
        decreases header_texts.len() - i,
    {
        proof {
            assert(all.subrange(0, i + 1).drop_last() =~= all.subrange(0, i as int));
            assert(all.subrange(0, i + 1).last() == strs(header_texts@[i as int]@));
        }
        let texts = &header_texts[i];
        if texts.len() > 0 {
            let cs = chars_of(texts[0].as_str());
            let t = trim_chars(&cs);
            r.push(string_of(&t));
            proof {
                assert(strs(r@) =~= headers_of(all.subrange(0, i as int)).push(t@));
            }
        }
        i = i + 1;
    }
    proof {
        assert(all.subrange(0, header_texts@.len() as int) =~= all);
    }
    r
}

/// Whether `t` is one of the texts.
fn contains_text(list: &Vec<String>, t: &str) -> (b: bool)
    ensures
        b == strs(list@).contains(t@),
{
    let mut i: usize = 0;
    while i < list.len()
        invariant
            i <= list.len(),
            forall|k: int| 0 <= k < i ==> strs(list@)[k] != t@,
        decreases list.len() - i,
    {
        if same_text(list[i].as_str(), t) {
            proof {
                assert(strs(list@)[i as int] == t@);
            }
            return true;
        }
        i = i + 1;
    }
    false
}

fn expected_header_list() -> (r: Vec<String>)
    ensures
        strs(r@) == expected_headers(),
{
    let mut r: Vec<String> = Vec::new();
    r.push(String::from_str("Date - Time"));
    r.push(String::from_str("Latitude"));
    r.push(String::from_str("Longitude"));
    r.push(String::from_str("Depth"));
    r.push(String::from_str("Mag"));
    r.push(String::from_str("Location"));
    proof {
        assert(strs(r@) =~= expected_headers());
    }
    r
}

/// Whether the headers, taken as a set, are exactly the bulletin's six columns.
pub fn headers_match_exec(hs: &Vec<String>) -> (b: bool)
    ensures
        b == headers_match(strs(hs@)),
{
    let expected = expected_header_list();
    let mut i: usize = 0;
    while i < hs.len()
        invariant
            i <= hs.len(),
            strs(expected@) == expected_headers(),
            forall|k: int| 0 <= k < i ==> expected_headers().contains(#[trigger] strs(hs@)[k]),
        decreases hs.len() - i,
    {
        if !contains_text(&expected, hs[i].as_str()) {
            proof {
                assert(!expected_headers().contains(strs(hs@)[i as int]));
            }
            return false;
        }
        i = i + 1;
    }
    let mut j: usize = 0;
    while j < expected.len()
        invariant
            j <= expected.len(),
            strs(expected@) == expected_headers(),
            forall|k: int| 0 <= k < hs.len() ==> expected_headers().contains(#[trigger] strs(hs@)[k]),
            forall|k: int| 0 <= k < j ==> strs(hs@).contains(#[trigger] expected_headers()[k]),
        decreases expected.len() - j,
    {
        if !contains_text(hs, expected[j].as_str()) {
            proof {
                assert(!strs(hs@).contains(expected_headers()[j as int]));
            }
            return false;
        }
        j = j + 1;
    }
    true
}

/// The link of a date cell, with `\` made `/`, after the page's address.
fn cell_url_exec(cell: &HtmlCell, source_url: &str) -> (r: String)
    ensures
        r@ == cell_url(cell@, source_url@),
{
    let n = cell.links.len();
    let href: Vec<char> = if n > 0 {
        match &cell.links[n - 1] {
            Some(h) => chars_of(h.as_str()),
            None => Vec::new(),
        }
    } else {
        Vec::new()
    };
    let back: Vec<char> = vec!['\\'];
    let slash: Vec<char> = vec!['/'];
    proof {
        assert(back@ =~= seq!['\\']);
        assert(slash@ =~= seq!['/']);
        assert(href@ == (match last_link(cell@) {
            Some(Some(h)) => h,
            _ => Seq::<char>::empty(),
        }));
    }
    let fixed = replace_all_exec(&href, &back, &slash);
    let mut r = String::from_str(source_url);
    r.append(string_of(&fixed).as_str());
    r
}

/// Whether a cell under `header` can be read without a failure.
pub fn cell_ok_exec(header: &str, cell: &HtmlCell) -> (b: bool)
    ensures
        b == cell_ok(header@, cell@),
{
    if same_text(header, "Date - Time") && cell.links.len() == 0 {
        return false;
    }
    if same_text(header, "Location") {
        let text = join_texts(&sanitize_text(&cell.texts), " ");
        return province_ok_exec(text.as_str());
    }
    true
}

/// Gives `row` the fields a cell under `header` holds.
pub fn apply_cell(row: &mut Row, header: &str, cell: &HtmlCell, source_url: &str)
    requires
        cell_ok(header@, cell@),
    ensures
        final(row)@ == spec_apply_cell(old(row)@, header@, cell@, source_url@),
{
    if same_text(header, "Date - Time") {
        let url = cell_url_exec(cell, source_url);
        row.insert("url", url);
        let mut text = last_or_error_exec(&sanitize_text(&cell.texts));
        text.append(" +08");
        row.insert("Date - Time", text);
    } else if same_text(header, "Location") {
        let text = join_texts(&sanitize_text(&cell.texts), " ");
        let (location, province) = find_province(text);
        row.insert("Location", location);
        row.insert("Province", province);
    } else if same_text(header, "Mag") {
        let text = last_or_error_exec(&sanitize_text(&cell.texts));
        row.insert("Mag", text);
    } else {
        let cs = chars_of(cell.inner_html.as_str());
        let t = trim_chars(&cs);
        row.insert(header, string_of(&t));
    }
}

/// Whether every cell of a table row can be read without a failure.
pub fn row_ok_exec(headers: &Vec<String>, cells: &Vec<HtmlCell>) -> (b: bool)
    ensures
        b == row_ok(strs(headers@), cells_view(cells@)),
{
    let mut i: usize = 0;
    while i < cells.len() && i < headers.len()
        invariant
            i <= cells.len(),
            forall|k: int| 0 <= k < i ==> cell_ok(strs(headers@)[k], #[trigger] cells_view(cells@)[k]),
        decreases cells.len() - i,
    {
        if !cell_ok_exec(headers[i].as_str(), &cells[i]) {
            proof {
                assert(cells_view(cells@)[i as int] == cells[i as int]@);
                assert(!cell_ok(strs(headers@)[i as int], cells_view(cells@)[i as int]));
            }
            return false;
        }
        i = i + 1;
    }
    true
}

/// The fields of a table row.
pub fn build_row_exec(headers: &Vec<String>, cells: &Vec<HtmlCell>, source_url: &str) -> (r: Row)
    requires
        row_ok(strs(headers@), cells_view(cells@)),
    ensures
        r@ == build_row(strs(headers@), cells_view(cells@), source_url@),
{
    let ghost hs = strs(headers@);
    let ghost cv = cells_view(cells@);
    let mut row = Row::new();
    let mut i: usize = 0;
    while i < cells.len()
        invariant
            i <= cells.len(),
            hs == strs(headers@),
            cv == cells_view(cells@),
            row_ok(hs, cv),
            row@ == build_row(hs, cv.subrange(0, i as int), source_url@),
        decreases cells.len() - i,
    {
        proof {
            assert(cv.subrange(0, i + 1).drop_last() =~= cv.subrange(0, i as int));
            assert(cv.subrange(0, i + 1).last() == cv[i as int]);
        }
        if i < headers.len() {
            proof {
                assert(cell_ok(hs[i as int], cv[i as int]));
            }
            apply_cell(&mut row, headers[i].as_str(), &cells[i], source_url);
        }
        i = i + 1;
    }
    proof {
        assert(cv.subrange(0, cells@.len() as int) =~= cv);
    }
    row
}

/// The tables of a page: the header texts and the row cells that the
/// `scraper` crate reads with the selectors `table`, `th p`, `tr`, `td` and
/// `a` (its `href`), paired table by table. `None` where a selector is
/// refused, or should the two reads not find the same number of tables.
pub open spec fn page_tables(html: Seq<char>) -> Option<Seq<TableView>> {
    match (
        scraper_table_headers(html, "table"@, "th p"@),
        scraper_table_rows(html, "table"@, "tr"@, "td"@, "a"@, "href"@),
    ) {
        (Some(hs), Some(rs)) => if hs.len() == rs.len() {
            Some(zipped_tables(hs, rs))
        } else {
            None
        },
        _ => None,
    }
}

pub open spec fn zipped_tables(hs: Seq<Seq<Seq<Seq<char>>>>, rs: Seq<Seq<Seq<CellView>>>) -> Seq<TableView> {
    Seq::new(hs.len(), |i: int| TableView { header_texts: hs[i], rows: rs[i] })
}

/// Pairs the header texts and the row cells of each table.
fn zip_tables(hs: Vec<Vec<Vec<String>>>, rs: Vec<Vec<Vec<HtmlCell>>>) -> (r: Vec<HtmlTable>)
    requires
        hs.len() == rs.len(),
    ensures
        tables_view(r@) == zipped_tables(headers_of_tables(hs@), rows_of_tables(rs@)),
{
    let ghost h0 = headers_of_tables(hs@);
    let ghost r0 = rows_of_tables(rs@);
    let n = hs.len();
    let mut hs = hs;
    let mut rs = rs;
    let mut out: Vec<HtmlTable> = Vec::new();
    let mut k: usize = 0;
    while k < n
        invariant
            k <= n,
            hs.len() == n - k,
            rs.len() == n - k,
            h0.len() == n,
            r0.len() == n,
            headers_of_tables(hs@) == h0.subrange(k as int, n as int),
            rows_of_tables(rs@) == r0.subrange(k as int, n as int),
            tables_view(out@) == zipped_tables(h0, r0).subrange(0, k as int),
        decreases n - k,
    {
        let ghost hv = hs@;
        let ghost rv = rs@;
        let h = hs.remove(0);
        let r = rs.remove(0);
        proof {
            assert(headers_of_tables(hs@) =~= headers_of_tables(hv).subrange(1, hv.len() as int));
            assert(rows_of_tables(rs@) =~= rows_of_tables(rv).subrange(1, rv.len() as int));
            assert(headers_of_tables(hv)[0] == h0[k as int]);
            assert(rows_of_tables(rv)[0] == r0[k as int]);
        }
        let ghost before = tables_view(out@);
        out.push(HtmlTable { header_texts: h, rows: r });
        proof {
            assert(tables_view(out@) =~= before.push(zipped_tables(h0, r0)[k as int]));
            assert(zipped_tables(h0, r0).subrange(0, k + 1) =~= zipped_tables(h0, r0).subrange(0, k as int).push(zipped_tables(h0, r0)[k as int]));
        }
        k = k + 1;
    }
    proof {
        assert(zipped_tables(h0, r0).subrange(0, n as int) =~= zipped_tables(h0, r0));
    }
    out
}

/// The bulletin read into rows of fields.
pub struct HtmlParser(Vec<Row>);

pub open spec fn rows_view(rs: Seq<Row>) -> Seq<RowView> {
    rs.map_values(|r: Row| r@)
}

impl View for HtmlParser {
    type V = Seq<RowView>;

    closed spec fn view(&self) -> Seq<RowView> {
        rows_view(self.0@)
    }
}

/// Whether every cell of a page that is read can be read without a failure.
pub fn tables_ok_exec(tables: &Vec<HtmlTable>) -> (b: bool)
    ensures
        b == tables_ok(tables_view(tables@)),
{
    let mut i: usize = 0;
    while i < tables.len()
        invariant
            i <= tables.len(),
            forall|k: int| 0 <= k < i ==> table_ok(#[trigger] tables_view(tables@)[k]),
        decreases tables.len() - i,
    {
        let t = &tables[i];
        proof {
            assert(tables_view(tables@)[i as int] == t@);
        }
        let hs = table_headers(&t.header_texts);
        if headers_match_exec(&hs) {
            let mut r: usize = 0;
            while r < t.rows.len()
                invariant
                    r <= t.rows.len(),
                    i < tables.len(),
                    tables_view(tables@)[i as int] == t@,
                    strs(hs@) == headers_of(t@.header_texts),
                    headers_match(strs(hs@)),
                    forall|k: int| 0 <= k < r ==> row_ok(strs(hs@), #[trigger] t@.rows[k]),
                decreases t.rows.len() - r,
            {
                if !row_ok_exec(&hs, &t.rows[r]) {
                    proof {
                        assert(t@.rows[r as int] == cells_view(t.rows@[r as int]@));
                        assert(!row_ok(strs(hs@), t@.rows[r as int]));
                        assert(!table_ok(tables_view(tables@)[i as int]));
                    }
                    return false;
                }
                r = r + 1;
            }
        }
        proof {
            assert(table_ok(tables_view(tables@)[i as int]));
        }
        i = i + 1;
    }
    true
}

impl HtmlParser {
    /// The rows of fields of the tables of a page.
    pub fn from_tables(tables: &Vec<HtmlTable>, source_url: &str) -> (p: HtmlParser)
        requires
            tables_ok(tables_view(tables@)),
        ensures
            p@ == parse_tables(tables_view(tables@), source_url@),
    {
        let ghost tv = tables_view(tables@);
        let mut collection: Vec<Row> = Vec::new();
        let mut i: usize = 0;
        while i < tables.len()
            invariant
                i <= tables.len(),
                tv == tables_view(tables@),
                tables_ok(tv),
                rows_view(collection@) == parse_tables(tv.subrange(0, i as int), source_url@),
            decreases tables.len() - i,
        {
            let t = &tables[i];
            proof {
                assert(tv.subrange(0, i + 1).drop_last() =~= tv.subrange(0, i as int));
                assert(tv.subrange(0, i + 1).last() == t@);
                assert(table_ok(tv[i as int]));
            }
            let ghost base = rows_view(collection@);
            let hs = table_headers(&t.header_texts);
            if headers_match_exec(&hs) {
                let mut r: usize = 0;
                while r < t.rows.len()
                    invariant
                        r <= t.rows.len(),
                        strs(hs@) == headers_of(t@.header_texts),
                        headers_match(strs(hs@)),
                        table_ok(t@),
                        rows_view(collection@) == base + rows_of(
                            strs(hs@),
                            t@.rows.subrange(0, r as int),
                            source_url@,
                        ),
                    decreases t.rows.len() - r,
                {
                    let cells = &t.rows[r];
                    proof {
                        assert(t@.rows.subrange(0, r + 1).drop_last() =~= t@.rows.subrange(0, r as int));
                        assert(t@.rows.subrange(0, r + 1).last() == cells_view(cells@));
                        assert(row_ok(strs(hs@), t@.rows[r as int]));
                    }
                    if cells.len() > 0 {
                        let row = build_row_exec(&hs, cells, source_url);
                        let ghost prev = rows_view(collection@);
                        collection.push(row);
                        proof {
                            assert(rows_view(collection@) =~= prev.push(row@));
                        }
                    }
                    r = r + 1;
                }
                proof {
                    assert(t@.rows.subrange(0, t@.rows.len() as int) =~= t@.rows);
                }
            } else {
                proof {
                    assert(base + Seq::<RowView>::empty() =~= base);
                }
            }
            i = i + 1;
        }
        proof {
            assert(tv.subrange(0, tables@.len() as int) =~= tv);
        }
        HtmlParser(collection)
    }
}

/// The instant of a row's `Date - Time` field.
pub open spec fn spec_get_datetime(r: RowView) -> Result<i64, Seq<char>> {
    spec_datetime_field(r.date_time, "Date - Time not found in row!"@)
}

/// A row's `Depth` field read as kilometres.
pub open spec fn spec_get_depth(r: RowView) -> Result<u16, Seq<char>> {
    spec_depth_field(r.depth, "Depth not found in row!"@)
}

/// The quake a row describes, or the description of the first field, in the
/// order date, longitude, latitude, magnitude, depth, location, province,
/// link, that cannot be read.
pub open spec fn quake_of_row(r: RowView) -> Result<QuakeView, Seq<char>> {
    match spec_get_datetime(r) {
        Err(e) => Err(e),
        Ok(datetime) => match spec_decimal_field(r.longitude, "Longitude not found in row!"@) {
            Err(e) => Err(e),
            Ok(longitude) => match spec_decimal_field(r.latitude, "Latitude not found in row!"@) {
                Err(e) => Err(e),
                Ok(latitude) => match spec_decimal_field(r.mag, "Mag not found in row!"@) {
                    Err(e) => Err(e),
                    Ok(magnitude) => match spec_get_depth(r) {
                        Err(e) => Err(e),
                        Ok(depth) => match spec_text_field(r.location, "Location not found in row!"@) {
                            Err(e) => Err(e),
                            Ok(location) => match spec_text_field(r.province, "province not found in row!"@) {
                                Err(e) => Err(e),
                                Ok(province) => match spec_text_field(r.url, "URL not found in row!"@) {
                                    Err(e) => Err(e),
                                    Ok(url) => Ok(QuakeView {
                                        datetime,
                                        longitude,
                                        latitude,
                                        magnitude,
                                        depth,
                                        location,
                                        province,
                                        url,
                                    }),
                                },
                            },
                        },
                    },
                },
            },
        },
    }
}

/// The quakes of the rows in order, or the description of the first failure.
pub open spec fn quakes_of(rows: Seq<RowView>) -> Result<Seq<QuakeView>, Seq<char>>
    decreases rows.len(),
{
    if rows.len() == 0 {
        Ok(Seq::<QuakeView>::empty())
    } else {
        match quakes_of(rows.drop_last()) {
            Err(e) => Err(e),
            Ok(qs) => match quake_of_row(rows.last()) {
                Ok(q) => Ok(qs.push(q)),
                Err(e) => Err(e),
            },
        }
    }
}

impl HtmlParser {
    /// The location and the province of a place (see `spec_find_province`).
    pub fn find_province(text: String) -> (r: (String, String))
        requires
            province_ok(text@),
        ensures
            (r.0@, r.1@) == spec_find_province(text@),
    {
        find_province(text)
    }

    /// The rows of fields read from the page.
    pub fn rows(&self) -> (r: &Vec<Row>)
        ensures
            rows_view(r@) == self@,
    {
        &self.0
    }

    /// The instant of a row's `Date - Time` field, read as `%d %B %Y - %I:%M %p %#z`.
    pub fn get_datetime(row: &Row) -> (r: Result<i64, ScraperError>)
        ensures
            match r {
                Ok(t) => spec_get_datetime(row@) == Ok::<i64, Seq<char>>(t),
                Err(e) => spec_get_datetime(row@) == Err::<i64, Seq<char>>(e.spec_description()),
            },
    {
        match datetime_field(&row.date_time, "Date - Time not found in row!") {
            Ok(t) => Ok(t),
            Err(e) => Err(ScraperError::new(e)),
        }
    }

    pub fn get_longitude(row: &Row) -> (r: Result<Decimal, ScraperError>)
        ensures
            match r {
                Ok(d) => spec_decimal_field(row@.longitude, "Longitude not found in row!"@) == Ok::<DecimalView, Seq<char>>(d@),
                Err(e) => spec_decimal_field(row@.longitude, "Longitude not found in row!"@) == Err::<DecimalView, Seq<char>>(e.spec_description()),
            },
    {
        match decimal_field(&row.longitude, "Longitude not found in row!") {
            Ok(v) => Ok(v),
            Err(e) => Err(ScraperError::new(e)),
        }
    }

    pub fn get_latitude(row: &Row) -> (r: Result<Decimal, ScraperError>)
        ensures
            match r {
                Ok(d) => spec_decimal_field(row@.latitude, "Latitude not found in row!"@) == Ok::<DecimalView, Seq<char>>(d@),
                Err(e) => spec_decimal_field(row@.latitude, "Latitude not found in row!"@) == Err::<DecimalView, Seq<char>>(e.spec_description()),
            },
    {
        match decimal_field(&row.latitude, "Latitude not found in row!") {
            Ok(v) => Ok(v),
            Err(e) => Err(ScraperError::new(e)),
        }
    }

    pub fn get_magnitude(row: &Row) -> (r: Result<Decimal, ScraperError>)
        ensures
            match r {
                Ok(d) => spec_decimal_field(row@.mag, "Mag not found in row!"@) == Ok::<DecimalView, Seq<char>>(d@),
                Err(e) => spec_decimal_field(row@.mag, "Mag not found in row!"@) == Err::<DecimalView, Seq<char>>(e.spec_description()),
            },
    {
        match decimal_field(&row.mag, "Mag not found in row!") {
            Ok(v) => Ok(v),
            Err(e) => Err(ScraperError::new(e)),
        }
    }

    pub fn get_depth(row: &Row) -> (r: Result<u16, ScraperError>)
        ensures
            match r {
                Ok(d) => spec_get_depth(row@) == Ok::<u16, Seq<char>>(d),
                Err(e) => spec_get_depth(row@) == Err::<u16, Seq<char>>(e.spec_description()),
            },
    {
        match depth_field(&row.depth, "Depth not found in row!") {
            Ok(d) => Ok(d),
            Err(e) => Err(ScraperError::new(e)),
        }
    }

    pub fn get_location(row: &Row) -> (r: Result<String, ScraperError>)
        ensures
            match r {
                Ok(s) => spec_text_field(row@.location, "Location not found in row!"@) == Ok::<Seq<char>, Seq<char>>(s@),
                Err(e) => spec_text_field(row@.location, "Location not found in row!"@) == Err::<Seq<char>, Seq<char>>(e.spec_description()),
            },
    {
        match text_field(&row.location, "Location not found in row!") {
            Ok(v) => Ok(v),
            Err(e) => Err(ScraperError::new(e)),
        }
    }

    pub fn get_province(row: &Row) -> (r: Result<String, ScraperError>)
        ensures
            match r {
                Ok(s) => spec_text_field(row@.province, "province not found in row!"@) == Ok::<Seq<char>, Seq<char>>(s@),
                Err(e) => spec_text_field(row@.province, "province not found in row!"@) == Err::<Seq<char>, Seq<char>>(e.spec_description()),
            },
    {
        match text_field(&row.province, "province not found in row!") {
            Ok(v) => Ok(v),
            Err(e) => Err(ScraperError::new(e)),
        }
    }

    pub fn get_url(row: &Row) -> (r: Result<String, ScraperError>)
        ensures
            match r {
                Ok(s) => spec_text_field(row@.url, "URL not found in row!"@) == Ok::<Seq<char>, Seq<char>>(s@),
                Err(e) => spec_text_field(row@.url, "URL not found in row!"@) == Err::<Seq<char>, Seq<char>>(e.spec_description()),
            },
    {
        match text_field(&row.url, "URL not found in row!") {
            Ok(v) => Ok(v),
            Err(e) => Err(ScraperError::new(e)),
        }
    }

    /// The quake a row describes.
    pub fn quake_from_row(row: &Row) -> (r: Result<Quake, ScraperError>)
        ensures
            match r {
                Ok(q) => quake_of_row(row@) == Ok::<QuakeView, Seq<char>>(q@),
                Err(e) => quake_of_row(row@) == Err::<QuakeView, Seq<char>>(e.spec_description()),
            },
    {
        let datetime = Self::get_datetime(row)?;
        let longitude = Self::get_longitude(row)?;
        let latitude = Self::get_latitude(row)?;
        let magnitude = Self::get_magnitude(row)?;
        let depth = Self::get_depth(row)?;
        let location = Self::get_location(row)?;
        let province = Self::get_province(row)?;
        let url = Self::get_url(row)?;
        Ok(Quake::new(datetime, longitude, latitude, magnitude, depth, location, province, url))
    }

    /// The quakes of the bulletin's rows, in order; the first row that cannot
    /// be read gives the error.
    pub fn get_quakes(&self) -> (r: Result<Vec<Quake>, ScraperError>)
        ensures
            match r {
                Ok(qs) => quakes_of(self@) == Ok::<Seq<QuakeView>, Seq<char>>(quake_views(qs@)),
                Err(e) => quakes_of(self@) == Err::<Seq<QuakeView>, Seq<char>>(e.spec_description()),
            },
    {
        let mut quakes: Vec<Quake> = Vec::new();
        let mut i: usize = 0;
        proof {
            assert(self@.subrange(0, 0) =~= Seq::<RowView>::empty());
            assert(quake_views(quakes@) =~= Seq::<QuakeView>::empty());
        }
        while i < self.0.len()
            invariant
                i <= self.0.len(),
                quakes_of(self@.subrange(0, i as int)) == Ok::<Seq<QuakeView>, Seq<char>>(quake_views(quakes@)),
            decreases self.0.len() - i,
        {
            proof {
                assert(self@.subrange(0, i + 1).drop_last() =~= self@.subrange(0, i as int));
                assert(self@.subrange(0, i + 1).last() == self.0@[i as int]@);
            }
            let q = match Self::quake_from_row(&self.0[i]) {
                Ok(q) => q,
                Err(e) => {
                    proof {
                        lemma_quakes_err_extends(self@, i + 1);
                    }
                    return Err(e);
                },
            };
            let ghost prev = quake_views(quakes@);
            quakes.push(q);
            proof {
                assert(quake_views(quakes@) =~= prev.push(q@));
            }
            i = i + 1;
        }
        proof {
            assert(self@.subrange(0, self@.len() as int) =~= self@);
        }
        Ok(quakes)
    }

    /// The tables of a page as the `scraper` crate reads them (see `page_tables`).
    pub fn extract_tables(html: &str) -> (tables: Option<Vec<HtmlTable>>)
        ensures
            match tables {
                Some(ts) => page_tables(html@) == Some(tables_view(ts@)),
                None => page_tables(html@) is None,
            },
    {
        let headers = read_table_headers(html, "table", "th p");
        let rows = read_table_rows(html, "table", "tr", "td", "a", "href");
        match (headers, rows) {
            (Some(hs), Some(rs)) => {
                if hs.len() != rs.len() {
                    return None;
                }
                Some(zip_tables(hs, rs))
            },
            _ => None,
        }
    }

    /// The rows of fields of a page's tables where every cell that is read
    /// can be read; `None` where one cannot (a date without a link, a location
    /// that cannot be split at its parenthesis).
    pub fn read_tables(tables: &Vec<HtmlTable>, source_url: &str) -> (r: Option<HtmlParser>)
        ensures
            r is Some <==> tables_ok(tables_view(tables@)),
            r matches Some(p) ==> p@ == parse_tables(tables_view(tables@), source_url@),
    {
        if tables_ok_exec(tables) {
            Some(Self::from_tables(tables, source_url))
        } else {
            None
        }
    }

    /// The bulletin read from a page: the rows of its quake table, each link
    /// after `source_url`, as `read_tables` gives them for the page's tables
    /// (`page_tables`); `None` where the tables cannot be read or a cell that
    /// is read cannot be (a date without a link, a location that cannot be
    /// split at its parenthesis).
    pub fn parse(html: String, source_url: String) -> (r: Option<HtmlParser>)
        ensures
            r is Some <==> (page_tables(html@) matches Some(t) && tables_ok(t)),
            r matches Some(p) ==> (page_tables(html@) matches Some(t) && p@ == parse_tables(t, source_url@)),
    {
        match Self::extract_tables(html.as_str()) {
            Some(tables) => Self::read_tables(&tables, source_url.as_str()),
            None => None,
        }
    }
}

/// A failure among the first rows is the failure of all of them.
pub proof fn lemma_quakes_err_extends(rows: Seq<RowView>, k: int)
    requires
        0 <= k <= rows.len(),
        quakes_of(rows.subrange(0, k)) is Err,
    ensures
        quakes_of(rows) == quakes_of(rows.subrange(0, k)),
    decreases rows.len() - k,
{
    if k == rows.len() {
        assert(rows.subrange(0, k) =~= rows);
    } else {
        assert(rows.drop_last().subrange(0, k) =~= rows.subrange(0, k));
        lemma_quakes_err_extends(rows.drop_last(), k);
    }
}

/// Reading a bulletin table keeps every row: a table row with cells adds
/// exactly its row of fields after the rows read before it; a row without
/// cells adds none.
pub proof fn lemma_rows_of_append(headers: Seq<Seq<char>>, rows: Seq<Seq<CellView>>, r: Seq<CellView>, source_url: Seq<char>)
    ensures
        r.len() > 0 ==> rows_of(headers, rows.push(r), source_url) == rows_of(headers, rows, source_url).push(
            build_row(headers, r, source_url),
        ),
        r.len() == 0 ==> rows_of(headers, rows.push(r), source_url) == rows_of(headers, rows, source_url),
{
    assert(rows.push(r).drop_last() =~= rows);
}

/// A table whose rows all have cells gives one row of fields per table row,
/// in page order: row `k` of fields is read from table row `k`.
pub proof fn lemma_rows_of_one_per_row(headers: Seq<Seq<char>>, rows: Seq<Seq<CellView>>, source_url: Seq<char>)
    requires
        forall|i: int| 0 <= i < rows.len() ==> (#[trigger] rows[i]).len() > 0,
    ensures
        rows_of(headers, rows, source_url).len() == rows.len(),
        forall|k: int| 0 <= k < rows.len() ==> #[trigger] rows_of(headers, rows, source_url)[k] == build_row(
            headers,
            rows[k],
            source_url,
        ),
    decreases rows.len(),
{
    if rows.len() > 0 {
        let init = rows.drop_last();
        assert forall|i: int| 0 <= i < init.len() implies (#[trigger] init[i]).len() > 0 by {
            assert(init[i] == rows[i]);
        }
        lemma_rows_of_one_per_row(headers, init, source_url);
        assert(rows[rows.len() - 1].len() > 0);
        assert forall|k: int| 0 <= k < rows.len() implies #[trigger] rows_of(headers, rows, source_url)[k]
            == build_row(headers, rows[k], source_url) by {
            if k < init.len() {
                assert(init[k] == rows[k]);
            }
        }
    }
}

/// The rows of a page are those of its tables, table after table: a further
/// table adds exactly its own rows after the rows read before it.
pub proof fn lemma_parse_tables_append(ts: Seq<TableView>, t: TableView, source_url: Seq<char>)
    ensures
        parse_tables(ts.push(t), source_url) == parse_tables(ts, source_url) + table_rows(t, source_url),
{
    assert(ts.push(t).drop_last() =~= ts);
}

/// Rows are read into quakes one for one and in order: a further row that
/// reads adds its quake after those of the rows before it; one that does not
/// read gives its error, where the rows before it read.
pub proof fn lemma_quakes_of_append(rows: Seq<RowView>, r: RowView)
    ensures
        quakes_of(rows) matches Ok(qs) ==> quakes_of(rows.push(r)) == (match quake_of_row(r) {
            Ok(q) => Ok::<Seq<QuakeView>, Seq<char>>(qs.push(q)),
            Err(e) => Err::<Seq<QuakeView>, Seq<char>>(e),
        }),
        quakes_of(rows) is Err ==> quakes_of(rows.push(r)) == quakes_of(rows),
{
    assert(rows.push(r).drop_last() =~= rows);
}

/// Where every row reads, the quakes are one per row, in order: quake `k` is
/// the quake of row `k`.
pub proof fn lemma_quakes_of_one_per_row(rows: Seq<RowView>)
    requires
        forall|i: int| 0 <= i < rows.len() ==> quake_of_row(#[trigger] rows[i]) is Ok,
    ensures
        quakes_of(rows) is Ok,
        quakes_of(rows) matches Ok(qs) ==> qs.len() == rows.len() && forall|k: int| 0 <= k < rows.len()
            ==> quake_of_row(#[trigger] rows[k]) == Ok::<QuakeView, Seq<char>>(qs[k]),
    decreases rows.len(),
{
    if rows.len() > 0 {
        let init = rows.drop_last();
        assert forall|i: int| 0 <= i < init.len() implies quake_of_row(#[trigger] init[i]) is Ok by {
            assert(init[i] == rows[i]);
        }
        lemma_quakes_of_one_per_row(init);
        assert(quake_of_row(rows[rows.len() - 1]) is Ok);
        let qs = quakes_of(init)->Ok_0;
        let q = quake_of_row(rows.last())->Ok_0;
        assert(quakes_of(rows) == Ok::<Seq<QuakeView>, Seq<char>>(qs.push(q)));
        assert forall|k: int| 0 <= k < rows.len() implies quake_of_row(#[trigger] rows[k])
            == Ok::<QuakeView, Seq<char>>(qs.push(q)[k]) by {
            if k < init.len() {
                assert(init[k] == rows[k]);
            }
        }
    }
}

} // verus!
