use pse_companies::counter::page_count_from_counter;
use pse_companies::error::ScrapeError;
use pse_companies::html::{page_count_of_widget, page_records, resolve_page_count};
use pse_companies::scrape::{page_url, search_url, Scrape};
use pse_companies::table::{
    assemble, extract_fragments, header_row, is_header, records_from_rows, CellNode, CompanyRecord,
};
use pse_companies::unescape;

fn strings(v: &[&str]) -> Vec<String> {
    v.iter().map(|s| s.to_string()).collect()
}

fn fields(r: &CompanyRecord) -> Vec<String> {
    vec![
        r.company_name.clone(),
        r.stock_symbol.clone(),
        r.sector.clone(),
        r.subsector.clone(),
        r.listing_date.clone(),
    ]
}

const HEADER_ROW: &str = "<tr><th>Company Name</th><th>Stock Symbol</th><th>Sector</th><th>Subsector</th><th>Listing Date</th></tr>";

fn company_row(name: &str, symbol: &str) -> String {
    format!(
        "<tr>\n\t<td><a href=\"#\">{name}</a></td>\n\t<td><a>{symbol}</a></td>\n\t<td>Services</td><td>Transport</td><td>May 15, 1995</td>\n</tr>"
    )
}

fn page(rows: &[String]) -> String {
    format!("<html><body><table>{}{}</table></body></html>", HEADER_ROW, rows.concat())
}

#[test]
fn unescape_strips_controls_and_quotes() {
    let s = "a\n\tb\r\"c\" d".to_string();
    assert_eq!(unescape(s), "abc d");
}

#[test]
fn unescape_twice_is_unescape_once() {
    let s = "<td class=\"x\">\r\n\tName \"Q\"</td>".to_string();
    let once = unescape(s);
    assert_eq!(once, "<td class=x>Name Q</td>");
    assert_eq!(unescape(once.clone()), once);
}

#[test]
fn unescape_keeps_clean_and_empty_text() {
    assert_eq!(unescape(String::new()), "");
    assert_eq!(unescape("plain text, 100%".to_string()), "plain text, 100%");
}

#[test]
fn counter_single_digits() {
    assert_eq!(page_count_from_counter("[ 1 / 3 ]"), Ok(4));
    assert_eq!(page_count_from_counter("[ 2 / 7 ]"), Ok(8));
    assert_eq!(page_count_from_counter("[ 1 / 0 ]"), Ok(1));
    assert_eq!(page_count_from_counter("[1 /6 ]"), Ok(7));
}

#[test]
fn counter_several_digits() {
    assert_eq!(page_count_from_counter("[ 1 / 12 ]"), Ok(13));
    assert_eq!(page_count_from_counter("[ 3 / 999999999999999999 ]"), Ok(1_000_000_000_000_000_000));
}

#[test]
fn counter_parse_errors() {
    assert_eq!(page_count_from_counter(""), Err(ScrapeError::Parse));
    assert_eq!(page_count_from_counter("[ 1 ]"), Err(ScrapeError::Parse));
    assert_eq!(page_count_from_counter("[ 1 / ]"), Err(ScrapeError::Parse));
    assert_eq!(page_count_from_counter("[ 1 / x ]"), Err(ScrapeError::Parse));
    assert_eq!(page_count_from_counter("[ 1 / 3 4 ]"), Err(ScrapeError::Parse));
    assert_eq!(page_count_from_counter("[ 1 / 1000000000000000000 ]"), Err(ScrapeError::Parse));
}

#[test]
fn widget_missing_is_parse_error() {
    assert_eq!(page_count_of_widget(None), Err(ScrapeError::Parse));
    assert_eq!(page_count_of_widget(Some("[ 1 / 5 ]".to_string())), Ok(6));
}

#[test]
fn resolve_from_search_page() {
    let body = "<html><body><div>\n\t<span class=\"count\">[ 1 / 3 ]</span></div></body></html>";
    assert_eq!(resolve_page_count(body.to_string()), Ok(4));
    let two = "<span class=\"count\">[ 1 / 2 ]</span><span class=\"count\">[ 1 / 9 ]</span>";
    assert_eq!(resolve_page_count(two.to_string()), Ok(3));
}

#[test]
fn resolve_without_counter_fails() {
    let body = "<html><body><span class=\"other\">[ 1 / 3 ]</span></body></html>";
    assert_eq!(resolve_page_count(body.to_string()), Err(ScrapeError::Parse));
}

#[test]
fn assemble_full_row() {
    let row = strings(&["A Corp", "AC", "Industrials", "Power", "Jan 2, 2001"]);
    assert_eq!(fields(&assemble(&row)), row);
}

#[test]
fn assemble_short_row_pads() {
    let row = strings(&["A Corp", "AC", "Industrials"]);
    assert_eq!(fields(&assemble(&row)), strings(&["A Corp", "AC", "Industrials", "", ""]));
    assert_eq!(fields(&assemble(&Vec::new())), strings(&["", "", "", "", ""]));
}

#[test]
fn assemble_long_row_truncates() {
    let row = strings(&["A", "B", "C", "D", "E", "F", "G"]);
    assert_eq!(fields(&assemble(&row)), strings(&["A", "B", "C", "D", "E"]));
}

#[test]
fn header_detection() {
    assert!(is_header(&header_row()));
    assert!(is_header(&strings(&["Company Name", "Stock Symbol", "Sector", "Subsector", "Listing Date"])));
    assert!(!is_header(&strings(&["Company Name", "Stock Symbol", "Sector", "Subsector"])));
    assert!(!is_header(&strings(&["Company Name", "Stock Symbol", "Sector", "Subsector", "Date"])));
}

#[test]
fn fragments_reach_two_levels() {
    let row = vec![
        vec![CellNode::Element(vec![Some("Example Corp".to_string()), None])],
        vec![CellNode::Text("EXC".to_string()), CellNode::Text("!".to_string())],
        vec![],
    ];
    assert_eq!(extract_fragments(&row), strings(&["Example Corp", "EXC", "!"]));
}

#[test]
fn records_skip_header_rows() {
    let header: Vec<Vec<CellNode>> = ["Company Name", "Stock Symbol", "Sector", "Subsector", "Listing Date"]
        .iter()
        .map(|s| vec![CellNode::Text(s.to_string())])
        .collect();
    let data = vec![vec![CellNode::Text("X".to_string())], vec![CellNode::Text("XX".to_string())]];
    let rows = vec![header.clone(), data, header];
    let recs = records_from_rows(&rows);
    assert_eq!(recs.len(), 1);
    assert_eq!(fields(&recs[0]), strings(&["X", "XX", "", "", ""]));
}

#[test]
fn example_row_from_html() {
    let body = "<table><tr><td><a>Example Corp</a></td><td><a>EXC</a></td><td>Industrials</td><td>Manufacturing</td><td>Jan 1, 2000</td></tr></table>";
    let recs = page_records(body.to_string());
    assert_eq!(recs.len(), 1);
    assert_eq!(
        fields(&recs[0]),
        strings(&["Example Corp", "EXC", "Industrials", "Manufacturing", "Jan 1, 2000"])
    );
}

#[test]
fn two_cell_row_pads_with_empty() {
    let body = "<table><tr><td><a>Lone Corp</a></td><td>LC</td><td></td><td></td><td></td></tr></table>";
    let recs = page_records(body.to_string());
    assert_eq!(recs.len(), 1);
    assert_eq!(fields(&recs[0]), strings(&["Lone Corp", "LC", "", "", ""]));
}

#[test]
fn header_row_dropped_from_page() {
    let body = page(&[company_row("2GO Group, Inc.", "2GO")]);
    let recs = page_records(body);
    assert_eq!(recs.len(), 1);
    assert_eq!(
        fields(&recs[0]),
        strings(&["2GO Group, Inc.", "2GO", "Services", "Transport", "May 15, 1995"])
    );
}

#[test]
fn page_without_rows_is_empty() {
    assert_eq!(page_records("<html><body><p>none</p></body></html>".to_string()).len(), 0);
}

#[test]
fn urls() {
    let s = search_url("https://edge.example.com/", "companyDirectory/");
    assert_eq!(s, "https://edge.example.com/companyDirectory/search.ax?");
    assert_eq!(page_url(&s, 4), "https://edge.example.com/companyDirectory/search.ax?pageNo=4");
    assert_eq!(page_url(&s, 10), "https://edge.example.com/companyDirectory/search.ax?pageNo=10");
    assert_eq!(page_url("", 0), "pageNo=0");
    assert_eq!(page_url("", 1203), "pageNo=1203");
}

#[test]
fn scrape_four_pages_from_counter() {
    let mut s = Scrape::new("https://edge.example.com/", "companyDirectory/");
    assert_eq!(s.next_url().unwrap(), "https://edge.example.com/companyDirectory/search.ax?");
    s.on_body("<span class=\"count\">[ 1 / 3 ]</span>".to_string()).unwrap();
    assert_eq!(s.page_count, 4);
    let per_page: [usize; 4] = [2, 3, 0, 1];
    let mut expected = 0;
    for (i, n) in per_page.iter().enumerate() {
        let url = s.next_url().unwrap();
        assert_eq!(url, format!("https://edge.example.com/companyDirectory/search.ax?pageNo={}", i + 1));
        let rows: Vec<String> = (0..*n).map(|k| company_row(&format!("Co {i}-{k}"), "SYM")).collect();
        expected += n;
        s.on_body(page(&rows)).unwrap();
    }
    assert!(s.is_done());
    assert_eq!(s.next_url(), None);
    assert_eq!(s.records.len(), expected);
    assert_eq!(s.records[0].company_name, "Co 0-0");
    assert_eq!(s.records[5].company_name, "Co 3-0");
}

#[test]
fn scrape_stops_on_bad_counter() {
    let mut s = Scrape::new("b/", "d/");
    assert_eq!(s.on_body("<p>no counter</p>".to_string()), Err(ScrapeError::Parse));
    assert_eq!(s.page_count, 0);
    assert!(!s.is_done());
}

#[test]
fn failed_fetch_is_network_error() {
    let mut s = Scrape::new("b/", "d/");
    assert_eq!(s.on_response(None), Err(ScrapeError::Network));
    assert_eq!(s.page_count, 0);
    s.on_response(Some("<span class=\"count\">[ 1 / 1 ]</span>".to_string())).unwrap();
    assert_eq!(s.page_count, 2);
    assert_eq!(s.on_response(None), Err(ScrapeError::Network));
    assert_eq!(s.next_page, 1);
    assert_eq!(s.records.len(), 0);
}

#[test]
fn responses_fill_records() {
    let mut s = Scrape::new("b/", "d/");
    s.on_response(Some("<span class=\"count\">[1 /0 ]</span>".to_string())).unwrap();
    assert_eq!(s.page_count, 1);
    s.on_response(Some(page(&[company_row("Solo Inc.", "SOL")]))).unwrap();
    assert!(s.is_done());
    assert_eq!(s.records.len(), 1);
    assert_eq!(s.records[0].stock_symbol, "SOL");
}

#[test]
fn counter_text_is_first_text_of_first_match() {
    let body = "<span class=\"count\"><b>[ 1 / 5 ]</b> more</span>";
    assert_eq!(resolve_page_count(body.to_string()), Ok(6));
    let quoted = "<span class=\"count\">\"[ 1 / 2 ]\"\n</span>";
    assert_eq!(resolve_page_count(quoted.to_string()), Ok(3));
}
