use ph_quakes::bulletin::{HtmlCell, HtmlParser, HtmlTable, Row, headers_match_exec, sanitize_text, table_headers};
use ph_quakes::decimal::Decimal;
use ph_quakes::quake::province_ok_exec;

const HTML: &str = r#"
            <table style="width:100%">
              <tr>
                <th><p>Firstname</p></th>
                <th><p>Lastname</p></th>
                <th><p>Age</p></th>
              </tr>
              <tr>
                <td>Jill</td>
                <td>Smith</td>
                <td>50</td>
              </tr>
            </table>
            <table style="width:100%">
              <tr>
                <th><p>Date - Time</p></th>
                <th><p>Latitude</p></th>
                <th><p>Longitude <br> other</p></th>
                <th><p>Depth <br> other</p></th>
                <th><p>Mag <br> other</p></th>
                <th><p>Location <br> other</p></th>
              </tr>
              <tr>
                <td style="width: 185px; height: 30px; " class="auto-style91">
                    <span class="auto-style7"></span><span class="auto-style70">
			            <a href="2020_Earthquake_Information\January\2019_1231_2132_B2.html">
			                <span class="auto-style99">01 January 2020 - 05:32 AM</span>
			            </a>
			        </span>
			    </td>
                <td>06.71</td>
                <td>126.21</td>
                <td>027</td>
                <td><strong>4.0</strong></td>
                <td style="width: 436px; height: 30px; " class="auto-style52">
		          022
		          <span style="font-family: &quot;Times New Roman&quot;, serif; font-size: 16px; font-style: normal; font-variant-ligatures: normal; font-variant-caps: normal; letter-spacing: normal; orphans: 2; text-align: start; text-indent: 0px; text-transform: none; white-space: normal; widows: 2; word-spacing: 0px; -webkit-text-stroke-width: 0px; background-color: rgb(255, 255, 255); text-decoration-style: initial; text-decoration-color: initial;" class="auto-style89">
		            <span class="auto-style78" style="font-size: 10pt;">
		                km N 47° E of Cabanglasan (Bukidnon)
		            </span>
		          </span>
		        </td>
              </tr>
            </table>
        "#;

fn fin(negative: bool, digits: &str, exp: i128) -> Decimal {
    Decimal::Finite { negative, digits: digits.chars().collect(), exp }
}

fn as_f64(d: Decimal) -> f64 {
    match d {
        Decimal::Finite { negative, digits, exp } => {
            let sign = if negative { "-" } else { "" };
            let ds: String = if digits.is_empty() { "0".to_string() } else { digits.into_iter().collect() };
            format!("{}{}e{}", sign, ds, exp).parse::<f64>().unwrap()
        }
        Decimal::Infinite { negative } => if negative { f64::NEG_INFINITY } else { f64::INFINITY },
        Decimal::NaN => f64::NAN,
    }
}

#[test]
fn parse_html() {
    let parser = HtmlParser::parse(HTML.to_string(), "http://www.example.com/".to_string()).unwrap();
    let quakes = parser.get_quakes().unwrap();
    println!("{:?}", &quakes);
    assert_eq!(as_f64(quakes[0].get_magnitude()), 4.0);
}

#[test]
fn parse_html_fields() {
    let parser = HtmlParser::parse(HTML.to_string(), "http://www.example.com/".to_string()).unwrap();
    let quakes = parser.get_quakes().unwrap();
    assert_eq!(quakes.len(), 1);
    let q = &quakes[0];
    assert_eq!(q.get_datetime(), 1577827920);
    assert_eq!(q.get_latitude(), fin(false, "671", -2));
    assert_eq!(q.get_longitude(), fin(false, "12621", -2));
    assert_eq!(q.get_magnitude(), fin(false, "4", 0));
    assert_eq!(q.get_depth(), 27);
    assert_eq!(q.get_location(), "022 km N 47° E of Cabanglasan");
    assert_eq!(q.get_province(), "Bukidnon");
    assert_eq!(
        q.get_url(),
        "http://www.example.com/2020_Earthquake_Information/January/2019_1231_2132_B2.html"
    );
}

#[test]
fn datetime_parsing() {
    let mut row: Row = Row::new();
    let header = "Date - Time".to_string();
    let dt_string = "22 January 2020 - 12:40 AM +08".to_string();
    row.insert(&header, dt_string);
    let dt = HtmlParser::get_datetime(&row).unwrap();
    println!("{:?}", dt);
    assert_eq!(dt, 1579624800);
}

#[test]
fn datetime_parsing_failure() {
    let mut row = Row::new();
    row.insert("Date - Time", "yesterday +08".to_string());
    let e = HtmlParser::get_datetime(&row).unwrap_err();
    assert!(e.description().starts_with("Trouble converting yesterday +08 to timestamp: "));
    let e = HtmlParser::get_datetime(&Row::new()).unwrap_err();
    assert_eq!(e.description(), "Date - Time not found in row!");
}

#[test]
fn parse_province() {
    let text = "10km N 47° E of Cabanglasan (Bukidnon)".to_string();
    assert!(province_ok_exec(&text));
    let (location, province) = HtmlParser::find_province(text);
    println!("{:?}", location);
    println!("{:?}", province);
    assert_eq!(location, "10km N 47° E of Cabanglasan");
    assert_eq!(province, "Bukidnon");
}

#[test]
fn province_without_parentheses() {
    let (location, province) = HtmlParser::find_province("Offshore".to_string());
    assert_eq!(location, "Offshore");
    assert_eq!(province, "");
}

#[test]
fn province_that_cannot_be_split() {
    assert!(!province_ok_exec("(Bukidnon)"));
    assert!(!province_ok_exec("Town ("));
    assert!(!province_ok_exec("Town (Ñ"));
    assert!(!province_ok_exec("Town°(Bukidnon)"));
    assert!(province_ok_exec("Town (Bukidnon)"));
}

#[test]
fn row_field_errors() {
    let mut row = Row::new();
    row.insert("Longitude", "east".to_string());
    row.insert("Latitude", "".to_string());
    row.insert("Depth", "70000".to_string());
    row.insert("Mag", "4.5.1".to_string());
    assert_eq!(HtmlParser::get_longitude(&row).unwrap_err().description(), "Trouble converting east to f64: invalid float literal");
    assert_eq!(HtmlParser::get_latitude(&row).unwrap_err().description(), "Trouble converting  to f64: cannot parse float from empty string");
    assert_eq!(HtmlParser::get_depth(&row).unwrap_err().description(), "Trouble converting 70000 to i8: number too large to fit in target type");
    assert_eq!(HtmlParser::get_magnitude(&row).unwrap_err().description(), "Trouble converting 4.5.1 to f64: invalid float literal");
    assert_eq!(HtmlParser::get_location(&row).unwrap_err().description(), "Location not found in row!");
    assert_eq!(HtmlParser::get_province(&row).unwrap_err().description(), "province not found in row!");
    assert_eq!(HtmlParser::get_url(&row).unwrap_err().description(), "URL not found in row!");
    row.insert("Depth", "+12".to_string());
    assert_eq!(HtmlParser::get_depth(&row).unwrap(), 12);
    row.insert("Depth", "-1".to_string());
    assert_eq!(HtmlParser::get_depth(&row).unwrap_err().description(), "Trouble converting -1 to i8: invalid digit found in string");
    row.insert("Depth", "".to_string());
    assert_eq!(HtmlParser::get_depth(&row).unwrap_err().description(), "Trouble converting  to i8: cannot parse integer from empty string");
}

#[test]
fn sanitized_text() {
    let texts = vec!["  a ".to_string(), "\n\t".to_string(), "b".to_string()];
    assert_eq!(sanitize_text(&texts), vec!["a".to_string(), "b".to_string()]);
}

#[test]
fn header_matching_ignores_order() {
    let texts = vec![
        vec![" Mag ".to_string(), "other".to_string()],
        vec!["Location".to_string()],
        vec![],
        vec!["Depth".to_string()],
        vec!["Longitude".to_string()],
        vec!["Latitude".to_string()],
        vec!["Date - Time".to_string()],
    ];
    let hs = table_headers(&texts);
    assert_eq!(hs.len(), 6);
    assert!(headers_match_exec(&hs));
    assert!(!headers_match_exec(&hs[0..5].to_vec()));
}

#[test]
fn date_cell_without_link_is_refused() {
    let headers = vec![
        vec!["Date - Time".to_string()],
        vec!["Latitude".to_string()],
        vec!["Longitude".to_string()],
        vec!["Depth".to_string()],
        vec!["Mag".to_string()],
        vec!["Location".to_string()],
    ];
    let cell = HtmlCell { texts: vec!["01 January 2020 - 05:32 AM".to_string()], inner_html: String::new(), links: vec![] };
    let table = HtmlTable { header_texts: headers, rows: vec![vec![cell]] };
    assert!(!ph_quakes::bulletin::tables_ok_exec(&vec![table]));
}

#[test]
fn html_without_bulletin_table_has_no_rows() {
    let parser = HtmlParser::parse("<p>nothing</p>".to_string(), "x".to_string()).unwrap();
    assert_eq!(parser.get_quakes().unwrap().len(), 0);
}

#[test]
fn tables_read_or_refused() {
    let headers = || {
        vec![
            vec!["Date - Time".to_string()],
            vec!["Latitude".to_string()],
            vec!["Longitude".to_string()],
            vec!["Depth".to_string()],
            vec!["Mag".to_string()],
            vec!["Location".to_string()],
        ]
    };
    let date = |links: Vec<Option<String>>| HtmlCell {
        texts: vec!["01 January 2020 - 05:32 AM".to_string()],
        inner_html: String::new(),
        links,
    };
    let refused = HtmlTable { header_texts: headers(), rows: vec![vec![date(vec![])]] };
    assert!(HtmlParser::read_tables(&vec![refused], "u/").is_none());
    let read = HtmlTable { header_texts: headers(), rows: vec![vec![], vec![date(vec![Some("x".to_string()), Some("a\\b".to_string())])]] };
    let parser = HtmlParser::read_tables(&vec![read], "u/").unwrap();
    assert_eq!(parser.rows().len(), 1);
    assert_eq!(parser.rows()[0].url, Some("u/a/b".to_string()));
    assert_eq!(parser.rows()[0].date_time, Some("01 January 2020 - 05:32 AM +08".to_string()));
}

#[test]
fn page_tables_as_read() {
    let tables = HtmlParser::extract_tables(HTML).unwrap();
    assert_eq!(tables.len(), 2);
    assert_eq!(tables[0].header_texts, vec![vec!["Firstname".to_string()], vec!["Lastname".to_string()], vec!["Age".to_string()]]);
    assert_eq!(tables[0].rows.len(), 2);
    assert_eq!(tables[0].rows[0].len(), 0);
    assert_eq!(tables[0].rows[1][2].inner_html, "50");
    assert_eq!(tables[1].header_texts[2], vec!["Longitude ".to_string(), " other".to_string()]);
    let date = &tables[1].rows[1][0];
    assert_eq!(date.links, vec![Some("2020_Earthquake_Information\\January\\2019_1231_2132_B2.html".to_string())]);
    assert_eq!(tables[1].rows[1][4].texts, vec!["4.0".to_string()]);
}

#[test]
fn page_without_bulletin_table() {
    let html = "<table><tr><th><p>Firstname</p></th><th><p>Lastname</p></th><th><p>Age</p></th></tr><tr><td>Jill</td><td>Smith</td><td>50</td></tr></table>";
    let parser = HtmlParser::parse(html.to_string(), "http://www.example.com/".to_string()).unwrap();
    assert_eq!(parser.rows().len(), 0);
}

#[test]
fn page_rows_as_fields() {
    let parser = HtmlParser::parse(HTML.to_string(), "http://www.example.com/".to_string()).unwrap();
    let rows = parser.rows();
    assert_eq!(rows.len(), 1);
    let r = &rows[0];
    assert_eq!(r.url.as_deref(), Some("http://www.example.com/2020_Earthquake_Information/January/2019_1231_2132_B2.html"));
    assert_eq!(r.date_time.as_deref(), Some("01 January 2020 - 05:32 AM +08"));
    assert_eq!(r.latitude.as_deref(), Some("06.71"));
    assert_eq!(r.longitude.as_deref(), Some("126.21"));
    assert_eq!(r.depth.as_deref(), Some("027"));
    assert_eq!(r.mag.as_deref(), Some("4.0"));
    assert_eq!(r.location.as_deref(), Some("022 km N 47° E of Cabanglasan"));
    assert_eq!(r.province.as_deref(), Some("Bukidnon"));
}
