use ph_quakes::error::QuakeError;
use ph_quakes::decimal::Decimal;
use ph_quakes::number::IntError;
use ph_quakes::tweet_parser::{TweetFields, TweetParser};
use ph_quakes::phivolcs::{body_limit, decode_body, phivolcs_url, previous_month_page, previous_month_url, ScraperError};
use ph_quakes::quake;
use ph_quakes::server::{bind_address, first_update_delay_secs, log_filter, update_interval_secs};
use ph_quakes::twitter::{phivolcs_screen_name, TwitterError};
use ph_quakes::websocket::{heartbeat, react, Heartbeat, WsEvent, CLIENT_TIMEOUT_SECS, HEARTBEAT_INTERVAL_SECS};

#[test]
fn previous_month_address() {
    assert_eq!(
        previous_month_url(2020, 2, 10),
        Some("https://earthquake.phivolcs.dost.gov.ph/2020_January.html".to_string())
    );
    assert_eq!(
        previous_month_url(2021, 3, 1),
        Some("https://earthquake.phivolcs.dost.gov.ph/2021_February.html".to_string())
    );
    assert_eq!(previous_month_url(2020, 2, 29), None);
    assert_eq!(previous_month_url(2020, 1, 5), None);
    assert_eq!(previous_month_url(2020, 2, 30), None);
    assert_eq!(phivolcs_url(), "https://earthquake.phivolcs.dost.gov.ph/");
}

#[test]
fn response_limits() {
    assert_eq!(body_limit(Some("1234")), 1234);
    assert_eq!(body_limit(Some("+5")), 5);
    assert_eq!(body_limit(Some("abc")), 4_000_000);
    assert_eq!(body_limit(Some("")), 4_000_000);
    assert_eq!(body_limit(Some("99999999999999999999999")), 4_000_000);
    assert_eq!(body_limit(None), 4_000_000);
}

#[test]
fn response_text() {
    assert_eq!(decode_body("héllo".as_bytes()).unwrap(), "héllo");
    let error = decode_body(&[0x61, 0xff]).unwrap_err();
    assert_eq!(
        error.message(),
        "Scraper error: Scraper decoding error: invalid utf-8 sequence of 1 bytes from index 1"
    );
}

#[test]
fn websocket_reactions() {
    let r = react(WsEvent::Ping(vec![1, 2]));
    assert!(r.alive && !r.stop);
    assert_eq!(r.pong, Some(vec![1, 2]));
    let r = react(WsEvent::Pong);
    assert!(r.alive && !r.stop && r.pong.is_none());
    let r = react(WsEvent::Text("hi".to_string()));
    assert!(!r.alive && !r.stop && r.pong.is_none());
    let r = react(WsEvent::Binary);
    assert!(!r.alive && !r.stop);
    for event in vec![WsEvent::Close, WsEvent::Continuation, WsEvent::Nop, WsEvent::ProtocolError] {
        let r = react(event);
        assert!(!r.alive && r.stop && r.pong.is_none());
    }
}

#[test]
fn websocket_heartbeat() {
    assert_eq!(HEARTBEAT_INTERVAL_SECS, 5);
    assert_eq!(CLIENT_TIMEOUT_SECS, 10);
    assert_eq!(heartbeat(3, 0), Heartbeat::Ping);
    assert_eq!(heartbeat(10, 0), Heartbeat::Ping);
    assert_eq!(heartbeat(10, 1), Heartbeat::Stop);
    assert_eq!(heartbeat(11, 0), Heartbeat::Stop);
}

#[test]
fn server_settings() {
    assert_eq!(update_interval_secs(false), 300);
    assert_eq!(update_interval_secs(true), 10);
    assert_eq!(first_update_delay_secs(), 60);
    assert_eq!(bind_address(None, None), "127.0.0.1:8080");
    assert_eq!(bind_address(Some("0.0.0.0".to_string()), Some("80".to_string())), "0.0.0.0:80");
    assert_eq!(log_filter(None), "actix_server=info,actix_web=info,quakes_server=info");
    assert_eq!(log_filter(Some("debug".to_string())), "debug");
    assert_eq!(phivolcs_screen_name(), "phivolcs_dost");
}

#[test]
fn error_messages() {
    assert_eq!(ScraperError::new("x".to_string()).message(), "Scraper error: x");
    assert_eq!(ScraperError::from_io_error("e").description(), "IO error in Scraper: e");
    assert_eq!(ScraperError::from_payload_error("e").description(), "Scraper payload error: e");
    assert_eq!(ScraperError::from_send_error("e").description(), "Scraper send error: e");
    assert_eq!(ScraperError::from_utf8_error("e").description(), "Scraper decoding error: e");
    assert_eq!(TwitterError::new("x".to_string()).message(), "Twitter error: x");
    assert_eq!(TwitterError::from_io_error("e").description(), "IO error in Twitter: e");
    assert_eq!(TwitterError::from_payload_error("e").description(), "Twitter payload error: e");
    assert_eq!(TwitterError::from_send_error("e").description(), "Twitter send error: e");
    assert_eq!(TwitterError::from_utf8_error("e").description(), "Scraper decoding error: e");
    assert_eq!(QuakeError::new("x".to_string()).message(), "Quake error: x");
    assert_eq!(QuakeError::from_io_error("e").description(), "IO error occurred! e");
    assert_eq!(QuakeError::from_client_error("e").description(), "Client error occurred! e");
    let api = quake::QuakeError::from_io_error("e".to_string());
    assert_eq!(api.message(), "Quake error: IO error occurred! e");
    assert_eq!(quake::QuakeError::new("y".to_string()).description(), "y");
    assert_eq!(IntError::Empty.message(), "cannot parse integer from empty string");
    assert_eq!(IntError::InvalidDigit.message(), "invalid digit found in string");
    assert_eq!(IntError::PosOverflow.message(), "number too large to fit in target type");
}

#[test]
fn integers_read_as_std_reads_them() {
    for s in ["", "0", "+", "-", "+7", "-7", "65535", "65536", "0065535", "12a", "99999x", "٣", " 1", "1 "] {
        let ours = ph_quakes::number::parse_u16(s).map_err(|e| e.message());
        let expected = s.parse::<u16>().map_err(|e| e.to_string());
        assert_eq!(ours, expected, "{:?}", s);
    }
}

#[test]
fn tweet_fields_read_one_by_one() {
    let mut f = TweetFields::new();
    assert_eq!(
        TweetParser::get_datetime(&f).unwrap_err().description(),
        "Date - Time not found in tweet text!"
    );
    f.longitude = Some("125.22".to_string());
    f.latitude = Some("north".to_string());
    f.depth = Some("026".to_string());
    f.province = Some("Sarangani".to_string());
    assert_eq!(TweetParser::get_longitude(&f).unwrap(), Decimal::Finite { negative: false, digits: "12522".chars().collect(), exp: -2 });
    assert_eq!(
        TweetParser::get_latitude(&f).unwrap_err().description(),
        "Trouble converting north to f64: invalid float literal"
    );
    assert_eq!(
        TweetParser::get_magnitude(&f).unwrap_err().description(),
        "Magnitude not found in tweet text!"
    );
    assert_eq!(TweetParser::get_depth(&f).unwrap(), 26);
    assert_eq!(
        TweetParser::get_location(&f).unwrap_err().description(),
        "Location not found in tweet text!"
    );
    assert_eq!(TweetParser::get_province(&f).unwrap(), "Sarangani");
}

#[test]
fn previous_month_page_rule() {
    assert_eq!(
        previous_month_page(2, 1, Some("2020_January".to_string())),
        Some("https://earthquake.phivolcs.dost.gov.ph/2020_January.html".to_string())
    );
    assert_eq!(previous_month_page(2, 2, Some("2020_February".to_string())), None);
    assert_eq!(previous_month_page(1, 12, Some("2019_December".to_string())), None);
    assert_eq!(previous_month_page(3, 2, None), None);
}
