use ph_quakes::decimal::Decimal;
use ph_quakes::tweet_parser::{TweetParser, text_ok_exec};
use ph_quakes::twitter::TwitterQuakes;
use ph_quakes::twitter_client::{Entities, Tweet, TwitterClient, Url};

const TWEET_TEXT: &str = "#EarthquakePH #EarthquakeSarangani\nEarthquake Information No.1\nDate and Time: 24 Jan 2020 - 07:21 AM\nMagnitude = 2.3\nDepth = 026 kilometers\nLocation = 06.44N, 125.22E - 019 km N 11° W of Malungon (Sarangani)\n\nhttps://t.co/LzMZu5Gb5t";

fn tweet(id: u64, text: &str, url: &str) -> Tweet {
    Tweet::new("".to_string(), id, text.to_string(), Entities::new(vec![Url::new(url.to_string())]))
}

#[test]
fn parse_tweet_text() {
    let data = TweetParser::parse_text(TWEET_TEXT.to_string());
    println!("{:#?}", data);
    assert_eq!(data.datetime.as_deref(), Some("24 Jan 2020 - 07:21 AM +08"));
    assert_eq!(data.magnitude.as_deref(), Some("2.3"));
    assert_eq!(data.depth.as_deref(), Some("026"));
    assert_eq!(data.latitude.as_deref(), Some("06.44"));
    assert_eq!(data.longitude.as_deref(), Some("125.22"));
    assert_eq!(data.location.as_deref(), Some("019 km N 11° W of Malungon"));
    assert_eq!(data.province.as_deref(), Some("Sarangani"));
}

#[test]
fn parse_tweet_quakes() {
    let parser = TweetParser::new(vec![tweet(7, TWEET_TEXT, "http://example.com")]);
    assert!(parser.can_parse());
    let quakes = parser.get_quakes().unwrap();
    assert_eq!(quakes.len(), 1);
    let q = &quakes[0];
    assert_eq!(q.get_datetime(), 1579821660);
    assert_eq!(q.get_magnitude(), Decimal::Finite { negative: false, digits: "23".chars().collect(), exp: -1 });
    assert_eq!(q.get_depth(), 26);
    assert_eq!(q.get_latitude(), Decimal::Finite { negative: false, digits: "644".chars().collect(), exp: -2 });
    assert_eq!(q.get_longitude(), Decimal::Finite { negative: false, digits: "12522".chars().collect(), exp: -2 });
    assert_eq!(q.get_url(), "https://example.com");
    assert_eq!(q.get_province(), "Sarangani");
}

#[test]
fn other_tweets_are_passed_over() {
    let parser = TweetParser::new(vec![tweet(1, "Good morning", "http://example.com")]);
    assert_eq!(parser.get_quakes().unwrap().len(), 0);
}

#[test]
fn tweet_missing_fields() {
    let text = "Earthquake Information No.2\nMagnitude = 2.3";
    let parser = TweetParser::new(vec![tweet(1, text, "http://example.com")]);
    let e = parser.get_quakes().unwrap_err();
    assert_eq!(e.description(), "Date - Time not found in tweet text!");
    assert_eq!(e.message(), "Twitter error: Date - Time not found in tweet text!");
}

#[test]
fn tweet_without_link() {
    let t = Tweet::new("".to_string(), 3, TWEET_TEXT.to_string(), Entities::new(vec![]));
    let e = TweetParser::new(vec![t]).get_quakes().unwrap_err();
    assert_eq!(e.description(), "URL not found in tweet!");
}

#[test]
fn later_lines_override_earlier() {
    let data = TweetParser::parse_text("Magnitude = 1.0\nMagnitude = 5.5\nDepth = 10 km".to_string());
    assert_eq!(data.magnitude.as_deref(), Some("5.5"));
    assert_eq!(data.depth, None);
}

#[test]
fn capture_and_latlng() {
    assert_eq!(TweetParser::capture("Magnitude =  4 ".to_string(), "Magnitude = ".to_string()), Some("4".to_string()));
    assert_eq!(TweetParser::capture("Magnitude = ".to_string(), "Magnitude = ".to_string()), None);
    assert_eq!(TweetParser::find_latlng("06.44N, 125.22E".to_string()), ("06.44".to_string(), "125.22".to_string()));
    assert_eq!(TweetParser::find_latlng("06.44N 125.22E".to_string()), ("".to_string(), "".to_string()));
    assert!(!text_ok_exec("Location = , 1E - Town (P)"));
}

#[test]
fn https_links() {
    assert_eq!(TweetParser::get_url(Some("http://a/http://b".to_string())).unwrap(), "https://a/https://b");
    assert_eq!(TweetParser::get_url(None).unwrap_err().description(), "URL not found in tweet!");
}

#[test]
fn twitter_requests() {
    let mut state = TwitterQuakes::new("key".to_string(), "secret".to_string());
    assert!(!state.has_started());
    assert_eq!(state.since_id(), None);
    let client = state.get_client();
    assert!(client.needs_token());
    assert_eq!(client.token_uri(), "https://api.twitter.com/oauth2/token");
    assert_eq!(
        client.timeline_uri("phivolcs_dost", None),
        "https://api.twitter.com//1.1/statuses/user_timeline.json?tweet_mode=extended&screen_name=phivolcs_dost&count=5"
    );
    assert_eq!(
        client.timeline_uri("phivolcs_dost", Some(1220529467432771584)),
        "https://api.twitter.com//1.1/statuses/user_timeline.json?tweet_mode=extended&screen_name=phivolcs_dost&since_id=1220529467432771584"
    );
    let quakes = state.process(vec![tweet(5, "hello", "x"), tweet(42, TWEET_TEXT, "http://e")]).unwrap();
    assert_eq!(quakes.len(), 1);
    assert!(state.has_started());
    assert_eq!(state.since_id(), Some(42));
    state.process(vec![]).unwrap();
    assert_eq!(state.since_id(), Some(42));
    state.set_token("tok".to_string());
    assert!(!state.get_client().needs_token());
    let c = TwitterClient::new("u".to_string(), "k".to_string(), "s".to_string());
    assert_eq!(c.get_key(), "k");
    assert_eq!(c.get_secret(), "s");
}

const ESCAPED_TWEET_TEXT: &str = r#"#EarthquakePH #EarthquakeSarangani\nEarthquake Information No.1\nDate and Time: 24 Jan 2020 - 07:21 AM\nMagnitude = 2.3\nDepth = 026 kilometers\nLocation = 06.44N, 125.22E - 019 km N 11° W of Malungon (Sarangani)\n\nhttps://t.co/LzMZu5Gb5t"#;

fn get_test_tweet() -> Tweet {
    Tweet::new(
        "".to_string(),
        0,
        ESCAPED_TWEET_TEXT.to_string(),
        Entities::new(vec![Url::new("http://example.com".to_string())]),
    )
}

#[test]
fn parse_tweets() {
    let tweet = get_test_tweet();
    let parser = TweetParser::new(vec![tweet]);
    let quakes = parser.get_quakes().unwrap();
    println!("{:#?}", quakes);
    assert_eq!(quakes.len(), 1);
    assert_eq!(quakes[0].get_datetime(), 1579821660);
    assert_eq!(quakes[0].get_location(), "019 km N 11° W of Malungon");
    assert_eq!(quakes[0].get_province(), "Sarangani");
    assert_eq!(quakes[0].get_url(), "https://example.com");
}

#[test]
fn escaped_line_breaks() {
    let data = TweetParser::parse_text(r"Magnitude = 1.0\nDepth = 7 kilometers".to_string());
    assert_eq!(data.magnitude.as_deref(), Some("1.0"));
    assert_eq!(data.depth.as_deref(), Some("7"));
    let data = TweetParser::parse_text(r"Magnitude = 1.0\\nx".to_string());
    assert_eq!(data.magnitude.as_deref(), Some(r"1.0\"));
}

#[test]
fn later_text_overrides_earlier() {
    let a = "Magnitude = 1.0\nDepth = 5 kilometers";
    let b = "Magnitude = 2.0\nLocation = 06.44N, 125.22E - Town (Prov)";
    let joined = TweetParser::parse_text(format!("{}\n{}", a, b));
    assert_eq!(joined.magnitude.as_deref(), Some("2.0"));
    assert_eq!(joined.depth.as_deref(), Some("5"));
    assert_eq!(joined.location.as_deref(), Some("Town"));
    assert_eq!(joined.datetime, None);
}
