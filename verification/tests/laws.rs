use ph_quakes::cache::{CacheActor, Connect, Disconnect, GetQuakes, UpdateCache, CACHE_LIMIT};
use ph_quakes::decimal::{parse_decimal_exec, Decimal};
use ph_quakes::number::{parse_usize, parse_u16, IntError};
use ph_quakes::phivolcs::merge_quakes;
use ph_quakes::quake::{Quake, find_province};
use ph_quakes::text::{chars_of, trim_chars};
use ph_quakes::tweet_parser::split_lines;

fn fin(negative: bool, digits: &str, exp: i128) -> Decimal {
    Decimal::Finite { negative, digits: digits.chars().collect(), exp }
}

fn dec(s: &str) -> Option<Decimal> {
    parse_decimal_exec(&chars_of(s))
}

fn quake(t: i64, place: &str) -> Quake {
    Quake::new(t, fin(false, "12571", -2), fin(false, "915", -2), fin(false, "4", 0), 1, place.to_string(), "P".to_string(), "https://example.com".to_string())
}

#[test]
fn merge_is_chronological_and_distinct() {
    let current = vec![quake(30, "c"), quake(10, "a"), quake(20, "b")];
    let history = vec![quake(10, "a"), quake(5, "z"), quake(20, "b2")];
    let merged = merge_quakes(current, history);
    let times: Vec<i64> = merged.iter().map(|q| q.get_datetime()).collect();
    assert_eq!(times, vec![5, 10, 20, 20, 30]);
    let places: Vec<String> = merged.iter().map(|q| q.get_location()).collect();
    assert_eq!(places, vec!["z", "a", "b", "b2", "c"]);
}

#[test]
fn cache_update_adds_only_new_quakes() {
    let mut cache = CacheActor::new(vec![quake(1, "a")]);
    let first = cache.handle_connect(Connect { addr: 7 });
    assert_eq!(first.0.len(), 1);
    let sends = cache.handle_update(UpdateCache(vec![quake(1, "a"), quake(2, "b")]));
    assert_eq!(sends.len(), 1);
    assert_eq!(sends[0].0, 7);
    assert_eq!(sends[0].1 .0.get_quakes()[0].get_location(), "b");
    assert_eq!(cache.handle_get(GetQuakes).0.len(), 2);
    let again = cache.handle_update(UpdateCache(vec![quake(1, "a"), quake(2, "b")]));
    assert_eq!(again.len(), 0);
    assert_eq!(cache.handle_get(GetQuakes).0.len(), 2);
}

#[test]
fn cache_keeps_the_newest() {
    let mut cache = CacheActor::new(vec![]);
    let batch: Vec<Quake> = (0..(CACHE_LIMIT as i64 + 5)).map(|i| quake(i, "x")).collect();
    cache.handle_update(UpdateCache(batch));
    let all = cache.handle_get(GetQuakes).0.get_quakes();
    assert_eq!(all.len(), CACHE_LIMIT);
    assert_eq!(all[0].get_datetime(), 5);
}

#[test]
fn connect_then_disconnect() {
    let mut cache = CacheActor::new(vec![]);
    cache.handle_connect(Connect { addr: 1 });
    cache.handle_connect(Connect { addr: 2 });
    cache.handle_disconnect(Disconnect { addr: 2 });
    assert_eq!(cache.get_sessions(), vec![1]);
    cache.handle_connect(Connect { addr: 1 });
    cache.handle_disconnect(Disconnect { addr: 1 });
    assert_eq!(cache.get_sessions(), Vec::<u64>::new());
}

#[test]
fn province_round_trip() {
    let (l, p) = find_province("019 km N 11° W of Malungon (Sarangani)".to_string());
    assert_eq!(format!("{} ({})", l, p), "019 km N 11° W of Malungon (Sarangani)");
}

#[test]
fn numbers_read_back() {
    assert_eq!(parse_u16("65535"), Ok(65535));
    assert_eq!(parse_u16("65536"), Err(IntError::PosOverflow));
    assert_eq!(parse_u16("12a"), Err(IntError::InvalidDigit));
    assert_eq!(parse_u16("99999x"), Err(IntError::PosOverflow));
    assert_eq!(parse_u16("+"), Err(IntError::InvalidDigit));
    assert_eq!(parse_usize(&12345usize.to_string()), Ok(12345));
    assert_eq!(dec("-06.50"), Some(fin(true, "65", -1)));
    assert_eq!(dec(".5"), Some(fin(false, "5", -1)));
    assert_eq!(dec("7."), Some(fin(false, "7", 0)));
    assert_eq!(dec("."), None);
    assert_eq!(dec("99999999999999999999"), Some(fin(false, "99999999999999999999", 0)));
}

#[test]
fn trim_is_idempotent() {
    let once = trim_chars(&chars_of("\u{3000} a b \t"));
    assert_eq!(once.iter().collect::<String>(), "a b");
    assert_eq!(trim_chars(&once), once);
}

#[test]
fn lines_join_back() {
    let text = "a\n\nb\n";
    let lines: Vec<String> = split_lines(&chars_of(text)).iter().map(|l| l.iter().collect::<String>()).collect();
    assert_eq!(lines, vec!["a", "", "b", ""]);
    assert_eq!(lines.join("\n"), text);
}

#[test]
fn numerals_of_one_value_read_alike() {
    let four = Some(fin(false, "4", 0));
    for s in ["4", "4.0", "04.00", "+4.000", "4.", "0.4e1", "40E-1", "4e+0"] {
        assert_eq!(dec(s), four, "{}", s);
    }
    assert_eq!(dec("-0.0"), Some(fin(false, "", 0)));
    assert_eq!(dec("0e99"), Some(fin(false, "", 0)));
    assert_eq!(dec("10.10"), Some(fin(false, "101", -1)));
    assert_eq!(dec("100"), Some(fin(false, "1", 2)));
    assert_eq!(dec("1e3"), Some(fin(false, "1", 3)));
    assert_eq!(dec("-2.5E-3"), Some(fin(true, "25", -4)));
}

#[test]
fn cache_sees_equal_magnitudes_as_one_quake() {
    let read = |m: &str| parse_decimal_exec(&chars_of(m)).unwrap();
    let q = |m: &str| Quake::new(1, fin(false, "12571", -2), fin(false, "915", -2), read(m), 1, "a".to_string(), "P".to_string(), "u".to_string());
    let mut cache = CacheActor::new(vec![q("4.0")]);
    assert_eq!(cache.handle_update(UpdateCache(vec![q("4"), q("4.00")])).len(), 0);
    assert_eq!(cache.handle_get(GetQuakes).0.len(), 1);
}

#[test]
fn special_numbers() {
    for s in ["inf", "INF", "+Infinity", "infinity", "iNfInItY"] {
        assert_eq!(dec(s), Some(Decimal::Infinite { negative: false }), "{}", s);
    }
    assert_eq!(dec("-inf"), Some(Decimal::Infinite { negative: true }));
    for s in ["nan", "NaN", "-NAN", "+nan"] {
        assert_eq!(dec(s), Some(Decimal::NaN), "{}", s);
    }
    assert_eq!(dec("infinit"), None);
    assert_eq!(dec("nanx"), None);
    assert_eq!(dec("1e99999999999999999999999"), Some(fin(false, "1", 1_000_000_000_000_000_000)));
}

fn as_f64(d: &Decimal) -> f64 {
    match d {
        Decimal::Finite { negative, digits, exp } => {
            let sign = if *negative { "-" } else { "" };
            let ds: String = if digits.is_empty() { "0".to_string() } else { digits.iter().collect() };
            format!("{}{}e{}", sign, ds, exp).parse::<f64>().unwrap()
        }
        Decimal::Infinite { negative } => if *negative { f64::NEG_INFINITY } else { f64::INFINITY },
        Decimal::NaN => f64::NAN,
    }
}

#[test]
fn numbers_read_as_f64_reads_them() {
    let cases = [
        "", "+", "-", ".", "e5", ".e1", "1e", "1e+", "1e-", "1.e1", ".5e-2", "1E+3", "1e3", "12a", "1.2.3",
        "1e2e3", "1_000", " 1", "1 ", "inf", "Infinity", "-nan", "nan1", "0x10", "00012.3400", "-0",
        "123456789012345678901234567890", "0.10000000000000001", "1e-400", "1e400", "+.0e0", "٣",
    ];
    for s in cases {
        let ours = dec(s);
        let std = s.parse::<f64>();
        assert_eq!(ours.is_some(), std.is_ok(), "{:?}", s);
        if let (Some(d), Ok(f)) = (&ours, std) {
            let g = as_f64(d);
            assert!(g == f || (g.is_nan() && f.is_nan()), "{:?}: {} vs {}", s, g, f);
        }
    }
}
