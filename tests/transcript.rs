use keypath_ranges::ast::ParseNode;
use keypath_ranges::price::{bytes_to_redacted_string, parse_price_data, price_data_from_groups};
use keypath_ranges::request::Rule as Req;
use keypath_ranges::response::Rule;
use keypath_ranges::service::{port_or_default, split_header_line, ApiError, ProverConfig, ProverService, MAX_RECV_DATA, MAX_SENT_DATA};
use keypath_ranges::transcript::{
    get_binance_price_ranges, received_ranges_from_parse, sent_ranges_from_parse, TranscriptOpening,
};

const BODY: &str = r#"{"mins":5,"price":"3.98765432","closeTime":1718035199999}"#;

fn received_text() -> String {
    format!("HTTP/1.1 200 OK\r\ncontent-type: application/json\r\n\r\n{}", BODY)
}

#[test]
fn fallback_finds_price_fields() {
    let text = received_text();
    let r = get_binance_price_ranges(&text);
    let parts: Vec<&str> = r.iter().map(|x| &text[x.clone()]).collect();
    assert_eq!(parts, vec![r#""price":"3.98765432""#, r#""mins":5"#, r#""closeTime":1718035199999"#]);
}

#[test]
fn fallback_without_braces_finds_nothing() {
    assert!(get_binance_price_ranges("HTTP/1.1 500 oops\r\n\r\n").is_empty());
    assert!(get_binance_price_ranges("} then {").is_empty());
    assert!(get_binance_price_ranges("").is_empty());
}

#[test]
fn fallback_skips_absent_fields() {
    let text = r#"{"price":"1.5","x":1}"#;
    let r = get_binance_price_ranges(text);
    assert_eq!(r, vec![1..14]);
    assert_eq!(&text[1..14], r#""price":"1.5""#);
}

fn body_tree(src: &str, start: usize) -> ParseNode<Rule> {
    // {"mins":5,"price":"3.98765432","closeTime":1718035199999}
    let s = |a: usize, b: usize| src[a..b].to_string();
    let key = |a: usize, k: &str| ParseNode {
        rule: Rule::string,
        start: a,
        end: a + k.len() + 2,
        text: s(a, a + k.len() + 2),
        children: vec![ParseNode { rule: Rule::inner, start: a + 1, end: a + 1 + k.len(), text: k.to_string(), children: vec![] }],
    };
    let leaf = |rule: Rule, a: usize, b: usize| ParseNode { rule, start: a, end: b, text: s(a, b), children: vec![] };
    let b = start;
    let mins = ParseNode { rule: Rule::pair, start: b + 1, end: b + 9, text: s(b + 1, b + 9), children: vec![key(b + 1, "mins"), leaf(Rule::number, b + 8, b + 9)] };
    let price_value = ParseNode {
        rule: Rule::string,
        start: b + 18,
        end: b + 30,
        text: s(b + 18, b + 30),
        children: vec![leaf(Rule::inner, b + 19, b + 29)],
    };
    let price = ParseNode { rule: Rule::pair, start: b + 10, end: b + 30, text: s(b + 10, b + 30), children: vec![key(b + 10, "price"), price_value] };
    let close = ParseNode { rule: Rule::pair, start: b + 31, end: b + 56, text: s(b + 31, b + 56), children: vec![key(b + 31, "closeTime"), leaf(Rule::number, b + 43, b + 56)] };
    ParseNode { rule: Rule::object, start: b, end: b + 57, text: s(b, b + 57), children: vec![mins, price, close] }
}

#[test]
fn received_ranges_use_the_parse_when_given() {
    let text = received_text();
    let start = text.find('{').unwrap();
    let tree = body_tree(&text, start);
    let r = received_ranges_from_parse(&text, Some(vec![tree]));
    let mut parts: Vec<&str> = r.iter().map(|x| &text[x.clone()]).collect();
    parts.sort();
    assert_eq!(parts, vec![r#""closeTime":1718035199999"#, r#""mins":5"#, r#""price":"3.98765432""#]);
}

#[test]
fn received_ranges_fall_back_without_a_parse() {
    let text = received_text();
    assert_eq!(received_ranges_from_parse(&text, None), get_binance_price_ranges(&text));
    let broken = ParseNode { rule: Rule::header, start: 0, end: 1, text: String::new(), children: vec![] };
    assert_eq!(received_ranges_from_parse(&text, Some(vec![broken])), get_binance_price_ranges(&text));
}

#[test]
fn sent_ranges_reveal_the_symbol() {
    let text = "GET /api/v3/avgPrice?symbol=USDTPLN HTTP/1.1\r\nhost: api.binance.com\r\n\r\n";
    let line = ParseNode { rule: Req::request_line, start: 0, end: 44, text: text[0..44].to_string(), children: vec![] };
    let r = sent_ranges_from_parse(text, Some(vec![line]));
    assert_eq!(r.len(), 1);
    assert_eq!(&text[r[0].clone()], "symbol=USDTPLN");
    assert!(sent_ranges_from_parse(text, None).is_empty());
    assert!(sent_ranges_from_parse(text, Some(vec![])).is_empty());
    let plain = "GET / HTTP/1.1\r\n\r\n";
    let line = ParseNode { rule: Req::request_line, start: 0, end: 14, text: plain[0..14].to_string(), children: vec![] };
    assert!(sent_ranges_from_parse(plain, Some(vec![line])).is_empty());
}

#[test]
fn price_data_from_both_directions() {
    let sent = "GET /api/v3/avgPrice?symbol=USDTPLN HTTP/1.1";
    let data = parse_price_data(sent, BODY).unwrap();
    assert_eq!(data.symbol, "USDTPLN");
    assert_eq!(data.price, "3.98765432");
    assert_eq!(data.mins, 5);
    assert_eq!(data.close_time, 1718035199999);
    assert!(parse_price_data("GET /?symbol=lower", BODY).is_none());
    assert!(parse_price_data(sent, r#"{"price":"1"}"#).is_none());
}

#[test]
fn price_data_needs_counts_that_fit() {
    let s = |x: &str| Some(x.to_string());
    let d = price_data_from_groups(s("BTC"), s("1.0"), s("+7"), s("18446744073709551615")).unwrap();
    assert_eq!(d.mins, 7);
    assert_eq!(d.close_time, u64::MAX);
    assert!(price_data_from_groups(s("BTC"), s("1.0"), s("7"), s("18446744073709551616")).is_none());
    assert!(price_data_from_groups(s("BTC"), s("1.0"), s("-7"), s("1")).is_none());
    assert!(price_data_from_groups(s("BTC"), None, s("7"), s("1")).is_none());
}

#[test]
fn redacted_bytes_render_as_a_mark() {
    assert_eq!(bytes_to_redacted_string(b"ab\0\0c"), "ab\u{1F648}\u{1F648}c");
    assert_eq!(bytes_to_redacted_string(b"plain"), "plain");
    assert_eq!(bytes_to_redacted_string(&[0xff, 0x00]), "Invalid UTF-8");
    assert_eq!(bytes_to_redacted_string(b""), "");
}

#[test]
fn header_lines_split_at_the_first_colon() {
    assert_eq!(
        split_header_line("user-agent: curl/8.4.0"),
        Some(("user-agent".to_string(), "curl/8.4.0".to_string()))
    );
    assert_eq!(split_header_line(" a : b:c "), Some(("a".to_string(), "b:c".to_string())));
    assert_eq!(split_header_line("no colon here"), None);
}

#[test]
fn ports_default_by_scheme() {
    assert_eq!(port_or_default(None, "https"), 443);
    assert_eq!(port_or_default(None, "http"), 80);
    assert_eq!(port_or_default(Some(7047), "http"), 7047);
}

#[test]
fn service_accepts_only_https() {
    let service = ProverService::new();
    assert!(service.accepts_scheme(Some("https")));
    assert!(!service.accepts_scheme(Some("http")));
    assert!(!service.accepts_scheme(None));
}

#[test]
fn default_limits() {
    let c = ProverConfig::default();
    assert_eq!(c.max_sent_data, 4096);
    assert_eq!(c.max_recv_data, 16384);
    assert_eq!((MAX_SENT_DATA, MAX_RECV_DATA), (4096, 16384));
}

#[test]
fn plain_records() {
    let o = TranscriptOpening { id: 1, direction: 0, data: vec![1, 2], blinder: vec![3], position: 9 };
    assert_eq!(o.data.len() + o.blinder.len(), 3);
    let e = ApiError::IndexOutOfBounds { index: 4, size: 2 };
    assert!(matches!(e, ApiError::IndexOutOfBounds { index: 4, size: 2 }));
}
