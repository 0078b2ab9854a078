use keypath_ranges::ast::{
    is_value_shaped, CommonParser, CommonRule, CommonRuleType, ParseNode, RangedValue,
};
use keypath_ranges::request::{parse_request_header, Request, Rule as Req};
use keypath_ranges::response::{parse_response_header, parse_response_value, Response, Rule};

fn leaf(rule: Rule, start: usize, text: &str) -> ParseNode<Rule> {
    ParseNode { rule, start, end: start + text.len(), text: text.to_string(), children: Vec::new() }
}

fn string(start: usize, inner: &str) -> ParseNode<Rule> {
    let children = if inner.is_empty() { Vec::new() } else { vec![leaf(Rule::inner, start + 1, inner)] };
    ParseNode {
        rule: Rule::string,
        start,
        end: start + inner.len() + 2,
        text: format!("\"{}\"", inner),
        children,
    }
}

fn pair(key: ParseNode<Rule>, value: ParseNode<Rule>) -> ParseNode<Rule> {
    ParseNode { rule: Rule::pair, start: key.start, end: value.end, text: String::new(), children: vec![key, value] }
}

#[test]
fn classification_of_response_rules() {
    assert_eq!(Rule::object.rule_type(), CommonRuleType::Object);
    assert_eq!(Rule::array.rule_type(), CommonRuleType::Array);
    assert_eq!(Rule::string.rule_type(), CommonRuleType::String);
    assert_eq!(Rule::number.rule_type(), CommonRuleType::Number);
    assert_eq!(Rule::boolean.rule_type(), CommonRuleType::Boolean);
    assert_eq!(Rule::null.rule_type(), CommonRuleType::Null);
    assert_eq!(Rule::header.rule_type(), CommonRuleType::Other);
    assert_eq!(Rule::pair.rule_type(), CommonRuleType::Other);
    assert_eq!(Req::request_line.rule_type(), CommonRuleType::Other);
    assert_eq!(Req::object.rule_type(), CommonRuleType::Object);
}

#[test]
fn header_needs_key_and_value() {
    let name = leaf(Rule::header_name, 0, "host");
    let value = leaf(Rule::header_value, 6, "example.com");
    let full = ParseNode {
        rule: Rule::header,
        start: 0,
        end: 19,
        text: "host: example.com\r\n".to_string(),
        children: vec![name.clone_shallow(), value.clone_shallow()],
    };
    let (key, header) = parse_response_header(&full).unwrap();
    assert_eq!(key, "host");
    assert_eq!(header.range, 0..19);
    assert_eq!(header.value, "example.com");

    let only_key = ParseNode { rule: Rule::header, start: 0, end: 4, text: "host".to_string(), children: vec![name] };
    assert_eq!(CommonParser::parse_header(&only_key).unwrap_err(), "Missing value in header");
    let empty = ParseNode { rule: Rule::header, start: 0, end: 0, text: String::new(), children: Vec::new() };
    assert_eq!(CommonParser::parse_header(&empty).unwrap_err(), "Missing key in header");
    let req_empty = ParseNode { rule: Req::header, start: 0, end: 0, text: String::new(), children: Vec::new() };
    assert_eq!(parse_request_header(&req_empty).unwrap_err(), "Missing key in header");
}

trait CloneShallow {
    fn clone_shallow(&self) -> Self;
}

impl CloneShallow for ParseNode<Rule> {
    fn clone_shallow(&self) -> Self {
        ParseNode { rule: self.rule, start: self.start, end: self.end, text: self.text.clone(), children: Vec::new() }
    }
}

#[test]
fn scalars_keep_span_and_literal() {
    match parse_response_value(&string(3, "abc")) {
        RangedValue::String { range, value } => {
            assert_eq!(range, 3..8);
            assert_eq!(value, "abc");
        }
        other => panic!("unexpected {:?}", other),
    }
    match parse_response_value(&string(0, "")) {
        RangedValue::String { range, value } => {
            assert_eq!(range, 0..2);
            assert_eq!(value, "");
        }
        other => panic!("unexpected {:?}", other),
    }
    match parse_response_value(&leaf(Rule::number, 10, "-12.5e3")) {
        RangedValue::Number { range, value } => {
            assert_eq!(range, 10..17);
            assert_eq!(value, "-12.5e3");
        }
        other => panic!("unexpected {:?}", other),
    }
    for (text, expected) in [("true", true), ("false", false), ("yes", false)] {
        match parse_response_value(&leaf(Rule::boolean, 4, text)) {
            RangedValue::Bool { range, value } => {
                assert_eq!(range, 4..4 + text.len());
                assert_eq!(value, expected);
            }
            other => panic!("unexpected {:?}", other),
        }
    }
    assert!(matches!(parse_response_value(&leaf(Rule::null, 7, "null")), RangedValue::Null));
    assert_eq!(RangedValue::Null.get_range(), 0..0);
}

#[test]
fn duplicate_keys_keep_the_last_value() {
    // {"k":1,"j":2,"k":3}
    let obj = ParseNode {
        rule: Rule::object,
        start: 0,
        end: 19,
        text: String::new(),
        children: vec![
            pair(string(1, "k"), leaf(Rule::number, 5, "1")),
            pair(string(7, "j"), leaf(Rule::number, 11, "2")),
            pair(string(13, "k"), leaf(Rule::number, 17, "3")),
        ],
    };
    match CommonParser::parse_value(&obj) {
        RangedValue::Object { range, value } => {
            assert_eq!(range, 0..19);
            assert_eq!(value.len(), 2);
            let k = value.iter().find(|(key, _)| key == "k").unwrap();
            assert_eq!(k.1.get_range(), 17..18);
            let j = value.iter().find(|(key, _)| key == "j").unwrap();
            assert_eq!(j.1.get_range(), 11..12);
        }
        other => panic!("unexpected {:?}", other),
    }
}

#[test]
fn arrays_keep_item_order() {
    let arr = ParseNode {
        rule: Rule::array,
        start: 0,
        end: 7,
        text: "[1,2,3]".to_string(),
        children: vec![leaf(Rule::number, 1, "1"), leaf(Rule::number, 3, "2"), leaf(Rule::number, 5, "3")],
    };
    match CommonParser::parse_value(&arr) {
        RangedValue::Array { range, value } => {
            assert_eq!(range, 0..7);
            let starts: Vec<usize> = value.iter().map(|v| v.get_range().start).collect();
            assert_eq!(starts, vec![1, 3, 5]);
        }
        other => panic!("unexpected {:?}", other),
    }
}

#[test]
fn unclassified_nodes_are_malformed() {
    let bad = ParseNode { rule: Rule::array, start: 0, end: 3, text: String::new(), children: vec![leaf(Rule::header, 1, "x")] };
    assert!(!is_value_shaped(&bad));
    let entry_without_value = ParseNode {
        rule: Rule::object,
        start: 0,
        end: 5,
        text: String::new(),
        children: vec![ParseNode { rule: Rule::pair, start: 1, end: 4, text: String::new(), children: vec![string(1, "k")] }],
    };
    assert!(!is_value_shaped(&entry_without_value));
    assert_eq!(Response::try_from(vec![bad]).unwrap_err(), "Malformed value node");
    assert!(is_value_shaped(&string(0, "ok")));
}

#[test]
fn response_takes_headers_and_last_body() {
    let h1 = ParseNode {
        rule: Rule::header,
        start: 17,
        end: 30,
        text: String::new(),
        children: vec![leaf(Rule::header_name, 17, "a"), leaf(Rule::header_value, 20, "1")],
    };
    let h2 = ParseNode {
        rule: Rule::header,
        start: 32,
        end: 40,
        text: String::new(),
        children: vec![leaf(Rule::header_name, 32, "a"), leaf(Rule::header_value, 35, "2")],
    };
    let body = ParseNode { rule: Rule::array, start: 44, end: 46, text: "[]".to_string(), children: vec![] };
    let resp = Response::try_from(vec![leaf(Rule::status_line, 0, "HTTP/1.1 200 OK"), h1, h2, body]).unwrap();
    assert_eq!(resp.headers.len(), 1);
    assert_eq!(resp.headers[0].1.range, 32..40);
    assert_eq!(resp.headers[0].1.value, "2");
    assert_eq!(resp.content.get_range(), 44..46);

    let none = Response::try_from(vec![]).unwrap();
    match none.content {
        RangedValue::Object { range, value } => {
            assert_eq!(range, 0..0);
            assert!(value.is_empty());
        }
        other => panic!("unexpected {:?}", other),
    }
    let broken = ParseNode { rule: Rule::header, start: 0, end: 1, text: String::new(), children: vec![leaf(Rule::header_name, 0, "a")] };
    assert_eq!(Response::try_from(vec![broken]).unwrap_err(), "Missing value in header");
}

#[test]
fn request_needs_a_request_line() {
    assert_eq!(Request::try_from(vec![]).unwrap_err(), "Missing request line");
    let line = ParseNode { rule: Req::request_line, start: 0, end: 14, text: "GET / HTTP/1.1".to_string(), children: vec![] };
    let req = Request::try_from(vec![line]).unwrap();
    assert_eq!(req.request_line.range, 0..14);
    assert_eq!(req.request_line.value, "GET / HTTP/1.1");
    assert!(req.headers.is_empty());
}

#[test]
fn default_value_is_an_empty_object() {
    match RangedValue::default() {
        RangedValue::Object { range, value } => {
            assert_eq!(range, 0..0);
            assert!(value.is_empty());
        }
        other => panic!("unexpected {:?}", other),
    }
}
