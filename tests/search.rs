use keypath_ranges::ast::{CommonParser, ParseNode, RangedHeader, RangedValue};
use keypath_ranges::response::{Response, Rule};
use keypath_ranges::request::{Request, Rule as Req};
use keypath_ranges::search::{keypath_ranges_fit, Searchable};
use std::ops::Range;

fn leaf(rule: Rule, src: &str, start: usize, end: usize) -> ParseNode<Rule> {
    ParseNode { rule, start, end, text: src[start..end].to_string(), children: Vec::new() }
}

fn node(rule: Rule, src: &str, start: usize, end: usize, children: Vec<ParseNode<Rule>>) -> ParseNode<Rule> {
    ParseNode { rule, start, end, text: src[start..end].to_string(), children }
}

// Builds the parse tree of compact JSON (no white space, no escapes) as the
// response grammar shapes it.
fn value_at(src: &str, pos: usize) -> (ParseNode<Rule>, usize) {
    let b = src.as_bytes();
    match b[pos] {
        b'{' => {
            let mut children = Vec::new();
            let mut p = pos + 1;
            while b[p] != b'}' {
                let (key, after_key) = value_at(src, p);
                let (val, after_val) = value_at(src, after_key + 1);
                children.push(node(Rule::pair, src, p, after_val, vec![key, val]));
                p = after_val;
                if b[p] == b',' {
                    p += 1;
                }
            }
            (node(Rule::object, src, pos, p + 1, children), p + 1)
        }
        b'[' => {
            let mut children = Vec::new();
            let mut p = pos + 1;
            while b[p] != b']' {
                let (v, after) = value_at(src, p);
                children.push(v);
                p = after;
                if b[p] == b',' {
                    p += 1;
                }
            }
            (node(Rule::array, src, pos, p + 1, children), p + 1)
        }
        b'"' => {
            let mut p = pos + 1;
            while b[p] != b'"' {
                p += 1;
            }
            let inner = if p > pos + 1 { vec![leaf(Rule::inner, src, pos + 1, p)] } else { Vec::new() };
            (node(Rule::string, src, pos, p + 1, inner), p + 1)
        }
        b't' => (leaf(Rule::boolean, src, pos, pos + 4), pos + 4),
        b'f' => (leaf(Rule::boolean, src, pos, pos + 5), pos + 5),
        b'n' => (leaf(Rule::null, src, pos, pos + 4), pos + 4),
        _ => {
            let mut p = pos;
            while p < b.len() && (b[p].is_ascii_digit() || b[p] == b'.' || b[p] == b'-') {
                p += 1;
            }
            (leaf(Rule::number, src, pos, p), p)
        }
    }
}

fn tree(src: &str) -> ParseNode<Rule> {
    value_at(src, 0).0
}

fn response_of(src: &str) -> Response {
    Response::try_from(vec![tree(src)]).unwrap()
}

fn slices<'a>(src: &'a str, ranges: &[Range<usize>]) -> Vec<&'a str> {
    let mut out: Vec<&str> = ranges.iter().map(|r| &src[r.clone()]).collect();
    out.sort();
    out
}

#[test]
fn nested_keypath_selects_whole_entry() {
    let src = r#"{"a":{"b":1,"c":2}}"#;
    let resp = response_of(src);
    let r = resp.get_all_ranges_for_keypaths(&["a.b"], &[]);
    assert_eq!(r.len(), 1);
    assert_eq!(&src[r[0].clone()], r#""b":1"#);
    let r = resp.get_all_ranges_for_keypaths(&["a.c"], &[]);
    assert_eq!(r.len(), 1);
    assert_eq!(&src[r[0].clone()], r#""c":2"#);
    let r = resp.get_all_ranges_for_keypaths(&["a"], &[]);
    assert_eq!(r.len(), 1);
    assert_eq!(&src[r[0].clone()], r#""a":{"b":1,"c":2}"#);
}

#[test]
fn requested_header_yields_its_line() {
    let resp = Response {
        headers: vec![
            ("host".to_string(), RangedHeader { range: 17..34, value: "example.com".to_string() }),
            ("accept".to_string(), RangedHeader { range: 36..47, value: "*/*".to_string() }),
        ],
        content: RangedValue::default(),
    };
    let r = resp.get_all_ranges_for_keypaths(&[], &["host"]);
    assert_eq!(r, vec![17..34]);
}

#[test]
fn array_items_share_their_parent_path() {
    let src = r#"{"items":[{"x":1},{"x":2}]}"#;
    let resp = response_of(src);
    let r = resp.get_all_ranges_for_keypaths(&["items.x"], &[]);
    assert_eq!(r.len(), 2);
    assert_eq!(&src[r[0].clone()], r#""x":1"#);
    assert_eq!(&src[r[1].clone()], r#""x":2"#);
}

#[test]
fn missing_keypath_adds_nothing() {
    let src = r#"{"a":{"b":1,"c":2}}"#;
    let resp = response_of(src);
    assert!(resp.get_all_ranges_for_keypaths(&["a.z", "q"], &["host"]).is_empty());
    let with = resp.get_all_ranges_for_keypaths(&["a.b", "nope"], &[]);
    let without = resp.get_all_ranges_for_keypaths(&["a.b"], &[]);
    assert_eq!(with, without);
}

#[test]
fn searching_twice_gives_the_same_ranges() {
    let src = r#"{"a":{"b":1,"c":[{"d":true},{"d":false,"e":"x"}]},"f":"g"}"#;
    let resp = response_of(src);
    let first = resp.get_all_ranges_for_keypaths(&["a.c.d", "f", "a.b"], &[]);
    let second = resp.get_all_ranges_for_keypaths(&["a.c.d", "f", "a.b"], &[]);
    assert_eq!(first, second);
    assert_eq!(
        slices(src, &first),
        vec![r#""b":1"#, r#""d":false"#, r#""d":true"#, r#""f":"g""#]
    );
}

#[test]
fn one_range_per_matched_field() {
    let src = r#"{"a":1,"b":{"a":2,"c":3},"d":[{"a":4},{"a":5}]}"#;
    let resp = response_of(src);
    let r = resp.get_all_ranges_for_keypaths(&["a", "b.c", "d.a"], &[]);
    assert_eq!(slices(src, &r), vec![r#""a":1"#, r#""a":4"#, r#""a":5"#, r#""c":3"#]);
}

#[test]
fn children_lie_within_their_parents() {
    fn check(v: &RangedValue) {
        let outer = v.get_range();
        match v {
            RangedValue::Object { value, .. } => {
                for (_, c) in value {
                    if !matches!(c, RangedValue::Null) {
                        let inner = c.get_range();
                        assert!(outer.start <= inner.start && inner.end <= outer.end);
                    }
                    check(c);
                }
            }
            RangedValue::Array { value, .. } => {
                for c in value {
                    if !matches!(c, RangedValue::Null) {
                        let inner = c.get_range();
                        assert!(outer.start <= inner.start && inner.end <= outer.end);
                    }
                    check(c);
                }
            }
            _ => {}
        }
    }
    let src = r#"{"a":[1,{"b":"c"},[true,null]],"d":{"e":-2.5}}"#;
    let v = CommonParser::parse_value(&tree(src));
    check(&v);
}

#[test]
fn request_line_is_always_disclosed() {
    let src = "POST /x HTTP/1.1\r\nhost: a.b\r\n\r\n{\"k\":1}";
    let line = ParseNode { rule: Req::request_line, start: 0, end: 16, text: src[0..16].to_string(), children: vec![] };
    let name = ParseNode { rule: Req::header_name, start: 18, end: 22, text: "host".to_string(), children: vec![] };
    let value = ParseNode { rule: Req::header_value, start: 24, end: 27, text: "a.b".to_string(), children: vec![] };
    let header = ParseNode { rule: Req::header, start: 18, end: 27, text: src[18..27].to_string(), children: vec![name, value] };
    let req = Request::try_from(vec![line, header]).unwrap();
    assert!(req.content.is_none());
    assert_eq!(req.get_all_ranges_for_keypaths(&["k"], &[]), vec![0..16]);
    assert_eq!(req.get_all_ranges_for_keypaths(&[], &["host"]), vec![0..16, 18..27]);
}

#[test]
fn matched_null_has_no_room_for_its_key() {
    let src = r#"{"a":null,"b":2}"#;
    let resp = response_of(src);
    assert!(!keypath_ranges_fit(&["a"], &resp.content, Vec::new()));
    assert!(keypath_ranges_fit(&["b"], &resp.content, Vec::new()));
    assert!(keypath_ranges_fit(&["zz"], &resp.content, Vec::new()));
}
