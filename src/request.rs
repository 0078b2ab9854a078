use crate::ast::{
    builds, headers_built, insert_header, is_value_shaped, lemma_headers_skip,
    lemma_headers_step, span_of, value_shaped, CommonParser, CommonRule, CommonRuleType, ParseNode,
    RangedHeader, RangedValue,
};
use crate::search::Searchable;
use std::ops::Range;
use vstd::prelude::*;

verus! {

broadcast use vstd::std_specs::vec::group_vec_axioms, vstd::seq::group_seq_axioms;

/// The rules of the request grammar.
#[allow(non_camel_case_types)]
#[derive(Debug, Clone, Copy, PartialEq, Eq, Structural, Hash, PartialOrd, Ord)]
pub enum Rule {
    EOI,
    request,
    request_line,
    method,
    uri,
    version,
    header,
    header_name,
    header_value,
    body,
    object,
    pair,
    array,
    value,
    string,
    inner,
    number,
    boolean,
    null,
}

impl CommonRule for Rule {
    open spec fn kind(&self) -> CommonRuleType {
        match self {
            Rule::object => CommonRuleType::Object,
            Rule::array => CommonRuleType::Array,
            Rule::string => CommonRuleType::String,
            Rule::number => CommonRuleType::Number,
            Rule::boolean => CommonRuleType::Boolean,
            Rule::null => CommonRuleType::Null,
            _ => CommonRuleType::Other,
        }
    }

    fn rule_type(&self) -> (r: CommonRuleType) {
        match self {
            Rule::object => CommonRuleType::Object,
            Rule::array => CommonRuleType::Array,
            Rule::string => CommonRuleType::String,
            Rule::number => CommonRuleType::Number,
            Rule::boolean => CommonRuleType::Boolean,
            Rule::null => CommonRuleType::Null,
            _ => CommonRuleType::Other,
        }
    }
}

/// Names the request grammar; its parse trees arrive as `ParseNode<Rule>`.
pub struct RequestParser;

/// A parsed request: its request line, its headers by name and its body, if any.
#[derive(Debug)]
pub struct Request {
    pub request_line: RangedHeader,
    pub headers: Vec<(String, RangedHeader)>,
    pub content: Option<RangedValue>,
}

pub open spec fn is_value_rule(rule: Rule) -> bool {
    rule == Rule::object || rule == Rule::array
}

/// A top-level node that the response can be built from.
pub open spec fn node_ok(p: ParseNode<Rule>) -> bool {
    &&& p.rule == Rule::header ==> p.children.len() >= 2
    &&& is_value_rule(p.rule) ==> value_shaped(p)
}

/// Why a top-level node cannot be used.
pub open spec fn node_failure(p: ParseNode<Rule>) -> Seq<char> {
    if p.rule == Rule::header {
        if p.children.len() == 0 {
            "Missing key in header"@
        } else {
            "Missing value in header"@
        }
    } else {
        "Malformed value node"@
    }
}

/// The index of the last object or array node, or -1.
pub open spec fn last_value_node(pairs: Seq<ParseNode<Rule>>) -> int
    decreases pairs.len(),
{
    if pairs.len() == 0 {
        -1
    } else if is_value_rule(pairs.last().rule) {
        pairs.len() - 1
    } else {
        last_value_node(pairs.drop_last())
    }
}

/// The index of the last node of rule `rule`, or -1.
pub open spec fn last_of_rule(pairs: Seq<ParseNode<Rule>>, rule: Rule) -> int
    decreases pairs.len(),
{
    if pairs.len() == 0 {
        -1
    } else if pairs.last().rule == rule {
        pairs.len() - 1
    } else {
        last_of_rule(pairs.drop_last(), rule)
    }
}

/// The body built from the last object or array node; none without one.
pub open spec fn content_built(pairs: Seq<ParseNode<Rule>>, content: Option<RangedValue>) -> bool {
    let li = last_value_node(pairs);
    if li >= 0 {
        0 <= li < pairs.len() && (content matches Some(v) && builds(pairs[li], v))
    } else {
        content is None
    }
}

/// The request line held as found in the last request-line node.
pub open spec fn request_line_built(pairs: Seq<ParseNode<Rule>>, line: Option<RangedHeader>) -> bool {
    let li = last_of_rule(pairs, Rule::request_line);
    if li >= 0 {
        0 <= li < pairs.len() && (line matches Some(h) && h.range == span_of(pairs[li])
            && h.value@ == pairs[li].text@)
    } else {
        line is None
    }
}

pub open spec fn has_request_line(pairs: Seq<ParseNode<Rule>>) -> bool {
    exists|i: int| 0 <= i < pairs.len() && (#[trigger] pairs[i]).rule == Rule::request_line
}

proof fn lemma_last_of_rule_bounds(pairs: Seq<ParseNode<Rule>>, rule: Rule)
    ensures
        -1 <= last_of_rule(pairs, rule) < pairs.len(),
        last_of_rule(pairs, rule) >= 0 <==> exists|i: int|
            0 <= i < pairs.len() && (#[trigger] pairs[i]).rule == rule,
    decreases pairs.len(),
{
    if pairs.len() > 0 {
        lemma_last_of_rule_bounds(pairs.drop_last(), rule);
        if pairs.last().rule != rule {
            assert forall|i: int| 0 <= i < pairs.len() - 1 implies #[trigger] pairs[i] == pairs.drop_last()[i] by {}
            if exists|i: int| 0 <= i < pairs.len() && (#[trigger] pairs[i]).rule == rule {
                let i = choose|i: int| 0 <= i < pairs.len() && (#[trigger] pairs[i]).rule == rule;
                assert(pairs.drop_last()[i].rule == rule);
            }
        }
    }
}

/// `req` is what the top-level nodes `pairs` describe.
pub open spec fn request_built(pairs: Seq<ParseNode<Rule>>, req: Request) -> bool {
    &&& headers_built(pairs, Rule::header, req.headers@)
    &&& content_built(pairs, req.content)
    &&& request_line_built(pairs, Some(req.request_line))
}

/// The top-level nodes from which a request can be built.
pub open spec fn request_ok(pairs: Seq<ParseNode<Rule>>) -> bool {
    (forall|i: int| 0 <= i < pairs.len() ==> node_ok(#[trigger] pairs[i])) && has_request_line(pairs)
}

impl Request {
    /// Builds a request from the top-level nodes of a parse: the request line from
    /// the last request-line node, headers from the header nodes, the body from the
    /// last object or array node.
    pub fn try_from(pairs: Vec<ParseNode<Rule>>) -> (r: Result<Request, &'static str>)
        ensures
            r is Ok <==> request_ok(pairs@),
            r matches Ok(req) ==> request_built(pairs@, req),
            r matches Err(e) ==> (exists|i: int|
                0 <= i < pairs@.len() && !node_ok(#[trigger] pairs@[i]) && (forall|x: int|
                    0 <= x < i ==> node_ok(#[trigger] pairs@[x])) && e@ == node_failure(pairs@[i]))
                || ((forall|i: int| 0 <= i < pairs@.len() ==> node_ok(#[trigger] pairs@[i]))
                && e@ == "Missing request line"@),
    {
        let mut request_line: Option<RangedHeader> = None;
        let mut headers: Vec<(String, RangedHeader)> = Vec::new();
        let mut content: Option<RangedValue> = None;
        let mut i: usize = 0;
        while i < pairs.len()
            invariant
                0 <= i <= pairs@.len(),
                forall|x: int| 0 <= x < i ==> node_ok(#[trigger] pairs@[x]),
                headers_built(pairs@.subrange(0, i as int), Rule::header, headers@),
                content_built(pairs@.subrange(0, i as int), content),
                request_line_built(pairs@.subrange(0, i as int), request_line),
            decreases pairs@.len() - i,
        {
            let pair = &pairs[i];
            let ghost prev = pairs@.subrange(0, i as int);
            let ghost next = pairs@.subrange(0, i + 1);
            proof {
                assert(next =~= prev.push(*pair));
                assert(next.drop_last() =~= prev);
            }
            match pair.rule {
                Rule::request_line => {
                    request_line = Some(
                        RangedHeader {
                            range: Range { start: pair.start, end: pair.end },
                            value: pair.text.clone(),
                        },
                    );
                    proof {
                        lemma_headers_skip(prev, *pair, Rule::header, headers@);
                    }
                },
                Rule::header => {
                    match CommonParser::parse_header(pair) {
                        Ok((key, header)) => {
                            let ghost old_hs = headers@;
                            let ghost k = key@;
                            let ghost h = header;
                            insert_header(&mut headers, key, header);
                            proof {
                                lemma_headers_step(prev, *pair, Rule::header, k, h, old_hs, headers@);
                            }
                        },
                        Err(e) => {
                            return Err(e);
                        },
                    }
                },
                Rule::object | Rule::array => {
                    if !is_value_shaped(pair) {
                        return Err("Malformed value node");
                    }
                    content = Some(CommonParser::parse_value(pair));
                    proof {
                        lemma_headers_skip(prev, *pair, Rule::header, headers@);
                    }
                },
                _ => {
                    proof {
                        lemma_headers_skip(prev, *pair, Rule::header, headers@);
                    }
                },
            }
            i = i + 1;
        }
        proof {
            assert(pairs@.subrange(0, i as int) =~= pairs@);
            lemma_last_of_rule_bounds(pairs@, Rule::request_line);
        }
        match request_line {
            Some(request_line) => Ok(Request { request_line, headers, content }),
            None => Err("Missing request line"),
        }
    }
}

impl Searchable for Request {
    open spec fn header_entries(&self) -> Seq<(String, RangedHeader)> {
        self.headers@
    }

    open spec fn content_value(&self) -> Option<RangedValue> {
        self.content
    }

    open spec fn extra_ranges(&self) -> Seq<Range<usize>> {
        seq![self.request_line.range]
    }

    fn get_headers(&self) -> (r: &Vec<(String, RangedHeader)>) {
        &self.headers
    }

    fn get_content(&self) -> (r: Option<&RangedValue>) {
        match &self.content {
            Some(c) => Some(c),
            None => None,
        }
    }

    /// The request line's range, included whatever is requested.
    fn get_additional_ranges(&self) -> (r: Vec<Range<usize>>) {
        let mut r: Vec<Range<usize>> = Vec::new();
        r.push(Range { start: self.request_line.range.start, end: self.request_line.range.end });
        r
    }
}
/// Parses a header node of the request grammar.
pub fn parse_request_header(pair: &ParseNode<Rule>) -> (r: Result<(String, RangedHeader), &'static str>)
    ensures
        r is Ok <==> pair.children.len() >= 2,
        r matches Ok((key, header)) ==> {
            &&& key@ == pair.children[0].text@
            &&& header.range == span_of(*pair)
            &&& header.value@ == pair.children[1].text@
        },
        pair.children.len() == 0 ==> (r matches Err(e) && e@ == "Missing key in header"@),
        pair.children.len() == 1 ==> (r matches Err(e) && e@ == "Missing value in header"@),
{
    CommonParser::parse_header(pair)
}

/// Parses a value node of the request grammar.
pub fn parse_request_value(pair: &ParseNode<Rule>) -> (r: RangedValue)
    requires
        value_shaped(*pair),
    ensures
        builds(*pair, r),
{
    CommonParser::parse_value(pair)
}

} // verus!
