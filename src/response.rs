use crate::ast::{
    builds, headers_built, insert_header, is_empty_object, is_value_shaped, lemma_headers_skip,
    lemma_headers_step, span_of, value_shaped, CommonParser, CommonRule, CommonRuleType, ParseNode,
    RangedHeader, RangedValue,
};
use crate::search::Searchable;
use std::ops::Range;
use vstd::prelude::*;

verus! {

broadcast use vstd::std_specs::vec::group_vec_axioms, vstd::seq::group_seq_axioms;

/// The rules of the response grammar.
#[allow(non_camel_case_types)]
#[derive(Debug, Clone, Copy, PartialEq, Eq, Structural, Hash, PartialOrd, Ord)]
pub enum Rule {
    EOI,
    response,
    status_line,
    header,
    header_name,
    header_value,
    body,
    object,
    pair,
    array,
    value,
    string,
    inner,
    number,
    boolean,
    null,
}

impl CommonRule for Rule {
    open spec fn kind(&self) -> CommonRuleType {
        match self {
            Rule::object => CommonRuleType::Object,
            Rule::array => CommonRuleType::Array,
            Rule::string => CommonRuleType::String,
            Rule::number => CommonRuleType::Number,
            Rule::boolean => CommonRuleType::Boolean,
            Rule::null => CommonRuleType::Null,
            _ => CommonRuleType::Other,
        }
    }

    fn rule_type(&self) -> (r: CommonRuleType) {
        match self {
            Rule::object => CommonRuleType::Object,
            Rule::array => CommonRuleType::Array,
            Rule::string => CommonRuleType::String,
            Rule::number => CommonRuleType::Number,
            Rule::boolean => CommonRuleType::Boolean,
            Rule::null => CommonRuleType::Null,
            _ => CommonRuleType::Other,
        }
    }
}

/// Names the response grammar; its parse trees arrive as `ParseNode<Rule>`.
pub struct ResponseParser;

/// A parsed response: its headers by name and its body.
#[derive(Debug)]
pub struct Response {
    pub headers: Vec<(String, RangedHeader)>,
    pub content: RangedValue,
}

pub open spec fn is_value_rule(rule: Rule) -> bool {
    rule == Rule::object || rule == Rule::array
}

/// A top-level node that the response can be built from.
pub open spec fn node_ok(p: ParseNode<Rule>) -> bool {
    &&& p.rule == Rule::header ==> p.children.len() >= 2
    &&& is_value_rule(p.rule) ==> value_shaped(p)
}

/// Why a top-level node cannot be used.
pub open spec fn node_failure(p: ParseNode<Rule>) -> Seq<char> {
    if p.rule == Rule::header {
        if p.children.len() == 0 {
            "Missing key in header"@
        } else {
            "Missing value in header"@
        }
    } else {
        "Malformed value node"@
    }
}

/// The index of the last object or array node, or -1.
pub open spec fn last_value_node(pairs: Seq<ParseNode<Rule>>) -> int
    decreases pairs.len(),
{
    if pairs.len() == 0 {
        -1
    } else if is_value_rule(pairs.last().rule) {
        pairs.len() - 1
    } else {
        last_value_node(pairs.drop_last())
    }
}

/// The body built from the last object or array node, or the empty object if none.
pub open spec fn content_built(pairs: Seq<ParseNode<Rule>>, content: RangedValue) -> bool {
    let li = last_value_node(pairs);
    if li >= 0 {
        0 <= li < pairs.len() && builds(pairs[li], content)
    } else {
        is_empty_object(content)
    }
}

/// `resp` is what the top-level nodes `pairs` describe.
pub open spec fn response_built(pairs: Seq<ParseNode<Rule>>, resp: Response) -> bool {
    headers_built(pairs, Rule::header, resp.headers@) && content_built(pairs, resp.content)
}

impl Response {
    /// Builds a response from the top-level nodes of a parse: headers from the
    /// header nodes, the body from the last object or array node.
    pub fn try_from(pairs: Vec<ParseNode<Rule>>) -> (r: Result<Response, &'static str>)
        ensures
            r is Ok <==> forall|i: int| 0 <= i < pairs@.len() ==> node_ok(#[trigger] pairs@[i]),
            r matches Ok(resp) ==> response_built(pairs@, resp),
            r matches Err(e) ==> exists|i: int|
                0 <= i < pairs@.len() && !node_ok(#[trigger] pairs@[i]) && (forall|x: int|
                    0 <= x < i ==> node_ok(#[trigger] pairs@[x])) && e@ == node_failure(pairs@[i]),
    {
        let mut headers: Vec<(String, RangedHeader)> = Vec::new();
        let mut content = RangedValue::default();
        let mut i: usize = 0;
        while i < pairs.len()
            invariant
                0 <= i <= pairs@.len(),
                forall|x: int| 0 <= x < i ==> node_ok(#[trigger] pairs@[x]),
                headers_built(pairs@.subrange(0, i as int), Rule::header, headers@),
                content_built(pairs@.subrange(0, i as int), content),
            decreases pairs@.len() - i,
        {
            let pair = &pairs[i];
            let ghost prev = pairs@.subrange(0, i as int);
            let ghost next = pairs@.subrange(0, i + 1);
            proof {
                assert(next =~= prev.push(*pair));
                assert(next.drop_last() =~= prev);
            }
            match pair.rule {
                Rule::header => {
                    match CommonParser::parse_header(pair) {
                        Ok((key, header)) => {
                            let ghost old_hs = headers@;
                            let ghost k = key@;
                            let ghost h = header;
                            insert_header(&mut headers, key, header);
                            proof {
                                lemma_headers_step(prev, *pair, Rule::header, k, h, old_hs, headers@);
                            }
                        },
                        Err(e) => {
                            return Err(e);
                        },
                    }
                },
                Rule::object | Rule::array => {
                    if !is_value_shaped(pair) {
                        return Err("Malformed value node");
                    }
                    content = CommonParser::parse_value(pair);
                    proof {
                        lemma_headers_skip(prev, *pair, Rule::header, headers@);
                    }
                },
                _ => {
                    proof {
                        lemma_headers_skip(prev, *pair, Rule::header, headers@);
                    }
                },
            }
            i = i + 1;
        }
        proof {
            assert(pairs@.subrange(0, i as int) =~= pairs@);
        }
        Ok(Response { headers, content })
    }
}

impl Searchable for Response {
    open spec fn header_entries(&self) -> Seq<(String, RangedHeader)> {
        self.headers@
    }

    open spec fn content_value(&self) -> Option<RangedValue> {
        Some(self.content)
    }

    open spec fn extra_ranges(&self) -> Seq<Range<usize>> {
        Seq::empty()
    }

    fn get_headers(&self) -> (r: &Vec<(String, RangedHeader)>) {
        &self.headers
    }

    fn get_content(&self) -> (r: Option<&RangedValue>) {
        Some(&self.content)
    }

    fn get_additional_ranges(&self) -> (r: Vec<Range<usize>>) {
        Vec::new()
    }
}

/// Parses a header node of the response grammar.
pub fn parse_response_header(pair: &ParseNode<Rule>) -> (r: Result<(String, RangedHeader), &'static str>)
    ensures
        r is Ok <==> pair.children.len() >= 2,
        r matches Ok((key, header)) ==> {
            &&& key@ == pair.children[0].text@
            &&& header.range == span_of(*pair)
            &&& header.value@ == pair.children[1].text@
        },
        pair.children.len() == 0 ==> (r matches Err(e) && e@ == "Missing key in header"@),
        pair.children.len() == 1 ==> (r matches Err(e) && e@ == "Missing value in header"@),
{
    CommonParser::parse_header(pair)
}

/// Parses a value node of the response grammar.
pub fn parse_response_value(pair: &ParseNode<Rule>) -> (r: RangedValue)
    requires
        value_shaped(*pair),
    ensures
        builds(*pair, r),
{
    CommonParser::parse_value(pair)
}

} // verus!
