use crate::ast::ParseNode;
use crate::bytes::{
    find_bytes, find_first, find_from, find_last_byte, lemma_find_from_bounds,
    lemma_find_last_byte_bounds, rfind_byte,
};
use crate::request::{request_ok, Request, Rule as RequestRule};
use crate::response::{node_ok, response_built, Response, Rule as ResponseRule};
use crate::search::{
    content_fits, content_ranges, header_ranges, keypath_ranges_fit, lemma_no_header_ranges,
    Searchable,
};
use std::ops::Range;
use vstd::prelude::*;
use vstd::string::StringSliceAdditionalSpecFns;
use vstd::utf8::encode_utf8;

verus! {

broadcast use vstd::seq::group_seq_axioms;

/// One opened segment of a transcript commitment.
#[derive(Debug, Clone)]
pub struct TranscriptOpening {
    pub id: usize,
    pub direction: usize,
    pub data: Vec<u8>,
    pub blinder: Vec<u8>,
    pub position: usize,
}

/// Access to the two directions of a recorded transcript.
pub trait TranscriptProvider {
    fn received_data(&self) -> &[u8];

    fn sent_data(&self) -> &[u8];
}

/// The range of a field found in `content` (which starts at `base` in the whole text):
/// from the start of `key` to the first `stop` at or after it, plus `extra` bytes.
pub open spec fn field_range(content: Seq<u8>, base: int, key: Seq<u8>, stop: Seq<u8>, extra: int) -> Option<
    Range<usize>,
> {
    match find_first(content, key) {
        Some(ks) => match find_from(content, stop, ks) {
            Some(p) => Some(Range { start: (base + ks) as usize, end: (base + p + extra) as usize }),
            None => None,
        },
        None => None,
    }
}

pub open spec fn opt_range(r: Option<Range<usize>>) -> Seq<Range<usize>> {
    match r {
        Some(x) => seq![x],
        None => Seq::empty(),
    }
}

/// The ranges of the price fields found by plain text search: `"price":"` up to and
/// including its closing quote, `"mins":` up to the next comma, and `"closeTime":` up
/// to the next closing brace, each searched between the first `{` and the last `}`.
pub open spec fn price_field_ranges(text: Seq<u8>) -> Seq<Range<usize>> {
    match (find_first(text, encode_utf8("{"@)), find_last_byte(text, 125u8)) {
        (Some(js), Some(je)) => if js <= je {
            let content = text.subrange(js, je + 1);
            opt_range(field_range(content, js, encode_utf8("\"price\":\""@), encode_utf8("\","@), 1))
                + opt_range(field_range(content, js, encode_utf8("\"mins\":"@), encode_utf8(","@), 0))
                + opt_range(
                field_range(content, js, encode_utf8("\"closeTime\":"@), encode_utf8("}"@), 0),
            )
        } else {
            Seq::empty()
        },
        _ => Seq::empty(),
    }
}

proof fn lemma_encoded_nonempty(s: Seq<char>)
    requires
        s.len() > 0,
    ensures
        encode_utf8(s).len() >= 1,
{
    assert(encode_utf8(s) == vstd::utf8::encode_scalar(s[0] as u32) + encode_utf8(s.drop_first()));
}

fn find_field(content: &[u8], base: usize, key: &[u8], stop: &[u8], extra: usize) -> (r: Option<
    Range<usize>,
>)
    requires
        base + content@.len() <= usize::MAX,
        extra <= 1,
        stop@.len() >= extra,
    ensures
        r == field_range(content@, base as int, key@, stop@, extra as int),
{
    match find_bytes(content, key, 0) {
        Some(ks) => {
            proof {
                lemma_find_from_bounds(content@, key@, 0);
            }
            match find_bytes(content, stop, ks) {
                Some(p) => {
                    proof {
                        lemma_find_from_bounds(content@, stop@, ks as int);
                    }
                    Some(Range { start: base + ks, end: base + p + extra })
                },
                None => None,
            }
        },
        None => None,
    }
}

/// Finds the price fields of a response by plain text search, for text that the
/// response grammar does not accept.
pub fn get_binance_price_ranges(response: &str) -> (r: Vec<Range<usize>>)
    ensures
        r@ == price_field_ranges(response.spec_bytes()),
{
    let text = response.as_bytes();
    let n = text.len();
    let mut ranges: Vec<Range<usize>> = Vec::new();
    let open = "{".as_bytes();
    let json_start = find_bytes(text, open, 0);
    let json_end = rfind_byte(text, 125u8);
    proof {
        lemma_find_from_bounds(text@, open@, 0);
        lemma_find_last_byte_bounds(text@, 125u8);
    }
    match (json_start, json_end) {
        (Some(js), Some(je)) => {
            if js <= je {
                let content = vstd::slice::slice_subrange(text, js, je + 1);
                proof {
                    reveal_strlit("\",");
                    lemma_encoded_nonempty("\","@);
                }
                let price = find_field(content, js, "\"price\":\"".as_bytes(), "\",".as_bytes(), 1);
                if let Some(x) = price {
                    ranges.push(x);
                }
                let mins = find_field(content, js, "\"mins\":".as_bytes(), ",".as_bytes(), 0);
                if let Some(x) = mins {
                    ranges.push(x);
                }
                let close = find_field(
                    content,
                    js,
                    "\"closeTime\":".as_bytes(),
                    "}".as_bytes(),
                    0,
                );
                if let Some(x) = close {
                    ranges.push(x);
                }
                assert(ranges@ =~= opt_range(price) + opt_range(mins) + opt_range(close));
            }
        },
        _ => {},
    }
    ranges
}

/// The range from `symbol=` up to the following ` HTTP`, if both are found.
pub open spec fn symbol_ranges(text: Seq<u8>) -> Seq<Range<usize>> {
    match find_first(text, encode_utf8("symbol="@)) {
        Some(s) => match find_from(text, encode_utf8(" HTTP"@), s) {
            Some(e) => seq![Range { start: s as usize, end: e as usize }],
            None => Seq::empty(),
        },
        None => Seq::empty(),
    }
}

/// The key paths disclosed from a response body.
pub open spec fn price_keypaths() -> Seq<&'static str> {
    seq!["price", "mins", "closeTime"]
}

/// The ranges to disclose from received text, given the response grammar's top-level
/// nodes for it (`None` where the grammar rejected the text). A response built from the
/// nodes is searched for the price key paths; otherwise, or where a matched entry has
/// no room for its key before its value, the text is searched directly.
pub fn received_ranges_from_parse(recv: &str, parsed: Option<Vec<ParseNode<ResponseRule>>>) -> (r:
    Vec<Range<usize>>)
    ensures
        match parsed {
            Some(pairs) => if forall|i: int| 0 <= i < pairs@.len() ==> node_ok(#[trigger] pairs@[i]) {
                exists|resp: Response|
                    #![trigger response_built(pairs@, resp)]
                    response_built(pairs@, resp) && if content_fits(
                        price_keypaths(),
                        Some(resp.content),
                    ) {
                        r@ == content_ranges(price_keypaths(), Some(resp.content))
                    } else {
                        r@ == price_field_ranges(recv.spec_bytes())
                    }
            } else {
                r@ == price_field_ranges(recv.spec_bytes())
            },
            None => r@ == price_field_ranges(recv.spec_bytes()),
        },
{
    let pairs = match parsed {
        Some(pairs) => pairs,
        None => {
            return get_binance_price_ranges(recv);
        },
    };
    let ghost nodes = pairs@;
    let response = match Response::try_from(pairs) {
        Ok(r) => r,
        Err(_) => {
            return get_binance_price_ranges(recv);
        },
    };
    let mut keypaths: Vec<&str> = Vec::new();
    keypaths.push("price");
    keypaths.push("mins");
    keypaths.push("closeTime");
    let headers: Vec<&str> = Vec::new();
    assert(keypaths@ =~= price_keypaths());
    let root: Vec<String> = Vec::new();
    assert(crate::search::segments(root@) =~= Seq::<Seq<char>>::empty());
    if !keypath_ranges_fit(keypaths.as_slice(), &response.content, root) {
        return get_binance_price_ranges(recv);
    }
    let r = response.get_all_ranges_for_keypaths(keypaths.as_slice(), headers.as_slice());
    proof {
        lemma_no_header_ranges(response.headers@, headers@);
        assert(r@ =~= content_ranges(price_keypaths(), Some(response.content)));
        assert(response_built(nodes, response));
    }
    r
}

/// The ranges to disclose from sent text, given the request grammar's top-level nodes
/// for it (`None` where the grammar rejected the text): where a request can be built
/// from them, the `symbol=` parameter up to the following ` HTTP`; nothing otherwise.
pub fn sent_ranges_from_parse(sent: &str, parsed: Option<Vec<ParseNode<RequestRule>>>) -> (r: Vec<
    Range<usize>,
>)
    ensures
        r@ == match parsed {
            Some(pairs) => if request_ok(pairs@) {
                symbol_ranges(sent.spec_bytes())
            } else {
                Seq::empty()
            },
            None => Seq::empty(),
        },
{
    let mut ranges: Vec<Range<usize>> = Vec::new();
    let pairs = match parsed {
        Some(pairs) => pairs,
        None => {
            return ranges;
        },
    };
    match Request::try_from(pairs) {
        Ok(_) => {},
        Err(_) => {
            return ranges;
        },
    }
    let text = sent.as_bytes();
    let n = text.len();
    let key = "symbol=".as_bytes();
    if let Some(symbol_start) = find_bytes(text, key, 0) {
        proof {
            lemma_find_from_bounds(text@, key@, 0);
        }
        let stop = " HTTP".as_bytes();
        if let Some(symbol_end) = find_bytes(text, stop, symbol_start) {
            proof {
                lemma_find_from_bounds(text@, stop@, symbol_start as int);
            }
            ranges.push(Range { start: symbol_start, end: symbol_end });
        }
    }
    ranges
}

} // verus!
