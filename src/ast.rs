use std::ops::Range;
use vstd::prelude::*;

verus! {

broadcast use vstd::std_specs::vec::group_vec_axioms, vstd::seq::group_seq_axioms;

/// One header line (or request line) with the byte range it occupies in the source.
#[derive(Debug)]
pub struct RangedHeader {
    pub range: Range<usize>,
    pub value: String,
}

/// A parsed structured value, annotated with the byte range of its lexical span.
///
/// A number keeps its literal text; an object keeps its entries with unique keys.
#[derive(Debug)]
#[allow(inconsistent_fields)]
pub enum RangedValue {
    Null,
    Bool { range: Range<usize>, value: bool },
    Number { range: Range<usize>, value: String },
    String { range: Range<usize>, value: String },
    Array { range: Range<usize>, value: Vec<RangedValue> },
    Object { range: Range<usize>, value: Vec<(String, RangedValue)> },
}

/// The range a value carries; `Null` has the degenerate range `0..0`.
pub open spec fn range_of(v: RangedValue) -> Range<usize> {
    match v {
        RangedValue::Null => Range { start: 0, end: 0 },
        RangedValue::Bool { range, .. } => range,
        RangedValue::Number { range, .. } => range,
        RangedValue::String { range, .. } => range,
        RangedValue::Array { range, .. } => range,
        RangedValue::Object { range, .. } => range,
    }
}

/// No two entries share a key.
pub open spec fn keys_unique(entries: Seq<(String, RangedValue)>) -> bool {
    forall|i: int, j: int|
        0 <= i < entries.len() && 0 <= j < entries.len() && i != j ==> entries[i].0@
            != entries[j].0@
}

impl RangedValue {
    /// Get the range of the current value.
    pub fn get_range(&self) -> (r: Range<usize>)
        ensures
            r == range_of(*self),
    {
        match self {
            RangedValue::Null => Range { start: 0, end: 0 },
            RangedValue::Bool { range, .. }
            | RangedValue::Number { range, .. }
            | RangedValue::String { range, .. }
            | RangedValue::Array { range, .. }
            | RangedValue::Object { range, .. } => Range { start: range.start, end: range.end },
        }
    }
}

impl Default for RangedValue {
    /// An empty object with the range `0..0`.
    fn default() -> (r: RangedValue)
        ensures
            is_empty_object(r),
    {
        RangedValue::Object { range: Range { start: 0, end: 0 }, value: Vec::new() }
    }
}

/// The categories into which every grammar classifies its node kinds.
#[derive(Debug, Clone, Copy, PartialEq, Eq, Structural)]
pub enum CommonRuleType {
    Object,
    Array,
    String,
    Number,
    Boolean,
    Null,
    Other,
}

/// The node kinds of a grammar, classified into the shared vocabulary.
pub trait CommonRule {
    spec fn kind(&self) -> CommonRuleType;

    fn rule_type(&self) -> (r: CommonRuleType)
        ensures
            r == self.kind(),
    ;
}

/// A node of a grammar's parse tree: its rule, its byte span `start..end` in the
/// source, the source text of that span, and its inner nodes in order.
#[derive(Debug)]
pub struct ParseNode<R> {
    pub rule: R,
    pub start: usize,
    pub end: usize,
    pub text: String,
    pub children: Vec<ParseNode<R>>,
}

pub open spec fn span_of<R>(n: ParseNode<R>) -> Range<usize> {
    Range { start: n.start, end: n.end }
}

/// The key of an object entry node: the text of the sole inner node of its first child.
pub open spec fn entry_key<R>(e: ParseNode<R>) -> Seq<char> {
    e.children[0].children[0].text@
}

/// The keys of the entries of an object node, in order.
pub open spec fn entry_keys<R>(n: ParseNode<R>) -> Seq<Seq<char>> {
    Seq::new(n.children.len() as nat, |i: int| entry_key(n.children[i]))
}

/// The index of the last occurrence of `k` in `keys`, or -1.
pub open spec fn last_index(keys: Seq<Seq<char>>, k: Seq<char>) -> int
    decreases keys.len(),
{
    if keys.len() == 0 {
        -1
    } else if keys.last() == k {
        keys.len() - 1
    } else {
        last_index(keys.drop_last(), k)
    }
}

/// An object entry node has a key child holding the key, and a value child.
pub open spec fn entry_shaped<R>(e: ParseNode<R>) -> bool {
    e.children.len() >= 2 && e.children[0].children.len() >= 1
}

/// Every node that value construction reaches has the shape it expects:
/// no node classified `Other`, and object entries with a key and a value.
pub open spec fn value_shaped<R: CommonRule>(n: ParseNode<R>) -> bool
    decreases n,
{
    match n.rule.kind() {
        CommonRuleType::Object => forall|i: int|
            0 <= i < n.children.len() ==> entry_shaped(#[trigger] n.children[i])
                && value_shaped(n.children[i].children[1]),
        CommonRuleType::Array => forall|i: int|
            0 <= i < n.children.len() ==> value_shaped(#[trigger] n.children[i]),
        CommonRuleType::Other => false,
        _ => true,
    }
}

/// The boolean a literal denotes: `true` only for the text `true`, `false` otherwise.
pub open spec fn bool_of(text: Seq<char>) -> bool {
    text == seq!['t', 'r', 'u', 'e']
}

/// Some entry has key `k`.
pub open spec fn has_key(entries: Seq<(String, RangedValue)>, k: Seq<char>) -> bool {
    exists|j: int| 0 <= j < entries.len() && entries[j].0@ == k
}

/// The value that the tree builder produces from node `n`.
pub open spec fn builds<R: CommonRule>(n: ParseNode<R>, v: RangedValue) -> bool
    decreases n,
{
    match n.rule.kind() {
        CommonRuleType::Object => match v {
            RangedValue::Object { range, value } => {
                &&& range == span_of(n)
                &&& keys_unique(value@)
                &&& forall|i: int|
                    0 <= i < n.children.len() ==> has_key(value@, entry_key(#[trigger] n.children[i]))
                &&& forall|j: int|
                    #![trigger value@[j]]
                    0 <= j < value@.len() ==> {
                        let li = last_index(entry_keys(n), value@[j].0@);
                        &&& 0 <= li < n.children.len()
                        &&& n.children[li].children.len() >= 2
                        &&& builds(n.children[li].children[1], value@[j].1)
                    }
            },
            _ => false,
        },
        CommonRuleType::Array => match v {
            RangedValue::Array { range, value } => {
                &&& range == span_of(n)
                &&& value@.len() == n.children.len()
                &&& forall|i: int|
                    0 <= i < n.children.len() ==> builds(#[trigger] n.children[i], value@[i])
            },
            _ => false,
        },
        CommonRuleType::String => match v {
            RangedValue::String { range, value } => {
                &&& range == span_of(n)
                &&& value@ == if n.children.len() > 0 {
                    n.children[0].text@
                } else {
                    Seq::empty()
                }
            },
            _ => false,
        },
        CommonRuleType::Number => match v {
            RangedValue::Number { range, value } => range == span_of(n) && value@ == n.text@,
            _ => false,
        },
        CommonRuleType::Boolean => match v {
            RangedValue::Bool { range, value } => range == span_of(n) && value == bool_of(n.text@),
            _ => false,
        },
        CommonRuleType::Null => v is Null,
        CommonRuleType::Other => false,
    }
}

/// Every object within `v` has unique keys.
pub open spec fn value_well_formed(v: RangedValue) -> bool
    decreases v,
{
    match v {
        RangedValue::Object { value, .. } => keys_unique(value@) && forall|j: int|
            0 <= j < value@.len() ==> value_well_formed(#[trigger] value@[j].1),
        RangedValue::Array { value, .. } => forall|j: int|
            0 <= j < value@.len() ==> value_well_formed(#[trigger] value@[j]),
        _ => true,
    }
}

/// A value built from a node is well formed.
pub proof fn lemma_built_well_formed<R: CommonRule>(n: ParseNode<R>, v: RangedValue)
    requires
        builds(n, v),
    ensures
        value_well_formed(v),
    decreases n,
{
    match n.rule.kind() {
        CommonRuleType::Object => {
            if let RangedValue::Object { value, .. } = v {
                assert forall|j: int| 0 <= j < value@.len() implies value_well_formed(
                    #[trigger] value@[j].1,
                ) by {
                    let li = last_index(entry_keys(n), value@[j].0@);
                    lemma_built_well_formed(n.children[li].children[1], value@[j].1);
                }
            }
        },
        CommonRuleType::Array => {
            if let RangedValue::Array { value, .. } = v {
                assert forall|j: int| 0 <= j < value@.len() implies value_well_formed(
                    #[trigger] value@[j],
                ) by {
                    lemma_built_well_formed(n.children[j], value@[j]);
                }
            }
        },
        _ => {},
    }
}

/// Relies on `str::parse::<bool>`: `true` and `false` are the only texts accepted.
#[verifier::external_body]
fn parse_bool(text: &str) -> (r: Option<bool>)
    ensures
        r == (if text@ == seq!['t', 'r', 'u', 'e'] {
            Some(true)
        } else if text@ == seq!['f', 'a', 'l', 's', 'e'] {
            Some(false)
        } else {
            None::<bool>
        }),
{
    text.parse::<bool>().ok()
}

/// The keys of the first `i` entries of an object node.
pub open spec fn keys_upto<R>(n: ParseNode<R>, i: int) -> Seq<Seq<char>> {
    Seq::new(i as nat, |x: int| entry_key(n.children[x]))
}

proof fn lemma_last_index_push(keys: Seq<Seq<char>>, k: Seq<char>, q: Seq<char>)
    ensures
        last_index(keys.push(k), q) == if q == k {
            keys.len() as int
        } else {
            last_index(keys, q)
        },
{
    assert(keys.push(k).drop_last() =~= keys);
}

/// Builds ranged values and headers from the nodes of any grammar that classifies its rules.
pub struct CommonParser;

impl CommonParser {
    /// A header node holds a key node and then a value node; the header's range
    /// spans the whole node.
    pub fn parse_header<R: CommonRule>(pair: &ParseNode<R>) -> (r: Result<
        (String, RangedHeader),
        &'static str,
    >)
        ensures
            r is Ok <==> pair.children.len() >= 2,
            r matches Ok((key, header)) ==> {
                &&& key@ == pair.children[0].text@
                &&& header.range == span_of(*pair)
                &&& header.value@ == pair.children[1].text@
            },
            pair.children.len() == 0 ==> (r matches Err(e) && e@ == "Missing key in header"@),
            pair.children.len() == 1 ==> (r matches Err(e) && e@ == "Missing value in header"@),
    {
        let range = Range { start: pair.start, end: pair.end };
        if pair.children.len() == 0 {
            return Err("Missing key in header");
        }
        if pair.children.len() == 1 {
            return Err("Missing value in header");
        }
        let key = pair.children[0].text.clone();
        let value = pair.children[1].text.clone();
        Ok((key, RangedHeader { range, value }))
    }

    /// Converts a value node into a ranged value by the node's classification: an
    /// object from its entry nodes, a later entry replacing an earlier one with the
    /// same key; an array from its item nodes, in order; a string as the text of its
    /// inner node (empty without one); a number as its literal text; a boolean as
    /// `true` for the text `true` and `false` otherwise. Each carries the node's span;
    /// a null carries none. Nodes classified `Other`, and entries without a key or a
    /// value, are left out by `value_shaped` (see `is_value_shaped`).
    pub fn parse_value<R: CommonRule>(pair: &ParseNode<R>) -> (r: RangedValue)
        requires
            value_shaped(*pair),
        ensures
            builds(*pair, r),
        decreases *pair,
    {
        let range = Range { start: pair.start, end: pair.end };
        match pair.rule.rule_type() {
            CommonRuleType::Object => {
                let mut entries: Vec<(String, RangedValue)> = Vec::new();
                let mut i: usize = 0;
                while i < pair.children.len()
                    invariant
                        pair.rule.kind() == CommonRuleType::Object,
                        value_shaped(*pair),
                        0 <= i <= pair.children.len(),
                        keys_unique(entries@),
                        forall|x: int|
                            0 <= x < i ==> has_key(entries@, entry_key(#[trigger] pair.children[x])),
                        forall|j: int|
                            #![trigger entries@[j]]
                            0 <= j < entries@.len() ==> {
                                let li = last_index(keys_upto(*pair, i as int), entries@[j].0@);
                                &&& 0 <= li < i
                                &&& pair.children[li].children.len() >= 2
                                &&& builds(pair.children[li].children[1], entries@[j].1)
                            },
                    decreases pair.children.len() - i,
                {
                    let ghost old_entries = entries@;
                    let (key, value) = Self::parse_object_entry(&pair.children[i]);
                    proof {
                        assert(keys_upto(*pair, i + 1) =~= keys_upto(*pair, i as int).push(key@));
                        assert forall|q: Seq<char>|
                            last_index(keys_upto(*pair, i + 1), q) == if q == key@ {
                                i as int
                            } else {
                                last_index(keys_upto(*pair, i as int), q)
                            } by {
                            lemma_last_index_push(keys_upto(*pair, i as int), key@, q);
                        }
                    }
                    let mut j: usize = 0;
                    let mut found = false;
                    while j < entries.len() && !found
                        invariant
                            0 <= j <= entries@.len(),
                            entries@ == old_entries,
                            found ==> j < entries@.len() && entries@[j as int].0@ == key@,
                            !found ==> forall|y: int| 0 <= y < j ==> entries@[y].0@ != key@,
                        decreases entries@.len() - j + (if found { 0int } else { 1int }),
                    {
                        if entries[j].0 == key {
                            found = true;
                        } else {
                            j = j + 1;
                        }
                    }
                    if found {
                        entries.set(j, (key, value));
                    } else {
                        entries.push((key, value));
                    }
                    proof {
                        assert forall|x: int|
                            0 <= x < i + 1 implies has_key(
                                entries@,
                                entry_key(#[trigger] pair.children[x]),
                            ) by {
                            if x < i {
                                let y = choose|y: int|
                                    0 <= y < old_entries.len() && old_entries[y].0@ == entry_key(
                                        pair.children[x],
                                    );
                                assert(entries@[y].0@ == old_entries[y].0@);
                            } else {
                                assert(entries@[j as int].0@ == entry_key(pair.children[x]));
                            }
                        }
                    }
                    i = i + 1;
                }
                proof {
                    assert(keys_upto(*pair, i as int) =~= entry_keys(*pair));
                }
                RangedValue::Object { range, value: entries }
            },
            CommonRuleType::Array => {
                let mut items: Vec<RangedValue> = Vec::new();
                let mut i: usize = 0;
                while i < pair.children.len()
                    invariant
                        pair.rule.kind() == CommonRuleType::Array,
                        value_shaped(*pair),
                        0 <= i <= pair.children.len(),
                        items@.len() == i,
                        forall|x: int| 0 <= x < i ==> builds(#[trigger] pair.children[x], items@[x]),
                    decreases pair.children.len() - i,
                {
                    let item = Self::parse_value(&pair.children[i]);
                    items.push(item);
                    i = i + 1;
                }
                RangedValue::Array { range, value: items }
            },
            CommonRuleType::String => {
                let value = if pair.children.len() > 0 {
                    pair.children[0].text.clone()
                } else {
                    String::new()
                };
                RangedValue::String { range, value }
            },
            CommonRuleType::Number => RangedValue::Number { range, value: pair.text.clone() },
            CommonRuleType::Boolean => {
                let value = match parse_bool(pair.text.as_str()) {
                    Some(b) => b,
                    None => false,
                };
                RangedValue::Bool { range, value }
            },
            CommonRuleType::Null => RangedValue::Null,
            CommonRuleType::Other => {
                proof {
                    assert(false);
                }
                RangedValue::Null
            },
        }
    }

    /// An entry node holds a key node (whose sole inner node is the key) and a value node.
    fn parse_object_entry<R: CommonRule>(pair: &ParseNode<R>) -> (r: (String, RangedValue))
        requires
            entry_shaped(*pair),
            value_shaped(pair.children[1]),
        ensures
            r.0@ == entry_key(*pair),
            builds(pair.children[1], r.1),
        decreases *pair,
    {
        let key = pair.children[0].children[0].text.clone();
        let value = Self::parse_value(&pair.children[1]);
        (key, value)
    }
}

/// The index of the last node with rule `rule` whose first inner node has text `k`, or -1.
pub open spec fn last_keyed<R>(pairs: Seq<ParseNode<R>>, rule: R, k: Seq<char>) -> int
    decreases pairs.len(),
{
    if pairs.len() == 0 {
        -1
    } else if pairs.last().rule == rule && pairs.last().children.len() > 0
        && pairs.last().children[0].text@ == k {
        pairs.len() - 1
    } else {
        last_keyed(pairs.drop_last(), rule, k)
    }
}

/// No two headers share a name.
pub open spec fn header_keys_unique(hs: Seq<(String, RangedHeader)>) -> bool {
    forall|i: int, j: int|
        0 <= i < hs.len() && 0 <= j < hs.len() && i != j ==> hs[i].0@ != hs[j].0@
}

/// Some header has name `k`.
pub open spec fn has_header(hs: Seq<(String, RangedHeader)>, k: Seq<char>) -> bool {
    exists|j: int| 0 <= j < hs.len() && hs[j].0@ == k
}

/// `hs` holds one header per name among the nodes of rule `rule`, each built from the
/// last such node with that name.
pub open spec fn headers_built<R>(pairs: Seq<ParseNode<R>>, rule: R, hs: Seq<(String, RangedHeader)>) -> bool {
    &&& header_keys_unique(hs)
    &&& forall|i: int|
        0 <= i < pairs.len() && (#[trigger] pairs[i]).rule == rule ==> has_header(
            hs,
            pairs[i].children[0].text@,
        )
    &&& forall|j: int|
        #![trigger hs[j]]
        0 <= j < hs.len() ==> {
            let li = last_keyed(pairs, rule, hs[j].0@);
            &&& 0 <= li < pairs.len()
            &&& pairs[li].children.len() >= 2
            &&& hs[j].1.range == span_of(pairs[li])
            &&& hs[j].1.value@ == pairs[li].children[1].text@
        }
}

pub proof fn lemma_last_keyed_push<R>(pairs: Seq<ParseNode<R>>, p: ParseNode<R>, rule: R, k: Seq<char>)
    ensures
        last_keyed(pairs.push(p), rule, k) == if p.rule == rule && p.children.len() > 0
            && p.children[0].text@ == k {
            pairs.len() as int
        } else {
            last_keyed(pairs, rule, k)
        },
{
    assert(pairs.push(p).drop_last() =~= pairs);
}

/// Sets the header `key` to `header`: replaces the one of that name, or appends.
pub fn insert_header(hs: &mut Vec<(String, RangedHeader)>, key: String, header: RangedHeader)
    requires
        header_keys_unique(old(hs)@),
    ensures
        header_keys_unique(final(hs)@),
        exists|j: int|
            0 <= j < final(hs)@.len() && final(hs)@[j].0@ == key@ && final(hs)@[j].1 == header,
        forall|j: int|
            0 <= j < old(hs)@.len() && old(hs)@[j].0@ != key@ ==> #[trigger] final(hs)@[j] == old(
                hs,
            )@[j],
        forall|j: int|
            0 <= j < final(hs)@.len() ==> #[trigger] final(hs)@[j].0@ == key@ || (j < old(
                hs,
            )@.len() && final(hs)@[j] == old(hs)@[j]),
        forall|k: Seq<char>| has_header(old(hs)@, k) ==> has_header(final(hs)@, k),
{
    let ghost before = hs@;
    let mut j: usize = 0;
    let mut found = false;
    while j < hs.len() && !found
        invariant
            0 <= j <= hs@.len(),
            hs@ == before,
            found ==> j < hs@.len() && hs@[j as int].0@ == key@,
            !found ==> forall|y: int| 0 <= y < j ==> hs@[y].0@ != key@,
        decreases hs@.len() - j + (if found { 0int } else { 1int }),
    {
        if hs[j].0 == key {
            found = true;
        } else {
            j = j + 1;
        }
    }
    let ghost kv = key@;
    if found {
        hs.set(j, (key, header));
    } else {
        hs.push((key, header));
    }
    assert(hs@[j as int].0@ == kv);
    assert forall|k: Seq<char>| has_header(before, k) implies has_header(hs@, k) by {
        let y = choose|y: int| 0 <= y < before.len() && before[y].0@ == k;
        assert(hs@[y].0@ == k);
    }
}

/// Whether every node that value construction would reach has the shape it expects.
pub fn is_value_shaped<R: CommonRule>(n: &ParseNode<R>) -> (r: bool)
    ensures
        r == value_shaped(*n),
    decreases *n,
{
    match n.rule.rule_type() {
        CommonRuleType::Object => {
            let mut i: usize = 0;
            while i < n.children.len()
                invariant
                    n.rule.kind() == CommonRuleType::Object,
                    0 <= i <= n.children.len(),
                    forall|x: int|
                        0 <= x < i ==> entry_shaped(#[trigger] n.children[x])
                            && value_shaped(n.children[x].children[1]),
                decreases n.children.len() - i,
            {
                let e = &n.children[i];
                if e.children.len() < 2 || e.children[0].children.len() < 1 {
                    return false;
                }
                if !is_value_shaped(&e.children[1]) {
                    return false;
                }
                i = i + 1;
            }
            true
        },
        CommonRuleType::Array => {
            let mut i: usize = 0;
            while i < n.children.len()
                invariant
                    n.rule.kind() == CommonRuleType::Array,
                    0 <= i <= n.children.len(),
                    forall|x: int| 0 <= x < i ==> value_shaped(#[trigger] n.children[x]),
                decreases n.children.len() - i,
            {
                if !is_value_shaped(&n.children[i]) {
                    return false;
                }
                i = i + 1;
            }
            true
        },
        CommonRuleType::Other => false,
        _ => true,
    }
}

/// The empty object that stands for a message without a body.
pub open spec fn is_empty_object(v: RangedValue) -> bool {
    v matches RangedValue::Object { range, value } && range.start == 0 && range.end == 0
        && value@.len() == 0
}

pub proof fn lemma_headers_skip<R>(
    prev: Seq<ParseNode<R>>,
    p: ParseNode<R>,
    rule: R,
    hs: Seq<(String, RangedHeader)>,
)
    requires
        p.rule != rule,
        headers_built(prev, rule, hs),
    ensures
        headers_built(prev.push(p), rule, hs),
{
    let next = prev.push(p);
    assert forall|k: Seq<char>| last_keyed(next, rule, k) == last_keyed(prev, rule, k) by {
        lemma_last_keyed_push(prev, p, rule, k);
    }
    assert forall|i: int|
        0 <= i < next.len() && (#[trigger] next[i]).rule == rule implies has_header(
        hs,
        next[i].children[0].text@,
    ) by {
        assert(i < prev.len());
        assert(next[i] == prev[i]);
    }
    assert forall|j: int| 0 <= j < hs.len() implies {
        let li = last_keyed(next, rule, #[trigger] hs[j].0@);
        &&& 0 <= li < next.len()
        &&& next[li].children.len() >= 2
        &&& hs[j].1.range == span_of(next[li])
        &&& hs[j].1.value@ == next[li].children[1].text@
    } by {
        let li = last_keyed(prev, rule, hs[j].0@);
        assert(next[li] == prev[li]);
    }
}

pub proof fn lemma_headers_step<R>(
    prev: Seq<ParseNode<R>>,
    p: ParseNode<R>,
    rule: R,
    k: Seq<char>,
    h: RangedHeader,
    old_hs: Seq<(String, RangedHeader)>,
    hs: Seq<(String, RangedHeader)>,
)
    requires
        p.rule == rule,
        p.children.len() >= 2,
        k == p.children[0].text@,
        h.range == span_of(p),
        h.value@ == p.children[1].text@,
        headers_built(prev, rule, old_hs),
        header_keys_unique(hs),
        exists|j: int| 0 <= j < hs.len() && hs[j].0@ == k && hs[j].1 == h,
        forall|j: int|
            0 <= j < hs.len() ==> #[trigger] hs[j].0@ == k || (j < old_hs.len() && hs[j]
                == old_hs[j]),
        forall|q: Seq<char>| has_header(old_hs, q) ==> has_header(hs, q),
    ensures
        headers_built(prev.push(p), rule, hs),
{
    let next = prev.push(p);
    assert forall|q: Seq<char>|
        last_keyed(next, rule, q) == if q == k {
            prev.len() as int
        } else {
            last_keyed(prev, rule, q)
        } by {
        lemma_last_keyed_push(prev, p, rule, q);
    }
    assert forall|i: int|
        0 <= i < next.len() && (#[trigger] next[i]).rule == rule implies has_header(
        hs,
        next[i].children[0].text@,
    ) by {
        if i < prev.len() {
            assert(next[i] == prev[i]);
        } else {
            let j0 = choose|j: int| 0 <= j < hs.len() && hs[j].0@ == k && hs[j].1 == h;
            assert(hs[j0].0@ == next[i].children[0].text@);
        }
    }
    assert forall|j: int| 0 <= j < hs.len() implies {
        let li = last_keyed(next, rule, #[trigger] hs[j].0@);
        &&& 0 <= li < next.len()
        &&& next[li].children.len() >= 2
        &&& hs[j].1.range == span_of(next[li])
        &&& hs[j].1.value@ == next[li].children[1].text@
    } by {
        if hs[j].0@ == k {
            let j0 = choose|j: int| 0 <= j < hs.len() && hs[j].0@ == k && hs[j].1 == h;
            assert(j == j0);
        } else {
            assert(hs[j] == old_hs[j]);
            let li = last_keyed(prev, rule, old_hs[j].0@);
            assert(next[li] == prev[li]);
        }
    }
}

} // verus!
