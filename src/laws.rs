use crate::ast::{
    builds, entry_keys, last_index, range_of, span_of, value_shaped, CommonRule, CommonRuleType,
    ParseNode, RangedValue,
};
use crate::search::{
    entries_ranges, entry_range, extension_fits, items_ranges, join_path, key_len, requested,
    value_ranges,
};
use std::ops::Range;
use vstd::prelude::*;
use vstd::utf8::encode_utf8;

verus! {

broadcast use vstd::std_specs::vec::group_vec_axioms, vstd::seq::group_seq_axioms;

/// Each node's span lies within its parent's, as a parser's spans do.
pub open spec fn spans_nested<R>(n: ParseNode<R>) -> bool
    decreases n,
{
    &&& n.start <= n.end
    &&& forall|i: int|
        0 <= i < n.children.len() ==> n.start <= (#[trigger] n.children[i]).start
            && n.children[i].end <= n.end && spans_nested(n.children[i])
}

pub open spec fn within(inner: Range<usize>, outer: Range<usize>) -> bool {
    outer.start <= inner.start && inner.end <= outer.end
}

/// Every non-null child of every array or object lies within its parent's range.
pub open spec fn contained(v: RangedValue) -> bool
    decreases v,
{
    match v {
        RangedValue::Object { range, value } => forall|j: int|
            #![trigger value@[j]]
            0 <= j < value@.len() ==> (!(value@[j].1 is Null) ==> within(
                range_of(value@[j].1),
                range,
            )) && contained(value@[j].1),
        RangedValue::Array { range, value } => forall|j: int|
            0 <= j < value@.len() ==> (!(#[trigger] value@[j] is Null) ==> within(
                range_of(value@[j]),
                range,
            )) && contained(value@[j]),
        _ => true,
    }
}

proof fn lemma_built_range<R: CommonRule>(n: ParseNode<R>, v: RangedValue)
    requires
        builds(n, v),
        !(v is Null),
    ensures
        range_of(v) == span_of(n),
{
}

/// Containment: in a value built from a parse whose spans nest, every non-null child
/// value's range lies within its parent's range.
pub proof fn lemma_containment<R: CommonRule>(n: ParseNode<R>, v: RangedValue)
    requires
        value_shaped(n),
        spans_nested(n),
        builds(n, v),
    ensures
        contained(v),
    decreases n,
{
    match n.rule.kind() {
        CommonRuleType::Object => {
            if let RangedValue::Object { range, value } = v {
                assert forall|j: int| #![trigger value@[j]] 0 <= j < value@.len() implies (!(
                value@[j].1 is Null) ==> within(range_of(value@[j].1), range)) && contained(
                    value@[j].1,
                ) by {
                    let li = last_index(entry_keys(n), value@[j].0@);
                    let e = n.children[li];
                    let c = e.children[1];
                    assert(spans_nested(e));
                    assert(spans_nested(c));
                    if !(value@[j].1 is Null) {
                        lemma_built_range(c, value@[j].1);
                    }
                    assert(value_shaped(c));
                    lemma_containment(c, value@[j].1);
                }
            }
        },
        CommonRuleType::Array => {
            if let RangedValue::Array { range, value } = v {
                assert forall|j: int| 0 <= j < value@.len() implies (!(#[trigger] value@[j] is Null)
                    ==> within(range_of(value@[j]), range)) && contained(value@[j]) by {
                    let c = n.children[j];
                    if !(value@[j] is Null) {
                        lemma_built_range(c, value@[j]);
                    }
                    lemma_containment(c, value@[j]);
                }
            }
        },
        _ => {},
    }
}

/// The entries whose dotted key path is requested, in search order: for each, its
/// dotted path, its key and its value. Items of an array share the array's path.
pub open spec fn matched_entries(kp: Seq<&str>, v: RangedValue, path: Seq<Seq<char>>) -> Seq<
    (Seq<char>, Seq<char>, RangedValue),
>
    decreases v,
{
    match v {
        RangedValue::Object { value, .. } => matched_in_entries(kp, value@, path),
        RangedValue::Array { value, .. } => matched_in_items(kp, value@, path),
        _ => Seq::empty(),
    }
}

pub open spec fn matched_in_entries(
    kp: Seq<&str>,
    es: Seq<(String, RangedValue)>,
    path: Seq<Seq<char>>,
) -> Seq<(Seq<char>, Seq<char>, RangedValue)>
    decreases es,
{
    if es.len() == 0 {
        Seq::empty()
    } else {
        let (key, child) = es.last();
        let p = path.push(key@);
        let own = if requested(kp, join_path(p)) {
            seq![(join_path(p), key@, child)]
        } else {
            Seq::empty()
        };
        matched_in_entries(kp, es.drop_last(), path) + own + matched_entries(kp, child, p)
    }
}

pub open spec fn matched_in_items(kp: Seq<&str>, items: Seq<RangedValue>, path: Seq<Seq<char>>) -> Seq<
    (Seq<char>, Seq<char>, RangedValue),
>
    decreases items,
{
    if items.len() == 0 {
        Seq::empty()
    } else {
        matched_in_items(kp, items.drop_last(), path) + matched_entries(kp, items.last(), path)
    }
}

pub open spec fn ranges_of_matches(m: Seq<(Seq<char>, Seq<char>, RangedValue)>) -> Seq<Range<usize>> {
    m.map_values(|e: (Seq<char>, Seq<char>, RangedValue)| entry_range(e.1, e.2))
}

proof fn lemma_ranges_of_matches_concat(
    a: Seq<(Seq<char>, Seq<char>, RangedValue)>,
    b: Seq<(Seq<char>, Seq<char>, RangedValue)>,
)
    ensures
        ranges_of_matches(a + b) == ranges_of_matches(a) + ranges_of_matches(b),
{
    assert(ranges_of_matches(a + b) =~= ranges_of_matches(a) + ranges_of_matches(b));
}

/// No over-disclosure: the search yields one range per entry whose dotted key path is
/// requested (an array repeating such an entry once per item), that entry's whole
/// `"key":value` range, and no other range.
pub proof fn lemma_no_over_disclosure(kp: Seq<&str>, v: RangedValue, path: Seq<Seq<char>>)
    ensures
        value_ranges(kp, v, path) == ranges_of_matches(matched_entries(kp, v, path)),
        value_ranges(kp, v, path).len() == matched_entries(kp, v, path).len(),
        forall|i: int|
            0 <= i < matched_entries(kp, v, path).len() ==> requested(
                kp,
                (#[trigger] matched_entries(kp, v, path)[i]).0,
            ),
    decreases v,
{
    match v {
        RangedValue::Object { value, .. } => {
            lemma_entries_disclosure(kp, value@, path);
        },
        RangedValue::Array { value, .. } => {
            lemma_items_disclosure(kp, value@, path);
        },
        _ => {
            assert(ranges_of_matches(Seq::empty()) =~= Seq::<Range<usize>>::empty());
        },
    }
}

proof fn lemma_entries_disclosure(kp: Seq<&str>, es: Seq<(String, RangedValue)>, path: Seq<Seq<char>>)
    ensures
        entries_ranges(kp, es, path) == ranges_of_matches(matched_in_entries(kp, es, path)),
        forall|i: int|
            0 <= i < matched_in_entries(kp, es, path).len() ==> requested(
                kp,
                (#[trigger] matched_in_entries(kp, es, path)[i]).0,
            ),
    decreases es,
{
    if es.len() == 0 {
        assert(ranges_of_matches(Seq::empty()) =~= Seq::<Range<usize>>::empty());
    } else {
        let (key, child) = es.last();
        let p = path.push(key@);
        let own = if requested(kp, join_path(p)) {
            seq![(join_path(p), key@, child)]
        } else {
            Seq::<(Seq<char>, Seq<char>, RangedValue)>::empty()
        };
        lemma_entries_disclosure(kp, es.drop_last(), path);
        lemma_no_over_disclosure(kp, child, p);
        let front = matched_in_entries(kp, es.drop_last(), path);
        let inner = matched_entries(kp, child, p);
        lemma_ranges_of_matches_concat(front + own, inner);
        lemma_ranges_of_matches_concat(front, own);
        assert(ranges_of_matches(own) =~= if requested(kp, join_path(p)) {
            seq![entry_range(key@, child)]
        } else {
            Seq::<Range<usize>>::empty()
        });
        let all = front + own + inner;
        assert forall|i: int| 0 <= i < all.len() implies requested(kp, (#[trigger] all[i]).0) by {
            if i < front.len() {
                assert(all[i] == front[i]);
            } else if i < front.len() + own.len() {
                assert(all[i] == own[i - front.len()]);
            } else {
                assert(all[i] == inner[i - front.len() - own.len()]);
            }
        }
    }
}

proof fn lemma_items_disclosure(kp: Seq<&str>, items: Seq<RangedValue>, path: Seq<Seq<char>>)
    ensures
        items_ranges(kp, items, path) == ranges_of_matches(matched_in_items(kp, items, path)),
        forall|i: int|
            0 <= i < matched_in_items(kp, items, path).len() ==> requested(
                kp,
                (#[trigger] matched_in_items(kp, items, path)[i]).0,
            ),
    decreases items,
{
    if items.len() == 0 {
        assert(ranges_of_matches(Seq::empty()) =~= Seq::<Range<usize>>::empty());
    } else {
        lemma_items_disclosure(kp, items.drop_last(), path);
        lemma_no_over_disclosure(kp, items.last(), path);
        let front = matched_in_items(kp, items.drop_last(), path);
        let inner = matched_entries(kp, items.last(), path);
        lemma_ranges_of_matches_concat(front, inner);
        let all = front + inner;
        assert forall|i: int| 0 <= i < all.len() implies requested(kp, (#[trigger] all[i]).0) by {
            if i < front.len() {
                assert(all[i] == front[i]);
            } else {
                assert(all[i] == inner[i - front.len()]);
            }
        }
    }
}

/// Some entry within `v`, reached by `path`, has the dotted key path `q`.
pub open spec fn path_occurs(q: Seq<char>, v: RangedValue, path: Seq<Seq<char>>) -> bool
    decreases v,
{
    match v {
        RangedValue::Object { value, .. } => exists|j: int|
            #![trigger value@[j]]
            0 <= j < value@.len() && (join_path(path.push(value@[j].0@)) == q || path_occurs(
                q,
                value@[j].1,
                path.push(value@[j].0@),
            )),
        RangedValue::Array { value, .. } => exists|j: int|
            0 <= j < value@.len() && path_occurs(q, #[trigger] value@[j], path),
        _ => false,
    }
}

proof fn lemma_requested_push(kp: Seq<&str>, q: &str, s: Seq<char>)
    ensures
        requested(kp.push(q), s) == (requested(kp, s) || s == q@),
{
    if requested(kp, s) {
        let i = choose|i: int| 0 <= i < kp.len() && kp[i]@ == s;
        assert(kp.push(q)[i] == kp[i]);
    }
    if s == q@ {
        assert(kp.push(q)[kp.len() as int] == q);
    }
    if requested(kp.push(q), s) {
        let i = choose|i: int| 0 <= i < kp.len() + 1 && kp.push(q)[i]@ == s;
        if i < kp.len() {
            assert(kp[i]@ == s);
        }
    }
}

/// Boundary: requesting a key path that no entry has adds no range, and makes the
/// search demand nothing more of the value.
pub proof fn lemma_absent_keypath(kp: Seq<&str>, q: &str, v: RangedValue, path: Seq<Seq<char>>)
    requires
        !path_occurs(q@, v, path),
    ensures
        value_ranges(kp.push(q), v, path) == value_ranges(kp, v, path),
        extension_fits(kp.push(q), v, path) == extension_fits(kp, v, path),
    decreases v,
{
    match v {
        RangedValue::Object { value, .. } => {
            lemma_absent_in_entries(kp, q, value@, path);
            assert forall|j: int| #![trigger value@[j]] 0 <= j < value@.len() implies {
                let p = path.push(value@[j].0@);
                &&& requested(kp.push(q), join_path(p)) == requested(kp, join_path(p))
                &&& extension_fits(kp.push(q), value@[j].1, p) == extension_fits(kp, value@[j].1, p)
            } by {
                let p = path.push(value@[j].0@);
                lemma_requested_push(kp, q, join_path(p));
                lemma_absent_keypath(kp, q, value@[j].1, p);
            }
        },
        RangedValue::Array { value, .. } => {
            lemma_absent_in_items(kp, q, value@, path);
            assert forall|j: int| 0 <= j < value@.len() implies extension_fits(
                kp.push(q),
                #[trigger] value@[j],
                path,
            ) == extension_fits(kp, value@[j], path) by {
                lemma_absent_keypath(kp, q, value@[j], path);
            }
        },
        _ => {},
    }
}

proof fn lemma_absent_in_entries(
    kp: Seq<&str>,
    q: &str,
    es: Seq<(String, RangedValue)>,
    path: Seq<Seq<char>>,
)
    requires
        forall|j: int|
            #![trigger es[j]]
            0 <= j < es.len() ==> join_path(path.push(es[j].0@)) != q@ && !path_occurs(
                q@,
                es[j].1,
                path.push(es[j].0@),
            ),
    ensures
        entries_ranges(kp.push(q), es, path) == entries_ranges(kp, es, path),
    decreases es,
{
    if es.len() > 0 {
        let (key, child) = es.last();
        let p = path.push(key@);
        assert(es[es.len() - 1] == es.last());
        assert forall|j: int| #![trigger es.drop_last()[j]] 0 <= j < es.drop_last().len() implies join_path(
            path.push(es.drop_last()[j].0@),
        ) != q@ && !path_occurs(q@, es.drop_last()[j].1, path.push(es.drop_last()[j].0@)) by {
            assert(es.drop_last()[j] == es[j]);
        }
        lemma_absent_in_entries(kp, q, es.drop_last(), path);
        lemma_requested_push(kp, q, join_path(p));
        lemma_absent_keypath(kp, q, child, p);
    }
}

proof fn lemma_absent_in_items(kp: Seq<&str>, q: &str, items: Seq<RangedValue>, path: Seq<Seq<char>>)
    requires
        forall|j: int| 0 <= j < items.len() ==> !path_occurs(q@, #[trigger] items[j], path),
    ensures
        items_ranges(kp.push(q), items, path) == items_ranges(kp, items, path),
    decreases items,
{
    if items.len() > 0 {
        assert(items[items.len() - 1] == items.last());
        assert forall|j: int| 0 <= j < items.drop_last().len() implies !path_occurs(
            q@,
            #[trigger] items.drop_last()[j],
            path,
        ) by {
            assert(items.drop_last()[j] == items[j]);
        }
        lemma_absent_in_items(kp, q, items.drop_last(), path);
        lemma_absent_keypath(kp, q, items.last(), path);
    }
}

/// The text of node `n` is the slice of source `src` that its span covers.
pub open spec fn text_faithful<R>(n: ParseNode<R>, src: Seq<u8>) -> bool {
    n.start <= n.end <= src.len() && encode_utf8(n.text@) == src.subrange(n.start as int, n.end as int)
}

/// The bytes `"key":` that render an entry's key before its value.
pub open spec fn key_rendering(key: Seq<char>) -> Seq<u8> {
    seq![34u8] + encode_utf8(key) + seq![34u8, 58u8]
}

/// The key's rendering stands directly before the value node `c` in `src`.
pub open spec fn key_rendered_before<R>(src: Seq<u8>, key: Seq<char>, c: ParseNode<R>) -> bool {
    c.start >= key_len(key) + 3 && src.subrange(c.start - key_len(key) - 3, c.start as int)
        == key_rendering(key)
}

/// The range disclosed for an entry whose value `v` was built from node `c` slices out
/// of the source exactly the key's rendering `"key":` followed by the value's own text,
/// where the source renders the key directly before the value.
pub proof fn lemma_entry_range_slice<R: CommonRule>(
    src: Seq<u8>,
    key: Seq<char>,
    c: ParseNode<R>,
    v: RangedValue,
)
    requires
        builds(c, v),
        !(v is Null),
        text_faithful(c, src),
        key_rendered_before(src, key, c),
    ensures
        src.subrange(entry_range(key, v).start as int, entry_range(key, v).end as int)
            == key_rendering(key) + encode_utf8(c.text@),
{
    lemma_built_range(c, v);
    let s = c.start - key_len(key) - 3;
    assert(entry_range(key, v).start == s);
    assert(src.subrange(s, c.end as int) =~= src.subrange(s, c.start as int) + src.subrange(
        c.start as int,
        c.end as int,
    ));
}

} // verus!
