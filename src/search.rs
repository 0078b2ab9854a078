use crate::ast::{range_of, RangedHeader, RangedValue};
use std::ops::Range;
use vstd::prelude::*;
use vstd::utf8::encode_utf8;

verus! {

broadcast use vstd::std_specs::vec::group_vec_axioms, vstd::seq::group_seq_axioms;

/// Some requested name equals `s`.
pub open spec fn requested(names: Seq<&str>, s: Seq<char>) -> bool {
    exists|i: int| 0 <= i < names.len() && names[i]@ == s
}

/// The dotted notation of a key path: its keys joined with `.`.
pub open spec fn join_path(path: Seq<Seq<char>>) -> Seq<char>
    decreases path.len(),
{
    if path.len() == 0 {
        Seq::empty()
    } else if path.len() == 1 {
        path[0]
    } else {
        join_path(path.drop_last()) + seq!['.'] + path.last()
    }
}

/// The length in bytes of a key.
pub open spec fn key_len(key: Seq<char>) -> int {
    encode_utf8(key).len() as int
}

/// The range of a whole `"key":value` entry, recovered from the value's range:
/// a quote, the key, a quote and a colon stand directly before the value.
pub open spec fn entry_range(key: Seq<char>, v: RangedValue) -> Range<usize> {
    Range { start: (range_of(v).start - key_len(key) - 3) as usize, end: range_of(v).end }
}

/// The ranges that the search over value `v`, reached by key path `path`, contributes.
pub open spec fn value_ranges(kp: Seq<&str>, v: RangedValue, path: Seq<Seq<char>>) -> Seq<
    Range<usize>,
>
    decreases v,
{
    match v {
        RangedValue::Object { value, .. } => entries_ranges(kp, value@, path),
        RangedValue::Array { value, .. } => items_ranges(kp, value@, path),
        _ => Seq::empty(),
    }
}

/// The ranges contributed by object entries, in order.
pub open spec fn entries_ranges(
    kp: Seq<&str>,
    es: Seq<(String, RangedValue)>,
    path: Seq<Seq<char>>,
) -> Seq<Range<usize>>
    decreases es,
{
    if es.len() == 0 {
        Seq::empty()
    } else {
        let (key, child) = es.last();
        let p = path.push(key@);
        let own = if requested(kp, join_path(p)) {
            seq![entry_range(key@, child)]
        } else {
            Seq::empty()
        };
        entries_ranges(kp, es.drop_last(), path) + own + value_ranges(kp, child, p)
    }
}

/// The ranges contributed by array items, which share the array's key path.
pub open spec fn items_ranges(kp: Seq<&str>, items: Seq<RangedValue>, path: Seq<Seq<char>>) -> Seq<
    Range<usize>,
>
    decreases items,
{
    if items.len() == 0 {
        Seq::empty()
    } else {
        items_ranges(kp, items.drop_last(), path) + value_ranges(kp, items.last(), path)
    }
}

/// Every entry matched by a requested key path has room before its value for the
/// key's rendering, so the whole entry's range can be recovered from the value's.
pub open spec fn extension_fits(kp: Seq<&str>, v: RangedValue, path: Seq<Seq<char>>) -> bool
    decreases v,
{
    match v {
        RangedValue::Object { value, .. } => forall|j: int|
            #![trigger value@[j]]
            0 <= j < value@.len() ==> {
                let p = path.push(value@[j].0@);
                &&& requested(kp, join_path(p)) ==> range_of(value@[j].1).start >= key_len(
                    value@[j].0@,
                ) + 3
                &&& extension_fits(kp, value@[j].1, p)
            },
        RangedValue::Array { value, .. } => forall|j: int|
            0 <= j < value@.len() ==> extension_fits(kp, #[trigger] value@[j], path),
        _ => true,
    }
}

/// The ranges of the requested headers, in order.
pub open spec fn header_ranges(hs: Seq<(String, RangedHeader)>, names: Seq<&str>) -> Seq<
    Range<usize>,
>
    decreases hs.len(),
{
    if hs.len() == 0 {
        Seq::empty()
    } else {
        header_ranges(hs.drop_last(), names) + if requested(names, hs.last().0@) {
            seq![hs.last().1.range]
        } else {
            Seq::empty()
        }
    }
}

/// The keys of a path as character sequences.
pub open spec fn segments(path: Seq<String>) -> Seq<Seq<char>> {
    path.map_values(|s: String| s@)
}

/// The ranges that a search over an optional body contributes.
pub open spec fn content_ranges(kp: Seq<&str>, content: Option<RangedValue>) -> Seq<Range<usize>> {
    match content {
        Some(v) => value_ranges(kp, v, Seq::empty()),
        None => Seq::empty(),
    }
}

/// The optional body meets `extension_fits` from the root.
pub open spec fn content_fits(kp: Seq<&str>, content: Option<RangedValue>) -> bool {
    match content {
        Some(v) => extension_fits(kp, v, Seq::empty()),
        None => true,
    }
}

/// The length of a key in bytes.
fn byte_len(key: &String) -> (r: usize)
    ensures
        r == key_len(key@),
{
    key.as_str().as_bytes().len()
}

fn extend_path(path: &Vec<String>, key: &String) -> (r: Vec<String>)
    ensures
        segments(r@) == segments(path@).push(key@),
{
    let mut r: Vec<String> = Vec::new();
    let mut i: usize = 0;
    while i < path.len()
        invariant
            0 <= i <= path@.len(),
            r@.len() == i,
            forall|x: int| 0 <= x < i ==> (#[trigger] r@[x])@ == path@[x]@,
        decreases path@.len() - i,
    {
        r.push(path[i].clone());
        i = i + 1;
    }
    r.push(key.clone());
    assert(segments(r@) =~= segments(path@).push(key@));
    r
}

fn join_keys(path: &Vec<String>) -> (r: String)
    ensures
        r@ == join_path(segments(path@)),
{
    if path.len() == 0 {
        return String::new();
    }
    let mut r = path[0].clone();
    let dot = ".";
    proof {
        reveal_strlit(".");
        assert(segments(path@.subrange(0, 1)) =~= seq![path@[0]@]);
    }
    let mut i: usize = 1;
    while i < path.len()
        invariant
            1 <= i <= path@.len(),
            dot@ == seq!['.'],
            r@ == join_path(segments(path@.subrange(0, i as int))),
        decreases path@.len() - i,
    {
        r.append(dot);
        r.append(path[i].as_str());
        proof {
            let s = segments(path@.subrange(0, i + 1));
            assert(s.drop_last() =~= segments(path@.subrange(0, i as int)));
            assert(s.last() == path@[i as int]@);
        }
        i = i + 1;
    }
    assert(path@.subrange(0, i as int) =~= path@);
    r
}

fn is_requested(names: &[&str], s: &String) -> (r: bool)
    ensures
        r == requested(names@, s@),
{
    let mut i: usize = 0;
    while i < names.len()
        invariant
            0 <= i <= names@.len(),
            forall|x: int| 0 <= x < i ==> names@[x]@ != s@,
        decreases names@.len() - i,
    {
        let name = String::from_str(names[i]);
        if name == *s {
            return true;
        }
        i = i + 1;
    }
    false
}

/// What a search of message `s` yields (see `Searchable::get_all_ranges_for_keypaths`):
/// its additional ranges, then those of the requested headers, then those of the
/// body's requested entries.
pub open spec fn all_ranges<S: Searchable>(s: S, kp: Seq<&str>, names: Seq<&str>) -> Seq<Range<usize>> {
    s.extra_ranges() + header_ranges(s.header_entries(), names) + content_ranges(kp, s.content_value())
}

/// Idempotence: searching one message twice with the same key paths and header
/// names yields the same ranges.
pub proof fn lemma_search_idempotent<S: Searchable>(
    s: S,
    kp: Seq<&str>,
    names: Seq<&str>,
    first: Seq<Range<usize>>,
    second: Seq<Range<usize>>,
)
    requires
        first == all_ranges(s, kp, names),
        second == all_ranges(s, kp, names),
    ensures
        first == second,
{
}

/// A parsed message whose headers and body can be searched for byte ranges.
pub trait Searchable {
    spec fn header_entries(&self) -> Seq<(String, RangedHeader)>;

    spec fn content_value(&self) -> Option<RangedValue>;

    spec fn extra_ranges(&self) -> Seq<Range<usize>>;

    fn get_headers(&self) -> (r: &Vec<(String, RangedHeader)>)
        ensures
            r@ == self.header_entries(),
    ;

    fn get_content(&self) -> (r: Option<&RangedValue>)
        ensures
            match r {
                Some(c) => self.content_value() == Some(*c),
                None => self.content_value() is None,
            },
    ;

    /// Ranges included whatever is requested.
    fn get_additional_ranges(&self) -> (r: Vec<Range<usize>>)
        ensures
            r@ == self.extra_ranges(),
    ;

    /// The ranges to disclose for the requested key paths and header names: first
    /// the additional ranges, then those of the requested headers, then those of the
    /// body's entries whose dotted key path is requested, each covering its whole
    /// `"key":value` text.
    fn get_all_ranges_for_keypaths(&self, keypaths: &[&str], headers: &[&str]) -> (r: Vec<
        Range<usize>,
    >)
        requires
            content_fits(keypaths@, self.content_value()),
        ensures
            r@ == self.extra_ranges() + header_ranges(self.header_entries(), headers@)
                + content_ranges(keypaths@, self.content_value()),
    {
        let mut ranges = self.get_additional_ranges();
        let hs = self.get_headers();
        let mut i: usize = 0;
        while i < hs.len()
            invariant
                0 <= i <= hs@.len(),
                hs@ == self.header_entries(),
                ranges@ == self.extra_ranges() + header_ranges(hs@.subrange(0, i as int), headers@),
            decreases hs@.len() - i,
        {
            let (key, header) = &hs[i];
            if is_requested(headers, key) {
                ranges.push(Range { start: header.range.start, end: header.range.end });
            }
            proof {
                assert(hs@.subrange(0, i + 1).drop_last() =~= hs@.subrange(0, i as int));
            }
            i = i + 1;
        }
        assert(hs@.subrange(0, i as int) =~= hs@);
        match self.get_content() {
            Some(content) => {
                let root: Vec<String> = Vec::new();
                assert(segments(root@) =~= Seq::<Seq<char>>::empty());
                Self::search_content_by_path(keypaths, content, root, &mut ranges);
            },
            None => {
                assert(ranges@ =~= ranges@ + Seq::<Range<usize>>::empty());
            },
        }
        ranges
    }

    /// Appends the ranges of `content`, reached by the keys of `current_path`.
    fn search_content_by_path(
        keypaths: &[&str],
        content: &RangedValue,
        current_path: Vec<String>,
        ranges: &mut Vec<Range<usize>>,
    )
        requires
            extension_fits(keypaths@, *content, segments(current_path@)),
        ensures
            final(ranges)@ == old(ranges)@ + value_ranges(
                keypaths@,
                *content,
                segments(current_path@),
            ),
    {
        collect_value_ranges(keypaths, content, current_path, ranges);
    }
}

/// Appends the ranges of `content`, reached by the keys of `current_path`.
pub fn collect_value_ranges(
    keypaths: &[&str],
    content: &RangedValue,
    current_path: Vec<String>,
    ranges: &mut Vec<Range<usize>>,
)
    requires
        extension_fits(keypaths@, *content, segments(current_path@)),
    ensures
        final(ranges)@ == old(ranges)@ + value_ranges(
            keypaths@,
            *content,
            segments(current_path@),
        ),
    decreases *content,
{
    let ghost path = segments(current_path@);
    match content {
        RangedValue::Object { value, .. } => {
            let mut j: usize = 0;
            while j < value.len()
                invariant
                    0 <= j <= value@.len(),
                    path == segments(current_path@),
                    extension_fits(keypaths@, *content, path),
                    *content matches RangedValue::Object { value: v, .. } && v == *value,
                    ranges@ == old(ranges)@ + entries_ranges(
                        keypaths@,
                        value@.subrange(0, j as int),
                        path,
                    ),
                decreases value@.len() - j,
            {
                let (key, val) = &value[j];
                let new_path = extend_path(&current_path, key);
                let path_str = join_keys(&new_path);
                if is_requested(keypaths, &path_str) {
                    let r = val.get_range();
                    ranges.push(Range { start: r.start - byte_len(key) - 3, end: r.end });
                }
                collect_value_ranges(keypaths, val, new_path, ranges);
                proof {
                    let es = value@.subrange(0, j + 1);
                    assert(es.drop_last() =~= value@.subrange(0, j as int));
                    assert(es.last() == value@[j as int]);
                }
                j = j + 1;
            }
            assert(value@.subrange(0, j as int) =~= value@);
        },
        RangedValue::Array { value, .. } => {
            let mut j: usize = 0;
            while j < value.len()
                invariant
                    0 <= j <= value@.len(),
                    path == segments(current_path@),
                    extension_fits(keypaths@, *content, path),
                    *content matches RangedValue::Array { value: v, .. } && v == *value,
                    ranges@ == old(ranges)@ + items_ranges(
                        keypaths@,
                        value@.subrange(0, j as int),
                        path,
                    ),
                decreases value@.len() - j,
            {
                let item = &value[j];
                let copy = extend_path_none(&current_path);
                collect_value_ranges(keypaths, item, copy, ranges);
                proof {
                    let es = value@.subrange(0, j + 1);
                    assert(es.drop_last() =~= value@.subrange(0, j as int));
                }
                j = j + 1;
            }
            assert(value@.subrange(0, j as int) =~= value@);
        },
        _ => {
            assert(ranges@ =~= old(ranges)@ + Seq::<Range<usize>>::empty());
        },
    }
}

fn extend_path_none(path: &Vec<String>) -> (r: Vec<String>)
    ensures
        segments(r@) == segments(path@),
{
    let mut r: Vec<String> = Vec::new();
    let mut i: usize = 0;
    while i < path.len()
        invariant
            0 <= i <= path@.len(),
            r@.len() == i,
            forall|x: int| 0 <= x < i ==> (#[trigger] r@[x])@ == path@[x]@,
        decreases path@.len() - i,
    {
        r.push(path[i].clone());
        i = i + 1;
    }
    assert(segments(r@) =~= segments(path@));
    r
}

/// Whether every entry matched by a requested key path leaves room before its value
/// for the key's rendering (see `extension_fits`).
pub fn keypath_ranges_fit(keypaths: &[&str], content: &RangedValue, current_path: Vec<String>) -> (r:
    bool)
    ensures
        r == extension_fits(keypaths@, *content, segments(current_path@)),
    decreases *content,
{
    let ghost path = segments(current_path@);
    match content {
        RangedValue::Object { value, .. } => {
            let mut j: usize = 0;
            while j < value.len()
                invariant
                    0 <= j <= value@.len(),
                    path == segments(current_path@),
                    *content matches RangedValue::Object { value: v, .. } && v == *value,
                    forall|x: int|
                        #![trigger value@[x]]
                        0 <= x < j ==> {
                            let p = path.push(value@[x].0@);
                            &&& requested(keypaths@, join_path(p)) ==> range_of(value@[x].1).start
                                >= key_len(value@[x].0@) + 3
                            &&& extension_fits(keypaths@, value@[x].1, p)
                        },
                decreases value@.len() - j,
            {
                let (key, val) = &value[j];
                let new_path = extend_path(&current_path, key);
                let path_str = join_keys(&new_path);
                if is_requested(keypaths, &path_str) {
                    let start = val.get_range().start;
                    let klen = byte_len(key);
                    if start < klen || start - klen < 3 {
                        assert(!extension_fits(keypaths@, *content, path)) by {
                            assert(value@[j as int].0@ == key@);
                        }
                        return false;
                    }
                }
                if !keypath_ranges_fit(keypaths, val, new_path) {
                    assert(!extension_fits(keypaths@, *content, path)) by {
                        assert(value@[j as int].0@ == key@);
                    }
                    return false;
                }
                assert(value@[j as int].0@ == key@);
                j = j + 1;
            }
            true
        },
        RangedValue::Array { value, .. } => {
            let mut j: usize = 0;
            while j < value.len()
                invariant
                    0 <= j <= value@.len(),
                    path == segments(current_path@),
                    *content matches RangedValue::Array { value: v, .. } && v == *value,
                    forall|x: int| 0 <= x < j ==> extension_fits(keypaths@, #[trigger] value@[x], path),
                decreases value@.len() - j,
            {
                let copy = extend_path_none(&current_path);
                if !keypath_ranges_fit(keypaths, &value[j], copy) {
                    assert(!extension_fits(keypaths@, value@[j as int], path));
                    return false;
                }
                j = j + 1;
            }
            true
        },
        _ => true,
    }
}

/// With no header name requested, no header contributes a range.
pub proof fn lemma_no_header_ranges(hs: Seq<(String, RangedHeader)>, names: Seq<&str>)
    requires
        names.len() == 0,
    ensures
        header_ranges(hs, names) == Seq::<Range<usize>>::empty(),
    decreases hs.len(),
{
    if hs.len() > 0 {
        lemma_no_header_ranges(hs.drop_last(), names);
        assert(header_ranges(hs, names) =~= Seq::<Range<usize>>::empty());
    }
}

} // verus!
