use vstd::prelude::*;

verus! {

broadcast use vstd::seq::group_seq_axioms;

/// `needle` occurs in `hay` at position `i`.
pub open spec fn occurs_at(hay: Seq<u8>, needle: Seq<u8>, i: int) -> bool {
    0 <= i && i + needle.len() <= hay.len() && hay.subrange(i, i + needle.len()) == needle
}

/// The first position at or after `i` where `needle` occurs in `hay`.
pub open spec fn find_from(hay: Seq<u8>, needle: Seq<u8>, i: int) -> Option<int>
    decreases hay.len() + 1 - i,
{
    if i < 0 || i + needle.len() > hay.len() {
        None
    } else if occurs_at(hay, needle, i) {
        Some(i)
    } else {
        find_from(hay, needle, i + 1)
    }
}

/// The first position where `needle` occurs in `hay`.
pub open spec fn find_first(hay: Seq<u8>, needle: Seq<u8>) -> Option<int> {
    find_from(hay, needle, 0)
}

/// The last position of byte `b` in `hay`.
pub open spec fn find_last_byte(hay: Seq<u8>, b: u8) -> Option<int>
    decreases hay.len(),
{
    if hay.len() == 0 {
        None
    } else if hay.last() == b {
        Some(hay.len() - 1)
    } else {
        find_last_byte(hay.drop_last(), b)
    }
}

pub proof fn lemma_find_from_bounds(hay: Seq<u8>, needle: Seq<u8>, i: int)
    ensures
        find_from(hay, needle, i) matches Some(p) ==> i <= p && occurs_at(hay, needle, p),
    decreases hay.len() + 1 - i,
{
    if !(i < 0 || i + needle.len() > hay.len()) && !occurs_at(hay, needle, i) {
        lemma_find_from_bounds(hay, needle, i + 1);
    }
}

pub proof fn lemma_find_last_byte_bounds(hay: Seq<u8>, b: u8)
    ensures
        find_last_byte(hay, b) matches Some(p) ==> 0 <= p < hay.len(),
    decreases hay.len(),
{
    if hay.len() > 0 && hay.last() != b {
        lemma_find_last_byte_bounds(hay.drop_last(), b);
    }
}

/// Whether `needle` occurs in `hay` at position `i`.
pub fn matches_at(hay: &[u8], needle: &[u8], i: usize) -> (r: bool)
    ensures
        r == occurs_at(hay@, needle@, i as int),
{
    if i > hay.len() || needle.len() > hay.len() - i {
        return false;
    }
    let n = hay.len();
    let mut k: usize = 0;
    while k < needle.len()
        invariant
            n == hay@.len(),
            i + needle@.len() <= hay@.len(),
            0 <= k <= needle@.len(),
            forall|x: int| 0 <= x < k ==> hay@[i + x] == needle@[x],
        decreases needle@.len() - k,
    {
        if hay[i + k] != needle[k] {
            assert(hay@.subrange(i as int, i + needle@.len())[k as int] != needle@[k as int]);
            return false;
        }
        k = k + 1;
    }
    assert(hay@.subrange(i as int, i + needle@.len()) =~= needle@);
    true
}

/// The first position at or after `from` where `needle` occurs in `hay`.
pub fn find_bytes(hay: &[u8], needle: &[u8], from: usize) -> (r: Option<usize>)
    ensures
        r == (match find_from(hay@, needle@, from as int) {
            Some(p) => Some(p as usize),
            None => None::<usize>,
        }),
{
    if needle.len() == 0 {
        if from <= hay.len() {
            assert(occurs_at(hay@, needle@, from as int)) by {
                assert(hay@.subrange(from as int, from as int) =~= needle@);
            }
            return Some(from);
        }
        return None;
    }
    let mut i: usize = from;
    while i <= hay.len() && needle.len() <= hay.len() - i
        invariant
            from <= i,
            needle@.len() > 0,
            find_from(hay@, needle@, from as int) == find_from(hay@, needle@, i as int),
        decreases hay@.len() + 1 - i,
    {
        if matches_at(hay, needle, i) {
            return Some(i);
        }
        i = i + 1;
    }
    None
}

/// The last position of byte `b` in `hay`.
pub fn rfind_byte(hay: &[u8], b: u8) -> (r: Option<usize>)
    ensures
        r == (match find_last_byte(hay@, b) {
            Some(p) => Some(p as usize),
            None => None::<usize>,
        }),
{
    let mut i: usize = hay.len();
    assert(hay@.subrange(0, i as int) =~= hay@);
    while i > 0
        invariant
            0 <= i <= hay@.len(),
            find_last_byte(hay@, b) == find_last_byte(hay@.subrange(0, i as int), b),
        decreases i,
    {
        let ghost pre = hay@.subrange(0, i as int);
        assert(pre.drop_last() =~= hay@.subrange(0, i - 1));
        if hay[i - 1] == b {
            return Some(i - 1);
        }
        i = i - 1;
    }
    None
}

} // verus!
