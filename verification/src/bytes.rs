//! Searching and converting byte strings.

use crate::text::bytes_eq;
use vstd::prelude::*;
use vstd::slice::slice_subrange;
use vstd::utf8::{decode_utf8, encode_utf8, encode_utf8_decode_utf8, valid_utf8};

verus! {

/// Whether `needle` stands in `hay` at position `i`.
pub open spec fn occurs_at(hay: Seq<u8>, needle: Seq<u8>, i: int) -> bool {
    0 <= i && i + needle.len() <= hay.len() && hay.subrange(i, i + needle.len()) == needle
}

/// The position of the first occurrence of `needle` in `hay`, or the length of
/// `hay` where there is none.
pub open spec fn find(hay: Seq<u8>, needle: Seq<u8>) -> int
    decreases hay.len(),
{
    if hay.len() < needle.len() || hay.len() == 0 {
        hay.len() as int
    } else if hay.take(needle.len() as int) == needle {
        0
    } else {
        1 + find(hay.skip(1), needle)
    }
}

/// A position before which `needle` does not occur, and at which it occurs or
/// after which it no longer fits, is what `find` gives (the length of `hay` in
/// the second case).
pub proof fn lemma_find(hay: Seq<u8>, needle: Seq<u8>, i: int)
    requires
        0 <= i <= hay.len(),
        forall|k: int| 0 <= k < i ==> !occurs_at(hay, needle, k),
        occurs_at(hay, needle, i) || i + needle.len() > hay.len(),
    ensures
        find(hay, needle) == if occurs_at(hay, needle, i) {
            i
        } else {
            hay.len() as int
        },
    decreases hay.len(),
{
    let m = needle.len() as int;
    if hay.len() < m || hay.len() == 0 {
    } else if hay.take(m) == needle {
        assert(hay.subrange(0, m) =~= hay.take(m));
        assert(occurs_at(hay, needle, 0));
        assert(i == 0);
    } else {
        assert(hay.subrange(0, m) =~= hay.take(m));
        assert(!occurs_at(hay, needle, 0));
        assert(i > 0);
        let rest = hay.skip(1);
        assert forall|k: int| occurs_at(rest, needle, k) <==> occurs_at(hay, needle, k + 1) by {
            if 0 <= k && k + m <= rest.len() {
                assert(rest.subrange(k, k + m) =~= hay.subrange(k + 1, k + 1 + m));
            }
        }
        lemma_find(rest, needle, i - 1);
    }
}

/// Where `find` points there is an occurrence, unless it points at the end.
pub proof fn lemma_find_bounds(hay: Seq<u8>, needle: Seq<u8>)
    ensures
        0 <= find(hay, needle) <= hay.len(),
        find(hay, needle) < hay.len() ==> occurs_at(hay, needle, find(hay, needle)),
    decreases hay.len(),
{
    let m = needle.len() as int;
    if hay.len() < m || hay.len() == 0 {
    } else if hay.take(m) == needle {
        assert(hay.subrange(0, m) =~= hay.take(m));
    } else {
        let rest = hay.skip(1);
        lemma_find_bounds(rest, needle);
        let k = find(rest, needle);
        if k < rest.len() {
            assert(rest.subrange(k, k + m) =~= hay.subrange(k + 1, k + 1 + m));
        }
    }
}

/// The position of the first occurrence of `needle` in `hay`, or the length of
/// `hay`.
pub fn find_in(hay: &[u8], needle: &[u8]) -> (i: usize)
    ensures
        i == find(hay@, needle@),
        i <= hay.len(),
        i < hay.len() ==> i + needle.len() <= hay.len(),
{
    let m = needle.len();
    let mut i: usize = 0;
    while i < hay.len() && m <= hay.len() - i
        invariant
            m == needle.len(),
            0 <= i <= hay.len(),
            forall|k: int| 0 <= k < i ==> !occurs_at(hay@, needle@, k),
        decreases hay.len() - i,
    {
        let window = slice_subrange(hay, i, i + m);
        if bytes_eq(window, needle) {
            proof {
                lemma_find(hay@, needle@, i as int);
            }
            return i;
        }
        i += 1;
    }
    proof {
        if m == 0 {
            assert(hay@.subrange(i as int, i as int) =~= needle@);
        }
        lemma_find(hay@, needle@, i as int);
    }
    hay.len()
}

/// A copy of `s`.
pub fn copy_of(s: &[u8]) -> (r: Vec<u8>)
    ensures
        r@ == s@,
{
    let mut r: Vec<u8> = Vec::new();
    r.extend_from_slice(s);
    assert(r@ =~= s@);
    r
}

/// `String::from_utf8`: the string whose bytes are the given ones, and
/// nothing where the bytes are not UTF-8.
#[verifier::external_body]
pub(crate) fn string_from_utf8(bytes: Vec<u8>) -> (r: Option<String>)
    ensures
        r is Some <==> valid_utf8(bytes@),
        r is Some ==> encode_utf8(r->Some_0@) == bytes@,
{
    match String::from_utf8(bytes) {
        Ok(text) => Some(text),
        Err(_) => None,
    }
}

/// The text that the bytes encode in UTF-8, where they encode one.
pub fn text_of(bytes: Vec<u8>) -> (r: Option<String>)
    ensures
        r is Some <==> valid_utf8(bytes@),
        r is Some ==> r->Some_0@ == decode_utf8(bytes@),
{
    let r = string_from_utf8(bytes);
    proof {
        if r is Some {
            encode_utf8_decode_utf8(r->Some_0@);
        }
    }
    r
}

} // verus!
