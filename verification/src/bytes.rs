//! Byte strings: comparison, searching, splitting.

use vstd::prelude::*;
use vstd::slice::slice_subrange;

use crate::text::{
    after_prefix, first_index, lemma_first_index, occurs, occurs_at, piece, pieces, split,
};

verus! {

/// The views of a sequence of byte strings.
pub open spec fn byte_strings(strings: Seq<Vec<u8>>) -> Seq<Seq<u8>> {
    Seq::new(strings.len(), |i: int| strings[i]@)
}

/// An optional byte string as the sequence it views.
pub open spec fn byte_string(string: Option<Vec<u8>>) -> Option<Seq<u8>> {
    match string {
        Some(string) => Some(string@),
        None => None,
    }
}

/// What reading a file gave: its bytes, or the text of the reason why it could not be read.
pub open spec fn read(result: Result<Vec<u8>, String>) -> Result<Seq<u8>, Seq<char>> {
    match result {
        Ok(bytes) => Ok(bytes@),
        Err(fault) => Err(fault@),
    }
}

/// Whether two byte strings are the same.
pub fn same_bytes(left: &[u8], right: &[u8]) -> (r: bool)
    ensures
        r == (left@ == right@),
{
    if left.len() != right.len() {
        return false;
    }
    let mut i: usize = 0;
    while i < left.len()
        invariant
            i <= left@.len(),
            left@.len() == right@.len(),
            forall|k: int| 0 <= k < i ==> left@[k] == right@[k],
        decreases left@.len() - i,
    {
        if left[i] != right[i] {
            return false;
        }
        i += 1;
    }
    assert(left@ == right@);
    true
}

/// A byte string of its own with the bytes of `bytes`.
pub fn owned(bytes: &[u8]) -> (copy: Vec<u8>)
    ensures
        copy@ == bytes@,
{
    let mut copy: Vec<u8> = Vec::new();
    append(&mut copy, bytes);
    assert(copy@ == bytes@);
    copy
}

/// Appends `bytes` to `target`.
pub fn append(target: &mut Vec<u8>, bytes: &[u8])
    ensures
        final(target)@ == old(target)@ + bytes@,
{
    let mut i: usize = 0;
    assert(bytes@.take(0) == Seq::<u8>::empty());
    while i < bytes.len()
        invariant
            i <= bytes@.len(),
            target@ == old(target)@ + bytes@.take(i as int),
        decreases bytes@.len() - i,
    {
        assert(bytes@.take(i + 1) == bytes@.take(i as int).push(bytes@[i as int]));
        target.push(bytes[i]);
        i += 1;
    }
    assert(bytes@.take(i as int) == bytes@);
}

/// Whether `needle` stands anywhere in `haystack`. Nothing contains the empty needle.
pub open spec fn contained(haystack: Seq<u8>, needle: Seq<u8>) -> bool {
    needle.len() > 0 && occurs(haystack, needle)
}

/// Whether `needle` stands anywhere in `haystack`.
pub fn contains_bytes(haystack: &[u8], needle: &[u8]) -> (r: bool)
    ensures
        r == contained(haystack@, needle@),
{
    if needle.is_empty() || needle.len() > haystack.len() {
        return false;
    }
    let length = haystack.len();
    let last = length - needle.len();
    let mut i: usize = 0;
    loop
        invariant
            i <= last,
            length == haystack@.len(),
            last + needle@.len() == length,
            needle@.len() > 0,
            forall|k: int| 0 <= k < i ==> !occurs_at(haystack@, needle@, k),
        decreases last - i,
    {
        if same_bytes(slice_subrange(haystack, i, i + needle.len()), needle) {
            assert(occurs_at(haystack@, needle@, i as int));
            return true;
        }
        if i == last {
            return false;
        }
        i += 1;
    }
}

/// What follows `prefix` in `bytes`, where `bytes` starts with it.
pub fn strip_byte_prefix<'a>(bytes: &'a [u8], prefix: &[u8]) -> (rest: Option<&'a [u8]>)
    ensures
        piece(rest) == after_prefix(bytes@, prefix@),
{
    if prefix.len() > bytes.len() {
        return None;
    }
    if !same_bytes(slice_subrange(bytes, 0, prefix.len()), prefix) {
        return None;
    }
    let rest = slice_subrange(bytes, prefix.len(), bytes.len());
    assert(rest@ == bytes@.skip(prefix@.len() as int));
    Some(rest)
}

/// The index of the first `wanted` at or after `from`, or the length of `bytes`.
pub fn find_byte(bytes: &[u8], from: usize, wanted: u8) -> (found: usize)
    requires
        from <= bytes@.len(),
    ensures
        from <= found <= bytes@.len(),
        found - from == first_index(bytes@.skip(from as int), wanted),
{
    let mut i = from;
    while i < bytes.len() && bytes[i] != wanted
        invariant
            from <= i <= bytes@.len(),
            forall|k: int| from <= k < i ==> bytes@[k] != wanted,
        decreases bytes@.len() - i,
    {
        i += 1;
    }
    proof {
        let rest = bytes@.skip(from as int);
        assert forall|k: int| 0 <= k < i - from implies rest[k] != wanted by {
            assert(bytes@[k + from] != wanted);
        }
        lemma_first_index(rest, wanted, i - from);
    }
    i
}

/// The runs of bytes between occurrences of `separator`.
pub fn split_bytes<'a>(bytes: &'a [u8], separator: u8) -> (parts: Vec<&'a [u8]>)
    ensures
        pieces(parts@) == split(bytes@, separator),
{
    let mut parts: Vec<&'a [u8]> = Vec::new();
    let mut start: usize = 0;
    assert(bytes@.skip(0) == bytes@);
    assert(pieces(parts@) + split(bytes@, separator) == split(bytes@, separator));
    loop
        invariant
            start <= bytes@.len(),
            split(bytes@, separator) == pieces(parts@) + split(
                bytes@.skip(start as int),
                separator,
            ),
        decreases bytes@.len() - start,
    {
        let end = find_byte(bytes, start, separator);
        let part = slice_subrange(bytes, start, end);
        let ghost rest = bytes@.skip(start as int);
        let ghost before = pieces(parts@);
        assert(part@ == rest.take(end - start));
        parts.push(part);
        assert(pieces(parts@) == before.push(part@));
        if end == bytes.len() {
            assert(part@ == rest);
            assert(before + seq![rest] == before.push(rest));
            return parts;
        }
        assert(bytes@.skip(end + 1) == rest.skip(end - start + 1));
        assert(before + (seq![part@] + split(rest.skip(end - start + 1), separator))
            == before.push(part@) + split(rest.skip(end - start + 1), separator));
        start = end + 1;
    }
}

} // verus!
