//! The End-Of-Central-Directory record and how to find it.
//!
//! Layout of the record, relative to its first byte:
//!
//! | offset | size | field                          |
//! |--------|------|--------------------------------|
//! | 0      | 4    | signature `50 4B 05 06`        |
//! | 4      | 16   | directory bookkeeping          |
//! | 20     | 2    | comment length, little-endian  |
//! | 22     | n    | comment                        |
//!
//! The signature alone proves nothing: the same four bytes may occur in
//! compressed data or inside the comment. An offset counts as the record
//! only if the comment it declares ends exactly where the buffer ends.

use vstd::prelude::*;

verus! {

/// Length of the fixed part of the record.
pub const RECORD_LEN: usize = 22;

/// Largest comment length that the two-byte field can express.
pub const MAX_COMMENT_LEN: usize = 65535;

/// Length of the longest possible record: the fixed part and a full comment.
pub const SEARCH_WINDOW: usize = 65557;

/// The four signature bytes stand at `i`.
pub open spec fn signature_at(s: Seq<u8>, i: int) -> bool {
    &&& 0 <= i
    &&& i + 4 <= s.len()
    &&& s[i] == 0x50
    &&& s[i + 1] == 0x4b
    &&& s[i + 2] == 0x05
    &&& s[i + 3] == 0x06
}

/// The comment length that a record starting at `i` declares.
pub open spec fn comment_len_at(s: Seq<u8>, i: int) -> int
    recommends
        0 <= i,
        i + 22 <= s.len(),
{
    s[i + 20] as int + 256 * (s[i + 21] as int)
}

/// A well-formed record starts at `i`: the signature is there, the fixed part
/// fits, and the declared comment reaches exactly the end of the buffer.
pub open spec fn record_at(s: Seq<u8>, i: int) -> bool {
    &&& signature_at(s, i)
    &&& i + 22 <= s.len()
    &&& i + 22 + comment_len_at(s, i) == s.len()
}

/// Some offset of `s` holds a well-formed record.
pub open spec fn has_record(s: Seq<u8>) -> bool {
    exists|i: int| record_at(s, i)
}

/// `i` holds a well-formed record and no offset to its right does.
pub open spec fn is_last_record(s: Seq<u8>, i: int) -> bool {
    &&& record_at(s, i)
    &&& forall|j: int| record_at(s, j) ==> j <= i
}

/// The offset of the rightmost well-formed record of `s`, if there is one.
pub open spec fn last_record(s: Seq<u8>) -> Option<int> {
    if has_record(s) {
        Some(choose|i: int| is_last_record(s, i))
    } else {
        None
    }
}

/// An executable offset as a mathematical one.
pub open spec fn offset_of(r: Option<usize>) -> Option<int> {
    match r {
        Some(i) => Some(i as int),
        None => None,
    }
}

/// Every well-formed record starts within the last `SEARCH_WINDOW` bytes.
pub proof fn lemma_record_in_window(s: Seq<u8>, i: int)
    requires
        record_at(s, i),
    ensures
        s.len() - SEARCH_WINDOW <= i <= s.len() - RECORD_LEN,
{
}

/// The rightmost record is unique, and `last_record` names it.
pub proof fn lemma_last_record_unique(s: Seq<u8>, i: int)
    requires
        is_last_record(s, i),
    ensures
        last_record(s) == Some(i),
{
    let k = choose|k: int| is_last_record(s, k);
    assert(is_last_record(s, k));
}

/// What `last_record` returns: `Some(i)` exactly for the rightmost record,
/// `None` exactly when the buffer holds no record.
pub proof fn lemma_last_record(s: Seq<u8>)
    ensures
        match last_record(s) {
            Some(i) => is_last_record(s, i),
            None => !has_record(s),
        },
{
    if has_record(s) {
        let w = choose|i: int| record_at(s, i);
        lemma_rightmost_exists(s, w, s.len() as int);
    }
}

/// Among the offsets below `bound`, if one holds a record then one of them
/// is the rightmost to do so.
proof fn lemma_rightmost_exists(s: Seq<u8>, w: int, bound: int)
    requires
        record_at(s, w),
        w < bound,
        forall|j: int| record_at(s, j) ==> j < bound,
    ensures
        exists|i: int| is_last_record(s, i),
    decreases bound - w,
{
    if record_at(s, bound - 1) {
        assert(is_last_record(s, bound - 1));
    } else {
        lemma_rightmost_exists(s, w, bound - 1);
    }
}

/// A buffer with exactly one well-formed record: that record is the one
/// that is found.
pub proof fn lemma_single_record_is_found(s: Seq<u8>, i: int)
    requires
        record_at(s, i),
        forall|j: int| record_at(s, j) ==> j == i,
    ensures
        last_record(s) == Some(i),
{
    lemma_last_record_unique(s, i);
}

/// A buffer in which the signature occurs nowhere: nothing is found.
pub proof fn lemma_no_signature_none_found(s: Seq<u8>)
    requires
        forall|j: int| !signature_at(s, j),
    ensures
        last_record(s) is None,
{
}

/// An offset that does not hold a well-formed record is never the one that
/// is found. This covers a signature that occurs by chance in the data or in
/// the comment, where the declared comment does not end with the buffer.
pub proof fn lemma_false_positive_rejected(s: Seq<u8>, i: int)
    requires
        !record_at(s, i),
    ensures
        last_record(s) != Some(i),
{
    lemma_last_record(s);
}

/// Tells whether the four signature bytes stand at `offset`.
pub fn has_signature(data: &[u8], offset: usize) -> (b: bool)
    ensures
        b == signature_at(data@, offset as int),
{
    data.len() >= 4 && offset <= data.len() - 4 && data[offset] == 0x50 && data[offset + 1] == 0x4b
        && data[offset + 2] == 0x05 && data[offset + 3] == 0x06
}

/// Reads the comment length field of the record that starts at `offset`.
pub(crate) fn read_comment_len(data: &[u8], offset: usize) -> (n: u16)
    requires
        offset + RECORD_LEN <= data.len(),
    ensures
        n == comment_len_at(data@, offset as int),
{
    let low: u16 = data[offset + 20] as u16;
    let high: u16 = data[offset + 21] as u16;
    low + 256 * high
}

/// Reads the comment length that a record starting at `offset` declares.
/// `None` when the fixed part of a record would not fit there.
pub fn comment_length(data: &[u8], offset: usize) -> (n: Option<u16>)
    ensures
        n is Some <==> offset + RECORD_LEN <= data@.len(),
        n matches Some(v) ==> v == comment_len_at(data@, offset as int),
{
    if data.len() < RECORD_LEN || offset > data.len() - RECORD_LEN {
        return None;
    }
    Some(read_comment_len(data, offset))
}

/// Tells whether a well-formed record starts at `offset`.
pub fn is_record(data: &[u8], offset: usize) -> (b: bool)
    ensures
        b == record_at(data@, offset as int),
{
    if !has_signature(data, offset) {
        return false;
    }
    match comment_length(data, offset) {
        Some(n) => n as usize == data.len() - RECORD_LEN - offset,
        None => false,
    }
}

/// Scans backward from the end of the buffer and stops at `floor`: the
/// rightmost record that starts at or after `floor`.
fn scan_back(data: &[u8], floor: usize) -> (r: Option<usize>)
    ensures
        match r {
            Some(i) => floor <= i && record_at(data@, i as int) && forall|j: int|
                record_at(data@, j) ==> j <= i,
            None => forall|j: int| record_at(data@, j) ==> j < floor,
        },
{
    if data.len() < RECORD_LEN {
        return None;
    }
    let mut i: usize = data.len() - RECORD_LEN + 1;
    while i > floor
        invariant
            i <= data@.len() - RECORD_LEN + 1,
            forall|j: int| record_at(data@, j) ==> j < i,
        decreases i,
    {
        i = i - 1;
        if is_record(data, i) {
            return Some(i);
        }
    }
    None
}

/// The fast pass: looks for the record in the last `SEARCH_WINDOW` bytes
/// only, scanning backward. Since no record can start before that window,
/// nothing is missed.
pub fn find_eocd_bounded(data: &[u8]) -> (r: Option<usize>)
    ensures
        r matches Some(i) ==> is_last_record(data@, i as int),
        r is None ==> !has_record(data@),
        offset_of(r) == last_record(data@),
{
    let floor: usize = data.len().saturating_sub(SEARCH_WINDOW);
    let r = scan_back(data, floor);
    proof {
        assert forall|j: int| record_at(data@, j) implies floor <= j by {
            lemma_record_in_window(data@, j);
        }
        lemma_last_record(data@);
        if let Some(i) = r {
            lemma_last_record_unique(data@, i as int);
        }
    }
    r
}

/// The thorough pass: scans the whole buffer backward.
pub fn find_eocd_exhaustive(data: &[u8]) -> (r: Option<usize>)
    ensures
        r matches Some(i) ==> is_last_record(data@, i as int),
        r is None ==> !has_record(data@),
        offset_of(r) == last_record(data@),
{
    let r = scan_back(data, 0);
    proof {
        lemma_last_record(data@);
        if let Some(i) = r {
            lemma_last_record_unique(data@, i as int);
        }
    }
    r
}

/// Finds the End-Of-Central-Directory record: the offset of the rightmost
/// well-formed record, or `None` when the buffer holds none. Tries the fast
/// pass first and the thorough pass if that finds nothing.
pub fn find_eocd(data: &[u8]) -> (r: Option<usize>)
    ensures
        r matches Some(i) ==> is_last_record(data@, i as int),
        r is None ==> !has_record(data@),
        offset_of(r) == last_record(data@),
{
    match find_eocd_bounded(data) {
        Some(i) => Some(i),
        None => find_eocd_exhaustive(data),
    }
}

} // verus!
