//! Bringing a buffer to an exact length.
//!
//! The preferred way to lengthen an archive is through its comment, which
//! keeps it well formed. Where the comment cannot take the difference, zero
//! bytes are appended behind the archive instead. Most readers tolerate such
//! a tail, a strict one may not, so the result says which way was taken.

use vstd::prelude::*;
use crate::eocd::{has_record, last_record, lemma_last_record};
use crate::pad::{append_repeated, comment_padded, pad_comment, repeated, Refusal};

verus! {

/// How a buffer was brought to its target length.
#[derive(Clone, Copy, Debug, PartialEq, Eq, Structural)]
pub enum Strategy {
    /// The buffer already had the target length.
    Unchanged,
    /// The archive comment was grown; the archive is still well formed.
    Comment,
    /// The comment could not take the padding, for the reason given, and
    /// zero bytes were appended behind the archive.
    RawAppend(Refusal),
}

/// A buffer of the target length, and how it got there.
#[derive(Debug, PartialEq, Eq)]
pub struct Fitted {
    pub bytes: Vec<u8>,
    pub strategy: Strategy,
}

/// The buffer is longer than the target, by `excess` bytes.
#[derive(Clone, Copy, Debug, PartialEq, Eq, Structural)]
pub struct Oversize {
    pub excess: usize,
}

/// What fitting `s` to `target_len` yields, for `s` no longer than that.
pub open spec fn fitted(s: Seq<u8>, target_len: nat) -> (Seq<u8>, Strategy)
    recommends
        s.len() <= target_len,
{
    let padding = (target_len - s.len()) as nat;
    if padding == 0 {
        (s, Strategy::Unchanged)
    } else {
        match comment_padded(s, padding) {
            Ok(out) => (out, Strategy::Comment),
            Err(reason) => (s + repeated(0u8, padding), Strategy::RawAppend(reason)),
        }
    }
}

/// Whatever way is taken, the result has exactly the target length.
pub proof fn lemma_fitted_length(s: Seq<u8>, target_len: nat)
    requires
        s.len() <= target_len,
    ensures
        fitted(s, target_len).0.len() == target_len,
{
    lemma_last_record(s);
}

/// A buffer that already has the target length comes back as it was.
pub proof fn lemma_fitted_same_length(s: Seq<u8>)
    ensures
        fitted(s, s.len()) == (s, Strategy::Unchanged),
{
}

/// A buffer without a record that has to grow is the old buffer followed by
/// zero bytes.
pub proof fn lemma_fitted_without_record(s: Seq<u8>, target_len: nat)
    requires
        s.len() < target_len,
        !has_record(s),
    ensures
        fitted(s, target_len).0 == s + repeated(0u8, (target_len - s.len()) as nat),
        fitted(s, target_len).1 is RawAppend,
{
    lemma_last_record(s);
}

/// The old content survives: outside the two bytes of the comment length,
/// the result starts with the bytes of the buffer.
pub proof fn lemma_fitted_keeps_content(s: Seq<u8>, target_len: nat, k: int)
    requires
        s.len() <= target_len,
        0 <= k < s.len(),
    ensures
        fitted(s, target_len).1 is Comment ==> (last_record(s) matches Some(i) && (k == i + 20 || k
            == i + 21 || fitted(s, target_len).0[k] == s[k])),
        !(fitted(s, target_len).1 is Comment) ==> fitted(s, target_len).0[k] == s[k],
{
    lemma_last_record(s);
}

/// The number of bytes by which a buffer of `len` bytes has to grow to reach
/// `target_len`, or `None` when it is already longer than that.
pub fn padding_needed(len: usize, target_len: usize) -> (r: Option<usize>)
    ensures
        r is Some <==> len <= target_len,
        r matches Some(p) ==> p == target_len - len,
{
    if len <= target_len {
        Some(target_len - len)
    } else {
        None
    }
}

/// Brings `data` to exactly `target_len` bytes.
///
/// A buffer that is longer than the target is refused. One of the right
/// length is returned as it is. Otherwise the difference is padded through
/// the archive comment, or, where the comment cannot take it, with zero bytes
/// appended behind the archive.
pub fn fit_to_length(data: Vec<u8>, target_len: usize) -> (r: Result<Fitted, Oversize>)
    ensures
        match r {
            Ok(f) => {
                &&& data@.len() <= target_len
                &&& (f.bytes@, f.strategy) == fitted(data@, target_len as nat)
                &&& f.bytes@.len() == target_len
            },
            Err(e) => data@.len() > target_len && e.excess == data@.len() - target_len,
        },
{
    let len: usize = data.len();
    let padding: usize = match padding_needed(len, target_len) {
        Some(p) => p,
        None => {
            return Err(Oversize { excess: len - target_len });
        },
    };
    let mut bytes = data;
    proof {
        lemma_fitted_length(data@, target_len as nat);
    }
    if padding == 0 {
        return Ok(Fitted { bytes, strategy: Strategy::Unchanged });
    }
    match pad_comment(&mut bytes, padding) {
        Ok(()) => Ok(Fitted { bytes, strategy: Strategy::Comment }),
        Err(reason) => {
            append_repeated(&mut bytes, 0u8, padding);
            Ok(Fitted { bytes, strategy: Strategy::RawAppend(reason) })
        },
    }
}

} // verus!
