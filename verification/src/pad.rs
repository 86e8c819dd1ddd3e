//! Growing the archive comment.
//!
//! Padding through the comment rewrites the two-byte comment length of the
//! End-Of-Central-Directory record and appends filler bytes, which thereby
//! become part of the comment. The archive stays well formed. The field is
//! sixteen bits wide, so the comment cannot grow past 65535 bytes.

use vstd::prelude::*;
use crate::eocd::{
    comment_len_at, find_eocd, has_record, last_record, lemma_last_record, read_comment_len,
    record_at, MAX_COMMENT_LEN, RECORD_LEN,
};

verus! {

/// The byte that fills the added part of the comment: ASCII `#`.
pub const FILLER: u8 = 0x23;

/// Why the comment cannot take the padding.
#[derive(Clone, Copy, Debug, PartialEq, Eq, Structural)]
pub enum Refusal {
    /// The padding alone is more than a comment can ever hold.
    PaddingTooLarge,
    /// The buffer holds no well-formed End-Of-Central-Directory record.
    NoRecord,
    /// The present comment and the padding together exceed the limit.
    CommentTooLong,
}

/// `n` copies of `byte`.
pub open spec fn repeated(byte: u8, n: nat) -> Seq<u8> {
    Seq::new(n, |k: int| byte)
}

/// `s` with the comment length of the record at `i` set to `n`, low byte
/// first.
pub open spec fn with_comment_len(s: Seq<u8>, i: int, n: int) -> Seq<u8> {
    s.update(i + 20, (n % 256) as u8).update(i + 21, (n / 256) as u8)
}

/// Padding `s` by `padding` bytes through its comment: the padded buffer, or
/// the reason why the comment cannot take the padding.
pub open spec fn comment_padded(s: Seq<u8>, padding: nat) -> Result<Seq<u8>, Refusal> {
    if padding > MAX_COMMENT_LEN {
        Err(Refusal::PaddingTooLarge)
    } else {
        match last_record(s) {
            None => Err(Refusal::NoRecord),
            Some(i) => {
                let grown = comment_len_at(s, i) + padding;
                if grown > MAX_COMMENT_LEN {
                    Err(Refusal::CommentTooLong)
                } else {
                    Ok(with_comment_len(s, i, grown) + repeated(FILLER, padding))
                }
            },
        }
    }
}

/// Padding that fits: when a record is found and its comment can take the
/// padding, the result is the buffer grown by exactly `padding` bytes, with
/// the record still in place and well formed, its comment length raised by
/// `padding`, every other old byte untouched and filler behind them.
pub proof fn lemma_padding_that_fits(s: Seq<u8>, padding: nat, i: int)
    requires
        last_record(s) == Some(i),
        comment_len_at(s, i) + padding <= MAX_COMMENT_LEN,
    ensures
        comment_padded(s, padding) matches Ok(out) && {
            &&& out.len() == s.len() + padding
            &&& comment_len_at(out, i) == comment_len_at(s, i) + padding
            &&& record_at(out, i)
            &&& forall|k: int| 0 <= k < s.len() && k != i + 20 && k != i + 21 ==> out[k] == s[k]
            &&& forall|k: int| s.len() <= k < out.len() ==> out[k] == FILLER
        },
{
    lemma_last_record(s);
}

/// Padding that exceeds what a comment can hold is refused, whatever the
/// buffer.
pub proof fn lemma_oversized_padding_refused(s: Seq<u8>, padding: nat)
    requires
        padding > MAX_COMMENT_LEN,
    ensures
        comment_padded(s, padding) == Err::<Seq<u8>, Refusal>(Refusal::PaddingTooLarge),
{
}

/// Padding is refused in exactly three cases, and each has its own reason.
pub proof fn lemma_refusals(s: Seq<u8>, padding: nat)
    ensures
        comment_padded(s, padding) is Err <==> padding > MAX_COMMENT_LEN || !has_record(s) || (
        last_record(s) matches Some(i) && comment_len_at(s, i) + padding > MAX_COMMENT_LEN),
{
    lemma_last_record(s);
}

/// Padding by nothing changes nothing: a buffer with a record comes back as
/// it was.
pub proof fn lemma_zero_padding_is_identity(s: Seq<u8>)
    requires
        has_record(s),
    ensures
        comment_padded(s, 0) == Ok::<Seq<u8>, Refusal>(s),
{
    lemma_last_record(s);
    let i = last_record(s).unwrap();
    assert(with_comment_len(s, i, comment_len_at(s, i)) + repeated(FILLER, 0) =~= s);
}

/// Reading back: in a padded buffer the record that was padded declares a
/// comment that runs exactly to the end of the buffer, and that comment is
/// the old one followed by the filler. The padded buffer therefore still
/// holds a well-formed record, and a search finds one at that offset or to
/// the right of it.
pub proof fn lemma_padded_comment_reads_back(s: Seq<u8>, padding: nat, out: Seq<u8>)
    requires
        comment_padded(s, padding) == Ok::<Seq<u8>, Refusal>(out),
    ensures
        last_record(s) matches Some(i) && {
            &&& i + 22 + comment_len_at(out, i) == out.len()
            &&& out.subrange(i + 22, out.len() as int).len() == comment_len_at(out, i)
            &&& out.subrange(i + 22, out.len() as int) == s.subrange(i + 22, s.len() as int)
                + repeated(FILLER, padding)
            &&& record_at(out, i)
            &&& last_record(out) matches Some(j) && i <= j
        },
        has_record(out),
{
    lemma_last_record(s);
    lemma_last_record(out);
    let i = last_record(s).unwrap();
    lemma_padding_that_fits(s, padding, i);
    assert(out.subrange(i + 22, out.len() as int) =~= s.subrange(i + 22, s.len() as int)
        + repeated(FILLER, padding));
}

/// Appends `count` copies of `byte` to `data`.
pub fn append_repeated(data: &mut Vec<u8>, byte: u8, count: usize)
    ensures
        final(data)@ == old(data)@ + repeated(byte, count as nat),
{
    let mut done: usize = 0;
    while done < count
        invariant
            done <= count,
            data@ == old(data)@ + repeated(byte, done as nat),
        decreases count - done,
    {
        data.push(byte);
        done = done + 1;
    }
}

/// Pads `data` by `padding` bytes through the archive comment, in place.
///
/// On success the comment length of the End-Of-Central-Directory record has
/// grown by `padding` and as many filler bytes follow the old content. On
/// refusal `data` is as it was.
pub fn pad_comment(data: &mut Vec<u8>, padding: usize) -> (r: Result<(), Refusal>)
    ensures
        match r {
            Ok(()) => comment_padded(old(data)@, padding as nat) == Ok::<Seq<u8>, Refusal>(
                final(data)@,
            ),
            Err(e) => comment_padded(old(data)@, padding as nat) == Err::<Seq<u8>, Refusal>(e)
                && final(data)@ == old(data)@,
        },
{
    if padding > MAX_COMMENT_LEN {
        return Err(Refusal::PaddingTooLarge);
    }
    let found = find_eocd(data.as_slice());
    match found {
        None => Err(Refusal::NoRecord),
        Some(start) => {
            assert(start + RECORD_LEN <= data.len());
            let current: usize = read_comment_len(data.as_slice(), start) as usize;
            let grown: usize = current + padding;
            if grown > MAX_COMMENT_LEN {
                return Err(Refusal::CommentTooLong);
            }
            data.set(start + 20, (grown % 256) as u8);
            data.set(start + 21, (grown / 256) as u8);
            append_repeated(data, FILLER, padding);
            Ok(())
        },
    }
}

/// Pads `data` by `padding_size` bytes through the archive comment and
/// returns the padded buffer, or `None` when the comment cannot take the
/// padding: when `padding_size` exceeds 65535, when no
/// End-Of-Central-Directory record is found, or when the grown comment would
/// exceed 65535 bytes.
pub fn pad_zip_file(data: Vec<u8>, padding_size: usize) -> (r: Option<Vec<u8>>)
    ensures
        match r {
            Some(out) => comment_padded(data@, padding_size as nat) == Ok::<Seq<u8>, Refusal>(
                out@,
            ),
            None => comment_padded(data@, padding_size as nat) is Err,
        },
        r is None <==> padding_size > MAX_COMMENT_LEN || !has_record(data@) || (last_record(
            data@,
        ) matches Some(i) && comment_len_at(data@, i) + padding_size > MAX_COMMENT_LEN),
        r matches Some(out) ==> out@.len() == data@.len() + padding_size,
{
    let mut buffer = data;
    let outcome = pad_comment(&mut buffer, padding_size);
    proof {
        lemma_last_record(data@);
    }
    match outcome {
        Ok(()) => Some(buffer),
        Err(_) => None,
    }
}

} // verus!
