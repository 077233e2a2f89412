//! NUL-terminated UTF-8 text stored in fixed-size byte buffers.

use vstd::prelude::*;
use vstd::utf8::{decode_utf8, encode_utf8, encode_utf8_decode_utf8, encode_utf8_valid_utf8, valid_utf8};

verus! {

/// Number of bytes before the first NUL byte of `buf` (all of `buf` when it holds none).
pub open spec fn c_str_len(buf: Seq<u8>) -> nat
    decreases buf.len(),
{
    if buf.len() == 0 {
        0
    } else if buf[0] == 0 {
        0
    } else {
        1 + c_str_len(buf.drop_first())
    }
}

/// The text part of a NUL-terminated buffer: the bytes before the first NUL.
pub open spec fn c_str_bytes(buf: Seq<u8>) -> Seq<u8> {
    buf.take(c_str_len(buf) as int)
}

/// The characters that `String::from_utf8_lossy` produces for `bytes`.
pub uninterp spec fn utf8_lossy(bytes: Seq<u8>) -> Seq<char>;

/// `c_str_len` is the index of the first NUL byte, or the length when there is none.
pub proof fn lemma_c_str_len(buf: Seq<u8>, k: int)
    requires
        0 <= k <= buf.len(),
        forall|j: int| 0 <= j < k ==> buf[j] != 0,
        k < buf.len() ==> buf[k] == 0,
    ensures
        c_str_len(buf) == k,
    decreases k,
{
    if k > 0 {
        let rest = buf.drop_first();
        assert forall|j: int| 0 <= j < k - 1 implies rest[j] != 0 by {
            assert(rest[j] == buf[j + 1]);
        }
        lemma_c_str_len(rest, k - 1);
    }
}

/// `c_str_len` never exceeds the length of the buffer.
pub proof fn lemma_c_str_len_bound(buf: Seq<u8>)
    ensures
        c_str_len(buf) <= buf.len(),
    decreases buf.len(),
{
    if buf.len() > 0 && buf[0] != 0 {
        lemma_c_str_len_bound(buf.drop_first());
    }
}

/// The bytes before `c_str_len` are non-NUL, and the byte at it, when there is one, is NUL.
pub proof fn lemma_c_str_len_props(buf: Seq<u8>)
    ensures
        forall|j: int| 0 <= j < c_str_len(buf) ==> buf[j] != 0,
        c_str_len(buf) < buf.len() ==> buf[c_str_len(buf) as int] == 0,
    decreases buf.len(),
{
    lemma_c_str_len_bound(buf);
    if buf.len() > 0 && buf[0] != 0 {
        let rest = buf.drop_first();
        lemma_c_str_len_props(rest);
        assert forall|j: int| 0 <= j < c_str_len(buf) implies buf[j] != 0 by {
            if j > 0 {
                assert(buf[j] == rest[j - 1]);
            }
        }
    }
}

/// Decodes `bytes` with `String::from_utf8_lossy` and takes ownership of the result.
/// The contract names the result `utf8_lossy(bytes)`; of its value it states only what
/// the documentation of `from_utf8_lossy` promises: valid UTF-8 input is decoded
/// unchanged, and each invalid sequence becomes the replacement character U+FFFD, so
/// non-empty input never gives empty text, and a NUL character comes only from a 0 byte.
/// How many replacement characters an invalid sequence gives is left unsaid.
#[verifier::external_body]
fn lossy_string(bytes: &[u8]) -> (s: String)
    ensures
        s@ == utf8_lossy(bytes@),
        valid_utf8(bytes@) ==> s@ == decode_utf8(bytes@),
        bytes@.len() > 0 ==> s@.len() > 0,
        (forall|i: int| 0 <= i < bytes@.len() ==> bytes@[i] != 0) ==> (forall|j: int|
            0 <= j < s@.len() ==> s@[j] != '\0'),
{
    String::from_utf8_lossy(bytes).into_owned()
}

/// `text` is what the host reads from the NUL-terminated buffer `buf`: the lossy
/// decoding of the bytes before the first NUL, which is their exact decoding when they
/// are valid UTF-8, which is empty exactly when the first byte is NUL (or `buf` is empty),
/// and which holds no NUL character.
pub open spec fn reads_as(text: Seq<char>, buf: Seq<u8>) -> bool {
    &&& text == utf8_lossy(c_str_bytes(buf))
    &&& valid_utf8(c_str_bytes(buf)) ==> text == decode_utf8(c_str_bytes(buf))
    &&& text.len() == 0 <==> c_str_len(buf) == 0
    &&& forall|j: int| 0 <= j < text.len() ==> text[j] != '\0'
}

/// Reads the NUL-terminated text at the start of `buf`: the bytes before the first
/// NUL (all of `buf` when it holds none), decoded as UTF-8 with invalid sequences replaced.
pub fn read_c_str(buf: &[u8]) -> (s: String)
    ensures
        reads_as(s@, buf@),
{
    let mut end: usize = 0;
    while end < buf.len() && buf[end] != 0
        invariant
            end <= buf@.len(),
            forall|j: int| 0 <= j < end ==> buf@[j] != 0,
        decreases buf@.len() - end,
    {
        end = end + 1;
    }
    proof {
        lemma_c_str_len(buf@, end as int);
    }
    let text = &buf[0..end];
    assert(text@ == c_str_bytes(buf@));
    proof {
        if end == 0 {
            assert(valid_utf8(text@));
            assert(decode_utf8(text@) =~= Seq::<char>::empty());
        }
    }
    lossy_string(text)
}

/// The text read from a buffer is the lossy decoding of exactly the bytes before its
/// first NUL byte, however long the buffer and whatever those bytes are: for `k` the
/// index of the first 0 byte of `buf` (its length when it holds none), any `text` that
/// `buf` reads as is the decoding of `buf[..k]`, and its exact decoding when valid.
pub proof fn lemma_reads_as_bytes_before_nul(text: Seq<char>, buf: Seq<u8>, k: int)
    requires
        0 <= k <= buf.len(),
        forall|j: int| 0 <= j < k ==> buf[j] != 0,
        k < buf.len() ==> buf[k] == 0,
        reads_as(text, buf),
    ensures
        text == utf8_lossy(buf.take(k)),
        valid_utf8(buf.take(k)) ==> text == decode_utf8(buf.take(k)),
        text.len() == 0 <==> k == 0,
{
    lemma_c_str_len(buf, k);
}

/// A string written as UTF-8 with no 0 byte in it, followed by a NUL byte and any bytes
/// at all, reads back as that string, every character included.
pub proof fn lemma_reads_as_written_string(text: Seq<char>, s: Seq<char>, rest: Seq<u8>)
    requires
        forall|i: int| 0 <= i < encode_utf8(s).len() ==> encode_utf8(s)[i] != 0,
        reads_as(text, encode_utf8(s) + seq![0u8] + rest),
    ensures
        text == s,
{
    let bytes = encode_utf8(s);
    let buf = bytes + seq![0u8] + rest;
    let k = bytes.len() as int;
    assert forall|j: int| 0 <= j < k implies buf[j] != 0 by {
        assert(buf[j] == bytes[j]);
    }
    assert(buf[k] == 0);
    lemma_reads_as_bytes_before_nul(text, buf, k);
    assert(buf.take(k) =~= bytes);
    encode_utf8_valid_utf8(s);
    encode_utf8_decode_utf8(s);
}

} // verus!
