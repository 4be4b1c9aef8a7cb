//! The packed form of the matrix: little-endian 32-bit words, base64 text.
use vstd::prelude::*;
use crate::error::DbError;

verus! {

/// Declares base64's decoding error, which the decoder hands back.
#[verifier::external_type_specification]
#[verifier::external_body]
pub struct ExDecodeError(base64::DecodeError);

/// The text that the standard base64 engine (standard alphabet, with padding)
/// makes of `bytes`.
pub uninterp spec fn base64_text(bytes: Seq<u8>) -> Seq<char>;

/// What the standard base64 engine decodes `text` to: `None` when the text is
/// not valid padded base64.
pub uninterp spec fn base64_decoded(text: Seq<char>) -> Option<Seq<u8>>;

/// Byte `j` (0 is the least significant) of a 32-bit word.
pub open spec fn byte_of(w: u32, j: int) -> u8 {
    if j == 0 {
        (w & 0xff) as u8
    } else if j == 1 {
        ((w >> 8u32) & 0xff) as u8
    } else if j == 2 {
        ((w >> 16u32) & 0xff) as u8
    } else {
        ((w >> 24u32) & 0xff) as u8
    }
}

/// The word whose little-endian bytes are `b0, b1, b2, b3`.
pub open spec fn word_of(b0: u8, b1: u8, b2: u8, b3: u8) -> u32 {
    (b0 as u32) | ((b1 as u32) << 8u32) | ((b2 as u32) << 16u32) | ((b3 as u32) << 24u32)
}

/// The words laid out as little-endian bytes, four per word.
pub open spec fn le_bytes(words: Seq<u32>) -> Seq<u8> {
    Seq::new(4 * words.len(), |t: int| byte_of(words[t / 4], t % 4))
}

/// The words read back from little-endian bytes; a trailing partial word is not read.
pub open spec fn le_words(bytes: Seq<u8>) -> Seq<u32> {
    Seq::new(
        bytes.len() / 4,
        |i: int| word_of(bytes[4 * i], bytes[4 * i + 1], bytes[4 * i + 2], bytes[4 * i + 3]),
    )
}

/// The text form of a matrix.
pub open spec fn matrix_text(words: Seq<u32>) -> Seq<char> {
    base64_text(le_bytes(words))
}

/// What a text decodes to as a matrix: `None` unless it is valid base64 of a
/// whole number of 32-bit words.
pub open spec fn matrix_of_text(text: Seq<char>) -> Option<Seq<u32>> {
    match base64_decoded(text) {
        Some(b) => if b.len() % 4 == 0 {
            Some(le_words(b))
        } else {
            None
        },
        None => None,
    }
}

/// Relies on base64's `Engine::encode` on the standard engine (standard
/// alphabet, padding): it returns the encoding of the bytes, and the same
/// engine's `decode` gives those bytes back. The buffer size it computes
/// overflows, and it panics, only for inputs over three quarters of the
/// address space.
#[verifier::external_body]
fn encode_base64(bytes: &Vec<u8>) -> (text: String)
    requires
        bytes.len() <= usize::MAX / 2,
    ensures
        text@ == base64_text(bytes@),
        base64_decoded(text@) == Some(bytes@),
{
    base64::Engine::encode(&base64::engine::general_purpose::STANDARD, bytes)
}

/// Relies on base64's `Engine::decode` on the standard engine: the bytes that
/// the text encodes, or an error when it is not valid padded base64.
#[verifier::external_body]
fn decode_base64(text: &String) -> (r: Result<Vec<u8>, base64::DecodeError>)
    ensures
        match r {
            Ok(b) => base64_decoded(text@) == Some(b@),
            Err(_) => base64_decoded(text@).is_none(),
        },
{
    base64::Engine::decode(&base64::engine::general_purpose::STANDARD, text)
}

proof fn lemma_quarter(i: int, j: int)
    requires
        0 <= i,
        0 <= j < 4,
    ensures
        (4 * i + j) / 4 == i,
        (4 * i + j) % 4 == j,
{
}

/// Lays the words out as little-endian bytes.
pub fn pack_le(words: &Vec<u32>) -> (bytes: Vec<u8>)
    ensures
        bytes@ == le_bytes(words@),
{
    let mut bytes: Vec<u8> = Vec::new();
    let mut i: usize = 0;
    while i < words.len()
        invariant
            0 <= i <= words.len(),
            bytes@.len() == 4 * i,
            forall|t: int| 0 <= t < 4 * i ==> #[trigger] bytes@[t] == byte_of(words@[t / 4], t % 4),
        decreases words.len() - i,
    {
        let w = words[i];
        bytes.push((w & 0xff) as u8);
        bytes.push(((w >> 8u32) & 0xff) as u8);
        bytes.push(((w >> 16u32) & 0xff) as u8);
        bytes.push(((w >> 24u32) & 0xff) as u8);
        proof {
            assert forall|t: int| 4 * i <= t < 4 * i + 4 implies #[trigger] bytes@[t] == byte_of(
                words@[t / 4],
                t % 4,
            ) by {
                lemma_quarter(i as int, t - 4 * i);
            }
        }
        i = i + 1;
    }
    assert(bytes@ =~= le_bytes(words@));
    bytes
}

/// Reads little-endian 32-bit words from bytes of a whole number of words.
pub fn unpack_le(bytes: &Vec<u8>) -> (words: Vec<u32>)
    requires
        bytes.len() % 4 == 0,
    ensures
        words@ == le_words(bytes@),
{
    let mut words: Vec<u32> = Vec::new();
    let n = bytes.len() / 4;
    let mut i: usize = 0;
    while i < n
        invariant
            n == bytes.len() / 4,
            bytes.len() % 4 == 0,
            0 <= i <= n,
            words@ =~= le_words(bytes@).take(i as int),
        decreases n - i,
    {
        let base = 4 * i;
        let b0 = bytes[base];
        let b1 = bytes[base + 1];
        let b2 = bytes[base + 2];
        let b3 = bytes[base + 3];
        words.push((b0 as u32) | ((b1 as u32) << 8u32) | ((b2 as u32) << 16u32) | ((b3 as u32) << 24u32));
        i = i + 1;
    }
    words
}

/// Reading back what [`pack_le`] laid out gives the words again.
pub proof fn lemma_le_round_trip(words: Seq<u32>)
    ensures
        le_words(le_bytes(words)) == words,
        le_bytes(words).len() % 4 == 0,
{
    let b = le_bytes(words);
    assert forall|i: int| 0 <= i < words.len() implies #[trigger] le_words(b)[i] == words[i] by {
        lemma_quarter(i, 0);
        lemma_quarter(i, 1);
        lemma_quarter(i, 2);
        lemma_quarter(i, 3);
        let w = words[i];
        assert(word_of(
            (w & 0xff) as u8,
            ((w >> 8u32) & 0xff) as u8,
            ((w >> 16u32) & 0xff) as u8,
            ((w >> 24u32) & 0xff) as u8,
        ) == w) by (bit_vector);
    }
    assert(le_words(b) =~= words);
}

/// The text form of a matrix.
pub fn encode_matrix(matrix: &Vec<u32>) -> (text: String)
    requires
        matrix.len() <= usize::MAX / 8,
    ensures
        text@ == matrix_text(matrix@),
        matrix_of_text(text@) == Some(matrix@),
{
    let bytes = pack_le(matrix);
    proof {
        lemma_le_round_trip(matrix@);
    }
    encode_base64(&bytes)
}

/// Reads a matrix back from its text form.
pub fn decode_matrix(text: &String) -> (r: Result<Vec<u32>, DbError>)
    ensures
        match r {
            Ok(m) => matrix_of_text(text@) == Some(m@),
            Err(e) => matrix_of_text(text@).is_none() && e == DbError::UndecodableMatrix,
        },
{
    match decode_base64(text) {
        Ok(bytes) => {
            if bytes.len() % 4 == 0 {
                Ok(unpack_le(&bytes))
            } else {
                Err(DbError::UndecodableMatrix)
            }
        },
        Err(_) => Err(DbError::UndecodableMatrix),
    }
}

} // verus!
