//! The wire form of vectors: single-precision numbers as little-endian bytes.

use crate::float::F32;
use crate::text::{append_numeral, numeral};
use tonic::Status;
use vstd::prelude::*;
use vstd::string::*;

verus! {

/// The status of a call, as the remote procedure framework carries it.
#[verifier::external_type_specification]
#[verifier::external_body]
pub struct ExStatus(tonic::Status);

/// The status that tells a client that its argument was invalid, with this message.
pub uninterp spec fn invalid_argument_status(message: Seq<char>) -> Status;

/// Calls `tonic::Status::invalid_argument`.
///
/// The status holds the code for an invalid argument and the message, with no details, no
/// metadata and no source; it depends on the message alone and is named
/// [`invalid_argument_status`].
#[verifier::external_body]
pub(crate) fn invalid_argument(message: String) -> (r: Status)
    ensures
        r == invalid_argument_status(message@),
{
    Status::invalid_argument(message)
}

/// Byte `i` of a word, counted from the lowest.
pub open spec fn byte_of(word: u32, i: int) -> u8 {
    if i == 0 {
        (word % 0x100) as u8
    } else if i == 1 {
        (word / 0x100 % 0x100) as u8
    } else if i == 2 {
        (word / 0x1_0000 % 0x100) as u8
    } else {
        (word / 0x100_0000) as u8
    }
}

/// The word with these bytes, lowest first.
pub open spec fn word_of(b0: u8, b1: u8, b2: u8, b3: u8) -> u32 {
    (b0 + b1 * 0x100 + b2 * 0x1_0000 + b3 * 0x100_0000) as u32
}

/// The bytes of a list of numbers, four for each.
pub open spec fn encoded(values: Seq<F32>) -> Seq<u8> {
    Seq::new(4 * values.len(), |i: int| byte_of(values[i / 4].bits, i % 4))
}

/// The numbers that a whole number of four-byte groups holds.
pub open spec fn decoded(bytes: Seq<u8>) -> Seq<F32> {
    Seq::new(
        bytes.len() / 4,
        |i: int|
            F32 {
                bits: word_of(
                    bytes[4 * i],
                    bytes[4 * i + 1],
                    bytes[4 * i + 2],
                    bytes[4 * i + 3],
                ),
            },
    )
}

/// What a client is told whose payload of `len` bytes does not hold whole numbers.
pub open spec fn payload_length_message(len: nat) -> Seq<char> {
    "f32 payload length must be a multiple of 4, got "@ + numeral(len)
}

/// Decodes little-endian bytes.
///
/// A length that is not a multiple of four breaks the protocol and is answered as an invalid
/// argument.
pub fn decode_f32_le(bytes: &[u8]) -> (r: Result<Vec<F32>, Status>)
    ensures
        r is Ok <==> bytes.len() % 4 == 0,
        r matches Ok(values) ==> values@ == decoded(bytes@),
        r matches Err(status) ==> status == invalid_argument_status(
            payload_length_message(bytes@.len()),
        ),
{
    if bytes.len() % 4 != 0 {
        let mut message: String = "f32 payload length must be a multiple of 4, got ".to_owned();
        append_numeral(&mut message, bytes.len());
        return Err(invalid_argument(message));
    }
    let mut out: Vec<F32> = Vec::new();
    let mut i: usize = 0;
    while i < bytes.len()
        invariant
            0 <= i <= bytes.len(),
            i == 4 * out.len(),
            bytes.len() % 4 == 0,
            forall|j: int| 0 <= j < out.len() ==> #[trigger] out@[j] == decoded(bytes@)[j],
        decreases bytes.len() - i,
    {
        let bits: u32 = bytes[i] as u32 + bytes[i + 1] as u32 * 0x100 + bytes[i + 2] as u32
            * 0x1_0000 + bytes[i + 3] as u32 * 0x100_0000;
        out.push(F32 { bits });
        i = i + 4;
    }
    assert(out@ =~= decoded(bytes@));
    Ok(out)
}

/// Encodes numbers as little-endian bytes.
pub fn encode_f32_le(values: &[F32]) -> (out: Vec<u8>)
    ensures
        out@ == encoded(values@),
{
    let mut out: Vec<u8> = Vec::new();
    let mut i: usize = 0;
    while i < values.len()
        invariant
            0 <= i <= values.len(),
            out@.len() == 4 * i,
            forall|j: int| 0 <= j < out.len() ==> #[trigger] out@[j] == encoded(values@)[j],
        decreases values.len() - i,
    {
        let word: u32 = values[i].bits;
        out.push((word % 0x100) as u8);
        out.push((word / 0x100 % 0x100) as u8);
        out.push((word / 0x1_0000 % 0x100) as u8);
        out.push((word / 0x100_0000) as u8);
        i = i + 1;
    }
    assert(out@ =~= encoded(values@));
    out
}

/// The bytes of the word made of four bytes are those bytes.
proof fn lemma_bytes_of_word(b0: u8, b1: u8, b2: u8, b3: u8)
    ensures
        byte_of(word_of(b0, b1, b2, b3), 0) == b0,
        byte_of(word_of(b0, b1, b2, b3), 1) == b1,
        byte_of(word_of(b0, b1, b2, b3), 2) == b2,
        byte_of(word_of(b0, b1, b2, b3), 3) == b3,
{
    let word = word_of(b0, b1, b2, b3);
    assert(word == b0 + b1 * 0x100 + b2 * 0x1_0000 + b3 * 0x100_0000);
    assert(word / 0x100 == b1 + b2 * 0x100 + b3 * 0x1_0000);
    assert(word / 0x1_0000 == b2 + b3 * 0x100);
    assert(word / 0x100_0000 == b3);
}

/// Decoding gives back what was encoded, bit for bit.
pub proof fn law_decode_undoes_encode(values: Seq<F32>)
    ensures
        encoded(values).len() % 4 == 0,
        decoded(encoded(values)) == values,
{
    assert forall|i: int| 0 <= i < values.len() implies decoded(encoded(values))[i]
        == values[i] by {
        let word = values[i].bits;
        let bytes = encoded(values);
        assert((4 * i) / 4 == i && (4 * i + 1) / 4 == i && (4 * i + 2) / 4 == i && (4 * i + 3) / 4
            == i);
        assert((4 * i) % 4 == 0 && (4 * i + 1) % 4 == 1 && (4 * i + 2) % 4 == 2 && (4 * i + 3) % 4
            == 3);
        assert(bytes[4 * i] == byte_of(word, 0));
        assert(bytes[4 * i + 1] == byte_of(word, 1));
        assert(bytes[4 * i + 2] == byte_of(word, 2));
        assert(bytes[4 * i + 3] == byte_of(word, 3));
    }
    assert(decoded(encoded(values)) =~= values);
}

/// Encoding gives back the bytes of every payload that decodes.
pub proof fn law_encode_undoes_decode(bytes: Seq<u8>)
    requires
        bytes.len() % 4 == 0,
    ensures
        encoded(decoded(bytes)) == bytes,
{
    assert forall|i: int| 0 <= i < bytes.len() implies encoded(decoded(bytes))[i] == bytes[i] by {
        let g = i / 4;
        lemma_bytes_of_word(bytes[4 * g], bytes[4 * g + 1], bytes[4 * g + 2], bytes[4 * g + 3]);
        assert(i == 4 * g + i % 4);
        assert(i % 4 == 0 || i % 4 == 1 || i % 4 == 2 || i % 4 == 3);
        assert(encoded(decoded(bytes))[i] == byte_of(decoded(bytes)[g].bits, i % 4));
    }
    assert(encoded(decoded(bytes)) =~= bytes);
}

} // verus!
