//! Embedding codec: a fixed-length vector of 32-bit floats, each held as its
//! IEEE-754 bit pattern, to and from a flat little-endian byte blob.
use vstd::prelude::*;

verus! {

/// Failure to read a blob back as an embedding.
#[derive(Debug, Clone, Copy, PartialEq, Eq, Structural)]
pub enum CodecError {
    /// The blob length is not a multiple of four bytes.
    LengthError { len: usize },
}

/// Byte `k` (0 = least significant) of a 32-bit word.
pub open spec fn byte_of(w: u32, k: int) -> u8 {
    if k == 0 {
        (w & 0xff) as u8
    } else if k == 1 {
        ((w >> 8u32) & 0xff) as u8
    } else if k == 2 {
        ((w >> 16u32) & 0xff) as u8
    } else {
        ((w >> 24u32) & 0xff) as u8
    }
}

/// The little-endian word made of the four bytes `b0..b3`.
pub open spec fn word_from(b0: u8, b1: u8, b2: u8, b3: u8) -> u32 {
    (b0 as u32) | ((b1 as u32) << 8u32) | ((b2 as u32) << 16u32) | ((b3 as u32) << 24u32)
}

/// The word stored at byte offset `i` of a blob.
pub open spec fn word_at(b: Seq<u8>, i: int) -> u32 {
    word_from(b[i], b[i + 1], b[i + 2], b[i + 3])
}

/// The blob of an embedding: four little-endian bytes per value, in order,
/// with no padding and no length prefix.
pub open spec fn encoded(ws: Seq<u32>) -> Seq<u8> {
    Seq::new(4 * ws.len(), |i: int| byte_of(ws[i / 4], i % 4))
}

/// The values held by a blob whose length is a multiple of four.
pub open spec fn decoded(b: Seq<u8>) -> Seq<u32> {
    Seq::new(b.len() / 4, |i: int| word_at(b, 4 * i))
}

/// What reading a blob back gives: its values, or a length error.
pub open spec fn decode_result(b: Seq<u8>) -> Result<Seq<u32>, CodecError> {
    if b.len() % 4 == 0 {
        Ok(decoded(b))
    } else {
        Err(CodecError::LengthError { len: b.len() as usize })
    }
}

proof fn lemma_word_round_trip(w: u32)
    ensures
        word_from(byte_of(w, 0), byte_of(w, 1), byte_of(w, 2), byte_of(w, 3)) == w,
{
    assert(((w & 0xff) as u8) as u32 | (((((w >> 8u32) & 0xff) as u8) as u32) << 8u32) | (((((
    w >> 16u32) & 0xff) as u8) as u32) << 16u32) | (((((w >> 24u32) & 0xff) as u8) as u32)
        << 24u32) == w) by (bit_vector);
}

/// Decoding the blob of an embedding gives the embedding back, value for value.
pub proof fn lemma_round_trip(ws: Seq<u32>)
    ensures
        decode_result(encoded(ws)) == Ok::<Seq<u32>, CodecError>(ws),
{
    let b = encoded(ws);
    assert(b.len() % 4 == 0);
    assert forall|i: int| 0 <= i < ws.len() implies #[trigger] decoded(b)[i] == ws[i] by {
        assert(b[4 * i] == byte_of(ws[i], 0));
        assert(b[4 * i + 1] == byte_of(ws[i], 1));
        assert(b[4 * i + 2] == byte_of(ws[i], 2));
        assert(b[4 * i + 3] == byte_of(ws[i], 3));
        lemma_word_round_trip(ws[i]);
    }
    assert(decoded(b) =~= ws);
}

/// Concatenates the four-byte little-endian form of each value, in order.
pub fn encode_embedding(values: &[u32]) -> (r: Vec<u8>)
    requires
        4 * values@.len() <= usize::MAX,
    ensures
        r@ == encoded(values@),
{
    let mut out: Vec<u8> = Vec::with_capacity(4 * values.len());
    let mut i: usize = 0;
    while i < values.len()
        invariant
            i <= values@.len(),
            4 * values@.len() <= usize::MAX,
            out@ =~= encoded(values@.subrange(0, i as int)),
        decreases values@.len() - i,
    {
        let w = values[i];
        out.push((w & 0xff) as u8);
        out.push(((w >> 8u32) & 0xff) as u8);
        out.push(((w >> 16u32) & 0xff) as u8);
        out.push(((w >> 24u32) & 0xff) as u8);
        i = i + 1;
        proof {
            let pre = values@.subrange(0, i as int);
            assert forall|j: int| 0 <= j < 4 * pre.len() implies #[trigger] out@[j] == byte_of(
                pre[j / 4],
                j % 4,
            ) by {
                if j < 4 * (i - 1) {
                    assert(values@.subrange(0, i - 1)[j / 4] == pre[j / 4]);
                }
            }
            assert(out@ =~= encoded(pre));
        }
    }
    assert(values@.subrange(0, values@.len() as int) =~= values@);
    out
}

/// Reads a blob back as the values it holds, four bytes each, little-endian;
/// a blob whose length is not a multiple of four is a length error.
pub fn decode_embedding(bytes: &[u8]) -> (r: Result<Vec<u32>, CodecError>)
    ensures
        match r {
            Ok(v) => decode_result(bytes@) == Ok::<Seq<u32>, CodecError>(v@),
            Err(e) => decode_result(bytes@) == Err::<Seq<u32>, CodecError>(e),
        },
{
    let n = bytes.len();
    if n % 4 != 0 {
        return Err(CodecError::LengthError { len: n });
    }
    let mut out: Vec<u32> = Vec::with_capacity(n / 4);
    let mut i: usize = 0;
    while i < n / 4
        invariant
            n == bytes@.len(),
            n % 4 == 0,
            i <= n / 4,
            out@ =~= decoded(bytes@).subrange(0, i as int),
        decreases n / 4 - i,
    {
        let k = 4 * i;
        let w = (bytes[k] as u32) | ((bytes[k + 1] as u32) << 8u32) | ((bytes[k + 2] as u32)
            << 16u32) | ((bytes[k + 3] as u32) << 24u32);
        out.push(w);
        i = i + 1;
    }
    assert(out@ =~= decoded(bytes@));
    Ok(out)
}

} // verus!
