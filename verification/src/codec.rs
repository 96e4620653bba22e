//! The outside encoders the overlay image goes through: CRC-32 and zlib from `flate2`, and
//! standard Base64 from `base64`.

use vstd::prelude::*;

verus! {

/// One step of the bitwise CRC-32 register: shift right, folding in the reflected IEEE
/// polynomial when a one falls out.
pub open spec fn crc32_shift(c: u32) -> u32 {
    if c & 1 == 1 {
        (c >> 1u32) ^ 0xEDB8_8320u32
    } else {
        c >> 1u32
    }
}

/// The register after taking in one byte, low bit first.
pub open spec fn crc32_byte(c: u32, b: u8) -> u32 {
    crc32_shift(
        crc32_shift(
            crc32_shift(
                crc32_shift(crc32_shift(crc32_shift(crc32_shift(crc32_shift(c ^ (b as u32)))))),
            ),
        ),
    )
}

/// The register after taking in `data`, starting from all ones.
pub open spec fn crc32_register(data: Seq<u8>) -> u32
    decreases data.len(),
{
    if data.len() == 0 {
        0xFFFF_FFFFu32
    } else {
        crc32_byte(crc32_register(data.drop_last()), data.last())
    }
}

/// The CRC-32 (IEEE 802.3, as used by PNG and zlib) of `data`.
pub open spec fn crc32_ieee(data: Seq<u8>) -> u32 {
    crc32_register(data) ^ 0xFFFF_FFFFu32
}

/// The character for a 6-bit value in the standard Base64 alphabet.
pub open spec fn base64_char(v: int) -> char {
    if v < 26 {
        ((65 + v) as u8) as char
    } else if v < 52 {
        ((97 + v - 26) as u8) as char
    } else if v < 62 {
        ((48 + v - 52) as u8) as char
    } else if v == 62 {
        '+'
    } else {
        '/'
    }
}

/// Standard Base64 with `=` padding (RFC 4648, section 4).
pub open spec fn base64_standard(data: Seq<u8>) -> Seq<char>
    decreases data.len(),
{
    if data.len() == 0 {
        Seq::empty()
    } else if data.len() == 1 {
        let b0 = data[0] as int;
        seq![base64_char(b0 / 4), base64_char((b0 % 4) * 16), '=', '=']
    } else if data.len() == 2 {
        let b0 = data[0] as int;
        let b1 = data[1] as int;
        seq![base64_char(b0 / 4), base64_char((b0 % 4) * 16 + b1 / 16), base64_char((b1 % 16) * 4), '=']
    } else {
        let b0 = data[0] as int;
        let b1 = data[1] as int;
        let b2 = data[2] as int;
        seq![
            base64_char(b0 / 4),
            base64_char((b0 % 4) * 16 + b1 / 16),
            base64_char((b1 % 16) * 4 + b2 / 64),
            base64_char(b2 % 64),
        ] + base64_standard(data.skip(3))
    }
}

#[verifier::external_type_specification]
#[verifier::external_body]
pub struct ExCrc(flate2::Crc);

/// The bytes a `flate2::Crc` has taken in since it was made.
pub uninterp spec fn crc_consumed(crc: flate2::Crc) -> Seq<u8>;

/// `flate2::Crc::new`: a checksum that has taken in nothing.
#[verifier::external_body]
pub(crate) fn crc_new() -> (crc: flate2::Crc)
    ensures
        crc_consumed(crc) == Seq::<u8>::empty(),
{
    flate2::Crc::new()
}

/// `flate2::Crc::update`: takes in `data` after what the checksum has already taken in.
#[verifier::external_body]
pub(crate) fn crc_update(crc: &mut flate2::Crc, data: &[u8])
    ensures
        crc_consumed(*final(crc)) == crc_consumed(*old(crc)) + data@,
{
    crc.update(data)
}

/// `flate2::Crc::sum`: the CRC-32 of everything taken in.
#[verifier::external_body]
pub(crate) fn crc_sum(crc: &flate2::Crc) -> (sum: u32)
    ensures
        sum == crc32_ieee(crc_consumed(*crc)),
{
    crc.sum()
}

/// A zlib encoder writing into memory. Verus refuses a declaration of
/// `flate2::write::ZlibEncoder` (its `Write` bound is unknown to it), so the encoder is held
/// here, out of Verus's sight.
#[verifier::external_body]
pub struct ZlibStream {
    encoder: flate2::write::ZlibEncoder<Vec<u8>>,
}

/// The data of each successful `write_all` into a zlib stream since it was made, in order.
pub uninterp spec fn zlib_writes(stream: ZlibStream) -> Seq<Seq<u8>>;

/// Whether `Write::write_all` of `data` succeeds on a `flate2` zlib encoder at
/// `Compression::fast()` over an empty `Vec` that has taken in the chunks `writes`, one
/// successful `write_all` each.
pub uninterp spec fn zlib_write_succeeds(writes: Seq<Seq<u8>>, data: Seq<u8>) -> bool;

/// What `finish` gives on such an encoder: the complete zlib stream (header, deflate data,
/// Adler-32 trailer), or `None` when it reports an error.
pub uninterp spec fn zlib_finished(writes: Seq<Seq<u8>>) -> Option<Seq<u8>>;

/// `flate2::write::ZlibEncoder::new` over an empty `Vec`, at `Compression::fast()`.
#[verifier::external_body]
pub(crate) fn zlib_encoder_fast() -> (stream: ZlibStream)
    ensures
        zlib_writes(stream) == Seq::<Seq<u8>>::empty(),
{
    ZlibStream { encoder: flate2::write::ZlibEncoder::new(Vec::new(), flate2::Compression::fast()) }
}

/// `Write::write_all` on the zlib encoder. The stream comes back when the write succeeds, with
/// `data` taken in after what it held; on an error it is dropped.
#[verifier::external_body]
pub(crate) fn zlib_write_all(stream: ZlibStream, data: &[u8]) -> (out: Option<ZlibStream>)
    ensures
        out is Some == zlib_write_succeeds(zlib_writes(stream), data@),
        out matches Some(s) ==> zlib_writes(s) == zlib_writes(stream).push(data@),
{
    let mut stream = stream;
    match std::io::Write::write_all(&mut stream.encoder, data) {
        Ok(()) => Some(stream),
        Err(_) => None,
    }
}

/// `flate2::write::ZlibEncoder::finish`: the finished stream of everything written, or `None`
/// when the encoder reports an error.
#[verifier::external_body]
pub(crate) fn zlib_finish(stream: ZlibStream) -> (out: Option<Vec<u8>>)
    ensures
        match out {
            Some(bytes) => zlib_finished(zlib_writes(stream)) == Some(bytes@),
            None => zlib_finished(zlib_writes(stream)) is None,
        },
{
    stream.encoder.finish().ok()
}

/// `base64::engine::general_purpose::STANDARD.encode`: standard, padded Base64.
#[verifier::external_body]
pub(crate) fn base64_encode(data: &[u8]) -> (text: String)
    ensures
        text@ == base64_standard(data@),
{
    base64::Engine::encode(&base64::engine::general_purpose::STANDARD, data)
}

} // verus!
