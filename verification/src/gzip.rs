//! The gzip container: a header with a time stamp and a file name, one
//! deflate stream, and a footer with a checksum and a length.
//!
//! The stream is laid out here byte by byte. Compressing the payload and
//! computing its checksum are left to `flate2` and `crc32fast`; the two
//! functions that call them are the only unproved code in this file.

use std::io::Write;
use vstd::prelude::*;
use vstd::utf8::encode_utf8;

use crate::error::ExportError;

verus! {

/// `std::io::Error`, which the compressor reports its failures with. Nothing
/// is read from it.
#[verifier::external_type_specification]
#[verifier::external_body]
pub struct ExIoError(std::io::Error);

/// The deflate stream that `flate2` produces for the given bytes at its
/// default level, or `None` where it reports an error for them.
pub uninterp spec fn deflated(data: Seq<u8>) -> Option<Seq<u8>>;

/// The CRC-32 checksum of the given bytes, as `crc32fast` computes it.
pub uninterp spec fn crc32_of(data: Seq<u8>) -> u32;

/// The four bytes of a 32-bit number, lowest first.
pub open spec fn le32(x: u32) -> Seq<u8> {
    seq![
        (x % 256) as u8,
        ((x / 256) % 256) as u8,
        ((x / 65536) % 256) as u8,
        ((x / 16777216) % 256) as u8,
    ]
}

/// The number that four bytes stand for, lowest first.
pub open spec fn le32_value(bytes: Seq<u8>) -> int {
    bytes[0] + 256 * bytes[1] + 65536 * bytes[2] + 16777216 * bytes[3]
}

/// The bytes of a file name as they stand in the header.
pub open spec fn name_bytes(name: Seq<char>) -> Seq<u8> {
    encode_utf8(name)
}

/// The header: the magic number `1f 8b`, the method 8 (deflate), the flag
/// byte with only the name bit set, the time stamp, no extra flags, the
/// system byte 3 (unix), and the file name closed by a zero byte.
pub open spec fn gzip_header(name: Seq<u8>, mtime: u32) -> Seq<u8> {
    seq![0x1fu8, 0x8bu8, 0x08u8, 0x08u8] + le32(mtime) + seq![0x00u8, 0x03u8] + name + seq![0x00u8]
}

/// The footer: the checksum, then the length of the payload modulo 2^32.
pub open spec fn gzip_footer(crc: u32, len: nat) -> Seq<u8> {
    le32(crc) + le32((len % 0x1_0000_0000) as u32)
}

/// The whole stream around a compressed body.
pub open spec fn gzip_stream(name: Seq<u8>, mtime: u32, body: Seq<u8>, crc: u32, len: nat) -> Seq<u8> {
    gzip_header(name, mtime) + body + gzip_footer(crc, len)
}

/// The gzip stream of a payload, or `None` where the payload cannot be
/// compressed.
pub open spec fn gzip_of(name: Seq<u8>, mtime: u32, data: Seq<u8>) -> Option<Seq<u8>> {
    match deflated(data) {
        Some(body) => Some(gzip_stream(name, mtime, body, crc32_of(data), data.len())),
        None => None,
    }
}

/// Four bytes written lowest first stand for the number they were made from.
pub proof fn lemma_le32_value(x: u32)
    ensures
        le32(x).len() == 4,
        le32_value(le32(x)) == x,
{
}

/// The last eight bytes of a stream hold the checksum and the length modulo
/// 2^32 that it was made with, each lowest byte first.
pub proof fn lemma_footer_fields(name: Seq<u8>, mtime: u32, body: Seq<u8>, crc: u32, len: nat)
    ensures
        ({
            let stream = gzip_stream(name, mtime, body, crc, len);
            let n = stream.len() as int;
            &&& n == 19 + name.len() + body.len()
            &&& le32_value(stream.subrange(n - 8, n - 4)) == crc
            &&& le32_value(stream.subrange(n - 4, n)) == len % 0x1_0000_0000
            &&& len < 0x1_0000_0000 ==> le32_value(stream.subrange(n - 4, n)) == len
        }),
{
    let stream = gzip_stream(name, mtime, body, crc, len);
    let n = stream.len() as int;
    let size = (len % 0x1_0000_0000) as u32;
    let front = gzip_header(name, mtime) + body;
    lemma_le32_value(mtime);
    lemma_le32_value(crc);
    lemma_le32_value(size);
    assert(gzip_header(name, mtime).len() == 11 + name.len());
    assert(stream == front + (le32(crc) + le32(size)));
    assert(stream.subrange(n - 8, n - 4) =~= le32(crc));
    assert(stream.subrange(n - 4, n) =~= le32(size));
}

/// The last eight bytes of the stream of a payload hold the checksum of the
/// payload and its length modulo 2^32.
pub proof fn lemma_payload_footer(name: Seq<u8>, mtime: u32, data: Seq<u8>)
    ensures
        gzip_of(name, mtime, data) matches Some(stream) ==> {
            let n = stream.len() as int;
            &&& n >= 19
            &&& le32_value(stream.subrange(n - 8, n - 4)) == crc32_of(data)
            &&& le32_value(stream.subrange(n - 4, n)) == data.len() % 0x1_0000_0000
            &&& data.len() < 0x1_0000_0000 ==> le32_value(stream.subrange(n - 4, n)) == data.len()
        },
{
    if let Some(body) = deflated(data) {
        lemma_footer_fields(name, mtime, body, crc32_of(data), data.len());
    }
}

/// `DeflateEncoder` of `flate2`, writing into a vector in memory at the
/// default level. Whether it succeeds and what it produces depend on the data
/// alone: the result is the deflate stream of the data, or an error where the
/// data has none.
#[verifier::external_body]
fn deflate(data: &[u8]) -> (compressed: Result<Vec<u8>, std::io::Error>)
    ensures
        match compressed {
            Ok(body) => deflated(data@) == Some(body@),
            Err(_) => deflated(data@) is None,
        },
{
    let mut encoder = flate2::write::DeflateEncoder::new(Vec::new(), flate2::Compression::default());
    encoder.write_all(data)?;
    encoder.finish()
}

/// `crc32fast::hash`: the CRC-32 checksum of the data.
#[verifier::external_body]
fn crc32(data: &[u8]) -> (crc: u32)
    ensures
        crc == crc32_of(data@),
{
    crc32fast::hash(data)
}

/// Appends the four bytes of `x`, lowest first.
fn push_le32(out: &mut Vec<u8>, x: u32)
    ensures
        final(out)@ == old(out)@ + le32(x),
{
    out.push((x % 256) as u8);
    out.push(((x / 256) % 256) as u8);
    out.push(((x / 65536) % 256) as u8);
    out.push(((x / 16777216) % 256) as u8);
    assert(out@ =~= old(out)@ + le32(x));
}

/// Appends the given bytes.
fn push_all(out: &mut Vec<u8>, bytes: &[u8])
    ensures
        final(out)@ == old(out)@ + bytes@,
{
    let mut i: usize = 0;
    while i < bytes.len()
        invariant
            i <= bytes@.len(),
            out@ == old(out)@ + bytes@.take(i as int),
        decreases bytes@.len() - i,
    {
        out.push(bytes[i]);
        assert(out@ =~= old(out)@ + bytes@.take(i + 1));
        i += 1;
    }
    assert(bytes@.take(bytes@.len() as int) =~= bytes@);
}

/// The gzip stream around a body that is already compressed, for a payload
/// with the given checksum and length.
pub fn frame(name: &[u8], mtime: u32, body: &[u8], crc: u32, len: usize) -> (out: Vec<u8>)
    ensures
        out@ == gzip_stream(name@, mtime, body@, crc, len as nat),
{
    let mut out: Vec<u8> = Vec::new();
    out.push(0x1f);
    out.push(0x8b);
    out.push(0x08);
    out.push(0x08);
    assert(out@ =~= seq![0x1fu8, 0x8bu8, 0x08u8, 0x08u8]);
    push_le32(&mut out, mtime);
    out.push(0x00);
    out.push(0x03);
    assert(out@ =~= seq![0x1fu8, 0x8bu8, 0x08u8, 0x08u8] + le32(mtime) + seq![0x00u8, 0x03u8]);
    push_all(&mut out, name);
    out.push(0x00);
    assert(out@ =~= gzip_header(name@, mtime));
    push_all(&mut out, body);
    push_le32(&mut out, crc);
    let size: u32 = (len as u64 % 0x1_0000_0000) as u32;
    push_le32(&mut out, size);
    assert(out@ =~= gzip_stream(name@, mtime, body@, crc, len as nat));
    out
}

/// The gzip stream of a payload, to be stored under the given file name.
/// `file_name` is the file-name component of the output path; where the path
/// has none, the stream is refused with `MalformedOutputPath`. Fails with
/// `IoFailure` where, and only where, the payload cannot be compressed.
pub fn gzip_frame(file_name: Option<&str>, mtime: u32, data: &[u8]) -> (framed: Result<
    Vec<u8>,
    ExportError,
>)
    ensures
        match framed {
            Ok(out) => file_name matches Some(name) && gzip_of(name_bytes(name@), mtime, data@)
                == Some(out@),
            Err(e) => match file_name {
                None => e == ExportError::MalformedOutputPath,
                Some(name) => e == ExportError::IoFailure && gzip_of(
                    name_bytes(name@),
                    mtime,
                    data@,
                ) is None,
            },
        },
{
    let name = match file_name {
        Some(name) => name,
        None => {
            return Err(ExportError::MalformedOutputPath);
        },
    };
    match deflate(data) {
        Ok(body) => {
            let crc = crc32(data);
            Ok(frame(name.as_bytes(), mtime, body.as_slice(), crc, data.len()))
        },
        Err(_) => Err(ExportError::IoFailure),
    }
}

} // verus!
