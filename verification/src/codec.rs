//! Compression of text messages with zlib (deflate).
use std::io::{Read, Write};

use flate2::read::ZlibDecoder;
use flate2::write::ZlibEncoder;
use flate2::Compression;
use vstd::prelude::*;
use vstd::utf8::{decode_utf8, encode_utf8, valid_utf8};

verus! {

/// The compression level that `Compression::default()` stands for.
pub const DEFAULT_COMPRESSION_LEVEL: u32 = 6;

/// The zlib stream that flate2 writes for bytes at a compression level.
pub uninterp spec fn zlib_compress(level: u32, data: Seq<u8>) -> Seq<u8>;

/// The bytes that flate2 reads out of a zlib stream, or `None` where the
/// stream is not valid.
pub uninterp spec fn zlib_decompress(stream: Seq<u8>) -> Option<Seq<u8>>;

/// Calls `ZlibEncoder::new(Vec::new(), Compression::new(level))`,
/// `write_all` and `finish`, and returns the zlib stream of the bytes. It
/// succeeds: writing into a `Vec` has no I/O error, and the deflate stream of
/// miniz_oxide under a level up to nine, fed by the encoder itself, reports
/// no error but `Buf`, which the writer takes as no progress, not as a
/// failure. An error would be returned as its message.
#[verifier::external_body]
fn zlib_encode(level: u32, data: &[u8]) -> (r: Result<Vec<u8>, String>)
    requires
        level <= 9,
    ensures
        r is Ok,
        r matches Ok(stream) ==> stream@ == zlib_compress(level, data@),
{
    let mut encoder = ZlibEncoder::new(Vec::new(), Compression::new(level));
    encoder.write_all(data).map_err(|e| e.to_string())?;
    encoder.finish().map_err(|e| e.to_string())
}

/// Calls `ZlibDecoder::new` and `Read::read_to_string`, which succeeds when
/// the input is a valid zlib stream whose content is UTF-8 text, and gives
/// that text. Decompression gives back what compression was given, so the
/// stream of the UTF-8 bytes of a text gives that text.
#[verifier::external_body]
fn zlib_decode_text(stream: &[u8]) -> (r: Result<String, String>)
    ensures
        (r is Ok) == (zlib_decompress(stream@) is Some && valid_utf8(
            zlib_decompress(stream@)->Some_0,
        )),
        r matches Ok(text) ==> text@ == decode_utf8(zlib_decompress(stream@)->Some_0),
        forall|level: u32, text: Seq<char>|
            #![trigger zlib_compress(level, encode_utf8(text))]
            level <= 9 && zlib_compress(level, encode_utf8(text)) == stream@ ==> r is Ok
                && r->Ok_0@ == text,
{
    let mut decoded = String::new();
    ZlibDecoder::new(stream).read_to_string(&mut decoded).map_err(|e| e.to_string())?;
    Ok(decoded)
}

/// Compression and decompression of text messages.
pub trait Codec {
    /// Compresses a text message.
    fn encode_message(&self, message: &str) -> Result<Vec<u8>, DataEncodingError>;

    /// Decompresses a text message.
    fn decode_message(&self, message: &[u8]) -> Result<String, DataDecodingError>;
}

/// The zlib codec.
pub struct DeflateCodec {
    level: u32,
}

impl DeflateCodec {
    #[verifier::type_invariant]
    spec fn level_in_range(self) -> bool {
        self.level <= 9
    }

    /// The compression level.
    pub closed spec fn level(self) -> u32 {
        self.level
    }

    /// A codec at the default compression level.
    pub fn new() -> (c: DeflateCodec)
        ensures
            c.level() == DEFAULT_COMPRESSION_LEVEL,
    {
        DeflateCodec { level: DEFAULT_COMPRESSION_LEVEL }
    }
}

impl Codec for DeflateCodec {
    /// Compresses the UTF-8 bytes of a text message into their zlib stream;
    /// compressing into memory does not fail.
    fn encode_message(&self, message: &str) -> (r: Result<Vec<u8>, DataEncodingError>)
        ensures
            r is Ok,
            r matches Ok(stream) ==> stream@ == zlib_compress(self.level(), encode_utf8(message@)),
    {
        proof {
            use_type_invariant(self);
        }
        match zlib_encode(self.level, message.as_bytes()) {
            Ok(v) => Ok(v),
            Err(e) => Err(DataEncodingError(e)),
        }
    }

    /// Decompresses a text message. A stream that is not valid zlib, or
    /// whose content is not UTF-8 text, is refused. The stream of a text
    /// message gives that message back.
    fn decode_message(&self, message: &[u8]) -> (r: Result<String, DataDecodingError>)
        ensures
            (r is Ok) == (zlib_decompress(message@) is Some && valid_utf8(
                zlib_decompress(message@)->Some_0,
            )),
            r matches Ok(text) ==> text@ == decode_utf8(zlib_decompress(message@)->Some_0),
            forall|text: Seq<char>|
                #![trigger zlib_compress(self.level(), encode_utf8(text))]
                zlib_compress(self.level(), encode_utf8(text)) == message@ ==> r is Ok
                    && r->Ok_0@ == text,
    {
        proof {
            use_type_invariant(self);
        }
        let r = zlib_decode_text(message);
        assert forall|text: Seq<char>|
            #![trigger zlib_compress(self.level(), encode_utf8(text))]
            zlib_compress(self.level(), encode_utf8(text)) == message@ implies r is Ok && r->Ok_0@
                == text by {
            assert(zlib_compress(self.level, encode_utf8(text)) == message@);
        }
        match r {
            Ok(s) => Ok(s),
            Err(e) => Err(DataDecodingError(e)),
        }
    }
}

/// A message could not be compressed.
#[derive(Debug)]
pub struct DataEncodingError(pub String);

/// A message could not be decompressed.
#[derive(Debug)]
pub struct DataDecodingError(pub String);

} // verus!
