//! Validation data of cached layers (the size of an `axes.toml` and a truncated
//! BLAKE3 hash of its content, in lower-case hexadecimal), and the LZ4 framing
//! of the serialized layers stored in the cache.

use vstd::prelude::*;

verus! {

/// The number of hash bytes kept (32 hexadecimal characters).
pub const HASH_TRUNCATE_LENGTH: usize = 16;

/// The BLAKE3 digest of some bytes.
pub uninterp spec fn blake3_digest(data: Seq<u8>) -> Seq<u8>;

/// Hashes bytes with `blake3::hash`.
///
/// Trusted: the result is the 32-byte BLAKE3 digest of the input (the length is
/// that of the `[u8; OUT_LEN]` array the crate returns); its value is only named.
#[verifier::external_body]
fn blake3_hash(data: &[u8]) -> (r: Vec<u8>)
    ensures
        r@ == blake3_digest(data@),
        r@.len() == 32,
{
    blake3::hash(data).as_bytes().to_vec()
}

/// The lower-case hexadecimal digit of a nibble.
pub open spec fn hex_digit(n: int) -> char {
    if n == 0 {
        '0'
    } else if n == 1 {
        '1'
    } else if n == 2 {
        '2'
    } else if n == 3 {
        '3'
    } else if n == 4 {
        '4'
    } else if n == 5 {
        '5'
    } else if n == 6 {
        '6'
    } else if n == 7 {
        '7'
    } else if n == 8 {
        '8'
    } else if n == 9 {
        '9'
    } else if n == 10 {
        'a'
    } else if n == 11 {
        'b'
    } else if n == 12 {
        'c'
    } else if n == 13 {
        'd'
    } else if n == 14 {
        'e'
    } else {
        'f'
    }
}

/// Bytes in lower-case hexadecimal, two digits per byte, high nibble first.
pub open spec fn hex_of(data: Seq<u8>) -> Seq<char>
    decreases data.len(),
{
    if data.len() == 0 {
        Seq::empty()
    } else {
        hex_of(data.drop_last()) + seq![
            hex_digit(data.last() as int / 16),
            hex_digit(data.last() as int % 16),
        ]
    }
}

/// Encodes bytes with `hex::encode`.
///
/// Trusted: the crate's source maps each byte to its high and its low nibble in
/// the table `0123456789abcdef`, which is what [`hex_of`] states.
#[verifier::external_body]
fn hex_encode(data: &[u8]) -> (r: String)
    ensures
        r@ == hex_of(data@),
{
    hex::encode(data)
}

/// The content hash of a configuration file: the first 16 bytes of its BLAKE3
/// digest, in lower-case hexadecimal.
pub open spec fn content_hash_of(content: Seq<u8>) -> Seq<char> {
    hex_of(blake3_digest(content).subrange(0, HASH_TRUNCATE_LENGTH as int))
}

/// Hashes the content of a configuration file.
pub fn content_hash(content: &[u8]) -> (r: String)
    ensures
        r@ == content_hash_of(content@),
        r@.len() == 32,
{
    let digest = blake3_hash(content);
    let mut head: Vec<u8> = Vec::new();
    let mut i: usize = 0;
    while i < HASH_TRUNCATE_LENGTH
        invariant
            i <= HASH_TRUNCATE_LENGTH,
            digest@.len() == 32,
            head@ == digest@.subrange(0, i as int),
        decreases HASH_TRUNCATE_LENGTH - i,
    {
        head.push(digest[i]);
        assert(digest@.subrange(0, i + 1) =~= digest@.subrange(0, i as int).push(digest@[i as int]));
        i = i + 1;
    }
    proof {
        lemma_hex_len(head@);
    }
    hex_encode(head.as_slice())
}

/// Hexadecimal takes two digits per byte.
pub proof fn lemma_hex_len(data: Seq<u8>)
    ensures
        hex_of(data).len() == 2 * data.len(),
    decreases data.len(),
{
    if data.len() > 0 {
        lemma_hex_len(data.drop_last());
    }
}

/// The validation data of a cached layer's source file.
#[derive(Debug, PartialEq, Eq)]
pub struct CacheValidationData {
    /// The last modification time of the source file, in microseconds since
    /// the Unix epoch (negative before it).
    pub timestamp_micros: i128,
    /// The size of the source file in bytes.
    pub file_size: u64,
    /// The truncated BLAKE3 content hash of the source file.
    pub content_hash: String,
}

/// Computes the validation data of a file from its modification time, its
/// size and its content.
pub fn validation_data(timestamp_micros: i128, file_size: u64, content: &[u8]) -> (r: CacheValidationData)
    ensures
        r.timestamp_micros == timestamp_micros,
        r.file_size == file_size,
        r.content_hash@ == content_hash_of(content@),
{
    CacheValidationData { timestamp_micros, file_size, content_hash: content_hash(content) }
}


// =========================================================================
// === Framing of cached layers
// =========================================================================

#[verifier::external_type_specification]
#[verifier::external_body]
pub struct ExDecompressError(lz4_flex::block::DecompressError);

/// What `lz4_flex::block::compress_prepend_size` returns for some bytes.
pub uninterp spec fn lz4_framed(data: Seq<u8>) -> Seq<u8>;

/// What `lz4_flex::block::decompress_size_prepended` returns for some bytes:
/// the decompressed bytes, or `None` for an error.
pub uninterp spec fn lz4_unframed(data: Seq<u8>) -> Option<Seq<u8>>;

/// Compresses bytes with `lz4_flex::block::compress_prepend_size`.
///
/// Trusted: the result is the crate's LZ4 block with the input's length
/// prepended as 4 little-endian bytes (so it has at least 4 bytes), and, for an
/// input whose length fits those 4 bytes, `decompress_size_prepended` gives the
/// input back (the round trip the crate documents); its value is only named.
#[verifier::external_body]
fn lz4_compress(data: &[u8]) -> (r: Vec<u8>)
    ensures
        r@ == lz4_framed(data@),
        r@.len() >= 4,
        data@.len() <= u32::MAX ==> lz4_unframed(r@) == Some(data@),
{
    lz4_flex::block::compress_prepend_size(data)
}

/// Decompresses bytes with `lz4_flex::block::decompress_size_prepended`.
///
/// Trusted: the result is the crate's answer for these bytes, named by
/// [`lz4_unframed`]; nothing more of it is stated.
#[verifier::external_body]
fn lz4_decompress(data: &[u8]) -> (r: Result<Vec<u8>, lz4_flex::block::DecompressError>)
    ensures
        match r {
            Ok(v) => lz4_unframed(data@) == Some(v@),
            Err(_) => lz4_unframed(data@) is None,
        },
{
    lz4_flex::block::decompress_size_prepended(data)
}

/// The text of a decompression error, by its `Display`.
///
/// Trusted: nothing is stated of the text.
#[verifier::external_body]
fn decompress_error_text(e: &lz4_flex::block::DecompressError) -> (r: String) {
    format!("{}", e)
}

/// Why a cache file could not be read back.
#[derive(Debug, Clone)]
pub enum CacheReadError {
    /// The file is empty.
    Empty,
    /// The bytes are no valid LZ4 frame (the decompressor's message).
    Corrupt(String),
}

impl CacheReadError {
    /// The text of [`Self::message`].
    pub open spec fn message_text(&self) -> Seq<char> {
        match self {
            CacheReadError::Empty => "Cache file is empty."@,
            CacheReadError::Corrupt(m) => "Failed to decompress cache file: "@ + m@ + ". It might be corrupt."@,
        }
    }

    /// The message shown to the user.
    pub fn message(&self) -> (r: String)
        ensures
            r@ == self.message_text(),
    {
        match self {
            CacheReadError::Empty => crate::text::owned("Cache file is empty."),
            CacheReadError::Corrupt(m) => {
                let mut s = crate::text::owned("Failed to decompress cache file: ");
                crate::text::push_str(&mut s, m.as_str());
                crate::text::push_str(&mut s, ". It might be corrupt.");
                s
            },
        }
    }
}

/// What reading back the bytes of a cache file gives: an empty file is
/// refused; otherwise the decompressed bytes, or a corruption.
pub open spec fn unframe_outcome(bytes: Seq<u8>) -> Option<Seq<u8>> {
    if bytes.len() == 0 {
        None
    } else {
        lz4_unframed(bytes)
    }
}

/// Frames the serialized bytes of a layer for the cache: LZ4-compressed, with
/// their size prepended. Reading the frame back gives the bytes again.
pub fn frame_cached_layer(serialized: &[u8]) -> (r: Vec<u8>)
    requires
        serialized@.len() <= u32::MAX,
    ensures
        r@ == lz4_framed(serialized@),
        unframe_outcome(r@) == Some(serialized@),
{
    lz4_compress(serialized)
}

/// Reads back the serialized bytes of a layer from the bytes of its cache file.
pub fn unframe_cached_layer(bytes: &[u8]) -> (r: Result<Vec<u8>, CacheReadError>)
    ensures
        bytes@.len() == 0 ==> (r matches Err(CacheReadError::Empty)),
        bytes@.len() > 0 ==> match unframe_outcome(bytes@) {
            Some(d) => r is Ok && r->Ok_0@ == d,
            None => r matches Err(CacheReadError::Corrupt(_)),
        },
{
    if bytes.len() == 0 {
        return Err(CacheReadError::Empty);
    }
    match lz4_decompress(bytes) {
        Ok(v) => Ok(v),
        Err(e) => Err(CacheReadError::Corrupt(decompress_error_text(&e))),
    }
}

} // verus!
