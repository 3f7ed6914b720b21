//! Content hashing: a streaming MD5 digest over byte chunks, finished as a
//! lowercase hexadecimal fingerprint.
//!
//! The digest itself is computed by the `md-5` crate behind trusted
//! wrappers; everything around it — chunking, finishing, hex encoding —
//! is verified against the names and spec functions below.

use vstd::prelude::*;

verus! {

/// The bytes fed so far into an MD5 hasher state.
pub uninterp spec fn md5_fed(h: md5::Md5) -> Seq<u8>;

/// The MD5 digest (16 bytes) of a byte sequence. The algorithm itself is
/// not restated here; the digest is a function of the input bytes alone.
pub uninterp spec fn md5_digest_of(bytes: Seq<u8>) -> Seq<u8>;

#[verifier::external_type_specification]
#[verifier::external_body]
pub struct ExMd5(md5::Md5);

/// Relies on `digest::Digest::new` for `md5::Md5`: a fresh hasher state
/// with no input processed yet.
#[verifier::external_body]
fn md5_new() -> (r: md5::Md5)
    ensures
        md5_fed(r) == Seq::<u8>::empty(),
{
    <md5::Md5 as md5::Digest>::new()
}

/// Relies on `digest::Digest::update`: processing more input appends it
/// to the bytes the state has absorbed.
#[verifier::external_body]
fn md5_update(h: &mut md5::Md5, chunk: &[u8])
    ensures
        md5_fed(*final(h)) == md5_fed(*old(h)) + chunk@,
{
    <md5::Md5 as md5::Digest>::update(h, chunk);
}

/// Relies on `digest::Digest::finalize`: the 16-byte MD5 digest of all
/// bytes absorbed by the state.
#[verifier::external_body]
fn md5_finalize(h: md5::Md5) -> (r: Vec<u8>)
    ensures
        r@ == md5_digest_of(md5_fed(h)),
        r@.len() == 16,
{
    <md5::Md5 as md5::Digest>::finalize(h).to_vec()
}

/// The lowercase hex character for a value below 16.
pub open spec fn hex_digit(n: u8) -> char
    recommends
        n < 16,
{
    if n < 10 {
        ((48 + n) as u8) as char
    } else {
        ((87 + n) as u8) as char
    }
}

/// Lowercase hex encoding: two digits for each byte, high nibble first.
pub open spec fn hex_lower_of(bytes: Seq<u8>) -> Seq<char> {
    Seq::new(
        2 * bytes.len(),
        |i: int|
            if i % 2 == 0 {
                hex_digit(bytes[i / 2] / 16)
            } else {
                hex_digit((bytes[i / 2] % 16) as u8)
            },
    )
}

/// Relies on `base16ct::lower::encode_string`: the lowercase hex encoding
/// of the input, two digits per byte, high nibble first. The length bound
/// keeps the input inside the crate's documented panic-free range.
#[verifier::external_body]
fn to_hex(bytes: &Vec<u8>) -> (r: String)
    requires
        bytes@.len() * 2 <= usize::MAX,
    ensures
        r@ == hex_lower_of(bytes@),
{
    base16ct::lower::encode_string(bytes.as_slice())
}

/// An incremental content hasher: absorbs byte chunks and finishes as a
/// 32-character lowercase hex fingerprint. Its view is the sequence of
/// bytes absorbed so far.
pub struct StreamHasher {
    inner: md5::Md5,
}

impl View for StreamHasher {
    type V = Seq<u8>;

    closed spec fn view(&self) -> Seq<u8> {
        md5_fed(self.inner)
    }
}

impl StreamHasher {
    /// A hasher that has absorbed nothing.
    pub fn new() -> (r: StreamHasher)
        ensures
            r@ == Seq::<u8>::empty(),
    {
        StreamHasher { inner: md5_new() }
    }

    /// Absorbs one more chunk; the chunks are hashed as if concatenated.
    pub fn update(&mut self, chunk: &[u8])
        ensures
            final(self)@ == old(self)@ + chunk@,
    {
        md5_update(&mut self.inner, chunk);
    }

    /// Finishes the digest of everything absorbed and encodes it as
    /// lowercase hex.
    pub fn finish_hex(self) -> (r: String)
        ensures
            r@ == hex_lower_of(md5_digest_of(self@)),
            r@.len() == 32,
    {
        let digest = md5_finalize(self.inner);
        to_hex(&digest)
    }
}

/// The hex fingerprint of a byte sequence: the result of `hash_content`
/// on any input with these bytes, however it is chunked.
pub open spec fn content_digest(bytes: Seq<u8>) -> Seq<char> {
    hex_lower_of(md5_digest_of(bytes))
}

/// Hashes a complete byte content in bounded-size chunks and returns its
/// lowercase hex fingerprint. The result depends on the bytes alone, not
/// on the chunking.
pub fn hash_content(data: &[u8]) -> (r: String)
    ensures
        r@ == content_digest(data@),
        r@.len() == 32,
{
    let mut hasher = StreamHasher::new();
    let mut i: usize = 0;
    while i < data.len()
        invariant
            i <= data@.len(),
            hasher@ == data@.take(i as int),
        decreases data@.len() - i,
    {
        let end: usize = if data.len() - i < 1024 {
            data.len()
        } else {
            i + 1024
        };
        let chunk: &[u8] = &data[i..end];
        hasher.update(chunk);
        proof {
            assert(data@.take(i as int) + data@.subrange(i as int, end as int) =~= data@.take(
                end as int,
            ));
        }
        i = end;
    }
    proof {
        assert(data@.take(data@.len() as int) =~= data@);
    }
    hasher.finish_hex()
}

} // verus!
