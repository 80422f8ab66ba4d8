use vstd::prelude::*;
use vstd::slice::slice_subrange;

verus! {

/// Size of the bounded read buffer used when hashing a byte stream, so that
/// hashing never needs one allocation as large as the input.
pub const HASH_CHUNK: usize = 4194304;

/// The bytes fed so far into a running content hasher.
pub uninterp spec fn hasher_fed(h: blake3::Hasher) -> Seq<u8>;

/// The lowercase hexadecimal digest of a byte sequence: a deterministic,
/// collision-resistant (256-bit) function of the bytes alone.
pub uninterp spec fn blake3_hex(bytes: Seq<u8>) -> Seq<char>;

/// A lowercase hexadecimal digit, as the digest is made of.
pub open spec fn is_hex_char(c: char) -> bool {
    (48 <= c as u32 && c as u32 <= 57) || (97 <= c as u32 && c as u32 <= 102)
}

/// A full-length content digest: 64 lowercase hexadecimal characters.
pub open spec fn is_digest(s: Seq<char>) -> bool {
    s.len() == 64 && forall|i: int| 0 <= i < s.len() ==> is_hex_char(#[trigger] s[i])
}

#[verifier::external_type_specification]
#[verifier::external_body]
pub struct ExHasher(blake3::Hasher);

/// Relies on blake3::Hasher::new: a hasher that has been fed nothing.
#[verifier::external_body]
fn blake3_new() -> (r: blake3::Hasher)
    ensures
        hasher_fed(r) == Seq::<u8>::empty(),
{
    blake3::Hasher::new()
}

/// Relies on blake3::Hasher::update: appends the input to the bytes fed.
#[verifier::external_body]
fn blake3_update(h: &mut blake3::Hasher, data: &[u8])
    ensures
        hasher_fed(*final(h)) == hasher_fed(*old(h)) + data@,
{
    h.update(data);
}

/// Relies on blake3::Hasher::finalize and blake3::Hash::to_hex: the digest of
/// the bytes fed, rendered as 64 lowercase hexadecimal characters.
#[verifier::external_body]
fn blake3_finalize_hex(h: &blake3::Hasher) -> (r: String)
    ensures
        r@ == blake3_hex(hasher_fed(*h)),
        is_digest(r@),
{
    h.finalize().to_hex().as_str().to_string()
}

/// An incremental content hasher over a byte stream; its view is the
/// sequence of bytes fed so far.
pub struct ContentHasher {
    inner: blake3::Hasher,
}

impl View for ContentHasher {
    type V = Seq<u8>;

    closed spec fn view(&self) -> Seq<u8> {
        hasher_fed(self.inner)
    }
}

impl ContentHasher {
    /// A hasher that has seen no bytes.
    pub fn new() -> (r: ContentHasher)
        ensures
            r@ == Seq::<u8>::empty(),
    {
        ContentHasher { inner: blake3_new() }
    }

    /// Feeds more bytes into the hasher.
    pub fn update(&mut self, data: &[u8])
        ensures
            final(self)@ == old(self)@ + data@,
    {
        blake3_update(&mut self.inner, data);
    }

    /// The digest of everything fed so far.
    pub fn finalize_hex(&self) -> (r: String)
        ensures
            r@ == blake3_hex(self@),
            is_digest(r@),
    {
        blake3_finalize_hex(&self.inner)
    }
}

/// The content digest of a whole in-memory buffer, computed over a bounded
/// read window at a time.
pub fn hash_bytes(data: &[u8]) -> (r: String)
    ensures
        r@ == blake3_hex(data@),
        is_digest(r@),
{
    let mut hasher = ContentHasher::new();
    let mut i: usize = 0;
    while i < data.len()
        invariant
            i <= data@.len(),
            hasher@ == data@.take(i as int),
        decreases data@.len() - i,
    {
        let j: usize = if data.len() - i < HASH_CHUNK {
            data.len()
        } else {
            i + HASH_CHUNK
        };
        hasher.update(slice_subrange(data, i, j));
        proof {
            assert(data@.take(i as int) + data@.subrange(i as int, j as int) =~= data@.take(
                j as int,
            ));
        }
        i = j;
    }
    proof {
        assert(data@.take(data@.len() as int) =~= data@);
    }
    hasher.finalize_hex()
}

} // verus!
