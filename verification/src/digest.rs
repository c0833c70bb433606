//! SHA-256 content digests, computed by folding bounded chunks into a running
//! hash state, and their lower-case hexadecimal rendering.

use crate::text::push_char;
use sha2::Digest;
use sha2::Sha256;
use vstd::prelude::*;

verus! {

/// The hash state of the `sha2` crate.  Its fields are private; the verified
/// code only carries it around.
#[verifier::external_type_specification]
#[verifier::external_body]
pub struct ExSha256(Sha256);

/// The SHA-256 digest of a byte string, as `sha2` computes it.
pub uninterp spec fn sha256(data: Seq<u8>) -> Seq<u8>;

/// The bytes that a hash state has absorbed since it was created.
pub uninterp spec fn absorbed(state: Sha256) -> Seq<u8>;

/// Number of bytes of a SHA-256 digest.
pub const DIGEST_BYTES: usize = 32;

/// SHA-256 is defined for messages shorter than 2^64 bits.  `sha2` counts
/// blocks and bits in `u64`, so a state may absorb fewer than this many bytes.
pub const MAX_MESSAGE_BYTES: u64 = 0x2000_0000_0000_0000;

/// `sha2::Digest::new` for `Sha256`: a state that has absorbed nothing.
#[verifier::external_body]
fn sha256_new() -> (state: Sha256)
    ensures
        absorbed(state) == Seq::<u8>::empty(),
{
    Sha256::new()
}

/// `sha2::Digest::update` for `Sha256`: the state absorbs `chunk` after what
/// it absorbed before.  The crate's block and bit counters are `u64`, so the
/// total stays below `MAX_MESSAGE_BYTES`; within that bound the call does
/// not panic.
#[verifier::external_body]
fn sha256_update(state: &mut Sha256, chunk: &[u8])
    requires
        absorbed(*old(state)).len() + chunk@.len() < MAX_MESSAGE_BYTES,
    ensures
        absorbed(*final(state)) == absorbed(*old(state)) + chunk@,
    no_unwind
{
    state.update(chunk);
}

/// `sha2::Digest::finalize` for `Sha256`: the 32-byte digest of everything
/// the state absorbed.
#[verifier::external_body]
fn sha256_finalize(state: Sha256) -> (digest: Vec<u8>)
    requires
        absorbed(state).len() < MAX_MESSAGE_BYTES,
    ensures
        digest@ == sha256(absorbed(state)),
        digest@.len() == DIGEST_BYTES,
{
    state.finalize().to_vec()
}

/// Absorbs `chunk`, of `n` bytes, and advances the byte counter that mirrors
/// the state.
fn absorb(state: &mut Sha256, length: &mut u64, chunk: &[u8], n: u64)
    requires
        n == chunk@.len(),
        *old(length) == absorbed(*old(state)).len(),
        *old(length) + n < MAX_MESSAGE_BYTES,
    ensures
        absorbed(*final(state)) == absorbed(*old(state)) + chunk@,
        *final(length) == absorbed(*final(state)).len(),
    no_unwind
{
    sha256_update(state, chunk);
    *length = *length + n;
}

/// A running SHA-256 computation over a stream of chunks.
pub struct ContentHasher {
    state: Sha256,
    length: u64,
}

impl ContentHasher {
    /// The bytes fed so far, in order.
    pub closed spec fn view(&self) -> Seq<u8> {
        absorbed(self.state)
    }

    /// The length counter agrees with the stream and the stream is short
    /// enough to be digested.
    #[verifier::type_invariant]
    spec fn wf(&self) -> bool {
        &&& self.length == absorbed(self.state).len()
        &&& self.length < MAX_MESSAGE_BYTES
    }

    /// Whether `extra` more bytes can still be fed.
    pub open spec fn has_room(&self, extra: nat) -> bool {
        self@.len() + extra < MAX_MESSAGE_BYTES
    }

    /// A hasher that has been fed nothing.
    pub fn new() -> (hasher: ContentHasher)
        ensures
            hasher@ == Seq::<u8>::empty(),
    {
        ContentHasher { state: sha256_new(), length: 0 }
    }

    /// Number of bytes fed so far.
    pub fn len(&self) -> (n: u64)
        ensures
            n == self@.len(),
            n < MAX_MESSAGE_BYTES,
    {
        proof {
            use_type_invariant(self);
        }
        self.length
    }

    /// Feeds `chunk` unless the stream would become too long to digest.
    /// Returns whether the chunk was taken.
    pub fn update(&mut self, chunk: &[u8]) -> (taken: bool)
        ensures
            taken == old(self).has_room(chunk@.len()),
            taken ==> final(self)@ == old(self)@ + chunk@,
            !taken ==> final(self)@ == old(self)@,
    {
        proof {
            use_type_invariant(&*self);
        }
        let n: usize = chunk.len();
        if n as u64 >= MAX_MESSAGE_BYTES - self.length {
            return false;
        }
        absorb(&mut self.state, &mut self.length, chunk, n as u64);
        true
    }

    /// Ends the stream and returns the digest of all bytes fed.
    pub fn finalize(self) -> (digest: Vec<u8>)
        ensures
            digest@ == sha256(self@),
            digest@.len() == DIGEST_BYTES,
    {
        proof {
            use_type_invariant(&self);
        }
        sha256_finalize(self.state)
    }
}

/// The lower-case hexadecimal digit of a value below sixteen.
pub open spec fn hex_digit(nibble: u8) -> char {
    if nibble < 10 {
        (nibble + 48) as char
    } else {
        (nibble + 87) as char
    }
}

/// Two lower-case hexadecimal digits for each byte, the high half first.
pub open spec fn to_hex(bytes: Seq<u8>) -> Seq<char> {
    Seq::new(
        2 * bytes.len(),
        |i: int|
            if i % 2 == 0 {
                hex_digit(bytes[i / 2] / 16)
            } else {
                hex_digit(bytes[i / 2] % 16)
            },
    )
}

/// The digest by which the engine tells contents apart: SHA-256 in
/// lower-case hexadecimal, 64 characters.
pub open spec fn content_digest(content: Seq<u8>) -> Seq<char> {
    to_hex(sha256(content))
}

fn hex_char(nibble: u8) -> (c: char)
    requires
        nibble < 16,
    ensures
        c == hex_digit(nibble),
{
    if nibble < 10 {
        (nibble + 48) as char
    } else {
        (nibble + 87) as char
    }
}

/// Renders `bytes` in lower-case hexadecimal.
pub fn hex_encode(bytes: &[u8]) -> (text: String)
    ensures
        text@ == to_hex(bytes@),
{
    let mut text = String::new();
    let n: usize = bytes.len();
    let mut i: usize = 0;
    while i < n
        invariant
            n == bytes@.len(),
            i <= n,
            text@ == to_hex(bytes@.take(i as int)),
        decreases n - i,
    {
        let b: u8 = bytes[i];
        push_char(&mut text, hex_char(b / 16));
        push_char(&mut text, hex_char(b % 16));
        i = i + 1;
    }
    text
}

/// Bytes fed to the hash state at a time.
pub const CHUNK_BYTES: usize = 8192;

/// Digests `content` by folding it into a running hash state chunk by chunk.
/// There is no digest for a content too long for SHA-256.
pub fn hash_file(content: &[u8]) -> (digest: Option<String>)
    ensures
        digest is Some <==> content@.len() < MAX_MESSAGE_BYTES,
        digest matches Some(text) ==> text@ == content_digest(content@) && text@.len() == 2
            * DIGEST_BYTES,
{
    let n: usize = content.len();
    if n as u64 >= MAX_MESSAGE_BYTES {
        return None;
    }
    let mut hasher = ContentHasher::new();
    let mut at: usize = 0;
    while at < n
        invariant
            n == content@.len(),
            n < MAX_MESSAGE_BYTES,
            at <= n,
            hasher@ == content@.take(at as int),
        decreases n - at,
    {
        let end: usize = if n - at > CHUNK_BYTES {
            at + CHUNK_BYTES
        } else {
            n
        };
        let chunk = vstd::slice::slice_subrange(content, at, end);
        hasher.update(chunk);
        at = end;
    }
    assert(content@.take(n as int) =~= content@);
    let raw = hasher.finalize();
    Some(hex_encode(raw.as_slice()))
}

} // verus!
