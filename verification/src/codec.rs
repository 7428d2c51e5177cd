//! Canonical byte serialization and content hashing.
//!
//! Every value that needs a content identity (a block, a transaction) is
//! first laid out in a fixed, canonical little-endian byte form by verified
//! code here, and the resulting bytes are digested with Keccak-256. The
//! digest itself is the only step taken on trust.

use crate::words::Word256;
use vstd::prelude::*;

verus! {

/// `256^width`: the number of byte strings of length `width`.
pub open spec fn pow256(width: nat) -> nat
    decreases width,
{
    if width == 0 {
        1
    } else {
        256 * pow256((width - 1) as nat)
    }
}

/// The canonical byte form of a natural number: `width` bytes, least
/// significant first.
pub open spec fn le_bytes_of(n: nat, width: nat) -> Seq<u8>
    decreases width,
{
    if width == 0 {
        Seq::empty()
    } else {
        seq![(n % 256) as u8] + le_bytes_of(n / 256, (width - 1) as nat)
    }
}

/// The natural number a little-endian byte string denotes.
pub open spec fn nat_of_le_bytes(s: Seq<u8>) -> nat
    decreases s.len(),
{
    if s.len() == 0 {
        0
    } else {
        (s[0] + 256 * nat_of_le_bytes(s.subrange(1, s.len() as int))) as nat
    }
}

pub proof fn lemma_le_bytes_len(n: nat, width: nat)
    ensures
        le_bytes_of(n, width).len() == width,
    decreases width,
{
    if width > 0 {
        lemma_le_bytes_len(n / 256, (width - 1) as nat);
    }
}

/// Decoding inverts encoding: the byte form of a number below `256^width`
/// denotes that number again.
pub proof fn lemma_le_bytes_roundtrip(n: nat, width: nat)
    requires
        n < pow256(width),
    ensures
        nat_of_le_bytes(le_bytes_of(n, width)) == n,
    decreases width,
{
    if width > 0 {
        let rest = le_bytes_of(n / 256, (width - 1) as nat);
        lemma_le_bytes_len(n / 256, (width - 1) as nat);
        assert(n / 256 < pow256((width - 1) as nat)) by (nonlinear_arith)
            requires
                n < 256 * pow256((width - 1) as nat),
        ;
        lemma_le_bytes_roundtrip(n / 256, (width - 1) as nat);
        let s = le_bytes_of(n, width);
        assert(s.subrange(1, s.len() as int) =~= rest);
        assert(n % 256 + 256 * (n / 256) == n) by (nonlinear_arith);
    }
}

/// The canonical byte form is injective on numbers below `256^width`.
pub proof fn lemma_le_bytes_injective(a: nat, b: nat, width: nat)
    requires
        a < pow256(width),
        b < pow256(width),
        le_bytes_of(a, width) == le_bytes_of(b, width),
    ensures
        a == b,
{
    lemma_le_bytes_roundtrip(a, width);
    lemma_le_bytes_roundtrip(b, width);
}

/// The canonical byte form of a 256-bit word: its low half, then its high
/// half, 16 little-endian bytes each.
pub open spec fn encode_word(w: Word256) -> Seq<u8> {
    le_bytes_of(w.lo as nat, 16) + le_bytes_of(w.hi as nat, 16)
}

pub proof fn lemma_encode_word_len(w: Word256)
    ensures
        encode_word(w).len() == 32,
{
    lemma_le_bytes_len(w.lo as nat, 16);
    lemma_le_bytes_len(w.hi as nat, 16);
}

/// `256^16 == 2^128`, so every `u128` fits in 16 canonical bytes.
pub proof fn lemma_pow256_16()
    ensures
        pow256(16) == 0x1_0000_0000_0000_0000_0000_0000_0000_0000,
{
    reveal_with_fuel(pow256, 17);
    assert(pow256(16) == 0x1_0000_0000_0000_0000_0000_0000_0000_0000);
}

pub proof fn lemma_encode_word_injective(a: Word256, b: Word256)
    requires
        encode_word(a) == encode_word(b),
    ensures
        a == b,
{
    lemma_pow256_16();
    lemma_le_bytes_len(a.lo as nat, 16);
    lemma_le_bytes_len(b.lo as nat, 16);
    lemma_le_bytes_len(a.hi as nat, 16);
    lemma_le_bytes_len(b.hi as nat, 16);
    assert(le_bytes_of(a.lo as nat, 16) =~= encode_word(a).subrange(0, 16));
    assert(le_bytes_of(a.hi as nat, 16) =~= encode_word(a).subrange(16, 32));
    assert(le_bytes_of(b.lo as nat, 16) =~= encode_word(b).subrange(0, 16));
    assert(le_bytes_of(b.hi as nat, 16) =~= encode_word(b).subrange(16, 32));
    lemma_le_bytes_injective(a.lo as nat, b.lo as nat, 16);
    lemma_le_bytes_injective(a.hi as nat, b.hi as nat, 16);
}

/// Appends the canonical `width`-byte form of `v` to `out`. The caller keeps
/// `v` below `256^width`, so no digits are cut off.
pub fn push_le_bytes(out: &mut Vec<u8>, v: u128, width: usize) -> (r: ())
    ensures
        final(out)@ == old(out)@ + le_bytes_of(v as nat, width as nat),
{
    let ghost start = out@;
    let mut cur: u128 = v;
    let mut i: usize = 0;
    proof {
        assert(start + le_bytes_of(v as nat, width as nat) == start + le_bytes_of(
            cur as nat,
            (width - i) as nat,
        ));
    }
    while i < width
        invariant
            i <= width,
            start + le_bytes_of(v as nat, width as nat) == out@ + le_bytes_of(
                cur as nat,
                (width - i) as nat,
            ),
        decreases width - i,
    {
        let ghost before = out@;
        let ghost rem: nat = (width - i) as nat;
        out.push((cur % 256) as u8);
        proof {
            assert(le_bytes_of(cur as nat, rem) == seq![(cur as nat % 256) as u8] + le_bytes_of(
                cur as nat / 256,
                (rem - 1) as nat,
            ));
            assert(before + le_bytes_of(cur as nat, rem) =~= out@ + le_bytes_of(
                cur as nat / 256,
                (rem - 1) as nat,
            ));
        }
        cur = cur / 256;
        i = i + 1;
    }
    proof {
        lemma_le_bytes_len(cur as nat, 0);
        assert(out@ + le_bytes_of(cur as nat, 0) =~= out@);
    }
}

/// Appends the canonical 32-byte form of a word to `out`.
pub fn push_word(out: &mut Vec<u8>, w: &Word256)
    ensures
        final(out)@ == old(out)@ + encode_word(*w),
{
    push_le_bytes(out, w.lo, 16);
    push_le_bytes(out, w.hi, 16);
    proof {
        assert(out@ =~= old(out)@ + encode_word(*w));
    }
}

/// The word a 32-byte digest denotes: the first 16 bytes are its low half,
/// the last 16 its high half.
pub open spec fn word_of_digest(s: Seq<u8>) -> Word256 {
    Word256 {
        lo: nat_of_le_bytes(s.subrange(0, 16)) as u128,
        hi: nat_of_le_bytes(s.subrange(16, 32)) as u128,
    }
}

/// Reads the 16-byte little-endian number at `start`.
fn read_u128_le(bytes: &Vec<u8>, start: usize) -> (r: u128)
    requires
        start + 16 <= bytes@.len(),
    ensures
        r as nat == nat_of_le_bytes(bytes@.subrange(start as int, start + 16)),
{
    let n: usize = bytes.len();
    let mut acc: u128 = 0;
    let mut k: usize = 16;
    proof {
        lemma_pow256_16();
        assert(bytes@.subrange(start + 16, start + 16) =~= Seq::<u8>::empty());
    }
    while k > 0
        invariant
            k <= 16,
            n == bytes@.len(),
            start + 16 <= n,
            acc as nat == nat_of_le_bytes(bytes@.subrange(start + k, start + 16)),
            (acc as nat) < pow256((16 - k) as nat),
            pow256(16) == 0x1_0000_0000_0000_0000_0000_0000_0000_0000,
        decreases k,
    {
        k = k - 1;
        let ghost tail = bytes@.subrange(start + k + 1, start + 16);
        let ghost whole = bytes@.subrange(start + k, start + 16);
        proof {
            assert(whole.subrange(1, whole.len() as int) =~= tail);
            assert(pow256((16 - k) as nat) == 256 * pow256((16 - k - 1) as nat));
            assert(256 * (acc as nat) + 256 <= 256 * pow256((16 - k - 1) as nat))
                by (nonlinear_arith)
                requires
                    (acc as nat) < pow256((16 - k - 1) as nat),
            ;
            assert(pow256((16 - k) as nat) <= pow256(16)) by {
                lemma_pow256_monotone((16 - k) as nat, 16);
            }
        }
        acc = acc * 256 + (bytes[start + k] as u128);
    }
    proof {
        assert(bytes@.subrange(start as int, start + 16) =~= bytes@.subrange(
            start + 0,
            start + 16,
        ));
    }
    acc
}

pub proof fn lemma_pow256_monotone(a: nat, b: nat)
    requires
        a <= b,
    ensures
        pow256(a) <= pow256(b),
    decreases b,
{
    if a < b {
        lemma_pow256_monotone(a, (b - 1) as nat);
        assert(pow256(b) == 256 * pow256((b - 1) as nat));
        assert(pow256((b - 1) as nat) <= 256 * pow256((b - 1) as nat)) by (nonlinear_arith)
            requires
                pow256((b - 1) as nat) >= 0,
        ;
    }
}

/// Packs a 32-byte digest into a word.
fn word_of_digest_exec(bytes: &Vec<u8>) -> (r: Word256)
    requires
        bytes@.len() == 32,
    ensures
        r == word_of_digest(bytes@),
{
    let lo = read_u128_le(bytes, 0);
    let hi = read_u128_le(bytes, 16);
    Word256 { lo, hi }
}

/// An owned copy of a byte string.
pub fn copy_bytes(src: &Vec<u8>) -> (r: Vec<u8>)
    ensures
        r@ == src@,
{
    let mut out: Vec<u8> = Vec::new();
    let mut i: usize = 0;
    while i < src.len()
        invariant
            i <= src@.len(),
            out@ == src@.subrange(0, i as int),
        decreases src@.len() - i,
    {
        out.push(src[i]);
        proof {
            assert(src@.subrange(0, i as int) + seq![src@[i as int]] =~= src@.subrange(0, i + 1));
        }
        i = i + 1;
    }
    proof {
        assert(src@.subrange(0, src@.len() as int) =~= src@);
    }
    out
}

/// The Keccak-256 digest of a byte string, named but never written out: it
/// is a fixed function of the input bytes alone, computed by the `sha3`
/// crate.
pub uninterp spec fn keccak256_of(data: Seq<u8>) -> Seq<u8>;

/// Relies on `sha3::Keccak256` through `digest::Digest::digest`: the digest
/// is determined by the input bytes alone and is always 32 bytes long.
#[verifier::external_body]
fn keccak256(data: &[u8]) -> (r: Vec<u8>)
    ensures
        r@ == keccak256_of(data@),
        r@.len() == 32,
{
    <sha3::Keccak256 as sha3::Digest>::digest(data).to_vec()
}

/// The content hash of a canonical byte string: its Keccak-256 digest,
/// packed into a word.
pub open spec fn content_hash_of(data: Seq<u8>) -> Word256 {
    word_of_digest(keccak256_of(data))
}

/// Digests a canonical byte string into its content hash.
pub fn content_hash(data: &Vec<u8>) -> (r: Word256)
    ensures
        r == content_hash_of(data@),
{
    let digest = keccak256(data.as_slice());
    word_of_digest_exec(&digest)
}

} // verus!
