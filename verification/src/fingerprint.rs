//! Content fingerprints for the build cache.
//!
//! A source file's fingerprint is a 128-bit digest of its content, with a
//! 64-bit hash of each build option widened to 128 bits and folded in by
//! exclusive or. Equal content and equal options always give equal
//! fingerprints, and for fixed options two sources with different content
//! digests never collide.

use vstd::prelude::*;

verus! {

/// The first 16 bytes, read little-endian, of the BLAKE3 extended output
/// over `data`.
pub uninterp spec fn blake3_128_of(data: Seq<u8>) -> u128;

/// Relies on blake3::Hasher (`new`, `update`, `finalize_xof`) and
/// blake3::OutputReader::fill: the extended output depends on the hashed
/// bytes alone; its first 16 bytes are taken here.
#[verifier::external_body]
pub(crate) fn content_hash(data: &[u8]) -> (r: u128)
    ensures
        r == blake3_128_of(data@),
{
    let mut hasher = blake3::Hasher::new();
    hasher.update(data);
    let mut buf = [0u8; 16];
    hasher.finalize_xof().fill(&mut buf);
    u128::from_le_bytes(buf)
}

/// The 64-bit FNV-1a offset basis.
pub const FNV_OFFSET: u64 = 0xcbf29ce484222325;

/// The 64-bit FNV-1a prime.
pub const FNV_PRIME: u64 = 0x100000001b3;

/// One FNV-1a round: fold one byte into the running hash.
pub open spec fn fnv1a_step(h: u64, b: u8) -> u64 {
    vstd::wrapping::u64_specs::wrapping_mul(h ^ (b as u64), FNV_PRIME)
}

/// FNV-1a over `data`, started from `h`.
pub open spec fn fnv1a_from(h: u64, data: Seq<u8>) -> u64
    decreases data.len(),
{
    if data.len() == 0 {
        h
    } else {
        fnv1a_from(fnv1a_step(h, data[0]), data.skip(1))
    }
}

/// The 64-bit FNV-1a hash of `data`.
pub open spec fn fnv1a(data: Seq<u8>) -> u64 {
    fnv1a_from(FNV_OFFSET, data)
}

/// A 64-bit value replicated into both halves of a 128-bit value.
pub open spec fn widened(h: u64) -> u128 {
    (h as u128) | ((h as u128) << 64)
}

/// Computes the FNV-1a hash of `data`.
pub fn fnv1a_hash(data: &[u8]) -> (r: u64)
    ensures
        r == fnv1a(data@),
{
    let mut h: u64 = FNV_OFFSET;
    let n = data.len();
    let mut i: usize = 0;
    proof {
        assert(data@.skip(0) =~= data@);
    }
    while i < n
        invariant
            n == data@.len(),
            0 <= i <= n,
            fnv1a(data@) == fnv1a_from(h, data@.skip(i as int)),
        decreases n - i,
    {
        let ghost s = data@.skip(i as int);
        proof {
            assert(s[0] == data@[i as int]);
            assert(fnv1a_from(h, s) == fnv1a_from(fnv1a_step(h, s[0]), s.skip(1)));
            assert(s.skip(1) =~= data@.skip(i + 1));
        }
        h = (h ^ (data[i] as u64)).wrapping_mul(FNV_PRIME);
        i = i + 1;
    }
    proof {
        assert(data@.skip(n as int) =~= Seq::<u8>::empty());
    }
    h
}

/// Folds a 64-bit hash of `value` into `prev_hash`: the hash is widened to
/// fill 128 bits and combined by exclusive or.
pub fn append_hash(prev_hash: &mut u128, value: &[u8])
    ensures
        *final(prev_hash) == *old(prev_hash) ^ widened(fnv1a(value@)),
{
    let h = fnv1a_hash(value);
    let ext: u128 = (h as u128) | ((h as u128) << 64);
    *prev_hash = *prev_hash ^ ext;
}

/// A canonical byte image of a list of byte strings: each prefixed by its
/// length, so that list boundaries cannot shift.
pub open spec fn encoded_list(items: Seq<Seq<u8>>) -> Seq<u8>
    decreases items.len(),
{
    if items.len() == 0 {
        seq![]
    } else {
        vstd::bytes::spec_u64_to_le_bytes(#[verifier::truncate] (items[0].len() as u64)) + items[0]
            + encoded_list(items.skip(1))
    }
}

/// A canonical byte image of an optional byte string.
pub open spec fn encoded_option(o: Option<Seq<u8>>) -> Seq<u8> {
    match o {
        Option::None => seq![0u8],
        Option::Some(s) => seq![1u8] + s,
    }
}

/// A canonical byte image of a flag.
pub open spec fn encoded_flag(b: bool) -> Seq<u8> {
    if b {
        seq![1u8]
    } else {
        seq![0u8]
    }
}

/// Encodes a list of byte strings as `encoded_list` describes.
pub fn encode_list(items: &Vec<Vec<u8>>) -> (r: Vec<u8>)
    ensures
        r@ == encoded_list(crate::bytes::views_of(items@)),
{
    let mut buf: Vec<u8> = Vec::new();
    let n = items.len();
    let mut i: usize = 0;
    proof {
        let views = crate::bytes::views_of(items@);
        assert(views.skip(0) =~= views);
        assert(buf@ + encoded_list(views) =~= encoded_list(views));
    }
    while i < n
        invariant
            n == items@.len(),
            0 <= i <= n,
            encoded_list(crate::bytes::views_of(items@)) == buf@ + encoded_list(
                crate::bytes::views_of(items@).skip(i as int),
            ),
        decreases n - i,
    {
        let ghost views = crate::bytes::views_of(items@);
        let ghost s = views.skip(i as int);
        proof {
            assert(s[0] == views[i as int]);
            assert(s.skip(1) =~= views.skip(i + 1));
            assert(encoded_list(s) == vstd::bytes::spec_u64_to_le_bytes(s[0].len() as u64) + s[0]
                + encoded_list(s.skip(1)));
        }
        let len_bytes = vstd::bytes::u64_to_le_bytes(items[i].len() as u64);
        crate::bytes::append_bytes(&mut buf, len_bytes.as_slice());
        crate::bytes::append_bytes(&mut buf, items[i].as_slice());
        i = i + 1;
    }
    proof {
        let views = crate::bytes::views_of(items@);
        assert(views.skip(n as int) =~= Seq::<Seq<u8>>::empty());
        assert(encoded_list(views.skip(n as int)) =~= Seq::<u8>::empty());
        assert(encoded_list(views) =~= buf@);
    }
    buf
}

/// Encodes an optional byte string as `encoded_option` describes.
pub fn encode_option(o: &Option<Vec<u8>>) -> (r: Vec<u8>)
    ensures
        r@ == encoded_option(match o {
            Option::None => Option::None,
            Option::Some(v) => Option::Some(v@),
        }),
{
    let mut buf: Vec<u8> = Vec::new();
    match o {
        Option::None => {
            buf.push(0);
            proof {
                assert(buf@ =~= seq![0u8]);
            }
        },
        Option::Some(v) => {
            buf.push(1);
            crate::bytes::append_bytes(&mut buf, v.as_slice());
            proof {
                assert(buf@ =~= seq![1u8] + v@);
            }
        },
    }
    buf
}

/// Encodes a flag as `encoded_flag` describes.
pub fn encode_flag(b: bool) -> (r: Vec<u8>)
    ensures
        r@ == encoded_flag(b),
{
    let mut buf: Vec<u8> = Vec::new();
    if b {
        buf.push(1);
        proof {
            assert(buf@ =~= seq![1u8]);
        }
    } else {
        buf.push(0);
        proof {
            assert(buf@ =~= seq![0u8]);
        }
    }
    buf
}

/// Law: folding the same value into equal hashes yields equal hashes, and
/// folding it into different hashes keeps them different. The fold is an
/// exclusive or, so it cancels and never loses what it was folded into.
pub proof fn lemma_fold_preserves_distinctness(base1: u128, base2: u128, h: u64)
    ensures
        (base1 ^ widened(h)) == (base2 ^ widened(h)) <==> base1 == base2,
{
    let m = widened(h);
    assert((base1 ^ m == base2 ^ m) <==> base1 == base2) by (bit_vector);
}

} // verus!
