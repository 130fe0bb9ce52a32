use vstd::prelude::*;

use vstd::string::StringSliceAdditionalSpecFns;

use crate::value::{canonical, Value};

verus! {

/// A sequence of field elements as the hash's contract speaks of it. Implementations outside
/// verified code supply `spec_hash` with this type; only verification reads it.
pub type FieldElements = Seq<u64>;

/// A hash of a sequence of field elements into four field elements: plonky2's
/// `PoseidonHash::hash_no_pad` over Goldilocks in a deployment. The library is written against
/// this interface and trusts an implementation to be a deterministic function of its input,
/// named by `spec_hash`; it assumes nothing else of the digest.
pub trait Hasher {
    /// The digest of a sequence of field elements.
    spec fn spec_hash(input: Seq<u64>) -> Seq<u64>;

    /// Hashes a sequence of field elements, without padding.
    fn hash_no_pad(input: &[u64]) -> (r: [u64; 4])
        ensures
            r@ == Self::spec_hash(input@),
    ;
}

/// The four limbs of a digest as a hash value.
pub open spec fn hash_of_limbs(l: Seq<u64>) -> crate::value::Hash {
    crate::value::Hash(l[0], l[1], l[2], l[3])
}

pub open spec fn pow256(n: nat) -> nat
    decreases n,
{
    if n == 0 {
        1
    } else {
        256 * pow256((n - 1) as nat)
    }
}

/// Big-endian reading of up to seven bytes: the first byte is the most significant.
pub open spec fn pack_chunk(c: Seq<u8>) -> nat
    decreases c.len(),
{
    if c.len() == 0 {
        0
    } else {
        256 * pack_chunk(c.drop_last()) + c.last() as nat
    }
}

/// The bytes of a string with the single `0x01` pad byte appended.
pub open spec fn padded(bytes: Seq<u8>) -> Seq<u8> {
    bytes.push(1u8)
}

/// The number of seven-byte chunks of `n` bytes.
pub open spec fn n_chunks(n: nat) -> nat {
    ((n + 6) / 7) as nat
}

/// The field elements that a string hashes from: its padded bytes folded seven at a time,
/// each chunk read big-endian.
pub open spec fn str_fields(bytes: Seq<u8>) -> Seq<u64> {
    let p = padded(bytes);
    Seq::new(
        n_chunks(p.len()),
        |i: int|
            pack_chunk(p.subrange(7 * i, if 7 * i + 7 <= p.len() { 7 * i + 7 } else { p.len() as int }))
                as u64,
    )
}

/// The hash of a string.
pub open spec fn str_hash<H: Hasher>(bytes: Seq<u8>) -> crate::value::Hash {
    hash_of_limbs(H::spec_hash(str_fields(bytes)))
}

/// The hash of a string given by its characters: the hash of its UTF-8 bytes.
pub open spec fn key_hash<H: Hasher>(s: Seq<char>) -> crate::value::Hash {
    str_hash::<H>(vstd::utf8::encode_utf8(s))
}

/// The hash of a Merkle leaf: the key's four elements followed by the value's.
pub open spec fn leaf_hash<H: Hasher>(k: Value, v: Value) -> crate::value::Hash {
    hash_of_limbs(H::spec_hash(k.limbs() + v.limbs()))
}

/// The hash of a Merkle intermediate node: the left child's four elements followed by the
/// right child's.
pub open spec fn node_hash<H: Hasher>(l: crate::value::Hash, r: crate::value::Hash) -> crate::value::Hash {
    hash_of_limbs(H::spec_hash(l.limbs() + r.limbs()))
}

/// The hash of a value's own four elements.
pub open spec fn value_hash<H: Hasher>(v: Value) -> crate::value::Hash {
    hash_of_limbs(H::spec_hash(v.limbs()))
}

proof fn lemma_pack_bound(c: Seq<u8>)
    ensures
        pack_chunk(c) < pow256(c.len()),
    decreases c.len(),
{
    if c.len() > 0 {
        lemma_pack_bound(c.drop_last());
        let t = pack_chunk(c.drop_last());
        let p = pow256((c.len() - 1) as nat);
        let x = c.last();
        assert(256 * t + (x as nat) < 256 * p) by (nonlinear_arith)
            requires
                t < p,
                x < 256,
        ;
    }
}

pub proof fn lemma_pow256_mono(a: nat, b: nat)
    requires
        a <= b,
    ensures
        pow256(a) <= pow256(b),
    decreases b,
{
    if a < b {
        lemma_pow256_mono(a, (b - 1) as nat);
    }
}

/// Folds a chunk of at most seven bytes into one field element.
fn pack(c: &[u8]) -> (r: u64)
    requires
        c@.len() <= 7,
    ensures
        r as nat == pack_chunk(c@),
        canonical(r),
{
    proof {
        lemma_pack_bound(c@);
        lemma_pow256_mono(c@.len(), 7);
        reveal_with_fuel(pow256, 8);
        assert(pow256(7) == 0x100_0000_0000_0000);
    }
    let mut v: u64 = 0;
    let mut j: usize = 0;
    while j < c.len()
        invariant
            j <= c@.len() <= 7,
            v as nat == pack_chunk(c@.take(j as int)),
        decreases c.len() - j,
    {
        proof {
            assert(c@.take(j + 1).drop_last() =~= c@.take(j as int));
            lemma_pack_bound(c@.take(j as int));
            lemma_pow256_mono(j as nat, 6);
            reveal_with_fuel(pow256, 7);
            assert(pow256(6) == 0x1_0000_0000_0000);
        }
        v = v * 256 + c[j] as u64;
        j = j + 1;
    }
    assert(c@.take(c@.len() as int) =~= c@);
    v
}

/// The field elements that a string hashes from: its bytes with one `0x01` pad byte,
/// folded seven bytes at a time, each chunk read big-endian.
pub fn str_to_fields(s: &str) -> (r: Vec<u64>)
    ensures
        r@ == str_fields(s.spec_bytes()),
{
    let bytes = s.as_bytes();
    let mut input: Vec<u8> = Vec::new();
    let mut i: usize = 0;
    while i < bytes.len()
        invariant
            i <= bytes@.len(),
            bytes@ == s.spec_bytes(),
            input@ == bytes@.take(i as int),
        decreases bytes.len() - i,
    {
        input.push(bytes[i]);
        i = i + 1;
        assert(input@ =~= bytes@.take(i as int));
    }
    input.push(1);
    assert(input@ =~= padded(s.spec_bytes()));
    let n = input.len();
    let mut r: Vec<u64> = Vec::new();
    let mut start: usize = 0;
    while start < n
        invariant
            n == input@.len(),
            n >= 1,
            input@ == padded(s.spec_bytes()),
            start <= n,
            start < n ==> start % 7 == 0 && r@.len() == start / 7,
            start == n ==> r@.len() == n_chunks(n as nat),
            forall|k: int| 0 <= k < r@.len() ==> #[trigger] r@[k] == str_fields(s.spec_bytes())[k],
        decreases n - start,
    {
        let end = if n - start > 7 {
            start + 7
        } else {
            n
        };
        let chunk = vstd::slice::slice_subrange(input.as_slice(), start, end);
        let v = pack(chunk);
        proof {
            assert(start / 7 < n_chunks(n as nat)) by (nonlinear_arith)
                requires
                    start < n,
                    start % 7 == 0,
            ;
            let c = start / 7;
            assert(7 * c == start) by (nonlinear_arith)
                requires
                    c == start / 7,
                    start % 7 == 0,
            ;
            if end == n {
                assert(c + 1 == n_chunks(n as nat)) by (nonlinear_arith)
                    requires
                        c == start / 7,
                        start % 7 == 0,
                        n - start <= 7,
                        start < n,
                ;
            } else {
                assert((start + 7) % 7 == 0 && (start + 7) / 7 == c + 1) by (nonlinear_arith)
                    requires
                        c == start / 7,
                        start % 7 == 0,
                ;
            }
        }
        r.push(v);
        start = end;
    }
    assert(r@ =~= str_fields(s.spec_bytes()));
    r
}

/// Hashes a string: its folded bytes hashed without padding.
pub fn hash_str<H: Hasher>(s: &str) -> (r: crate::value::Hash)
    ensures
        r == str_hash::<H>(s.spec_bytes()),
{
    let input = str_to_fields(s);
    let d = H::hash_no_pad(input.as_slice());
    let r = crate::value::Hash(d[0], d[1], d[2], d[3]);
    assert(r.limbs() =~= d@);
    r
}

/// The hash of a Merkle leaf.
pub fn hash_leaf<H: Hasher>(k: &Value, v: &Value) -> (r: crate::value::Hash)
    ensures
        r == leaf_hash::<H>(*k, *v),
{
    let input = [k.0, k.1, k.2, k.3, v.0, v.1, v.2, v.3];
    assert(input@ =~= k.limbs() + v.limbs());
    let d = H::hash_no_pad(&input);
    let r = crate::value::Hash(d[0], d[1], d[2], d[3]);
    assert(r.limbs() =~= d@);
    r
}

/// The hash of a Merkle intermediate node from its children's hashes.
pub fn hash_nodes<H: Hasher>(l: &crate::value::Hash, r: &crate::value::Hash) -> (h: crate::value::Hash)
    ensures
        h == node_hash::<H>(*l, *r),
{
    let input = [l.0, l.1, l.2, l.3, r.0, r.1, r.2, r.3];
    assert(input@ =~= l.limbs() + r.limbs());
    let d = H::hash_no_pad(&input);
    let h = crate::value::Hash(d[0], d[1], d[2], d[3]);
    assert(h.limbs() =~= d@);
    h
}

/// The hash of a value's four elements (the key under which a set stores an element).
pub fn hash_value<H: Hasher>(v: &Value) -> (r: crate::value::Hash)
    ensures
        r == value_hash::<H>(*v),
{
    let input = [v.0, v.1, v.2, v.3];
    assert(input@ =~= v.limbs());
    let d = H::hash_no_pad(&input);
    let r = crate::value::Hash(d[0], d[1], d[2], d[3]);
    assert(r.limbs() =~= d@);
    r
}

} // verus!
