use vstd::prelude::*;
use vstd::string::StringSliceAdditionalSpecFns;

verus! {

/// The order of the Goldilocks field, `2^64 - 2^32 + 1`.
pub const GOLDILOCKS_ORDER: u64 = 0xffff_ffff_0000_0001;

/// A field element is held as its canonical representative.
pub open spec fn canonical(x: u64) -> bool {
    x < GOLDILOCKS_ORDER
}

pub open spec fn limbs_canonical(l: Seq<u64>) -> bool {
    forall|i: int| 0 <= i < l.len() ==> canonical(#[trigger] l[i])
}

/// Lexicographic order on four limbs, most significant limb (index 3) first.
pub open spec fn limbs_lt(a: Seq<u64>, b: Seq<u64>) -> bool {
    ||| a[3] < b[3]
    ||| a[3] == b[3] && a[2] < b[2]
    ||| a[3] == b[3] && a[2] == b[2] && a[1] < b[1]
    ||| a[3] == b[3] && a[2] == b[2] && a[1] == b[1] && a[0] < b[0]
}

/// Compares two limb tuples, most significant limb first.
fn limbs_less(a: (u64, u64, u64, u64), b: (u64, u64, u64, u64)) -> (r: bool)
    ensures
        r == limbs_lt(seq![a.0, a.1, a.2, a.3], seq![b.0, b.1, b.2, b.3]),
{
    if a.3 != b.3 {
        a.3 < b.3
    } else if a.2 != b.2 {
        a.2 < b.2
    } else if a.1 != b.1 {
        a.1 < b.1
    } else {
        a.0 < b.0
    }
}

/// A value: four field elements. Integers, booleans, string hashes, container roots and raw
/// tuples all share this shape.
#[derive(Clone, Copy, Debug, PartialEq, Eq, Hash, Default, Structural)]
pub struct Value(pub u64, pub u64, pub u64, pub u64);

/// A hash digest: four field elements.
#[derive(Clone, Copy, Debug, PartialEq, Eq, Hash, Default, Structural)]
pub struct Hash(pub u64, pub u64, pub u64, pub u64);

/// Identifies a pod; `NULL` stands for no pod and `SELF` for the pod being built.
#[derive(Clone, Copy, Debug, PartialEq, Eq, Hash, Default, Structural)]
pub struct PodId(pub Hash);

/// The all-zero value.
pub open spec fn empty_value() -> Value {
    Value(0, 0, 0, 0)
}

/// The all-zero hash, which also stands for "no pod".
pub open spec fn null_hash() -> Hash {
    Hash(0, 0, 0, 0)
}

/// The id that names the pod under construction.
pub open spec fn self_id() -> PodId {
    PodId(Hash(1, 0, 0, 0))
}

impl Value {
    /// The all-zero value.
    pub fn empty() -> (r: Value)
        ensures
            r == empty_value(),
    {
        Value(0, 0, 0, 0)
    }
}

impl Hash {
    /// The all-zero hash.
    pub fn null() -> (r: Hash)
        ensures
            r == null_hash(),
    {
        Hash(0, 0, 0, 0)
    }
}

impl PodId {
    /// The id of the pod under construction.
    pub fn self_pod() -> (r: PodId)
        ensures
            r == self_id(),
    {
        PodId(Hash(1, 0, 0, 0))
    }

    /// The id that stands for no pod.
    pub fn null() -> (r: PodId)
        ensures
            r == PodId(null_hash()),
    {
        PodId(Hash(0, 0, 0, 0))
    }
}

pub const TWO_POW_32: u64 = 0x1_0000_0000;

/// The encoding of an integer: its two's-complement bits (the cast to `u64`) split in a low
/// and a high half.
pub open spec fn i64_embedding(v: i64) -> Value {
    Value(((v as u64) % 0x1_0000_0000) as u64, ((v as u64) / 0x1_0000_0000) as u64, 0, 0)
}

/// Whether a value has the shape of an embedded integer.
pub open spec fn is_i64_embedding(v: Value) -> bool {
    v.2 == 0 && v.3 == 0 && v.0 < 0x1_0000_0000 && v.1 < 0x1_0000_0000
}

/// The integer that a value of integer shape encodes: the two halves joined and read back in
/// two's complement.
pub open spec fn i64_of(v: Value) -> i64 {
    (v.0 + v.1 * 0x1_0000_0000) as u64 as i64
}

impl Value {
    /// The four field elements, least significant first.
    pub open spec fn limbs(&self) -> Seq<u64> {
        seq![self.0, self.1, self.2, self.3]
    }

    pub open spec fn wf(&self) -> bool {
        limbs_canonical(self.limbs())
    }

    pub open spec fn lt(&self, other: &Value) -> bool {
        limbs_lt(self.limbs(), other.limbs())
    }

    /// Embeds an integer.
    pub fn from_i64(v: i64) -> (r: Value)
        ensures
            r == i64_embedding(v),
            r.wf(),
            is_i64_embedding(r),
    {
        let u = #[verifier::truncate] (v as u64);
        let lo = u & 0xffff_ffff;
        let hi = u >> 32;
        assert(u & 0xffff_ffff == u % 0x1_0000_0000) by (bit_vector);
        assert(u >> 32 == u / 0x1_0000_0000) by (bit_vector);
        Value(lo, hi, 0, 0)
    }

    /// The value with the same four elements as a hash.
    pub fn from_hash(h: Hash) -> (r: Value)
        ensures
            r == Value(h.0, h.1, h.2, h.3),
            r.limbs() == h.limbs(),
    {
        Value(h.0, h.1, h.2, h.3)
    }

    /// Reads back an embedded integer.
    pub fn to_i64(&self) -> (r: Result<i64, crate::error::Error>)
        ensures
            is_i64_embedding(*self) ==> r == Ok::<i64, crate::error::Error>(i64_of(*self)),
            !is_i64_embedding(*self) ==> r == Err::<i64, crate::error::Error>(
                crate::error::Error::ValueNotInI64Embedding,
            ),
    {
        if self.2 != 0 || self.3 != 0 || self.0 >= TWO_POW_32 || self.1 >= TWO_POW_32 {
            Err(crate::error::Error::ValueNotInI64Embedding)
        } else {
            assert(self.1 * TWO_POW_32 <= (TWO_POW_32 - 1) * TWO_POW_32) by (nonlinear_arith)
                requires
                    self.1 < TWO_POW_32,
            ;
            let u: u64 = self.0 + self.1 * TWO_POW_32;
            Ok(#[verifier::truncate] (u as i64))
        }
    }

    /// `self < other` in the value order (most significant limb first).
    pub fn less_than(&self, other: &Value) -> (r: bool)
        ensures
            r == self.lt(other),
    {
        limbs_less((self.0, self.1, self.2, self.3), (other.0, other.1, other.2, other.3))
    }
}

/// The embedding is injective and read back by `to_i64`.
pub proof fn lemma_i64_round_trip(v: i64)
    ensures
        is_i64_embedding(i64_embedding(v)),
        i64_of(i64_embedding(v)) == v,
{
    let u = v as u64;
    assert((u % 0x1_0000_0000) + (u / 0x1_0000_0000) * 0x1_0000_0000 == u) by (nonlinear_arith);
    assert(u / 0x1_0000_0000 < 0x1_0000_0000) by (nonlinear_arith)
        requires
            u < 0x1_0000_0000_0000_0000,
    ;
    assert((v as u64) as i64 == v) by (bit_vector);
}

impl Hash {
    /// The four field elements, least significant first.
    pub open spec fn limbs(&self) -> Seq<u64> {
        seq![self.0, self.1, self.2, self.3]
    }

    pub open spec fn wf(&self) -> bool {
        limbs_canonical(self.limbs())
    }

    pub open spec fn lt(&self, other: &Hash) -> bool {
        limbs_lt(self.limbs(), other.limbs())
    }

    /// `self < other` in the hash order (most significant limb first).
    pub fn less_than(&self, other: &Hash) -> (r: bool)
        ensures
            r == self.lt(other),
    {
        limbs_less((self.0, self.1, self.2, self.3), (other.0, other.1, other.2, other.3))
    }
}

/// The kinds of pods, with their numeric codes.
#[derive(Clone, Copy, Debug, PartialEq, Eq, Structural)]
pub enum PodType {
    Empty,
    MockSigned,
    MockMain,
    Signed,
    Main,
}

impl PodType {
    pub open spec fn spec_code(&self) -> i64 {
        match self {
            PodType::Empty => 0,
            PodType::MockSigned => 1,
            PodType::MockMain => 2,
            PodType::Signed => 3,
            PodType::Main => 4,
        }
    }

    pub fn code(&self) -> (r: i64)
        ensures
            r == self.spec_code(),
    {
        match self {
            PodType::Empty => 0,
            PodType::MockSigned => 1,
            PodType::MockMain => 2,
            PodType::Signed => 3,
            PodType::Main => 4,
        }
    }

    /// The value that stands for this pod type: its code as an integer.
    pub fn to_value(&self) -> (r: Value)
        ensures
            r == i64_embedding(self.spec_code()),
    {
        Value::from_i64(self.code())
    }
}

/// The bounds that fix the shape of a compiled main pod.
#[derive(Clone, Copy, Debug)]
pub struct Params {
    pub max_input_signed_pods: usize,
    pub max_input_main_pods: usize,
    pub max_statements: usize,
    pub max_signed_pod_values: usize,
    pub max_public_statements: usize,
    pub max_statement_args: usize,
    pub max_operation_args: usize,
}

impl Params {
    /// The number of statement slots left for private statements.
    pub fn max_priv_statements(&self) -> (r: usize)
        requires
            self.max_public_statements <= self.max_statements,
        ensures
            r == self.max_statements - self.max_public_statements,
    {
        self.max_statements - self.max_public_statements
    }
}

impl Default for Params {
    fn default() -> (r: Params)
        ensures
            r.max_input_signed_pods == 3,
            r.max_input_main_pods == 3,
            r.max_statements == 20,
            r.max_signed_pod_values == 8,
            r.max_public_statements == 10,
            r.max_statement_args == 5,
            r.max_operation_args == 5,
    {
        Params {
            max_input_signed_pods: 3,
            max_input_main_pods: 3,
            max_statements: 20,
            max_signed_pod_values: 8,
            max_public_statements: 10,
            max_statement_args: 5,
            max_operation_args: 5,
        }
    }
}

/// The value of a hexadecimal digit character, if it is one.
pub open spec fn hex_digit(c: u8) -> Option<u8> {
    if 48 <= c <= 57 {
        Some((c - 48) as u8)
    } else if 97 <= c <= 102 {
        Some((c - 87) as u8)
    } else if 65 <= c <= 70 {
        Some((c - 55) as u8)
    } else {
        None
    }
}

/// `s` is the hexadecimal encoding of 32 bytes.
pub open spec fn is_hex32(s: Seq<u8>) -> bool {
    s.len() == 64 && forall|i: int| 0 <= i < 64 ==> (#[trigger] hex_digit(s[i])).is_some()
}

/// Byte `i` of a hexadecimal encoding: two digits, the first one high.
pub open spec fn hex_byte(s: Seq<u8>, i: int) -> u8 {
    (hex_digit(s[2 * i]).unwrap() * 16 + hex_digit(s[2 * i + 1]).unwrap()) as u8
}

/// Relies on `hex::FromHex` for `[u8; 32]`: decodes exactly 64 hexadecimal digits, two per
/// byte, high digit first, in either case.
#[verifier::external_body]
fn decode_hex32(s: &str) -> (r: Option<[u8; 32]>)
    ensures
        r.is_some() <==> is_hex32(s.spec_bytes()),
        r matches Some(b) ==> forall|i: int| 0 <= i < 32 ==> b@[i] == hex_byte(s.spec_bytes(), i),
{
    <[u8; 32] as hex::FromHex>::from_hex(s).ok()
}

/// Little-endian reading of bytes: the first byte is the least significant.
pub open spec fn le_value(b: Seq<u8>) -> nat
    decreases b.len(),
{
    if b.len() == 0 {
        0
    } else {
        b[0] as nat + 256 * le_value(b.drop_first())
    }
}

proof fn lemma_le_bound(b: Seq<u8>)
    ensures
        le_value(b) < crate::hash::pow256(b.len()),
    decreases b.len(),
{
    if b.len() > 0 {
        lemma_le_bound(b.drop_first());
        let t = le_value(b.drop_first());
        let p = crate::hash::pow256((b.len() - 1) as nat);
        assert(b[0] as nat + 256 * t < 256 * p) by (nonlinear_arith)
            requires
                t < p,
                b[0] < 256,
        ;
    }
}

/// Reads eight bytes as a little-endian `u64`.
fn le_u64(b: &[u8; 32], start: usize) -> (r: u64)
    requires
        start + 8 <= 32,
    ensures
        r as nat == le_value(b@.subrange(start as int, start + 8)),
{
    let ghost c = b@.subrange(start as int, start + 8);
    let mut v: u64 = 0;
    let mut j: usize = 8;
    while j > 0
        invariant
            j <= 8,
            start + 8 <= 32,
            c == b@.subrange(start as int, start + 8),
            v as nat == le_value(c.subrange(j as int, 8)),
        decreases j,
    {
        j = j - 1;
        proof {
            assert(c.subrange(j as int, 8).drop_first() =~= c.subrange(j + 1, 8));
            lemma_le_bound(c.subrange(j + 1, 8));
            crate::hash::lemma_pow256_mono((7 - j) as nat, 7);
            reveal_with_fuel(crate::hash::pow256, 8);
            assert(crate::hash::pow256(7) == 0x100_0000_0000_0000);
        }
        v = v * 256 + b[start + j] as u64;
    }
    assert(c.subrange(0, 8) =~= c);
    v
}

impl Hash {
    /// Parses 64 hexadecimal digits: 32 bytes, limb `i` read little-endian from bytes
    /// `8i..8i+8`. Fails with `InvalidHex` on any other string and where a limb is not a
    /// canonical field element.
    pub fn from_hex(s: &str) -> (r: Result<Hash, crate::error::Error>)
        ensures
            r.is_ok() <==> is_hex32(s.spec_bytes()) && (forall|i: int|
                0 <= i < 4 ==> le_value(#[trigger] hex_bytes(s.spec_bytes()).subrange(8 * i, 8 * i + 8))
                    < GOLDILOCKS_ORDER),
            r matches Ok(h) ==> forall|i: int|
                0 <= i < 4 ==> h.limbs()[i] as nat == le_value(
                    #[trigger] hex_bytes(s.spec_bytes()).subrange(8 * i, 8 * i + 8),
                ),
            r.is_err() ==> r == Err::<Hash, crate::error::Error>(crate::error::Error::InvalidHex),
    {
        let bytes = match decode_hex32(s) {
            Some(b) => b,
            None => return Err(crate::error::Error::InvalidHex),
        };
        proof {
            assert(bytes@ =~= hex_bytes(s.spec_bytes()));
        }
        let l0 = le_u64(&bytes, 0);
        let l1 = le_u64(&bytes, 8);
        let l2 = le_u64(&bytes, 16);
        let l3 = le_u64(&bytes, 24);
        let h = Hash(l0, l1, l2, l3);
        proof {
            assert(8 * 0 == 0 && 8 * 1 == 8 && 8 * 2 == 16 && 8 * 3 == 24);
            assert(h.limbs()[0] == l0 && h.limbs()[1] == l1 && h.limbs()[2] == l2 && h.limbs()[3] == l3);
        }
        if l0 >= GOLDILOCKS_ORDER || l1 >= GOLDILOCKS_ORDER || l2 >= GOLDILOCKS_ORDER || l3
            >= GOLDILOCKS_ORDER {
            return Err(crate::error::Error::InvalidHex);
        }
        Ok(h)
    }
}

/// The 32 bytes that 64 hexadecimal digits encode.
pub open spec fn hex_bytes(s: Seq<u8>) -> Seq<u8> {
    Seq::new(32, |i: int| hex_byte(s, i))
}

} // verus!
