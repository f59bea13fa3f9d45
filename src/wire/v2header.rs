//! The fixed 40-byte CAR v2 header: characteristics (`u128`), data offset, data
//! size and index offset (`u64` each), all little-endian.

use vstd::prelude::*;

verus! {

/// `256` to the power `n`.
pub open spec fn pow256(n: nat) -> nat
    decreases n,
{
    if n == 0 {
        1
    } else {
        256 * pow256((n - 1) as nat)
    }
}

/// The little-endian value of `b`.
pub open spec fn le_value(b: Seq<u8>) -> nat
    decreases b.len(),
{
    if b.len() == 0 {
        0
    } else {
        b[0] as nat + 256 * le_value(b.skip(1))
    }
}

/// The `k` little-endian bytes of `v`, modulo `256^k`.
pub open spec fn le_bytes(v: nat, k: nat) -> Seq<u8>
    decreases k,
{
    if k == 0 {
        Seq::empty()
    } else {
        seq![(v % 256) as u8] + le_bytes(v / 256, (k - 1) as nat)
    }
}

/// The characteristics bit field of a CAR v2 header.
#[derive(Debug, Clone, Copy, PartialEq, Eq, Structural)]
pub struct Characteristics(pub u128);

impl Characteristics {
    /// Bit 0: the index covers every block of the payload.
    pub fn has_full_index(&self) -> (r: bool)
        ensures
            r == (self.0 % 2 == 1),
    {
        self.0 % 2 == 1
    }

    /// Sets or clears bit 0, keeping the others.
    pub fn set_has_full_index(&mut self, value: bool)
        ensures
            final(self).0 / 2 == old(self).0 / 2,
            (final(self).0 % 2 == 1) == value,
    {
        let high = self.0 - self.0 % 2;
        self.0 = if value {
            high + 1
        } else {
            high
        };
    }
}

/// CAR v2 header.
#[derive(Debug, Clone, Copy, PartialEq, Eq, Structural)]
pub struct CarV2Header {
    pub characteristics: Characteristics,
    /// Offset of the v1 payload from the start of the pragma.
    pub data_offset: u64,
    /// Size of the v1 payload in bytes.
    pub data_size: u64,
    /// Offset of the index from the start of the pragma; 0 when there is none.
    pub index_offset: u64,
}

/// The header that 40 bytes spell.
pub open spec fn v2_header_of(b: Seq<u8>) -> CarV2Header {
    CarV2Header {
        characteristics: Characteristics(le_value(b.subrange(0, 16)) as u128),
        data_offset: le_value(b.subrange(16, 24)) as u64,
        data_size: le_value(b.subrange(24, 32)) as u64,
        index_offset: le_value(b.subrange(32, 40)) as u64,
    }
}

/// The 40 bytes of a header.
pub open spec fn v2_header_bytes(h: CarV2Header) -> Seq<u8> {
    le_bytes(h.characteristics.0 as nat, 16) + le_bytes(h.data_offset as nat, 8) + le_bytes(
        h.data_size as nat,
        8,
    ) + le_bytes(h.index_offset as nat, 8)
}

pub proof fn lemma_le_value_bound(b: Seq<u8>)
    ensures
        le_value(b) < pow256(b.len()),
    decreases b.len(),
{
    if b.len() > 0 {
        lemma_le_value_bound(b.skip(1));
        let rest = le_value(b.skip(1));
        assert(b[0] as nat + 256 * rest < 256 * pow256((b.len() - 1) as nat)) by (nonlinear_arith)
            requires
                b[0] < 256,
                rest < pow256((b.len() - 1) as nat),
        ;
    }
}

pub proof fn lemma_le_round_trip(v: nat, k: nat)
    requires
        v < pow256(k),
    ensures
        le_value(le_bytes(v, k)) == v,
        le_bytes(v, k).len() == k,
    decreases k,
{
    if k > 0 {
        assert(v / 256 < pow256((k - 1) as nat)) by (nonlinear_arith)
            requires
                v < pow256(k),
                pow256(k) == 256 * pow256((k - 1) as nat),
        ;
        lemma_le_round_trip(v / 256, (k - 1) as nat);
        let b = le_bytes(v, k);
        assert(b.skip(1) =~= le_bytes(v / 256, (k - 1) as nat));
    } else {
        assert(v == 0);
    }
}

proof fn lemma_pow256_values()
    ensures
        pow256(8) == 0x1_0000_0000_0000_0000,
        pow256(15) == 0x1_0000_0000_0000_0000_0000_0000_0000_00,
        pow256(16) == 0x1_0000_0000_0000_0000_0000_0000_0000_0000,
{
    reveal_with_fuel(pow256, 17);
}

/// The little-endian value of `b[from..from + k]`, for up to 16 bytes.
fn read_le(b: &[u8], from: usize, k: usize) -> (r: u128)
    requires
        k <= 16,
        from + k <= b@.len(),
    ensures
        r == le_value(b@.subrange(from as int, from + k)),
{
    proof {
        lemma_pow256_values();
    }
    let len = b.len();
    assert(len == b@.len());
    let mut v: u128 = 0;
    let mut i: usize = from + k;
    while i > from
        invariant
            from <= i <= from + k,
            from + k <= b@.len(),
            k <= 16,
            v == le_value(b@.subrange(i as int, from + k)),
            v < pow256((from + k - i) as nat),
            pow256(15) == 0x1_0000_0000_0000_0000_0000_0000_0000_00,
        decreases i - from,
    {
        let ghost tail = b@.subrange(i as int, from + k);
        let ghost next = b@.subrange(i - 1, from + k);
        assert(next.skip(1) =~= tail);
        proof {
            lemma_pow256_mono((from + k - i) as nat, 15);
            assert(v * 256 + 255 <= u128::MAX) by (nonlinear_arith)
                requires
                    v < 0x1_0000_0000_0000_0000_0000_0000_0000_00,
            ;
        }
        v = v * 256 + b[i - 1] as u128;
        i = i - 1;
        proof {
            lemma_le_value_bound(next);
        }
    }
    v
}

proof fn lemma_pow256_mono(a: nat, b: nat)
    requires
        a <= b,
    ensures
        pow256(a) <= pow256(b),
    decreases b,
{
    if a < b {
        lemma_pow256_mono(a, (b - 1) as nat);
    }
}

/// Appends the `k` little-endian bytes of `v`.
fn push_le(out: &mut Vec<u8>, v: u128, k: usize)
    ensures
        final(out)@ == old(out)@ + le_bytes(v as nat, k as nat),
{
    let mut rest: u128 = v;
    let mut i: usize = 0;
    while i < k
        invariant
            i <= k,
            out@ + le_bytes(rest as nat, (k - i) as nat) == old(out)@ + le_bytes(v as nat, k as nat),
        decreases k - i,
    {
        let ghost prev = out@;
        let byte = (rest % 256) as u8;
        out.push(byte);
        proof {
            let tail = le_bytes((rest / 256) as nat, (k - i - 1) as nat);
            assert(le_bytes(rest as nat, (k - i) as nat) == seq![byte] + tail);
            assert(out@ + tail =~= prev + (seq![byte] + tail));
        }
        rest = rest / 256;
        i = i + 1;
    }
    assert(le_bytes(rest as nat, 0) =~= Seq::<u8>::empty());
    assert(out@ + Seq::<u8>::empty() =~= out@);
}

impl CarV2Header {
    /// The header that the 40 bytes `bytes` spell.
    pub fn from_bytes(bytes: &[u8]) -> (r: CarV2Header)
        requires
            bytes@.len() == 40,
        ensures
            r == v2_header_of(bytes@),
    {
        let characteristics = read_le(bytes, 0, 16);
        let data_offset = read_le(bytes, 16, 8);
        let data_size = read_le(bytes, 24, 8);
        let index_offset = read_le(bytes, 32, 8);
        proof {
            lemma_pow256_values();
            lemma_le_value_bound(bytes@.subrange(16, 24));
            lemma_le_value_bound(bytes@.subrange(24, 32));
            lemma_le_value_bound(bytes@.subrange(32, 40));
        }
        CarV2Header {
            characteristics: Characteristics(characteristics),
            data_offset: data_offset as u64,
            data_size: data_size as u64,
            index_offset: index_offset as u64,
        }
    }

    /// The 40 bytes of the header.
    pub fn to_bytes(&self) -> (r: Vec<u8>)
        ensures
            r@ == v2_header_bytes(*self),
    {
        let mut out: Vec<u8> = Vec::new();
        push_le(&mut out, self.characteristics.0, 16);
        push_le(&mut out, self.data_offset as u128, 8);
        push_le(&mut out, self.data_size as u128, 8);
        push_le(&mut out, self.index_offset as u128, 8);
        assert(out@ =~= v2_header_bytes(*self));
        out
    }
}

/// Reading back the 40 bytes of a header gives the header.
pub proof fn lemma_v2_header_round_trip(h: CarV2Header)
    ensures
        v2_header_bytes(h).len() == 40,
        v2_header_of(v2_header_bytes(h)) == h,
{
    lemma_pow256_values();
    let c = le_bytes(h.characteristics.0 as nat, 16);
    let o = le_bytes(h.data_offset as nat, 8);
    let s = le_bytes(h.data_size as nat, 8);
    let i = le_bytes(h.index_offset as nat, 8);
    lemma_le_round_trip(h.characteristics.0 as nat, 16);
    lemma_le_round_trip(h.data_offset as nat, 8);
    lemma_le_round_trip(h.data_size as nat, 8);
    lemma_le_round_trip(h.index_offset as nat, 8);
    let b = v2_header_bytes(h);
    assert(b.subrange(0, 16) =~= c);
    assert(b.subrange(16, 24) =~= o);
    assert(b.subrange(24, 32) =~= s);
    assert(b.subrange(32, 40) =~= i);
}

} // verus!
