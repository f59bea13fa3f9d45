//! LEB128 variable-length integers: seven data bits per byte, least significant
//! group first, the high bit set on every byte but the last.

use vstd::arithmetic::div_mod::{
    lemma_fundamental_div_mod, lemma_fundamental_div_mod_converse, lemma_small_mod,
};
use vstd::prelude::*;

verus! {

/// `128` to the power `n`.
pub open spec fn pow128(n: nat) -> nat
    decreases n,
{
    if n == 0 {
        1
    } else {
        128 * pow128((n - 1) as nat)
    }
}

/// The value of the 7-bit groups held by the first `n` bytes of `b`, least
/// significant group first.
pub open spec fn digits_value(b: Seq<u8>, n: nat) -> nat
    decreases n,
{
    if n == 0 {
        0
    } else {
        digits_value(b, (n - 1) as nat) + (b[n - 1] % 128) as nat * pow128((n - 1) as nat)
    }
}

/// The first `n` bytes of `b` are one complete varint of at most ten bytes.
pub open spec fn is_varint_frame(b: Seq<u8>, n: nat) -> bool {
    &&& 1 <= n <= 10
    &&& n <= b.len()
    &&& b[n - 1] < 128
    &&& forall|j: int| 0 <= j < n - 1 ==> #[trigger] b[j] >= 128
}

pub open spec fn has_varint_frame(b: Seq<u8>) -> bool {
    exists|n: nat| is_varint_frame(b, n)
}

pub open spec fn varint_frame_len(b: Seq<u8>) -> nat {
    choose|n: nat| is_varint_frame(b, n)
}

/// `2^64`.
pub open spec fn two_pow_64() -> nat {
    u64::MAX as nat + 1
}

/// What an unsigned varint decoder reads at the front of `b`: the value modulo
/// `2^64` and the number of bytes, or nothing when no terminating byte comes
/// within the first ten bytes.
pub open spec fn uvarint_decode(b: Seq<u8>) -> Option<(u64, nat)> {
    if has_varint_frame(b) {
        let n = varint_frame_len(b);
        Some(((digits_value(b, n) % two_pow_64()) as u64, n))
    } else {
        None
    }
}

/// The two's-complement reading of `x` modulo `2^64`.
pub open spec fn wrap_i64(x: int) -> i64 {
    let m = x % (two_pow_64() as int);
    if m > i64::MAX {
        (m - two_pow_64()) as i64
    } else {
        m as i64
    }
}

/// What a signed varint decoder reads at the front of `b`: the digits, sign
/// extended from bit 6 of the last byte when fewer than 64 bits were read.
pub open spec fn svarint_decode(b: Seq<u8>) -> Option<(i64, nat)> {
    if has_varint_frame(b) {
        let n = varint_frame_len(b);
        let raw = digits_value(b, n) as int;
        let extended = if n < 10 && b[n - 1] >= 64 {
            raw - pow128(n)
        } else {
            raw
        };
        Some((wrap_i64(extended), n))
    } else {
        None
    }
}

/// The unsigned LEB128 encoding of `v`.
pub open spec fn uvarint_encoding(v: nat) -> Seq<u8>
    decreases v,
{
    if v < 128 {
        seq![v as u8]
    } else {
        seq![(v % 128 + 128) as u8] + uvarint_encoding(v / 128)
    }
}

/// The signed LEB128 encoding of `x`: groups are emitted until the rest is
/// `0` or `-1` and bit 6 of the last group agrees with it.
pub open spec fn svarint_encoding(x: int) -> Seq<u8>
    decreases (if x >= 0 { x } else { -x }),
    via lemma_svarint_rest_smaller
{
    let group = x % 128;
    let rest = x / 128;
    if (rest == 0 && group < 64) || (rest == -1 && group >= 64) {
        seq![group as u8]
    } else {
        seq![(group + 128) as u8] + svarint_encoding(rest)
    }
}

#[via_fn]
proof fn lemma_svarint_rest_smaller(x: int) {
    if !((x / 128 == 0 && x % 128 < 64) || (x / 128 == -1 && x % 128 >= 64)) {
        lemma_svarint_step(x);
    }
}

proof fn lemma_svarint_step(x: int)
    requires
        !((x / 128 == 0 && x % 128 < 64) || (x / 128 == -1 && x % 128 >= 64)),
    ensures
        (if x / 128 >= 0 { x / 128 } else { -(x / 128) }) < (if x >= 0 { x } else { -x }),
{
    assert(x == 128 * (x / 128) + x % 128 && 0 <= x % 128 < 128) by (nonlinear_arith);
}

pub proof fn lemma_frame_unique(b: Seq<u8>, n1: nat, n2: nat)
    requires
        is_varint_frame(b, n1),
        is_varint_frame(b, n2),
    ensures
        n1 == n2,
{
    if n1 < n2 {
        assert(b[n1 - 1] >= 128);
    } else if n2 < n1 {
        assert(b[n2 - 1] >= 128);
    }
}

pub proof fn lemma_frame_len(b: Seq<u8>, n: nat)
    requires
        is_varint_frame(b, n),
    ensures
        has_varint_frame(b),
        varint_frame_len(b) == n,
{
    assert(has_varint_frame(b));
    lemma_frame_unique(b, n, varint_frame_len(b));
}

/// Unsigned variable-length integer, LEB128 encoded.
#[derive(Debug, Clone, Copy, PartialEq, Eq)]
pub struct UnsignedVarint(pub u64);

/// Signed variable-length integer, LEB128 encoded.
#[derive(Debug, Clone, Copy, PartialEq, Eq)]
pub struct SignedVarint(pub i64);

impl UnsignedVarint {
    /// The LEB128 bytes of the value.
    pub fn encode(self) -> (r: Vec<u8>)
        ensures
            r@ == uvarint_encoding(self.0 as nat),
    {
        let mut value: u64 = self.0;
        let mut bytes: Vec<u8> = Vec::new();
        while value >= 128
            invariant
                bytes@ + uvarint_encoding(value as nat) == uvarint_encoding(self.0 as nat),
            decreases value,
        {
            let byte: u8 = (value % 128) as u8 + 128;
            let ghost prev = bytes@;
            bytes.push(byte);
            proof {
                let tail = uvarint_encoding((value / 128) as nat);
                assert(uvarint_encoding(value as nat) == seq![byte] + tail);
                assert(bytes@ + tail =~= prev + (seq![byte] + tail));
            }
            value = value / 128;
        }
        bytes.push(value as u8);
        proof {
            assert(uvarint_encoding(value as nat) == seq![value as u8]);
        }
        bytes
    }

    /// Reads an unsigned varint at the front of `bytes`: the value and the number
    /// of bytes read, or `None` when the bytes end without a terminating byte or
    /// none comes within ten bytes.
    pub fn decode(bytes: &[u8]) -> (r: Option<(UnsignedVarint, usize)>)
        ensures
            match r {
                Some((v, n)) => uvarint_decode(bytes@) == Some((v.0, n as nat)),
                None => uvarint_decode(bytes@) is None,
            },
    {
        match read_digits(bytes) {
            Some((raw, n)) => {
                let v = (raw % (u64::MAX as u128 + 1)) as u64;
                Some((UnsignedVarint(v), n))
            },
            None => None,
        }
    }
}

impl SignedVarint {
    /// The signed LEB128 bytes of the value.
    pub fn encode(self) -> (r: Vec<u8>)
        ensures
            r@ == svarint_encoding(self.0 as int),
    {
        let mut value: i128 = self.0 as i128;
        let mut bytes: Vec<u8> = Vec::new();
        let mut done = false;
        while !done
            invariant
                i64::MIN <= value <= i64::MAX,
                !done ==> bytes@ + svarint_encoding(value as int) == svarint_encoding(
                    self.0 as int,
                ),
                done ==> bytes@ == svarint_encoding(self.0 as int),
            decreases (if done {
                0
            } else {
                (if value >= 0 {
                    value as int
                } else {
                    -value
                }) + 1
            }),
        {
            let (group, rest) = floor_div_128(value);
            let ghost prev = bytes@;
            if (rest == 0 && group < 64) || (rest == -1 && group >= 64) {
                bytes.push(group as u8);
                proof {
                    assert(svarint_encoding(value as int) == seq![group as u8]);
                    assert(bytes@ =~= prev + seq![group as u8]);
                }
                done = true;
            } else {
                let byte = (group + 128) as u8;
                bytes.push(byte);
                proof {
                    lemma_svarint_step(value as int);
                    let tail = svarint_encoding(rest as int);
                    assert(svarint_encoding(value as int) == seq![byte] + tail);
                    assert(bytes@ + tail =~= prev + (seq![byte] + tail));
                }
                value = rest;
            }
        }
        bytes
    }

    /// Reads a signed varint at the front of `bytes`: the value and the number of
    /// bytes read, or `None` when the bytes end without a terminating byte or none
    /// comes within ten bytes.
    pub fn decode(bytes: &[u8]) -> (r: Option<(SignedVarint, usize)>)
        ensures
            match r {
                Some((v, n)) => svarint_decode(bytes@) == Some((v.0, n as nat)),
                None => svarint_decode(bytes@) is None,
            },
    {
        match read_digits(bytes) {
            Some((raw, n)) => {
                let last = bytes[n - 1];
                proof {
                    lemma_pow128_values();
                    lemma_pow128_le(n as nat, 10);
                    if n < 10 {
                        lemma_pow128_le(n as nat, 9);
                    }
                }
                let v: i64 = if n < 10 && last >= 64 {
                    let mult = pow128_exec(n);
                    let x = raw as i128 - mult as i128;
                    proof {
                        lemma_wrap_in_range(x as int);
                    }
                    x as i64
                } else if n < 10 {
                    proof {
                        lemma_wrap_in_range(raw as int);
                    }
                    raw as i64
                } else {
                    let m = raw % (u64::MAX as u128 + 1);
                    proof {
                        lemma_wrap_reduced(raw as int);
                    }
                    if m > i64::MAX as u128 {
                        (m as i128 - (u64::MAX as i128 + 1)) as i64
                    } else {
                        m as i64
                    }
                };
                Some((SignedVarint(v), n))
            },
            None => None,
        }
    }
}

/// `128` to the power `n`, for `n` up to ten.
fn pow128_exec(n: usize) -> (r: u128)
    requires
        n <= 10,
    ensures
        r == pow128(n as nat),
{
    let mut r: u128 = 1;
    let mut i: usize = 0;
    proof {
        lemma_pow128_values();
    }
    while i < n
        invariant
            i <= n <= 10,
            r == pow128(i as nat),
            pow128(10) == 0x40_0000_0000_0000_0000,
        decreases n - i,
    {
        proof {
            lemma_pow128_le((i + 1) as nat, 10);
        }
        r = r * 128;
        i = i + 1;
    }
    r
}

/// Euclidean division by 128: the group in `0..128` and the rest.
fn floor_div_128(x: i128) -> (r: (i128, i128))
    requires
        i64::MIN <= x <= i64::MAX,
    ensures
        r.0 == x % 128,
        r.1 == x / 128,
        0 <= r.0 < 128,
        i64::MIN <= r.1 <= i64::MAX,
{
    if x >= 0 {
        (x % 128, x / 128)
    } else {
        let y: i128 = -(x + 1);
        let q: i128 = y / 128;
        let m: i128 = y % 128;
        proof {
            assert(y == q * 128 + m && 0 <= m < 128) by (nonlinear_arith)
                requires
                    y >= 0,
                    q == y / 128,
                    m == y % 128,
            ;
            lemma_fundamental_div_mod_converse(x as int, 128, -q - 1, 127 - m);
        }
        (127 - m, -q - 1)
    }
}

proof fn lemma_wrap_in_range(x: int)
    requires
        i64::MIN <= x <= i64::MAX,
    ensures
        wrap_i64(x) == x,
{
    let t = two_pow_64() as int;
    if x >= 0 {
        lemma_small_mod(x as nat, t as nat);
    } else {
        lemma_fundamental_div_mod_converse(x, t, -1, x + t);
    }
}

proof fn lemma_wrap_reduced(x: int)
    requires
        x >= 0,
    ensures
        ({
            let m = x % (two_pow_64() as int);
            &&& 0 <= m < two_pow_64()
            &&& wrap_i64(x) == (if m > i64::MAX {
                (m - two_pow_64()) as i64
            } else {
                m as i64
            })
        }),
{
}

pub proof fn lemma_pow128_values()
    ensures
        pow128(9) == 0x8000_0000_0000_0000,
        pow128(10) == 0x40_0000_0000_0000_0000,
{
    reveal_with_fuel(pow128, 11);
}

/// Reads the 7-bit groups of the varint at the front of `bytes`, without
/// reducing them to 64 bits.
fn read_digits(bytes: &[u8]) -> (r: Option<(u128, usize)>)
    ensures
        match r {
            Some((raw, n)) => {
                &&& is_varint_frame(bytes@, n as nat)
                &&& has_varint_frame(bytes@)
                &&& varint_frame_len(bytes@) == n
                &&& raw == digits_value(bytes@, n as nat)
                &&& raw < pow128(n as nat)
            },
            None => !has_varint_frame(bytes@),
        },
{
    let mut acc: u128 = 0;
    let mut mult: u128 = 1;
    let mut i: usize = 0;
    proof {
        lemma_pow128_values();
    }
    while i < bytes.len() && i < 10
        invariant
            i <= bytes@.len(),
            i <= 10,
            acc == digits_value(bytes@, i as nat),
            mult == pow128(i as nat),
            acc < mult,
            pow128(9) == 0x8000_0000_0000_0000,
            forall|j: int| 0 <= j < i ==> #[trigger] bytes@[j] >= 128,
        decreases bytes.len() - i,
    {
        let byte = bytes[i];
        let d: u128 = (byte % 128) as u128;
        proof {
            lemma_pow128_le(i as nat, 9);
            assert(d * mult <= 127 * mult) by (nonlinear_arith)
                requires
                    d <= 127,
            ;
        }
        acc = acc + d * mult;
        assert(acc == digits_value(bytes@, (i + 1) as nat));
        if byte < 128 {
            proof {
                assert(is_varint_frame(bytes@, (i + 1) as nat));
                lemma_frame_len(bytes@, (i + 1) as nat);
            }
            return Some((acc, i + 1));
        }
        mult = mult * 128;
        i = i + 1;
    }
    proof {
        if has_varint_frame(bytes@) {
            let n = varint_frame_len(bytes@);
            assert(is_varint_frame(bytes@, n));
            assert(bytes@[n - 1] >= 128);
        }
    }
    None
}

pub proof fn lemma_pow128_le(a: nat, b: nat)
    requires
        a <= b,
    ensures
        pow128(a) <= pow128(b),
    decreases b,
{
    if a < b {
        lemma_pow128_le(a, (b - 1) as nat);
    }
}

} // verus!

verus! {

pub proof fn lemma_digits_prefix(a: Seq<u8>, b: Seq<u8>, n: nat)
    requires
        n <= a.len(),
        n <= b.len(),
        forall|j: int| 0 <= j < n ==> a[j] == b[j],
    ensures
        digits_value(a, n) == digits_value(b, n),
    decreases n,
{
    if n > 0 {
        lemma_digits_prefix(a, b, (n - 1) as nat);
    }
}

proof fn lemma_digits_cons(x: u8, s: Seq<u8>, n: nat)
    requires
        n <= s.len(),
    ensures
        digits_value(seq![x] + s, n + 1) == x % 128 + 128 * digits_value(s, n),
    decreases n,
{
    let c = seq![x] + s;
    assert(pow128(0) == 1);
    if n == 0 {
        assert(c[0] == x);
        assert(digits_value(c, 0) == 0);
        assert(digits_value(c, 1) == digits_value(c, 0) + (c[0] % 128) as nat * pow128(0));
    } else {
        lemma_digits_cons(x, s, (n - 1) as nat);
        assert(c[n as int] == s[n - 1]);
        let d = (s[n - 1] % 128) as nat;
        let p = pow128((n - 1) as nat);
        let dv = digits_value(s, (n - 1) as nat);
        assert(pow128(n) == 128 * p);
        assert(digits_value(s, n) == dv + d * p);
        assert(digits_value(c, n + 1) == digits_value(c, n) + d * pow128(n));
        assert(128 * dv + d * (128 * p) == 128 * (dv + d * p)) by (nonlinear_arith);
    }
}

#[verifier::rlimit(30)]
proof fn lemma_uvarint_encoding_shape(v: nat, rest: Seq<u8>)
    ensures
        ({
            let e = uvarint_encoding(v);
            &&& e.len() >= 1
            &&& e[e.len() - 1] < 128
            &&& forall|j: int| 0 <= j < e.len() - 1 ==> #[trigger] e[j] >= 128
            &&& digits_value(e + rest, e.len()) == v
        }),
    decreases v,
{
    let e = uvarint_encoding(v);
    assert(pow128(0) == 1);
    if v < 128 {
        assert((e + rest)[0] == v as u8);
        assert(digits_value(e + rest, 0) == 0);
        assert(digits_value(e + rest, 1) == digits_value(e + rest, 0) + ((e + rest)[0]
            % 128) as nat * pow128(0));
    } else {
        let t = uvarint_encoding(v / 128);
        let b = (v % 128 + 128) as u8;
        lemma_uvarint_encoding_shape(v / 128, rest);
        assert(e == seq![b] + t);
        assert(e + rest =~= seq![b] + (t + rest));
        lemma_digits_cons(b, t + rest, t.len());
        assert(e[e.len() - 1] == t[t.len() - 1]);
        assert(v == v % 128 + 128 * (v / 128));
        assert forall|j: int| 0 <= j < e.len() - 1 implies #[trigger] e[j] >= 128 by {
            if j > 0 {
                assert(e[j] == t[j - 1]);
            }
        }
    }
}

proof fn lemma_uvarint_encoding_len(v: nat, k: nat)
    requires
        k >= 1,
        v < pow128(k),
    ensures
        uvarint_encoding(v).len() <= k,
    decreases v,
{
    if v >= 128 {
        assert(k >= 2) by {
            if k == 1 {
                assert(pow128(1) == 128 * pow128(0));
            }
        }
        assert(v / 128 < pow128((k - 1) as nat)) by (nonlinear_arith)
            requires
                v < pow128(k),
                pow128(k) == 128 * pow128((k - 1) as nat),
        ;
        lemma_uvarint_encoding_len(v / 128, (k - 1) as nat);
    }
}

/// Decoding the unsigned encoding of any 64-bit value gives the value back with
/// the length of the encoding, at most ten bytes, whatever bytes follow it.
pub proof fn lemma_uvarint_round_trip(v: u64, rest: Seq<u8>)
    ensures
        uvarint_encoding(v as nat).len() <= 10,
        uvarint_decode(uvarint_encoding(v as nat) + rest) == Some(
            (v, uvarint_encoding(v as nat).len()),
        ),
{
    let e = uvarint_encoding(v as nat);
    let b = e + rest;
    lemma_pow128_values();
    lemma_uvarint_encoding_shape(v as nat, rest);
    lemma_uvarint_encoding_len(v as nat, 10);
    assert forall|j: int| 0 <= j < e.len() - 1 implies #[trigger] b[j] >= 128 by {
        assert(b[j] == e[j]);
    }
    assert(b[e.len() - 1] == e[e.len() - 1]);
    assert(is_varint_frame(b, e.len()));
    lemma_frame_len(b, e.len());
    lemma_small_mod(v as nat, two_pow_64());
}

/// Once the bytes at the front decide a varint (it is complete, or ten bytes
/// are there), more bytes behind them do not change what is read.
pub proof fn lemma_varint_decode_extend(b: Seq<u8>, ext: Seq<u8>)
    requires
        has_varint_frame(b) || b.len() >= 10,
    ensures
        uvarint_decode(b + ext) == uvarint_decode(b),
        svarint_decode(b + ext) == svarint_decode(b),
        has_varint_frame(b + ext) == has_varint_frame(b),
{
    let c = b + ext;
    if has_varint_frame(b) {
        let n = varint_frame_len(b);
        assert(is_varint_frame(b, n));
        assert forall|j: int| 0 <= j < n implies c[j] == b[j] by {}
        assert(is_varint_frame(c, n));
        lemma_frame_len(c, n);
        lemma_digits_prefix(b, c, n);
    } else if has_varint_frame(c) {
        let n = varint_frame_len(c);
        assert(is_varint_frame(c, n));
        assert forall|j: int| 0 <= j < n implies c[j] == b[j] by {}
        assert(is_varint_frame(b, n));
    }
}

} // verus!

verus! {

/// A varint complete within the first `k` bytes reads the same from those bytes
/// alone.
pub proof fn lemma_varint_decode_prefix(b: Seq<u8>, k: nat)
    requires
        has_varint_frame(b),
        varint_frame_len(b) <= k <= b.len(),
    ensures
        uvarint_decode(b.subrange(0, k as int)) == uvarint_decode(b),
        has_varint_frame(b.subrange(0, k as int)),
        varint_frame_len(b.subrange(0, k as int)) == varint_frame_len(b),
{
    let p = b.subrange(0, k as int);
    assert(p + b.skip(k as int) =~= b);
    let n = varint_frame_len(b);
    assert(is_varint_frame(b, n));
    assert(is_varint_frame(p, n));
    lemma_frame_len(p, n);
    lemma_varint_decode_extend(p, b.skip(k as int));
}

/// Ten bytes that all carry the continuation bit are no varint, whatever
/// follows them.
pub proof fn lemma_overlong_varint_rejected(b: Seq<u8>)
    requires
        b.len() >= 10,
        forall|j: int| 0 <= j < 10 ==> #[trigger] b[j] >= 128,
    ensures
        uvarint_decode(b) is None,
        svarint_decode(b) is None,
{
    if has_varint_frame(b) {
        let n = varint_frame_len(b);
        assert(is_varint_frame(b, n));
        assert(b[n - 1] >= 128);
    }
}

} // verus!

verus! {

#[verifier::rlimit(30)]
proof fn lemma_svarint_encoding_shape(x: int, rest: Seq<u8>)
    ensures
        ({
            let e = svarint_encoding(x);
            &&& e.len() >= 1
            &&& e[e.len() - 1] < 128
            &&& (e[e.len() - 1] >= 64) == (x < 0)
            &&& forall|j: int| 0 <= j < e.len() - 1 ==> #[trigger] e[j] >= 128
            &&& digits_value(e + rest, e.len()) == x + (if x < 0 { pow128(e.len()) as int } else { 0 })
        }),
    decreases (if x >= 0 { x } else { -x }),
{
    let e = svarint_encoding(x);
    assert(x == 128 * (x / 128) + x % 128 && 0 <= x % 128 < 128) by (nonlinear_arith);
    let g = x % 128;
    let r = x / 128;
    assert(pow128(0) == 1);
    if (r == 0 && g < 64) || (r == -1 && g >= 64) {
        assert(e == seq![g as u8]);
        assert((e + rest)[0] == g as u8);
        assert(digits_value(e + rest, 0) == 0);
        assert(digits_value(e + rest, 1) == digits_value(e + rest, 0) + ((e + rest)[0] % 128) as nat
            * pow128(0));
        assert(pow128(1) == 128 * pow128(0));
    } else {
        lemma_svarint_step(x);
        let t = svarint_encoding(r);
        let b = (g + 128) as u8;
        lemma_svarint_encoding_shape(r, rest);
        assert(e == seq![b] + t);
        assert(e + rest =~= seq![b] + (t + rest));
        lemma_digits_cons(b, t + rest, t.len());
        assert(e[e.len() - 1] == t[t.len() - 1]);
        assert forall|j: int| 0 <= j < e.len() - 1 implies #[trigger] e[j] >= 128 by {
            if j > 0 {
                assert(e[j] == t[j - 1]);
            }
        }
        assert((r < 0) == (x < 0)) by (nonlinear_arith)
            requires
                x == 128 * r + g,
                0 <= g < 128,
        ;
        assert(pow128(e.len()) == 128 * pow128(t.len()));
        let d = digits_value(t + rest, t.len()) as int;
        let p = pow128(t.len()) as int;
        assert(b % 128 == g);
        assert(g + 128 * (r + (if r < 0 { p } else { 0 })) == x + (if x < 0 { 128 * p } else { 0 }))
            by (nonlinear_arith)
            requires
                x == 128 * r + g,
                (r < 0) == (x < 0),
        ;
    }
}

proof fn lemma_svarint_encoding_len(x: int, k: nat)
    requires
        k >= 1,
        -64 * pow128((k - 1) as nat) <= x < 64 * pow128((k - 1) as nat),
    ensures
        svarint_encoding(x).len() <= k,
    decreases k,
{
    assert(x == 128 * (x / 128) + x % 128 && 0 <= x % 128 < 128) by (nonlinear_arith);
    let g = x % 128;
    let r = x / 128;
    if !((r == 0 && g < 64) || (r == -1 && g >= 64)) {
        assert(k >= 2) by {
            if k == 1 {
                assert(pow128(0) == 1);
                assert(-64 <= x < 64);
                if x >= 0 {
                    assert(r == 0) by (nonlinear_arith)
                        requires
                            x == 128 * r + g,
                            0 <= g < 128,
                            0 <= x < 64,
                    ;
                } else {
                    assert(r == -1) by (nonlinear_arith)
                        requires
                            x == 128 * r + g,
                            0 <= g < 128,
                            -64 <= x < 0,
                    ;
                }
            }
        }
        let p = pow128((k - 2) as nat) as int;
        assert(pow128((k - 1) as nat) == 128 * p);
        assert(-64 * p <= r < 64 * p) by (nonlinear_arith)
            requires
                x == 128 * r + g,
                0 <= g < 128,
                -64 * (128 * p) <= x < 64 * (128 * p),
        ;
        lemma_svarint_encoding_len(r, (k - 1) as nat);
    }
}

/// Decoding the signed encoding of any 64-bit value gives the value back with
/// the length of the encoding, at most ten bytes, whatever bytes follow it.
#[verifier::rlimit(30)]
pub proof fn lemma_svarint_round_trip(x: i64, rest: Seq<u8>)
    ensures
        svarint_encoding(x as int).len() <= 10,
        svarint_decode(svarint_encoding(x as int) + rest) == Some(
            (x, svarint_encoding(x as int).len()),
        ),
{
    let e = svarint_encoding(x as int);
    let b = e + rest;
    let n = e.len();
    lemma_pow128_values();
    lemma_svarint_encoding_shape(x as int, rest);
    lemma_svarint_encoding_len(x as int, 10);
    assert forall|j: int| 0 <= j < n - 1 implies #[trigger] b[j] >= 128 by {
        assert(b[j] == e[j]);
    }
    assert(b[n - 1] == e[n - 1]);
    assert(is_varint_frame(b, n));
    lemma_frame_len(b, n);
    let raw = digits_value(b, n) as int;
    if n < 10 {
        lemma_wrap_in_range(x as int);
    } else {
        let t = two_pow_64() as int;
        assert(pow128(10) == 64 * t);
        if x < 0 {
            lemma_fundamental_div_mod(x as int, t);
            let q = (x as int) / t;
            let m = (x as int) % t;
            lemma_fundamental_div_mod_converse(raw, t, q + 64, m);
        }
        lemma_wrap_in_range(x as int);
    }
}

} // verus!
