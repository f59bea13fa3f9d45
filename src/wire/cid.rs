//! Content identifiers handled as opaque bytes, with a parser that finds where a
//! binary CIDv0 or CIDv1 ends without interpreting its hash.

use crate::wire::cbor::{cbor_decoded, cbor_encoded, decode_cbor, encode_cbor, CborValue};
use crate::wire::varint::{
    has_varint_frame, is_varint_frame, lemma_varint_decode_extend, lemma_varint_decode_prefix,
    uvarint_decode, varint_frame_len, UnsignedVarint,
};
use vstd::prelude::*;
use vstd::slice::slice_to_vec;

verus! {

/// Why no CID could be read from some bytes.
#[derive(Debug, Clone, Copy, PartialEq, Eq, Structural)]
pub enum CidFormatError {
    /// The bytes end before the CID does.
    InsufficientData,
    /// The bytes start neither a CIDv0 (`12 20`) nor a CIDv1 (`01`).
    UnsupportedVersion,
}

/// The length of the binary CID at the front of `b`: 34 for a CIDv0 (`12 20`
/// and a 32-byte digest); for a CIDv1, the version byte, three varints
/// (multicodec, multihash code, digest length) and the digest.
pub open spec fn cid_len(b: Seq<u8>) -> Result<nat, CidFormatError> {
    if b.len() < 2 {
        Err(CidFormatError::InsufficientData)
    } else if b[0] == 0x12 && b[1] == 0x20 {
        if b.len() < 34 {
            Err(CidFormatError::InsufficientData)
        } else {
            Ok(34)
        }
    } else if b[0] == 0x01 {
        match uvarint_decode(b.skip(1)) {
            None => Err(CidFormatError::InsufficientData),
            Some((_, n1)) => match uvarint_decode(b.skip((1 + n1) as int)) {
                None => Err(CidFormatError::InsufficientData),
                Some((_, n2)) => match uvarint_decode(b.skip((1 + n1 + n2) as int)) {
                    None => Err(CidFormatError::InsufficientData),
                    Some((digest_len, n3)) => {
                        let total = (1 + n1 + n2 + n3 + digest_len) as nat;
                        if b.len() < total {
                            Err(CidFormatError::InsufficientData)
                        } else {
                            Ok(total)
                        }
                    },
                },
            },
        }
    } else {
        Err(CidFormatError::UnsupportedVersion)
    }
}

/// The lowercase hexadecimal digit of `d`, which is below 16.
pub open spec fn hex_digit(d: nat) -> char {
    if d < 10 {
        (d + 48) as char
    } else {
        (d + 87) as char
    }
}

/// Two lowercase hexadecimal digits for each byte, high digit first.
pub open spec fn hex_text(b: Seq<u8>) -> Seq<char>
    decreases b.len(),
{
    if b.len() == 0 {
        Seq::empty()
    } else {
        hex_text(b.drop_last()) + seq![
            hex_digit((b.last() / 16) as nat),
            hex_digit((b.last() % 16) as nat),
        ]
    }
}

/// The value of a hexadecimal digit of either case.
pub open spec fn hex_value(c: char) -> Option<nat> {
    if '0' <= c <= '9' {
        Some((c as nat - 48) as nat)
    } else if 'a' <= c <= 'f' {
        Some((c as nat - 87) as nat)
    } else if 'A' <= c <= 'F' {
        Some((c as nat - 55) as nat)
    } else {
        None
    }
}

/// `s` is an even number of hexadecimal digits.
pub open spec fn is_hex_text(s: Seq<char>) -> bool {
    &&& s.len() % 2 == 0
    &&& forall|i: int| 0 <= i < s.len() ==> #[trigger] hex_value(s[i]) is Some
}

/// The bytes that the hexadecimal digits `s` spell, two digits a byte.
pub open spec fn hex_bytes(s: Seq<char>) -> Seq<u8> {
    Seq::new(
        s.len() / 2,
        |i: int| (hex_value(s[2 * i])->Some_0 * 16 + hex_value(s[2 * i + 1])->Some_0) as u8,
    )
}

/// Relies on hex::encode: two lowercase digits for each byte, in order.
#[verifier::external_body]
fn encode_hex(b: &[u8]) -> (r: String)
    ensures
        r@ == hex_text(b@),
{
    hex::encode(b)
}

/// Relies on hex::decode: an even number of digits of either case decodes to one
/// byte per pair, high digit first; anything else is an error.
#[verifier::external_body]
fn decode_hex(s: &str) -> (r: Result<Vec<u8>, hex::FromHexError>)
    ensures
        is_hex_text(s@) ==> r is Ok && r->Ok_0@ == hex_bytes(s@),
        !is_hex_text(s@) ==> r is Err,
{
    hex::decode(s)
}

/// hex's error for text that is not an even number of hexadecimal digits,
/// passed on to callers as it is.
#[verifier::external_type_specification]
#[verifier::external_body]
pub struct ExFromHexError(hex::FromHexError);

/// The CID that a CBOR link carries: tag 42 around a byte string whose first
/// byte, the multibase prefix of binary CIDs, is `00`.
pub open spec fn link_cid(v: CborValue) -> Option<Seq<u8>> {
    match v {
        CborValue::Tag(t, inner) => if t == 42 {
            match *inner {
                CborValue::Bytes(b) => if b@.len() >= 1 && b@[0] == 0 {
                    Some(b@.skip(1))
                } else {
                    None
                },
                _ => None,
            }
        } else {
            None
        },
        _ => None,
    }
}

/// `v` is the CBOR link to `cid`: tag 42 around `00` followed by the CID's bytes.
pub open spec fn is_link(v: CborValue, cid: Seq<u8>) -> bool {
    match v {
        CborValue::Tag(t, inner) => t == 42 && match *inner {
            CborValue::Bytes(b) => b@ == seq![0u8] + cid,
            _ => false,
        },
        _ => false,
    }
}

pub proof fn lemma_link_cid(v: CborValue, cid: Seq<u8>)
    requires
        is_link(v, cid),
    ensures
        link_cid(v) == Some(cid),
{
    if let CborValue::Tag(_, inner) = v {
        if let CborValue::Bytes(b) = *inner {
            assert(b@.skip(1) =~= cid);
        }
    }
}

/// A content identifier in its binary form, kept as opaque bytes.
#[derive(Debug, Hash)]
pub struct RawCid(Vec<u8>);

impl Clone for RawCid {
    fn clone(&self) -> (r: RawCid)
        ensures
            r@ == self@,
    {
        let bytes = self.0.clone();
        assert(bytes@ =~= self.0@);
        RawCid(bytes)
    }
}

impl View for RawCid {
    type V = Seq<u8>;

    closed spec fn view(&self) -> Seq<u8> {
        self.0@
    }
}

impl PartialEq for RawCid {
    fn eq(&self, other: &RawCid) -> (r: bool) {
        same_bytes(self.0.as_slice(), other.0.as_slice())
    }
}

impl Eq for RawCid {}

impl vstd::std_specs::cmp::PartialEqSpecImpl for RawCid {
    open spec fn obeys_eq_spec() -> bool {
        true
    }

    open spec fn eq_spec(&self, other: &RawCid) -> bool {
        self@ == other@
    }
}

/// Byte-wise equality of two slices.
pub fn same_bytes(a: &[u8], b: &[u8]) -> (r: bool)
    ensures
        r == (a@ == b@),
{
    if a.len() != b.len() {
        return false;
    }
    let mut i: usize = 0;
    while i < a.len()
        invariant
            a@.len() == b@.len(),
            i <= a@.len(),
            forall|j: int| 0 <= j < i ==> a@[j] == b@[j],
        decreases a.len() - i,
    {
        if a[i] != b[i] {
            return false;
        }
        i = i + 1;
    }
    assert(a@ =~= b@);
    true
}

impl RawCid {
    /// Wraps the bytes as they are, without checking them.
    pub fn new(bytes: Vec<u8>) -> (r: RawCid)
        ensures
            r@ == bytes@,
    {
        RawCid(bytes)
    }

    /// The CID whose bytes the hexadecimal text spells, unchecked as a CID.
    pub fn from_hex(hex_str: &str) -> (r: Result<RawCid, hex::FromHexError>)
        ensures
            is_hex_text(hex_str@) ==> r is Ok && r->Ok_0@ == hex_bytes(hex_str@),
            !is_hex_text(hex_str@) ==> r is Err,
    {
        match decode_hex(hex_str) {
            Ok(bytes) => Ok(RawCid::new(bytes)),
            Err(e) => Err(e),
        }
    }

    /// The bytes of the CID.
    pub fn bytes(&self) -> (r: &[u8])
        ensures
            r@ == self@,
    {
        self.0.as_slice()
    }

    /// The bytes of the CID in lowercase hexadecimal.
    pub fn to_hex(&self) -> (r: String)
        ensures
            r@ == hex_text(self@),
    {
        encode_hex(self.0.as_slice())
    }

    /// The CBOR link to this CID, as CAR headers hold it.
    pub fn to_cbor(&self) -> (r: CborValue)
        ensures
            is_link(r, self@),
    {
        let mut bytes: Vec<u8> = Vec::new();
        bytes.push(0u8);
        let mut i: usize = 0;
        while i < self.0.len()
            invariant
                i <= self.0@.len(),
                bytes@ == seq![0u8] + self.0@.subrange(0, i as int),
            decreases self.0.len() - i,
        {
            bytes.push(self.0[i]);
            assert(self.0@.subrange(0, i + 1) =~= self.0@.subrange(0, i as int).push(self.0@[i as int]));
            i = i + 1;
        }
        assert(self.0@.subrange(0, i as int) =~= self.0@);
        CborValue::Tag(42, Box::new(CborValue::Bytes(bytes)))
    }

    /// The CID that a CBOR link carries, if `v` is one.
    pub fn from_cbor(v: &CborValue) -> (r: Option<RawCid>)
        ensures
            match r {
                Some(c) => link_cid(*v) == Some(c@),
                None => link_cid(*v) is None,
            },
    {
        match v {
            CborValue::Tag(t, inner) => {
                if *t != 42 {
                    return None;
                }
                match &**inner {
                    CborValue::Bytes(b) => {
                        if b.len() >= 1 && b[0] == 0 {
                            let rest = slice_to_vec(&b.as_slice()[1..b.len()]);
                            assert(rest@ =~= b@.skip(1));
                            Some(RawCid::new(rest))
                        } else {
                            None
                        }
                    },
                    _ => None,
                }
            },
            _ => None,
        }
    }

    /// The CBOR bytes of the link to this CID.
    pub fn to_cbor_bytes(&self) -> (r: Vec<u8>)
        ensures
            exists|v: CborValue| is_link(v, self@) && r@ == cbor_encoded(v),
    {
        let v = self.to_cbor();
        encode_cbor(&v)
    }

    /// The CID that the CBOR bytes of a link carry, if they hold one.
    pub fn from_cbor_bytes(bytes: &[u8]) -> (r: Option<RawCid>)
        ensures
            match r {
                Some(c) => cbor_decoded(bytes@) is Some && link_cid(cbor_decoded(bytes@)->Some_0)
                    == Some(c@),
                None => cbor_decoded(bytes@) is None || link_cid(cbor_decoded(bytes@)->Some_0) is None,
            },
    {
        match decode_cbor(bytes) {
            Some(v) => RawCid::from_cbor(&v),
            None => None,
        }
    }

    /// Reads the binary CID at the front of `bytes`: the CID and its length, or
    /// why none could be read. Only the framing is checked, not the digest.
    pub fn try_read_bytes(bytes: &[u8]) -> (r: Result<(RawCid, usize), CidFormatError>)
        ensures
            match r {
                Ok((c, n)) => cid_len(bytes@) == Ok::<nat, CidFormatError>(n as nat) && c@
                    == bytes@.subrange(0, n as int),
                Err(e) => cid_len(bytes@) == Err::<nat, CidFormatError>(e),
            },
    {
        let len = bytes.len();
        if len < 2 {
            return Err(CidFormatError::InsufficientData);
        }
        if bytes[0] == 0x12 && bytes[1] == 0x20 {
            if len < 34 {
                return Err(CidFormatError::InsufficientData);
            }
            let cid = slice_to_vec(&bytes[0..34]);
            return Ok((RawCid::new(cid), 34));
        }
        if bytes[0] != 0x01 {
            return Err(CidFormatError::UnsupportedVersion);
        }
        let codec_start: usize = 1;
        let n1 = match UnsignedVarint::decode(&bytes[codec_start..len]) {
            Some((_, n)) => n,
            None => {
                proof {
                    assert(bytes@.subrange(1, len as int) =~= bytes@.skip(1));
                }
                return Err(CidFormatError::InsufficientData);
            },
        };
        assert(bytes@.subrange(1, len as int) =~= bytes@.skip(1));
        let code_start = codec_start + n1;
        let n2 = match UnsignedVarint::decode(&bytes[code_start..len]) {
            Some((_, n)) => n,
            None => {
                proof {
                    assert(bytes@.subrange(code_start as int, len as int) =~= bytes@.skip(
                        code_start as int,
                    ));
                }
                return Err(CidFormatError::InsufficientData);
            },
        };
        assert(bytes@.subrange(code_start as int, len as int) =~= bytes@.skip(code_start as int));
        let digest_len_start = code_start + n2;
        let (digest_len, n3) = match UnsignedVarint::decode(&bytes[digest_len_start..len]) {
            Some((v, n)) => (v.0, n),
            None => {
                proof {
                    assert(bytes@.subrange(digest_len_start as int, len as int) =~= bytes@.skip(
                        digest_len_start as int,
                    ));
                }
                return Err(CidFormatError::InsufficientData);
            },
        };
        assert(bytes@.subrange(digest_len_start as int, len as int) =~= bytes@.skip(
            digest_len_start as int,
        ));
        let prefix = digest_len_start + n3;
        let available: u64 = (len - prefix) as u64;
        if available < digest_len {
            return Err(CidFormatError::InsufficientData);
        }
        let total = prefix + digest_len as usize;
        let cid = slice_to_vec(&bytes[0..total]);
        Ok((RawCid::new(cid), total))
    }
}

} // verus!

verus! {

/// Once the front of `b` decides the CID (it is read, or it is of an unsupported
/// version), more bytes behind it change nothing.
#[verifier::rlimit(30)]
pub proof fn lemma_cid_len_extend(b: Seq<u8>, ext: Seq<u8>)
    requires
        cid_len(b) != Err::<nat, CidFormatError>(CidFormatError::InsufficientData),
    ensures
        cid_len(b + ext) == cid_len(b),
{
    let c = b + ext;
    assert(c[0] == b[0] && c[1] == b[1]);
    if b[0] == 0x01 && !(b[0] == 0x12 && b[1] == 0x20) {
        assert(c.skip(1) =~= b.skip(1) + ext);
        lemma_varint_decode_extend(b.skip(1), ext);
        let n1 = uvarint_decode(b.skip(1))->Some_0.1 as int;
        assert(c.skip(1 + n1) =~= b.skip(1 + n1) + ext);
        lemma_varint_decode_extend(b.skip(1 + n1), ext);
        let n2 = uvarint_decode(b.skip(1 + n1))->Some_0.1 as int;
        assert(c.skip(1 + n1 + n2) =~= b.skip(1 + n1 + n2) + ext);
        lemma_varint_decode_extend(b.skip(1 + n1 + n2), ext);
    }
}

/// A CID read from `b` is read the same from any prefix of `b` that holds it.
#[verifier::rlimit(30)]
pub proof fn lemma_cid_len_prefix(b: Seq<u8>, k: nat)
    requires
        cid_len(b) is Ok,
        cid_len(b)->Ok_0 <= k <= b.len(),
    ensures
        cid_len(b.subrange(0, k as int)) == cid_len(b),
{
    let p = b.subrange(0, k as int);
    assert(p[0] == b[0] && p[1] == b[1]);
    if b[0] == 0x01 && !(b[0] == 0x12 && b[1] == 0x20) {
        let n1 = uvarint_decode(b.skip(1))->Some_0.1 as int;
        assert(p.skip(1) =~= b.skip(1).subrange(0, k - 1));
        lemma_varint_decode_prefix(b.skip(1), (k - 1) as nat);
        let n2 = uvarint_decode(b.skip(1 + n1))->Some_0.1 as int;
        assert(p.skip(1 + n1) =~= b.skip(1 + n1).subrange(0, k - 1 - n1));
        lemma_varint_decode_prefix(b.skip(1 + n1), (k - 1 - n1) as nat);
        assert(p.skip(1 + n1 + n2) =~= b.skip(1 + n1 + n2).subrange(0, k - 1 - n1 - n2));
        lemma_varint_decode_prefix(b.skip(1 + n1 + n2), (k - 1 - n1 - n2) as nat);
    }
}

/// A CIDv1 cut short by any number of trailing bytes is reported as needing
/// more data.
#[verifier::rlimit(30)]
pub proof fn lemma_cidv1_truncated_is_insufficient(b: Seq<u8>, k: nat)
    requires
        b.len() >= 1,
        b[0] == 0x01,
        cid_len(b) is Ok,
        k < cid_len(b)->Ok_0,
    ensures
        cid_len(b.subrange(0, k as int)) == Err::<nat, CidFormatError>(CidFormatError::InsufficientData),
{
    let p = b.subrange(0, k as int);
    if k >= 2 {
        assert(p[0] == b[0] && p[1] == b[1]);
        let b1 = b.skip(1);
        let n1 = uvarint_decode(b1)->Some_0.1 as int;
        lemma_prefix_varint(b1, (k - 1) as nat);
        assert(p.skip(1) =~= b1.subrange(0, k - 1));
        if n1 <= k - 1 {
            let b2 = b.skip(1 + n1);
            let n2 = uvarint_decode(b2)->Some_0.1 as int;
            assert(p.skip(1 + n1) =~= b2.subrange(0, k - 1 - n1));
            lemma_prefix_varint(b2, (k - 1 - n1) as nat);
            if n2 <= k - 1 - n1 {
                let b3 = b.skip(1 + n1 + n2);
                assert(p.skip(1 + n1 + n2) =~= b3.subrange(0, k - 1 - n1 - n2));
                lemma_prefix_varint(b3, (k - 1 - n1 - n2) as nat);
            }
        }
    }
}

/// A prefix of `b` either holds the whole varint at the front of `b`, and reads
/// it, or reads none.
proof fn lemma_prefix_varint(b: Seq<u8>, k: nat)
    requires
        uvarint_decode(b) is Some,
        k <= b.len(),
    ensures
        uvarint_decode(b)->Some_0.1 <= k ==> uvarint_decode(b.subrange(0, k as int)) == uvarint_decode(b),
        uvarint_decode(b)->Some_0.1 > k ==> uvarint_decode(b.subrange(0, k as int)) is None,
{
    let p = b.subrange(0, k as int);
    let n = varint_frame_len(b);
    assert(is_varint_frame(b, n));
    if n <= k {
        lemma_varint_decode_prefix(b, k);
    } else if has_varint_frame(p) {
        let m = varint_frame_len(p);
        assert(is_varint_frame(p, m));
        assert(p[m - 1] == b[m - 1]);
        assert(b[m - 1] >= 128);
    }
}

} // verus!
