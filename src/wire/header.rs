//! The CAR v1 header: a CBOR map `{"roots": [link, ...], "version": 1}`.

use crate::wire::cbor::{cbor_decoded, cbor_encoded, decode_cbor, encode_cbor, CborValue};
use crate::wire::cid::{is_link, lemma_link_cid, link_cid, same_bytes, RawCid};
use vstd::prelude::*;

verus! {

/// The UTF-8 bytes of `"roots"`.
pub open spec fn roots_key() -> Seq<u8> {
    seq![0x72u8, 0x6fu8, 0x6fu8, 0x74u8, 0x73u8]
}

/// The UTF-8 bytes of `"version"`.
pub open spec fn version_key() -> Seq<u8> {
    seq![0x76u8, 0x65u8, 0x72u8, 0x73u8, 0x69u8, 0x6fu8, 0x6eu8]
}

/// `v` is the text string whose bytes are `t`.
pub open spec fn is_text(v: CborValue, t: Seq<u8>) -> bool {
    match v {
        CborValue::Text(x) => x@ == t,
        _ => false,
    }
}

/// Entry `i` is the first whose key is the text `key`.
pub open spec fn is_first_key(entries: Seq<(CborValue, CborValue)>, key: Seq<u8>, i: int) -> bool {
    &&& 0 <= i < entries.len()
    &&& is_text(entries[i].0, key)
    &&& forall|j: int| 0 <= j < i ==> !is_text(#[trigger] entries[j].0, key)
}

/// The value under the first entry whose key is the text `key`.
pub open spec fn map_get(entries: Seq<(CborValue, CborValue)>, key: Seq<u8>) -> Option<CborValue> {
    if exists|i: int| is_first_key(entries, key, i) {
        Some(entries[choose|i: int| is_first_key(entries, key, i)].1)
    } else {
        None
    }
}

/// The version and the roots that a CBOR item gives as a CAR v1 header: a map
/// whose `"version"` is an integer in `0..2^64` and whose `"roots"` is an array
/// of CID links. Other keys are ignored; of a repeated key the first counts.
pub open spec fn header_of_cbor(v: CborValue) -> Option<(u64, Seq<Seq<u8>>)> {
    match v {
        CborValue::Mapping(entries) => match map_get(entries@, version_key()) {
            Some(CborValue::Integer(ver)) => match map_get(entries@, roots_key()) {
                Some(CborValue::Array(items)) => if 0 <= ver <= u64::MAX && forall|i: int|
                    0 <= i < items@.len() ==> (#[trigger] link_cid(items@[i])) is Some {
                    Some(
                        (
                            ver as u64,
                            Seq::new(items@.len(), |i: int| link_cid(items@[i])->Some_0),
                        ),
                    )
                } else {
                    None
                },
                _ => None,
            },
            _ => None,
        },
        _ => None,
    }
}

/// The header that the CBOR bytes `b` hold.
pub open spec fn header_of_bytes(b: Seq<u8>) -> Option<(u64, Seq<Seq<u8>>)> {
    match cbor_decoded(b) {
        Some(v) => header_of_cbor(v),
        None => None,
    }
}

/// `v` is the CBOR form that this library writes for a header: the map
/// `{"roots": [links], "version": version}`, in that order.
pub open spec fn is_header_value(v: CborValue, version: u64, roots: Seq<Seq<u8>>) -> bool {
    match v {
        CborValue::Mapping(entries) => {
            &&& entries@.len() == 2
            &&& is_text(entries@[0].0, roots_key())
            &&& match entries@[0].1 {
                CborValue::Array(items) => {
                    &&& items@.len() == roots.len()
                    &&& forall|i: int| 0 <= i < roots.len() ==> is_link(#[trigger] items@[i], roots[i])
                },
                _ => false,
            }
            &&& is_text(entries@[1].0, version_key())
            &&& entries@[1].1 == CborValue::Integer(version as i128)
        },
        _ => false,
    }
}

/// The bytes of the CIDs.
pub open spec fn cid_views(cids: Seq<RawCid>) -> Seq<Seq<u8>> {
    cids.map_values(|c: RawCid| c@)
}

/// Why some bytes are not a CAR v1 header.
#[derive(Debug, Clone, Copy, PartialEq, Eq, Structural)]
pub enum HeaderFormatError {
    /// The bytes are not a CBOR data item.
    InvalidCbor,
    /// The CBOR item is not a map with an integer `"version"` and an array of
    /// CID links under `"roots"`.
    NotAHeader,
}

/// CAR v1 header: the format version and the root CIDs.
#[derive(Debug)]
pub struct CarHeader {
    version: u64,
    roots: Vec<RawCid>,
}

impl View for CarHeader {
    type V = (u64, Seq<Seq<u8>>);

    closed spec fn view(&self) -> (u64, Seq<Seq<u8>>) {
        (self.version, cid_views(self.roots@))
    }
}

impl Clone for CarHeader {
    fn clone(&self) -> (r: CarHeader)
        ensures
            r@ == self@,
    {
        CarHeader { version: self.version, roots: clone_cids(&self.roots) }
    }
}

/// A copy of each CID, in order.
pub fn clone_cids(cids: &Vec<RawCid>) -> (r: Vec<RawCid>)
    ensures
        cid_views(r@) == cid_views(cids@),
{
    let mut out: Vec<RawCid> = Vec::new();
    let mut i: usize = 0;
    while i < cids.len()
        invariant
            i <= cids@.len(),
            out@.len() == i,
            forall|j: int| 0 <= j < i ==> out@[j]@ == cids@[j]@,
        decreases cids.len() - i,
    {
        out.push(cids[i].clone());
        i = i + 1;
    }
    assert(cid_views(out@) =~= cid_views(cids@));
    out
}

/// The bytes `"roots"`.
fn roots_key_bytes() -> (r: Vec<u8>)
    ensures
        r@ == roots_key(),
{
    let r: Vec<u8> = vec![0x72u8, 0x6fu8, 0x6fu8, 0x74u8, 0x73u8];
    assert(r@ =~= roots_key());
    r
}

/// The bytes `"version"`.
fn version_key_bytes() -> (r: Vec<u8>)
    ensures
        r@ == version_key(),
{
    let r: Vec<u8> = vec![0x76u8, 0x65u8, 0x72u8, 0x73u8, 0x69u8, 0x6fu8, 0x6eu8];
    assert(r@ =~= version_key());
    r
}

proof fn lemma_first_key_unique(entries: Seq<(CborValue, CborValue)>, key: Seq<u8>, i: int, k: int)
    requires
        is_first_key(entries, key, i),
        is_first_key(entries, key, k),
    ensures
        i == k,
{
    if i < k {
        assert(!is_text(entries[i].0, key));
    } else if k < i {
        assert(!is_text(entries[k].0, key));
    }
}

/// The value under the first entry whose key is the text `key`.
fn lookup<'a>(entries: &'a Vec<(CborValue, CborValue)>, key: &Vec<u8>) -> (r: Option<&'a CborValue>)
    ensures
        match r {
            Some(x) => map_get(entries@, key@) == Some(*x),
            None => map_get(entries@, key@) is None,
        },
{
    let mut i: usize = 0;
    while i < entries.len()
        invariant
            i <= entries@.len(),
            forall|j: int| 0 <= j < i ==> !is_text(#[trigger] entries@[j].0, key@),
        decreases entries.len() - i,
    {
        let entry = &entries[i];
        let hit = match &entry.0 {
            CborValue::Text(t) => same_bytes(t.as_slice(), key.as_slice()),
            _ => false,
        };
        if hit {
            proof {
                assert(is_first_key(entries@, key@, i as int));
                let k = choose|k: int| is_first_key(entries@, key@, k);
                lemma_first_key_unique(entries@, key@, i as int, k);
            }
            return Some(&entry.1);
        }
        i = i + 1;
    }
    proof {
        if exists|k: int| is_first_key(entries@, key@, k) {
            let k = choose|k: int| is_first_key(entries@, key@, k);
            assert(!is_text(entries@[k].0, key@));
        }
    }
    None
}

impl CarHeader {
    /// A version 1 header with the given roots.
    pub fn new(roots: Vec<RawCid>) -> (r: CarHeader)
        ensures
            r@ == (1u64, cid_views(roots@)),
    {
        CarHeader { version: 1, roots }
    }

    /// The format version.
    pub fn version(&self) -> (r: u64)
        ensures
            r == self@.0,
    {
        self.version
    }

    /// The root CIDs.
    pub fn roots(&self) -> (r: &[RawCid])
        ensures
            cid_views(r@) == self@.1,
    {
        self.roots.as_slice()
    }

    /// The root CIDs, to change in place.
    pub fn roots_mut(&mut self) -> (r: &mut Vec<RawCid>)
        ensures
            cid_views(r@) == old(self)@.1,
            final(self)@ == (old(self)@.0, cid_views(final(r)@)),
    {
        &mut self.roots
    }

    /// Whether the header has no roots.
    pub fn is_empty(&self) -> (r: bool)
        ensures
            r == (self@.1.len() == 0),
    {
        self.roots.len() == 0
    }

    /// The header that a CBOR item gives, if it is one.
    pub fn from_cbor(v: &CborValue) -> (r: Option<CarHeader>)
        ensures
            match r {
                Some(h) => header_of_cbor(*v) == Some(h@),
                None => header_of_cbor(*v) is None,
            },
    {
        let entries = match v {
            CborValue::Mapping(entries) => entries,
            _ => return None,
        };
        let vkey = version_key_bytes();
        let found_version = lookup(entries, &vkey);
        let version: u64 = match found_version {
            Some(CborValue::Integer(ver)) => {
                if *ver < 0 || *ver > u64::MAX as i128 {
                    return None;
                }
                *ver as u64
            },
            _ => return None,
        };
        assert(map_get(entries@, version_key()) == Some(CborValue::Integer(version as i128)));
        let rkey = roots_key_bytes();
        let found = lookup(entries, &rkey);
        let items = match found {
            Some(CborValue::Array(items)) => items,
            _ => return None,
        };
        assert(map_get(entries@, roots_key()) == Some(CborValue::Array(*items)));
        let mut roots: Vec<RawCid> = Vec::new();
        let mut i: usize = 0;
        while i < items.len()
            invariant
                *v == CborValue::Mapping(*entries),
                map_get(entries@, version_key()) == Some(CborValue::Integer(version as i128)),
                map_get(entries@, roots_key()) == Some(CborValue::Array(*items)),
                i <= items@.len(),
                roots@.len() == i,
                forall|j: int| 0 <= j < i ==> link_cid(#[trigger] items@[j]) == Some(roots@[j]@),
            decreases items.len() - i,
        {
            match RawCid::from_cbor(&items[i]) {
                Some(c) => roots.push(c),
                None => {
                    proof {
                        assert(link_cid(items@[i as int]) is None);
                        assert(!(forall|k: int|
                            0 <= k < items@.len() ==> (#[trigger] link_cid(items@[k])) is Some));

                    }
                    return None;
                },
            }
            i = i + 1;
        }
        let h = CarHeader { version, roots };
        proof {
            assert(cid_views(h.roots@) =~= Seq::new(
                items@.len(),
                |i: int| link_cid(items@[i])->Some_0,
            ));
        }
        Some(h)
    }

    /// The CBOR form of the header: `{"roots": [links], "version": version}`.
    pub fn to_cbor(&self) -> (r: CborValue)
        ensures
            is_header_value(r, self@.0, self@.1),
    {
        let mut items: Vec<CborValue> = Vec::new();
        let mut i: usize = 0;
        while i < self.roots.len()
            invariant
                i <= self.roots@.len(),
                items@.len() == i,
                forall|j: int| 0 <= j < i ==> is_link(#[trigger] items@[j], self.roots@[j]@),
            decreases self.roots.len() - i,
        {
            items.push(self.roots[i].to_cbor());
            i = i + 1;
        }
        let mut entries: Vec<(CborValue, CborValue)> = Vec::new();
        entries.push((CborValue::Text(roots_key_bytes()), CborValue::Array(items)));
        entries.push(
            (CborValue::Text(version_key_bytes()), CborValue::Integer(self.version as i128)),
        );
        CborValue::Mapping(entries)
    }

    /// The header that the CBOR bytes hold, if they hold one.
    pub fn from_bytes(bytes: &[u8]) -> (r: Option<CarHeader>)
        ensures
            match r {
                Some(h) => header_of_bytes(bytes@) == Some(h@),
                None => header_of_bytes(bytes@) is None,
            },
    {
        match decode_cbor(bytes) {
            Some(v) => CarHeader::from_cbor(&v),
            None => None,
        }
    }

    /// The CBOR bytes of the header.
    pub fn to_bytes(&self) -> (r: Vec<u8>)
        ensures
            exists|v: CborValue| is_header_value(v, self@.0, self@.1) && r@ == cbor_encoded(v),
    {
        let v = self.to_cbor();
        encode_cbor(&v)
    }
}

/// The CBOR form that this library writes for a header gives back that header.
#[verifier::rlimit(30)]
pub proof fn lemma_header_value_read_back(v: CborValue, version: u64, roots: Seq<Seq<u8>>)
    requires
        is_header_value(v, version, roots),
    ensures
        header_of_cbor(v) == Some((version, roots)),
{
    if let CborValue::Mapping(entries) = v {
        let e = entries@;
        assert(is_first_key(e, version_key(), 1)) by {
            assert(!is_text(e[0].0, version_key())) by {
                if let CborValue::Text(x) = e[0].0 {
                    assert(x@[0] != version_key()[0]);
                }
            }
        }
        lemma_first_key_unique(e, version_key(), 1, choose|k: int| is_first_key(e, version_key(), k));
        assert(is_first_key(e, roots_key(), 0));
        lemma_first_key_unique(e, roots_key(), 0, choose|k: int| is_first_key(e, roots_key(), k));
        if let CborValue::Array(items) = e[0].1 {
            assert forall|i: int| 0 <= i < items@.len() implies (#[trigger] link_cid(items@[i])) is Some by {
                lemma_link_cid(items@[i], roots[i]);
            }
            assert forall|i: int| 0 <= i < items@.len() implies link_cid(items@[i])->Some_0 == roots[i] by {
                lemma_link_cid(items@[i], roots[i]);
            }
            assert(Seq::new(items@.len(), |i: int| link_cid(items@[i])->Some_0) =~= roots);
        }
    }
}

} // verus!
