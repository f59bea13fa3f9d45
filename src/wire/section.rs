//! CAR v1 sections: `uvarint(length) || cid || block`, where `length` counts the
//! CID and the block but not the varint.

use crate::wire::cid::{cid_len, lemma_cid_len_extend, lemma_cid_len_prefix, CidFormatError, RawCid};
use crate::wire::varint::{
    lemma_uvarint_round_trip, lemma_varint_decode_extend, lemma_varint_decode_prefix,
    uvarint_decode, uvarint_encoding, varint_frame_len, UnsignedVarint,
};
use vstd::prelude::*;
use vstd::slice::slice_to_vec;

verus! {

/// The largest block a section may carry: 2 MiB.
pub const MAX_BLOCK_SIZE: usize = 2097152;

/// The largest `length` a section may declare: a block and room for its CID.
pub const MAX_SECTION_SIZE: usize = 2097280;

/// Why no section could be read from some bytes.
#[derive(Debug, Clone, Copy, PartialEq, Eq, Structural)]
pub enum SectionFormatError {
    /// The bytes end before the section does.
    InsufficientData,
    /// The CID of the section is not one this library reads.
    InvalidCid(CidFormatError),
    /// The declared length is over the ceiling or shorter than the CID, or no
    /// length varint was found in the first bytes.
    InvalidSize(usize),
}

/// A section as values: its declared length, the bytes of its CID and of its
/// block.
pub struct SectionModel {
    pub length: u64,
    pub cid: Seq<u8>,
    pub block: Seq<u8>,
}

/// The framing at the front of `b`: the declared length, the size of its
/// varint and the size of the CID that follows.
pub open spec fn section_frame(b: Seq<u8>) -> Result<(u64, nat, nat), SectionFormatError> {
    match uvarint_decode(b) {
        None => if b.len() > 16 {
            Err(SectionFormatError::InvalidSize((MAX_BLOCK_SIZE + 1) as usize))
        } else {
            Err(SectionFormatError::InsufficientData)
        },
        Some((len, n)) => if len > MAX_SECTION_SIZE {
            Err(SectionFormatError::InvalidSize(len as usize))
        } else {
            match cid_len(b.skip(n as int)) {
                Err(CidFormatError::InsufficientData) => Err(SectionFormatError::InsufficientData),
                Err(e) => Err(SectionFormatError::InvalidCid(e)),
                Ok(c) => if c > len {
                    Err(SectionFormatError::InvalidSize(len as usize))
                } else {
                    Ok((len, n, c))
                },
            }
        },
    }
}

/// The section at the front of `b` without its block, and the size of the
/// whole section, varint included.
pub open spec fn parse_section_header(b: Seq<u8>) -> Result<(SectionModel, nat), SectionFormatError> {
    match section_frame(b) {
        Err(e) => Err(e),
        Ok((len, n, c)) => Ok(
            (
                SectionModel { length: len, cid: b.subrange(n as int, (n + c) as int), block: Seq::empty() },
                (n + len) as nat,
            ),
        ),
    }
}

/// The section at the front of `b`, and its size, varint included.
pub open spec fn parse_section(b: Seq<u8>) -> Result<(SectionModel, nat), SectionFormatError> {
    match section_frame(b) {
        Err(e) => Err(e),
        Ok((len, n, c)) => if b.len() < n + len {
            Err(SectionFormatError::InsufficientData)
        } else {
            Ok(
                (
                    SectionModel {
                        length: len,
                        cid: b.subrange(n as int, (n + c) as int),
                        block: b.subrange((n + c) as int, (n + len) as int),
                    },
                    (n + len) as nat,
                ),
            )
        },
    }
}

/// The bytes of a section: the varint of its length, its CID, its block.
pub open spec fn section_bytes(s: SectionModel) -> Seq<u8> {
    uvarint_encoding(s.length as nat) + s.cid + s.block
}

/// A block of data as a CAR file stores it.
#[derive(Debug)]
pub struct Block(Vec<u8>);

impl View for Block {
    type V = Seq<u8>;

    closed spec fn view(&self) -> Seq<u8> {
        self.0@
    }
}

impl Clone for Block {
    fn clone(&self) -> (r: Block)
        ensures
            r@ == self@,
    {
        let data = self.0.clone();
        assert(data@ =~= self.0@);
        Block(data)
    }
}

impl Block {
    pub fn new(data: Vec<u8>) -> (r: Block)
        ensures
            r@ == data@,
    {
        Block(data)
    }

    /// The bytes of the block.
    pub fn data(&self) -> (r: &[u8])
        ensures
            r@ == self@,
    {
        self.0.as_slice()
    }
}

/// Where a section lies in a CAR file: the offset of its first byte and its
/// size, varint included.
#[derive(Debug, Clone, Copy, PartialEq, Eq, Structural)]
pub struct SectionLocation {
    pub offset: u64,
    pub length: u64,
}

/// One record of a CAR v1 payload: the declared length, the CID and the block.
#[derive(Debug)]
pub struct Section {
    length: u64,
    cid: RawCid,
    block: Block,
}

impl View for Section {
    type V = SectionModel;

    closed spec fn view(&self) -> SectionModel {
        SectionModel { length: self.length, cid: self.cid@, block: self.block@ }
    }
}

impl Clone for Section {
    fn clone(&self) -> (r: Section)
        ensures
            r@ == self@,
    {
        Section { length: self.length, cid: self.cid.clone(), block: self.block.clone() }
    }
}

/// A section together with where it was read.
#[derive(Debug)]
pub struct LocatableSection {
    pub section: Section,
    pub location: SectionLocation,
}

impl Section {
    /// The section that carries `block` under `cid`; its length is the sum of
    /// their sizes.
    pub fn new(cid: RawCid, block: Block) -> (r: Section)
        requires
            cid@.len() + block@.len() <= u64::MAX,
        ensures
            r@ == (SectionModel {
                length: (cid@.len() + block@.len()) as u64,
                cid: cid@,
                block: block@,
            }),
    {
        let length = cid.bytes().len() as u64 + block.data().len() as u64;
        Section { length, cid, block }
    }

    /// The declared length: the size of the CID and the block.
    pub fn length(&self) -> (r: u64)
        ensures
            r == self@.length,
    {
        self.length
    }

    pub fn cid(&self) -> (r: &RawCid)
        ensures
            r@ == self@.cid,
    {
        &self.cid
    }

    pub fn block(&self) -> (r: &Block)
        ensures
            r@ == self@.block,
    {
        &self.block
    }

    /// The size of the section's bytes, varint included.
    pub fn total_length(&self) -> (r: usize)
        requires
            uvarint_encoding(self@.length as nat).len() + self@.length <= usize::MAX,
        ensures
            r == uvarint_encoding(self@.length as nat).len() + self@.length,
    {
        let v = UnsignedVarint(self.length).encode();
        v.len() + self.length as usize
    }

    /// Reads the section at the front of `bytes` without its block: the section
    /// with an empty block, and the size of the whole section.
    pub fn try_read_header_bytes(bytes: &[u8]) -> (r: Result<(Section, usize), SectionFormatError>)
        ensures
            match r {
                Ok((s, n)) => parse_section_header(bytes@) == Ok::<(SectionModel, nat), SectionFormatError>((s@, n as nat)),
                Err(e) => parse_section_header(bytes@) == Err::<(SectionModel, nat), SectionFormatError>(e),
            },
    {
        let (length, n, cid, _) = read_frame(bytes)?;
        let s = Section { length, cid, block: Block(Vec::new()) };
        proof {
            assert(s@.block =~= Seq::<u8>::empty());
        }
        Ok((s, n + length as usize))
    }

    /// Reads the section at the front of `bytes`: the section and its size,
    /// varint included.
    pub fn try_read_bytes(bytes: &[u8]) -> (r: Result<(Section, usize), SectionFormatError>)
        ensures
            match r {
                Ok((s, n)) => parse_section(bytes@) == Ok::<(SectionModel, nat), SectionFormatError>((s@, n as nat)),
                Err(e) => parse_section(bytes@) == Err::<(SectionModel, nat), SectionFormatError>(e),
            },
    {
        let (length, n, cid, c) = read_frame(bytes)?;
        let total = n + length as usize;
        if bytes.len() < total {
            return Err(SectionFormatError::InsufficientData);
        }
        let block = slice_to_vec(&bytes[n + c..total]);
        let s = Section { length, cid, block: Block(block) };
        Ok((s, total))
    }

    /// The bytes of the section: the varint of its length, its CID, its block.
    pub fn to_bytes(&self) -> (r: Vec<u8>)
        ensures
            r@ == section_bytes(self@),
    {
        let mut bytes = UnsignedVarint(self.length).encode();
        bytes.extend_from_slice(self.cid.bytes());
        bytes.extend_from_slice(self.block.data());
        assert(bytes@ =~= section_bytes(self@));
        bytes
    }
}

/// Reads the framing at the front of `bytes`: the declared length, the size of
/// its varint, the CID and the CID's size.
fn read_frame(bytes: &[u8]) -> (r: Result<(u64, usize, RawCid, usize), SectionFormatError>)
    ensures
        match r {
            Ok((len, n, cid, c)) => {
                &&& section_frame(bytes@) == Ok::<(u64, nat, nat), SectionFormatError>((len, n as nat, c as nat))
                &&& cid@ == bytes@.subrange(n as int, (n + c) as int)
            },
            Err(e) => section_frame(bytes@) == Err::<(u64, nat, nat), SectionFormatError>(e),
        },
{
    let (length, n) = match UnsignedVarint::decode(bytes) {
        Some((v, n)) => (v.0, n),
        None => {
            if bytes.len() > 16 {
                return Err(SectionFormatError::InvalidSize(MAX_BLOCK_SIZE + 1));
            }
            return Err(SectionFormatError::InsufficientData);
        },
    };
    if length > MAX_SECTION_SIZE as u64 {
        return Err(SectionFormatError::InvalidSize(length as usize));
    }
    let rest = &bytes[n..bytes.len()];
    assert(rest@ =~= bytes@.skip(n as int));
    let (cid, c) = match RawCid::try_read_bytes(rest) {
        Ok((cid, c)) => (cid, c),
        Err(CidFormatError::InsufficientData) => return Err(SectionFormatError::InsufficientData),
        Err(e) => return Err(SectionFormatError::InvalidCid(e)),
    };
    if c as u64 > length {
        return Err(SectionFormatError::InvalidSize(length as usize));
    }
    assert(cid@ =~= bytes@.subrange(n as int, (n + c) as int));
    Ok((length, n, cid, c))
}

} // verus!

verus! {

/// A section as this library writes it: a CID that parses to its own length,
/// and a declared length that is the size of the CID and the block, within the
/// ceiling.
pub open spec fn valid_section(s: SectionModel) -> bool {
    &&& cid_len(s.cid) == Ok::<nat, CidFormatError>(s.cid.len())
    &&& s.length == s.cid.len() + s.block.len()
    &&& s.length <= MAX_SECTION_SIZE
}

/// The section with its block left out, as a header-only read gives it.
pub open spec fn without_block(s: SectionModel) -> SectionModel {
    SectionModel { block: Seq::empty(), ..s }
}

/// Reading back the bytes of a section gives the section and the number of its
/// bytes, whatever follows them.
#[verifier::rlimit(30)]
pub proof fn lemma_section_round_trip(s: SectionModel, rest: Seq<u8>)
    requires
        valid_section(s),
    ensures
        parse_section(section_bytes(s) + rest) == Ok::<(SectionModel, nat), SectionFormatError>((s, section_bytes(s).len())),
        parse_section_header(section_bytes(s) + rest) == Ok::<(SectionModel, nat), SectionFormatError>(
            (without_block(s), section_bytes(s).len()),
        ),
{
    let e = uvarint_encoding(s.length as nat);
    let b = section_bytes(s) + rest;
    let n = e.len();
    assert(b =~= e + (s.cid + s.block + rest));
    lemma_uvarint_round_trip(s.length, s.cid + s.block + rest);
    assert(b.skip(n as int) =~= s.cid + (s.block + rest));
    lemma_cid_len_extend(s.cid, s.block + rest);
    assert(b.subrange(n as int, (n + s.cid.len()) as int) =~= s.cid);
    assert(b.subrange((n + s.cid.len()) as int, (n + s.length) as int) =~= s.block);
    assert(without_block(s).block =~= Seq::<u8>::empty());
}

proof fn lemma_section_frame_extend(b: Seq<u8>, ext: Seq<u8>)
    requires
        section_frame(b) != Err::<(u64, nat, nat), SectionFormatError>(SectionFormatError::InsufficientData),
    ensures
        section_frame(b + ext) == section_frame(b),
{
    if uvarint_decode(b) is None {
        lemma_varint_decode_extend(b, ext);
    } else {
        let n = varint_frame_len(b);
        crate::wire::varint::lemma_frame_len(b, n);
        lemma_varint_decode_extend(b, ext);
        let len = uvarint_decode(b)->Some_0.0;
        if len <= MAX_SECTION_SIZE {
            assert((b + ext).skip(n as int) =~= b.skip(n as int) + ext);
            lemma_cid_len_extend(b.skip(n as int), ext);
        }
    }
}

/// Once the bytes at the front decide what is read (a section, or an error other
/// than a need for more data), more bytes behind them change nothing.
#[verifier::rlimit(30)]
pub proof fn lemma_parse_section_extend(b: Seq<u8>, ext: Seq<u8>)
    ensures
        parse_section(b) != Err::<(SectionModel, nat), SectionFormatError>(SectionFormatError::InsufficientData)
            ==> parse_section(b + ext) == parse_section(b),
        parse_section_header(b) != Err::<(SectionModel, nat), SectionFormatError>(SectionFormatError::InsufficientData)
            ==> parse_section_header(b + ext) == parse_section_header(b),
{
    if section_frame(b) != Err::<(u64, nat, nat), SectionFormatError>(SectionFormatError::InsufficientData) {
        lemma_section_frame_extend(b, ext);
        if let Ok((len, n, c)) = section_frame(b) {
            assert((b + ext).subrange(n as int, (n + c) as int) =~= b.subrange(n as int, (n + c) as int));
            if b.len() >= n + len {
                assert((b + ext).subrange((n + c) as int, (n + len) as int) =~= b.subrange((n + c) as int, (n + len) as int));
            }
        }
    }
}

/// A section read from `b` is read the same from any prefix of `b` that holds
/// it: the bytes at its location replay it.
#[verifier::rlimit(30)]
pub proof fn lemma_parse_section_prefix(b: Seq<u8>, k: nat)
    requires
        parse_section(b) is Ok,
        parse_section(b)->Ok_0.1 <= k <= b.len(),
    ensures
        parse_section(b.subrange(0, k as int)) == parse_section(b),
{
    let p = b.subrange(0, k as int);
    let n = varint_frame_len(b);
    crate::wire::varint::lemma_frame_len(b, n);
    assert(crate::wire::varint::is_varint_frame(b, n));
    lemma_varint_decode_prefix(b, k);
    let (len, n0, c) = section_frame(b)->Ok_0;
    assert(p.skip(n as int) =~= b.skip(n as int).subrange(0, k - n));
    lemma_cid_len_prefix(b.skip(n as int), (k - n) as nat);
    assert(p.subrange(n as int, (n + c) as int) =~= b.subrange(n as int, (n + c) as int));
    assert(p.subrange((n + c) as int, (n + len) as int) =~= b.subrange((n + c) as int, (n + len) as int));
}

} // verus!
