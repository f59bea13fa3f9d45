//! CAR v2: an 11-byte pragma, the 40-byte header, then a complete CAR v1 stream
//! at `[data_offset, data_offset + data_size)`, then maybe an index. The reader
//! delegates the payload to a v1 reader and translates offsets.

use crate::wire::cid::{same_bytes, RawCid};
use crate::wire::header::{CarHeader, HeaderFormatError};
use crate::wire::section::{
    parse_section, SectionModel, parse_section_header, LocatableSection, SectionFormatError, SectionLocation,
};
use crate::wire::v1;
use crate::wire::v1::{
    find_step, holds_stream, lemma_read_section_replays, lemma_section_size_positive, located,
    read_header_step, read_section_step, receive_step, seek_step, Located, V1ReaderModel,
    POSITION_HEADROOM,
};
use crate::wire::v2header::{v2_header_of, CarV2Header};
use vstd::prelude::*;

verus! {

/// The bytes that open every CAR v2 file: a v1-style framed CBOR map
/// `{"version": 2}`.
pub open spec fn v2_pragma() -> Seq<u8> {
    seq![0x0au8, 0xa1u8, 0x67u8, 0x76u8, 0x65u8, 0x72u8, 0x73u8, 0x69u8, 0x6fu8, 0x6eu8, 0x02u8]
}

/// The size of the pragma and the v2 header together.
pub const PRAGMA_AND_HEADER_SIZE: usize = 51;

/// The CAR v2 pragma.
pub fn car_v2_pragma() -> (r: Vec<u8>)
    ensures
        r@ == v2_pragma(),
{
    let r: Vec<u8> = vec![0x0au8, 0xa1u8, 0x67u8, 0x76u8, 0x65u8, 0x72u8, 0x73u8, 0x69u8, 0x6fu8, 0x6eu8, 0x02u8];
    assert(r@ =~= v2_pragma());
    r
}

/// Errors of the CAR v2 reader.
#[derive(Debug, Clone, Copy, PartialEq, Eq, Structural)]
pub enum CarReaderError {
    /// The bytes cannot be a CAR v2 stream, or its payload does not start with a
    /// v1 header.
    InvalidFormat,
    /// The payload's header bytes are not a CAR v1 header.
    InvalidHeader(HeaderFormatError),
    /// The stream does not start with the v2 pragma.
    InvalidVersion,
    /// A section is malformed.
    InvalidSectionFormat(SectionFormatError),
    /// The headers must be read first.
    PreconditionNotMet,
    /// More bytes are needed: from this absolute offset, at least this many (0
    /// when unknown).
    InsufficientData(usize, usize),
    /// The payload has no more sections.
    EndOfSections,
}

/// The state of a v2 reader: bytes gathered before the headers, then the v2
/// header with the v1 reader of the payload, first before and then after the
/// payload's own header is read.
pub enum V2ReaderModel {
    NoHeader { buffer: Seq<u8> },
    HeaderV2 { header: CarV2Header, inner: V1ReaderModel },
    HeaderV1 { header: CarV2Header, inner: V1ReaderModel },
}

/// The payload's v1 reader may hold only payload bytes, its positions stay
/// within `usize` once translated, and a header it read lies in the payload.
pub open spec fn inner_ok(h: CarV2Header, m: V1ReaderModel) -> bool {
    &&& h.data_offset + h.data_size + POSITION_HEADROOM <= usize::MAX
    &&& m.start + m.buffer.len() <= h.data_size || (m.buffer.len() == 0 && m.start <= h.data_size
        + POSITION_HEADROOM)
    &&& m.header is Some ==> m.header->Some_0.1 <= h.data_size
}

/// What of `buf`, read at `pos`, lies in the payload is handed to the v1 reader
/// at its offset within the payload; the rest is dropped.
pub open spec fn forward_step(h: CarV2Header, m: V1ReaderModel, buf: Seq<u8>, pos: nat) -> V1ReaderModel {
    let lo = if pos < h.data_offset { h.data_offset as nat } else { pos };
    let end = pos + buf.len();
    let hi = if end < h.data_offset + h.data_size { end } else { (h.data_offset + h.data_size) as nat };
    if lo >= hi {
        m
    } else {
        receive_step(m, buf.subrange(lo - pos, hi - pos), (lo - h.data_offset) as nat)
    }
}

pub open spec fn v2_receive_step(m: V2ReaderModel, buf: Seq<u8>, pos: nat) -> V2ReaderModel {
    match m {
        V2ReaderModel::NoHeader { buffer } => if pos == buffer.len() {
            V2ReaderModel::NoHeader { buffer: buffer + buf }
        } else {
            m
        },
        V2ReaderModel::HeaderV2 { header, inner } => V2ReaderModel::HeaderV2 {
            header,
            inner: forward_step(header, inner, buf, pos),
        },
        V2ReaderModel::HeaderV1 { header, inner } => V2ReaderModel::HeaderV1 {
            header,
            inner: forward_step(header, inner, buf, pos),
        },
    }
}

/// A v1 reader's error, with offsets moved from the payload to the stream.
pub open spec fn map_v1_error(e: v1::CarReaderError, offset: nat) -> CarReaderError {
    match e {
        v1::CarReaderError::InvalidFormat => CarReaderError::InvalidFormat,
        v1::CarReaderError::InvalidHeader(c) => CarReaderError::InvalidHeader(c),
        v1::CarReaderError::InvalidVersion(_) => CarReaderError::InvalidFormat,
        v1::CarReaderError::InvalidSectionFormat(c) => CarReaderError::InvalidSectionFormat(c),
        v1::CarReaderError::PreconditionNotMet => CarReaderError::PreconditionNotMet,
        v1::CarReaderError::InsufficientData(o, n) => CarReaderError::InsufficientData(
            (offset + o) as usize,
            n,
        ),
    }
}

/// A v1 section result moved to the stream: locations and offsets shift by
/// the data offset, and a need for bytes past the payload ends the sections.
pub open spec fn map_section_result(r: Result<Located, v1::CarReaderError>, h: CarV2Header) -> Result<Located, CarReaderError> {
    match r {
        Ok((s, loc)) => Ok(
            (s, SectionLocation { offset: (loc.offset + h.data_offset) as u64, length: loc.length }),
        ),
        Err(v1::CarReaderError::InsufficientData(o, n)) => if o >= h.data_size {
            Err(CarReaderError::EndOfSections)
        } else {
            Err(CarReaderError::InsufficientData((h.data_offset + o) as usize, n))
        },
        Err(e) => Err(map_v1_error(e, h.data_offset as nat)),
    }
}

/// Reading the headers: the pragma and the v2 header from the first 51 bytes,
/// then the payload's v1 header.
pub open spec fn v2_read_header_step(m: V2ReaderModel) -> (V2ReaderModel, Result<(), CarReaderError>) {
    match m {
        V2ReaderModel::NoHeader { buffer } => {
            let len = buffer.len();
            if len < 51 {
                (m, Err(CarReaderError::InsufficientData(len as usize, (51 - len) as usize)))
            } else if buffer.subrange(0, 11) != v2_pragma() {
                (m, Err(CarReaderError::InvalidVersion))
            } else {
                let h = v2_header_of(buffer.subrange(11, 51));
                if h.data_offset + h.data_size + POSITION_HEADROOM > usize::MAX {
                    (m, Err(CarReaderError::InvalidFormat))
                } else {
                    let fresh = V1ReaderModel { buffer: Seq::empty(), start: 0, header: None };
                    let end = if h.data_offset + h.data_size < len { h.data_offset + h.data_size } else { len as int };
                    let fed = if len > h.data_offset {
                        receive_step(fresh, buffer.subrange(h.data_offset as int, end), 0)
                    } else {
                        fresh
                    };
                    let (inner, r) = read_header_step(fed);
                    match r {
                        Ok(()) => (V2ReaderModel::HeaderV1 { header: h, inner }, Ok(())),
                        Err(e) => (
                            V2ReaderModel::HeaderV2 { header: h, inner },
                            Err(map_v1_error(e, h.data_offset as nat)),
                        ),
                    }
                }
            }
        },
        V2ReaderModel::HeaderV2 { header, inner } => {
            let (inner2, r) = read_header_step(inner);
            match r {
                Ok(()) => (V2ReaderModel::HeaderV1 { header, inner: inner2 }, Ok(())),
                Err(e) => (
                    V2ReaderModel::HeaderV2 { header, inner: inner2 },
                    Err(map_v1_error(e, header.data_offset as nat)),
                ),
            }
        },
        V2ReaderModel::HeaderV1 { .. } => (m, Ok(())),
    }
}

pub open spec fn v2_read_section_step(m: V2ReaderModel) -> (V2ReaderModel, Result<Located, CarReaderError>) {
    match m {
        V2ReaderModel::HeaderV1 { header, inner } => {
            let (inner2, r) = read_section_step(inner);
            (V2ReaderModel::HeaderV1 { header, inner: inner2 }, map_section_result(r, header))
        },
        _ => (m, Err(CarReaderError::PreconditionNotMet)),
    }
}

pub open spec fn v2_find_step(m: V2ReaderModel, cid: Seq<u8>) -> (V2ReaderModel, Result<Located, CarReaderError>) {
    match m {
        V2ReaderModel::HeaderV1 { header, inner } => {
            let (inner2, r) = find_step(inner, cid);
            (V2ReaderModel::HeaderV1 { header, inner: inner2 }, map_section_result(r, header))
        },
        _ => (m, Err(CarReaderError::PreconditionNotMet)),
    }
}

pub open spec fn v2_seek_step(m: V2ReaderModel) -> (V2ReaderModel, Result<(), CarReaderError>) {
    match m {
        V2ReaderModel::HeaderV1 { header, inner } => {
            let (inner2, r) = seek_step(inner);
            (
                V2ReaderModel::HeaderV1 { header, inner: inner2 },
                match r {
                    Ok(()) => Ok(()),
                    Err(e) => Err(map_v1_error(e, header.data_offset as nat)),
                },
            )
        },
        _ => (m, Err(CarReaderError::PreconditionNotMet)),
    }
}

#[derive(Debug)]
struct HeaderState {
    header: CarV2Header,
    v1_reader: v1::CarReader,
}

#[derive(Debug)]
enum CarReaderState {
    NoHeader(Vec<u8>),
    HeaderV2(HeaderState),
    HeaderV1(HeaderState),
}

/// CAR v2 reader.
#[derive(Debug)]
pub struct CarReader(CarReaderState);

impl View for CarReader {
    type V = V2ReaderModel;

    closed spec fn view(&self) -> V2ReaderModel {
        match self.0 {
            CarReaderState::NoHeader(data) => V2ReaderModel::NoHeader { buffer: data@ },
            CarReaderState::HeaderV2(s) => V2ReaderModel::HeaderV2 { header: s.header, inner: s.v1_reader@ },
            CarReaderState::HeaderV1(s) => V2ReaderModel::HeaderV1 { header: s.header, inner: s.v1_reader@ },
        }
    }
}

/// A v2 section result as values.
pub open spec fn v2_located(r: Result<LocatableSection, CarReaderError>) -> Result<Located, CarReaderError> {
    match r {
        Ok(ls) => Ok((ls.section@, ls.location)),
        Err(e) => Err(e),
    }
}

proof fn lemma_read_header_inner_ok(h: CarV2Header, m: V1ReaderModel)
    requires
        inner_ok(h, m),
    ensures
        ({
            let (m2, r) = read_header_step(m);
            &&& inner_ok(h, m2)
            &&& r is Ok ==> m2.header is Some
            &&& r matches Err(v1::CarReaderError::InsufficientData(o, _)) ==> o <= h.data_size
                + POSITION_HEADROOM
        }),
{
}

proof fn lemma_read_section_inner_ok(h: CarV2Header, m: V1ReaderModel)
    requires
        inner_ok(h, m),
        m.header is Some,
    ensures
        ({
            let (m2, r) = read_section_step(m);
            &&& inner_ok(h, m2)
            &&& m2.header == m.header
            &&& r matches Ok((_, loc)) ==> loc.offset <= h.data_size
            &&& r matches Err(v1::CarReaderError::InsufficientData(o, _)) ==> o <= h.data_size
                + POSITION_HEADROOM
        }),
{
    if parse_section(m.buffer) is Ok {
        let n = crate::wire::varint::varint_frame_len(m.buffer);
        assert(crate::wire::varint::is_varint_frame(m.buffer, n));
    }
}

#[verifier::rlimit(30)]
proof fn lemma_find_inner_ok(h: CarV2Header, m: V1ReaderModel, cid: Seq<u8>)
    requires
        inner_ok(h, m),
        m.header is Some,
    ensures
        ({
            let (m2, r) = find_step(m, cid);
            &&& inner_ok(h, m2)
            &&& m2.header == m.header
            &&& r matches Ok((_, loc)) ==> loc.offset <= h.data_size
            &&& r matches Err(v1::CarReaderError::InsufficientData(o, _)) ==> o <= h.data_size
                + POSITION_HEADROOM
        }),
    decreases m.buffer.len(),
{
    match parse_section_header(m.buffer) {
        Ok((s, n)) => {
            lemma_section_size_positive(m.buffer);
            if s.cid == cid {
                lemma_read_section_inner_ok(h, m);
            } else if m.buffer.len() <= n {
                lemma_find_inner_ok(
                    h,
                    V1ReaderModel { buffer: Seq::empty(), start: m.start + n, ..m },
                    cid,
                );
            } else {
                lemma_find_inner_ok(
                    h,
                    V1ReaderModel { buffer: m.buffer.skip(n as int), start: m.start + n, ..m },
                    cid,
                );
            }
        },
        _ => {},
    }
}

fn map_error(e: v1::CarReaderError, offset: usize) -> (r: CarReaderError)
    requires
        e matches v1::CarReaderError::InsufficientData(o, _) ==> offset + o <= usize::MAX,
    ensures
        r == map_v1_error(e, offset as nat),
{
    match e {
        v1::CarReaderError::InvalidFormat => CarReaderError::InvalidFormat,
        v1::CarReaderError::InvalidHeader(c) => CarReaderError::InvalidHeader(c),
        v1::CarReaderError::InvalidVersion(_) => CarReaderError::InvalidFormat,
        v1::CarReaderError::InvalidSectionFormat(c) => CarReaderError::InvalidSectionFormat(c),
        v1::CarReaderError::PreconditionNotMet => CarReaderError::PreconditionNotMet,
        v1::CarReaderError::InsufficientData(o, n) => CarReaderError::InsufficientData(offset + o, n),
    }
}

fn map_section(r: Result<LocatableSection, v1::CarReaderError>, h: &CarV2Header) -> (out: Result<LocatableSection, CarReaderError>)
    requires
        h.data_offset + h.data_size + POSITION_HEADROOM <= usize::MAX,
        r matches Ok(ls) ==> ls.location.offset <= h.data_size,
        r matches Err(v1::CarReaderError::InsufficientData(o, _)) ==> o <= h.data_size + POSITION_HEADROOM,
    ensures
        v2_located(out) == map_section_result(located(r), *h),
{
    let offset = h.data_offset as usize;
    match r {
        Ok(ls) => Ok(
            LocatableSection {
                section: ls.section,
                location: SectionLocation {
                    offset: ls.location.offset + h.data_offset,
                    length: ls.location.length,
                },
            },
        ),
        Err(v1::CarReaderError::InsufficientData(o, n)) => {
            if o as u64 >= h.data_size {
                Err(CarReaderError::EndOfSections)
            } else {
                Err(CarReaderError::InsufficientData(offset + o, n))
            }
        },
        Err(e) => Err(map_error(e, offset)),
    }
}

impl HeaderState {
    spec fn ok(&self) -> bool {
        self.v1_reader.wf() && inner_ok(self.header, self.v1_reader@)
    }

    fn forward(&mut self, buf: &[u8], pos: usize)
        requires
            old(self).ok(),
            pos + buf@.len() + POSITION_HEADROOM <= usize::MAX,
        ensures
            final(self).ok(),
            final(self).header == old(self).header,
            final(self).v1_reader@ == forward_step(old(self).header, old(self).v1_reader@, buf@, pos as nat),
            final(self).v1_reader@.header == old(self).v1_reader@.header,
    {
        let offset = self.header.data_offset as usize;
        let window_end = offset + self.header.data_size as usize;
        let end = pos + buf.len();
        let lo = if pos < offset {
            offset
        } else {
            pos
        };
        let hi = if end < window_end {
            end
        } else {
            window_end
        };
        if lo >= hi {
            return;
        }
        self.v1_reader.receive_data(&buf[lo - pos..hi - pos], lo - offset);
    }
}

impl CarReader {
    /// The reader's positions stay within `usize`, and once the headers are read
    /// the payload's header is there.
    pub closed spec fn wf(&self) -> bool {
        match self.0 {
            CarReaderState::NoHeader(data) => data@.len() + POSITION_HEADROOM <= usize::MAX,
            CarReaderState::HeaderV2(s) => s.ok(),
            CarReaderState::HeaderV1(s) => s.ok() && s.v1_reader@.header is Some,
        }
    }

    /// A reader that holds nothing.
    pub fn new() -> (r: CarReader)
        ensures
            r.wf(),
            r@ == (V2ReaderModel::NoHeader { buffer: Seq::empty() }),
    {
        let r = CarReader(CarReaderState::NoHeader(Vec::new()));
        assert(r@ == (V2ReaderModel::NoHeader { buffer: Seq::empty() }));
        r
    }

    /// Whether both headers have been read.
    pub fn has_header(&self) -> (r: bool)
        ensures
            r == self@ is HeaderV1,
    {
        match &self.0 {
            CarReaderState::HeaderV1(_) => true,
            _ => false,
        }
    }

    /// The payload's v1 header and the v2 header, once both are read.
    pub fn header(&self) -> (r: Option<(&CarHeader, &CarV2Header)>)
        requires
            self.wf(),
        ensures
            match r {
                Some((h1, h2)) => self@ matches V2ReaderModel::HeaderV1 { header, inner } && *h2
                    == header && inner.header is Some && h1@ == inner.header->Some_0.0,
                None => !(self@ is HeaderV1),
            },
    {
        match &self.0 {
            CarReaderState::HeaderV1(s) => match s.v1_reader.header() {
                Some(h) => Some((h, &s.header)),
                None => None,
            },
            _ => None,
        }
    }

    /// Hands in `buf`, read at the absolute offset `pos`. Before the headers are
    /// read only bytes that continue the held ones are kept; after, only what
    /// lies in the payload, which goes to the payload's reader.
    pub fn receive_data(&mut self, buf: &[u8], pos: usize)
        requires
            old(self).wf(),
            pos + buf@.len() + POSITION_HEADROOM <= usize::MAX,
        ensures
            final(self).wf(),
            final(self)@ == v2_receive_step(old(self)@, buf@, pos as nat),
    {
        let mut state = CarReaderState::NoHeader(Vec::new());
        core::mem::swap(&mut self.0, &mut state);
        let next = match state {
            CarReaderState::NoHeader(data) => {
                let mut data = data;
                if pos == data.len() {
                    data.extend_from_slice(buf);
                    assert(data@ =~= old(self)@->NoHeader_buffer + buf@);
                }
                CarReaderState::NoHeader(data)
            },
            CarReaderState::HeaderV2(s) => {
                let mut s = s;
                s.forward(buf, pos);
                CarReaderState::HeaderV2(s)
            },
            CarReaderState::HeaderV1(s) => {
                let mut s = s;
                s.forward(buf, pos);
                CarReaderState::HeaderV1(s)
            },
        };
        self.0 = next;
    }

    /// Reads the pragma and the v2 header, then the payload's v1 header, or says
    /// which bytes are missing.
    pub fn read_header(&mut self) -> (r: Result<(), CarReaderError>)
        requires
            old(self).wf(),
        ensures
            final(self).wf(),
            (final(self)@, r) == v2_read_header_step(old(self)@),
    {
        let mut state = CarReaderState::NoHeader(Vec::new());
        core::mem::swap(&mut self.0, &mut state);
        let (next, r) = match state {
            CarReaderState::NoHeader(data) => start_headers(data),
            CarReaderState::HeaderV2(s) => {
                let mut s = s;
                proof {
                    lemma_read_header_inner_ok(s.header, s.v1_reader@);
                }
                match s.v1_reader.read_header() {
                    Ok(()) => (CarReaderState::HeaderV1(s), Ok(())),
                    Err(e) => {
                        let offset = s.header.data_offset as usize;
                        let mapped = map_error(e, offset);
                        (CarReaderState::HeaderV2(s), Err(mapped))
                    },
                }
            },
            CarReaderState::HeaderV1(s) => (CarReaderState::HeaderV1(s), Ok(())),
        };
        self.0 = next;
        r
    }

    /// Reads the next section of the payload, located in the whole stream.
    pub fn read_section(&mut self) -> (r: Result<LocatableSection, CarReaderError>)
        requires
            old(self).wf(),
        ensures
            final(self).wf(),
            (final(self)@, v2_located(r)) == v2_read_section_step(old(self)@),
    {
        let mut state = CarReaderState::NoHeader(Vec::new());
        core::mem::swap(&mut self.0, &mut state);
        let (next, r) = match state {
            CarReaderState::HeaderV1(s) => {
                let mut s = s;
                proof {
                    lemma_read_section_inner_ok(s.header, s.v1_reader@);
                }
                let inner = s.v1_reader.read_section();
                let mapped = map_section(inner, &s.header);
                (CarReaderState::HeaderV1(s), mapped)
            },
            other => (other, Err(CarReaderError::PreconditionNotMet)),
        };
        self.0 = next;
        r
    }

    /// Scans the payload forward for the section whose CID is `cid`.
    pub fn find_section(&mut self, cid: &RawCid) -> (r: Result<LocatableSection, CarReaderError>)
        requires
            old(self).wf(),
        ensures
            final(self).wf(),
            (final(self)@, v2_located(r)) == v2_find_step(old(self)@, cid@),
    {
        let mut state = CarReaderState::NoHeader(Vec::new());
        core::mem::swap(&mut self.0, &mut state);
        let (next, r) = match state {
            CarReaderState::HeaderV1(s) => {
                let mut s = s;
                proof {
                    lemma_find_inner_ok(s.header, s.v1_reader@, cid@);
                }
                let inner = s.v1_reader.find_section(cid);
                let mapped = map_section(inner, &s.header);
                (CarReaderState::HeaderV1(s), mapped)
            },
            other => (other, Err(CarReaderError::PreconditionNotMet)),
        };
        self.0 = next;
        r
    }

    /// Moves to the first section of the payload.
    pub fn seek_first_section(&mut self) -> (r: Result<(), CarReaderError>)
        requires
            old(self).wf(),
        ensures
            final(self).wf(),
            (final(self)@, r) == v2_seek_step(old(self)@),
    {
        let mut state = CarReaderState::NoHeader(Vec::new());
        core::mem::swap(&mut self.0, &mut state);
        let (next, r) = match state {
            CarReaderState::HeaderV1(s) => {
                let mut s = s;
                let r = match s.v1_reader.seek_first_section() {
                    Ok(()) => Ok(()),
                    Err(e) => Err(map_error(e, s.header.data_offset as usize)),
                };
                (CarReaderState::HeaderV1(s), r)
            },
            other => (other, Err(CarReaderError::PreconditionNotMet)),
        };
        self.0 = next;
        r
    }
}

/// Reads the pragma and the v2 header from the gathered bytes, hands what they
/// hold of the payload to a fresh v1 reader and reads the payload's header.
#[verifier::rlimit(30)]
fn start_headers(data: Vec<u8>) -> (r: (CarReaderState, Result<(), CarReaderError>))
    requires
        data@.len() + POSITION_HEADROOM <= usize::MAX,
    ensures
        (CarReader(r.0)).wf(),
        ((CarReader(r.0))@, r.1) == v2_read_header_step(V2ReaderModel::NoHeader { buffer: data@ }),
{
    let len = data.len();
    if len < PRAGMA_AND_HEADER_SIZE {
        return (CarReaderState::NoHeader(data), Err(CarReaderError::InsufficientData(len, PRAGMA_AND_HEADER_SIZE - len)));
    }
    let pragma = car_v2_pragma();
    if !same_bytes(&data.as_slice()[0..11], pragma.as_slice()) {
        return (CarReaderState::NoHeader(data), Err(CarReaderError::InvalidVersion));
    }
    let header = CarV2Header::from_bytes(&data.as_slice()[11..51]);
    if header.data_offset as u128 + header.data_size as u128 + POSITION_HEADROOM as u128 > usize::MAX as u128 {
        return (CarReaderState::NoHeader(data), Err(CarReaderError::InvalidFormat));
    }
    let offset = header.data_offset as usize;
    let window_end = offset + header.data_size as usize;
    let mut inner = v1::CarReader::new();
    if len > offset {
        let end = if window_end < len {
            window_end
        } else {
            len
        };
        inner.receive_data(&data.as_slice()[offset..end], 0);
    }
    proof {
        lemma_read_header_inner_ok(header, inner@);
    }
    match inner.read_header() {
        Ok(()) => (CarReaderState::HeaderV1(HeaderState { header, v1_reader: inner }), Ok(())),
        Err(e) => {
            let mapped = map_error(e, offset);
            (CarReaderState::HeaderV2(HeaderState { header, v1_reader: inner }), Err(mapped))
        },
    }
}

} // verus!

verus! {

/// A section the v2 reader returns can be read again from the whole stream at
/// its location, once the payload's reader holds bytes of the payload at their
/// own offsets: its location is its place in the payload moved by the data
/// offset.
pub proof fn lemma_v2_read_section_replays(m: V2ReaderModel, stream: Seq<u8>)
    requires
        m is HeaderV1,
        inner_ok(m->HeaderV1_header, m->HeaderV1_inner),
        m->HeaderV1_inner.header is Some,
        m->HeaderV1_header.data_offset <= stream.len(),
        holds_stream(m->HeaderV1_inner, stream.skip(m->HeaderV1_header.data_offset as int)),
        v2_read_section_step(m).1 is Ok,
    ensures
        ({
            let (s, loc) = v2_read_section_step(m).1->Ok_0;
            parse_section(stream.subrange(loc.offset as int, loc.offset + loc.length)) == Ok::<
                (SectionModel, nat),
                SectionFormatError,
            >((s, loc.length as nat))
        }),
{
    let h = m->HeaderV1_header;
    let inner = m->HeaderV1_inner;
    let off = h.data_offset as int;
    let payload = stream.skip(off);
    lemma_read_section_inner_ok(h, inner);
    lemma_read_section_replays(inner, payload);
    let (s, iloc) = read_section_step(inner).1->Ok_0;
    assert(payload.subrange(iloc.offset as int, iloc.offset + iloc.length) =~= stream.subrange(
        off + iloc.offset,
        off + iloc.offset + iloc.length,
    ));
}

} // verus!
