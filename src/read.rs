//! A reader for CAR files of either version: it gathers the first bytes, tells
//! v1 from v2 by the v2 pragma, and hands everything on to the reader of that
//! version.

use crate::wire::cid::{same_bytes, RawCid};
use crate::wire::header::{CarHeader, HeaderFormatError};
use crate::wire::section::{LocatableSection, SectionFormatError};
use crate::wire::v1;
use crate::wire::v1::{
    find_step, located, read_header_step, read_section_step, receive_step, seek_step, Located,
    V1ReaderModel, POSITION_HEADROOM,
};
use crate::wire::v2;
use crate::wire::v2::{
    car_v2_pragma, v2_find_step, v2_pragma, v2_read_header_step,
    v2_read_section_step, v2_receive_step, v2_seek_step, V2ReaderModel,
};
use crate::wire::v2header::CarV2Header;
use vstd::prelude::*;

verus! {

/// The version of a CAR stream.
#[derive(Debug, Clone, Copy, PartialEq, Eq, Structural)]
pub enum CarFormat {
    V1,
    V2,
}

/// Errors of the reader, whatever the version.
#[derive(Debug, Clone, Copy, PartialEq, Eq, Structural)]
pub enum CarReaderError {
    /// The bytes cannot be a CAR stream.
    InvalidFormat,
    /// The header bytes are not a CAR v1 header.
    InvalidHeader(HeaderFormatError),
    /// The header declares a version the reader does not expect.
    InvalidVersion,
    /// A section is malformed.
    InvalidSectionFormat(SectionFormatError),
    /// The version must be known and the header read first.
    PreconditionNotMet,
    /// More bytes are needed: from this absolute offset, at least this many (0
    /// when unknown).
    InsufficientData(usize, usize),
    /// A v2 payload has no more sections.
    EndOfSections,
}

/// The state of the reader: bytes gathered while the version is unknown, then
/// the reader of the version found.
pub enum CarReaderModel {
    Unclear { buffer: Seq<u8> },
    V1 { inner: V1ReaderModel },
    V2 { inner: V2ReaderModel },
}

/// The version that the first bytes of a stream show, once there are 11.
pub open spec fn format_of(b: Seq<u8>) -> Option<CarFormat> {
    if b.len() >= 11 {
        if b.subrange(0, 11) == v2_pragma() {
            Some(CarFormat::V2)
        } else {
            Some(CarFormat::V1)
        }
    } else {
        None
    }
}

pub open spec fn fresh_v1() -> V1ReaderModel {
    V1ReaderModel { buffer: Seq::empty(), start: 0, header: None }
}

pub open spec fn fresh_v2() -> V2ReaderModel {
    V2ReaderModel::NoHeader { buffer: Seq::empty() }
}

/// Handing in bytes: while the version is unknown only bytes that continue the
/// gathered ones are kept; once the version shows, all of them go to a new
/// reader of that version at offset 0.
pub open spec fn car_receive_step(m: CarReaderModel, buf: Seq<u8>, pos: nat) -> CarReaderModel {
    match m {
        CarReaderModel::Unclear { buffer } => if pos != buffer.len() {
            m
        } else {
            let b = buffer + buf;
            match format_of(b) {
                None => CarReaderModel::Unclear { buffer: b },
                Some(CarFormat::V1) => CarReaderModel::V1 { inner: receive_step(fresh_v1(), b, 0) },
                Some(CarFormat::V2) => CarReaderModel::V2 { inner: v2_receive_step(fresh_v2(), b, 0) },
            }
        },
        CarReaderModel::V1 { inner } => CarReaderModel::V1 { inner: receive_step(inner, buf, pos) },
        CarReaderModel::V2 { inner } => CarReaderModel::V2 { inner: v2_receive_step(inner, buf, pos) },
    }
}

pub open spec fn from_v1_error(e: v1::CarReaderError) -> CarReaderError {
    match e {
        v1::CarReaderError::InvalidFormat => CarReaderError::InvalidFormat,
        v1::CarReaderError::InvalidHeader(c) => CarReaderError::InvalidHeader(c),
        v1::CarReaderError::InvalidVersion(_) => CarReaderError::InvalidVersion,
        v1::CarReaderError::InvalidSectionFormat(c) => CarReaderError::InvalidSectionFormat(c),
        v1::CarReaderError::PreconditionNotMet => CarReaderError::PreconditionNotMet,
        v1::CarReaderError::InsufficientData(o, n) => CarReaderError::InsufficientData(o, n),
    }
}

pub open spec fn from_v2_error(e: v2::CarReaderError) -> CarReaderError {
    match e {
        v2::CarReaderError::InvalidFormat => CarReaderError::InvalidFormat,
        v2::CarReaderError::InvalidHeader(c) => CarReaderError::InvalidHeader(c),
        v2::CarReaderError::InvalidVersion => CarReaderError::InvalidVersion,
        v2::CarReaderError::InvalidSectionFormat(c) => CarReaderError::InvalidSectionFormat(c),
        v2::CarReaderError::PreconditionNotMet => CarReaderError::PreconditionNotMet,
        v2::CarReaderError::InsufficientData(o, n) => CarReaderError::InsufficientData(o, n),
        v2::CarReaderError::EndOfSections => CarReaderError::EndOfSections,
    }
}

pub open spec fn from_v1_result<T>(r: Result<T, v1::CarReaderError>) -> Result<T, CarReaderError> {
    match r {
        Ok(x) => Ok(x),
        Err(e) => Err(from_v1_error(e)),
    }
}

pub open spec fn from_v2_result<T>(r: Result<T, v2::CarReaderError>) -> Result<T, CarReaderError> {
    match r {
        Ok(x) => Ok(x),
        Err(e) => Err(from_v2_error(e)),
    }
}

pub open spec fn car_read_header_step(m: CarReaderModel) -> (CarReaderModel, Result<(), CarReaderError>) {
    match m {
        CarReaderModel::Unclear { .. } => (m, Err(CarReaderError::InsufficientData(0, 12))),
        CarReaderModel::V1 { inner } => {
            let (i2, r) = read_header_step(inner);
            (CarReaderModel::V1 { inner: i2 }, from_v1_result(r))
        },
        CarReaderModel::V2 { inner } => {
            let (i2, r) = v2_read_header_step(inner);
            (CarReaderModel::V2 { inner: i2 }, from_v2_result(r))
        },
    }
}

pub open spec fn car_read_section_step(m: CarReaderModel) -> (CarReaderModel, Result<Located, CarReaderError>) {
    match m {
        CarReaderModel::Unclear { .. } => (m, Err(CarReaderError::PreconditionNotMet)),
        CarReaderModel::V1 { inner } => {
            let (i2, r) = read_section_step(inner);
            (CarReaderModel::V1 { inner: i2 }, from_v1_result(r))
        },
        CarReaderModel::V2 { inner } => {
            let (i2, r) = v2_read_section_step(inner);
            (CarReaderModel::V2 { inner: i2 }, from_v2_result(r))
        },
    }
}

pub open spec fn car_find_step(m: CarReaderModel, cid: Seq<u8>) -> (CarReaderModel, Result<Located, CarReaderError>) {
    match m {
        CarReaderModel::Unclear { .. } => (m, Err(CarReaderError::PreconditionNotMet)),
        CarReaderModel::V1 { inner } => {
            let (i2, r) = find_step(inner, cid);
            (CarReaderModel::V1 { inner: i2 }, from_v1_result(r))
        },
        CarReaderModel::V2 { inner } => {
            let (i2, r) = v2_find_step(inner, cid);
            (CarReaderModel::V2 { inner: i2 }, from_v2_result(r))
        },
    }
}

pub open spec fn car_seek_step(m: CarReaderModel) -> (CarReaderModel, Result<(), CarReaderError>) {
    match m {
        CarReaderModel::Unclear { .. } => (m, Err(CarReaderError::PreconditionNotMet)),
        CarReaderModel::V1 { inner } => {
            let (i2, r) = seek_step(inner);
            (CarReaderModel::V1 { inner: i2 }, from_v1_result(r))
        },
        CarReaderModel::V2 { inner } => {
            let (i2, r) = v2_seek_step(inner);
            (CarReaderModel::V2 { inner: i2 }, from_v2_result(r))
        },
    }
}

pub open spec fn car_located(r: Result<LocatableSection, CarReaderError>) -> Result<Located, CarReaderError> {
    match r {
        Ok(ls) => Ok((ls.section@, ls.location)),
        Err(e) => Err(e),
    }
}

/// The reader of the version found, to use directly.
#[derive(Debug)]
pub enum CarUnderlyingReader<'a> {
    V1(&'a mut v1::CarReader),
    V2(&'a mut v2::CarReader),
}

#[derive(Debug)]
enum CarReaderState {
    Unclear(Vec<u8>),
    V1(v1::CarReader),
    V2(v2::CarReader),
}

/// Reader of CAR files of either version.
#[derive(Debug)]
pub struct CarReader(CarReaderState);

impl View for CarReader {
    type V = CarReaderModel;

    closed spec fn view(&self) -> CarReaderModel {
        match self.0 {
            CarReaderState::Unclear(b) => CarReaderModel::Unclear { buffer: b@ },
            CarReaderState::V1(r) => CarReaderModel::V1 { inner: r@ },
            CarReaderState::V2(r) => CarReaderModel::V2 { inner: r@ },
        }
    }
}

fn from_v1(e: v1::CarReaderError) -> (r: CarReaderError)
    ensures
        r == from_v1_error(e),
{
    match e {
        v1::CarReaderError::InvalidFormat => CarReaderError::InvalidFormat,
        v1::CarReaderError::InvalidHeader(c) => CarReaderError::InvalidHeader(c),
        v1::CarReaderError::InvalidVersion(_) => CarReaderError::InvalidVersion,
        v1::CarReaderError::InvalidSectionFormat(c) => CarReaderError::InvalidSectionFormat(c),
        v1::CarReaderError::PreconditionNotMet => CarReaderError::PreconditionNotMet,
        v1::CarReaderError::InsufficientData(o, n) => CarReaderError::InsufficientData(o, n),
    }
}

fn from_v2(e: v2::CarReaderError) -> (r: CarReaderError)
    ensures
        r == from_v2_error(e),
{
    match e {
        v2::CarReaderError::InvalidFormat => CarReaderError::InvalidFormat,
        v2::CarReaderError::InvalidHeader(c) => CarReaderError::InvalidHeader(c),
        v2::CarReaderError::InvalidVersion => CarReaderError::InvalidVersion,
        v2::CarReaderError::InvalidSectionFormat(c) => CarReaderError::InvalidSectionFormat(c),
        v2::CarReaderError::PreconditionNotMet => CarReaderError::PreconditionNotMet,
        v2::CarReaderError::InsufficientData(o, n) => CarReaderError::InsufficientData(o, n),
        v2::CarReaderError::EndOfSections => CarReaderError::EndOfSections,
    }
}

impl CarReader {
    /// The reader of the version found is well formed; gathered bytes leave
    /// room for positions.
    pub closed spec fn wf(&self) -> bool {
        match self.0 {
            CarReaderState::Unclear(b) => b@.len() < 11,
            CarReaderState::V1(r) => r.wf(),
            CarReaderState::V2(r) => r.wf(),
        }
    }

    /// A reader that has not seen any byte.
    pub fn new() -> (r: CarReader)
        ensures
            r.wf(),
            r@ == (CarReaderModel::Unclear { buffer: Seq::empty() }),
    {
        let r = CarReader(CarReaderState::Unclear(Vec::new()));
        assert(r@ == (CarReaderModel::Unclear { buffer: Seq::empty() }));
        r
    }

    /// The version that the first 11 bytes show.
    fn determine_format(bytes: &[u8]) -> (r: Option<CarFormat>)
        ensures
            r == format_of(bytes@),
    {
        if bytes.len() >= 11 {
            let pragma = car_v2_pragma();
            if same_bytes(&bytes[0..11], pragma.as_slice()) {
                Some(CarFormat::V2)
            } else {
                Some(CarFormat::V1)
            }
        } else {
            None
        }
    }

    /// Hands in `buf`, read at the absolute offset `pos`.
    pub fn receive_data(&mut self, buf: &[u8], pos: usize)
        requires
            old(self).wf(),
            pos + buf@.len() + POSITION_HEADROOM <= usize::MAX,
        ensures
            final(self).wf(),
            final(self)@ == car_receive_step(old(self)@, buf@, pos as nat),
    {
        let mut state = CarReaderState::Unclear(Vec::new());
        core::mem::swap(&mut self.0, &mut state);
        let next = match state {
            CarReaderState::Unclear(buffer) => {
                let mut buffer = buffer;
                if pos != buffer.len() {
                    CarReaderState::Unclear(buffer)
                } else {
                    buffer.extend_from_slice(buf);
                    assert(buffer@ =~= old(self)@->Unclear_buffer + buf@);
                    match CarReader::determine_format(buffer.as_slice()) {
                        None => CarReaderState::Unclear(buffer),
                        Some(CarFormat::V1) => {
                            let mut r = v1::CarReader::new();
                            r.receive_data(buffer.as_slice(), 0);
                            CarReaderState::V1(r)
                        },
                        Some(CarFormat::V2) => {
                            let mut r = v2::CarReader::new();
                            r.receive_data(buffer.as_slice(), 0);
                            CarReaderState::V2(r)
                        },
                    }
                }
            },
            CarReaderState::V1(r) => {
                let mut r = r;
                r.receive_data(buf, pos);
                CarReaderState::V1(r)
            },
            CarReaderState::V2(r) => {
                let mut r = r;
                r.receive_data(buf, pos);
                CarReaderState::V2(r)
            },
        };
        self.0 = next;
    }

    /// The version, once the first bytes have shown it.
    pub fn get_format(&self) -> (r: Option<CarFormat>)
        ensures
            r == match self@ {
                CarReaderModel::Unclear { .. } => None,
                CarReaderModel::V1 { .. } => Some(CarFormat::V1),
                CarReaderModel::V2 { .. } => Some(CarFormat::V2),
            },
    {
        match &self.0 {
            CarReaderState::Unclear(_) => None,
            CarReaderState::V1(_) => Some(CarFormat::V1),
            CarReaderState::V2(_) => Some(CarFormat::V2),
        }
    }

    /// The reader of the version found, once the first bytes have shown it.
    pub fn get_underlying_reader(&mut self) -> (r: Option<CarUnderlyingReader<'_>>)
        requires
            old(self).wf(),
        ensures
            match r {
                None => old(self)@ is Unclear && final(self)@ == old(self)@,
                Some(CarUnderlyingReader::V1(x)) => old(self)@ == (CarReaderModel::V1 { inner: x@ })
                    && x.wf() && final(self)@ == (CarReaderModel::V1 { inner: final(x)@ }) && (
                final(x).wf() ==> final(self).wf()),
                Some(CarUnderlyingReader::V2(x)) => old(self)@ == (CarReaderModel::V2 { inner: x@ })
                    && x.wf() && final(self)@ == (CarReaderModel::V2 { inner: final(x)@ }) && (
                final(x).wf() ==> final(self).wf()),
            },
    {
        match &mut self.0 {
            CarReaderState::Unclear(_) => None,
            CarReaderState::V1(reader) => Some(CarUnderlyingReader::V1(reader)),
            CarReaderState::V2(reader) => Some(CarUnderlyingReader::V2(reader)),
        }
    }

    /// Whether the header (both headers for v2) has been read.
    pub fn has_header(&self) -> (r: bool)
        ensures
            r == match self@ {
                CarReaderModel::Unclear { .. } => false,
                CarReaderModel::V1 { inner } => inner.header is Some,
                CarReaderModel::V2 { inner } => inner is HeaderV1,
            },
    {
        match &self.0 {
            CarReaderState::Unclear(_) => false,
            CarReaderState::V1(r) => r.has_header(),
            CarReaderState::V2(r) => r.has_header(),
        }
    }

    /// The v1 header, with the v2 header for a v2 stream, once read.
    pub fn header(&self) -> (r: Option<(&CarHeader, Option<&CarV2Header>)>)
        requires
            self.wf(),
        ensures
            match r {
                None => match self@ {
                    CarReaderModel::Unclear { .. } => true,
                    CarReaderModel::V1 { inner } => inner.header is None,
                    CarReaderModel::V2 { inner } => !(inner is HeaderV1),
                },
                Some((h1, None)) => self@ matches CarReaderModel::V1 { inner } && inner.header is Some
                    && h1@ == inner.header->Some_0.0,
                Some((h1, Some(h2))) => self@ matches CarReaderModel::V2 { inner } && inner matches V2ReaderModel::HeaderV1 { header, inner: i1 }
                    && *h2 == header && i1.header is Some && h1@ == i1.header->Some_0.0,
            },
    {
        match &self.0 {
            CarReaderState::Unclear(_) => None,
            CarReaderState::V1(r) => match r.header() {
                Some(h) => Some((h, None)),
                None => None,
            },
            CarReaderState::V2(r) => match r.header() {
                Some((h1, h2)) => Some((h1, Some(h2))),
                None => None,
            },
        }
    }

    /// Reads the header(s), or says which bytes are missing.
    pub fn read_header(&mut self) -> (r: Result<(), CarReaderError>)
        requires
            old(self).wf(),
        ensures
            final(self).wf(),
            (final(self)@, r) == car_read_header_step(old(self)@),
    {
        let mut state = CarReaderState::Unclear(Vec::new());
        core::mem::swap(&mut self.0, &mut state);
        let (next, r) = match state {
            CarReaderState::Unclear(b) => (CarReaderState::Unclear(b), Err(CarReaderError::InsufficientData(0, 12))),
            CarReaderState::V1(r) => {
                let mut r = r;
                let out = match r.read_header() {
                    Ok(()) => Ok(()),
                    Err(e) => Err(from_v1(e)),
                };
                (CarReaderState::V1(r), out)
            },
            CarReaderState::V2(r) => {
                let mut r = r;
                let out = match r.read_header() {
                    Ok(()) => Ok(()),
                    Err(e) => Err(from_v2(e)),
                };
                (CarReaderState::V2(r), out)
            },
        };
        self.0 = next;
        r
    }

    /// Scans forward for the section whose CID is `cid`. Linear: a caller that
    /// has read sections since the header seeks to the first section first.
    pub fn find_section(&mut self, cid: &RawCid) -> (r: Result<LocatableSection, CarReaderError>)
        requires
            old(self).wf(),
        ensures
            final(self).wf(),
            (final(self)@, car_located(r)) == car_find_step(old(self)@, cid@),
    {
        let mut state = CarReaderState::Unclear(Vec::new());
        core::mem::swap(&mut self.0, &mut state);
        let (next, r) = match state {
            CarReaderState::Unclear(b) => (CarReaderState::Unclear(b), Err(CarReaderError::PreconditionNotMet)),
            CarReaderState::V1(r) => {
                let mut r = r;
                let out = match r.find_section(cid) {
                    Ok(s) => Ok(s),
                    Err(e) => Err(from_v1(e)),
                };
                (CarReaderState::V1(r), out)
            },
            CarReaderState::V2(r) => {
                let mut r = r;
                let out = match r.find_section(cid) {
                    Ok(s) => Ok(s),
                    Err(e) => Err(from_v2(e)),
                };
                (CarReaderState::V2(r), out)
            },
        };
        self.0 = next;
        r
    }

    /// Reads the next section, located in the stream.
    pub fn read_section(&mut self) -> (r: Result<LocatableSection, CarReaderError>)
        requires
            old(self).wf(),
        ensures
            final(self).wf(),
            (final(self)@, car_located(r)) == car_read_section_step(old(self)@),
    {
        let mut state = CarReaderState::Unclear(Vec::new());
        core::mem::swap(&mut self.0, &mut state);
        let (next, r) = match state {
            CarReaderState::Unclear(b) => (CarReaderState::Unclear(b), Err(CarReaderError::PreconditionNotMet)),
            CarReaderState::V1(r) => {
                let mut r = r;
                let out = match r.read_section() {
                    Ok(s) => Ok(s),
                    Err(e) => Err(from_v1(e)),
                };
                (CarReaderState::V1(r), out)
            },
            CarReaderState::V2(r) => {
                let mut r = r;
                let out = match r.read_section() {
                    Ok(s) => Ok(s),
                    Err(e) => Err(from_v2(e)),
                };
                (CarReaderState::V2(r), out)
            },
        };
        self.0 = next;
        r
    }

    /// Moves to the first section.
    pub fn seek_first_section(&mut self) -> (r: Result<(), CarReaderError>)
        requires
            old(self).wf(),
        ensures
            final(self).wf(),
            (final(self)@, r) == car_seek_step(old(self)@),
    {
        let mut state = CarReaderState::Unclear(Vec::new());
        core::mem::swap(&mut self.0, &mut state);
        let (next, r) = match state {
            CarReaderState::Unclear(b) => (CarReaderState::Unclear(b), Err(CarReaderError::PreconditionNotMet)),
            CarReaderState::V1(r) => {
                let mut r = r;
                let out = match r.seek_first_section() {
                    Ok(()) => Ok(()),
                    Err(e) => Err(from_v1(e)),
                };
                (CarReaderState::V1(r), out)
            },
            CarReaderState::V2(r) => {
                let mut r = r;
                let out = match r.seek_first_section() {
                    Ok(()) => Ok(()),
                    Err(e) => Err(from_v2(e)),
                };
                (CarReaderState::V2(r), out)
            },
        };
        self.0 = next;
        r
    }
}

} // verus!

verus! {

/// A stream whose first 11 bytes differ from the v2 pragma in a single bit is
/// taken for v1: handed to a new reader from offset 0, it makes a v1 reader.
pub proof fn lemma_pragma_bit_flip_reads_as_v1(b: Seq<u8>, i: int, bit: u8)
    requires
        b.len() >= 11,
        0 <= i < 11,
        bit < 8,
        b[i] == v2_pragma()[i] ^ (1u8 << bit),
    ensures
        format_of(b) == Some(CarFormat::V1),
        car_receive_step(CarReaderModel::Unclear { buffer: Seq::empty() }, b, 0) is V1,
{
    let p = v2_pragma()[i];
    assert(p ^ (1u8 << bit) != p) by (bit_vector)
        requires
            bit < 8,
    ;
    assert(b.subrange(0, 11)[i] == b[i]);
    assert(b.subrange(0, 11) != v2_pragma());
    assert(Seq::<u8>::empty() + b =~= b);
}

/// A stream that starts with the v2 pragma is taken for v2.
pub proof fn lemma_pragma_reads_as_v2(b: Seq<u8>)
    requires
        b.len() >= 11,
        b.subrange(0, 11) == v2_pragma(),
    ensures
        format_of(b) == Some(CarFormat::V2),
        car_receive_step(CarReaderModel::Unclear { buffer: Seq::empty() }, b, 0) is V2,
{
    assert(Seq::<u8>::empty() + b =~= b);
}

/// Moving to the first section twice is moving there once, for either version.
pub proof fn lemma_car_seek_idempotent(m: CarReaderModel)
    ensures
        car_seek_step(car_seek_step(m).0) == car_seek_step(m),
{
}

} // verus!
