//! CAR v1: a sans-I/O reader that parses a header and sections from bytes handed
//! in at absolute positions, and a writer that frames them into a bounded buffer.

use crate::wire::cbor::{cbor_decoded, cbor_encoded, decode_cbor};
use crate::wire::cid::{same_bytes, RawCid};
use crate::wire::cbor::{encode_cbor, CborValue};
use crate::wire::header::{cid_views, header_of_cbor, is_header_value, CarHeader, HeaderFormatError};
use crate::wire::section::{
    lemma_parse_section_extend, lemma_parse_section_prefix, lemma_section_round_trip,
    parse_section, parse_section_header, section_bytes, valid_section, LocatableSection, Section,
    SectionFormatError, SectionLocation, SectionModel,
};
use crate::wire::varint::{uvarint_decode, uvarint_encoding, UnsignedVarint};
use vstd::prelude::*;

verus! {

/// Room kept above the end of the bytes a reader holds, so that skipping a whole
/// section past them keeps positions within `usize`.
pub const POSITION_HEADROOM: usize = 2097296;

/// Errors of the CAR v1 reader.
#[derive(Debug, Clone, Copy, PartialEq, Eq, Structural)]
pub enum CarReaderError {
    /// The bytes cannot be the start of a CAR v1 stream.
    InvalidFormat,
    /// The header bytes are not a CAR v1 header.
    InvalidHeader(HeaderFormatError),
    /// The header declares a version other than 1.
    InvalidVersion(u64),
    /// A section is malformed.
    InvalidSectionFormat(SectionFormatError),
    /// The header must be read first.
    PreconditionNotMet,
    /// More bytes are needed: from this absolute offset, at least this many (0
    /// when unknown).
    InsufficientData(usize, usize),
}

/// The state of a v1 reader: the bytes it holds, the absolute offset of the
/// first of them, and the header with its size once it is read.
pub struct V1ReaderModel {
    pub buffer: Seq<u8>,
    pub start: nat,
    pub header: Option<((u64, Seq<Seq<u8>>), nat)>,
}

/// A section read, with where it lies.
pub type Located = (SectionModel, SectionLocation);

/// The reader after `buf` is handed in at `pos`: appended when it continues the
/// held bytes, otherwise held alone from `pos` on.
pub open spec fn receive_step(m: V1ReaderModel, buf: Seq<u8>, pos: nat) -> V1ReaderModel {
    if pos == m.start + m.buffer.len() {
        V1ReaderModel { buffer: m.buffer + buf, ..m }
    } else {
        V1ReaderModel { buffer: buf, start: pos, ..m }
    }
}

/// Reading the header: it needs the stream from offset 0, the varint of the
/// header's size, then that many bytes of CBOR.
pub open spec fn read_header_step(m: V1ReaderModel) -> (V1ReaderModel, Result<(), CarReaderError>) {
    if m.header is Some {
        (m, Ok(()))
    } else if m.start != 0 {
        (m, Err(CarReaderError::InsufficientData(0, 8)))
    } else {
        let len = m.buffer.len();
        match uvarint_decode(m.buffer) {
            None => if len > 8 {
                (m, Err(CarReaderError::InvalidFormat))
            } else {
                (m, Err(CarReaderError::InsufficientData(len as usize, 8)))
            },
            Some((header_len, n)) => {
                let total = n + header_len;
                if total > usize::MAX {
                    (m, Err(CarReaderError::InvalidFormat))
                } else if len < total {
                    (m, Err(CarReaderError::InsufficientData(len as usize, (total - len) as usize)))
                } else {
                    match cbor_decoded(m.buffer.subrange(n as int, total as int)) {
                        None => (
                            m,
                            Err(CarReaderError::InvalidHeader(HeaderFormatError::InvalidCbor)),
                        ),
                        Some(v) => match header_of_cbor(v) {
                            None => (
                                m,
                                Err(CarReaderError::InvalidHeader(HeaderFormatError::NotAHeader)),
                            ),
                            Some(h) => if h.0 != 1 {
                                (m, Err(CarReaderError::InvalidVersion(h.0)))
                            } else {
                                (
                                    V1ReaderModel {
                                        buffer: m.buffer.skip(total as int),
                                        start: total as nat,
                                        header: Some((h, total as nat)),
                                    },
                                    Ok(()),
                                )
                            },
                        },
                    }
                }
            },
        }
    }
}

/// Reading the next section from the held bytes; on success the section's bytes
/// are dropped and the start moves past them.
pub open spec fn read_section_step(m: V1ReaderModel) -> (V1ReaderModel, Result<Located, CarReaderError>) {
    if m.header is None {
        (m, Err(CarReaderError::PreconditionNotMet))
    } else {
        match parse_section(m.buffer) {
            Ok((s, n)) => (
                V1ReaderModel { buffer: m.buffer.skip(n as int), start: m.start + n, ..m },
                Ok((s, SectionLocation { offset: m.start as u64, length: n as u64 })),
            ),
            Err(SectionFormatError::InsufficientData) => (
                m,
                Err(CarReaderError::InsufficientData((m.start + m.buffer.len()) as usize, 0)),
            ),
            Err(e) => (m, Err(CarReaderError::InvalidSectionFormat(e))),
        }
    }
}

/// Scanning for the section whose CID is `cid`: sections with another CID are
/// skipped by their declared size, without waiting for their blocks.
pub open spec fn find_step(m: V1ReaderModel, cid: Seq<u8>) -> (V1ReaderModel, Result<Located, CarReaderError>)
    decreases m.buffer.len(),
{
    if m.header is None {
        (m, Err(CarReaderError::PreconditionNotMet))
    } else {
        match parse_section_header(m.buffer) {
            Ok((s, n)) => if s.cid == cid {
                read_section_step(m)
            } else if m.buffer.len() <= n {
                find_step(V1ReaderModel { buffer: Seq::empty(), start: m.start + n, ..m }, cid)
            } else {
                find_step(V1ReaderModel { buffer: m.buffer.skip(n as int), start: m.start + n, ..m }, cid)
            },
            Err(SectionFormatError::InsufficientData) => (
                m,
                Err(CarReaderError::InsufficientData((m.start + m.buffer.len()) as usize, 0)),
            ),
            Err(e) => (m, Err(CarReaderError::InvalidSectionFormat(e))),
        }
    }
}

/// Moving to the first section: the held bytes are dropped and the start is set
/// to the end of the header, unless it is there already.
pub open spec fn seek_step(m: V1ReaderModel) -> (V1ReaderModel, Result<(), CarReaderError>) {
    match m.header {
        None => (m, Err(CarReaderError::PreconditionNotMet)),
        Some((_, size)) => if m.start == size {
            (m, Ok(()))
        } else {
            (V1ReaderModel { buffer: Seq::empty(), start: size, ..m }, Ok(()))
        },
    }
}

/// A section result as values.
pub open spec fn located(r: Result<LocatableSection, CarReaderError>) -> Result<Located, CarReaderError> {
    match r {
        Ok(ls) => Ok((ls.section@, ls.location)),
        Err(e) => Err(e),
    }
}

/// CAR v1 reader.
#[derive(Debug)]
pub struct CarReader {
    data: Vec<u8>,
    start: usize,
    header: Option<(CarHeader, usize)>,
}

impl View for CarReader {
    type V = V1ReaderModel;

    closed spec fn view(&self) -> V1ReaderModel {
        V1ReaderModel {
            buffer: self.data@,
            start: self.start as nat,
            header: match self.header {
                Some((h, n)) => Some((h@, n as nat)),
                None => None,
            },
        }
    }
}

impl CarReader {
    /// The positions the reader holds stay within `usize`.
    pub closed spec fn wf(&self) -> bool {
        ||| self.start + self.data@.len() + POSITION_HEADROOM <= usize::MAX
        ||| self.data@.len() == 0
    }

    /// A reader at offset 0 that holds nothing.
    pub fn new() -> (r: CarReader)
        ensures
            r.wf(),
            r@ == (V1ReaderModel { buffer: Seq::empty(), start: 0, header: None }),
    {
        let r = CarReader { data: Vec::new(), start: 0, header: None };
        assert(r@.buffer =~= Seq::<u8>::empty());
        r
    }

    /// Whether the header has been read.
    pub fn has_header(&self) -> (r: bool)
        ensures
            r == self@.header is Some,
    {
        self.header.is_some()
    }

    /// The header, once read.
    pub fn header(&self) -> (r: Option<&CarHeader>)
        ensures
            match r {
                Some(h) => self@.header is Some && h@ == self@.header->Some_0.0,
                None => self@.header is None,
            },
    {
        match &self.header {
            Some((h, _)) => Some(h),
            None => None,
        }
    }

    /// Moves to the first section, after the header.
    pub fn seek_first_section(&mut self) -> (r: Result<(), CarReaderError>)
        requires
            old(self).wf(),
        ensures
            final(self).wf(),
            (final(self)@, r) == seek_step(old(self)@),
    {
        match &self.header {
            Some((_, size)) => {
                let size = *size;
                if self.start == size {
                    return Ok(());
                }
                self.data.clear();
                self.start = size;
                proof {
                    assert(self@.buffer =~= Seq::<u8>::empty());
                }
                Ok(())
            },
            None => Err(CarReaderError::PreconditionNotMet),
        }
    }

    /// Hands in `buf`, read at the absolute offset `pos`. Bytes that do not
    /// continue the held ones replace them: this is how a caller seeks.
    pub fn receive_data(&mut self, buf: &[u8], pos: usize)
        requires
            old(self).wf(),
            pos + buf@.len() + POSITION_HEADROOM <= usize::MAX,
        ensures
            final(self).wf(),
            final(self)@ == receive_step(old(self)@, buf@, pos as nat),
    {
        if pos == self.start + self.data.len() {
            self.data.extend_from_slice(buf);
            proof {
                assert(self@.buffer =~= old(self)@.buffer + buf@);
            }
        } else {
            self.data.clear();
            self.data.extend_from_slice(buf);
            self.start = pos;
            proof {
                assert(self@.buffer =~= buf@);
            }
        }
    }

    /// Reads the header from the held bytes, or says which bytes are missing.
    pub fn read_header(&mut self) -> (r: Result<(), CarReaderError>)
        requires
            old(self).wf(),
        ensures
            final(self).wf(),
            (final(self)@, r) == read_header_step(old(self)@),
    {
        if self.header.is_some() {
            return Ok(());
        }
        if self.start != 0 {
            return Err(CarReaderError::InsufficientData(0, 8));
        }
        let len = self.data.len();
        match UnsignedVarint::decode(self.data.as_slice()) {
            None => {
                if len > 8 {
                    return Err(CarReaderError::InvalidFormat);
                }
                Err(CarReaderError::InsufficientData(len, 8))
            },
            Some((header_len, n)) => {
                if header_len.0 > (usize::MAX - n) as u64 {
                    return Err(CarReaderError::InvalidFormat);
                }
                let total = n + header_len.0 as usize;
                if len < total {
                    return Err(CarReaderError::InsufficientData(len, total - len));
                }
                let value = match decode_cbor(&self.data.as_slice()[n..total]) {
                    Some(v) => v,
                    None => return Err(CarReaderError::InvalidHeader(HeaderFormatError::InvalidCbor)),
                };
                let header = match CarHeader::from_cbor(&value) {
                    Some(h) => h,
                    None => return Err(CarReaderError::InvalidHeader(HeaderFormatError::NotAHeader)),
                };
                if header.version() != 1 {
                    return Err(CarReaderError::InvalidVersion(header.version()));
                }
                let rest = self.data.split_off(total);
                self.data = rest;
                self.start = total;
                self.header = Some((header, total));
                Ok(())
            },
        }
    }

    /// Reads the next section from the held bytes, with its absolute location,
    /// or says from which offset bytes are missing.
    pub fn read_section(&mut self) -> (r: Result<LocatableSection, CarReaderError>)
        requires
            old(self).wf(),
        ensures
            final(self).wf(),
            (final(self)@, located(r)) == read_section_step(old(self)@),
    {
        if self.header.is_none() {
            return Err(CarReaderError::PreconditionNotMet);
        }
        match Section::try_read_bytes(self.data.as_slice()) {
            Ok((section, size)) => {
                let offset = self.start;
                let rest = self.data.split_off(size);
                self.data = rest;
                self.start = self.start + size;
                Ok(
                    LocatableSection {
                        section,
                        location: SectionLocation { offset: offset as u64, length: size as u64 },
                    },
                )
            },
            Err(SectionFormatError::InsufficientData) => Err(
                CarReaderError::InsufficientData(self.start + self.data.len(), 0),
            ),
            Err(e) => Err(CarReaderError::InvalidSectionFormat(e)),
        }
    }

    /// Scans forward from the current position for the section whose CID is
    /// `cid`, skipping the others by their declared size.
    pub fn find_section(&mut self, cid: &RawCid) -> (r: Result<LocatableSection, CarReaderError>)
        requires
            old(self).wf(),
        ensures
            final(self).wf(),
            (final(self)@, located(r)) == find_step(old(self)@, cid@),
    {
        if self.header.is_none() {
            return Err(CarReaderError::PreconditionNotMet);
        }
        loop
            invariant
                self.wf(),
                self.header is Some,
                find_step(self@, cid@) == find_step(old(self)@, cid@),
            decreases self.data@.len(),
        {
            match Section::try_read_header_bytes(self.data.as_slice()) {
                Ok((section, size)) => {
                    if same_bytes(section.cid().bytes(), cid.bytes()) {
                        return self.read_section();
                    }
                    proof {
                        lemma_section_size_positive(self.data@);
                    }
                    if self.data.len() <= size {
                        self.data.clear();
                    } else {
                        let rest = self.data.split_off(size);
                        self.data = rest;
                    }
                    self.start = self.start + size;
                },
                Err(SectionFormatError::InsufficientData) => {
                    return Err(CarReaderError::InsufficientData(self.start + self.data.len(), 0));
                },
                Err(e) => {
                    return Err(CarReaderError::InvalidSectionFormat(e));
                },
            }
        }
    }
}

/// Errors of the CAR v1 writer.
#[derive(Debug, Clone, Copy, PartialEq, Eq, Structural)]
pub enum CarWriterError {
    /// The section does not fit in what is left of the buffer: send data first.
    BufferFull,
}

/// The size of a writer's buffer unless another is asked for: 16 MiB.
pub const DEFAULT_BUFFER_SIZE: usize = 16777216;

/// The state of a v1 writer: the bytes not yet sent, the stream offset of the
/// first of them, and the size of the buffer.
pub struct V1WriterModel {
    pub buffer: Seq<u8>,
    pub offset: nat,
    pub capacity: nat,
}

/// The bytes a v1 stream starts with: the varint of the header's size, then the
/// header.
pub open spec fn header_frame(h: Seq<u8>) -> Seq<u8> {
    uvarint_encoding(h.len()) + h
}

/// A writer that holds the framed header with the roots `roots`.
pub open spec fn fresh_writer(w: V1WriterModel, roots: Seq<Seq<u8>>, capacity: nat) -> bool {
    &&& w.offset == 0
    &&& w.capacity == capacity
    &&& exists|v: CborValue| is_header_value(v, 1, roots) && w.buffer == header_frame(cbor_encoded(v))
}

/// Writing a section: its bytes are appended when they fit in the buffer, and
/// its location is the stream offset where they will land.
pub open spec fn write_step(w: V1WriterModel, s: SectionModel) -> (V1WriterModel, Result<SectionLocation, CarWriterError>) {
    let b = section_bytes(s);
    if w.buffer.len() + b.len() > w.capacity {
        (w, Err(CarWriterError::BufferFull))
    } else {
        (
            V1WriterModel { buffer: w.buffer + b, ..w },
            Ok(SectionLocation { offset: (w.offset + w.buffer.len()) as u64, length: b.len() as u64 }),
        )
    }
}

/// CAR v1 writer: frames the header and the sections into a bounded buffer that
/// the caller drains with `send_data`.
#[derive(Debug)]
pub struct CarWriter {
    data: Vec<u8>,
    offset: u64,
    capacity: usize,
}

impl View for CarWriter {
    type V = V1WriterModel;

    closed spec fn view(&self) -> V1WriterModel {
        V1WriterModel { buffer: self.data@, offset: self.offset as nat, capacity: self.capacity as nat }
    }
}

impl CarWriter {
    /// The stream offsets the writer reaches stay within `u64`.
    pub open spec fn wf(&self) -> bool {
        self@.offset + self@.buffer.len() <= u64::MAX
    }

    /// A writer with the default buffer size whose stream starts with a header
    /// naming `roots`.
    pub fn new(roots: Vec<RawCid>) -> (r: CarWriter)
        ensures
            r.wf(),
            fresh_writer(r@, cid_views(roots@), DEFAULT_BUFFER_SIZE as nat),
    {
        CarWriter::with_buffer_size(roots, DEFAULT_BUFFER_SIZE)
    }

    /// A writer with a buffer of `buffer_size` bytes whose stream starts with a
    /// header naming `roots`.
    pub fn with_buffer_size(roots: Vec<RawCid>, buffer_size: usize) -> (r: CarWriter)
        ensures
            r.wf(),
            fresh_writer(r@, cid_views(roots@), buffer_size as nat),
    {
        let header = CarHeader::new(roots);
        let value = header.to_cbor();
        let encoded = encode_cbor(&value);
        let mut data = UnsignedVarint(encoded.len() as u64).encode();
        data.extend_from_slice(encoded.as_slice());
        let total: usize = data.len();
        let r = CarWriter { data, offset: 0, capacity: buffer_size };
        proof {
            assert(r.data@.len() == total);
            assert(r@.buffer =~= header_frame(cbor_encoded(value)));
            crate::wire::varint::lemma_uvarint_round_trip(encoded@.len() as u64, Seq::empty());
        }
        r
    }

    /// Appends the section's bytes to the buffer when they fit, and says where
    /// in the stream they will land.
    pub fn write_section(&mut self, section: &Section) -> (r: Result<SectionLocation, CarWriterError>)
        requires
            old(self).wf(),
            old(self)@.offset + old(self)@.buffer.len() + section_bytes(section@).len() <= u64::MAX,
        ensures
            final(self).wf(),
            (final(self)@, r) == write_step(old(self)@, section@),
    {
        let bytes = section.to_bytes();
        let len = self.data.len();
        if len > self.capacity || bytes.len() > self.capacity - len {
            return Err(CarWriterError::BufferFull);
        }
        let location = SectionLocation { offset: self.offset + len as u64, length: bytes.len() as u64 };
        self.data.extend_from_slice(bytes.as_slice());
        proof {
            assert(self@.buffer =~= old(self)@.buffer + section_bytes(section@));
        }
        Ok(location)
    }

    /// Moves as many buffered bytes as fit into `buf`, and returns how many.
    pub fn send_data(&mut self, buf: &mut [u8]) -> (r: usize)
        requires
            old(self).wf(),
        ensures
            final(self).wf(),
            r == if old(self)@.buffer.len() < old(buf)@.len() {
                old(self)@.buffer.len()
            } else {
                old(buf)@.len()
            },
            final(buf)@ == old(self)@.buffer.subrange(0, r as int) + old(buf)@.skip(r as int),
            final(self)@ == (V1WriterModel {
                buffer: old(self)@.buffer.skip(r as int),
                offset: (old(self)@.offset + r) as nat,
                ..old(self)@
            }),
    {
        let n = if self.data.len() < buf.len() {
            self.data.len()
        } else {
            buf.len()
        };
        let mut i: usize = 0;
        while i < n
            invariant
                n <= self.data@.len(),
                n <= buf@.len(),
                i <= n,
                self.data@ == old(self).data@,
                buf@.len() == old(buf)@.len(),
                forall|j: int| 0 <= j < i ==> buf@[j] == self.data@[j],
                forall|j: int| i <= j < buf@.len() ==> buf@[j] == old(buf)@[j],
            decreases n - i,
        {
            buf[i] = self.data[i];
            i = i + 1;
        }
        let rest = self.data.split_off(n);
        self.data = rest;
        self.offset = self.offset + n as u64;
        proof {
            assert(buf@ =~= old(self)@.buffer.subrange(0, n as int) + old(buf)@.skip(n as int));
        }
        n
    }

    /// Whether bytes wait to be sent.
    pub fn has_data_to_send(&self) -> (r: bool)
        ensures
            r == (self@.buffer.len() > 0),
    {
        self.data.len() > 0
    }
}

/// A section that parses takes at least one byte.
pub proof fn lemma_section_size_positive(b: Seq<u8>)
    requires
        parse_section_header(b) is Ok,
    ensures
        1 <= parse_section_header(b)->Ok_0.1,
        1 <= b.len(),
        parse_section_header(b)->Ok_0.1 <= POSITION_HEADROOM,
{
    let n = crate::wire::varint::varint_frame_len(b);
    assert(crate::wire::varint::is_varint_frame(b, n));
}

} // verus!

verus! {

/// The bytes of the sections, one after another.
pub open spec fn sections_bytes(secs: Seq<SectionModel>) -> Seq<u8>
    decreases secs.len(),
{
    if secs.len() == 0 {
        Seq::empty()
    } else {
        section_bytes(secs[0]) + sections_bytes(secs.skip(1))
    }
}

/// Reading `k` sections in a row: the reader after them and each result.
pub open spec fn read_sections(m: V1ReaderModel, k: nat) -> (V1ReaderModel, Seq<Result<Located, CarReaderError>>)
    decreases k,
{
    if k == 0 {
        (m, Seq::empty())
    } else {
        let (m1, r) = read_section_step(m);
        let (m2, rs) = read_sections(m1, (k - 1) as nat);
        (m2, seq![r] + rs)
    }
}

/// Writing the sections in a row: the writer after them and each result.
pub open spec fn write_sections(w: V1WriterModel, secs: Seq<SectionModel>) -> (V1WriterModel, Seq<Result<SectionLocation, CarWriterError>>)
    decreases secs.len(),
{
    if secs.len() == 0 {
        (w, Seq::empty())
    } else {
        let (w1, r) = write_step(w, secs[0]);
        let (w2, rs) = write_sections(w1, secs.skip(1));
        (w2, seq![r] + rs)
    }
}

/// The reader holds bytes of `stream` at their own offsets.
pub open spec fn holds_stream(m: V1ReaderModel, stream: Seq<u8>) -> bool {
    m.buffer.len() == 0 || (m.start + m.buffer.len() <= stream.len() && m.buffer == stream.subrange(
        m.start as int,
        (m.start + m.buffer.len()) as int,
    ))
}

/// A section the reader returns can be read again from the stream at its
/// location: those bytes give the same section, of the same length.
pub proof fn lemma_read_section_replays(m: V1ReaderModel, stream: Seq<u8>)
    requires
        holds_stream(m, stream),
        m.start + m.buffer.len() <= u64::MAX,
        read_section_step(m).1 is Ok,
    ensures
        ({
            let (s, loc) = read_section_step(m).1->Ok_0;
            parse_section(stream.subrange(loc.offset as int, loc.offset + loc.length)) == Ok::<
                (SectionModel, nat),
                SectionFormatError,
            >((s, loc.length as nat))
        }),
{
    let n = parse_section(m.buffer)->Ok_0.1;
    lemma_parse_section_prefix(m.buffer, n);
    assert(stream.subrange(m.start as int, (m.start + n) as int) =~= m.buffer.subrange(0, n as int));
}

/// The same holds of the section that a scan for a CID returns.
#[verifier::rlimit(30)]
pub proof fn lemma_find_section_replays(m: V1ReaderModel, cid: Seq<u8>, stream: Seq<u8>)
    requires
        holds_stream(m, stream),
        m.start + m.buffer.len() + POSITION_HEADROOM <= u64::MAX,
        find_step(m, cid).1 is Ok,
    ensures
        ({
            let (s, loc) = find_step(m, cid).1->Ok_0;
            parse_section(stream.subrange(loc.offset as int, loc.offset + loc.length)) == Ok::<
                (SectionModel, nat),
                SectionFormatError,
            >((s, loc.length as nat))
        }),
    decreases m.buffer.len(),
{
    if let Ok((s, n)) = parse_section_header(m.buffer) {
        lemma_section_size_positive(m.buffer);
        if s.cid == cid {
            lemma_read_section_replays(m, stream);
        } else if m.buffer.len() > n {
            let m1 = V1ReaderModel { buffer: m.buffer.skip(n as int), start: m.start + n, ..m };
            assert(m1.buffer =~= stream.subrange(m1.start as int, (m1.start + m1.buffer.len()) as int));
            lemma_find_section_replays(m1, cid, stream);
        } else {
            lemma_nothing_parses_from_empty();
            let m1 = V1ReaderModel { buffer: Seq::empty(), start: m.start + n, ..m };
            assert(find_step(m1, cid).1 is Err);
        }
    }
}

/// Handing the reader more bytes of the stream never changes a section it can
/// already read, nor an error other than a need for more data; so the stream
/// read in chunks of any size gives the sections that it gives read whole.
#[verifier::rlimit(30)]
pub proof fn lemma_read_section_more_bytes(m: V1ReaderModel, ext: Seq<u8>)
    requires
        !(read_section_step(m).1 is Err && read_section_step(m).1->Err_0 is InsufficientData),
    ensures
        ({
            let (m2, r) = read_section_step(m);
            read_section_step(V1ReaderModel { buffer: m.buffer + ext, ..m }) == (
                V1ReaderModel { buffer: m2.buffer + ext, ..m2 },
                r,
            )
        }),
{
    lemma_parse_section_extend(m.buffer, ext);
    if let Ok((s, n)) = parse_section(m.buffer) {
        assert((m.buffer + ext).skip(n as int) =~= m.buffer.skip(n as int) + ext);
    }
}

proof fn lemma_nothing_parses_from_empty()
    ensures
        parse_section_header(Seq::empty()) == Err::<(SectionModel, nat), SectionFormatError>(
            SectionFormatError::InsufficientData,
        ),
{
    let e = Seq::<u8>::empty();
    if crate::wire::varint::has_varint_frame(e) {
        let k = crate::wire::varint::varint_frame_len(e);
        assert(crate::wire::varint::is_varint_frame(e, k));
    }
}

/// Moving to the first section twice is moving there once.
pub proof fn lemma_seek_idempotent(m: V1ReaderModel)
    ensures
        seek_step(seek_step(m).0) == seek_step(m),
{
}

/// A scan for a CID over whole sections finds the first section with that CID,
/// at the offset where its bytes start.
#[verifier::rlimit(30)]
pub proof fn lemma_find_section_complete(m: V1ReaderModel, secs: Seq<SectionModel>, rest: Seq<u8>, cid: Seq<u8>, j: int)
    requires
        m.header is Some,
        m.buffer == sections_bytes(secs) + rest,
        forall|i: int| 0 <= i < secs.len() ==> valid_section(#[trigger] secs[i]),
        0 <= j < secs.len(),
        secs[j].cid == cid,
        forall|i: int| 0 <= i < j ==> (#[trigger] secs[i]).cid != cid,
    ensures
        find_step(m, cid).1 == Ok::<Located, CarReaderError>(
            (
                secs[j],
                SectionLocation {
                    offset: (m.start + sections_bytes(secs.take(j)).len()) as u64,
                    length: section_bytes(secs[j]).len() as u64,
                },
            ),
        ),
    decreases j,
{
    if j == 0 {
        lemma_find_hits_first(m, secs, rest, cid);
    } else {
        let b0 = section_bytes(secs[0]);
        let tail = secs.skip(1);
        lemma_find_skips_first(m, secs, rest, cid);
        let m1 = V1ReaderModel { buffer: m.buffer.skip(b0.len() as int), start: m.start + b0.len(), ..m };
        assert forall|i: int| 0 <= i < tail.len() implies valid_section(#[trigger] tail[i]) by {
            assert(tail[i] == secs[i + 1]);
        }
        assert forall|i: int| 0 <= i < j - 1 implies (#[trigger] tail[i]).cid != cid by {
            assert(tail[i] == secs[i + 1]);
        }
        lemma_find_section_complete(m1, tail, rest, cid, j - 1);
        lemma_take_bytes(secs, j);
    }
}

proof fn lemma_take_bytes(secs: Seq<SectionModel>, j: int)
    requires
        0 < j <= secs.len(),
    ensures
        sections_bytes(secs.take(j)) == section_bytes(secs[0]) + sections_bytes(secs.skip(1).take(j - 1)),
{
    let tj = secs.take(j);
    assert(tj[0] == secs[0]);
    assert(tj.skip(1) =~= secs.skip(1).take(j - 1));
}

/// A scan whose first whole section has the CID returns it.
proof fn lemma_find_hits_first(m: V1ReaderModel, secs: Seq<SectionModel>, rest: Seq<u8>, cid: Seq<u8>)
    requires
        m.header is Some,
        m.buffer == sections_bytes(secs) + rest,
        secs.len() >= 1,
        valid_section(secs[0]),
        secs[0].cid == cid,
    ensures
        find_step(m, cid).1 == Ok::<Located, CarReaderError>(
            (
                secs[0],
                SectionLocation {
                    offset: (m.start + sections_bytes(secs.take(0)).len()) as u64,
                    length: section_bytes(secs[0]).len() as u64,
                },
            ),
        ),
{
    let s0 = secs[0];
    let tail = secs.skip(1);
    assert(m.buffer =~= section_bytes(s0) + (sections_bytes(tail) + rest));
    lemma_section_round_trip(s0, sections_bytes(tail) + rest);
    assert(secs.take(0) =~= Seq::<SectionModel>::empty());
    assert(sections_bytes(secs.take(0)).len() == 0);
}

/// A scan that meets a whole section with another CID moves past it.
#[verifier::rlimit(30)]
proof fn lemma_find_skips_first(m: V1ReaderModel, secs: Seq<SectionModel>, rest: Seq<u8>, cid: Seq<u8>)
    requires
        m.header is Some,
        m.buffer == sections_bytes(secs) + rest,
        secs.len() >= 2,
        valid_section(secs[0]),
        valid_section(secs[1]),
        secs[0].cid != cid,
    ensures
        ({
            let n = section_bytes(secs[0]).len();
            &&& m.buffer.skip(n as int) == sections_bytes(secs.skip(1)) + rest
            &&& find_step(m, cid) == find_step(
                V1ReaderModel { buffer: m.buffer.skip(n as int), start: m.start + n, ..m },
                cid,
            )
        }),
{
    let s0 = secs[0];
    let b0 = section_bytes(s0);
    let tail = secs.skip(1);
    assert(m.buffer =~= b0 + (sections_bytes(tail) + rest));
    lemma_section_round_trip(s0, sections_bytes(tail) + rest);
    assert(tail[0] == secs[1]);
    assert(sections_bytes(tail) == section_bytes(tail[0]) + sections_bytes(tail.skip(1)));
    assert(section_bytes(tail[0]).len() > 0);
    assert(m.buffer.len() > b0.len());
    assert(m.buffer.skip(b0.len() as int) =~= sections_bytes(tail) + rest);
}

/// Sections written in a row by a v1 writer and read back in a row by a v1
/// reader that holds those bytes from where they start come back as they were,
/// each at the location that the writer reported.
#[verifier::rlimit(30)]
pub proof fn lemma_written_sections_read_back(w: V1WriterModel, secs: Seq<SectionModel>, m: V1ReaderModel, rest: Seq<u8>)
    requires
        forall|i: int| 0 <= i < secs.len() ==> valid_section(#[trigger] secs[i]),
        w.buffer.len() + sections_bytes(secs).len() <= w.capacity,
        m.header is Some,
        m.start == w.offset + w.buffer.len(),
        m.buffer == sections_bytes(secs) + rest,
    ensures
        ({
            let (w2, written) = write_sections(w, secs);
            let (m2, read) = read_sections(m, secs.len());
            &&& w2.buffer == w.buffer + sections_bytes(secs)
            &&& written.len() == secs.len()
            &&& read.len() == secs.len()
            &&& forall|i: int| 0 <= i < secs.len() ==> (#[trigger] written[i]) is Ok && read[i]
                == Ok::<Located, CarReaderError>((secs[i], written[i]->Ok_0))
            &&& m2.buffer == rest
            &&& m2.start == m.start + sections_bytes(secs).len()
        }),
    decreases secs.len(),
{
    if secs.len() == 0 {
        assert(w.buffer + sections_bytes(secs) =~= w.buffer);
        assert(m.buffer =~= rest);
    } else {
        let s0 = secs[0];
        let b0 = section_bytes(s0);
        let tail = secs.skip(1);
        assert(valid_section(s0));
        assert(m.buffer =~= b0 + (sections_bytes(tail) + rest));
        lemma_section_round_trip(s0, sections_bytes(tail) + rest);
        let (w1, r) = write_step(w, s0);
        let (m1, q) = read_section_step(m);
        assert(m1.buffer =~= sections_bytes(tail) + rest);
        assert forall|i: int| 0 <= i < tail.len() implies valid_section(#[trigger] tail[i]) by {
            assert(tail[i] == secs[i + 1]);
        }
        lemma_written_sections_read_back(w1, tail, m1, rest);
        let (w2, written) = write_sections(w, secs);
        let (m2, read) = read_sections(m, secs.len());
        assert(w2.buffer =~= w.buffer + sections_bytes(secs));
        assert forall|i: int| 0 <= i < secs.len() implies (#[trigger] written[i]) is Ok && read[i]
            == Ok::<Located, CarReaderError>((secs[i], written[i]->Ok_0)) by {
            if i > 0 {
                assert(secs[i] == tail[i - 1]);
            }
        }
    }
}

} // verus!
