//! The CAR v2 writer, in three phases: sections (through a v1 writer placed after
//! the pragma and header), then the index, then the pragma and header, which go
//! to offset 0 once the sizes are known.

use crate::wire::cid::RawCid;
use crate::wire::header::cid_views;
use crate::wire::section::{section_bytes, Section, SectionLocation};
use crate::wire::v1;
use crate::wire::v1::{fresh_writer, write_step, V1WriterModel, DEFAULT_BUFFER_SIZE};
use crate::wire::v2::{car_v2_pragma, v2_pragma, PRAGMA_AND_HEADER_SIZE};
use crate::wire::v2header::{v2_header_bytes, CarV2Header, Characteristics};
use vstd::prelude::*;

verus! {

/// Errors of the CAR v2 writer.
#[derive(Debug, Clone, Copy, PartialEq, Eq, Structural)]
pub enum CarWriterError {
    /// The section does not fit in what is left of the buffer: send data first.
    BufferFull,
    /// The phase cannot end while bytes wait to be sent.
    BufferNotFlushed,
}

/// The phases of the writer.
pub trait CarWriteV2State {
}

/// Writing sections.
#[derive(Debug)]
pub struct SectionWritingState {
    data_start: u64,
    inner_written_bytes: u64,
    inner: v1::CarWriter,
}

/// Writing the index.
#[derive(Debug)]
pub struct IndexWritingState {
    data: Vec<u8>,
    data_start: u64,
    data_end: u64,
    index_start: u64,
    index_offset: u64,
}

/// Emitting the pragma and the header.
#[derive(Debug)]
pub struct FinalizedWritingState {
    header: CarV2Header,
    header_saved: bool,
}

impl CarWriteV2State for SectionWritingState {
}

impl CarWriteV2State for IndexWritingState {
}

impl CarWriteV2State for FinalizedWritingState {
}

/// CAR v2 writer in the phase `S`.
#[derive(Debug)]
pub struct CarWriter<S: CarWriteV2State> {
    state: S,
}

/// The section phase as values: the v1 writer of the payload, which starts at
/// offset 51 of the file.
pub struct SectionPhaseModel {
    pub data_start: nat,
    pub inner: V1WriterModel,
}

/// The index phase as values: where the payload starts and ends, where the index
/// starts, the index bytes not yet sent and how many were.
pub struct IndexPhaseModel {
    pub data_start: nat,
    pub data_end: nat,
    pub index_start: nat,
    pub buffer: Seq<u8>,
    pub sent: nat,
}

/// The final phase as values: the header, and whether it was handed out.
pub struct FinalPhaseModel {
    pub header: CarV2Header,
    pub header_saved: bool,
}

/// Copies `src[..n]` to the front of `buf`.
fn copy_front(buf: &mut [u8], src: &[u8], n: usize)
    requires
        n <= src@.len(),
        n <= old(buf)@.len(),
    ensures
        final(buf)@ == src@.subrange(0, n as int) + old(buf)@.skip(n as int),
{
    let mut i: usize = 0;
    while i < n
        invariant
            n <= src@.len(),
            n <= buf@.len(),
            i <= n,
            buf@.len() == old(buf)@.len(),
            forall|j: int| 0 <= j < i ==> buf@[j] == src@[j],
            forall|j: int| i <= j < buf@.len() ==> buf@[j] == old(buf)@[j],
        decreases n - i,
    {
        buf[i] = src[i];
        i = i + 1;
    }
    assert(buf@ =~= src@.subrange(0, n as int) + old(buf)@.skip(n as int));
}

impl CarWriter<SectionWritingState> {
    pub closed spec fn model(&self) -> SectionPhaseModel {
        SectionPhaseModel { data_start: self.state.data_start as nat, inner: self.state.inner@ }
    }

    /// The payload starts after the pragma and the header, and the bytes sent
    /// are counted in step with the v1 writer.
    pub closed spec fn wf(&self) -> bool {
        &&& self.state.inner.wf()
        &&& self.state.inner_written_bytes == self.state.inner@.offset
        &&& self.state.data_start == PRAGMA_AND_HEADER_SIZE
    }

    /// A writer with the default buffer size whose payload names `roots`.
    pub fn new(roots: Vec<RawCid>) -> (r: CarWriter<SectionWritingState>)
        ensures
            r.wf(),
            r.model().data_start == 51,
            fresh_writer(r.model().inner, cid_views(roots@), DEFAULT_BUFFER_SIZE as nat),
    {
        CarWriter::with_buffer_size(roots, DEFAULT_BUFFER_SIZE)
    }

    /// A writer with a buffer of `buffer_size` bytes whose payload names `roots`.
    pub fn with_buffer_size(roots: Vec<RawCid>, buffer_size: usize) -> (r: CarWriter<SectionWritingState>)
        ensures
            r.wf(),
            r.model().data_start == 51,
            fresh_writer(r.model().inner, cid_views(roots@), buffer_size as nat),
    {
        let inner = v1::CarWriter::with_buffer_size(roots, buffer_size);
        CarWriter {
            state: SectionWritingState {
                data_start: PRAGMA_AND_HEADER_SIZE as u64,
                inner_written_bytes: 0,
                inner,
            },
        }
    }

    /// Appends the section to the payload when it fits, and says where in the
    /// file it will land.
    pub fn write_section(&mut self, section: &Section) -> (r: Result<SectionLocation, CarWriterError>)
        requires
            old(self).wf(),
            51 + old(self).model().inner.offset + old(self).model().inner.buffer.len()
                + section_bytes(section@).len() <= u64::MAX,
        ensures
            final(self).wf(),
            final(self).model().data_start == old(self).model().data_start,
            ({
                let (w, r1) = write_step(old(self).model().inner, section@);
                &&& final(self).model().inner == w
                &&& r == match r1 {
                    Ok(loc) => Ok(SectionLocation { offset: (loc.offset + 51) as u64, length: loc.length }),
                    Err(_) => Err::<SectionLocation, CarWriterError>(CarWriterError::BufferFull),
                }
            }),
    {
        match self.state.inner.write_section(section) {
            Ok(loc) => Ok(
                SectionLocation { offset: self.state.data_start + loc.offset, length: loc.length },
            ),
            Err(v1::CarWriterError::BufferFull) => Err(CarWriterError::BufferFull),
        }
    }

    /// Moves as many buffered bytes as fit into `buf`; returns the file offset
    /// they belong at and their number.
    pub fn send_data(&mut self, buf: &mut [u8]) -> (r: (usize, usize))
        requires
            old(self).wf(),
            51 + old(self).model().inner.offset <= usize::MAX,
        ensures
            final(self).wf(),
            final(self).model().data_start == old(self).model().data_start,
            r.0 == 51 + old(self).model().inner.offset,
            r.1 == if old(self).model().inner.buffer.len() < old(buf)@.len() {
                old(self).model().inner.buffer.len()
            } else {
                old(buf)@.len()
            },
            final(buf)@ == old(self).model().inner.buffer.subrange(0, r.1 as int) + old(buf)@.skip(
                r.1 as int,
            ),
            final(self).model().inner == (V1WriterModel {
                buffer: old(self).model().inner.buffer.skip(r.1 as int),
                offset: (old(self).model().inner.offset + r.1) as nat,
                ..old(self).model().inner
            }),
    {
        let offset = self.state.data_start + self.state.inner_written_bytes;
        let n = self.state.inner.send_data(buf);
        self.state.inner_written_bytes = self.state.inner_written_bytes + n as u64;
        (offset as usize, n)
    }

    /// Whether bytes wait to be sent.
    pub fn has_data_to_send(&self) -> (r: bool)
        ensures
            r == (self.model().inner.buffer.len() > 0),
    {
        self.state.inner.has_data_to_send()
    }

    /// Ends the section phase once everything is sent; the payload ends where
    /// the sent bytes end, and the index starts there.
    pub fn finalize_sections(self) -> (r: Result<CarWriter<IndexWritingState>, CarWriterError>)
        requires
            self.wf(),
            51 + self.model().inner.offset <= u64::MAX,
        ensures
            self.model().inner.buffer.len() > 0 ==> r == Err::<CarWriter<IndexWritingState>, CarWriterError>(CarWriterError::BufferNotFlushed),
            self.model().inner.buffer.len() == 0 ==> r is Ok && r->Ok_0.wf() && r->Ok_0.model() == (IndexPhaseModel {
                data_start: 51,
                data_end: 51 + self.model().inner.offset,
                index_start: 51 + self.model().inner.offset,
                buffer: Seq::empty(),
                sent: 0,
            }),
    {
        if self.has_data_to_send() {
            return Err(CarWriterError::BufferNotFlushed);
        }
        let data_end = self.state.data_start + self.state.inner_written_bytes;
        let w = CarWriter {
            state: IndexWritingState {
                data: Vec::new(),
                data_start: self.state.data_start,
                data_end,
                index_start: data_end,
                index_offset: 0,
            },
        };
        assert(w.model().buffer =~= Seq::<u8>::empty());
        Ok(w)
    }
}

/// The v2 header written at the end: the payload's place and size, and the
/// index's offset, 0 when no index bytes were written.
pub open spec fn final_header(m: IndexPhaseModel, characteristics: u128) -> CarV2Header {
    CarV2Header {
        characteristics: Characteristics(characteristics),
        data_offset: m.data_start as u64,
        data_size: (m.data_end - m.data_start) as u64,
        index_offset: if m.sent > 0 {
            m.index_start as u64
        } else {
            0
        },
    }
}

impl CarWriter<IndexWritingState> {
    pub closed spec fn model(&self) -> IndexPhaseModel {
        IndexPhaseModel {
            data_start: self.state.data_start as nat,
            data_end: self.state.data_end as nat,
            index_start: self.state.index_start as nat,
            buffer: self.state.data@,
            sent: self.state.index_offset as nat,
        }
    }

    /// The payload lies after its start, and the index offsets stay within `u64`.
    pub closed spec fn wf(&self) -> bool {
        &&& self.state.data_start <= self.state.data_end
        &&& self.state.index_start + self.state.index_offset + self.state.data@.len() <= u64::MAX
    }

    /// Moves as many index bytes as fit into `buf`; returns the file offset they
    /// belong at and their number, `(0, 0)` when none.
    pub fn send_data(&mut self, buf: &mut [u8]) -> (r: (usize, usize))
        requires
            old(self).wf(),
            old(self).model().index_start + old(self).model().sent <= usize::MAX,
        ensures
            final(self).wf(),
            ({
                let m = old(self).model();
                let n = if m.buffer.len() < old(buf)@.len() { m.buffer.len() } else { old(buf)@.len() };
                &&& r.1 == n
                &&& r.0 == if n == 0 { 0 } else { m.index_start + m.sent }
                &&& final(buf)@ == m.buffer.subrange(0, n as int) + old(buf)@.skip(n as int)
                &&& final(self).model() == (IndexPhaseModel {
                    buffer: m.buffer.skip(n as int),
                    sent: m.sent + n,
                    ..m
                })
            }),
    {
        let n = if self.state.data.len() < buf.len() {
            self.state.data.len()
        } else {
            buf.len()
        };
        if n == 0 {
            assert(buf@ =~= old(buf)@.skip(0));
            assert(self.state.data@.skip(0) =~= self.state.data@);
            return (0, 0);
        }
        copy_front(buf, self.state.data.as_slice(), n);
        let rest = self.state.data.split_off(n);
        self.state.data = rest;
        let offset = self.state.index_start + self.state.index_offset;
        self.state.index_offset = self.state.index_offset + n as u64;
        (offset as usize, n)
    }

    /// Whether index bytes wait to be sent.
    pub fn has_data_to_send(&self) -> (r: bool)
        ensures
            r == (self.model().buffer.len() > 0),
    {
        self.state.data.len() > 0
    }

    /// Ends the index phase once everything is sent, with a header that claims
    /// no full index.
    pub fn finalize_index(self) -> (r: Result<CarWriter<FinalizedWritingState>, CarWriterError>)
        requires
            self.wf(),
        ensures
            self.model().buffer.len() > 0 ==> r == Err::<CarWriter<FinalizedWritingState>, CarWriterError>(CarWriterError::BufferNotFlushed),
            self.model().buffer.len() == 0 ==> r is Ok && r->Ok_0.model() == (FinalPhaseModel {
                header: final_header(self.model(), 0),
                header_saved: false,
            }),
    {
        self.finalize_with(Characteristics(0))
    }

    /// Ends the index phase once everything is sent, with a header that claims
    /// a full index.
    pub fn finalize_full_index(self) -> (r: Result<CarWriter<FinalizedWritingState>, CarWriterError>)
        requires
            self.wf(),
        ensures
            self.model().buffer.len() > 0 ==> r == Err::<CarWriter<FinalizedWritingState>, CarWriterError>(CarWriterError::BufferNotFlushed),
            self.model().buffer.len() == 0 ==> r is Ok && r->Ok_0.model() == (FinalPhaseModel {
                header: final_header(self.model(), 1),
                header_saved: false,
            }),
    {
        let mut c = Characteristics(0);
        c.set_has_full_index(true);
        assert(c.0 == 1) by {
            assert(c.0 / 2 == 0 && c.0 % 2 == 1);
        }
        self.finalize_with(c)
    }

    fn finalize_with(self, characteristics: Characteristics) -> (r: Result<CarWriter<FinalizedWritingState>, CarWriterError>)
        requires
            self.wf(),
        ensures
            self.model().buffer.len() > 0 ==> r == Err::<CarWriter<FinalizedWritingState>, CarWriterError>(CarWriterError::BufferNotFlushed),
            self.model().buffer.len() == 0 ==> r is Ok && r->Ok_0.model() == (FinalPhaseModel {
                header: final_header(self.model(), characteristics.0),
                header_saved: false,
            }),
    {
        if self.has_data_to_send() {
            return Err(CarWriterError::BufferNotFlushed);
        }
        let index_offset = if self.state.index_offset > 0 {
            self.state.index_start
        } else {
            0
        };
        let header = CarV2Header {
            characteristics,
            data_offset: self.state.data_start,
            data_size: self.state.data_end - self.state.data_start,
            index_offset,
        };
        Ok(CarWriter { state: FinalizedWritingState { header, header_saved: false } })
    }
}

impl CarWriter<FinalizedWritingState> {
    pub closed spec fn model(&self) -> FinalPhaseModel {
        FinalPhaseModel { header: self.state.header, header_saved: self.state.header_saved }
    }

    /// The header that will be written at offset 0.
    pub fn header(&self) -> (r: &CarV2Header)
        ensures
            *r == self.model().header,
    {
        &self.state.header
    }

    /// Writes the pragma and the header to the front of `buf`, which holds at
    /// least 51 bytes, once: they belong at offset 0 of the file.
    pub fn send_data(&mut self, buf: &mut [u8]) -> (r: (usize, usize))
        requires
            old(buf)@.len() >= 51,
        ensures
            final(self).model().header == old(self).model().header,
            final(self).model().header_saved,
            old(self).model().header_saved ==> r == (0usize, 0usize) && final(buf)@ == old(buf)@,
            !old(self).model().header_saved ==> r == (0usize, 51usize) && final(buf)@ == v2_pragma()
                + v2_header_bytes(old(self).model().header) + old(buf)@.skip(51),
    {
        if self.state.header_saved {
            return (0, 0);
        }
        let mut bytes = car_v2_pragma();
        let header_bytes = self.state.header.to_bytes();
        bytes.extend_from_slice(header_bytes.as_slice());
        proof {
            crate::wire::v2header::lemma_v2_header_round_trip(self.state.header);
            assert(bytes@ =~= v2_pragma() + v2_header_bytes(self.state.header));
        }
        copy_front(buf, bytes.as_slice(), 51);
        assert(bytes@.subrange(0, 51) =~= bytes@);
        self.state.header_saved = true;
        (0, 51)
    }

    /// Whether the header is still to be sent.
    pub fn has_data_to_send(&self) -> (r: bool)
        ensures
            r == !self.model().header_saved,
    {
        !self.state.header_saved
    }
}

} // verus!
