//! Demultiplexing of IVF streams: a 32-byte header followed by frame records,
//! each a 4-byte size, an 8-byte timestamp and the compressed payload.
//!
//! The demuxer works on the stream's bytes in memory and hands out each payload
//! through a single staging buffer that it reuses from one frame to the next.

use vstd::prelude::*;

use byteorder::ByteOrder;

verus! {

/// Length of the stream header.
pub const HEADER_LEN: usize = 32;

/// Length of the size and timestamp fields in front of each payload.
pub const RECORD_HEADER_LEN: usize = 12;

/// The largest payload that a frame record may declare.
pub const MAX_FRAME_SIZE: u32 = 8388608;

/// Value of two bytes read as a little-endian integer.
pub open spec fn le_u16(b: Seq<u8>) -> int {
    b[0] as int + 256 * b[1] as int
}

/// Value of four bytes read as a little-endian integer.
pub open spec fn le_u32(b: Seq<u8>) -> int {
    le_u16(b) + 65536 * le_u16(b.subrange(2, 4))
}

/// Value of eight bytes read as a little-endian integer.
pub open spec fn le_u64(b: Seq<u8>) -> int {
    le_u32(b) + 4294967296 * le_u32(b.subrange(4, 8))
}

/// The text that `std::str::from_utf8` finds in the bytes, or the empty text
/// where they are not UTF-8.
pub uninterp spec fn utf8_text(b: Seq<u8>) -> Seq<char>;

/// Relies on byteorder's `LittleEndian::read_u16`: the two bytes at `at`, low
/// byte first.
#[verifier::external_body]
fn read_le_u16(b: &[u8], at: usize) -> (r: u16)
    requires
        at + 2 <= b@.len(),
    ensures
        r as int == le_u16(b@.subrange(at as int, at + 2)),
{
    byteorder::LittleEndian::read_u16(&b[at..])
}

/// Relies on byteorder's `LittleEndian::read_u32`: the four bytes at `at`, low
/// byte first.
#[verifier::external_body]
fn read_le_u32(b: &[u8], at: usize) -> (r: u32)
    requires
        at + 4 <= b@.len(),
    ensures
        r as int == le_u32(b@.subrange(at as int, at + 4)),
{
    byteorder::LittleEndian::read_u32(&b[at..])
}

/// Relies on byteorder's `LittleEndian::read_u64`: the eight bytes at `at`, low
/// byte first.
#[verifier::external_body]
fn read_le_u64(b: &[u8], at: usize) -> (r: u64)
    requires
        at + 8 <= b@.len(),
    ensures
        r as int == le_u64(b@.subrange(at as int, at + 8)),
{
    byteorder::LittleEndian::read_u64(&b[at..])
}

/// Relies on `std::str::from_utf8`: the bytes as text where they are UTF-8,
/// else the empty text; ASCII bytes stand each for one character.
#[verifier::external_body]
fn text_of(b: &[u8]) -> (r: String)
    ensures
        r@ == utf8_text(b@),
        (forall|i: int| 0 <= i < b@.len() ==> #[trigger] b@[i] < 128) ==> r@ == Seq::new(
            b@.len(),
            |i: int| b@[i] as char,
        ),
{
    std::str::from_utf8(b).unwrap_or_default().to_string()
}

/// An error met while reading an IVF stream.
#[derive(Debug, PartialEq, Eq)]
pub enum IvfError {
    /// The stream ended before the bytes that the format calls for.
    Truncated,
    /// The stream does not begin with the IVF signature.
    MissingSignature,
    /// The stream holds another codec than VP9; its tag, as text where it is.
    UnsupportedCodec(String),
    /// A frame record declares a payload larger than the safety ceiling.
    FrameTooLarge,
}

/// The fields of the stream header that describe the video.
#[derive(Debug, Clone, Copy, PartialEq, Eq, Structural)]
pub struct IvfHeader {
    pub width: u32,
    pub height: u32,
    pub time_base_num: u32,
    pub time_base_denom: u32,
    pub number_of_frames: u32,
}

/// One compressed frame, borrowed from the demuxer's staging buffer.
pub struct IvfFrame<'a> {
    pub timestamp: u64,
    pub data: &'a [u8],
}

/// The first four bytes are the signature `DKIF`.
pub open spec fn has_signature(s: Seq<u8>) -> bool {
    &&& s.len() >= 4
    &&& s[0] == 0x44u8 && s[1] == 0x4bu8 && s[2] == 0x49u8 && s[3] == 0x46u8
}

/// The codec tag at offset 8 is `VP90`.
pub open spec fn has_vp9_tag(s: Seq<u8>) -> bool {
    &&& s.len() >= 12
    &&& s[8] == 0x56u8 && s[9] == 0x50u8 && s[10] == 0x39u8 && s[11] == 0x30u8
}

/// The header fields as the fixed layout places them.
pub open spec fn header_of(s: Seq<u8>) -> IvfHeader {
    IvfHeader {
        width: le_u16(s.subrange(12, 14)) as u32,
        height: le_u16(s.subrange(14, 16)) as u32,
        time_base_denom: le_u32(s.subrange(16, 20)) as u32,
        time_base_num: le_u32(s.subrange(20, 24)) as u32,
        number_of_frames: le_u32(s.subrange(24, 28)) as u32,
    }
}

/// `r` is what opening a stream of these bytes gives: the checks come in the
/// order in which the header's fields are read.
pub open spec fn opens_to(s: Seq<u8>, r: Result<IvfHeader, IvfError>) -> bool {
    if s.len() < 4 {
        r == Err::<IvfHeader, IvfError>(IvfError::Truncated)
    } else if !has_signature(s) {
        r == Err::<IvfHeader, IvfError>(IvfError::MissingSignature)
    } else if s.len() < 12 {
        r == Err::<IvfHeader, IvfError>(IvfError::Truncated)
    } else if !has_vp9_tag(s) {
        r matches Err(IvfError::UnsupportedCodec(t)) && t@ == utf8_text(s.subrange(8, 12))
    } else if s.len() < HEADER_LEN {
        r == Err::<IvfHeader, IvfError>(IvfError::Truncated)
    } else {
        r == Ok::<IvfHeader, IvfError>(header_of(s))
    }
}

/// Reads the stream header from the front of `s`.
pub fn parse_header(s: &[u8]) -> (r: Result<IvfHeader, IvfError>)
    ensures
        opens_to(s@, r),
{
    if s.len() < 4 {
        return Err(IvfError::Truncated);
    }
    if !(s[0] == 0x44u8 && s[1] == 0x4bu8 && s[2] == 0x49u8 && s[3] == 0x46u8) {
        return Err(IvfError::MissingSignature);
    }
    if s.len() < 12 {
        return Err(IvfError::Truncated);
    }
    if !(s[8] == 0x56u8 && s[9] == 0x50u8 && s[10] == 0x39u8 && s[11] == 0x30u8) {
        let tag = [s[8], s[9], s[10], s[11]];
        let t = text_of(tag.as_slice());
        proof {
            assert(tag@ =~= s@.subrange(8, 12));
        }
        return Err(IvfError::UnsupportedCodec(t));
    }
    if s.len() < HEADER_LEN {
        return Err(IvfError::Truncated);
    }
    let width = read_le_u16(s, 12) as u32;
    let height = read_le_u16(s, 14) as u32;
    let time_base_denom = read_le_u32(s, 16);
    let time_base_num = read_le_u32(s, 20);
    let number_of_frames = read_le_u32(s, 24);
    Ok(IvfHeader { width, height, time_base_num, time_base_denom, number_of_frames })
}

/// The size field of the frame record at `pos`.
pub open spec fn record_size(s: Seq<u8>, pos: int) -> int {
    le_u32(s.subrange(pos, pos + 4))
}

/// The timestamp field of the frame record at `pos`.
pub open spec fn record_timestamp(s: Seq<u8>, pos: int) -> int {
    le_u64(s.subrange(pos + 4, pos + 12))
}

/// Where the frame record after the one at `pos` begins.
pub open spec fn next_record(s: Seq<u8>, pos: int) -> int {
    pos + RECORD_HEADER_LEN + record_size(s, pos)
}

/// From `pos` on, `s` holds `n` complete frame records, none over the ceiling.
pub open spec fn records_well_formed(s: Seq<u8>, pos: int, n: nat) -> bool
    decreases n,
{
    if n == 0 {
        true
    } else {
        &&& pos + RECORD_HEADER_LEN <= s.len()
        &&& record_size(s, pos) <= MAX_FRAME_SIZE
        &&& next_record(s, pos) <= s.len()
        &&& records_well_formed(s, next_record(s, pos), (n - 1) as nat)
    }
}

/// A stream with a valid header followed by as many complete frame records as
/// the header declares.
pub open spec fn stream_well_formed(s: Seq<u8>) -> bool {
    &&& s.len() >= HEADER_LEN
    &&& has_signature(s)
    &&& has_vp9_tag(s)
    &&& records_well_formed(s, HEADER_LEN as int, header_of(s).number_of_frames as nat)
}

/// A stream of at least four bytes that does not begin with the signature is
/// refused for that reason, whatever follows.
pub proof fn lemma_missing_signature(s: Seq<u8>, r: Result<IvfHeader, IvfError>)
    requires
        s.len() >= 4,
        !has_signature(s),
        opens_to(s, r),
    ensures
        r == Err::<IvfHeader, IvfError>(IvfError::MissingSignature),
{
}

/// Reads the frames of an IVF stream in file order.
pub struct IvfDemuxer {
    stream: Vec<u8>,
    pos: usize,
    header: IvfHeader,
    current_frame: u32,
    frame_buffer: Vec<u8>,
}

impl IvfDemuxer {
    /// The bytes of the whole stream.
    pub closed spec fn spec_stream(&self) -> Seq<u8> {
        self.stream@
    }

    /// How many bytes of the stream have been consumed.
    pub closed spec fn spec_pos(&self) -> int {
        self.pos as int
    }

    pub closed spec fn spec_header(&self) -> IvfHeader {
        self.header
    }

    /// How many frames have been handed out.
    pub closed spec fn frames_emitted(&self) -> u32 {
        self.current_frame
    }

    /// The payload of the last frame handed out.
    pub closed spec fn staged(&self) -> Seq<u8> {
        self.frame_buffer@
    }

    pub open spec fn wf(&self) -> bool {
        &&& self.spec_pos() <= self.spec_stream().len()
        &&& self.frames_emitted() <= self.spec_header().number_of_frames
    }

    /// The records still to come are complete and within the ceiling.
    pub open spec fn rest_well_formed(&self) -> bool {
        records_well_formed(
            self.spec_stream(),
            self.spec_pos(),
            (self.spec_header().number_of_frames - self.frames_emitted()) as nat,
        )
    }

    /// Opens a stream: reads and checks its header.
    pub fn new(stream: Vec<u8>) -> (r: Result<IvfDemuxer, IvfError>)
        ensures
            match r {
                Ok(d) => {
                    &&& opens_to(stream@, Ok(d.spec_header()))
                    &&& d.wf()
                    &&& d.spec_stream() == stream@
                    &&& d.spec_pos() == HEADER_LEN
                    &&& d.frames_emitted() == 0
                    &&& d.staged().len() == 0
                    &&& (d.rest_well_formed() <==> stream_well_formed(stream@))
                },
                Err(e) => opens_to(stream@, Err(e)),
            },
    {
        match parse_header(stream.as_slice()) {
            Ok(header) => Ok(IvfDemuxer {
                stream,
                pos: HEADER_LEN,
                header,
                current_frame: 0,
                frame_buffer: Vec::new(),
            }),
            Err(e) => Err(e),
        }
    }

    pub fn header(&self) -> (r: &IvfHeader)
        ensures
            *r == self.spec_header(),
    {
        &self.header
    }

    /// Reads the next frame record, or gives `None` once the declared number
    /// of frames has been handed out. The frame's payload lives in the staging
    /// buffer until the next call.
    pub fn next_frame(&mut self) -> (r: Result<Option<IvfFrame<'_>>, IvfError>)
        requires
            old(self).wf(),
        ensures
            final(self).wf(),
            final(self).spec_stream() == old(self).spec_stream(),
            final(self).spec_header() == old(self).spec_header(),
            ({
                let s = old(self).spec_stream();
                let pos = old(self).spec_pos();
                let n = old(self).frames_emitted();
                if n >= old(self).spec_header().number_of_frames {
                    r matches Ok(None) && *final(self) == *old(self)
                } else if pos + RECORD_HEADER_LEN > s.len() {
                    r == Err::<Option<IvfFrame>, IvfError>(IvfError::Truncated)
                        && final(self).spec_pos() == s.len() && final(self).frames_emitted() == n
                } else if record_size(s, pos) > MAX_FRAME_SIZE {
                    r == Err::<Option<IvfFrame>, IvfError>(IvfError::FrameTooLarge)
                        && final(self).spec_pos() == pos + RECORD_HEADER_LEN
                        && final(self).frames_emitted() == n
                } else if next_record(s, pos) > s.len() {
                    r == Err::<Option<IvfFrame>, IvfError>(IvfError::Truncated)
                        && final(self).spec_pos() == s.len() && final(self).frames_emitted() == n
                } else {
                    r matches Ok(Some(f)) && f.timestamp == record_timestamp(s, pos)
                        && f.data@ == s.subrange(pos + RECORD_HEADER_LEN, next_record(s, pos))
                        && final(self).staged() == f.data@
                        && final(self).spec_pos() == next_record(s, pos)
                        && final(self).frames_emitted() == n + 1
                }
            }),
            old(self).rest_well_formed() ==> final(self).rest_well_formed(),
    {
        if self.current_frame >= self.header.number_of_frames {
            return Ok(None);
        }
        let len = self.stream.len();
        if len - self.pos < RECORD_HEADER_LEN {
            self.pos = len;
            return Err(IvfError::Truncated);
        }
        let frame_size = read_le_u32(self.stream.as_slice(), self.pos);
        let timestamp = read_le_u64(self.stream.as_slice(), self.pos + 4);
        self.pos = self.pos + RECORD_HEADER_LEN;
        if frame_size > MAX_FRAME_SIZE {
            return Err(IvfError::FrameTooLarge);
        }
        if len - self.pos < frame_size as usize {
            self.pos = len;
            return Err(IvfError::Truncated);
        }
        let start = self.pos;
        let end = start + frame_size as usize;
        self.frame_buffer.clear();
        let mut i = start;
        while i < end
            invariant
                start <= i <= end,
                end <= len,
                len == self.stream@.len(),
                self.stream@ == old(self).stream@,
                self.header == old(self).header,
                self.current_frame == old(self).current_frame,
                self.current_frame < self.header.number_of_frames,
                self.frame_buffer@ == self.stream@.subrange(start as int, i as int),
            decreases end - i,
        {
            self.frame_buffer.push(self.stream[i]);
            proof {
                assert(self.frame_buffer@ =~= self.stream@.subrange(start as int, i + 1));
            }
            i = i + 1;
        }
        self.pos = end;
        self.current_frame = self.current_frame + 1;
        Ok(Some(IvfFrame { timestamp, data: self.frame_buffer.as_slice() }))
    }
}

/// While frames remain on a demuxer whose remaining records are well formed,
/// the next record is complete and within the ceiling, so the next call hands
/// out a frame and the rest stays well formed; once all are out it hands out
/// nothing. A well-formed stream thus yields exactly its declared number of
/// frames, one more each call.
pub proof fn lemma_well_formed_yields(d: IvfDemuxer)
    requires
        d.wf(),
        d.rest_well_formed(),
    ensures
        d.frames_emitted() < d.spec_header().number_of_frames ==> {
            let s = d.spec_stream();
            let pos = d.spec_pos();
            &&& pos + RECORD_HEADER_LEN <= s.len()
            &&& record_size(s, pos) <= MAX_FRAME_SIZE
            &&& next_record(s, pos) <= s.len()
            &&& records_well_formed(
                s,
                next_record(s, pos),
                (d.spec_header().number_of_frames - d.frames_emitted() - 1) as nat,
            )
        },
{
}

} // verus!
