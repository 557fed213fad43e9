//! General frame functionality: protocol versions, header flags, opcodes,
//! stream-id allocation, and the frame header codec.

use vstd::prelude::*;
use crate::error::DecodeError;
use crate::types::{
    be_bytes, be_ibytes, be_ival, be_val, cstring_bytes, cstring_list_bytes, i_fits,
    lemma_be_ibytes_ival, lemma_pow256_8, cursor_next_value, from_i16_bytes, i_to_n_bytes,
    to_u_short, to_n_bytes, spec_parse_cstring_list, CString,
};

verus! {

/// The protocol generation selected for a connection; the third and the
/// two later generations differ in their version bytes.
#[derive(Debug, Clone, Copy, PartialEq, Eq, Structural)]
pub enum ProtocolVersion {
    V3,
    V4,
    V5,
}

/// Direction of a frame: a client request or a server response.
#[derive(Debug, Clone, Copy, PartialEq, Eq, Structural, Hash)]
pub enum Version {
    Request,
    Response,
}

/// The wire byte of a frame direction under a protocol generation.
pub open spec fn version_byte(v: Version, p: ProtocolVersion) -> u8 {
    match (v, p) {
        (Version::Request, ProtocolVersion::V3) => 0x03,
        (Version::Request, _) => 0x04,
        (Version::Response, ProtocolVersion::V3) => 0x83,
        (Version::Response, _) => 0x84,
    }
}

impl Version {
    /// The request-direction version byte of `p`.
    pub fn request_version(p: ProtocolVersion) -> (r: u8)
        ensures
            r == version_byte(Version::Request, p),
    {
        match p {
            ProtocolVersion::V3 => 0x03,
            _ => 0x04,
        }
    }

    /// The response-direction version byte of `p`.
    pub fn response_version(p: ProtocolVersion) -> (r: u8)
        ensures
            r == version_byte(Version::Response, p),
    {
        match p {
            ProtocolVersion::V3 => 0x83,
            _ => 0x84,
        }
    }

    /// The wire byte of this direction under `p`.
    pub fn as_byte(&self, p: ProtocolVersion) -> (r: u8)
        ensures
            r == version_byte(*self, p),
    {
        match self {
            Version::Request => Version::request_version(p),
            Version::Response => Version::response_version(p),
        }
    }

    /// The direction whose byte under `p` is `b`, if there is one.
    pub fn from_byte(b: u8, p: ProtocolVersion) -> (r: Option<Version>)
        ensures
            r matches Some(v) ==> version_byte(v, p) == b,
            r is None ==> b != version_byte(Version::Request, p) && b != version_byte(
                Version::Response,
                p,
            ),
    {
        if b == Version::request_version(p) {
            Some(Version::Request)
        } else if b == Version::response_version(p) {
            Some(Version::Response)
        } else {
            None
        }
    }

    /// Reads the direction out of a single version byte. The byte must be
    /// the request or the response byte of `p`; an unknown byte is a
    /// decode failure handled by the frame parser.
    pub fn from(v: Vec<u8>, p: ProtocolVersion) -> (r: Version)
        requires
            v@.len() == 1,
            v@[0] == version_byte(Version::Request, p) || v@[0] == version_byte(
                Version::Response,
                p,
            ),
        ensures
            version_byte(r, p) == v@[0],
    {
        let b = v[0];
        if b == Version::request_version(p) {
            Version::Request
        } else {
            Version::Response
        }
    }
}

/// A frame header flag.
#[derive(Debug, Clone, Copy, PartialEq, Eq, Structural)]
pub enum Flag {
    Compression,
    Tracing,
    CustomPayload,
    Warning,
    Ignore,
}

/// The wire bit of a flag.
pub open spec fn flag_byte(f: Flag) -> u8 {
    match f {
        Flag::Compression => 0x01,
        Flag::Tracing => 0x02,
        Flag::CustomPayload => 0x04,
        Flag::Warning => 0x08,
        Flag::Ignore => 0x00,
    }
}

/// The canonical flag list encoded in a flag byte, in wire-bit order.
pub open spec fn spec_flag_collection(flags: u8) -> Seq<Flag> {
    (if flags & 0x01 != 0 {
        seq![Flag::Compression]
    } else {
        seq![]
    }) + (if flags & 0x02 != 0 {
        seq![Flag::Tracing]
    } else {
        seq![]
    }) + (if flags & 0x04 != 0 {
        seq![Flag::CustomPayload]
    } else {
        seq![]
    }) + (if flags & 0x08 != 0 {
        seq![Flag::Warning]
    } else {
        seq![]
    })
}

/// The flag byte carrying every flag of the list.
pub open spec fn spec_flags_byte(fs: Seq<Flag>) -> u8
    decreases fs.len(),
{
    if fs.len() == 0 {
        0
    } else {
        spec_flags_byte(fs.drop_last()) | flag_byte(fs.last())
    }
}

impl Flag {
    /// The selected flags of a flag byte, in wire-bit order.
    pub fn get_collection(flags: u8) -> (r: Vec<Flag>)
        ensures
            r@ == spec_flag_collection(flags),
    {
        let mut found_flags: Vec<Flag> = Vec::new();
        if Flag::has_compression(flags) {
            found_flags.push(Flag::Compression);
        }
        if Flag::has_tracing(flags) {
            found_flags.push(Flag::Tracing);
        }
        if Flag::has_custom_payload(flags) {
            found_flags.push(Flag::CustomPayload);
        }
        if Flag::has_warning(flags) {
            found_flags.push(Flag::Warning);
        }
        proof {
            assert(found_flags@ =~= spec_flag_collection(flags));
        }
        found_flags
    }

    /// Folds a series of flags into a single flag byte.
    pub fn many_to_cbytes(flags: &[Flag]) -> (r: u8)
        ensures
            r == spec_flags_byte(flags@),
    {
        let n = flags.len();
        let mut acc: u8 = 0;
        let mut i: usize = 0;
        proof {
            assert(flags@.subrange(0, 0) =~= Seq::<Flag>::empty());
        }
        while i < n
            invariant
                i <= n,
                n == flags@.len(),
                acc == spec_flags_byte(flags@.subrange(0, i as int)),
            decreases n - i,
        {
            proof {
                assert(flags@.subrange(0, i + 1).drop_last() =~= flags@.subrange(0, i as int));
                assert(flags@.subrange(0, i + 1).last() == flags@[i as int]);
            }
            acc = acc | flags[i].as_byte();
            i = i + 1;
        }
        proof {
            assert(flags@.subrange(0, n as int) =~= flags@);
        }
        acc
    }

    /// Whether the flag byte selects compression.
    pub fn has_compression(flags: u8) -> (r: bool)
        ensures
            r == (flags & 0x01 != 0),
    {
        (flags & 0x01) > 0
    }

    /// Whether the flag byte selects tracing.
    pub fn has_tracing(flags: u8) -> (r: bool)
        ensures
            r == (flags & 0x02 != 0),
    {
        (flags & 0x02) > 0
    }

    /// Whether the flag byte selects a custom payload.
    pub fn has_custom_payload(flags: u8) -> (r: bool)
        ensures
            r == (flags & 0x04 != 0),
    {
        (flags & 0x04) > 0
    }

    /// Whether the flag byte selects warnings.
    pub fn has_warning(flags: u8) -> (r: bool)
        ensures
            r == (flags & 0x08 != 0),
    {
        (flags & 0x08) > 0
    }

    /// The wire bit of this flag.
    pub fn as_byte(&self) -> (r: u8)
        ensures
            r == flag_byte(*self),
    {
        match self {
            Flag::Compression => 0x01,
            Flag::Tracing => 0x02,
            Flag::CustomPayload => 0x04,
            Flag::Warning => 0x08,
            Flag::Ignore => 0x00,
        }
    }

    /// The flag selected by exactly this byte; any other byte is ignored
    /// by the protocol.
    pub fn from(f: u8) -> (r: Flag)
        ensures
            r == (if f == 0x01 {
                Flag::Compression
            } else if f == 0x02 {
                Flag::Tracing
            } else if f == 0x04 {
                Flag::CustomPayload
            } else if f == 0x08 {
                Flag::Warning
            } else {
                Flag::Ignore
            }),
    {
        match f {
            0x01 => Flag::Compression,
            0x02 => Flag::Tracing,
            0x04 => Flag::CustomPayload,
            0x08 => Flag::Warning,
            _ => Flag::Ignore,
        }
    }
}

/// The message kind of a frame.
#[derive(Debug, Clone, Copy, PartialEq, Eq, Structural)]
pub enum Opcode {
    Error,
    Startup,
    Ready,
    Authenticate,
    Options,
    Supported,
    Query,
    Result,
    Prepare,
    Execute,
    Register,
    Event,
    Batch,
    AuthChallenge,
    AuthResponse,
    AuthSuccess,
}

/// The wire byte of an opcode.
pub open spec fn opcode_byte(o: Opcode) -> u8 {
    match o {
        Opcode::Error => 0x00,
        Opcode::Startup => 0x01,
        Opcode::Ready => 0x02,
        Opcode::Authenticate => 0x03,
        Opcode::Options => 0x05,
        Opcode::Supported => 0x06,
        Opcode::Query => 0x07,
        Opcode::Result => 0x08,
        Opcode::Prepare => 0x09,
        Opcode::Execute => 0x0A,
        Opcode::Register => 0x0B,
        Opcode::Event => 0x0C,
        Opcode::Batch => 0x0D,
        Opcode::AuthChallenge => 0x0E,
        Opcode::AuthResponse => 0x0F,
        Opcode::AuthSuccess => 0x10,
    }
}

/// The opcode encoded by a byte, if the byte is in the protocol's table.
pub open spec fn spec_opcode_of(b: u8) -> Option<Opcode> {
    if b == 0x00 {
        Some(Opcode::Error)
    } else if b == 0x01 {
        Some(Opcode::Startup)
    } else if b == 0x02 {
        Some(Opcode::Ready)
    } else if b == 0x03 {
        Some(Opcode::Authenticate)
    } else if b == 0x05 {
        Some(Opcode::Options)
    } else if b == 0x06 {
        Some(Opcode::Supported)
    } else if b == 0x07 {
        Some(Opcode::Query)
    } else if b == 0x08 {
        Some(Opcode::Result)
    } else if b == 0x09 {
        Some(Opcode::Prepare)
    } else if b == 0x0A {
        Some(Opcode::Execute)
    } else if b == 0x0B {
        Some(Opcode::Register)
    } else if b == 0x0C {
        Some(Opcode::Event)
    } else if b == 0x0D {
        Some(Opcode::Batch)
    } else if b == 0x0E {
        Some(Opcode::AuthChallenge)
    } else if b == 0x0F {
        Some(Opcode::AuthResponse)
    } else if b == 0x10 {
        Some(Opcode::AuthSuccess)
    } else {
        None
    }
}

impl Opcode {
    /// The wire byte of this opcode.
    pub fn as_byte(&self) -> (r: u8)
        ensures
            r == opcode_byte(*self),
    {
        match self {
            Opcode::Error => 0x00,
            Opcode::Startup => 0x01,
            Opcode::Ready => 0x02,
            Opcode::Authenticate => 0x03,
            Opcode::Options => 0x05,
            Opcode::Supported => 0x06,
            Opcode::Query => 0x07,
            Opcode::Result => 0x08,
            Opcode::Prepare => 0x09,
            Opcode::Execute => 0x0A,
            Opcode::Register => 0x0B,
            Opcode::Event => 0x0C,
            Opcode::Batch => 0x0D,
            Opcode::AuthChallenge => 0x0E,
            Opcode::AuthResponse => 0x0F,
            Opcode::AuthSuccess => 0x10,
        }
    }

    /// The opcode with wire byte `b`. An unknown byte is a decode failure
    /// handled by the frame parser; callers here must pass a known byte.
    pub fn from(b: u8) -> (r: Opcode)
        requires
            spec_opcode_of(b) is Some,
        ensures
            Some(r) == spec_opcode_of(b),
    {
        match Opcode::from_byte(b) {
            Some(o) => o,
            None => Opcode::Error,
        }
    }

    /// The opcode with wire byte `b`, or nothing for an unknown byte.
    pub fn from_byte(b: u8) -> (r: Option<Opcode>)
        ensures
            r == spec_opcode_of(b),
    {
        match b {
            0x00 => Some(Opcode::Error),
            0x01 => Some(Opcode::Startup),
            0x02 => Some(Opcode::Ready),
            0x03 => Some(Opcode::Authenticate),
            0x05 => Some(Opcode::Options),
            0x06 => Some(Opcode::Supported),
            0x07 => Some(Opcode::Query),
            0x08 => Some(Opcode::Result),
            0x09 => Some(Opcode::Prepare),
            0x0A => Some(Opcode::Execute),
            0x0B => Some(Opcode::Register),
            0x0C => Some(Opcode::Event),
            0x0D => Some(Opcode::Batch),
            0x0E => Some(Opcode::AuthChallenge),
            0x0F => Some(Opcode::AuthResponse),
            0x10 => Some(Opcode::AuthSuccess),
            _ => None,
        }
    }
}

/// A stream id: non-negative ids tag client requests, negative ids tag
/// server-initiated events.
pub type StreamId = i16;

/// The id that follows `c` in allocation order: one more, or zero again
/// after the topmost id.
pub open spec fn next_stream_counter(c: int) -> int {
    if c == 0x7FFF {
        0
    } else {
        c + 1
    }
}

/// The counter value after `k` allocations starting from `start`.
pub open spec fn stream_counter_after(start: int, k: nat) -> int
    decreases k,
{
    if k == 0 {
        start
    } else {
        next_stream_counter(stream_counter_after(start, (k - 1) as nat))
    }
}

/// The source of request stream ids for one process: a counter that hands
/// out 0 through 32767 and then wraps back to zero.
#[derive(Debug)]
pub struct StreamIdAllocator {
    next: i16,
}

impl StreamIdAllocator {
    /// The next id this allocator will hand out.
    pub closed spec fn counter(&self) -> int {
        self.next as int
    }

    /// The counter stays inside the valid request id space.
    pub closed spec fn inv(&self) -> bool {
        0 <= self.next <= 0x7FFF
    }

    /// A fresh allocator, starting at id zero.
    pub fn new() -> (r: StreamIdAllocator)
        ensures
            r.inv(),
            r.counter() == 0,
    {
        StreamIdAllocator { next: 0 }
    }
}

/// Hands out the next request stream id: the current counter value,
/// always in `[0, 32767]`; after 32767 the next returned id is 0 again.
pub fn get_next_stream_id(alloc: &mut StreamIdAllocator) -> (r: StreamId)
    requires
        old(alloc).inv(),
    ensures
        final(alloc).inv(),
        r as int == old(alloc).counter(),
        0 <= r <= 0x7FFF,
        final(alloc).counter() == next_stream_counter(old(alloc).counter()),
{
    let r = alloc.next;
    if alloc.next == 0x7FFF {
        alloc.next = 0;
    } else {
        alloc.next = alloc.next + 1;
    }
    r
}

/// After `k` allocations from a valid start, the counter is the start
/// advanced by `k`, modulo the 32768 valid ids.
pub proof fn lemma_stream_counter_mod(start: int, k: nat)
    requires
        0 <= start < 0x8000,
    ensures
        stream_counter_after(start, k) == (start + k) % 0x8000,
    decreases k,
{
    if k == 0 {
        vstd::arithmetic::div_mod::lemma_small_mod(start as nat, 0x8000);
    } else {
        lemma_stream_counter_mod(start, (k - 1) as nat);
        let prev = stream_counter_after(start, (k - 1) as nat);
        vstd::arithmetic::div_mod::lemma_mod_bound(start + k - 1, 0x8000);
        if prev == 0x7FFF {
            assert((start + k) % 0x8000 == 0) by {
                vstd::arithmetic::div_mod::lemma_add_mod_noop(start + k - 1, 1, 0x8000);
                vstd::arithmetic::div_mod::lemma_small_mod(1nat, 0x8000);
                vstd::arithmetic::div_mod::lemma_mod_self_0(0x8000);
            }
        } else {
            assert((start + k) % 0x8000 == prev + 1) by {
                vstd::arithmetic::div_mod::lemma_add_mod_noop(start + k - 1, 1, 0x8000);
                vstd::arithmetic::div_mod::lemma_small_mod(1nat, 0x8000);
                vstd::arithmetic::div_mod::lemma_small_mod((prev + 1) as nat, 0x8000);
            }
        }
    }
}

/// Distinctness of allocated stream ids: among any run of at most 32768
/// successive allocations, no id repeats, and every id is a valid request
/// id in `[0, 32767]`.
pub proof fn lemma_stream_ids_distinct(start: int, i: nat, j: nat)
    requires
        0 <= start < 0x8000,
        i < j,
        j < 0x8000,
    ensures
        0 <= stream_counter_after(start, i) < 0x8000,
        stream_counter_after(start, i) != stream_counter_after(start, j),
{
    lemma_stream_counter_mod(start, i);
    lemma_stream_counter_mod(start, j);
    vstd::arithmetic::div_mod::lemma_mod_bound(start + i, 0x8000);
    vstd::arithmetic::div_mod::lemma_mod_bound(start + j, 0x8000);
    if (start + i) % 0x8000 == (start + j) % 0x8000 {
        vstd::arithmetic::div_mod::lemma_fundamental_div_mod(start + i, 0x8000);
        vstd::arithmetic::div_mod::lemma_fundamental_div_mod(start + j, 0x8000);
        let qi = (start + i) / 0x8000;
        let qj = (start + j) / 0x8000;
        assert(j - i == 0x8000 * (qj - qi));
        assert(qj - qi >= 1 ==> 0x8000 * (qj - qi) >= 0x8000) by (nonlinear_arith);
        assert(qj - qi <= 0 ==> 0x8000 * (qj - qi) <= 0) by (nonlinear_arith);
        assert(false);
    }
}

/// The protocol's `[uuid]`: sixteen raw bytes.
#[derive(Debug, Clone, PartialEq, Eq)]
pub struct CUuid {
    /// The sixteen raw bytes of the id.
    pub bytes: Vec<u8>,
}

/// The mathematical content of a frame: every field as a plain value.
pub struct FrameView {
    pub version: Version,
    pub flags: Seq<Flag>,
    pub opcode: Opcode,
    pub stream: int,
    pub body: Seq<u8>,
    pub tracing_id: Option<Seq<u8>>,
    pub warnings: Seq<Seq<char>>,
}

/// A single protocol message: a nine-byte header and an opcode-specific
/// body, with the tracing id and warnings that a response may carry.
#[derive(Debug)]
pub struct Frame {
    pub version: Version,
    pub flags: Vec<Flag>,
    pub opcode: Opcode,
    pub stream: StreamId,
    pub body: Vec<u8>,
    pub tracing_id: Option<CUuid>,
    pub warnings: Vec<String>,
}

impl View for Frame {
    type V = FrameView;

    open spec fn view(&self) -> FrameView {
        FrameView {
            version: self.version,
            flags: self.flags@,
            opcode: self.opcode,
            stream: self.stream as int,
            body: self.body@,
            tracing_id: match self.tracing_id {
                Some(ref u) => Some(u.bytes@),
                None => None,
            },
            warnings: Seq::new(self.warnings@.len(), |i: int| self.warnings@[i]@),
        }
    }
}

/// The body as laid on the wire: a response's tracing id and warning list
/// come first when their flags are set, then the opcode-specific bytes.
pub open spec fn frame_payload(f: FrameView) -> Seq<u8> {
    (if f.version == Version::Response && spec_flags_byte(f.flags) & 0x02 != 0 {
        f.tracing_id->0
    } else {
        seq![]
    }) + (if f.version == Version::Response && spec_flags_byte(f.flags) & 0x08 != 0 {
        be_bytes(f.warnings.len(), 2) + cstring_list_bytes(f.warnings)
    } else {
        seq![]
    }) + f.body
}

/// The full wire form of a frame: version, flag byte, stream id, opcode,
/// payload length, payload.
pub open spec fn frame_bytes(f: FrameView, p: ProtocolVersion) -> Seq<u8> {
    seq![version_byte(f.version, p), spec_flags_byte(f.flags)] + be_ibytes(f.stream, 2) + seq![
        opcode_byte(f.opcode),
    ] + be_bytes(frame_payload(f).len(), 4) + frame_payload(f)
}

/// A frame this codec can put on the wire and read back: no compression
/// and no custom payload (undone nowhere here), a canonical flag list,
/// a stream id on sixteen bits with negative ids reserved for events,
/// and tracing/warning payloads exactly where the response flags say.
pub open spec fn frame_wf(f: FrameView) -> bool {
    &&& spec_flags_byte(f.flags) & 0x01 == 0
    &&& spec_flags_byte(f.flags) & 0x04 == 0
    &&& f.flags == spec_flag_collection(spec_flags_byte(f.flags))
    &&& i_fits(f.stream, 2)
    &&& (f.stream < 0 ==> f.opcode == Opcode::Event)
    &&& (f.version == Version::Response ==> (f.tracing_id is Some <==> spec_flags_byte(f.flags)
        & 0x02 != 0))
    &&& (f.tracing_id matches Some(u) ==> u.len() == 16)
    &&& (f.version == Version::Request ==> f.tracing_id is None && f.warnings.len() == 0)
    &&& (f.version == Version::Response && spec_flags_byte(f.flags) & 0x08 == 0
        ==> f.warnings.len() == 0)
    &&& f.warnings.len() <= u16::MAX
    &&& (forall|i: int| 0 <= i < f.warnings.len() ==> vstd::utf8::encode_utf8(
        #[trigger] f.warnings[i],
    ).len() <= u16::MAX)
    &&& frame_payload(f).len() <= u32::MAX
}

/// Parses the sections of a frame payload that the flag byte announces:
/// the tracing id, the warnings, and the remaining opcode-specific body.
pub open spec fn spec_parse_payload(version: Version, fb: u8, payload: Seq<u8>) -> Option<
    (Option<Seq<u8>>, Seq<Seq<char>>, Seq<u8>),
> {
    let with_tracing = version == Version::Response && fb & 0x02 != 0;
    let with_warnings = version == Version::Response && fb & 0x08 != 0;
    if with_tracing && payload.len() < 16 {
        None
    } else {
        let tracing = if with_tracing {
            Some(payload.subrange(0, 16))
        } else {
            None
        };
        let p1: int = if with_tracing {
            16
        } else {
            0
        };
        if with_warnings {
            match spec_parse_cstring_list(payload, p1) {
                Some((ws, p2)) => Some((tracing, ws, payload.subrange(p2, payload.len() as int))),
                None => None,
            }
        } else {
            Some((tracing, seq![], payload.subrange(p1, payload.len() as int)))
        }
    }
}

/// Parses one whole frame: header, announced sections, body. `None` is a
/// decode failure; the exact reasons are named by the executable parser.
pub open spec fn spec_parse_frame(bytes: Seq<u8>, p: ProtocolVersion) -> Option<FrameView> {
    if bytes.len() < 9 {
        None
    } else {
        let vb = bytes[0];
        let fb = bytes[1];
        let ob = bytes[4];
        let stream = be_ival(bytes.subrange(2, 4));
        let blen = be_val(bytes.subrange(5, 9)) as int;
        if vb != version_byte(Version::Request, p) && vb != version_byte(Version::Response, p) {
            None
        } else {
            let version = if vb == version_byte(Version::Request, p) {
                Version::Request
            } else {
                Version::Response
            };
            if fb & 0x01 != 0 || fb & 0x04 != 0 {
                None
            } else if spec_opcode_of(ob) is None {
                None
            } else if stream < 0 && spec_opcode_of(ob) != Some(Opcode::Event) {
                None
            } else if bytes.len() != 9 + blen {
                None
            } else {
                let payload = bytes.subrange(9, 9 + blen);
                match spec_parse_payload(version, fb, payload) {
                    Some((tracing, ws, body)) => Some(
                        FrameView {
                            version: version,
                            flags: spec_flag_collection(fb),
                            opcode: spec_opcode_of(ob)->0,
                            stream: stream,
                            body: body,
                            tracing_id: tracing,
                            warnings: ws,
                        },
                    ),
                    None => None,
                }
            }
        }
    }
}

impl Frame {
    /// Builds a request frame, stamping it with the next stream id from
    /// the process-wide allocator.
    pub fn new(
        version: Version,
        flags: Vec<Flag>,
        opcode: Opcode,
        body: Vec<u8>,
        tracing_id: Option<CUuid>,
        warnings: Vec<String>,
        alloc: &mut StreamIdAllocator,
    ) -> (r: Frame)
        requires
            old(alloc).inv(),
        ensures
            final(alloc).inv(),
            final(alloc).counter() == next_stream_counter(old(alloc).counter()),
            r@ == (FrameView {
                version: version,
                flags: flags@,
                opcode: opcode,
                stream: old(alloc).counter(),
                body: body@,
                tracing_id: match tracing_id {
                    Some(u) => Some(u.bytes@),
                    None => None,
                },
                warnings: Seq::new(warnings@.len(), |i: int| warnings@[i]@),
            }),
    {
        let stream = get_next_stream_id(alloc);
        Frame { version, flags, opcode, stream, body, tracing_id, warnings }
    }

    /// The tracing id carried by this frame, if any.
    pub fn tracing_id(&self) -> (r: &Option<CUuid>)
        ensures
            r == self.tracing_id,
    {
        &self.tracing_id
    }

    /// The warnings carried by this frame.
    pub fn warnings(&self) -> (r: &Vec<String>)
        ensures
            r == self.warnings,
    {
        &self.warnings
    }

    /// Writes the whole frame as it goes on the wire.
    pub fn as_bytes(&self, p: ProtocolVersion) -> (r: Vec<u8>)
        requires
            frame_wf(self@),
        ensures
            r@ == frame_bytes(self@, p),
    {
        let fb = Flag::many_to_cbytes(self.flags.as_slice());
        let mut payload: Vec<u8> = Vec::new();
        proof {
            assert(payload@ =~= Seq::<u8>::empty());
        }
        if self.version == Version::Response && Flag::has_tracing(fb) {
            match self.tracing_id {
                Some(ref u) => {
                    payload.extend_from_slice(u.bytes.as_slice());
                    proof {
                        assert(payload@ =~= self@.tracing_id->0);
                    }
                },
                None => {
                    proof {
                        assert(false);
                    }
                },
            }
        }
        let ghost tpart = payload@;
        if self.version == Version::Response && Flag::has_warning(fb) {
            let n = self.warnings.len();
            let mut wpart = to_u_short(n as u16);
            let mut i: usize = 0;
            proof {
                assert(cstring_list_bytes(self@.warnings.subrange(0, 0)) =~= Seq::<u8>::empty());
                assert(wpart@ + cstring_list_bytes(self@.warnings.subrange(0, 0)) =~= wpart@);
            }
            while i < n
                invariant
                    i <= n,
                    n == self.warnings@.len(),
                    n <= u16::MAX,
                    self@.warnings.len() == n,
                    forall|k: int| 0 <= k < self@.warnings.len() ==> vstd::utf8::encode_utf8(
                        #[trigger] self@.warnings[k],
                    ).len() <= u16::MAX,
                    wpart@ == be_bytes(n as nat, 2) + cstring_list_bytes(
                        self@.warnings.subrange(0, i as int),
                    ),
                decreases n - i,
            {
                proof {
                    assert(self@.warnings[i as int] == self.warnings@[i as int]@);
                }
                let w = CString::new(self.warnings[i].clone());
                let mut piece = w.as_bytes();
                proof {
                    let pre = self@.warnings.subrange(0, i as int);
                    let ext = self@.warnings.subrange(0, i + 1);
                    assert(ext.drop_last() =~= pre);
                    assert(ext.last() == self@.warnings[i as int]);
                    assert((be_bytes(n as nat, 2) + cstring_list_bytes(pre)) + cstring_bytes(
                        self@.warnings[i as int],
                    ) =~= be_bytes(n as nat, 2) + cstring_list_bytes(ext));
                }
                wpart.append(&mut piece);
                i = i + 1;
            }
            proof {
                assert(self@.warnings.subrange(0, n as int) =~= self@.warnings);
            }
            payload.append(&mut wpart);
            proof {
                assert(payload@ == tpart + (be_bytes(self@.warnings.len(), 2)
                    + cstring_list_bytes(self@.warnings)));
            }
        }
        payload.extend_from_slice(self.body.as_slice());
        proof {
            assert(payload@ =~= frame_payload(self@));
        }
        let mut v: Vec<u8> = Vec::new();
        v.push(self.version.as_byte(p));
        v.push(fb);
        let mut stream_bytes = i_to_n_bytes(self.stream as i64, 2);
        v.append(&mut stream_bytes);
        v.push(self.opcode.as_byte());
        proof {
            crate::types::lemma_pow256_8();
        }
        let mut len_bytes = to_n_bytes(payload.len() as u64, 4);
        v.append(&mut len_bytes);
        v.extend_from_slice(payload.as_slice());
        proof {
            assert(v@ =~= frame_bytes(self@, p));
        }
        v
    }

    /// Reads one whole frame off `bytes`, which must hold exactly one
    /// frame: header, announced sections, body. Each rejected input names
    /// its reason.
    pub fn parse(bytes: &[u8], p: ProtocolVersion) -> (r: Result<Frame, DecodeError>)
        ensures
            r matches Ok(f) ==> spec_parse_frame(bytes@, p) == Some(f@) && frame_wf(f@) == frame_wf(
                f@,
            ),
            r is Err ==> spec_parse_frame(bytes@, p) is None,
    {
        let blen_total = bytes.len();
        if blen_total < 9 {
            return Err(DecodeError::UnexpectedEnd);
        }
        let vb = bytes[0];
        let fb = bytes[1];
        let ob = bytes[4];
        let version = match Version::from_byte(vb, p) {
            Some(v) => v,
            None => {
                return Err(DecodeError::UnknownVersion);
            },
        };
        proof {
            assert(version_byte(Version::Request, p) != version_byte(Version::Response, p));
        }
        if Flag::has_compression(fb) || Flag::has_custom_payload(fb) {
            return Err(DecodeError::UnsupportedFlag);
        }
        let opcode = match Opcode::from_byte(ob) {
            Some(o) => o,
            None => {
                return Err(DecodeError::UnknownOpcode);
            },
        };
        let mut hpos: usize = 2;
        let stream_v = match cursor_next_value(bytes, &mut hpos, 2) {
            Some(v) => v,
            None => {
                return Err(DecodeError::UnexpectedEnd);
            },
        };
        proof {
            assert(stream_v@.subrange(0, 2) =~= stream_v@);
        }
        let stream = from_i16_bytes(stream_v.as_slice());
        if stream < 0 && !matches!(opcode, Opcode::Event) {
            return Err(DecodeError::UnexpectedEventOpcode);
        }
        let mut lpos: usize = 5;
        let len_v = match cursor_next_value(bytes, &mut lpos, 4) {
            Some(v) => v,
            None => {
                return Err(DecodeError::UnexpectedEnd);
            },
        };
        proof {
            assert(len_v@.subrange(0, len_v@.len() as int) =~= len_v@);
        }
        let blen = crate::types::from_bytes(len_v.as_slice());
        if (blen_total - 9) as u64 != blen {
            return Err(DecodeError::UnexpectedEnd);
        }
        let mut ppos: usize = 9;
        let payload = match cursor_next_value(bytes, &mut ppos, blen_total - 9) {
            Some(v) => v,
            None => {
                return Err(DecodeError::UnexpectedEnd);
            },
        };
        let ghost pseq = bytes@.subrange(9, 9 + blen as int);
        proof {
            assert(payload@ == pseq);
        }
        let with_tracing = matches!(version, Version::Response) && Flag::has_tracing(fb);
        let with_warnings = matches!(version, Version::Response) && Flag::has_warning(fb);
        let mut wpos: usize = 0;
        let tracing_id: Option<CUuid> = if with_tracing {
            match cursor_next_value(payload.as_slice(), &mut wpos, 16) {
                Some(u) => Some(CUuid { bytes: u }),
                None => {
                    return Err(DecodeError::UnexpectedEnd);
                },
            }
        } else {
            None
        };
        let warnings: Vec<String> = if with_warnings {
            match crate::types::CStringList::from_cursor(payload.as_slice(), &mut wpos) {
                Ok(ws) => ws.into_plain(),
                Err(e) => {
                    return Err(e);
                },
            }
        } else {
            Vec::new()
        };
        let plen = payload.len();
        proof {
            crate::types::lemma_parse_cstring_list_pos(payload@, if with_tracing { 16int } else { 0int });
            assert(wpos <= plen);
        }
        let remaining = if plen >= wpos {
            plen - wpos
        } else {
            0
        };
        let body = match cursor_next_value(payload.as_slice(), &mut wpos, remaining) {
            Some(b) => b,
            None => {
                return Err(DecodeError::UnexpectedEnd);
            },
        };
        let flags = Flag::get_collection(fb);
        let f = Frame { version, flags, opcode, stream, body, tracing_id, warnings };
        proof {
            let sp = spec_parse_payload(version, fb, pseq);
            assert(sp matches Some((t, w, b)) && t == f@.tracing_id && w == f@.warnings && b
                == f@.body) by {
                if with_warnings {
                } else {
                    assert(f@.warnings =~= Seq::<Seq<char>>::empty());
                }
            }
            assert(spec_parse_frame(bytes@, p) == Some(f@));
        }
        Ok(f)
    }
}

/// Round trip of the frame codec: every well-formed frame, written and
/// read back under the same protocol generation, comes back equal (its
/// stream id included; the id is assigned before encoding).
pub proof fn lemma_frame_round_trip(f: FrameView, p: ProtocolVersion)
    requires
        frame_wf(f),
    ensures
        spec_parse_frame(frame_bytes(f, p), p) == Some(f),
{
    let bytes = frame_bytes(f, p);
    let payload = frame_payload(f);
    let fb = spec_flags_byte(f.flags);
    let header = seq![version_byte(f.version, p), fb] + be_ibytes(f.stream, 2) + seq![
        opcode_byte(f.opcode),
    ] + be_bytes(payload.len(), 4);
    assert(bytes =~= header + payload);
    lemma_pow256_8();
    lemma_be_ibytes_ival(f.stream, 2);
    crate::types::lemma_be_bytes_len(payload.len(), 4);
    crate::types::lemma_be_bytes_val(payload.len(), 4);
    vstd::arithmetic::div_mod::lemma_small_mod(payload.len(), crate::types::pow256(4));
    assert(bytes.len() == 9 + payload.len());
    assert(bytes[0] == version_byte(f.version, p));
    assert(bytes[1] == fb);
    assert(bytes[4] == opcode_byte(f.opcode));
    assert(bytes.subrange(2, 4) =~= be_ibytes(f.stream, 2));
    assert(bytes.subrange(5, 9) =~= be_bytes(payload.len(), 4));
    assert(version_byte(Version::Request, p) != version_byte(Version::Response, p));
    assert(bytes.subrange(9, 9 + payload.len() as int) =~= payload);
    let with_tracing = f.version == Version::Response && fb & 0x02 != 0;
    let with_warnings = f.version == Version::Response && fb & 0x08 != 0;
    let tpart: Seq<u8> = if with_tracing {
        f.tracing_id->0
    } else {
        seq![]
    };
    let wpart: Seq<u8> = if with_warnings {
        be_bytes(f.warnings.len(), 2) + cstring_list_bytes(f.warnings)
    } else {
        seq![]
    };
    assert(payload =~= tpart + wpart + f.body);
    let p1: int = if with_tracing {
        16
    } else {
        0
    };
    if with_tracing {
        assert(payload.subrange(0, 16) =~= f.tracing_id->0);
    }
    if with_warnings {
        crate::types::lemma_be_bytes_len(f.warnings.len(), 2);
        crate::types::lemma_be_bytes_val(f.warnings.len(), 2);
        vstd::arithmetic::div_mod::lemma_small_mod(f.warnings.len(), crate::types::pow256(2));
        assert(payload.subrange(p1, p1 + 2) =~= be_bytes(f.warnings.len(), 2));
        let clb = cstring_list_bytes(f.warnings);
        assert(payload.subrange(p1 + 2, p1 + 2 + clb.len() as int) =~= clb);
        crate::types::lemma_cstrings_parse_encoding(payload, p1 + 2, f.warnings);
        let p2 = p1 + 2 + clb.len() as int;
        assert(spec_parse_cstring_list(payload, p1) == Some((f.warnings, p2)));
        assert(payload.subrange(p2, payload.len() as int) =~= f.body);
    } else {
        assert(payload.subrange(p1, payload.len() as int) =~= f.body);
    }
    let parsed = spec_parse_frame(bytes, p);
    assert(parsed matches Some(g) && g == f) by {
        assert(spec_parse_payload(f.version, fb, payload) == Some(
            (f.tracing_id, f.warnings, f.body),
        )) by {
            if f.version == Version::Request {
                assert(f.warnings =~= Seq::<Seq<char>>::empty());
            } else if !with_warnings {
                assert(f.warnings =~= Seq::<Seq<char>>::empty());
            }
            if !with_tracing {
                if f.version == Version::Response {
                    assert(f.tracing_id is None);
                }
            }
        }
    }
}

impl Frame {
    /// Encodes a request frame, checking at run time everything its
    /// contract needs: request direction, no tracing or warning payload,
    /// a canonical flag list without compression or custom payload, a
    /// non-negative stream id (negative ids are reserved for events),
    /// and a body that fits the four-byte length. `None` means the frame
    /// violates one of these and must not be sent.
    pub fn as_bytes_request(&self, p: ProtocolVersion) -> (r: Option<Vec<u8>>)
        ensures
            r matches Some(v) ==> frame_wf(self@) && v@ == frame_bytes(self@, p),
    {
        if !matches!(self.version, Version::Request) {
            return None;
        }
        if self.tracing_id.is_some() {
            return None;
        }
        if self.warnings.len() != 0 {
            return None;
        }
        if self.stream < 0 && !matches!(self.opcode, Opcode::Event) {
            return None;
        }
        if (self.body.len() as u64) > 0xFFFF_FFFF {
            return None;
        }
        let fb = Flag::many_to_cbytes(self.flags.as_slice());
        if Flag::has_compression(fb) || Flag::has_custom_payload(fb) {
            return None;
        }
        let canon = Flag::get_collection(fb);
        if canon.len() != self.flags.len() {
            return None;
        }
        let n = canon.len();
        let mut i: usize = 0;
        while i < n
            invariant
                i <= n,
                n == canon@.len(),
                n == self.flags@.len(),
                canon@ == spec_flag_collection(spec_flags_byte(self.flags@)),
                forall|k: int| 0 <= k < i ==> canon@[k] == self.flags@[k],
            decreases n - i,
        {
            let a = canon[i];
            let b = self.flags[i];
            let same = match (a, b) {
                (Flag::Compression, Flag::Compression) => true,
                (Flag::Tracing, Flag::Tracing) => true,
                (Flag::CustomPayload, Flag::CustomPayload) => true,
                (Flag::Warning, Flag::Warning) => true,
                (Flag::Ignore, Flag::Ignore) => true,
                _ => false,
            };
            if !same {
                return None;
            }
            i = i + 1;
        }
        proof {
            assert(self.flags@ =~= spec_flag_collection(spec_flags_byte(self.flags@)));
            assert(self@.warnings =~= Seq::<Seq<char>>::empty());
            assert(frame_payload(self@) =~= self@.body);
            lemma_pow256_8();
            assert(i_fits(self@.stream, 2));
            assert(frame_wf(self@));
        }
        Some(self.as_bytes(p))
    }
}

} // verus!
