//! Protocol v1: frame encoding and decoding, chunk payloads, and the session
//! state machine that decides which messages a connection may carry next.
//!
//! A frame is a kind byte, the payload length as a big-endian `u32`, and the
//! payload.  Control payloads are JSON text, which the application layer
//! parses; chunk payloads carry two 16-byte UUIDs, an offset, a length, the
//! BLAKE3 digest of the data, and the data.
use crate::bytes::{be_u32, be_u64, push_be_u32, push_be_u64, push_bytes, read_be_u32, read_be_u64, u32_of_be, u64_of_be, copy_range, lemma_u32_round_trip, lemma_u64_round_trip, bytes_equal};
use crate::crypto::{blake3_digest, blake3_hash};
use vstd::prelude::*;

verus! {

pub const PROTOCOL_VERSION: u16 = 1;
pub const ALPN: &'static str = "fileporter/1";
pub const FRAME_HEADER_LEN: usize = 5;
pub const MAX_CONTROL_PAYLOAD: usize = 1048576;
pub const MAX_CHUNK_DATA: usize = 1048576;
pub const CHUNK_FIXED_LEN: usize = 76;
pub const MAX_CHUNK_PAYLOAD: usize = 1048652;
pub const CONTROL_KIND: u8 = 1;
pub const CHUNK_KIND: u8 = 2;

/// `b"FILEPORTER\0"` followed by the protocol version as a big-endian `u16`.
pub open spec fn protocol_preface() -> Seq<u8> {
    seq![70u8, 73, 76, 69, 80, 79, 82, 84, 69, 82, 0, 0, 1]
}

/// The 13-byte preface both peers send first.
pub fn protocol_preface_bytes() -> (v: Vec<u8>)
    ensures
        v@ == protocol_preface(),
{
    let v = vec![70u8, 73, 76, 69, 80, 79, 82, 84, 69, 82, 0, 0, 1];
    assert(v@ =~= protocol_preface());
    v
}

#[derive(Debug, Clone, PartialEq, Eq)]
pub enum ProtocolError {
    UnsupportedVersion(u16),
    TruncatedFrame,
    OversizedFrame { actual: usize, limit: usize },
    UnknownFrameKind(u8),
    InvalidControl(String),
    InvalidChunk,
    OversizedChunk { actual: usize, limit: usize },
    ChunkHashMismatch,
    InvalidState { message: &'static str, phase: SessionPhase },
}

#[derive(Debug, Clone, PartialEq, Eq)]
pub struct Chunk {
    pub batch_id: [u8; 16],
    pub entry_id: [u8; 16],
    pub offset: u64,
    pub data: Vec<u8>,
}

/// A chunk as plain values.
pub struct ChunkView {
    pub batch_id: Seq<u8>,
    pub entry_id: Seq<u8>,
    pub offset: u64,
    pub data: Seq<u8>,
}

impl View for Chunk {
    type V = ChunkView;

    open spec fn view(&self) -> ChunkView {
        ChunkView { batch_id: self.batch_id@, entry_id: self.entry_id@, offset: self.offset, data: self.data@ }
    }
}

impl Chunk {
    /// The BLAKE3 digest of the chunk's data.
    pub fn hash(&self) -> (digest: [u8; 32])
        ensures
            digest@ == blake3_digest(self.data@),
    {
        blake3_hash(self.data.as_slice())
    }
}

/// A frame as it travels: a control payload (JSON text) or a chunk.
#[derive(Debug, Clone, PartialEq, Eq)]
pub enum WireFrame {
    Control(Vec<u8>),
    Chunk(Chunk),
}

pub enum WireFrameView {
    Control(Seq<u8>),
    Chunk(ChunkView),
}

impl View for WireFrame {
    type V = WireFrameView;

    open spec fn view(&self) -> WireFrameView {
        match self {
            WireFrame::Control(payload) => WireFrameView::Control(payload@),
            WireFrame::Chunk(chunk) => WireFrameView::Chunk(chunk@),
        }
    }
}

/// The bytes of a frame of `kind` carrying `payload`.
pub open spec fn frame_bytes(kind: u8, payload: Seq<u8>) -> Seq<u8> {
    seq![kind] + be_u32(payload.len() as u32) + payload
}

/// The payload of a chunk frame.
pub open spec fn chunk_payload(c: ChunkView) -> Seq<u8> {
    c.batch_id + c.entry_id + be_u64(c.offset) + be_u32(c.data.len() as u32) + blake3_digest(c.data)
        + c.data
}

/// The payload limit for a frame kind, if the kind is known.
pub open spec fn payload_limit(kind: u8) -> Option<usize> {
    if kind == CONTROL_KIND {
        Some(MAX_CONTROL_PAYLOAD)
    } else if kind == CHUNK_KIND {
        Some(MAX_CHUNK_PAYLOAD)
    } else {
        None
    }
}

/// What `frame_len` reports for the bytes received so far.
pub open spec fn frame_len_result(input: Seq<u8>) -> Result<usize, ProtocolError> {
    if input.len() < FRAME_HEADER_LEN {
        Err(ProtocolError::TruncatedFrame)
    } else {
        let declared = u32_of_be(input.subrange(1, 5)) as usize;
        match payload_limit(input[0]) {
            None => Err(ProtocolError::UnknownFrameKind(input[0])),
            Some(limit) => if declared > limit {
                Err(ProtocolError::OversizedFrame { actual: declared, limit })
            } else {
                Ok((FRAME_HEADER_LEN + declared) as usize)
            },
        }
    }
}

/// Returns the full frame length when the header is available.
pub fn frame_len(input: &[u8]) -> (result: Result<usize, ProtocolError>)
    ensures
        result == frame_len_result(input@),
{
    if input.len() < FRAME_HEADER_LEN {
        return Err(ProtocolError::TruncatedFrame);
    }
    let declared = read_be_u32(input, 1) as usize;
    let limit = if input[0] == CONTROL_KIND {
        MAX_CONTROL_PAYLOAD
    } else if input[0] == CHUNK_KIND {
        MAX_CHUNK_PAYLOAD
    } else {
        return Err(ProtocolError::UnknownFrameKind(input[0]));
    };
    if declared > limit {
        return Err(ProtocolError::OversizedFrame { actual: declared, limit });
    }
    Ok(FRAME_HEADER_LEN + declared)
}

/// A frame of `kind` around `payload`; refused when the length does not fit a `u32`.
pub fn encode_raw(kind: u8, payload: &[u8]) -> (result: Result<Vec<u8>, ProtocolError>)
    ensures
        match result {
            Ok(frame) => payload@.len() <= u32::MAX && frame@ == frame_bytes(kind, payload@),
            Err(e) => payload@.len() > u32::MAX && e == ProtocolError::OversizedFrame {
                actual: payload@.len() as usize,
                limit: u32::MAX as usize,
            },
        },
{
    if payload.len() > 0xffff_ffffusize {
        return Err(ProtocolError::OversizedFrame { actual: payload.len(), limit: 0xffff_ffffusize });
    }
    let mut frame: Vec<u8> = Vec::new();
    frame.push(kind);
    push_be_u32(&mut frame, payload.len() as u32);
    push_bytes(&mut frame, payload);
    assert(frame@ =~= frame_bytes(kind, payload@));
    Ok(frame)
}

/// Frames an already serialized control message.
pub fn encode_control(payload: &[u8]) -> (result: Result<Vec<u8>, ProtocolError>)
    ensures
        match result {
            Ok(frame) => payload@.len() <= MAX_CONTROL_PAYLOAD && frame@ == frame_bytes(CONTROL_KIND, payload@),
            Err(e) => payload@.len() > MAX_CONTROL_PAYLOAD && e == ProtocolError::OversizedFrame {
                actual: payload@.len() as usize,
                limit: MAX_CONTROL_PAYLOAD,
            },
        },
{
    if payload.len() > MAX_CONTROL_PAYLOAD {
        return Err(ProtocolError::OversizedFrame { actual: payload.len(), limit: MAX_CONTROL_PAYLOAD });
    }
    encode_raw(CONTROL_KIND, payload)
}

/// Frames a chunk, hashing its data.
pub fn encode_chunk(chunk: &Chunk) -> (result: Result<Vec<u8>, ProtocolError>)
    ensures
        match result {
            Ok(frame) => chunk.data@.len() <= MAX_CHUNK_DATA && frame@ == frame_bytes(CHUNK_KIND, chunk_payload(chunk@)),
            Err(e) => chunk.data@.len() > MAX_CHUNK_DATA && e == ProtocolError::OversizedChunk {
                actual: chunk.data@.len() as usize,
                limit: MAX_CHUNK_DATA,
            },
        },
{
    if chunk.data.len() > MAX_CHUNK_DATA {
        return Err(ProtocolError::OversizedChunk { actual: chunk.data.len(), limit: MAX_CHUNK_DATA });
    }
    let mut payload: Vec<u8> = Vec::new();
    push_bytes(&mut payload, &chunk.batch_id);
    push_bytes(&mut payload, &chunk.entry_id);
    push_be_u64(&mut payload, chunk.offset);
    push_be_u32(&mut payload, chunk.data.len() as u32);
    let digest = chunk.hash();
    push_bytes(&mut payload, &digest);
    push_bytes(&mut payload, chunk.data.as_slice());
    assert(payload@ =~= chunk_payload(chunk@));
    encode_raw(CHUNK_KIND, payload.as_slice())
}

/// What `decode_chunk` reports for a chunk payload.
pub open spec fn decode_chunk_result(payload: Seq<u8>) -> Result<ChunkView, ProtocolError> {
    if payload.len() < CHUNK_FIXED_LEN {
        Err(ProtocolError::InvalidChunk)
    } else {
        let declared = u32_of_be(payload.subrange(40, 44)) as usize;
        if declared > MAX_CHUNK_DATA {
            Err(ProtocolError::OversizedChunk { actual: declared, limit: MAX_CHUNK_DATA })
        } else if payload.len() != CHUNK_FIXED_LEN + declared {
            Err(ProtocolError::InvalidChunk)
        } else {
            let data = payload.subrange(CHUNK_FIXED_LEN as int, payload.len() as int);
            if blake3_digest(data) != payload.subrange(44, 76) {
                Err(ProtocolError::ChunkHashMismatch)
            } else {
                Ok(
                    ChunkView {
                        batch_id: payload.subrange(0, 16),
                        entry_id: payload.subrange(16, 32),
                        offset: u64_of_be(payload.subrange(32, 40)),
                        data,
                    },
                )
            }
        }
    }
}

/// What `decode_frame` reports for one complete frame.
pub open spec fn decode_frame_result(input: Seq<u8>) -> Result<WireFrameView, ProtocolError> {
    match frame_len_result(input) {
        Err(e) => Err(e),
        Ok(expected) => if input.len() != expected {
            Err(ProtocolError::TruncatedFrame)
        } else {
            let payload = input.subrange(FRAME_HEADER_LEN as int, input.len() as int);
            if input[0] == CONTROL_KIND {
                Ok(WireFrameView::Control(payload))
            } else {
                match decode_chunk_result(payload) {
                    Ok(c) => Ok(WireFrameView::Chunk(c)),
                    Err(e) => Err(e),
                }
            }
        },
    }
}

/// Decodes one complete frame.  A control frame's payload is returned as
/// the JSON text it carries.
pub fn decode_frame(input: &[u8]) -> (result: Result<WireFrame, ProtocolError>)
    ensures
        match result {
            Ok(frame) => decode_frame_result(input@) == Ok::<WireFrameView, ProtocolError>(frame@),
            Err(e) => decode_frame_result(input@) == Err::<WireFrameView, ProtocolError>(e),
        },
{
    let expected = match frame_len(input) {
        Ok(n) => n,
        Err(e) => return Err(e),
    };
    if input.len() != expected {
        return Err(ProtocolError::TruncatedFrame);
    }
    let payload = copy_range(input, FRAME_HEADER_LEN, input.len());
    if input[0] == CONTROL_KIND {
        Ok(WireFrame::Control(payload))
    } else {
        match decode_chunk(payload.as_slice()) {
            Ok(chunk) => Ok(WireFrame::Chunk(chunk)),
            Err(e) => Err(e),
        }
    }
}

/// Decodes and checks a chunk payload.
pub fn decode_chunk(payload: &[u8]) -> (result: Result<Chunk, ProtocolError>)
    ensures
        match result {
            Ok(chunk) => decode_chunk_result(payload@) == Ok::<ChunkView, ProtocolError>(chunk@),
            Err(e) => decode_chunk_result(payload@) == Err::<ChunkView, ProtocolError>(e),
        },
{
    if payload.len() < CHUNK_FIXED_LEN {
        return Err(ProtocolError::InvalidChunk);
    }
    let declared = read_be_u32(payload, 40) as usize;
    if declared > MAX_CHUNK_DATA {
        return Err(ProtocolError::OversizedChunk { actual: declared, limit: MAX_CHUNK_DATA });
    }
    if payload.len() != CHUNK_FIXED_LEN + declared {
        return Err(ProtocolError::InvalidChunk);
    }
    let batch_id = uuid_at(payload, 0);
    let entry_id = uuid_at(payload, 16);
    let offset = read_be_u64(payload, 32);
    let expected_hash = copy_range(payload, 44, 76);
    let data = copy_range(payload, CHUNK_FIXED_LEN, payload.len());
    let digest = blake3_hash(data.as_slice());
    if !bytes_equal(&digest, expected_hash.as_slice()) {
        return Err(ProtocolError::ChunkHashMismatch);
    }
    let chunk = Chunk { batch_id, entry_id, offset, data };
    assert(chunk@.batch_id =~= payload@.subrange(0, 16));
    assert(chunk@.entry_id =~= payload@.subrange(16, 32));
    Ok(chunk)
}

/// The 16 bytes at `payload[at..at + 16]`.
fn uuid_at(payload: &[u8], at: usize) -> (id: [u8; 16])
    requires
        at + 16 <= payload@.len(),
    ensures
        id@ == payload@.subrange(at as int, at + 16),
{
    let mut id = [0u8; 16];
    let n = payload.len();
    let mut i: usize = 0;
    while i < 16
        invariant
            i <= 16,
            n == payload@.len(),
            at + 16 <= n,
            id@.len() == 16,
            forall|k: int| 0 <= k < i ==> id@[k] == payload@[at + k],
        decreases 16 - i,
    {
        id.set(i, payload[at + i]);
        i = i + 1;
    }
    assert(id@ =~= payload@.subrange(at as int, at + 16));
    id
}

/// A frame produced by `encode_chunk` announces its own length and decodes
/// back to the chunk it was made from.
pub proof fn lemma_chunk_round_trip(c: ChunkView)
    requires
        c.batch_id.len() == 16,
        c.entry_id.len() == 16,
        c.data.len() <= MAX_CHUNK_DATA,
        blake3_digest(c.data).len() == 32,
    ensures
        frame_len_result(frame_bytes(CHUNK_KIND, chunk_payload(c))) == Ok::<usize, ProtocolError>(
            frame_bytes(CHUNK_KIND, chunk_payload(c)).len() as usize,
        ),
        decode_frame_result(frame_bytes(CHUNK_KIND, chunk_payload(c))) == Ok::<WireFrameView, ProtocolError>(
            WireFrameView::Chunk(c),
        ),
{
    let p = chunk_payload(c);
    let f = frame_bytes(CHUNK_KIND, p);
    lemma_u32_round_trip(p.len() as u32);
    lemma_u32_round_trip(c.data.len() as u32);
    lemma_u64_round_trip(c.offset);
    assert(f.subrange(1, 5) =~= be_u32(p.len() as u32));
    assert(f.subrange(FRAME_HEADER_LEN as int, f.len() as int) =~= p);
    assert(p.subrange(40, 44) =~= be_u32(c.data.len() as u32));
    assert(p.subrange(0, 16) =~= c.batch_id);
    assert(p.subrange(16, 32) =~= c.entry_id);
    assert(p.subrange(32, 40) =~= be_u64(c.offset));
    assert(p.subrange(44, 76) =~= blake3_digest(c.data));
    assert(p.subrange(CHUNK_FIXED_LEN as int, p.len() as int) =~= c.data);
}

/// A control frame announces its own length and decodes back to its payload.
pub proof fn lemma_control_round_trip(payload: Seq<u8>)
    requires
        payload.len() <= MAX_CONTROL_PAYLOAD,
    ensures
        frame_len_result(frame_bytes(CONTROL_KIND, payload)) == Ok::<usize, ProtocolError>(
            frame_bytes(CONTROL_KIND, payload).len() as usize,
        ),
        decode_frame_result(frame_bytes(CONTROL_KIND, payload)) == Ok::<WireFrameView, ProtocolError>(
            WireFrameView::Control(payload),
        ),
{
    let f = frame_bytes(CONTROL_KIND, payload);
    lemma_u32_round_trip(payload.len() as u32);
    assert(f.subrange(1, 5) =~= be_u32(payload.len() as u32));
    assert(f.subrange(FRAME_HEADER_LEN as int, f.len() as int) =~= payload);
}

#[derive(Debug, Clone, PartialEq, Eq)]
pub struct Hello {
    pub protocol_min: u16,
    pub protocol_max: u16,
    pub device_id: String,
    pub display_name: String,
    pub session_nonce: String,
    pub capabilities: Vec<String>,
}

#[derive(Debug, Clone, PartialEq, Eq)]
pub struct Auth {
    pub transcript: String,
    pub signature: String,
}

#[derive(Debug, Clone, PartialEq, Eq)]
pub struct PairRequest {
    pub session_id: [u8; 16],
    pub device_name: String,
    pub nonce: String,
    pub expires_at: String,
}

#[derive(Debug, Clone, PartialEq, Eq)]
pub struct PairProof {
    pub session_id: [u8; 16],
    pub transcript_hash: String,
    pub signature: String,
}

#[derive(Debug, Clone, PartialEq, Eq)]
pub struct PairConfirmed {
    pub session_id: [u8; 16],
}

#[derive(Debug, Clone, PartialEq, Eq)]
pub struct PairRejected {
    pub session_id: [u8; 16],
    pub reason_code: String,
}

#[derive(Debug, Clone, PartialEq, Eq)]
pub struct TopLevelItem {
    pub entry_id: [u8; 16],
    pub name: String,
    pub kind: EntryKind,
    pub size: u64,
}

#[derive(Debug, Clone, Copy, PartialEq, Eq, Structural)]
pub enum EntryKind {
    File,
    Directory,
}

#[derive(Debug, Clone, PartialEq, Eq)]
pub struct OfferStart {
    pub batch_id: [u8; 16],
    pub items: Vec<TopLevelItem>,
    pub total_bytes: u64,
    pub total_entries: u64,
    pub created_at: String,
}

#[derive(Debug, Clone, PartialEq, Eq)]
pub struct ManifestEntry {
    pub entry_id: [u8; 16],
    pub parent_entry_id: Option<[u8; 16]>,
    pub kind: EntryKind,
    pub components: Vec<String>,
    pub size: u64,
    pub mtime: Option<String>,
}

#[derive(Debug, Clone, PartialEq, Eq)]
pub struct ManifestPage {
    pub batch_id: [u8; 16],
    pub page: u32,
    pub entries: Vec<ManifestEntry>,
    pub final_page: bool,
}

#[derive(Debug, Clone, PartialEq, Eq)]
pub struct OfferAccept {
    pub batch_id: [u8; 16],
    pub destination_generation: u64,
    pub resolved_top_level_names: Vec<String>,
    pub available_space_ok: bool,
    pub checkpoints: Vec<Checkpoint>,
}

#[derive(Debug, Clone, PartialEq, Eq)]
pub struct Checkpoint {
    pub entry_id: [u8; 16],
    pub durable_offset: u64,
}

#[derive(Debug, Clone, PartialEq, Eq)]
pub struct OfferReject {
    pub batch_id: [u8; 16],
    pub code: String,
    pub detail: String,
}

#[derive(Debug, Clone, PartialEq, Eq)]
pub struct ChunkAck {
    pub batch_id: [u8; 16],
    pub entry_id: [u8; 16],
    pub durable_offset: u64,
}

#[derive(Debug, Clone, PartialEq, Eq)]
pub struct EntryComplete {
    pub batch_id: [u8; 16],
    pub entry_id: [u8; 16],
    pub total_size: u64,
    pub blake3: String,
}

#[derive(Debug, Clone, PartialEq, Eq)]
pub struct EntryVerified {
    pub batch_id: [u8; 16],
    pub entry_id: [u8; 16],
    pub relative_destination: Vec<String>,
    pub blake3: String,
}

#[derive(Debug, Clone, PartialEq, Eq)]
pub struct BatchComplete {
    pub batch_id: [u8; 16],
}

#[derive(Debug, Clone, PartialEq, Eq)]
pub struct BatchReceipt {
    pub batch_id: [u8; 16],
    pub result: String,
}

#[derive(Debug, Clone, PartialEq, Eq)]
pub struct Pause {
    pub batch_id: [u8; 16],
    pub reason: String,
}

#[derive(Debug, Clone, PartialEq, Eq)]
pub struct ResumeQuery {
    pub batch_id: [u8; 16],
}

#[derive(Debug, Clone, PartialEq, Eq)]
pub struct Cancel {
    pub batch_id: [u8; 16],
    pub reason: String,
}

#[derive(Debug, Clone, PartialEq, Eq)]
pub struct Ping {
    pub nonce: String,
}

#[derive(Debug, Clone, PartialEq, Eq)]
pub struct Pong {
    pub nonce: String,
}

#[derive(Debug, Clone, PartialEq, Eq)]
pub struct WireError {
    pub code: String,
    pub retryable: bool,
    pub detail: String,
}

#[derive(Debug, Clone, PartialEq, Eq)]
pub enum ControlMessage {
    Hello(Hello),
    Auth(Auth),
    PairRequest(PairRequest),
    PairProof(PairProof),
    PairConfirmed(PairConfirmed),
    PairRejected(PairRejected),
    OfferStart(OfferStart),
    ManifestPage(ManifestPage),
    OfferAccept(OfferAccept),
    OfferReject(OfferReject),
    ChunkAck(ChunkAck),
    EntryComplete(EntryComplete),
    EntryVerified(EntryVerified),
    BatchComplete(BatchComplete),
    BatchReceipt(BatchReceipt),
    Pause(Pause),
    ResumeQuery(ResumeQuery),
    Cancel(Cancel),
    Ping(Ping),
    Pong(Pong),
    Error(WireError),
}

/// A decoded frame: a control message or a chunk.
#[derive(Debug, Clone, PartialEq, Eq)]
pub enum Frame {
    Control(ControlMessage),
    Chunk(Chunk),
}

/// The wire name of a control message (its JSON `type` tag).
pub open spec fn message_name(m: ControlMessage) -> &'static str {
    match m {
        ControlMessage::Hello(_) => "hello",
        ControlMessage::Auth(_) => "auth",
        ControlMessage::PairRequest(_) => "pair_request",
        ControlMessage::PairProof(_) => "pair_proof",
        ControlMessage::PairConfirmed(_) => "pair_confirmed",
        ControlMessage::PairRejected(_) => "pair_rejected",
        ControlMessage::OfferStart(_) => "offer_start",
        ControlMessage::ManifestPage(_) => "manifest_page",
        ControlMessage::OfferAccept(_) => "offer_accept",
        ControlMessage::OfferReject(_) => "offer_reject",
        ControlMessage::ChunkAck(_) => "chunk_ack",
        ControlMessage::EntryComplete(_) => "entry_complete",
        ControlMessage::EntryVerified(_) => "entry_verified",
        ControlMessage::BatchComplete(_) => "batch_complete",
        ControlMessage::BatchReceipt(_) => "batch_receipt",
        ControlMessage::Pause(_) => "pause",
        ControlMessage::ResumeQuery(_) => "resume_query",
        ControlMessage::Cancel(_) => "cancel",
        ControlMessage::Ping(_) => "ping",
        ControlMessage::Pong(_) => "pong",
        ControlMessage::Error(_) => "error",
    }
}

impl ControlMessage {
    pub fn name(&self) -> (name: &'static str)
        ensures
            name == message_name(*self),
    {
        match self {
            ControlMessage::Hello(_) => "hello",
            ControlMessage::Auth(_) => "auth",
            ControlMessage::PairRequest(_) => "pair_request",
            ControlMessage::PairProof(_) => "pair_proof",
            ControlMessage::PairConfirmed(_) => "pair_confirmed",
            ControlMessage::PairRejected(_) => "pair_rejected",
            ControlMessage::OfferStart(_) => "offer_start",
            ControlMessage::ManifestPage(_) => "manifest_page",
            ControlMessage::OfferAccept(_) => "offer_accept",
            ControlMessage::OfferReject(_) => "offer_reject",
            ControlMessage::ChunkAck(_) => "chunk_ack",
            ControlMessage::EntryComplete(_) => "entry_complete",
            ControlMessage::EntryVerified(_) => "entry_verified",
            ControlMessage::BatchComplete(_) => "batch_complete",
            ControlMessage::BatchReceipt(_) => "batch_receipt",
            ControlMessage::Pause(_) => "pause",
            ControlMessage::ResumeQuery(_) => "resume_query",
            ControlMessage::Cancel(_) => "cancel",
            ControlMessage::Ping(_) => "ping",
            ControlMessage::Pong(_) => "pong",
            ControlMessage::Error(_) => "error",
        }
    }
}

#[derive(Debug, Copy, Clone, PartialEq, Eq, Structural)]
pub enum SessionPhase {
    New,
    HelloExchanged,
    Authenticated,
    Pairing,
    Offering,
    OfferAccepted,
    Closed,
}

/// The text of each `SessionPhase`.
pub open spec fn session_phase_name(value: SessionPhase) -> &'static str {
    match value {
        SessionPhase::New => "New",
        SessionPhase::HelloExchanged => "HelloExchanged",
        SessionPhase::Authenticated => "Authenticated",
        SessionPhase::Pairing => "Pairing",
        SessionPhase::Offering => "Offering",
        SessionPhase::OfferAccepted => "OfferAccepted",
        SessionPhase::Closed => "Closed",
    }
}

impl SessionPhase {
    /// The phase's name, as `Display` renders it.
    pub fn name(&self) -> (name: &'static str)
        ensures
            name == session_phase_name(*self),
    {
        match self {
            SessionPhase::New => "New",
            SessionPhase::HelloExchanged => "HelloExchanged",
            SessionPhase::Authenticated => "Authenticated",
            SessionPhase::Pairing => "Pairing",
            SessionPhase::Offering => "Offering",
            SessionPhase::OfferAccepted => "OfferAccepted",
            SessionPhase::Closed => "Closed",
        }
    }
}

/// The phases in which a control message is accepted, and the phase it moves
/// the session to (`None`: it leaves the phase as it is).
pub open spec fn control_rule(m: ControlMessage) -> (Seq<SessionPhase>, Option<SessionPhase>) {
    match m {
        ControlMessage::Hello(_) => (
            seq![SessionPhase::New, SessionPhase::HelloExchanged],
            Some(SessionPhase::HelloExchanged),
        ),
        ControlMessage::Auth(_) => (seq![SessionPhase::HelloExchanged], Some(SessionPhase::Authenticated)),
        ControlMessage::PairRequest(_) | ControlMessage::PairProof(_) => (
            seq![SessionPhase::Authenticated, SessionPhase::Pairing],
            Some(SessionPhase::Pairing),
        ),
        ControlMessage::PairConfirmed(_) => (seq![SessionPhase::Pairing], Some(SessionPhase::Authenticated)),
        ControlMessage::PairRejected(_) => (seq![SessionPhase::Pairing], Some(SessionPhase::Closed)),
        ControlMessage::OfferStart(_) => (seq![SessionPhase::Authenticated], Some(SessionPhase::Offering)),
        ControlMessage::ManifestPage(_) => (seq![SessionPhase::Offering], Some(SessionPhase::Offering)),
        ControlMessage::OfferAccept(_) => (seq![SessionPhase::Offering], Some(SessionPhase::OfferAccepted)),
        ControlMessage::OfferReject(_) => (seq![SessionPhase::Offering], Some(SessionPhase::Authenticated)),
        ControlMessage::ChunkAck(_) | ControlMessage::EntryComplete(_) | ControlMessage::EntryVerified(_)
        | ControlMessage::BatchComplete(_) | ControlMessage::BatchReceipt(_) | ControlMessage::Pause(_)
        | ControlMessage::ResumeQuery(_) | ControlMessage::Cancel(_) => (seq![SessionPhase::OfferAccepted], None),
        ControlMessage::Ping(_) | ControlMessage::Pong(_) | ControlMessage::Error(_) => (
            seq![
                SessionPhase::HelloExchanged,
                SessionPhase::Authenticated,
                SessionPhase::Pairing,
                SessionPhase::Offering,
                SessionPhase::OfferAccepted,
            ],
            None,
        ),
    }
}

/// A hello whose version range excludes this protocol's version.
pub open spec fn version_refused(m: ControlMessage) -> bool {
    match m {
        ControlMessage::Hello(h) => h.protocol_min > PROTOCOL_VERSION || h.protocol_max < PROTOCOL_VERSION,
        _ => false,
    }
}

/// What the validator reports for `frame` in `phase`: the next phase, or the
/// error (which leaves the phase unchanged).
pub open spec fn validation_outcome(phase: SessionPhase, frame: Frame) -> Result<SessionPhase, ProtocolError> {
    match frame {
        Frame::Chunk(_) => if phase == SessionPhase::OfferAccepted {
            Ok(phase)
        } else {
            Err(ProtocolError::InvalidState { message: "chunk", phase })
        },
        Frame::Control(m) => {
            if version_refused(m) {
                Err(ProtocolError::UnsupportedVersion(PROTOCOL_VERSION))
            } else {
                let (allowed, next) = control_rule(m);
                if allowed.contains(phase) {
                    Ok(
                        match next {
                            Some(n) => n,
                            None => phase,
                        },
                    )
                } else {
                    Err(ProtocolError::InvalidState { message: message_name(m), phase })
                }
            }
        },
    }
}

/// The phase of a session after it has been shown `frames` in order; a
/// refused frame leaves the phase unchanged.
pub open spec fn phase_after(phase: SessionPhase, frames: Seq<Frame>) -> SessionPhase
    decreases frames.len(),
{
    if frames.len() == 0 {
        phase
    } else {
        let next = match validation_outcome(phase, frames[0]) {
            Ok(n) => n,
            Err(_) => phase,
        };
        phase_after(next, frames.drop_first())
    }
}

/// The allowed phases and the next phase for a control message.
fn rule_of(m: &ControlMessage) -> (rule: (Vec<SessionPhase>, Option<SessionPhase>))
    ensures
        rule.0@ == control_rule(*m).0,
        rule.1 == control_rule(*m).1,
{
    let rule = match m {
        ControlMessage::Hello(_) => (
            vec![SessionPhase::New, SessionPhase::HelloExchanged],
            Some(SessionPhase::HelloExchanged),
        ),
        ControlMessage::Auth(_) => (vec![SessionPhase::HelloExchanged], Some(SessionPhase::Authenticated)),
        ControlMessage::PairRequest(_) | ControlMessage::PairProof(_) => (
            vec![SessionPhase::Authenticated, SessionPhase::Pairing],
            Some(SessionPhase::Pairing),
        ),
        ControlMessage::PairConfirmed(_) => (vec![SessionPhase::Pairing], Some(SessionPhase::Authenticated)),
        ControlMessage::PairRejected(_) => (vec![SessionPhase::Pairing], Some(SessionPhase::Closed)),
        ControlMessage::OfferStart(_) => (vec![SessionPhase::Authenticated], Some(SessionPhase::Offering)),
        ControlMessage::ManifestPage(_) => (vec![SessionPhase::Offering], Some(SessionPhase::Offering)),
        ControlMessage::OfferAccept(_) => (vec![SessionPhase::Offering], Some(SessionPhase::OfferAccepted)),
        ControlMessage::OfferReject(_) => (vec![SessionPhase::Offering], Some(SessionPhase::Authenticated)),
        ControlMessage::ChunkAck(_) | ControlMessage::EntryComplete(_) | ControlMessage::EntryVerified(_)
        | ControlMessage::BatchComplete(_) | ControlMessage::BatchReceipt(_) | ControlMessage::Pause(_)
        | ControlMessage::ResumeQuery(_) | ControlMessage::Cancel(_) => (vec![SessionPhase::OfferAccepted], None),
        ControlMessage::Ping(_) | ControlMessage::Pong(_) | ControlMessage::Error(_) => (
            vec![
                SessionPhase::HelloExchanged,
                SessionPhase::Authenticated,
                SessionPhase::Pairing,
                SessionPhase::Offering,
                SessionPhase::OfferAccepted,
            ],
            None,
        ),
    };
    assert(rule.0@ =~= control_rule(*m).0);
    rule
}

#[derive(Debug, Clone)]
pub struct SessionValidator {
    phase: SessionPhase,
}

impl SessionValidator {
    pub closed spec fn current(&self) -> SessionPhase {
        self.phase
    }

    pub fn new() -> (validator: Self)
        ensures
            validator.current() == SessionPhase::New,
    {
        SessionValidator { phase: SessionPhase::New }
    }

    pub fn default() -> (validator: Self)
        ensures
            validator.current() == SessionPhase::New,
    {
        Self::new()
    }

    pub fn phase(&self) -> (phase: SessionPhase)
        ensures
            phase == self.current(),
    {
        self.phase
    }

    /// Accepts `frame` when the current phase allows it, moving to the phase
    /// it leads to; otherwise reports why and keeps the phase.
    pub fn validate(&mut self, frame: &Frame) -> (result: Result<(), ProtocolError>)
        ensures
            match validation_outcome(old(self).current(), *frame) {
                Ok(next) => result is Ok && final(self).current() == next,
                Err(e) => result == Err::<(), ProtocolError>(e) && final(self).current() == old(self).current(),
            },
    {
        let message = match frame {
            Frame::Control(message) => message,
            Frame::Chunk(_) => return self.transition_chunk(),
        };
        let name = message.name();
        if let ControlMessage::Hello(hello) = message {
            if hello.protocol_min > PROTOCOL_VERSION || hello.protocol_max < PROTOCOL_VERSION {
                return Err(ProtocolError::UnsupportedVersion(PROTOCOL_VERSION));
            }
        }
        let (allowed, next) = rule_of(message);
        match next {
            Some(next) => self.transition(allowed.as_slice(), next, name),
            None => self.require(allowed.as_slice(), name),
        }
    }

    fn transition_chunk(&mut self) -> (result: Result<(), ProtocolError>)
        ensures
            final(self).current() == old(self).current(),
            result == (if old(self).current() == SessionPhase::OfferAccepted {
                Ok::<(), ProtocolError>(())
            } else {
                Err(ProtocolError::InvalidState { message: "chunk", phase: old(self).current() })
            }),
    {
        self.require(&[SessionPhase::OfferAccepted], "chunk")
    }

    fn require(&self, allowed: &[SessionPhase], message: &'static str) -> (result: Result<(), ProtocolError>)
        ensures
            result == (if allowed@.contains(self.current()) {
                Ok::<(), ProtocolError>(())
            } else {
                Err(ProtocolError::InvalidState { message, phase: self.current() })
            }),
    {
        let mut i: usize = 0;
        while i < allowed.len()
            invariant
                i <= allowed@.len(),
                forall|k: int| 0 <= k < i ==> allowed@[k] != self.phase,
            decreases allowed@.len() - i,
        {
            if allowed[i] == self.phase {
                return Ok(());
            }
            i = i + 1;
        }
        Err(ProtocolError::InvalidState { message, phase: self.phase })
    }

    fn transition(&mut self, allowed: &[SessionPhase], next: SessionPhase, message: &'static str) -> (result: Result<(), ProtocolError>)
        ensures
            result == (if allowed@.contains(old(self).current()) {
                Ok::<(), ProtocolError>(())
            } else {
                Err(ProtocolError::InvalidState { message, phase: old(self).current() })
            }),
            final(self).current() == (if allowed@.contains(old(self).current()) {
                next
            } else {
                old(self).current()
            }),
    {
        match self.require(allowed, message) {
            Ok(()) => {},
            Err(e) => return Err(e),
        }
        self.phase = next;
        Ok(())
    }
}

/// Chunks are accepted only after an offer has been accepted, and never
/// change the phase.
pub proof fn lemma_chunks_need_accepted_offer(phase: SessionPhase, chunk: Chunk)
    ensures
        validation_outcome(phase, Frame::Chunk(chunk)) is Ok <==> phase == SessionPhase::OfferAccepted,
        validation_outcome(phase, Frame::Chunk(chunk)) matches Ok(next) ==> next == phase,
{
}

/// The session is not authenticated by anything but an `auth` message: a
/// session that started new and has not been shown one is still new or has
/// only exchanged hellos.
pub proof fn lemma_no_progress_without_auth(phase: SessionPhase, frames: Seq<Frame>)
    requires
        phase == SessionPhase::New || phase == SessionPhase::HelloExchanged,
        forall|i: int| 0 <= i < frames.len() ==> !(#[trigger] frames[i] matches Frame::Control(ControlMessage::Auth(_))),
    ensures
        phase_after(phase, frames) == SessionPhase::New || phase_after(phase, frames) == SessionPhase::HelloExchanged,
    decreases frames.len(),
{
    if frames.len() > 0 {
        let next = match validation_outcome(phase, frames[0]) {
            Ok(n) => n,
            Err(_) => phase,
        };
        assert(!(frames[0] matches Frame::Control(ControlMessage::Auth(_))));
        let rest = frames.drop_first();
        assert forall|i: int| 0 <= i < rest.len() implies !(#[trigger] rest[i] matches Frame::Control(ControlMessage::Auth(_))) by {
            assert(rest[i] == frames[i + 1]);
        }
        lemma_no_progress_without_auth(next, rest);
    }
}

/// A frame is accepted exactly in the phases `allowed`, and there moves the
/// session to `next`.
pub open spec fn answered_in(phase: SessionPhase, f: Frame, allowed: Seq<SessionPhase>, next: SessionPhase) -> bool {
    &&& validation_outcome(phase, f) is Ok <==> allowed.contains(phase)
    &&& allowed.contains(phase) ==> validation_outcome(phase, f) == Ok::<SessionPhase, ProtocolError>(next)
}

/// Where each message may come and where it leads.  A hello that admits
/// version 1 opens the session or repeats; `auth` follows the hellos;
/// pairing requests and proofs run from the authenticated session; a
/// confirmed pairing returns to the authenticated session and a rejected one
/// closes it; an offer starts from the authenticated session and its pages
/// keep it open; an accepted offer opens the transfer, a rejected offer
/// returns to the authenticated session, where a new offer can be made;
/// transfer messages keep the accepted offer; pings, pongs and errors keep
/// any phase after the hellos and before the close.
pub proof fn lemma_session_phases(phase: SessionPhase, m: ControlMessage)
    ensures
        m matches ControlMessage::Hello(h) ==> (h.protocol_min <= 1 && 1 <= h.protocol_max ==> answered_in(
            phase,
            Frame::Control(m),
            seq![SessionPhase::New, SessionPhase::HelloExchanged],
            SessionPhase::HelloExchanged,
        )),
        m matches ControlMessage::Hello(h) ==> (!(h.protocol_min <= 1 && 1 <= h.protocol_max) ==> validation_outcome(
            phase,
            Frame::Control(m),
        ) == Err::<SessionPhase, ProtocolError>(ProtocolError::UnsupportedVersion(1))),
        m is Auth ==> answered_in(phase, Frame::Control(m), seq![SessionPhase::HelloExchanged], SessionPhase::Authenticated),
        (m is PairRequest || m is PairProof) ==> answered_in(
            phase,
            Frame::Control(m),
            seq![SessionPhase::Authenticated, SessionPhase::Pairing],
            SessionPhase::Pairing,
        ),
        m is PairConfirmed ==> answered_in(phase, Frame::Control(m), seq![SessionPhase::Pairing], SessionPhase::Authenticated),
        m is PairRejected ==> answered_in(phase, Frame::Control(m), seq![SessionPhase::Pairing], SessionPhase::Closed),
        m is OfferStart ==> answered_in(phase, Frame::Control(m), seq![SessionPhase::Authenticated], SessionPhase::Offering),
        m is ManifestPage ==> answered_in(phase, Frame::Control(m), seq![SessionPhase::Offering], SessionPhase::Offering),
        m is OfferAccept ==> answered_in(phase, Frame::Control(m), seq![SessionPhase::Offering], SessionPhase::OfferAccepted),
        m is OfferReject ==> answered_in(phase, Frame::Control(m), seq![SessionPhase::Offering], SessionPhase::Authenticated),
        (m is ChunkAck || m is EntryComplete || m is EntryVerified || m is BatchComplete || m is BatchReceipt
            || m is Pause || m is ResumeQuery || m is Cancel) ==> answered_in(
            phase,
            Frame::Control(m),
            seq![SessionPhase::OfferAccepted],
            SessionPhase::OfferAccepted,
        ),
        (m is Ping || m is Pong || m is Error) ==> answered_in(
            phase,
            Frame::Control(m),
            seq![
                SessionPhase::HelloExchanged,
                SessionPhase::Authenticated,
                SessionPhase::Pairing,
                SessionPhase::Offering,
                SessionPhase::OfferAccepted,
            ],
            phase,
        ),
{
    let f = Frame::Control(m);
    match phase {
        SessionPhase::New => {},
        SessionPhase::HelloExchanged => {},
        SessionPhase::Authenticated => {},
        SessionPhase::Pairing => {},
        SessionPhase::Offering => {},
        SessionPhase::OfferAccepted => {},
        SessionPhase::Closed => {},
    }
}

/// A closed session accepts nothing more.
pub proof fn lemma_closed_is_final(f: Frame)
    ensures
        validation_outcome(SessionPhase::Closed, f) is Err,
{
}

/// After a rejected offer the sender may offer again on the same session,
/// and after a confirmed pairing it may offer at once; after a rejected
/// pairing no offer is accepted.
pub proof fn lemma_offers_after_rejection(reject: OfferReject, start: OfferStart, confirmed: PairConfirmed, rejected: PairRejected)
    ensures
        phase_after(
            SessionPhase::Offering,
            seq![Frame::Control(ControlMessage::OfferReject(reject)), Frame::Control(ControlMessage::OfferStart(start))],
        ) == SessionPhase::Offering,
        phase_after(
            SessionPhase::Pairing,
            seq![Frame::Control(ControlMessage::PairConfirmed(confirmed)), Frame::Control(ControlMessage::OfferStart(start))],
        ) == SessionPhase::Offering,
        phase_after(
            SessionPhase::Pairing,
            seq![Frame::Control(ControlMessage::PairRejected(rejected)), Frame::Control(ControlMessage::OfferStart(start))],
        ) == SessionPhase::Closed,
{
    let reject_f = Frame::Control(ControlMessage::OfferReject(reject));
    let start_f = Frame::Control(ControlMessage::OfferStart(start));
    let confirmed_f = Frame::Control(ControlMessage::PairConfirmed(confirmed));
    let rejected_f = Frame::Control(ControlMessage::PairRejected(rejected));
    lemma_session_phases(SessionPhase::Offering, ControlMessage::OfferReject(reject));
    lemma_session_phases(SessionPhase::Authenticated, ControlMessage::OfferStart(start));
    lemma_session_phases(SessionPhase::Closed, ControlMessage::OfferStart(start));
    lemma_session_phases(SessionPhase::Pairing, ControlMessage::PairConfirmed(confirmed));
    lemma_session_phases(SessionPhase::Pairing, ControlMessage::PairRejected(rejected));
    assert(seq![SessionPhase::Offering][0] == SessionPhase::Offering);
    assert(seq![SessionPhase::Authenticated][0] == SessionPhase::Authenticated);
    assert(seq![SessionPhase::Pairing][0] == SessionPhase::Pairing);
    assert(validation_outcome(SessionPhase::Offering, reject_f) == Ok::<SessionPhase, ProtocolError>(SessionPhase::Authenticated));
    assert(validation_outcome(SessionPhase::Authenticated, start_f) == Ok::<SessionPhase, ProtocolError>(SessionPhase::Offering));
    assert(validation_outcome(SessionPhase::Pairing, confirmed_f) == Ok::<SessionPhase, ProtocolError>(SessionPhase::Authenticated));
    assert(validation_outcome(SessionPhase::Pairing, rejected_f) == Ok::<SessionPhase, ProtocolError>(SessionPhase::Closed));
    assert(validation_outcome(SessionPhase::Closed, start_f) is Err);
    let one = seq![start_f];
    assert(one.drop_first() =~= Seq::<Frame>::empty());
    assert(one[0] == start_f);
    assert(phase_after(SessionPhase::Offering, Seq::<Frame>::empty()) == SessionPhase::Offering);
    assert(phase_after(SessionPhase::Closed, Seq::<Frame>::empty()) == SessionPhase::Closed);
    assert(phase_after(SessionPhase::Authenticated, one) == SessionPhase::Offering);
    assert(phase_after(SessionPhase::Closed, one) == SessionPhase::Closed);
    assert(seq![reject_f, start_f].drop_first() =~= one);
    assert(seq![confirmed_f, start_f].drop_first() =~= one);
    assert(seq![rejected_f, start_f].drop_first() =~= one);
}

} // verus!
