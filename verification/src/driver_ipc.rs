//! The host side of the Knob driver's IPC protocol.
//!
//! Control plane: a custom property on the driver's plug-in object carries a
//! configuration payload naming a POSIX shared-memory region. Data plane: that
//! region starts with a header and is followed by a single-producer ring of
//! interleaved stereo frames that the driver reads.
use crate::bytes::{
    decimal, le_bytes_u32, le_u32_at, lemma_decimal_u32_len, push_decimal, push_u32_le, push_zeros,
    read_u32_le, zeros,
};
use vstd::prelude::*;

verus! {

/// `'KNOB'`, the magic number at the start of the header and of the configuration payload.
pub const KNOB_IPC_MAGIC: u32 = 0x4B4E_4F42;

/// The protocol version the host speaks.
pub const KNOB_IPC_PROTOCOL_VERSION: u32 = 1;

/// Size of the name field of the configuration payload, terminating NUL included.
pub const KNOB_SHM_NAME_MAX: usize = 64;

/// Sample rate of the ring, in frames per second.
pub const SAMPLE_RATE: u32 = 48_000;

/// Channels per frame in the ring.
pub const CHANNELS: u32 = 2;

/// Capacity of the ring, in frames.
pub const RING_FRAMES: u32 = 16_384;

/// Bytes per sample in the ring (one 32-bit float).
pub const SAMPLE_BYTES: usize = 4;

/// Size of the region header: six 32-bit fields, then the write index, the
/// read index and the heartbeat, each a 64-bit counter.
pub const SHM_HEADER_SIZE: usize = 48;

/// Size of the configuration payload: magic, version and the name field.
pub const SHM_CONFIG_SIZE: usize = 72;

/// Size of the diagnostics record the driver returns: five 32-bit fields.
pub const DRIVER_STATUS_SIZE: usize = 20;

/// Most frames the sine producer writes in one pass.
pub const PRODUCER_CHUNK_FRAMES: u64 = 1024;

/// Byte offset of the write index in the header.
pub const WRITE_INDEX_OFFSET: usize = 24;

/// Byte offset of the read index in the header.
pub const READ_INDEX_OFFSET: usize = 32;

/// Byte offset of the heartbeat counter in the header.
pub const HEARTBEAT_OFFSET: usize = 40;

/// Errors of the IPC encoding and decoding.
#[derive(Clone, Copy, Debug, PartialEq, Eq, Structural)]
pub enum IpcError {
    /// The shared-memory name does not fit the payload's name field with its NUL.
    NameTooLong,
    /// The diagnostics payload is shorter than a `DriverStatus`; it holds `len` bytes.
    StatusTooShort { len: usize },
}

/// Diagnostics the driver reports back through the custom property.
///
/// `last_stage`: 0 none, 1 bad or missing payload, 2 bad magic, version or
/// name, 3 `shm_open` failed, 4 `fstat` or size check failed, 5 `mmap`
/// failed, 6 bad header, 7 success.
#[derive(Clone, Copy, Debug, PartialEq, Eq, Structural)]
pub struct DriverStatus {
    pub override_active: u32,
    pub last_stage: i32,
    pub last_errno: i32,
    pub last_config_len: u32,
    pub xrun_count: u32,
}

/// The big-endian value of a four-character code.
pub open spec fn spec_fourcc(code: Seq<u8>) -> u32 {
    (code[0] * 16777216 + code[1] * 65536 + code[2] * 256 + code[3]) as u32
}

/// The 32-bit selector spelled by a four-character code, first character most significant.
pub fn fourcc(code: [u8; 4]) -> (r: u32)
    ensures
        r == spec_fourcc(code@),
{
    let a = code[0] as u32;
    let b = code[1] as u32;
    let c = code[2] as u32;
    let d = code[3] as u32;
    a * 16777216 + b * 65536 + c * 256 + d
}

/// Total size of the shared-memory region: the header followed by the ring.
pub fn shm_total_size() -> (r: usize)
    ensures
        r == SHM_HEADER_SIZE + (RING_FRAMES as int) * (CHANNELS as int) * SAMPLE_BYTES,
{
    SHM_HEADER_SIZE + (RING_FRAMES as usize) * (CHANNELS as usize) * SAMPLE_BYTES
}

/// The header of a freshly created region: magic, version, sample rate,
/// channels, ring capacity, padding, and the three counters at zero.
pub open spec fn shm_header_bytes() -> Seq<u8> {
    le_bytes_u32(KNOB_IPC_MAGIC) + le_bytes_u32(KNOB_IPC_PROTOCOL_VERSION) + le_bytes_u32(
        SAMPLE_RATE,
    ) + le_bytes_u32(CHANNELS) + le_bytes_u32(RING_FRAMES) + le_bytes_u32(0) + zeros(24)
}

/// Encodes the header written at the start of a new region.
pub fn encode_shm_header() -> (r: Vec<u8>)
    ensures
        r@ == shm_header_bytes(),
        r@.len() == SHM_HEADER_SIZE,
{
    let mut out: Vec<u8> = Vec::new();
    push_u32_le(&mut out, KNOB_IPC_MAGIC);
    push_u32_le(&mut out, KNOB_IPC_PROTOCOL_VERSION);
    push_u32_le(&mut out, SAMPLE_RATE);
    push_u32_le(&mut out, CHANNELS);
    push_u32_le(&mut out, RING_FRAMES);
    push_u32_le(&mut out, 0);
    push_zeros(&mut out, 24);
    assert(out@ =~= shm_header_bytes());
    out
}

/// The configuration payload that publishes the region called `name`: magic,
/// version, then the name padded with zero bytes to `KNOB_SHM_NAME_MAX`.
pub open spec fn shm_config_bytes(name: Seq<u8>) -> Seq<u8> {
    le_bytes_u32(KNOB_IPC_MAGIC) + le_bytes_u32(KNOB_IPC_PROTOCOL_VERSION) + name + zeros(
        (KNOB_SHM_NAME_MAX - name.len()) as nat,
    )
}

/// Encodes the payload of the custom property: `Some(name)` publishes the
/// region `name`; `None` gives the empty payload that tells the driver to
/// drop the override.
pub fn encode_shm_config(name: Option<&[u8]>) -> (r: Result<Vec<u8>, IpcError>)
    ensures
        match name {
            None => r is Ok && r.unwrap()@ == Seq::<u8>::empty(),
            Some(n) => if n@.len() >= KNOB_SHM_NAME_MAX {
                r == Err::<Vec<u8>, IpcError>(IpcError::NameTooLong)
            } else {
                r is Ok && r.unwrap()@ == shm_config_bytes(n@) && r.unwrap()@.len()
                    == SHM_CONFIG_SIZE && r.unwrap()@.subrange(0, 4) == seq![66u8, 79u8, 78u8, 75u8]
                    && r.unwrap()@.subrange(4, 8) == seq![1u8, 0u8, 0u8, 0u8] && (forall|i: int|
                    0 <= i < n@.len() ==> #[trigger] r.unwrap()@[8 + i] == n@[i]) && (forall|j: int|
                    8 + n@.len() <= j < SHM_CONFIG_SIZE ==> #[trigger] r.unwrap()@[j] == 0u8)
            },
        },
{
    match name {
        None => Ok(Vec::new()),
        Some(n) => {
            if n.len() >= KNOB_SHM_NAME_MAX {
                return Err(IpcError::NameTooLong);
            }
            let mut out: Vec<u8> = Vec::new();
            push_u32_le(&mut out, KNOB_IPC_MAGIC);
            push_u32_le(&mut out, KNOB_IPC_PROTOCOL_VERSION);
            let ghost head = out@;
            let mut i: usize = 0;
            while i < n.len()
                invariant
                    i <= n@.len(),
                    n@.len() < KNOB_SHM_NAME_MAX,
                    out@ == head + n@.subrange(0, i as int),
                decreases n@.len() - i,
            {
                out.push(n[i]);
                i = i + 1;
                assert(out@ =~= head + n@.subrange(0, i as int));
            }
            assert(n@.subrange(0, n@.len() as int) =~= n@);
            push_zeros(&mut out, KNOB_SHM_NAME_MAX - n.len());
            assert(out@ =~= shm_config_bytes(n@));
            proof {
                law_config_payload_layout(n@);
            }
            Ok(out)
        },
    }
}

/// The status record that the first `DRIVER_STATUS_SIZE` bytes of `b` spell.
pub open spec fn spec_driver_status(b: Seq<u8>) -> DriverStatus {
    DriverStatus {
        override_active: le_u32_at(b, 0),
        last_stage: le_u32_at(b, 4) as i32,
        last_errno: le_u32_at(b, 8) as i32,
        last_config_len: le_u32_at(b, 12),
        xrun_count: le_u32_at(b, 16),
    }
}

/// Decodes the diagnostics payload the driver returns. Bytes past the record are ignored.
pub fn parse_driver_status(bytes: &[u8]) -> (r: Result<DriverStatus, IpcError>)
    ensures
        bytes@.len() < DRIVER_STATUS_SIZE ==> r == Err::<DriverStatus, IpcError>(
            IpcError::StatusTooShort { len: bytes@.len() as usize },
        ),
        bytes@.len() >= DRIVER_STATUS_SIZE ==> r == Ok::<DriverStatus, IpcError>(
            spec_driver_status(bytes@),
        ),
        bytes@.len() >= DRIVER_STATUS_SIZE ==> status_fields_at(r.unwrap(), bytes@),
{
    if bytes.len() < DRIVER_STATUS_SIZE {
        return Err(IpcError::StatusTooShort { len: bytes.len() });
    }
    let override_active = read_u32_le(bytes, 0);
    let stage = read_u32_le(bytes, 4);
    let err = read_u32_le(bytes, 8);
    let last_config_len = read_u32_le(bytes, 12);
    let xrun_count = read_u32_le(bytes, 16);
    proof {
        law_status_fields(bytes@);
    }
    Ok(
        DriverStatus {
            override_active,
            last_stage: stage as i32,
            last_errno: err as i32,
            last_config_len,
            xrun_count,
        },
    )
}

/// The little-endian 32-bit value of bytes `off .. off + 4` of `b`, as an integer.
pub open spec fn le_word(b: Seq<u8>, off: int) -> int {
    b[off] + 256 * b[off + 1] + 65536 * b[off + 2] + 16777216 * b[off + 3]
}

/// Every field of `s` is the 32-bit little-endian word of `b` at its offset:
/// 0, 4, 8, 12 and 16, the signed fields read as two's complement.
pub open spec fn status_fields_at(s: DriverStatus, b: Seq<u8>) -> bool {
    &&& s.override_active as int == le_word(b, 0)
    &&& s.last_stage == (le_word(b, 4) as u32) as i32
    &&& s.last_errno == (le_word(b, 8) as u32) as i32
    &&& s.last_config_len as int == le_word(b, 12)
    &&& s.xrun_count as int == le_word(b, 16)
}

/// A record of at least `DRIVER_STATUS_SIZE` bytes decodes field by field
/// from fixed offsets, whatever the record's length.
pub proof fn law_status_fields(b: Seq<u8>)
    requires
        b.len() >= DRIVER_STATUS_SIZE,
    ensures
        status_fields_at(spec_driver_status(b), b),
{
    assert forall|off: int| 0 <= off && off + 4 <= b.len() implies 0 <= #[trigger] le_word(b, off)
        < 0x1_0000_0000 by {}
}

/// Decoding the record the driver writes gives back its fields: five
/// little-endian words, followed by any trailing bytes.
pub proof fn law_status_roundtrip(
    active: u32,
    stage: i32,
    err: i32,
    config_len: u32,
    xruns: u32,
    extra: Seq<u8>,
)
    ensures
        spec_driver_status(
            le_bytes_u32(active) + le_bytes_u32(stage as u32) + le_bytes_u32(err as u32)
                + le_bytes_u32(config_len) + le_bytes_u32(xruns) + extra,
        ) == (DriverStatus {
            override_active: active,
            last_stage: stage,
            last_errno: err,
            last_config_len: config_len,
            xrun_count: xruns,
        }),
{
    let b = le_bytes_u32(active) + le_bytes_u32(stage as u32) + le_bytes_u32(err as u32)
        + le_bytes_u32(config_len) + le_bytes_u32(xruns) + extra;
    crate::bytes::law_le_u32_roundtrip(active);
    crate::bytes::law_le_u32_roundtrip(stage as u32);
    crate::bytes::law_le_u32_roundtrip(err as u32);
    crate::bytes::law_le_u32_roundtrip(config_len);
    crate::bytes::law_le_u32_roundtrip(xruns);
    assert(b.subrange(0, 4) =~= le_bytes_u32(active));
    assert(b.subrange(4, 8) =~= le_bytes_u32(stage as u32));
    assert(b.subrange(8, 12) =~= le_bytes_u32(err as u32));
    assert(b.subrange(12, 16) =~= le_bytes_u32(config_len));
    assert(b.subrange(16, 20) =~= le_bytes_u32(xruns));
    assert(le_u32_at(b, 0) == le_u32_at(b.subrange(0, 4), 0));
    assert(le_u32_at(b, 4) == le_u32_at(b.subrange(4, 8), 0));
    assert(le_u32_at(b, 8) == le_u32_at(b.subrange(8, 12), 0));
    assert(le_u32_at(b, 12) == le_u32_at(b.subrange(12, 16), 0));
    assert(le_u32_at(b, 16) == le_u32_at(b.subrange(16, 20), 0));
    assert(((stage as u32) as i32) == stage) by (bit_vector);
    assert(((err as u32) as i32) == err) by (bit_vector);
}

/// The configuration payload for a name that fits: 72 bytes, the magic
/// `'KNOB'` stored as "BONK", version 1, the name byte for byte from offset
/// 8, and zeros after it.
pub proof fn law_config_payload_layout(n: Seq<u8>)
    requires
        n.len() < KNOB_SHM_NAME_MAX,
    ensures
        shm_config_bytes(n).len() == SHM_CONFIG_SIZE,
        shm_config_bytes(n).subrange(0, 4) == seq![66u8, 79u8, 78u8, 75u8],
        shm_config_bytes(n).subrange(4, 8) == seq![1u8, 0u8, 0u8, 0u8],
        forall|i: int| 0 <= i < n.len() ==> #[trigger] shm_config_bytes(n)[8 + i] == n[i],
        forall|j: int|
            8 + n.len() <= j < SHM_CONFIG_SIZE ==> #[trigger] shm_config_bytes(n)[j] == 0u8,
        shm_config_bytes(n).subrange(8, 8 + n.len() as int) == n,
{
    let c = shm_config_bytes(n);
    assert(c.subrange(0, 4) =~= seq![66u8, 79u8, 78u8, 75u8]);
    assert(c.subrange(4, 8) =~= seq![1u8, 0u8, 0u8, 0u8]);
    assert(c.subrange(8, 8 + n.len() as int) =~= n);
}

/// `"/knob."`, the prefix of the region's name.
pub open spec fn shm_name_prefix() -> Seq<u8> {
    seq![47u8, 107u8, 110u8, 111u8, 98u8, 46u8]
}

/// The name of the region owned by process `pid`: `/knob.<pid>`.
pub open spec fn spec_shm_name(pid: u32) -> Seq<u8> {
    shm_name_prefix() + decimal(pid as nat)
}

/// The bytes of the region name `/knob.<pid>` for process `pid`.
pub fn shm_name(pid: u32) -> (r: Vec<u8>)
    ensures
        r@ == spec_shm_name(pid),
        r@.len() < KNOB_SHM_NAME_MAX,
{
    let mut out: Vec<u8> = Vec::new();
    out.push(47u8);
    out.push(107u8);
    out.push(110u8);
    out.push(111u8);
    out.push(98u8);
    out.push(46u8);
    assert(out@ =~= shm_name_prefix());
    push_decimal(&mut out, pid);
    proof {
        lemma_decimal_u32_len(pid);
    }
    out
}

/// The name of every region the host creates fits the configuration payload,
/// so publishing it never fails for lack of room.
pub proof fn law_shm_name_fits(pid: u32)
    ensures
        spec_shm_name(pid).len() < KNOB_SHM_NAME_MAX,
{
    lemma_decimal_u32_len(pid);
}

/// Frames the producer may write in one pass: the free room of the ring,
/// capped at `PRODUCER_CHUNK_FRAMES`.
pub open spec fn spec_producer_chunk(produced: int, read: int) -> int {
    let used = produced - read;
    let free = if used >= RING_FRAMES { 0 } else { RING_FRAMES - used };
    if free < PRODUCER_CHUNK_FRAMES {
        free
    } else {
        PRODUCER_CHUNK_FRAMES as int
    }
}

/// How many frames the producer writes next, given the frames it has
/// produced so far and the reader's index.
pub fn producer_chunk(produced: u64, read: u64) -> (chunk: u64)
    requires
        read <= produced,
    ensures
        chunk == spec_producer_chunk(produced as int, read as int),
        chunk <= PRODUCER_CHUNK_FRAMES,
{
    let used = produced - read;
    let free = (RING_FRAMES as u64).saturating_sub(used);
    if free < PRODUCER_CHUNK_FRAMES {
        free
    } else {
        PRODUCER_CHUNK_FRAMES
    }
}

/// Index of the left sample of frame `frame` in the ring's sample array; the
/// right sample follows it.
pub fn frame_sample_index(frame: u64) -> (r: usize)
    ensures
        r == (frame % (RING_FRAMES as u64)) * 2,
        r + 1 < (RING_FRAMES as int) * 2,
{
    ((frame % (RING_FRAMES as u64)) as usize) * 2
}

/// The producer never runs more than a ring ahead of the reader: writing the
/// planned chunk keeps every unread frame in place.
pub proof fn law_producer_within_ring(produced: u64, read: u64)
    requires
        read <= produced,
        produced - read <= RING_FRAMES,
    ensures
        (produced - read) + spec_producer_chunk(produced as int, read as int) <= RING_FRAMES,
        0 <= spec_producer_chunk(produced as int, read as int),
{
}

/// A producer whose reader has caught up writes a full chunk.
pub proof fn law_producer_full_chunk_when_drained(produced: u64)
    ensures
        spec_producer_chunk(produced as int, produced as int) == PRODUCER_CHUNK_FRAMES,
{
}

/// The candidate the host is looking for: a plug-in object and the bundle
/// identifier it reports, if it reported one.
#[derive(Clone, Debug)]
pub struct PluginCandidate {
    pub id: u32,
    pub bundle_id: Option<String>,
}

/// The Knob driver's bundle identifier.
pub open spec fn knob_bundle_id() -> Seq<char> {
    "com.duosonic62.knob.driver"@
}

/// `c` is the Knob driver's plug-in.
pub open spec fn is_knob_plugin(c: PluginCandidate) -> bool {
    c.bundle_id matches Some(b) && b@ == knob_bundle_id()
}

/// Picks the Knob driver among the plug-ins: the first candidate whose bundle
/// identifier is the driver's.
pub fn find_knob_plugin(candidates: &Vec<PluginCandidate>) -> (r: Option<u32>)
    ensures
        match r {
            Some(id) => exists|i: int|
                0 <= i < candidates@.len() && #[trigger] is_knob_plugin(candidates@[i])
                    && candidates@[i].id == id && forall|j: int|
                    0 <= j < i ==> !is_knob_plugin(#[trigger] candidates@[j]),
            None => forall|i: int|
                0 <= i < candidates@.len() ==> !is_knob_plugin(#[trigger] candidates@[i]),
        },
{
    let target: String = "com.duosonic62.knob.driver".to_owned();
    let mut i: usize = 0;
    while i < candidates.len()
        invariant
            i <= candidates@.len(),
            target@ == knob_bundle_id(),
            forall|j: int| 0 <= j < i ==> !is_knob_plugin(#[trigger] candidates@[j]),
        decreases candidates@.len() - i,
    {
        let c = &candidates[i];
        match &c.bundle_id {
            Some(b) => {
                if *b == target {
                    assert(is_knob_plugin(candidates@[i as int]));
                    return Some(c.id);
                }
            },
            None => {},
        }
        i = i + 1;
    }
    None
}

} // verus!
