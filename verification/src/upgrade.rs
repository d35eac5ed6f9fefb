//! State transfer between versions of the head engine.
//!
//! When the engine is upgraded, its counters and flags travel as a
//! versioned blob of bytes: the version that wrote the blob, then the
//! fields in a fixed layout. The queues and tables that the engine owns
//! are handed over as they are.

use vstd::prelude::*;
use vstd::bytes::{
    lemma_auto_spec_u32_to_from_le_bytes, lemma_auto_spec_u64_to_from_le_bytes,
    spec_u32_from_le_bytes, spec_u32_to_le_bytes, spec_u64_from_le_bytes, spec_u64_to_le_bytes,
    u32_from_le_bytes, u32_to_le_bytes, u64_from_le_bytes, u64_to_le_bytes,
};
use vstd::slice::slice_subrange;
use crate::backoff::DP_LIMIT;
use crate::cmd::{Pending, TransportType};
use crate::interface::SchedulingMode;

verus! {

/// Version of an engine.
#[derive(Clone, Copy, Debug, PartialEq, Eq, Structural, Hash)]
pub struct Version {
    pub major: u32,
    pub minor: u32,
    pub patch: u32,
}

/// Length of a blob in bytes.
pub const BLOB_LEN: usize = 39;

/// The counters and flags of a head engine.
#[derive(Clone, Copy, Debug, PartialEq, Eq, Structural, Hash)]
pub struct Counters {
    pub backoff: usize,
    pub dp_spin_cnt: usize,
    pub last_cmd_ts: u64,
    pub mode: SchedulingMode,
    pub transport_type: Option<TransportType>,
    pub pending: Option<Pending>,
}

impl Counters {
    /// The spin budget is within its bounds and not yet exhausted.
    pub open spec fn valid(self) -> bool {
        1 <= self.backoff <= DP_LIMIT && self.dp_spin_cnt < self.backoff
    }
}

/// The byte that stands for a scheduling mode.
pub open spec fn mode_code(m: SchedulingMode) -> u8 {
    match m {
        SchedulingMode::Dedicated => 0,
        SchedulingMode::Compact => 1,
        SchedulingMode::Spread => 2,
    }
}

/// The byte that stands for a transport, chosen or not.
pub open spec fn transport_code(t: Option<TransportType>) -> u8 {
    match t {
        None => 0,
        Some(TransportType::Rdma) => 1,
        Some(TransportType::Socket) => 2,
    }
}

/// The byte that stands for a waiting command, or none.
pub open spec fn pending_code(p: Option<Pending>) -> u8 {
    match p {
        None => 0,
        Some(Pending::AllocShm) => 1,
        Some(Pending::Connect) => 2,
        Some(Pending::Bind) => 3,
        Some(Pending::NewMappedAddrs) => 4,
    }
}

/// The scheduling mode that a byte stands for.
pub open spec fn mode_of(b: u8) -> Option<SchedulingMode> {
    if b == 0 {
        Some(SchedulingMode::Dedicated)
    } else if b == 1 {
        Some(SchedulingMode::Compact)
    } else if b == 2 {
        Some(SchedulingMode::Spread)
    } else {
        None
    }
}

/// The transport that a byte stands for.
pub open spec fn transport_of(b: u8) -> Option<Option<TransportType>> {
    if b == 0 {
        Some(None)
    } else if b == 1 {
        Some(Some(TransportType::Rdma))
    } else if b == 2 {
        Some(Some(TransportType::Socket))
    } else {
        None
    }
}

/// The waiting command that a byte stands for.
pub open spec fn pending_of(b: u8) -> Option<Option<Pending>> {
    if b == 0 {
        Some(None)
    } else if b == 1 {
        Some(Some(Pending::AllocShm))
    } else if b == 2 {
        Some(Some(Pending::Connect))
    } else if b == 3 {
        Some(Some(Pending::Bind))
    } else if b == 4 {
        Some(Some(Pending::NewMappedAddrs))
    } else {
        None
    }
}

/// The blob that version `v` writes for the counters `c`: the three parts
/// of the version, the spin budget, the spin count and the time of the
/// last look at the control socket, each in little-endian order, and one
/// byte each for the scheduling mode, the transport and the waiting
/// command.
pub open spec fn spec_encode(v: Version, c: Counters) -> Seq<u8> {
    spec_u32_to_le_bytes(v.major) + spec_u32_to_le_bytes(v.minor) + spec_u32_to_le_bytes(v.patch)
        + spec_u64_to_le_bytes(c.backoff as u64) + spec_u64_to_le_bytes(c.dp_spin_cnt as u64)
        + spec_u64_to_le_bytes(c.last_cmd_ts) + seq![
        mode_code(c.mode),
        transport_code(c.transport_type),
        pending_code(c.pending),
    ]
}

/// What a blob says, if it has the length of a blob, its last three bytes
/// stand for something, and its counters are valid.
pub open spec fn spec_decode(b: Seq<u8>) -> Option<(Version, Counters)> {
    if b.len() != BLOB_LEN {
        None
    } else {
        let backoff = spec_u64_from_le_bytes(b.subrange(12, 20));
        let dp_spin_cnt = spec_u64_from_le_bytes(b.subrange(20, 28));
        if !(1 <= backoff <= DP_LIMIT && dp_spin_cnt < backoff) {
            None
        } else if mode_of(b[36]) is None || transport_of(b[37]) is None || pending_of(b[38])
            is None {
            None
        } else {
            Some(
                (
                    Version {
                        major: spec_u32_from_le_bytes(b.subrange(0, 4)),
                        minor: spec_u32_from_le_bytes(b.subrange(4, 8)),
                        patch: spec_u32_from_le_bytes(b.subrange(8, 12)),
                    },
                    Counters {
                        backoff: backoff as usize,
                        dp_spin_cnt: dp_spin_cnt as usize,
                        last_cmd_ts: spec_u64_from_le_bytes(b.subrange(28, 36)),
                        mode: mode_of(b[36])->0,
                        transport_type: transport_of(b[37])->0,
                        pending: pending_of(b[38])->0,
                    },
                ),
            )
        }
    }
}

/// Reading a blob gives what was written: the version and the counters.
pub proof fn lemma_decode_encode(v: Version, c: Counters)
    requires
        c.valid(),
    ensures
        spec_encode(v, c).len() == BLOB_LEN,
        spec_decode(spec_encode(v, c)) == Some((v, c)),
{
    lemma_auto_spec_u32_to_from_le_bytes();
    lemma_auto_spec_u64_to_from_le_bytes();
    let b = spec_encode(v, c);
    let p0 = spec_u32_to_le_bytes(v.major);
    let p1 = spec_u32_to_le_bytes(v.minor);
    let p2 = spec_u32_to_le_bytes(v.patch);
    let p3 = spec_u64_to_le_bytes(c.backoff as u64);
    let p4 = spec_u64_to_le_bytes(c.dp_spin_cnt as u64);
    let p5 = spec_u64_to_le_bytes(c.last_cmd_ts);
    assert(b.len() == 39);
    assert(b.subrange(0, 4) =~= p0);
    assert(b.subrange(4, 8) =~= p1);
    assert(b.subrange(8, 12) =~= p2);
    assert(b.subrange(12, 20) =~= p3);
    assert(b.subrange(20, 28) =~= p4);
    assert(b.subrange(28, 36) =~= p5);
    assert(b[36] == mode_code(c.mode));
    assert(b[37] == transport_code(c.transport_type));
    assert(b[38] == pending_code(c.pending));
}

fn mode_byte(m: SchedulingMode) -> (b: u8)
    ensures
        b == mode_code(m),
{
    match m {
        SchedulingMode::Dedicated => 0,
        SchedulingMode::Compact => 1,
        SchedulingMode::Spread => 2,
    }
}

fn transport_byte(t: Option<TransportType>) -> (b: u8)
    ensures
        b == transport_code(t),
{
    match t {
        None => 0,
        Some(TransportType::Rdma) => 1,
        Some(TransportType::Socket) => 2,
    }
}

fn pending_byte(p: Option<Pending>) -> (b: u8)
    ensures
        b == pending_code(p),
{
    match p {
        None => 0,
        Some(Pending::AllocShm) => 1,
        Some(Pending::Connect) => 2,
        Some(Pending::Bind) => 3,
        Some(Pending::NewMappedAddrs) => 4,
    }
}

fn byte_mode(b: u8) -> (m: Option<SchedulingMode>)
    ensures
        m == mode_of(b),
{
    if b == 0 {
        Some(SchedulingMode::Dedicated)
    } else if b == 1 {
        Some(SchedulingMode::Compact)
    } else if b == 2 {
        Some(SchedulingMode::Spread)
    } else {
        None
    }
}

fn byte_transport(b: u8) -> (t: Option<Option<TransportType>>)
    ensures
        t == transport_of(b),
{
    if b == 0 {
        Some(None)
    } else if b == 1 {
        Some(Some(TransportType::Rdma))
    } else if b == 2 {
        Some(Some(TransportType::Socket))
    } else {
        None
    }
}

fn byte_pending(b: u8) -> (p: Option<Option<Pending>>)
    ensures
        p == pending_of(b),
{
    if b == 0 {
        Some(None)
    } else if b == 1 {
        Some(Some(Pending::AllocShm))
    } else if b == 2 {
        Some(Some(Pending::Connect))
    } else if b == 3 {
        Some(Some(Pending::Bind))
    } else if b == 4 {
        Some(Some(Pending::NewMappedAddrs))
    } else {
        None
    }
}

/// Writes the blob of version `v` for the counters `c`.
pub fn encode(v: Version, c: &Counters) -> (blob: Vec<u8>)
    ensures
        blob@ == spec_encode(v, *c),
{
    let mut blob = u32_to_le_bytes(v.major);
    let mut part = u32_to_le_bytes(v.minor);
    blob.append(&mut part);
    let mut part = u32_to_le_bytes(v.patch);
    blob.append(&mut part);
    let mut part = u64_to_le_bytes(c.backoff as u64);
    blob.append(&mut part);
    let mut part = u64_to_le_bytes(c.dp_spin_cnt as u64);
    blob.append(&mut part);
    let mut part = u64_to_le_bytes(c.last_cmd_ts);
    blob.append(&mut part);
    blob.push(mode_byte(c.mode));
    blob.push(transport_byte(c.transport_type));
    blob.push(pending_byte(c.pending));
    assert(blob@ =~= spec_encode(v, *c));
    blob
}

/// Reads a blob.
pub fn decode(blob: &Vec<u8>) -> (res: Option<(Version, Counters)>)
    ensures
        res == spec_decode(blob@),
{
    if blob.len() != BLOB_LEN {
        return None;
    }
    let bytes = blob.as_slice();
    let major = u32_from_le_bytes(slice_subrange(bytes, 0, 4));
    let minor = u32_from_le_bytes(slice_subrange(bytes, 4, 8));
    let patch = u32_from_le_bytes(slice_subrange(bytes, 8, 12));
    let backoff = u64_from_le_bytes(slice_subrange(bytes, 12, 20));
    let dp_spin_cnt = u64_from_le_bytes(slice_subrange(bytes, 20, 28));
    let last_cmd_ts = u64_from_le_bytes(slice_subrange(bytes, 28, 36));
    if backoff < 1 || backoff > DP_LIMIT as u64 || dp_spin_cnt >= backoff {
        return None;
    }
    let mode = match byte_mode(blob[36]) {
        Some(m) => m,
        None => {
            return None;
        },
    };
    let transport_type = match byte_transport(blob[37]) {
        Some(t) => t,
        None => {
            return None;
        },
    };
    let pending = match byte_pending(blob[38]) {
        Some(p) => p,
        None => {
            return None;
        },
    };
    Some(
        (
            Version { major, minor, patch },
            Counters {
                backoff: backoff as usize,
                dp_spin_cnt: dp_spin_cnt as usize,
                last_cmd_ts,
                mode,
                transport_type,
                pending,
            },
        ),
    )
}

/// Whether an engine of version `to` can take over the state of an engine
/// of version `from`: the layout of the blob belongs to the major version.
pub open spec fn compatible(from: Version, to: Version) -> bool {
    from.major == to.major
}

} // verus!
