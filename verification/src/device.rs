//! The device encoder: maps a device kind, and for drives the target path,
//! to a fixed-layout descriptor buffer whose byte 0 is the kind tag.

use vstd::prelude::*;
use crate::strutil::str_eq;

verus! {

/// The device kinds the engine can provision.
#[derive(Debug, Clone, Copy, PartialEq, Eq, Structural)]
pub enum DeviceKind {
    Null,
    Console,
    Random,
    Uptime,
    Realtime,
    Rtc,
    TcpSocket,
    UdpSocket,
    Drive,
}

/// The tag stored in byte 0 of every descriptor; one stable value per kind.
pub open spec fn spec_tag(kind: DeviceKind) -> u8 {
    match kind {
        DeviceKind::Null => 0,
        DeviceKind::Console => 1,
        DeviceKind::Random => 2,
        DeviceKind::Uptime => 3,
        DeviceKind::Realtime => 4,
        DeviceKind::Rtc => 5,
        DeviceKind::TcpSocket => 6,
        DeviceKind::UdpSocket => 7,
        DeviceKind::Drive => 8,
    }
}

/// The fixed descriptor length of each kind: a drive descriptor carries the
/// bus and slot in bytes 1 and 2, every other kind is the bare tag.
pub open spec fn spec_descriptor_len(kind: DeviceKind) -> nat {
    match kind {
        DeviceKind::Drive => 3,
        _ => 1,
    }
}

/// The bus and slot a drive path selects: the four recognized paths
/// `/dev/ata/{0,1}/{0,1}` map to {(0,0),(0,1),(1,0),(1,1)}; any other path
/// selects nothing and leaves the default descriptor bytes untouched.
pub open spec fn spec_drive_params(p: Seq<char>) -> Option<(u8, u8)> {
    if p == "/dev/ata/0/0"@ {
        Some((0u8, 0u8))
    } else if p == "/dev/ata/0/1"@ {
        Some((0u8, 1u8))
    } else if p == "/dev/ata/1/0"@ {
        Some((1u8, 0u8))
    } else if p == "/dev/ata/1/1"@ {
        Some((1u8, 1u8))
    } else {
        None
    }
}

/// The descriptor created for `kind` at `path`: byte 0 is the kind tag, the
/// rest defaults to zero, and for a drive at a recognized path bytes 1 and 2
/// are patched to the bus and slot.
pub open spec fn spec_descriptor(kind: DeviceKind, p: Seq<char>) -> Seq<u8> {
    let base = Seq::new(spec_descriptor_len(kind), |i: int| if i == 0 { spec_tag(kind) } else { 0u8 });
    if kind == DeviceKind::Drive {
        match spec_drive_params(p) {
            Some((bus, slot)) => base.update(1, bus).update(2, slot),
            None => base,
        }
    } else {
        base
    }
}

impl DeviceKind {
    /// The tag stored in byte 0 of this kind's descriptor.
    pub fn tag(&self) -> (t: u8)
        ensures
            t == spec_tag(*self),
    {
        match self {
            DeviceKind::Null => 0,
            DeviceKind::Console => 1,
            DeviceKind::Random => 2,
            DeviceKind::Uptime => 3,
            DeviceKind::Realtime => 4,
            DeviceKind::Rtc => 5,
            DeviceKind::TcpSocket => 6,
            DeviceKind::UdpSocket => 7,
            DeviceKind::Drive => 8,
        }
    }
}

/// The bus and slot a drive path selects, by the four-path lookup table.
pub fn drive_params(path: &str) -> (r: Option<(u8, u8)>)
    ensures
        r == spec_drive_params(path@),
{
    if str_eq(path, "/dev/ata/0/0") {
        Some((0, 0))
    } else if str_eq(path, "/dev/ata/0/1") {
        Some((0, 1))
    } else if str_eq(path, "/dev/ata/1/0") {
        Some((1, 0))
    } else if str_eq(path, "/dev/ata/1/1") {
        Some((1, 1))
    } else {
        None
    }
}

/// Builds the descriptor for `kind` at `path`.
pub fn encode(kind: DeviceKind, path: &str) -> (buf: Vec<u8>)
    ensures
        buf@ == spec_descriptor(kind, path@),
{
    let mut buf: Vec<u8> = Vec::new();
    buf.push(kind.tag());
    if matches!(kind, DeviceKind::Drive) {
        buf.push(0);
        buf.push(0);
        match drive_params(path) {
            Some((bus, slot)) => {
                buf.set(1, bus);
                buf.set(2, slot);
            }
            None => {}
        }
    }
    proof {
        assert(buf@ =~= spec_descriptor(kind, path@));
    }
    buf
}

} // verus!
