//! Wire-format model and the decoder for a single complete frame.
//!
//! A frame on the wire is laid out as: sync byte (`0xFF`), a version byte,
//! a flags byte (bit 0 = "checksum present"), a payload-length byte, the
//! vendor id (big-endian `u16`), the raw command id (big-endian `u16`),
//! the payload bytes, and, only when the checksum flag is set, a trailing
//! checksum byte equal to the exclusive-or of every preceding byte.

use vstd::prelude::*;

verus! {

/// The 16-bit value transported as the big-endian byte pair `(hi, lo)`.
pub open spec fn be16(hi: u8, lo: u8) -> u16 {
    ((hi as u16) << 8) | (lo as u16)
}

/// Running exclusive-or of every byte of `s` (0 for the empty sequence).
pub open spec fn xor_all(s: Seq<u8>) -> u8
    decreases s.len(),
{
    if s.len() == 0 {
        0
    } else {
        xor_all(s.drop_last()) ^ s.last()
    }
}

/// Number of trailing checksum bytes a frame with this flags byte carries.
pub open spec fn checksum_len(flags: u8) -> int {
    if flags & 1 != 0 {
        1
    } else {
        0
    }
}

/// Whether the byte sequence `d` decodes successfully as one frame:
/// it is at least as long as the fixed header, at least as long as its
/// declared payload length demands, and, when the checksum flag is set,
/// its last byte equals the exclusive-or of all bytes before it.
pub open spec fn frame_ok(d: Seq<u8>) -> bool {
    &&& d.len() >= 8
    &&& d.len() >= 8 + (d[3] as int) + checksum_len(d[2])
    &&& (d[2] & 1 != 0 ==> xor_all(d.drop_last()) == d.last())
}

/// The mathematical content of one decoded packet.
#[verifier::ext_equal]
pub struct PacketModel {
    /// Vendor id, big-endian on the wire.
    pub vendor_id: u16,
    /// The 16-bit command field exactly as transmitted.
    pub command_id: u16,
    /// `command_id` with the acknowledgement bit cleared.
    pub command: u16,
    /// Whether the high bit of `command_id` is set.
    pub ack: bool,
    /// The flags byte of the frame header.
    pub flags: u8,
    /// The payload bytes, order-preserving.
    pub payload: Seq<u8>,
    /// First payload byte, but only of an acknowledgement with a payload.
    pub status: Option<u8>,
}

/// The packet that the frame `d` decodes to (meaningful when `frame_ok(d)`).
pub open spec fn parse_model(d: Seq<u8>) -> PacketModel {
    let command_id = be16(d[6], d[7]);
    let ack = command_id & 0x8000 != 0;
    let payload = d.subrange(8, 8 + (d[3] as int));
    PacketModel {
        vendor_id: be16(d[4], d[5]),
        command_id,
        command: command_id & 0x7FFF,
        ack,
        flags: d[2],
        payload,
        status: if ack && payload.len() > 0 {
            Some(payload[0])
        } else {
            None
        },
    }
}

/// One fully decoded packet, as handed to the surrounding system.
#[derive(Clone, Debug)]
pub struct GaiaPacketEvent {
    /// Vendor id, big-endian on the wire.
    pub vendor_id: u16,
    /// The 16-bit command field exactly as transmitted.
    pub command_id: u16,
    /// `command_id` with the acknowledgement bit cleared.
    pub command: u16,
    /// Whether the high bit of `command_id` is set.
    pub ack: bool,
    /// The flags byte of the frame header.
    pub flags: u8,
    /// The payload bytes, order-preserving.
    pub payload: Vec<u8>,
    /// First payload byte, but only of an acknowledgement with a payload.
    pub status: Option<u8>,
}

impl View for GaiaPacketEvent {
    type V = PacketModel;

    open spec fn view(&self) -> PacketModel {
        PacketModel {
            vendor_id: self.vendor_id,
            command_id: self.command_id,
            command: self.command,
            ack: self.ack,
            flags: self.flags,
            payload: self.payload@,
            status: self.status,
        }
    }
}

/// Exclusive-or of the first `n` bytes of `data`.
pub fn xor_upto(data: &[u8], n: usize) -> (r: u8)
    requires
        n <= data@.len(),
    ensures
        r == xor_all(data@.take(n as int)),
{
    let mut check: u8 = 0;
    let mut i: usize = 0;
    while i < n
        invariant
            i <= n,
            n <= data@.len(),
            check == xor_all(data@.take(i as int)),
        decreases n - i,
    {
        check = check ^ data[i];
        proof {
            assert(data@.take(i + 1).drop_last() =~= data@.take(i as int));
            assert(data@.take(i + 1).last() == data@[i as int]);
        }
        i = i + 1;
    }
    check
}

/// Decodes one complete staged frame, or returns `None` when the frame is
/// too short, shorter than its declared payload length demands, or fails
/// its checksum.
pub fn parse_gaia_packet(data: &[u8]) -> (r: Option<GaiaPacketEvent>)
    ensures
        r is Some <==> frame_ok(data@),
        r matches Some(p) ==> p@ == parse_model(data@),
{
    if data.len() < 8 {
        return None;
    }
    let flags = data[2];
    let payload_length = data[3] as usize;
    let check_len: usize = if (flags & 1) != 0 {
        1
    } else {
        0
    };
    if data.len() < payload_length + 8 + check_len {
        return None;
    }

    if (flags & 1) != 0 {
        let check = xor_upto(data, data.len() - 1);
        proof {
            assert(data@.take(data@.len() - 1) =~= data@.drop_last());
        }
        if check != data[data.len() - 1] {
            return None;
        }
    }

    let vendor_id = ((data[4] as u16) << 8) | (data[5] as u16);
    let command_id = ((data[6] as u16) << 8) | (data[7] as u16);
    let ack = (command_id & 0x8000) != 0;
    let command = command_id & 0x7FFF;

    let payload_end = 8 + payload_length;
    let payload = if payload_length > 0 {
        vstd::slice::slice_to_vec(&data[8..payload_end])
    } else {
        Vec::new()
    };

    let status = if ack && payload.len() > 0 {
        Some(payload[0])
    } else {
        None
    };

    Some(GaiaPacketEvent { vendor_id, command_id, command, ack, flags, payload, status })
}

} // verus!
