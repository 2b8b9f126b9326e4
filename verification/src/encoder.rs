//! Serialization of one command into its wire-format frame.

use vstd::prelude::*;
use crate::packet::xor_all;
use crate::packet::xor_upto;

verus! {

/// The frame for the given command before the optional checksum: the
/// four header bytes (sync `0xFF`, version `0x01`, flags, payload length),
/// the vendor id and command id as big-endian byte pairs, and the payload.
pub open spec fn frame_head(vendor_id: u16, command_id: u16, payload: Seq<u8>, flags: u8) -> Seq<
    u8,
> {
    seq![
        0xFFu8,
        0x01u8,
        flags,
        payload.len() as u8,
        (vendor_id >> 8) as u8,
        (vendor_id & 0xFF) as u8,
        (command_id >> 8) as u8,
        (command_id & 0xFF) as u8,
    ] + payload
}

/// The complete wire-format frame for the given command: `frame_head`,
/// followed by its exclusive-or checksum byte when flags bit 0 is set.
pub open spec fn frame_bytes(vendor_id: u16, command_id: u16, payload: Seq<u8>, flags: u8) -> Seq<
    u8,
> {
    let head = frame_head(vendor_id, command_id, payload, flags);
    if flags & 1 != 0 {
        head.push(xor_all(head))
    } else {
        head
    }
}

/// Serializes a command into one wire-format frame, or reports that the
/// payload does not fit the single-byte length field.
///
/// The command id is transmitted exactly as given: a caller that intends
/// an acknowledgement frame sets the high bit itself.
pub fn gaia_frame(vendor_id: u16, command_id: u16, payload: &[u8], flags: u8) -> (r: Result<
    Vec<u8>,
    String,
>)
    ensures
        r is Ok <==> payload@.len() <= 254,
        r matches Ok(frame) ==> frame@ == frame_bytes(vendor_id, command_id, payload@, flags),
        r matches Err(e) ==> e@ == "Payload too long"@,
{
    broadcast use vstd::string::group_string_axioms;

    if payload.len() > 254 {
        return Err("Payload too long".to_string());
    }

    let check_len: usize = if (flags & 1) != 0 {
        1
    } else {
        0
    };
    let mut frame: Vec<u8> = Vec::with_capacity(8 + payload.len() + check_len);
    frame.push(0xFF);
    frame.push(0x01);
    frame.push(flags);
    frame.push(payload.len() as u8);
    frame.push((vendor_id >> 8) as u8);
    frame.push((vendor_id & 0xFF) as u8);
    frame.push((command_id >> 8) as u8);
    frame.push((command_id & 0xFF) as u8);
    frame.extend_from_slice(payload);
    proof {
        assert(frame@ =~= frame_head(vendor_id, command_id, payload@, flags));
    }

    if check_len == 1 {
        let check = xor_upto(frame.as_slice(), frame.len());
        proof {
            assert(frame@.take(frame@.len() as int) =~= frame@);
        }
        frame.push(check);
    }

    Ok(frame)
}

} // verus!
