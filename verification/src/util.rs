//! Small helpers for the surrounding system: a default for optional
//! boolean fields of device records, and readable names for the status
//! codes the platform Bluetooth stack reports.

use vstd::prelude::*;

verus! {

/// The value an optional boolean field of a device record takes when it
/// is absent: present and paired.
pub fn default_true() -> (b: bool)
    ensures
        b,
{
    true
}

/// The name of an IOKit / IOBluetooth return code.
pub open spec fn ioreturn_name_spec(code: u32) -> Seq<char> {
    if code == 0x00000000 {
        "kIOReturnSuccess"@
    } else if code == 0xE0020002 {
        "kIOBluetoothConnectionAlreadyExists"@
    } else if code == 0xE00002BC {
        "kIOReturnError"@
    } else if code == 0xE00002C0 {
        "kIOReturnNoDevice"@
    } else if code == 0xE00002C5 {
        "kIOReturnExclusiveAccess"@
    } else if code == 0xE00002CD {
        "kIOReturnNotOpen"@
    } else if code == 0xE00002D6 {
        "kIOReturnTimeout"@
    } else if code == 0xE00002E2 {
        "kIOReturnNotPermitted"@
    } else if code == 0xE00002F0 {
        "kIOReturnNotFound"@
    } else {
        "kIOReturnUnknown"@
    }
}

/// Maps an IOKit / IOBluetooth return code, as the platform hands it
/// over, to its readable name.
pub fn ioreturn_name(code: i32) -> (name: &'static str)
    ensures
        name@ == ioreturn_name_spec(code as u32),
{
    match code as u32 {
        0x00000000 => "kIOReturnSuccess",
        0xE0020002 => "kIOBluetoothConnectionAlreadyExists",
        0xE00002BC => "kIOReturnError",
        0xE00002C0 => "kIOReturnNoDevice",
        0xE00002C5 => "kIOReturnExclusiveAccess",
        0xE00002CD => "kIOReturnNotOpen",
        0xE00002D6 => "kIOReturnTimeout",
        0xE00002E2 => "kIOReturnNotPermitted",
        0xE00002F0 => "kIOReturnNotFound",
        _ => "kIOReturnUnknown",
    }
}

} // verus!
