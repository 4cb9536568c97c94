//! The serial link between host and device: its line settings, and which
//! of the ports of the host the device hangs on.

use vstd::prelude::*;

verus! {

/// The speed of the link in bits per second.
pub const BAUD_RATE: u32 = 115_200;

/// How long a read on the link waits for bytes, in milliseconds.
pub const LINK_TIMEOUT_MS: u64 = 10;

/// The USB vendor ID of the serial adapter of the device.
pub const ADAPTER_VID: u16 = 1027;

/// The USB product ID of the serial adapter of the device.
pub const ADAPTER_PID: u16 = 24577;

/// The port is a USB port with the IDs of the adapter. `usb` holds the
/// vendor and the product ID of a USB port, and nothing for any other port.
pub open spec fn is_adapter(usb: Option<(u16, u16)>) -> bool {
    usb == Some((ADAPTER_VID, ADAPTER_PID))
}

/// The place of the first port in `ports` that is the adapter of the
/// device, `None` if none of them is. Each port is given by its USB vendor
/// and product ID, or by nothing if it is no USB port.
pub fn select_port(ports: &[Option<(u16, u16)>]) -> (place: Option<usize>)
    ensures
        match place {
            Some(i) => i < ports@.len() && is_adapter(ports@[i as int]) && forall|j: int|
                0 <= j < i ==> !is_adapter(#[trigger] ports@[j]),
            None => forall|j: int| 0 <= j < ports@.len() ==> !is_adapter(#[trigger] ports@[j]),
        },
{
    let n: usize = ports.len();
    let mut i: usize = 0;
    while i < n
        invariant
            n == ports@.len(),
            i <= n,
            forall|j: int| 0 <= j < i ==> !is_adapter(#[trigger] ports@[j]),
        decreases n - i,
    {
        match ports[i] {
            Some((vid, pid)) => {
                if vid == ADAPTER_VID && pid == ADAPTER_PID {
                    return Some(i);
                }
            },
            None => {},
        }
        i += 1;
    }
    None
}

} // verus!
