//! The ports of a scan: every TCP port, each one once, in rising order.

use vstd::prelude::*;

verus! {

/// The highest TCP port.
pub const MAX_PORT: u16 = 65535;

/// How many ports a scan probes: all of them.
pub const PORT_COUNT: usize = 65536;

/// The plan of a scan: port `n` stands at place `n`.
pub open spec fn all_ports() -> Seq<u16> {
    Seq::new(PORT_COUNT as nat, |i: int| i as u16)
}

} // verus!
