//! The command line of the console program.
use vstd::prelude::*;

verus! {

/// The command line options.
pub struct Opt {
    /// The network interface to attach the XDP program to.
    pub iface: String,
}

} // verus!
