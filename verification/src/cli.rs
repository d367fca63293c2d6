//! Options given on the command line.

use vstd::prelude::*;

verus! {

/// Command-line options of the simulator.
#[derive(Clone, Copy, Debug, PartialEq, Eq, Structural)]
pub struct Cli {
    /// Whether buffer swaps wait for the display's vertical sync.
    pub vsync: bool,
}

} // verus!
