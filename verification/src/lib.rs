//! Host-side logic of Lithographer: the `litho -o gui` line protocol, the
//! operation runner's state machine, privilege/elevation decisions, startup
//! diagnostics, launch-argument parsing and storage-device presentation.
pub mod text;
pub mod fields;
pub mod litho_output;
pub mod privilege;
pub mod litho_runner;
pub mod launch;
pub mod diagnostics;
pub mod devices;
pub mod litho_sidecar;

use vstd::prelude::*;

verus! {

} // verus!
