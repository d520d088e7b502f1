//! Packaging of smart contract modules for the Concordium chain: the naming rules for
//! a module's exports, suggestions for misspelled contract names, the versioned module
//! format that deployment takes, and the JSON form of a module's schema.
pub mod closest;
pub mod exports;
pub mod module_format;
pub mod names;
pub mod order;
pub mod pipeline;
pub mod schema;
pub mod summary;

use vstd::prelude::*;

verus! {

/// The module format a build targets. It fixes which host functions a module may
/// import, whether exports other than init and receive functions are allowed (V1
/// only), and the 4-byte tag that starts the versioned module.
#[derive(Clone, Copy, Debug, PartialEq, Eq, Structural)]
pub enum WasmVersion {
    V0,
    V1,
}

} // verus!
