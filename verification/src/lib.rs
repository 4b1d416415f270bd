//! A minimal deterministic state-machine runtime.
//!
//! Independent state modules ("pallets") each own a slice of the global
//! state. A runtime composes them and executes blocks of extrinsics, routing
//! every call to the pallet that owns it.
pub mod balances;
pub mod numeric;
pub mod runtime;
pub mod support;
pub mod system;
pub mod table;
