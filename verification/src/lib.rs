//! Verified core logic of the Remitwise contracts: the emergency killswitch,
//! the insurance policy registry and the remittance orchestrator.

pub mod bytes;
pub mod flow;
pub mod insurance;
pub mod killswitch;
pub mod orchestrator;
pub mod symbol;
pub mod table;
pub mod wasm_budget;
