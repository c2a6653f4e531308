//! Off-chain order matching with on-chain settlement: the verified core.
pub mod bytes;
pub mod uint;
pub mod primitives;
pub mod types;
pub mod book;
pub mod engine;
pub mod engine_laws;
pub mod ledger;
pub mod ledger_laws;
pub mod eip712;
pub mod state;
pub mod state_laws;
pub mod fill_record;
pub mod settlement;
pub mod deposit;
pub mod hex_text;
pub mod ws;
pub mod routes;
pub mod serialization;
pub mod cli;
