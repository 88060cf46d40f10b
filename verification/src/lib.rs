//! Dual-funded (v2) channel establishment: feature gate, funding inputs, interactive
//! transaction negotiation, and the exchange of signatures up to the broadcast.

pub mod views;
pub mod ids;
pub mod tx;
pub mod bitcoin_calls;
pub mod funding;
pub mod config;
pub mod errors;
pub mod witness;
pub mod wallet;
pub mod messages;
pub mod items;
pub mod channel;
pub mod model;
pub mod invariants;
pub mod node;
pub mod negotiation;
pub mod run;
pub mod wallet_node;
pub mod laws;
pub mod lifecycle;
pub mod assembly;
pub mod witness_laws;
pub mod effects;
pub mod coins;
pub mod settings;
