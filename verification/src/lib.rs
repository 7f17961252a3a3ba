//! An extension layer that lets a local chain simulator impersonate an
//! Arbitrum-style rollup: fixed-address precompile handlers answered
//! deterministically from a shared configuration, and the type `0x7e`
//! deposit-transaction envelope with canonical binary encoding, validation,
//! and a gas/cost pipeline.

pub mod address;
pub mod cli;
pub mod codec;
pub mod config;
pub mod digest;
pub mod errors;
pub mod precompiles;
pub mod tx7e;
pub mod u256;
pub mod words;
