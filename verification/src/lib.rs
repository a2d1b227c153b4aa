//! Watches Uniswap V2 router traffic: picks the swap calls out of a block,
//! decodes their calldata into a normalized swap description, and renders
//! each one as a line such as `Swap 1.5 WETH for 300 DAI`.
//!
//! The crate is organised around the pipeline
//! block -> filter -> classify -> decode -> format:
//! * [`methods`] — the six recognized router methods and their selectors;
//! * [`abi`] — calldata decoding into a [`abi::SwapInput`];
//! * [`filter`] — selection of router-bound transactions from a block;
//! * [`tokens`] — the address-keyed token metadata table;
//! * [`decimal`] — exact fixed-point rendering of raw amounts;
//! * [`format`] — the swap description line;
//! * [`pipeline`] — per-block processing and block sequencing.
pub mod abi;
pub mod address;
pub mod chain;
pub mod config;
pub mod decimal;
pub mod filter;
pub mod format;
pub mod methods;
pub mod pipeline;
pub mod tokens;
