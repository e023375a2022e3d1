//! A cross-margin lending pool: banks that pool one asset each and track
//! deposits and borrows in fixed-point shares, lending accounts with a fixed
//! number of balance slots, a risk engine that values accounts with weighted
//! oracle prices, liquidation, flash loans and bankruptcy handling.
pub mod account;
pub mod bank;
pub mod bankruptcy;
pub mod cli;
pub mod errors;
pub mod fixed_point;
pub mod flashloan;
pub mod instructions;
pub mod laws;
pub mod liquidation;
pub mod risk;
