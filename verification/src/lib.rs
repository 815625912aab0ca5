//! Shared helpers for the Polyester SDK examples: settings gates, RSI
//! signals, symbol and order sizing, and order bookkeeping decisions.
pub mod text;
pub mod decimal;
pub mod config;
pub mod indicators;
pub mod markets;
pub mod orders;
