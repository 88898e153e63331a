//! System calls: the decisions behind them.

pub mod mmap;
