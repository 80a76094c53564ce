pub mod backtest;
pub mod cli;
pub mod data;
pub mod engine;
pub mod error;
pub mod strat;
pub mod text;
