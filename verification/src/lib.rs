//! Verified core of a local Ethereum portfolio tracker.

pub mod primitives;
pub mod text;
pub mod chain;
pub mod decode;
pub mod tokens;
pub mod units;
pub mod render;
pub mod rpc;
pub mod portfolio_view;
pub mod staking;
pub mod db;
pub mod holdings;
pub mod keyed;
pub mod config;
pub mod settings;
pub mod data_dir;
pub mod splits;
pub mod csm;
pub mod ens;
pub mod explorer;
pub mod prices;
pub mod interactive;
pub mod sync;
pub mod cli;
