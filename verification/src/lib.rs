pub mod math;
pub mod coins;
pub mod state;
pub mod error;
pub mod string_map;
pub mod msg;
pub mod store;
pub mod helpers;
pub mod admin;
pub mod env;
pub mod user;
pub mod rewards;
pub mod airdrops;
pub mod unbonding;
pub mod allocation;
pub mod deposits;
pub mod deposit_laws;
pub mod queries;
pub mod compare;
pub mod laws;
pub mod restore;
