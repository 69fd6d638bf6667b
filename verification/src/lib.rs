//! Decision logic of a multi-network orderbook service: cache keys, the
//! response envelope, request gating, pair enumeration, orderbook freshness
//! and the per-block update of the component list.

pub mod api;
pub mod data;
pub mod getters;
pub mod helpers;
pub mod keys;
pub mod lookup;
pub mod misc;
pub mod orderbook;
pub mod pairs;
pub mod stream;
pub mod text;
pub mod types;
