//! Schema types, value encodings and state bookkeeping for modules.
pub mod kind;
pub mod value;
pub mod errors;
pub mod binary;
mod text;
pub mod mem;
pub mod codec;
pub mod dynamic;
pub mod digits;
pub mod db;
pub mod snapshot;
pub mod handler;
pub mod uint_map;
pub mod tx_store;
pub mod derive_plan;
pub mod collect;
pub mod list;
pub mod any;
pub mod field;
pub mod structs;
pub mod enums;
pub mod schema;
pub mod message;
pub mod encoding;
pub mod state_object;
pub mod types;
pub mod json;
pub mod table;
pub mod bank;
pub mod community_pool;
pub mod scheduler;
