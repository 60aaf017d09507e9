//! Advisory file reservations.

pub mod acquire;
pub mod archive;
pub mod arith;
pub mod callers;
pub mod conflict;
pub mod digest;
pub mod errors;
pub mod filter;
pub mod force;
pub mod grants;
pub mod guard;
pub mod intent;
pub mod json;
pub mod laws;
pub mod machine;
pub mod model;
pub mod paths;
pub mod patterns;
pub mod release;
pub mod renew;
pub mod text;
