//! What the library is for, said of inputs and results alone: who is named, what is
//! granted, released, renewed and refused. `calls` and `steps` say it of the functions
//! themselves; the others, of what the contracts of those are made of.

pub mod acquire;
pub mod archive;
pub mod calls;
pub mod conflict;
pub mod errors;
pub mod failures;
pub mod filter;
pub mod force;
pub mod guard;
pub mod intent;
pub mod lookup;
pub mod paths;
pub mod release;
pub mod renew;
pub mod request;
pub mod steps;
pub mod text;
