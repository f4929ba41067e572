//! Session manager: is told the validators, counts the blocks of a session, and lets validators
//! change the keys under which they act as authorities.

pub mod calls;
pub mod codec;
pub mod genesis;
pub mod laws;
pub mod runtime;
pub mod session;
pub mod state;
pub mod storage_map;
pub mod traits;
