//! Peer consultation: asking another model in the mesh for help.

pub mod performance;
pub mod decimal;
pub mod json;
pub mod lexicographic;
pub mod peers;
pub mod candidates;
pub mod selection;
pub mod ranking;
pub mod text;
pub mod http;
pub mod errors;
pub mod chat;
pub mod opinions;
pub mod race;
