//! Bridges a local client's agent-protocol traffic to a key agent: the
//! length-prefixed frame codec, the staged shared-memory request exchange,
//! the rendezvous file of the loopback-socket agent, and the decisions of the
//! two-way relay between the client's streams and the backend.

pub mod frame;
pub mod pageant;
pub mod assuan;
pub mod relay;
