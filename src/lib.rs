//! Peer protocol layer of a Raft-style cluster node: wire codec, stream
//! framing, duplicate suppression, peer session bookkeeping and the
//! consensus role engine, and the discovery side of gossip broadcast.
pub mod codec;
pub mod consensus;
pub mod dedup;
pub mod behaviour;
pub mod frame;
pub mod protocol;
pub mod gossip;
