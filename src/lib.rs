//! Remote-session synchronization core of a terminal multiplexer client:
//! identifier allocation, remote/local entity id maps, the remote domain
//! controller and the cross-thread dispatch queue, each with verified contracts.

pub mod ids;
pub mod idmap;
pub mod mux;
pub mod domain;
pub mod daemon;
pub mod spawn_queue;
pub mod rpc;
