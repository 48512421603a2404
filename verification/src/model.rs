//! Data model of the datacenter and its network.

pub mod graph;
pub mod hardware;
pub mod laws;
pub mod network;
pub mod osi_layers;
pub mod renumbering;
pub mod status;
pub mod topology;
