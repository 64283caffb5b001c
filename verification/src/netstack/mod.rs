//! The client-side virtual network: service addresses and names, DNS answers, the TUN packet queue.
pub mod dns;
pub mod network;
pub mod tcp;
pub mod tun;
