//! Session transport: diagnostics lines, hello framing, rendezvous messages and the UDP session protocol.
pub mod p2p_diag;
pub mod rendezvous;
pub mod session;
pub mod udp_session;
