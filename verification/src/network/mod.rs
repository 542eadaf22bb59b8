//! The connections to other elevators.

pub mod p2p_connect;
