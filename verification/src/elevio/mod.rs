//! The elevator, its queue of calls, and what it exchanges with the other elevators.

pub mod cost;
pub mod elev;
pub mod fault_handler;
pub mod system;
