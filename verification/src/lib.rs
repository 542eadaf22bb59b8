//! Control logic for a group of elevators that share the hall calls of one building.

pub mod action;
pub mod control;
pub mod elevio;
pub mod events;
pub mod laws;
pub mod network;
pub mod startup;
pub mod table;
pub mod text;
