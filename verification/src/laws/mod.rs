//! What holds of the elevators as a whole.

pub mod assignment;
pub mod choice;
pub mod faults;
pub mod messages;
pub mod prices;
pub mod record;
pub mod serving;
pub mod signals;
pub mod travel;
pub mod wire;
