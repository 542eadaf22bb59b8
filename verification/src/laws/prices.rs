//! What an elevator asks for a hall call.

use vstd::prelude::*;

use crate::elevio::cost;
use crate::elevio::cost::MAX_QUEUE;
use crate::elevio::elev::{DIRN_DOWN, DIRN_STOP, DIRN_UP};

verus! {

/// An obstructed elevator asks half of the largest number for every call, wherever it is and
/// however many calls wait.
pub proof fn obstructed_price_is_fixed(floor: u8, direction: u8, waiting: usize, to: u8, way: u8)
    ensures
        cost::call_cost(floor, direction, waiting, to, way, true) == i32::MAX / 2,
{
}

/// Each call that waits already adds five to the price of a free elevator.
pub proof fn waiting_call_adds_five(floor: u8, direction: u8, waiting: usize, to: u8, way: u8)
    requires
        waiting < i32::MAX,
    ensures
        cost::call_cost(floor, direction, (waiting + 1) as usize, to, way, false)
            == cost::call_cost(floor, direction, waiting, to, way, false) + 5,
{
}

/// A free elevator that stands still with no call waiting asks ten for each floor of its way, less
/// ten; at the floor of the call it asks minus a hundred and ten.
pub proof fn idle_price_is_the_distance(floor: u8, to: u8, way: u8)
    ensures
        floor == to ==> cost::call_cost(floor, DIRN_STOP, 0, to, way, false) == -110,
        floor < to ==> cost::call_cost(floor, DIRN_STOP, 0, to, way, false) == 10 * (to - floor)
            - 10,
        floor > to ==> cost::call_cost(floor, DIRN_STOP, 0, to, way, false) == 10 * (floor - to)
            - 10,
{
}

/// An elevator that does not stand still asks ten more than one that does; forty more if it moves
/// away from the call; ten less if it moves towards the call and the call is marked with the
/// direction of the elevator.
pub proof fn moving_changes_the_price(floor: u8, direction: u8, waiting: usize, to: u8, way: u8)
    requires
        direction != DIRN_STOP,
    ensures
        ({
            let idle = cost::call_cost(floor, DIRN_STOP, waiting, to, way, false);
            let moving = cost::call_cost(floor, direction, waiting, to, way, false);
            if (direction == DIRN_UP && to < floor) || (direction == DIRN_DOWN && to > floor) {
                moving == idle + 40
            } else if way == direction && ((direction == DIRN_UP && to > floor) || (direction
                == DIRN_DOWN && to < floor)) {
                moving == idle - 10
            } else {
                moving == idle + 10
            }
        }),
{
}

/// The longest queue is the longest one for which the dearest call is priced within 32 bits: a call
/// 255 floors away, for an elevator that moves away from it.
pub proof fn longest_queue_is_the_longest()
    ensures
        5 * MAX_QUEUE + 2550 + 30 <= i32::MAX,
        5 * (MAX_QUEUE + 1) + 2550 + 30 > i32::MAX,
        forall|n: nat, blocked: bool| #[trigger]
            cost::priceable(n, blocked) == (blocked || 5 * n + 2550 + 30 <= i32::MAX),
{
}

} // verus!
