//! How an elevator moves, stops, and serves its calls.

use vstd::prelude::*;

use crate::action::ActionView;
use crate::control;
use crate::control::ServeOutcome;
use crate::elevio::cost::MessageView;
use crate::elevio::elev;
use crate::elevio::elev::{ElevatorView, CAB, DIRN_DOWN, DIRN_STOP, DIRN_UP, HALL_DOWN, HALL_UP};
use crate::elevio::fault_handler;
use crate::elevio::system;
use crate::elevio::system::SystemView;
use crate::events;
use crate::laws::assignment;
use crate::laws::faults;
use crate::table;

verus! {

/// The kind of a hall call and the direction of its passengers determine each other, and turning
/// twice is not turning at all.
pub proof fn directions_and_calls_match()
    ensures
        control::call_of_direction(control::direction_of_call(HALL_UP)) == HALL_UP,
        control::call_of_direction(control::direction_of_call(HALL_DOWN)) == HALL_DOWN,
        control::call_of_direction(control::direction_of_call(CAB)) == CAB,
        forall|d: u8|
            d == DIRN_UP || d == DIRN_DOWN || d == DIRN_STOP ==> control::direction_of_call(
                #[trigger] control::call_of_direction(d),
            ) == d,
        forall|d: u8|
            d == DIRN_UP || d == DIRN_DOWN ==> control::reversed(#[trigger] control::reversed(d))
                == d,
{
}

/// There is a next call just if some call waits. It is one ahead of the elevator if there is one;
/// else one at its floor if there is one.
pub proof fn next_call_is_waiting(elevator: ElevatorView)
    ensures
        (control::next_call(elevator) is None) == (elevator.call_buttons.len() == 0),
        match control::next_call(elevator) {
            Some(i) => {
                &&& 0 <= i < elevator.call_buttons.len()
                &&& control::more_ahead(elevator) ==> control::lies_ahead(
                    elevator,
                    elevator.call_buttons[i],
                )
                &&& !control::more_ahead(elevator) && (exists|j: int|
                    0 <= j < elevator.call_buttons.len() && (#[trigger] elevator.call_buttons[j])[0]
                        == elevator.current_floor) ==> elevator.call_buttons[i][0]
                    == elevator.current_floor
            },
            None => true,
        },
{
    let queue = elevator.call_buttons;
    elev::first_index_meaning(queue, control::ahead_of(elevator));
    elev::first_index_meaning(queue, control::at_floor(elevator.current_floor));
}

/// The call that is served at a floor waits in the queue and is for this floor.
pub proof fn served_call_is_for_this_floor(elevator: ElevatorView, floor: u8)
    ensures
        match control::serving_place(elevator, floor) {
            Some(i) => 0 <= i < elevator.call_buttons.len() && elevator.call_buttons[i][0] == floor,
            None => forall|i: int|
                0 <= i < elevator.call_buttons.len() ==> !control::goes_along(
                    elevator,
                    floor,
                    #[trigger] elevator.call_buttons[i],
                ),
        },
{
    let queue = elevator.call_buttons;
    elev::first_index_meaning(queue, control::along(elevator, floor));
    elev::first_index_meaning(queue, control::back(elevator, floor));
}

/// Whether a call is for another floor.
pub open spec fn away_from(floor: u8) -> spec_fn(Seq<u8>) -> bool {
    |call: Seq<u8>| call[0] != floor
}

/// The calls of a queue that are for other floors.
pub open spec fn elsewhere(queue: Seq<Seq<u8>>, floor: u8) -> Seq<Seq<u8>> {
    queue.filter(away_from(floor))
}

/// Removing what does not pass a test leaves what passes it.
proof fn lemma_filter_remove<A>(s: Seq<A>, test: spec_fn(A) -> bool, i: int)
    requires
        0 <= i < s.len(),
        !test(s[i]),
    ensures
        s.remove(i).filter(test) == s.filter(test),
    decreases s.len(),
{
    reveal(Seq::filter);
    let last = s.len() - 1;
    if i == last {
        assert(s.remove(i) =~= s.drop_last());
    } else {
        lemma_filter_remove(s.drop_last(), test, i);
        assert(s.remove(i).drop_last() =~= s.drop_last().remove(i));
        assert(s.remove(i).last() == s.last());
    }
}

/// Removing a call from a queue that holds no call twice leaves it so.
proof fn lemma_remove_no_duplicates<A>(s: Seq<A>, i: int)
    requires
        s.no_duplicates(),
        0 <= i < s.len(),
    ensures
        s.remove(i).no_duplicates(),
        !s.remove(i).contains(s[i]),
{
    table::lemma_without_key(s, i);
    table::lemma_without_key_contains(s, s[i]);
}

/// Serving calls at a floor leaves the calls for other floors in the queue, in their order.
pub proof fn serving_keeps_the_other_floors(s: SystemView, floor: u8)
    ensures
        elsewhere(control::served(s, floor).elevator.call_buttons, floor) == elsewhere(
            s.elevator.call_buttons,
            floor,
        ),
        forall|k: (u8, u8)|
            #![trigger control::served(s, floor).hall_calls.dom().contains(k)]
            k.0 != floor ==> control::served(s, floor).hall_calls.dom().contains(k)
                == s.hall_calls.dom().contains(k) && control::served(s, floor).hall_calls[k]
                == s.hall_calls[k],
        control::served(s, floor).elevator.current_direction == s.elevator.current_direction,
        control::served(s, floor).elevator.current_floor == s.elevator.current_floor,
{
    let test = away_from(floor);
    let queue = s.elevator.call_buttons;
    served_call_is_for_this_floor(s.elevator, floor);
    if let Some(i) = control::serving_place(s.elevator, floor) {
        lemma_filter_remove(queue, test, i);
        let rest = queue.remove(i);
        elev::first_index_meaning(rest, control::cab_calls(floor));
        if let Some(j) = elev::first_index(rest, control::cab_calls(floor)) {
            lemma_filter_remove(rest, test, j);
        }
    }
}

/// Leaving a floor keeps the calls for other floors in the queue, in their order.
pub proof fn leaving_keeps_the_other_floors(s: SystemView, floor: u8)
    ensures
        elsewhere(control::departed(s, floor).elevator.call_buttons, floor) == elsewhere(
            s.elevator.call_buttons,
            floor,
        ),
        forall|k: (u8, u8)|
            #![trigger control::departed(s, floor).hall_calls.dom().contains(k)]
            k.0 != floor ==> control::departed(s, floor).hall_calls.dom().contains(k)
                == s.hall_calls.dom().contains(k) && control::departed(s, floor).hall_calls[k]
                == s.hall_calls[k],
{
    let test = away_from(floor);
    let queue = s.elevator.call_buttons;
    next_call_is_waiting(s.elevator);
    if let Some(i) = control::next_call(s.elevator) {
        if queue[i][0] == floor {
            lemma_filter_remove(queue, test, i);
        }
    }
}

/// A hall call that is served is off the record, and out of the queue if it was there once.
pub proof fn served_call_is_done(s: SystemView, floor: u8)
    requires
        s.elevator.call_buttons.no_duplicates(),
        control::serving_place(s.elevator, floor) is Some,
    ensures
        ({
            let call = s.elevator.call_buttons[control::serving_place(s.elevator, floor)->0];
            let after = control::served(s, floor);
            &&& call[1] != CAB ==> !after.hall_calls.dom().contains((floor, call[1]))
            &&& !after.elevator.call_buttons.contains(call)
            &&& after.elevator.call_buttons.no_duplicates()
        }),
{
    let queue = s.elevator.call_buttons;
    served_call_is_for_this_floor(s.elevator, floor);
    let i = control::serving_place(s.elevator, floor)->0;
    lemma_remove_no_duplicates(queue, i);
    let rest = queue.remove(i);
    elev::first_index_meaning(rest, control::cab_calls(floor));
    if let Some(j) = elev::first_index(rest, control::cab_calls(floor)) {
        lemma_remove_no_duplicates(rest, j);
        table::lemma_without_key(rest, j);
        table::lemma_without_key_contains(rest, rest[j]);
    }
}

/// Leaving a floor puts no call into the queue twice.
pub proof fn leaving_repeats_no_call(s: SystemView, floor: u8)
    requires
        s.elevator.call_buttons.no_duplicates(),
    ensures
        control::departed(s, floor).elevator.call_buttons.no_duplicates(),
{
    next_call_is_waiting(s.elevator);
    if let Some(i) = control::next_call(s.elevator) {
        lemma_remove_no_duplicates(s.elevator.call_buttons, i);
    }
}

/// Whether an action sets the elevator moving.
pub open spec fn moves(a: ActionView) -> bool {
    a matches ActionView::MotorDirection(dirn) && dirn != DIRN_STOP
}

/// Whether an action opens the door.
pub open spec fn opens(a: ActionView) -> bool {
    a == ActionView::DoorLight(true)
}

/// An elevator that serves a call stops its motor before it opens the door, and does not move again
/// on that account; the open door is the last thing that is asked for.
pub proof fn stops_before_the_door_opens(s: SystemView, floor: u8)
    ensures
        ({
            let actions = control::serve_actions(s, floor);
            &&& forall|i: int| 0 <= i < actions.len() ==> !moves(#[trigger] actions[i])
            &&& forall|i: int|
                0 <= i < actions.len() && opens(#[trigger] actions[i]) ==> i == actions.len() - 1
                    && exists|j: int|
                    0 <= j < i && #[trigger] actions[j] == ActionView::MotorDirection(DIRN_STOP)
            &&& control::serving_place(s.elevator, floor) is Some ==> actions.len() > 0 && opens(
                actions.last(),
            )
            &&& control::serving_place(s.elevator, floor) is None ==> actions.len() == 0
        }),
{
    let actions = control::serve_actions(s, floor);
    if let Some(place) = control::serving_place(s.elevator, floor) {
        let kind = s.elevator.call_buttons[place][1];
        let light = seq![ActionView::CallButtonLight { floor, call: kind, on: false }];
        let extra = control::extra_cab_actions(
            s.local_id,
            control::without_place(s.elevator, place),
            floor,
        );
        let motor = seq![ActionView::MotorDirection(DIRN_STOP)];
        let word = if kind != CAB {
            s.broadcast(MessageView::CompletedCall { floor, direction: kind })
        } else {
            seq![
                fault_handler::save_action(
                    s.local_id,
                    control::after_serving(s.elevator, floor, place),
                ),
            ]
        };
        let m = 1 + extra.len();
        assert(actions == light + extra + motor + word + seq![ActionView::DoorLight(true)]);
        assert(actions[m as int] == ActionView::MotorDirection(DIRN_STOP));
        assert forall|i: int| 0 <= i < actions.len() implies !moves(#[trigger] actions[i]) && (
        opens(actions[i]) ==> i == actions.len() - 1) by {
            if 0 < i < m {
                assert(actions[i] == extra[i - 1]);
            } else if m < i < actions.len() - 1 {
                assert(actions[i] == word[i - m - 1]);
            }
        }
    }
}

/// An elevator that leaves a floor closes its door before it moves, and does not open it again. One
/// that is held by an obstruction does neither.
pub proof fn door_closes_before_moving(s: SystemView, floor: u8)
    ensures
        ({
            let actions = control::depart_actions(s, floor);
            &&& forall|i: int| 0 <= i < actions.len() ==> !opens(#[trigger] actions[i])
            &&& forall|i: int|
                0 <= i < actions.len() && moves(#[trigger] actions[i]) ==> exists|j: int|
                    0 <= j < i && #[trigger] actions[j] == ActionView::DoorLight(false)
            &&& !s.elevator.is_obstructed ==> actions.len() > 0 && actions.last()
                == ActionView::DoorLight(false)
            &&& s.elevator.is_obstructed ==> actions.len() == 0 && control::departed(s, floor) == s
        }),
{
    let actions = control::depart_actions(s, floor);
    if !s.elevator.is_obstructed && control::next_call(s.elevator) is Some {
        let place = control::next_call(s.elevator)->0;
        let dirn = control::leaving_direction(s, floor, place);
        let look = control::look_actions(s, floor, place);
        let pause = if dirn == control::reversed(s.elevator.current_direction) {
            seq![ActionView::Pause { millis: control::TURN_DELAY }]
        } else {
            Seq::empty()
        };
        let n = look.len() + pause.len();
        assert(actions[n as int] == ActionView::DoorLight(false));
        assert(actions[n as int + 1] == ActionView::MotorDirection(dirn));
        assert forall|i: int| 0 <= i < n implies !opens(#[trigger] actions[i]) && !moves(
            actions[i],
        ) by {
            if i < look.len() {
                assert(actions[i] == look[i]);
                let kind = s.elevator.call_buttons[place][1];
                if kind != CAB {
                    let told = s.broadcast(
                        MessageView::CompletedCall { floor, direction: kind },
                    );
                    if i < told.len() {
                        assert(look[i] == told[i]);
                    }
                }
            } else {
                assert(actions[i] == pause[i - look.len()]);
            }
        }
    }
}

/// An elevator that is free to go leaves a floor only towards a call that waits in that direction.
pub proof fn leaves_towards_a_call(s: SystemView, floor: u8)
    requires
        s.elevator.valid(),
        s.elevator.call_buttons.len() > 0,
        !s.elevator.is_obstructed,
    ensures
        ({
            let after = control::departed(s, floor).elevator;
            &&& after.current_direction == DIRN_UP ==> exists|i: int|
                0 <= i < after.call_buttons.len() && (#[trigger] after.call_buttons[i])[0] > floor
            &&& after.current_direction == DIRN_DOWN ==> exists|i: int|
                0 <= i < after.call_buttons.len() && (#[trigger] after.call_buttons[i])[0] < floor
            &&& after.current_direction == DIRN_UP || after.current_direction == DIRN_DOWN
                || after.current_direction == DIRN_STOP
        }),
{
    next_call_is_waiting(s.elevator);
    let place = control::next_call(s.elevator)->0;
    let after = control::departed(s, floor).elevator;
    if s.elevator.call_buttons[place][0] == floor {
        let rest = control::served_at_once(s, floor, place).elevator;
        next_call_is_waiting(rest);
        if let Some(i) = control::next_call(rest) {
            assert(after.call_buttons[i] == rest.call_buttons[i]);
        }
    } else {
        assert(after.call_buttons[place] == s.elevator.call_buttons[place]);
    }
}

/// An elevator that serves a call while the obstruction lever is set is held with its door open, and
/// is obstructed from then on; while it has no call to serve, the lever does not hold it, and nothing
/// is asked for.
pub proof fn obstruction_holds_the_open_door(s: SystemView, floor: u8)
    requires
        control::lever_set(s.elevator),
    ensures
        control::serving_place(s.elevator, floor) is Some ==> control::serve_outcome(s, floor)
            == ServeOutcome::HeldOpen && opens(control::serve_actions(s, floor).last())
            && control::served(s, floor).elevator.is_obstructed,
        control::serving_place(s.elevator, floor) is None ==> control::serve_outcome(s, floor)
            == ServeOutcome::NoCall && control::served(s, floor) == s && control::serve_actions(
            s,
            floor,
        ).len() == 0,
{
    stops_before_the_door_opens(s, floor);
}

/// An obstructed elevator does not move: a call from the cab or from a hall is queued and lit, but
/// the motor is not started, the direction is kept, and the elevator does not leave the floor.
pub proof fn obstructed_elevator_does_not_move(
    s: SystemView,
    floor: u8,
    direction: u8,
    timestamp: u64,
)
    requires
        s.elevator.is_obstructed,
    ensures
        control::depart_actions(s, floor).len() == 0,
        control::departed(s, floor) == s,
        ({
            let actions = events::cab_call_actions(s, floor);
            &&& forall|i: int| 0 <= i < actions.len() ==> !moves(#[trigger] actions[i])
            &&& events::cab_called(s, floor).elevator == s.elevator_with_call(floor, CAB)
        }),
        ({
            let actions = s.assign_actions(floor, direction, timestamp);
            let after = s.assigned(floor, direction, timestamp);
            &&& forall|i: int| 0 <= i < actions.len() ==> !moves(#[trigger] actions[i])
            &&& after.elevator == s.elevator || after.elevator == s.elevator_with_call(
                floor,
                direction,
            )
            &&& !s.settled(floor, direction, timestamp) && s.chosen(floor, direction) == s.local_id
                ==> after.elevator == s.elevator_with_call(floor, direction) && actions == seq![
                ActionView::CallButtonLight { floor, call: direction, on: true },
            ]
        }),
{
}

/// Turning over the hall calls of an obstructed elevator does not start it either.
pub proof fn turning_over_does_not_move(s: SystemView, calls: Seq<(u8, u8, u64)>)
    requires
        s.elevator.is_obstructed,
    ensures
        forall|i: int|
            0 <= i < s.turn_over_actions(calls).len() ==> !moves(
                #[trigger] s.turn_over_actions(calls)[i],
            ),
        s.turned_over(calls).elevator.is_obstructed,
        s.turned_over(calls).elevator.current_direction == s.elevator.current_direction,
    decreases calls.len(),
{
    if calls.len() > 0 {
        let front = calls.drop_last();
        let c = calls.last();
        turning_over_does_not_move(s, front);
        let opened = s.turned_over(front).with_open_call(c.0, c.1, c.2);
        obstructed_elevator_does_not_move(opened, c.0, c.1, c.2);
        let actions = s.turn_over_actions(calls);
        let earlier = s.turn_over_actions(front);
        let more = opened.assign_actions(c.0, c.1, c.2);
        assert forall|i: int| 0 <= i < actions.len() implies !moves(#[trigger] actions[i]) by {
            if i < earlier.len() {
                assert(actions[i] == earlier[i]);
            } else {
                assert(actions[i] == more[i - earlier.len()]);
            }
        }
    }
}

/// The stop button stops the motor before anything else, and leaves the elevator standing still with
/// an empty queue, wherever it is.
pub proof fn stop_button_stops_and_clears(s: SystemView)
    ensures
        events::stopped(s).elevator.call_buttons.len() == 0,
        events::stopped(s).elevator.current_direction == DIRN_STOP,
        (seq![ActionView::MotorDirection(DIRN_STOP)] + events::lights_off(
            s.elevator.num_floors as nat,
        )).first() == ActionView::MotorDirection(DIRN_STOP),
        forall|i: int|
            0 <= i < events::lights_off(s.elevator.num_floors as nat).len() ==> !moves(
                #[trigger] events::lights_off(s.elevator.num_floors as nat)[i],
            ),
{
}

/// What follows the stop does not fill the queue again or start the motor: the elevator stands still
/// with an empty queue.
pub proof fn stopped_elevator_stays_stopped(s: SystemView)
    ensures
        ({
            let halted = events::stopped(s);
            let after = halted.handed_on(events::own_calls(halted));
            &&& after.elevator == halted.elevator
            &&& after.elevator.call_buttons.len() == 0
            &&& after.elevator.current_direction == DIRN_STOP
        }),
{
    let halted = events::stopped(s);
    lemma_handed_on(halted, events::own_calls(halted));
}

/// Handing calls on leaves everything but the record of the hall calls.
proof fn lemma_handed_on(s: SystemView, calls: Seq<(u8, u8, u64)>)
    ensures
        s.handed_on(calls).elevator == s.elevator,
        s.handed_on(calls).local_id == s.local_id,
        s.handed_on(calls).states == s.states,
        s.handed_on(calls).state_order == s.state_order,
        s.handed_on(calls).peers == s.peers,
    decreases calls.len(),
{
    if calls.len() > 0 {
        lemma_handed_on(s, calls.drop_last());
    }
}

/// The elevator that is chosen in place of the local one is another one that is known, and there is
/// one just if another one is known.
pub proof fn chosen_other_is_known(s: SystemView, floor: u8, direction: u8)
    requires
        s.valid(),
    ensures
        match s.chosen_other(floor, direction) {
            Some(id) => id != s.local_id && s.states.dom().contains(id),
            None => forall|id: Seq<char>| #[trigger]
                s.states.dom().contains(id) ==> id == s.local_id,
        },
{
    let others = s.others();
    table::lemma_without_key_contains(s.state_order, s.local_id);
    if others.len() > 0 {
        let bids = s.bids_of(others, floor, direction);
        assignment::best_bid_is_best(bids);
        let best = system::best_bid(bids);
        let i = choose|i: int| 0 <= i < bids.len() && bids[i] == best;
        assert(others.contains(others[i]));
        assert(s.state_order.contains(others[i]));
    } else {
        assert forall|id: Seq<char>| #[trigger] s.states.dom().contains(id) implies id
            == s.local_id by {
            assert(s.state_order.contains(id));
            if id != s.local_id {
                assert(others.contains(id));
            }
        }
    }
}

/// Handing calls on changes the record of just those calls: each keeps its place on record and gets
/// the time it is handed on with, at an elevator that is known and is not the local one.
proof fn lemma_handed_on_calls(s: SystemView, calls: Seq<(u8, u8, u64)>)
    requires
        s.valid(),
    ensures
        ({
            let after = s.handed_on(calls);
            &&& after.valid()
            &&& forall|k: (u8, u8)|
                #![trigger after.hall_calls.dom().contains(k)]
                #![trigger after.hall_calls[k]]
                !faults::lists(calls, k) ==> after.hall_calls.dom().contains(k)
                    == s.hall_calls.dom().contains(k) && after.hall_calls[k] == s.hall_calls[k]
            &&& s.others().len() == 0 ==> after == s
            &&& s.others().len() > 0 ==> forall|k: (u8, u8)|
                #![trigger after.hall_calls.dom().contains(k)]
                #![trigger after.hall_calls[k]]
                faults::lists(calls, k) ==> after.hall_calls.dom().contains(k)
                    && after.hall_calls[k].0 != s.local_id && s.states.dom().contains(
                    after.hall_calls[k].0,
                ) && calls.contains((k.0, k.1, after.hall_calls[k].1))
        }),
    decreases calls.len(),
{
    if calls.len() > 0 {
        let front = calls.drop_last();
        let c = calls.last();
        lemma_handed_on_calls(s, front);
        lemma_handed_on(s, front);
        let before = s.handed_on(front);
        let after = s.handed_on(calls);
        chosen_other_is_known(before, c.0, c.1);
        table::lemma_with_key(before.hall_order, (c.0, c.1));
        assert(calls[calls.len() - 1] == c);
        assert forall|k: (u8, u8)|
            #![trigger after.hall_calls[k]]
            !faults::lists(calls, k) implies after.hall_calls.dom().contains(k)
            == s.hall_calls.dom().contains(k) && after.hall_calls[k] == s.hall_calls[k] by {
            if faults::lists(front, k) {
                let i = choose|i: int|
                    0 <= i < front.len() && (#[trigger] front[i]).0 == k.0 && front[i].1 == k.1;
                assert(calls[i].0 == k.0);
            }
            assert(before.hall_calls[k] == s.hall_calls[k]);
            assert(k != (c.0, c.1));
        }
        if s.others().len() > 0 {
            assert forall|k: (u8, u8)|
                #![trigger after.hall_calls[k]]
                faults::lists(calls, k) implies after.hall_calls.dom().contains(k)
                && after.hall_calls[k].0 != s.local_id && s.states.dom().contains(
                after.hall_calls[k].0,
            ) && calls.contains((k.0, k.1, after.hall_calls[k].1)) by {
                if k == (c.0, c.1) {
                    assert(calls[calls.len() - 1] == (k.0, k.1, c.2));
                } else {
                    let i = choose|i: int|
                        0 <= i < calls.len() && (#[trigger] calls[i]).0 == k.0 && calls[i].1 == k.1;
                    assert(front[i] == calls[i]);
                    assert(faults::lists(front, k));
                    assert(after.hall_calls[k] == before.hall_calls[k]);
                    let call = (k.0, k.1, after.hall_calls[k].1);
                    let j = choose|j: int| 0 <= j < front.len() && front[j] == call;
                    assert(calls[j] == call);
                }
            }
        }
    }
}

/// A stopped elevator hands its hall calls on: each stays on record with its time, and while another
/// elevator is known, none stays with the stopped one. The calls of others are left as they are.
pub proof fn stopped_elevator_hands_its_calls_on(s: SystemView, k: (u8, u8))
    requires
        s.valid(),
        s.hall_calls.dom().contains(k),
    ensures
        ({
            let halted = events::stopped(s);
            let after = halted.handed_on(events::own_calls(halted));
            &&& after.hall_calls.dom().contains(k)
            &&& after.hall_calls[k].1 == s.hall_calls[k].1
            &&& s.hall_calls[k].0 != s.local_id ==> after.hall_calls[k] == s.hall_calls[k]
            &&& (exists|id: Seq<char>| #[trigger] s.states.dom().contains(id) && id != s.local_id)
                ==> after.hall_calls[k].0 != s.local_id && (s.hall_calls[k].0 == s.local_id
                ==> s.states.dom().contains(after.hall_calls[k].0))
        }),
{
    let halted = events::stopped(s);
    system::lemma_with_elevator(s, halted.elevator);
    let ids = seq![halted.local_id];
    let keys = halted.held_by(ids);
    let calls = events::own_calls(halted);
    let after = halted.handed_on(calls);
    faults::lemma_held_calls(halted, ids);
    lemma_handed_on_calls(halted, calls);
    chosen_other_is_known(halted, k.0, k.1);
    assert(ids[0] == halted.local_id);
    if s.hall_calls[k].0 == s.local_id {
        assert(ids.contains(halted.hall_calls[k].0));
        assert(halted.hall_order.contains(k));
        assert(keys.contains(k));
        assert(faults::lists(calls, k));
        if halted.others().len() > 0 {
            let call = (k.0, k.1, after.hall_calls[k].1);
            let i = choose|i: int| 0 <= i < calls.len() && calls[i] == call;
            assert(calls[i] == halted.timed(keys[i]));
            assert(keys[i] == k);
        }
    } else {
        assert(!keys.contains(k));
        assert(!faults::lists(calls, k));
    }
}

/// A button in the cab puts its call into the queue, once.
pub proof fn cab_call_is_queued(s: SystemView, floor: u8)
    ensures
        events::cab_called(s, floor).elevator.call_buttons.contains(seq![floor, CAB]),
        s.elevator.call_buttons.no_duplicates() ==> events::cab_called(
            s,
            floor,
        ).elevator.call_buttons.no_duplicates(),
        s.elevator.call_buttons.is_prefix_of(events::cab_called(s, floor).elevator.call_buttons),
{
    table::lemma_with_key(s.elevator.call_buttons, seq![floor, CAB]);
}

/// After the word that a hall call is served, the call is off the record; if it was given to the
/// local elevator and waited there once, it is out of the queue.
pub proof fn completed_call_is_gone(s: SystemView, floor: u8, direction: u8)
    requires
        s.elevator.call_buttons.no_duplicates(),
    ensures
        ({
            let after = s.told_of_completion(floor, direction);
            &&& !after.hall_calls.dom().contains((floor, direction))
            &&& s.is_ours(floor, direction) ==> !after.elevator.call_buttons.contains(
                seq![floor, direction],
            )
            &&& !s.is_ours(floor, direction) ==> after.elevator == s.elevator
            &&& after.elevator.call_buttons.no_duplicates()
        }),
{
    let queue = s.elevator.call_buttons;
    let wanted = control::equal_to(seq![floor, direction]);
    elev::first_index_meaning(queue, wanted);
    match s.queue_place(floor, direction) {
        Some(place) => {
            lemma_remove_no_duplicates(queue, place);
        },
        None => {
            if queue.contains(seq![floor, direction]) {
                let i = choose|i: int| 0 <= i < queue.len() && queue[i] == seq![floor, direction];
                assert(wanted(queue[i]));
            }
        },
    }
}

} // verus!
