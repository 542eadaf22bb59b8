//! How an elevator sets out, stops, serves and goes on, told by its floor, its direction and its
//! queue.

use vstd::prelude::*;

use crate::action::ActionView;
use crate::control;
use crate::control::ServeOutcome;
use crate::elevio::cost;
use crate::elevio::cost::MessageView;
use crate::elevio::elev;
use crate::elevio::elev::{ElevatorView, CAB, DIRN_DOWN, DIRN_STOP, DIRN_UP, HALL_DOWN, HALL_UP};
use crate::elevio::fault_handler;
use crate::elevio::system::SystemView;
use crate::laws::serving;
use crate::table;

verus! {

/// Whether a direction leads from one floor to another.
pub open spec fn leads(direction: u8, from: u8, to: u8) -> bool {
    &&& from < to <==> direction == DIRN_UP
    &&& from > to <==> direction == DIRN_DOWN
    &&& from == to <==> direction == DIRN_STOP
}

/// A free elevator with one call, or standing still with several, sets out: its motor and its
/// direction lead to the floor. Any other elevator is left as it is, and nothing is asked for.
pub proof fn setting_out_leads_to_the_floor(elevator: ElevatorView, go_floor: u8)
    ensures
        ({
            let after = control::started(elevator, go_floor);
            let actions = control::start_actions(elevator, go_floor);
            let waiting = elevator.call_buttons.len();
            if !elevator.is_obstructed && (waiting == 1 || (waiting >= 2
                && elevator.current_direction == DIRN_STOP)) {
                &&& leads(after.current_direction, elevator.current_floor, go_floor)
                &&& after == (ElevatorView {
                    current_direction: after.current_direction,
                    ..elevator
                })
                &&& actions == seq![ActionView::MotorDirection(after.current_direction)]
            } else {
                &&& after == elevator
                &&& actions == Seq::<ActionView>::empty()
            }
        }),
{
}

/// Whether a floor lies above an elevator that goes up, or below one that goes down.
pub open spec fn on_the_way(elevator: ElevatorView, floor: u8) -> bool {
    ||| elevator.current_direction == DIRN_UP && floor > elevator.current_floor
    ||| elevator.current_direction == DIRN_DOWN && floor < elevator.current_floor
}

/// The next call is the first one whose floor lies on the way; if there is none, the first one for
/// the present floor; if there is none either, the first of the queue.
pub proof fn next_call_is_on_the_way(elevator: ElevatorView)
    ensures
        ({
            let queue = elevator.call_buttons;
            match control::next_call(elevator) {
                Some(i) => {
                    &&& 0 <= i < queue.len()
                    &&& on_the_way(elevator, queue[i][0]) ==> forall|j: int|
                        0 <= j < i ==> !on_the_way(elevator, (#[trigger] queue[j])[0])
                    &&& !on_the_way(elevator, queue[i][0]) ==> forall|j: int|
                        0 <= j < queue.len() ==> !on_the_way(elevator, (#[trigger] queue[j])[0])
                    &&& !on_the_way(elevator, queue[i][0]) && queue[i][0] == elevator.current_floor
                        ==> forall|j: int|
                        0 <= j < i ==> (#[trigger] queue[j])[0] != elevator.current_floor
                    &&& !on_the_way(elevator, queue[i][0]) && queue[i][0] != elevator.current_floor
                        ==> i == 0 && forall|j: int|
                        0 <= j < queue.len() ==> (#[trigger] queue[j])[0] != elevator.current_floor
                },
                None => queue.len() == 0,
            }
        }),
{
    let queue = elevator.call_buttons;
    elev::first_index_meaning(queue, control::ahead_of(elevator));
    elev::first_index_meaning(queue, control::at_floor(elevator.current_floor));
}

/// Whether an elevator with a direction stops at the floor of a call of some kind: always for a cab
/// call, and for a hall call that goes its way.
pub open spec fn stops_for(direction: u8, kind: u8) -> bool {
    ||| kind == CAB
    ||| kind == HALL_UP && direction == DIRN_UP
    ||| kind == HALL_DOWN && direction == DIRN_DOWN
    ||| kind > CAB && direction == DIRN_STOP
}

/// Whether an elevator with a direction turns for a hall call of some kind: one that goes up turns
/// for a call down, any other for a call up.
pub open spec fn turns_for(direction: u8, kind: u8) -> bool {
    if direction == DIRN_UP {
        kind == HALL_DOWN
    } else {
        kind == HALL_UP
    }
}

/// Whether some call of a queue lies on the way.
pub open spec fn more_on_the_way(elevator: ElevatorView) -> bool {
    exists|j: int|
        0 <= j < elevator.call_buttons.len() && on_the_way(
            elevator,
            (#[trigger] elevator.call_buttons[j])[0],
        )
}

/// The call that is served at a floor is the first one there for which the elevator stops; if there
/// is none, and no call lies on the way, the first one there for which it turns.
pub proof fn served_call_goes_the_same_way(elevator: ElevatorView, floor: u8)
    ensures
        ({
            let queue = elevator.call_buttons;
            let direction = elevator.current_direction;
            match control::serving_place(elevator, floor) {
                Some(i) => {
                    &&& 0 <= i < queue.len()
                    &&& queue[i][0] == floor
                    &&& stops_for(direction, queue[i][1]) || turns_for(direction, queue[i][1])
                    &&& stops_for(direction, queue[i][1]) ==> forall|j: int|
                        0 <= j < i && (#[trigger] queue[j])[0] == floor ==> !stops_for(
                            direction,
                            queue[j][1],
                        )
                    &&& !stops_for(direction, queue[i][1]) ==> {
                        &&& forall|j: int|
                            0 <= j < queue.len() && (#[trigger] queue[j])[0] == floor
                                ==> !stops_for(direction, queue[j][1])
                        &&& forall|j: int|
                            0 <= j < i && (#[trigger] queue[j])[0] == floor ==> !turns_for(
                                direction,
                                queue[j][1],
                            )
                        &&& !more_on_the_way(elevator)
                    }
                },
                None => {
                    &&& forall|j: int|
                        0 <= j < queue.len() && (#[trigger] queue[j])[0] == floor ==> !stops_for(
                            direction,
                            queue[j][1],
                        )
                    &&& more_on_the_way(elevator) || forall|j: int|
                        0 <= j < queue.len() && (#[trigger] queue[j])[0] == floor ==> !turns_for(
                            direction,
                            queue[j][1],
                        )
                },
            }
        }),
{
    let queue = elevator.call_buttons;
    let direction = elevator.current_direction;
    elev::first_index_meaning(queue, control::along(elevator, floor));
    elev::first_index_meaning(queue, control::back(elevator, floor));
    assert forall|j: int| 0 <= j < queue.len() implies control::lies_ahead(
        elevator,
        #[trigger] queue[j],
    ) == on_the_way(elevator, queue[j][0]) && (control::goes_along(elevator, floor, queue[j]) == (
    queue[j][0] == floor && stops_for(direction, queue[j][1]))) && (control::goes_back(
        elevator,
        floor,
        queue[j],
    ) == (queue[j][0] == floor && turns_for(direction, queue[j][1]))) by {
        assert(control::along(elevator, floor)(queue[j]) == control::goes_along(
            elevator,
            floor,
            queue[j],
        ));
        assert(control::back(elevator, floor)(queue[j]) == control::goes_back(
            elevator,
            floor,
            queue[j],
        ));
    }
    if control::more_ahead(elevator) {
        let j = choose|j: int|
            0 <= j < queue.len() && control::lies_ahead(elevator, #[trigger] queue[j]);
        assert(on_the_way(elevator, queue[j][0]));
    }
    if more_on_the_way(elevator) {
        let j = choose|j: int| 0 <= j < queue.len() && on_the_way(elevator, (#[trigger] queue[j])[0]);
        assert(control::lies_ahead(elevator, queue[j]));
    }
}

/// An elevator that reaches a floor for which it has a cab call, or a hall call that goes its way,
/// stops there and opens its door, whatever its direction. If no call is queued twice, no cab call
/// to the floor is left.
pub proof fn call_on_the_way_is_served(s: SystemView, floor: u8, i: int)
    requires
        0 <= i < s.elevator.call_buttons.len(),
        s.elevator.call_buttons[i][0] == floor,
        ({
            let kind = s.elevator.call_buttons[i][1];
            let direction = s.elevator.current_direction;
            ||| kind == CAB
            ||| kind == HALL_UP && direction == DIRN_UP
            ||| kind == HALL_DOWN && direction == DIRN_DOWN
        }),
    ensures
        control::serve_outcome(s, floor) != ServeOutcome::NoCall,
        control::serve_actions(s, floor).contains(ActionView::MotorDirection(DIRN_STOP)),
        control::serve_actions(s, floor).len() > 0,
        control::serve_actions(s, floor).last() == ActionView::DoorLight(true),
        control::served(s, floor).elevator.call_buttons.len() < s.elevator.call_buttons.len(),
        cost::calls_exact(s.elevator.call_buttons) && s.elevator.call_buttons.no_duplicates()
            ==> !control::served(s, floor).elevator.call_buttons.contains(seq![floor, CAB]),
{
    let queue = s.elevator.call_buttons;
    served_call_goes_the_same_way(s.elevator, floor);
    assert(stops_for(s.elevator.current_direction, queue[i][1]));
    serving::stops_before_the_door_opens(s, floor);
    let actions = control::serve_actions(s, floor);
    assert(actions[actions.len() - 1] == ActionView::DoorLight(true));
    assert(serving::opens(actions[actions.len() - 1]));
    let place = control::serving_place(s.elevator, floor)->0;
    let rest = queue.remove(place);
    let after = control::served(s, floor).elevator.call_buttons;
    elev::first_index_meaning(rest, control::cab_calls(floor));
    if cost::calls_exact(queue) && queue.no_duplicates() && after.contains(seq![floor, CAB]) {
        let cab = seq![floor, CAB];
        table::lemma_without_key(queue, place);
        table::lemma_without_key_contains(queue, queue[place]);
        match elev::first_index(rest, control::cab_calls(floor)) {
            Some(j) => {
                table::lemma_without_key(rest, j);
                table::lemma_without_key_contains(rest, rest[j]);
                assert(control::cab_calls(floor)(rest[j]));
                assert(queue.contains(rest[j])) by {
                    assert(rest.contains(rest[j]));
                }
                let k = choose|k: int| 0 <= k < queue.len() && queue[k] == rest[j];
                assert(queue[k].len() == 2);
                assert(rest[j] =~= cab);
            },
            None => {
                let k = choose|k: int| 0 <= k < rest.len() && rest[k] == cab;
                assert(control::cab_calls(floor)(rest[k]));
            },
        }
    }
}

/// Whether a call is a cab call to a floor.
pub open spec fn cab_to(floor: u8, call: Seq<u8>) -> bool {
    call[0] == floor && call[1] == CAB
}

/// Serving takes the call that is served out of the queue, and after it the first cab call to that
/// floor that is left. A hall call goes off the record. Nothing else changes, but that an
/// obstruction that waited for the door takes hold.
pub proof fn serving_takes_the_call_out(s: SystemView, floor: u8)
    requires
        control::serving_place(s.elevator, floor) is Some,
    ensures
        ({
            let i = control::serving_place(s.elevator, floor)->0;
            let call = s.elevator.call_buttons[i];
            let rest = s.elevator.call_buttons.remove(i);
            let after = control::served(s, floor);
            let queue = after.elevator.call_buttons;
            &&& (forall|j: int| 0 <= j < rest.len() ==> !cab_to(floor, #[trigger] rest[j]))
                ==> queue == rest
            &&& forall|j: int|
                0 <= j < rest.len() && cab_to(floor, #[trigger] rest[j]) && (forall|k: int|
                    0 <= k < j ==> !cab_to(floor, #[trigger] rest[k])) ==> queue == rest.remove(j)
            &&& call[1] == CAB ==> after.hall_calls == s.hall_calls && after.hall_order
                == s.hall_order
            &&& call[1] != CAB ==> after.hall_calls == s.hall_calls.remove((floor, call[1]))
            &&& after.states == s.states
            &&& after.state_order == s.state_order
            &&& after.peers == s.peers
            &&& after.network == s.network
            &&& after.local_id == s.local_id
            &&& after.elevator.num_floors == s.elevator.num_floors
            &&& after.elevator.current_floor == s.elevator.current_floor
            &&& after.elevator.current_direction == s.elevator.current_direction
            &&& after.elevator.obstruction_waiting is None
            &&& after.elevator.is_obstructed == (s.elevator.is_obstructed
                || s.elevator.obstruction_waiting is Some)
            &&& after.elevator.obstruction_start_time == if s.elevator.obstruction_start_time is Some {
                s.elevator.obstruction_start_time
            } else {
                s.elevator.obstruction_waiting
            }
        }),
{
    let i = control::serving_place(s.elevator, floor)->0;
    let rest = s.elevator.call_buttons.remove(i);
    elev::first_index_meaning(rest, control::cab_calls(floor));
    assert forall|j: int| 0 <= j < rest.len() implies control::cab_calls(floor)(#[trigger] rest[j])
        == cab_to(floor, rest[j]) by {}
}

/// What came of stopping at a floor: nothing just if there is no call to serve; else the door is
/// held open just if the obstruction lever is set.
pub proof fn outcome_of_a_stop(s: SystemView, floor: u8)
    ensures
        control::serve_outcome(s, floor) == if control::serving_place(s.elevator, floor) is None {
            ServeOutcome::NoCall
        } else if s.elevator.is_obstructed || s.elevator.obstruction_waiting is Some {
            ServeOutcome::HeldOpen
        } else {
            ServeOutcome::DoorOpen
        },
        control::serving_place(s.elevator, floor) is None ==> control::served(s, floor) == s
            && control::serve_actions(s, floor).len() == 0,
{
}

/// Serving a call switches off its light first; if a further cab call goes with it, its light goes off
/// and the state is saved. Then the motor stops. After that all peers are told of a hall call, each
/// once; after a cab call the state is saved, as it is without the call. Last the door opens. Nothing but lights of this floor going off, the
/// motor stopping, messages, saved states and the opening door is asked for.
pub proof fn serving_is_announced(s: SystemView, floor: u8)
    requires
        control::serving_place(s.elevator, floor) is Some,
    ensures
        ({
            let i = control::serving_place(s.elevator, floor)->0;
            let call = s.elevator.call_buttons[i];
            let rest = s.elevator.call_buttons.remove(i);
            let after = control::served(s, floor).elevator;
            let actions = control::serve_actions(s, floor);
            let saved = ActionView::SaveState {
                file_name: fault_handler::state_file(s.local_id),
                lines: fault_handler::saved_lines(
                    s.elevator.current_floor,
                    s.elevator.current_direction,
                    after.call_buttons,
                ),
            };
            &&& actions.len() > 0
            &&& actions[0] == (ActionView::CallButtonLight { floor, call: call[1], on: false })
            &&& call[1] != CAB ==> forall|p: int|
                0 <= p < s.peers.len() ==> actions.contains(
                    ActionView::Send {
                        addr: #[trigger] s.peers[p],
                        message: cost::message_text(
                            MessageView::CompletedCall { floor, direction: call[1] },
                        ),
                    },
                )
            &&& call[1] == CAB ==> actions.contains(saved)
            &&& if exists|j: int| 0 <= j < rest.len() && cab_to(floor, #[trigger] rest[j]) {
                &&& actions[1] == (ActionView::CallButtonLight { floor, call: CAB, on: false })
                &&& actions[2] == saved
                &&& actions[3] == ActionView::MotorDirection(DIRN_STOP)
                &&& actions.len() == 5 + if call[1] == CAB { 1 } else { s.peers.len() as int }
            } else {
                &&& actions[1] == ActionView::MotorDirection(DIRN_STOP)
                &&& actions.len() == 3 + if call[1] == CAB { 1 } else { s.peers.len() as int }
            }
            &&& actions.last() == ActionView::DoorLight(true)
            &&& forall|a: int|
                0 <= a < actions.len() ==> match #[trigger] actions[a] {
                    ActionView::CallButtonLight { floor: f, call: c, on } => f == floor && !on && (c
                        == call[1] || c == CAB),
                    ActionView::MotorDirection(dirn) => dirn == DIRN_STOP,
                    ActionView::DoorLight(on) => on,
                    ActionView::Send { addr, message } => call[1] != CAB && message
                        == cost::message_text(
                        MessageView::CompletedCall { floor, direction: call[1] },
                    ) && s.peers.contains(addr),
                    ActionView::SaveState { .. } => actions[a] == saved,
                    _ => false,
                }
        }),
{
    let i = control::serving_place(s.elevator, floor)->0;
    let kind = s.elevator.call_buttons[i][1];
    let rest = s.elevator.call_buttons.remove(i);
    elev::first_index_meaning(rest, control::cab_calls(floor));
    assert forall|j: int| 0 <= j < rest.len() implies control::cab_calls(floor)(#[trigger] rest[j])
        == cab_to(floor, rest[j]) by {}
    let actions = control::serve_actions(s, floor);
    let light = seq![ActionView::CallButtonLight { floor, call: kind, on: false }];
    let extra = control::extra_cab_actions(
        s.local_id,
        control::without_place(s.elevator, i),
        floor,
    );
    let motor = seq![ActionView::MotorDirection(DIRN_STOP)];
    let done = MessageView::CompletedCall { floor, direction: kind };
    let word = if kind != CAB {
        s.broadcast(done)
    } else {
        seq![fault_handler::save_action(s.local_id, control::after_serving(s.elevator, floor, i))]
    };
    assert(actions == light + extra + motor + word + seq![ActionView::DoorLight(true)]);
    let m = 2 + extra.len();
    assert forall|w: int| 0 <= w < word.len() implies #[trigger] word[w] == actions[m + w] by {}
    if kind != CAB {
        assert forall|p: int| 0 <= p < s.peers.len() implies actions.contains(
            ActionView::Send { addr: #[trigger] s.peers[p], message: cost::message_text(done) },
        ) by {
            assert(word[p] == actions[m + p]);
        }
    } else {
        assert(word[0] == actions[m as int]);
    }
    if extra.len() > 0 {
        assert(actions[1] == extra[0]);
        assert(actions[2] == extra[1]);
    }
    assert forall|a: int| 0 <= a < actions.len() implies match #[trigger] actions[a] {
        ActionView::CallButtonLight { floor: f, call: c, on } => f == floor && !on && (c == kind || c
            == CAB),
        ActionView::MotorDirection(dirn) => dirn == DIRN_STOP,
        ActionView::DoorLight(on) => on,
        ActionView::Send { addr, message } => kind != CAB && message == cost::message_text(done)
            && s.peers.contains(addr),
        ActionView::SaveState { .. } => actions[a] == (ActionView::SaveState {
            file_name: fault_handler::state_file(s.local_id),
            lines: fault_handler::saved_lines(
                s.elevator.current_floor,
                s.elevator.current_direction,
                control::served(s, floor).elevator.call_buttons,
            ),
        }),
        _ => false,
    } by {
        if 0 < a <= extra.len() {
            assert(actions[a] == extra[a - 1]);
        } else if m <= a < actions.len() - 1 {
            assert(actions[a] == word[a - m]);
            if kind != CAB {
                assert(s.peers.contains(s.peers[a - m]));
            }
        }
    }
}

/// A free elevator with calls leaves a floor towards its next call. A next call for this floor is
/// served at once: it leaves the queue, and the elevator goes towards the call that is next then; if
/// there is none, it stands still.
pub proof fn departure_leads_to_the_next_call(s: SystemView, floor: u8)
    requires
        s.elevator.valid(),
        !s.elevator.is_obstructed,
        s.elevator.call_buttons.len() > 0,
    ensures
        ({
            let queue = s.elevator.call_buttons;
            let i = control::next_call(s.elevator)->0;
            let call = queue[i];
            let after = control::departed(s, floor);
            let rest = ElevatorView { call_buttons: queue.remove(i), ..s.elevator };
            &&& call[0] != floor ==> {
                &&& leads(after.elevator.current_direction, floor, call[0])
                &&& after.elevator.call_buttons == queue
                &&& after.hall_calls == s.hall_calls
            }
            &&& call[0] == floor ==> {
                &&& after.elevator.call_buttons == queue.remove(i)
                &&& after.hall_calls == if call[1] == CAB {
                    s.hall_calls
                } else {
                    s.hall_calls.remove((floor, call[1]))
                }
                &&& queue.len() == 1 ==> after.elevator.current_direction == DIRN_STOP
                &&& queue.len() > 1 ==> leads(
                    after.elevator.current_direction,
                    floor,
                    rest.call_buttons[control::next_call(rest)->0][0],
                )
            }
            &&& after == (SystemView {
                elevator: ElevatorView {
                    current_direction: after.elevator.current_direction,
                    call_buttons: after.elevator.call_buttons,
                    ..s.elevator
                },
                hall_calls: after.hall_calls,
                hall_order: after.hall_order,
                ..s
            })
        }),
{
    let queue = s.elevator.call_buttons;
    next_call_is_on_the_way(s.elevator);
    let i = control::next_call(s.elevator)->0;
    let rest = ElevatorView { call_buttons: queue.remove(i), ..s.elevator };
    next_call_is_on_the_way(rest);
}

/// A free elevator that leaves a floor with calls for other floors moves: up if all calls are above
/// the floor, down if all are below. It stands still only if no call for another floor is left, or
/// if one for this floor is.
pub proof fn waiting_calls_keep_the_elevator_moving(s: SystemView, floor: u8)
    requires
        s.elevator.valid(),
        !s.elevator.is_obstructed,
        s.elevator.call_buttons.len() > 0,
    ensures
        ({
            let after = control::departed(s, floor).elevator;
            let queue = after.call_buttons;
            &&& queue.len() > 0 && (forall|i: int|
                0 <= i < queue.len() ==> (#[trigger] queue[i])[0] > floor)
                ==> after.current_direction == DIRN_UP
            &&& queue.len() > 0 && (forall|i: int|
                0 <= i < queue.len() ==> (#[trigger] queue[i])[0] < floor)
                ==> after.current_direction == DIRN_DOWN
            &&& queue.len() > 0 && (forall|i: int|
                0 <= i < queue.len() ==> (#[trigger] queue[i])[0] != floor)
                ==> after.current_direction != DIRN_STOP
            &&& queue.len() == 0 ==> after.current_direction == DIRN_STOP
            &&& after.current_direction == DIRN_UP ==> exists|i: int|
                0 <= i < queue.len() && (#[trigger] queue[i])[0] > floor
            &&& after.current_direction == DIRN_DOWN ==> exists|i: int|
                0 <= i < queue.len() && (#[trigger] queue[i])[0] < floor
        }),
{
    let queue = s.elevator.call_buttons;
    departure_leads_to_the_next_call(s, floor);
    next_call_is_on_the_way(s.elevator);
    let i = control::next_call(s.elevator)->0;
    let rest = ElevatorView { call_buttons: queue.remove(i), ..s.elevator };
    next_call_is_on_the_way(rest);
    let after = control::departed(s, floor).elevator;
    if queue[i][0] != floor {
        assert(after.call_buttons[i] == queue[i]);
    } else if queue.len() > 1 {
        let j = control::next_call(rest)->0;
        assert(after.call_buttons[j] == rest.call_buttons[j]);
    }
}

/// A free elevator that leaves a floor runs its motor in its new direction and in no other. It waits
/// for three seconds first just if it turns: from up to down, or from anything but up to up. The door
/// closes right before the motor runs, and is told to close once more at the end. A call
/// that is served at once has its light switched off; all peers are told of it if it is a hall call,
/// and the state is saved if it is a cab call. Without a call only the door closes.
pub proof fn departure_is_carried_out(s: SystemView, floor: u8)
    requires
        s.elevator.valid(),
        !s.elevator.is_obstructed,
    ensures
        ({
            let queue = s.elevator.call_buttons;
            let i = control::next_call(s.elevator)->0;
            let call = queue[i];
            let after = control::departed(s, floor).elevator;
            let actions = control::depart_actions(s, floor);
            let was = s.elevator.current_direction;
            let is = after.current_direction;
            &&& queue.len() == 0 ==> actions == seq![ActionView::DoorLight(false)]
                && control::departed(s, floor) == s
            &&& queue.len() > 0 ==> {
                &&& actions.len() >= 3
                &&& actions.last() == ActionView::DoorLight(false)
                &&& actions[actions.len() - 2] == ActionView::MotorDirection(is)
                &&& actions[actions.len() - 3] == ActionView::DoorLight(false)
                &&& actions.contains(ActionView::Pause { millis: 3000 }) ==> actions[actions.len()
                    - 4] == (ActionView::Pause { millis: 3000 })
                &&& actions.contains(ActionView::Pause { millis: 3000 }) == ((was == DIRN_UP && is
                    == DIRN_DOWN) || (was != DIRN_UP && is == DIRN_UP))
                &&& call[0] == floor ==> actions.contains(
                    ActionView::CallButtonLight { floor, call: call[1], on: false },
                )
                &&& call[0] == floor && call[1] != CAB ==> forall|p: int|
                    0 <= p < s.peers.len() ==> actions.contains(
                        ActionView::Send {
                            addr: #[trigger] s.peers[p],
                            message: cost::message_text(
                                MessageView::CompletedCall { floor, direction: call[1] },
                            ),
                        },
                    )
                &&& call[0] == floor && call[1] == CAB ==> actions.contains(
                    ActionView::SaveState {
                        file_name: fault_handler::state_file(s.local_id),
                        lines: fault_handler::saved_lines(
                            s.elevator.current_floor,
                            s.elevator.current_direction,
                            after.call_buttons,
                        ),
                    },
                )
                &&& forall|a: int|
                    0 <= a < actions.len() ==> match #[trigger] actions[a] {
                        ActionView::CallButtonLight { floor: f, call: c, on } => call[0] == floor
                            && f == floor && c == call[1] && !on,
                        ActionView::MotorDirection(dirn) => dirn == is,
                        ActionView::DoorLight(on) => !on,
                        ActionView::Pause { millis } => millis == 3000,
                        ActionView::Send { addr, message } => call[0] == floor && call[1] != CAB
                            && message == cost::message_text(
                            MessageView::CompletedCall { floor, direction: call[1] },
                        ) && s.peers.contains(addr),
                        ActionView::SaveState { .. } => call[0] == floor && call[1] == CAB,
                        _ => false,
                    }
            }
        }),
{
    let queue = s.elevator.call_buttons;
    next_call_is_on_the_way(s.elevator);
    if queue.len() > 0 {
        let i = control::next_call(s.elevator)->0;
        let kind = queue[i][1];
        let actions = control::depart_actions(s, floor);
        let dirn = control::leaving_direction(s, floor, i);
        let look = control::look_actions(s, floor, i);
        let pause = if dirn == control::reversed(s.elevator.current_direction) {
            seq![ActionView::Pause { millis: control::TURN_DELAY }]
        } else {
            Seq::empty()
        };
        let end = seq![
            ActionView::DoorLight(false),
            ActionView::MotorDirection(dirn),
            ActionView::DoorLight(false),
        ];
        let done = MessageView::CompletedCall { floor, direction: kind };
        assert(actions == look + pause + end);
        let n = (look.len() + pause.len()) as int;
        assert(actions[n] == end[0]);
        assert(actions[n + 1] == end[1]);
        assert forall|w: int| 0 <= w < look.len() implies actions[w] == #[trigger] look[w] by {}
        if pause.len() > 0 {
            assert(actions[look.len() as int] == pause[0]);
        }
        if queue[i][0] == floor {
            if kind != CAB {
                let told = s.broadcast(done);
                assert(look[told.len() as int] == (ActionView::CallButtonLight {
                    floor,
                    call: kind,
                    on: false,
                }));
                assert forall|p: int| 0 <= p < s.peers.len() implies actions.contains(
                    ActionView::Send { addr: #[trigger] s.peers[p], message: cost::message_text(done) },
                ) by {
                    assert(look[p] == told[p]);
                    assert(actions[p] == look[p]);
                }
            } else {
                assert(look[0] == actions[0]);
                assert(look[1] == actions[1]);
            }
        }
        assert forall|a: int| 0 <= a < look.len() implies match #[trigger] look[a] {
            ActionView::CallButtonLight { floor: f, call: c, on } => queue[i][0] == floor && f
                == floor && c == kind && !on,
            ActionView::Send { addr, message } => queue[i][0] == floor && kind != CAB && message
                == cost::message_text(done) && s.peers.contains(addr),
            ActionView::SaveState { .. } => queue[i][0] == floor && kind == CAB,
            _ => false,
        } by {
            if kind != CAB && a < s.peers.len() {
                assert(look[a] == s.broadcast(done)[a]);
                assert(s.peers.contains(s.peers[a]));
            }
        }
        assert forall|a: int| 0 <= a < actions.len() implies match #[trigger] actions[a] {
            ActionView::CallButtonLight { floor: f, call: c, on } => queue[i][0] == floor && f
                == floor && c == kind && !on,
            ActionView::MotorDirection(d) => d == dirn,
            ActionView::DoorLight(on) => !on,
            ActionView::Pause { millis } => millis == 3000 && pause.len() > 0,
            ActionView::Send { addr, message } => queue[i][0] == floor && kind != CAB && message
                == cost::message_text(done) && s.peers.contains(addr),
            ActionView::SaveState { .. } => queue[i][0] == floor && kind == CAB,
            _ => false,
        } by {
            if a < look.len() {
                assert(actions[a] == look[a]);
            } else if a < n {
                assert(actions[a] == pause[a - look.len()]);
            } else {
                assert(actions[a] == end[a - n]);
            }
        }
    }
}

} // verus!
