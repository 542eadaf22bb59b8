//! How an elevator chooses its next call and its direction, and how it serves a call.

use vstd::prelude::*;
use vstd::string::*;

use crate::action;
use crate::action::{Action, ActionView};
use crate::elevio::elev;
use crate::elevio::cost::MessageView;
use crate::elevio::elev::{Elevator, ElevatorView, CAB, DIRN_DOWN, DIRN_STOP, DIRN_UP};
use crate::elevio::fault_handler;
use crate::elevio::system;
use crate::elevio::system::{ElevatorSystem, SystemView};

verus! {

/// The name of a direction.
pub open spec fn direction_name(direction: u8) -> Seq<char> {
    if direction == DIRN_UP {
        "UP"@
    } else if direction == DIRN_DOWN {
        "DOWN"@
    } else if direction == DIRN_STOP {
        "STOP"@
    } else {
        "UNKNOWN"@
    }
}

/// The direction that leads from one floor to another.
pub open spec fn direction_towards(go_floor: u8, floor: u8) -> u8 {
    if floor < go_floor {
        DIRN_UP
    } else if floor > go_floor {
        DIRN_DOWN
    } else {
        DIRN_STOP
    }
}

/// The direction in which the passengers of a call want to go; none for a call from the cab.
pub open spec fn direction_of_call(call: u8) -> u8 {
    if call == 0 {
        DIRN_UP
    } else if call == 1 {
        DIRN_DOWN
    } else {
        DIRN_STOP
    }
}

/// The kind of call that goes with a direction.
pub open spec fn call_of_direction(dirn: u8) -> u8 {
    if dirn == DIRN_UP {
        0
    } else if dirn == DIRN_DOWN {
        1
    } else {
        2
    }
}

/// The direction to turn to.
pub open spec fn reversed(dirn: u8) -> u8 {
    if dirn == DIRN_UP {
        DIRN_DOWN
    } else {
        DIRN_UP
    }
}

/// Whether a call lies ahead of a moving elevator.
pub open spec fn lies_ahead(elevator: ElevatorView, call: Seq<u8>) -> bool {
    (elevator.current_direction == DIRN_UP && call[0] > elevator.current_floor) || (
    elevator.current_direction == DIRN_DOWN && call[0] < elevator.current_floor)
}

/// The test for calls ahead of an elevator.
pub open spec fn ahead_of(elevator: ElevatorView) -> spec_fn(Seq<u8>) -> bool {
    |call: Seq<u8>| lies_ahead(elevator, call)
}

/// The test for calls at a floor.
pub open spec fn at_floor(floor: u8) -> spec_fn(Seq<u8>) -> bool {
    |call: Seq<u8>| call[0] == floor
}

/// The test for one call.
pub open spec fn equal_to(wanted: Seq<u8>) -> spec_fn(Seq<u8>) -> bool {
    |call: Seq<u8>| call == wanted
}

/// The place in the queue of the call to be taken next: the first one ahead of the elevator, else
/// the first one at its floor, else the first one.
pub open spec fn next_call(elevator: ElevatorView) -> Option<int> {
    let queue = elevator.call_buttons;
    match elev::first_index(queue, ahead_of(elevator)) {
        Some(i) => Some(i),
        None => match elev::first_index(queue, at_floor(elevator.current_floor)) {
            Some(i) => Some(i),
            None => if queue.len() > 0 {
                Some(0)
            } else {
                None
            },
        },
    }
}

/// Whether an elevator that has just got a call sets out: it has no other, or it stands still. An
/// obstruction holds it.
pub open spec fn sets_out(elevator: ElevatorView) -> bool {
    !elevator.is_obstructed && (elevator.call_buttons.len() == 1 || (elevator.call_buttons.len() > 1
        && elevator.current_direction == DIRN_STOP))
}

/// An elevator with another direction.
pub open spec fn headed(elevator: ElevatorView, dirn: u8) -> ElevatorView {
    ElevatorView { current_direction: dirn, ..elevator }
}

/// An elevator after it has been started towards a floor.
pub open spec fn started(elevator: ElevatorView, go_floor: u8) -> ElevatorView {
    if sets_out(elevator) {
        headed(elevator, direction_towards(go_floor, elevator.current_floor))
    } else {
        elevator
    }
}

/// What starting an elevator towards a floor asks for.
pub open spec fn start_actions(elevator: ElevatorView, go_floor: u8) -> Seq<ActionView> {
    if sets_out(elevator) {
        seq![
            ActionView::MotorDirection(direction_towards(go_floor, elevator.current_floor)),
        ]
    } else {
        Seq::empty()
    }
}

/// The name of a direction.
pub fn direction_to_string(direction: u8) -> (r: &'static str)
    ensures
        r@ == direction_name(direction),
{
    if direction == DIRN_UP {
        "UP"
    } else if direction == DIRN_DOWN {
        "DOWN"
    } else if direction == DIRN_STOP {
        "STOP"
    } else {
        "UNKNOWN"
    }
}

/// Starts an elevator towards a floor, if it is free to go there. The direction given is not used.
pub fn start_elevator(elevator: &mut Elevator, go_floor: u8, dirn: u8) -> (r: Vec<Action>)
    ensures
        final(elevator)@ == started(old(elevator)@, go_floor),
        action::views(r@) == start_actions(old(elevator)@, go_floor),
{
    let mut actions: Vec<Action> = Vec::new();
    if !elevator.is_obstructed && (elevator.call_buttons.len() == 1 || (
    elevator.call_buttons.len() > 1 && elevator.current_direction == DIRN_STOP)) {
        let dirn = hall_call_start_dir(go_floor, elevator.current_floor, dirn);
        elevator.current_direction = dirn;
        action::add_action(&mut actions, Action::MotorDirection(dirn));
    }
    assert(action::views(actions@) =~= start_actions(old(elevator)@, go_floor));
    actions
}

/// The call to be taken next.
pub fn decide_next_call(elevator: &Elevator) -> (r: Option<&Vec<u8>>)
    requires
        elev::calls_have_floors(elevator@.call_buttons),
    ensures
        match r {
            Some(call) => next_call(elevator@) is Some && call@
                == elevator@.call_buttons[next_call(elevator@)->0],
            None => next_call(elevator@) is None,
        },
{
    let direction = elevator.current_direction;
    let floor = elevator.current_floor;
    let ahead = |call: &Vec<u8>| -> (b: bool)
        requires
            call@.len() >= 1,
        ensures
            b == lies_ahead(elevator@, call@),
    {
        (direction == DIRN_UP && call[0] > floor) || (direction == DIRN_DOWN && call[0] < floor)
    };
    let here = |call: &Vec<u8>| -> (b: bool)
        requires
            call@.len() >= 1,
        ensures
            b == (call@[0] == floor),
    { call[0] == floor };
    let calls = &elevator.call_buttons;
    assert forall|i: int| 0 <= i < calls@.len() implies (#[trigger] calls@[i])@.len() >= 1 by {
        assert(elevator@.call_buttons[i].len() >= 1);
    }
    if let Some(i) = elev::position(calls, ahead, Ghost(ahead_of(elevator@))) {
        Some(&calls[i])
    } else if let Some(i) = elev::position(calls, here, Ghost(at_floor(floor))) {
        Some(&calls[i])
    } else if calls.len() > 0 {
        Some(&calls[0])
    } else {
        None
    }
}

/// The direction that leads from `floor` to `go_floor`. The direction given is not used.
pub fn hall_call_start_dir(go_floor: u8, floor: u8, dirn: u8) -> (r: u8)
    ensures
        r == direction_towards(go_floor, floor),
{
    if floor < go_floor {
        DIRN_UP
    } else if floor > go_floor {
        DIRN_DOWN
    } else {
        DIRN_STOP
    }
}

/// The direction in which the passengers of a call want to go.
pub fn decide_direction_by_call(call: u8) -> (r: u8)
    ensures
        r == direction_of_call(call),
{
    if call == 0 {
        DIRN_UP
    } else if call == 1 {
        DIRN_DOWN
    } else {
        DIRN_STOP
    }
}

/// The kind of call that goes with a direction.
pub fn decide_call_by_direction(dirn: u8) -> (r: u8)
    ensures
        r == call_of_direction(dirn),
{
    if dirn == DIRN_UP {
        0
    } else if dirn == DIRN_DOWN {
        1
    } else {
        2
    }
}

/// Whether a call lies ahead of a moving elevator.
pub fn is_more_request_in_dir(elevator: Elevator) -> (r: bool)
    requires
        elev::calls_have_floors(elevator@.call_buttons),
    ensures
        r == exists|i: int|
            0 <= i < elevator@.call_buttons.len() && lies_ahead(
                elevator@,
                #[trigger] elevator@.call_buttons[i],
            ),
{
    let direction = elevator.current_direction;
    let floor = elevator.current_floor;
    let ghost view = elevator@;
    let ahead = |call: &Vec<u8>| -> (b: bool)
        requires
            call@.len() >= 1,
        ensures
            b == lies_ahead(elevator@, call@),
    {
        (direction == DIRN_UP && call[0] > floor) || (direction == DIRN_DOWN && call[0] < floor)
    };
    let calls = &elevator.call_buttons;
    assert forall|i: int| 0 <= i < calls@.len() implies (#[trigger] calls@[i])@.len() >= 1 by {
        assert(view.call_buttons[i].len() >= 1);
    }
    let found = elev::position(calls, ahead, Ghost(ahead_of(view)));
    proof {
        elev::first_index_meaning(view.call_buttons, ahead_of(view));
    }
    found.is_some()
}

/// The direction to turn to.
pub fn opposite_dir(dirn: u8) -> (r: u8)
    ensures
        r == reversed(dirn),
{
    if dirn == DIRN_UP {
        DIRN_DOWN
    } else {
        DIRN_UP
    }
}

/// The first place of a call in the queue.
pub fn find_call_button_index(call_button: Vec<u8>, elevator: &Elevator) -> (r: Option<usize>)
    ensures
        match r {
            Some(i) => i < elevator@.call_buttons.len() && elev::first_index(
                elevator@.call_buttons,
                equal_to(call_button@),
            ) == Some(i as int),
            None => elev::first_index(elevator@.call_buttons, equal_to(call_button@)) is None,
        },
{
    let test = |call: &Vec<u8>| -> (b: bool)
        ensures
            b == (call@ == call_button@),
    {
        let same = *call == call_button;
        assert(same == (call@ =~= call_button@));
        same
    };
    elev::position(&elevator.call_buttons, test, Ghost(equal_to(call_button@)))
}

/// How long the door stays open, in milliseconds.
pub const DOOR_DELAY: u64 = 3000;

/// How often the door is looked after while it is open, in milliseconds.
pub const DOOR_CHECK_INTERVAL: u64 = 100;

/// How long an elevator waits before it turns, in milliseconds.
pub const TURN_DELAY: u64 = 3000;

/// What came of looking for a call to serve at a floor.
#[derive(PartialEq, Eq, Structural, Clone, Copy, Debug)]
pub enum ServeOutcome {
    /// There is no call to be served here.
    NoCall,
    /// A call is served, and the door is kept open by an obstruction.
    HeldOpen,
    /// A call is served, and the door is open.
    DoorOpen,
}

/// What to do while the door is open.
#[derive(PartialEq, Eq, Structural, Clone, Copy, Debug)]
pub enum DoorWait {
    /// Wait, then look again.
    Wait { millis: u64 },
    /// An obstruction keeps the door open.
    Interrupted,
    /// The time is over: go on.
    Elapsed,
}

/// Whether an elevator that stops at a floor serves a call: it is for this floor, and it comes from
/// the cab or goes the way of the elevator.
pub open spec fn goes_along(elevator: ElevatorView, floor: u8, call: Seq<u8>) -> bool {
    call[0] == floor && (direction_of_call(call[1]) == elevator.current_direction || call[1] == CAB)
}

/// Whether an elevator that stops at a floor can serve a call by turning round.
pub open spec fn goes_back(elevator: ElevatorView, floor: u8, call: Seq<u8>) -> bool {
    call[0] == floor && direction_of_call(call[1]) == reversed(elevator.current_direction)
}

/// Whether a call comes from the cab and is for a floor.
pub open spec fn is_cab_call(floor: u8, call: Seq<u8>) -> bool {
    call[0] == floor && call[1] == CAB
}

/// The test for calls that go the way of an elevator.
pub open spec fn along(elevator: ElevatorView, floor: u8) -> spec_fn(Seq<u8>) -> bool {
    |call: Seq<u8>| goes_along(elevator, floor, call)
}

/// The test for calls that go the other way.
pub open spec fn back(elevator: ElevatorView, floor: u8) -> spec_fn(Seq<u8>) -> bool {
    |call: Seq<u8>| goes_back(elevator, floor, call)
}

/// The test for cab calls to a floor.
pub open spec fn cab_calls(floor: u8) -> spec_fn(Seq<u8>) -> bool {
    |call: Seq<u8>| is_cab_call(floor, call)
}

/// Whether some call lies ahead of a moving elevator.
pub open spec fn more_ahead(elevator: ElevatorView) -> bool {
    exists|i: int|
        0 <= i < elevator.call_buttons.len() && lies_ahead(
            elevator,
            #[trigger] elevator.call_buttons[i],
        )
}

/// The place in the queue of the call that is served at a floor: the first one that goes the way of
/// the elevator; if there is none, and nothing lies ahead, the first one that goes the other way.
pub open spec fn serving_place(elevator: ElevatorView, floor: u8) -> Option<int> {
    match elev::first_index(elevator.call_buttons, along(elevator, floor)) {
        Some(i) => Some(i),
        None => if more_ahead(elevator) {
            None
        } else {
            elev::first_index(elevator.call_buttons, back(elevator, floor))
        },
    }
}

/// An elevator without one of its queued calls.
pub open spec fn without_place(elevator: ElevatorView, place: int) -> ElevatorView {
    ElevatorView { call_buttons: elevator.call_buttons.remove(place), ..elevator }
}

/// An elevator without its first cab call to a floor.
pub open spec fn without_cab_call(elevator: ElevatorView, floor: u8) -> ElevatorView {
    match elev::first_index(elevator.call_buttons, cab_calls(floor)) {
        Some(i) => without_place(elevator, i),
        None => elevator,
    }
}

/// An elevator after the call at a place has been served, together with a cab call to that floor.
pub open spec fn after_serving(elevator: ElevatorView, floor: u8, place: int) -> ElevatorView {
    without_cab_call(without_place(elevator, place), floor)
}

/// Whether the obstruction lever is set, so that it holds the elevator once the door is open.
pub open spec fn lever_set(elevator: ElevatorView) -> bool {
    elevator.is_obstructed || elevator.obstruction_waiting is Some
}

/// An elevator whose door has just opened: an obstruction that was waiting holds it from now on.
pub open spec fn door_opened(elevator: ElevatorView) -> ElevatorView {
    match elevator.obstruction_waiting {
        Some(t) => ElevatorView {
            is_obstructed: true,
            obstruction_start_time: match elevator.obstruction_start_time {
                Some(start) => Some(start),
                None => Some(t),
            },
            obstruction_waiting: None,
            ..elevator
        },
        None => elevator,
    }
}

/// A system after its elevator has stopped at a floor.
pub open spec fn served(s: SystemView, floor: u8) -> SystemView {
    match serving_place(s.elevator, floor) {
        Some(place) => {
            let kind = s.elevator.call_buttons[place][1];
            let rest = s.with_elevator(door_opened(after_serving(s.elevator, floor, place)));
            if kind != CAB {
                rest.without_hall_call(floor, kind)
            } else {
                rest
            }
        },
        None => s,
    }
}

/// What removing a further cab call to the floor asks for.
pub open spec fn extra_cab_actions(id: Seq<char>, elevator: ElevatorView, floor: u8) -> Seq<
    ActionView,
> {
    if elev::first_index(elevator.call_buttons, cab_calls(floor)) is Some {
        seq![
            ActionView::CallButtonLight { floor, call: CAB, on: false },
            fault_handler::save_action(id, without_cab_call(elevator, floor)),
        ]
    } else {
        Seq::empty()
    }
}

/// What stopping at a floor asks for: first the motor stops, then the door opens.
pub open spec fn serve_actions(s: SystemView, floor: u8) -> Seq<ActionView> {
    match serving_place(s.elevator, floor) {
        Some(place) => {
            let kind = s.elevator.call_buttons[place][1];
            seq![ActionView::CallButtonLight { floor, call: kind, on: false }]
                + extra_cab_actions(s.local_id, without_place(s.elevator, place), floor) + seq![
                ActionView::MotorDirection(DIRN_STOP),
            ] + (if kind != CAB {
                s.broadcast(MessageView::CompletedCall { floor, direction: kind })
            } else {
                seq![fault_handler::save_action(s.local_id, after_serving(s.elevator, floor, place))]
            }) + seq![ActionView::DoorLight(true)]
        },
        None => Seq::empty(),
    }
}

/// What comes of stopping at a floor.
pub open spec fn serve_outcome(s: SystemView, floor: u8) -> ServeOutcome {
    if serving_place(s.elevator, floor) is None {
        ServeOutcome::NoCall
    } else if lever_set(s.elevator) {
        ServeOutcome::HeldOpen
    } else {
        ServeOutcome::DoorOpen
    }
}

/// Stops at a floor and opens the door, if there is a call to be served there.
pub fn serve_call(elevator_system: &mut ElevatorSystem, floor: u8) -> (r: (ServeOutcome, Vec<Action>))
    requires
        old(elevator_system)@.valid(),
    ensures
        final(elevator_system)@.valid(),
        final(elevator_system)@ == served(old(elevator_system)@, floor),
        r.0 == serve_outcome(old(elevator_system)@, floor),
        action::views(r.1@) == serve_actions(old(elevator_system)@, floor),
{
    let ghost before = elevator_system@;
    let mut actions: Vec<Action> = Vec::new();
    assert(action::views(actions@) =~= Seq::<ActionView>::empty());
    let pos = match find_serving_call(&elevator_system.local_elevator, floor) {
        Some(pos) => pos,
        None => return (ServeOutcome::NoCall, actions),
    };
    let call = elevator_system.local_elevator.call_buttons.remove(pos);
    assert(call@ == before.elevator.call_buttons[pos as int]);
    assert(call@.len() >= 2);
    let call_type = call[1];
    proof {
        assert(elevator_system@.elevator.call_buttons =~= before.elevator.call_buttons.remove(
            pos as int,
        ));
        lemma_without_place(before.elevator, pos as int);
    }
    action::add_action(
        &mut actions,
        Action::CallButtonLight { floor, call: call_type, on: false },
    );
    let ghost first = action::views(actions@);
    let ghost middle = elevator_system@.elevator;
    if let Some(cab_pos) = find_cab_call(&elevator_system.local_elevator, floor) {
        action::add_action(&mut actions, Action::CallButtonLight { floor, call: CAB, on: false });
        elevator_system.local_elevator.call_buttons.remove(cab_pos);
        proof {
            assert(elevator_system@.elevator.call_buttons =~= middle.call_buttons.remove(
                cab_pos as int,
            ));
            lemma_without_place(middle, cab_pos as int);
        }
        action::add_action(
            &mut actions,
            fault_handler::save_state(
                elevator_system.local_id.as_str(),
                &elevator_system.local_elevator,
            ),
        );
    }
    assert(action::views(actions@) =~= first + extra_cab_actions(before.local_id, middle, floor));
    action::add_action(&mut actions, Action::MotorDirection(DIRN_STOP));
    if call_type != CAB {
        let more = elevator_system.complete_call(floor, call_type);
        action::add_actions(&mut actions, more);
    } else {
        action::add_action(
            &mut actions,
            fault_handler::save_state(
                elevator_system.local_id.as_str(),
                &elevator_system.local_elevator,
            ),
        );
    }
    action::add_action(&mut actions, Action::DoorLight(true));
    assert(action::views(actions@) =~= serve_actions(before, floor));
    let ghost last = elevator_system@;
    hold_open_door(&mut elevator_system.local_elevator);
    proof {
        system::lemma_with_elevator(last, elevator_system@.elevator);
    }
    if elevator_system.local_elevator.is_obstructed {
        (ServeOutcome::HeldOpen, actions)
    } else {
        (ServeOutcome::DoorOpen, actions)
    }
}

/// Lets an obstruction that was waiting for the door hold the elevator.
fn hold_open_door(elevator: &mut Elevator)
    ensures
        final(elevator)@ == door_opened(old(elevator)@),
{
    if let Some(t) = elevator.obstruction_waiting {
        elevator.is_obstructed = true;
        if elevator.obstruction_start_time.is_none() {
            elevator.obstruction_start_time = Some(t);
        }
        elevator.obstruction_waiting = None;
    }
}

/// Removing a call keeps the others complete.
proof fn lemma_without_place(elevator: ElevatorView, place: int)
    requires
        elevator.valid(),
        0 <= place < elevator.call_buttons.len(),
    ensures
        without_place(elevator, place).valid(),
{
    let rest = elevator.call_buttons.remove(place);
    assert forall|i: int| 0 <= i < rest.len() implies (#[trigger] rest[i]).len() >= 2 by {
        if i < place {
            assert(rest[i] == elevator.call_buttons[i]);
        } else {
            assert(rest[i] == elevator.call_buttons[i + 1]);
        }
    }
}

/// The place of the call that is served at a floor.
fn find_serving_call(elevator: &Elevator, floor: u8) -> (r: Option<usize>)
    requires
        elevator@.valid(),
    ensures
        match r {
            Some(i) => i < elevator@.call_buttons.len() && serving_place(elevator@, floor) == Some(
                i as int,
            ),
            None => serving_place(elevator@, floor) is None,
        },
{
    let direction = elevator.current_direction;
    let test_along = |call: &Vec<u8>| -> (b: bool)
        requires
            call@.len() >= 2,
        ensures
            b == goes_along(elevator@, floor, call@),
    {
        call[0] == floor && (decide_direction_by_call(call[1]) == direction || call[1] == CAB)
    };
    let test_back = |call: &Vec<u8>| -> (b: bool)
        requires
            call@.len() >= 2,
        ensures
            b == goes_back(elevator@, floor, call@),
    { call[0] == floor && decide_direction_by_call(call[1]) == opposite_dir(direction) };
    let calls = &elevator.call_buttons;
    assert forall|i: int| 0 <= i < calls@.len() implies (#[trigger] calls@[i])@.len() >= 2 by {
        assert(elevator@.call_buttons[i].len() >= 2);
    }
    match elev::position(calls, test_along, Ghost(along(elevator@, floor))) {
        Some(i) => Some(i),
        None => {
            if is_more_request_in_dir(elevator.clone()) {
                None
            } else {
                elev::position(calls, test_back, Ghost(back(elevator@, floor)))
            }
        },
    }
}

/// The place of the first cab call to a floor.
fn find_cab_call(elevator: &Elevator, floor: u8) -> (r: Option<usize>)
    requires
        elevator@.valid(),
    ensures
        match r {
            Some(i) => i < elevator@.call_buttons.len() && elev::first_index(
                elevator@.call_buttons,
                cab_calls(floor),
            ) == Some(i as int),
            None => elev::first_index(elevator@.call_buttons, cab_calls(floor)) is None,
        },
{
    let test = |call: &Vec<u8>| -> (b: bool)
        requires
            call@.len() >= 2,
        ensures
            b == is_cab_call(floor, call@),
    { call[0] == floor && call[1] == CAB };
    let calls = &elevator.call_buttons;
    assert forall|i: int| 0 <= i < calls@.len() implies (#[trigger] calls@[i])@.len() >= 2 by {
        assert(elevator@.call_buttons[i].len() >= 2);
    }
    elev::position(calls, test, Ghost(cab_calls(floor)))
}

/// What to do while the door is open: `elapsed` nanoseconds after it was opened, with the
/// obstruction as it was seen after the last wait, if there was one.
pub fn door_wait(seen_obstructed: Option<bool>, elapsed: u64) -> (r: DoorWait)
    ensures
        r == (if seen_obstructed == Some(true) {
            DoorWait::Interrupted
        } else if elapsed < DOOR_DELAY * 1_000_000 {
            DoorWait::Wait { millis: DOOR_CHECK_INTERVAL }
        } else {
            DoorWait::Elapsed
        }),
{
    if let Some(obstructed) = seen_obstructed {
        if obstructed {
            return DoorWait::Interrupted;
        }
    }
    if elapsed < DOOR_DELAY * 1_000_000 {
        DoorWait::Wait { millis: DOOR_CHECK_INTERVAL }
    } else {
        DoorWait::Elapsed
    }
}

/// A system after a call at the floor where its elevator stands has been served at once.
pub open spec fn served_at_once(s: SystemView, floor: u8, place: int) -> SystemView {
    let kind = s.elevator.call_buttons[place][1];
    let rest = s.with_elevator(without_place(s.elevator, place));
    if kind != CAB {
        rest.without_hall_call(floor, kind)
    } else {
        rest
    }
}

/// What serving a call at once asks for.
pub open spec fn serve_at_once_actions(s: SystemView, floor: u8, place: int) -> Seq<ActionView> {
    let kind = s.elevator.call_buttons[place][1];
    let light = ActionView::CallButtonLight { floor, call: kind, on: false };
    if kind != CAB {
        s.broadcast(MessageView::CompletedCall { floor, direction: kind }).push(light)
    } else {
        seq![light, fault_handler::save_action(s.local_id, without_place(s.elevator, place))]
    }
}

/// A system once the call that is next in its queue has been looked at: if the call is for the
/// floor where the elevator stands, it is served at once.
pub open spec fn next_looked_at(s: SystemView, floor: u8, place: int) -> SystemView {
    if s.elevator.call_buttons[place][0] == floor {
        served_at_once(s, floor, place)
    } else {
        s
    }
}

/// What looking at the next call asks for.
pub open spec fn look_actions(s: SystemView, floor: u8, place: int) -> Seq<ActionView> {
    if s.elevator.call_buttons[place][0] == floor {
        serve_at_once_actions(s, floor, place)
    } else {
        Seq::empty()
    }
}

/// The direction in which an elevator leaves a floor: towards its next call, or nowhere.
pub open spec fn leaving_direction(s: SystemView, floor: u8, place: int) -> u8 {
    let next_floor = s.elevator.call_buttons[place][0];
    if next_floor != floor {
        direction_towards(next_floor, floor)
    } else {
        let rest = served_at_once(s, floor, place).elevator;
        match next_call(rest) {
            Some(i) => direction_towards(rest.call_buttons[i][0], floor),
            None => DIRN_STOP,
        }
    }
}

/// A system after its elevator has left a floor. An obstructed elevator does not leave.
pub open spec fn departed(s: SystemView, floor: u8) -> SystemView {
    match next_call(s.elevator) {
        Some(place) if !s.elevator.is_obstructed => {
            let rest = next_looked_at(s, floor, place);
            rest.with_elevator(headed(rest.elevator, leaving_direction(s, floor, place)))
        },
        _ => s,
    }
}

/// What leaving a floor asks for: the door closes before the motor runs, and an elevator that turns
/// waits first. The door of an obstructed elevator stays open.
pub open spec fn depart_actions(s: SystemView, floor: u8) -> Seq<ActionView> {
    if s.elevator.is_obstructed {
        Seq::empty()
    } else {
        match next_call(s.elevator) {
            Some(place) => {
                let dirn = leaving_direction(s, floor, place);
                look_actions(s, floor, place) + (if dirn == reversed(s.elevator.current_direction) {
                    seq![ActionView::Pause { millis: TURN_DELAY }]
                } else {
                    Seq::empty()
                }) + seq![
                    ActionView::DoorLight(false),
                    ActionView::MotorDirection(dirn),
                    ActionView::DoorLight(false),
                ]
            },
            None => seq![ActionView::DoorLight(false)],
        }
    }
}

/// The call that is taken next is the first of its kind in the queue.
proof fn lemma_next_call_first(elevator: ElevatorView)
    requires
        next_call(elevator) is Some,
    ensures
        ({
            let i = next_call(elevator)->0;
            &&& 0 <= i < elevator.call_buttons.len()
            &&& is_first_equal(elevator.call_buttons, i)
        }),
{
    let queue = elevator.call_buttons;
    elev::first_index_meaning(queue, ahead_of(elevator));
    elev::first_index_meaning(queue, at_floor(elevator.current_floor));
}

/// Whether no earlier call of a queue equals the one at a place.
spec fn is_first_equal(queue: Seq<Seq<u8>>, i: int) -> bool {
    elev::is_first(queue, equal_to(queue[i]), i)
}

/// Leaves a floor once the door has been open long enough: towards the next call, if there is one.
/// An obstructed elevator stays.
pub fn depart(elevator_system: &mut ElevatorSystem, floor: u8) -> (r: Vec<Action>)
    requires
        old(elevator_system)@.valid(),
    ensures
        final(elevator_system)@.valid(),
        final(elevator_system)@ == departed(old(elevator_system)@, floor),
        action::views(r@) == depart_actions(old(elevator_system)@, floor),
{
    let ghost before = elevator_system@;
    let mut actions: Vec<Action> = Vec::new();
    assert(action::views(actions@) =~= Seq::<ActionView>::empty());
    if elevator_system.local_elevator.is_obstructed {
        return actions;
    }
    let next: Option<Vec<u8>> = match decide_next_call(&elevator_system.local_elevator) {
        Some(call) => Some(call.clone()),
        None => None,
    };
    if let Some(call) = next {
        let ghost place = next_call(before.elevator)->0;
        proof {
            lemma_next_call_first(before.elevator);
            assert(call@ =~= before.elevator.call_buttons[place]);
            elev::first_index_meaning(before.elevator.call_buttons, equal_to(call@));
        }
        let next_floor = call[0];
        let next_call_type = call[1];
        let mut new_dir: u8 = if next_floor > floor {
            DIRN_UP
        } else if next_floor < floor {
            DIRN_DOWN
        } else {
            let index = find_call_button_index(call, &elevator_system.local_elevator);
            if next_call_type != CAB {
                let more = elevator_system.complete_call(floor, next_call_type);
                action::add_actions(&mut actions, more);
            }
            action::add_action(
                &mut actions,
                Action::CallButtonLight { floor, call: next_call_type, on: false },
            );
            if let Some(i) = index {
                assert(i == place);
                let ghost last = elevator_system@;
                elevator_system.local_elevator.call_buttons.remove(i);
                proof {
                    assert(elevator_system@.elevator.call_buttons
                        =~= before.elevator.call_buttons.remove(place));
                    lemma_without_place(before.elevator, place);
                    system::lemma_with_elevator(last, elevator_system@.elevator);
                }
            }
            if next_call_type == CAB {
                action::add_action(
                    &mut actions,
                    fault_handler::save_state(
                        elevator_system.local_id.as_str(),
                        &elevator_system.local_elevator,
                    ),
                );
            }
            DIRN_STOP
        };
        assert(action::views(actions@) =~= look_actions(before, floor, place));
        assert(elevator_system@ == next_looked_at(before, floor, place));
        if let Some(next_call) = decide_next_call(&elevator_system.local_elevator) {
            if new_dir == DIRN_STOP {
                new_dir = hall_call_start_dir(next_call[0], floor, new_dir);
            }
        }
        assert(new_dir == leaving_direction(before, floor, place));
        if new_dir == opposite_dir(elevator_system.local_elevator.current_direction) {
            action::add_action(&mut actions, Action::Pause { millis: TURN_DELAY });
        }
        action::add_action(&mut actions, Action::DoorLight(false));
        elevator_system.local_elevator.current_direction = new_dir;
        action::add_action(&mut actions, Action::MotorDirection(new_dir));
    }
    action::add_action(&mut actions, Action::DoorLight(false));
    assert(action::views(actions@) =~= depart_actions(before, floor));
    actions
}

} // verus!
