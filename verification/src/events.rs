//! What an elevator does when something happens: a button is pressed, a floor is reached, the door
//! is obstructed, a message arrives.

use vstd::prelude::*;
use vstd::utf8;

use crate::action;
use crate::action::{Action, ActionView};
use crate::control;
use crate::control::{serve_call, start_elevator, ServeOutcome, DOOR_DELAY};
use crate::elevio::cost;
use crate::elevio::cost::{ElevatorMessage, MessageView};
use crate::elevio::elev::{ElevatorView, CAB, DIRN_STOP};
use crate::elevio::fault_handler;
use crate::elevio::fault_handler::{ElevatorHealthMonitor, MonitorView};
use crate::elevio::system;
use crate::elevio::system::{ElevatorSystem, SystemView};
use crate::text;

verus! {

/// A system after a button in the cab has been pressed.
pub open spec fn cab_called(s: SystemView, floor: u8) -> SystemView {
    s.with_elevator(control::started(s.elevator_with_call(floor, CAB), floor))
}

/// What a button in the cab asks for. A call that is new is saved before the elevator starts.
pub open spec fn cab_call_actions(s: SystemView, floor: u8) -> Seq<ActionView> {
    let queued = s.elevator_with_call(floor, CAB);
    (if s.elevator.call_buttons.contains(seq![floor, CAB]) {
        Seq::empty()
    } else {
        seq![fault_handler::save_action(s.local_id, queued)]
    }) + control::start_actions(queued, floor)
}

/// A call button has been pressed.
pub fn on_call_button(elevator_system: &mut ElevatorSystem, floor: u8, call: u8, now: u64) -> (r: Vec<
    Action,
>)
    requires
        old(elevator_system)@.valid(),
        call != CAB ==> old(elevator_system)@.room_for(1),
    ensures
        final(elevator_system)@.valid(),
        ({
            let before = old(elevator_system)@;
            let light = seq![ActionView::CallButtonLight { floor, call, on: true }];
            if call == CAB {
                &&& final(elevator_system)@ == cab_called(before, floor)
                &&& action::views(r@) == light + cab_call_actions(before, floor)
            } else {
                let noted = before.with_open_call(floor, call, now);
                &&& final(elevator_system)@ == noted.assigned(floor, call, now)
                &&& action::views(r@) == light + before.broadcast(
                    system::hall_call_message((floor, call, now)),
                ) + noted.assign_actions(floor, call, now)
            }
        }),
{
    let ghost before = elevator_system@;
    let mut actions: Vec<Action> = Vec::new();
    action::add_action(&mut actions, Action::CallButtonLight { floor, call, on: true });
    let ghost light = seq![ActionView::CallButtonLight { floor, call, on: true }];
    assert(action::views(actions@) =~= light);
    if call == CAB {
        if elevator_system.queue_call(floor, call) {
            action::add_action(
                &mut actions,
                fault_handler::save_state(
                    elevator_system.local_id.as_str(),
                    &elevator_system.local_elevator,
                ),
            );
        }
        let more = start_elevator(&mut elevator_system.local_elevator, floor, 0);
        action::add_actions(&mut actions, more);
        proof {
            system::lemma_with_elevator(before, elevator_system@.elevator);
            assert(action::views(actions@) =~= light + cab_call_actions(before, floor));
        }
    } else {
        let more = elevator_system.process_hall_call(floor, call, now);
        action::add_actions(&mut actions, more);
        proof {
            let noted = before.with_open_call(floor, call, now);
            assert(action::views(actions@) =~= light + before.broadcast(
                system::hall_call_message((floor, call, now)),
            ) + noted.assign_actions(floor, call, now));
        }
    }
    actions
}

/// A system whose elevator has reached a floor.
pub open spec fn at(s: SystemView, floor: u8) -> SystemView {
    s.with_elevator(ElevatorView { current_floor: floor, ..s.elevator })
}

/// Whether an obstruction that was waiting takes hold at a floor, as the door opens for a call.
pub open spec fn takes_hold(s: SystemView, floor: u8) -> bool {
    s.elevator.obstruction_waiting is Some && control::serving_place(s.elevator, floor) is Some
}

/// A system after its elevator has reached a floor and served a call there, if there is one. If an
/// obstruction takes hold, the hall calls of the elevator go to others.
pub open spec fn arrived(s: SystemView, floor: u8) -> SystemView {
    let here = at(s, floor);
    let served = control::served(here, floor);
    if takes_hold(here, floor) {
        served.turned_over(own_calls(served))
    } else {
        served
    }
}

/// What reaching a floor asks for.
pub open spec fn arrive_actions(s: SystemView, floor: u8) -> Seq<ActionView> {
    let here = at(s, floor);
    let served = control::served(here, floor);
    seq![ActionView::FloorIndicator(floor)] + control::serve_actions(here, floor) + (if takes_hold(
        here,
        floor,
    ) {
        served.turn_over_actions(own_calls(served))
    } else {
        Seq::empty()
    })
}

/// The elevator has reached a floor.
pub fn on_floor_sensor(elevator_system: &mut ElevatorSystem, floor: u8) -> (r: (
    ServeOutcome,
    Vec<Action>,
))
    requires
        old(elevator_system)@.valid(),
    ensures
        final(elevator_system)@.valid(),
        final(elevator_system)@ == arrived(old(elevator_system)@, floor),
        r.0 == control::serve_outcome(at(old(elevator_system)@, floor), floor),
        action::views(r.1@) == arrive_actions(old(elevator_system)@, floor),
{
    let ghost before = elevator_system@;
    let mut actions: Vec<Action> = Vec::new();
    elevator_system.local_elevator.current_floor = floor;
    let was_waiting = elevator_system.local_elevator.obstruction_waiting.is_some();
    assert(elevator_system@ == at(before, floor));
    action::add_action(&mut actions, Action::FloorIndicator(floor));
    assert(action::views(actions@) =~= seq![ActionView::FloorIndicator(floor)]);
    let (outcome, more) = serve_call(elevator_system, floor);
    action::add_actions(&mut actions, more);
    if was_waiting && outcome == ServeOutcome::HeldOpen {
        let calls = own_hall_calls(elevator_system);
        let more = elevator_system.turn_over_calls(&calls);
        action::add_actions(&mut actions, more);
    }
    assert(action::views(actions@) =~= arrive_actions(before, floor));
    (outcome, actions)
}

/// A system after its stop button has been pressed.
pub open spec fn stopped(s: SystemView) -> SystemView {
    s.with_elevator(
        ElevatorView { current_direction: DIRN_STOP, call_buttons: Seq::empty(), ..s.elevator },
    )
}

/// All call button lights of so many floors, switched off.
pub open spec fn lights_off(num_floors: nat) -> Seq<ActionView> {
    Seq::new(
        3 * num_floors,
        |i: int|
            ActionView::CallButtonLight { floor: (i / 3) as u8, call: (i % 3) as u8, on: false },
    )
}

/// The stop button has been pressed: the elevator stops at once, and its queue is cleared.
pub fn on_stop_button(elevator_system: &mut ElevatorSystem) -> (r: Vec<Action>)
    requires
        old(elevator_system)@.valid(),
    ensures
        final(elevator_system)@.valid(),
        final(elevator_system)@ == stopped(old(elevator_system)@),
        action::views(r@) == seq![ActionView::MotorDirection(DIRN_STOP)] + lights_off(
            old(elevator_system)@.elevator.num_floors as nat,
        ),
{
    let ghost before = elevator_system@;
    let mut actions: Vec<Action> = Vec::new();
    action::add_action(&mut actions, Action::MotorDirection(DIRN_STOP));
    elevator_system.local_elevator.current_direction = DIRN_STOP;
    let num_floors = elevator_system.local_elevator.num_floors;
    let mut floor: u8 = 0;
    let ghost motor = seq![ActionView::MotorDirection(DIRN_STOP)];
    assert(action::views(actions@) =~= motor + lights_off(0));
    while floor < num_floors
        invariant
            floor <= num_floors,
            action::views(actions@) == motor + lights_off(floor as nat),
        decreases num_floors - floor,
    {
        action::add_action(&mut actions, Action::CallButtonLight { floor, call: 0, on: false });
        action::add_action(&mut actions, Action::CallButtonLight { floor, call: 1, on: false });
        action::add_action(&mut actions, Action::CallButtonLight { floor, call: 2, on: false });
        assert(action::views(actions@) =~= motor + lights_off((floor + 1) as nat));
        floor += 1;
    }
    elevator_system.local_elevator.call_buttons.clear();
    proof {
        assert(elevator_system@.elevator.call_buttons =~= Seq::<Seq<u8>>::empty());
        system::lemma_with_elevator(before, elevator_system@.elevator);
    }
    actions
}

/// What a stop at a floor asks for: the door opens for a while.
pub open spec fn stop_door_actions(at_floor: bool) -> Seq<ActionView> {
    if at_floor {
        seq![
            ActionView::DoorLight(true),
            ActionView::Pause { millis: DOOR_DELAY },
            ActionView::DoorLight(false),
        ]
    } else {
        Seq::empty()
    }
}

/// The hall calls that are given to the local elevator, each with its time.
pub open spec fn own_calls(s: SystemView) -> Seq<(u8, u8, u64)> {
    s.timed_calls(s.held_by(seq![s.local_id]))
}

/// Once the elevator has been stopped: the door opens if there is a floor, the state is saved, the
/// hall calls of the elevator go to the others, and its state is told to all peers.
pub fn after_stop(elevator_system: &mut ElevatorSystem, at_floor: bool) -> (r: Vec<Action>)
    requires
        old(elevator_system)@.valid(),
    ensures
        final(elevator_system)@.valid(),
        ({
            let before = old(elevator_system)@;
            let after = before.handed_on(own_calls(before));
            &&& final(elevator_system)@ == after
            &&& action::views(r@) == stop_door_actions(at_floor) + seq![
                fault_handler::save_action(before.local_id, before.elevator),
            ] + after.broadcast(after.state_message())
        }),
{
    let ghost before = elevator_system@;
    let calls = own_hall_calls(elevator_system);
    let mut actions: Vec<Action> = Vec::new();
    if at_floor {
        action::add_action(&mut actions, Action::DoorLight(true));
        action::add_action(&mut actions, Action::Pause { millis: DOOR_DELAY });
        action::add_action(&mut actions, Action::DoorLight(false));
    }
    action::add_action(
        &mut actions,
        fault_handler::save_state(
            elevator_system.local_id.as_str(),
            &elevator_system.local_elevator,
        ),
    );
    assert(action::views(actions@) =~= stop_door_actions(at_floor) + seq![
        fault_handler::save_action(before.local_id, before.elevator),
    ]);
    elevator_system.hand_on_calls(&calls);
    let last = elevator_system.broadcast_state();
    action::add_actions(&mut actions, last);
    actions
}

/// The hall calls that are given to the local elevator, each with its time.
fn own_hall_calls(elevator_system: &ElevatorSystem) -> (r: Vec<(u8, u8, u64)>)
    requires
        elevator_system@.valid(),
    ensures
        r@ == own_calls(elevator_system@),
{
    let ids: Vec<String> = vec![elevator_system.local_id.clone()];
    proof {
        assert(text::string_views(ids@) =~= seq![elevator_system@.local_id]);
    }
    elevator_system.calls_held_by(ids.as_slice())
}

/// A system whose elevator has become obstructed.
pub open spec fn obstructed(s: SystemView, now: u64) -> SystemView {
    s.with_elevator(
        ElevatorView {
            is_obstructed: true,
            obstruction_start_time: match s.elevator.obstruction_start_time {
                Some(t) => Some(t),
                None => Some(now),
            },
            obstruction_waiting: None,
            ..s.elevator
        },
    )
}

/// A system that has put an obstruction off until the door opens.
pub open spec fn put_off(s: SystemView, now: u64) -> SystemView {
    s.with_elevator(
        ElevatorView {
            obstruction_waiting: match s.elevator.obstruction_waiting {
                Some(t) => Some(t),
                None => Some(now),
            },
            ..s.elevator
        },
    )
}

/// A system whose elevator is free of obstruction.
pub open spec fn cleared(s: SystemView) -> SystemView {
    s.with_elevator(
        ElevatorView {
            is_obstructed: false,
            obstruction_start_time: None,
            obstruction_waiting: None,
            ..s.elevator
        },
    )
}

/// A system that has noted where the obstruction lever is. Between floors an obstruction waits for
/// the door to open.
pub open spec fn obstruction_noted(s: SystemView, obstruction: bool, at_floor: bool, now: u64) -> SystemView {
    if !obstruction {
        cleared(s)
    } else if at_floor {
        obstructed(s, now)
    } else {
        put_off(s, now)
    }
}

/// A system after the obstruction lever has been moved. At a floor the hall calls of an obstructed
/// elevator go to others.
pub open spec fn obstruction_changed(s: SystemView, obstruction: bool, at_floor: bool, now: u64) -> SystemView {
    let noted = obstruction_noted(s, obstruction, at_floor, now);
    if at_floor && obstruction {
        noted.turned_over(own_calls(noted))
    } else {
        noted
    }
}

/// What the obstruction lever asks for: at a floor the door is held open, and the hall calls go to
/// others.
pub open spec fn obstruction_actions(s: SystemView, obstruction: bool, at_floor: bool, now: u64) -> Seq<
    ActionView,
> {
    if at_floor && obstruction {
        let blocked = obstructed(s, now);
        seq![ActionView::DoorLight(true)] + blocked.turn_over_actions(own_calls(blocked))
    } else {
        Seq::empty()
    }
}

/// The obstruction lever has been moved.
pub fn on_obstruction(
    elevator_system: &mut ElevatorSystem,
    obstruction: bool,
    at_floor: bool,
    now: u64,
) -> (r: Vec<Action>)
    requires
        old(elevator_system)@.valid(),
    ensures
        final(elevator_system)@.valid(),
        final(elevator_system)@ == obstruction_changed(
            old(elevator_system)@,
            obstruction,
            at_floor,
            now,
        ),
        action::views(r@) == obstruction_actions(old(elevator_system)@, obstruction, at_floor, now),
{
    let ghost before = elevator_system@;
    let mut actions: Vec<Action> = Vec::new();
    if !obstruction {
        elevator_system.local_elevator.is_obstructed = false;
        elevator_system.local_elevator.obstruction_start_time = None;
        elevator_system.local_elevator.obstruction_waiting = None;
    } else if at_floor {
        elevator_system.local_elevator.is_obstructed = true;
        if elevator_system.local_elevator.obstruction_start_time.is_none() {
            elevator_system.local_elevator.obstruction_start_time = Some(now);
        }
        elevator_system.local_elevator.obstruction_waiting = None;
    } else if elevator_system.local_elevator.obstruction_waiting.is_none() {
        elevator_system.local_elevator.obstruction_waiting = Some(now);
    }
    proof {
        system::lemma_with_elevator(before, elevator_system@.elevator);
        assert(elevator_system@ == obstruction_noted(before, obstruction, at_floor, now));
    }
    if at_floor && obstruction {
        action::add_action(&mut actions, Action::DoorLight(true));
        let calls = own_hall_calls(elevator_system);
        let more = elevator_system.turn_over_calls(&calls);
        action::add_actions(&mut actions, more);
    }
    assert(action::views(actions@) =~= obstruction_actions(before, obstruction, at_floor, now));
    actions
}

/// What `String::from_utf8_lossy` makes of bytes.
pub uninterp spec fn lossy_text(bytes: Seq<u8>) -> Seq<char>;

/// Calls `String::from_utf8_lossy`. Bytes that are valid UTF-8 give the text that they encode; in
/// other bytes each malformed part is replaced, in a way that depends on the bytes alone and that
/// is not spelt out here.
#[verifier::external_body]
fn text_from_bytes(bytes: &[u8]) -> (r: String)
    ensures
        r@ == lossy_text(bytes@),
        utf8::valid_utf8(bytes@) ==> r@ == utf8::decode_utf8(bytes@),
{
    String::from_utf8_lossy(bytes).to_string()
}

/// The text that came as bytes.
pub open spec fn received_text(bytes: Seq<u8>) -> Seq<char> {
    if utf8::valid_utf8(bytes) {
        utf8::decode_utf8(bytes)
    } else {
        lossy_text(bytes)
    }
}

/// Reads the message that came as bytes.
pub fn read_message(bytes: &[u8]) -> (r: Option<ElevatorMessage>)
    ensures
        match r {
            Some(message) => cost::message_in(received_text(bytes@)) == Some(message@),
            None => cost::message_in(received_text(bytes@)) is None,
        },
{
    let text = text_from_bytes(bytes);
    ElevatorMessage::from_string(text.as_str())
}

/// A monitor after a message: one that tells the state of an elevator is a sign of life.
pub open spec fn monitor_told(monitor: MonitorView, message: MessageView, clock: u64) -> MonitorView {
    match message {
        MessageView::ElevatorState { id, .. } => monitor.heard(id, clock),
        _ => monitor,
    }
}

/// A message has come from a peer. The time is given in seconds for the system, and by the clock of
/// the health monitor.
pub fn on_message(
    elevator_system: &mut ElevatorSystem,
    fault_monitor: &mut ElevatorHealthMonitor,
    message: ElevatorMessage,
    from_addr: String,
    now: u64,
    clock: u64,
) -> (r: Vec<Action>)
    requires
        old(elevator_system)@.valid(),
        old(fault_monitor)@.valid(),
        old(elevator_system)@.can_take(message@),
    ensures
        final(elevator_system)@.valid(),
        final(fault_monitor)@.valid(),
        final(fault_monitor)@ == monitor_told(old(fault_monitor)@, message@, clock),
        final(elevator_system)@ == old(elevator_system)@.with_peer(from_addr@).told(message@, now),
        action::views(r@) == old(elevator_system)@.with_peer(from_addr@).told_actions(
            message@,
            now,
        ),
{
    if let ElevatorMessage::ElevatorState { id, .. } = &message {
        fault_monitor.record_heartbeat(id.as_str(), clock);
    }
    elevator_system.process_message(message, Some(from_addr), now)
}

/// Bytes have come from a peer. Nothing is done with bytes that are no message. Gives nothing, and
/// changes nothing, if the consequences of the message cannot be computed.
pub fn on_bytes(
    elevator_system: &mut ElevatorSystem,
    fault_monitor: &mut ElevatorHealthMonitor,
    bytes: &[u8],
    from_addr: String,
    now: u64,
    clock: u64,
) -> (r: Option<Vec<Action>>)
    requires
        old(elevator_system)@.valid(),
        old(fault_monitor)@.valid(),
    ensures
        final(elevator_system)@.valid(),
        final(fault_monitor)@.valid(),
        match cost::message_in(received_text(bytes@)) {
            Some(message) => if old(elevator_system)@.can_take(message) {
                let known = old(elevator_system)@.with_peer(from_addr@);
                &&& r matches Some(actions) && action::views(actions@) == known.told_actions(
                    message,
                    now,
                )
                &&& final(elevator_system)@ == known.told(message, now)
                &&& final(fault_monitor)@ == monitor_told(old(fault_monitor)@, message, clock)
            } else {
                &&& r is None
                &&& final(elevator_system)@ == old(elevator_system)@
                &&& final(fault_monitor)@ == old(fault_monitor)@
            },
            None => {
                &&& r matches Some(actions) && actions@.len() == 0
                &&& final(elevator_system)@ == old(elevator_system)@
                &&& final(fault_monitor)@ == old(fault_monitor)@
            },
        },
{
    match read_message(bytes) {
        Some(message) => {
            if elevator_system.can_process(&message) {
                Some(on_message(elevator_system, fault_monitor, message, from_addr, now, clock))
            } else {
                None
            }
        },
        None => Some(Vec::new()),
    }
}

/// No message has come for a while: lost elevators are given up, and the state of the local
/// elevator is told to all peers.
pub fn on_quiet(elevator_system: &mut ElevatorSystem, now: u64) -> (r: Vec<Action>)
    requires
        old(elevator_system)@.valid(),
        old(elevator_system)@.room_for(old(elevator_system)@.hall_order.len()),
    ensures
        final(elevator_system)@.valid(),
        ({
            let lost = old(elevator_system)@.lost(now);
            let rest = old(elevator_system)@.without_states(lost);
            let after = rest.reassigned(lost);
            &&& final(elevator_system)@ == after
            &&& action::views(r@) == rest.reassign_actions(lost) + after.broadcast(
                after.state_message(),
            )
        }),
{
    let mut actions = elevator_system.check_disconnected_elevators(now);
    let more = elevator_system.broadcast_state();
    action::add_actions(&mut actions, more);
    actions
}

} // verus!
