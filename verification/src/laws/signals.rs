//! What follows from buttons, sensors, signs of life and the start of the program.

use vstd::prelude::*;

use crate::action::ActionView;
use crate::control;
use crate::elevio::cost;
use crate::elevio::cost::MessageView;
use crate::elevio::elev::{ElevatorView, CAB, DIRN_DOWN, DIRN_STOP, HALL_DOWN, HALL_UP};
use crate::elevio::fault_handler;
use crate::elevio::fault_handler::{MonitorView, ELEVATOR_TIMEOUT};
use crate::elevio::system;
use crate::elevio::system::SystemView;
use crate::events;
use crate::laws::faults;
use crate::laws::messages;
use crate::laws::serving;
use crate::laws::travel;
use crate::network::p2p_connect::NetworkView;
use crate::startup;
use crate::table;
use crate::text;

verus! {

/// A button in the cab adds its call at the end of the queue, unless it is there already; a new call
/// is saved, and one that is there is not. The elevator then sets out towards the floor if it is free
/// and has no other call or stands still. Nothing else changes.
pub proof fn cab_button_adds_a_call(s: SystemView, floor: u8)
    ensures
        ({
            let call = seq![floor, CAB];
            let was = s.elevator;
            let after = events::cab_called(s, floor);
            let is = after.elevator;
            let actions = events::cab_call_actions(s, floor);
            let saved = ActionView::SaveState {
                file_name: fault_handler::state_file(s.local_id),
                lines: fault_handler::saved_lines(
                    was.current_floor,
                    was.current_direction,
                    is.call_buttons,
                ),
            };
            let save = if was.call_buttons.contains(call) {
                Seq::<ActionView>::empty()
            } else {
                seq![saved]
            };
            &&& after == (SystemView { elevator: is, ..s })
            &&& is == (ElevatorView {
                call_buttons: is.call_buttons,
                current_direction: is.current_direction,
                ..was
            })
            &&& was.call_buttons.contains(call) ==> is.call_buttons == was.call_buttons
            &&& !was.call_buttons.contains(call) ==> is.call_buttons == was.call_buttons.push(call)
            &&& if !was.is_obstructed && (is.call_buttons.len() == 1 || was.current_direction
                == DIRN_STOP) {
                &&& travel::leads(is.current_direction, was.current_floor, floor)
                &&& actions == save + seq![ActionView::MotorDirection(is.current_direction)]
            } else {
                &&& is.current_direction == was.current_direction
                &&& actions == save
            }
        }),
{
    let call = seq![floor, CAB];
    let queued = s.elevator_with_call(floor, CAB);
    table::lemma_with_key(s.elevator.call_buttons, call);
    if s.elevator.call_buttons.contains(call) {
        assert(s.elevator.call_buttons.len() > 0);
    }
    travel::setting_out_leads_to_the_floor(queued, floor);
    let save = if s.elevator.call_buttons.contains(call) {
        Seq::<ActionView>::empty()
    } else {
        seq![fault_handler::save_action(s.local_id, queued)]
    };
    assert(events::cab_call_actions(s, floor) =~= save + control::start_actions(queued, floor));
    assert(save + Seq::<ActionView>::empty() =~= save);
}

/// An elevator that reaches a floor is at that floor, and shows it before anything else. What follows
/// is what serving a call there asks for; if an obstruction takes hold, its hall calls are turned
/// over after that.
pub proof fn reached_floor_is_shown(s: SystemView, floor: u8)
    requires
        s.valid(),
    ensures
        ({
            let here = SystemView {
                elevator: ElevatorView { current_floor: floor, ..s.elevator },
                ..s
            };
            let served = control::served(here, floor);
            let actions = events::arrive_actions(s, floor);
            let after = events::arrived(s, floor);
            let holds = s.elevator.obstruction_waiting is Some && control::serving_place(
                here.elevator,
                floor,
            ) is Some;
            &&& actions.len() > 0
            &&& actions[0] == ActionView::FloorIndicator(floor)
            &&& control::serve_actions(here, floor).is_prefix_of(actions.skip(1))
            &&& after.elevator.current_floor == floor
            &&& !holds ==> after == served && actions.skip(1) == control::serve_actions(here, floor)
            &&& holds ==> after == served.turned_over(events::own_calls(served))
            &&& holds ==> actions.skip(1) == control::serve_actions(here, floor)
                + served.turn_over_actions(events::own_calls(served))
            &&& events::at(s, floor) == here
        }),
{
    let here = events::at(s, floor);
    let served = control::served(here, floor);
    let serve = control::serve_actions(here, floor);
    let actions = events::arrive_actions(s, floor);
    if events::takes_hold(here, floor) {
        assert(actions.skip(1) =~= serve + served.turn_over_actions(events::own_calls(served)));
        lemma_floor_kept(served, events::own_calls(served));
    } else {
        assert(actions.skip(1) =~= serve);
    }
    serving::serving_keeps_the_other_floors(here, floor);
}

/// Turning over calls leaves the elevator where it is.
proof fn lemma_floor_kept(s: SystemView, calls: Seq<(u8, u8, u64)>)
    ensures
        s.turned_over(calls).elevator.current_floor == s.elevator.current_floor,
    decreases calls.len(),
{
    if calls.len() > 0 {
        lemma_floor_kept(s, calls.drop_last());
    }
}

/// Whether an action switches off the light of a call button.
pub open spec fn switches_off(a: ActionView) -> bool {
    match a {
        ActionView::CallButtonLight { on, .. } => !on,
        _ => false,
    }
}

/// The stop button empties the queue and halts the elevator; nothing else changes. The lights of all
/// buttons go off, and no other light is touched.
pub proof fn stop_switches_off_every_light(s: SystemView, num_floors: u8, floor: u8, call: u8)
    ensures
        events::stopped(s) == (SystemView {
            elevator: ElevatorView {
                current_direction: DIRN_STOP,
                call_buttons: Seq::empty(),
                ..s.elevator
            },
            ..s
        }),
        events::lights_off(num_floors as nat).len() == 3 * num_floors,
        events::lights_off(num_floors as nat).contains(
            ActionView::CallButtonLight { floor, call, on: false },
        ) == (floor < num_floors && call < 3),
        forall|i: int|
            0 <= i < events::lights_off(num_floors as nat).len() ==> switches_off(
                #[trigger] events::lights_off(num_floors as nat)[i],
            ),
{
    let lights = events::lights_off(num_floors as nat);
    let light = ActionView::CallButtonLight { floor, call, on: false };
    if floor < num_floors && call < 3 {
        let i = 3 * floor + call;
        assert(i / 3 == floor && i % 3 == call);
        assert(lights[i] == light);
    }
    if lights.contains(light) {
        let i = choose|i: int| 0 <= i < lights.len() && lights[i] == light;
        assert(i / 3 < num_floors);
    }
}

/// After a stop at a floor the door opens, three seconds pass, and it closes; between floors it stays
/// shut.
pub proof fn stop_opens_the_door_at_a_floor()
    ensures
        events::stop_door_actions(true) == seq![
            ActionView::DoorLight(true),
            ActionView::Pause { millis: 3000 },
            ActionView::DoorLight(false),
        ],
        events::stop_door_actions(false).len() == 0,
{
}

/// The lever at a floor: an obstruction is in force, since the first time it was set, and none waits;
/// letting go ends it. Between floors an obstruction only waits, since the first time; letting go
/// ends that too.
pub proof fn lever_is_noted(s: SystemView, at_floor: bool, now: u64)
    ensures
        ({
            let first = |t: Option<u64>|
                if t is Some {
                    t
                } else {
                    Some(now)
                };
            let set = events::obstruction_noted(s, true, at_floor, now);
            let free = events::obstruction_changed(s, false, at_floor, now);
            &&& at_floor ==> set == (SystemView {
                elevator: ElevatorView {
                    is_obstructed: true,
                    obstruction_start_time: first(s.elevator.obstruction_start_time),
                    obstruction_waiting: None,
                    ..s.elevator
                },
                ..s
            })
            &&& !at_floor ==> set == (SystemView {
                elevator: ElevatorView {
                    obstruction_waiting: first(s.elevator.obstruction_waiting),
                    ..s.elevator
                },
                ..s
            })
            &&& free == (SystemView {
                elevator: ElevatorView {
                    is_obstructed: false,
                    obstruction_start_time: None,
                    obstruction_waiting: None,
                    ..s.elevator
                },
                ..s
            })
            &&& events::obstruction_actions(s, false, at_floor, now).len() == 0
            &&& events::obstruction_actions(s, true, false, now).len() == 0
            &&& events::obstruction_changed(s, true, false, now) == events::obstruction_noted(
                s,
                true,
                false,
                now,
            )
            &&& events::obstruction_changed(s, true, true, now) == events::obstruction_noted(
                s,
                true,
                true,
                now,
            ).turned_over(
                events::own_calls(events::obstruction_noted(s, true, true, now)),
            )
            &&& events::obstruction_actions(s, true, true, now) == seq![
                ActionView::DoorLight(true),
            ] + events::obstruction_noted(s, true, true, now).turn_over_actions(
                events::own_calls(events::obstruction_noted(s, true, true, now)),
            )
        }),
{
}

/// An elevator is alive just if its last sign of life is less than five seconds old, and overdue just
/// if it is more than five seconds old. The lists hold just those elevators, each once.
pub proof fn five_seconds_of_silence(m: MonitorView, id: Seq<char>, now: u64)
    requires
        m.valid(),
    ensures
        m.alive(id, now) == (m.last_seen.dom().contains(id) && now - m.last_seen[id]
            < 5_000_000_000),
        m.overdue(id, now) == (m.last_seen.dom().contains(id) && now - m.last_seen[id]
            > 5_000_000_000),
        m.alive_ids(now).contains(id) == (m.last_seen.dom().contains(id) && now - m.last_seen[id]
            < 5_000_000_000),
        m.overdue_ids(now).contains(id) == (m.last_seen.dom().contains(id) && now - m.last_seen[id]
            > 5_000_000_000),
        m.alive_ids(now).no_duplicates(),
        m.overdue_ids(now).no_duplicates(),
        ELEVATOR_TIMEOUT == 5_000_000_000,
{
    faults::lemma_filter(m.known, |x: Seq<char>| m.alive(x, now));
    faults::lemma_filter(m.known, |x: Seq<char>| m.overdue(x, now));
}

/// A sign of life sets the time of its elevator, and of no other; the elevator is known and active
/// from then on. Only the word of an elevator's own state is such a sign.
pub proof fn state_is_a_sign_of_life(
    m: MonitorView,
    id: Seq<char>,
    other: Seq<char>,
    message: MessageView,
    now: u64,
)
    requires
        m.valid(),
    ensures
        m.heard(id, now).last_seen == m.last_seen.insert(id, now),
        m.heard(id, now).active.contains(other) == (m.active.contains(other) || other == id),
        m.heard(id, now).known.contains(other) == (m.known.contains(other) || other == id),
        m.heard(id, now).valid(),
        match message {
            MessageView::ElevatorState { id: from, .. } => events::monitor_told(m, message, now)
                == m.heard(from, now),
            _ => events::monitor_told(m, message, now) == m,
        },
{
    table::lemma_with_key(m.known, id);
    table::lemma_with_key(m.active, id);
}

/// What the local elevator tells of itself is where it is, where it goes, what waits and whether it
/// is obstructed.
pub proof fn told_state_is_the_true_one(s: SystemView)
    ensures
        s.state_message() == (MessageView::ElevatorState {
            id: s.local_id,
            floor: s.elevator.current_floor,
            direction: s.elevator.current_direction,
            call_buttons: s.elevator.call_buttons,
            is_obstructed: s.elevator.is_obstructed,
        }),
{
}

/// The answer to a request to synchronise holds nothing but hall calls on record, sent to peers.
pub proof fn sync_tells_nothing_else(s: SystemView, x: ActionView)
    requires
        s.valid(),
        s.sync_actions().contains(x),
    ensures
        exists|k: (u8, u8), i: int|
            s.hall_calls.dom().contains(k) && 0 <= i < s.peers.len() && x == (ActionView::Send {
                addr: #[trigger] s.peers[i],
                message: cost::message_text(
                    MessageView::HallCall {
                        floor: k.0,
                        direction: k.1,
                        timestamp: (#[trigger] s.hall_calls[k]).1,
                    },
                ),
            }),
{
    let calls = s.all_calls();
    let tell = |call: (u8, u8, u64)|
        s.broadcast(
            MessageView::HallCall { floor: call.0, direction: call.1, timestamp: call.2 },
        );
    let same = |call: (u8, u8, u64)|
        s.broadcast(system::hall_call_message(call));
    assert(tell =~= same);
    let n = messages::lemma_flat_map_source(calls, same, x);
    let k = s.hall_order[n];
    assert(s.hall_order.contains(k));
    let given = same(calls[n]);
    let i = choose|i: int| 0 <= i < given.len() && given[i] == x;
    assert(s.hall_calls.dom().contains(k));
    assert(x == (ActionView::Send {
        addr: s.peers[i],
        message: cost::message_text(
            MessageView::HallCall { floor: k.0, direction: k.1, timestamp: s.hall_calls[k].1 },
        ),
    }));
}

/// On its way to the ground floor an elevator runs down from every other floor, and stops at the
/// ground floor. Every floor but the first one is shown, and so is the ground floor at the end.
pub proof fn homing_leads_to_the_ground_floor(first: bool, floor: u8)
    ensures
        ({
            let actions = startup::homing_actions(first, floor);
            &&& floor != 0 ==> actions.last() == ActionView::MotorDirection(DIRN_DOWN)
            &&& floor == 0 ==> actions.contains(ActionView::MotorDirection(DIRN_STOP))
                && actions.last() == ActionView::FloorIndicator(0)
            &&& !first ==> actions[0] == ActionView::FloorIndicator(floor)
            &&& first ==> actions[0] is MotorDirection
            &&& actions.len() == (if first { 0int } else { 1 }) + (if floor == 0 { 2int } else { 1 })
        }),
{
    let actions = startup::homing_actions(first, floor);
    if floor == 0 {
        assert(actions[actions.len() - 2] == ActionView::MotorDirection(DIRN_STOP));
    }
}

/// At the start the lights of all buttons go off, and no other light is touched.
pub proof fn startup_switches_off_every_light(num_floors: u8, floor: u8, call: u8)
    ensures
        ({
            let n = num_floors as nat;
            let lights = startup::kind_off(n, HALL_UP) + startup::kind_off(n, HALL_DOWN)
                + startup::kind_off(n, CAB);
            &&& lights.len() == 3 * num_floors
            &&& lights.contains(ActionView::CallButtonLight { floor, call, on: false }) == (floor
                < num_floors && call < 3)
            &&& forall|i: int|
                0 <= i < lights.len() ==> switches_off(#[trigger] lights[i])
        }),
{
    let n = num_floors as nat;
    let lights = startup::kind_off(n, HALL_UP) + startup::kind_off(n, HALL_DOWN) + startup::kind_off(
        n,
        CAB,
    );
    let light = ActionView::CallButtonLight { floor, call, on: false };
    if floor < num_floors && call == HALL_UP {
        assert(lights[floor as int] == light);
    } else if floor < num_floors && call == HALL_DOWN {
        assert(lights[num_floors + floor] == light);
    } else if floor < num_floors && call == CAB {
        assert(lights[2 * num_floors + floor] == light);
    }
}

/// Elevators accept messages on ports that count from 8878.
pub proof fn addresses_count_from_the_first_port(i: int)
    requires
        0 <= i,
    ensures
        startup::peer_address(i) == "localhost:"@ + text::decimal((8878 + i) as nat),
        text::digits_value(
            startup::peer_address(i).skip("localhost:"@.len() as int),
        ) == 8878 + i,
{
    let host = "localhost:"@;
    let number = text::decimal((8878 + i) as nat);
    text::lemma_decimal_digits((8878 + i) as nat);
    assert((host + number).skip(host.len() as int) =~= number);
}

/// Giving up peers leaves just the others, each on its stream; one peer is given up as one of a list
/// is.
pub proof fn given_up_peers_are_not_reached(
    network: NetworkView,
    gone: Seq<Seq<char>>,
    addr: Seq<char>,
)
    requires
        network.valid(),
    ensures
        network.without_all(gone).streams.dom().contains(addr) == (network.streams.dom().contains(
            addr,
        ) && !gone.contains(addr)),
        network.without_all(gone).addresses.contains(addr) == (network.streams.dom().contains(addr)
            && !gone.contains(addr)),
        network.without_all(gone).streams.dom().contains(addr) ==> network.without_all(
            gone,
        ).streams[addr] == network.streams[addr],
        network.without(addr).streams == network.streams.remove(addr),
{
    faults::lemma_filter(network.addresses, |k: Seq<char>| !gone.contains(k));
    assert(gone.to_set().contains(addr) <==> gone.contains(addr));
}

} // verus!
