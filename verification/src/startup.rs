//! What happens when an elevator is started: it recovers its saved state, finds the ground floor,
//! and works out where its peers are.

use vstd::prelude::*;
use vstd::string::*;

use crate::action;
use crate::action::{Action, ActionView};
use crate::elevio::elev;
use crate::elevio::elev::{
    Elevator, ElevatorView, CAB, DIRN_DOWN, DIRN_STOP, HALL_DOWN, HALL_UP,
};
use crate::text;

verus! {

/// The port of the first elevator's hardware.
pub const FIRST_HARDWARE_PORT: u16 = 15657;

/// The port on which the first elevator accepts connections.
pub const FIRST_NETWORK_PORT: u16 = 7878;

/// The port on which the first elevator accepts messages.
pub const FIRST_MESSAGE_PORT: u16 = 8878;

/// How many elevators there can be.
pub const NUM_ELEVATORS: u64 = 3;

/// Gives an elevator the state that it had saved, and shows its floor.
pub fn recover(elevator: &mut Elevator, saved: (u8, u8, Vec<Vec<u8>>)) -> (r: Vec<Action>)
    requires
        elev::calls_complete(elev::calls_view(saved.2@)),
    ensures
        final(elevator)@ == (ElevatorView {
            current_floor: saved.0,
            current_direction: saved.1,
            call_buttons: elev::calls_view(saved.2@),
            ..old(elevator)@
        }),
        final(elevator)@.valid(),
        action::views(r@) == seq![ActionView::FloorIndicator(saved.0)],
{
    let (floor, direction, calls) = saved;
    elevator.current_floor = floor;
    elevator.current_direction = direction;
    elevator.call_buttons = calls;
    let mut actions: Vec<Action> = Vec::new();
    action::add_action(&mut actions, Action::FloorIndicator(floor));
    assert(action::views(actions@) =~= seq![ActionView::FloorIndicator(floor)]);
    actions
}

/// An elevator that starts between floors goes down.
pub fn leave_shaft(floor_sensor: Option<u8>) -> (r: Vec<Action>)
    ensures
        action::views(r@) == if floor_sensor is None {
            seq![ActionView::MotorDirection(DIRN_DOWN)]
        } else {
            Seq::empty()
        },
{
    let mut actions: Vec<Action> = Vec::new();
    if floor_sensor.is_none() {
        action::add_action(&mut actions, Action::MotorDirection(DIRN_DOWN));
    }
    assert(action::views(actions@) =~= if floor_sensor is None {
        seq![ActionView::MotorDirection(DIRN_DOWN)]
    } else {
        Seq::empty()
    });
    actions
}

/// The lights of all call buttons of one kind, switched off from the lowest floor up.
pub open spec fn kind_off(num_floors: nat, call: u8) -> Seq<ActionView> {
    Seq::new(
        num_floors,
        |i: int| ActionView::CallButtonLight { floor: i as u8, call, on: false },
    )
}

/// Switches off the lights of all call buttons of one kind.
fn kind_lights_off(num_floors: u8, call: u8) -> (r: Vec<Action>)
    ensures
        action::views(r@) == kind_off(num_floors as nat, call),
{
    let mut actions: Vec<Action> = Vec::new();
    let mut floor: u8 = 0;
    while floor < num_floors
        invariant
            floor <= num_floors,
            actions@.len() == floor,
            forall|j: int|
                0 <= j < floor ==> (#[trigger] actions@[j])@ == (ActionView::CallButtonLight {
                    floor: j as u8,
                    call,
                    on: false,
                }),
        decreases num_floors - floor,
    {
        actions.push(Action::CallButtonLight { floor, call, on: false });
        floor += 1;
    }
    assert(action::views(actions@) =~= kind_off(num_floors as nat, call));
    actions
}

/// Switches off all call button lights, one kind of button after the other.
pub fn startup_lights(num_floors: u8) -> (r: Vec<Action>)
    ensures
        action::views(r@) == kind_off(num_floors as nat, HALL_UP) + kind_off(
            num_floors as nat,
            HALL_DOWN,
        ) + kind_off(num_floors as nat, CAB),
{
    let mut actions = kind_lights_off(num_floors, HALL_UP);
    action::add_actions(&mut actions, kind_lights_off(num_floors, HALL_DOWN));
    action::add_actions(&mut actions, kind_lights_off(num_floors, CAB));
    actions
}

/// What reaching a floor on the way to the ground floor asks for. The floor is shown, but for the
/// first one.
pub open spec fn homing_actions(first: bool, floor: u8) -> Seq<ActionView> {
    (if first {
        Seq::empty()
    } else {
        seq![ActionView::FloorIndicator(floor)]
    }) + (if floor != 0 {
        seq![ActionView::MotorDirection(DIRN_DOWN)]
    } else {
        seq![ActionView::MotorDirection(DIRN_STOP), ActionView::FloorIndicator(0)]
    })
}

/// One step on the way to the ground floor. Says whether the elevator has arrived.
pub fn homing_step(first: bool, floor: u8) -> (r: (bool, Vec<Action>))
    ensures
        r.0 == (floor == 0),
        action::views(r.1@) == homing_actions(first, floor),
{
    let mut actions: Vec<Action> = Vec::new();
    if !first {
        action::add_action(&mut actions, Action::FloorIndicator(floor));
    }
    if floor != 0 {
        action::add_action(&mut actions, Action::MotorDirection(DIRN_DOWN));
    } else {
        action::add_action(&mut actions, Action::MotorDirection(DIRN_STOP));
        action::add_action(&mut actions, Action::FloorIndicator(0));
    }
    assert(action::views(actions@) =~= homing_actions(first, floor));
    (floor == 0, actions)
}

/// The port on which an elevator accepts connections.
pub fn network_port(elev_port: u16) -> (r: u16)
    requires
        FIRST_HARDWARE_PORT - FIRST_NETWORK_PORT <= elev_port <= u16::MAX - FIRST_NETWORK_PORT,
    ensures
        r == FIRST_NETWORK_PORT + elev_port - FIRST_HARDWARE_PORT,
{
    FIRST_NETWORK_PORT + elev_port - FIRST_HARDWARE_PORT
}

/// The port on which an elevator accepts messages.
pub fn message_port(elev_port: u16) -> (r: u16)
    requires
        FIRST_HARDWARE_PORT - FIRST_MESSAGE_PORT <= elev_port <= u16::MAX - FIRST_MESSAGE_PORT,
    ensures
        r == FIRST_MESSAGE_PORT + elev_port - FIRST_HARDWARE_PORT,
{
    FIRST_MESSAGE_PORT + elev_port - FIRST_HARDWARE_PORT
}

/// The number of an elevator among its peers, counted from zero, by the port of its hardware.
pub fn index_by_port(elev_port: u16) -> (r: u64)
    requires
        elev_port >= FIRST_HARDWARE_PORT,
    ensures
        r == elev_port - FIRST_HARDWARE_PORT,
{
    (elev_port - FIRST_HARDWARE_PORT) as u64
}

/// The number of an elevator among its peers, counted from zero, by its name, which is a number
/// counted from one.
pub fn index_by_id(local_id: &str) -> (r: u64)
    requires
        text::unsigned(local_id@, usize::MAX as nat) matches Some(n) && n >= 1,
    ensures
        r == text::unsigned(local_id@, usize::MAX as nat)->0 - 1,
{
    match text::parse_unsigned(local_id, usize::MAX as u64) {
        Some(id) => id - 1,
        None => 0,
    }
}

/// The address on which an elevator accepts messages.
pub open spec fn peer_address(i: int) -> Seq<char> {
    "localhost:"@ + text::decimal((FIRST_MESSAGE_PORT + i) as nat)
}

/// The test for numbers other than one.
pub open spec fn other_than(own: int) -> spec_fn(int) -> bool {
    |i: int| i != own
}

/// The numbers of the elevators other than one.
pub open spec fn others(own: int) -> Seq<int> {
    Seq::new(NUM_ELEVATORS as nat, |i: int| i).filter(other_than(own))
}

/// The addresses of the elevators other than one.
pub open spec fn other_addresses(own: int) -> Seq<Seq<char>> {
    others(own).map_values(|i: int| peer_address(i))
}

/// The addresses of the peers of an elevator.
pub fn peer_addresses(own: u64) -> (r: Vec<String>)
    ensures
        text::string_views(r@) == other_addresses(own as int),
{
    let ghost all = Seq::new(NUM_ELEVATORS as nat, |i: int| i);
    let ghost keep = other_than(own as int);
    let ghost address = |i: int| peer_address(i);
    let mut addresses: Vec<String> = Vec::new();
    let mut i: u64 = 0;
    assert(text::string_views(addresses@) =~= all.take(0).filter(keep).map_values(address)) by {
        reveal(Seq::filter);
    }
    while i < NUM_ELEVATORS
        invariant
            i <= NUM_ELEVATORS,
            all == Seq::new(NUM_ELEVATORS as nat, |i: int| i),
            keep == other_than(own as int),
            address == (|i: int| peer_address(i)),
            text::string_views(addresses@) == all.take(i as int).filter(keep).map_values(address),
        decreases NUM_ELEVATORS - i,
    {
        let ghost before = all.take(i as int);
        proof {
            assert(all.take(i + 1) =~= before.push(i as int));
            before.lemma_filter_push(i as int, keep);
        }
        if i != own {
            let mut addr = "localhost:".to_string();
            text::append_decimal(&mut addr, FIRST_MESSAGE_PORT as u64 + i);
            let ghost earlier = addresses@;
            addresses.push(addr);
            assert(text::string_views(addresses@) =~= text::string_views(earlier).push(
                peer_address(i as int),
            ));
            assert(before.filter(keep).push(i as int).map_values(address) =~= before.filter(
                keep,
            ).map_values(address).push(peer_address(i as int)));
        }
        i += 1;
    }
    assert(all.take(i as int) =~= all);
    addresses
}

} // verus!
