//! One elevator's knowledge of the whole system: the hall calls and who serves each of them, the
//! other elevators, and the peers to which it speaks.

use vstd::prelude::*;
use vstd::string::*;

use crate::action;
use crate::action::{Action, ActionView};
use crate::control;
use crate::elevio::cost;
use crate::elevio::cost::{calculate_cost, ElevatorMessage, MessageView, MAX_QUEUE};
use crate::elevio::elev;
use crate::elevio::elev::{Elevator, ElevatorView};
use crate::elevio::fault_handler;
use crate::network::p2p_connect::{NetworkManager, NetworkView};
use crate::table;
use crate::table::Table;
use crate::text;

verus! {

/// How long another elevator may be silent before its calls go to others, in seconds.
pub const STATE_TIMEOUT: u64 = 5;

/// What is known of another elevator.
#[derive(Clone, Debug)]
pub struct ElevatorState {
    pub floor: u8,
    pub direction: u8,
    pub call_buttons: Vec<Vec<u8>>,
    /// When the elevator was last heard of, in seconds.
    pub last_seen: u64,
    pub is_obstructed: bool,
    pub obstruction_duration: u64,
}

/// What is known of another elevator, as contracts speak of it.
pub struct StateView {
    pub floor: u8,
    pub direction: u8,
    pub call_buttons: Seq<Seq<u8>>,
    pub last_seen: u64,
    pub is_obstructed: bool,
    pub obstruction_duration: u64,
}

impl View for ElevatorState {
    type V = StateView;

    open spec fn view(&self) -> StateView {
        StateView {
            floor: self.floor,
            direction: self.direction,
            call_buttons: elev::calls_view(self.call_buttons@),
            last_seen: self.last_seen,
            is_obstructed: self.is_obstructed,
            obstruction_duration: self.obstruction_duration,
        }
    }
}

/// The local elevator and what it knows of the system.
pub struct ElevatorSystem {
    pub local_id: String,
    pub local_elevator: Elevator,
    /// For the floor and the direction of each hall call: who serves it (nobody yet, if the name is
    /// empty), and when it was made.
    pub hall_calls: Table<(u8, u8), (String, u64)>,
    pub elevator_states: Table<String, ElevatorState>,
    pub network_manager: NetworkManager,
    /// The addresses of the peers.
    pub peers: Vec<String>,
}

/// A system as contracts speak of it.
pub struct SystemView {
    pub local_id: Seq<char>,
    pub elevator: ElevatorView,
    /// Who serves each hall call, and when it was made.
    pub hall_calls: Map<(u8, u8), (Seq<char>, u64)>,
    /// The hall calls in the order in which they came.
    pub hall_order: Seq<(u8, u8)>,
    pub states: Map<Seq<char>, StateView>,
    /// The other elevators in the order in which they appeared.
    pub state_order: Seq<Seq<char>>,
    pub network: NetworkView,
    pub peers: Seq<Seq<char>>,
}

impl View for ElevatorSystem {
    type V = SystemView;

    open spec fn view(&self) -> SystemView {
        SystemView {
            local_id: self.local_id@,
            elevator: self.local_elevator@,
            hall_calls: self.hall_calls.map(),
            hall_order: self.hall_calls.keys(),
            states: self.elevator_states.map(),
            state_order: self.elevator_states.keys(),
            network: self.network_manager@,
            peers: text::string_views(self.peers@),
        }
    }
}

/// What an elevator would ask for a call.
pub struct Bid {
    pub cost: int,
    pub id: Seq<char>,
}

/// Whether one bid beats another: by the lower cost, or by the earlier name if the costs are equal.
pub open spec fn beats(a: Bid, b: Bid) -> bool {
    a.cost < b.cost || (a.cost == b.cost && text::text_less(a.id, b.id))
}

/// The bid that no other one beats.
pub open spec fn best_bid(bids: Seq<Bid>) -> Bid
    decreases bids.len(),
{
    if bids.len() <= 1 {
        bids[0]
    } else {
        let best = best_bid(bids.drop_last());
        if beats(bids.last(), best) {
            bids.last()
        } else {
            best
        }
    }
}

/// The same message to each of several peers.
pub open spec fn sends(peers: Seq<Seq<char>>, message: Seq<char>) -> Seq<ActionView> {
    Seq::new(peers.len(), |i: int| ActionView::Send { addr: peers[i], message })
}

/// A queue with a hall call added at the end, unless it is there already.
pub open spec fn with_call(queue: Seq<Seq<u8>>, floor: u8, direction: u8) -> Seq<Seq<u8>> {
    table::with_key(queue, seq![floor, direction])
}

impl SystemView {
    /// Nothing is listed twice, every queued call is complete, and the cost of a call can be
    /// computed for every other elevator.
    pub open spec fn valid(self) -> bool {
        &&& self.elevator.valid()
        &&& self.hall_order.no_duplicates()
        &&& forall|k: (u8, u8)| #[trigger]
            self.hall_calls.dom().contains(k) <==> self.hall_order.contains(k)
        &&& self.state_order.no_duplicates()
        &&& forall|id: Seq<char>| #[trigger]
            self.states.dom().contains(id) <==> self.state_order.contains(id)
        &&& forall|id: Seq<char>|
            self.states.dom().contains(id) ==> cost::priceable(
                (#[trigger] self.states[id]).call_buttons.len(),
                self.states[id].is_obstructed,
            )
        &&& self.network.valid()
        &&& self.peers.no_duplicates()
    }

    /// Whether the local elevator can be given `n` more calls, one after the other, with its cost
    /// computed before each.
    pub open spec fn room_for(self, n: nat) -> bool {
        self.elevator.is_obstructed || self.elevator.call_buttons.len() + n <= MAX_QUEUE + 1
    }

    /// What the local elevator asks for a call.
    pub open spec fn local_bid(self, floor: u8, direction: u8) -> Bid {
        Bid {
            cost: cost::call_cost(
                self.elevator.current_floor,
                self.elevator.current_direction,
                self.elevator.call_buttons.len() as usize,
                floor,
                direction,
                self.elevator.is_obstructed,
            ),
            id: self.local_id,
        }
    }

    /// What another elevator asks for a call.
    pub open spec fn bid_of(self, id: Seq<char>, floor: u8, direction: u8) -> Bid {
        Bid {
            cost: cost::call_cost(
                self.states[id].floor,
                self.states[id].direction,
                self.states[id].call_buttons.len() as usize,
                floor,
                direction,
                self.states[id].is_obstructed,
            ),
            id,
        }
    }

    /// What the elevators ask for a call: the local one, then the others.
    pub open spec fn bids(self, floor: u8, direction: u8) -> Seq<Bid> {
        seq![self.local_bid(floor, direction)] + Seq::new(
            self.state_order.len(),
            |i: int| self.bid_of(self.state_order[i], floor, direction),
        )
    }

    /// The elevator that is to serve a call.
    pub open spec fn chosen(self, floor: u8, direction: u8) -> Seq<char> {
        best_bid(self.bids(floor, direction)).id
    }

    /// The system with a hall call given to somebody.
    pub open spec fn with_hall_call(
        self,
        floor: u8,
        direction: u8,
        assigned_to: Seq<char>,
        timestamp: u64,
    ) -> SystemView {
        SystemView {
            hall_calls: self.hall_calls.insert((floor, direction), (assigned_to, timestamp)),
            hall_order: table::with_key(self.hall_order, (floor, direction)),
            ..self
        }
    }

    /// The system without a hall call.
    pub open spec fn without_hall_call(self, floor: u8, direction: u8) -> SystemView {
        SystemView {
            hall_calls: self.hall_calls.remove((floor, direction)),
            hall_order: table::without_key(self.hall_order, (floor, direction)),
            ..self
        }
    }

    /// The system with another local elevator.
    pub open spec fn with_elevator(self, elevator: ElevatorView) -> SystemView {
        SystemView { elevator, ..self }
    }

    /// The system with a peer added.
    pub open spec fn with_peer(self, addr: Seq<char>) -> SystemView {
        SystemView { peers: table::with_key(self.peers, addr), ..self }
    }

    /// The system with news of another elevator.
    pub open spec fn with_state(self, id: Seq<char>, state: StateView) -> SystemView {
        SystemView {
            states: self.states.insert(id, state),
            state_order: table::with_key(self.state_order, id),
            ..self
        }
    }

    /// Whether somebody serves the call already, and it has not been made anew since.
    pub open spec fn settled(self, floor: u8, direction: u8, timestamp: u64) -> bool {
        &&& self.hall_calls.dom().contains((floor, direction))
        &&& self.hall_calls[(floor, direction)].0.len() > 0
        &&& self.hall_calls[(floor, direction)].1 >= timestamp
    }

    /// The local elevator with a hall call in its queue.
    pub open spec fn elevator_with_call(self, floor: u8, direction: u8) -> ElevatorView {
        ElevatorView {
            call_buttons: with_call(self.elevator.call_buttons, floor, direction),
            ..self.elevator
        }
    }

    /// The system after a hall call has been given to the elevator that serves it best.
    pub open spec fn assigned(self, floor: u8, direction: u8, timestamp: u64) -> SystemView {
        if self.settled(floor, direction, timestamp) {
            self
        } else {
            let best = self.chosen(floor, direction);
            let noted = self.with_hall_call(floor, direction, best, timestamp);
            if best == self.local_id {
                noted.with_elevator(
                    control::started(self.elevator_with_call(floor, direction), floor),
                )
            } else {
                noted
            }
        }
    }

    /// What giving a hall call to an elevator asks for.
    pub open spec fn assign_actions(self, floor: u8, direction: u8, timestamp: u64) -> Seq<
        ActionView,
    > {
        if !self.settled(floor, direction, timestamp) && self.chosen(floor, direction)
            == self.local_id {
            seq![ActionView::CallButtonLight { floor, call: direction, on: true }]
                + control::start_actions(self.elevator_with_call(floor, direction), floor)
        } else {
            Seq::empty()
        }
    }

    /// The system after several hall calls have been given to elevators, one after the other.
    pub open spec fn assigned_all(self, calls: Seq<(u8, u8, u64)>) -> SystemView
        decreases calls.len(),
    {
        if calls.len() == 0 {
            self
        } else {
            let call = calls.last();
            self.assigned_all(calls.drop_last()).assigned(call.0, call.1, call.2)
        }
    }

    /// What giving several hall calls to elevators asks for.
    pub open spec fn assign_all_actions(self, calls: Seq<(u8, u8, u64)>) -> Seq<ActionView>
        decreases calls.len(),
    {
        if calls.len() == 0 {
            Seq::empty()
        } else {
            let call = calls.last();
            self.assign_all_actions(calls.drop_last()) + self.assigned_all(
                calls.drop_last(),
            ).assign_actions(call.0, call.1, call.2)
        }
    }

    /// The system after several hall calls have been taken from their elevators and given to
    /// others, one after the other.
    pub open spec fn turned_over(self, calls: Seq<(u8, u8, u64)>) -> SystemView
        decreases calls.len(),
    {
        if calls.len() == 0 {
            self
        } else {
            let call = calls.last();
            self.turned_over(calls.drop_last()).with_open_call(call.0, call.1, call.2).assigned(
                call.0,
                call.1,
                call.2,
            )
        }
    }

    /// What turning over several hall calls asks for.
    pub open spec fn turn_over_actions(self, calls: Seq<(u8, u8, u64)>) -> Seq<ActionView>
        decreases calls.len(),
    {
        if calls.len() == 0 {
            Seq::empty()
        } else {
            let call = calls.last();
            self.turn_over_actions(calls.drop_last()) + self.turned_over(
                calls.drop_last(),
            ).with_open_call(call.0, call.1, call.2).assign_actions(call.0, call.1, call.2)
        }
    }

    /// The elevators other than the local one, in the order in which they appeared.
    pub open spec fn others(self) -> Seq<Seq<char>> {
        table::without_key(self.state_order, self.local_id)
    }

    /// What some elevators ask for a call.
    pub open spec fn bids_of(self, ids: Seq<Seq<char>>, floor: u8, direction: u8) -> Seq<Bid> {
        Seq::new(ids.len(), |i: int| self.bid_of(ids[i], floor, direction))
    }

    /// The elevator that is to serve a call in place of the local one, if another one is known.
    pub open spec fn chosen_other(self, floor: u8, direction: u8) -> Option<Seq<char>> {
        if self.others().len() == 0 {
            None
        } else {
            Some(best_bid(self.bids_of(self.others(), floor, direction)).id)
        }
    }

    /// The system after several hall calls have been given to elevators other than the local one.
    /// While no other one is known they stay where they are.
    pub open spec fn handed_on(self, calls: Seq<(u8, u8, u64)>) -> SystemView
        decreases calls.len(),
    {
        if calls.len() == 0 {
            self
        } else {
            let call = calls.last();
            let before = self.handed_on(calls.drop_last());
            match before.chosen_other(call.0, call.1) {
                Some(id) => before.with_hall_call(call.0, call.1, id, call.2),
                None => before,
            }
        }
    }

    /// A hall call with its time.
    pub open spec fn timed(self, k: (u8, u8)) -> (u8, u8, u64) {
        (k.0, k.1, self.hall_calls[k].1)
    }

    /// The hall calls at some places, each with its time.
    pub open spec fn timed_calls(self, keys: Seq<(u8, u8)>) -> Seq<(u8, u8, u64)> {
        Seq::new(keys.len(), |i: int| self.timed(keys[i]))
    }

    /// The hall calls that are given to one of several elevators.
    pub open spec fn held_by(self, ids: Seq<Seq<char>>) -> Seq<(u8, u8)> {
        self.hall_order.filter(|k: (u8, u8)| ids.contains(self.hall_calls[k].0))
    }

    /// The message that tells the state of the local elevator.
    pub open spec fn state_message(self) -> MessageView {
        MessageView::ElevatorState {
            id: self.local_id,
            floor: self.elevator.current_floor,
            direction: self.elevator.current_direction,
            call_buttons: self.elevator.call_buttons,
            is_obstructed: self.elevator.is_obstructed,
        }
    }

    /// What telling a message to all peers asks for.
    pub open spec fn broadcast(self, message: MessageView) -> Seq<ActionView> {
        sends(self.peers, cost::message_text(message))
    }

    /// The system with a hall call that nobody serves yet.
    pub open spec fn with_open_call(self, floor: u8, direction: u8, timestamp: u64) -> SystemView {
        self.with_hall_call(floor, direction, Seq::empty(), timestamp)
    }

    /// The system with several hall calls that nobody serves yet.
    pub open spec fn with_open_calls(self, calls: Seq<(u8, u8, u64)>) -> SystemView
        decreases calls.len(),
    {
        if calls.len() == 0 {
            self
        } else {
            let call = calls.last();
            self.with_open_calls(calls.drop_last()).with_open_call(call.0, call.1, call.2)
        }
    }

    /// Whether a hall call is new, or newer than the one that is known.
    pub open spec fn is_news(self, floor: u8, direction: u8, timestamp: u64) -> bool {
        !self.hall_calls.dom().contains((floor, direction)) || timestamp > self.hall_calls[(
            floor,
            direction,
        )].1
    }

    /// The system after a peer has told of a hall call.
    pub open spec fn told_of_call(self, floor: u8, direction: u8, timestamp: u64) -> SystemView {
        if self.is_news(floor, direction, timestamp) {
            self.with_open_call(floor, direction, timestamp).assigned(floor, direction, timestamp)
        } else {
            self
        }
    }

    /// What a peer's word of a hall call asks for.
    pub open spec fn told_of_call_actions(self, floor: u8, direction: u8, timestamp: u64) -> Seq<
        ActionView,
    > {
        if self.is_news(floor, direction, timestamp) {
            seq![ActionView::CallButtonLight { floor, call: direction, on: true }]
                + self.with_open_call(floor, direction, timestamp).assign_actions(
                floor,
                direction,
                timestamp,
            )
        } else {
            Seq::empty()
        }
    }

    /// All hall calls, each with its time.
    pub open spec fn all_calls(self) -> Seq<(u8, u8, u64)> {
        self.timed_calls(self.hall_order)
    }

    /// Whether a hall call is given to the local elevator.
    pub open spec fn is_ours(self, floor: u8, direction: u8) -> bool {
        self.hall_calls.dom().contains((floor, direction)) && self.hall_calls[(
            floor,
            direction,
        )].0 == self.local_id
    }

    /// The place of a hall call in the local queue.
    pub open spec fn queue_place(self, floor: u8, direction: u8) -> Option<int> {
        elev::first_index(
            self.elevator.call_buttons,
            control::equal_to(seq![floor, direction]),
        )
    }

    /// The local elevator without one of its queued calls.
    pub open spec fn elevator_without(self, place: int) -> ElevatorView {
        ElevatorView {
            call_buttons: self.elevator.call_buttons.remove(place),
            ..self.elevator
        }
    }

    /// The system after a peer has told that a hall call is served. If the call was ours, it leaves
    /// our queue.
    pub open spec fn told_of_completion(self, floor: u8, direction: u8) -> SystemView {
        let rest = self.without_hall_call(floor, direction);
        match self.queue_place(floor, direction) {
            Some(place) if self.is_ours(floor, direction) => rest.with_elevator(
                self.elevator_without(place),
            ),
            _ => rest,
        }
    }

    /// What a peer's word that a hall call is served asks for.
    pub open spec fn told_of_completion_actions(self, floor: u8, direction: u8) -> Seq<ActionView> {
        let light = seq![ActionView::CallButtonLight { floor, call: direction, on: false }];
        match self.queue_place(floor, direction) {
            Some(place) if self.is_ours(floor, direction) => light.push(
                fault_handler::save_action(self.local_id, self.elevator_without(place)),
            ),
            _ => light,
        }
    }

    /// The system after the hall calls of some elevators have been given to others.
    pub open spec fn reassigned(self, ids: Seq<Seq<char>>) -> SystemView {
        let calls = self.timed_calls(self.held_by(ids));
        self.with_open_calls(calls).assigned_all(calls)
    }

    /// What giving the hall calls of some elevators to others asks for.
    pub open spec fn reassign_actions(self, ids: Seq<Seq<char>>) -> Seq<ActionView> {
        let calls = self.timed_calls(self.held_by(ids));
        self.with_open_calls(calls).assign_all_actions(calls)
    }

    /// Whether another elevator has been silent for too long.
    pub open spec fn is_lost(self, id: Seq<char>, now: u64) -> bool {
        now - self.states[id].last_seen > STATE_TIMEOUT
    }

    /// The other elevators that have been silent for too long.
    pub open spec fn lost(self, now: u64) -> Seq<Seq<char>> {
        self.state_order.filter(|id: Seq<char>| self.is_lost(id, now))
    }

    /// The system without some of the other elevators.
    pub open spec fn without_states(self, ids: Seq<Seq<char>>) -> SystemView {
        SystemView {
            states: self.states.remove_keys(ids.to_set()),
            state_order: table::without_keys(self.state_order, ids),
            ..self
        }
    }

    /// The messages that tell all hall calls to all peers.
    pub open spec fn sync_actions(self) -> Seq<ActionView> {
        self.all_calls().flat_map(|call: (u8, u8, u64)| self.broadcast(hall_call_message(call)))
    }

    /// The system with the sender of a message added to its peers, if the sender is known.
    pub open spec fn with_sender(self, from_addr: Option<Seq<char>>) -> SystemView {
        match from_addr {
            Some(addr) => self.with_peer(addr),
            None => self,
        }
    }

    /// Whether the consequences of a message can be computed.
    pub open spec fn can_take(self, message: MessageView) -> bool {
        match message {
            MessageView::HallCall { floor, direction, timestamp } => !self.is_news(
                floor,
                direction,
                timestamp,
            ) || self.room_for(1),
            MessageView::ElevatorState { call_buttons, is_obstructed, .. } => self.room_for(
                self.hall_order.len(),
            ) && cost::priceable(call_buttons.len(), is_obstructed),
            _ => true,
        }
    }

    /// The system after a message.
    pub open spec fn told(self, message: MessageView, now: u64) -> SystemView {
        match message {
            MessageView::HallCall { floor, direction, timestamp } => self.told_of_call(
                floor,
                direction,
                timestamp,
            ),
            MessageView::ElevatorState { id, floor, direction, call_buttons, is_obstructed } => {
                let informed = self.with_state(
                    id,
                    fresh_state(floor, direction, call_buttons, is_obstructed, now),
                );
                informed.assigned_all(informed.all_calls())
            },
            MessageView::CompletedCall { floor, direction } => self.told_of_completion(
                floor,
                direction,
            ),
            MessageView::SyncRequest { .. } => self,
        }
    }

    /// What a message asks for.
    pub open spec fn told_actions(self, message: MessageView, now: u64) -> Seq<ActionView> {
        match message {
            MessageView::HallCall { floor, direction, timestamp } => self.told_of_call_actions(
                floor,
                direction,
                timestamp,
            ),
            MessageView::ElevatorState { id, floor, direction, call_buttons, is_obstructed } => {
                let informed = self.with_state(
                    id,
                    fresh_state(floor, direction, call_buttons, is_obstructed, now),
                );
                informed.assign_all_actions(informed.all_calls())
            },
            MessageView::CompletedCall { floor, direction } => self.told_of_completion_actions(
                floor,
                direction,
            ),
            MessageView::SyncRequest { .. } => self.sync_actions(),
        }
    }
}

/// The message that tells of a hall call.
pub open spec fn hall_call_message(call: (u8, u8, u64)) -> MessageView {
    MessageView::HallCall { floor: call.0, direction: call.1, timestamp: call.2 }
}

/// What is known of an elevator that has just told its state.
pub open spec fn fresh_state(
    floor: u8,
    direction: u8,
    call_buttons: Seq<Seq<u8>>,
    is_obstructed: bool,
    now: u64,
) -> StateView {
    StateView {
        floor,
        direction,
        call_buttons,
        last_seen: now,
        is_obstructed,
        obstruction_duration: 0,
    }
}

/// Giving a hall call to somebody keeps the system valid.
proof fn lemma_with_hall_call(s: SystemView, floor: u8, direction: u8, id: Seq<char>, timestamp: u64)
    requires
        s.valid(),
    ensures
        s.with_hall_call(floor, direction, id, timestamp).valid(),
{
    table::lemma_with_key(s.hall_order, (floor, direction));
}

/// A valid system stays valid with another valid elevator.
pub proof fn lemma_with_elevator(s: SystemView, elevator: ElevatorView)
    requires
        s.valid(),
        elevator.valid(),
    ensures
        s.with_elevator(elevator).valid(),
{
}

/// Dropping a hall call keeps the system valid.
proof fn lemma_without_hall_call(s: SystemView, floor: u8, direction: u8)
    requires
        s.valid(),
    ensures
        s.without_hall_call(floor, direction).valid(),
{
    table::lemma_without_key_contains(s.hall_order, (floor, direction));
}

/// Forgetting another elevator keeps the system valid.
proof fn lemma_without_state(s: SystemView, id: Seq<char>)
    requires
        s.valid(),
    ensures
        (SystemView {
            states: s.states.remove(id),
            state_order: table::without_key(s.state_order, id),
            ..s
        }).valid(),
{
    table::lemma_without_key_contains(s.state_order, id);
    let rest = s.states.remove(id);
    assert forall|x: Seq<char>| rest.dom().contains(x) implies cost::priceable(
        (#[trigger] rest[x]).call_buttons.len(),
        rest[x].is_obstructed,
    ) by {
        assert(rest[x] == s.states[x]);
        assert(s.states.dom().contains(x));
    }
}

/// Adding a call to a queue keeps its calls complete, and adds one place at most.
proof fn lemma_with_call(queue: Seq<Seq<u8>>, floor: u8, direction: u8)
    requires
        elev::calls_complete(queue),
    ensures
        elev::calls_complete(with_call(queue, floor, direction)),
        queue.len() <= with_call(queue, floor, direction).len() <= queue.len() + 1,
{
}

/// What assigning a hall call leaves as it is, and how much room is left.
proof fn lemma_assigned(s: SystemView, floor: u8, direction: u8, timestamp: u64, n: nat)
    requires
        s.valid(),
        s.room_for(n + 1),
    ensures
        s.assigned(floor, direction, timestamp).valid(),
        s.assigned(floor, direction, timestamp).room_for(n),
{
    lemma_with_hall_call(s, floor, direction, s.chosen(floor, direction), timestamp);
    lemma_with_call(s.elevator.call_buttons, floor, direction);
}

impl ElevatorSystem {
    /// A system that knows of no hall call, no other elevator and no peer.
    pub fn new(local_id: String, elevator: Elevator, network_manager: NetworkManager) -> (r: Self)
        requires
            elevator@.valid(),
            network_manager@.valid(),
        ensures
            r@.valid(),
            r@ == (SystemView {
                local_id: local_id@,
                elevator: elevator@,
                hall_calls: Map::empty(),
                hall_order: Seq::empty(),
                states: Map::empty(),
                state_order: Seq::empty(),
                network: network_manager@,
                peers: Seq::empty(),
            }),
    {
        let r = ElevatorSystem {
            local_id,
            local_elevator: elevator,
            hall_calls: Table::new(),
            elevator_states: Table::new(),
            network_manager,
            peers: Vec::new(),
        };
        assert(r@.peers =~= Seq::<Seq<char>>::empty());
        r
    }

    /// Adds a peer, unless it is known already.
    pub fn add_peer(&mut self, addr: String)
        requires
            old(self)@.valid(),
        ensures
            final(self)@.valid(),
            final(self)@ == old(self)@.with_peer(addr@),
    {
        text::add_once(&mut self.peers, addr.as_str());
        proof {
            table::lemma_with_key(old(self)@.peers, addr@);
        }
    }

    /// The elevator that is to serve a call: the one that asks least.
    pub fn best_elevator(&self, floor: u8, direction: u8) -> (r: String)
        requires
            self@.valid(),
            self@.room_for(1),
        ensures
            r@ == self@.chosen(floor, direction),
    {
        let ghost view = self@;
        let ghost bids = view.bids(floor, direction);
        let elevator = &self.local_elevator;
        proof {
            if !elevator.is_obstructed {
                cost::lemma_priceable(
                    elevator.current_floor,
                    elevator.current_direction,
                    elevator.call_buttons@.len() as usize,
                    floor,
                    direction,
                );
            }
        }
        let mut best_cost: i32 = calculate_cost(
            elevator.current_floor,
            elevator.current_direction,
            elevator.call_buttons.len(),
            floor,
            direction,
            elevator.is_obstructed,
        );
        let mut best_id: String = self.local_id.clone();
        let mut i: usize = 0;
        while i < self.elevator_states.len()
            invariant
                view == self@,
                view.valid(),
                bids == view.bids(floor, direction),
                i <= view.state_order.len(),
                best_bid(bids.take(i + 1)) == (Bid { cost: best_cost as int, id: best_id@ }),
            decreases view.state_order.len() - i,
        {
            let id = self.elevator_states.key_at(i);
            let state = self.elevator_states.value_at(i);
            proof {
                assert(view.states[id@] == state@);
                if !state.is_obstructed {
                    cost::lemma_priceable(
                        state.floor,
                        state.direction,
                        state.call_buttons@.len() as usize,
                        floor,
                        direction,
                    );
                }
                assert(bids.take(i + 2).drop_last() =~= bids.take(i + 1));
                assert(bids.take(i + 2).last() == view.bid_of(id@, floor, direction));
            }
            let cost: i32 = calculate_cost(
                state.floor,
                state.direction,
                state.call_buttons.len(),
                floor,
                direction,
                state.is_obstructed,
            );
            if cost < best_cost || (cost == best_cost && text::text_precedes(
                id.as_str(),
                best_id.as_str(),
            )) {
                best_cost = cost;
                best_id = id.clone();
            }
            i += 1;
        }
        assert(bids.take(i + 1) =~= bids);
        best_id
    }

    /// Gives a hall call to the elevator that serves it best. A call that somebody serves already
    /// stays with them, unless it was made anew.
    pub fn assign_hall_call(&mut self, floor: u8, direction: u8, timestamp: u64) -> (r: Vec<Action>)
        requires
            old(self)@.valid(),
            old(self)@.settled(floor, direction, timestamp) || old(self)@.room_for(1),
        ensures
            final(self)@.valid(),
            final(self)@ == old(self)@.assigned(floor, direction, timestamp),
            action::views(r@) == old(self)@.assign_actions(floor, direction, timestamp),
    {
        let ghost before = self@;
        let mut actions: Vec<Action> = Vec::new();
        assert(action::views(actions@) =~= Seq::<ActionView>::empty());
        if let Some(entry) = self.hall_calls.get(&(floor, direction)) {
            if !entry.0.as_str().is_empty() && entry.1 >= timestamp {
                return actions;
            }
        }
        let best_id = self.best_elevator(floor, direction);
        let ours = best_id == self.local_id;
        proof {
            lemma_with_hall_call(before, floor, direction, best_id@, timestamp);
        }
        self.hall_calls.insert((floor, direction), (best_id, timestamp));
        if ours {
            action::add_action(
                &mut actions,
                Action::CallButtonLight { floor, call: direction, on: true },
            );
            self.queue_call(floor, direction);
            let more = control::start_elevator(&mut self.local_elevator, floor, direction);
            action::add_actions(&mut actions, more);
        }
        proof {
            lemma_assigned(before, floor, direction, timestamp, 0);
            assert(action::views(actions@) =~= before.assign_actions(floor, direction, timestamp));
        }
        actions
    }

    /// Adds a call to the local queue, unless it is there already. Says whether it was added.
    pub fn queue_call(&mut self, floor: u8, call: u8) -> (added: bool)
        ensures
            final(self)@ == old(self)@.with_elevator(old(self)@.elevator_with_call(floor, call)),
            added == !old(self)@.elevator.call_buttons.contains(seq![floor, call]),
    {
        let call_button: Vec<u8> = vec![floor, call];
        assert(call_button@ =~= seq![floor, call]);
        let ghost queue = self@.elevator.call_buttons;
        proof {
            elev::first_index_meaning(queue, control::equal_to(call_button@));
        }
        match control::find_call_button_index(call_button.clone(), &self.local_elevator) {
            Some(i) => {
                assert(queue[i as int] == seq![floor, call]);
                false
            },
            None => {
                self.local_elevator.call_buttons.push(call_button);
                assert(self@.elevator.call_buttons =~= queue.push(seq![floor, call]));
                true
            },
        }
    }

    /// Gives several hall calls to elevators, one after the other.
    pub fn assign_hall_calls(&mut self, calls: &Vec<(u8, u8, u64)>) -> (r: Vec<Action>)
        requires
            old(self)@.valid(),
            old(self)@.room_for(calls@.len()),
        ensures
            final(self)@.valid(),
            final(self)@ == old(self)@.assigned_all(calls@),
            action::views(r@) == old(self)@.assign_all_actions(calls@),
    {
        let ghost before = self@;
        let mut actions: Vec<Action> = Vec::new();
        let mut i: usize = 0;
        assert(action::views(actions@) =~= Seq::<ActionView>::empty());
        while i < calls.len()
            invariant
                i <= calls@.len(),
                self@.valid(),
                self@.room_for((calls@.len() - i) as nat),
                self@ == before.assigned_all(calls@.take(i as int)),
                action::views(actions@) == before.assign_all_actions(calls@.take(i as int)),
            decreases calls@.len() - i,
        {
            let (floor, direction, timestamp) = calls[i];
            proof {
                lemma_assigned(
                    self@,
                    floor,
                    direction,
                    timestamp,
                    (calls@.len() - i - 1) as nat,
                );
                assert(calls@.take(i + 1).drop_last() =~= calls@.take(i as int));
            }
            let more = self.assign_hall_call(floor, direction, timestamp);
            action::add_actions(&mut actions, more);
            i += 1;
        }
        assert(calls@.take(i as int) =~= calls@);
        actions
    }

    /// Takes several hall calls from their elevators and gives them to others, one after the other.
    pub fn turn_over_calls(&mut self, calls: &Vec<(u8, u8, u64)>) -> (r: Vec<Action>)
        requires
            old(self)@.valid(),
            old(self)@.room_for(calls@.len()),
        ensures
            final(self)@.valid(),
            final(self)@ == old(self)@.turned_over(calls@),
            action::views(r@) == old(self)@.turn_over_actions(calls@),
    {
        let ghost before = self@;
        let mut actions: Vec<Action> = Vec::new();
        let mut i: usize = 0;
        assert(action::views(actions@) =~= Seq::<ActionView>::empty());
        while i < calls.len()
            invariant
                i <= calls@.len(),
                self@.valid(),
                self@.room_for((calls@.len() - i) as nat),
                self@ == before.turned_over(calls@.take(i as int)),
                action::views(actions@) == before.turn_over_actions(calls@.take(i as int)),
            decreases calls@.len() - i,
        {
            let (floor, direction, timestamp) = calls[i];
            proof {
                lemma_with_hall_call(self@, floor, direction, Seq::empty(), timestamp);
                lemma_assigned(
                    self@.with_open_call(floor, direction, timestamp),
                    floor,
                    direction,
                    timestamp,
                    (calls@.len() - i - 1) as nat,
                );
                assert(calls@.take(i + 1).drop_last() =~= calls@.take(i as int));
            }
            self.hall_calls.insert((floor, direction), (String::new(), timestamp));
            let more = self.assign_hall_call(floor, direction, timestamp);
            action::add_actions(&mut actions, more);
            i += 1;
        }
        assert(calls@.take(i as int) =~= calls@);
        actions
    }

    /// The elevator that is to serve a call in place of the local one: of the others, the one that
    /// asks least.
    pub fn best_other_elevator(&self, floor: u8, direction: u8) -> (r: Option<String>)
        requires
            self@.valid(),
        ensures
            match r {
                Some(id) => self@.chosen_other(floor, direction) == Some(id@),
                None => self@.chosen_other(floor, direction) is None,
            },
    {
        let ghost view = self@;
        let mut best: Option<(i32, String)> = None;
        let mut i: usize = 0;
        proof {
            table::lemma_without_absent(view.state_order.take(0), view.local_id);
        }
        while i < self.elevator_states.len()
            invariant
                view == self@,
                view.valid(),
                i <= view.state_order.len(),
                ({
                    let ids = table::without_key(view.state_order.take(i as int), view.local_id);
                    match best {
                        Some((cost, id)) => ids.len() > 0 && best_bid(
                            view.bids_of(ids, floor, direction),
                        ) == (Bid { cost: cost as int, id: id@ }),
                        None => ids.len() == 0,
                    }
                }),
            decreases view.state_order.len() - i,
        {
            let id = self.elevator_states.key_at(i);
            let state = self.elevator_states.value_at(i);
            let ghost ids = table::without_key(view.state_order.take(i as int), view.local_id);
            proof {
                assert(view.states[id@] == state@);
                assert(view.state_order.take(i + 1) =~= view.state_order.take(i as int).push(id@));
                table::lemma_without_push(view.state_order.take(i as int), id@, view.local_id);
            }
            if *id != self.local_id {
                proof {
                    if !state.is_obstructed {
                        cost::lemma_priceable(
                            state.floor,
                            state.direction,
                            state.call_buttons@.len() as usize,
                            floor,
                            direction,
                        );
                    }
                    let longer = view.bids_of(ids.push(id@), floor, direction);
                    assert(longer.drop_last() =~= view.bids_of(ids, floor, direction));
                    assert(longer.last() == view.bid_of(id@, floor, direction));
                }
                let cost: i32 = calculate_cost(
                    state.floor,
                    state.direction,
                    state.call_buttons.len(),
                    floor,
                    direction,
                    state.is_obstructed,
                );
                let better = match &best {
                    Some(so_far) => cost < so_far.0 || (cost == so_far.0 && text::text_precedes(
                        id.as_str(),
                        so_far.1.as_str(),
                    )),
                    None => true,
                };
                if better {
                    best = Some((cost, id.clone()));
                }
            }
            i += 1;
        }
        assert(view.state_order.take(i as int) =~= view.state_order);
        match best {
            Some((_, id)) => Some(id),
            None => None,
        }
    }

    /// Gives several hall calls to elevators other than the local one.
    pub fn hand_on_calls(&mut self, calls: &Vec<(u8, u8, u64)>)
        requires
            old(self)@.valid(),
        ensures
            final(self)@.valid(),
            final(self)@ == old(self)@.handed_on(calls@),
    {
        let ghost before = self@;
        let mut i: usize = 0;
        while i < calls.len()
            invariant
                i <= calls@.len(),
                self@.valid(),
                self@ == before.handed_on(calls@.take(i as int)),
            decreases calls@.len() - i,
        {
            let (floor, direction, timestamp) = calls[i];
            assert(calls@.take(i + 1).drop_last() =~= calls@.take(i as int));
            if let Some(id) = self.best_other_elevator(floor, direction) {
                proof {
                    lemma_with_hall_call(self@, floor, direction, id@, timestamp);
                }
                self.hall_calls.insert((floor, direction), (id, timestamp));
            }
            i += 1;
        }
        assert(calls@.take(i as int) =~= calls@);
    }

    /// Whether the local elevator can be given `n` more calls.
    pub fn has_room_for(&self, n: usize) -> (r: bool)
        ensures
            r == self@.room_for(n as nat),
    {
        let queued = self.local_elevator.call_buttons.len();
        self.local_elevator.is_obstructed || (n <= MAX_QUEUE + 1 && queued <= MAX_QUEUE + 1 - n)
    }

    /// Whether the consequences of a message can be computed.
    pub fn can_process(&self, message: &ElevatorMessage) -> (r: bool)
        requires
            self@.valid(),
        ensures
            r == self@.can_take(message@),
    {
        match message {
            ElevatorMessage::HallCall { floor, direction, timestamp } => {
                !self.is_new_call(*floor, *direction, *timestamp) || self.has_room_for(1)
            },
            ElevatorMessage::ElevatorState { call_buttons, is_obstructed, .. } => {
                self.has_room_for(self.hall_calls.len()) && (*is_obstructed || call_buttons.len()
                    <= MAX_QUEUE)
            },
            _ => true,
        }
    }

    /// A message to all peers.
    pub fn broadcast_message(&self, message: &str) -> (r: Vec<Action>)
        ensures
            action::views(r@) == sends(self@.peers, message@),
    {
        let mut actions: Vec<Action> = Vec::new();
        let mut i: usize = 0;
        while i < self.peers.len()
            invariant
                i <= self.peers@.len(),
                actions@.len() == i,
                forall|j: int|
                    0 <= j < i ==> (#[trigger] actions@[j])@ == (ActionView::Send {
                        addr: self.peers@[j]@,
                        message: message@,
                    }),
            decreases self.peers@.len() - i,
        {
            actions.push(
                Action::Send { addr: self.peers[i].clone(), message: message.to_string() },
            );
            i += 1;
        }
        assert(action::views(actions@) =~= sends(self@.peers, message@));
        actions
    }

    /// The text of the message that tells the state of the local elevator.
    pub fn state_text(&self) -> (r: String)
        requires
            self@.elevator.valid(),
        ensures
            r@ == cost::message_text(self@.state_message()),
    {
        let message = ElevatorMessage::ElevatorState {
            id: self.local_id.clone(),
            floor: self.local_elevator.current_floor,
            direction: self.local_elevator.current_direction,
            call_buttons: elev::copy_calls(&self.local_elevator.call_buttons),
            is_obstructed: self.local_elevator.is_obstructed,
        };
        message.to_string()
    }

    /// Tells the state of the local elevator to all peers.
    pub fn broadcast_state(&self) -> (r: Vec<Action>)
        requires
            self@.elevator.valid(),
        ensures
            action::views(r@) == self@.broadcast(self@.state_message()),
    {
        let message = self.state_text();
        self.broadcast_message(message.as_str())
    }

    /// All hall calls, each with its time.
    pub fn known_calls(&self) -> (r: Vec<(u8, u8, u64)>)
        requires
            self@.valid(),
        ensures
            r@ == self@.all_calls(),
    {
        let ghost view = self@;
        let mut calls: Vec<(u8, u8, u64)> = Vec::new();
        let mut i: usize = 0;
        while i < self.hall_calls.len()
            invariant
                view == self@,
                view.valid(),
                i <= view.hall_order.len(),
                calls@ == view.all_calls().take(i as int),
            decreases view.hall_order.len() - i,
        {
            let key = self.hall_calls.key_at(i);
            let entry = self.hall_calls.value_at(i);
            calls.push((key.0, key.1, entry.1));
            assert(calls@ =~= view.all_calls().take(i + 1));
            i += 1;
        }
        assert(calls@ =~= view.all_calls());
        calls
    }

    /// The hall calls that are given to one of several elevators, each with its time.
    pub fn calls_held_by(&self, ids: &[String]) -> (r: Vec<(u8, u8, u64)>)
        requires
            self@.valid(),
        ensures
            r@ == self@.timed_calls(self@.held_by(text::string_views(ids@))),
    {
        let ghost view = self@;
        let ghost names = text::string_views(ids@);
        let ghost keep = |k: (u8, u8)| names.contains(view.hall_calls[k].0);
        let mut calls: Vec<(u8, u8, u64)> = Vec::new();
        let mut i: usize = 0;
        assert(view.hall_order.take(0).filter(keep) =~= Seq::<(u8, u8)>::empty()) by {
            reveal(Seq::filter);
        }
        assert(calls@ =~= view.timed_calls(view.hall_order.take(0).filter(keep)));
        while i < self.hall_calls.len()
            invariant
                view == self@,
                view.valid(),
                names == text::string_views(ids@),
                keep == (|k: (u8, u8)| names.contains(view.hall_calls[k].0)),
                i <= view.hall_order.len(),
                calls@ == view.timed_calls(view.hall_order.take(i as int).filter(keep)),
            decreases view.hall_order.len() - i,
        {
            let key = self.hall_calls.key_at(i);
            let entry = self.hall_calls.value_at(i);
            let ghost k = view.hall_order[i as int];
            let ghost before = view.hall_order.take(i as int);
            proof {
                assert(view.hall_order.take(i + 1) =~= before.push(k));
                before.lemma_filter_push(k, keep);
            }
            match text::position_of(ids, entry.0.as_str()) {
                Some(j) => {
                    assert(names[j as int] == view.hall_calls[k].0);
                    calls.push((key.0, key.1, entry.1));
                    assert(calls@ =~= view.timed_calls(before.filter(keep).push(k)));
                },
                None => {},
            }
            i += 1;
        }
        assert(view.hall_order.take(i as int) =~= view.hall_order);
        calls
    }

    /// Tells all hall calls to all peers, whoever asked for them.
    pub fn handle_sync_request(&self, requesting_id: String) -> (r: Vec<Action>)
        requires
            self@.valid(),
        ensures
            action::views(r@) == self@.sync_actions(),
    {
        let ghost view = self@;
        let calls = self.known_calls();
        let ghost tell = |call: (u8, u8, u64)| view.broadcast(hall_call_message(call));
        let mut actions: Vec<Action> = Vec::new();
        let mut i: usize = 0;
        assert(action::views(actions@) =~= calls@.take(0).flat_map(tell)) by {
            assert(calls@.take(0).map_values(tell) =~= Seq::<Seq<ActionView>>::empty());
        }
        while i < calls.len()
            invariant
                view == self@,
                i <= calls@.len(),
                tell == (|call: (u8, u8, u64)| view.broadcast(hall_call_message(call))),
                action::views(actions@) == calls@.take(i as int).flat_map(tell),
            decreases calls@.len() - i,
        {
            let (floor, direction, timestamp) = calls[i];
            let message = ElevatorMessage::HallCall { floor, direction, timestamp };
            let text = message.to_string();
            let more = self.broadcast_message(text.as_str());
            action::add_actions(&mut actions, more);
            proof {
                calls@.lemma_flat_map_take_append(tell, i as int);
            }
            i += 1;
        }
        assert(calls@.take(i as int) =~= calls@);
        actions
    }

    /// Whether a hall call is new, or newer than the one that is known.
    fn is_new_call(&self, floor: u8, direction: u8, timestamp: u64) -> (r: bool)
        requires
            self@.valid(),
        ensures
            r == self@.is_news(floor, direction, timestamp),
    {
        match self.hall_calls.get(&(floor, direction)) {
            Some(entry) => timestamp > entry.1,
            None => true,
        }
    }

    /// Takes in a hall call that a peer tells of, if it is news.
    pub fn handle_hall_call_message(&mut self, floor: u8, direction: u8, timestamp: u64) -> (r: Vec<
        Action,
    >)
        requires
            old(self)@.valid(),
            !old(self)@.is_news(floor, direction, timestamp) || old(self)@.room_for(1),
        ensures
            final(self)@.valid(),
            final(self)@ == old(self)@.told_of_call(floor, direction, timestamp),
            action::views(r@) == old(self)@.told_of_call_actions(floor, direction, timestamp),
    {
        let ghost before = self@;
        let mut actions: Vec<Action> = Vec::new();
        if self.is_new_call(floor, direction, timestamp) {
            proof {
                lemma_with_hall_call(before, floor, direction, Seq::empty(), timestamp);
            }
            self.hall_calls.insert((floor, direction), (String::new(), timestamp));
            action::add_action(
                &mut actions,
                Action::CallButtonLight { floor, call: direction, on: true },
            );
            let more = self.assign_hall_call(floor, direction, timestamp);
            action::add_actions(&mut actions, more);
        }
        assert(action::views(actions@) =~= before.told_of_call_actions(
            floor,
            direction,
            timestamp,
        ));
        actions
    }

    /// Takes in a hall call that was made here, tells it to all peers, and gives it to an elevator.
    pub fn process_hall_call(&mut self, floor: u8, direction: u8, timestamp: u64) -> (r: Vec<Action>)
        requires
            old(self)@.valid(),
            old(self)@.room_for(1),
        ensures
            final(self)@.valid(),
            final(self)@ == old(self)@.with_open_call(floor, direction, timestamp).assigned(
                floor,
                direction,
                timestamp,
            ),
            action::views(r@) == old(self)@.broadcast(
                hall_call_message((floor, direction, timestamp)),
            ) + old(self)@.with_open_call(floor, direction, timestamp).assign_actions(
                floor,
                direction,
                timestamp,
            ),
    {
        let message = ElevatorMessage::HallCall { floor, direction, timestamp };
        proof {
            lemma_with_hall_call(self@, floor, direction, Seq::empty(), timestamp);
        }
        self.hall_calls.insert((floor, direction), (String::new(), timestamp));
        let text = message.to_string();
        let mut actions = self.broadcast_message(text.as_str());
        let more = self.assign_hall_call(floor, direction, timestamp);
        action::add_actions(&mut actions, more);
        actions
    }

    /// Takes in the state of another elevator, and looks again at who serves the hall calls.
    pub fn handle_elevator_state_message(
        &mut self,
        id: String,
        floor: u8,
        direction: u8,
        call_buttons: Vec<Vec<u8>>,
        is_obstructed: bool,
        now: u64,
    ) -> (r: Vec<Action>)
        requires
            old(self)@.valid(),
            old(self)@.room_for(old(self)@.hall_order.len()),
            cost::priceable(call_buttons@.len(), is_obstructed),
        ensures
            final(self)@.valid(),
            ({
                let informed = old(self)@.with_state(
                    id@,
                    fresh_state(
                        floor,
                        direction,
                        elev::calls_view(call_buttons@),
                        is_obstructed,
                        now,
                    ),
                );
                &&& final(self)@ == informed.assigned_all(informed.all_calls())
                &&& action::views(r@) == informed.assign_all_actions(informed.all_calls())
            }),
    {
        let ghost before = self@;
        let state = ElevatorState {
            floor,
            direction,
            call_buttons,
            last_seen: now,
            is_obstructed,
            obstruction_duration: 0,
        };
        proof {
            table::lemma_with_key(before.state_order, id@);
        }
        self.elevator_states.insert(id, state);
        let calls = self.known_calls();
        self.assign_hall_calls(&calls)
    }

    /// Takes in that a hall call has been served.
    pub fn handle_completed_call_message(&mut self, floor: u8, direction: u8) -> (r: Vec<Action>)
        requires
            old(self)@.valid(),
        ensures
            final(self)@.valid(),
            final(self)@ == old(self)@.told_of_completion(floor, direction),
            action::views(r@) == old(self)@.told_of_completion_actions(floor, direction),
    {
        let ghost before = self@;
        proof {
            lemma_without_hall_call(before, floor, direction);
        }
        let was_assigned_to_us = match self.hall_calls.remove(&(floor, direction)) {
            Some(entry) => entry.0 == self.local_id,
            None => false,
        };
        let mut actions: Vec<Action> = Vec::new();
        action::add_action(
            &mut actions,
            Action::CallButtonLight { floor, call: direction, on: false },
        );
        let call_button: Vec<u8> = vec![floor, direction];
        assert(call_button@ =~= seq![floor, direction]);
        if was_assigned_to_us {
            match control::find_call_button_index(call_button, &self.local_elevator) {
                Some(pos) => {
                    self.local_elevator.call_buttons.remove(pos);
                    assert(self@.elevator.call_buttons =~= before.elevator.call_buttons.remove(
                        pos as int,
                    ));
                    action::add_action(
                        &mut actions,
                        fault_handler::save_state(self.local_id.as_str(), &self.local_elevator),
                    );
                },
                None => {},
            }
        }
        assert(action::views(actions@) =~= before.told_of_completion_actions(floor, direction));
        actions
    }

    /// Marks several hall calls as not served by anybody.
    fn open_calls(&mut self, calls: &Vec<(u8, u8, u64)>)
        requires
            old(self)@.valid(),
        ensures
            final(self)@.valid(),
            final(self)@ == old(self)@.with_open_calls(calls@),
    {
        let ghost before = self@;
        let mut i: usize = 0;
        while i < calls.len()
            invariant
                i <= calls@.len(),
                self@.valid(),
                self@ == before.with_open_calls(calls@.take(i as int)),
            decreases calls@.len() - i,
        {
            let (floor, direction, timestamp) = calls[i];
            proof {
                lemma_with_hall_call(self@, floor, direction, Seq::empty(), timestamp);
                assert(calls@.take(i + 1).drop_last() =~= calls@.take(i as int));
            }
            self.hall_calls.insert((floor, direction), (String::new(), timestamp));
            i += 1;
        }
        assert(calls@.take(i as int) =~= calls@);
    }

    /// Gives the hall calls of lost elevators to others.
    pub fn process_calls_from_disconnected_elevators(&mut self, disconnected_ids: &[String]) -> (r:
        Vec<Action>)
        requires
            old(self)@.valid(),
            old(self)@.room_for(old(self)@.hall_order.len()),
        ensures
            final(self)@.valid(),
            final(self)@ == old(self)@.reassigned(text::string_views(disconnected_ids@)),
            action::views(r@) == old(self)@.reassign_actions(text::string_views(disconnected_ids@)),
    {
        let calls_to_reassign = self.calls_held_by(disconnected_ids);
        proof {
            let names = text::string_views(disconnected_ids@);
            let view = self@;
            view.hall_order.lemma_filter_len(|k: (u8, u8)| names.contains(view.hall_calls[k].0));
            lemma_open_calls(view, calls_to_reassign@);
        }
        self.open_calls(&calls_to_reassign);
        self.assign_hall_calls(&calls_to_reassign)
    }

    /// Drops a served hall call, and tells all peers.
    pub fn complete_call(&mut self, floor: u8, direction: u8) -> (r: Vec<Action>)
        requires
            old(self)@.valid(),
        ensures
            final(self)@.valid(),
            final(self)@ == old(self)@.without_hall_call(floor, direction),
            action::views(r@) == old(self)@.broadcast(
                MessageView::CompletedCall { floor, direction },
            ),
    {
        proof {
            lemma_without_hall_call(self@, floor, direction);
        }
        self.hall_calls.remove(&(floor, direction));
        let message = ElevatorMessage::CompletedCall { floor, direction };
        let text = message.to_string();
        self.broadcast_message(text.as_str())
    }

    /// Takes in a message from another elevator. Its sender becomes a peer.
    pub fn process_message(
        &mut self,
        message: ElevatorMessage,
        from_addr: Option<String>,
        now: u64,
    ) -> (r: Vec<Action>)
        requires
            old(self)@.valid(),
            old(self)@.can_take(message@),
        ensures
            final(self)@.valid(),
            ({
                let known = old(self)@.with_sender(
                    match from_addr {
                        Some(addr) => Some(addr@),
                        None => None,
                    },
                );
                &&& final(self)@ == known.told(message@, now)
                &&& action::views(r@) == known.told_actions(message@, now)
            }),
    {
        if let Some(addr) = from_addr {
            self.add_peer(addr);
        }
        match message {
            ElevatorMessage::HallCall { floor, direction, timestamp } => {
                self.handle_hall_call_message(floor, direction, timestamp)
            },
            ElevatorMessage::ElevatorState {
                id,
                floor,
                direction,
                call_buttons,
                is_obstructed,
            } => {
                self.handle_elevator_state_message(
                    id,
                    floor,
                    direction,
                    call_buttons,
                    is_obstructed,
                    now,
                )
            },
            ElevatorMessage::CompletedCall { floor, direction } => {
                self.handle_completed_call_message(floor, direction)
            },
            ElevatorMessage::SyncRequest { id } => { self.handle_sync_request(id) },
        }
    }

    /// The other elevators that have been silent for too long.
    fn lost_elevators(&self, now: u64) -> (r: Vec<String>)
        requires
            self@.valid(),
        ensures
            text::string_views(r@) == self@.lost(now),
    {
        let ghost view = self@;
        let ghost keep = |id: Seq<char>| view.is_lost(id, now);
        let mut ids: Vec<String> = Vec::new();
        let mut i: usize = 0;
        assert(text::string_views(ids@) =~= view.state_order.take(0).filter(keep)) by {
            reveal(Seq::filter);
        }
        while i < self.elevator_states.len()
            invariant
                view == self@,
                view.valid(),
                i <= view.state_order.len(),
                keep == (|id: Seq<char>| view.is_lost(id, now)),
                text::string_views(ids@) == view.state_order.take(i as int).filter(keep),
            decreases view.state_order.len() - i,
        {
            let ghost before = ids@;
            let ghost id = view.state_order[i as int];
            proof {
                assert(view.state_order.take(i + 1) =~= view.state_order.take(i as int).push(id));
                view.state_order.take(i as int).lemma_filter_push(id, keep);
            }
            let state = self.elevator_states.value_at(i);
            if now.saturating_sub(state.last_seen) > STATE_TIMEOUT {
                ids.push(self.elevator_states.key_at(i).clone());
                assert(text::string_views(ids@) =~= text::string_views(before).push(id));
            }
            i += 1;
        }
        assert(view.state_order.take(i as int) =~= view.state_order);
        ids
    }

    /// Forgets the elevators that have been silent for too long, and gives their hall calls to
    /// others.
    pub fn check_disconnected_elevators(&mut self, now: u64) -> (r: Vec<Action>)
        requires
            old(self)@.valid(),
            old(self)@.room_for(old(self)@.hall_order.len()),
        ensures
            final(self)@.valid(),
            ({
                let lost = old(self)@.lost(now);
                let rest = old(self)@.without_states(lost);
                &&& final(self)@ == rest.reassigned(lost)
                &&& action::views(r@) == rest.reassign_actions(lost)
            }),
    {
        let ghost before = self@;
        let disconnected_ids = self.lost_elevators(now);
        let ghost gone = text::string_views(disconnected_ids@);
        let mut i: usize = 0;
        proof {
            assert(gone.take(0) =~= Seq::<Seq<char>>::empty());
            table::lemma_without_none(before.state_order);
            assert(before.states.remove_keys(gone.take(0).to_set()) =~= before.states);
        }
        while i < disconnected_ids.len()
            invariant
                i <= disconnected_ids@.len(),
                gone == text::string_views(disconnected_ids@),
                self@.valid(),
                self@ == before.without_states(gone.take(i as int)),
            decreases disconnected_ids@.len() - i,
        {
            let ghost so_far = gone.take(i as int);
            let ghost id = gone[i as int];
            let ghost last = self@;
            self.elevator_states.remove(&disconnected_ids[i]);
            proof {
                assert(gone.take(i + 1) =~= so_far.push(id));
                table::lemma_without_one_more(before.state_order, so_far, id);
                lemma_without_state(last, id);
                so_far.lemma_push_to_set_commute(id);
                assert(self@.states =~= before.states.remove_keys(gone.take(i + 1).to_set()));
            }
            i += 1;
        }
        assert(gone.take(i as int) =~= gone);
        self.process_calls_from_disconnected_elevators(disconnected_ids.as_slice())
    }

    /// What follows from trying to reach a peer: a peer that was reached is added, and is sent the
    /// text that tells the state of the local elevator.
    pub fn establish_bidirectional_connection(&mut self, peer_addr: &str, reached: bool) -> (r:
        Option<String>)
        requires
            old(self)@.valid(),
        ensures
            final(self)@.valid(),
            final(self)@ == if reached {
                old(self)@.with_peer(peer_addr@)
            } else {
                old(self)@
            },
            match r {
                Some(text) => reached && text@ == cost::message_text(old(self)@.state_message()),
                None => !reached,
            },
    {
        if reached {
            self.add_peer(peer_addr.to_string());
            Some(self.state_text())
        } else {
            None
        }
    }
}

/// Marking hall calls as not served by anybody keeps the system valid.
proof fn lemma_open_calls(s: SystemView, calls: Seq<(u8, u8, u64)>)
    requires
        s.valid(),
    ensures
        s.with_open_calls(calls).valid(),
        s.with_open_calls(calls).elevator == s.elevator,
    decreases calls.len(),
{
    if calls.len() > 0 {
        lemma_open_calls(s, calls.drop_last());
        let call = calls.last();
        lemma_with_hall_call(
            s.with_open_calls(calls.drop_last()),
            call.0,
            call.1,
            Seq::empty(),
            call.2,
        );
    }
}

} // verus!
