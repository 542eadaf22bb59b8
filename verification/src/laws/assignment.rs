//! Which elevator serves a hall call.

use vstd::prelude::*;

use crate::action::ActionView;
use crate::control;
use crate::elevio::cost;
use crate::elevio::elev;
use crate::elevio::elev::{ElevatorView, DIRN_DOWN, DIRN_STOP, DIRN_UP};
use crate::elevio::system;
use crate::elevio::system::{Bid, StateView, SystemView};
use crate::table;
use crate::text;

verus! {

/// An obstructed elevator asks more than any elevator that is free and has not got hundreds of
/// millions of calls waiting.
pub proof fn obstructed_asks_most(
    current_floor: u8,
    current_direction: u8,
    call_buttons_len: usize,
    call_floor: u8,
    call_direction: u8,
    other_floor: u8,
    other_direction: u8,
    other_len: usize,
)
    requires
        call_buttons_len <= 214_747_848,
    ensures
        cost::call_cost(
            current_floor,
            current_direction,
            call_buttons_len,
            call_floor,
            call_direction,
            false,
        ) < cost::call_cost(
            other_floor,
            other_direction,
            other_len,
            call_floor,
            call_direction,
            true,
        ),
{
}

/// Of two elevators that stand still with equally many calls waiting, the nearer one asks less.
pub proof fn nearer_asks_less(
    near_floor: u8,
    far_floor: u8,
    call_buttons_len: usize,
    call_floor: u8,
    call_direction: u8,
)
    requires
        ({
            let near = if near_floor > call_floor { near_floor - call_floor } else { call_floor - near_floor };
            let far = if far_floor > call_floor { far_floor - call_floor } else { call_floor - far_floor };
            near < far
        }),
    ensures
        cost::call_cost(
            near_floor,
            DIRN_STOP,
            call_buttons_len,
            call_floor,
            call_direction,
            false,
        ) < cost::call_cost(
            far_floor,
            DIRN_STOP,
            call_buttons_len,
            call_floor,
            call_direction,
            false,
        ),
{
}

/// Of two different bids, just one beats the other.
pub proof fn bids_are_ordered(a: Bid, b: Bid)
    ensures
        a == b ==> !system::beats(a, b),
        a != b ==> system::beats(a, b) != system::beats(b, a),
{
    text::text_less_irreflexive(a.id);
    if a.id != b.id {
        text::text_less_total(a.id, b.id);
        if text::text_less(a.id, b.id) && text::text_less(b.id, a.id) {
            text::text_less_transitive(a.id, b.id, a.id);
        }
    }
}

/// A bid that beats a bid beats all that the latter beats.
pub proof fn beating_is_transitive(a: Bid, b: Bid, c: Bid)
    requires
        system::beats(a, b),
        system::beats(b, c),
    ensures
        system::beats(a, c),
{
    if a.cost == b.cost && b.cost == c.cost {
        text::text_less_transitive(a.id, b.id, c.id);
    }
}

/// The best bid is one of the bids, and no bid beats it.
pub proof fn best_bid_is_best(bids: Seq<Bid>)
    requires
        bids.len() > 0,
    ensures
        bids.contains(system::best_bid(bids)),
        forall|i: int| 0 <= i < bids.len() ==> !system::beats(#[trigger] bids[i], system::best_bid(bids)),
    decreases bids.len(),
{
    let best = system::best_bid(bids);
    if bids.len() == 1 {
        assert(bids[0] == best);
        bids_are_ordered(best, best);
    } else {
        let front = bids.drop_last();
        let last = bids.last();
        let before = system::best_bid(front);
        best_bid_is_best(front);
        let k = choose|k: int| 0 <= k < front.len() && front[k] == before;
        assert(bids[k] == before);
        assert(bids[bids.len() - 1] == last);
        bids_are_ordered(last, last);
        assert forall|i: int| 0 <= i < bids.len() implies !system::beats(#[trigger] bids[i], best) by {
            if i < front.len() {
                assert(front[i] == bids[i]);
                if system::beats(last, before) && system::beats(bids[i], last) {
                    beating_is_transitive(bids[i], last, before);
                }
            }
        }
    }
}

/// Who makes the best bid does not depend on the order in which the bids are looked at, nor on how
/// often a bid is made.
pub proof fn best_bid_needs_no_order(a: Seq<Bid>, b: Seq<Bid>)
    requires
        a.len() > 0,
        b.len() > 0,
        forall|bid: Bid| #[trigger] a.contains(bid) <==> b.contains(bid),
    ensures
        system::best_bid(a) == system::best_bid(b),
{
    let x = system::best_bid(a);
    let y = system::best_bid(b);
    best_bid_is_best(a);
    best_bid_is_best(b);
    assert(a.contains(y));
    assert(b.contains(x));
    bids_are_ordered(x, y);
}

/// Whether what is known of an elevator is what decides its costs.
pub open spec fn same_standing(state: StateView, elevator: ElevatorView) -> bool {
    &&& state.floor == elevator.current_floor
    &&& state.direction == elevator.current_direction
    &&& state.call_buttons.len() == elevator.call_buttons.len()
    &&& state.is_obstructed == elevator.is_obstructed
}

/// Whether two accounts of an elevator lead to the same costs.
pub open spec fn same_account(a: StateView, b: StateView) -> bool {
    &&& a.floor == b.floor
    &&& a.direction == b.direction
    &&& a.call_buttons.len() == b.call_buttons.len()
    &&& a.is_obstructed == b.is_obstructed
}

/// Whether two elevators know each other's state, and the same of all others.
pub open spec fn well_informed(s: SystemView, t: SystemView) -> bool {
    &&& s.local_id != t.local_id
    &&& !s.states.dom().contains(s.local_id)
    &&& !t.states.dom().contains(t.local_id)
    &&& s.states.dom().contains(t.local_id)
    &&& same_standing(s.states[t.local_id], t.elevator)
    &&& t.states.dom().contains(s.local_id)
    &&& same_standing(t.states[s.local_id], s.elevator)
    &&& forall|id: Seq<char>|
        #![trigger s.states.dom().contains(id)]
        #![trigger t.states.dom().contains(id)]
        id != s.local_id && id != t.local_id ==> (s.states.dom().contains(id)
            <==> t.states.dom().contains(id))
    &&& forall|id: Seq<char>|
        id != s.local_id && id != t.local_id && s.states.dom().contains(id) ==> same_account(
            #[trigger] s.states[id],
            t.states[id],
        )
}

/// A system's bids are its own and those of the other elevators that it knows of.
pub proof fn lemma_bids(s: SystemView, floor: u8, direction: u8, bid: Bid)
    requires
        s.valid(),
    ensures
        s.bids(floor, direction).contains(bid) <==> (bid == s.local_bid(floor, direction) || (
        s.states.dom().contains(bid.id) && bid == s.bid_of(bid.id, floor, direction))),
{
    let bids = s.bids(floor, direction);
    assert(bids[0] == s.local_bid(floor, direction));
    if bids.contains(bid) && bid != s.local_bid(floor, direction) {
        let i = choose|i: int| 0 <= i < bids.len() && bids[i] == bid;
        assert(bid == s.bid_of(s.state_order[i - 1], floor, direction));
        assert(s.state_order.contains(s.state_order[i - 1]));
    }
    if s.states.dom().contains(bid.id) && bid == s.bid_of(bid.id, floor, direction) {
        assert(s.state_order.contains(bid.id));
        let i = choose|i: int| 0 <= i < s.state_order.len() && s.state_order[i] == bid.id;
        assert(bids[i + 1] == bid);
    }
}

/// Elevators that know each other's state choose the same elevator for a call, without asking each
/// other.
pub proof fn well_informed_elevators_agree(s: SystemView, t: SystemView, floor: u8, direction: u8)
    requires
        s.valid(),
        t.valid(),
        well_informed(s, t),
    ensures
        s.chosen(floor, direction) == t.chosen(floor, direction),
{
    let a = s.bids(floor, direction);
    let b = t.bids(floor, direction);
    assert(s.local_bid(floor, direction) == t.bid_of(s.local_id, floor, direction));
    assert(t.local_bid(floor, direction) == s.bid_of(t.local_id, floor, direction));
    assert forall|bid: Bid| #[trigger] a.contains(bid) <==> b.contains(bid) by {
        lemma_bids(s, floor, direction, bid);
        lemma_bids(t, floor, direction, bid);
        if bid.id != s.local_id && bid.id != t.local_id {
            if s.states.dom().contains(bid.id) {
                assert(same_account(s.states[bid.id], t.states[bid.id]));
            }
            if t.states.dom().contains(bid.id) {
                assert(s.states.dom().contains(bid.id));
                assert(same_account(s.states[bid.id], t.states[bid.id]));
            }
        }
    }
    best_bid_needs_no_order(a, b);
}

/// Elevators that know each other's state, and have not heard of a call before, put it on record
/// alike; at most one of them queues it.
pub proof fn well_informed_elevators_assign_alike(
    s: SystemView,
    t: SystemView,
    floor: u8,
    direction: u8,
    timestamp: u64,
)
    requires
        s.valid(),
        t.valid(),
        well_informed(s, t),
        !s.hall_calls.dom().contains((floor, direction)),
        !t.hall_calls.dom().contains((floor, direction)),
    ensures
        ({
            let k = (floor, direction);
            let a = s.assigned(floor, direction, timestamp);
            let b = t.assigned(floor, direction, timestamp);
            &&& a.hall_calls.dom().contains(k)
            &&& b.hall_calls.dom().contains(k)
            &&& a.hall_calls[k] == b.hall_calls[k]
            &&& a.elevator == s.elevator || b.elevator == t.elevator
        }),
{
    well_informed_elevators_agree(s, t, floor, direction);
}

/// Who is chosen for a call does not depend on the order in which the other elevators appeared.
pub proof fn order_of_appearance_does_not_matter(
    s: SystemView,
    t: SystemView,
    floor: u8,
    direction: u8,
)
    requires
        s.valid(),
        t.valid(),
        s.local_id == t.local_id,
        s.elevator == t.elevator,
        s.states == t.states,
    ensures
        s.chosen(floor, direction) == t.chosen(floor, direction),
{
    let a = s.bids(floor, direction);
    let b = t.bids(floor, direction);
    assert forall|bid: Bid| #[trigger] a.contains(bid) <==> b.contains(bid) by {
        lemma_bids(s, floor, direction, bid);
        lemma_bids(t, floor, direction, bid);
    }
    best_bid_needs_no_order(a, b);
}

/// The elevator that is chosen for a call is the local one or one of the others that are known.
pub proof fn chosen_is_known(s: SystemView, floor: u8, direction: u8)
    requires
        s.valid(),
    ensures
        s.chosen(floor, direction) == s.local_id || s.states.dom().contains(
            s.chosen(floor, direction),
        ),
{
    let bids = s.bids(floor, direction);
    best_bid_is_best(bids);
    lemma_bids(s, floor, direction, system::best_bid(bids));
}

/// Assigning a hall call leaves everything else as it is: the other hall calls, what is known of
/// the other elevators, the peers, and the calls that wait already, in their order.
pub proof fn assigning_touches_one_call(s: SystemView, floor: u8, direction: u8, timestamp: u64, other: (u8, u8))
    requires
        s.valid(),
        other != (floor, direction),
    ensures
        ({
            let after = s.assigned(floor, direction, timestamp);
            &&& after.hall_calls.dom().contains(other) == s.hall_calls.dom().contains(other)
            &&& after.hall_calls[other] == s.hall_calls[other]
            &&& after.states == s.states
            &&& after.state_order == s.state_order
            &&& after.peers == s.peers
            &&& after.network == s.network
            &&& after.local_id == s.local_id
            &&& s.elevator.call_buttons.is_prefix_of(after.elevator.call_buttons)
            &&& after.elevator.current_floor == s.elevator.current_floor
            &&& after.elevator.is_obstructed == s.elevator.is_obstructed
        }),
{
}

/// After a hall call has been assigned it is on record with its time, or with a later one if
/// somebody served it already; if the local elevator is given it, it waits in the local queue.
pub proof fn assigned_call_is_kept(s: SystemView, floor: u8, direction: u8, timestamp: u64)
    requires
        s.valid(),
    ensures
        ({
            let after = s.assigned(floor, direction, timestamp);
            &&& after.hall_calls.dom().contains((floor, direction))
            &&& after.hall_calls[(floor, direction)].1 >= timestamp
            &&& !s.settled(floor, direction, timestamp) ==> after.hall_calls[(floor, direction)]
                == (s.chosen(floor, direction), timestamp)
            &&& !s.settled(floor, direction, timestamp) && s.chosen(floor, direction) == s.local_id
                ==> after.elevator.call_buttons.contains(seq![floor, direction])
        }),
{
    table::lemma_with_key(s.elevator.call_buttons, seq![floor, direction]);
}

/// A call that somebody serves stays with them unless it is made anew: assigning it with a time that
/// is not newer changes nothing and asks for nothing.
pub proof fn served_call_stays_unless_newer(s: SystemView, floor: u8, direction: u8, timestamp: u64)
    requires
        s.hall_calls.dom().contains((floor, direction)),
        s.hall_calls[(floor, direction)].0.len() > 0,
        timestamp <= s.hall_calls[(floor, direction)].1,
    ensures
        s.assigned(floor, direction, timestamp) == s,
        s.assign_actions(floor, direction, timestamp) == Seq::<ActionView>::empty(),
{
}

/// A call that has been given to an elevator with a name stays with it: assigning the call again
/// changes nothing and asks for nothing.
pub proof fn assigning_twice_is_assigning_once(s: SystemView, floor: u8, direction: u8, timestamp: u64)
    requires
        s.settled(floor, direction, timestamp) || s.chosen(floor, direction).len() > 0,
    ensures
        ({
            let once = s.assigned(floor, direction, timestamp);
            &&& once.assigned(floor, direction, timestamp) == once
            &&& once.assign_actions(floor, direction, timestamp) == Seq::<ActionView>::empty()
        }),
{
}

/// Where all elevators have names, assigning a call again changes nothing and asks for nothing,
/// even if the first time lengthened a queue.
pub proof fn named_elevators_keep_their_calls(
    s: SystemView,
    floor: u8,
    direction: u8,
    timestamp: u64,
)
    requires
        s.valid(),
        s.local_id.len() > 0,
        forall|id: Seq<char>| #[trigger] s.states.dom().contains(id) ==> id.len() > 0,
    ensures
        ({
            let once = s.assigned(floor, direction, timestamp);
            &&& once.assigned(floor, direction, timestamp) == once
            &&& once.assign_actions(floor, direction, timestamp) == Seq::<ActionView>::empty()
        }),
{
    chosen_is_known(s, floor, direction);
    assigning_twice_is_assigning_once(s, floor, direction, timestamp);
}

/// Of the word of a hall call, the newest counts: the call is on record with the later of the two
/// times, and word that is no news changes nothing and asks for nothing.
pub proof fn newest_call_counts(s: SystemView, floor: u8, direction: u8, timestamp: u64)
    ensures
        ({
            let k = (floor, direction);
            let after = s.told_of_call(floor, direction, timestamp);
            &&& after.hall_calls.dom().contains(k)
            &&& s.hall_calls.dom().contains(k) ==> after.hall_calls[k].1 == if timestamp
                > s.hall_calls[k].1 {
                timestamp
            } else {
                s.hall_calls[k].1
            }
            &&& !s.hall_calls.dom().contains(k) ==> after.hall_calls[k].1 == timestamp
            &&& s.hall_calls.dom().contains(k) && timestamp <= s.hall_calls[k].1 ==> after == s
                && s.told_of_call_actions(floor, direction, timestamp) == Seq::<ActionView>::empty()
        }),
{
    let opened = s.with_open_call(floor, direction, timestamp);
    assert(opened.hall_calls[(floor, direction)].0.len() == 0);
}

/// The time on record never goes back, and does not depend on the order in which word of a hall call
/// comes: of two times the later one stays.
pub proof fn word_may_come_in_any_order(s: SystemView, floor: u8, direction: u8, t1: u64, t2: u64)
    requires
        s.valid(),
        !s.hall_calls.dom().contains((floor, direction)),
    ensures
        ({
            let k = (floor, direction);
            let first = s.told_of_call(floor, direction, t1);
            let both = first.told_of_call(floor, direction, t2);
            let other = s.told_of_call(floor, direction, t2).told_of_call(floor, direction, t1);
            let later = if t1 > t2 { t1 } else { t2 };
            &&& first.hall_calls.dom().contains(k) && first.hall_calls[k].1 == t1
            &&& both.hall_calls.dom().contains(k) && both.hall_calls[k].1 == later
            &&& other.hall_calls.dom().contains(k) && other.hall_calls[k].1 == later
        }),
{
    newest_call_counts(s, floor, direction, t1);
    newest_call_counts(s, floor, direction, t2);
    newest_call_counts(s.told_of_call(floor, direction, t1), floor, direction, t2);
    newest_call_counts(s.told_of_call(floor, direction, t2), floor, direction, t1);
}

/// Adding a key that is not there, even twice, and removing it changes nothing.
proof fn lemma_added_then_removed<A>(keys: Seq<A>, key: A)
    requires
        keys.no_duplicates(),
        !keys.contains(key),
    ensures
        table::with_key(table::with_key(keys, key), key) == keys.push(key),
        table::without_key(keys.push(key), key) == keys,
{
    table::lemma_with_key(keys, key);
    table::lemma_without_key(keys.push(key), keys.len() as int);
    assert(keys.push(key).remove(keys.len() as int) =~= keys);
}

/// A call that was not in the queue is found at the end once it has been added, and removing it
/// there changes nothing.
proof fn lemma_queued_then_removed(queue: Seq<Seq<u8>>, call: Seq<u8>)
    requires
        !queue.contains(call),
    ensures
        elev::first_index(queue.push(call), control::equal_to(call)) == Some(queue.len() as int),
        queue.push(call).remove(queue.len() as int) == queue,
{
    let longer = queue.push(call);
    elev::first_index_meaning(longer, control::equal_to(call));
    assert(control::equal_to(call)(longer[queue.len() as int]));
    let place = elev::first_index(longer, control::equal_to(call))->0;
    if place < queue.len() {
        assert(queue[place] == call);
    }
    assert(longer.remove(queue.len() as int) =~= queue);
}

/// Word of a hall call that is neither on record nor in the queue, followed by word that it is
/// served, leaves record and queue as they were, whoever the call had been given to.
pub proof fn completion_undoes_a_call(s: SystemView, floor: u8, direction: u8, timestamp: u64)
    requires
        s.valid(),
        !s.hall_calls.dom().contains((floor, direction)),
        !s.elevator.call_buttons.contains(seq![floor, direction]),
    ensures
        ({
            let after = s.told_of_call(floor, direction, timestamp).told_of_completion(
                floor,
                direction,
            );
            &&& after.hall_calls == s.hall_calls
            &&& after.hall_order == s.hall_order
            &&& after.elevator.call_buttons == s.elevator.call_buttons
        }),
{
    let k = (floor, direction);
    let told = s.told_of_call(floor, direction, timestamp);
    let after = told.told_of_completion(floor, direction);
    lemma_added_then_removed(s.hall_order, k);
    lemma_queued_then_removed(s.elevator.call_buttons, seq![floor, direction]);
    assert(told.hall_calls.remove(k) =~= s.hall_calls);
    assert(after.hall_calls == told.hall_calls.remove(k));
}

/// Adding a hall call to a queue that holds no call twice leaves it so.
pub proof fn assigning_repeats_no_call(s: SystemView, floor: u8, direction: u8, timestamp: u64)
    requires
        s.elevator.call_buttons.no_duplicates(),
    ensures
        s.assigned(floor, direction, timestamp).elevator.call_buttons.no_duplicates(),
{
    table::lemma_with_key(s.elevator.call_buttons, seq![floor, direction]);
}

/// An elevator that gets its first call, or that stands still, sets out towards the call; any other
/// elevator keeps its direction, and so does one that is held by an obstruction.
pub proof fn first_call_sets_out(elevator: ElevatorView, go_floor: u8)
    ensures
        !elevator.is_obstructed && elevator.call_buttons.len() == 1 && elevator.current_floor
            < go_floor ==> control::started(
            elevator,
            go_floor,
        ).current_direction == DIRN_UP,
        !elevator.is_obstructed && elevator.call_buttons.len() == 1 && elevator.current_floor
            > go_floor ==> control::started(
            elevator,
            go_floor,
        ).current_direction == DIRN_DOWN,
        elevator.call_buttons.len() > 1 && elevator.current_direction
            != DIRN_STOP ==> control::started(elevator, go_floor) == elevator,
        elevator.is_obstructed ==> control::started(elevator, go_floor) == elevator
            && control::start_actions(elevator, go_floor) == Seq::<ActionView>::empty(),
{
}

} // verus!
