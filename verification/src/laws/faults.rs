//! What happens to hall calls when elevators are lost or obstructed.

use vstd::prelude::*;

use crate::action::ActionView;
use crate::control;
use crate::control::ServeOutcome;
use crate::elevio::cost;
use crate::elevio::elev::{ElevatorView, CAB};
use crate::elevio::fault_handler;
use crate::elevio::fault_handler::MonitorView;
use crate::elevio::system;
use crate::elevio::system::SystemView;
use crate::events;
use crate::laws::assignment;
use crate::table;

verus! {

/// Whether a list of timed calls holds a hall call.
pub open spec fn lists(calls: Seq<(u8, u8, u64)>, k: (u8, u8)) -> bool {
    exists|i: int| 0 <= i < calls.len() && (#[trigger] calls[i]).0 == k.0 && calls[i].1 == k.1
}

/// Whether no hall call is listed twice.
pub open spec fn listed_once(calls: Seq<(u8, u8, u64)>) -> bool {
    forall|i: int, j: int|
        0 <= i < j < calls.len() ==> (#[trigger] calls[i]).0 != (#[trigger] calls[j]).0
            || calls[i].1 != calls[j].1
}

/// Whether every listed hall call is on record.
pub open spec fn on_record(s: SystemView, calls: Seq<(u8, u8, u64)>) -> bool {
    forall|i: int|
        0 <= i < calls.len() ==> s.hall_order.contains(((#[trigger] calls[i]).0, calls[i].1))
}

/// Assigning one call and taking another from its elevator can be done in either order.
proof fn lemma_opening_commutes(s: SystemView, c: (u8, u8, u64), k: (u8, u8, u64))
    requires
        c.0 != k.0 || c.1 != k.1,
        s.hall_order.contains((c.0, c.1)),
        s.hall_order.contains((k.0, k.1)),
    ensures
        s.with_open_call(k.0, k.1, k.2).assigned(c.0, c.1, c.2) == s.assigned(
            c.0,
            c.1,
            c.2,
        ).with_open_call(k.0, k.1, k.2),
        s.with_open_call(k.0, k.1, k.2).assign_actions(c.0, c.1, c.2) == s.assign_actions(
            c.0,
            c.1,
            c.2,
        ),
        s.assigned(c.0, c.1, c.2).hall_order == s.hall_order,
        s.with_open_call(k.0, k.1, k.2).hall_order == s.hall_order,
{
    let opened = s.with_open_call(k.0, k.1, k.2);
    assert(opened.bids(c.0, c.1) =~= s.bids(c.0, c.1));
    assert(opened.settled(c.0, c.1, c.2) == s.settled(c.0, c.1, c.2));
    let left = opened.assigned(c.0, c.1, c.2);
    let right = s.assigned(c.0, c.1, c.2).with_open_call(k.0, k.1, k.2);
    assert(left.hall_calls =~= right.hall_calls);
}

/// Assigning several calls and taking another from its elevator can be done in either order.
proof fn lemma_opening_commutes_all(s: SystemView, calls: Seq<(u8, u8, u64)>, k: (u8, u8, u64))
    requires
        !lists(calls, (k.0, k.1)),
        on_record(s, calls),
        s.hall_order.contains((k.0, k.1)),
    ensures
        s.with_open_call(k.0, k.1, k.2).assigned_all(calls) == s.assigned_all(calls).with_open_call(
            k.0,
            k.1,
            k.2,
        ),
        s.with_open_call(k.0, k.1, k.2).assign_all_actions(calls) == s.assign_all_actions(calls),
        s.assigned_all(calls).hall_order == s.hall_order,
    decreases calls.len(),
{
    if calls.len() > 0 {
        let front = calls.drop_last();
        let c = calls.last();
        assert(calls[calls.len() - 1] == c);
        assert forall|i: int| 0 <= i < front.len() implies s.hall_order.contains(
            ((#[trigger] front[i]).0, front[i].1),
        ) by {
            assert(front[i] == calls[i]);
        }
        if lists(front, (k.0, k.1)) {
            let i = choose|i: int|
                0 <= i < front.len() && (#[trigger] front[i]).0 == k.0 && front[i].1 == k.1;
            assert(calls[i].0 == k.0);
        }
        lemma_opening_commutes_all(s, front, k);
        lemma_opening_commutes(s.assigned_all(front), c, k);
    }
}

/// Taking calls from their elevators leaves the list of hall calls as it is, if they are on record.
proof fn lemma_open_calls_order(s: SystemView, calls: Seq<(u8, u8, u64)>)
    requires
        on_record(s, calls),
    ensures
        s.with_open_calls(calls).hall_order == s.hall_order,
    decreases calls.len(),
{
    if calls.len() > 0 {
        let front = calls.drop_last();
        assert(calls[calls.len() - 1] == calls.last());
        assert forall|i: int| 0 <= i < front.len() implies s.hall_order.contains(
            ((#[trigger] front[i]).0, front[i].1),
        ) by {
            assert(front[i] == calls[i]);
        }
        lemma_open_calls_order(s, front);
    }
}

/// Taking all calls from their elevators first and then assigning them comes to the same as turning
/// them over one by one.
pub proof fn opening_first_comes_to_the_same(s: SystemView, calls: Seq<(u8, u8, u64)>)
    requires
        listed_once(calls),
        on_record(s, calls),
    ensures
        s.with_open_calls(calls).assigned_all(calls) == s.turned_over(calls),
        s.with_open_calls(calls).assign_all_actions(calls) == s.turn_over_actions(calls),
    decreases calls.len(),
{
    if calls.len() > 0 {
        let front = calls.drop_last();
        let k = calls.last();
        assert(calls[calls.len() - 1] == k);
        assert forall|i: int| 0 <= i < front.len() implies s.hall_order.contains(
            ((#[trigger] front[i]).0, front[i].1),
        ) && (front[i].0 != k.0 || front[i].1 != k.1) by {
            assert(front[i] == calls[i]);
        }
        assert(listed_once(front)) by {
            assert forall|i: int, j: int| 0 <= i < j < front.len() implies (#[trigger] front[i]).0
                != (#[trigger] front[j]).0 || front[i].1 != front[j].1 by {
                assert(front[i] == calls[i] && front[j] == calls[j]);
            }
        }
        let x = s.with_open_calls(front);
        opening_first_comes_to_the_same(s, front);
        lemma_open_calls_order(s, front);
        assert(!lists(front, (k.0, k.1)));
        lemma_opening_commutes_all(x, front, k);
    }
}

/// The hall calls of some elevators are on record, each once.
pub proof fn lemma_held_calls(s: SystemView, ids: Seq<Seq<char>>)
    requires
        s.valid(),
    ensures
        ({
            let keys = s.held_by(ids);
            let calls = s.timed_calls(keys);
            &&& keys.no_duplicates()
            &&& forall|k: (u8, u8)| #[trigger]
                keys.contains(k) <==> s.hall_order.contains(k) && ids.contains(s.hall_calls[k].0)
            &&& forall|k: (u8, u8)| #[trigger] lists(calls, k) <==> keys.contains(k)
            &&& listed_once(calls)
            &&& on_record(s, calls)
        }),
{
    let test = |k: (u8, u8)| ids.contains(s.hall_calls[k].0);
    let keys = s.held_by(ids);
    let calls = s.timed_calls(keys);
    lemma_filter(s.hall_order, test);
    assert forall|k: (u8, u8)| #[trigger] lists(calls, k) <==> keys.contains(k) by {
        if keys.contains(k) {
            let i = choose|i: int| 0 <= i < keys.len() && keys[i] == k;
            assert(calls[i].0 == k.0 && calls[i].1 == k.1);
        }
        if lists(calls, k) {
            let i = choose|i: int|
                0 <= i < calls.len() && (#[trigger] calls[i]).0 == k.0 && calls[i].1 == k.1;
            assert(keys[i] == k);
        }
    }
    assert forall|i: int, j: int| 0 <= i < j < calls.len() implies (#[trigger] calls[i]).0 != (
    #[trigger] calls[j]).0 || calls[i].1 != calls[j].1 by {
        assert(keys[i] != keys[j]);
    }
    assert forall|i: int| 0 <= i < calls.len() implies s.hall_order.contains(
        ((#[trigger] calls[i]).0, calls[i].1),
    ) by {
        assert(keys.contains(keys[i]));
    }
}

/// What a filter keeps: just what passes the test, and nothing twice that was there once.
pub proof fn lemma_filter<A>(s: Seq<A>, test: spec_fn(A) -> bool)
    ensures
        forall|x: A| #[trigger] s.filter(test).contains(x) <==> s.contains(x) && test(x),
        s.no_duplicates() ==> s.filter(test).no_duplicates(),
    decreases s.len(),
{
    reveal(Seq::filter);
    if s.len() > 0 {
        let front = s.drop_last();
        let last = s.last();
        lemma_filter(front, test);
        let kept = front.filter(test);
        let all = s.filter(test);
        assert(s =~= front.push(last));
        assert(s[s.len() - 1] == last);
        assert forall|x: A| #[trigger] all.contains(x) <==> s.contains(x) && test(x) by {
            if s.contains(x) && x != last {
                let i = choose|i: int| 0 <= i < s.len() && s[i] == x;
                assert(front[i] == x);
            }
            if front.contains(x) {
                let i = choose|i: int| 0 <= i < front.len() && front[i] == x;
                assert(s[i] == x);
            }
            if kept.contains(x) {
                let i = choose|i: int| 0 <= i < kept.len() && kept[i] == x;
                assert(all[i] == x);
            }
            if test(last) {
                assert(all[all.len() - 1] == last);
                if all.contains(x) && x != last {
                    let i = choose|i: int| 0 <= i < all.len() && all[i] == x;
                    assert(kept[i] == x);
                }
            }
        }
        if s.no_duplicates() {
            assert(front.no_duplicates());
            assert(!front.contains(last));
            assert(!kept.contains(last));
        }
    }
}

/// Both ways of giving the hall calls of lost elevators to others come to the same.
pub proof fn reassigning_is_turning_over(s: SystemView, ids: Seq<Seq<char>>)
    requires
        s.valid(),
    ensures
        s.reassigned(ids) == s.turned_over(s.timed_calls(s.held_by(ids))),
        s.reassign_actions(ids) == s.turn_over_actions(s.timed_calls(s.held_by(ids))),
{
    lemma_held_calls(s, ids);
    opening_first_comes_to_the_same(s, s.timed_calls(s.held_by(ids)));
}

/// Turning over hall calls keeps them all: each stays on record, those that are turned over go to
/// the local elevator or to another one that is known, and the rest is left as it is.
pub proof fn turning_over_loses_no_call(s: SystemView, calls: Seq<(u8, u8, u64)>)
    requires
        s.valid(),
    ensures
        ({
            let after = s.turned_over(calls);
            &&& after.valid()
            &&& after.local_id == s.local_id
            &&& after.states == s.states
            &&& after.state_order == s.state_order
            &&& after.peers == s.peers
            &&& after.elevator.is_obstructed == s.elevator.is_obstructed
            &&& after.elevator.current_floor == s.elevator.current_floor
            &&& s.elevator.call_buttons.is_prefix_of(after.elevator.call_buttons)
            &&& forall|k: (u8, u8)|
                #![trigger after.hall_calls[k]]
                #![trigger after.hall_calls.dom().contains(k)]
                !lists(calls, k) ==> after.hall_calls.dom().contains(k)
                    == s.hall_calls.dom().contains(k) && after.hall_calls[k] == s.hall_calls[k]
            &&& forall|k: (u8, u8)|
                #![trigger after.hall_calls[k]]
                #![trigger after.hall_calls.dom().contains(k)]
                lists(calls, k) ==> after.hall_calls.dom().contains(k) && (after.hall_calls[k].0
                    == s.local_id || s.states.dom().contains(after.hall_calls[k].0)) && calls.contains(
                    (k.0, k.1, after.hall_calls[k].1),
                )
        }),
    decreases calls.len(),
{
    if calls.len() > 0 {
        let front = calls.drop_last();
        let c = calls.last();
        assert(calls[calls.len() - 1] == c);
        turning_over_loses_no_call(s, front);
        let before = s.turned_over(front);
        let opened = before.with_open_call(c.0, c.1, c.2);
        let after = s.turned_over(calls);
        table::lemma_with_key(before.hall_order, (c.0, c.1));
        assert(opened.valid());
        assignment::chosen_is_known(opened, c.0, c.1);
        table::lemma_with_key(opened.hall_order, (c.0, c.1));
        assert(after.elevator.valid());
        assert(after.valid());
        assert(opened.elevator.call_buttons.is_prefix_of(after.elevator.call_buttons));
        assert forall|k: (u8, u8)| #![trigger after.hall_calls[k]] !lists(calls, k) implies
            after.hall_calls.dom().contains(k) == s.hall_calls.dom().contains(k)
            && after.hall_calls[k] == s.hall_calls[k] by {
            if lists(front, k) {
                let i = choose|i: int|
                    0 <= i < front.len() && (#[trigger] front[i]).0 == k.0 && front[i].1 == k.1;
                assert(calls[i].0 == k.0);
            }
            assert(before.hall_calls[k] == s.hall_calls[k]);
            assert(k != (c.0, c.1));
        }
        assert forall|k: (u8, u8)| #![trigger after.hall_calls[k]] lists(calls, k) implies
            after.hall_calls.dom().contains(k) && (after.hall_calls[k].0 == s.local_id
            || s.states.dom().contains(after.hall_calls[k].0)) && calls.contains(
            (k.0, k.1, after.hall_calls[k].1),
        ) by {
            if k == (c.0, c.1) {
                assert(after.hall_calls[k].1 == c.2);
                assert(calls[calls.len() - 1] == (k.0, k.1, c.2));
            } else {
                let i = choose|i: int|
                    0 <= i < calls.len() && (#[trigger] calls[i]).0 == k.0 && calls[i].1 == k.1;
                assert(front[i] == calls[i]);
                assert(lists(front, k));
                assert(after.hall_calls[k] == before.hall_calls[k]);
                let call = (k.0, k.1, after.hall_calls[k].1);
                let j = choose|j: int| 0 <= j < front.len() && front[j] == call;
                assert(calls[j] == call);
            }
        }
    }
}

/// No hall call stays with a lost elevator, and none is forgotten: after the lost elevators have
/// been given up, each hall call is on record with its time as before, and each that was with a
/// lost elevator is with the local one or with one that is not lost.
pub proof fn lost_elevators_keep_no_call(s: SystemView, now: u64, k: (u8, u8))
    requires
        s.valid(),
        s.hall_calls.dom().contains(k),
    ensures
        ({
            let lost = s.lost(now);
            let rest = s.without_states(lost);
            let after = rest.reassigned(lost);
            &&& after.hall_calls.dom().contains(k)
            &&& after.hall_calls[k].1 == s.hall_calls[k].1
            &&& !lost.contains(s.hall_calls[k].0) ==> after.hall_calls[k] == s.hall_calls[k]
            &&& lost.contains(s.hall_calls[k].0) ==> after.hall_calls[k].0 == s.local_id || (
            s.states.dom().contains(after.hall_calls[k].0) && !lost.contains(
                after.hall_calls[k].0,
            ))
        }),
{
    let lost = s.lost(now);
    let rest = s.without_states(lost);
    lemma_without_states(s, lost);
    lemma_held_calls(rest, lost);
    let keys = rest.held_by(lost);
    let calls = rest.timed_calls(keys);
    reassigning_is_turning_over(rest, lost);
    turning_over_loses_no_call(rest, calls);
    let after = rest.turned_over(calls);
    assert(rest.hall_calls == s.hall_calls);
    assert(s.hall_order.contains(k));
    if lost.contains(s.hall_calls[k].0) {
        assert(keys.contains(k));
        assert(lists(calls, k));
        let call = (k.0, k.1, after.hall_calls[k].1);
        let i = choose|i: int| 0 <= i < calls.len() && calls[i] == call;
        assert(calls[i] == rest.timed(keys[i]));
        assert(keys[i] == k);
        if rest.states.dom().contains(after.hall_calls[k].0) {
            assert(!lost.contains(after.hall_calls[k].0)) by {
                assert(!lost.to_set().contains(after.hall_calls[k].0));
            }
        }
    } else {
        assert(!keys.contains(k));
        assert(!lists(calls, k));
    }
}

/// Forgetting some of the other elevators keeps the system valid.
pub proof fn lemma_without_states(s: SystemView, ids: Seq<Seq<char>>)
    requires
        s.valid(),
    ensures
        s.without_states(ids).valid(),
{
    let rest = s.without_states(ids);
    lemma_filter(s.state_order, |k: Seq<char>| !ids.contains(k));
    assert forall|id: Seq<char>| #[trigger] rest.states.dom().contains(id)
        <==> rest.state_order.contains(id) by {
        assert(ids.to_set().contains(id) <==> ids.contains(id));
    }
    assert forall|id: Seq<char>| rest.states.dom().contains(id) implies cost::priceable(
        (#[trigger] rest.states[id]).call_buttons.len(),
        rest.states[id].is_obstructed,
    ) by {
        assert(rest.states[id] == s.states[id]);
        assert(s.states.dom().contains(id));
    }
}

/// An obstruction between floors waits for the door: nothing is asked for, and the elevator bids and
/// tells its state as before. At the next floor where it serves a call, the door stays open and the
/// elevator is obstructed from then on; if the lever has been let go before, it goes on.
pub proof fn obstruction_between_floors_waits(s: SystemView, now: u64, floor: u8)
    ensures
        ({
            let after = events::obstruction_changed(s, true, false, now);
            let here = events::at(after, floor);
            let place = control::serving_place(events::at(s, floor).elevator, floor);
            &&& events::obstruction_actions(s, true, false, now) == Seq::<ActionView>::empty()
            &&& after == s.with_elevator(
                ElevatorView {
                    obstruction_waiting: after.elevator.obstruction_waiting,
                    ..s.elevator
                },
            )
            &&& after.state_message() == s.state_message()
            &&& forall|f: u8, d: u8| #[trigger] after.bids(f, d) == s.bids(f, d)
            &&& control::serving_place(here.elevator, floor) == place
            &&& place is Some ==> control::serve_outcome(here, floor) == ServeOutcome::HeldOpen
                && control::served(here, floor).elevator.is_obstructed
            &&& place is None ==> control::serve_outcome(here, floor) == ServeOutcome::NoCall
                && control::served(here, floor) == here
            &&& events::obstruction_actions(after, false, false, now)
                == Seq::<ActionView>::empty()
            &&& events::obstruction_changed(after, false, false, now) == events::cleared(s)
            &&& !control::lever_set(events::cleared(s).elevator)
        }),
{
    let after = events::obstruction_changed(s, true, false, now);
    lemma_same_place(events::at(s, floor).elevator, events::at(after, floor).elevator, floor);
    assert forall|f: u8, d: u8| #[trigger] after.bids(f, d) == s.bids(f, d) by {
        assert(after.bids(f, d) =~= s.bids(f, d));
    }
}

/// The call that is served at a floor does not depend on obstructions.
proof fn lemma_same_place(a: ElevatorView, b: ElevatorView, floor: u8)
    requires
        a.current_floor == b.current_floor,
        a.current_direction == b.current_direction,
        a.call_buttons == b.call_buttons,
    ensures
        control::serving_place(a, floor) == control::serving_place(b, floor),
{
    assert(control::along(a, floor) =~= control::along(b, floor));
    assert(control::back(a, floor) =~= control::back(b, floor));
    if control::more_ahead(a) {
        let i = choose|i: int|
            0 <= i < a.call_buttons.len() && control::lies_ahead(a, #[trigger] a.call_buttons[i]);
        assert(control::lies_ahead(b, b.call_buttons[i]));
    }
    if control::more_ahead(b) {
        let i = choose|i: int|
            0 <= i < b.call_buttons.len() && control::lies_ahead(b, #[trigger] b.call_buttons[i]);
        assert(control::lies_ahead(a, a.call_buttons[i]));
    }
}

/// An obstruction at a floor opens the door before anything else, and leaves the calls that wait in
/// the queue.
pub proof fn obstruction_at_a_floor_opens_the_door(s: SystemView, now: u64)
    requires
        s.valid(),
    ensures
        events::obstruction_actions(s, true, true, now).first() == ActionView::DoorLight(true),
        events::obstruction_changed(s, true, true, now).elevator.is_obstructed,
        events::obstruction_changed(s, true, true, now).elevator.obstruction_start_time is Some,
        s.elevator.call_buttons.is_prefix_of(
            events::obstruction_changed(s, true, true, now).elevator.call_buttons,
        ),
{
    let blocked = events::obstructed(s, now);
    assert(blocked.valid());
    turning_over_loses_no_call(blocked, events::own_calls(blocked));
    lemma_start_time(blocked, events::own_calls(blocked));
}

/// Turning over calls leaves the time of the obstruction as it is.
proof fn lemma_start_time(s: SystemView, calls: Seq<(u8, u8, u64)>)
    ensures
        s.turned_over(calls).elevator.obstruction_start_time == s.elevator.obstruction_start_time,
    decreases calls.len(),
{
    if calls.len() > 0 {
        lemma_start_time(s, calls.drop_last());
    }
}

/// Whether an elevator is free, and has not got hundreds of millions of calls waiting.
pub open spec fn is_free(s: SystemView, id: Seq<char>) -> bool {
    &&& s.states.dom().contains(id)
    &&& !s.states[id].is_obstructed
    &&& s.states[id].call_buttons.len() <= 214_747_848
}

/// An obstructed elevator is not chosen while another one is free.
pub proof fn obstructed_is_not_chosen(s: SystemView, floor: u8, direction: u8, free: Seq<char>)
    requires
        s.valid(),
        s.elevator.is_obstructed,
        is_free(s, free),
        !s.states.dom().contains(s.local_id),
    ensures
        s.chosen(floor, direction) != s.local_id,
{
    let bids = s.bids(floor, direction);
    let best = system::best_bid(bids);
    let offer = s.bid_of(free, floor, direction);
    assignment::best_bid_is_best(bids);
    assignment::lemma_bids(s, floor, direction, offer);
    assignment::lemma_bids(s, floor, direction, best);
    let i = choose|i: int| 0 <= i < bids.len() && bids[i] == offer;
    assert(!system::beats(bids[i], best));
    assignment::obstructed_asks_most(
        s.states[free].floor,
        s.states[free].direction,
        s.states[free].call_buttons.len() as usize,
        floor,
        direction,
        s.elevator.current_floor,
        s.elevator.current_direction,
        s.elevator.call_buttons.len() as usize,
    );
}

/// When an elevator becomes obstructed at a floor while another one is free, none of its hall calls
/// stays with it, and none is forgotten.
pub proof fn obstructed_elevator_gives_its_calls_away(s: SystemView, now: u64, free: Seq<char>, k: (u8, u8))
    requires
        s.valid(),
        is_free(s, free),
        !s.states.dom().contains(s.local_id),
        s.hall_calls.dom().contains(k),
    ensures
        ({
            let after = events::obstruction_changed(s, true, true, now);
            &&& after.hall_calls.dom().contains(k)
            &&& after.hall_calls[k].1 == s.hall_calls[k].1
            &&& after.hall_calls[k].0 != s.local_id
        }),
{
    let blocked = events::obstructed(s, now);
    assert(blocked.valid());
    let calls = events::own_calls(blocked);
    lemma_held_calls(blocked, seq![blocked.local_id]);
    lemma_not_ours(blocked, calls, free);
    turning_over_loses_no_call(blocked, calls);
    let after = blocked.turned_over(calls);
    let keys = blocked.held_by(seq![blocked.local_id]);
    assert(seq![blocked.local_id][0] == blocked.local_id);
    if s.hall_calls[k].0 == s.local_id {
        assert(blocked.hall_order.contains(k));
        assert(seq![blocked.local_id].contains(blocked.hall_calls[k].0));
        assert(keys.contains(k));
        assert(lists(calls, k));
        let call = (k.0, k.1, after.hall_calls[k].1);
        let i = choose|i: int| 0 <= i < calls.len() && calls[i] == call;
        assert(calls[i] == blocked.timed(keys[i]));
        assert(keys[i] == k);
    } else {
        assert(!keys.contains(k));
        assert(!lists(calls, k));
        assert(after.hall_calls[k] == blocked.hall_calls[k]);
    }
}

/// Calls that an obstructed elevator turns over do not come back to it while another one is free.
proof fn lemma_not_ours(s: SystemView, calls: Seq<(u8, u8, u64)>, free: Seq<char>)
    requires
        s.valid(),
        s.elevator.is_obstructed,
        is_free(s, free),
        !s.states.dom().contains(s.local_id),
    ensures
        forall|k: (u8, u8)|
            #![trigger s.turned_over(calls).hall_calls[k]]
            lists(calls, k) ==> s.turned_over(calls).hall_calls[k].0 != s.local_id,
    decreases calls.len(),
{
    if calls.len() > 0 {
        let front = calls.drop_last();
        let c = calls.last();
        lemma_not_ours(s, front, free);
        turning_over_loses_no_call(s, front);
        let before = s.turned_over(front);
        let opened = before.with_open_call(c.0, c.1, c.2);
        table::lemma_with_key(before.hall_order, (c.0, c.1));
        assert(opened.valid());
        obstructed_is_not_chosen(opened, c.0, c.1, free);
        let after = s.turned_over(calls);
        assert forall|k: (u8, u8)| #![trigger after.hall_calls[k]] lists(calls, k) implies
            after.hall_calls[k].0 != s.local_id by {
            if k != (c.0, c.1) {
                let i = choose|i: int|
                    0 <= i < calls.len() && (#[trigger] calls[i]).0 == k.0 && calls[i].1 == k.1;
                assert(front[i] == calls[i]);
                assert(lists(front, k));
                assert(after.hall_calls[k] == before.hall_calls[k]);
            }
        }
    }
}

/// A new call from the cab survives a restart: before the elevator moves, its state is saved, and
/// what reads back from the saved lines is the floor, the direction and the queue, with the call in
/// it.
pub proof fn cab_call_survives_a_restart(s: SystemView, floor: u8)
    requires
        cost::calls_exact(s.elevator.call_buttons),
        !s.elevator.call_buttons.contains(seq![floor, CAB]),
    ensures
        ({
            let queue = s.elevator.call_buttons.push(seq![floor, CAB]);
            let lines = fault_handler::saved_lines(
                s.elevator.current_floor,
                s.elevator.current_direction,
                queue,
            );
            &&& events::cab_call_actions(s, floor).first() == (ActionView::SaveState {
                file_name: fault_handler::state_file(s.local_id),
                lines,
            })
            &&& fault_handler::saved_state(lines) == Some(
                (s.elevator.current_floor, s.elevator.current_direction, queue),
            )
            &&& queue.contains(seq![floor, CAB])
        }),
{
    let queue = s.elevator.call_buttons.push(seq![floor, CAB]);
    fault_handler::saved_state_round_trip(
        s.elevator.current_floor,
        s.elevator.current_direction,
        queue,
    );
    assert(queue[queue.len() - 1] == seq![floor, CAB]);
}

/// An elevator that has just been heard of is alive, and counts as active.
pub proof fn heard_of_is_alive(monitor: MonitorView, id: Seq<char>, now: u64)
    requires
        monitor.valid(),
    ensures
        monitor.heard(id, now).alive(id, now),
        monitor.heard(id, now).active.contains(id),
{
    table::lemma_with_key(monitor.active, id);
}

/// No elevator is both alive and overdue; one whose silence is just the timeout is neither.
pub proof fn alive_is_not_overdue(monitor: MonitorView, id: Seq<char>, now: u64)
    ensures
        !(monitor.alive(id, now) && monitor.overdue(id, now)),
        monitor.last_seen.dom().contains(id) && fault_handler::silence(monitor.last_seen[id], now)
            == fault_handler::ELEVATOR_TIMEOUT ==> !monitor.alive(id, now) && !monitor.overdue(
            id,
            now,
        ),
{
}

/// A check gives up just the overdue elevators: none of them is known or active afterwards, and of
/// the others what was known stays known.
pub proof fn check_gives_up_the_overdue(monitor: MonitorView, id: Seq<char>, now: u64)
    requires
        monitor.valid(),
    ensures
        ({
            let gone = monitor.overdue_ids(now);
            let after = monitor.given_up(gone);
            &&& gone.contains(id) == monitor.overdue(id, now)
            &&& monitor.overdue(id, now) ==> !after.last_seen.dom().contains(id)
                && !after.active.contains(id)
            &&& !monitor.overdue(id, now) ==> after.last_seen.dom().contains(id)
                == monitor.last_seen.dom().contains(id) && after.active.contains(id)
                == monitor.active.contains(id)
            &&& !monitor.overdue(id, now) && monitor.last_seen.dom().contains(id)
                ==> after.last_seen[id] == monitor.last_seen[id]
            &&& !after.overdue(id, now)
        }),
{
    let gone = monitor.overdue_ids(now);
    lemma_filter(monitor.known, |x: Seq<char>| monitor.overdue(x, now));
    lemma_filter(monitor.active, |x: Seq<char>| !gone.contains(x));
    assert(gone.to_set().contains(id) <==> gone.contains(id));
}

} // verus!
