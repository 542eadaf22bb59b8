//! What becomes of the hall calls on record.

use vstd::prelude::*;

use crate::action::ActionView;
use crate::elevio::cost;
use crate::elevio::cost::MessageView;
use crate::elevio::elev;
use crate::elevio::elev::{ElevatorView, DIRN_STOP};
use crate::elevio::fault_handler;
use crate::elevio::system::{StateView, SystemView, STATE_TIMEOUT};
use crate::events;
use crate::control;
use crate::laws::assignment;
use crate::laws::faults;
use crate::laws::travel;
use crate::table;

verus! {

/// Whether a hall call has been given to the elevator that is chosen for it: it is on record there
/// with its time. If that is the local elevator, the call is in its queue, added at the end unless it
/// was there, its light goes on, and the elevator sets out towards it if it is free to; if not,
/// nothing else changes and nothing is asked for.
pub open spec fn given_out(
    s: SystemView,
    floor: u8,
    direction: u8,
    timestamp: u64,
    after: SystemView,
    actions: Seq<ActionView>,
) -> bool {
    let ours = s.chosen(floor, direction) == s.local_id;
    let call = seq![floor, direction];
    let was = s.elevator;
    let is = after.elevator;
    let light = ActionView::CallButtonLight { floor, call: direction, on: true };
    &&& after.hall_calls == s.hall_calls.insert(
        (floor, direction),
        (s.chosen(floor, direction), timestamp),
    )
    &&& after.states == s.states
    &&& after.state_order == s.state_order
    &&& after.peers == s.peers
    &&& after.network == s.network
    &&& after.local_id == s.local_id
    &&& !ours ==> is == was && actions == Seq::<ActionView>::empty()
    &&& ours ==> {
        &&& was.call_buttons.contains(call) ==> is.call_buttons == was.call_buttons
        &&& !was.call_buttons.contains(call) ==> is.call_buttons == was.call_buttons.push(call)
        &&& is == (ElevatorView {
            call_buttons: is.call_buttons,
            current_direction: is.current_direction,
            ..was
        })
        &&& if !was.is_obstructed && (is.call_buttons.len() == 1 || was.current_direction
            == DIRN_STOP) {
            &&& travel::leads(is.current_direction, was.current_floor, floor)
            &&& actions == seq![light, ActionView::MotorDirection(is.current_direction)]
        } else {
            &&& is.current_direction == was.current_direction
            &&& actions == seq![light]
        }
    }
}

/// A hall call that nobody serves yet, or that has been made anew, is given to the elevator that is
/// chosen for it.
pub proof fn open_call_is_given_out(s: SystemView, floor: u8, direction: u8, timestamp: u64)
    requires
        !s.hall_calls.dom().contains((floor, direction)) || s.hall_calls[(floor, direction)].0.len()
            == 0 || s.hall_calls[(floor, direction)].1 < timestamp,
    ensures
        given_out(
            s,
            floor,
            direction,
            timestamp,
            s.assigned(floor, direction, timestamp),
            s.assign_actions(floor, direction, timestamp),
        ),
{
    let call = seq![floor, direction];
    table::lemma_with_key(s.elevator.call_buttons, call);
    let queued = s.elevator_with_call(floor, direction);
    if s.elevator.call_buttons.contains(call) {
        assert(s.elevator.call_buttons.len() > 0);
    }
    travel::setting_out_leads_to_the_floor(queued, floor);
    assert(s.assign_actions(floor, direction, timestamp) =~= if s.chosen(floor, direction)
        == s.local_id {
        seq![ActionView::CallButtonLight { floor, call: direction, on: true }]
            + control::start_actions(queued, floor)
    } else {
        Seq::empty()
    });
    if !s.elevator.is_obstructed && (queued.call_buttons.len() == 1 || s.elevator.current_direction
        == DIRN_STOP) {
        assert(s.chosen(floor, direction) == s.local_id ==> s.assign_actions(
            floor,
            direction,
            timestamp,
        ) =~= seq![
            ActionView::CallButtonLight { floor, call: direction, on: true },
            ActionView::MotorDirection(control::started(queued, floor).current_direction),
        ]);
    } else {
        assert(s.chosen(floor, direction) == s.local_id ==> s.assign_actions(
            floor,
            direction,
            timestamp,
        ) =~= seq![ActionView::CallButtonLight { floor, call: direction, on: true }]);
    }
}

/// A hall call that has just been made is given to the elevator that is chosen for it, whoever
/// served it before.
pub proof fn new_call_is_given_out(s: SystemView, floor: u8, direction: u8, timestamp: u64)
    ensures
        ({
            let noted = s.with_open_call(floor, direction, timestamp);
            given_out(
                s,
                floor,
                direction,
                timestamp,
                noted.assigned(floor, direction, timestamp),
                noted.assign_actions(floor, direction, timestamp),
            )
        }),
{
    let noted = s.with_open_call(floor, direction, timestamp);
    assert(noted.hall_calls[(floor, direction)].0.len() == 0);
    open_call_is_given_out(noted, floor, direction, timestamp);
    assert(noted.bids(floor, direction) =~= s.bids(floor, direction));
    let best = (s.chosen(floor, direction), timestamp);
    assert(noted.hall_calls.insert((floor, direction), best) =~= s.hall_calls.insert(
        (floor, direction),
        best,
    ));
}

/// Word of a hall call that is unknown, or newer than the known one, lights the button and gives the
/// call out; other word changes nothing and asks for nothing.
pub proof fn word_of_a_call_is_given_out(s: SystemView, floor: u8, direction: u8, timestamp: u64)
    ensures
        ({
            let k = (floor, direction);
            let after = s.told_of_call(floor, direction, timestamp);
            let actions = s.told_of_call_actions(floor, direction, timestamp);
            if !s.hall_calls.dom().contains(k) || s.hall_calls[k].1 < timestamp {
                &&& actions.len() > 0
                &&& actions[0] == (ActionView::CallButtonLight { floor, call: direction, on: true })
                &&& given_out(s, floor, direction, timestamp, after, actions.skip(1))
            } else {
                &&& after == s
                &&& actions == Seq::<ActionView>::empty()
            }
        }),
{
    new_call_is_given_out(s, floor, direction, timestamp);
    let noted = s.with_open_call(floor, direction, timestamp);
    let light = seq![ActionView::CallButtonLight { floor, call: direction, on: true }];
    let more = noted.assign_actions(floor, direction, timestamp);
    assert((light + more).skip(1) =~= more);
}

/// A call that is turned over goes to the elevator that is chosen for it, whoever had it.
pub proof fn turned_over_call_is_given_out(s: SystemView, floor: u8, direction: u8, timestamp: u64)
    ensures
        given_out(
            s,
            floor,
            direction,
            timestamp,
            s.turned_over(seq![(floor, direction, timestamp)]),
            s.turn_over_actions(seq![(floor, direction, timestamp)]),
        ),
{
    let calls = seq![(floor, direction, timestamp)];
    new_call_is_given_out(s, floor, direction, timestamp);
    assert(calls.drop_last() =~= Seq::<(u8, u8, u64)>::empty());
    assert(s.turned_over(calls.drop_last()) == s);
    assert(s.turn_over_actions(calls.drop_last()) == Seq::<ActionView>::empty());
    let noted = s.with_open_call(floor, direction, timestamp);
    assert(s.turn_over_actions(calls) =~= noted.assign_actions(floor, direction, timestamp));
}

/// Several calls are turned over, assigned, opened or handed on one after the other: the calls of two
/// lists together come to the one list, then the other.
pub proof fn calls_are_taken_in_turn(s: SystemView, a: Seq<(u8, u8, u64)>, b: Seq<(u8, u8, u64)>)
    ensures
        s.assigned_all(a + b) == s.assigned_all(a).assigned_all(b),
        s.assign_all_actions(a + b) == s.assign_all_actions(a) + s.assigned_all(
            a,
        ).assign_all_actions(b),
        s.turned_over(a + b) == s.turned_over(a).turned_over(b),
        s.turn_over_actions(a + b) == s.turn_over_actions(a) + s.turned_over(a).turn_over_actions(
            b,
        ),
        s.with_open_calls(a + b) == s.with_open_calls(a).with_open_calls(b),
        s.handed_on(a + b) == s.handed_on(a).handed_on(b),
    decreases b.len(),
{
    if b.len() == 0 {
        assert(a + b =~= a);
        assert(s.assign_all_actions(a) + s.assigned_all(a).assign_all_actions(b)
            =~= s.assign_all_actions(a));
        assert(s.turn_over_actions(a) + s.turned_over(a).turn_over_actions(b)
            =~= s.turn_over_actions(a));
    } else {
        let front = b.drop_last();
        let c = b.last();
        calls_are_taken_in_turn(s, a, front);
        assert((a + b).drop_last() =~= a + front);
        assert((a + b).last() == c);
        assert(s.assign_all_actions(a + b) =~= s.assign_all_actions(a) + s.assigned_all(
            a,
        ).assign_all_actions(b));
        assert(s.turn_over_actions(a + b) =~= s.turn_over_actions(a) + s.turned_over(
            a,
        ).turn_over_actions(b));
    }
}

/// Of one call: assigning it as the only one of a list is assigning it, opening it leaves nobody in
/// charge of it, and handing it on gives it to the best of the other elevators, if there is one. An
/// empty list changes nothing.
pub proof fn list_of_one_call(s: SystemView, floor: u8, direction: u8, timestamp: u64)
    ensures
        ({
            let one = seq![(floor, direction, timestamp)];
            let none = Seq::<(u8, u8, u64)>::empty();
            &&& s.assigned_all(one) == s.assigned(floor, direction, timestamp)
            &&& s.assign_all_actions(one) == s.assign_actions(floor, direction, timestamp)
            &&& s.with_open_calls(one).hall_calls == s.hall_calls.insert(
                (floor, direction),
                (Seq::empty(), timestamp),
            )
            &&& s.with_open_calls(one).elevator == s.elevator
            &&& match s.chosen_other(floor, direction) {
                Some(id) => s.handed_on(one).hall_calls == s.hall_calls.insert(
                    (floor, direction),
                    (id, timestamp),
                ) && s.handed_on(one).elevator == s.elevator,
                None => s.handed_on(one) == s,
            }
            &&& s.assigned_all(none) == s
            &&& s.turned_over(none) == s
            &&& s.with_open_calls(none) == s
            &&& s.handed_on(none) == s
            &&& s.assign_all_actions(none).len() == 0
            &&& s.turn_over_actions(none).len() == 0
        }),
{
    let one = seq![(floor, direction, timestamp)];
    assert(one.drop_last() =~= Seq::<(u8, u8, u64)>::empty());
    assert(s.assigned_all(one.drop_last()) == s);
    assert(s.with_open_calls(one.drop_last()) == s);
    assert(s.handed_on(one.drop_last()) == s);
    assert(s.assign_all_actions(one.drop_last()) == Seq::<ActionView>::empty());
    assert(s.assign_all_actions(one) =~= s.assign_actions(floor, direction, timestamp));
}

/// Word that a hall call is served takes it off the record, whoever had it, and switches off its
/// light. If it was with the local elevator and is in the queue, its first place there is freed and
/// the state is saved; nothing else changes.
pub proof fn word_of_completion_clears_the_call(s: SystemView, floor: u8, direction: u8)
    ensures
        ({
            let k = (floor, direction);
            let call = seq![floor, direction];
            let queue = s.elevator.call_buttons;
            let ours = s.hall_calls.dom().contains(k) && s.hall_calls[k].0 == s.local_id;
            let after = s.told_of_completion(floor, direction);
            let actions = s.told_of_completion_actions(floor, direction);
            let light = ActionView::CallButtonLight { floor, call: direction, on: false };
            &&& after.hall_calls == s.hall_calls.remove(k)
            &&& after == (SystemView {
                hall_calls: after.hall_calls,
                hall_order: after.hall_order,
                elevator: ElevatorView {
                    call_buttons: after.elevator.call_buttons,
                    ..s.elevator
                },
                ..s
            })
            &&& !ours || !queue.contains(call) ==> after.elevator.call_buttons == queue && actions
                == seq![light]
            &&& ours && queue.contains(call) ==> exists|i: int|
                0 <= i < queue.len() && #[trigger] queue[i] == call && (forall|j: int|
                    0 <= j < i ==> #[trigger] queue[j] != call) && after.elevator.call_buttons
                    == queue.remove(i) && actions == seq![
                    light,
                    ActionView::SaveState {
                        file_name: fault_handler::state_file(s.local_id),
                        lines: fault_handler::saved_lines(
                            s.elevator.current_floor,
                            s.elevator.current_direction,
                            queue.remove(i),
                        ),
                    },
                ]
        }),
{
    let call = seq![floor, direction];
    let queue = s.elevator.call_buttons;
    let test = control::equal_to(call);
    elev::first_index_meaning(queue, test);
    match s.queue_place(floor, direction) {
        Some(i) => {
            assert(test(queue[i]));
            assert(queue.contains(call));
            assert forall|j: int| 0 <= j < i implies #[trigger] queue[j] != call by {
                assert(!test(queue[j]));
            }
            if s.is_ours(floor, direction) {
                assert(s.told_of_completion_actions(floor, direction) =~= seq![
                    ActionView::CallButtonLight { floor, call: direction, on: false },
                    fault_handler::save_action(s.local_id, s.elevator_without(i)),
                ]);
            }
        },
        None => {
            if queue.contains(call) {
                let j = choose|j: int| 0 <= j < queue.len() && queue[j] == call;
                assert(test(queue[j]));
            }
        },
    }
}

/// Looking again at calls on record leaves each with its time; a call that somebody serves stays
/// with them, and a call that nobody serves goes to the local elevator or to a known one.
proof fn lemma_looking_again(s: SystemView, calls: Seq<(u8, u8, u64)>)
    requires
        s.valid(),
        forall|i: int|
            0 <= i < calls.len() ==> s.hall_calls.dom().contains(
                ((#[trigger] calls[i]).0, calls[i].1),
            ) && s.hall_calls[(calls[i].0, calls[i].1)].1 == calls[i].2,
    ensures
        ({
            let after = s.assigned_all(calls);
            &&& after.valid()
            &&& after.local_id == s.local_id
            &&& after.states == s.states
            &&& after.peers == s.peers
            &&& forall|k: (u8, u8)|
                #![trigger after.hall_calls.dom().contains(k)]
                #![trigger after.hall_calls[k]]
                (after.hall_calls.dom().contains(k) == s.hall_calls.dom().contains(k)) && (
                s.hall_calls.dom().contains(k) ==> after.hall_calls[k].1 == s.hall_calls[k].1 && (
                s.hall_calls[k].0.len() > 0 ==> after.hall_calls[k] == s.hall_calls[k]) && (
                after.hall_calls[k] == s.hall_calls[k] || after.hall_calls[k].0 == s.local_id
                    || s.states.dom().contains(after.hall_calls[k].0)) && (faults::lists(calls, k)
                    && s.hall_calls[k].0.len() == 0 ==> after.hall_calls[k].0 == s.local_id
                    || s.states.dom().contains(after.hall_calls[k].0)))
        }),
    decreases calls.len(),
{
    if calls.len() > 0 {
        let front = calls.drop_last();
        let c = calls.last();
        let n = (c.0, c.1);
        assert(calls[calls.len() - 1] == c);
        assert forall|i: int| 0 <= i < front.len() implies s.hall_calls.dom().contains(
            ((#[trigger] front[i]).0, front[i].1),
        ) && s.hall_calls[(front[i].0, front[i].1)].1 == front[i].2 by {
            assert(front[i] == calls[i]);
        }
        lemma_looking_again(s, front);
        let before = s.assigned_all(front);
        let after = s.assigned_all(calls);
        assert(before.hall_calls.dom().contains(n));
        assert(before.hall_calls[n].1 == c.2);
        assignment::chosen_is_known(before, c.0, c.1);
        table::lemma_with_key(before.hall_order, n);
        table::lemma_with_key(before.elevator.call_buttons, seq![c.0, c.1]);
        assert(after.elevator.valid());
        assert(after.valid());
        assert forall|k: (u8, u8)| #[trigger] faults::lists(calls, k) && k != n implies
            faults::lists(front, k) by {
            let i = choose|i: int|
                0 <= i < calls.len() && (#[trigger] calls[i]).0 == k.0 && calls[i].1 == k.1;
            assert(front[i] == calls[i]);
        }
        assert forall|k: (u8, u8)|
            #![trigger after.hall_calls[k]]
            (after.hall_calls.dom().contains(k) == s.hall_calls.dom().contains(k)) && (
            s.hall_calls.dom().contains(k) ==> after.hall_calls[k].1 == s.hall_calls[k].1 && (
            s.hall_calls[k].0.len() > 0 ==> after.hall_calls[k] == s.hall_calls[k]) && (
            after.hall_calls[k] == s.hall_calls[k] || after.hall_calls[k].0 == s.local_id
                || s.states.dom().contains(after.hall_calls[k].0)) && (faults::lists(calls, k)
                && s.hall_calls[k].0.len() == 0 ==> after.hall_calls[k].0 == s.local_id
                || s.states.dom().contains(after.hall_calls[k].0))) by {
            assert(before.hall_calls.dom().contains(k) == s.hall_calls.dom().contains(k));
            if k != n {
                assert(after.hall_calls[k] == before.hall_calls[k]);
            }
        }
    }
}

/// What another elevator tells of its state is what is known of it from then on, as of now; of the
/// others nothing new is known. Every hall call keeps its time; one that somebody serves stays with
/// them, and one that nobody serves goes to the local elevator or to a known one.
pub proof fn told_state_is_taken_in(
    s: SystemView,
    id: Seq<char>,
    floor: u8,
    direction: u8,
    call_buttons: Seq<Seq<u8>>,
    is_obstructed: bool,
    now: u64,
    k: (u8, u8),
)
    requires
        s.valid(),
        cost::priceable(call_buttons.len(), is_obstructed),
    ensures
        ({
            let after = s.told(
                MessageView::ElevatorState { id, floor, direction, call_buttons, is_obstructed },
                now,
            );
            &&& after.states == s.states.insert(
                id,
                StateView {
                    floor,
                    direction,
                    call_buttons,
                    last_seen: now,
                    is_obstructed,
                    obstruction_duration: 0,
                },
            )
            &&& after.local_id == s.local_id
            &&& after.peers == s.peers
            &&& after.hall_calls.dom().contains(k) == s.hall_calls.dom().contains(k)
            &&& s.hall_calls.dom().contains(k) ==> {
                &&& after.hall_calls[k].1 == s.hall_calls[k].1
                &&& s.hall_calls[k].0.len() > 0 ==> after.hall_calls[k] == s.hall_calls[k]
                &&& s.hall_calls[k].0.len() == 0 ==> after.hall_calls[k].0 == s.local_id
                    || after.states.dom().contains(after.hall_calls[k].0)
            }
        }),
{
    let state = StateView {
        floor,
        direction,
        call_buttons,
        last_seen: now,
        is_obstructed,
        obstruction_duration: 0,
    };
    let informed = s.with_state(id, state);
    table::lemma_with_key(s.state_order, id);
    assert forall|x: Seq<char>| informed.states.dom().contains(x) implies cost::priceable(
        (#[trigger] informed.states[x]).call_buttons.len(),
        informed.states[x].is_obstructed,
    ) by {
        if x != id {
            assert(informed.states[x] == s.states[x]);
            assert(s.states.dom().contains(x));
        }
    }
    assert(informed.valid());
    let calls = informed.all_calls();
    assert forall|i: int| 0 <= i < calls.len() implies informed.hall_calls.dom().contains(
        ((#[trigger] calls[i]).0, calls[i].1),
    ) && informed.hall_calls[(calls[i].0, calls[i].1)].1 == calls[i].2 by {
        assert(informed.hall_order.contains(informed.hall_order[i]));
    }
    lemma_looking_again(informed, calls);
    if s.hall_calls.dom().contains(k) {
        assert(informed.hall_order.contains(k));
        let i = choose|i: int| 0 <= i < informed.hall_order.len() && informed.hall_order[i] == k;
        assert(calls[i].0 == k.0 && calls[i].1 == k.1);
        assert(faults::lists(calls, k));
    }
    let after = informed.assigned_all(calls);
    assert(after.hall_calls.dom().contains(k) == informed.hall_calls.dom().contains(k));
}

/// An elevator stays known just if its last word is not more than five seconds old, whatever else it
/// said; what is known of it stays as it was.
pub proof fn silent_elevators_are_forgotten(s: SystemView, now: u64, id: Seq<char>)
    requires
        s.valid(),
    ensures
        STATE_TIMEOUT == 5,
        ({
            let after = s.without_states(s.lost(now)).reassigned(s.lost(now));
            &&& after.states.dom().contains(id) <==> s.states.dom().contains(id) && now
                - s.states[id].last_seen <= STATE_TIMEOUT
            &&& after.states.dom().contains(id) ==> after.states[id] == s.states[id]
        }),
{
    let lost = s.lost(now);
    let rest = s.without_states(lost);
    faults::lemma_without_states(s, lost);
    faults::reassigning_is_turning_over(rest, lost);
    faults::turning_over_loses_no_call(rest, rest.timed_calls(rest.held_by(lost)));
    faults::lemma_filter(s.state_order, |x: Seq<char>| s.is_lost(x, now));
    assert(lost.to_set().contains(id) <==> lost.contains(id));
    assert(s.states.dom().contains(id) <==> s.state_order.contains(id));
}

/// No hall call stays with an elevator whose last word is more than five seconds old: it goes to the
/// local elevator or to one whose word is not. Every call keeps its time, and the calls of the others
/// stay with them.
pub proof fn silent_elevators_lose_their_calls(s: SystemView, now: u64, k: (u8, u8))
    requires
        s.valid(),
        s.hall_calls.dom().contains(k),
    ensures
        ({
            let after = s.without_states(s.lost(now)).reassigned(s.lost(now));
            let had = s.hall_calls[k].0;
            let has = after.hall_calls[k].0;
            &&& after.hall_calls.dom().contains(k)
            &&& after.hall_calls[k].1 == s.hall_calls[k].1
            &&& s.states.dom().contains(had) && now - s.states[had].last_seen > STATE_TIMEOUT ==> has
                == s.local_id || (s.states.dom().contains(has) && now - s.states[has].last_seen
                <= STATE_TIMEOUT)
            &&& !(s.states.dom().contains(had) && now - s.states[had].last_seen > STATE_TIMEOUT)
                ==> has == had
        }),
{
    let lost = s.lost(now);
    let had = s.hall_calls[k].0;
    let has = s.without_states(lost).reassigned(lost).hall_calls[k].0;
    faults::lost_elevators_keep_no_call(s, now, k);
    faults::lemma_filter(s.state_order, |x: Seq<char>| s.is_lost(x, now));
    assert(s.states.dom().contains(had) <==> s.state_order.contains(had));
    assert(s.states.dom().contains(has) <==> s.state_order.contains(has));
    assert(lost.contains(had) <==> s.state_order.contains(had) && s.is_lost(had, now));
    assert(lost.contains(has) <==> s.state_order.contains(has) && s.is_lost(has, now));
}

/// The calls of some elevators are those on record with one of them, each with its time and once;
/// all calls are those on record.
pub proof fn listed_calls_are_on_record(s: SystemView, ids: Seq<Seq<char>>, call: (u8, u8, u64))
    requires
        s.valid(),
    ensures
        ({
            let k = (call.0, call.1);
            let known = s.hall_calls.dom().contains(k) && s.hall_calls[k].1 == call.2;
            &&& s.timed_calls(s.held_by(ids)).contains(call) == (known && ids.contains(
                s.hall_calls[k].0,
            ))
            &&& events::own_calls(s).contains(call) == (known && s.hall_calls[k].0 == s.local_id)
            &&& s.all_calls().contains(call) == known
            &&& faults::listed_once(s.timed_calls(s.held_by(ids)))
            &&& faults::listed_once(events::own_calls(s))
            &&& faults::listed_once(s.all_calls())
        }),
{
    let own = seq![s.local_id];
    lemma_timed(s, s.held_by(ids), call);
    lemma_timed(s, s.held_by(own), call);
    lemma_timed(s, s.hall_order, call);
    faults::lemma_held_calls(s, ids);
    faults::lemma_held_calls(s, own);
    let k = (call.0, call.1);
    assert(own[0] == s.local_id);
    assert(own.contains(s.hall_calls[k].0) == (s.hall_calls[k].0 == s.local_id));
    assert(s.hall_calls.dom().contains(k) == s.hall_order.contains(k));
    assert(s.held_by(ids).contains(k) == (s.hall_order.contains(k) && ids.contains(
        s.hall_calls[k].0,
    )));
    assert(s.held_by(own).contains(k) == (s.hall_order.contains(k) && own.contains(
        s.hall_calls[k].0,
    )));
    let all = s.all_calls();
    assert forall|i: int, j: int| 0 <= i < j < all.len() implies (#[trigger] all[i]).0 != (
    #[trigger] all[j]).0 || all[i].1 != all[j].1 by {
        assert(s.hall_order[i] != s.hall_order[j]);
    }
}

/// A list of timed calls holds the calls at some places, each with its time on record.
proof fn lemma_timed(s: SystemView, keys: Seq<(u8, u8)>, call: (u8, u8, u64))
    ensures
        s.timed_calls(keys).contains(call) == (keys.contains((call.0, call.1)) && s.hall_calls[(
            call.0,
            call.1,
        )].1 == call.2),
{
    let k = (call.0, call.1);
    let calls = s.timed_calls(keys);
    if calls.contains(call) {
        let i = choose|i: int| 0 <= i < calls.len() && calls[i] == call;
        assert(keys[i] == k);
    }
    if keys.contains(k) && s.hall_calls[k].1 == call.2 {
        let i = choose|i: int| 0 <= i < keys.len() && keys[i] == k;
        assert(calls[i] == call);
    }
}

/// A message is taken in by its kind: word of a call, of a completion and of a state each have their
/// own effect, and a request to synchronise changes nothing. The sender becomes a peer first, at the
/// end of the list unless it is there.
pub proof fn messages_have_their_effects(
    s: SystemView,
    addr: Seq<char>,
    message: MessageView,
    now: u64,
)
    ensures
        match message {
            MessageView::HallCall { floor, direction, timestamp } => s.told(message, now)
                == s.told_of_call(floor, direction, timestamp) && s.told_actions(message, now)
                == s.told_of_call_actions(floor, direction, timestamp),
            MessageView::CompletedCall { floor, direction } => s.told(message, now)
                == s.told_of_completion(floor, direction) && s.told_actions(message, now)
                == s.told_of_completion_actions(floor, direction),
            MessageView::SyncRequest { .. } => s.told(message, now) == s && s.told_actions(
                message,
                now,
            ) == s.sync_actions(),
            MessageView::ElevatorState { id, floor, direction, call_buttons, is_obstructed } => {
                let informed = SystemView {
                    states: s.states.insert(
                        id,
                        StateView {
                            floor,
                            direction,
                            call_buttons,
                            last_seen: now,
                            is_obstructed,
                            obstruction_duration: 0,
                        },
                    ),
                    state_order: table::with_key(s.state_order, id),
                    ..s
                };
                &&& s.told(message, now) == informed.assigned_all(informed.all_calls())
                &&& s.told_actions(message, now) == informed.assign_all_actions(
                    informed.all_calls(),
                )
            },
        },
        s.with_sender(None) == s,
        s.peers.contains(addr) ==> s.with_sender(Some(addr)) == s,
        !s.peers.contains(addr) ==> s.with_sender(Some(addr)) == (SystemView {
            peers: s.peers.push(addr),
            ..s
        }),
        s.with_sender(Some(addr)) == s.with_peer(addr),
{
}

/// Whether more calls can be priced, and whether a message can be taken in, depends on the length of
/// the queue alone: an obstructed elevator has a fixed price, and the queue of another one may grow to
/// the longest that is priced, and one more.
pub proof fn what_can_be_taken_in(s: SystemView, n: nat, message: MessageView)
    ensures
        ({
            let room = s.elevator.is_obstructed || 5 * (s.elevator.call_buttons.len() + n - 1) + 2550
                + 30 <= i32::MAX;
            &&& s.room_for(n) == room
            &&& match message {
                MessageView::HallCall { floor, direction, timestamp } => s.can_take(message) == (
                s.room_for(1) || (s.hall_calls.dom().contains((floor, direction)) && s.hall_calls[(
                    floor,
                    direction,
                )].1 >= timestamp)),
                MessageView::ElevatorState { call_buttons, is_obstructed, .. } => s.can_take(message)
                    == (s.room_for(s.hall_order.len()) && (is_obstructed || 5 * call_buttons.len()
                    + 2550 + 30 <= i32::MAX)),
                _ => s.can_take(message),
            }
        }),
{
}

} // verus!
