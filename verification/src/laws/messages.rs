//! What elevators learn from each other.

use vstd::prelude::*;
use vstd::utf8;

use crate::action::ActionView;
use crate::elevio::cost;
use crate::elevio::cost::MessageView;
use crate::elevio::system;
use crate::elevio::system::SystemView;
use crate::events;
use crate::laws::assignment;
use crate::laws::faults;
use crate::network::p2p_connect::NetworkView;
use crate::startup;
use crate::table;
use crate::text;

verus! {

/// What the message that comes as the bytes of its text says is what the reader takes in.
pub proof fn message_survives_the_wire(message: MessageView)
    requires
        cost::readable(message),
    ensures
        cost::message_in(
            events::received_text(utf8::encode_utf8(cost::message_text(message))),
        ) == Some(cost::as_received(message)),
{
    let t = cost::message_text(message);
    utf8::encode_utf8_valid_utf8(t);
    utf8::encode_utf8_decode_utf8(t);
    cost::message_round_trip(message);
}

/// A message to all peers goes to each peer once.
pub proof fn broadcast_reaches_each_peer_once(s: SystemView, message: MessageView)
    requires
        s.valid(),
    ensures
        s.broadcast(message).len() == s.peers.len(),
        forall|i: int|
            0 <= i < s.peers.len() ==> #[trigger] s.broadcast(message)[i] == (ActionView::Send {
                addr: s.peers[i],
                message: cost::message_text(message),
            }),
        s.broadcast(message).no_duplicates(),
{
    let actions = s.broadcast(message);
    assert forall|i: int, j: int| 0 <= i < actions.len() && 0 <= j < actions.len() && i
        != j implies actions[i] != actions[j] by {
        assert(s.peers[i] != s.peers[j]);
    }
}

/// Any text for all peers goes to each peer in turn, as it is.
pub proof fn text_goes_to_every_peer(peers: Seq<Seq<char>>, message: Seq<char>)
    ensures
        system::sends(peers, message).len() == peers.len(),
        forall|i: int|
            0 <= i < peers.len() ==> #[trigger] system::sends(peers, message)[i] == (
            ActionView::Send { addr: peers[i], message }),
{
}

/// The sender of a message becomes a peer, and no peer is listed twice.
pub proof fn sender_becomes_a_peer(s: SystemView, addr: Seq<char>)
    requires
        s.valid(),
    ensures
        s.with_sender(Some(addr)).peers.contains(addr),
        s.with_sender(Some(addr)).peers.no_duplicates(),
        s.with_sender(Some(addr)).with_sender(Some(addr)) == s.with_sender(Some(addr)),
        s.with_sender(None) == s,
{
    table::lemma_with_key(s.peers, addr);
}

/// Assigning calls leaves what is known of the other elevators.
proof fn lemma_assigned_all_states(s: SystemView, calls: Seq<(u8, u8, u64)>)
    ensures
        s.assigned_all(calls).states == s.states,
        s.assigned_all(calls).local_id == s.local_id,
    decreases calls.len(),
{
    if calls.len() > 0 {
        lemma_assigned_all_states(s, calls.drop_last());
    }
}

/// An elevator that hears the state of another one knows where the other stands.
pub proof fn told_state_is_known(speaker: SystemView, hearer: SystemView, now: u64)
    requires
        speaker.elevator.valid(),
        !speaker.local_id.contains('|'),
    ensures
        ({
            let word = cost::message_in(cost::message_text(speaker.state_message()));
            &&& word is Some
            &&& hearer.told(word->0, now).states.dom().contains(speaker.local_id)
            &&& assignment::same_standing(
                hearer.told(word->0, now).states[speaker.local_id],
                speaker.elevator,
            )
            &&& hearer.told(word->0, now).states[speaker.local_id].last_seen == now
        }),
{
    let message = speaker.state_message();
    cost::message_round_trip(message);
    let heard = cost::as_received(message);
    match heard {
        MessageView::ElevatorState { id, floor, direction, call_buttons, is_obstructed } => {
            let informed = hearer.with_state(
                id,
                system::fresh_state(floor, direction, call_buttons, is_obstructed, now),
            );
            lemma_assigned_all_states(informed, informed.all_calls());
        },
        _ => {},
    }
}

/// A hall call that one elevator tells of is on record with every elevator that hears of it, at its
/// time or a later one; an elevator to which it is news gives it to the elevator that serves it
/// best.
pub proof fn told_call_is_on_record(hearer: SystemView, floor: u8, direction: u8, timestamp: u64, now: u64)
    requires
        hearer.valid(),
    ensures
        ({
            let word = cost::message_in(
                cost::message_text(system::hall_call_message((floor, direction, timestamp))),
            );
            let k = (floor, direction);
            let opened = hearer.with_open_call(floor, direction, timestamp);
            &&& word is Some
            &&& hearer.told(word->0, now).hall_calls.dom().contains(k)
            &&& hearer.told(word->0, now).hall_calls[k].1 >= timestamp
            &&& hearer.is_news(floor, direction, timestamp) ==> hearer.told(
                word->0,
                now,
            ).hall_calls[k].0 == opened.chosen(floor, direction)
        }),
{
    cost::message_round_trip(system::hall_call_message((floor, direction, timestamp)));
    assignment::newest_call_counts(hearer, floor, direction, timestamp);
    let opened = hearer.with_open_call(floor, direction, timestamp);
    assert(opened.hall_calls[(floor, direction)].0.len() == 0);
}

/// A hall call that one elevator tells to be served is off the record with every elevator that
/// hears of it.
pub proof fn told_completion_is_off_record(hearer: SystemView, floor: u8, direction: u8, now: u64)
    ensures
        ({
            let word = cost::message_in(
                cost::message_text(MessageView::CompletedCall { floor, direction }),
            );
            &&& word is Some
            &&& !hearer.told(word->0, now).hall_calls.dom().contains((floor, direction))
        }),
{
    cost::message_round_trip(MessageView::CompletedCall { floor, direction });
}

/// What one item gives is part of what all items give.
proof fn lemma_flat_map_contains<A, B>(s: Seq<A>, f: spec_fn(A) -> Seq<B>, i: int, x: B)
    requires
        0 <= i < s.len(),
        f(s[i]).contains(x),
    ensures
        s.flat_map(f).contains(x),
    decreases s.len(),
{
    let n = s.len() - 1;
    s.lemma_flat_map_take_append(f, n);
    assert(s.take(n + 1) =~= s);
    let front = s.take(n).flat_map(f);
    if i == n {
        let given = f(s[i]);
        let j = choose|j: int| 0 <= j < given.len() && given[j] == x;
        assert(s.flat_map(f)[front.len() + j] == x);
    } else {
        lemma_flat_map_contains(s.take(n), f, i, x);
        let j = choose|j: int| 0 <= j < front.len() && front[j] == x;
        assert(s.flat_map(f)[j] == x);
    }
}

/// What all items give comes from one of them.
pub proof fn lemma_flat_map_source<A, B>(s: Seq<A>, f: spec_fn(A) -> Seq<B>, x: B) -> (i: int)
    requires
        s.flat_map(f).contains(x),
    ensures
        0 <= i < s.len(),
        f(s[i]).contains(x),
    decreases s.len(),
{
    if s.len() == 0 {
        assert(s.map_values(f) =~= Seq::<Seq<B>>::empty());
        0
    } else {
        let n = s.len() - 1;
        s.lemma_flat_map_take_append(f, n);
        assert(s.take(n + 1) =~= s);
        let whole = s.flat_map(f);
        let front = s.take(n).flat_map(f);
        let given = f(s[n]);
        let j = choose|j: int| 0 <= j < whole.len() && whole[j] == x;
        if j < front.len() {
            assert(front[j] == x);
            lemma_flat_map_source(s.take(n), f, x)
        } else {
            assert(given[j - front.len()] == x);
            n
        }
    }
}

/// A request to synchronise is answered with every hall call on record, to every peer.
pub proof fn sync_tells_every_call_to_every_peer(s: SystemView, k: (u8, u8), i: int)
    requires
        s.valid(),
        s.hall_calls.dom().contains(k),
        0 <= i < s.peers.len(),
    ensures
        s.sync_actions().contains(
            ActionView::Send {
                addr: s.peers[i],
                message: cost::message_text(
                    system::hall_call_message((k.0, k.1, s.hall_calls[k].1)),
                ),
            },
        ),
{
    let call = s.timed(k);
    let tell = |call: (u8, u8, u64)| s.broadcast(system::hall_call_message(call));
    let x = ActionView::Send {
        addr: s.peers[i],
        message: cost::message_text(system::hall_call_message(call)),
    };
    assert(s.hall_order.contains(k));
    let j = choose|j: int| 0 <= j < s.hall_order.len() && s.hall_order[j] == k;
    assert(s.all_calls()[j] == call);
    assert(tell(call)[i] == x);
    lemma_flat_map_contains(s.all_calls(), tell, j, x);
}

/// A request to synchronise reaches its reader, and is answered.
pub proof fn sync_request_is_answered(s: SystemView, id: Seq<char>, now: u64)
    requires
        !id.contains('|'),
    ensures
        ({
            let word = cost::message_in(cost::message_text(MessageView::SyncRequest { id }));
            &&& word == Some(MessageView::SyncRequest { id })
            &&& s.told_actions(word->0, now) == s.sync_actions()
            &&& s.told(word->0, now) == s
        }),
{
    cost::message_round_trip(MessageView::SyncRequest { id });
}

/// The addresses of two elevators differ.
proof fn lemma_addresses_differ(i: int, j: int)
    requires
        0 <= i,
        0 <= j,
        startup::peer_address(i) == startup::peer_address(j),
    ensures
        i == j,
{
    let host = "localhost:"@;
    let a = text::decimal((startup::FIRST_MESSAGE_PORT + i) as nat);
    let b = text::decimal((startup::FIRST_MESSAGE_PORT + j) as nat);
    assert((host + a).skip(host.len() as int) =~= a);
    assert((host + b).skip(host.len() as int) =~= b);
    text::numeral_injective(
        (startup::FIRST_MESSAGE_PORT + i) as nat,
        (startup::FIRST_MESSAGE_PORT + j) as nat,
    );
}

/// An elevator looks for all other elevators, and not for itself.
pub proof fn elevator_looks_for_all_others(own: int, i: int)
    requires
        0 <= own,
        0 <= i < startup::NUM_ELEVATORS,
    ensures
        startup::other_addresses(own).contains(startup::peer_address(i)) == (i != own),
        !startup::other_addresses(own).contains(startup::peer_address(own)),
{
    let all = Seq::new(startup::NUM_ELEVATORS as nat, |i: int| i);
    let numbers = startup::others(own);
    let addresses = startup::other_addresses(own);
    faults::lemma_filter(all, startup::other_than(own));
    assert(all[i] == i);
    if i != own {
        assert(numbers.contains(i));
        let k = choose|k: int| 0 <= k < numbers.len() && numbers[k] == i;
        assert(addresses[k] == startup::peer_address(i));
    }
    if addresses.contains(startup::peer_address(own)) {
        let k = choose|k: int| 0 <= k < addresses.len() && addresses[k] == startup::peer_address(own);
        assert(numbers.contains(numbers[k]));
        lemma_addresses_differ(numbers[k], own);
    }
}

/// A peer that could not be written to is not written to again until it connects anew; the other
/// peers are reached as before.
pub proof fn failed_peer_is_forgotten(network: NetworkView, addr: Seq<char>, other: Seq<char>)
    requires
        network.valid(),
        other != addr,
    ensures
        !network.without(addr).streams.dom().contains(addr),
        network.without(addr).streams.dom().contains(other) == network.streams.dom().contains(
            other,
        ),
        network.streams.dom().contains(other) ==> network.without(addr).streams[other]
            == network.streams[other],
{
}

} // verus!
