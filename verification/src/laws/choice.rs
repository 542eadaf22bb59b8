//! Who serves a hall call, told by what is known of each elevator.

use vstd::prelude::*;

use crate::elevio::cost;
use crate::elevio::system;
use crate::elevio::system::{Bid, SystemView};
use crate::laws::assignment;
use crate::laws::serving;
use crate::table;
use crate::text;

verus! {

/// The price of a call at the local elevator, as it stands.
pub open spec fn local_price(s: SystemView, floor: u8, direction: u8) -> int {
    cost::call_cost(
        s.elevator.current_floor,
        s.elevator.current_direction,
        s.elevator.call_buttons.len() as usize,
        floor,
        direction,
        s.elevator.is_obstructed,
    )
}

/// The price of a call at another elevator, as it was last heard of.
pub open spec fn known_price(s: SystemView, id: Seq<char>, floor: u8, direction: u8) -> int {
    cost::call_cost(
        s.states[id].floor,
        s.states[id].direction,
        s.states[id].call_buttons.len() as usize,
        floor,
        direction,
        s.states[id].is_obstructed,
    )
}

/// Whether one offer is to be preferred to another: it costs less, or as much and has the same or
/// an earlier name.
pub open spec fn no_worse(price: int, id: Seq<char>, other_price: int, other_id: Seq<char>) -> bool {
    price < other_price || (price == other_price && (id == other_id || text::text_less(
        id,
        other_id,
    )))
}

/// Whether an offer is to be preferred to that of every elevator.
pub open spec fn best_of_all(s: SystemView, floor: u8, direction: u8, price: int, id: Seq<char>) -> bool {
    &&& no_worse(price, id, local_price(s, floor, direction), s.local_id)
    &&& forall|other: Seq<char>| #[trigger]
        s.states.dom().contains(other) ==> no_worse(
            price,
            id,
            known_price(s, other, floor, direction),
            other,
        )
}

/// A call goes to an elevator for which no known elevator has a lower price, each priced at its real
/// floor, direction, queue and obstruction; of equal prices the earliest name counts.
pub proof fn chosen_asks_least(s: SystemView, floor: u8, direction: u8)
    requires
        s.valid(),
    ensures
        ({
            let id = s.chosen(floor, direction);
            ||| id == s.local_id && best_of_all(
                s,
                floor,
                direction,
                local_price(s, floor, direction),
                id,
            )
            ||| s.states.dom().contains(id) && best_of_all(
                s,
                floor,
                direction,
                known_price(s, id, floor, direction),
                id,
            )
        }),
{
    let bids = s.bids(floor, direction);
    let best = system::best_bid(bids);
    assignment::best_bid_is_best(bids);
    assignment::lemma_bids(s, floor, direction, best);
    let local = s.local_bid(floor, direction);
    assert(bids[0] == local);
    assert(!system::beats(bids[0], best));
    lemma_no_worse(best, local);
    assert forall|other: Seq<char>| #[trigger] s.states.dom().contains(other) implies no_worse(
        best.cost,
        best.id,
        known_price(s, other, floor, direction),
        other,
    ) by {
        let bid = s.bid_of(other, floor, direction);
        assignment::lemma_bids(s, floor, direction, bid);
        let i = choose|i: int| 0 <= i < bids.len() && bids[i] == bid;
        assert(!system::beats(bids[i], best));
        lemma_no_worse(best, bid);
    }
    assert(best_of_all(s, floor, direction, best.cost, best.id));
}

/// A bid that another one does not beat is no worse.
proof fn lemma_no_worse(a: Bid, b: Bid)
    requires
        !system::beats(b, a),
    ensures
        no_worse(a.cost, a.id, b.cost, b.id),
{
    if a.cost == b.cost && a.id != b.id {
        text::text_less_total(a.id, b.id);
    }
}

/// Of two free elevators at the same floor with the same direction, the one with more calls waiting
/// is not chosen.
pub proof fn longer_queue_is_not_chosen(
    s: SystemView,
    floor: u8,
    direction: u8,
    short: Seq<char>,
    long: Seq<char>,
)
    requires
        s.valid(),
        s.states.dom().contains(short),
        s.states.dom().contains(long),
        s.states[short].floor == s.states[long].floor,
        s.states[short].direction == s.states[long].direction,
        !s.states[short].is_obstructed,
        !s.states[long].is_obstructed,
        s.states[short].call_buttons.len() < s.states[long].call_buttons.len(),
        long != s.local_id,
    ensures
        s.chosen(floor, direction) != long,
{
    chosen_asks_least(s, floor, direction);
    assert(cost::priceable(s.states[long].call_buttons.len(), false));
    if s.chosen(floor, direction) == long {
        assert(known_price(s, short, floor, direction) < known_price(s, long, floor, direction));
    }
}

/// A free local elevator with fewer calls waiting is preferred to another free one at the same floor
/// with the same direction, and the other way round.
pub proof fn longer_queue_loses_to_the_local_one(
    s: SystemView,
    floor: u8,
    direction: u8,
    id: Seq<char>,
)
    requires
        s.valid(),
        s.states.dom().contains(id),
        id != s.local_id,
        !s.states.dom().contains(s.local_id),
        s.states[id].floor == s.elevator.current_floor,
        s.states[id].direction == s.elevator.current_direction,
        !s.states[id].is_obstructed,
        !s.elevator.is_obstructed,
        s.elevator.call_buttons.len() < i32::MAX,
    ensures
        s.elevator.call_buttons.len() < s.states[id].call_buttons.len() ==> s.chosen(
            floor,
            direction,
        ) != id,
        s.elevator.call_buttons.len() > s.states[id].call_buttons.len() ==> s.chosen(
            floor,
            direction,
        ) != s.local_id,
{
    chosen_asks_least(s, floor, direction);
    assert(cost::priceable(s.states[id].call_buttons.len(), false));
}

/// The elevator that takes a call in place of the local one has the lowest price of all others; of
/// equal prices the earliest name counts. There is one just if another elevator is known.
pub proof fn chosen_other_asks_least(s: SystemView, floor: u8, direction: u8)
    requires
        s.valid(),
    ensures
        match s.chosen_other(floor, direction) {
            Some(id) => id != s.local_id && s.states.dom().contains(id) && forall|other: Seq<char>|
                #[trigger] s.states.dom().contains(other) && other != s.local_id ==> no_worse(
                    known_price(s, id, floor, direction),
                    id,
                    known_price(s, other, floor, direction),
                    other,
                ),
            None => forall|other: Seq<char>| #[trigger]
                s.states.dom().contains(other) ==> other == s.local_id,
        },
{
    serving::chosen_other_is_known(s, floor, direction);
    let others = s.others();
    table::lemma_without_key_contains(s.state_order, s.local_id);
    if others.len() > 0 {
        let bids = s.bids_of(others, floor, direction);
        let best = system::best_bid(bids);
        assignment::best_bid_is_best(bids);
        let i = choose|i: int| 0 <= i < bids.len() && bids[i] == best;
        assert(best == s.bid_of(others[i], floor, direction));
        assert forall|other: Seq<char>| #[trigger]
            s.states.dom().contains(other) && other != s.local_id implies no_worse(
            known_price(s, best.id, floor, direction),
            best.id,
            known_price(s, other, floor, direction),
            other,
        ) by {
            assert(s.state_order.contains(other));
            assert(others.contains(other));
            let j = choose|j: int| 0 <= j < others.len() && others[j] == other;
            assert(bids[j] == s.bid_of(other, floor, direction));
            assert(!system::beats(bids[j], best));
            lemma_no_worse(best, bids[j]);
        }
    }
}

/// Of two names that are the same up to some place, the one with the smaller character there comes
/// first; a name comes before every longer one that it begins.
pub proof fn first_difference_decides(a: Seq<char>, b: Seq<char>, i: int)
    requires
        0 <= i <= a.len(),
        i <= b.len(),
        forall|j: int| 0 <= j < i ==> a[j] == b[j],
    ensures
        i < a.len() && i < b.len() && a[i] < b[i] ==> text::text_less(a, b) && !text::text_less(
            b,
            a,
        ),
        i == a.len() && i < b.len() ==> text::text_less(a, b) && !text::text_less(b, a),
    decreases i,
{
    if i > 0 {
        first_difference_decides(a.skip(1), b.skip(1), i - 1);
    }
}

} // verus!
