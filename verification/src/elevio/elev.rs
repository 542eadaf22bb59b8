//! One elevator: where it is, where it is going, and the calls that wait for it.

use vstd::prelude::*;

verus! {

/// Kind of a hall call from passengers who want to go up.
pub const HALL_UP: u8 = 0;

/// Kind of a hall call from passengers who want to go down.
pub const HALL_DOWN: u8 = 1;

/// Kind of a call made inside the cab.
pub const CAB: u8 = 2;

/// Direction of an elevator that is going up.
pub const DIRN_UP: u8 = 1;

/// Direction of an elevator that is going down.
pub const DIRN_DOWN: u8 = 255;

/// Direction of an elevator that stands still.
pub const DIRN_STOP: u8 = 0;

/// Each queued call holds a floor and a kind, in this order.
pub struct Elevator {
    pub num_floors: u8,
    pub current_floor: u8,
    pub current_direction: u8,
    pub call_buttons: Vec<Vec<u8>>,
    /// Whether an obstruction holds the elevator with its door open.
    pub is_obstructed: bool,
    pub obstruction_start_time: Option<u64>,
    /// When the obstruction lever was set between floors, while it waits for the door to open.
    pub obstruction_waiting: Option<u64>,
}

/// An elevator as contracts speak of it.
pub struct ElevatorView {
    pub num_floors: u8,
    pub current_floor: u8,
    pub current_direction: u8,
    pub call_buttons: Seq<Seq<u8>>,
    /// Whether an obstruction holds the elevator with its door open.
    pub is_obstructed: bool,
    pub obstruction_start_time: Option<u64>,
    /// When the obstruction lever was set between floors, while it waits for the door to open.
    pub obstruction_waiting: Option<u64>,
}

/// The calls of a queue as contracts speak of them.
pub open spec fn calls_view(calls: Seq<Vec<u8>>) -> Seq<Seq<u8>> {
    Seq::new(calls.len(), |i: int| calls[i]@)
}

/// Whether every call of a queue holds a floor and a kind.
pub open spec fn calls_complete(calls: Seq<Seq<u8>>) -> bool {
    forall|i: int| 0 <= i < calls.len() ==> (#[trigger] calls[i]).len() >= 2
}

/// Whether every call of a queue holds a floor.
pub open spec fn calls_have_floors(calls: Seq<Seq<u8>>) -> bool {
    forall|i: int| 0 <= i < calls.len() ==> (#[trigger] calls[i]).len() >= 1
}

impl View for Elevator {
    type V = ElevatorView;

    open spec fn view(&self) -> ElevatorView {
        ElevatorView {
            num_floors: self.num_floors,
            current_floor: self.current_floor,
            current_direction: self.current_direction,
            call_buttons: calls_view(self.call_buttons@),
            is_obstructed: self.is_obstructed,
            obstruction_start_time: self.obstruction_start_time,
            obstruction_waiting: self.obstruction_waiting,
        }
    }
}

impl ElevatorView {
    /// Every queued call holds a floor and a kind.
    pub open spec fn valid(self) -> bool {
        calls_complete(self.call_buttons)
    }
}

/// Whether `i` is the first place of `s` at which `test` holds.
pub open spec fn is_first<T>(s: Seq<T>, test: spec_fn(T) -> bool, i: int) -> bool {
    &&& 0 <= i < s.len()
    &&& test(s[i])
    &&& forall|j: int| 0 <= j < i ==> !test(#[trigger] s[j])
}

/// The first place of `s` at which `test` holds, if there is one.
pub open spec fn first_index<T>(s: Seq<T>, test: spec_fn(T) -> bool) -> Option<int> {
    if exists|i: int| is_first(s, test, i) {
        Some(choose|i: int| is_first(s, test, i))
    } else {
        None
    }
}

/// A place at which `test` holds has a first such place at or before it.
pub proof fn lemma_first_exists<T>(s: Seq<T>, test: spec_fn(T) -> bool, i: int)
    requires
        0 <= i < s.len(),
        test(s[i]),
    ensures
        exists|k: int| is_first(s, test, k),
    decreases i,
{
    if forall|j: int| 0 <= j < i ==> !test(#[trigger] s[j]) {
        assert(is_first(s, test, i));
    } else {
        let j = choose|j: int| 0 <= j < i && test(#[trigger] s[j]);
        lemma_first_exists(s, test, j);
    }
}

/// What `first_index` gives: the first place at which `test` holds, or nothing if it holds nowhere.
pub proof fn first_index_meaning<T>(s: Seq<T>, test: spec_fn(T) -> bool)
    ensures
        match first_index(s, test) {
            Some(i) => is_first(s, test, i),
            None => forall|i: int| 0 <= i < s.len() ==> !test(#[trigger] s[i]),
        },
{
    if first_index(s, test) is None {
        assert forall|i: int| 0 <= i < s.len() implies !test(#[trigger] s[i]) by {
            if test(s[i]) {
                lemma_first_exists(s, test, i);
            }
        }
    }
}

/// The first place of `calls` at which `test` holds; `meaning` is what `test` computes.
pub(crate) fn position<F: Fn(&Vec<u8>) -> bool>(
    calls: &Vec<Vec<u8>>,
    test: F,
    Ghost(meaning): Ghost<spec_fn(Seq<u8>) -> bool>,
) -> (r: Option<usize>)
    requires
        forall|i: int|
            0 <= i < calls@.len() ==> #[trigger] test.requires((&calls@[i],)),
        forall|i: int, b: bool|
            0 <= i < calls@.len() && #[trigger] test.ensures((&calls@[i],), b) ==> b == meaning(
                calls@[i]@,
            ),
    ensures
        match r {
            Some(i) => i < calls@.len() && first_index(calls_view(calls@), meaning) == Some(
                i as int,
            ),
            None => first_index(calls_view(calls@), meaning) is None,
        },
{
    let ghost view = calls_view(calls@);
    let mut i: usize = 0;
    while i < calls.len()
        invariant
            i <= calls@.len(),
            view == calls_view(calls@),
            forall|j: int| 0 <= j < calls@.len() ==> #[trigger] test.requires((&calls@[j],)),
            forall|j: int, b: bool|
                0 <= j < calls@.len() && #[trigger] test.ensures((&calls@[j],), b) ==> b == meaning(
                    calls@[j]@,
                ),
            forall|j: int| 0 <= j < i ==> !meaning(#[trigger] view[j]),
        decreases calls@.len() - i,
    {
        if test(&calls[i]) {
            assert(is_first(view, meaning, i as int));
            return Some(i);
        }
        i += 1;
    }
    None
}

/// A copy of a list of calls.
pub fn copy_calls(calls: &Vec<Vec<u8>>) -> (r: Vec<Vec<u8>>)
    ensures
        calls_view(r@) == calls_view(calls@),
{
    let mut r: Vec<Vec<u8>> = Vec::new();
    let mut i: usize = 0;
    while i < calls.len()
        invariant
            i <= calls@.len(),
            r@.len() == i,
            forall|j: int| 0 <= j < i ==> (#[trigger] r@[j])@ == calls@[j]@,
        decreases calls@.len() - i,
    {
        let call = calls[i].clone();
        assert(call@ =~= calls@[i as int]@);
        r.push(call);
        i += 1;
    }
    assert(calls_view(r@) =~= calls_view(calls@));
    r
}

impl Clone for Elevator {
    fn clone(&self) -> (r: Self)
        ensures
            r@ == self@,
    {
        Elevator {
            num_floors: self.num_floors,
            current_floor: self.current_floor,
            current_direction: self.current_direction,
            call_buttons: copy_calls(&self.call_buttons),
            is_obstructed: self.is_obstructed,
            obstruction_start_time: self.obstruction_start_time,
            obstruction_waiting: self.obstruction_waiting,
        }
    }
}

} // verus!
