//! Which elevators are alive, and the state that an elevator saves to recover after a restart.

use vstd::prelude::*;
use vstd::string::*;

use crate::action;
use crate::action::{Action, ActionView};
use crate::elevio::cost;
use crate::elevio::elev;
use crate::elevio::elev::{Elevator, ElevatorView};
use crate::elevio::system::ElevatorSystem;
use crate::table;
use crate::table::Table;
use crate::text;

verus! {

/// The name of the file that holds the saved state of an elevator.
pub open spec fn state_file(id: Seq<char>) -> Seq<char> {
    "elevator_"@ + id + "_state.txt"@
}

/// The calls of a queue that can be saved: those that hold a floor and a kind.
pub open spec fn savable(calls: Seq<Seq<u8>>) -> Seq<Seq<u8>> {
    calls.filter(|call: Seq<u8>| call.len() >= 2)
}

/// The lines of a saved state: the floor, the direction, then one line for each call.
pub open spec fn saved_lines(floor: u8, direction: u8, calls: Seq<Seq<u8>>) -> Seq<Seq<char>> {
    seq![text::decimal(floor as nat), text::decimal(direction as nat)] + cost::call_texts(
        savable(calls),
    )
}

/// The call that a line of a saved state writes: at least two numbers, of which the first two
/// count.
pub open spec fn saved_call(line: Seq<char>) -> Option<Seq<u8>> {
    let parts = text::fields(line, ',');
    if parts.len() >= 2 {
        cost::call_of(parts[0], parts[1])
    } else {
        None
    }
}

/// The byte that a line writes, or zero if it writes none.
pub open spec fn byte_or_zero(line: Seq<char>) -> u8 {
    match cost::byte_value(line) {
        Some(v) => v,
        None => 0,
    }
}

/// The floor, the direction and the calls in the lines of a saved state. Lines that write no call
/// are passed over.
pub open spec fn saved_state(lines: Seq<Seq<char>>) -> Option<(u8, u8, Seq<Seq<u8>>)> {
    if lines.len() >= 2 {
        Some(
            (
                byte_or_zero(lines[0]),
                byte_or_zero(lines[1]),
                lines.skip(2).filter_map(|line: Seq<char>| saved_call(line)),
            ),
        )
    } else {
        None
    }
}

/// The name of the file that holds the saved state of an elevator.
pub fn state_file_name(elevator_id: &str) -> (r: String)
    ensures
        r@ == state_file(elevator_id@),
{
    let mut r = "elevator_".to_string();
    r.append(elevator_id);
    r.append("_state.txt");
    r
}

/// The lines to be saved for an elevator.
pub fn state_lines(current_floor: u8, current_direction: u8, call_buttons: &Vec<Vec<u8>>) -> (r: Vec<
    String,
>)
    ensures
        text::string_views(r@) == saved_lines(
            current_floor,
            current_direction,
            elev::calls_view(call_buttons@),
        ),
{
    let ghost view = elev::calls_view(call_buttons@);
    let ghost keep = |call: Seq<u8>| call.len() >= 2;
    let mut lines: Vec<String> = Vec::new();
    lines.push(text::decimal_text(current_floor as u64));
    lines.push(text::decimal_text(current_direction as u64));
    let mut i: usize = 0;
    let ghost head = seq![
        text::decimal(current_floor as nat),
        text::decimal(current_direction as nat),
    ];
    proof {
        assert(savable(view.take(0)) =~= Seq::<Seq<u8>>::empty()) by {
            reveal(Seq::filter);
        }
        assert(text::string_views(lines@) =~= head + cost::call_texts(savable(view.take(0))));
    }
    while i < call_buttons.len()
        invariant
            i <= call_buttons@.len(),
            view == elev::calls_view(call_buttons@),
            keep == (|call: Seq<u8>| call.len() >= 2),
            text::string_views(lines@) == head + cost::call_texts(savable(view.take(i as int))),
        decreases call_buttons@.len() - i,
    {
        let call = &call_buttons[i];
        let ghost before = lines@;
        let ghost kept = savable(view.take(i as int));
        proof {
            assert(view.take(i + 1) =~= view.take(i as int).push(view[i as int]));
            view.take(i as int).lemma_filter_push(view[i as int], keep);
        }
        if call.len() >= 2 {
            lines.push(cost::call_to_text(call));
            assert(cost::call_texts(kept.push(call@)) =~= cost::call_texts(kept).push(
                cost::call_text(call@),
            ));
            assert(text::string_views(lines@) =~= text::string_views(before).push(
                cost::call_text(call@),
            ));
            assert(text::string_views(lines@) =~= head + cost::call_texts(kept.push(call@)));
        }
        i += 1;
    }
    assert(view.take(i as int) =~= view);
    lines
}

/// Reads a saved state back from its lines.
pub fn parse_state_lines(lines: &Vec<String>) -> (r: Option<(u8, u8, Vec<Vec<u8>>)>)
    ensures
        match r {
            Some((floor, direction, calls)) => saved_state(text::string_views(lines@)) == Some(
                (floor, direction, elev::calls_view(calls@)),
            ) && elev::calls_complete(elev::calls_view(calls@)),
            None => saved_state(text::string_views(lines@)) is None,
        },
{
    let ghost views = text::string_views(lines@);
    if lines.len() < 2 {
        return None;
    }
    let current_floor: u8 = match cost::parse_byte(lines[0].as_str()) {
        Some(v) => v,
        None => 0,
    };
    let current_direction: u8 = match cost::parse_byte(lines[1].as_str()) {
        Some(v) => v,
        None => 0,
    };
    let ghost rest = views.skip(2);
    let ghost read = |line: Seq<char>| saved_call(line);
    let mut calls: Vec<Vec<u8>> = Vec::new();
    let mut i: usize = 2;
    proof {
        assert(rest.take(0) =~= Seq::<Seq<char>>::empty());
        assert(elev::calls_view(calls@) =~= rest.take(0).filter_map(read));
    }
    while i < lines.len()
        invariant
            2 <= i <= lines@.len(),
            views == text::string_views(lines@),
            rest == views.skip(2),
            read == (|line: Seq<char>| saved_call(line)),
            elev::calls_view(calls@) == rest.take(i - 2).filter_map(read),
            elev::calls_complete(elev::calls_view(calls@)),
        decreases lines@.len() - i,
    {
        let parts = text::split(lines[i].as_str(), ',');
        let ghost before = calls@;
        proof {
            rest.lemma_filter_map_take_succ(read, i - 2);
            assert(text::fields(rest[i - 2], ',') == text::str_views(parts@));
        }
        if parts.len() >= 2 {
            match (cost::parse_byte(parts[0]), cost::parse_byte(parts[1])) {
                (Some(floor), Some(direction)) => {
                    let call: Vec<u8> = vec![floor, direction];
                    assert(call@ =~= seq![floor, direction]);
                    calls.push(call);
                    assert(elev::calls_view(calls@) =~= elev::calls_view(before) + seq![
                        seq![floor, direction],
                    ]);
                },
                _ => {},
            }
        }
        assert(elev::calls_view(calls@) =~= rest.take(i - 1).filter_map(read));
        i += 1;
    }
    assert(rest.take(i - 2) =~= rest);
    Some((current_floor, current_direction, calls))
}

/// The action that saves the state of an elevator.
pub open spec fn save_action(id: Seq<char>, elevator: ElevatorView) -> ActionView {
    ActionView::SaveState {
        file_name: state_file(id),
        lines: saved_lines(
            elevator.current_floor,
            elevator.current_direction,
            elevator.call_buttons,
        ),
    }
}

/// Saves the state of an elevator.
pub fn save_state(elevator_id: &str, elevator: &Elevator) -> (r: Action)
    ensures
        r@ == save_action(elevator_id@, elevator@),
{
    Action::SaveState {
        file_name: state_file_name(elevator_id),
        lines: state_lines(
            elevator.current_floor,
            elevator.current_direction,
            &elevator.call_buttons,
        ),
    }
}

/// Reading lines that all write a call gives those calls.
proof fn lemma_read_all(lines: Seq<Seq<char>>, calls: Seq<Seq<u8>>)
    requires
        lines.len() == calls.len(),
        forall|i: int| 0 <= i < lines.len() ==> saved_call(#[trigger] lines[i]) == Some(calls[i]),
    ensures
        lines.filter_map(|line: Seq<char>| saved_call(line)) == calls,
    decreases lines.len(),
{
    reveal(Seq::filter_map);
    let read = |line: Seq<char>| saved_call(line);
    if lines.len() > 0 {
        lemma_read_all(lines.drop_last(), calls.drop_last());
        assert(lines.last() == lines[lines.len() - 1]);
    }
    assert(lines.filter_map(read) =~= calls);
}

/// A saved state reads back as it was: the floor, the direction, and each call that holds a floor
/// and a kind.
pub proof fn saved_state_round_trip(floor: u8, direction: u8, calls: Seq<Seq<u8>>)
    ensures
        saved_state(saved_lines(floor, direction, calls)) == Some(
            (floor, direction, cost::trimmed_calls(savable(calls))),
        ),
        cost::calls_exact(calls) ==> cost::trimmed_calls(savable(calls)) == calls,
{
    let kept = savable(calls);
    let lines = saved_lines(floor, direction, calls);
    let keep = |call: Seq<u8>| call.len() >= 2;
    text::numeral_round_trip(floor as nat, 255);
    text::numeral_round_trip(direction as nat, 255);
    assert(lines.skip(2) =~= cost::call_texts(kept));
    assert forall|i: int| 0 <= i < kept.len() implies saved_call(
        #[trigger] cost::call_texts(kept)[i],
    ) == Some(cost::trimmed_calls(kept)[i]) by {
        calls.lemma_filter_pred(keep, i);
        cost::lemma_call_text(kept[i]);
        text::numeral_round_trip(kept[i][0] as nat, 255);
        text::numeral_round_trip(kept[i][1] as nat, 255);
    }
    lemma_read_all(cost::call_texts(kept), cost::trimmed_calls(kept));
    if cost::calls_exact(calls) {
        lemma_savable_all(calls);
        assert forall|i: int| 0 <= i < calls.len() implies cost::trimmed_calls(calls)[i]
            == #[trigger] calls[i] by {
            assert(cost::trimmed(calls[i]) =~= calls[i]);
        }
        assert(cost::trimmed_calls(calls) =~= calls);
    }
}

/// Every call of a complete queue can be saved.
pub proof fn lemma_savable_all(calls: Seq<Seq<u8>>)
    requires
        elev::calls_complete(calls),
    ensures
        savable(calls) == calls,
    decreases calls.len(),
{
    reveal(Seq::filter);
    if calls.len() > 0 {
        assert(calls.last() == calls[calls.len() - 1]);
        assert forall|i: int| 0 <= i < calls.drop_last().len() implies (
        #[trigger] calls.drop_last()[i]).len() >= 2 by {
            assert(calls.drop_last()[i] == calls[i]);
        }
        lemma_savable_all(calls.drop_last());
        assert(calls.drop_last().push(calls.last()) =~= calls);
    } else {
        assert(savable(calls) =~= calls);
    }
}

/// How long an elevator may be silent before it counts as disconnected, in nanoseconds.
pub const ELEVATOR_TIMEOUT: u64 = 5_000_000_000;

/// How long the health monitor rests between two checks, in milliseconds.
pub const HEARTBEAT_INTERVAL: u64 = 500;

/// Keeps track of which elevators have been heard of, and when. Times are in nanoseconds since
/// some fixed moment.
pub struct ElevatorHealthMonitor {
    last_seen: Table<String, u64>,
    active_elevators: Vec<String>,
}

/// A health monitor as contracts speak of it.
pub struct MonitorView {
    /// When each elevator was last heard of.
    pub last_seen: Map<Seq<char>, u64>,
    /// The elevators that have been heard of, in the order in which they appeared.
    pub known: Seq<Seq<char>>,
    /// The elevators that count as active.
    pub active: Seq<Seq<char>>,
}

/// The time from `seen` to `now`; none if `now` is the earlier.
pub open spec fn silence(seen: u64, now: u64) -> int {
    if now >= seen {
        now - seen
    } else {
        0
    }
}

impl MonitorView {
    /// Each elevator is listed once, and those that count as active are just the known ones.
    pub open spec fn valid(self) -> bool {
        &&& self.known.no_duplicates()
        &&& self.active.no_duplicates()
        &&& forall|id: Seq<char>| #[trigger]
            self.active.contains(id) <==> self.known.contains(id)
        &&& forall|id: Seq<char>| #[trigger]
            self.last_seen.dom().contains(id) <==> self.known.contains(id)
    }

    /// Whether an elevator has been heard of within the timeout.
    pub open spec fn alive(self, id: Seq<char>, now: u64) -> bool {
        self.last_seen.dom().contains(id) && silence(self.last_seen[id], now) < ELEVATOR_TIMEOUT
    }

    /// Whether an elevator has been silent for longer than the timeout.
    pub open spec fn overdue(self, id: Seq<char>, now: u64) -> bool {
        self.last_seen.dom().contains(id) && silence(self.last_seen[id], now) > ELEVATOR_TIMEOUT
    }

    /// The elevators that have been heard of within the timeout.
    pub open spec fn alive_ids(self, now: u64) -> Seq<Seq<char>> {
        self.known.filter(|id: Seq<char>| self.alive(id, now))
    }

    /// The elevators that have been silent for longer than the timeout.
    pub open spec fn overdue_ids(self, now: u64) -> Seq<Seq<char>> {
        self.known.filter(|id: Seq<char>| self.overdue(id, now))
    }

    /// The monitor after an elevator has been heard of.
    pub open spec fn heard(self, id: Seq<char>, now: u64) -> MonitorView {
        MonitorView {
            last_seen: self.last_seen.insert(id, now),
            known: table::with_key(self.known, id),
            active: table::with_key(self.active, id),
        }
    }

    /// The monitor after some elevators have been given up.
    pub open spec fn given_up(self, gone: Seq<Seq<char>>) -> MonitorView {
        MonitorView {
            last_seen: self.last_seen.remove_keys(gone.to_set()),
            known: table::without_keys(self.known, gone),
            active: table::without_keys(self.active, gone),
        }
    }
}

impl View for ElevatorHealthMonitor {
    type V = MonitorView;

    closed spec fn view(&self) -> MonitorView {
        MonitorView {
            last_seen: self.last_seen.map(),
            known: self.last_seen.keys(),
            active: text::string_views(self.active_elevators@),
        }
    }
}

impl ElevatorHealthMonitor {
    /// A monitor that has heard of nobody.
    pub fn new() -> (r: Self)
        ensures
            r@.valid(),
            r@ == (MonitorView {
                last_seen: Map::empty(),
                known: Seq::empty(),
                active: Seq::empty(),
            }),
    {
        let r = ElevatorHealthMonitor { last_seen: Table::new(), active_elevators: Vec::new() };
        assert(r@.active =~= Seq::<Seq<char>>::empty());
        assert(r@.last_seen =~= Map::<Seq<char>, u64>::empty());
        r
    }

    /// Notes that an elevator has been heard of.
    pub fn record_heartbeat(&mut self, elevator_id: &str, now: u64)
        requires
            old(self)@.valid(),
        ensures
            final(self)@.valid(),
            final(self)@ == old(self)@.heard(elevator_id@, now),
    {
        let ghost before = self@;
        self.last_seen.insert(elevator_id.to_string(), now);
        text::add_once(&mut self.active_elevators, elevator_id);
        proof {
            assert(self@ =~= before.heard(elevator_id@, now));
            lemma_heard_valid(before, elevator_id@, now);
        }
    }

    /// Whether an elevator is still active.
    pub fn is_active(&self, elevator_id: &str, now: u64) -> (r: bool)
        requires
            self@.valid(),
        ensures
            r == self@.alive(elevator_id@, now),
    {
        match self.last_seen.get(&elevator_id.to_string()) {
            Some(seen) => now.saturating_sub(*seen) < ELEVATOR_TIMEOUT,
            None => false,
        }
    }

    /// The active elevators.
    pub fn get_active_elevators(&self, now: u64) -> (r: Vec<String>)
        requires
            self@.valid(),
        ensures
            text::string_views(r@) == self@.alive_ids(now),
    {
        let ghost view = self@;
        let ghost keep = |id: Seq<char>| view.alive(id, now);
        let mut ids: Vec<String> = Vec::new();
        let mut i: usize = 0;
        assert(text::string_views(ids@) =~= view.known.take(0).filter(keep)) by {
            reveal(Seq::filter);
        }
        while i < self.last_seen.len()
            invariant
                view == self@,
                view.valid(),
                i <= view.known.len(),
                keep == (|id: Seq<char>| view.alive(id, now)),
                text::string_views(ids@) == view.known.take(i as int).filter(keep),
            decreases view.known.len() - i,
        {
            let ghost before = ids@;
            let ghost id = view.known[i as int];
            proof {
                assert(view.known.take(i + 1) =~= view.known.take(i as int).push(id));
                view.known.take(i as int).lemma_filter_push(id, keep);
            }
            if now.saturating_sub(*self.last_seen.value_at(i)) < ELEVATOR_TIMEOUT {
                ids.push(self.last_seen.key_at(i).clone());
                assert(text::string_views(ids@) =~= text::string_views(before).push(id));
            }
            i += 1;
        }
        assert(view.known.take(i as int) =~= view.known);
        ids
    }

    /// The elevators that have been silent for longer than the timeout.
    fn overdue_elevators(&self, now: u64) -> (r: Vec<String>)
        requires
            self@.valid(),
        ensures
            text::string_views(r@) == self@.overdue_ids(now),
    {
        let ghost view = self@;
        let ghost keep = |id: Seq<char>| view.overdue(id, now);
        let mut ids: Vec<String> = Vec::new();
        let mut i: usize = 0;
        assert(text::string_views(ids@) =~= view.known.take(0).filter(keep)) by {
            reveal(Seq::filter);
        }
        while i < self.last_seen.len()
            invariant
                view == self@,
                view.valid(),
                i <= view.known.len(),
                keep == (|id: Seq<char>| view.overdue(id, now)),
                text::string_views(ids@) == view.known.take(i as int).filter(keep),
            decreases view.known.len() - i,
        {
            let ghost before = ids@;
            let ghost id = view.known[i as int];
            proof {
                assert(view.known.take(i + 1) =~= view.known.take(i as int).push(id));
                view.known.take(i as int).lemma_filter_push(id, keep);
            }
            if now.saturating_sub(*self.last_seen.value_at(i)) > ELEVATOR_TIMEOUT {
                ids.push(self.last_seen.key_at(i).clone());
                assert(text::string_views(ids@) =~= text::string_views(before).push(id));
            }
            i += 1;
        }
        assert(view.known.take(i as int) =~= view.known);
        ids
    }

    /// Gives up one elevator.
    fn give_up(&mut self, id: &String)
        requires
            old(self)@.valid(),
        ensures
            final(self)@.valid(),
            final(self)@ == (MonitorView {
                last_seen: old(self)@.last_seen.remove(id@),
                known: table::without_key(old(self)@.known, id@),
                active: table::without_key(old(self)@.active, id@),
            }),
    {
        let ghost before = self@;
        self.last_seen.remove(id);
        match text::position_of(self.active_elevators.as_slice(), id.as_str()) {
            Some(i) => {
                self.active_elevators.remove(i);
                proof {
                    table::lemma_without_key(before.active, i as int);
                    assert(self@.active =~= before.active.remove(i as int));
                }
            },
            None => {
                proof {
                    table::lemma_without_absent(before.active, id@);
                }
            },
        }
        proof {
            table::lemma_without_key_contains(before.active, id@);
            table::lemma_without_key_contains(before.known, id@);
        }
    }

    /// Gives up the elevators that have been silent for longer than the timeout, and names them.
    pub fn check_disconnected_elevators(&mut self, now: u64) -> (r: Vec<String>)
        requires
            old(self)@.valid(),
        ensures
            final(self)@.valid(),
            text::string_views(r@) == old(self)@.overdue_ids(now),
            final(self)@ == old(self)@.given_up(old(self)@.overdue_ids(now)),
    {
        let ghost before = self@;
        let disconnected = self.overdue_elevators(now);
        let ghost gone = text::string_views(disconnected@);
        let mut i: usize = 0;
        proof {
            assert(gone.take(0) =~= Seq::<Seq<char>>::empty());
            table::lemma_without_none(before.known);
            table::lemma_without_none(before.active);
            assert(before.last_seen.remove_keys(gone.take(0).to_set()) =~= before.last_seen);
        }
        while i < disconnected.len()
            invariant
                i <= disconnected@.len(),
                gone == text::string_views(disconnected@),
                self@.valid(),
                self@ == before.given_up(gone.take(i as int)),
            decreases disconnected@.len() - i,
        {
            let ghost so_far = gone.take(i as int);
            let ghost id = gone[i as int];
            self.give_up(&disconnected[i]);
            proof {
                assert(gone.take(i + 1) =~= so_far.push(id));
                table::lemma_without_one_more(before.known, so_far, id);
                table::lemma_without_one_more(before.active, so_far, id);
                so_far.lemma_push_to_set_commute(id);
                assert(self@.last_seen =~= before.last_seen.remove_keys(
                    gone.take(i + 1).to_set(),
                ));
            }
            i += 1;
        }
        assert(gone.take(i as int) =~= gone);
        disconnected
    }
}

/// Hearing of an elevator keeps the monitor valid.
proof fn lemma_heard_valid(monitor: MonitorView, id: Seq<char>, now: u64)
    requires
        monitor.valid(),
    ensures
        monitor.heard(id, now).valid(),
{
    table::lemma_with_key(monitor.known, id);
    table::lemma_with_key(monitor.active, id);
}

/// Takes the hall calls of lost elevators and gives them to others.
pub fn reassign_hall_calls(disconnected_elevators: &[String], elevator_system: &mut ElevatorSystem) -> (r:
    Vec<Action>)
    requires
        old(elevator_system)@.valid(),
        old(elevator_system)@.room_for(old(elevator_system)@.hall_order.len()),
    ensures
        final(elevator_system)@.valid(),
        ({
            let before = old(elevator_system)@;
            let calls = before.timed_calls(
                before.held_by(text::string_views(disconnected_elevators@)),
            );
            &&& final(elevator_system)@ == before.turned_over(calls)
            &&& action::views(r@) == before.turn_over_actions(calls)
        }),
{
    let calls_to_reassign = elevator_system.calls_held_by(disconnected_elevators);
    proof {
        let names = text::string_views(disconnected_elevators@);
        let view = elevator_system@;
        view.hall_order.lemma_filter_len(|k: (u8, u8)| names.contains(view.hall_calls[k].0));
    }
    elevator_system.turn_over_calls(&calls_to_reassign)
}

/// One round of health monitoring: the elevators that have been silent for too long are given up,
/// and their hall calls go to others.
pub fn check_health(
    health_monitor: &mut ElevatorHealthMonitor,
    elevator_system: &mut ElevatorSystem,
    now: u64,
) -> (r: Vec<Action>)
    requires
        old(health_monitor)@.valid(),
        old(elevator_system)@.valid(),
        old(elevator_system)@.room_for(old(elevator_system)@.hall_order.len()),
    ensures
        final(health_monitor)@.valid(),
        final(elevator_system)@.valid(),
        ({
            let before = old(elevator_system)@;
            let gone = old(health_monitor)@.overdue_ids(now);
            let calls = before.timed_calls(before.held_by(gone));
            &&& final(health_monitor)@ == old(health_monitor)@.given_up(gone)
            &&& final(elevator_system)@ == before.turned_over(calls)
            &&& action::views(r@) == before.turn_over_actions(calls)
        }),
{
    let disconnected = health_monitor.check_disconnected_elevators(now);
    reassign_hall_calls(disconnected.as_slice(), elevator_system)
}

} // verus!
