//! What it costs an elevator to take a hall call, and the messages that elevators exchange.

use vstd::prelude::*;
use vstd::string::*;

use crate::elevio::elev;
use crate::elevio::elev::{DIRN_DOWN, DIRN_STOP, DIRN_UP};
use crate::text;

verus! {

/// The longest queue for which the cost of a call is computed within 32 bits, whatever the floors.
pub const MAX_QUEUE: usize = 429_496_213;

/// The cost of the way from one floor to another; being there already counts as a bonus.
pub open spec fn way_cost(current_floor: u8, call_floor: u8) -> int {
    if current_floor == call_floor {
        -100
    } else if current_floor > call_floor {
        10 * (current_floor - call_floor)
    } else {
        10 * (call_floor - current_floor)
    }
}

/// The cost of the calls that wait already. The length is taken modulo 2^32, as a signed number.
pub open spec fn queue_cost(call_buttons_len: usize) -> int {
    5 * (call_buttons_len as i32)
}

/// The bonus of an elevator that stands still.
pub open spec fn idle_bonus(current_direction: u8) -> int {
    if current_direction == DIRN_STOP {
        10
    } else {
        0
    }
}

/// The bonus of an elevator that moves towards the call, in the direction of the call.
pub open spec fn same_way_bonus(
    current_floor: u8,
    current_direction: u8,
    call_floor: u8,
    call_direction: u8,
) -> int {
    if (current_direction == DIRN_UP && call_floor > current_floor && call_direction == DIRN_UP) || (
    current_direction == DIRN_DOWN && call_floor < current_floor && call_direction == DIRN_DOWN) {
        20
    } else {
        0
    }
}

/// The penalty of an elevator that moves away from the call.
pub open spec fn reversal_penalty(
    current_floor: u8,
    current_direction: u8,
    call_floor: u8,
) -> int {
    if (current_direction == DIRN_UP && call_floor < current_floor) || (current_direction
        == DIRN_DOWN && call_floor > current_floor) {
        30
    } else {
        0
    }
}

/// The cost of a call for an elevator. An obstructed elevator is priced out.
pub open spec fn call_cost(
    current_floor: u8,
    current_direction: u8,
    call_buttons_len: usize,
    call_floor: u8,
    call_direction: u8,
    is_obstructed: bool,
) -> int {
    if is_obstructed {
        1_073_741_823
    } else {
        way_cost(current_floor, call_floor) + queue_cost(call_buttons_len) - idle_bonus(
            current_direction,
        ) - same_way_bonus(current_floor, current_direction, call_floor, call_direction)
            + reversal_penalty(current_floor, current_direction, call_floor)
    }
}

/// Whether `n` is a 32-bit number.
pub open spec fn fits(n: int) -> bool {
    i32::MIN <= n <= i32::MAX
}

/// Whether the sum that makes up a cost stays within 32 bits at every step.
pub open spec fn cost_fits(
    current_floor: u8,
    current_direction: u8,
    call_buttons_len: usize,
    call_floor: u8,
    call_direction: u8,
) -> bool {
    let queue = queue_cost(call_buttons_len);
    let with_queue = way_cost(current_floor, call_floor) + queue;
    let with_idle = with_queue - idle_bonus(current_direction);
    let with_way = with_idle - same_way_bonus(
        current_floor,
        current_direction,
        call_floor,
        call_direction,
    );
    &&& fits(queue)
    &&& fits(with_queue)
    &&& fits(with_idle)
    &&& fits(with_way)
    &&& fits(with_way + reversal_penalty(current_floor, current_direction, call_floor))
}

/// Whether the cost of every call can be computed for an elevator with such a queue.
pub open spec fn priceable(call_buttons_len: nat, is_obstructed: bool) -> bool {
    is_obstructed || call_buttons_len <= MAX_QUEUE
}

/// The cost of every call can be computed for a queue of up to `MAX_QUEUE` calls.
pub proof fn lemma_priceable(
    current_floor: u8,
    current_direction: u8,
    call_buttons_len: usize,
    call_floor: u8,
    call_direction: u8,
)
    requires
        call_buttons_len <= MAX_QUEUE,
    ensures
        cost_fits(current_floor, current_direction, call_buttons_len, call_floor, call_direction),
        queue_cost(call_buttons_len) == 5 * call_buttons_len,
{
}

/// The cost of a call for an elevator.
pub fn calculate_cost(
    current_floor: u8,
    current_direction: u8,
    call_buttons_len: usize,
    call_floor: u8,
    call_direction: u8,
    is_obstructed: bool,
) -> (r: i32)
    requires
        is_obstructed || cost_fits(
            current_floor,
            current_direction,
            call_buttons_len,
            call_floor,
            call_direction,
        ),
    ensures
        r == call_cost(
            current_floor,
            current_direction,
            call_buttons_len,
            call_floor,
            call_direction,
            is_obstructed,
        ),
{
    if is_obstructed {
        return i32::MAX / 2;
    }
    let mut cost: i32 = 0;
    if current_floor == call_floor {
        cost -= 100;
    } else {
        let floor_distance: i32 = if current_floor > call_floor {
            (current_floor - call_floor) as i32
        } else {
            (call_floor - current_floor) as i32
        };
        cost += floor_distance * 10;
    }
    cost += #[verifier::truncate] (call_buttons_len as i32) * 5;
    if current_direction == DIRN_STOP {
        cost -= 10;
    }
    if (current_direction == DIRN_UP && call_floor > current_floor && call_direction == DIRN_UP) || (
    current_direction == DIRN_DOWN && call_floor < current_floor && call_direction == DIRN_DOWN) {
        cost -= 20;
    }
    if (current_direction == DIRN_UP && call_floor < current_floor) || (current_direction
        == DIRN_DOWN && call_floor > current_floor) {
        cost += 30;
    }
    cost
}

/// Messages between elevators.
#[derive(Debug, Clone)]
pub enum ElevatorMessage {
    /// A new hall call.
    HallCall { floor: u8, direction: u8, timestamp: u64 },
    /// The present state of an elevator.
    ElevatorState {
        id: String,
        floor: u8,
        direction: u8,
        call_buttons: Vec<Vec<u8>>,
        is_obstructed: bool,
    },
    /// A hall call has been served.
    CompletedCall { floor: u8, direction: u8 },
    /// An elevator asks for the hall calls that are known.
    SyncRequest { id: String },
}

/// A message as contracts speak of it.
pub enum MessageView {
    HallCall { floor: u8, direction: u8, timestamp: u64 },
    ElevatorState {
        id: Seq<char>,
        floor: u8,
        direction: u8,
        call_buttons: Seq<Seq<u8>>,
        is_obstructed: bool,
    },
    CompletedCall { floor: u8, direction: u8 },
    SyncRequest { id: Seq<char> },
}

impl View for ElevatorMessage {
    type V = MessageView;

    open spec fn view(&self) -> MessageView {
        match self {
            ElevatorMessage::HallCall { floor, direction, timestamp } => MessageView::HallCall {
                floor: *floor,
                direction: *direction,
                timestamp: *timestamp,
            },
            ElevatorMessage::ElevatorState {
                id,
                floor,
                direction,
                call_buttons,
                is_obstructed,
            } => MessageView::ElevatorState {
                id: id@,
                floor: *floor,
                direction: *direction,
                call_buttons: elev::calls_view(call_buttons@),
                is_obstructed: *is_obstructed,
            },
            ElevatorMessage::CompletedCall { floor, direction } => MessageView::CompletedCall {
                floor: *floor,
                direction: *direction,
            },
            ElevatorMessage::SyncRequest { id } => MessageView::SyncRequest { id: id@ },
        }
    }
}

/// A call as text: its floor and its kind, separated by a comma.
pub open spec fn call_text(call: Seq<u8>) -> Seq<char> {
    text::joined(seq![text::decimal(call[0] as nat), text::decimal(call[1] as nat)], ',')
}

/// The texts of several calls.
pub open spec fn call_texts(calls: Seq<Seq<u8>>) -> Seq<Seq<char>> {
    Seq::new(calls.len(), |i: int| call_text(calls[i]))
}

/// A list of calls as text: the calls, separated by semicolons.
pub open spec fn call_list_text(calls: Seq<Seq<u8>>) -> Seq<char> {
    text::joined(call_texts(calls), ';')
}

/// A message as text: its name and its values, separated by bars.
pub open spec fn message_text(message: MessageView) -> Seq<char> {
    match message {
        MessageView::HallCall { floor, direction, timestamp } => text::joined(
            seq![
                "HALL"@,
                text::decimal(floor as nat),
                text::decimal(direction as nat),
                text::decimal(timestamp as nat),
            ],
            '|',
        ),
        MessageView::ElevatorState { id, floor, direction, call_buttons, is_obstructed } =>
            text::joined(
            seq![
                "STATE"@,
                id,
                text::decimal(floor as nat),
                text::decimal(direction as nat),
                call_list_text(call_buttons),
                text::decimal(if is_obstructed { 1 } else { 0 }),
            ],
            '|',
        ),
        MessageView::CompletedCall { floor, direction } => text::joined(
            seq![
                "COMPLETED"@,
                text::decimal(floor as nat),
                text::decimal(direction as nat),
            ],
            '|',
        ),
        MessageView::SyncRequest { id } => text::joined(seq!["SYNC"@, id], '|'),
    }
}

/// The byte that `s` writes.
pub open spec fn byte_value(s: Seq<char>) -> Option<u8> {
    match text::unsigned(s, 255) {
        Some(v) => Some(v as u8),
        None => None,
    }
}

/// The call that the text of a floor and the text of a kind make.
pub open spec fn call_of(floor: Seq<char>, kind: Seq<char>) -> Option<Seq<u8>> {
    match (byte_value(floor), byte_value(kind)) {
        (Some(f), Some(k)) => Some(seq![f, k]),
        _ => None,
    }
}

/// The call that an entry of a list of calls writes: exactly two numbers.
pub open spec fn listed_call(entry: Seq<char>) -> Option<Seq<u8>> {
    let parts = text::fields(entry, ',');
    if parts.len() == 2 {
        call_of(parts[0], parts[1])
    } else {
        None
    }
}

/// The calls that a list of calls writes; entries that write no call are passed over.
pub open spec fn listed_calls(list: Seq<char>) -> Seq<Seq<u8>> {
    if list.len() == 0 {
        Seq::empty()
    } else {
        text::fields(list, ';').filter_map(|entry: Seq<char>| listed_call(entry))
    }
}

/// The message that the fields after a bar-separated split write. Fields beyond those of the
/// message are passed over.
pub open spec fn message_of(parts: Seq<Seq<char>>) -> Option<MessageView> {
    if parts[0] == "HALL"@ {
        if parts.len() < 4 {
            None
        } else {
            match (byte_value(parts[1]), byte_value(parts[2]), text::unsigned(
                parts[3],
                u64::MAX as nat,
            )) {
                (Some(floor), Some(direction), Some(t)) => Some(
                    MessageView::HallCall { floor, direction, timestamp: t as u64 },
                ),
                _ => None,
            }
        }
    } else if parts[0] == "STATE"@ {
        if parts.len() < 5 {
            None
        } else {
            match (byte_value(parts[2]), byte_value(parts[3]), if parts.len() > 5 {
                byte_value(parts[5])
            } else {
                Some(0u8)
            }) {
                (Some(floor), Some(direction), Some(flag)) => Some(
                    MessageView::ElevatorState {
                        id: parts[1],
                        floor,
                        direction,
                        call_buttons: listed_calls(parts[4]),
                        is_obstructed: flag != 0,
                    },
                ),
                _ => None,
            }
        }
    } else if parts[0] == "COMPLETED"@ {
        if parts.len() < 3 {
            None
        } else {
            match (byte_value(parts[1]), byte_value(parts[2])) {
                (Some(floor), Some(direction)) => Some(
                    MessageView::CompletedCall { floor, direction },
                ),
                _ => None,
            }
        }
    } else if parts[0] == "SYNC"@ {
        if parts.len() < 2 {
            None
        } else {
            Some(MessageView::SyncRequest { id: parts[1] })
        }
    } else {
        None
    }
}

/// The message that a text writes.
pub open spec fn message_in(s: Seq<char>) -> Option<MessageView> {
    message_of(text::fields(s, '|'))
}

/// The text of a call.
pub fn call_to_text(call: &Vec<u8>) -> (r: String)
    requires
        call@.len() >= 2,
    ensures
        r@ == call_text(call@),
{
    proof {
        reveal_strlit(",");
    }
    let parts = vec![text::decimal_text(call[0] as u64), text::decimal_text(call[1] as u64)];
    assert(text::string_views(parts@) =~= seq![
        text::decimal(call@[0] as nat),
        text::decimal(call@[1] as nat),
    ]);
    text::join(&parts, ",")
}

/// The text of a list of calls.
pub fn call_list_to_text(calls: &Vec<Vec<u8>>) -> (r: String)
    requires
        elev::calls_complete(elev::calls_view(calls@)),
    ensures
        r@ == call_list_text(elev::calls_view(calls@)),
{
    let ghost view = elev::calls_view(calls@);
    let mut parts: Vec<String> = Vec::new();
    let mut i: usize = 0;
    while i < calls.len()
        invariant
            i <= calls@.len(),
            view == elev::calls_view(calls@),
            elev::calls_complete(view),
            parts@.len() == i,
            forall|j: int| 0 <= j < i ==> (#[trigger] parts@[j])@ == call_text(view[j]),
        decreases calls@.len() - i,
    {
        assert(view[i as int].len() >= 2);
        parts.push(call_to_text(&calls[i]));
        i += 1;
    }
    proof {
        reveal_strlit(";");
    }
    assert(text::string_views(parts@) =~= call_texts(view));
    text::join(&parts, ";")
}

/// Reads a byte.
pub fn parse_byte(s: &str) -> (r: Option<u8>)
    ensures
        r == byte_value(s@),
{
    match text::parse_unsigned(s, 255) {
        Some(v) => Some(v as u8),
        None => None,
    }
}

/// Reads the list of calls in a message.
pub fn parse_call_list(list: &str) -> (r: Vec<Vec<u8>>)
    ensures
        elev::calls_view(r@) == listed_calls(list@),
{
    let mut calls: Vec<Vec<u8>> = Vec::new();
    if list.is_empty() {
        assert(elev::calls_view(calls@) =~= listed_calls(list@));
        return calls;
    }
    let entries = text::split(list, ';');
    let ghost views = text::fields(list@, ';');
    let ghost read = |entry: Seq<char>| listed_call(entry);
    let mut i: usize = 0;
    assert(views.take(0) =~= Seq::<Seq<char>>::empty());
    assert(elev::calls_view(calls@) =~= views.take(0).filter_map(read));
    while i < entries.len()
        invariant
            i <= entries@.len(),
            views == text::str_views(entries@),
            read == (|entry: Seq<char>| listed_call(entry)),
            elev::calls_view(calls@) == views.take(i as int).filter_map(read),
        decreases entries@.len() - i,
    {
        let parts = text::split(entries[i], ',');
        let ghost before = calls@;
        proof {
            views.lemma_filter_map_take_succ(read, i as int);
            assert(text::fields(views[i as int], ',') == text::str_views(parts@));
        }
        if parts.len() == 2 {
            match (parse_byte(parts[0]), parse_byte(parts[1])) {
                (Some(floor), Some(kind)) => {
                    let call: Vec<u8> = vec![floor, kind];
                    assert(call@ =~= seq![floor, kind]);
                    calls.push(call);
                    assert(elev::calls_view(calls@) =~= elev::calls_view(before) + seq![
                        seq![floor, kind],
                    ]);
                },
                _ => {},
            }
        }
        assert(elev::calls_view(calls@) =~= views.take(i + 1).filter_map(read));
        i += 1;
    }
    assert(views.take(i as int) =~= views);
    calls
}

impl ElevatorMessage {
    /// The text of a message.
    pub fn to_string(&self) -> (r: String)
        requires
            self matches ElevatorMessage::ElevatorState { call_buttons, .. }
                ==> elev::calls_complete(elev::calls_view(call_buttons@)),
        ensures
            r@ == message_text(self@),
    {
        proof {
            reveal_strlit("|");
        }
        match self {
            ElevatorMessage::HallCall { floor, direction, timestamp } => {
                let parts = vec![
                    "HALL".to_string(),
                    text::decimal_text(*floor as u64),
                    text::decimal_text(*direction as u64),
                    text::decimal_text(*timestamp),
                ];
                assert(text::string_views(parts@) =~= seq![
                    "HALL"@,
                    text::decimal(*floor as nat),
                    text::decimal(*direction as nat),
                    text::decimal(*timestamp as nat),
                ]);
                text::join(&parts, "|")
            },
            ElevatorMessage::ElevatorState {
                id,
                floor,
                direction,
                call_buttons,
                is_obstructed,
            } => {
                let flag: u64 = if *is_obstructed { 1 } else { 0 };
                let parts = vec![
                    "STATE".to_string(),
                    id.clone(),
                    text::decimal_text(*floor as u64),
                    text::decimal_text(*direction as u64),
                    call_list_to_text(call_buttons),
                    text::decimal_text(flag),
                ];
                assert(text::string_views(parts@) =~= seq![
                    "STATE"@,
                    id@,
                    text::decimal(*floor as nat),
                    text::decimal(*direction as nat),
                    call_list_text(elev::calls_view(call_buttons@)),
                    text::decimal(flag as nat),
                ]);
                text::join(&parts, "|")
            },
            ElevatorMessage::CompletedCall { floor, direction } => {
                let parts = vec![
                    "COMPLETED".to_string(),
                    text::decimal_text(*floor as u64),
                    text::decimal_text(*direction as u64),
                ];
                assert(text::string_views(parts@) =~= seq![
                    "COMPLETED"@,
                    text::decimal(*floor as nat),
                    text::decimal(*direction as nat),
                ]);
                text::join(&parts, "|")
            },
            ElevatorMessage::SyncRequest { id } => {
                let parts = vec!["SYNC".to_string(), id.clone()];
                assert(text::string_views(parts@) =~= seq!["SYNC"@, id@]);
                text::join(&parts, "|")
            },
        }
    }

    /// Reads a message.
    pub fn from_string(s: &str) -> (r: Option<Self>)
        ensures
            match r {
                Some(message) => message_in(s@) == Some(message@),
                None => message_in(s@) is None,
            },
    {
        let parts = text::split(s, '|');
        let ghost views = text::fields(s@, '|');
        assert(views == text::str_views(parts@));
        assert(views[0] == parts@[0]@);
        if text::same_text(parts[0], "HALL") {
            if parts.len() < 4 {
                return None;
            }
            let floor = parse_byte(parts[1])?;
            let direction = parse_byte(parts[2])?;
            let timestamp = text::parse_unsigned(parts[3], u64::MAX)?;
            Some(ElevatorMessage::HallCall { floor, direction, timestamp })
        } else if text::same_text(parts[0], "STATE") {
            if parts.len() < 5 {
                return None;
            }
            let id = parts[1].to_string();
            let floor = parse_byte(parts[2])?;
            let direction = parse_byte(parts[3])?;
            let call_buttons = parse_call_list(parts[4]);
            let is_obstructed = if parts.len() > 5 {
                parse_byte(parts[5])? != 0
            } else {
                false
            };
            Some(
                ElevatorMessage::ElevatorState {
                    id,
                    floor,
                    direction,
                    call_buttons,
                    is_obstructed,
                },
            )
        } else if text::same_text(parts[0], "COMPLETED") {
            if parts.len() < 3 {
                return None;
            }
            let floor = parse_byte(parts[1])?;
            let direction = parse_byte(parts[2])?;
            Some(ElevatorMessage::CompletedCall { floor, direction })
        } else if text::same_text(parts[0], "SYNC") {
            if parts.len() < 2 {
                return None;
            }
            Some(ElevatorMessage::SyncRequest { id: parts[1].to_string() })
        } else {
            None
        }
    }
}

/// A call as the other side of a message sees it: its floor and its kind.
pub open spec fn trimmed(call: Seq<u8>) -> Seq<u8> {
    seq![call[0], call[1]]
}

/// The calls of a list as the other side of a message sees them.
pub open spec fn trimmed_calls(calls: Seq<Seq<u8>>) -> Seq<Seq<u8>> {
    Seq::new(calls.len(), |i: int| trimmed(calls[i]))
}

/// Whether every call of a list holds a floor and a kind, and nothing else.
pub open spec fn calls_exact(calls: Seq<Seq<u8>>) -> bool {
    forall|i: int| 0 <= i < calls.len() ==> (#[trigger] calls[i]).len() == 2
}

/// The text of a call reads back as the floor and the kind of the call, and holds neither a
/// semicolon nor a bar.
pub proof fn lemma_call_text(call: Seq<u8>)
    requires
        call.len() >= 2,
    ensures
        text::fields(call_text(call), ',') == seq![
            text::decimal(call[0] as nat),
            text::decimal(call[1] as nat),
        ],
        listed_call(call_text(call)) == Some(trimmed(call)),
        !call_text(call).contains(';'),
        !call_text(call).contains('|'),
        call_text(call).len() > 0,
{
    let a = text::decimal(call[0] as nat);
    let b = text::decimal(call[1] as nat);
    let parts = seq![a, b];
    text::lemma_decimal_without(call[0] as nat, ',');
    text::lemma_decimal_without(call[1] as nat, ',');
    text::lemma_decimal_without(call[0] as nat, ';');
    text::lemma_decimal_without(call[1] as nat, ';');
    text::lemma_decimal_without(call[0] as nat, '|');
    text::lemma_decimal_without(call[1] as nat, '|');
    text::split_undoes_join(parts, ',');
    text::lemma_joined_without(parts, ',', ';');
    text::lemma_joined_without(parts, ',', '|');
    text::numeral_round_trip(call[0] as nat, 255);
    text::numeral_round_trip(call[1] as nat, 255);
    assert(parts.len() == 2);
    assert(call_text(call).len() > 0) by {
        assert(parts.drop_last().push(b) =~= parts);
        assert(call_text(call) == text::joined(parts.drop_last(), ',').push(',') + b);
    }
}

/// Reading entries that all write a call gives those calls.
proof fn lemma_read_all(entries: Seq<Seq<char>>, calls: Seq<Seq<u8>>)
    requires
        entries.len() == calls.len(),
        forall|i: int|
            0 <= i < entries.len() ==> listed_call(#[trigger] entries[i]) == Some(calls[i]),
    ensures
        entries.filter_map(|entry: Seq<char>| listed_call(entry)) == calls,
    decreases entries.len(),
{
    reveal(Seq::filter_map);
    let read = |entry: Seq<char>| listed_call(entry);
    if entries.len() > 0 {
        lemma_read_all(entries.drop_last(), calls.drop_last());
        assert(entries.last() == entries[entries.len() - 1]);
        assert(entries.filter_map(read) =~= calls);
    } else {
        assert(entries.filter_map(read) =~= calls);
    }
}

/// The text of a list of calls reads back as the list.
pub proof fn call_list_round_trip(calls: Seq<Seq<u8>>)
    requires
        elev::calls_complete(calls),
    ensures
        listed_calls(call_list_text(calls)) == trimmed_calls(calls),
        !call_list_text(calls).contains('|'),
{
    let texts = call_texts(calls);
    assert forall|i: int| 0 <= i < texts.len() implies !(#[trigger] texts[i]).contains(';')
        && !texts[i].contains('|') && texts[i].len() > 0 && listed_call(texts[i]) == Some(
        trimmed_calls(calls)[i],
    ) by {
        lemma_call_text(calls[i]);
    }
    text::lemma_joined_without(texts, ';', '|');
    if calls.len() == 0 {
        assert(listed_calls(call_list_text(calls)) =~= trimmed_calls(calls));
    } else {
        text::split_undoes_join(texts, ';');
        lemma_read_all(texts, trimmed_calls(calls));
        if call_list_text(calls).len() == 0 {
            assert(call_list_text(calls) =~= Seq::<char>::empty());
            assert(text::fields(Seq::<char>::empty(), ';') =~= texts);
            assert(texts[0].len() == 0);
        }
    }
}

/// A message as it arrives: each call is reduced to its floor and its kind.
pub open spec fn as_received(message: MessageView) -> MessageView {
    match message {
        MessageView::ElevatorState { id, floor, direction, call_buttons, is_obstructed } =>
            MessageView::ElevatorState {
            id,
            floor,
            direction,
            call_buttons: trimmed_calls(call_buttons),
            is_obstructed,
        },
        _ => message,
    }
}

/// Whether a message has a text that its reader can take apart: every call holds a floor and a
/// kind, and no name holds a bar.
pub open spec fn readable(message: MessageView) -> bool {
    match message {
        MessageView::ElevatorState { id, call_buttons, .. } => !id.contains('|')
            && elev::calls_complete(call_buttons),
        MessageView::SyncRequest { id } => !id.contains('|'),
        _ => true,
    }
}

/// What a message says reaches the reader of its text: a hall call, a completed call, the state of
/// an elevator and a request to synchronise read back as they were written.
pub proof fn message_round_trip(message: MessageView)
    requires
        readable(message),
    ensures
        message_in(message_text(message)) == Some(as_received(message)),
        match message {
            MessageView::ElevatorState { call_buttons, .. } => calls_exact(call_buttons)
                ==> as_received(message) == message,
            _ => as_received(message) == message,
        },
{
    reveal_strlit("HALL");
    reveal_strlit("STATE");
    reveal_strlit("COMPLETED");
    reveal_strlit("SYNC");
    assert("HALL"@[0] != "STATE"@[0]);
    assert("HALL"@[0] != "COMPLETED"@[0]);
    assert("STATE"@[0] != "COMPLETED"@[0]);
    assert("SYNC"@[0] != "HALL"@[0]);
    assert("SYNC"@[1] != "STATE"@[1]);
    assert("SYNC"@[0] != "COMPLETED"@[0]);
    match message {
        MessageView::HallCall { floor, direction, timestamp } => {
            text::lemma_decimal_without(floor as nat, '|');
            text::lemma_decimal_without(direction as nat, '|');
            text::lemma_decimal_without(timestamp as nat, '|');
            text::numeral_round_trip(floor as nat, 255);
            text::numeral_round_trip(direction as nat, 255);
            text::numeral_round_trip(timestamp as nat, u64::MAX as nat);
            text::split_undoes_join(
                seq![
                    "HALL"@,
                    text::decimal(floor as nat),
                    text::decimal(direction as nat),
                    text::decimal(timestamp as nat),
                ],
                '|',
            );
        },
        MessageView::ElevatorState { id, floor, direction, call_buttons, is_obstructed } => {
            let flag: nat = if is_obstructed { 1 } else { 0 };
            text::lemma_decimal_without(floor as nat, '|');
            text::lemma_decimal_without(direction as nat, '|');
            text::lemma_decimal_without(flag, '|');
            text::numeral_round_trip(floor as nat, 255);
            text::numeral_round_trip(direction as nat, 255);
            text::numeral_round_trip(flag, 255);
            call_list_round_trip(call_buttons);
            text::split_undoes_join(
                seq![
                    "STATE"@,
                    id,
                    text::decimal(floor as nat),
                    text::decimal(direction as nat),
                    call_list_text(call_buttons),
                    text::decimal(flag),
                ],
                '|',
            );
            if calls_exact(call_buttons) {
                assert forall|i: int| 0 <= i < call_buttons.len() implies trimmed_calls(
                    call_buttons,
                )[i] == #[trigger] call_buttons[i] by {
                    assert(trimmed(call_buttons[i]) =~= call_buttons[i]);
                }
                assert(trimmed_calls(call_buttons) =~= call_buttons);
            }
        },
        MessageView::CompletedCall { floor, direction } => {
            text::lemma_decimal_without(floor as nat, '|');
            text::lemma_decimal_without(direction as nat, '|');
            text::numeral_round_trip(floor as nat, 255);
            text::numeral_round_trip(direction as nat, 255);
            text::split_undoes_join(
                seq![
                    "COMPLETED"@,
                    text::decimal(floor as nat),
                    text::decimal(direction as nat),
                ],
                '|',
            );
        },
        MessageView::SyncRequest { id } => {
            text::split_undoes_join(seq!["SYNC"@, id], '|');
        },
    }
}

} // verus!
