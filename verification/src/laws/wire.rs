//! How numbers, messages and saved states are written and read.

use vstd::prelude::*;

use crate::control;
use crate::elevio::cost;
use crate::elevio::cost::MessageView;
use crate::elevio::elev;
use crate::elevio::elev::{DIRN_DOWN, DIRN_STOP, DIRN_UP};
use crate::elevio::fault_handler;
use crate::text;

verus! {

/// Only the numeral of zero begins with a zero.
pub proof fn numerals_have_no_leading_zeros(n: nat)
    ensures
        text::decimal(n).len() > 0,
        text::decimal(n)[0] == '0' ==> n == 0,
    decreases n,
{
    if n >= 10 {
        numerals_have_no_leading_zeros(n / 10);
    }
}

/// A single digit reads as its value.
pub proof fn digit_reads_as_its_value(c: char, max: nat)
    requires
        '0' <= c <= '9',
        max >= 9,
    ensures
        text::unsigned(seq![c], max) == Some((c as int - '0' as int) as nat),
{
    let s = seq![c];
    assert(s.drop_last() =~= Seq::<char>::empty());
    assert(text::digits_value(s.drop_last()) == 0);
}

/// A further digit makes ten times the number, plus the digit; beyond the largest number allowed
/// nothing is read.
pub proof fn further_digit_counts_tenfold(s: Seq<char>, c: char, max: nat, n: nat)
    requires
        '0' <= c <= '9',
        text::unsigned(s, max) == Some(n),
    ensures
        text::unsigned(s.push(c), max) == if 10 * n + (c as int - '0' as int) <= max {
            Some((10 * n + (c as int - '0' as int)) as nat)
        } else {
            None
        },
{
    let body = text::without_plus(s);
    let longer = text::without_plus(s.push(c));
    assert(longer =~= body.push(c));
    assert(longer.drop_last() =~= body);
    assert forall|i: int| 0 <= i < longer.len() implies text::is_digit(#[trigger] longer[i]) by {
        if i < body.len() {
            assert(longer[i] == body[i]);
        }
    }
}

/// What reads as a number is a numeral, with at most one plus sign in front: it does not depend on
/// the largest number allowed, but that a larger number is not read. The sign does not change the
/// number.
pub proof fn what_reads_as_a_number(s: Seq<char>, max: nat, larger: nat)
    requires
        max <= larger,
    ensures
        match text::unsigned(s, larger) {
            Some(n) => n <= larger && text::unsigned(s, max) == if n <= max {
                Some(n)
            } else {
                None
            },
            None => text::unsigned(s, max) is None,
        },
        s.len() == 0 ==> text::unsigned(s, max) is None,
        s == seq!['+'] ==> text::unsigned(s, max) is None,
        s.len() > 0 && s[0] != '+' ==> text::unsigned(seq!['+'] + s, max) == text::unsigned(s, max),
        forall|i: int|
            0 <= i < s.len() && !('0' <= #[trigger] s[i] <= '9') && (i > 0 || s[i] != '+')
                ==> text::unsigned(s, max) is None,
{
    assert((seq!['+'] + s).skip(1) =~= s);
    let body = text::without_plus(s);
    assert forall|i: int|
        0 <= i < s.len() && !('0' <= #[trigger] s[i] <= '9') && (i > 0 || s[i] != '+') implies
        text::unsigned(s, max) is None by {
        let j = if s[0] == '+' {
            i - 1
        } else {
            i
        };
        assert(body[j] == s[i]);
        assert(!text::is_digit(body[j]));
    }
}

/// A zero in front does not change the number.
pub proof fn zero_in_front_does_not_count(s: Seq<char>, max: nat)
    requires
        s.len() > 0,
        s[0] != '+',
    ensures
        text::unsigned(seq!['0'] + s, max) == text::unsigned(s, max),
{
    let longer = seq!['0'] + s;
    assert(longer[0] == '0');
    lemma_zero_in_front(s);
    if text::all_digits(s) {
        assert forall|i: int| 0 <= i < longer.len() implies text::is_digit(
            #[trigger] longer[i],
        ) by {
            if i > 0 {
                assert(longer[i] == s[i - 1]);
            }
        }
    } else {
        let i = choose|i: int| 0 <= i < s.len() && !text::is_digit(#[trigger] s[i]);
        assert(longer[i + 1] == s[i]);
    }
}

proof fn lemma_zero_in_front(s: Seq<char>)
    ensures
        text::digits_value(seq!['0'] + s) == text::digits_value(s),
    decreases s.len(),
{
    let longer = seq!['0'] + s;
    if s.len() == 0 {
        assert(longer.drop_last() =~= Seq::<char>::empty());
        assert(text::digits_value(Seq::<char>::empty()) == 0);
    } else {
        lemma_zero_in_front(s.drop_last());
        assert(longer.drop_last() =~= seq!['0'] + s.drop_last());
        assert(longer.last() == s.last());
    }
}

/// Joining the fields of a text gives the text back, and no field holds the separator.
pub proof fn join_undoes_split(s: Seq<char>, sep: char)
    ensures
        text::joined(text::fields(s, sep), sep) == s,
        forall|i: int|
            0 <= i < text::fields(s, sep).len() ==> !(#[trigger] text::fields(s, sep)[i]).contains(
                sep,
            ),
    decreases s.len(),
{
    let parts = text::fields(s, sep);
    text::lemma_fields_nonempty(s, sep);
    if s.len() == 0 {
        assert(text::joined(parts, sep) =~= s);
    } else {
        let front = s.drop_last();
        let c = s.last();
        let before = text::fields(front, sep);
        join_undoes_split(front, sep);
        text::lemma_fields_nonempty(front, sep);
        assert(front.push(c) =~= s);
        if c == sep {
            assert(parts.drop_last() =~= before);
            assert(text::joined(parts, sep) =~= s);
            assert forall|i: int| 0 <= i < parts.len() implies !(#[trigger] parts[i]).contains(
                sep,
            ) by {
                if i < before.len() {
                    assert(parts[i] == before[i]);
                }
            }
        } else {
            assert(parts.drop_last() =~= before.drop_last());
            assert(parts.last() == before.last().push(c));
            assert(text::joined(parts, sep) =~= s);
            assert forall|i: int| 0 <= i < parts.len() implies !(#[trigger] parts[i]).contains(
                sep,
            ) by {
                if i < before.len() - 1 {
                    assert(parts[i] == before[i]);
                } else {
                    let old = before[before.len() - 1];
                    assert(!old.contains(sep));
                    assert forall|j: int| 0 <= j < parts[i].len() implies parts[i][j] != sep by {
                        if j < old.len() {
                            assert(parts[i][j] == old[j]);
                        }
                    }
                }
            }
        }
    }
}

/// The text of a message falls into its name and its values, numbers as numerals, at the bars; a list
/// of calls into the calls at the semicolons, and a call into floor and kind at the comma.
pub proof fn fields_of_a_message(message: MessageView)
    requires
        cost::readable(message),
    ensures
        ({
            let parts = text::fields(cost::message_text(message), '|');
            match message {
                MessageView::HallCall { floor, direction, timestamp } => parts == seq![
                    "HALL"@,
                    text::decimal(floor as nat),
                    text::decimal(direction as nat),
                    text::decimal(timestamp as nat),
                ],
                MessageView::ElevatorState { id, floor, direction, call_buttons, is_obstructed } => {
                    &&& parts.len() == 6
                    &&& parts[0] == "STATE"@
                    &&& parts[1] == id
                    &&& parts[2] == text::decimal(floor as nat)
                    &&& parts[3] == text::decimal(direction as nat)
                    &&& parts[5] == if is_obstructed {
                        seq!['1']
                    } else {
                        seq!['0']
                    }
                    &&& call_buttons.len() == 0 ==> parts[4].len() == 0
                    &&& call_buttons.len() > 0 ==> {
                        let entries = text::fields(parts[4], ';');
                        &&& entries.len() == call_buttons.len()
                        &&& forall|i: int|
                            0 <= i < entries.len() ==> text::fields(#[trigger] entries[i], ',')
                                == seq![
                                text::decimal(call_buttons[i][0] as nat),
                                text::decimal(call_buttons[i][1] as nat),
                            ]
                    }
                },
                MessageView::CompletedCall { floor, direction } => parts == seq![
                    "COMPLETED"@,
                    text::decimal(floor as nat),
                    text::decimal(direction as nat),
                ],
                MessageView::SyncRequest { id } => parts == seq!["SYNC"@, id],
            }
        }),
{
    reveal_strlit("HALL");
    reveal_strlit("STATE");
    reveal_strlit("COMPLETED");
    reveal_strlit("SYNC");
    match message {
        MessageView::HallCall { floor, direction, timestamp } => {
            text::lemma_decimal_without(floor as nat, '|');
            text::lemma_decimal_without(direction as nat, '|');
            text::lemma_decimal_without(timestamp as nat, '|');
            text::split_undoes_join(
                seq![
                    "HALL"@,
                    text::decimal(floor as nat),
                    text::decimal(direction as nat),
                    text::decimal(timestamp as nat),
                ],
                '|',
            );
        },
        MessageView::ElevatorState { id, floor, direction, call_buttons, is_obstructed } => {
            let flag: nat = if is_obstructed { 1 } else { 0 };
            text::lemma_decimal_without(floor as nat, '|');
            text::lemma_decimal_without(direction as nat, '|');
            text::lemma_decimal_without(flag, '|');
            cost::call_list_round_trip(call_buttons);
            text::split_undoes_join(
                seq![
                    "STATE"@,
                    id,
                    text::decimal(floor as nat),
                    text::decimal(direction as nat),
                    cost::call_list_text(call_buttons),
                    text::decimal(flag),
                ],
                '|',
            );
            let texts = cost::call_texts(call_buttons);
            assert forall|i: int| 0 <= i < texts.len() implies !(#[trigger] texts[i]).contains(';')
                && text::fields(texts[i], ',') == seq![
                text::decimal(call_buttons[i][0] as nat),
                text::decimal(call_buttons[i][1] as nat),
            ] by {
                cost::lemma_call_text(call_buttons[i]);
            }
            if call_buttons.len() > 0 {
                text::split_undoes_join(texts, ';');
            }
        },
        MessageView::CompletedCall { floor, direction } => {
            text::lemma_decimal_without(floor as nat, '|');
            text::lemma_decimal_without(direction as nat, '|');
            text::split_undoes_join(
                seq![
                    "COMPLETED"@,
                    text::decimal(floor as nat),
                    text::decimal(direction as nat),
                ],
                '|',
            );
        },
        MessageView::SyncRequest { id } => {
            text::split_undoes_join(seq!["SYNC"@, id], '|');
        },
    }
}

/// Whether a text writes a byte.
pub open spec fn writes(s: Seq<char>, byte: u8) -> bool {
    text::unsigned(s, 255) == Some(byte as nat)
}

/// A text is a message just if its fields are those of one: the name, then enough fields that write
/// the values; further fields do not count. Without a sixth field an elevator is not obstructed; with
/// one it is just if the field does not write zero.
pub proof fn what_reads_as_a_message(s: Seq<char>, message: MessageView)
    ensures
        ({
            let parts = text::fields(s, '|');
            cost::message_in(s) == Some(message) <==> match message {
                MessageView::HallCall { floor, direction, timestamp } => {
                    &&& parts.len() >= 4
                    &&& parts[0] == "HALL"@
                    &&& writes(parts[1], floor)
                    &&& writes(parts[2], direction)
                    &&& text::unsigned(parts[3], u64::MAX as nat) == Some(timestamp as nat)
                },
                MessageView::ElevatorState { id, floor, direction, call_buttons, is_obstructed } => {
                    &&& parts.len() >= 5
                    &&& parts[0] == "STATE"@
                    &&& parts[1] == id
                    &&& writes(parts[2], floor)
                    &&& writes(parts[3], direction)
                    &&& cost::listed_calls(parts[4]) == call_buttons
                    &&& parts.len() == 5 ==> !is_obstructed
                    &&& parts.len() > 5 ==> text::unsigned(parts[5], 255) is Some && is_obstructed
                        == (text::unsigned(parts[5], 255) != Some(0nat))
                },
                MessageView::CompletedCall { floor, direction } => {
                    &&& parts.len() >= 3
                    &&& parts[0] == "COMPLETED"@
                    &&& writes(parts[1], floor)
                    &&& writes(parts[2], direction)
                },
                MessageView::SyncRequest { id } => {
                    &&& parts.len() >= 2
                    &&& parts[0] == "SYNC"@
                    &&& parts[1] == id
                },
            }
        }),
{
    reveal_strlit("HALL");
    reveal_strlit("STATE");
    reveal_strlit("COMPLETED");
    reveal_strlit("SYNC");
    assert("HALL"@[0] != "STATE"@[0]);
    assert("HALL"@[0] != "COMPLETED"@[0]);
    assert("STATE"@[0] != "COMPLETED"@[0]);
    assert("SYNC"@[0] != "HALL"@[0]);
    assert("SYNC"@[1] != "STATE"@[1]);
    assert("SYNC"@[0] != "COMPLETED"@[0]);
}

/// An entry of a list of calls is a call just if it has two fields that write floor and kind; a line
/// of a saved state just if its first two fields do.
pub proof fn what_reads_as_a_call(s: Seq<char>, floor: u8, kind: u8)
    ensures
        ({
            let parts = text::fields(s, ',');
            &&& cost::listed_call(s) == Some(seq![floor, kind]) <==> parts.len() == 2 && writes(
                parts[0],
                floor,
            ) && writes(parts[1], kind)
            &&& fault_handler::saved_call(s) == Some(seq![floor, kind]) <==> parts.len() >= 2
                && writes(parts[0], floor) && writes(parts[1], kind)
            &&& cost::listed_call(s) matches Some(call) ==> call.len() == 2
            &&& fault_handler::saved_call(s) matches Some(call) ==> call.len() == 2
        }),
{
    let call = seq![floor, kind];
    assert(call[0] == floor && call[1] == kind);
}

/// What the items of two lists give is what those of the one give, then those of the other.
proof fn lemma_filter_map_join<A, B>(a: Seq<A>, b: Seq<A>, f: spec_fn(A) -> Option<B>)
    ensures
        (a + b).filter_map(f) == a.filter_map(f) + b.filter_map(f),
    decreases b.len(),
{
    reveal(Seq::filter_map);
    if b.len() == 0 {
        assert(a + b =~= a);
        assert(a.filter_map(f) + b.filter_map(f) =~= a.filter_map(f));
    } else {
        lemma_filter_map_join(a, b.drop_last(), f);
        assert((a + b).drop_last() =~= a + b.drop_last());
        assert((a + b).last() == b.last());
        assert((a + b).filter_map(f) =~= a.filter_map(f) + b.filter_map(f));
    }
}

/// A list of calls is read entry by entry: two lists with a semicolon between them write the calls
/// of the one, then those of the other. One entry writes its call, or none.
pub proof fn call_lists_are_read_entry_by_entry(a: Seq<char>, b: Seq<char>)
    ensures
        cost::listed_calls(a.push(';') + b) == cost::listed_calls(a) + cost::listed_calls(b),
        !a.contains(';') ==> cost::listed_calls(a) == match cost::listed_call(a) {
            Some(call) => seq![call],
            None => Seq::empty(),
        },
{
    let read = |entry: Seq<char>| cost::listed_call(entry);
    text::lemma_fields_join(a, b, ';');
    lemma_filter_map_join(text::fields(a, ';'), text::fields(b, ';'), read);
    lemma_listed(a);
    lemma_listed(b);
    if !a.contains(';') {
        text::lemma_fields_single(a, ';');
        Seq::lemma_filter_map_singleton(a, read);
    }
}

/// An empty list is read like any other.
proof fn lemma_listed(list: Seq<char>)
    ensures
        cost::listed_calls(list) == text::fields(list, ';').filter_map(
            |entry: Seq<char>| cost::listed_call(entry),
        ),
        list.len() == 0 ==> cost::listed_call(list) is None,
{
    let read = |entry: Seq<char>| cost::listed_call(entry);
    if list.len() == 0 {
        assert(list =~= Seq::<char>::empty());
        assert(text::fields(list, ',') =~= seq![list]);
        assert(text::fields(list, ';') =~= seq![list]);
        Seq::lemma_filter_map_singleton(list, read);
        assert(text::fields(list, ';').filter_map(read) =~= Seq::<Seq<u8>>::empty());
    }
}

/// A saved state needs two lines. The first two write floor and direction, or count as zero; each
/// further line adds its call at the end, or nothing.
pub proof fn saved_states_are_read_line_by_line(lines: Seq<Seq<char>>, line: Seq<char>)
    ensures
        lines.len() < 2 ==> fault_handler::saved_state(lines) is None,
        lines.len() >= 2 ==> ({
            let state = fault_handler::saved_state(lines);
            let (floor, direction, calls) = state->0;
            &&& state is Some
            &&& text::unsigned(lines[0], 255) matches Some(n) ==> floor == n
            &&& text::unsigned(lines[0], 255) is None ==> floor == 0
            &&& text::unsigned(lines[1], 255) matches Some(n) ==> direction == n
            &&& text::unsigned(lines[1], 255) is None ==> direction == 0
            &&& lines.len() == 2 ==> calls.len() == 0
            &&& fault_handler::saved_state(lines.push(line)) == Some(
                (
                    floor,
                    direction,
                    match fault_handler::saved_call(line) {
                        Some(call) => calls.push(call),
                        None => calls,
                    },
                ),
            )
        }),
{
    if lines.len() >= 2 {
        let read = |l: Seq<char>| fault_handler::saved_call(l);
        let rest = lines.skip(2);
        assert(lines.push(line).skip(2) =~= rest + seq![line]);
        lemma_filter_map_join(rest, seq![line], read);
        Seq::lemma_filter_map_singleton(line, read);
        if lines.len() == 2 {
            reveal(Seq::filter_map);
            assert(rest =~= Seq::<Seq<char>>::empty());
        }
        let calls = rest.filter_map(read);
        match fault_handler::saved_call(line) {
            Some(call) => {
                assert(calls + seq![call] =~= calls.push(call));
            },
            None => {
                assert(calls + Seq::<Seq<u8>>::empty() =~= calls);
            },
        }
    }
}

/// A saved state begins with the numerals of floor and direction; a call that holds a floor and a
/// kind adds a line with their numerals and a comma between them, any other adds none.
pub proof fn states_are_saved_line_by_line(
    floor: u8,
    direction: u8,
    calls: Seq<Seq<u8>>,
    call: Seq<u8>,
)
    ensures
        fault_handler::saved_lines(floor, direction, Seq::empty()) == seq![
            text::decimal(floor as nat),
            text::decimal(direction as nat),
        ],
        call.len() < 2 ==> fault_handler::saved_lines(floor, direction, calls.push(call))
            == fault_handler::saved_lines(floor, direction, calls),
        call.len() >= 2 ==> fault_handler::saved_lines(floor, direction, calls.push(call))
            == fault_handler::saved_lines(floor, direction, calls).push(
            text::decimal(call[0] as nat).push(',') + text::decimal(call[1] as nat),
        ),
{
    let keep = |c: Seq<u8>| c.len() >= 2;
    calls.lemma_filter_push(call, keep);
    assert(fault_handler::savable(Seq::empty()) =~= Seq::<Seq<u8>>::empty()) by {
        reveal(Seq::filter);
    }
    assert(fault_handler::saved_lines(floor, direction, Seq::empty()) =~= seq![
        text::decimal(floor as nat),
        text::decimal(direction as nat),
    ]);
    if call.len() >= 2 {
        let kept = fault_handler::savable(calls);
        let parts = seq![text::decimal(call[0] as nat), text::decimal(call[1] as nat)];
        assert(parts.drop_last() =~= seq![parts[0]]);
        assert(text::joined(parts.drop_last(), ',') == parts[0]);
        assert(cost::call_text(call) == parts[0].push(',') + parts[1]);
        assert(cost::call_texts(kept.push(call)) =~= cost::call_texts(kept).push(
            cost::call_text(call),
        ));
        assert(fault_handler::saved_lines(floor, direction, calls.push(call))
            =~= fault_handler::saved_lines(floor, direction, calls).push(cost::call_text(call)));
    }
}

/// Each elevator has a file of its own, with its name between fixed words.
pub proof fn state_files_differ(a: Seq<char>, b: Seq<char>)
    ensures
        fault_handler::state_file(a) == "elevator_"@ + a + "_state.txt"@,
        fault_handler::state_file(a) == fault_handler::state_file(b) ==> a == b,
{
    let front = "elevator_"@;
    let back = "_state.txt"@;
    let n = front.len() as int;
    let x = fault_handler::state_file(a);
    let y = fault_handler::state_file(b);
    assert(x.subrange(n, n + a.len()) =~= a);
    assert(y.subrange(n, n + b.len()) =~= b);
    if x == y {
        assert(x.len() == front.len() + a.len() + back.len());
        assert(y.len() == front.len() + b.len() + back.len());
    }
}

/// The directions up, down and stop have these names, and no other number has one of them. A call
/// from below goes up, one from above down, and any other has no direction.
pub proof fn directions_have_their_names(direction: u8, call: u8)
    ensures
        control::direction_name(DIRN_UP) == "UP"@,
        control::direction_name(DIRN_DOWN) == "DOWN"@,
        control::direction_name(DIRN_STOP) == "STOP"@,
        direction != DIRN_UP && direction != DIRN_DOWN && direction != DIRN_STOP
            ==> control::direction_name(direction) == "UNKNOWN"@,
        control::direction_of_call(0) == DIRN_UP,
        control::direction_of_call(1) == DIRN_DOWN,
        call >= 2 ==> control::direction_of_call(call) == DIRN_STOP,
        control::call_of_direction(DIRN_UP) == 0,
        control::call_of_direction(DIRN_DOWN) == 1,
        direction != DIRN_UP && direction != DIRN_DOWN ==> control::call_of_direction(direction)
            == 2,
        control::reversed(DIRN_UP) == DIRN_DOWN,
        direction != DIRN_UP ==> control::reversed(direction) == DIRN_UP,
{
}

/// The way from one floor to another leads up, down or nowhere; a call is found in a queue just if it
/// is there, at its first place.
pub proof fn ways_and_places(go_floor: u8, floor: u8, queue: Seq<Seq<u8>>, call: Seq<u8>)
    ensures
        floor < go_floor ==> control::direction_towards(go_floor, floor) == DIRN_UP,
        floor > go_floor ==> control::direction_towards(go_floor, floor) == DIRN_DOWN,
        floor == go_floor ==> control::direction_towards(go_floor, floor) == DIRN_STOP,
        match elev::first_index(queue, control::equal_to(call)) {
            Some(i) => 0 <= i < queue.len() && queue[i] == call && forall|j: int|
                0 <= j < i ==> #[trigger] queue[j] != call,
            None => !queue.contains(call),
        },
{
    let test = control::equal_to(call);
    elev::first_index_meaning(queue, test);
    assert forall|j: int| 0 <= j < queue.len() implies test(#[trigger] queue[j]) == (queue[j]
        == call) by {}
}

} // verus!
