use driver_rust::elevio::cost::{
    calculate_cost, call_list_to_text, call_to_text, parse_byte, parse_call_list, ElevatorMessage,
    MAX_QUEUE,
};
use driver_rust::elevio::elev::{CAB, DIRN_DOWN, DIRN_STOP, DIRN_UP, HALL_DOWN, HALL_UP};

fn state(id: &str, calls: Vec<Vec<u8>>, is_obstructed: bool) -> ElevatorMessage {
    ElevatorMessage::ElevatorState {
        id: id.to_string(),
        floor: 2,
        direction: DIRN_DOWN,
        call_buttons: calls,
        is_obstructed,
    }
}

#[test]
fn obstructed_elevator_is_priced_out() {
    assert_eq!(calculate_cost(1, DIRN_STOP, 0, 1, HALL_UP, true), i32::MAX / 2);
    assert_eq!(calculate_cost(0, DIRN_UP, usize::MAX, 3, HALL_UP, true), 1_073_741_823);
    assert!(calculate_cost(0, DIRN_UP, 1000, 255, HALL_UP, false) < i32::MAX / 2);
}

#[test]
fn being_at_the_floor_is_a_bonus() {
    assert_eq!(calculate_cost(1, DIRN_STOP, 0, 1, HALL_UP, false), -110);
    assert_eq!(calculate_cost(1, DIRN_UP, 0, 1, HALL_UP, false), -100);
}

#[test]
fn distance_and_queue_cost() {
    assert_eq!(calculate_cost(0, DIRN_STOP, 0, 3, HALL_UP, false), 20);
    assert_eq!(calculate_cost(3, DIRN_STOP, 0, 0, HALL_UP, false), 20);
    assert_eq!(calculate_cost(0, DIRN_STOP, 4, 3, HALL_UP, false), 40);
    assert_eq!(calculate_cost(255, DIRN_STOP, 0, 0, HALL_UP, false), 2540);
}

#[test]
fn going_the_same_way_is_a_bonus() {
    assert_eq!(calculate_cost(1, DIRN_UP, 0, 3, DIRN_UP, false), 0);
    assert_eq!(calculate_cost(3, DIRN_DOWN, 0, 1, DIRN_DOWN, false), 0);
    assert_eq!(calculate_cost(1, DIRN_UP, 0, 3, HALL_UP, false), 20);
    assert_eq!(calculate_cost(1, DIRN_UP, 0, 3, DIRN_DOWN, false), 20);
}

#[test]
fn turning_round_is_a_penalty() {
    assert_eq!(calculate_cost(3, DIRN_UP, 2, 1, HALL_UP, false), 60);
    assert_eq!(calculate_cost(0, DIRN_DOWN, 0, 2, HALL_DOWN, false), 50);
}

#[test]
fn longest_queue_still_has_a_cost() {
    assert_eq!(calculate_cost(0, DIRN_DOWN, MAX_QUEUE, 255, HALL_UP, false), 2_147_483_645);
}

#[test]
fn nearer_elevator_asks_less() {
    let near = calculate_cost(2, DIRN_STOP, 1, 3, HALL_DOWN, false);
    let far = calculate_cost(0, DIRN_STOP, 1, 3, HALL_DOWN, false);
    assert!(near < far);
}

#[test]
fn messages_are_written() {
    let hall = ElevatorMessage::HallCall { floor: 3, direction: 1, timestamp: 1_700_000_000 };
    assert_eq!(hall.to_string(), "HALL|3|1|1700000000");
    let done = ElevatorMessage::CompletedCall { floor: 0, direction: 0 };
    assert_eq!(done.to_string(), "COMPLETED|0|0");
    let sync = ElevatorMessage::SyncRequest { id: "2".to_string() };
    assert_eq!(sync.to_string(), "SYNC|2");
    assert_eq!(state("1", vec![], false).to_string(), "STATE|1|2|255||0");
    assert_eq!(
        state("1", vec![vec![3, CAB], vec![0, HALL_UP]], true).to_string(),
        "STATE|1|2|255|3,2;0,0|1"
    );
}

#[test]
fn hall_call_reads_back() {
    let text = ElevatorMessage::HallCall { floor: 255, direction: 1, timestamp: u64::MAX }.to_string();
    assert!(matches!(
        ElevatorMessage::from_string(&text),
        Some(ElevatorMessage::HallCall { floor: 255, direction: 1, timestamp: u64::MAX })
    ));
}

#[test]
fn completed_call_reads_back() {
    let text = ElevatorMessage::CompletedCall { floor: 3, direction: 1 }.to_string();
    assert!(matches!(
        ElevatorMessage::from_string(&text),
        Some(ElevatorMessage::CompletedCall { floor: 3, direction: 1 })
    ));
}

#[test]
fn elevator_state_reads_back() {
    let calls = vec![vec![3, CAB], vec![0, HALL_UP]];
    match ElevatorMessage::from_string(&state("lift \u{e5}", calls.clone(), true).to_string()) {
        Some(ElevatorMessage::ElevatorState { id, floor, direction, call_buttons, is_obstructed }) => {
            assert_eq!(id, "lift \u{e5}");
            assert_eq!(floor, 2);
            assert_eq!(direction, DIRN_DOWN);
            assert_eq!(call_buttons, calls);
            assert!(is_obstructed);
        }
        _ => panic!("not a state"),
    }
}

#[test]
fn sync_request_reads_back() {
    for id in ["3", "", "lift \u{e5}"] {
        let text = ElevatorMessage::SyncRequest { id: id.to_string() }.to_string();
        match ElevatorMessage::from_string(&text) {
            Some(ElevatorMessage::SyncRequest { id: again }) => assert_eq!(again, id),
            _ => panic!("not a request"),
        }
    }
    match ElevatorMessage::from_string("SYNC|3|x") {
        Some(ElevatorMessage::SyncRequest { id }) => assert_eq!(id, "3"),
        _ => panic!("not a request"),
    }
}

#[test]
fn broken_messages_are_refused() {
    let broken = [
        "",
        "|",
        "hall|1|1|1",
        "HALL",
        "HALL|1|1",
        "HALL|1|1|",
        "HALL|256|1|1",
        "HALL|1|-1|1",
        "HALL|1|1|18446744073709551616",
        "STATE|1|2|3",
        "STATE|1|x|3|",
        "STATE|1|2|x|",
        "STATE|1|2|3||x",
        "STATE|1|2|3||",
        "COMPLETED|1",
        "COMPLETED|1|x",
        "COMPLETED|x|1",
        "SYNC",
        "sync|1",
        "UNKNOWN|1|2|3",
    ];
    for s in broken {
        assert!(ElevatorMessage::from_string(s).is_none(), "{:?}", s);
    }
}

#[test]
fn further_fields_are_passed_over() {
    assert!(matches!(
        ElevatorMessage::from_string("HALL|1|0|9|x|y"),
        Some(ElevatorMessage::HallCall { floor: 1, direction: 0, timestamp: 9 })
    ));
    assert!(matches!(
        ElevatorMessage::from_string("COMPLETED|+1|01|"),
        Some(ElevatorMessage::CompletedCall { floor: 1, direction: 1 })
    ));
}

#[test]
fn state_without_obstruction_flag_is_free() {
    match ElevatorMessage::from_string("STATE|7|1|0|1,1") {
        Some(ElevatorMessage::ElevatorState { id, call_buttons, is_obstructed, .. }) => {
            assert_eq!(id, "7");
            assert_eq!(call_buttons, vec![vec![1, 1]]);
            assert!(!is_obstructed);
        }
        _ => panic!("not a state"),
    }
    assert!(matches!(
        ElevatorMessage::from_string("STATE|7|1|0||9"),
        Some(ElevatorMessage::ElevatorState { is_obstructed: true, .. })
    ));
}

#[test]
fn entries_that_write_no_call_are_passed_over() {
    assert_eq!(parse_call_list("1,2;x,1;3;4,5,6;256,0;;0,0"), vec![vec![1, 2], vec![0, 0]]);
    assert!(parse_call_list("").is_empty());
    assert!(parse_call_list(";").is_empty());
}

#[test]
fn calls_are_written() {
    assert_eq!(call_to_text(&vec![3, 2]), "3,2");
    assert_eq!(call_to_text(&vec![255, 0, 9]), "255,0");
    assert_eq!(call_list_to_text(&vec![vec![3, 2], vec![10, 1]]), "3,2;10,1");
    assert_eq!(call_list_to_text(&vec![]), "");
}

#[test]
fn bytes_are_read() {
    assert_eq!(parse_byte("255"), Some(255));
    assert_eq!(parse_byte("256"), None);
    assert_eq!(parse_byte(""), None);
}
