use driver_rust::action::Action;
use driver_rust::control::{depart, ServeOutcome};
use driver_rust::elevio::cost::ElevatorMessage;
use driver_rust::elevio::elev::{
    Elevator, CAB, DIRN_DOWN, DIRN_STOP, DIRN_UP, HALL_DOWN, HALL_UP,
};
use driver_rust::elevio::fault_handler::{parse_state_lines, ElevatorHealthMonitor};
use driver_rust::elevio::system::ElevatorSystem;
use driver_rust::events::{
    after_stop, on_bytes, on_call_button, on_floor_sensor, on_message, on_obstruction, on_quiet,
    on_stop_button, read_message,
};
use driver_rust::network::p2p_connect::NetworkManager;
use driver_rust::startup::recover;

fn system(floor: u8, direction: u8, calls: &[[u8; 2]]) -> ElevatorSystem {
    let elevator = Elevator {
        num_floors: 4,
        current_floor: floor,
        current_direction: direction,
        call_buttons: calls.iter().map(|call| call.to_vec()).collect(),
        is_obstructed: false,
        obstruction_start_time: None,
        obstruction_waiting: None,
    };
    let mut s = ElevatorSystem::new("1".to_string(), elevator, NetworkManager::new());
    s.add_peer("a".to_string());
    s
}

fn hear(s: &mut ElevatorSystem, id: &str, floor: u8, now: u64) {
    s.handle_elevator_state_message(id.to_string(), floor, DIRN_STOP, vec![], false, now);
}

fn sent(message: &str) -> Action {
    Action::Send { addr: "a".to_string(), message: message.to_string() }
}

fn saved(lines: &[&str]) -> Action {
    Action::SaveState {
        file_name: "elevator_1_state.txt".to_string(),
        lines: lines.iter().map(|line| line.to_string()).collect(),
    }
}

fn light(floor: u8, call: u8, on: bool) -> Action {
    Action::CallButtonLight { floor, call, on }
}

#[test]
fn cab_button_queues_and_saves_the_call() {
    let mut s = system(0, DIRN_STOP, &[]);
    assert_eq!(
        on_call_button(&mut s, 3, CAB, 5),
        vec![light(3, CAB, true), saved(&["0", "0", "3,2"]), Action::MotorDirection(DIRN_UP)]
    );
    assert_eq!(s.local_elevator.call_buttons, vec![vec![3, CAB]]);
    assert_eq!(s.local_elevator.current_direction, DIRN_UP);
    assert_eq!(s.hall_calls.len(), 0);
}

#[test]
fn cab_button_pressed_again_is_not_saved_again() {
    let mut s = system(0, DIRN_UP, &[[3, CAB], [2, CAB]]);
    assert_eq!(on_call_button(&mut s, 3, CAB, 5), vec![light(3, CAB, true)]);
    assert_eq!(s.local_elevator.call_buttons, vec![vec![3, CAB], vec![2, CAB]]);
}

#[test]
fn cab_call_survives_a_restart() {
    let mut s = system(1, DIRN_UP, &[[2, HALL_UP]]);
    let actions = on_call_button(&mut s, 3, CAB, 5);
    let lines = match &actions[1] {
        Action::SaveState { lines, .. } => lines,
        _ => panic!("not saved"),
    };
    let state = parse_state_lines(lines);
    assert_eq!(state, Some((1, DIRN_UP, vec![vec![2, HALL_UP], vec![3, CAB]])));
    let mut restarted = system(0, DIRN_STOP, &[]).local_elevator;
    recover(&mut restarted, state.unwrap());
    assert_eq!(restarted.call_buttons, s.local_elevator.call_buttons);
    assert_eq!(restarted.current_floor, 1);
    assert_eq!(restarted.current_direction, DIRN_UP);
}

#[test]
fn hall_button_is_told_and_assigned() {
    let mut s = system(0, DIRN_STOP, &[]);
    assert_eq!(
        on_call_button(&mut s, 2, HALL_DOWN, 5),
        vec![
            light(2, HALL_DOWN, true),
            sent("HALL|2|1|5"),
            light(2, HALL_DOWN, true),
            Action::MotorDirection(DIRN_UP),
        ]
    );
    assert_eq!(s.hall_calls.get(&(2, HALL_DOWN)), Some(&("1".to_string(), 5)));
}

#[test]
fn floor_is_shown_and_served() {
    let mut s = system(0, DIRN_UP, &[[2, CAB], [3, CAB]]);
    let (outcome, actions) = on_floor_sensor(&mut s, 1);
    assert_eq!(outcome, ServeOutcome::NoCall);
    assert_eq!(actions, vec![Action::FloorIndicator(1)]);
    assert_eq!(s.local_elevator.current_floor, 1);

    let (outcome, actions) = on_floor_sensor(&mut s, 2);
    assert_eq!(outcome, ServeOutcome::DoorOpen);
    assert_eq!(
        actions,
        vec![
            Action::FloorIndicator(2),
            light(2, CAB, false),
            Action::MotorDirection(DIRN_STOP),
            saved(&["2", "1", "3,2"]),
            Action::DoorLight(true),
        ]
    );
    assert_eq!(s.local_elevator.call_buttons, vec![vec![3, CAB]]);
}

#[test]
fn stop_button_stops_and_clears() {
    let mut s = system(1, DIRN_UP, &[[2, CAB], [3, HALL_DOWN]]);
    let actions = on_stop_button(&mut s);
    assert_eq!(actions.len(), 13);
    assert_eq!(actions[0], Action::MotorDirection(DIRN_STOP));
    for floor in 0..4u8 {
        for call in 0..3u8 {
            assert_eq!(actions[1 + 3 * floor as usize + call as usize], light(floor, call, false));
        }
    }
    assert!(s.local_elevator.call_buttons.is_empty());
    assert_eq!(s.local_elevator.current_direction, DIRN_STOP);
}

#[test]
fn stopped_elevator_stays_stopped() {
    let mut s = system(1, DIRN_STOP, &[]);
    s.process_hall_call(3, HALL_DOWN, 5);
    on_stop_button(&mut s);
    assert_eq!(
        after_stop(&mut s, true),
        vec![
            Action::DoorLight(true),
            Action::Pause { millis: 3000 },
            Action::DoorLight(false),
            saved(&["1", "0"]),
            sent("STATE|1|1|0||0"),
        ]
    );
    assert!(s.local_elevator.call_buttons.is_empty());
    assert_eq!(s.hall_calls.get(&(3, HALL_DOWN)), Some(&("1".to_string(), 5)));
    assert_eq!(after_stop(&mut s, false), vec![saved(&["1", "0"]), sent("STATE|1|1|0||0")]);
}

#[test]
fn stopped_elevator_hands_its_calls_on() {
    let mut s = system(2, DIRN_STOP, &[]);
    s.process_hall_call(2, HALL_DOWN, 5);
    s.process_hall_call(3, HALL_DOWN, 6);
    hear(&mut s, "2", 0, 7);
    hear(&mut s, "3", 3, 7);
    s.hall_calls.insert((0, HALL_UP), ("2".to_string(), 8));
    on_stop_button(&mut s);
    assert_eq!(after_stop(&mut s, false), vec![saved(&["2", "0"]), sent("STATE|1|2|0||0")]);
    assert!(s.local_elevator.call_buttons.is_empty());
    assert_eq!(s.local_elevator.current_direction, DIRN_STOP);
    assert_eq!(s.hall_calls.get(&(2, HALL_DOWN)), Some(&("3".to_string(), 5)));
    assert_eq!(s.hall_calls.get(&(3, HALL_DOWN)), Some(&("3".to_string(), 6)));
    assert_eq!(s.hall_calls.get(&(0, HALL_UP)), Some(&("2".to_string(), 8)));
}

#[test]
fn nameless_elevator_stays_stopped_too() {
    let mut s = system(1, DIRN_STOP, &[]);
    s.local_id = String::new();
    s.process_hall_call(3, HALL_DOWN, 5);
    on_stop_button(&mut s);
    after_stop(&mut s, false);
    assert!(s.local_elevator.call_buttons.is_empty());
    assert_eq!(s.hall_calls.get(&(3, HALL_DOWN)), Some(&(String::new(), 5)));
}

#[test]
fn obstruction_at_a_floor_gives_calls_away() {
    let mut s = system(1, DIRN_STOP, &[]);
    s.process_hall_call(2, HALL_UP, 5);
    assert_eq!(s.hall_calls.get(&(2, HALL_UP)), Some(&("1".to_string(), 5)));
    hear(&mut s, "2", 0, 6);
    assert_eq!(on_obstruction(&mut s, true, true, 70), vec![Action::DoorLight(true)]);
    assert!(s.local_elevator.is_obstructed);
    assert_eq!(s.local_elevator.obstruction_start_time, Some(70));
    assert_eq!(s.hall_calls.get(&(2, HALL_UP)), Some(&("2".to_string(), 5)));

    on_obstruction(&mut s, true, true, 80);
    assert_eq!(s.local_elevator.obstruction_start_time, Some(70));
    assert!(on_obstruction(&mut s, false, true, 90).is_empty());
    assert!(!s.local_elevator.is_obstructed);
    assert_eq!(s.local_elevator.obstruction_start_time, None);
}

#[test]
fn obstructed_elevator_keeps_its_calls_if_alone() {
    let mut s = system(1, DIRN_STOP, &[]);
    s.process_hall_call(2, HALL_UP, 5);
    assert_eq!(
        on_obstruction(&mut s, true, true, 70),
        vec![Action::DoorLight(true), light(2, HALL_UP, true)]
    );
    assert_eq!(s.hall_calls.get(&(2, HALL_UP)), Some(&("1".to_string(), 5)));
    assert_eq!(s.local_elevator.call_buttons, vec![vec![2, HALL_UP]]);
}

#[test]
fn obstruction_between_floors_waits_for_the_door() {
    let mut s = system(1, DIRN_UP, &[[3, CAB]]);
    let told = s.state_text();
    assert!(on_obstruction(&mut s, true, false, 70).is_empty());
    assert_eq!(s.local_elevator.call_buttons, vec![vec![3, CAB]]);
    assert_eq!(s.local_elevator.current_direction, DIRN_UP);
    assert!(!s.local_elevator.is_obstructed);
    assert_eq!(s.state_text(), told);
    assert_eq!(s.best_elevator(2, HALL_UP), "1");
    assert_eq!(on_floor_sensor(&mut s, 2).0, ServeOutcome::NoCall);
    assert!(!s.local_elevator.is_obstructed);
    assert_eq!(on_floor_sensor(&mut s, 3).0, ServeOutcome::HeldOpen);
    assert!(s.local_elevator.is_obstructed);
    assert_eq!(s.local_elevator.obstruction_start_time, Some(70));
    assert_eq!(s.local_elevator.obstruction_waiting, None);

    let mut s = system(1, DIRN_UP, &[[3, CAB]]);
    on_obstruction(&mut s, true, false, 70);
    assert!(on_obstruction(&mut s, false, false, 71).is_empty());
    assert_eq!(s.local_elevator.obstruction_start_time, None);
    assert_eq!(on_floor_sensor(&mut s, 3).0, ServeOutcome::DoorOpen);
}

#[test]
fn elevator_on_its_way_bids_as_before() {
    let mut s = system(1, DIRN_STOP, &[]);
    hear(&mut s, "2", 3, 6);
    on_obstruction(&mut s, true, false, 70);
    assert_eq!(s.best_elevator(1, HALL_UP), "1");
    on_obstruction(&mut s, true, true, 71);
    assert_eq!(s.best_elevator(1, HALL_UP), "2");
}

#[test]
fn obstruction_that_takes_hold_gives_calls_away() {
    let mut s = system(1, DIRN_STOP, &[]);
    s.process_hall_call(3, HALL_DOWN, 5);
    on_call_button(&mut s, 2, CAB, 6);
    hear(&mut s, "2", 0, 7);
    on_obstruction(&mut s, true, false, 70);
    assert_eq!(s.hall_calls.get(&(3, HALL_DOWN)), Some(&("1".to_string(), 5)));
    let (outcome, actions) = on_floor_sensor(&mut s, 2);
    assert_eq!(outcome, ServeOutcome::HeldOpen);
    assert_eq!(actions.last(), Some(&Action::DoorLight(true)));
    assert_eq!(s.hall_calls.get(&(3, HALL_DOWN)), Some(&("2".to_string(), 5)));

    let mut alone = system(1, DIRN_STOP, &[]);
    alone.process_hall_call(3, HALL_DOWN, 5);
    on_call_button(&mut alone, 2, CAB, 6);
    on_obstruction(&mut alone, true, false, 70);
    let (_, actions) = on_floor_sensor(&mut alone, 2);
    assert_eq!(
        actions,
        vec![
            Action::FloorIndicator(2),
            light(2, CAB, false),
            Action::MotorDirection(DIRN_STOP),
            saved(&["2", "1", "3,1"]),
            Action::DoorLight(true),
            light(3, HALL_DOWN, true),
        ]
    );
}

#[test]
fn obstructed_elevator_does_not_move() {
    let mut s = system(1, DIRN_STOP, &[]);
    on_obstruction(&mut s, true, true, 70);
    assert_eq!(
        on_call_button(&mut s, 3, CAB, 71),
        vec![light(3, CAB, true), saved(&["1", "0", "3,2"])]
    );
    assert_eq!(
        on_call_button(&mut s, 2, HALL_UP, 72),
        vec![light(2, HALL_UP, true), sent("HALL|2|0|72"), light(2, HALL_UP, true)]
    );
    assert_eq!(s.local_elevator.call_buttons, vec![vec![3, CAB], vec![2, HALL_UP]]);
    assert_eq!(s.local_elevator.current_direction, DIRN_STOP);
    assert!(depart(&mut s, 1).is_empty());
    assert_eq!(s.local_elevator.current_direction, DIRN_STOP);

    on_obstruction(&mut s, false, true, 80);
    assert_eq!(
        on_call_button(&mut s, 3, CAB, 81),
        vec![light(3, CAB, true), Action::MotorDirection(DIRN_UP)]
    );
}

#[test]
fn message_is_read_from_bytes() {
    assert!(matches!(
        read_message(b"HALL|1|0|9"),
        Some(ElevatorMessage::HallCall { floor: 1, direction: HALL_UP, timestamp: 9 })
    ));
    assert!(read_message(b"").is_none());
    assert!(read_message(b"HALL|1|0|9\n").is_none());
    assert!(read_message(b"\xffHALL|1|0|9").is_none());
}

#[test]
fn malformed_bytes_are_replaced() {
    match read_message(b"STATE|a\xffb|1|0||0") {
        Some(ElevatorMessage::ElevatorState { id, .. }) => assert_eq!(id, "a\u{fffd}b"),
        _ => panic!("not a state"),
    }
    match read_message("STATE|\u{e5}\u{1f6d7}|1|0||0".as_bytes()) {
        Some(ElevatorMessage::ElevatorState { id, .. }) => assert_eq!(id, "\u{e5}\u{1f6d7}"),
        _ => panic!("not a state"),
    }
}

#[test]
fn written_message_survives_the_wire() {
    let message = ElevatorMessage::ElevatorState {
        id: "\u{e5}".to_string(),
        floor: 3,
        direction: DIRN_DOWN,
        call_buttons: vec![vec![0, CAB], vec![1, HALL_UP]],
        is_obstructed: true,
    };
    let text = message.to_string();
    match read_message(text.as_bytes()) {
        Some(again) => assert_eq!(again.to_string(), text),
        None => panic!("not read"),
    }
}

#[test]
fn state_message_is_a_sign_of_life() {
    let mut s = system(0, DIRN_STOP, &[]);
    let mut m = ElevatorHealthMonitor::new();
    let state = ElevatorMessage::from_string("STATE|2|3|0||0").unwrap();
    on_message(&mut s, &mut m, state, "b".to_string(), 42, 1000);
    assert!(m.is_active("2", 1000));
    assert_eq!(s.elevator_states.get(&"2".to_string()).unwrap().last_seen, 42);
    assert_eq!(s.peers, vec!["a".to_string(), "b".to_string()]);

    let call = ElevatorMessage::from_string("HALL|3|1|7").unwrap();
    assert!(on_message(&mut s, &mut m, call, "c".to_string(), 43, 2000).len() == 1);
    assert_eq!(m.get_active_elevators(2000), vec!["2".to_string()]);
    assert_eq!(s.hall_calls.get(&(3, HALL_DOWN)), Some(&("2".to_string(), 7)));
}

#[test]
fn bytes_are_taken_in() {
    let mut s = system(0, DIRN_STOP, &[]);
    let mut m = ElevatorHealthMonitor::new();
    assert_eq!(
        on_bytes(&mut s, &mut m, b"COMPLETED|2|1", "b".to_string(), 1, 1),
        Some(vec![light(2, HALL_DOWN, false)])
    );
    assert_eq!(s.peers.len(), 2);
    assert_eq!(on_bytes(&mut s, &mut m, b"nonsense", "c".to_string(), 1, 1), Some(vec![]));
    assert_eq!(s.peers.len(), 2);
    assert!(on_bytes(&mut s, &mut m, b"STATE|x\xff|1|0||0", "b".to_string(), 1, 1).is_some());
    assert!(m.is_active("x\u{fffd}", 1));
}

#[test]
fn sync_request_from_bytes_is_answered() {
    let mut s = system(0, DIRN_STOP, &[]);
    let mut m = ElevatorHealthMonitor::new();
    s.process_hall_call(2, HALL_UP, 50);
    assert_eq!(
        on_bytes(&mut s, &mut m, b"SYNC|3", "a".to_string(), 1, 1),
        Some(vec![sent("HALL|2|0|50")])
    );
}

#[test]
fn silence_gives_up_lost_elevators() {
    let mut s = system(0, DIRN_STOP, &[]);
    hear(&mut s, "2", 3, 100);
    s.process_hall_call(3, HALL_DOWN, 100);
    assert_eq!(on_quiet(&mut s, 105), vec![sent("STATE|1|0|0||0")]);
    assert_eq!(
        on_quiet(&mut s, 106),
        vec![
            light(3, HALL_DOWN, true),
            Action::MotorDirection(DIRN_UP),
            sent("STATE|1|0|1|3,1|0"),
        ]
    );
    assert_eq!(s.hall_calls.get(&(3, HALL_DOWN)), Some(&("1".to_string(), 100)));
}
