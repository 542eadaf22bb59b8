use driver_rust::action::Action;
use driver_rust::elevio::cost::{ElevatorMessage, MAX_QUEUE};
use driver_rust::elevio::elev::{
    Elevator, CAB, DIRN_DOWN, DIRN_STOP, DIRN_UP, HALL_DOWN, HALL_UP,
};
use driver_rust::elevio::system::ElevatorSystem;
use driver_rust::network::p2p_connect::NetworkManager;

fn system(id: &str, floor: u8) -> ElevatorSystem {
    let elevator = Elevator {
        num_floors: 4,
        current_floor: floor,
        current_direction: DIRN_STOP,
        call_buttons: vec![],
        is_obstructed: false,
        obstruction_start_time: None,
        obstruction_waiting: None,
    };
    ElevatorSystem::new(id.to_string(), elevator, NetworkManager::new())
}

fn hear(s: &mut ElevatorSystem, id: &str, floor: u8, obstructed: bool, now: u64) -> Vec<Action> {
    s.handle_elevator_state_message(id.to_string(), floor, DIRN_STOP, vec![], obstructed, now)
}

fn holder(s: &ElevatorSystem, floor: u8, direction: u8) -> Option<(String, u64)> {
    s.hall_calls.get(&(floor, direction)).cloned()
}

fn held(id: &str, timestamp: u64) -> Option<(String, u64)> {
    Some((id.to_string(), timestamp))
}

fn sent(addr: &str, message: &str) -> Action {
    Action::Send { addr: addr.to_string(), message: message.to_string() }
}

fn light(floor: u8, call: u8, on: bool) -> Action {
    Action::CallButtonLight { floor, call, on }
}

#[test]
fn new_system_is_empty() {
    let s = system("1", 2);
    assert_eq!(s.local_id, "1");
    assert_eq!(s.local_elevator.current_floor, 2);
    assert_eq!(s.hall_calls.len(), 0);
    assert_eq!(s.elevator_states.len(), 0);
    assert!(s.peers.is_empty());
    assert!(s.known_calls().is_empty());
}

#[test]
fn peers_are_listed_once() {
    let mut s = system("1", 0);
    s.add_peer("a".to_string());
    s.add_peer("b".to_string());
    s.add_peer("a".to_string());
    assert_eq!(s.peers, vec!["a".to_string(), "b".to_string()]);
}

#[test]
fn message_goes_to_all_peers() {
    let mut s = system("1", 0);
    assert!(s.broadcast_message("x").is_empty());
    s.add_peer("a".to_string());
    s.add_peer("b".to_string());
    assert_eq!(s.broadcast_message("x"), vec![sent("a", "x"), sent("b", "x")]);
}

#[test]
fn state_is_broadcast() {
    let mut s = system("1", 2);
    s.local_elevator.call_buttons = vec![vec![3, CAB]];
    s.add_peer("a".to_string());
    assert_eq!(s.state_text(), "STATE|1|2|0|3,2|0");
    assert_eq!(s.broadcast_state(), vec![sent("a", "STATE|1|2|0|3,2|0")]);
}

#[test]
fn hall_call_goes_to_the_only_elevator() {
    let mut s = system("1", 0);
    s.add_peer("a".to_string());
    let actions = s.process_hall_call(2, HALL_UP, 50);
    assert_eq!(
        actions,
        vec![
            sent("a", "HALL|2|0|50"),
            light(2, HALL_UP, true),
            Action::MotorDirection(DIRN_UP),
        ]
    );
    assert_eq!(holder(&s, 2, HALL_UP), held("1", 50));
    assert_eq!(s.local_elevator.call_buttons, vec![vec![2, HALL_UP]]);
    assert_eq!(s.local_elevator.current_direction, DIRN_UP);
}

#[test]
fn hall_call_goes_to_the_nearest_elevator() {
    let mut s = system("1", 0);
    hear(&mut s, "2", 3, false, 10);
    assert_eq!(s.best_elevator(2, HALL_UP), "2");
    let actions = s.process_hall_call(2, HALL_UP, 50);
    assert!(actions.is_empty());
    assert_eq!(holder(&s, 2, HALL_UP), held("2", 50));
    assert!(s.local_elevator.call_buttons.is_empty());
}

#[test]
fn tie_goes_to_the_earlier_name() {
    let mut s = system("2", 1);
    hear(&mut s, "3", 3, false, 10);
    assert_eq!(s.best_elevator(2, HALL_UP), "2");
    hear(&mut s, "10", 1, false, 10);
    assert_eq!(s.best_elevator(2, HALL_UP), "10");
}

#[test]
fn two_elevators_agree() {
    for floor in 0..4 {
        for (a, b) in [(0, 3), (1, 1), (2, 3)] {
            let mut s = system("1", a);
            let mut t = system("2", b);
            hear(&mut s, "2", b, false, 10);
            hear(&mut s, "3", 2, false, 10);
            hear(&mut t, "3", 2, false, 10);
            hear(&mut t, "1", a, false, 10);
            assert_eq!(s.best_elevator(floor, HALL_UP), t.best_elevator(floor, HALL_UP));
        }
    }
}

#[test]
fn best_of_the_others() {
    let mut s = system("1", 2);
    assert_eq!(s.best_other_elevator(2, HALL_UP), None);
    hear(&mut s, "1", 2, false, 10);
    assert_eq!(s.best_other_elevator(2, HALL_UP), None);
    hear(&mut s, "3", 1, false, 10);
    hear(&mut s, "2", 3, false, 10);
    assert_eq!(s.best_other_elevator(2, HALL_UP), Some("2".to_string()));
    assert_eq!(s.best_other_elevator(0, HALL_UP), Some("3".to_string()));
}

#[test]
fn obstructed_elevator_is_not_chosen() {
    let mut s = system("1", 2);
    hear(&mut s, "2", 0, false, 10);
    s.local_elevator.is_obstructed = true;
    assert_eq!(s.best_elevator(2, HALL_UP), "2");
    hear(&mut s, "2", 0, true, 11);
    assert_eq!(s.best_elevator(2, HALL_UP), "1");
}

#[test]
fn assigned_call_stays_with_its_elevator() {
    let mut s = system("1", 0);
    s.process_hall_call(2, HALL_UP, 50);
    hear(&mut s, "2", 2, false, 60);
    assert_eq!(holder(&s, 2, HALL_UP), held("1", 50));
    assert!(s.assign_hall_call(2, HALL_UP, 50).is_empty());
    assert_eq!(holder(&s, 2, HALL_UP), held("1", 50));
    assert!(s.assign_hall_call(2, HALL_UP, 51).is_empty());
    assert_eq!(holder(&s, 2, HALL_UP), held("2", 51));
}

#[test]
fn older_time_takes_no_call_away() {
    let mut s = system("1", 0);
    s.process_hall_call(2, HALL_UP, 50);
    hear(&mut s, "2", 2, false, 60);
    assert!(s.assign_hall_call(2, HALL_UP, 49).is_empty());
    assert_eq!(holder(&s, 2, HALL_UP), held("1", 50));
    assert_eq!(s.local_elevator.call_buttons, vec![vec![2, HALL_UP]]);
    assert_eq!(s.local_elevator.current_direction, DIRN_UP);
}

#[test]
fn well_informed_elevators_assign_alike() {
    let mut s = system("1", 0);
    let mut t = system("2", 3);
    hear(&mut s, "2", 3, false, 10);
    hear(&mut s, "3", 1, true, 10);
    hear(&mut t, "3", 1, true, 10);
    hear(&mut t, "1", 0, false, 10);
    s.assign_hall_call(2, HALL_UP, 50);
    t.assign_hall_call(2, HALL_UP, 50);
    assert_eq!(holder(&s, 2, HALL_UP), held("2", 50));
    assert_eq!(holder(&t, 2, HALL_UP), held("2", 50));
    assert!(s.local_elevator.call_buttons.is_empty());
    assert_eq!(t.local_elevator.call_buttons, vec![vec![2, HALL_UP]]);
}

#[test]
fn order_of_appearance_does_not_matter() {
    let mut s = system("5", 0);
    let mut t = system("5", 0);
    for (id, floor) in [("1", 3), ("2", 2), ("3", 2)] {
        hear(&mut s, id, floor, false, 10);
    }
    for (id, floor) in [("3", 2), ("2", 2), ("1", 3)] {
        hear(&mut t, id, floor, false, 10);
    }
    for floor in 0..4 {
        assert_eq!(s.best_elevator(floor, HALL_UP), t.best_elevator(floor, HALL_UP));
    }
    assert_eq!(s.best_elevator(2, HALL_UP), "2");
}

#[test]
fn word_may_come_in_any_order() {
    for (first, second) in [(5, 9), (9, 5), (7, 7)] {
        let mut s = system("1", 0);
        s.handle_hall_call_message(2, HALL_UP, first);
        assert_eq!(holder(&s, 2, HALL_UP), held("1", first));
        s.handle_hall_call_message(2, HALL_UP, second);
        assert_eq!(holder(&s, 2, HALL_UP), held("1", first.max(second)));
    }
}

#[test]
fn completion_undoes_a_call() {
    for other in [0, 3] {
        let mut s = system("1", 1);
        s.process_hall_call(3, HALL_DOWN, 4);
        hear(&mut s, "2", other, false, 10);
        let calls = s.known_calls();
        let queue = s.local_elevator.call_buttons.clone();
        s.handle_hall_call_message(2, HALL_UP, 50);
        assert_eq!(s.hall_calls.len(), 2);
        s.handle_completed_call_message(2, HALL_UP);
        assert_eq!(s.known_calls(), calls);
        assert_eq!(s.local_elevator.call_buttons, queue);
    }
}

#[test]
fn call_is_queued_once() {
    let mut s = system("1", 0);
    s.process_hall_call(2, HALL_UP, 50);
    s.process_hall_call(2, HALL_UP, 51);
    assert_eq!(s.local_elevator.call_buttons, vec![vec![2, HALL_UP]]);
    assert!(!s.queue_call(2, HALL_UP));
    assert!(s.queue_call(2, HALL_DOWN));
    assert_eq!(s.local_elevator.call_buttons, vec![vec![2, HALL_UP], vec![2, HALL_DOWN]]);
}

#[test]
fn newest_word_of_a_call_counts() {
    let mut s = system("1", 0);
    assert_eq!(
        s.handle_hall_call_message(1, HALL_UP, 50),
        vec![
            light(1, HALL_UP, true),
            light(1, HALL_UP, true),
            Action::MotorDirection(DIRN_UP),
        ]
    );
    assert!(s.handle_hall_call_message(1, HALL_UP, 50).is_empty());
    assert!(s.handle_hall_call_message(1, HALL_UP, 49).is_empty());
    assert_eq!(holder(&s, 1, HALL_UP), held("1", 50));
    assert!(!s.handle_hall_call_message(1, HALL_UP, 51).is_empty());
    assert_eq!(holder(&s, 1, HALL_UP), held("1", 51));
}

#[test]
fn state_of_another_elevator_is_kept() {
    let mut s = system("1", 0);
    let calls = vec![vec![1, CAB]];
    s.handle_elevator_state_message("2".to_string(), 3, DIRN_DOWN, calls.clone(), true, 77);
    let state = s.elevator_states.get(&"2".to_string()).unwrap();
    assert_eq!(state.floor, 3);
    assert_eq!(state.direction, DIRN_DOWN);
    assert_eq!(state.call_buttons, calls);
    assert_eq!(state.last_seen, 77);
    assert!(state.is_obstructed);
    assert_eq!(state.obstruction_duration, 0);
}

#[test]
fn open_calls_are_assigned_on_news() {
    let mut s = system("1", 0);
    s.hall_calls.insert((3, HALL_DOWN), (String::new(), 5));
    let actions = hear(&mut s, "2", 2, false, 10);
    assert!(actions.is_empty());
    assert_eq!(holder(&s, 3, HALL_DOWN), held("2", 5));
}

#[test]
fn completed_call_leaves_record_and_queue() {
    let mut s = system("1", 0);
    s.process_hall_call(2, HALL_UP, 50);
    let actions = s.handle_completed_call_message(2, HALL_UP);
    assert_eq!(
        actions,
        vec![
            light(2, HALL_UP, false),
            Action::SaveState {
                file_name: "elevator_1_state.txt".to_string(),
                lines: vec!["0".to_string(), "1".to_string()],
            },
        ]
    );
    assert_eq!(holder(&s, 2, HALL_UP), None);
    assert!(s.local_elevator.call_buttons.is_empty());
}

#[test]
fn completed_call_of_another_leaves_the_queue_alone() {
    let mut s = system("1", 0);
    hear(&mut s, "2", 2, false, 10);
    s.process_hall_call(2, HALL_UP, 50);
    s.local_elevator.call_buttons = vec![vec![2, HALL_UP]];
    assert_eq!(s.handle_completed_call_message(2, HALL_UP), vec![light(2, HALL_UP, false)]);
    assert_eq!(s.local_elevator.call_buttons, vec![vec![2, HALL_UP]]);
    assert_eq!(s.handle_completed_call_message(2, HALL_UP), vec![light(2, HALL_UP, false)]);
}

#[test]
fn served_call_is_announced() {
    let mut s = system("1", 0);
    s.add_peer("a".to_string());
    s.process_hall_call(2, HALL_UP, 50);
    assert_eq!(s.complete_call(2, HALL_UP), vec![sent("a", "COMPLETED|2|0")]);
    assert_eq!(holder(&s, 2, HALL_UP), None);
}

#[test]
fn sync_request_is_answered_with_all_calls() {
    let mut s = system("1", 0);
    s.process_hall_call(2, HALL_UP, 50);
    s.process_hall_call(3, HALL_DOWN, 51);
    s.add_peer("a".to_string());
    s.add_peer("b".to_string());
    assert_eq!(
        s.handle_sync_request("2".to_string()),
        vec![
            sent("a", "HALL|2|0|50"),
            sent("b", "HALL|2|0|50"),
            sent("a", "HALL|3|1|51"),
            sent("b", "HALL|3|1|51"),
        ]
    );
}

#[test]
fn calls_held_by_some_elevators() {
    let mut s = system("1", 0);
    s.hall_calls.insert((1, HALL_UP), ("2".to_string(), 5));
    s.hall_calls.insert((2, HALL_UP), ("1".to_string(), 6));
    s.hall_calls.insert((3, HALL_DOWN), ("3".to_string(), 7));
    let ids = vec!["3".to_string(), "2".to_string()];
    assert_eq!(s.calls_held_by(&ids), vec![(1, HALL_UP, 5), (3, HALL_DOWN, 7)]);
    assert_eq!(s.known_calls(), vec![(1, HALL_UP, 5), (2, HALL_UP, 6), (3, HALL_DOWN, 7)]);
}

#[test]
fn silent_elevator_loses_its_calls() {
    let mut s = system("1", 0);
    hear(&mut s, "2", 3, false, 100);
    hear(&mut s, "3", 1, false, 103);
    s.process_hall_call(3, HALL_DOWN, 100);
    assert_eq!(holder(&s, 3, HALL_DOWN), held("2", 100));
    assert!(s.check_disconnected_elevators(105).is_empty());
    assert_eq!(holder(&s, 3, HALL_DOWN), held("2", 100));
    s.check_disconnected_elevators(106);
    assert_eq!(holder(&s, 3, HALL_DOWN), held("3", 100));
    assert_eq!(s.elevator_states.len(), 1);
    s.check_disconnected_elevators(109);
    assert_eq!(holder(&s, 3, HALL_DOWN), held("1", 100));
    assert_eq!(s.elevator_states.len(), 0);
}

#[test]
fn clock_that_goes_back_loses_nobody() {
    let mut s = system("1", 0);
    hear(&mut s, "2", 3, false, 100);
    assert!(s.check_disconnected_elevators(0).is_empty());
    assert_eq!(s.elevator_states.len(), 1);
}

#[test]
fn both_ways_of_reassigning_agree() {
    let build = || {
        let mut s = system("1", 0);
        s.hall_calls.insert((1, HALL_UP), ("2".to_string(), 5));
        s.hall_calls.insert((2, HALL_UP), ("1".to_string(), 6));
        s.hall_calls.insert((3, HALL_DOWN), ("2".to_string(), 7));
        hear(&mut s, "3", 3, false, 100);
        s
    };
    let ids = vec!["2".to_string()];
    let mut s = build();
    let mut t = build();
    let a = s.process_calls_from_disconnected_elevators(&ids);
    let calls = t.calls_held_by(&ids);
    let b = t.turn_over_calls(&calls);
    assert_eq!(a, b);
    assert_eq!(s.known_calls(), t.known_calls());
    for (floor, direction) in [(1, HALL_UP), (2, HALL_UP), (3, HALL_DOWN)] {
        assert_eq!(holder(&s, floor, direction), holder(&t, floor, direction));
    }
    assert_eq!(s.local_elevator.call_buttons, t.local_elevator.call_buttons);
    assert_eq!(holder(&s, 1, HALL_UP), held("1", 5));
    assert_eq!(holder(&s, 3, HALL_DOWN), held("3", 7));
}

#[test]
fn sender_of_a_message_becomes_a_peer() {
    let mut s = system("1", 0);
    let message = ElevatorMessage::HallCall { floor: 1, direction: HALL_UP, timestamp: 5 };
    s.process_message(message.clone(), Some("a".to_string()), 9);
    s.process_message(message, None, 9);
    assert_eq!(s.peers, vec!["a".to_string()]);
    assert_eq!(holder(&s, 1, HALL_UP), held("1", 5));
}

#[test]
fn every_message_is_taken_in() {
    let mut s = system("1", 0);
    let state = ElevatorMessage::ElevatorState {
        id: "2".to_string(),
        floor: 3,
        direction: DIRN_STOP,
        call_buttons: vec![],
        is_obstructed: false,
    };
    s.process_message(state, Some("a".to_string()), 42);
    assert_eq!(s.elevator_states.get(&"2".to_string()).unwrap().last_seen, 42);
    s.process_message(
        ElevatorMessage::HallCall { floor: 3, direction: HALL_DOWN, timestamp: 5 },
        None,
        43,
    );
    assert_eq!(holder(&s, 3, HALL_DOWN), held("2", 5));
    assert_eq!(
        s.process_message(ElevatorMessage::SyncRequest { id: "2".to_string() }, None, 44),
        vec![sent("a", "HALL|3|1|5")]
    );
    s.process_message(ElevatorMessage::CompletedCall { floor: 3, direction: HALL_DOWN }, None, 45);
    assert_eq!(holder(&s, 3, HALL_DOWN), None);
}

#[test]
fn room_in_the_queue() {
    let mut s = system("1", 0);
    assert!(s.has_room_for(1));
    assert!(s.has_room_for(MAX_QUEUE + 1));
    assert!(!s.has_room_for(MAX_QUEUE + 2));
    s.queue_call(1, CAB);
    assert!(!s.has_room_for(MAX_QUEUE + 1));
    s.local_elevator.is_obstructed = true;
    assert!(s.has_room_for(usize::MAX));
    assert!(s.can_process(&ElevatorMessage::HallCall { floor: 1, direction: 0, timestamp: 1 }));
}

#[test]
fn reached_peer_is_added() {
    let mut s = system("1", 0);
    assert_eq!(s.establish_bidirectional_connection("a", false), None);
    assert!(s.peers.is_empty());
    assert_eq!(
        s.establish_bidirectional_connection("a", true),
        Some("STATE|1|0|0||0".to_string())
    );
    assert_eq!(s.peers, vec!["a".to_string()]);
}
