use driver_rust::action::Action;
use driver_rust::elevio::elev::{Elevator, CAB, DIRN_STOP, DIRN_UP, HALL_DOWN, HALL_UP};
use driver_rust::elevio::fault_handler::{
    check_health, parse_state_lines, reassign_hall_calls, save_state, state_file_name, state_lines,
    ElevatorHealthMonitor, ELEVATOR_TIMEOUT, HEARTBEAT_INTERVAL,
};
use driver_rust::elevio::system::ElevatorSystem;
use driver_rust::network::p2p_connect::NetworkManager;

fn strings(texts: &[&str]) -> Vec<String> {
    texts.iter().map(|t| t.to_string()).collect()
}

fn elevator(floor: u8) -> Elevator {
    Elevator {
        num_floors: 4,
        current_floor: floor,
        current_direction: DIRN_STOP,
        call_buttons: vec![],
        is_obstructed: false,
        obstruction_start_time: None,
        obstruction_waiting: None,
    }
}

fn system(floor: u8) -> ElevatorSystem {
    ElevatorSystem::new("1".to_string(), elevator(floor), NetworkManager::new())
}

#[test]
fn silent_elevators_are_given_up() {
    let mut m = ElevatorHealthMonitor::new();
    assert!(!m.is_active("1", 0));
    m.record_heartbeat("1", 10);
    m.record_heartbeat("2", 20);
    assert!(m.is_active("1", 10));
    assert_eq!(m.get_active_elevators(20), strings(&["1", "2"]));

    let limit = 10 + ELEVATOR_TIMEOUT;
    assert!(m.is_active("1", limit - 1));
    assert!(!m.is_active("1", limit));
    assert_eq!(m.get_active_elevators(limit), strings(&["2"]));
    assert!(m.check_disconnected_elevators(limit).is_empty());
    assert_eq!(m.check_disconnected_elevators(limit + 1), strings(&["1"]));
    assert!(m.check_disconnected_elevators(limit + 1).is_empty());
    assert_eq!(m.get_active_elevators(limit + 1), strings(&["2"]));
}

#[test]
fn heartbeat_keeps_an_elevator_alive() {
    let mut m = ElevatorHealthMonitor::new();
    m.record_heartbeat("1", 0);
    m.record_heartbeat("1", ELEVATOR_TIMEOUT);
    assert!(m.is_active("1", ELEVATOR_TIMEOUT + 1));
    assert!(m.check_disconnected_elevators(ELEVATOR_TIMEOUT + 1).is_empty());
    assert!(m.is_active("1", 0));
}

#[test]
fn intervals_of_the_monitor() {
    assert_eq!(ELEVATOR_TIMEOUT, 5_000_000_000);
    assert_eq!(HEARTBEAT_INTERVAL, 500);
}

#[test]
fn state_file_carries_the_name() {
    assert_eq!(state_file_name("3"), "elevator_3_state.txt");
    assert_eq!(state_file_name(""), "elevator__state.txt");
}

#[test]
fn state_is_saved_line_by_line() {
    let calls = vec![vec![3, CAB], vec![1], vec![0, HALL_UP, 9]];
    assert_eq!(state_lines(2, 255, &calls), strings(&["2", "255", "3,2", "0,0"]));
    let mut e = elevator(1);
    e.call_buttons = vec![vec![2, HALL_DOWN]];
    assert_eq!(
        save_state("7", &e),
        Action::SaveState {
            file_name: "elevator_7_state.txt".to_string(),
            lines: strings(&["1", "0", "2,1"]),
        }
    );
}

#[test]
fn saved_state_reads_back() {
    let calls = vec![vec![3, CAB], vec![0, HALL_UP]];
    assert_eq!(parse_state_lines(&state_lines(2, DIRN_UP, &calls)), Some((2, DIRN_UP, calls)));
    assert_eq!(parse_state_lines(&state_lines(0, 0, &vec![])), Some((0, 0, vec![])));
}

#[test]
fn damaged_state_is_read_as_far_as_possible() {
    assert_eq!(parse_state_lines(&strings(&[])), None);
    assert_eq!(parse_state_lines(&strings(&["2"])), None);
    assert_eq!(parse_state_lines(&strings(&["x", ""])), Some((0, 0, vec![])));
    assert_eq!(
        parse_state_lines(&strings(&["2", "256", "1,2,3", "4", "", "x,1", "5,0"])),
        Some((2, 0, vec![vec![1, 2], vec![5, 0]]))
    );
}

#[test]
fn calls_of_lost_elevators_are_reassigned() {
    let mut s = system(0);
    s.handle_elevator_state_message("2".to_string(), 3, DIRN_STOP, vec![], false, 100);
    s.process_hall_call(3, HALL_DOWN, 100);
    assert_eq!(s.hall_calls.get(&(3, HALL_DOWN)), Some(&("2".to_string(), 100)));
    s.process_hall_call(0, HALL_UP, 101);
    assert_eq!(s.hall_calls.get(&(0, HALL_UP)), Some(&("1".to_string(), 101)));

    s.elevator_states.remove(&"2".to_string());
    let actions = reassign_hall_calls(&strings(&["2"]), &mut s);
    assert_eq!(s.hall_calls.get(&(3, HALL_DOWN)), Some(&("1".to_string(), 100)));
    assert_eq!(s.hall_calls.get(&(0, HALL_UP)), Some(&("1".to_string(), 101)));
    assert_eq!(
        actions,
        vec![
            Action::CallButtonLight { floor: 3, call: HALL_DOWN, on: true },
            Action::MotorDirection(DIRN_UP),
        ]
    );
}

#[test]
fn check_reassigns_only_when_an_elevator_is_lost() {
    let mut s = system(0);
    let mut m = ElevatorHealthMonitor::new();
    m.record_heartbeat("1", 0);
    m.record_heartbeat("2", 0);
    s.handle_elevator_state_message("2".to_string(), 3, DIRN_STOP, vec![], false, 100);
    s.process_hall_call(3, HALL_DOWN, 100);
    s.elevator_states.remove(&"2".to_string());

    assert!(check_health(&mut m, &mut s, ELEVATOR_TIMEOUT).is_empty());
    assert_eq!(s.hall_calls.get(&(3, HALL_DOWN)), Some(&("2".to_string(), 100)));
    m.record_heartbeat("1", ELEVATOR_TIMEOUT);
    assert_eq!(check_health(&mut m, &mut s, ELEVATOR_TIMEOUT + 1).len(), 2);
    assert_eq!(s.hall_calls.get(&(3, HALL_DOWN)), Some(&("1".to_string(), 100)));
    assert!(check_health(&mut m, &mut s, ELEVATOR_TIMEOUT + 1).is_empty());
}
