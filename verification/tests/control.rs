use driver_rust::action::Action;
use driver_rust::control::{
    decide_call_by_direction, decide_direction_by_call, decide_next_call, depart,
    direction_to_string, door_wait, find_call_button_index, hall_call_start_dir,
    is_more_request_in_dir, opposite_dir, serve_call, start_elevator, DoorWait, ServeOutcome,
};
use driver_rust::elevio::elev::{
    Elevator, CAB, DIRN_DOWN, DIRN_STOP, DIRN_UP, HALL_DOWN, HALL_UP,
};
use driver_rust::elevio::system::ElevatorSystem;
use driver_rust::network::p2p_connect::NetworkManager;

fn elevator(floor: u8, direction: u8, calls: &[[u8; 2]]) -> Elevator {
    Elevator {
        num_floors: 4,
        current_floor: floor,
        current_direction: direction,
        call_buttons: calls.iter().map(|call| call.to_vec()).collect(),
        is_obstructed: false,
        obstruction_start_time: None,
        obstruction_waiting: None,
    }
}

fn system(floor: u8, direction: u8, calls: &[[u8; 2]]) -> ElevatorSystem {
    let mut s = ElevatorSystem::new(
        "1".to_string(),
        elevator(floor, direction, calls),
        NetworkManager::new(),
    );
    s.add_peer("localhost:8879".to_string());
    s
}

fn saved(lines: &[&str]) -> Action {
    Action::SaveState {
        file_name: "elevator_1_state.txt".to_string(),
        lines: lines.iter().map(|line| line.to_string()).collect(),
    }
}

fn sent(message: &str) -> Action {
    Action::Send { addr: "localhost:8879".to_string(), message: message.to_string() }
}

fn light_off(floor: u8, call: u8) -> Action {
    Action::CallButtonLight { floor, call, on: false }
}

#[test]
fn directions_have_names() {
    assert_eq!(direction_to_string(DIRN_UP), "UP");
    assert_eq!(direction_to_string(DIRN_DOWN), "DOWN");
    assert_eq!(direction_to_string(DIRN_STOP), "STOP");
    assert_eq!(direction_to_string(7), "UNKNOWN");
}

#[test]
fn calls_and_directions_belong_together() {
    assert_eq!(decide_direction_by_call(HALL_UP), DIRN_UP);
    assert_eq!(decide_direction_by_call(HALL_DOWN), DIRN_DOWN);
    assert_eq!(decide_direction_by_call(CAB), DIRN_STOP);
    assert_eq!(decide_call_by_direction(DIRN_UP), HALL_UP);
    assert_eq!(decide_call_by_direction(DIRN_DOWN), HALL_DOWN);
    assert_eq!(decide_call_by_direction(DIRN_STOP), CAB);
    for call in [HALL_UP, HALL_DOWN, CAB] {
        assert_eq!(decide_call_by_direction(decide_direction_by_call(call)), call);
    }
}

#[test]
fn turning_twice_is_not_turning() {
    assert_eq!(opposite_dir(DIRN_UP), DIRN_DOWN);
    assert_eq!(opposite_dir(DIRN_DOWN), DIRN_UP);
    assert_eq!(opposite_dir(DIRN_STOP), DIRN_UP);
    assert_eq!(opposite_dir(opposite_dir(DIRN_UP)), DIRN_UP);
    assert_eq!(opposite_dir(opposite_dir(DIRN_DOWN)), DIRN_DOWN);
}

#[test]
fn start_direction_leads_to_the_floor() {
    assert_eq!(hall_call_start_dir(3, 1, DIRN_STOP), DIRN_UP);
    assert_eq!(hall_call_start_dir(0, 1, DIRN_UP), DIRN_DOWN);
    assert_eq!(hall_call_start_dir(1, 1, DIRN_UP), DIRN_STOP);
}

#[test]
fn only_call_starts_the_elevator() {
    let mut e = elevator(1, DIRN_UP, &[[0, CAB]]);
    assert_eq!(start_elevator(&mut e, 0, DIRN_STOP), vec![Action::MotorDirection(DIRN_DOWN)]);
    assert_eq!(e.current_direction, DIRN_DOWN);
}

#[test]
fn standing_elevator_is_started() {
    let mut e = elevator(1, DIRN_STOP, &[[0, CAB], [3, CAB]]);
    assert_eq!(start_elevator(&mut e, 3, DIRN_STOP), vec![Action::MotorDirection(DIRN_UP)]);
    assert_eq!(e.current_direction, DIRN_UP);
}

#[test]
fn moving_elevator_is_left_alone() {
    let mut e = elevator(1, DIRN_DOWN, &[[0, CAB], [3, CAB]]);
    assert!(start_elevator(&mut e, 3, DIRN_STOP).is_empty());
    assert_eq!(e.current_direction, DIRN_DOWN);
}

#[test]
fn elevator_without_calls_is_not_started() {
    let mut e = elevator(1, DIRN_STOP, &[]);
    assert!(start_elevator(&mut e, 3, DIRN_STOP).is_empty());
    assert_eq!(e.current_direction, DIRN_STOP);
}

#[test]
fn obstructed_elevator_is_not_started() {
    let mut e = elevator(1, DIRN_STOP, &[[3, CAB]]);
    e.is_obstructed = true;
    assert!(start_elevator(&mut e, 3, DIRN_STOP).is_empty());
    assert_eq!(e.current_direction, DIRN_STOP);
}

#[test]
fn next_call_is_ahead_if_there_is_one() {
    let e = elevator(1, DIRN_UP, &[[0, CAB], [1, CAB], [3, HALL_DOWN], [2, CAB]]);
    assert_eq!(decide_next_call(&e), Some(&vec![3, HALL_DOWN]));
    let e = elevator(2, DIRN_DOWN, &[[3, CAB], [2, CAB], [0, HALL_UP]]);
    assert_eq!(decide_next_call(&e), Some(&vec![0, HALL_UP]));
}

#[test]
fn next_call_is_here_if_none_is_ahead() {
    let e = elevator(1, DIRN_UP, &[[0, CAB], [1, HALL_UP]]);
    assert_eq!(decide_next_call(&e), Some(&vec![1, HALL_UP]));
}

#[test]
fn next_call_is_the_first_otherwise() {
    let e = elevator(1, DIRN_STOP, &[[3, CAB], [0, CAB]]);
    assert_eq!(decide_next_call(&e), Some(&vec![3, CAB]));
    assert_eq!(decide_next_call(&elevator(1, DIRN_UP, &[])), None);
}

#[test]
fn requests_in_direction() {
    assert!(is_more_request_in_dir(elevator(1, DIRN_UP, &[[0, CAB], [2, CAB]])));
    assert!(is_more_request_in_dir(elevator(1, DIRN_DOWN, &[[0, CAB]])));
    assert!(!is_more_request_in_dir(elevator(1, DIRN_UP, &[[0, CAB], [1, CAB]])));
    assert!(!is_more_request_in_dir(elevator(1, DIRN_STOP, &[[0, CAB], [2, CAB]])));
}

#[test]
fn floor_of_a_call_is_enough_to_choose_it() {
    let mut e = elevator(1, DIRN_UP, &[]);
    e.call_buttons = vec![vec![0], vec![3]];
    assert_eq!(decide_next_call(&e), Some(&vec![3]));
    assert!(is_more_request_in_dir(e));
}

#[test]
fn call_is_found_at_its_first_place() {
    let e = elevator(1, DIRN_UP, &[[0, CAB], [2, HALL_UP], [2, HALL_UP]]);
    assert_eq!(find_call_button_index(vec![2, HALL_UP], &e), Some(1));
    assert_eq!(find_call_button_index(vec![2, HALL_DOWN], &e), None);
}

#[test]
fn nothing_to_serve() {
    let mut s = system(2, DIRN_UP, &[]);
    let (outcome, actions) = serve_call(&mut s, 2);
    assert_eq!(outcome, ServeOutcome::NoCall);
    assert!(actions.is_empty());

    let mut s = system(2, DIRN_UP, &[[3, CAB]]);
    let (outcome, actions) = serve_call(&mut s, 2);
    assert_eq!(outcome, ServeOutcome::NoCall);
    assert!(actions.is_empty());
    assert_eq!(s.local_elevator.call_buttons, vec![vec![3, CAB]]);
}

#[test]
fn cab_call_is_served_and_saved() {
    let mut s = system(2, DIRN_UP, &[[3, CAB], [2, CAB]]);
    let (outcome, actions) = serve_call(&mut s, 2);
    assert_eq!(outcome, ServeOutcome::DoorOpen);
    assert_eq!(
        actions,
        vec![
            light_off(2, CAB),
            Action::MotorDirection(DIRN_STOP),
            saved(&["2", "1", "3,2"]),
            Action::DoorLight(true),
        ]
    );
    assert_eq!(s.local_elevator.call_buttons, vec![vec![3, CAB]]);
    assert_eq!(s.local_elevator.current_direction, DIRN_UP);
}

#[test]
fn hall_call_is_served_and_announced() {
    let mut s = system(0, DIRN_STOP, &[]);
    s.process_hall_call(2, HALL_UP, 10);
    assert_eq!(s.local_elevator.call_buttons, vec![vec![2, HALL_UP]]);
    s.local_elevator.current_floor = 2;
    let (outcome, actions) = serve_call(&mut s, 2);
    assert_eq!(outcome, ServeOutcome::DoorOpen);
    assert_eq!(
        actions,
        vec![
            light_off(2, HALL_UP),
            Action::MotorDirection(DIRN_STOP),
            sent("COMPLETED|2|0"),
            Action::DoorLight(true),
        ]
    );
    assert_eq!(s.hall_calls.len(), 0);
    assert!(s.local_elevator.call_buttons.is_empty());
}

#[test]
fn cab_call_goes_with_the_hall_call() {
    let mut s = system(2, DIRN_UP, &[[2, HALL_UP], [0, CAB], [2, CAB]]);
    let (outcome, actions) = serve_call(&mut s, 2);
    assert_eq!(outcome, ServeOutcome::DoorOpen);
    assert_eq!(
        actions,
        vec![
            light_off(2, HALL_UP),
            light_off(2, CAB),
            saved(&["2", "1", "0,2"]),
            Action::MotorDirection(DIRN_STOP),
            sent("COMPLETED|2|0"),
            Action::DoorLight(true),
        ]
    );
    assert_eq!(s.local_elevator.call_buttons, vec![vec![0, CAB]]);
}

#[test]
fn call_the_other_way_waits_for_calls_ahead() {
    let mut s = system(2, DIRN_UP, &[[2, HALL_DOWN], [3, CAB]]);
    assert_eq!(serve_call(&mut s, 2).0, ServeOutcome::NoCall);

    let mut s = system(2, DIRN_UP, &[[2, HALL_DOWN], [0, CAB]]);
    assert_eq!(serve_call(&mut s, 2).0, ServeOutcome::DoorOpen);
    assert_eq!(s.local_elevator.call_buttons, vec![vec![0, CAB]]);
}

#[test]
fn obstruction_keeps_the_door_open() {
    let mut s = system(2, DIRN_UP, &[[2, CAB]]);
    s.local_elevator.is_obstructed = true;
    let (outcome, actions) = serve_call(&mut s, 2);
    assert_eq!(outcome, ServeOutcome::HeldOpen);
    assert_eq!(actions.last(), Some(&Action::DoorLight(true)));

    let mut s = system(2, DIRN_UP, &[[3, CAB]]);
    s.local_elevator.is_obstructed = true;
    let (outcome, actions) = serve_call(&mut s, 2);
    assert_eq!(outcome, ServeOutcome::NoCall);
    assert!(actions.is_empty());
}

#[test]
fn motor_stops_before_the_door_opens() {
    let mut s = system(1, DIRN_DOWN, &[[1, HALL_DOWN], [1, CAB], [0, CAB]]);
    let (_, actions) = serve_call(&mut s, 1);
    let stop = actions.iter().position(|a| *a == Action::MotorDirection(DIRN_STOP));
    let open = actions.iter().position(|a| *a == Action::DoorLight(true));
    assert!(stop.is_some());
    assert!(stop < open);
    assert_eq!(open, Some(actions.len() - 1));
    let moving = actions
        .iter()
        .any(|a| matches!(a, Action::MotorDirection(dirn) if *dirn != DIRN_STOP));
    assert!(!moving);
}

#[test]
fn door_is_watched_while_open() {
    assert_eq!(door_wait(None, 0), DoorWait::Wait { millis: 100 });
    assert_eq!(door_wait(Some(false), 2_999_999_999), DoorWait::Wait { millis: 100 });
    assert_eq!(door_wait(Some(false), 3_000_000_000), DoorWait::Elapsed);
    assert_eq!(door_wait(None, 3_000_000_000), DoorWait::Elapsed);
    assert_eq!(door_wait(Some(true), 0), DoorWait::Interrupted);
    assert_eq!(door_wait(Some(true), 3_000_000_000), DoorWait::Interrupted);
}

#[test]
fn idle_elevator_closes_its_door() {
    let mut s = system(2, DIRN_UP, &[]);
    assert_eq!(depart(&mut s, 2), vec![Action::DoorLight(false)]);
    assert_eq!(s.local_elevator.current_direction, DIRN_UP);
}

#[test]
fn elevator_goes_on_in_its_direction() {
    let mut s = system(2, DIRN_UP, &[[0, CAB], [3, CAB]]);
    assert_eq!(
        depart(&mut s, 2),
        vec![
            Action::DoorLight(false),
            Action::MotorDirection(DIRN_UP),
            Action::DoorLight(false),
        ]
    );
    assert_eq!(s.local_elevator.current_direction, DIRN_UP);
    assert_eq!(s.local_elevator.call_buttons, vec![vec![0, CAB], vec![3, CAB]]);
}

#[test]
fn elevator_waits_before_it_turns() {
    let mut s = system(2, DIRN_UP, &[[0, CAB]]);
    assert_eq!(
        depart(&mut s, 2),
        vec![
            Action::Pause { millis: 3000 },
            Action::DoorLight(false),
            Action::MotorDirection(DIRN_DOWN),
            Action::DoorLight(false),
        ]
    );
    assert_eq!(s.local_elevator.current_direction, DIRN_DOWN);
}

#[test]
fn hall_call_here_is_served_at_once() {
    let mut s = system(2, DIRN_UP, &[[2, HALL_DOWN], [0, CAB]]);
    assert_eq!(
        depart(&mut s, 2),
        vec![
            sent("COMPLETED|2|1"),
            light_off(2, HALL_DOWN),
            Action::Pause { millis: 3000 },
            Action::DoorLight(false),
            Action::MotorDirection(DIRN_DOWN),
            Action::DoorLight(false),
        ]
    );
    assert_eq!(s.local_elevator.call_buttons, vec![vec![0, CAB]]);
}

#[test]
fn last_cab_call_here_stops_the_elevator() {
    let mut s = system(2, DIRN_UP, &[[2, CAB]]);
    assert_eq!(
        depart(&mut s, 2),
        vec![
            light_off(2, CAB),
            saved(&["2", "1"]),
            Action::DoorLight(false),
            Action::MotorDirection(DIRN_STOP),
            Action::DoorLight(false),
        ]
    );
    assert_eq!(s.local_elevator.current_direction, DIRN_STOP);
    assert!(s.local_elevator.call_buttons.is_empty());
}

#[test]
fn other_floors_keep_their_calls() {
    let mut s = system(1, DIRN_DOWN, &[[3, CAB], [1, HALL_DOWN], [0, HALL_UP], [1, CAB]]);
    serve_call(&mut s, 1);
    assert_eq!(s.local_elevator.call_buttons, vec![vec![3, CAB], vec![0, HALL_UP]]);
    depart(&mut s, 1);
    assert_eq!(s.local_elevator.call_buttons, vec![vec![3, CAB], vec![0, HALL_UP]]);
}
