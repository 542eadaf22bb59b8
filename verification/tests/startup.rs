use driver_rust::action::Action;
use driver_rust::elevio::elev::{Elevator, CAB, DIRN_DOWN, DIRN_STOP, DIRN_UP};
use driver_rust::startup::{
    homing_step, index_by_id, index_by_port, leave_shaft, message_port, network_port,
    peer_addresses, recover, startup_lights,
};

#[test]
fn saved_state_is_recovered() {
    let mut e = Elevator {
        num_floors: 4,
        current_floor: 0,
        current_direction: DIRN_STOP,
        call_buttons: vec![],
        is_obstructed: false,
        obstruction_start_time: None,
        obstruction_waiting: None,
    };
    let actions = recover(&mut e, (2, DIRN_UP, vec![vec![3, CAB]]));
    assert_eq!(actions, vec![Action::FloorIndicator(2)]);
    assert_eq!(e.num_floors, 4);
    assert_eq!(e.current_floor, 2);
    assert_eq!(e.current_direction, DIRN_UP);
    assert_eq!(e.call_buttons, vec![vec![3, CAB]]);
}

#[test]
fn elevator_between_floors_goes_down() {
    assert_eq!(leave_shaft(None), vec![Action::MotorDirection(DIRN_DOWN)]);
    assert!(leave_shaft(Some(2)).is_empty());
}

#[test]
fn lights_are_switched_off_at_startup() {
    let mut expected = vec![];
    for call in 0..3 {
        for floor in 0..4 {
            expected.push(Action::CallButtonLight { floor, call, on: false });
        }
    }
    assert_eq!(startup_lights(4), expected);
    assert!(startup_lights(0).is_empty());
    assert_eq!(startup_lights(255).len(), 765);
}

#[test]
fn elevator_goes_down_to_the_ground_floor() {
    assert_eq!(homing_step(true, 2), (false, vec![Action::MotorDirection(DIRN_DOWN)]));
    assert_eq!(
        homing_step(false, 1),
        (false, vec![Action::FloorIndicator(1), Action::MotorDirection(DIRN_DOWN)])
    );
    assert_eq!(
        homing_step(false, 0),
        (
            true,
            vec![
                Action::FloorIndicator(0),
                Action::MotorDirection(DIRN_STOP),
                Action::FloorIndicator(0),
            ]
        )
    );
    assert_eq!(
        homing_step(true, 0),
        (true, vec![Action::MotorDirection(DIRN_STOP), Action::FloorIndicator(0)])
    );
}

#[test]
fn ports_follow_the_hardware_port() {
    assert_eq!(network_port(15657), 7878);
    assert_eq!(network_port(15659), 7880);
    assert_eq!(network_port(7779), 0);
    assert_eq!(message_port(15657), 8878);
    assert_eq!(message_port(15658), 8879);
    assert_eq!(index_by_port(15657), 0);
    assert_eq!(index_by_port(15659), 2);
}

#[test]
fn names_count_from_one() {
    assert_eq!(index_by_id("1"), 0);
    assert_eq!(index_by_id("+3"), 2);
}

#[test]
fn peers_are_the_other_elevators() {
    assert_eq!(peer_addresses(0), vec!["localhost:8879".to_string(), "localhost:8880".to_string()]);
    assert_eq!(peer_addresses(1), vec!["localhost:8878".to_string(), "localhost:8880".to_string()]);
    assert_eq!(
        peer_addresses(9),
        vec![
            "localhost:8878".to_string(),
            "localhost:8879".to_string(),
            "localhost:8880".to_string(),
        ]
    );
}
