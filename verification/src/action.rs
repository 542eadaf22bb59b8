//! What the control logic asks to be done: commands to the elevator hardware, messages to other
//! elevators, state to be saved. The caller carries the actions out in the order given.

use vstd::prelude::*;

use crate::text;

verus! {

/// One thing to be done outside the control logic.
#[derive(Debug, PartialEq, Eq)]
pub enum Action {
    /// Run the motor in a direction.
    MotorDirection(u8),
    /// Switch the light of a call button.
    CallButtonLight { floor: u8, call: u8, on: bool },
    /// Show a floor on the floor indicator.
    FloorIndicator(u8),
    /// Switch the light of the open door.
    DoorLight(bool),
    /// Wait before going on with the next action.
    Pause { millis: u64 },
    /// Write the lines to the file of that name, in place of what it held.
    SaveState { file_name: String, lines: Vec<String> },
    /// Send a message to the peer at an address.
    Send { addr: String, message: String },
}

/// An action as contracts speak of it.
pub enum ActionView {
    MotorDirection(u8),
    CallButtonLight { floor: u8, call: u8, on: bool },
    FloorIndicator(u8),
    DoorLight(bool),
    Pause { millis: u64 },
    SaveState { file_name: Seq<char>, lines: Seq<Seq<char>> },
    Send { addr: Seq<char>, message: Seq<char> },
}

impl View for Action {
    type V = ActionView;

    open spec fn view(&self) -> ActionView {
        match self {
            Action::MotorDirection(dirn) => ActionView::MotorDirection(*dirn),
            Action::CallButtonLight { floor, call, on } => ActionView::CallButtonLight {
                floor: *floor,
                call: *call,
                on: *on,
            },
            Action::FloorIndicator(floor) => ActionView::FloorIndicator(*floor),
            Action::DoorLight(on) => ActionView::DoorLight(*on),
            Action::Pause { millis } => ActionView::Pause { millis: *millis },
            Action::SaveState { file_name, lines } => ActionView::SaveState {
                file_name: file_name@,
                lines: text::string_views(lines@),
            },
            Action::Send { addr, message } => ActionView::Send { addr: addr@, message: message@ },
        }
    }
}

/// The actions of a list as contracts speak of them.
pub open spec fn views(actions: Seq<Action>) -> Seq<ActionView> {
    Seq::new(actions.len(), |i: int| actions[i]@)
}

/// Adds one action at the end of a list.
pub fn add_action(actions: &mut Vec<Action>, action: Action)
    ensures
        views(final(actions)@) == views(old(actions)@).push(action@),
{
    actions.push(action);
    assert(views(actions@) =~= views(old(actions)@).push(action@));
}

/// Adds the actions of `more` at the end of a list.
pub fn add_actions(actions: &mut Vec<Action>, more: Vec<Action>)
    ensures
        views(final(actions)@) == views(old(actions)@) + views(more@),
{
    let mut more = more;
    let ghost added = more@;
    actions.append(&mut more);
    assert(views(actions@) =~= views(old(actions)@) + views(added));
}

} // verus!
