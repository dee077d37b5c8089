//! Extended window manager hints published on the root window.
use vstd::prelude::*;
use crate::actions::Action;
use crate::state::State;

verus! {

/// Clears the active window.
pub fn clear_active(actions: &mut Vec<Action>)
    ensures
        final(actions)@ == old(actions)@.push(Action::SetActive(0)),
{
    actions.push(Action::SetActive(0));
}

/// Publishes the current workspace as the current desktop.
pub fn update_workspace(state: &State, actions: &mut Vec<Action>)
    ensures
        final(actions)@ == old(actions)@.push(Action::SetCurrentDesktop(state.current_workspace as u32)),
{
    actions.push(Action::SetCurrentDesktop(state.current_workspace as u32));
}

} // verus!
