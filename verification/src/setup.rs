//! What is done once at start-up.
pub mod internal;
pub mod input;
pub mod ewmh;

use vstd::prelude::*;
use crate::actions::Action;
use crate::settings::Settings;

verus! {

/// Runs the start-up programs of the settings, in order.
pub fn run_startups(settings: &Settings, actions: &mut Vec<Action>)
    ensures
        final(actions)@ == old(actions)@ + crate::setup::internal::startup_runs(settings.applications.startups@),
{
    crate::setup::internal::custom_startups(settings, actions);
}

} // verus!
