//! Start-up programs and helper windows.
use vstd::prelude::*;
use crate::actions::Action;
use crate::settings::Settings;
use crate::state::State;

verus! {

/// Running each program, in order.
pub open spec fn startup_runs(s: Seq<String>) -> Seq<Action> {
    s.map_values(|c: String| Action::Run(c))
}

/// Starts one close box per monitor where close boxes are enabled, and, where
/// there is more than one monitor, one monitor box per monitor as well.
pub fn startups(state: &State, actions: &mut Vec<Action>)
    ensures
        final(actions)@ == old(actions)@ + (if state.settings.layout.close_box {
            Seq::new(state.monitors@.len(), |i: int| Action::SpawnCloseBox)
        } else {
            Seq::empty()
        }) + (if state.settings.layout.close_box && state.monitors@.len() > 1 {
            Seq::new(state.monitors@.len(), |i: int| Action::SpawnMonitorBox)
        } else {
            Seq::empty()
        }),
{
    let ghost a0 = actions@;
    let n = state.monitors.len();
    if state.settings.layout.close_box {
        let mut i: usize = 0;
        while i < n
            invariant
                i <= n,
                actions@ == a0 + Seq::new(i as nat, |k: int| Action::SpawnCloseBox),
            decreases n - i,
        {
            actions.push(Action::SpawnCloseBox);
            i += 1;
            assert(actions@ =~= a0 + Seq::new(i as nat, |k: int| Action::SpawnCloseBox));
        }
    } else {
        assert(actions@ =~= a0 + Seq::<Action>::empty());
    }
    let ghost a1 = actions@;
    if state.settings.layout.close_box && n > 1 {
        let mut i: usize = 0;
        while i < n
            invariant
                i <= n,
                actions@ == a1 + Seq::new(i as nat, |k: int| Action::SpawnMonitorBox),
            decreases n - i,
        {
            actions.push(Action::SpawnMonitorBox);
            i += 1;
            assert(actions@ =~= a1 + Seq::new(i as nat, |k: int| Action::SpawnMonitorBox));
        }
    } else {
        assert(actions@ =~= a1 + Seq::<Action>::empty());
    }
}

/// Runs the start-up programs of the settings, in order.
pub fn custom_startups(settings: &Settings, actions: &mut Vec<Action>)
    ensures
        final(actions)@ == old(actions)@ + startup_runs(settings.applications.startups@),
{
    let ghost a0 = actions@;
    let s = &settings.applications.startups;
    let mut i: usize = 0;
    while i < s.len()
        invariant
            i <= s@.len(),
            actions@ == a0 + startup_runs(s@.subrange(0, i as int)),
        decreases s@.len() - i,
    {
        actions.push(Action::Run(s[i].clone()));
        i += 1;
        assert(actions@ =~= a0 + startup_runs(s@.subrange(0, i as int)));
    }
    assert(s@.subrange(0, i as int) =~= s@);
}

} // verus!
