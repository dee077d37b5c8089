//! The main area, the side list and the floating list of the current workspace.
use vstd::prelude::*;
use crate::actions::{Action, extends, lemma_extends_push, lemma_extends_trans, lemma_extends_refl};
use crate::model::{live_only, without, has_dead, hint_map, lemma_without_contains, copy_windows, side_without, sent_sides, lemma_side_without_contains, lemma_side_without_remove, lemma_side_without_absent, lemma_sides_wf_remove};
use crate::safety::{World, exists_in, window_exists};
use crate::state::{State, Window, Workspace, only_ws_changed, workspace_wf, sides_wf, lemma_wf_kept, lemma_only_ws_changed_trans};
use crate::windows::layout::{layout_side_space, reapply_float_windows, audited, focused_floats, raises, side_slot, layout_acts, frame, fill_rec, focus_rec, lemma_frame_same, lemma_frame_reads};

verus! {

/// The current workspace kept its main window, side list, help window and
/// fullscreen flag.
pub open spec fn same_tiling(a: Workspace, b: Workspace) -> bool {
    &&& a.main_window == b.main_window
    &&& a.side_windows@ == b.side_windows@
    &&& a.help_window == b.help_window
    &&& a.fullscreen == b.fullscreen
}

/// The geometry that the main window gets with `side_len` side windows:
/// the whole screen width when there are none and the layout asks for it,
/// else the main area width.
pub open spec fn main_geometry(st: State, window: Window, side_len: int) -> Action {
    let m = st.mon();
    let width = if st.settings.layout.conditional_full && side_len == 0 {
        m.sizes.screen.0
    } else {
        m.sizes.main.0
    };
    Action::Configure {
        window,
        x: m.position.0,
        y: m.position.1,
        width: width as u32,
        height: m.sizes.main.1 as u32,
    }
}

/// The geometry that the main window gets with the state's side list.
pub open spec fn main_configure(st: State, window: Window) -> Action {
    main_geometry(st, window, st.ws().side_windows@.len() as int)
}

/// Moving the pointer to the center of the main area of the state's
/// current monitor, with `side_len` side windows.
pub open spec fn main_center_in(st: State, side_len: int) -> Action {
    let m = st.mon();
    let width = if st.settings.layout.conditional_full && side_len == 0 {
        m.sizes.screen.0
    } else {
        m.sizes.main.0
    };
    Action::WarpToCenter { x: m.position.0, y: m.position.1, width, height: m.sizes.main.1 }
}

/// Moving the pointer to the center of the main area of the state's
/// current workspace.
pub open spec fn main_center(st: State) -> Action {
    main_center_in(st, st.ws().side_windows@.len() as int)
}

/// The request that moves the pointer to the center of the main area.
pub fn main_center_action(state: &State) -> (res: Action)
    requires
        state.wf(),
    ensures
        res == main_center(*state),
{
    let cm = state.current_monitor;
    let cw = state.current_workspace;
    let m = &state.monitors[cm];
    let width = if state.settings.layout.conditional_full && m.workspaces[cw].side_windows.len() == 0 {
        m.sizes.screen.0
    } else {
        m.sizes.main.0
    };
    Action::WarpToCenter { x: m.position.0, y: m.position.1, width, height: m.sizes.main.1 }
}

/// Focusing the main window where it exists: marking it active, then
/// raising the floating windows.
pub open spec fn focus_acts(st: State, world: &World) -> Seq<Action> {
    if focuses(st, world) {
        seq![Action::SetActive(st.ws().main_window.unwrap())] + raises(st.ws().floatings@)
    } else {
        Seq::empty()
    }
}

/// Putting `window` in the main area with `side_len` side windows: its
/// geometry, then, where it exists, marking it active and raising the
/// floating windows.
pub open spec fn fill_acts(st: State, window: Window, side_len: int, world: &World) -> Seq<Action> {
    seq![main_geometry(st, window, side_len)] + if exists_in(world, window) {
        seq![Action::SetActive(window)] + raises(st.ws().floatings@)
    } else {
        Seq::empty()
    }
}

/// Puts `window` in the main area of the current workspace and focuses it.
pub fn fill_main_space(
    state: &mut State,
    world: &World,
    actions: &mut Vec<Action>,
    window: Window,
)
    requires
        old(state).wf(),
    ensures
        final(state).wf(),
        only_ws_changed(*old(state), *final(state)),
        final(state).ws().main_window == Some(window),
        final(state).ws().side_windows@ == old(state).ws().side_windows@,
        final(state).ws().help_window == old(state).ws().help_window,
        final(state).ws().fullscreen == old(state).ws().fullscreen,
        final(state).ws().floatings@ == focused_floats(old(state).ws().floatings@, Some(window), world),
        hint_map(final(state).ws().key_hint_windows@) == (if exists_in(world, window) && has_dead(
            old(state).ws().floatings@,
            world,
        ) {
            audited(*old(state), hint_map(old(state).ws().key_hint_windows@))
        } else {
            hint_map(old(state).ws().key_hint_windows@)
        }),
        extends(old(actions)@.push(main_configure(*old(state), window)), final(actions)@),
        !exists_in(world, window) ==> final(actions)@ == old(actions)@.push(
            main_configure(*old(state), window),
        ),
        !has_dead(old(state).ws().floatings@, world) ==> final(actions)@ == old(actions)@ + fill_acts(
            *old(state),
            window,
            old(state).ws().side_windows@.len() as int,
            world,
        ),
        final(actions)@ == old(actions)@ + fill_rec(
            frame(*old(state)),
            window,
            old(state).ws().side_windows@.len() as int,
            old(state).ws().floatings@,
            hint_map(old(state).ws().key_hint_windows@),
            world,
        ),
    decreases old(state).ws().floatings@.len(), 2nat,
{
    let ghost a = *state;
    let cm = state.current_monitor;
    let cw = state.current_workspace;
    let width = if state.settings.layout.conditional_full
        && state.monitors[cm].workspaces[cw].side_windows.len() == 0 {
        state.monitors[cm].sizes.screen.0
    } else {
        state.monitors[cm].sizes.main.0
    };
    actions.push(
        Action::Configure {
            window,
            x: state.monitors[cm].position.0,
            y: state.monitors[cm].position.1,
            width: width as u32,
            height: state.monitors[cm].sizes.main.1 as u32,
        },
    );
    let ghost acts1 = actions@;
    state.monitors[cm].workspaces[cw].main_window = Some(window);
    proof {
        assert(only_ws_changed(a, *state));
        lemma_wf_kept(a, *state);
    }
    let ghost s_mid = *state;
    focus_main(state, world, actions);
    proof {
        lemma_frame_same(a, s_mid);
        lemma_frame_reads(a, window, a.ws().side_windows@.len() as int, hint_map(a.ws().key_hint_windows@));
        assert(actions@ =~= old(actions)@ + fill_rec(
            frame(a),
            window,
            a.ws().side_windows@.len() as int,
            a.ws().floatings@,
            hint_map(a.ws().key_hint_windows@),
            world,
        ));
        if !has_dead(a.ws().floatings@, world) {
            if exists_in(world, window) {
                assert(actions@ =~= acts1 + seq![Action::SetActive(window)] + raises(a.ws().floatings@));
            }
            assert(actions@ =~= old(actions)@ + fill_acts(a, window, a.ws().side_windows@.len() as int, world));
        }
    }
}

/// Focuses the main window of the current workspace where it exists, and
/// raises the floating windows above it.
pub fn focus_main(state: &mut State, world: &World, actions: &mut Vec<Action>)
    requires
        old(state).wf(),
    ensures
        final(state).wf(),
        only_ws_changed(*old(state), *final(state)),
        same_tiling(old(state).ws(), final(state).ws()),
        final(state).ws().floatings@ == focused_floats(old(state).ws().floatings@, old(state).ws().main_window, world),
        hint_map(final(state).ws().key_hint_windows@) == (if focuses(*old(state), world) && has_dead(
            old(state).ws().floatings@,
            world,
        ) {
            audited(*old(state), hint_map(old(state).ws().key_hint_windows@))
        } else {
            hint_map(old(state).ws().key_hint_windows@)
        }),
        extends(old(actions)@, final(actions)@),
        !focuses(*old(state), world) ==> final(actions)@ == old(actions)@,
        focuses(*old(state), world) && !has_dead(old(state).ws().floatings@, world) ==> final(actions)@
            == old(actions)@ + seq![Action::SetActive(old(state).ws().main_window.unwrap())] + raises(
            old(state).ws().floatings@,
        ),
        final(actions)@ == old(actions)@ + focus_rec(
            frame(*old(state)),
            old(state).ws().main_window,
            old(state).ws().floatings@,
            hint_map(old(state).ws().key_hint_windows@),
            world,
        ),
        focuses(*old(state), world) ==> final(actions)@.len() > old(actions)@.len() && final(actions)@[old(
            actions,
        )@.len() as int] == Action::SetActive(old(state).ws().main_window.unwrap()),
    decreases old(state).ws().floatings@.len(), 1nat,
{
    let cm = state.current_monitor;
    let cw = state.current_workspace;
    match state.monitors[cm].workspaces[cw].main_window {
        Some(w) => {
            if window_exists(world, w) {
                let ghost acts0 = actions@;
                actions.push(Action::SetActive(w));
                let ghost acts1 = actions@;
                reapply_float_windows(state, world, actions);
                proof {
                    lemma_extends_push(acts0, Action::SetActive(w));
                    lemma_extends_trans(acts0, acts1, actions@);
                    if !has_dead(acts_fl(*old(state)), world) {
                        assert(actions@ =~= acts0 + seq![Action::SetActive(w)] + raises(acts_fl(*old(state))));
                    }
                }
            } else {
                proof { lemma_extends_refl(actions@); }
            }
        },
        None => {
            proof { lemma_extends_refl(actions@); }
        },
    }
}

spec fn acts_fl(st: State) -> Seq<Window> {
    st.ws().floatings@
}

/// The main window of the state's current workspace exists, so focusing it
/// does something.
pub open spec fn focuses(st: State, world: &World) -> bool {
    st.ws().main_window is Some && exists_in(world, st.ws().main_window.unwrap())
}

/// Takes a window out of the floating list of the current workspace.
pub fn remove_floating(state: &mut State, window: Window)
    requires
        old(state).wf(),
    ensures
        final(state).wf(),
        only_ws_changed(*old(state), *final(state)),
        same_tiling(old(state).ws(), final(state).ws()),
        final(state).ws().key_hint_windows@ == old(state).ws().key_hint_windows@,
        final(state).ws().floatings@ == without(old(state).ws().floatings@, window),
{
    let ghost a = *state;
    let cm = state.current_monitor;
    let cw = state.current_workspace;
    let old_f = copy_windows(&state.monitors[cm].workspaces[cw].floatings);
    let mut kept: Vec<Window> = Vec::new();
    let mut i: usize = 0;
    while i < old_f.len()
        invariant
            i <= old_f@.len(),
            kept@ == without(old_f@.subrange(0, i as int), window),
        decreases old_f@.len() - i,
    {
        assert(old_f@.subrange(0, i + 1).drop_last() =~= old_f@.subrange(0, i as int));
        if old_f[i] != window {
            kept.push(old_f[i]);
        }
        i += 1;
    }
    assert(old_f@.subrange(0, i as int) =~= old_f@);
    state.monitors[cm].workspaces[cw].floatings = kept;
    proof {
        assert(only_ws_changed(a, *state));
        lemma_wf_kept(a, *state);
    }
}

/// Takes `window` out of the side list of the current workspace (empty
/// entries go too), giving the position it had.
pub fn remove_side_window(state: &mut State, window: Window) -> (res: Option<usize>)
    requires
        old(state).wf(),
    ensures
        final(state).wf(),
        only_ws_changed(*old(state), *final(state)),
        final(state).ws().main_window == old(state).ws().main_window,
        final(state).ws().help_window == old(state).ws().help_window,
        final(state).ws().fullscreen == old(state).ws().fullscreen,
        final(state).ws().floatings@ == old(state).ws().floatings@,
        final(state).ws().key_hint_windows@ == old(state).ws().key_hint_windows@,
        final(state).ws().side_windows@ == side_without(old(state).ws().side_windows@, window),
        match res {
            Some(i) => i < old(state).ws().side_windows@.len()
                && old(state).ws().side_windows@[i as int] == Some(window)
                && final(state).ws().side_windows@ == old(state).ws().side_windows@.remove(i as int),
            None => !old(state).ws().side_windows@.contains(Some(window))
                && final(state).ws().side_windows@ == old(state).ws().side_windows@,
        },
{
    let ghost a = *state;
    let cm = state.current_monitor;
    let cw = state.current_workspace;
    let n = state.monitors[cm].workspaces[cw].side_windows.len();
    let mut i: usize = 0;
    while i < n
        invariant
            *state == a,
            a == *old(state),
            a.wf(),
            cm == a.current_monitor,
            cw == a.current_workspace,
            n == a.ws().side_windows@.len(),
            i <= n,
            forall|j: int| 0 <= j < i ==> (#[trigger] a.ws().side_windows@[j]) != Some(window),
        decreases n - i,
    {
        if state.monitors[cm].workspaces[cw].side_windows[i] == Some(window) {
            proof {
                lemma_side_without_remove(a.ws().side_windows@, window, i as int);
                lemma_sides_wf_remove(a.ws().side_windows@, i as int);
            }
            let _ = state.monitors[cm].workspaces[cw].side_windows.remove(i);
            proof {
                assert(only_ws_changed(a, *state));
                lemma_wf_kept(a, *state);
            }
            return Some(i);
        }
        i += 1;
    }
    proof {
        assert forall|j: int| 0 <= j < a.ws().side_windows@.len() implies (#[trigger] a.ws().side_windows@[j]) is Some
            && a.ws().side_windows@[j] != Some(window) by {}
        lemma_side_without_absent(a.ws().side_windows@, window);
        assert(!a.ws().side_windows@.contains(Some(window)));
    }
    None
}

/// Sends `window` to the side list of the current workspace, at position
/// `at` where that is given and within the list, else at the end, and lays
/// the side list out again.
pub fn send_side_space(
    state: &mut State,
    world: &World,
    actions: &mut Vec<Action>,
    window: Window,
    at: Option<usize>,
)
    requires
        old(state).wf(),
    ensures
        final(state).wf(),
        only_ws_changed(*old(state), *final(state)),
        final(state).ws().main_window == old(state).ws().main_window,
        final(state).ws().help_window == old(state).ws().help_window,
        final(state).ws().fullscreen == old(state).ws().fullscreen,
        final(state).ws().side_windows@ == sent_sides(old(state).ws().side_windows@, window, at),
        final(state).ws().floatings@ == focused_floats(
            old(state).ws().floatings@,
            old(state).ws().main_window,
            world,
        ),
        hint_map(final(state).ws().key_hint_windows@) == audited(
            *final(state),
            hint_map(old(state).ws().key_hint_windows@),
        ),
        extends(old(actions)@, final(actions)@),
        final(actions)@.len() >= old(actions)@.len() + final(state).ws().side_windows@.len(),
        forall|i: int|
            0 <= i < final(state).ws().side_windows@.len() ==> #[trigger] final(actions)@[old(
                actions,
            )@.len() + i] == side_slot(*final(state), i),
        !has_dead(old(state).ws().floatings@, world) ==> final(actions)@ == old(actions)@ + layout_acts(
            *final(state),
            old(state).ws().main_window,
            hint_map(old(state).ws().key_hint_windows@),
            world,
        ),
        final(actions)@ == old(actions)@ + crate::windows::layout::layout_rec(
            frame(*final(state)),
            old(state).ws().main_window,
            old(state).ws().floatings@,
            hint_map(old(state).ws().key_hint_windows@),
            world,
        ),
{
    let ghost a = *state;
    let _ = remove_side_window(state, window);
    let ghost b = *state;
    let cm = state.current_monitor;
    let cw = state.current_workspace;
    let len = state.monitors[cm].workspaces[cw].side_windows.len();
    proof {
        lemma_side_without_contains(a.ws().side_windows@, window, Some(window));
    }
    match at {
        Some(i) => {
            if i <= len {
                state.monitors[cm].workspaces[cw].side_windows.insert(i, Some(window));
            } else {
                state.monitors[cm].workspaces[cw].side_windows.push(Some(window));
            }
        },
        None => {
            state.monitors[cm].workspaces[cw].side_windows.push(Some(window));
        },
    }
    let ghost c = *state;
    proof {
        let t = c.ws().side_windows@;
        assert(t == sent_sides(a.ws().side_windows@, window, at));
        crate::laws::law_send_keeps_sides(a.ws().side_windows@, window, at);
        assert(only_ws_changed(b, c));
        lemma_wf_kept(b, c);
        lemma_only_ws_changed_trans(a, b, c);
    }
    layout_side_space(state, world, actions);
    proof {
        lemma_frame_same(c, *state);
        lemma_only_ws_changed_trans(a, c, *state);
        if !has_dead(a.ws().floatings@, world) {
            crate::model::lemma_live_only_all_live(a.ws().floatings@, world);
            crate::windows::layout::lemma_layout_acts_same(c, *state, a.ws().main_window, hint_map(a.ws().key_hint_windows@), world);
        }
    }
}

} // verus!
