//! Switching the visible workspace.
use vstd::prelude::*;
use crate::actions::{Action, extends, lemma_extends_push, lemma_extends_trans, lemma_extends_refl};
use crate::model::hint_map;
use crate::safety::World;
use crate::state::{State, Window, Workspace, Monitor, ws_at, only_ws_changed, lemma_wf_kept};
use crate::windows::layout::{layout_side_space, focused_floats, audit_map};
use crate::windows::tiling::{fill_main_space, focus_main, fill_acts, focus_acts};
use crate::windows::layout::layout_acts;
use crate::events::client::at;
use crate::model::has_dead;
use crate::model::{live_only, lemma_live_only_idem};
use crate::windows::layout::{lemma_audited_idem, frame, fill_rec, layout_rec, focus_rec, audit_f, lemma_frame_alike, lemma_frame_reads};
use crate::safety::exists_in;

verus! {

/// Mapping a window where `visible`, else unmapping it.
pub open spec fn show(w: Window, visible: bool) -> Action {
    if visible {
        Action::MapWindow(w)
    } else {
        Action::UnmapWindow(w)
    }
}

/// Showing or hiding each present entry of a side list.
pub open spec fn opt_shows(s: Seq<Option<Window>>, visible: bool) -> Seq<Action>
    decreases s.len(),
{
    if s.len() == 0 {
        Seq::empty()
    } else {
        opt_shows(s.drop_last(), visible) + match s.last() {
            Some(w) => seq![show(w, visible)],
            None => Seq::empty(),
        }
    }
}

/// Showing or hiding every window of a workspace: main, side, help, key
/// hints and floating windows, in that order.
pub open spec fn ws_shows(ws: Workspace, visible: bool) -> Seq<Action> {
    (match ws.main_window {
        Some(m) => seq![show(m, visible)],
        None => Seq::empty(),
    }) + opt_shows(ws.side_windows@, visible) + (match ws.help_window {
        Some(h) => seq![show(h, visible)],
        None => Seq::empty(),
    }) + ws.key_hint_windows@.map_values(|p: (String, Window)| show(p.1, visible))
        + ws.floatings@.map_values(|w: Window| show(w, visible))
}

/// The first `k` workspaces of a monitor shown (the one numbered `cw`) or
/// hidden (the others).
pub open spec fn monitor_shows(mon: Monitor, cw: int, k: int) -> Seq<Action>
    decreases k,
{
    if k <= 0 {
        Seq::empty()
    } else {
        monitor_shows(mon, cw, k - 1) + ws_shows(mon.workspaces@[k - 1], k - 1 == cw)
    }
}

/// The workspaces of the first `k` monitors shown or hidden.
pub open spec fn all_shows(st: State, k: int) -> Seq<Action>
    decreases k,
{
    if k <= 0 {
        Seq::empty()
    } else {
        all_shows(st, k - 1) + monitor_shows(
            st.monitors@[k - 1],
            st.current_workspace as int,
            st.monitors@[k - 1].workspaces@.len() as int,
        )
    }
}

fn show_action(visible: bool, w: Window) -> (r: Action)
    ensures
        r == show(w, visible),
{
    if visible {
        Action::MapWindow(w)
    } else {
        Action::UnmapWindow(w)
    }
}

fn push_shows(ws: &Workspace, visible: bool, actions: &mut Vec<Action>)
    ensures
        final(actions)@ == old(actions)@ + ws_shows(*ws, visible),
{
    let ghost a0 = actions@;
    match ws.main_window {
        Some(m) => actions.push(show_action(visible, m)),
        None => {},
    }
    let ghost a1 = actions@;
    let mut i: usize = 0;
    while i < ws.side_windows.len()
        invariant
            i <= ws.side_windows@.len(),
            actions@ == a1 + opt_shows(ws.side_windows@.subrange(0, i as int), visible),
        decreases ws.side_windows@.len() - i,
    {
        assert(ws.side_windows@.subrange(0, i + 1).drop_last() =~= ws.side_windows@.subrange(0, i as int));
        match ws.side_windows[i] {
            Some(w) => actions.push(show_action(visible, w)),
            None => {},
        }
        i += 1;
        assert(actions@ =~= a1 + opt_shows(ws.side_windows@.subrange(0, i as int), visible));
    }
    assert(ws.side_windows@.subrange(0, i as int) =~= ws.side_windows@);
    let ghost a2 = actions@;
    match ws.help_window {
        Some(h) => actions.push(show_action(visible, h)),
        None => {},
    }
    let ghost a3 = actions@;
    let mut i: usize = 0;
    while i < ws.key_hint_windows.len()
        invariant
            i <= ws.key_hint_windows@.len(),
            actions@ == a3 + ws.key_hint_windows@.subrange(0, i as int).map_values(
                |p: (String, Window)| show(p.1, visible),
            ),
        decreases ws.key_hint_windows@.len() - i,
    {
        actions.push(show_action(visible, ws.key_hint_windows[i].1));
        i += 1;
        assert(actions@ =~= a3 + ws.key_hint_windows@.subrange(0, i as int).map_values(
            |p: (String, Window)| show(p.1, visible),
        ));
    }
    assert(ws.key_hint_windows@.subrange(0, i as int) =~= ws.key_hint_windows@);
    let ghost a4 = actions@;
    let mut i: usize = 0;
    while i < ws.floatings.len()
        invariant
            i <= ws.floatings@.len(),
            actions@ == a4 + ws.floatings@.subrange(0, i as int).map_values(|w: Window| show(w, visible)),
        decreases ws.floatings@.len() - i,
    {
        actions.push(show_action(visible, ws.floatings[i]));
        i += 1;
        assert(actions@ =~= a4 + ws.floatings@.subrange(0, i as int).map_values(|w: Window| show(w, visible)));
    }
    assert(ws.floatings@.subrange(0, i as int) =~= ws.floatings@);
    assert(actions@ =~= a0 + ws_shows(*ws, visible));
}

/// `b` differs from `a` at most in the workspace numbered like the current
/// one, on any monitor.
pub open spec fn only_cw_changed(a: State, b: State) -> bool {
    &&& a.settings == b.settings
    &&& a.root == b.root
    &&& a.current_monitor == b.current_monitor
    &&& a.current_workspace == b.current_workspace
    &&& a.monitors@.len() == b.monitors@.len()
    &&& forall|m: int|
        0 <= m < a.monitors@.len() ==> {
            &&& (#[trigger] b.monitors@[m]).sizes == a.monitors@[m].sizes
            &&& b.monitors@[m].position == a.monitors@[m].position
            &&& b.monitors@[m].close_box == a.monitors@[m].close_box
            &&& b.monitors@[m].workspaces@.len() == a.monitors@[m].workspaces@.len()
        }
    &&& forall|m: int, w: int|
        0 <= m < a.monitors@.len() && 0 <= w < a.monitors@[m].workspaces@.len() && w
            != a.current_workspace ==> #[trigger] ws_at(b, m, w) == ws_at(a, m, w)
}

/// What a workspace that is brought to the front keeps and loses: its tiling
/// stays, floating windows that no longer exist are dropped where its main
/// window exists, and its key hints are audited.
pub open spec fn refreshed(a: State, before: Workspace, after: Workspace, world: &World) -> bool {
    &&& after.main_window == before.main_window
    &&& after.side_windows@ == before.side_windows@
    &&& after.help_window == before.help_window
    &&& after.fullscreen == before.fullscreen
    &&& after.floatings@ == focused_floats(before.floatings@, before.main_window, world)
    &&& hint_map(after.key_hint_windows@) == audit_map(
        a,
        before.side_windows@.len() as int,
        hint_map(before.key_hint_windows@),
    )
}

/// The requests that put the current workspace of monitor `i` back in
/// place: its main window put back and focused, then its side list laid out.
pub open spec fn relayout_one(a: State, i: int, world: &World) -> Seq<Action> {
    let st = at(a, i, a.current_workspace as int);
    (match st.ws().main_window {
        Some(m) => fill_acts(st, m, st.ws().side_windows@.len() as int, world),
        None => Seq::empty(),
    }) + layout_acts(st, st.ws().main_window, hint_map(st.ws().key_hint_windows@), world)
}

/// The relayout requests of the first `k` monitors, in order.
pub open spec fn relayout_acts(a: State, k: int, world: &World) -> Seq<Action>
    decreases k,
{
    if k <= 0 {
        Seq::empty()
    } else {
        relayout_acts(a, k - 1, world) + relayout_one(a, k - 1, world)
    }
}

/// The requests that put the current workspace of monitor `i` back in
/// place, whatever floating windows are gone (see `relayout_one`).
pub open spec fn relayout_one_rec(a: State, i: int, world: &World) -> Seq<Action> {
    let st = at(a, i, a.current_workspace as int);
    let w = st.ws();
    let f = frame(st);
    let m = hint_map(w.key_hint_windows@);
    match w.main_window {
        Some(mw) => fill_rec(f, mw, w.side_windows@.len() as int, w.floatings@, m, world) + layout_rec(
            f,
            Some(mw),
            focused_floats(w.floatings@, Some(mw), world),
            if exists_in(world, mw) && has_dead(w.floatings@, world) {
                audit_f(f, m)
            } else {
                m
            },
            world,
        ),
        None => layout_rec(f, None, w.floatings@, m, world),
    }
}

/// The relayout requests of the first `k` monitors, in order, whatever
/// floating windows are gone.
pub open spec fn relayout_rec(a: State, k: int, world: &World) -> Seq<Action>
    decreases k,
{
    if k <= 0 {
        Seq::empty()
    } else {
        relayout_rec(a, k - 1, world) + relayout_one_rec(a, k - 1, world)
    }
}

/// `acts` is `pre` followed by the requests of a switch from the state `s`
/// to the state `b` (see `switch`).
pub open spec fn switched(s: State, b: State, pre: Seq<Action>, acts: Seq<Action>, world: &World) -> bool {
    &&& s.wf()
    &&& only_cw_changed(s, b)
    &&& forall|m: int|
        0 <= m < s.monitors@.len() ==> refreshed(
            s,
            ws_at(s, m, s.current_workspace as int),
            #[trigger] ws_at(b, m, s.current_workspace as int),
            world,
        )
    &&& acts == pre + all_shows(s, s.monitors@.len() as int) + seq![
        Action::SetCurrentDesktop(s.current_workspace as u32),
        Action::SetActive(0),
    ] + relayout_rec(s, s.monitors@.len() as int, world) + focus_rec(
        frame(s),
        s.ws().main_window,
        focused_floats(s.ws().floatings@, s.ws().main_window, world),
        audit_map(s, s.ws().side_windows@.len() as int, hint_map(s.ws().key_hint_windows@)),
        world,
    )
}

proof fn lemma_contains_append(x: Seq<Action>, y: Seq<Action>, e: Action)
    ensures
        x.contains(e) ==> (x + y).contains(e),
        y.contains(e) ==> (x + y).contains(e),
{
    if x.contains(e) {
        let i = choose|i: int| 0 <= i < x.len() && x[i] == e;
        assert((x + y)[i] == e);
    }
    if y.contains(e) {
        let i = choose|i: int| 0 <= i < y.len() && y[i] == e;
        assert((x + y)[x.len() + i] == e);
    }
}

proof fn lemma_monitor_shows_hide(mon: Monitor, cw: int, k: int, wi: int, x: Window)
    requires
        0 <= wi < k <= mon.workspaces@.len(),
        wi != cw,
        mon.workspaces@[wi].main_window == Some(x),
    ensures
        monitor_shows(mon, cw, k).contains(Action::UnmapWindow(x)),
    decreases k,
{
    if k - 1 == wi {
        let ws = mon.workspaces@[wi];
        let head: Seq<Action> = seq![show(x, false)];
        assert(head[0] == Action::UnmapWindow(x));
        assert(head.contains(Action::UnmapWindow(x)));
        let rest = opt_shows(ws.side_windows@, false) + (match ws.help_window {
            Some(h) => seq![show(h, false)],
            None => Seq::empty(),
        }) + ws.key_hint_windows@.map_values(|p: (String, Window)| show(p.1, false))
            + ws.floatings@.map_values(|w: Window| show(w, false));
        assert(ws_shows(ws, false) =~= head + rest);
        lemma_contains_append(head, rest, Action::UnmapWindow(x));
        lemma_contains_append(monitor_shows(mon, cw, k - 1), ws_shows(ws, false), Action::UnmapWindow(x));
    } else {
        lemma_monitor_shows_hide(mon, cw, k - 1, wi, x);
        lemma_contains_append(monitor_shows(mon, cw, k - 1), ws_shows(mon.workspaces@[k - 1], k - 1 == cw), Action::UnmapWindow(x));
    }
}

/// A switch hides the main window of every workspace but the current one.
pub proof fn lemma_all_shows_hide(st: State, k: int, mi: int, wi: int, x: Window)
    requires
        0 <= mi < k <= st.monitors@.len(),
        0 <= wi < st.monitors@[mi].workspaces@.len(),
        wi != st.current_workspace,
        ws_at(st, mi, wi).main_window == Some(x),
    ensures
        all_shows(st, k).contains(Action::UnmapWindow(x)),
    decreases k,
{
    let mon = st.monitors@[k - 1];
    if k - 1 == mi {
        lemma_monitor_shows_hide(mon, st.current_workspace as int, mon.workspaces@.len() as int, wi, x);
    } else {
        lemma_all_shows_hide(st, k - 1, mi, wi, x);
    }
    lemma_contains_append(
        all_shows(st, k - 1),
        monitor_shows(mon, st.current_workspace as int, mon.workspaces@.len() as int),
        Action::UnmapWindow(x),
    );
}

/// Every floating window of each monitor's current workspace exists.
pub open spec fn cw_floats_live(a: State, world: &World) -> bool {
    forall|j: int| 0 <= j < a.monitors@.len() ==> !has_dead(#[trigger] ws_at(a, j, a.current_workspace as int).floatings@, world)
}

/// Puts the current workspace of monitor `i` back in place: its main window
/// put back and focused, then its side list laid out.
#[verifier::rlimit(60)]
fn refresh_monitor(state: &mut State, world: &World, actions: &mut Vec<Action>, i: usize)
    requires
        old(state).wf(),
        i < old(state).monitors@.len(),
    ensures
        final(state).wf(),
        only_cw_changed(*old(state), *final(state)),
        forall|j: int|
            0 <= j < old(state).monitors@.len() && j != i ==> #[trigger] ws_at(*final(state), j, old(state).current_workspace as int)
                == ws_at(*old(state), j, old(state).current_workspace as int),
        refreshed(
            *old(state),
            ws_at(*old(state), i as int, old(state).current_workspace as int),
            ws_at(*final(state), i as int, old(state).current_workspace as int),
            world,
        ),
        extends(old(actions)@, final(actions)@),
        final(actions)@ == old(actions)@ + relayout_one_rec(*old(state), i as int, world),
        !has_dead(ws_at(*old(state), i as int, old(state).current_workspace as int).floatings@, world)
            ==> final(actions)@ == old(actions)@ + relayout_one(*old(state), i as int, world),
{
    let ghost s0 = *state;
    let ghost acts_i = actions@;
    let cw = state.current_workspace;
    let home = state.current_monitor;
    state.current_monitor = i;
    let ghost s1 = *state;
    proof {
        assert(s1.wf()) by {
            assert forall|mm: int, ww: int| 0 <= mm < s1.monitors@.len() && 0 <= ww < s1.nws() implies
                crate::state::workspace_wf(#[trigger] ws_at(s1, mm, ww)) by {
                assert(ws_at(s1, mm, ww) == ws_at(s0, mm, ww));
            }
        }
        assert(s1 == at(s0, i as int, cw as int));
    }
    match state.monitors[i].workspaces[cw].main_window {
        Some(mw) => {
            fill_main_space(state, world, actions, mw);
            proof {
                let c = crate::windows::tiling::main_configure(s1, mw);
                lemma_extends_push(acts_i, c);
                lemma_extends_trans(acts_i, acts_i.push(c), actions@);
            }
        },
        None => {
            proof { lemma_extends_refl(actions@); }
        },
    }
    let ghost s2 = *state;
    let ghost acts2 = actions@;
    layout_side_space(state, world, actions);
    let ghost s3 = *state;
    proof {
        crate::state::lemma_only_ws_changed_trans(s1, s2, s3);
        let before = ws_at(s0, i as int, cw as int);
        assert(s1.ws() == before);
        lemma_live_only_idem(before.floatings@, world);
        lemma_audited_idem(s1, hint_map(before.key_hint_windows@));
        assert(refreshed(s0, before, s3.ws(), world));
        lemma_extends_trans(acts_i, acts2, actions@);
        crate::windows::layout::lemma_frame_same(s1, s2);
        lemma_frame_reads(s1, 0, 0, hint_map(before.key_hint_windows@));
        assert(actions@ =~= acts_i + relayout_one_rec(s0, i as int, world));
        if !has_dead(before.floatings@, world) {
            crate::model::lemma_live_only_all_live(before.floatings@, world);
            assert(acts2 == acts_i + match before.main_window {
                Some(m) => fill_acts(s1, m, before.side_windows@.len() as int, world),
                None => Seq::<Action>::empty(),
            }) by {
                if before.main_window is None {
                    assert(acts2 =~= acts_i + Seq::<Action>::empty());
                }
            }
            crate::windows::layout::lemma_layout_acts_same(s1, s2, s2.ws().main_window, hint_map(before.key_hint_windows@), world);
            assert(actions@ =~= acts_i + relayout_one(s0, i as int, world));
        }
    }
    state.current_monitor = home;
    proof {
        let s4 = *state;
        assert(ws_at(s4, i as int, cw as int) == s3.ws());
        assert forall|j: int| 0 <= j < s0.monitors@.len() && j != i implies #[trigger] ws_at(s4, j, cw as int) == ws_at(s0, j, cw as int) by {
            assert(s1.monitors@[j].workspaces@.len() == s1.nws());
            assert(ws_at(s3, j, cw as int) == ws_at(s1, j, cw as int));
        }
        assert(only_cw_changed(s0, s4)) by {
            assert forall|mm: int, ww: int|
                0 <= mm < s0.monitors@.len() && 0 <= ww < s0.monitors@[mm].workspaces@.len() && ww
                    != s0.current_workspace implies #[trigger] ws_at(s4, mm, ww) == ws_at(s0, mm, ww) by {
                assert(s1.monitors@[mm].workspaces@.len() == s0.monitors@[mm].workspaces@.len());
                assert(ws_at(s3, mm, ww) == ws_at(s1, mm, ww));
            }
        }
        assert(s4.wf()) by {
            assert forall|mm: int, ww: int| 0 <= mm < s4.monitors@.len() && 0 <= ww < s4.nws() implies
                crate::state::workspace_wf(#[trigger] ws_at(s4, mm, ww)) by {
                assert(ws_at(s4, mm, ww) == ws_at(s3, mm, ww));
            }
        }
    }
}

/// Shows the current workspace on every monitor and hides the others,
/// publishes the current desktop, and lays every monitor out again.
#[verifier::rlimit(100)]
#[verifier::spinoff_prover]
pub fn switch(state: &mut State, world: &World, actions: &mut Vec<Action>)
    requires
        old(state).wf(),
    ensures
        final(state).wf(),
        only_cw_changed(*old(state), *final(state)),
        forall|m: int|
            0 <= m < old(state).monitors@.len() ==> refreshed(
                *old(state),
                ws_at(*old(state), m, old(state).current_workspace as int),
                #[trigger] ws_at(*final(state), m, old(state).current_workspace as int),
                world,
            ),
        extends(
            old(actions)@ + all_shows(*old(state), old(state).monitors@.len() as int) + seq![
                Action::SetCurrentDesktop(old(state).current_workspace as u32),
                Action::SetActive(0),
            ],
            final(actions)@,
        ),
        extends(old(actions)@, final(actions)@),
        cw_floats_live(*old(state), world) ==> final(actions)@ == old(actions)@ + all_shows(
            *old(state),
            old(state).monitors@.len() as int,
        ) + seq![Action::SetCurrentDesktop(old(state).current_workspace as u32), Action::SetActive(0)]
            + relayout_acts(*old(state), old(state).monitors@.len() as int, world) + focus_acts(*old(state), world),
        final(actions)@ == old(actions)@ + all_shows(*old(state), old(state).monitors@.len() as int) + seq![
            Action::SetCurrentDesktop(old(state).current_workspace as u32),
            Action::SetActive(0),
        ] + relayout_rec(*old(state), old(state).monitors@.len() as int, world) + focus_rec(
            frame(*old(state)),
            old(state).ws().main_window,
            focused_floats(old(state).ws().floatings@, old(state).ws().main_window, world),
            audit_map(*old(state), old(state).ws().side_windows@.len() as int, hint_map(old(state).ws().key_hint_windows@)),
            world,
        ),
{
    let ghost a = *state;
    let ghost acts0 = actions@;
    let cw = state.current_workspace;
    let nm = state.monitors.len();
    let mut m: usize = 0;
    while m < nm
        invariant
            *state == a,
            a.wf(),
            nm == a.monitors@.len(),
            cw == a.current_workspace,
            m <= nm,
            actions@ == acts0 + all_shows(a, m as int),
        decreases nm - m,
    {
        let nw = state.monitors[m].workspaces.len();
        let mut w: usize = 0;
        while w < nw
            invariant
                *state == a,
                m < nm,
                nm == a.monitors@.len(),
                cw == a.current_workspace,
                nw == a.monitors@[m as int].workspaces@.len(),
                w <= nw,
                actions@ == acts0 + all_shows(a, m as int) + monitor_shows(a.monitors@[m as int], cw as int, w as int),
            decreases nw - w,
        {
            push_shows(&state.monitors[m].workspaces[w], w == cw, actions);
            assert(actions@ =~= acts0 + all_shows(a, m as int) + monitor_shows(a.monitors@[m as int], cw as int, w + 1));
            w += 1;
        }
        assert(actions@ =~= acts0 + all_shows(a, m + 1));
        m += 1;
    }
    crate::ewmh::update_workspace(state, actions);
    crate::ewmh::clear_active(actions);
    let ghost acts1 = actions@;
    proof {
        assert(acts1 =~= acts0 + all_shows(a, nm as int) + seq![
            Action::SetCurrentDesktop(a.current_workspace as u32),
            Action::SetActive(0),
        ]);
        lemma_extends_refl(acts1);
    }
    let home = state.current_monitor;
    let mut i: usize = 0;
    while i < nm
        invariant
            a.wf(),
            state.wf(),
            nm == a.monitors@.len(),
            home == a.current_monitor,
            cw == a.current_workspace,
            i <= nm,
            only_cw_changed(a, *state),
            forall|j: int| 0 <= j < i ==> refreshed(a, ws_at(a, j, cw as int), #[trigger] ws_at(*state, j, cw as int), world),
            forall|j: int| i <= j < nm ==> #[trigger] ws_at(*state, j, cw as int) == ws_at(a, j, cw as int),
            extends(acts1, actions@),
            cw_floats_live(a, world) ==> actions@ == acts1 + relayout_acts(a, i as int, world),
            actions@ == acts1 + relayout_rec(a, i as int, world),
        decreases nm - i,
    {
        let ghost s0 = *state;
        let ghost acts_i = actions@;
        refresh_monitor(state, world, actions, i);
        proof {
            let s4 = *state;
            let x = at(a, i as int, cw as int);
            let y = at(s0, i as int, cw as int);
            assert(ws_at(s0, i as int, cw as int) == ws_at(a, i as int, cw as int));
            assert forall|j: int| 0 <= j < x.monitors@.len() implies {
                &&& (#[trigger] y.monitors@[j]).close_box == x.monitors@[j].close_box
                &&& y.monitors@[j].position == x.monitors@[j].position
                &&& y.monitors@[j].sizes == x.monitors@[j].sizes
                &&& ws_at(y, j, cw as int).side_windows@.len() == ws_at(x, j, cw as int).side_windows@.len()
                &&& ws_at(y, j, cw as int).fullscreen == ws_at(x, j, cw as int).fullscreen
            } by {
                if j < i {
                    assert(refreshed(a, ws_at(a, j, cw as int), ws_at(s0, j, cw as int), world));
                }
            }
            assert(y.ws() == x.ws());
            lemma_frame_alike(x, y);
            assert(relayout_one_rec(s0, i as int, world) == relayout_one_rec(a, i as int, world));
            assert(relayout_rec(a, i + 1, world) == relayout_rec(a, i as int, world) + relayout_one_rec(a, i as int, world));
            assert(actions@ =~= acts1 + relayout_rec(a, i + 1, world));
            if cw_floats_live(a, world) {
                assert(!has_dead(ws_at(a, i as int, cw as int).floatings@, world));
                assert(x.mon().sizes == y.mon().sizes && x.mon().position == y.mon().position);
                crate::windows::layout::lemma_layout_acts_alike(
                    x,
                    y,
                    x.ws().main_window,
                    hint_map(x.ws().key_hint_windows@),
                    world,
                );
                assert(relayout_one(s0, i as int, world) == relayout_one(a, i as int, world));
                assert(relayout_acts(a, i + 1, world) == relayout_acts(a, i as int, world) + relayout_one(a, i as int, world));
                assert(actions@ =~= acts1 + relayout_acts(a, i + 1, world));
            }
            lemma_extends_trans(acts1, acts_i, actions@);
            assert forall|j: int| 0 <= j < i + 1 implies refreshed(a, ws_at(a, j, cw as int), #[trigger] ws_at(s4, j, cw as int), world) by {
                if j < i {
                    assert(ws_at(s4, j, cw as int) == ws_at(s0, j, cw as int));
                }
            }
            assert forall|j: int| i + 1 <= j < nm implies #[trigger] ws_at(s4, j, cw as int) == ws_at(a, j, cw as int) by {
                assert(ws_at(s4, j, cw as int) == ws_at(s0, j, cw as int));
            }
            assert(only_cw_changed(a, s4)) by {
                assert forall|mm: int, ww: int|
                    0 <= mm < a.monitors@.len() && 0 <= ww < a.monitors@[mm].workspaces@.len() && ww
                        != a.current_workspace implies #[trigger] ws_at(s4, mm, ww) == ws_at(a, mm, ww) by {
                    assert(ws_at(s4, mm, ww) == ws_at(s0, mm, ww));
                }
            }
        }
        i += 1;
    }
    let ghost s5 = *state;
    let ghost acts5 = actions@;
    focus_main(state, world, actions);
    proof {
        assert(actions@ =~= acts1 + relayout_rec(a, nm as int, world) + focus_rec(
            frame(a),
            a.ws().main_window,
            focused_floats(a.ws().floatings@, a.ws().main_window, world),
            audit_map(a, a.ws().side_windows@.len() as int, hint_map(a.ws().key_hint_windows@)),
            world,
        )) by {
            assert forall|j: int| 0 <= j < a.monitors@.len() implies {
                &&& (#[trigger] s5.monitors@[j]).close_box == a.monitors@[j].close_box
                &&& s5.monitors@[j].position == a.monitors@[j].position
                &&& s5.monitors@[j].sizes == a.monitors@[j].sizes
                &&& ws_at(s5, j, cw as int).side_windows@.len() == ws_at(a, j, cw as int).side_windows@.len()
                &&& ws_at(s5, j, cw as int).fullscreen == ws_at(a, j, cw as int).fullscreen
            } by {
                assert(refreshed(a, ws_at(a, j, cw as int), ws_at(s5, j, cw as int), world));
            }
            assert(s5.ws() == ws_at(s5, a.current_monitor as int, cw as int));
            lemma_frame_alike(a, s5);
        }
        if cw_floats_live(a, world) {
            let hw = ws_at(a, a.current_monitor as int, cw as int);
            assert(!has_dead(hw.floatings@, world));
            crate::model::lemma_live_only_all_live(hw.floatings@, world);
            assert(ws_at(s5, a.current_monitor as int, cw as int).floatings@ == hw.floatings@);
            assert(ws_at(s5, a.current_monitor as int, cw as int).main_window == hw.main_window);
            assert(actions@ =~= acts1 + relayout_acts(a, nm as int, world) + focus_acts(a, world));
        }
        lemma_extends_trans(acts1, acts5, actions@);
        crate::actions::lemma_extends_append(acts0, all_shows(a, nm as int) + seq![
            Action::SetCurrentDesktop(a.current_workspace as u32),
            Action::SetActive(0),
        ]);
        assert(acts0 + (all_shows(a, nm as int) + seq![
            Action::SetCurrentDesktop(a.current_workspace as u32),
            Action::SetActive(0),
        ]) =~= acts1);
        lemma_extends_trans(acts0, acts1, actions@);
        let before = ws_at(a, a.current_monitor as int, cw as int);
        assert(s5.ws() == ws_at(s5, a.current_monitor as int, cw as int));
        if before.main_window is Some && crate::safety::exists_in(world, before.main_window.unwrap()) {
            crate::model::lemma_live_only_no_dead(before.floatings@, world);
        }
        lemma_live_only_idem(before.floatings@, world);
        assert forall|j: int| 0 <= j < nm implies refreshed(a, ws_at(a, j, cw as int), #[trigger] ws_at(*state, j, cw as int), world) by {
            if j != a.current_monitor {
                assert(ws_at(*state, j, cw as int) == ws_at(s5, j, cw as int));
            }
        }
        assert(only_cw_changed(a, *state)) by {
            assert forall|mm: int, ww: int|
                0 <= mm < a.monitors@.len() && 0 <= ww < a.monitors@[mm].workspaces@.len() && ww
                    != a.current_workspace implies #[trigger] ws_at(*state, mm, ww) == ws_at(a, mm, ww) by {
                assert(ws_at(*state, mm, ww) == ws_at(s5, mm, ww));
            }
        }
    }
}

} // verus!
