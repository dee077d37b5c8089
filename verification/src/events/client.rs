//! Requests that other clients send to the window manager.
use vstd::prelude::*;
use crate::actions::{Action, Allow, extends, lemma_extends_push, lemma_extends_trans, lemma_extends_refl};
use crate::model::{sent_sides, side_without, has_dead, hint_map};
use crate::safety::World;
use crate::state::{State, Window, only_ws_changed, ws_at, lemma_only_ws_changed_trans};
use crate::windows::gets::{monitor_index, spec_monitor_index};
use crate::windows::tiling::{fill_main_space, send_side_space, remove_side_window, focus_main, main_configure, fill_acts};
use crate::windows::layout::{layout_acts, frame};
use crate::windows::workspaces::{switch, only_cw_changed, refreshed, all_shows};
use crate::windows::audits::full;

verus! {

/// The atoms that name the client messages handled.
pub struct ClientAtoms {
    pub current_desktop: u32,
    pub active_window: u32,
    pub close_window: u32,
    pub wm_desktop: u32,
}

/// A client message, by its type.
#[derive(PartialEq, Eq, Structural, Debug, Clone, Copy)]
pub enum ClientMessage {
    /// Switch to a desktop.
    CurrentDesktop(u32),
    /// Activate a window.
    ActiveWindow(Window),
    /// Close a window.
    CloseWindow(Window),
    /// Move a window to a desktop.
    WmDesktop(Window, u32),
    /// Any other message type.
    Other(u32),
}

/// The message of type `type_` about `window`, with first data word `data0`.
pub open spec fn spec_classify(atoms: ClientAtoms, type_: u32, window: Window, data0: u32) -> ClientMessage {
    if type_ == atoms.current_desktop {
        ClientMessage::CurrentDesktop(data0)
    } else if type_ == atoms.active_window {
        ClientMessage::ActiveWindow(window)
    } else if type_ == atoms.close_window {
        ClientMessage::CloseWindow(window)
    } else if type_ == atoms.wm_desktop {
        ClientMessage::WmDesktop(window, data0)
    } else {
        ClientMessage::Other(type_)
    }
}

/// Tells a client message by its type, testing the types in the order above.
pub fn classify(atoms: &ClientAtoms, type_: u32, window: Window, data0: u32) -> (res: ClientMessage)
    ensures
        res == spec_classify(*atoms, type_, window, data0),
{
    if type_ == atoms.current_desktop {
        ClientMessage::CurrentDesktop(data0)
    } else if type_ == atoms.active_window {
        ClientMessage::ActiveWindow(window)
    } else if type_ == atoms.close_window {
        ClientMessage::CloseWindow(window)
    } else if type_ == atoms.wm_desktop {
        ClientMessage::WmDesktop(window, data0)
    } else {
        ClientMessage::Other(type_)
    }
}

/// The position of `w` in a side list, where it is there.
pub open spec fn side_index(s: Seq<Option<Window>>, w: Window) -> Option<usize> {
    if s.contains(Some(w)) {
        Some((choose|i: int| 0 <= i < s.len() && s[i] == Some(w)) as usize)
    } else {
        None
    }
}

/// The state with another current monitor and workspace.
pub open spec fn at(st: State, m: int, w: int) -> State {
    State { current_monitor: m as usize, current_workspace: w as usize, ..st }
}

/// A desktop request can be served: a switch to another desktop needs it to exist.
pub open spec fn message_ok(st: State, msg: ClientMessage) -> bool {
    match msg {
        ClientMessage::CurrentDesktop(d) => d == st.current_workspace || d < st.nws(),
        ClientMessage::WmDesktop(_, d) => d < st.nws(),
        _ => true,
    }
}

/// What a desktop request leaves: the requested workspace is current, and
/// where it changed, every monitor shows it, laid out again.
pub open spec fn desktop_done(a: State, b: State, world: &World, d: u32, acts0: Seq<Action>, acts: Seq<Action>) -> bool {
    &&& b.current_workspace == d
    &&& b.current_monitor == a.current_monitor
    &&& d == a.current_workspace ==> b == a && acts == acts0
    &&& d != a.current_workspace ==> {
        let mid = at(a, a.current_monitor as int, d as int);
        &&& only_cw_changed(mid, b)
        &&& forall|m: int| 0 <= m < a.monitors@.len() ==> refreshed(
            mid,
            ws_at(a, m, d as int),
            #[trigger] ws_at(b, m, d as int),
            world,
        )
        &&& extends(acts0 + all_shows(mid, a.monitors@.len() as int) + seq![
            Action::SetCurrentDesktop(d),
            Action::SetActive(0),
        ], acts)
        &&& crate::windows::workspaces::cw_floats_live(mid, world) ==> acts == acts0 + all_shows(
            mid,
            a.monitors@.len() as int,
        ) + seq![Action::SetCurrentDesktop(d), Action::SetActive(0)] + crate::windows::workspaces::relayout_acts(
            mid,
            a.monitors@.len() as int,
            world,
        ) + crate::windows::tiling::focus_acts(mid, world)
        &&& acts == acts0 + all_shows(mid, a.monitors@.len() as int) + seq![
            Action::SetCurrentDesktop(d),
            Action::SetActive(0),
        ] + crate::windows::workspaces::relayout_rec(mid, a.monitors@.len() as int, world)
            + crate::windows::layout::focus_rec(
            crate::windows::layout::frame(mid),
            mid.ws().main_window,
            crate::windows::layout::focused_floats(mid.ws().floatings@, mid.ws().main_window, world),
            crate::windows::layout::audit_map(mid, mid.ws().side_windows@.len() as int, hint_map(mid.ws().key_hint_windows@)),
            world,
        )
    }
}

/// Switches to desktop `d`.
pub fn desktop_request(state: &mut State, world: &World, actions: &mut Vec<Action>, d: u32)
    requires
        old(state).wf(),
        d == old(state).current_workspace || d < old(state).nws(),
    ensures
        final(state).wf(),
        extends(old(actions)@, final(actions)@),
        final(state).settings == old(state).settings,
        desktop_done(*old(state), *final(state), world, d, old(actions)@, final(actions)@),
{
    let ghost a = *state;
    let ghost acts0 = actions@;
    proof { lemma_extends_refl(acts0); }
    let requested = d as usize;
    if state.current_workspace != requested {
        state.current_workspace = requested;
        proof {
            let s1 = *state;
            assert(s1 == at(a, a.current_monitor as int, d as int));
            assert(s1.wf()) by {
                assert forall|mm: int, ww: int| 0 <= mm < s1.monitors@.len() && 0 <= ww < s1.nws() implies
                    crate::state::workspace_wf(#[trigger] ws_at(s1, mm, ww)) by {
                    assert(ws_at(s1, mm, ww) == ws_at(a, mm, ww));
                }
            }
        }
        switch(state, world, actions);
        proof {
            let mid = at(a, a.current_monitor as int, d as int);
            assert forall|m: int| 0 <= m < a.monitors@.len() implies refreshed(
                mid,
                ws_at(a, m, d as int),
                #[trigger] ws_at(*state, m, d as int),
                world,
            ) by {
                assert(ws_at(mid, m, d as int) == ws_at(a, m, d as int));
            }
            let big = acts0 + all_shows(mid, a.monitors@.len() as int) + seq![
                Action::SetCurrentDesktop(d),
                Action::SetActive(0),
            ];
            assert(big.subrange(0, acts0.len() as int) =~= acts0);
            lemma_extends_trans(acts0, big, actions@);
        }
    }
}

/// What an activation request leaves.
pub open spec fn activate_done(
    a: State,
    b: State,
    w: Window,
    world: &World,
    acts0: Seq<Action>,
    acts1: Seq<Action>,
) -> bool {
    let mi = spec_monitor_index(a, w);
    let mid = at(a, mi, a.current_workspace as int);
    &&& b.current_monitor == mi
    &&& b.current_workspace == a.current_workspace
    &&& only_ws_changed(mid, b)
    &&& match mid.ws().main_window {
        Some(e) => if e == w {
            b == mid && acts1 == acts0
        } else {
            &&& !has_dead(mid.ws().floatings@, world) ==> acts1 == acts0 + fill_acts(
                mid,
                w,
                side_without(mid.ws().side_windows@, w).len() as int,
                world,
            ) + layout_acts(b, Some(w), hint_map(mid.ws().key_hint_windows@), world)
            &&& {
                let sw = side_without(mid.ws().side_windows@, w);
                let m0 = hint_map(mid.ws().key_hint_windows@);
                acts1 == acts0 + crate::windows::layout::fill_rec(
                    crate::windows::layout::frame_in(mid, sw),
                    w,
                    sw.len() as int,
                    mid.ws().floatings@,
                    m0,
                    world,
                ) + crate::windows::layout::layout_rec(
                    crate::windows::layout::frame(b),
                    Some(w),
                    crate::windows::layout::focused_floats(mid.ws().floatings@, Some(w), world),
                    if crate::safety::exists_in(world, w) && has_dead(mid.ws().floatings@, world) {
                        crate::windows::layout::audit_f(crate::windows::layout::frame_in(mid, sw), m0)
                    } else {
                        m0
                    },
                    world,
                )
            }
            &&& b.ws().main_window == Some(w)
            &&& b.ws().floatings@ == crate::windows::layout::focused_floats(mid.ws().floatings@, Some(w), world)
            &&& b.ws().help_window == mid.ws().help_window
            &&& b.ws().fullscreen == mid.ws().fullscreen
            &&& b.ws().side_windows@ == sent_sides(
                side_without(mid.ws().side_windows@, w),
                e,
                if a.settings.layout.swap_not_stack {
                    side_index(mid.ws().side_windows@, w)
                } else {
                    None
                },
            )
        },
        None => b == mid && acts1 == acts0,
    }
}

/// Activates `w`: moves to its monitor and swaps it with the main window.
pub fn activate_request(state: &mut State, world: &World, actions: &mut Vec<Action>, w: Window)
    requires
        old(state).wf(),
    ensures
        final(state).wf(),
        extends(old(actions)@, final(actions)@),
        final(state).settings == old(state).settings,
        activate_done(*old(state), *final(state), w, world, old(actions)@, final(actions)@),
{
    let ghost a = *state;
    let ghost acts0 = actions@;
    proof { lemma_extends_refl(acts0); }
    let mi = monitor_index(state, w);
    proof {
        crate::windows::gets::lemma_monitor_index_bound(a, w);
    }
    set_current_monitor(state, mi);
    let ghost mid = *state;
    proof {
        assert(only_ws_changed(mid, mid));
    }
    let cm = state.current_monitor;
    let cw = state.current_workspace;
    match state.monitors[cm].workspaces[cw].main_window {
        Some(existing) => {
            if existing == w {
                return;
            }
            let index = remove_side_window(state, w);
            let ghost s1 = *state;
            let ghost acts1 = actions@;
            fill_main_space(state, world, actions, w);
            let ghost s2 = *state;
            let ghost acts2 = actions@;
            let at_index = if state.settings.layout.swap_not_stack {
                index
            } else {
                None
            };
            proof {
                let c = main_configure(s1, w);
                lemma_extends_push(acts1, c);
                lemma_extends_trans(acts1, acts1.push(c), acts2);
                lemma_only_ws_changed_trans(mid, s1, s2);
                crate::model::lemma_side_without_contains(mid.ws().side_windows@, w, Some(w));
                if a.settings.layout.swap_not_stack {
                    match index {
                        Some(k) => {
                            let c2 = choose|i: int| 0 <= i < mid.ws().side_windows@.len() && mid.ws().side_windows@[i] == Some(w);
                            assert(mid.ws().side_windows@[k as int] == Some(w));
                            assert(crate::state::sides_wf(mid.ws().side_windows@));
                            assert(c2 == k);
                        },
                        None => {},
                    }
                }
            }
            send_side_space(state, world, actions, existing, at_index);
            proof {
                crate::windows::layout::lemma_frame_in(mid, s1);
                crate::windows::layout::lemma_frame_reads(s1, w, 0, hint_map(mid.ws().key_hint_windows@));
                lemma_only_ws_changed_trans(mid, s2, *state);
                lemma_extends_trans(acts0, acts2, actions@);
                crate::model::lemma_live_only_idem(mid.ws().floatings@, world);
                if !has_dead(mid.ws().floatings@, world) {
                    crate::model::lemma_live_only_all_live(mid.ws().floatings@, world);
                    assert(s2.ws().floatings@ == mid.ws().floatings@);
                    assert(hint_map(s2.ws().key_hint_windows@) == hint_map(mid.ws().key_hint_windows@));
                    assert(acts2 == acts0 + fill_acts(s1, w, s1.ws().side_windows@.len() as int, world));
                    assert(fill_acts(s1, w, s1.ws().side_windows@.len() as int, world) == fill_acts(
                        mid,
                        w,
                        side_without(mid.ws().side_windows@, w).len() as int,
                        world,
                    ));
                    assert(actions@ =~= acts0 + fill_acts(
                        mid,
                        w,
                        side_without(mid.ws().side_windows@, w).len() as int,
                        world,
                    ) + layout_acts(*state, Some(w), hint_map(mid.ws().key_hint_windows@), world));
                }
            }
        },
        None => {},
    }
}

/// The main window and side list once the first side window takes the main
/// area (or the main area is left empty where the side list is).
pub open spec fn promoted(sides: Seq<Option<Window>>) -> (Option<Window>, Seq<Option<Window>>) {
    if sides.len() > 0 {
        (sides[0], sides.remove(0))
    } else {
        (None, sides)
    }
}

/// The requests of the first side window taking the main area: its
/// geometry with the side list left without it, then its focus.
pub open spec fn promote_acts(a: State, world: &World) -> Seq<Action> {
    let sides = a.ws().side_windows@;
    if sides.len() > 0 && sides[0] is Some {
        let rest = sides.remove(0);
        crate::windows::layout::fill_rec(
            crate::windows::layout::frame_in(a, rest),
            sides[0].unwrap(),
            rest.len() as int,
            a.ws().floatings@,
            hint_map(a.ws().key_hint_windows@),
            world,
        )
    } else {
        Seq::empty()
    }
}

/// The floating list and key hint map once the first side window has taken
/// the main area.
pub open spec fn promote_state(a: State, world: &World) -> (Seq<Window>, Map<Seq<char>, Window>) {
    let sides = a.ws().side_windows@;
    let m0 = hint_map(a.ws().key_hint_windows@);
    if sides.len() > 0 && sides[0] is Some {
        let t = sides[0].unwrap();
        (
            crate::windows::layout::focused_floats(a.ws().floatings@, Some(t), world),
            if crate::safety::exists_in(world, t) && has_dead(a.ws().floatings@, world) {
                crate::windows::layout::audit_f(crate::windows::layout::frame_in(a, sides.remove(0)), m0)
            } else {
                m0
            },
        )
    } else {
        (a.ws().floatings@, m0)
    }
}

/// The first side window takes the main area of the current workspace, or
/// the main area is left empty where the side list is.
fn promote_first_side(state: &mut State, world: &World, actions: &mut Vec<Action>)
    requires
        old(state).wf(),
    ensures
        final(state).wf(),
        only_ws_changed(*old(state), *final(state)),
        extends(old(actions)@, final(actions)@),
        (final(state).ws().main_window, final(state).ws().side_windows@) == promoted(old(state).ws().side_windows@),
        final(state).ws().help_window == old(state).ws().help_window,
        final(state).ws().fullscreen == old(state).ws().fullscreen,
        (final(state).ws().floatings@, hint_map(final(state).ws().key_hint_windows@)) == promote_state(*old(state), world),
        final(actions)@ == old(actions)@ + promote_acts(*old(state), world),
{
    let ghost a = *state;
    let ghost acts0 = actions@;
    let cm = state.current_monitor;
    let cw = state.current_workspace;
    if state.monitors[cm].workspaces[cw].side_windows.len() != 0 {
        match state.monitors[cm].workspaces[cw].side_windows[0] {
            Some(new_main) => {
                remove_side_window(state, new_main);
                let ghost s1 = *state;
                fill_main_space(state, world, actions, new_main);
                proof {
                    let c = main_configure(s1, new_main);
                    lemma_extends_push(acts0, c);
                    lemma_extends_trans(acts0, acts0.push(c), actions@);
                    lemma_only_ws_changed_trans(a, s1, *state);
                    assert(crate::state::sides_wf(a.ws().side_windows@));
                    crate::model::lemma_side_without_remove(a.ws().side_windows@, new_main, 0);
                    crate::windows::layout::lemma_frame_in(a, s1);
                    crate::windows::layout::lemma_frame_reads(s1, new_main, 0, hint_map(a.ws().key_hint_windows@));
                }
                return;
            },
            None => {},
        }
    }
    state.monitors[cm].workspaces[cw].main_window = None;
    proof {
        assert(only_ws_changed(a, *state));
        assert(crate::state::workspace_wf(a.ws()));
        crate::state::lemma_wf_kept(a, *state);
        lemma_extends_refl(actions@);
    }
}

/// Makes monitor `m` current.
fn set_current_monitor(state: &mut State, m: usize)
    requires
        old(state).wf(),
        m < old(state).monitors@.len(),
    ensures
        final(state).wf(),
        *final(state) == at(*old(state), m as int, old(state).current_workspace as int),
{
    let ghost a = *state;
    if m != state.current_monitor {
        state.current_monitor = m;
    }
    proof {
        let b = *state;
        assert(b == at(a, m as int, a.current_workspace as int));
        assert(b.wf()) by {
            assert forall|mm: int, ww: int| 0 <= mm < b.monitors@.len() && 0 <= ww < b.nws() implies
                crate::state::workspace_wf(#[trigger] ws_at(b, mm, ww)) by {
                assert(ws_at(b, mm, ww) == ws_at(a, mm, ww));
            }
        }
    }
}

/// The workspace `d` of the current monitor as the moved window comes to
/// it: its main window, side list, floating list and key hint map.  Where
/// `d` is the current workspace, its first side window has already taken
/// the main area.
pub open spec fn target_before(a: State, d: int, world: &World) -> (
    Option<Window>,
    Seq<Option<Window>>,
    Seq<Window>,
    Map<Seq<char>, Window>,
) {
    if d == a.current_workspace {
        let p = promoted(a.ws().side_windows@);
        let q = promote_state(a, world);
        (p.0, p.1, q.0, q.1)
    } else {
        let t = ws_at(a, a.current_monitor as int, d);
        (t.main_window, t.side_windows@, t.floatings@, hint_map(t.key_hint_windows@))
    }
}

/// The side list of a workspace with main window `main` and side list
/// `sides` once its main window went to the side.
pub open spec fn target_sides(main: Option<Window>, sides: Seq<Option<Window>>) -> Seq<Option<Window>> {
    match main {
        Some(e) => sent_sides(sides, e, None),
        None => sides,
    }
}

/// The requests of sending the main window of the current workspace of
/// `base`, with main window `main`, side list `sides`, floating list `fl`
/// and key hint map `m`, to its side list; and the floating list and key
/// hint map that leaves.
pub open spec fn target_sent(
    base: State,
    main: Option<Window>,
    sides: Seq<Option<Window>>,
    fl: Seq<Window>,
    m: Map<Seq<char>, Window>,
    world: &World,
) -> (Seq<Action>, Seq<Window>, Map<Seq<char>, Window>) {
    let f = crate::windows::layout::frame_in(base, target_sides(main, sides));
    match main {
        Some(e) => (
            crate::windows::layout::layout_rec(f, Some(e), fl, m, world),
            crate::windows::layout::focused_floats(fl, Some(e), world),
            crate::windows::layout::audit_f(f, m),
        ),
        None => (Seq::empty(), fl, m),
    }
}

/// The requests of that workspace's main window going to its side list and
/// `w` taking its main area.
pub open spec fn target_acts(
    base: State,
    main: Option<Window>,
    sides: Seq<Option<Window>>,
    fl: Seq<Window>,
    m: Map<Seq<char>, Window>,
    w: Window,
    world: &World,
) -> Seq<Action> {
    let ts = target_sides(main, sides);
    let sent = target_sent(base, main, sides, fl, m, world);
    sent.0 + crate::windows::layout::fill_rec(
        crate::windows::layout::frame_in(base, ts),
        w,
        ts.len() as int,
        sent.1,
        sent.2,
        world,
    )
}

/// The floating list and key hint map of that workspace once `w` has taken
/// its main area.
pub open spec fn target_after(
    base: State,
    main: Option<Window>,
    sides: Seq<Option<Window>>,
    fl: Seq<Window>,
    m: Map<Seq<char>, Window>,
    w: Window,
    world: &World,
) -> (Seq<Window>, Map<Seq<char>, Window>) {
    let sent = target_sent(base, main, sides, fl, m, world);
    (
        crate::windows::layout::focused_floats(sent.1, Some(w), world),
        if crate::safety::exists_in(world, w) && has_dead(sent.1, world) {
            crate::windows::layout::audit_f(crate::windows::layout::frame_in(base, target_sides(main, sides)), sent.2)
        } else {
            sent.2
        },
    )
}

/// The requests of focusing the current workspace of `base`, with main
/// window `main`, side list `sides`, floating list `fl` and key hint map
/// `m`, then bringing it in step with the server.
pub open spec fn home_acts(
    base: State,
    main: Option<Window>,
    sides: Seq<Option<Window>>,
    fl: Seq<Window>,
    m: Map<Seq<char>, Window>,
    world: &World,
) -> Seq<Action> {
    let fh = crate::windows::layout::frame_in(base, sides);
    let hf = crate::windows::layout::focused_floats(fl, main, world);
    let hm = if main is Some && crate::safety::exists_in(world, main.unwrap()) && has_dead(fl, world) {
        crate::windows::layout::audit_f(fh, m)
    } else {
        m
    };
    crate::windows::layout::focus_rec(fh, main, fl, m, world) + crate::windows::audits::settle_with(
        base,
        main,
        sides,
        hf,
        hm,
        world,
    )
}

/// The current workspace when the moved window is in place: its main
/// window, side list, floating list and key hint map.
pub open spec fn home_at_focus(a: State, d: int, w: Window, world: &World) -> (
    Option<Window>,
    Seq<Option<Window>>,
    Seq<Window>,
    Map<Seq<char>, Window>,
) {
    let t = target_before(a, d, world);
    if d == a.current_workspace {
        let u = target_after(a, t.0, t.1, t.2, t.3, w, world);
        (Some(w), target_sides(t.0, t.1), u.0, u.1)
    } else {
        target_before(a, a.current_workspace as int, world)
    }
}

/// The requests of moving `w` into the main area of workspace `d` before
/// the closing switch: the first side window takes the current main area,
/// the main window of `d` goes to its side list, `w` takes its main area,
/// then the current workspace is focused and brought in step with the
/// server.
pub open spec fn move_prefix(a: State, d: int, w: Window, world: &World) -> Seq<Action> {
    let t = target_before(a, d, world);
    let h = home_at_focus(a, d, w, world);
    promote_acts(a, world) + target_acts(State { current_workspace: d as usize, ..a }, t.0, t.1, t.2, t.3, w, world)
        + home_acts(a, h.0, h.1, h.2, h.3, world)
}

/// A state that differs from `a` only in the workspaces of the current
/// monitor, the current one keeping its fullscreen flag, gives a side list
/// the frame `a` gives it.
proof fn lemma_frame_home(a: State, c: State, x: Seq<Option<Window>>)
    requires
        a.current_monitor < a.monitors@.len(),
        forall|i: int| 0 <= i < a.monitors@.len() ==> a.current_workspace < (#[trigger] a.monitors@[i]).workspaces@.len(),
        crate::state::only_monitor_changed(a, c),
        c.ws().fullscreen == a.ws().fullscreen,
    ensures
        crate::windows::layout::frame_in(c, x) == crate::windows::layout::frame_in(a, x),
{
    let cw = a.current_workspace as int;
    assert forall|i: int| 0 <= i < a.monitors@.len() implies {
        &&& (#[trigger] c.monitors@[i]).close_box == a.monitors@[i].close_box
        &&& c.monitors@[i].position == a.monitors@[i].position
        &&& c.monitors@[i].sizes == a.monitors@[i].sizes
        &&& i != a.current_monitor ==> c.monitors@[i].workspaces@[cw].side_windows@.len()
            == a.monitors@[i].workspaces@[cw].side_windows@.len()
        &&& c.monitors@[i].workspaces@[cw].fullscreen == a.monitors@[i].workspaces@[cw].fullscreen
    } by {
        if i != a.current_monitor {
            assert(ws_at(c, i, cw) == ws_at(a, i, cw));
        }
    }
    crate::windows::layout::lemma_frame_in_alike(a, c, x);
}

/// What workspace `before` becomes when `w` is moved into its main area: its
/// main window, where it has one, goes to the end of its side list.
pub open spec fn moved_to(before: crate::state::Workspace, after: crate::state::Workspace, w: Window) -> bool {
    &&& after.main_window == Some(w)
    &&& after.side_windows@ == match before.main_window {
        Some(m) => sent_sides(before.side_windows@, m, None),
        None => before.side_windows@,
    }
}

/// Puts `w` in the main area of workspace `target` of the current monitor,
/// the main window there going to the end of its side list.
#[verifier::rlimit(60)]
fn move_main_into(state: &mut State, world: &World, actions: &mut Vec<Action>, w: Window, target: usize)
    requires
        old(state).wf(),
        target < old(state).nws(),
    ensures
        final(state).wf(),
        final(state).current_workspace == old(state).current_workspace,
        crate::state::only_monitor_changed(*old(state), *final(state)),
        forall|ww: int|
            0 <= ww < old(state).nws() && ww != target ==> #[trigger] ws_at(*final(state), old(state).current_monitor as int, ww)
                == ws_at(*old(state), old(state).current_monitor as int, ww),
        ({
            let cm = old(state).current_monitor as int;
            let b0 = ws_at(*old(state), cm, target as int);
            let b1 = ws_at(*final(state), cm, target as int);
            let base = State { current_workspace: target, ..*old(state) };
            &&& b1.main_window == Some(w)
            &&& b1.side_windows@ == target_sides(b0.main_window, b0.side_windows@)
            &&& b1.help_window == b0.help_window
            &&& b1.fullscreen == b0.fullscreen
            &&& (b1.floatings@, hint_map(b1.key_hint_windows@)) == target_after(
                base,
                b0.main_window,
                b0.side_windows@,
                b0.floatings@,
                hint_map(b0.key_hint_windows@),
                w,
                world,
            )
            &&& final(actions)@ == old(actions)@ + target_acts(
                base,
                b0.main_window,
                b0.side_windows@,
                b0.floatings@,
                hint_map(b0.key_hint_windows@),
                w,
                world,
            )
        }),
        extends(old(actions)@, final(actions)@),
{
    let ghost a = *state;
    let ghost acts0 = actions@;
    let cm = state.current_monitor;
    let home = state.current_workspace;
    state.current_workspace = target;
    let ghost s2 = *state;
    proof {
        assert(s2.wf()) by {
            assert forall|mm: int, ww: int| 0 <= mm < s2.monitors@.len() && 0 <= ww < s2.nws() implies
                crate::state::workspace_wf(#[trigger] ws_at(s2, mm, ww)) by {
                assert(ws_at(s2, mm, ww) == ws_at(a, mm, ww));
            }
        }
        assert(s2.monitors@[cm as int].workspaces@.len() == s2.nws());
    }
    match state.monitors[cm].workspaces[target].main_window {
        Some(aside) => {
            send_side_space(state, world, actions, aside, None);
        },
        None => {
            proof { lemma_extends_refl(actions@); }
        },
    }
    let ghost acts3 = actions@;
    let ghost s_fill = *state;
    proof {
        crate::windows::layout::lemma_frame_in(s2, s_fill);
        crate::windows::layout::lemma_frame_reads(s_fill, w, 0, hint_map(s2.ws().key_hint_windows@));
    }
    fill_main_space(state, world, actions, w);
    proof {
        let c = main_configure(s_fill, w);
        lemma_extends_push(acts3, c);
        lemma_extends_trans(acts3, acts3.push(c), actions@);
        lemma_extends_trans(acts0, acts3, actions@);
        crate::windows::layout::lemma_frame_reads(s_fill, w, 0, hint_map(s_fill.ws().key_hint_windows@));
    }
    let ghost s3 = *state;
    state.current_workspace = home;
    proof {
        let s4 = *state;
        lemma_only_ws_changed_trans(s2, s_fill, s3);
        assert(s4.wf()) by {
            assert forall|mm: int, ww: int| 0 <= mm < s4.monitors@.len() && 0 <= ww < s4.nws() implies
                crate::state::workspace_wf(#[trigger] ws_at(s4, mm, ww)) by {
                assert(ws_at(s4, mm, ww) == ws_at(s3, mm, ww));
            }
        }
        assert(crate::state::only_monitor_changed(a, s4)) by {
            assert forall|mm: int, ww: int|
                0 <= mm < a.monitors@.len() && 0 <= ww < a.monitors@[mm].workspaces@.len() && mm
                    != a.current_monitor implies #[trigger] ws_at(s4, mm, ww) == ws_at(a, mm, ww) by {
                assert(ws_at(s3, mm, ww) == ws_at(s2, mm, ww));
            }
        }
        assert forall|ww: int| 0 <= ww < a.nws() && ww != target implies #[trigger] ws_at(s4, cm as int, ww)
            == ws_at(a, cm as int, ww) by {
            assert(ws_at(s3, cm as int, ww) == ws_at(s2, cm as int, ww));
        }
        assert(ws_at(s4, cm as int, target as int) == s3.ws());
        assert(s2.ws() == ws_at(a, cm as int, target as int));
    }
}

/// Focuses the main window of the current workspace, then brings the
/// workspace in step with the server.
fn settle_home(state: &mut State, world: &World, actions: &mut Vec<Action>)
    requires
        old(state).wf(),
    ensures
        final(state).wf(),
        only_ws_changed(*old(state), *final(state)),
        (final(state).ws().main_window, final(state).ws().side_windows@) == crate::windows::audits::settled_tiling(
            old(state).ws().main_window,
            old(state).ws().side_windows@,
            world,
        ),
        final(state).ws().help_window == old(state).ws().help_window,
        final(state).ws().fullscreen == old(state).ws().fullscreen,
        final(actions)@ == old(actions)@ + home_acts(
            *old(state),
            old(state).ws().main_window,
            old(state).ws().side_windows@,
            old(state).ws().floatings@,
            hint_map(old(state).ws().key_hint_windows@),
            world,
        ),
        extends(old(actions)@, final(actions)@),
{
    let ghost a = *state;
    let ghost acts0 = actions@;
    focus_main(state, world, actions);
    let ghost s5 = *state;
    let ghost acts5 = actions@;
    full(state, world, actions);
    proof {
        lemma_only_ws_changed_trans(a, s5, *state);
        lemma_extends_trans(acts0, acts5, actions@);
        crate::windows::layout::lemma_frame_in(a, a);
        crate::windows::layout::lemma_frame_reads(a, 0, 0, hint_map(a.ws().key_hint_windows@));
        let l = crate::model::live_sides(a.ws().side_windows@, world);
        crate::windows::layout::lemma_frame_in_same(a, s5, l);
        assert(actions@ =~= acts0 + home_acts(
            a,
            a.ws().main_window,
            a.ws().side_windows@,
            a.ws().floatings@,
            hint_map(a.ws().key_hint_windows@),
            world,
        ));
    }
}

/// The requests of a move before its closing switch, step by step.
proof fn lemma_move_steps(
    a: State,
    s1: State,
    s4: State,
    acts0: Seq<Action>,
    acts1: Seq<Action>,
    acts4: Seq<Action>,
    acts6: Seq<Action>,
    w: Window,
    target: usize,
    world: &World,
)
    requires
        a.wf(),
        target < a.nws(),
        only_ws_changed(a, s1),
        (s1.ws().main_window, s1.ws().side_windows@) == promoted(a.ws().side_windows@),
        s1.ws().fullscreen == a.ws().fullscreen,
        (s1.ws().floatings@, hint_map(s1.ws().key_hint_windows@)) == promote_state(a, world),
        acts1 == acts0 + promote_acts(a, world),
        s1.wf(),
        s4.current_workspace == s1.current_workspace,
        crate::state::only_monitor_changed(s1, s4),
        forall|ww: int|
            0 <= ww < s1.nws() && ww != target ==> #[trigger] ws_at(s4, s1.current_monitor as int, ww)
                == ws_at(s1, s1.current_monitor as int, ww),
        ({
            let cm = s1.current_monitor as int;
            let b0 = ws_at(s1, cm, target as int);
            let b1 = ws_at(s4, cm, target as int);
            let base = State { current_workspace: target, ..s1 };
            &&& b1.main_window == Some(w)
            &&& b1.side_windows@ == target_sides(b0.main_window, b0.side_windows@)
            &&& b1.fullscreen == b0.fullscreen
            &&& (b1.floatings@, hint_map(b1.key_hint_windows@)) == target_after(
                base,
                b0.main_window,
                b0.side_windows@,
                b0.floatings@,
                hint_map(b0.key_hint_windows@),
                w,
                world,
            )
            &&& acts4 == acts1 + target_acts(
                base,
                b0.main_window,
                b0.side_windows@,
                b0.floatings@,
                hint_map(b0.key_hint_windows@),
                w,
                world,
            )
        }),
        acts6 == acts4 + home_acts(
            s4,
            s4.ws().main_window,
            s4.ws().side_windows@,
            s4.ws().floatings@,
            hint_map(s4.ws().key_hint_windows@),
            world,
        ),
    ensures
        acts6 == acts0 + move_prefix(a, target as int, w, world),
{
    let d = target as int;
    let cm = a.current_monitor as int;
    let home = a.current_workspace as int;
    let ad = State { current_workspace: target, ..a };
    let s1d = State { current_workspace: target, ..s1 };
    let tb = target_before(a, d, world);
    let b0 = ws_at(s1, cm, d);
    assert(a.monitors@[cm].workspaces@.len() == a.nws());
    assert(b0.main_window == tb.0 && b0.side_windows@ == tb.1 && b0.floatings@ == tb.2
        && hint_map(b0.key_hint_windows@) == tb.3 && b0.fullscreen == ws_at(a, cm, d).fullscreen) by {
        if d != home {
            assert(ws_at(s1, cm, d) == ws_at(a, cm, d));
        }
    }
    assert(crate::state::only_monitor_changed(ad, s1d)) by {
        assert forall|mm: int, ww: int|
            0 <= mm < ad.monitors@.len() && 0 <= ww < ad.monitors@[mm].workspaces@.len() && mm
                != ad.current_monitor implies #[trigger] ws_at(s1d, mm, ww) == ws_at(ad, mm, ww) by {
            assert(ws_at(s1, mm, ww) == ws_at(a, mm, ww));
        }
    }
    assert forall|i: int| 0 <= i < ad.monitors@.len() implies ad.current_workspace < (#[trigger] ad.monitors@[i]).workspaces@.len() by {
        assert(a.monitors@[i].workspaces@.len() == a.nws());
    }
    assert forall|i: int| 0 <= i < a.monitors@.len() implies a.current_workspace < (#[trigger] a.monitors@[i]).workspaces@.len() by {
        assert(a.monitors@[i].workspaces@.len() == a.nws());
    }
    let ts = target_sides(tb.0, tb.1);
    lemma_frame_home(ad, s1d, ts);
    assert(target_acts(s1d, b0.main_window, b0.side_windows@, b0.floatings@, hint_map(b0.key_hint_windows@), w, world)
        == target_acts(ad, tb.0, tb.1, tb.2, tb.3, w, world));
    assert(target_after(s1d, b0.main_window, b0.side_windows@, b0.floatings@, hint_map(b0.key_hint_windows@), w, world)
        == target_after(ad, tb.0, tb.1, tb.2, tb.3, w, world));
    let h = home_at_focus(a, d, w, world);
    assert(s4.ws().main_window == h.0 && s4.ws().side_windows@ == h.1 && s4.ws().floatings@ == h.2
        && hint_map(s4.ws().key_hint_windows@) == h.3 && s4.ws().fullscreen == a.ws().fullscreen) by {
        assert(s4.ws() == ws_at(s4, cm, home));
        assert(s1.ws() == ws_at(s1, cm, home));
        if d != home {
            assert(ws_at(s4, cm, home) == ws_at(s1, cm, home));
        }
    }
    assert(crate::state::only_monitor_changed(a, s4)) by {
        assert forall|mm: int, ww: int|
            0 <= mm < a.monitors@.len() && 0 <= ww < a.monitors@[mm].workspaces@.len() && mm
                != a.current_monitor implies #[trigger] ws_at(s4, mm, ww) == ws_at(a, mm, ww) by {
            assert(ws_at(s4, mm, ww) == ws_at(s1, mm, ww));
            assert(ws_at(s1, mm, ww) == ws_at(a, mm, ww));
        }
    }
    lemma_frame_home(a, s4, h.1);
    lemma_frame_home(a, s4, crate::model::live_sides(h.1, world));
    assert(home_acts(s4, h.0, h.1, h.2, h.3, world) == home_acts(a, h.0, h.1, h.2, h.3, world));
    assert(acts6 =~= acts0 + move_prefix(a, d, w, world));
}

/// What a request to move `w` to workspace `d` leaves (see
/// `move_to_desktop`).
pub open spec fn moved_done(a: State, b: State, w: Window, d: u32, acts0: Seq<Action>, acts: Seq<Action>, world: &World) -> bool {
    let p = promoted(a.ws().side_windows@);
    &&& b.current_monitor == a.current_monitor
    &&& b.current_workspace == a.current_workspace
    &&& d != a.current_workspace ==> moved_to(
        ws_at(a, a.current_monitor as int, d as int),
        ws_at(b, a.current_monitor as int, d as int),
        w,
    )
    &&& d != a.current_workspace ==> (b.ws().main_window, b.ws().side_windows@)
        == crate::windows::audits::settled_tiling(p.0, p.1, world)
    &&& d == a.current_workspace ==> (b.ws().main_window, b.ws().side_windows@)
        == crate::windows::audits::settled_tiling(Some(w), target_sides(p.0, p.1), world)
    &&& exists|s: State|
        #[trigger] crate::windows::workspaces::switched(s, b, acts0 + move_prefix(a, d as int, w, world), acts, world)
            && s.current_monitor == a.current_monitor && s.current_workspace == a.current_workspace
    &&& d != a.current_workspace ==> exists|k: int|
        acts0.len() <= k < acts.len() && #[trigger] acts[k] == Action::UnmapWindow(w)
}

/// Moves window `w` into the main area of workspace `d` of the current
/// monitor: the first side window of the current workspace takes the main
/// area here (or it is left empty), the main window of workspace `d` goes to
/// its side list; then the current workspace is brought in step and shown.
#[verifier::rlimit(60)]
pub fn move_to_desktop(state: &mut State, world: &World, actions: &mut Vec<Action>, w: Window, d: u32)
    requires
        old(state).wf(),
        d < old(state).nws(),
    ensures
        final(state).wf(),
        extends(old(actions)@, final(actions)@),
        final(state).settings == old(state).settings,
        final(state).current_monitor == old(state).current_monitor,
        final(state).current_workspace == old(state).current_workspace,
        moved_done(*old(state), *final(state), w, d, old(actions)@, final(actions)@, world),
{
    let ghost a = *state;
    let ghost acts0 = actions@;
    let target = d as usize;
    promote_first_side(state, world, actions);
    let ghost s1 = *state;
    let ghost acts1 = actions@;
    move_main_into(state, world, actions, w, target);
    let ghost s4 = *state;
    let ghost acts4 = actions@;
    settle_home(state, world, actions);
    let ghost s6 = *state;
    let ghost acts6 = actions@;
    switch(state, world, actions);
    proof {
        let cm = a.current_monitor as int;
        let home = a.current_workspace as int;
        assert(acts6 =~= acts0 + move_prefix(a, d as int, w, world)) by {
            lemma_move_steps(a, s1, s4, acts0, acts1, acts4, acts6, w, target, world);
        }
        lemma_extends_trans(acts0, acts1, acts4);
        lemma_extends_trans(acts0, acts4, acts6);
        lemma_extends_trans(acts0, acts6, actions@);
        assert(crate::windows::workspaces::switched(s6, *state, acts6, actions@, world));
        if d as int != home {
            assert(s1.monitors@[cm].workspaces@.len() == s1.nws());
            assert(ws_at(s6, cm, d as int) == ws_at(s4, cm, d as int));
            assert(ws_at(*state, cm, d as int) == ws_at(s6, cm, d as int));
            assert(ws_at(s4, cm, d as int).main_window == Some(w));
            crate::windows::workspaces::lemma_all_shows_hide(s6, s6.monitors@.len() as int, cm, d as int, w);
            let sh = crate::windows::workspaces::all_shows(s6, s6.monitors@.len() as int);
            let j = choose|j: int| 0 <= j < sh.len() && sh[j] == Action::UnmapWindow(w);
            assert(actions@[acts6.len() + j] == Action::UnmapWindow(w));
            assert(ws_at(s1, cm, d as int) == ws_at(a, cm, d as int));
        }
    }
}

/// Whether a client message can be served in the state.
pub fn message_allowed(state: &State, msg: ClientMessage) -> (res: bool)
    requires
        state.wf(),
    ensures
        res == message_ok(*state, msg),
{
    match msg {
        ClientMessage::CurrentDesktop(d) => {
            d as usize == state.current_workspace || (d as usize) < state.settings.bindings.workspaces.len()
        },
        ClientMessage::WmDesktop(_, d) => (d as usize) < state.settings.bindings.workspaces.len(),
        _ => true,
    }
}

/// Handles a client message.  A desktop request switches workspace; an
/// activation request moves to the window's monitor and swaps the window with
/// the main window (putting the old main window where it was in the side
/// list, where the layout swaps rather than stacks); a close request destroys
/// the window; a desktop move sends the window to another workspace's main
/// area.
pub fn message(state: &mut State, world: &World, actions: &mut Vec<Action>, msg: ClientMessage)
    requires
        old(state).wf(),
        message_ok(*old(state), msg),
    ensures
        final(state).wf(),
        extends(old(actions)@, final(actions)@),
        final(state).settings == old(state).settings,
        match msg {
            ClientMessage::CurrentDesktop(d) => desktop_done(*old(state), *final(state), world, d, old(actions)@, final(actions)@),
            ClientMessage::ActiveWindow(w) => activate_done(*old(state), *final(state), w, world, old(actions)@, final(actions)@),
            ClientMessage::CloseWindow(w) => *final(state) == *old(state) && final(actions)@ == old(actions)@ + seq![
                Action::Destroy(w),
                Action::AllowEvents(Allow::AsyncPointer),
            ],
            ClientMessage::WmDesktop(w, d) => moved_done(*old(state), *final(state), w, d, old(actions)@, final(actions)@, world),
            ClientMessage::Other(_) => *final(state) == *old(state) && final(actions)@ == old(actions)@,
        },
{
    let ghost acts0 = actions@;
    match msg {
        ClientMessage::CurrentDesktop(d) => desktop_request(state, world, actions, d),
        ClientMessage::ActiveWindow(w) => activate_request(state, world, actions, w),
        ClientMessage::CloseWindow(w) => {
            actions.push(Action::Destroy(w));
            actions.push(Action::AllowEvents(Allow::AsyncPointer));
            proof {
                assert(actions@.subrange(0, acts0.len() as int) =~= acts0);
            }
        },
        ClientMessage::WmDesktop(w, d) => move_to_desktop(state, world, actions, w, d),
        ClientMessage::Other(_) => {
            proof { lemma_extends_refl(acts0); }
        },
    }
}

} // verus!
