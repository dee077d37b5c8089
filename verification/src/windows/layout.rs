//! Where the side windows, key hints, floating windows and close boxes go.
use vstd::prelude::*;
use crate::actions::{Action, extends, lemma_extends_push, lemma_extends_trans, lemma_extends_refl, lemma_extends_index};
use crate::model::{
    live_only, has_dead, hint_map, hints_after, lemma_hints_after_idem, lemma_live_only_contains,
    lemma_live_only_idem, lemma_live_only_all_live, lemma_live_only_without,
    lemma_without_contains, lemma_without_shorter, copy_windows, without,
};
use crate::safety::{World, exists_in, window_exists};
use crate::settings::views;
use crate::state::{State, Window, Monitor, Sizes, only_ws_changed, lemma_only_ws_changed_trans, ws_at};
use crate::settings::Settings;
use crate::windows::tiling::{fill_main_space, focus_main, remove_floating, same_tiling, fill_acts, focus_acts};
use crate::windows::audits::{key_hints, hint_actions};

verus! {

/// The floating windows after the main window `main` has been focused: those
/// that no longer exist are dropped where the main window exists.
pub open spec fn focused_floats(fl: Seq<Window>, main: Option<Window>, world: &World) -> Seq<Window> {
    if main is Some && exists_in(world, main.unwrap()) {
        live_only(fl, world)
    } else {
        fl
    }
}

/// The key hint map after an audit for the side list of the state's
/// current workspace, where key hints are enabled.
pub open spec fn audited(st: State, m: Map<Seq<char>, Window>) -> Map<Seq<char>, Window> {
    audit_map(st, st.ws().side_windows@.len() as int, m)
}

/// The key hint map after an audit for `n` side windows, where key hints are
/// enabled in the state's settings.
pub open spec fn audit_map(st: State, n: int, m: Map<Seq<char>, Window>) -> Map<Seq<char>, Window> {
    if st.settings.bindings.key_hints {
        hints_after(m, views(st.settings.bindings.swaps@), n)
    } else {
        m
    }
}

pub proof fn lemma_audited_idem(st: State, m: Map<Seq<char>, Window>)
    ensures
        audited(st, audited(st, m)) == audited(st, m),
{
    lemma_hints_after_idem(m, views(st.settings.bindings.swaps@), st.ws().side_windows@.len() as int);
}

/// Raising each window, in order.
pub open spec fn raises(s: Seq<Window>) -> Seq<Action> {
    s.map_values(|w: Window| Action::Raise(w))
}

/// Slot `i` of the side list of the current workspace.
pub open spec fn side_slot(st: State, i: int) -> Action {
    let m = st.mon();
    Action::SideSlot {
        window: st.ws().side_windows@[i].unwrap(),
        x: (m.position.0 + m.sizes.main.0) as i32,
        top: m.position.1,
        width: m.sizes.side.0 as u32,
        span: m.sizes.side.1,
        index: i as usize,
        count: st.ws().side_windows@.len() as usize,
    }
}

/// The side slots of the state's side list, in order.
pub open spec fn slot_acts(st: State) -> Seq<Action> {
    Seq::new(st.ws().side_windows@.len(), |i: int| side_slot(st, i))
}

/// The key hint requests of a layout, from the key hint map `m0`, where key
/// hints are enabled: each hint goes to the right edge of its side slot.
pub open spec fn hint_acts(st: State, m0: Map<Seq<char>, Window>) -> Seq<Action> {
    let m = st.mon();
    if st.settings.bindings.key_hints {
        hint_actions(
            m0,
            st.settings.bindings.swaps@,
            st.ws().side_windows@.len() as int,
            (m.position.0 + m.sizes.main.0 + m.sizes.side.0 - 60) as i32,
            m.position.1,
            m.sizes.side.1,
            st.settings.bindings.swaps@.len() as int,
        )
    } else {
        Seq::empty()
    }
}

/// The close box requests of a layout, where close boxes are enabled.
pub open spec fn close_acts(st: State) -> Seq<Action> {
    if st.settings.layout.close_box {
        close_box_actions(st, st.monitors@.len() as int)
    } else {
        Seq::empty()
    }
}

/// The requests of a layout of the state's side list with main window
/// `main` and key hint map `m0`: the side slots, the key hints, the main
/// window put back and focused, and the close boxes.
pub open spec fn layout_acts(st: State, main: Option<Window>, m0: Map<Seq<char>, Window>, world: &World) -> Seq<Action> {
    slot_acts(st) + hint_acts(st, m0) + match main {
        Some(w) => fill_acts(st, w, st.ws().side_windows@.len() as int, world),
        None => Seq::empty(),
    } + close_acts(st)
}

/// What a layout of the current workspace reads from a state besides its
/// floating windows and key hints: the side slots, the close box requests,
/// the current monitor's position and sizes, the settings and the number of
/// side windows.
pub open spec fn frame(st: State) -> (Seq<Action>, Seq<Action>, (i32, i32), Sizes, Settings, int) {
    (slot_acts(st), close_acts(st), st.mon().position, st.mon().sizes, st.settings, st.ws().side_windows@.len() as int)
}

/// The geometry of the main window `w` with `side_len` side windows, in the
/// frame `f`.
pub open spec fn geometry_f(
    f: (Seq<Action>, Seq<Action>, (i32, i32), Sizes, Settings, int),
    w: Window,
    side_len: int,
) -> Action {
    let width = if f.4.layout.conditional_full && side_len == 0 {
        f.3.screen.0
    } else {
        f.3.main.0
    };
    Action::Configure { window: w, x: f.2.0, y: f.2.1, width: width as u32, height: f.3.main.1 as u32 }
}

/// The key hint requests of a layout in the frame `f`, from the key hint map `m`.
pub open spec fn hint_acts_f(
    f: (Seq<Action>, Seq<Action>, (i32, i32), Sizes, Settings, int),
    m: Map<Seq<char>, Window>,
) -> Seq<Action> {
    if f.4.bindings.key_hints {
        hint_actions(
            m,
            f.4.bindings.swaps@,
            f.5,
            (f.2.0 + f.3.main.0 + f.3.side.0 - 60) as i32,
            f.2.1,
            f.3.side.1,
            f.4.bindings.swaps@.len() as int,
        )
    } else {
        Seq::empty()
    }
}

/// The key hint map after the key hints of a layout in the frame `f`.
pub open spec fn audit_f(
    f: (Seq<Action>, Seq<Action>, (i32, i32), Sizes, Settings, int),
    m: Map<Seq<char>, Window>,
) -> Map<Seq<char>, Window> {
    if f.4.bindings.key_hints {
        hints_after(m, views(f.4.bindings.swaps@), f.5)
    } else {
        m
    }
}

/// The requests of going through the floating windows `fl` from position `i`
/// on, with main window `main`, while the floating list is `cur` and the key
/// hint map `m`: a window that exists is raised; one that is gone is dropped
/// and the side list laid out again (which refocuses the main window and so
/// goes through the floating windows left).
pub open spec fn reapply_rec(
    f: (Seq<Action>, Seq<Action>, (i32, i32), Sizes, Settings, int),
    main: Option<Window>,
    fl: Seq<Window>,
    i: int,
    cur: Seq<Window>,
    m: Map<Seq<char>, Window>,
    world: &World,
) -> Seq<Action>
    decreases fl.len(), 0int, fl.len() - i,
{
    if 0 <= i < fl.len() {
        let w = fl[i];
        if exists_in(world, w) {
            seq![Action::Raise(w)] + reapply_rec(f, main, fl, i + 1, cur, m, world)
        } else {
            let c1 = without(cur, w);
            if c1.len() < fl.len() {
                layout_rec(f, main, c1, m, world) + reapply_rec(
                    f,
                    main,
                    fl,
                    i + 1,
                    focused_floats(c1, main, world),
                    audit_f(f, m),
                    world,
                )
            } else {
                Seq::empty()
            }
        }
    } else {
        Seq::empty()
    }
}

/// The requests of a layout in the frame `f` with main window `main`,
/// floating list `cur` and key hint map `m`: the side slots, the key hints,
/// the main window put back and focused, and the close boxes.
pub open spec fn layout_rec(
    f: (Seq<Action>, Seq<Action>, (i32, i32), Sizes, Settings, int),
    main: Option<Window>,
    cur: Seq<Window>,
    m: Map<Seq<char>, Window>,
    world: &World,
) -> Seq<Action>
    decreases cur.len(), 3int, 0int,
{
    f.0 + hint_acts_f(f, m) + match main {
        Some(w) => fill_rec(f, w, f.5, cur, audit_f(f, m), world),
        None => Seq::empty(),
    } + f.1
}

/// The requests of putting `w` in the main area with `side_len` side
/// windows, then focusing it.
pub open spec fn fill_rec(
    f: (Seq<Action>, Seq<Action>, (i32, i32), Sizes, Settings, int),
    w: Window,
    side_len: int,
    cur: Seq<Window>,
    m: Map<Seq<char>, Window>,
    world: &World,
) -> Seq<Action>
    decreases cur.len(), 2int, 0int,
{
    seq![geometry_f(f, w, side_len)] + focus_rec(f, Some(w), cur, m, world)
}

/// The requests of focusing the main window `main` where it exists: marking
/// it active, then going through the floating windows.
pub open spec fn focus_rec(
    f: (Seq<Action>, Seq<Action>, (i32, i32), Sizes, Settings, int),
    main: Option<Window>,
    cur: Seq<Window>,
    m: Map<Seq<char>, Window>,
    world: &World,
) -> Seq<Action>
    decreases cur.len(), 1int, 0int,
{
    if main is Some && exists_in(world, main.unwrap()) {
        seq![Action::SetActive(main.unwrap())] + reapply_rec(f, main, cur, 0, cur, m, world)
    } else {
        Seq::empty()
    }
}

/// A state's frame reads as the state itself does.
pub proof fn lemma_frame_reads(st: State, w: Window, side_len: int, m: Map<Seq<char>, Window>)
    ensures
        geometry_f(frame(st), w, side_len) == crate::windows::tiling::main_geometry(st, w, side_len),
        hint_acts_f(frame(st), m) == hint_acts(st, m),
        audit_f(frame(st), m) == audited(st, m),
{
}

/// States that agree on the monitors' geometry and close boxes and on the
/// side list length and fullscreen flag of each monitor's current workspace
/// place the close boxes alike.
pub proof fn lemma_close_acts_same(a: State, c: State, k: int)
    requires
        a.settings == c.settings,
        a.current_workspace == c.current_workspace,
        a.monitors@.len() == c.monitors@.len(),
        0 <= k <= a.monitors@.len(),
        forall|i: int| 0 <= i < a.monitors@.len() ==> {
            &&& (#[trigger] c.monitors@[i]).close_box == a.monitors@[i].close_box
            &&& c.monitors@[i].position == a.monitors@[i].position
            &&& c.monitors@[i].sizes == a.monitors@[i].sizes
            &&& ws_at(c, i, a.current_workspace as int).side_windows@.len() == ws_at(a, i, a.current_workspace as int).side_windows@.len()
            &&& ws_at(c, i, a.current_workspace as int).fullscreen == ws_at(a, i, a.current_workspace as int).fullscreen
        },
    ensures
        close_box_actions(a, k) == close_box_actions(c, k),
    decreases k,
{
    if k > 0 {
        lemma_close_acts_same(a, c, k - 1);
        assert(c.monitors@[k - 1].close_box == a.monitors@[k - 1].close_box);
    }
}

/// States that agree on the monitors' geometry and close boxes, on the
/// side list length and fullscreen flag of each monitor's current workspace,
/// and on the current workspace's side list and floating windows lay it out
/// with the same requests.
pub proof fn lemma_layout_acts_alike(
    a: State,
    c: State,
    main: Option<Window>,
    m0: Map<Seq<char>, Window>,
    world: &World,
)
    requires
        a.settings == c.settings,
        a.current_monitor == c.current_monitor,
        a.current_workspace == c.current_workspace,
        a.monitors@.len() == c.monitors@.len(),
        a.current_monitor < a.monitors@.len(),
        forall|i: int| 0 <= i < a.monitors@.len() ==> {
            &&& (#[trigger] c.monitors@[i]).close_box == a.monitors@[i].close_box
            &&& c.monitors@[i].position == a.monitors@[i].position
            &&& c.monitors@[i].sizes == a.monitors@[i].sizes
            &&& ws_at(c, i, a.current_workspace as int).side_windows@.len() == ws_at(a, i, a.current_workspace as int).side_windows@.len()
            &&& ws_at(c, i, a.current_workspace as int).fullscreen == ws_at(a, i, a.current_workspace as int).fullscreen
        },
        c.ws().side_windows@ == a.ws().side_windows@,
        c.ws().floatings@ == a.ws().floatings@,
    ensures
        layout_acts(c, main, m0, world) == layout_acts(a, main, m0, world),
{
    let cm = a.current_monitor as int;
    assert(c.mon().sizes == a.mon().sizes && c.mon().position == a.mon().position) by {
        assert(c.monitors@[cm].sizes == a.monitors@[cm].sizes);
    }
    assert(slot_acts(c) =~= slot_acts(a));
    lemma_close_acts_same(a, c, a.monitors@.len() as int);
}

/// States that differ at most in the current workspace's key hints lay it
/// out with the same requests.
pub proof fn lemma_layout_acts_same(
    a: State,
    c: State,
    main: Option<Window>,
    m0: Map<Seq<char>, Window>,
    world: &World,
)
    requires
        a.wf(),
        only_ws_changed(a, c),
        c.ws().side_windows@ == a.ws().side_windows@,
        c.ws().fullscreen == a.ws().fullscreen,
        c.ws().floatings@ == a.ws().floatings@,
    ensures
        layout_acts(c, main, m0, world) == layout_acts(a, main, m0, world),
{
    let cm = a.current_monitor as int;
    let cw = a.current_workspace as int;
    assert forall|i: int| 0 <= i < a.monitors@.len() implies {
        &&& (#[trigger] c.monitors@[i]).close_box == a.monitors@[i].close_box
        &&& c.monitors@[i].position == a.monitors@[i].position
        &&& c.monitors@[i].sizes == a.monitors@[i].sizes
        &&& ws_at(c, i, cw).side_windows@.len() == ws_at(a, i, cw).side_windows@.len()
        &&& ws_at(c, i, cw).fullscreen == ws_at(a, i, cw).fullscreen
    } by {
        assert(a.monitors@[i].workspaces@.len() == a.nws());
        if i != cm {
            assert(ws_at(c, i, cw) == ws_at(a, i, cw));
        }
    }
    lemma_layout_acts_alike(a, c, main, m0, world);
}

/// A change to the current workspace that keeps its side list and
/// fullscreen flag keeps the frame of a layout.
pub proof fn lemma_frame_same(a: State, c: State)
    requires
        a.wf(),
        only_ws_changed(a, c),
        c.ws().side_windows@ == a.ws().side_windows@,
        c.ws().fullscreen == a.ws().fullscreen,
    ensures
        frame(c) == frame(a),
{
    let cm = a.current_monitor as int;
    let cw = a.current_workspace as int;
    assert forall|i: int| 0 <= i < a.monitors@.len() implies {
        &&& (#[trigger] c.monitors@[i]).close_box == a.monitors@[i].close_box
        &&& c.monitors@[i].position == a.monitors@[i].position
        &&& c.monitors@[i].sizes == a.monitors@[i].sizes
        &&& ws_at(c, i, cw).side_windows@.len() == ws_at(a, i, cw).side_windows@.len()
        &&& ws_at(c, i, cw).fullscreen == ws_at(a, i, cw).fullscreen
    } by {
        assert(a.monitors@[i].workspaces@.len() == a.nws());
        if i != cm {
            assert(ws_at(c, i, cw) == ws_at(a, i, cw));
        }
    }
    lemma_close_acts_same(a, c, a.monitors@.len() as int);
    assert(c.mon().sizes == a.mon().sizes && c.mon().position == a.mon().position) by {
        assert(c.monitors@[cm].sizes == a.monitors@[cm].sizes);
    }
    assert(slot_acts(c) =~= slot_acts(a));
}

/// Lays out the side list of the current workspace in equal slots, updates
/// the key hints, puts the main window back in place and places the close
/// boxes.
#[verifier::rlimit(50)]
pub fn layout_side_space(state: &mut State, world: &World, actions: &mut Vec<Action>)
    requires
        old(state).wf(),
    ensures
        final(state).wf(),
        only_ws_changed(*old(state), *final(state)),
        same_tiling(old(state).ws(), final(state).ws()),
        hint_map(final(state).ws().key_hint_windows@) == audited(
            *old(state),
            hint_map(old(state).ws().key_hint_windows@),
        ),
        final(state).ws().floatings@ == focused_floats(
            old(state).ws().floatings@,
            old(state).ws().main_window,
            world,
        ),
        extends(old(actions)@, final(actions)@),
        final(actions)@.len() >= old(actions)@.len() + old(state).ws().side_windows@.len(),
        forall|i: int|
            0 <= i < old(state).ws().side_windows@.len() ==> #[trigger] final(actions)@[old(
                actions,
            )@.len() + i] == side_slot(*old(state), i),
        !has_dead(old(state).ws().floatings@, world) ==> final(actions)@ == old(actions)@ + layout_acts(
            *old(state),
            old(state).ws().main_window,
            hint_map(old(state).ws().key_hint_windows@),
            world,
        ),
        final(actions)@ == old(actions)@ + layout_rec(
            frame(*old(state)),
            old(state).ws().main_window,
            old(state).ws().floatings@,
            hint_map(old(state).ws().key_hint_windows@),
            world,
        ),
    decreases old(state).ws().floatings@.len(), 3nat,
{
    let ghost a = *state;
    let ghost acts0 = actions@;
    let cm = state.current_monitor;
    let cw = state.current_workspace;
    let n = state.monitors[cm].workspaces[cw].side_windows.len();
    let x = state.monitors[cm].position.0 + state.monitors[cm].sizes.main.0;
    let top = state.monitors[cm].position.1;
    let width = state.monitors[cm].sizes.side.0 as u32;
    let span = state.monitors[cm].sizes.side.1;
    let mut i: usize = 0;
    while i < n
        invariant
            *state == a,
            cm == a.current_monitor,
            cw == a.current_workspace,
            a.wf(),
            n == a.ws().side_windows@.len(),
            x == a.mon().position.0 + a.mon().sizes.main.0,
            top == a.mon().position.1,
            width == a.mon().sizes.side.0 as u32,
            span == a.mon().sizes.side.1,
            i <= n,
            actions@.len() == acts0.len() + i,
            actions@.subrange(0, acts0.len() as int) == acts0,
            forall|j: int| 0 <= j < i ==> #[trigger] actions@[acts0.len() + j] == side_slot(a, j),
            actions@ == acts0 + Seq::new(i as nat, |j: int| side_slot(a, j)),
        decreases n - i,
    {
        assert(ws_at(a, cm as int, cw as int).side_windows@[i as int] is Some);
        match state.monitors[cm].workspaces[cw].side_windows[i] {
            Some(w) => {
                let ghost before = actions@;
                actions.push(
                    Action::SideSlot { window: w, x, top, width, span, index: i, count: n },
                );
                assert(actions@.subrange(0, acts0.len() as int) =~= before.subrange(0, acts0.len() as int));
                assert forall|j: int| 0 <= j < i + 1 implies #[trigger] actions@[acts0.len() + j] == side_slot(a, j) by {
                    if j < i {
                        assert(actions@[acts0.len() + j] == before[acts0.len() + j]);
                    }
                }
                assert(actions@ =~= acts0 + Seq::new((i + 1) as nat, |j: int| side_slot(a, j)));
            },
            None => {},
        }
        i += 1;
    }
    let ghost acts1 = actions@;
    proof {
        assert(extends(acts0, acts1));
        assert(acts1 == acts0 + slot_acts(a));
    }
    let hint_x = x + state.monitors[cm].sizes.side.0 - 60;
    key_hints(state, actions, hint_x, top, span, n);
    let ghost b = *state;
    let ghost acts2 = actions@;
    match state.monitors[cm].workspaces[cw].main_window {
        Some(m) => {
            fill_main_space(state, world, actions, m);
            proof {
                lemma_extends_push(acts2, crate::windows::tiling::main_configure(b, m));
                lemma_extends_trans(acts2, acts2.push(crate::windows::tiling::main_configure(b, m)), actions@);
                lemma_audited_idem(a, hint_map(a.ws().key_hint_windows@));
                lemma_only_ws_changed_trans(b, *old(state), *old(state));
            }
        },
        None => {
            proof {
                lemma_extends_refl(actions@);
            }
        },
    }
    let ghost c = *state;
    let ghost acts3 = actions@;
    place_close_boxes(state, actions);
    proof {
        lemma_extends_trans(acts2, acts3, actions@);
        lemma_extends_trans(acts1, acts2, actions@);
        lemma_extends_trans(acts0, acts1, actions@);
        lemma_only_ws_changed_trans(a, b, c);
        assert forall|j: int| 0 <= j < n implies #[trigger] actions@[acts0.len() + j] == side_slot(a, j) by {
            lemma_extends_index(acts1, actions@, acts0.len() + j);
        }
        assert(actions@ =~= acts0 + layout_rec(
            frame(a),
            a.ws().main_window,
            a.ws().floatings@,
            hint_map(a.ws().key_hint_windows@),
            world,
        )) by {
            let f = frame(a);
            let m0 = hint_map(a.ws().key_hint_windows@);
            lemma_frame_reads(a, 0, 0, m0);
            lemma_frame_same(a, b);
            lemma_frame_same(a, c);
            assert(acts1 == acts0 + f.0);
            assert(acts2 == acts1 + hint_acts_f(f, m0));
            assert(hint_map(b.ws().key_hint_windows@) == audit_f(f, m0));
            assert(actions@ == acts3 + f.1);
        }
        if !has_dead(a.ws().floatings@, world) {
            let m0 = hint_map(a.ws().key_hint_windows@);
            assert(acts2 == acts1 + hint_acts(a, m0));
            assert(b.ws().floatings@ == a.ws().floatings@);
            assert(b.mon().sizes == a.mon().sizes && b.mon().position == a.mon().position) by {
                assert(b.monitors@[cm as int].sizes == a.monitors@[cm as int].sizes);
            }
            match a.ws().main_window {
                Some(m) => {
                    assert(fill_acts(b, m, b.ws().side_windows@.len() as int, world)
                        == fill_acts(a, m, a.ws().side_windows@.len() as int, world));
                },
                None => {},
            }
            lemma_close_acts_same(a, c, a.monitors@.len() as int);
            assert(close_acts(c) == close_acts(a));
            assert(actions@ =~= acts0 + layout_acts(a, a.ws().main_window, m0, world));
        }
    }
}

/// Raises the floating windows that still exist, in order, and drops those
/// that no longer exist (laying the side list out again after each).
pub fn reapply_float_windows(state: &mut State, world: &World, actions: &mut Vec<Action>)
    requires
        old(state).wf(),
    ensures
        final(state).wf(),
        only_ws_changed(*old(state), *final(state)),
        same_tiling(old(state).ws(), final(state).ws()),
        final(state).ws().floatings@ == live_only(old(state).ws().floatings@, world),
        hint_map(final(state).ws().key_hint_windows@) == (if has_dead(old(state).ws().floatings@, world) {
            audited(*old(state), hint_map(old(state).ws().key_hint_windows@))
        } else {
            hint_map(old(state).ws().key_hint_windows@)
        }),
        extends(old(actions)@, final(actions)@),
        !has_dead(old(state).ws().floatings@, world) ==> final(actions)@ == old(actions)@ + raises(
            old(state).ws().floatings@,
        ),
        final(actions)@ == old(actions)@ + reapply_rec(
            frame(*old(state)),
            old(state).ws().main_window,
            old(state).ws().floatings@,
            0,
            old(state).ws().floatings@,
            hint_map(old(state).ws().key_hint_windows@),
            world,
        ),
    decreases old(state).ws().floatings@.len(), 0nat,
{
    let ghost a = *state;
    let ghost acts0 = actions@;
    let ghost m0 = hint_map(a.ws().key_hint_windows@);
    let cm = state.current_monitor;
    let cw = state.current_workspace;
    let fl = copy_windows(&state.monitors[cm].workspaces[cw].floatings);
    let mut i: usize = 0;
    let ghost f = frame(a);
    let ghost main = a.ws().main_window;
    proof {
        lemma_extends_refl(acts0);
        assert(fl@.subrange(0, 0) =~= Seq::<Window>::empty());
        assert(raises(fl@.subrange(0, 0)) =~= Seq::<Action>::empty());
        assert(acts0 + Seq::<Action>::empty() =~= acts0);
        assert(only_ws_changed(a, *state));
    }
    while i < fl.len()
        invariant
            a == *old(state),
            a.wf(),
            state.wf(),
            cm == state.current_monitor,
            cw == state.current_workspace,
            only_ws_changed(a, *state),
            same_tiling(a.ws(), state.ws()),
            fl@ == a.ws().floatings@,
            i <= fl@.len(),
            state.ws().floatings@.len() <= fl@.len(),
            !has_dead(fl@.subrange(0, i as int), world) ==> state.ws().floatings@ == fl@,
            has_dead(fl@.subrange(0, i as int), world) ==> state.ws().floatings@.len() < fl@.len(),
            live_only(state.ws().floatings@, world) == live_only(fl@, world),
            forall|x: Window| #[trigger] state.ws().floatings@.contains(x) ==> fl@.contains(x),
            forall|j: int|
                0 <= j < i && !exists_in(world, fl@[j]) ==> !state.ws().floatings@.contains(
                    #[trigger] fl@[j],
                ),
            hint_map(state.ws().key_hint_windows@) == (if has_dead(fl@.subrange(0, i as int), world) {
                audited(a, m0)
            } else {
                m0
            }),
            extends(acts0, actions@),
            !has_dead(fl@.subrange(0, i as int), world) ==> actions@ == acts0 + raises(
                fl@.subrange(0, i as int),
            ),
            f == frame(a),
            main == a.ws().main_window,
            acts0 + reapply_rec(f, main, fl@, 0, fl@, m0, world) == actions@ + reapply_rec(
                f,
                main,
                fl@,
                i as int,
                state.ws().floatings@,
                hint_map(state.ws().key_hint_windows@),
                world,
            ),
        decreases fl@.len() - i,
    {
        let w = fl[i];
        let ghost before = actions@;
        let ghost s0 = *state;
        proof {
            assert(fl@.subrange(0, i + 1) =~= fl@.subrange(0, i as int).push(w));
            assert(has_dead(fl@.subrange(0, i + 1), world) <==> (has_dead(fl@.subrange(0, i as int), world) || !exists_in(world, w))) by {
                let p = fl@.subrange(0, i as int);
                let q = fl@.subrange(0, i + 1);
                if has_dead(q, world) {
                    let k = choose|k: int| 0 <= k < q.len() && !exists_in(world, #[trigger] q[k]);
                    if k < i {
                        assert(p[k] == q[k]);
                    }
                }
                if has_dead(p, world) {
                    let k = choose|k: int| 0 <= k < p.len() && !exists_in(world, #[trigger] p[k]);
                    assert(q[k] == p[k]);
                }
                assert(q[i as int] == w);
            }
        }
        let ghost cur = s0.ws().floatings@;
        let ghost mi = hint_map(s0.ws().key_hint_windows@);
        if window_exists(world, w) {
            actions.push(Action::Raise(w));
            proof {
                assert(reapply_rec(f, main, fl@, i as int, cur, mi, world) == seq![Action::Raise(w)] + reapply_rec(
                    f,
                    main,
                    fl@,
                    i + 1,
                    cur,
                    mi,
                    world,
                ));
                assert(before.push(Action::Raise(w)) + reapply_rec(f, main, fl@, i + 1, cur, mi, world) =~= before + (
                seq![Action::Raise(w)] + reapply_rec(f, main, fl@, i + 1, cur, mi, world)));
                lemma_extends_push(before, Action::Raise(w));
                lemma_extends_trans(acts0, before, actions@);
                assert(raises(fl@.subrange(0, i + 1)) =~= raises(fl@.subrange(0, i as int)).push(Action::Raise(w)));
                if !has_dead(fl@.subrange(0, i + 1), world) {
                    assert(actions@ =~= acts0 + raises(fl@.subrange(0, i + 1)));
                }
            }
        } else {
            remove_floating(state, w);
            let ghost s1 = *state;
            proof {
                lemma_without_contains(s0.ws().floatings@, w, w);
                assert forall|x: Window| s1.ws().floatings@.contains(x) implies fl@.contains(x) by {
                    lemma_without_contains(s0.ws().floatings@, w, x);
                }
                assert(fl@[i as int] == w);
                assert(fl@.contains(w));
                if !has_dead(fl@.subrange(0, i as int), world) {
                    assert(s0.ws().floatings@.contains(w));
                    lemma_without_shorter(s0.ws().floatings@, w);
                }
                assert(s1.ws().floatings@.len() < a.ws().floatings@.len());
                lemma_live_only_without(s0.ws().floatings@, world, w);
                lemma_only_ws_changed_trans(a, s0, s1);
            }
            layout_side_space(state, world, actions);
            proof {
                let s2 = *state;
                lemma_only_ws_changed_trans(a, s1, s2);
                lemma_extends_trans(acts0, before, actions@);
                lemma_audited_idem(a, m0);
                assert(audited(s1, m0) == audited(a, m0));
                assert(audited(s1, audited(a, m0)) == audited(a, m0));
                lemma_live_only_idem(s1.ws().floatings@, world);
                lemma_live_only_contains(s1.ws().floatings@, world, w);
                assert forall|x: Window| s2.ws().floatings@.contains(x) implies fl@.contains(x) by {
                    lemma_live_only_contains(s1.ws().floatings@, world, x);
                }
                assert forall|j: int|
                    0 <= j < i + 1 && !exists_in(world, fl@[j]) implies !s2.ws().floatings@.contains(
                    #[trigger] fl@[j]) by {
                    lemma_live_only_contains(s1.ws().floatings@, world, fl@[j]);
                    lemma_without_contains(s0.ws().floatings@, w, fl@[j]);
                }
                lemma_frame_same(a, s1);
                lemma_frame_reads(s1, 0, 0, mi);
                let c1 = without(cur, w);
                assert(s1.ws().floatings@ == c1);
                assert(c1.len() < fl@.len());
                assert(reapply_rec(f, main, fl@, i as int, cur, mi, world) == layout_rec(f, main, c1, mi, world)
                    + reapply_rec(f, main, fl@, i + 1, focused_floats(c1, main, world), audit_f(f, mi), world));
                assert(s2.ws().floatings@ == focused_floats(c1, main, world));
                assert(hint_map(s2.ws().key_hint_windows@) == audit_f(f, mi));
                assert(actions@ == before + layout_rec(f, main, c1, mi, world));
            }
        }
        i += 1;
    }
    proof {
        let cur = state.ws().floatings@;
        assert(actions@ =~= actions@ + reapply_rec(f, main, fl@, i as int, cur, hint_map(state.ws().key_hint_windows@), world));
        assert(fl@.subrange(0, i as int) =~= fl@);
        assert(!has_dead(cur, world)) by {
            if has_dead(cur, world) {
                let k = choose|k: int| 0 <= k < cur.len() && !exists_in(world, #[trigger] cur[k]);
                assert(cur.contains(cur[k]));
                let j = choose|j: int| 0 <= j < fl@.len() && fl@[j] == cur[k];
                assert(!cur.contains(fl@[j]));
            }
        }
        lemma_live_only_all_live(cur, world);
    }
}

proof fn lemma_close_in_same(a: State, c: State, k: int, cur_len: int)
    requires
        a.wf(),
        only_ws_changed(a, c),
        c.ws().fullscreen == a.ws().fullscreen,
        0 <= k <= a.monitors@.len(),
    ensures
        close_box_actions_in(c, k, cur_len) == close_box_actions_in(a, k, cur_len),
    decreases k,
{
    if k > 0 {
        lemma_close_in_same(a, c, k - 1, cur_len);
        let i = k - 1;
        let cw = a.current_workspace as int;
        assert(a.monitors@[i].workspaces@.len() == a.nws());
        assert(c.monitors@[i].close_box == a.monitors@[i].close_box);
        if i != a.current_monitor {
            assert(ws_at(c, i, cw) == ws_at(a, i, cw));
        }
        assert(close_box_actions_of_in(c, i, cur_len) == close_box_actions_of_in(a, i, cur_len));
    }
}

/// A layout of a given side list is the same on states that differ at most
/// in the current workspace's tiling and key hints.
pub proof fn lemma_layout_in_same(
    a: State,
    c: State,
    sides: Seq<Option<Window>>,
    main: Option<Window>,
    m0: Map<Seq<char>, Window>,
    world: &World,
)
    requires
        a.wf(),
        only_ws_changed(a, c),
        c.ws().fullscreen == a.ws().fullscreen,
        c.ws().floatings@ == a.ws().floatings@,
    ensures
        layout_acts_in(c, sides, main, m0, world) == layout_acts_in(a, sides, main, m0, world),
{
    let cm = a.current_monitor as int;
    assert(c.mon().sizes == a.mon().sizes && c.mon().position == a.mon().position) by {
        assert(c.monitors@[cm].sizes == a.monitors@[cm].sizes);
    }
    assert(Seq::new(sides.len(), |i: int| side_slot_in(c, sides, i)) =~= Seq::new(sides.len(), |i: int| side_slot_in(a, sides, i)));
    lemma_close_in_same(a, c, a.monitors@.len() as int, sides.len() as int);
}

/// One monitor's close box requests, where the current monitor's current
/// workspace has `cur_len` side windows.
pub open spec fn close_box_actions_of_in(st: State, i: int, cur_len: int) -> Seq<Action> {
    let m = st.monitors@[i];
    let w = m.workspaces@[st.current_workspace as int];
    let len = if i == st.current_monitor { cur_len } else { w.side_windows@.len() as int };
    match m.close_box {
        None => Seq::empty(),
        Some(cb) => {
            let x = if !st.settings.layout.conditional_full || len != 0 {
                m.position.0 + m.sizes.main.0
            } else {
                m.position.0 + m.sizes.screen.0 - 60
            };
            seq![Action::Configure { window: cb, x: x as i32, y: m.position.1, width: 60, height: 60 }]
                + if !w.fullscreen {
                seq![Action::Raise(cb)]
            } else {
                Seq::empty()
            }
        },
    }
}

/// The close box requests of the first `k` monitors, where the current
/// monitor's current workspace has `cur_len` side windows.
pub open spec fn close_box_actions_in(st: State, k: int, cur_len: int) -> Seq<Action>
    decreases k,
{
    if k <= 0 {
        Seq::empty()
    } else {
        close_box_actions_in(st, k - 1, cur_len) + close_box_actions_of_in(st, k - 1, cur_len)
    }
}

/// Slot `i` of the side list `sides` on the state's current monitor.
pub open spec fn side_slot_in(st: State, sides: Seq<Option<Window>>, i: int) -> Action {
    let m = st.mon();
    Action::SideSlot {
        window: sides[i].unwrap(),
        x: (m.position.0 + m.sizes.main.0) as i32,
        top: m.position.1,
        width: m.sizes.side.0 as u32,
        span: m.sizes.side.1,
        index: i as usize,
        count: sides.len() as usize,
    }
}

/// The requests of a layout of the side list `sides` on the state's current
/// monitor, with main window `main` and key hint map `m0`.
pub open spec fn layout_acts_in(
    st: State,
    sides: Seq<Option<Window>>,
    main: Option<Window>,
    m0: Map<Seq<char>, Window>,
    world: &World,
) -> Seq<Action> {
    let m = st.mon();
    Seq::new(sides.len(), |i: int| side_slot_in(st, sides, i)) + (if st.settings.bindings.key_hints {
        hint_actions(
            m0,
            st.settings.bindings.swaps@,
            sides.len() as int,
            (m.position.0 + m.sizes.main.0 + m.sizes.side.0 - 60) as i32,
            m.position.1,
            m.sizes.side.1,
            st.settings.bindings.swaps@.len() as int,
        )
    } else {
        Seq::empty()
    }) + match main {
        Some(w) => fill_acts(st, w, sides.len() as int, world),
        None => Seq::empty(),
    } + if st.settings.layout.close_box {
        close_box_actions_in(st, st.monitors@.len() as int, sides.len() as int)
    } else {
        Seq::empty()
    }
}

proof fn lemma_close_in(a: State, c: State, k: int)
    requires
        a.wf(),
        only_ws_changed(a, c),
        c.ws().fullscreen == a.ws().fullscreen,
        0 <= k <= a.monitors@.len(),
    ensures
        close_box_actions(c, k) == close_box_actions_in(a, k, c.ws().side_windows@.len() as int),
    decreases k,
{
    if k > 0 {
        lemma_close_in(a, c, k - 1);
        let i = k - 1;
        let cw = a.current_workspace as int;
        assert(a.monitors@[i].workspaces@.len() == a.nws());
        assert(c.monitors@[i].close_box == a.monitors@[i].close_box);
        if i != a.current_monitor {
            assert(ws_at(c, i, cw) == ws_at(a, i, cw));
        }
        assert(close_box_actions_of(c, i) == close_box_actions_of_in(a, i, c.ws().side_windows@.len() as int));
    }
}

/// The frame of a layout of the side list `sides` in place of the current
/// workspace's, on the state `st`.
pub open spec fn frame_in(st: State, sides: Seq<Option<Window>>) -> (
    Seq<Action>,
    Seq<Action>,
    (i32, i32),
    Sizes,
    Settings,
    int,
) {
    (
        Seq::new(sides.len(), |i: int| side_slot_in(st, sides, i)),
        if st.settings.layout.close_box {
            close_box_actions_in(st, st.monitors@.len() as int, sides.len() as int)
        } else {
            Seq::empty()
        },
        st.mon().position,
        st.mon().sizes,
        st.settings,
        sides.len() as int,
    )
}

/// States that differ at most in the current workspace (but for its
/// fullscreen flag) give a side list the same frame.
pub proof fn lemma_frame_in_same(a: State, c: State, sides: Seq<Option<Window>>)
    requires
        a.wf(),
        only_ws_changed(a, c),
        c.ws().fullscreen == a.ws().fullscreen,
    ensures
        frame_in(c, sides) == frame_in(a, sides),
{
    let cm = a.current_monitor as int;
    assert(c.mon().sizes == a.mon().sizes && c.mon().position == a.mon().position) by {
        assert(c.monitors@[cm].sizes == a.monitors@[cm].sizes);
    }
    assert(Seq::new(sides.len(), |i: int| side_slot_in(c, sides, i)) =~= Seq::new(sides.len(), |i: int| side_slot_in(a, sides, i)));
    lemma_close_in_same(a, c, a.monitors@.len() as int, sides.len() as int);
}

/// States alike in their monitors' geometry and close boxes, in the
/// fullscreen flag of every monitor's current workspace and in the side list
/// length of the other monitors' current workspaces place the close boxes
/// alike around a side list of `cur_len` windows.
proof fn lemma_close_in_alike(a: State, c: State, k: int, cur_len: int)
    requires
        a.settings == c.settings,
        a.current_monitor == c.current_monitor,
        a.current_workspace == c.current_workspace,
        a.monitors@.len() == c.monitors@.len(),
        0 <= k <= a.monitors@.len(),
        forall|i: int| 0 <= i < a.monitors@.len() ==> {
            &&& (#[trigger] c.monitors@[i]).close_box == a.monitors@[i].close_box
            &&& c.monitors@[i].position == a.monitors@[i].position
            &&& c.monitors@[i].sizes == a.monitors@[i].sizes
            &&& i != a.current_monitor ==> c.monitors@[i].workspaces@[a.current_workspace as int].side_windows@.len()
                == a.monitors@[i].workspaces@[a.current_workspace as int].side_windows@.len()
            &&& c.monitors@[i].workspaces@[a.current_workspace as int].fullscreen
                == a.monitors@[i].workspaces@[a.current_workspace as int].fullscreen
        },
    ensures
        close_box_actions_in(c, k, cur_len) == close_box_actions_in(a, k, cur_len),
    decreases k,
{
    if k > 0 {
        lemma_close_in_alike(a, c, k - 1, cur_len);
        assert(c.monitors@[k - 1].close_box == a.monitors@[k - 1].close_box);
        assert(close_box_actions_of_in(c, k - 1, cur_len) == close_box_actions_of_in(a, k - 1, cur_len));
    }
}

/// States alike in what a layout reads (see `lemma_close_in_alike`) give a
/// side list the same frame.
pub proof fn lemma_frame_in_alike(a: State, c: State, sides: Seq<Option<Window>>)
    requires
        a.settings == c.settings,
        a.current_monitor == c.current_monitor,
        a.current_workspace == c.current_workspace,
        a.monitors@.len() == c.monitors@.len(),
        a.current_monitor < a.monitors@.len(),
        forall|i: int| 0 <= i < a.monitors@.len() ==> {
            &&& (#[trigger] c.monitors@[i]).close_box == a.monitors@[i].close_box
            &&& c.monitors@[i].position == a.monitors@[i].position
            &&& c.monitors@[i].sizes == a.monitors@[i].sizes
            &&& i != a.current_monitor ==> c.monitors@[i].workspaces@[a.current_workspace as int].side_windows@.len()
                == a.monitors@[i].workspaces@[a.current_workspace as int].side_windows@.len()
            &&& c.monitors@[i].workspaces@[a.current_workspace as int].fullscreen
                == a.monitors@[i].workspaces@[a.current_workspace as int].fullscreen
        },
    ensures
        frame_in(c, sides) == frame_in(a, sides),
{
    let cm = a.current_monitor as int;
    assert(c.monitors@[cm].sizes == a.monitors@[cm].sizes);
    assert(Seq::new(sides.len(), |i: int| side_slot_in(c, sides, i)) =~= Seq::new(sides.len(), |i: int| side_slot_in(a, sides, i)));
    lemma_close_in_alike(a, c, a.monitors@.len() as int, sides.len() as int);
}

/// States alike in their monitors' geometry and close boxes, in the side list
/// length and fullscreen flag of every monitor's current workspace, and in
/// the current side list have the same frame.
pub proof fn lemma_frame_alike(a: State, c: State)
    requires
        a.settings == c.settings,
        a.current_monitor == c.current_monitor,
        a.current_workspace == c.current_workspace,
        a.monitors@.len() == c.monitors@.len(),
        a.current_monitor < a.monitors@.len(),
        forall|i: int| 0 <= i < a.monitors@.len() ==> {
            &&& (#[trigger] c.monitors@[i]).close_box == a.monitors@[i].close_box
            &&& c.monitors@[i].position == a.monitors@[i].position
            &&& c.monitors@[i].sizes == a.monitors@[i].sizes
            &&& ws_at(c, i, a.current_workspace as int).side_windows@.len() == ws_at(a, i, a.current_workspace as int).side_windows@.len()
            &&& ws_at(c, i, a.current_workspace as int).fullscreen == ws_at(a, i, a.current_workspace as int).fullscreen
        },
        c.ws().side_windows@ == a.ws().side_windows@,
    ensures
        frame(c) == frame(a),
{
    let cm = a.current_monitor as int;
    assert(c.monitors@[cm].sizes == a.monitors@[cm].sizes);
    lemma_close_acts_same(a, c, a.monitors@.len() as int);
    assert(slot_acts(c) =~= slot_acts(a));
}

/// The frame of a state that differs from `a` at most in the current
/// workspace (but for its fullscreen flag) is the frame of its side list on `a`.
pub proof fn lemma_frame_in(a: State, c: State)
    requires
        a.wf(),
        only_ws_changed(a, c),
        c.ws().fullscreen == a.ws().fullscreen,
    ensures
        frame(c) == frame_in(a, c.ws().side_windows@),
{
    let cm = a.current_monitor as int;
    assert(c.mon().sizes == a.mon().sizes && c.mon().position == a.mon().position) by {
        assert(c.monitors@[cm].sizes == a.monitors@[cm].sizes);
    }
    assert(slot_acts(c) =~= Seq::new(c.ws().side_windows@.len(), |i: int| side_slot_in(a, c.ws().side_windows@, i)));
    lemma_close_in(a, c, a.monitors@.len() as int);
}

/// A layout of a state that differs from `a` at most in the current
/// workspace's tiling and key hints is a layout of its side list on `a`.
pub proof fn lemma_layout_acts_in(
    a: State,
    c: State,
    main: Option<Window>,
    m0: Map<Seq<char>, Window>,
    world: &World,
)
    requires
        a.wf(),
        only_ws_changed(a, c),
        c.ws().fullscreen == a.ws().fullscreen,
        c.ws().floatings@ == a.ws().floatings@,
    ensures
        layout_acts(c, main, m0, world) == layout_acts_in(a, c.ws().side_windows@, main, m0, world),
{
    let cm = a.current_monitor as int;
    assert(c.mon().sizes == a.mon().sizes && c.mon().position == a.mon().position) by {
        assert(c.monitors@[cm].sizes == a.monitors@[cm].sizes);
    }
    assert(slot_acts(c) =~= Seq::new(c.ws().side_windows@.len(), |i: int| side_slot_in(a, c.ws().side_windows@, i)));
    lemma_close_in(a, c, a.monitors@.len() as int);
}

/// One monitor's close box: moved beside the main area (or into the top right
/// corner when the main area takes the full width) and raised unless the
/// workspace is in fullscreen.
pub open spec fn close_box_actions_of(st: State, i: int) -> Seq<Action> {
    let m = st.monitors@[i];
    let w = m.workspaces@[st.current_workspace as int];
    match m.close_box {
        None => Seq::empty(),
        Some(cb) => {
            let x = if !st.settings.layout.conditional_full || w.side_windows@.len() != 0 {
                m.position.0 + m.sizes.main.0
            } else {
                m.position.0 + m.sizes.screen.0 - 60
            };
            seq![Action::Configure { window: cb, x: x as i32, y: m.position.1, width: 60, height: 60 }]
                + if !w.fullscreen {
                seq![Action::Raise(cb)]
            } else {
                Seq::empty()
            }
        },
    }
}

/// The close box actions of the first `k` monitors.
pub open spec fn close_box_actions(st: State, k: int) -> Seq<Action>
    decreases k,
{
    if k <= 0 {
        Seq::empty()
    } else {
        close_box_actions(st, k - 1) + close_box_actions_of(st, k - 1)
    }
}

/// Places the close box of every monitor, where close boxes are enabled.
pub fn place_close_boxes(state: &State, actions: &mut Vec<Action>)
    requires
        state.wf(),
    ensures
        final(actions)@ == old(actions)@ + (if state.settings.layout.close_box {
            close_box_actions(*state, state.monitors@.len() as int)
        } else {
            Seq::empty()
        }),
        extends(old(actions)@, final(actions)@),
{
    let ghost acts0 = actions@;
    if !state.settings.layout.close_box {
        proof {
            assert(actions@ =~= acts0 + Seq::<Action>::empty());
            lemma_extends_refl(actions@);
        }
        return;
    }
    let cw = state.current_workspace;
    let mut i: usize = 0;
    while i < state.monitors.len()
        invariant
            state.wf(),
            cw == state.current_workspace,
            state.settings.layout.close_box,
            i <= state.monitors@.len(),
            actions@ == acts0 + close_box_actions(*state, i as int),
        decreases state.monitors@.len() - i,
    {
        let ghost before = actions@;
        assert(state.monitors@[i as int].workspaces@.len() == state.nws());
        match state.monitors[i].close_box {
            Some(cb) => {
                let ws = &state.monitors[i].workspaces[cw];
                let x_pos = if !state.settings.layout.conditional_full || ws.side_windows.len() != 0 {
                    state.monitors[i].position.0 + state.monitors[i].sizes.main.0
                } else {
                    state.monitors[i].position.0 + state.monitors[i].sizes.screen.0 - 60
                };
                actions.push(
                    Action::Configure { window: cb, x: x_pos, y: state.monitors[i].position.1, width: 60, height: 60 },
                );
                if !ws.fullscreen {
                    actions.push(Action::Raise(cb));
                }
            },
            None => {},
        }
        assert(actions@ =~= acts0 + close_box_actions(*state, i + 1));
        i += 1;
    }
    assert(actions@.subrange(0, acts0.len() as int) =~= acts0);
}

/// The geometry a window gets in fullscreen: the whole screen of the current
/// monitor.
pub open spec fn fullscreen_configure(st: State, window: Window) -> Action {
    let m = st.mon();
    Action::Configure {
        window,
        x: (m.position.0 + ((m.sizes.main.0 + m.sizes.side.0) - m.sizes.screen.0)) as i32,
        y: (m.position.1 + (m.sizes.main.1 - m.sizes.screen.1)) as i32,
        width: m.sizes.screen.0 as u32,
        height: m.sizes.screen.1 as u32,
    }
}

/// Gives `window` the whole screen of the current monitor and focuses the
/// main window.
pub fn fullscreen(state: &mut State, world: &World, actions: &mut Vec<Action>, window: Window)
    requires
        old(state).wf(),
    ensures
        final(state).wf(),
        only_ws_changed(*old(state), *final(state)),
        same_tiling(old(state).ws(), final(state).ws()),
        final(state).ws().floatings@ == focused_floats(
            old(state).ws().floatings@,
            old(state).ws().main_window,
            world,
        ),
        extends(old(actions)@.push(fullscreen_configure(*old(state), window)), final(actions)@),
        !has_dead(old(state).ws().floatings@, world) ==> final(actions)@ == old(actions)@.push(
            fullscreen_configure(*old(state), window),
        ) + focus_acts(*old(state), world),
        final(actions)@ == old(actions)@.push(fullscreen_configure(*old(state), window)) + focus_rec(
            frame(*old(state)),
            old(state).ws().main_window,
            old(state).ws().floatings@,
            hint_map(old(state).ws().key_hint_windows@),
            world,
        ),
{
    let cm = state.current_monitor;
    let m = &state.monitors[cm];
    let x = m.position.0 + ((m.sizes.main.0 + m.sizes.side.0) - m.sizes.screen.0);
    let y = m.position.1 + (m.sizes.main.1 - m.sizes.screen.1);
    let width = m.sizes.screen.0 as u32;
    let height = m.sizes.screen.1 as u32;
    let ghost acts0 = actions@;
    actions.push(Action::Configure { window, x, y, width, height });
    let ghost acts1 = actions@;
    focus_main(state, world, actions);
}

/// Centers a floating window on the screen of the current monitor.
pub fn center_window(state: &State, actions: &mut Vec<Action>, window: Window)
    requires
        state.wf(),
    ensures
        final(actions)@ == old(actions)@.push(
            Action::Center {
                window,
                x: state.mon().position.0,
                y: state.mon().position.1,
                width: state.mon().sizes.screen.0,
                height: state.mon().sizes.screen.1,
            },
        ),
{
    let m = &state.monitors[state.current_monitor];
    actions.push(
        Action::Center {
            window,
            x: m.position.0,
            y: m.position.1,
            width: m.sizes.screen.0,
            height: m.sizes.screen.1,
        },
    );
}

} // verus!
