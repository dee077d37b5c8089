//! What holds across operations: swapping a side window with the main window
//! and back, sending a window back where it was taken from, settling a
//! workspace twice, what a gone window leaves, ordering monitors, finding key
//! codes, showing workspaces, toggling fullscreen twice and auditing key
//! hints; and what single operations are for: key names reading back as
//! their keysyms, fullscreen covering the monitor the window is on, and
//! which windows are kept out of the tiling.
use vstd::prelude::*;
use vstd::seq_lib::*;
use crate::actions::Action;
use crate::events::client::side_index;
use crate::events::input::{fullscreen_done, pressed};
use crate::events::window::destroyed_tiling;
use crate::model::{
    side_without, sent_sides, lemma_side_without_remove, lemma_side_without_absent, lemma_side_without_contains,
    lemma_sides_wf_remove, live_sides, lemma_live_sides_live, lemma_live_sides_all_live, has_dead_side, hints_after,
};
use crate::safety::{World, exists_in};
use crate::setup::input::{KeyboardMapping, spec_keycode, code_has};
use crate::keymap::keysym_of;
use crate::text::{ascii_only, ascii_lower, ascii_lower_char};
use crate::state::{State, Window, Workspace, MonitorInfo, sides_wf, sorted_infos, place, ws_at, only_ws_changed, built_monitor};
use crate::settings::Settings;
use crate::windows::checks::{spec_excepted, name_has};
use crate::windows::gets::spec_key_hint_key;
use crate::events::window::{map_kind, MapKind};
use crate::text::occurs_at;
use crate::windows::audits::settled_tiling;
use crate::windows::gets::in_workspace;
use crate::windows::layout::fullscreen_configure;
use crate::windows::tiling::main_configure;
use crate::windows::workspaces::{show, opt_shows, ws_shows, monitor_shows, all_shows};

verus! {

/// Activating the side window `w` (at position `i`) while `e` is the main
/// window, where the layout swaps rather than stacks, puts `e` exactly where
/// `w` stood and leaves every other side window in place.
pub proof fn law_swap_in_place(s: Seq<Option<Window>>, w: Window, e: Window, i: int)
    requires
        sides_wf(s),
        s.len() <= usize::MAX,
        0 <= i < s.len(),
        s[i] == Some(w),
        w != e,
        !s.contains(Some(e)),
    ensures
        side_index(s, w) == Some(i as usize),
        sent_sides(side_without(s, w), e, side_index(s, w)) == s.update(i, Some(e)),
{
    assert(s.contains(Some(w)));
    let c = choose|j: int| 0 <= j < s.len() && s[j] == Some(w);
    assert(c == i);
    lemma_side_without_remove(s, w, i);
    let r = s.remove(i);
    assert forall|j: int| 0 <= j < r.len() implies (#[trigger] r[j]) is Some && r[j] != Some(e) by {
        let j2 = if j < i { j } else { j + 1 };
        assert(r[j] == s[j2]);
        assert(s.contains(s[j2]));
    }
    lemma_side_without_absent(r, e);
    assert(r.insert(i, Some(e)) =~= s.update(i, Some(e)));
}

/// Swapping back: activating the old main window `e` again, now at position
/// `i` of the side list, restores the side list as it was.
pub proof fn law_swap_back(s: Seq<Option<Window>>, w: Window, e: Window, i: int)
    requires
        sides_wf(s),
        s.len() <= usize::MAX,
        0 <= i < s.len(),
        s[i] == Some(w),
        w != e,
        !s.contains(Some(e)),
    ensures
        ({
            let t = sent_sides(side_without(s, w), e, side_index(s, w));
            sent_sides(side_without(t, e), w, side_index(t, e)) == s
        }),
{
    law_swap_in_place(s, w, e, i);
    let t = s.update(i, Some(e));
    assert(sides_wf(t)) by {
        assert forall|a: int, b: int| 0 <= a < t.len() && 0 <= b < t.len() && a != b implies t[a] != t[b] by {
            if a == i {
                assert(s.contains(s[b]));
            } else if b == i {
                assert(s.contains(s[a]));
            }
        }
        assert forall|a: int| 0 <= a < t.len() implies (#[trigger] t[a]) is Some by {}
    }
    assert(!t.contains(Some(w))) by {
        if t.contains(Some(w)) {
            let k = choose|k: int| 0 <= k < t.len() && t[k] == Some(w);
            assert(k != i);
            assert(s[k] == Some(w));
        }
    }
    law_swap_in_place(t, e, w, i);
    assert(t.update(i, Some(w)) =~= s);
}

/// Activating the side window `w` (at position `i`) while `e` is the main
/// window, where the layout stacks, takes `w` out and puts `e` at the end.
pub proof fn law_stack_activation(s: Seq<Option<Window>>, w: Window, e: Window, i: int)
    requires
        sides_wf(s),
        0 <= i < s.len(),
        s[i] == Some(w),
        w != e,
        !s.contains(Some(e)),
    ensures
        sent_sides(side_without(s, w), e, None) == s.remove(i).push(Some(e)),
{
    lemma_side_without_remove(s, w, i);
    let r = s.remove(i);
    assert forall|j: int| 0 <= j < r.len() implies (#[trigger] r[j]) is Some && r[j] != Some(e) by {
        let j2 = if j < i { j } else { j + 1 };
        assert(r[j] == s[j2]);
        assert(s.contains(s[j2]));
    }
    lemma_side_without_absent(r, e);
}

/// Taking a side window out and sending it back to the position it was taken
/// from restores the side list.
pub proof fn law_remove_then_send(s: Seq<Option<Window>>, w: Window, i: int)
    requires
        sides_wf(s),
        s.len() <= usize::MAX,
        0 <= i < s.len(),
        s[i] == Some(w),
    ensures
        sent_sides(s.remove(i), w, Some(i as usize)) == s,
{
    let r = s.remove(i);
    assert forall|j: int| 0 <= j < r.len() implies (#[trigger] r[j]) is Some && r[j] != Some(w) by {
        let j2 = if j < i { j } else { j + 1 };
        assert(r[j] == s[j2]);
    }
    lemma_side_without_absent(r, w);
    assert(r.insert(i, Some(w)) =~= s);
}

/// Dropping a window from a well formed side list keeps it well formed.
proof fn lemma_side_without_wf(s: Seq<Option<Window>>, w: Window)
    requires
        sides_wf(s),
    ensures
        sides_wf(side_without(s, w)),
{
    if s.contains(Some(w)) {
        let i = choose|i: int| 0 <= i < s.len() && s[i] == Some(w);
        lemma_side_without_remove(s, w, i);
        lemma_sides_wf_remove(s, i);
    } else {
        assert forall|j: int| 0 <= j < s.len() implies (#[trigger] s[j]) is Some && s[j] != Some(w) by {
            if s[j] == Some(w) {
                assert(s.contains(s[j]));
            }
        }
        lemma_side_without_absent(s, w);
    }
}

/// Sending a window to a well formed side list leaves it well formed, with
/// the window in it, and every other window in it as before.
pub proof fn law_send_keeps_sides(s: Seq<Option<Window>>, w: Window, at: Option<usize>)
    requires
        sides_wf(s),
    ensures
        sides_wf(sent_sides(s, w, at)),
        sent_sides(s, w, at).contains(Some(w)),
        forall|x: Window| x != w ==> (#[trigger] sent_sides(s, w, at).contains(Some(x)) <==> s.contains(Some(x))),
{
    let r = side_without(s, w);
    let t = sent_sides(s, w, at);
    lemma_side_without_wf(s, w);
    lemma_side_without_contains(s, w, Some(w));
    assert(!r.contains(Some(w)));
    // Where the window goes, and where each earlier entry goes.
    let pos: int = match at {
        Some(i) => if i <= r.len() { i as int } else { r.len() as int },
        None => r.len() as int,
    };
    assert(t == r.insert(pos, Some(w))) by {
        match at {
            Some(i) => if i > r.len() { assert(r.push(Some(w)) =~= r.insert(pos, Some(w))); },
            None => { assert(r.push(Some(w)) =~= r.insert(pos, Some(w))); },
        }
    }
    assert(t[pos] == Some(w));
    assert forall|p: int| 0 <= p < t.len() && p != pos implies (#[trigger] t[p]) == r[if p < pos { p } else { p - 1 }] by {}
    assert(sides_wf(t)) by {
        assert forall|p: int, q: int| 0 <= p < t.len() && 0 <= q < t.len() && p != q implies t[p] != t[q] by {
            if p == pos {
                let q2 = if q < pos { q } else { q - 1 };
                assert(t[q] == r[q2]);
                assert(r.contains(r[q2]));
            } else if q == pos {
                let p2 = if p < pos { p } else { p - 1 };
                assert(t[p] == r[p2]);
                assert(r.contains(r[p2]));
            } else {
                let p2 = if p < pos { p } else { p - 1 };
                let q2 = if q < pos { q } else { q - 1 };
                assert(t[p] == r[p2] && t[q] == r[q2]);
            }
        }
        assert forall|p: int| 0 <= p < t.len() implies (#[trigger] t[p]) is Some by {
            if p != pos {
                let p2 = if p < pos { p } else { p - 1 };
                assert(t[p] == r[p2]);
            }
        }
    }
    assert(t.contains(Some(w)));
    assert forall|x: Window| x != w implies (#[trigger] t.contains(Some(x)) <==> s.contains(Some(x))) by {
        lemma_side_without_contains(s, w, Some(x));
        if t.contains(Some(x)) {
            let p = choose|p: int| 0 <= p < t.len() && t[p] == Some(x);
            let p2 = if p < pos { p } else { p - 1 };
            assert(r[p2] == Some(x));
            assert(r.contains(Some(x)));
        }
        if r.contains(Some(x)) {
            let p = choose|p: int| 0 <= p < r.len() && r[p] == Some(x);
            let p2 = if p < pos { p } else { p + 1 };
            assert(t[p2] == Some(x));
        }
    }
}

/// Once the main window and side list are settled, every side window exists,
/// and the main window exists where there is one.
pub proof fn law_settled_all_exist(main: Option<Window>, side: Seq<Option<Window>>, world: &World)
    ensures
        ({
            let (m, s) = settled_tiling(main, side, world);
            &&& m is Some ==> exists_in(world, m.unwrap())
            &&& forall|i: int| 0 <= i < s.len() ==> (#[trigger] s[i]) is Some && exists_in(world, s[i].unwrap())
        }),
{
    let l = live_sides(side, world);
    let (m, s) = settled_tiling(main, side, world);
    assert forall|i: int| 0 <= i < s.len() implies (#[trigger] s[i]) is Some && exists_in(world, s[i].unwrap()) by {
        if main is Some && !exists_in(world, main.unwrap()) && l.len() > 0 {
            assert(s[i] == l[i + 1]);
            lemma_live_sides_live(side, world, i + 1);
        } else {
            lemma_live_sides_live(side, world, i);
        }
    }
    if main is Some && !exists_in(world, main.unwrap()) && l.len() > 0 {
        lemma_live_sides_live(side, world, 0);
    }
}

/// Settling a settled main window and side list changes nothing: bringing
/// a workspace in step with the server twice is doing it once.
pub proof fn law_settled_idem(main: Option<Window>, side: Seq<Option<Window>>, world: &World)
    ensures
        ({
            let (m, s) = settled_tiling(main, side, world);
            settled_tiling(m, s, world) == (m, s)
        }),
{
    law_settled_all_exist(main, side, world);
    let (m, s) = settled_tiling(main, side, world);
    assert(!has_dead_side(s, world)) by {
        if has_dead_side(s, world) {
            let k = choose|k: int| 0 <= k < s.len() && !((#[trigger] s[k]) is Some && exists_in(world, s[k].unwrap()));
        }
    }
    lemma_live_sides_all_live(s, world);
}

/// Where a workspace has a main window and the gone window is not held both
/// there and in its well formed side list, the gone window is neither in the
/// main area nor in the side list afterwards, and the side list stays well
/// formed.
pub proof fn law_destroyed_gone(ws: Workspace, window: Window)
    requires
        sides_wf(ws.side_windows@),
        ws.main_window is Some,
        !(ws.main_window == Some(window) && ws.side_windows@.contains(Some(window))),
    ensures
        ({
            let (m, s) = destroyed_tiling(ws, window);
            &&& m != Some(window)
            &&& !s.contains(Some(window))
            &&& sides_wf(s)
        }),
{
    let s0 = ws.side_windows@;
    let (m, s) = destroyed_tiling(ws, window);
    match ws.main_window {
        Some(mw) => {
            if mw == window {
                if s0.len() > 0 {
                    assert(s0.contains(s0[0]));
                    crate::model::lemma_sides_wf_remove(s0, 0);
                    if s.contains(Some(window)) {
                        let k = choose|k: int| 0 <= k < s.len() && s[k] == Some(window);
                        assert(s0[k + 1] == Some(window));
                        assert(s0.contains(s0[k + 1]));
                    }
                } else {
                    assert(!s0.contains(Some(window)));
                }
            } else {
                lemma_side_without_contains(s0, window, Some(window));
                lemma_side_without_wf(s0, window);
            }
        },
        None => {},
    }
}

/// The monitors are ordered left to right.
pub open spec fn left_to_right(s: Seq<MonitorInfo>) -> bool {
    forall|i: int, j: int| 0 <= i <= j < s.len() ==> s[i].position.0 <= s[j].position.0
}

proof fn lemma_place_bounds(t: Seq<MonitorInfo>, v: i32)
    ensures
        0 <= place(t, v) <= t.len(),
        forall|k: int| 0 <= k < place(t, v) ==> (#[trigger] t[k]).position.0 <= v,
        place(t, v) < t.len() ==> t[place(t, v)].position.0 > v,
    decreases t.len(),
{
    if t.len() > 0 && t[0].position.0 <= v {
        let d = t.drop_first();
        lemma_place_bounds(d, v);
        assert forall|k: int| 0 <= k < place(t, v) implies (#[trigger] t[k]).position.0 <= v by {
            if k > 0 {
                assert(t[k] == d[k - 1]);
            }
        }
    }
}

/// Ordering monitors gives them left to right, each monitor as often as it
/// was given.
pub proof fn law_monitors_ordered(s: Seq<MonitorInfo>)
    ensures
        left_to_right(sorted_infos(s)),
        sorted_infos(s).to_multiset() == s.to_multiset(),
    decreases s.len(),
{
    if s.len() > 0 {
        let t = sorted_infos(s.drop_last());
        law_monitors_ordered(s.drop_last());
        let x = s.last();
        let v = x.position.0;
        let p = place(t, v);
        lemma_place_bounds(t, v);
        let u = t.insert(p, x);
        assert forall|i: int, j: int| 0 <= i <= j < u.len() implies u[i].position.0 <= u[j].position.0 by {
            if j < p {
                assert(u[i] == t[i] && u[j] == t[j]);
            } else if j == p {
                if i < p {
                    assert(u[i] == t[i]);
                }
            } else {
                assert(u[j] == t[j - 1]);
                assert(t[p].position.0 > v);
                assert(t[p].position.0 <= t[j - 1].position.0);
                if i < p {
                    assert(u[i] == t[i]);
                } else if i > p {
                    assert(u[i] == t[i - 1]);
                }
            }
        }
        to_multiset_insert(t, p, x);
        to_multiset_build(s.drop_last(), x);
        assert(s.drop_last().push(x) =~= s);
    }
}

/// The key code found for a keysym produces it, and no smaller key code
/// does; none is found only where no key code produces it.
pub proof fn law_keycode_has_keysym(m: KeyboardMapping, keysym: u32)
    requires
        m.min_keycode <= m.max_keycode,
    ensures
        match spec_keycode(m, keysym) {
            Some(c) => {
                &&& m.min_keycode <= c <= m.max_keycode
                &&& code_has(m, c - m.min_keycode, keysym)
                &&& forall|k: int| 0 <= k < c - m.min_keycode ==> !#[trigger] code_has(m, k, keysym)
            },
            None => forall|k: int| 0 <= k <= m.max_keycode - m.min_keycode ==> !#[trigger] code_has(m, k, keysym),
        },
{
    let n = m.max_keycode - m.min_keycode + 1;
    if exists|i: int| 0 <= i < n && #[trigger] code_has(m, i, keysym) {
        let w = choose|i: int| 0 <= i < n && #[trigger] code_has(m, i, keysym);
        lemma_first_code(m, keysym, w);
    }
}

proof fn lemma_first_code(m: KeyboardMapping, keysym: u32, w: int)
    requires
        0 <= w,
        code_has(m, w, keysym),
    ensures
        exists|i: int| 0 <= i <= w && #[trigger] code_has(m, i, keysym) && forall|k: int| 0 <= k < i ==> !#[trigger] code_has(m, k, keysym),
    decreases w,
{
    if exists|k: int| 0 <= k < w && #[trigger] code_has(m, k, keysym) {
        let k = choose|k: int| 0 <= k < w && #[trigger] code_has(m, k, keysym);
        lemma_first_code(m, keysym, k);
    } else {
        assert(forall|k: int| 0 <= k < w ==> !#[trigger] code_has(m, k, keysym));
    }
}

proof fn lemma_contains_left(a: Seq<Action>, b: Seq<Action>, e: Action)
    requires
        a.contains(e),
    ensures
        (a + b).contains(e),
{
    let i = choose|i: int| 0 <= i < a.len() && a[i] == e;
    assert((a + b)[i] == e);
}

proof fn lemma_contains_right(a: Seq<Action>, b: Seq<Action>, e: Action)
    requires
        b.contains(e),
    ensures
        (a + b).contains(e),
{
    let i = choose|i: int| 0 <= i < b.len() && b[i] == e;
    assert((a + b)[a.len() + i] == e);
}

proof fn lemma_opt_shows(s: Seq<Option<Window>>, x: Window, v: bool)
    requires
        s.contains(Some(x)),
    ensures
        opt_shows(s, v).contains(show(x, v)),
    decreases s.len(),
{
    let d = s.drop_last();
    let tail = match s.last() {
        Some(y) => seq![show(y, v)],
        None => Seq::<Action>::empty(),
    };
    if d.contains(Some(x)) {
        lemma_opt_shows(d, x, v);
        lemma_contains_left(opt_shows(d, v), tail, show(x, v));
    } else {
        let i = choose|i: int| 0 <= i < s.len() && s[i] == Some(x);
        if i < d.len() {
            assert(d[i] == Some(x));
        }
        assert(tail[0] == show(x, v));
        lemma_contains_right(opt_shows(d, v), tail, show(x, v));
    }
}

proof fn lemma_ws_shows(ws: Workspace, x: Window, v: bool)
    requires
        in_workspace(ws, x),
    ensures
        ws_shows(ws, v).contains(show(x, v)),
{
    let p1 = match ws.main_window {
        Some(m) => seq![show(m, v)],
        None => Seq::<Action>::empty(),
    };
    let p2 = opt_shows(ws.side_windows@, v);
    let p3 = match ws.help_window {
        Some(h) => seq![show(h, v)],
        None => Seq::<Action>::empty(),
    };
    let p4 = ws.key_hint_windows@.map_values(|p: (String, Window)| show(p.1, v));
    let p5 = ws.floatings@.map_values(|w: Window| show(w, v));
    let e = show(x, v);
    assert(ws_shows(ws, v) == p1 + p2 + p3 + p4 + p5);
    if ws.main_window == Some(x) {
        assert(p1[0] == e);
        lemma_contains_left(p1, p2, e);
        lemma_contains_left(p1 + p2, p3, e);
        lemma_contains_left(p1 + p2 + p3, p4, e);
        lemma_contains_left(p1 + p2 + p3 + p4, p5, e);
    } else if ws.side_windows@.contains(Some(x)) {
        lemma_opt_shows(ws.side_windows@, x, v);
        lemma_contains_right(p1, p2, e);
        lemma_contains_left(p1 + p2, p3, e);
        lemma_contains_left(p1 + p2 + p3, p4, e);
        lemma_contains_left(p1 + p2 + p3 + p4, p5, e);
    } else if ws.help_window == Some(x) {
        assert(p3[0] == e);
        lemma_contains_right(p1 + p2, p3, e);
        lemma_contains_left(p1 + p2 + p3, p4, e);
        lemma_contains_left(p1 + p2 + p3 + p4, p5, e);
    } else if exists|k: int| 0 <= k < ws.key_hint_windows@.len() && (#[trigger] ws.key_hint_windows@[k]).1 == x {
        let k = choose|k: int| 0 <= k < ws.key_hint_windows@.len() && (#[trigger] ws.key_hint_windows@[k]).1 == x;
        assert(p4[k] == e);
        lemma_contains_right(p1 + p2 + p3, p4, e);
        lemma_contains_left(p1 + p2 + p3 + p4, p5, e);
    } else {
        let k = choose|k: int| 0 <= k < ws.floatings@.len() && ws.floatings@[k] == x;
        assert(p5[k] == e);
        lemma_contains_right(p1 + p2 + p3 + p4, p5, e);
    }
}

proof fn lemma_monitor_shows(st: State, m: int, w: int, k: int, x: Window)
    requires
        0 <= m < st.monitors@.len(),
        0 <= w < k <= st.monitors@[m].workspaces@.len(),
        in_workspace(ws_at(st, m, w), x),
    ensures
        monitor_shows(st.monitors@[m], st.current_workspace as int, k).contains(
            show(x, w == st.current_workspace),
        ),
    decreases k,
{
    let mon = st.monitors@[m];
    let cw = st.current_workspace as int;
    let e = show(x, w == st.current_workspace);
    if w < k - 1 {
        lemma_monitor_shows(st, m, w, k - 1, x);
        lemma_contains_left(monitor_shows(mon, cw, k - 1), ws_shows(mon.workspaces@[k - 1], k - 1 == cw), e);
    } else {
        lemma_ws_shows(mon.workspaces@[w], x, w == cw);
        lemma_contains_right(monitor_shows(mon, cw, k - 1), ws_shows(mon.workspaces@[k - 1], k - 1 == cw), e);
    }
}

proof fn lemma_all_shows(st: State, m: int, w: int, k: int, x: Window)
    requires
        0 <= m < k <= st.monitors@.len(),
        0 <= w < st.monitors@[m].workspaces@.len(),
        in_workspace(ws_at(st, m, w), x),
    ensures
        all_shows(st, k).contains(show(x, w == st.current_workspace)),
    decreases k,
{
    let e = show(x, w == st.current_workspace);
    let last = monitor_shows(
        st.monitors@[k - 1],
        st.current_workspace as int,
        st.monitors@[k - 1].workspaces@.len() as int,
    );
    if m < k - 1 {
        lemma_all_shows(st, m, w, k - 1, x);
        lemma_contains_left(all_shows(st, k - 1), last, e);
    } else {
        lemma_monitor_shows(st, m, w, st.monitors@[m].workspaces@.len() as int, x);
        lemma_contains_right(all_shows(st, k - 1), last, e);
    }
}

/// Switching workspaces maps every window of the current workspace of each
/// monitor and unmaps every window of the other workspaces.
pub proof fn law_switch_shows(st: State, m: int, w: int, x: Window)
    requires
        0 <= m < st.monitors@.len(),
        0 <= w < st.monitors@[m].workspaces@.len(),
        in_workspace(ws_at(st, m, w), x),
    ensures
        w == st.current_workspace ==> all_shows(st, st.monitors@.len() as int).contains(Action::MapWindow(x)),
        w != st.current_workspace ==> all_shows(st, st.monitors@.len() as int).contains(Action::UnmapWindow(x)),
{
    lemma_all_shows(st, m, w, st.monitors@.len() as int, x);
}

/// Pressing the fullscreen key twice leaves the flag as it was, and the
/// second press gives the main window the geometry it had before the first:
/// its place in the main area, or the whole screen.
pub proof fn law_fullscreen_twice(
    a: State,
    b: State,
    c: State,
    acts0: Seq<Action>,
    acts1: Seq<Action>,
    acts2: Seq<Action>,
    keysym: Option<u32>,
    mod4: bool,
    world: &World,
)
    requires
        a.wf(),
        only_ws_changed(a, b),
        fullscreen_done(a, b, acts0, acts1, keysym, mod4, world),
        only_ws_changed(b, c),
        fullscreen_done(b, c, acts1, acts2, keysym, mod4, world),
        pressed(a.settings.bindings.fullscreen@, keysym, mod4),
        a.ws().main_window is Some,
    ensures
        c.ws().fullscreen == a.ws().fullscreen,
        c.ws().main_window == a.ws().main_window,
        c.ws().side_windows@ == a.ws().side_windows@,
        acts2[acts1.len() as int] == (if a.ws().fullscreen {
            fullscreen_configure(a, a.ws().main_window.unwrap())
        } else {
            main_configure(a, a.ws().main_window.unwrap())
        }),
{
    let m = a.ws().main_window.unwrap();
    assert(b.monitors@[b.current_monitor as int].sizes == a.monitors@[a.current_monitor as int].sizes);
    assert(b.mon().position == a.mon().position);
    assert(main_configure(b, m) == main_configure(a, m));
    assert(fullscreen_configure(b, m) == fullscreen_configure(a, m));
}

/// Auditing the key hints for `n` side windows: the swap key at position
/// `i` keeps or gets a hint where `i < n` (unless the key is listed again
/// further on), loses it where `i >= n`, and a hint that stays keeps its
/// window.
pub proof fn law_hints_shown(m: Map<Seq<char>, Window>, swaps: Seq<Seq<char>>, n: int, i: int)
    requires
        0 <= n,
        0 <= i < swaps.len(),
    ensures
        i >= n ==> !hints_after(m, swaps, n).dom().contains(swaps[i]),
        i < n && (forall|j: int| 0 <= j < swaps.len() && j != i ==> swaps[j] != swaps[i])
            ==> hints_after(m, swaps, n).dom().contains(swaps[i]),
        forall|k: Seq<char>| #[trigger] hints_after(m, swaps, n).dom().contains(k) && m.dom().contains(k)
            ==> hints_after(m, swaps, n)[k] == m[k],
{
    let cut = if n < swaps.len() { n } else { swaps.len() as int };
    let shown = swaps.subrange(0, cut);
    let hidden = swaps.subrange(cut, swaps.len() as int);
    if i >= n {
        assert(hidden[i - cut] == swaps[i]);
    } else {
        assert(shown[i] == swaps[i]);
        if hidden.contains(swaps[i]) {
            let k = choose|k: int| 0 <= k < hidden.len() && hidden[k] == swaps[i];
            assert(swaps[k + cut] == swaps[i]);
        }
    }
}

/// The name that the settings file uses first for keysym `k`.
pub open spec fn key_name(k: u32) -> Seq<char> {
    if k == 0x0061u32 {
        "a"@
    } else if k == 0x0062u32 {
        "b"@
    } else if k == 0x0063u32 {
        "c"@
    } else if k == 0x0064u32 {
        "d"@
    } else if k == 0x0065u32 {
        "e"@
    } else if k == 0x0066u32 {
        "f"@
    } else if k == 0x0067u32 {
        "g"@
    } else if k == 0x0068u32 {
        "h"@
    } else if k == 0x0069u32 {
        "i"@
    } else if k == 0x006au32 {
        "j"@
    } else if k == 0x006bu32 {
        "k"@
    } else if k == 0x006cu32 {
        "l"@
    } else if k == 0x006du32 {
        "m"@
    } else if k == 0x006eu32 {
        "n"@
    } else if k == 0x006fu32 {
        "o"@
    } else if k == 0x0070u32 {
        "p"@
    } else if k == 0x0071u32 {
        "q"@
    } else if k == 0x0072u32 {
        "r"@
    } else if k == 0x0073u32 {
        "s"@
    } else if k == 0x0074u32 {
        "t"@
    } else if k == 0x0075u32 {
        "u"@
    } else if k == 0x0076u32 {
        "v"@
    } else if k == 0x0077u32 {
        "w"@
    } else if k == 0x0078u32 {
        "x"@
    } else if k == 0x0079u32 {
        "y"@
    } else if k == 0x007au32 {
        "z"@
    } else if k == 0x0030u32 {
        "0"@
    } else if k == 0x0031u32 {
        "1"@
    } else if k == 0x0032u32 {
        "2"@
    } else if k == 0x0033u32 {
        "3"@
    } else if k == 0x0034u32 {
        "4"@
    } else if k == 0x0035u32 {
        "5"@
    } else if k == 0x0036u32 {
        "6"@
    } else if k == 0x0037u32 {
        "7"@
    } else if k == 0x0038u32 {
        "8"@
    } else if k == 0x0039u32 {
        "9"@
    } else if k == 0xffbeu32 {
        "f1"@
    } else if k == 0xffbfu32 {
        "f2"@
    } else if k == 0xffc0u32 {
        "f3"@
    } else if k == 0xffc1u32 {
        "f4"@
    } else if k == 0xffc2u32 {
        "f5"@
    } else if k == 0xffc3u32 {
        "f6"@
    } else if k == 0xffc4u32 {
        "f7"@
    } else if k == 0xffc5u32 {
        "f8"@
    } else if k == 0xffc6u32 {
        "f9"@
    } else if k == 0xffc7u32 {
        "f10"@
    } else if k == 0xffc8u32 {
        "f11"@
    } else if k == 0xffc9u32 {
        "f12"@
    } else if k == 0x0020u32 {
        "spc"@
    } else if k == 0xff0du32 {
        "ret"@
    } else if k == 0xff1bu32 {
        "esc"@
    } else if k == 0xff09u32 {
        "tab"@
    } else if k == 0xff08u32 {
        "bsp"@
    } else if k == 0xffffu32 {
        "del"@
    } else if k == 0xff63u32 {
        "ins"@
    } else if k == 0xff50u32 {
        "home"@
    } else if k == 0xff57u32 {
        "end"@
    } else if k == 0xff55u32 {
        "pgup"@
    } else if k == 0xff56u32 {
        "pgdn"@
    } else if k == 0xff52u32 {
        "up"@
    } else if k == 0xff54u32 {
        "down"@
    } else if k == 0xff51u32 {
        "left"@
    } else if k == 0xff53u32 {
        "right"@
    } else if k == 0x002du32 {
        "-"@
    } else if k == 0x003du32 {
        "="@
    } else if k == 0x005bu32 {
        "["@
    } else if k == 0x005du32 {
        "]"@
    } else if k == 0x005cu32 {
        "\\"@
    } else if k == 0x003bu32 {
        ";"@
    } else if k == 0x0027u32 {
        "'"@
    } else if k == 0x002cu32 {
        ","@
    } else if k == 0x002eu32 {
        "."@
    } else if k == 0x002fu32 {
        "/"@
    } else if k == 0x0060u32 {
        "`"@
    } else if k == 0xffb0u32 {
        "kp0"@
    } else if k == 0xffb1u32 {
        "kp1"@
    } else if k == 0xffb2u32 {
        "kp2"@
    } else if k == 0xffb3u32 {
        "kp3"@
    } else if k == 0xffb4u32 {
        "kp4"@
    } else if k == 0xffb5u32 {
        "kp5"@
    } else if k == 0xffb6u32 {
        "kp6"@
    } else if k == 0xffb7u32 {
        "kp7"@
    } else if k == 0xffb8u32 {
        "kp8"@
    } else if k == 0xffb9u32 {
        "kp9"@
    } else if k == 0xffabu32 {
        "kp+"@
    } else if k == 0xffadu32 {
        "kp-"@
    } else if k == 0xffaau32 {
        "kp*"@
    } else if k == 0xffafu32 {
        "kp/"@
    } else if k == 0xffaeu32 {
        "kp."@
    } else if k == 0xff8du32 {
        "kpret"@
    } else if k == 0xffe5u32 {
        "caps"@
    } else if k == 0xff7fu32 {
        "num"@
    } else if k == 0x1008ff12u32 {
        "mute"@
    } else if k == 0x1008ff13u32 {
        "volu"@
    } else if k == 0x1008ff11u32 {
        "vold"@
    } else if k == 0x1008ff14u32 {
        "play"@
    } else if k == 0x1008ff16u32 {
        "prev"@
    } else if k == 0x1008ff17u32 {
        "next"@
    } else if k == 0x1008ff02u32 {
        "briu"@
    } else if k == 0x1008ff03u32 {
        "brid"@
    } else {
        Seq::empty()
    }
}

/// Each keysym has one key name but for the three that have two:
/// `spc`/`space`, `ret`/`enter` and `bsp`/`backspace`.
#[verifier::rlimit(60)]
pub proof fn law_key_names(s: Seq<char>)
    ensures
        keysym_of(s) is Some ==> s == key_name(keysym_of(s).unwrap()) || s == "space"@ || s == "enter"@
            || s == "backspace"@,
{
}

/// Two key names give the same keysym only where they are the same name or
/// one of the three pairs of aliases.
pub proof fn law_one_keysym_per_name(a: Seq<char>, b: Seq<char>)
    requires
        keysym_of(a) is Some,
        keysym_of(a) == keysym_of(b),
    ensures
        a == b || (a == "spc"@ && b == "space"@) || (a == "space"@ && b == "spc"@) || (a == "ret"@ && b == "enter"@)
            || (a == "enter"@ && b == "ret"@) || (a == "bsp"@ && b == "backspace"@) || (a == "backspace"@ && b == "bsp"@),
{
    law_key_names(a);
    law_key_names(b);
}

/// Lower-casing an ASCII name twice is lower-casing it once, so a key name
/// and its lower-cased form name the same key.
pub proof fn law_ascii_lower_idem(s: Seq<char>)
    requires
        ascii_only(s),
    ensures
        ascii_only(ascii_lower(s)),
        ascii_lower(ascii_lower(s)) == ascii_lower(s),
        keysym_of(ascii_lower(ascii_lower(s))) == keysym_of(ascii_lower(s)),
{
    let l = ascii_lower(s);
    assert forall|i: int| 0 <= i < l.len() implies (#[trigger] l[i] as u32) < 128 by {
        assert(l[i] == ascii_lower_char(s[i]));
        assert((s[i] as u32) < 128);
    }
    assert forall|i: int| 0 <= i < l.len() implies #[trigger] ascii_lower(l)[i] == l[i] by {
        assert(l[i] == ascii_lower_char(s[i]));
    }
    assert(ascii_lower(l) =~= l);
}

/// What each key name of the settings file is made of.
proof fn lemma_key_name_chars()
    ensures
        "a"@.len() == 1 && "a"@[0] == 'a',
        "b"@.len() == 1 && "b"@[0] == 'b',
        "c"@.len() == 1 && "c"@[0] == 'c',
        "d"@.len() == 1 && "d"@[0] == 'd',
        "e"@.len() == 1 && "e"@[0] == 'e',
        "f"@.len() == 1 && "f"@[0] == 'f',
        "g"@.len() == 1 && "g"@[0] == 'g',
        "h"@.len() == 1 && "h"@[0] == 'h',
        "i"@.len() == 1 && "i"@[0] == 'i',
        "j"@.len() == 1 && "j"@[0] == 'j',
        "k"@.len() == 1 && "k"@[0] == 'k',
        "l"@.len() == 1 && "l"@[0] == 'l',
        "m"@.len() == 1 && "m"@[0] == 'm',
        "n"@.len() == 1 && "n"@[0] == 'n',
        "o"@.len() == 1 && "o"@[0] == 'o',
        "p"@.len() == 1 && "p"@[0] == 'p',
        "q"@.len() == 1 && "q"@[0] == 'q',
        "r"@.len() == 1 && "r"@[0] == 'r',
        "s"@.len() == 1 && "s"@[0] == 's',
        "t"@.len() == 1 && "t"@[0] == 't',
        "u"@.len() == 1 && "u"@[0] == 'u',
        "v"@.len() == 1 && "v"@[0] == 'v',
        "w"@.len() == 1 && "w"@[0] == 'w',
        "x"@.len() == 1 && "x"@[0] == 'x',
        "y"@.len() == 1 && "y"@[0] == 'y',
        "z"@.len() == 1 && "z"@[0] == 'z',
        "0"@.len() == 1 && "0"@[0] == '0',
        "1"@.len() == 1 && "1"@[0] == '1',
        "2"@.len() == 1 && "2"@[0] == '2',
        "3"@.len() == 1 && "3"@[0] == '3',
        "4"@.len() == 1 && "4"@[0] == '4',
        "5"@.len() == 1 && "5"@[0] == '5',
        "6"@.len() == 1 && "6"@[0] == '6',
        "7"@.len() == 1 && "7"@[0] == '7',
        "8"@.len() == 1 && "8"@[0] == '8',
        "9"@.len() == 1 && "9"@[0] == '9',
        "f1"@.len() == 2 && "f1"@[0] == 'f' && "f1"@[1] == '1',
        "f2"@.len() == 2 && "f2"@[0] == 'f' && "f2"@[1] == '2',
        "f3"@.len() == 2 && "f3"@[0] == 'f' && "f3"@[1] == '3',
        "f4"@.len() == 2 && "f4"@[0] == 'f' && "f4"@[1] == '4',
        "f5"@.len() == 2 && "f5"@[0] == 'f' && "f5"@[1] == '5',
        "f6"@.len() == 2 && "f6"@[0] == 'f' && "f6"@[1] == '6',
        "f7"@.len() == 2 && "f7"@[0] == 'f' && "f7"@[1] == '7',
        "f8"@.len() == 2 && "f8"@[0] == 'f' && "f8"@[1] == '8',
        "f9"@.len() == 2 && "f9"@[0] == 'f' && "f9"@[1] == '9',
        "f10"@.len() == 3 && "f10"@[0] == 'f' && "f10"@[1] == '1' && "f10"@[2] == '0',
        "f11"@.len() == 3 && "f11"@[0] == 'f' && "f11"@[1] == '1' && "f11"@[2] == '1',
        "f12"@.len() == 3 && "f12"@[0] == 'f' && "f12"@[1] == '1' && "f12"@[2] == '2',
        "spc"@.len() == 3 && "spc"@[0] == 's' && "spc"@[1] == 'p' && "spc"@[2] == 'c',
        "space"@.len() == 5 && "space"@[0] == 's' && "space"@[1] == 'p' && "space"@[2] == 'a' && "space"@[3] == 'c' && "space"@[4] == 'e',
        "ret"@.len() == 3 && "ret"@[0] == 'r' && "ret"@[1] == 'e' && "ret"@[2] == 't',
        "enter"@.len() == 5 && "enter"@[0] == 'e' && "enter"@[1] == 'n' && "enter"@[2] == 't' && "enter"@[3] == 'e' && "enter"@[4] == 'r',
        "esc"@.len() == 3 && "esc"@[0] == 'e' && "esc"@[1] == 's' && "esc"@[2] == 'c',
        "tab"@.len() == 3 && "tab"@[0] == 't' && "tab"@[1] == 'a' && "tab"@[2] == 'b',
        "bsp"@.len() == 3 && "bsp"@[0] == 'b' && "bsp"@[1] == 's' && "bsp"@[2] == 'p',
        "backspace"@.len() == 9 && "backspace"@[0] == 'b' && "backspace"@[1] == 'a' && "backspace"@[2] == 'c' && "backspace"@[3] == 'k' && "backspace"@[4] == 's' && "backspace"@[5] == 'p' && "backspace"@[6] == 'a' && "backspace"@[7] == 'c' && "backspace"@[8] == 'e',
        "del"@.len() == 3 && "del"@[0] == 'd' && "del"@[1] == 'e' && "del"@[2] == 'l',
        "ins"@.len() == 3 && "ins"@[0] == 'i' && "ins"@[1] == 'n' && "ins"@[2] == 's',
        "home"@.len() == 4 && "home"@[0] == 'h' && "home"@[1] == 'o' && "home"@[2] == 'm' && "home"@[3] == 'e',
        "end"@.len() == 3 && "end"@[0] == 'e' && "end"@[1] == 'n' && "end"@[2] == 'd',
        "pgup"@.len() == 4 && "pgup"@[0] == 'p' && "pgup"@[1] == 'g' && "pgup"@[2] == 'u' && "pgup"@[3] == 'p',
        "pgdn"@.len() == 4 && "pgdn"@[0] == 'p' && "pgdn"@[1] == 'g' && "pgdn"@[2] == 'd' && "pgdn"@[3] == 'n',
        "up"@.len() == 2 && "up"@[0] == 'u' && "up"@[1] == 'p',
        "down"@.len() == 4 && "down"@[0] == 'd' && "down"@[1] == 'o' && "down"@[2] == 'w' && "down"@[3] == 'n',
        "left"@.len() == 4 && "left"@[0] == 'l' && "left"@[1] == 'e' && "left"@[2] == 'f' && "left"@[3] == 't',
        "right"@.len() == 5 && "right"@[0] == 'r' && "right"@[1] == 'i' && "right"@[2] == 'g' && "right"@[3] == 'h' && "right"@[4] == 't',
        "-"@.len() == 1 && "-"@[0] == '-',
        "="@.len() == 1 && "="@[0] == '=',
        "["@.len() == 1 && "["@[0] == '[',
        "]"@.len() == 1 && "]"@[0] == ']',
        "\\"@.len() == 1 && "\\"@[0] == '\\',
        ";"@.len() == 1 && ";"@[0] == ';',
        "'"@.len() == 1 && "'"@[0] == '\'',
        ","@.len() == 1 && ","@[0] == ',',
        "."@.len() == 1 && "."@[0] == '.',
        "/"@.len() == 1 && "/"@[0] == '/',
        "`"@.len() == 1 && "`"@[0] == '`',
        "kp0"@.len() == 3 && "kp0"@[0] == 'k' && "kp0"@[1] == 'p' && "kp0"@[2] == '0',
        "kp1"@.len() == 3 && "kp1"@[0] == 'k' && "kp1"@[1] == 'p' && "kp1"@[2] == '1',
        "kp2"@.len() == 3 && "kp2"@[0] == 'k' && "kp2"@[1] == 'p' && "kp2"@[2] == '2',
        "kp3"@.len() == 3 && "kp3"@[0] == 'k' && "kp3"@[1] == 'p' && "kp3"@[2] == '3',
        "kp4"@.len() == 3 && "kp4"@[0] == 'k' && "kp4"@[1] == 'p' && "kp4"@[2] == '4',
        "kp5"@.len() == 3 && "kp5"@[0] == 'k' && "kp5"@[1] == 'p' && "kp5"@[2] == '5',
        "kp6"@.len() == 3 && "kp6"@[0] == 'k' && "kp6"@[1] == 'p' && "kp6"@[2] == '6',
        "kp7"@.len() == 3 && "kp7"@[0] == 'k' && "kp7"@[1] == 'p' && "kp7"@[2] == '7',
        "kp8"@.len() == 3 && "kp8"@[0] == 'k' && "kp8"@[1] == 'p' && "kp8"@[2] == '8',
        "kp9"@.len() == 3 && "kp9"@[0] == 'k' && "kp9"@[1] == 'p' && "kp9"@[2] == '9',
        "kp+"@.len() == 3 && "kp+"@[0] == 'k' && "kp+"@[1] == 'p' && "kp+"@[2] == '+',
        "kp-"@.len() == 3 && "kp-"@[0] == 'k' && "kp-"@[1] == 'p' && "kp-"@[2] == '-',
        "kp*"@.len() == 3 && "kp*"@[0] == 'k' && "kp*"@[1] == 'p' && "kp*"@[2] == '*',
        "kp/"@.len() == 3 && "kp/"@[0] == 'k' && "kp/"@[1] == 'p' && "kp/"@[2] == '/',
        "kp."@.len() == 3 && "kp."@[0] == 'k' && "kp."@[1] == 'p' && "kp."@[2] == '.',
        "kpret"@.len() == 5 && "kpret"@[0] == 'k' && "kpret"@[1] == 'p' && "kpret"@[2] == 'r' && "kpret"@[3] == 'e' && "kpret"@[4] == 't',
        "caps"@.len() == 4 && "caps"@[0] == 'c' && "caps"@[1] == 'a' && "caps"@[2] == 'p' && "caps"@[3] == 's',
        "num"@.len() == 3 && "num"@[0] == 'n' && "num"@[1] == 'u' && "num"@[2] == 'm',
        "mute"@.len() == 4 && "mute"@[0] == 'm' && "mute"@[1] == 'u' && "mute"@[2] == 't' && "mute"@[3] == 'e',
        "volu"@.len() == 4 && "volu"@[0] == 'v' && "volu"@[1] == 'o' && "volu"@[2] == 'l' && "volu"@[3] == 'u',
        "vold"@.len() == 4 && "vold"@[0] == 'v' && "vold"@[1] == 'o' && "vold"@[2] == 'l' && "vold"@[3] == 'd',
        "play"@.len() == 4 && "play"@[0] == 'p' && "play"@[1] == 'l' && "play"@[2] == 'a' && "play"@[3] == 'y',
        "prev"@.len() == 4 && "prev"@[0] == 'p' && "prev"@[1] == 'r' && "prev"@[2] == 'e' && "prev"@[3] == 'v',
        "next"@.len() == 4 && "next"@[0] == 'n' && "next"@[1] == 'e' && "next"@[2] == 'x' && "next"@[3] == 't',
        "briu"@.len() == 4 && "briu"@[0] == 'b' && "briu"@[1] == 'r' && "briu"@[2] == 'i' && "briu"@[3] == 'u',
        "brid"@.len() == 4 && "brid"@[0] == 'b' && "brid"@[1] == 'r' && "brid"@[2] == 'i' && "brid"@[3] == 'd',
{
    reveal_strlit("a");
    reveal_strlit("b");
    reveal_strlit("c");
    reveal_strlit("d");
    reveal_strlit("e");
    reveal_strlit("f");
    reveal_strlit("g");
    reveal_strlit("h");
    reveal_strlit("i");
    reveal_strlit("j");
    reveal_strlit("k");
    reveal_strlit("l");
    reveal_strlit("m");
    reveal_strlit("n");
    reveal_strlit("o");
    reveal_strlit("p");
    reveal_strlit("q");
    reveal_strlit("r");
    reveal_strlit("s");
    reveal_strlit("t");
    reveal_strlit("u");
    reveal_strlit("v");
    reveal_strlit("w");
    reveal_strlit("x");
    reveal_strlit("y");
    reveal_strlit("z");
    reveal_strlit("0");
    reveal_strlit("1");
    reveal_strlit("2");
    reveal_strlit("3");
    reveal_strlit("4");
    reveal_strlit("5");
    reveal_strlit("6");
    reveal_strlit("7");
    reveal_strlit("8");
    reveal_strlit("9");
    reveal_strlit("f1");
    reveal_strlit("f2");
    reveal_strlit("f3");
    reveal_strlit("f4");
    reveal_strlit("f5");
    reveal_strlit("f6");
    reveal_strlit("f7");
    reveal_strlit("f8");
    reveal_strlit("f9");
    reveal_strlit("f10");
    reveal_strlit("f11");
    reveal_strlit("f12");
    reveal_strlit("spc");
    reveal_strlit("space");
    reveal_strlit("ret");
    reveal_strlit("enter");
    reveal_strlit("esc");
    reveal_strlit("tab");
    reveal_strlit("bsp");
    reveal_strlit("backspace");
    reveal_strlit("del");
    reveal_strlit("ins");
    reveal_strlit("home");
    reveal_strlit("end");
    reveal_strlit("pgup");
    reveal_strlit("pgdn");
    reveal_strlit("up");
    reveal_strlit("down");
    reveal_strlit("left");
    reveal_strlit("right");
    reveal_strlit("-");
    reveal_strlit("=");
    reveal_strlit("[");
    reveal_strlit("]");
    reveal_strlit("\\");
    reveal_strlit(";");
    reveal_strlit("'");
    reveal_strlit(",");
    reveal_strlit(".");
    reveal_strlit("/");
    reveal_strlit("`");
    reveal_strlit("kp0");
    reveal_strlit("kp1");
    reveal_strlit("kp2");
    reveal_strlit("kp3");
    reveal_strlit("kp4");
    reveal_strlit("kp5");
    reveal_strlit("kp6");
    reveal_strlit("kp7");
    reveal_strlit("kp8");
    reveal_strlit("kp9");
    reveal_strlit("kp+");
    reveal_strlit("kp-");
    reveal_strlit("kp*");
    reveal_strlit("kp/");
    reveal_strlit("kp.");
    reveal_strlit("kpret");
    reveal_strlit("caps");
    reveal_strlit("num");
    reveal_strlit("mute");
    reveal_strlit("volu");
    reveal_strlit("vold");
    reveal_strlit("play");
    reveal_strlit("prev");
    reveal_strlit("next");
    reveal_strlit("briu");
    reveal_strlit("brid");
}

/// Every name the settings file uses first for a keysym reads back as that
/// keysym, so every such key can be bound; the aliases `space`, `enter` and
/// `backspace` read as `spc`, `ret` and `bsp` do.
#[verifier::rlimit(100)]
pub proof fn law_names_have_keysyms(k: u32)
    ensures
        key_name(k).len() > 0 ==> keysym_of(key_name(k)) == Some(k),
        keysym_of("space"@) == keysym_of("spc"@) && (keysym_of("spc"@) is Some),
        keysym_of("enter"@) == keysym_of("ret"@) && (keysym_of("ret"@) is Some),
        keysym_of("backspace"@) == keysym_of("bsp"@) && (keysym_of("bsp"@) is Some),
{
    lemma_key_name_chars();
}

/// Fullscreen gives the main window the whole screen of the monitor it is
/// on: for a monitor built from `info` with main area `main` and layout
/// offset `offset`, the window goes to the monitor's position moved by the
/// offset (and up by what the main area leaves of the screen's height), and
/// takes the screen's size.
pub proof fn law_fullscreen_on_its_monitor(
    st: State,
    w: Window,
    info: MonitorInfo,
    main: (i32, i32),
    offset: (i32, i32),
)
    requires
        st.wf(),
        built_monitor(st.settings, info, main, offset, st.mon()),
    ensures
        fullscreen_configure(st, w) == (Action::Configure {
            window: w,
            x: (info.position.0 + offset.0) as i32,
            y: (info.position.1 + offset.1 + main.1 - (info.size.1 as i32)) as i32,
            width: (info.size.0 as i32) as u32,
            height: (info.size.1 as i32) as u32,
        }),
{
}

/// Where the main area keeps the monitor's left edge and takes the bottom of
/// the screen (the layout offset is zero across and what the main area leaves
/// of the height down), fullscreen covers exactly the monitor's screen.
pub proof fn law_fullscreen_covers_screen(
    st: State,
    w: Window,
    info: MonitorInfo,
    main: (i32, i32),
    offset: (i32, i32),
)
    requires
        st.wf(),
        built_monitor(st.settings, info, main, offset, st.mon()),
        offset.0 == 0,
        offset.1 == (info.size.1 as i32) - main.1,
    ensures
        fullscreen_configure(st, w) == (Action::Configure {
            window: w,
            x: info.position.0,
            y: info.position.1,
            width: (info.size.0 as i32) as u32,
            height: (info.size.1 as i32) as u32,
        }),
{
}

/// A window whose name holds any entry of the excluded applications, at any
/// position of that list, is kept out of the tiling.
pub proof fn law_excluded_names_excepted(settings: Settings, name: Option<Seq<char>>, i: int, at: int)
    requires
        0 <= i < settings.applications.excluded@.len(),
        (name is Some),
        occurs_at(name.unwrap(), settings.applications.excluded@[i]@, at),
    ensures
        name_has(name, settings.applications.excluded@[i]@),
        spec_excepted(settings, name),
{
    assert(name_has(name, settings.applications.excluded@[i]@));
}

/// An existing window that asks to be mapped, is neither a key hint nor the
/// help window, and whose name holds an entry of the excluded applications is
/// only mapped, whether it is a pop-up or not.
pub proof fn law_excluded_windows_only_mapped(
    settings: Settings,
    world: &World,
    window: Window,
    name: Option<Seq<char>>,
    popup: bool,
    i: int,
)
    requires
        exists_in(world, window),
        spec_key_hint_key(name) is None,
        !name_has(name, "pfwm help"@),
        0 <= i < settings.applications.excluded@.len(),
        name_has(name, settings.applications.excluded@[i]@),
    ensures
        map_kind(settings, world, window, name, popup) == MapKind::Excepted,
{
}

/// The help window and key hint windows are kept out of the tiling too, and
/// a window whose name holds neither the help window's name, nor a key hint
/// name, nor any excluded application is tiled.
pub proof fn law_exceptions_exactly(settings: Settings, name: Option<Seq<char>>)
    ensures
        name_has(name, "pfwm help"@) ==> spec_excepted(settings, name),
        (spec_key_hint_key(name) is Some) ==> spec_excepted(settings, name),
        !name_has(name, "pfwm help"@) && (spec_key_hint_key(name) is None) && (forall|i: int|
            0 <= i < settings.applications.excluded@.len() ==> !name_has(
                name,
                (#[trigger] settings.applications.excluded@[i])@,
            )) ==> !spec_excepted(settings, name),
{
}

} // verus!
