//! Bringing the window lists back in step with the server.
use vstd::prelude::*;
use crate::actions::{Action, extends, lemma_extends_push, lemma_extends_trans, lemma_extends_refl};
use crate::model::{
    live_sides, has_dead_side, live_only, lemma_live_sides_live, lemma_live_sides_len, lemma_live_sides_all_live,
    hint_map, hints_after, find_hint, lemma_hints_step, lemma_hint_map_dom, lemma_hint_map_index,
    lemma_hint_map_push, lemma_hint_map_remove, has_dead,
};
use crate::settings::{views, lemma_views_prefix};
use crate::state::{State, Window, only_ws_changed, lemma_wf_kept, lemma_only_ws_changed_trans, ws_at, sides_wf};
use crate::safety::{World, exists_in, window_exists};
use crate::windows::layout::{layout_side_space, focused_floats, audited, layout_acts, layout_acts_in, lemma_layout_acts_in, layout_rec, fill_rec, frame_in, lemma_frame_in, lemma_frame_in_same, audit_f};
use crate::windows::tiling::{remove_side_window, fill_main_space, focuses, fill_acts};
use crate::windows::tiling::same_tiling;

verus! {

/// The requests for swap key `k`, the `i`-th, while the key hint map is
/// `m` and `n` side windows have a slot: a key with a slot gets its hint
/// placed in slot `i` and raised, or started where it has none; a key
/// without a slot has its hint destroyed, where it has one.
pub open spec fn hint_step(
    m: Map<Seq<char>, Window>,
    k: String,
    i: int,
    n: int,
    x: i32,
    top: i32,
    span: i32,
) -> Seq<Action> {
    if i < n {
        if m.dom().contains(k@) {
            seq![
                Action::HintSlot { window: m[k@], x, top, span, index: i as usize, count: n as usize },
                Action::Raise(m[k@]),
            ]
        } else {
            seq![Action::SpawnKeyHint(k)]
        }
    } else {
        if m.dom().contains(k@) {
            seq![Action::Destroy(m[k@])]
        } else {
            Seq::empty()
        }
    }
}

/// The requests for the first `k` swap keys, in order, starting from the
/// key hint map `m0`.
pub open spec fn hint_actions(
    m0: Map<Seq<char>, Window>,
    swaps: Seq<String>,
    n: int,
    x: i32,
    top: i32,
    span: i32,
    k: int,
) -> Seq<Action>
    decreases k,
{
    if k <= 0 {
        Seq::empty()
    } else {
        hint_actions(m0, swaps, n, x, top, span, k - 1) + hint_step(
            hints_after(m0, views(swaps.subrange(0, k - 1)), n),
            swaps[k - 1],
            k - 1,
            n,
            x,
            top,
            span,
        )
    }
}

/// Places or starts a key hint for each swap key that has a side window
/// (`n` of them, slot `i` for the `i`-th key) and destroys the hints of the
/// others.  Nothing happens where key hints are disabled.
pub fn key_hints(
    state: &mut State,
    actions: &mut Vec<Action>,
    x: i32,
    top: i32,
    span: i32,
    n: usize,
)
    requires
        old(state).wf(),
    ensures
        final(state).wf(),
        only_ws_changed(*old(state), *final(state)),
        same_tiling(old(state).ws(), final(state).ws()),
        final(state).ws().floatings@ == old(state).ws().floatings@,
        hint_map(final(state).ws().key_hint_windows@) == (if old(state).settings.bindings.key_hints {
            hints_after(
                hint_map(old(state).ws().key_hint_windows@),
                views(old(state).settings.bindings.swaps@),
                n as int,
            )
        } else {
            hint_map(old(state).ws().key_hint_windows@)
        }),
        final(actions)@ == old(actions)@ + (if old(state).settings.bindings.key_hints {
            hint_actions(
                hint_map(old(state).ws().key_hint_windows@),
                old(state).settings.bindings.swaps@,
                n as int,
                x,
                top,
                span,
                old(state).settings.bindings.swaps@.len() as int,
            )
        } else {
            Seq::empty()
        }),
        extends(old(actions)@, final(actions)@),
{
    let ghost a = *state;
    let ghost acts0 = actions@;
    let ghost m0 = hint_map(a.ws().key_hint_windows@);
    if !state.settings.bindings.key_hints {
        proof {
            assert(actions@ =~= acts0 + Seq::<Action>::empty());
            lemma_extends_refl(actions@);
            assert(only_ws_changed(a, *state));
        }
        return;
    }
    let cm = state.current_monitor;
    let cw = state.current_workspace;
    let ns = state.settings.bindings.swaps.len();
    let mut i: usize = 0;
    proof {
        lemma_extends_refl(acts0);
        assert(acts0 + Seq::<Action>::empty() =~= acts0);
        assert(hints_after(m0, views(a.settings.bindings.swaps@.subrange(0, 0)), n as int) =~= m0);
        assert(only_ws_changed(a, *state));
    }
    while i < ns
        invariant
            a.wf(),
            state.wf(),
            cm == state.current_monitor,
            cw == state.current_workspace,
            only_ws_changed(a, *state),
            same_tiling(a.ws(), state.ws()),
            state.ws().floatings@ == a.ws().floatings@,
            ns == a.settings.bindings.swaps@.len(),
            i <= ns,
            hint_map(state.ws().key_hint_windows@) == hints_after(
                m0,
                views(a.settings.bindings.swaps@.subrange(0, i as int)),
                n as int,
            ),
            extends(acts0, actions@),
            actions@ == acts0 + hint_actions(m0, a.settings.bindings.swaps@, n as int, x, top, span, i as int),
        decreases ns - i,
    {
        let ghost s0 = *state;
        let ghost before = actions@;
        let k = state.settings.bindings.swaps[i].clone();
        let ghost step = hint_step(
            hint_map(s0.ws().key_hint_windows@),
            a.settings.bindings.swaps@[i as int],
            i as int,
            n as int,
            x,
            top,
            span,
        );
        proof {
            lemma_views_prefix(a.settings.bindings.swaps@, i as int);
            lemma_hints_step(m0, views(a.settings.bindings.swaps@.subrange(0, i as int)), k@, n as int);
            assert(workspace_wf_of(s0));
        }
        let found = find_hint(&state.monitors[cm].workspaces[cw].key_hint_windows, k.as_str());
        if i < n {
            match found {
                Some(j) => {
                    let w = state.monitors[cm].workspaces[cw].key_hint_windows[j].1;
                    actions.push(Action::HintSlot { window: w, x, top, span, index: i, count: n });
                    actions.push(Action::Raise(w));
                    proof {
                        lemma_hint_map_index(s0.ws().key_hint_windows@, j as int);
                        lemma_extends_push(before, Action::HintSlot { window: w, x, top, span, index: i, count: n });
                        lemma_extends_push(before.push(Action::HintSlot { window: w, x, top, span, index: i, count: n }), Action::Raise(w));
                        lemma_extends_trans(before, before.push(Action::HintSlot { window: w, x, top, span, index: i, count: n }), actions@);
                        lemma_extends_trans(acts0, before, actions@);
                        assert(actions@ =~= before + step);
                    }
                },
                None => {
                    proof {
                        lemma_hint_map_dom(s0.ws().key_hint_windows@, k@);
                        lemma_hint_map_push(s0.ws().key_hint_windows@, (k, 0u32));
                    }
                    let entry = (k.clone(), 0u32);
                    state.monitors[cm].workspaces[cw].key_hint_windows.push(entry);
                    actions.push(Action::SpawnKeyHint(k));
                    proof {
                        assert(state.ws().key_hint_windows@ == s0.ws().key_hint_windows@.push(entry));
                        assert(only_ws_changed(s0, *state));
                        lemma_wf_kept(s0, *state);
                        lemma_only_ws_changed_trans(a, s0, *state);
                        lemma_extends_push(before, actions@.last());
                        lemma_extends_trans(acts0, before, actions@);
                        assert(actions@ =~= before + step);
                    }
                },
            }
        } else {
            match found {
                Some(j) => {
                    let w = state.monitors[cm].workspaces[cw].key_hint_windows[j].1;
                    actions.push(Action::Destroy(w));
                    proof {
                        lemma_hint_map_remove(s0.ws().key_hint_windows@, j as int);
                    }
                    let _ = state.monitors[cm].workspaces[cw].key_hint_windows.remove(j);
                    proof {
                        assert(state.ws().key_hint_windows@ == s0.ws().key_hint_windows@.remove(j as int));
                        assert(only_ws_changed(s0, *state));
                        lemma_wf_kept(s0, *state);
                        lemma_only_ws_changed_trans(a, s0, *state);
                        lemma_extends_push(before, Action::Destroy(w));
                        lemma_extends_trans(acts0, before, actions@);
                        lemma_hint_map_index(s0.ws().key_hint_windows@, j as int);
                        assert(actions@ =~= before + step);
                    }
                },
                None => {
                    proof {
                        lemma_hint_map_dom(s0.ws().key_hint_windows@, k@);
                        let h = hint_map(s0.ws().key_hint_windows@);
                        assert(h.remove(k@) =~= h);
                        assert(actions@ =~= before + step);
                    }
                },
            }
        }
        proof {
            let mi = hints_after(m0, views(a.settings.bindings.swaps@.subrange(0, i as int)), n as int);
            assert(mi == hint_map(s0.ws().key_hint_windows@));
            assert(a.settings.bindings.swaps@.subrange(0, i + 1 - 1) =~= a.settings.bindings.swaps@.subrange(0, i as int));
            assert(hint_actions(m0, a.settings.bindings.swaps@, n as int, x, top, span, i + 1)
                == hint_actions(m0, a.settings.bindings.swaps@, n as int, x, top, span, i as int) + step);
            assert(actions@ =~= acts0 + hint_actions(m0, a.settings.bindings.swaps@, n as int, x, top, span, i + 1));
        }
        i += 1;
    }
    proof {
        assert(a.settings.bindings.swaps@.subrange(0, ns as int) =~= a.settings.bindings.swaps@);
    }
}

/// A copy of a side list.
pub fn copy_sides(v: &Vec<Option<Window>>) -> (res: Vec<Option<Window>>)
    ensures
        res@ == v@,
{
    let mut r: Vec<Option<Window>> = Vec::new();
    let mut i: usize = 0;
    while i < v.len()
        invariant
            i <= v@.len(),
            r@ == v@.subrange(0, i as int),
        decreases v@.len() - i,
    {
        r.push(v[i]);
        i += 1;
        assert(r@ =~= v@.subrange(0, i as int));
    }
    assert(r@ =~= v@);
    r
}

/// Drops the side windows that no longer exist from the current workspace,
/// laying the side list out again where one was dropped.
pub fn side_windows(state: &mut State, world: &World, actions: &mut Vec<Action>)
    requires
        old(state).wf(),
    ensures
        final(state).wf(),
        only_ws_changed(*old(state), *final(state)),
        final(state).ws().main_window == old(state).ws().main_window,
        final(state).ws().help_window == old(state).ws().help_window,
        final(state).ws().fullscreen == old(state).ws().fullscreen,
        final(state).ws().side_windows@ == live_sides(old(state).ws().side_windows@, world),
        !has_dead_side(old(state).ws().side_windows@, world) ==> {
            &&& *final(state) == *old(state)
            &&& final(actions)@ == old(actions)@
        },
        has_dead_side(old(state).ws().side_windows@, world) ==> {
            &&& final(state).ws().floatings@ == focused_floats(
                old(state).ws().floatings@,
                old(state).ws().main_window,
                world,
            )
            &&& hint_map(final(state).ws().key_hint_windows@) == audited(
                *final(state),
                hint_map(old(state).ws().key_hint_windows@),
            )
            &&& !has_dead(old(state).ws().floatings@, world) ==> final(actions)@ == old(actions)@ + layout_acts(
                *final(state),
                old(state).ws().main_window,
                hint_map(old(state).ws().key_hint_windows@),
                world,
            )
        },
        extends(old(actions)@, final(actions)@),
        has_dead_side(old(state).ws().side_windows@, world) ==> final(actions)@ == old(actions)@ + layout_rec(
            frame_in(*old(state), live_sides(old(state).ws().side_windows@, world)),
            old(state).ws().main_window,
            old(state).ws().floatings@,
            hint_map(old(state).ws().key_hint_windows@),
            world,
        ),
{
    let ghost a = *state;
    let ghost acts0 = actions@;
    let cm = state.current_monitor;
    let cw = state.current_workspace;
    let orig = copy_sides(&state.monitors[cm].workspaces[cw].side_windows);
    let mut change = false;
    let mut i: usize = 0;
    proof {
        assert(orig@.subrange(0, 0) =~= Seq::<Option<Window>>::empty());
        assert(orig@.subrange(0, orig@.len() as int) =~= orig@);
        assert(Seq::<Option<Window>>::empty() + orig@ =~= orig@);
        assert(only_ws_changed(a, *state));
        lemma_extends_refl(acts0);
    }
    while i < orig.len()
        invariant
            a == *old(state),
            a.wf(),
            state.wf(),
            cm == state.current_monitor,
            cw == state.current_workspace,
            orig@ == a.ws().side_windows@,
            i <= orig@.len(),
            only_ws_changed(a, *state),
            state.ws().main_window == a.ws().main_window,
            state.ws().help_window == a.ws().help_window,
            state.ws().fullscreen == a.ws().fullscreen,
            state.ws().floatings@ == a.ws().floatings@,
            state.ws().key_hint_windows@ == a.ws().key_hint_windows@,
            state.ws().side_windows@ == live_sides(orig@.subrange(0, i as int), world) + orig@.subrange(
                i as int,
                orig@.len() as int,
            ),
            change == has_dead_side(orig@.subrange(0, i as int), world),
            !change ==> *state == a,
            actions@ == acts0,
        decreases orig@.len() - i,
    {
        let ghost s0 = *state;
        let ghost p = live_sides(orig@.subrange(0, i as int), world);
        let ghost q = orig@.subrange(i as int, orig@.len() as int);
        proof {
            assert(orig@.subrange(0, i + 1).drop_last() =~= orig@.subrange(0, i as int));
            assert(orig@.subrange(0, i + 1).last() == orig@[i as int]);
            assert(orig@[i as int] is Some);
            assert(has_dead_side(orig@.subrange(0, i + 1), world) <==> (has_dead_side(orig@.subrange(0, i as int), world) || !exists_in(world, orig@[i as int].unwrap()))) by {
                let pp = orig@.subrange(0, i as int);
                let qq = orig@.subrange(0, i + 1);
                if has_dead_side(qq, world) {
                    let k = choose|k: int| 0 <= k < qq.len() && !((#[trigger] qq[k]) is Some && exists_in(world, qq[k].unwrap()));
                    if k < i {
                        assert(pp[k] == qq[k]);
                    }
                }
                if has_dead_side(pp, world) {
                    let k = choose|k: int| 0 <= k < pp.len() && !((#[trigger] pp[k]) is Some && exists_in(world, pp[k].unwrap()));
                    assert(qq[k] == pp[k]);
                }
                assert(qq[i as int] == orig@[i as int]);
            }
        }
        match orig[i] {
            Some(w) => {
                if !window_exists(world, w) {
                    let r = remove_side_window(state, w);
                    proof {
                        let cur = s0.ws().side_windows@;
                        assert(cur[p.len() as int] == Some(w));
                        match r {
                            Some(k) => {
                                assert(sides_wf(cur));
                                assert(k as int == p.len());
                                assert(cur.remove(k as int) =~= p + orig@.subrange(i + 1, orig@.len() as int));
                            },
                            None => {
                                assert(cur.contains(Some(w)));
                            },
                        }
                        lemma_only_ws_changed_trans(a, s0, *state);
                    }
                    change = true;
                } else {
                    proof {
                        assert(p + q =~= p.push(Some(w)) + orig@.subrange(i + 1, orig@.len() as int));
                    }
                }
            },
            None => {},
        }
        i += 1;
    }
    proof {
        assert(orig@.subrange(0, i as int) =~= orig@);
        assert(state.ws().side_windows@ =~= live_sides(orig@, world));
    }
    if change {
        let ghost mid = *state;
        layout_side_space(state, world, actions);
        proof {
            lemma_frame_in(a, mid);
            lemma_only_ws_changed_trans(a, mid, *state);
            if !has_dead(a.ws().floatings@, world) {
                crate::model::lemma_live_only_all_live(a.ws().floatings@, world);
                crate::windows::layout::lemma_layout_acts_same(mid, *state, a.ws().main_window, hint_map(a.ws().key_hint_windows@), world);
            }
        }
    }
}

/// The main window of the state's current workspace no longer exists.
pub open spec fn dead_main(st: State, world: &World) -> bool {
    st.ws().main_window is Some && !exists_in(world, st.ws().main_window.unwrap())
}

/// The requests of bringing the current workspace in step with the server:
/// where the main window is gone, the side list without its gone windows is
/// laid out (with no main window) if any was dropped, then its first window
/// takes the main area; where only side windows are gone, the side list
/// without them is laid out again with the main window.
pub open spec fn settle_acts(st: State, world: &World) -> Seq<Action> {
    let l = live_sides(st.ws().side_windows@, world);
    let m0 = hint_map(st.ws().key_hint_windows@);
    if dead_main(st, world) {
        (if has_dead_side(st.ws().side_windows@, world) {
            layout_acts_in(st, l, None, m0, world)
        } else {
            Seq::empty()
        }) + if l.len() > 0 {
            fill_acts(st, l[0].unwrap(), l.len() as int, world)
        } else {
            Seq::empty()
        }
    } else if has_dead_side(st.ws().side_windows@, world) {
        layout_acts_in(st, l, st.ws().main_window, m0, world)
    } else {
        Seq::empty()
    }
}

/// The requests of bringing the current workspace in step with the server,
/// whatever floating windows are gone: where the main window is gone, the
/// side list without its gone windows is laid out (with no main window) if
/// any was dropped, then its first window takes the main area; where only
/// side windows are gone, the side list without them is laid out again with
/// the main window.
pub open spec fn settle_rec(st: State, world: &World) -> Seq<Action> {
    settle_with(
        st,
        st.ws().main_window,
        st.ws().side_windows@,
        st.ws().floatings@,
        hint_map(st.ws().key_hint_windows@),
        world,
    )
}

/// The requests of bringing in step with the server a current workspace
/// with main window `main`, side list `side`, floating list `fl` and key
/// hint map `m0`, laid out on the state `st` (see `settle_rec`).
pub open spec fn settle_with(
    st: State,
    main: Option<Window>,
    side: Seq<Option<Window>>,
    fl: Seq<Window>,
    m0: Map<Seq<char>, Window>,
    world: &World,
) -> Seq<Action> {
    let l = live_sides(side, world);
    let f = frame_in(st, l);
    if main is Some && !exists_in(world, main.unwrap()) {
        (if has_dead_side(side, world) {
            layout_rec(f, None, fl, m0, world)
        } else {
            Seq::empty()
        }) + if l.len() > 0 {
            fill_rec(
                f,
                l[0].unwrap(),
                l.len() as int,
                fl,
                if has_dead_side(side, world) {
                    audit_f(f, m0)
                } else {
                    m0
                },
                world,
            )
        } else {
            Seq::empty()
        }
    } else if has_dead_side(side, world) {
        layout_rec(f, main, fl, m0, world)
    } else {
        Seq::empty()
    }
}

/// Where the main window no longer exists, the first side window that still
/// exists takes its place (or the main area stays empty).
pub fn main_space(state: &mut State, world: &World, actions: &mut Vec<Action>)
    requires
        old(state).wf(),
    ensures
        final(state).wf(),
        only_ws_changed(*old(state), *final(state)),
        final(state).ws().help_window == old(state).ws().help_window,
        final(state).ws().fullscreen == old(state).ws().fullscreen,
        !dead_main(*old(state), world) ==> *final(state) == *old(state) && final(actions)@ == old(actions)@,
        dead_main(*old(state), world) ==> {
            let l = live_sides(old(state).ws().side_windows@, world);
            &&& final(state).ws().main_window == (if l.len() > 0 { l[0] } else { None })
            &&& final(state).ws().side_windows@ == (if l.len() > 0 { l.drop_first() } else { l })
            &&& final(state).ws().floatings@ == (if l.len() > 0 {
                live_only(old(state).ws().floatings@, world)
            } else {
                old(state).ws().floatings@
            })
            &&& !has_dead(old(state).ws().floatings@, world) ==> final(actions)@ == old(actions)@ + settle_acts(
                *old(state),
                world,
            )
            &&& final(actions)@ == old(actions)@ + settle_rec(*old(state), world)
        },
        extends(old(actions)@, final(actions)@),
{
    let ghost a = *state;
    let ghost acts0 = actions@;
    proof {
        lemma_extends_refl(acts0);
    }
    let cm = state.current_monitor;
    let cw = state.current_workspace;
    match state.monitors[cm].workspaces[cw].main_window {
        Some(m) => {
            if !window_exists(world, m) {
                state.monitors[cm].workspaces[cw].main_window = None;
                let ghost s1 = *state;
                proof {
                    assert(only_ws_changed(a, s1));
                    lemma_wf_kept(a, s1);
                }
                side_windows(state, world, actions);
                let ghost s2 = *state;
                let ghost l = live_sides(a.ws().side_windows@, world);
                let ghost acts_s = actions@;
                proof {
                    lemma_frame_in_same(a, s1, l);
                    lemma_frame_in(a, s2);
                    assert(acts_s == acts0 + (if has_dead_side(a.ws().side_windows@, world) {
                        layout_rec(frame_in(a, l), None, a.ws().floatings@, hint_map(a.ws().key_hint_windows@), world)
                    } else {
                        Seq::empty()
                    }));
                    assert(s2.ws().floatings@ == a.ws().floatings@);
                    assert(hint_map(s2.ws().key_hint_windows@) == if has_dead_side(a.ws().side_windows@, world) {
                        audit_f(frame_in(a, l), hint_map(a.ws().key_hint_windows@))
                    } else {
                        hint_map(a.ws().key_hint_windows@)
                    });
                    lemma_only_ws_changed_trans(a, s1, s2);
                    lemma_live_sides_len(a.ws().side_windows@, world);
                    if !has_dead(a.ws().floatings@, world) {
                        assert(s2.ws().floatings@ == a.ws().floatings@);
                        if has_dead_side(a.ws().side_windows@, world) {
                            lemma_layout_acts_in(a, s2, None, hint_map(a.ws().key_hint_windows@), world);
                        }
                        assert(acts_s == acts0 + (if has_dead_side(a.ws().side_windows@, world) {
                            layout_acts_in(a, l, None, hint_map(a.ws().key_hint_windows@), world)
                        } else {
                            Seq::empty()
                        }));
                    }
                }
                if state.monitors[cm].workspaces[cw].side_windows.len() != 0 {
                    match state.monitors[cm].workspaces[cw].side_windows[0] {
                        Some(t) => {
                            proof {
                                lemma_live_sides_live(a.ws().side_windows@, world, 0);
                            }
                            let ghost acts2 = actions@;
                            fill_main_space(state, world, actions, t);
                            let ghost s3 = *state;
                            let r = remove_side_window(state, t);
                            proof {
                                lemma_only_ws_changed_trans(a, s2, s3);
                                lemma_only_ws_changed_trans(a, s3, *state);
                                lemma_extends_push(acts2, crate::windows::tiling::main_configure(s2, t));
                                lemma_extends_trans(acts2, acts2.push(crate::windows::tiling::main_configure(s2, t)), actions@);
                                lemma_extends_trans(acts0, acts2, actions@);
                                assert(s3.ws().side_windows@[0] == Some(t));
                                if !has_dead(a.ws().floatings@, world) {
                                    assert(s2.mon().position == a.mon().position);
                                    assert(s2.mon().sizes == a.mon().sizes);
                                    assert(fill_acts(s2, t, s2.ws().side_windows@.len() as int, world) == fill_acts(
                                        a,
                                        t,
                                        l.len() as int,
                                        world,
                                    ));
                                    assert(actions@ =~= acts0 + settle_acts(a, world));
                                }
                                assert(actions@ =~= acts0 + settle_rec(a, world));
                                match r {
                                    Some(k) => {
                                        assert(sides_wf(s3.ws().side_windows@));
                                        assert(k == 0);
                                        assert(s3.ws().side_windows@.remove(0) =~= l.drop_first());
                                    },
                                    None => {
                                        assert(s3.ws().side_windows@.contains(Some(t)));
                                    },
                                }
                            }
                        },
                        None => {
                            proof {
                                assert(sides_wf(s2.ws().side_windows@));
                            }
                        },
                    }
                }
            }
        },
        None => {},
    }
}

/// The main window and side list once brought in step with the server: the
/// side windows that no longer exist are dropped, and a main window that no
/// longer exists is replaced by the first remaining side window.
pub open spec fn settled_tiling(main: Option<Window>, side: Seq<Option<Window>>, world: &World) -> (
    Option<Window>,
    Seq<Option<Window>>,
) {
    let l = live_sides(side, world);
    if main is Some && !exists_in(world, main.unwrap()) {
        if l.len() > 0 {
            (l[0], l.drop_first())
        } else {
            (None, l)
        }
    } else {
        (main, l)
    }
}

/// Brings the current workspace in step with the server: the main window,
/// then the side windows.
pub fn full(state: &mut State, world: &World, actions: &mut Vec<Action>)
    requires
        old(state).wf(),
    ensures
        final(state).wf(),
        only_ws_changed(*old(state), *final(state)),
        final(state).ws().help_window == old(state).ws().help_window,
        final(state).ws().fullscreen == old(state).ws().fullscreen,
        (final(state).ws().main_window, final(state).ws().side_windows@) == settled_tiling(
            old(state).ws().main_window,
            old(state).ws().side_windows@,
            world,
        ),
        final(state).ws().floatings@ == (if (dead_main(*old(state), world) && live_sides(old(state).ws().side_windows@, world).len() > 0)
            || (!dead_main(*old(state), world) && has_dead_side(old(state).ws().side_windows@, world)
            && focuses(*old(state), world)) {
            live_only(old(state).ws().floatings@, world)
        } else {
            old(state).ws().floatings@
        }),
        extends(old(actions)@, final(actions)@),
        !dead_main(*final(state), world) && !has_dead_side(final(state).ws().side_windows@, world),
        !dead_main(*old(state), world) && !has_dead_side(old(state).ws().side_windows@, world) ==> *final(state)
            == *old(state) && final(actions)@ == old(actions)@,
        !has_dead(old(state).ws().floatings@, world) ==> final(actions)@ == old(actions)@ + settle_acts(
            *old(state),
            world,
        ),
        final(actions)@ == old(actions)@ + settle_rec(*old(state), world),
{
    let ghost a = *state;
    let ghost acts0 = actions@;
    main_space(state, world, actions);
    let ghost s1 = *state;
    let ghost acts1 = actions@;
    proof {
        let l = live_sides(a.ws().side_windows@, world);
        if dead_main(a, world) {
            assert(!has_dead_side(s1.ws().side_windows@, world)) by {
                let t = s1.ws().side_windows@;
                if has_dead_side(t, world) {
                    let k = choose|k: int| 0 <= k < t.len() && !((#[trigger] t[k]) is Some && exists_in(world, t[k].unwrap()));
                    if l.len() > 0 {
                        assert(t[k] == l[k + 1]);
                        lemma_live_sides_live(a.ws().side_windows@, world, k + 1);
                    } else {
                        assert(false);
                    }
                }
            }
            lemma_live_sides_all_live(s1.ws().side_windows@, world);
        }
    }
    side_windows(state, world, actions);
    proof {
        crate::laws::law_settled_all_exist(a.ws().main_window, a.ws().side_windows@, world);
        let t = state.ws().side_windows@;
        assert(!has_dead_side(t, world)) by {
            if has_dead_side(t, world) {
                let q = choose|q: int| 0 <= q < t.len() && !((#[trigger] t[q]) is Some && exists_in(world, t[q].unwrap()));
            }
        }
        lemma_only_ws_changed_trans(a, s1, *state);
        lemma_extends_trans(acts0, acts1, actions@);
        if !has_dead(a.ws().floatings@, world) && !dead_main(a, world) && has_dead_side(a.ws().side_windows@, world) {
            crate::model::lemma_live_only_all_live(a.ws().floatings@, world);
            assert(state.ws().floatings@ == a.ws().floatings@);
            lemma_layout_acts_in(a, *state, a.ws().main_window, hint_map(a.ws().key_hint_windows@), world);
        }
    }
}

spec fn workspace_wf_of(st: State) -> bool {
    crate::state::workspace_wf(st.ws())
}

} // verus!
