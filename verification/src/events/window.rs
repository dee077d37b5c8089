//! Windows that ask to be mapped, and windows that are gone.
use vstd::prelude::*;
use vstd::string::*;
use crate::actions::{Action, Allow, extends, lemma_extends_push, lemma_extends_trans, lemma_extends_refl};
use crate::model::{hint_map, find_hint, lemma_hint_map_dom, lemma_hint_map_push, lemma_hint_map_set, lemma_hint_map_index, sent_sides, without};
use crate::safety::{World, exists_in, window_exists};
use crate::state::{State, Window, Workspace, only_ws_changed, lemma_wf_kept, lemma_only_ws_changed_trans, ws_at};
use crate::windows::checks::{is_help_window, is_excepted_window, name_has, spec_excepted};
use crate::windows::gets::{key_hint_window, spec_key_hint_key, name_view};
use crate::windows::layout::{layout_side_space, center_window, audited, focused_floats};
use crate::windows::tiling::{fill_main_space, send_side_space, same_tiling, focus_main, remove_floating, remove_side_window, fill_acts};
use crate::windows::layout::{layout_acts, layout_rec, fill_rec, focus_rec, frame, audit_f};
use crate::model::has_dead;

verus! {

/// What kind of window asks to be mapped, by the order in which it is tested.
pub enum MapKind {
    /// It does not exist.
    Gone,
    /// A key hint window for the key.
    KeyHint(Seq<char>),
    Help,
    Excepted,
    Popup,
    Tiled,
}

/// How a window that asks to be mapped is handled.
pub open spec fn map_kind(settings: crate::settings::Settings, world: &World, window: Window, name: Option<Seq<char>>, popup: bool) -> MapKind {
    if !exists_in(world, window) {
        MapKind::Gone
    } else if spec_key_hint_key(name) is Some {
        MapKind::KeyHint(spec_key_hint_key(name).unwrap())
    } else if name_has(name, "pfwm help"@) {
        MapKind::Help
    } else if spec_excepted(settings, name) {
        MapKind::Excepted
    } else if popup {
        MapKind::Popup
    } else {
        MapKind::Tiled
    }
}

/// Handles a key hint window for `key` that asks to be mapped: it becomes
/// the key's hint window (destroying the key's earlier hint window where that
/// one still exists) and the side list is laid out again.
fn map_key_hint(state: &mut State, world: &World, actions: &mut Vec<Action>, window: Window, key: String)
    requires
        old(state).wf(),
    ensures
        final(state).wf(),
        only_ws_changed(*old(state), *final(state)),
        same_tiling(old(state).ws(), final(state).ws()),
        final(state).ws().floatings@ == focused_floats(old(state).ws().floatings@, old(state).ws().main_window, world),
        hint_map(final(state).ws().key_hint_windows@) == audited(
            *old(state),
            hint_map(old(state).ws().key_hint_windows@).insert(key@, window),
        ),
        extends(old(actions)@, final(actions)@),
        ({
            let m0 = hint_map(old(state).ws().key_hint_windows@);
            let d = if m0.dom().contains(key@) && m0[key@] != window && exists_in(world, m0[key@]) {
                seq![Action::Destroy(m0[key@])]
            } else {
                Seq::empty()
            };
            &&& final(actions)@ == old(actions)@ + d + layout_rec(
                frame(*old(state)),
                old(state).ws().main_window,
                old(state).ws().floatings@,
                m0.insert(key@, window),
                world,
            )
            &&& !has_dead(old(state).ws().floatings@, world) ==> final(actions)@ == old(actions)@ + d + layout_acts(
                *final(state),
                old(state).ws().main_window,
                m0.insert(key@, window),
                world,
            )
        }),
{
    let ghost a = *state;
    let ghost acts0 = actions@;
    let ghost acts1 = actions@;
    proof { lemma_extends_refl(acts0); }
    let cm = state.current_monitor;
    let cw = state.current_workspace;
        let found = find_hint(&state.monitors[cm].workspaces[cw].key_hint_windows, key.as_str());
        match found {
            Some(j) => {
                let old_key = state.monitors[cm].workspaces[cw].key_hint_windows[j].1;
                proof {
                    lemma_hint_map_set(a.ws().key_hint_windows@, j as int, window);
                    lemma_hint_map_index(a.ws().key_hint_windows@, j as int);
                }
                state.monitors[cm].workspaces[cw].key_hint_windows[j].1 = window;
                proof {
                    assert(state.ws().key_hint_windows@ =~= a.ws().key_hint_windows@.update(j as int, (a.ws().key_hint_windows@[j as int].0, window)));
                    assert(only_ws_changed(a, *state));
                    lemma_wf_kept(a, *state);
                }
                if old_key != window && window_exists(world, old_key) {
                    actions.push(Action::Destroy(old_key));
                    proof {
                        lemma_extends_push(acts1, Action::Destroy(old_key));
                    }
                } else {
                    proof { lemma_extends_refl(acts1); }
                }
            },
            None => {
                proof {
                    lemma_hint_map_dom(a.ws().key_hint_windows@, key@);
                    lemma_hint_map_push(a.ws().key_hint_windows@, (key, window));
                }
                state.monitors[cm].workspaces[cw].key_hint_windows.push((key, window));
                proof {
                    assert(only_ws_changed(a, *state));
                    lemma_wf_kept(a, *state);
                    lemma_extends_refl(acts1);
                }
            },
        }
        let ghost s1 = *state;
        let ghost acts2 = actions@;
        layout_side_space(state, world, actions);
        proof {
            crate::windows::layout::lemma_frame_same(a, s1);
            lemma_only_ws_changed_trans(a, s1, *state);
            lemma_extends_trans(acts1, acts2, actions@);
            lemma_extends_trans(acts0, acts1, actions@);
            if !has_dead(a.ws().floatings@, world) {
                crate::model::lemma_live_only_all_live(a.ws().floatings@, world);
                crate::windows::layout::lemma_layout_acts_same(s1, *state, a.ws().main_window, hint_map(s1.ws().key_hint_windows@), world);
            }
        }
}

/// Handles a window that asks to be mapped and is tiled: it goes to the main
/// area (the old main window going to the side, where new windows go to the
/// main area) or to the end of the side list.
#[verifier::rlimit(60)]
fn map_tiled(state: &mut State, world: &World, actions: &mut Vec<Action>, window: Window)
    requires
        old(state).wf(),
        exists_in(world, window),
    ensures
        final(state).wf(),
        only_ws_changed(*old(state), *final(state)),
        extends(old(actions)@, final(actions)@),
        ({
            let a = *old(state);
            let b = *final(state);
            let w0 = a.ws();
            let w1 = b.ws();
            &&& final(actions)@ == old(actions)@ + match w0.main_window {
                Some(m) => if a.settings.layout.new_to_main {
                    layout_rec(frame(b), Some(m), w0.floatings@, hint_map(w0.key_hint_windows@), world) + fill_rec(
                        frame(b),
                        window,
                        w1.side_windows@.len() as int,
                        focused_floats(w0.floatings@, Some(m), world),
                        audit_f(frame(b), hint_map(w0.key_hint_windows@)),
                        world,
                    )
                } else {
                    layout_rec(frame(b), Some(m), w0.floatings@, hint_map(w0.key_hint_windows@), world)
                },
                None => fill_rec(frame(a), window, w0.side_windows@.len() as int, w0.floatings@, hint_map(w0.key_hint_windows@), world),
            }
            &&& w1.help_window == w0.help_window
            &&& w1.fullscreen == w0.fullscreen
            &&& w1.floatings@ == (if w0.main_window is None || a.settings.layout.new_to_main {
                crate::model::live_only(w0.floatings@, world)
            } else {
                focused_floats(w0.floatings@, w0.main_window, world)
            })
            &&& match w0.main_window {
                Some(m) => if a.settings.layout.new_to_main {
                    w1.main_window == Some(window) && w1.side_windows@ == sent_sides(w0.side_windows@, m, None)
                } else {
                    w1.main_window == Some(m) && w1.side_windows@ == sent_sides(w0.side_windows@, window, None)
                },
                None => w1.main_window == Some(window) && w1.side_windows@ == w0.side_windows@,
            }
            &&& !has_dead(w0.floatings@, world) ==> final(actions)@ == old(actions)@ + match w0.main_window {
                Some(m) => if a.settings.layout.new_to_main {
                    layout_acts(b, Some(m), hint_map(w0.key_hint_windows@), world) + fill_acts(
                        b,
                        window,
                        w1.side_windows@.len() as int,
                        world,
                    )
                } else {
                    layout_acts(b, Some(m), hint_map(w0.key_hint_windows@), world)
                },
                None => fill_acts(a, window, w0.side_windows@.len() as int, world),
            }
        }),
{
    let ghost a = *state;
    let ghost acts1 = actions@;
    let cm = state.current_monitor;
    let cw = state.current_workspace;
    match state.monitors[cm].workspaces[cw].main_window {
        Some(main) => {
            if state.settings.layout.new_to_main {
                send_side_space(state, world, actions, main, None);
                let ghost s1 = *state;
                let ghost acts2 = actions@;
                fill_main_space(state, world, actions, window);
                proof {
                    crate::model::lemma_live_only_idem(a.ws().floatings@, world);
                    crate::windows::layout::lemma_frame_same(s1, *state);
                    crate::windows::layout::lemma_frame_reads(s1, window, 0, hint_map(a.ws().key_hint_windows@));
                    assert(acts2 == acts1 + layout_rec(frame(*state), Some(main), a.ws().floatings@, hint_map(a.ws().key_hint_windows@), world));
                    assert(actions@ =~= acts1 + (layout_rec(frame(*state), Some(main), a.ws().floatings@, hint_map(a.ws().key_hint_windows@), world) + fill_rec(
                        frame(*state),
                        window,
                        state.ws().side_windows@.len() as int,
                        focused_floats(a.ws().floatings@, Some(main), world),
                        audit_f(frame(*state), hint_map(a.ws().key_hint_windows@)),
                        world,
                    )));
                    if !has_dead(a.ws().floatings@, world) {
                        crate::model::lemma_live_only_all_live(a.ws().floatings@, world);
                        crate::windows::layout::lemma_layout_acts_same(s1, *state, Some(main), hint_map(a.ws().key_hint_windows@), world);
                        assert(fill_acts(s1, window, s1.ws().side_windows@.len() as int, world)
                            == fill_acts(*state, window, state.ws().side_windows@.len() as int, world)) by {
                            assert(s1.monitors@[s1.current_monitor as int].sizes == state.monitors@[state.current_monitor as int].sizes);
                        }
                    }
                    lemma_only_ws_changed_trans(a, s1, *state);
                    let c = crate::windows::tiling::main_configure(s1, window);
                    lemma_extends_push(acts2, c);
                    lemma_extends_trans(acts2, acts2.push(c), actions@);
                    lemma_extends_trans(acts1, acts2, actions@);
                }
            } else {
                send_side_space(state, world, actions, window, None);
            }
        },
        None => {
            fill_main_space(state, world, actions, window);
            proof {
                let c = crate::windows::tiling::main_configure(a, window);
                lemma_extends_push(acts1, c);
                lemma_extends_trans(acts1, acts1.push(c), actions@);
            }
        },
    }
}

/// Handles a request to map `window`, named `name` (where it has a name), that
/// `popup` tells is a pop-up.  A key hint takes its key's place, the help
/// window is focused, excluded windows are only mapped, pop-ups float
/// centered, and any other window goes to the main area (the old main window
/// going to the side, where new windows go to the main area) or to the side.
#[verifier::rlimit(100)]
#[verifier::spinoff_prover]
pub fn map_request(
    state: &mut State,
    world: &World,
    actions: &mut Vec<Action>,
    window: Window,
    name: &Option<String>,
    popup: bool,
)
    requires
        old(state).wf(),
    ensures
        only_ws_changed(*old(state), *final(state)),
        extends(old(actions)@, final(actions)@),
        ({
            let a = *old(state);
            let b = *final(state);
            let w0 = a.ws();
            let w1 = b.ws();
            match map_kind(a.settings, world, window, name_view(name), popup) {
                MapKind::Gone => b == a && final(actions)@ == old(actions)@.push(Action::AllowEvents(Allow::AsyncBoth)),
                MapKind::KeyHint(k) => {
                    &&& b.wf()
                    &&& final(actions)@.len() > old(actions)@.len()
                    &&& final(actions)@[old(actions)@.len() as int] == Action::MapWindow(window)
                    &&& {
                        let m0 = hint_map(w0.key_hint_windows@);
                        final(actions)@ == old(actions)@ + seq![Action::MapWindow(window)] + (if m0.dom().contains(k)
                            && m0[k] != window && exists_in(world, m0[k]) {
                            seq![Action::Destroy(m0[k])]
                        } else {
                            Seq::empty()
                        }) + layout_rec(frame(a), w0.main_window, w0.floatings@, m0.insert(k, window), world)
                    }
                    &&& same_tiling(w0, w1)
                    &&& w1.floatings@ == focused_floats(w0.floatings@, w0.main_window, world)
                    &&& hint_map(w1.key_hint_windows@) == audited(a, hint_map(w0.key_hint_windows@).insert(k, window))
                    &&& !has_dead(w0.floatings@, world) ==> {
                        let m0 = hint_map(w0.key_hint_windows@);
                        final(actions)@ == old(actions)@ + seq![Action::MapWindow(window)] + (if m0.dom().contains(k)
                            && m0[k] != window && exists_in(world, m0[k]) {
                            seq![Action::Destroy(m0[k])]
                        } else {
                            Seq::empty()
                        }) + layout_acts(b, w0.main_window, m0.insert(k, window), world)
                    }
                },
                MapKind::Help => {
                    &&& b.wf()
                    &&& final(actions)@ == old(actions)@ + seq![Action::MapWindow(window), Action::SetActive(window)]
                    &&& w1.help_window == Some(window)
                    &&& w1.main_window == w0.main_window
                    &&& w1.side_windows@ == w0.side_windows@
                    &&& w1.floatings@ == w0.floatings@
                    &&& w1.key_hint_windows@ == w0.key_hint_windows@
                    &&& w1.fullscreen == w0.fullscreen
                },
                MapKind::Excepted => b == a && final(actions)@ == old(actions)@.push(Action::MapWindow(window)),
                MapKind::Popup => {
                    &&& b.wf()
                    &&& final(actions)@ == old(actions)@ + seq![
                        Action::MapWindow(window),
                        Action::Center {
                            window,
                            x: a.mon().position.0,
                            y: a.mon().position.1,
                            width: a.mon().sizes.screen.0,
                            height: a.mon().sizes.screen.1,
                        },
                    ]
                    &&& same_tiling(w0, w1)
                    &&& w1.key_hint_windows@ == w0.key_hint_windows@
                    &&& w1.floatings@ == w0.floatings@.push(window)
                },
                MapKind::Tiled => {
                    &&& b.wf()
                    &&& final(actions)@.len() > old(actions)@.len()
                    &&& final(actions)@[old(actions)@.len() as int] == Action::MapWindow(window)
                    &&& final(actions)@ == old(actions)@ + seq![Action::MapWindow(window)] + match w0.main_window {
                        Some(m) => if a.settings.layout.new_to_main {
                            layout_rec(frame(b), Some(m), w0.floatings@, hint_map(w0.key_hint_windows@), world) + fill_rec(
                                frame(b),
                                window,
                                w1.side_windows@.len() as int,
                                focused_floats(w0.floatings@, Some(m), world),
                                audit_f(frame(b), hint_map(w0.key_hint_windows@)),
                                world,
                            )
                        } else {
                            layout_rec(frame(b), Some(m), w0.floatings@, hint_map(w0.key_hint_windows@), world)
                        },
                        None => fill_rec(frame(a), window, w0.side_windows@.len() as int, w0.floatings@, hint_map(w0.key_hint_windows@), world),
                    }
                    &&& w1.help_window == w0.help_window
                    &&& w1.fullscreen == w0.fullscreen
                    &&& w1.floatings@ == (if w0.main_window is None || a.settings.layout.new_to_main {
                        crate::model::live_only(w0.floatings@, world)
                    } else {
                        focused_floats(w0.floatings@, w0.main_window, world)
                    })
                    &&& match w0.main_window {
                        Some(m) => if a.settings.layout.new_to_main {
                            w1.main_window == Some(window) && w1.side_windows@ == sent_sides(w0.side_windows@, m, None)
                        } else {
                            w1.main_window == Some(m) && w1.side_windows@ == sent_sides(w0.side_windows@, window, None)
                        },
                        None => w1.main_window == Some(window) && w1.side_windows@ == w0.side_windows@,
                    }
                    &&& !has_dead(w0.floatings@, world) ==> final(actions)@ == old(actions)@ + seq![
                        Action::MapWindow(window),
                    ] + match w0.main_window {
                        Some(m) => if a.settings.layout.new_to_main {
                            layout_acts(b, Some(m), hint_map(w0.key_hint_windows@), world) + fill_acts(
                                b,
                                window,
                                w1.side_windows@.len() as int,
                                world,
                            )
                        } else {
                            layout_acts(b, Some(m), hint_map(w0.key_hint_windows@), world)
                        },
                        None => fill_acts(a, window, w0.side_windows@.len() as int, world),
                    }
                },
            }
        }),
{
    let ghost a = *state;
    let ghost acts0 = actions@;
    if !window_exists(world, window) {
        actions.push(Action::AllowEvents(Allow::AsyncBoth));
        proof {
            lemma_extends_push(acts0, Action::AllowEvents(Allow::AsyncBoth));
        }
        return;
    }
    actions.push(Action::MapWindow(window));
    let ghost acts1 = actions@;
    proof {
        lemma_extends_push(acts0, Action::MapWindow(window));
    }
    let cm = state.current_monitor;
    let cw = state.current_workspace;
    match key_hint_window(name) {
        Some(key) => {
            map_key_hint(state, world, actions, window, key);
            proof {
                lemma_extends_trans(acts0, acts1, actions@);
                crate::actions::lemma_extends_index(acts1, actions@, acts0.len() as int);
                let m0 = hint_map(a.ws().key_hint_windows@);
                let d = if m0.dom().contains(key@) && m0[key@] != window && exists_in(world, m0[key@]) {
                    seq![Action::Destroy(m0[key@])]
                } else {
                    Seq::empty()
                };
                assert(actions@ =~= acts0 + seq![Action::MapWindow(window)] + d + layout_rec(
                    frame(a),
                    a.ws().main_window,
                    a.ws().floatings@,
                    m0.insert(key@, window),
                    world,
                ));
                if !has_dead(a.ws().floatings@, world) {
                    assert(actions@ =~= acts0 + seq![Action::MapWindow(window)] + d + layout_acts(
                        *state,
                        a.ws().main_window,
                        m0.insert(key@, window),
                        world,
                    ));
                }
            }
            return;
        },
        None => {},
    }
    if is_help_window(name) {
        actions.push(Action::SetActive(window));
        state.monitors[cm].workspaces[cw].help_window = Some(window);
        proof {
            assert(only_ws_changed(a, *state));
            lemma_wf_kept(a, *state);
            assert(actions@ =~= acts0 + seq![Action::MapWindow(window), Action::SetActive(window)]);
            lemma_extends_push(acts1, Action::SetActive(window));
            lemma_extends_trans(acts0, acts1, actions@);
        }
        return;
    }
    if is_excepted_window(&state.settings, name) {
        return;
    }
    if popup {
        state.monitors[cm].workspaces[cw].floatings.push(window);
        let ghost s1 = *state;
        proof {
            assert(only_ws_changed(a, s1));
            lemma_wf_kept(a, s1);
        }
        center_window_of(state, actions, window);
        proof {
            assert(actions@ =~= acts0 + seq![
                Action::MapWindow(window),
                Action::Center {
                    window,
                    x: a.mon().position.0,
                    y: a.mon().position.1,
                    width: a.mon().sizes.screen.0,
                    height: a.mon().sizes.screen.1,
                },
            ]);
            assert(actions@.subrange(0, acts0.len() as int) =~= acts0);
        }
        return;
    }
    map_tiled(state, world, actions, window);
    proof {
        assert(actions@.len() > acts0.len());
    }
    proof {
        lemma_extends_trans(acts0, acts1, actions@);
        crate::actions::lemma_extends_index(acts1, actions@, acts0.len() as int);
    }
}

/// The main window and side list of a workspace after `window` is gone: a
/// gone main window is replaced by the first side window (or none), a gone
/// side window leaves the side list; a workspace without a main window is
/// left alone.
pub open spec fn destroyed_tiling(ws: Workspace, window: Window) -> (Option<Window>, Seq<Option<Window>>) {
    match ws.main_window {
        Some(m) => if m == window {
            if ws.side_windows@.len() > 0 {
                (ws.side_windows@[0], ws.side_windows@.remove(0))
            } else {
                (None, ws.side_windows@)
            }
        } else {
            (Some(m), crate::model::side_without(ws.side_windows@, window))
        },
        None => (None, ws.side_windows@),
    }
}

/// The tiling part of a gone window's handling for workspace `i` of the
/// current monitor: where it was that workspace's main window, the first
/// side window takes the main area (or the main area is left empty), else
/// it is dropped from the side list.
fn destroy_tiled(state: &mut State, world: &World, actions: &mut Vec<Action>, window: Window, i: usize)
    requires
        old(state).wf(),
        i < old(state).mon().workspaces@.len(),
    ensures
        final(state).wf(),
        crate::state::only_monitor_changed(*old(state), *final(state)),
        forall|j: int|
            0 <= j < old(state).mon().workspaces@.len() && j != i ==> #[trigger] final(state).mon().workspaces@[j]
                == old(state).mon().workspaces@[j],
        ({
            let w0 = old(state).mon().workspaces@[i as int];
            let w1 = final(state).mon().workspaces@[i as int];
            &&& (w1.main_window, w1.side_windows@) == destroyed_tiling(w0, window)
            &&& w1.help_window == w0.help_window
            &&& w1.fullscreen == w0.fullscreen
            &&& !has_dead(w0.floatings@, world) ==> {
                &&& w1.floatings@ == w0.floatings@
                &&& hint_map(w1.key_hint_windows@) == hint_map(w0.key_hint_windows@)
                &&& final(actions)@ == old(actions)@ + destroy_fill(*old(state), window, world, i as int)
            }
            &&& (w1.floatings@, hint_map(w1.key_hint_windows@)) == ws_after(*old(state), window, world, i as int)
            &&& final(actions)@ == old(actions)@ + destroy_fill_rec(*old(state), window, world, i as int)
        }),
        extends(old(actions)@, final(actions)@),
{
    let ghost s0 = *state;
    let ghost acts_i = actions@;
    let cm = state.current_monitor;
    let home = state.current_workspace;
    let nws = state.monitors[cm].workspaces.len();
    state.current_workspace = i;
    let ghost s1 = *state;
    proof {
        assert(s1.wf()) by {
            assert forall|mm: int, ww: int| 0 <= mm < s1.monitors@.len() && 0 <= ww < s1.nws() implies
                crate::state::workspace_wf(#[trigger] ws_at(s1, mm, ww)) by {
                assert(ws_at(s1, mm, ww) == ws_at(s0, mm, ww));
            }
        }
        assert(s1.ws() == s0.mon().workspaces@[i as int]);
    }
    match state.monitors[cm].workspaces[i].main_window {
        Some(m) => {
            if window == m {
                if state.monitors[cm].workspaces[i].side_windows.len() != 0 {
                    match state.monitors[cm].workspaces[i].side_windows[0] {
                        Some(t) => {
                            if state.current_workspace == i {
                                let r = remove_side_window(state, t);
                                let ghost s2 = *state;
                                let ghost acts2 = actions@;
                                fill_main_space(state, world, actions, t);
                                proof {
                                    lemma_only_ws_changed_trans(s1, s2, *state);
                                    let c = crate::windows::tiling::main_configure(s2, t);
                                    lemma_extends_push(acts2, c);
                                    lemma_extends_trans(acts2, acts2.push(c), actions@);
                                    lemma_extends_refl(acts_i);
                                    lemma_extends_trans(acts_i, acts2, actions@);
                                    assert(s1.ws().side_windows@[0] == Some(t));
                                    match r {
                                        Some(k) => {
                                            assert(crate::state::sides_wf(s1.ws().side_windows@));
                                            assert(k == 0);
                                            assert(s1 == State { current_workspace: i, ..s0 });
                                            crate::windows::layout::lemma_frame_in(s1, s2);
                                            crate::windows::layout::lemma_frame_reads(s2, t, 0, hint_map(s1.ws().key_hint_windows@));
                                            assert(frame(s2) == destroy_frame_of(s0, i as int));
                                        },
                                        None => {
                                            assert(s1.ws().side_windows@.contains(Some(t)));
                                        },
                                    }
                                }
                            }
                        },
                        None => {
                            proof {
                                assert(crate::state::sides_wf(s1.ws().side_windows@));
                            }
                        },
                    }
                } else {
                    state.monitors[cm].workspaces[i].main_window = None;
                    proof {
                        assert(only_ws_changed(s1, *state));
                        lemma_wf_kept(s1, *state);
                        lemma_extends_refl(actions@);
                    }
                }
            } else {
                let r = remove_side_window(state, window);
                proof { lemma_extends_refl(actions@); }
            }
        },
        None => {
            proof {
                assert(only_ws_changed(s1, *state));
                lemma_extends_refl(actions@);
            }
        },
    }
    let ghost s3 = *state;
    state.current_workspace = home;
    proof {
        let s4 = *state;
        assert(s4.mon().workspaces@[i as int] == s3.ws());
        if !has_dead(s0.mon().workspaces@[i as int].floatings@, world) {
            crate::model::lemma_live_only_all_live(s1.ws().floatings@, world);
            assert(s3.ws().floatings@ == s1.ws().floatings@);
            assert(hint_map(s3.ws().key_hint_windows@) == hint_map(s1.ws().key_hint_windows@));
            assert(actions@ == acts_i + destroy_fill(s0, window, world, i as int));
        }
        assert forall|j: int| 0 <= j < nws && j != i implies #[trigger] s4.mon().workspaces@[j] == s0.mon().workspaces@[j] by {
            assert(s1.mon().workspaces@.len() == nws);
            assert(ws_at(s3, cm as int, j) == ws_at(s1, cm as int, j));
        }
        assert(crate::state::only_monitor_changed(s0, s4)) by {
            assert forall|mm: int, ww: int|
                0 <= mm < s0.monitors@.len() && 0 <= ww < s0.monitors@[mm].workspaces@.len() && mm
                    != s0.current_monitor implies #[trigger] ws_at(s4, mm, ww) == ws_at(s0, mm, ww) by {
                assert(s1.monitors@[mm].workspaces@.len() == s0.monitors@[mm].workspaces@.len());
                assert(ws_at(s3, mm, ww) == ws_at(s1, mm, ww));
                assert(ws_at(s1, mm, ww) == ws_at(s0, mm, ww));
            }
        }
        assert(s4.wf()) by {
            assert forall|mm: int, ww: int| 0 <= mm < s4.monitors@.len() && 0 <= ww < s4.nws() implies
                crate::state::workspace_wf(#[trigger] ws_at(s4, mm, ww)) by {
                assert(ws_at(s4, mm, ww) == ws_at(s3, mm, ww));
            }
        }
    }
}

/// Where `window` is the main window of workspace `i` of the current monitor
/// and that workspace has a side window first, so that this one takes the
/// main area when `window` is gone.
pub open spec fn destroy_fills_ws(a: State, window: Window, i: int) -> bool {
    let w0 = a.mon().workspaces@[i];
    w0.main_window == Some(window) && w0.side_windows@.len() > 0 && w0.side_windows@[0] is Some
}

/// The frame of workspace `i` of the current monitor once its first side
/// window has left the side list.
pub open spec fn destroy_frame_of(a: State, i: int) -> (Seq<Action>, Seq<Action>, (i32, i32), crate::state::Sizes, crate::settings::Settings, int) {
    crate::windows::layout::frame_in(State { current_workspace: i as usize, ..a }, a.mon().workspaces@[i].side_windows@.remove(0))
}

/// The requests for workspace `i` of the current monitor when `window` is
/// gone, whatever floating windows are gone: where it was that workspace's
/// main window, its first side window takes the main area.
pub open spec fn destroy_fill_rec(a: State, window: Window, world: &World, i: int) -> Seq<Action> {
    let w0 = a.mon().workspaces@[i];
    if destroy_fills_ws(a, window, i) {
        fill_rec(
            destroy_frame_of(a, i),
            w0.side_windows@[0].unwrap(),
            w0.side_windows@.len() - 1,
            w0.floatings@,
            hint_map(w0.key_hint_windows@),
            world,
        )
    } else {
        Seq::empty()
    }
}

/// The requests for the first `k` workspaces of the current monitor when
/// `window` is gone, whatever floating windows are gone.
pub open spec fn destroy_fills_rec(a: State, window: Window, world: &World, k: int) -> Seq<Action>
    decreases k,
{
    if k <= 0 {
        Seq::empty()
    } else {
        destroy_fills_rec(a, window, world, k - 1) + destroy_fill_rec(a, window, world, k - 1)
    }
}

/// The floating list and key hint map of workspace `i` of the current
/// monitor after `window` is gone and that workspace was gone through.
pub open spec fn ws_after(a: State, window: Window, world: &World, i: int) -> (Seq<Window>, Map<Seq<char>, Window>) {
    let w0 = a.mon().workspaces@[i];
    let m = hint_map(w0.key_hint_windows@);
    if destroy_fills_ws(a, window, i) {
        let t = w0.side_windows@[0].unwrap();
        (
            focused_floats(w0.floatings@, Some(t), world),
            if exists_in(world, t) && has_dead(w0.floatings@, world) {
                audit_f(destroy_frame_of(a, i), m)
            } else {
                m
            },
        )
    } else {
        (w0.floatings@, m)
    }
}

/// The floating list and key hint map of the current workspace when the
/// handling of a gone window comes to its end.
pub open spec fn home_after(a: State, window: Window, world: &World) -> (Seq<Window>, Map<Seq<char>, Window>) {
    if a.current_workspace < destroy_stop(a, window) {
        ws_after(a, window, world, a.current_workspace as int)
    } else {
        (a.ws().floatings@, hint_map(a.ws().key_hint_windows@))
    }
}

/// The requests that close the handling of a gone window, whatever floating
/// windows are gone (see `destroy_tail`).
pub open spec fn destroy_tail_rec(a: State, b: State, window: Window, world: &World) -> Seq<Action> {
    let stop = destroy_stop(a, window);
    let h = home_after(a, window, world);
    if stop < a.mon().workspaces@.len() {
        if a.mon().workspaces@[stop].floatings@.contains(window) {
            focus_rec(frame(b), b.ws().main_window, without(h.0, window), h.1, world)
        } else if stop == a.current_workspace && a.ws().main_window is Some {
            seq![Action::SetActive(a.ws().main_window.unwrap())]
        } else {
            Seq::empty()
        }
    } else {
        layout_rec(frame(b), b.ws().main_window, h.0, h.1, world) + if b.ws().main_window is None {
            seq![Action::SetActive(0)]
        } else {
            Seq::empty()
        }
    }
}

/// No floating window of any workspace of the state's current monitor is gone.
pub open spec fn floats_live(st: State, world: &World) -> bool {
    forall|i: int|
        0 <= i < st.mon().workspaces@.len() ==> !has_dead(#[trigger] st.mon().workspaces@[i].floatings@, world)
}

/// The requests for workspace `i` of the current monitor when `window` is
/// gone: where it was that workspace's main window, its first side window
/// takes the main area.
pub open spec fn destroy_fill(a: State, window: Window, world: &World, i: int) -> Seq<Action> {
    let w0 = a.mon().workspaces@[i];
    if w0.main_window == Some(window) && w0.side_windows@.len() > 0 && w0.side_windows@[0] is Some {
        fill_acts(
            State { current_workspace: i as usize, ..a },
            w0.side_windows@[0].unwrap(),
            w0.side_windows@.len() - 1,
            world,
        )
    } else {
        Seq::empty()
    }
}

/// The requests for the first `k` workspaces of the current monitor when
/// `window` is gone.
pub open spec fn destroy_fills(a: State, window: Window, world: &World, k: int) -> Seq<Action>
    decreases k,
{
    if k <= 0 {
        Seq::empty()
    } else {
        destroy_fills(a, window, world, k - 1) + destroy_fill(a, window, world, k - 1)
    }
}

/// The requests that close the handling of a gone window, from the state
/// `a` before to `b` after: refocusing where it floated, the main window
/// marked active where it was the help window of the current workspace,
/// else the layout and, where the main area is left empty, no active window.
pub open spec fn destroy_tail(a: State, b: State, window: Window, world: &World) -> Seq<Action> {
    let stop = destroy_stop(a, window);
    if stop < a.mon().workspaces@.len() {
        if a.mon().workspaces@[stop].floatings@.contains(window) {
            crate::windows::tiling::focus_acts(b, world)
        } else if stop == a.current_workspace && a.ws().main_window is Some {
            seq![Action::SetActive(a.ws().main_window.unwrap())]
        } else {
            Seq::empty()
        }
    } else {
        layout_acts(b, b.ws().main_window, hint_map(a.ws().key_hint_windows@), world) + if b.ws().main_window is None {
            seq![Action::SetActive(0)]
        } else {
            Seq::empty()
        }
    }
}

/// `window` floats in, or is the help window of, the workspace.
pub open spec fn holds_aside(ws: Workspace, window: Window) -> bool {
    ws.floatings@.contains(window) || ws.help_window == Some(window)
}

/// The first workspace of the current monitor that holds the gone window
/// floating or as its help window, or the number of workspaces where none does.
pub open spec fn destroy_stop(st: State, window: Window) -> int {
    let n = st.mon().workspaces@.len() as int;
    if exists|i: int| 0 <= i < n && holds_aside(#[trigger] st.mon().workspaces@[i], window) {
        choose|i: int| 0 <= i < n && holds_aside(#[trigger] st.mon().workspaces@[i], window) && forall|j: int|
            0 <= j < i ==> !holds_aside(#[trigger] st.mon().workspaces@[j], window)
    } else {
        n
    }
}

proof fn lemma_destroy_stop(st: State, window: Window, k: int)
    requires
        0 <= k <= st.mon().workspaces@.len(),
        forall|j: int| 0 <= j < k ==> !holds_aside(#[trigger] st.mon().workspaces@[j], window),
        k == st.mon().workspaces@.len() || holds_aside(st.mon().workspaces@[k], window),
    ensures
        destroy_stop(st, window) == k,
{
    let n = st.mon().workspaces@.len() as int;
    if k < n {
        let c = choose|i: int| 0 <= i < n && holds_aside(#[trigger] st.mon().workspaces@[i], window) && forall|j: int|
            0 <= j < i ==> !holds_aside(#[trigger] st.mon().workspaces@[j], window);
        assert(exists|i: int| 0 <= i < n && holds_aside(#[trigger] st.mon().workspaces@[i], window) && forall|j: int|
            0 <= j < i ==> !holds_aside(#[trigger] st.mon().workspaces@[j], window));
        if c < k {
            assert(!holds_aside(st.mon().workspaces@[c], window));
        } else if c > k {
            assert(!holds_aside(st.mon().workspaces@[k], window));
        }
    } else {
        assert forall|i: int| 0 <= i < n implies !holds_aside(#[trigger] st.mon().workspaces@[i], window) by {}
    }
}

fn holds_window(v: &Vec<Window>, window: Window) -> (res: bool)
    ensures
        res == v@.contains(window),
{
    let mut i: usize = 0;
    while i < v.len()
        invariant
            i <= v@.len(),
            forall|j: int| 0 <= j < i ==> v@[j] != window,
        decreases v@.len() - i,
    {
        if v[i] == window {
            assert(v@[i as int] == window);
            return true;
        }
        i += 1;
    }
    false
}

/// Handles a window that is gone.  The workspaces of the current monitor are
/// walked in order: the first that holds it floating or as help window drops
/// it there and stops; every workspace before replaces a gone main window by
/// its first side window or drops it from the side list.  Without such a
/// workspace, the current side list is laid out again and the active window
/// cleared where no main window is left.
#[verifier::rlimit(100)]
#[verifier::spinoff_prover]
pub fn destroy(state: &mut State, world: &World, actions: &mut Vec<Action>, window: Window)
    requires
        old(state).wf(),
    ensures
        final(state).wf(),
        crate::state::only_monitor_changed(*old(state), *final(state)),
        extends(old(actions)@, final(actions)@),
        ({
            let a = *old(state);
            let b = *final(state);
            let stop = destroy_stop(a, window);
            forall|i: int|
                0 <= i < a.mon().workspaces@.len() ==> {
                    let w0 = #[trigger] a.mon().workspaces@[i];
                    let w1 = b.mon().workspaces@[i];
                    &&& (w1.main_window, w1.side_windows@) == (if i < stop {
                        destroyed_tiling(w0, window)
                    } else {
                        (w0.main_window, w0.side_windows@)
                    })
                    &&& w1.help_window == (if i == stop && w0.help_window == Some(window)
                        && !w0.floatings@.contains(window) {
                        None
                    } else {
                        w0.help_window
                    })
                    &&& w1.fullscreen == w0.fullscreen
                }
        }),
        ({
            let a = *old(state);
            let stop = destroy_stop(a, window);
            stop < a.mon().workspaces@.len() && a.mon().workspaces@[stop].floatings@.contains(window)
                && stop <= a.current_workspace ==> final(state).ws().floatings@ == focused_floats(
                without(a.ws().floatings@, window),
                a.ws().main_window,
                world,
            )
        }),
        ({
            let a = *old(state);
            let stop = destroy_stop(a, window);
            &&& stop < a.mon().workspaces@.len() && !a.mon().workspaces@[stop].floatings@.contains(window)
                ==> final(state).ws().floatings@ == home_after(a, window, world).0
            &&& stop == a.mon().workspaces@.len() ==> final(state).ws().floatings@ == focused_floats(
                home_after(a, window, world).0,
                final(state).ws().main_window,
                world,
            )
        }),
        ({
            let a = *old(state);
            let stop = destroy_stop(a, window);
            stop < a.mon().workspaces@.len() && a.mon().workspaces@[stop].floatings@.contains(window)
                ==> final(state).ws().floatings@ == focused_floats(
                without(home_after(a, window, world).0, window),
                final(state).ws().main_window,
                world,
            )
        }),
        destroy_stop(*old(state), window) == old(state).mon().workspaces@.len()
            && final(state).ws().main_window is None ==> final(actions)@.len() > 0
            && final(actions)@.last() == Action::SetActive(0),
        floats_live(*old(state), world) ==> final(actions)@ == old(actions)@ + destroy_fills(
            *old(state),
            window,
            world,
            destroy_stop(*old(state), window),
        ) + destroy_tail(*old(state), *final(state), window, world),
        final(actions)@ == old(actions)@ + destroy_fills_rec(
            *old(state),
            window,
            world,
            destroy_stop(*old(state), window),
        ) + destroy_tail_rec(*old(state), *final(state), window, world),
{
    let ghost a = *state;
    let ghost acts0 = actions@;
    proof { lemma_extends_refl(acts0); }
    let cm = state.current_monitor;
    let home = state.current_workspace;
    let nws = state.monitors[cm].workspaces.len();
    let mut i: usize = 0;
    while i < nws
        invariant
            a == *old(state),
            acts0 == old(actions)@,
            a.wf(),
            state.wf(),
            cm == a.current_monitor,
            home == a.current_workspace,
            nws == a.mon().workspaces@.len(),
            i <= nws,
            crate::state::only_monitor_changed(a, *state),
            forall|j: int| 0 <= j < i ==> !holds_aside(#[trigger] a.mon().workspaces@[j], window),
            forall|j: int| 0 <= j < i ==> {
                let w0 = #[trigger] a.mon().workspaces@[j];
                let w1 = state.mon().workspaces@[j];
                &&& (w1.main_window, w1.side_windows@) == destroyed_tiling(w0, window)
                &&& w1.help_window == w0.help_window
                &&& w1.fullscreen == w0.fullscreen
            },
            forall|j: int| i <= j < nws ==> #[trigger] state.mon().workspaces@[j] == a.mon().workspaces@[j],
            extends(acts0, actions@),
            floats_live(a, world) ==> actions@ == acts0 + destroy_fills(a, window, world, i as int),
            floats_live(a, world) ==> forall|j: int|
                0 <= j < nws ==> {
                    &&& (#[trigger] state.mon().workspaces@[j]).floatings@ == a.mon().workspaces@[j].floatings@
                    &&& hint_map(state.mon().workspaces@[j].key_hint_windows@) == hint_map(
                        a.mon().workspaces@[j].key_hint_windows@,
                    )
                },
            actions@ == acts0 + destroy_fills_rec(a, window, world, i as int),
            forall|j: int| 0 <= j < i ==> (#[trigger] state.mon().workspaces@[j].floatings@, hint_map(
                state.mon().workspaces@[j].key_hint_windows@)) == ws_after(a, window, world, j),
        decreases nws - i,
    {
        let ghost s0 = *state;
        let ghost acts_i = actions@;
        assert(s0.mon().workspaces@[i as int] == a.mon().workspaces@[i as int]);
        if holds_window(&state.monitors[cm].workspaces[i].floatings, window) {
            proof {
                lemma_destroy_stop(a, window, i as int);
            }
            remove_floating(state, window);
            let ghost s1 = *state;
            focus_main(state, world, actions);
            proof {
                if i <= home {
                    assert(s0.mon().workspaces@[home as int] == a.mon().workspaces@[home as int]);
                    assert(s0.ws() == a.ws());
                }
                lemma_only_ws_changed_trans(s0, s1, *state);
                lemma_extends_trans(acts0, acts_i, actions@);
                destroy_frame(a, s0, *state, window, i as int);
                crate::windows::layout::lemma_frame_same(s1, *state);
                lemma_destroy_float_tail(a, s0, s1, *state, acts0, acts_i, actions@, window, world, i as int);
                if floats_live(a, world) {
                    assert(s0.ws() == s0.mon().workspaces@[home as int]);
                    assert(!has_dead(s0.ws().floatings@, world));
                    lemma_without_live(s0.ws().floatings@, window, world);
                    crate::model::lemma_live_only_all_live(s1.ws().floatings@, world);
                    assert(state.ws().floatings@ == s1.ws().floatings@);
                    assert(actions@ =~= acts0 + destroy_fills(a, window, world, i as int) + crate::windows::tiling::focus_acts(
                        *state,
                        world,
                    ));
                }
            }
            return;
        }
        if state.monitors[cm].workspaces[i].help_window == Some(window) {
            proof {
                lemma_destroy_stop(a, window, i as int);
            }
            match state.monitors[cm].workspaces[i].main_window {
                Some(m) => {
                    if state.current_workspace == i {
                        actions.push(Action::SetActive(m));
                        proof {
                            lemma_extends_push(acts_i, Action::SetActive(m));
                            lemma_extends_trans(acts0, acts_i, actions@);
                        }
                    }
                },
                None => {},
            }
            state.monitors[cm].workspaces[i].help_window = None;
            proof {
                let s1 = *state;
                assert(s1.ws().floatings@ == home_after(a, window, world).0) by {
                    assert(s0.ws() == s0.mon().workspaces@[home as int]);
                    assert(s1.ws().floatings@ == s0.ws().floatings@);
                    if (home as int) < (i as int) {
                        assert((s0.mon().workspaces@[home as int].floatings@, hint_map(
                            s0.mon().workspaces@[home as int].key_hint_windows@)) == ws_after(a, window, world, home as int));
                    } else {
                        assert(s0.mon().workspaces@[home as int] == a.mon().workspaces@[home as int]);
                    }
                }
                assert forall|j: int| 0 <= j < nws implies {
                    let w0 = #[trigger] a.mon().workspaces@[j];
                    let w1 = s1.mon().workspaces@[j];
                    &&& (w1.main_window, w1.side_windows@) == (if j < i {
                        destroyed_tiling(w0, window)
                    } else {
                        (w0.main_window, w0.side_windows@)
                    })
                    &&& w1.help_window == (if j == i && w0.help_window == Some(window)
                        && !w0.floatings@.contains(window) {
                        None
                    } else {
                        w0.help_window
                    })
                    &&& w1.fullscreen == w0.fullscreen
                } by {
                    if j != i {
                        assert(s1.mon().workspaces@[j] == s0.mon().workspaces@[j]);
                    }
                }
                assert(crate::state::only_monitor_changed(a, s1)) by {
                    assert forall|mm: int, ww: int|
                        0 <= mm < a.monitors@.len() && 0 <= ww < a.monitors@[mm].workspaces@.len() && mm
                            != a.current_monitor implies #[trigger] ws_at(s1, mm, ww) == ws_at(a, mm, ww) by {
                        assert(ws_at(s1, mm, ww) == ws_at(s0, mm, ww));
                    }
                }
                assert(s1.wf()) by {
                    assert forall|mm: int, ww: int| 0 <= mm < s1.monitors@.len() && 0 <= ww < s1.nws() implies
                        crate::state::workspace_wf(#[trigger] ws_at(s1, mm, ww)) by {
                        assert(ws_at(s0, mm, ww).side_windows@ == ws_at(s1, mm, ww).side_windows@);
                        assert(ws_at(s0, mm, ww).floatings@ == ws_at(s1, mm, ww).floatings@);
                        assert(ws_at(s0, mm, ww).key_hint_windows@ == ws_at(s1, mm, ww).key_hint_windows@);
                    }
                }
            }
            return;
        }
        proof {
            assert(!holds_aside(a.mon().workspaces@[i as int], window));
        }
        destroy_tiled(state, world, actions, window, i);
        proof {
            let s4 = *state;
            lemma_extends_trans(acts0, acts_i, actions@);
            assert forall|mm: int, ww: int|
                0 <= mm < a.monitors@.len() && 0 <= ww < a.monitors@[mm].workspaces@.len() && mm
                    != a.current_monitor implies #[trigger] ws_at(s4, mm, ww) == ws_at(a, mm, ww) by {
                assert(ws_at(s4, mm, ww) == ws_at(s0, mm, ww));
            }
            assert forall|j: int| 0 <= j < nws && j != i implies #[trigger] s4.mon().workspaces@[j] == s0.mon().workspaces@[j] by {
                assert(ws_at(s4, cm as int, j) == ws_at(s0, cm as int, j));
            }
            if floats_live(a, world) {
                assert(!has_dead(a.mon().workspaces@[i as int].floatings@, world));
                assert(destroy_fill(s0, window, world, i as int) == destroy_fill(a, window, world, i as int)) by {
                    assert(s0.mon().position == a.mon().position);
                    assert(s0.mon().sizes == a.mon().sizes);
                }
                assert(destroy_fills(a, window, world, i + 1) == destroy_fills(a, window, world, i as int) + destroy_fill(a, window, world, i as int));
                assert(actions@ =~= acts0 + destroy_fills(a, window, world, i + 1));
            }
            assert(actions@ =~= acts0 + destroy_fills_rec(a, window, world, i + 1)) by {
                lemma_destroy_alike(a, s0, window, world, i);
            }
            assert forall|j: int| 0 <= j < i + 1 implies (#[trigger] s4.mon().workspaces@[j].floatings@, hint_map(
                s4.mon().workspaces@[j].key_hint_windows@)) == ws_after(a, window, world, j) by {
                lemma_destroy_alike(a, s0, window, world, i);
            }
        }
        i += 1;
    }
    proof {
        lemma_destroy_stop(a, window, nws as int);
    }
    let ghost s5 = *state;
    let ghost acts5 = actions@;
    layout_side_space(state, world, actions);
    let ghost s6 = *state;
    let ghost acts6 = actions@;
    if state.monitors[cm].workspaces[home].main_window.is_none() {
        crate::ewmh::clear_active(actions);
        proof { lemma_extends_push(acts6, Action::SetActive(0)); }
    } else {
        proof { lemma_extends_refl(acts6); }
    }
    proof {
        lemma_extends_trans(acts5, acts6, actions@);
        lemma_extends_trans(acts0, acts5, actions@);
        assert forall|j: int| 0 <= j < nws && j != home implies #[trigger] s6.mon().workspaces@[j] == s5.mon().workspaces@[j] by {
            assert(ws_at(s6, cm as int, j) == ws_at(s5, cm as int, j));
        }
        only_ws_to_monitor(a, s5, s6);
        assert(actions@ =~= acts0 + destroy_fills_rec(a, window, world, nws as int) + destroy_tail_rec(a, *state, window, world)) by {
            crate::windows::layout::lemma_frame_same(s5, s6);
            assert(s5.ws() == s5.mon().workspaces@[home as int]);
            assert((s5.ws().floatings@, hint_map(s5.ws().key_hint_windows@)) == ws_after(a, window, world, home as int));
        }
        if floats_live(a, world) {
            assert(s5.ws() == s5.mon().workspaces@[home as int]);
            assert(s5.ws().floatings@ == a.ws().floatings@);
            assert(!has_dead(s5.ws().floatings@, world));
            crate::model::lemma_live_only_all_live(s5.ws().floatings@, world);
            assert(s6.ws().floatings@ == s5.ws().floatings@);
            crate::windows::layout::lemma_layout_acts_same(
                s5,
                s6,
                s5.ws().main_window,
                hint_map(a.ws().key_hint_windows@),
                world,
            );
            assert(acts6 == acts5 + layout_acts(s6, s6.ws().main_window, hint_map(a.ws().key_hint_windows@), world));
            assert(actions@ =~= acts0 + destroy_fills(a, window, world, nws as int) + destroy_tail(a, *state, window, world));
        }
    }
}

/// A workspace of the current monitor that no earlier step of a gone
/// window's handling touched is gone through as on the state before it.
proof fn lemma_destroy_alike(a: State, s0: State, window: Window, world: &World, i: usize)
    requires
        a.wf(),
        crate::state::only_monitor_changed(a, s0),
        i < a.mon().workspaces@.len(),
        s0.mon().workspaces@[i as int] == a.mon().workspaces@[i as int],
    ensures
        destroy_fill_rec(s0, window, world, i as int) == destroy_fill_rec(a, window, world, i as int),
        ws_after(s0, window, world, i as int) == ws_after(a, window, world, i as int),
{
    let x = State { current_workspace: i, ..a };
    let y = State { current_workspace: i, ..s0 };
    let cm = a.current_monitor as int;
    assert forall|mm: int| 0 <= mm < x.monitors@.len() implies {
        &&& (#[trigger] y.monitors@[mm]).close_box == x.monitors@[mm].close_box
        &&& y.monitors@[mm].position == x.monitors@[mm].position
        &&& y.monitors@[mm].sizes == x.monitors@[mm].sizes
        &&& y.monitors@[mm].workspaces@[i as int].side_windows@.len() == x.monitors@[mm].workspaces@[i as int].side_windows@.len()
        &&& y.monitors@[mm].workspaces@[i as int].fullscreen == x.monitors@[mm].workspaces@[i as int].fullscreen
    } by {
        assert(a.monitors@[mm].workspaces@.len() == a.nws());
        if mm != cm {
            assert(ws_at(s0, mm, i as int) == ws_at(a, mm, i as int));
        }
    }
    crate::windows::layout::lemma_frame_in_alike(x, y, a.mon().workspaces@[i as int].side_windows@.remove(0));
    assert(destroy_frame_of(s0, i as int) == destroy_frame_of(a, i as int));
}

/// The requests of a gone window's handling that stops at a workspace where
/// it floated.
proof fn lemma_destroy_float_tail(
    a: State,
    s0: State,
    s1: State,
    b: State,
    acts0: Seq<Action>,
    acts_i: Seq<Action>,
    acts: Seq<Action>,
    window: Window,
    world: &World,
    i: int,
)
    requires
        a.wf(),
        0 <= i < a.mon().workspaces@.len(),
        destroy_stop(a, window) == i,
        a.mon().workspaces@[i].floatings@.contains(window),
        s0.current_monitor == a.current_monitor,
        s0.current_workspace == a.current_workspace,
        s0.monitors@.len() == a.monitors@.len(),
        s0.mon().workspaces@.len() == a.mon().workspaces@.len(),
        acts_i == acts0 + destroy_fills_rec(a, window, world, i),
        forall|j: int| 0 <= j < i ==> (#[trigger] s0.mon().workspaces@[j].floatings@, hint_map(
            s0.mon().workspaces@[j].key_hint_windows@)) == ws_after(a, window, world, j),
        forall|j: int| i <= j < a.mon().workspaces@.len() ==> #[trigger] s0.mon().workspaces@[j] == a.mon().workspaces@[j],
        s1.ws().floatings@ == without(s0.ws().floatings@, window),
        s1.ws().key_hint_windows@ == s0.ws().key_hint_windows@,
        b.ws().main_window == s1.ws().main_window,
        frame(b) == frame(s1),
        acts == acts_i + focus_rec(frame(s1), s1.ws().main_window, s1.ws().floatings@, hint_map(s1.ws().key_hint_windows@), world),
        b.ws().floatings@ == focused_floats(s1.ws().floatings@, s1.ws().main_window, world),
    ensures
        acts == acts0 + destroy_fills_rec(a, window, world, i) + destroy_tail_rec(a, b, window, world),
        b.ws().floatings@ == focused_floats(without(home_after(a, window, world).0, window), b.ws().main_window, world),
{
    let home = a.current_workspace as int;
    assert(s0.ws() == s0.mon().workspaces@[home]);
    if home < i {
        assert((s0.mon().workspaces@[home].floatings@, hint_map(s0.mon().workspaces@[home].key_hint_windows@)) == ws_after(a, window, world, home));
    } else {
        assert(s0.mon().workspaces@[home] == a.mon().workspaces@[home]);
    }
    assert(acts =~= acts0 + destroy_fills_rec(a, window, world, i) + destroy_tail_rec(a, b, window, world));
}

/// Dropping a window from a list of windows that all exist leaves a list of
/// windows that all exist.
proof fn lemma_without_live(s: Seq<Window>, w: Window, world: &World)
    requires
        !has_dead(s, world),
    ensures
        !has_dead(without(s, w), world),
{
    let r = without(s, w);
    if has_dead(r, world) {
        let k = choose|k: int| 0 <= k < r.len() && !exists_in(world, #[trigger] r[k]);
        crate::model::lemma_without_contains(s, w, r[k]);
        assert(r.contains(r[k]));
        let j = choose|j: int| 0 <= j < s.len() && s[j] == r[k];
        assert(exists_in(world, s[j]));
    }
}

pub proof fn only_ws_to_monitor(a: State, b: State, c: State)
    requires
        crate::state::only_monitor_changed(a, b),
        only_ws_changed(b, c),
    ensures
        crate::state::only_monitor_changed(a, c),
{
    assert forall|mm: int, ww: int|
        0 <= mm < a.monitors@.len() && 0 <= ww < a.monitors@[mm].workspaces@.len() && mm
            != a.current_monitor implies #[trigger] ws_at(c, mm, ww) == ws_at(a, mm, ww) by {
        assert(ws_at(c, mm, ww) == ws_at(b, mm, ww));
    }
}

proof fn destroy_frame(a: State, s0: State, s2: State, window: Window, i: int)
    requires
        a.wf(),
        crate::state::only_monitor_changed(a, s0),
        only_ws_changed(s0, s2),
        same_tiling(s0.ws(), s2.ws()),
        0 <= i < a.mon().workspaces@.len(),
        destroy_stop(a, window) == i,
        a.mon().workspaces@[i].floatings@.contains(window),
        forall|j: int| 0 <= j < i ==> {
            let w0 = #[trigger] a.mon().workspaces@[j];
            let w1 = s0.mon().workspaces@[j];
            &&& (w1.main_window, w1.side_windows@) == destroyed_tiling(w0, window)
            &&& w1.help_window == w0.help_window
            &&& w1.fullscreen == w0.fullscreen
        },
        forall|j: int| i <= j < a.mon().workspaces@.len() ==> #[trigger] s0.mon().workspaces@[j] == a.mon().workspaces@[j],
    ensures
        crate::state::only_monitor_changed(a, s2),
        forall|j: int|
            0 <= j < a.mon().workspaces@.len() ==> {
                let w0 = #[trigger] a.mon().workspaces@[j];
                let w1 = s2.mon().workspaces@[j];
                &&& (w1.main_window, w1.side_windows@) == (if j < i {
                    destroyed_tiling(w0, window)
                } else {
                    (w0.main_window, w0.side_windows@)
                })
                &&& w1.help_window == (if j == i && w0.help_window == Some(window)
                    && !w0.floatings@.contains(window) {
                    None
                } else {
                    w0.help_window
                })
                &&& w1.fullscreen == w0.fullscreen
            },
{
    only_ws_to_monitor(a, s0, s2);
    assert forall|j: int| 0 <= j < a.mon().workspaces@.len() implies {
        let w0 = #[trigger] a.mon().workspaces@[j];
        let w1 = s2.mon().workspaces@[j];
        &&& (w1.main_window, w1.side_windows@) == (if j < i {
            destroyed_tiling(w0, window)
        } else {
            (w0.main_window, w0.side_windows@)
        })
        &&& w1.help_window == (if j == i && w0.help_window == Some(window)
            && !w0.floatings@.contains(window) {
            None
        } else {
            w0.help_window
        })
        &&& w1.fullscreen == w0.fullscreen
    } by {
        assert(s0.mon().workspaces@.len() == a.mon().workspaces@.len());
        if j != s0.current_workspace {
            assert(ws_at(s2, s0.current_monitor as int, j) == ws_at(s0, s0.current_monitor as int, j));
        }
    }
}

/// Centers a window on the current monitor, on a state whose floating list
/// may hold it twice.
fn center_window_of(state: &State, actions: &mut Vec<Action>, window: Window)
    requires
        state.current_monitor < state.monitors@.len(),
    ensures
        final(actions)@ == old(actions)@.push(
            Action::Center {
                window,
                x: state.mon().position.0,
                y: state.mon().position.1,
                width: state.mon().sizes.screen.0,
                height: state.mon().sizes.screen.1,
            },
        ),
{
    let m = &state.monitors[state.current_monitor];
    actions.push(
        Action::Center {
            window,
            x: m.position.0,
            y: m.position.1,
            width: m.sizes.screen.0,
            height: m.sizes.screen.1,
        },
    );
}

} // verus!
