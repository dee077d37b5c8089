//! Mouse clicks and key presses.
use vstd::prelude::*;
use vstd::string::*;
use crate::actions::{Action, Allow, extends, lemma_extends_push, lemma_extends_trans, lemma_extends_refl};
use crate::keymap::{parse_string, keysym_of};
use crate::model::{sent_sides, side_without};
use crate::safety::{World, window_exists, exists_in};
use crate::settings::{Settings, views};
use crate::state::{State, Window, only_ws_changed, ws_at, lemma_only_ws_changed_trans, lemma_wf_kept};
use crate::text::lowercase;
use crate::windows::checks::{is_excepted_window, spec_excepted};
use crate::windows::gets::name_view;
use crate::windows::layout::{layout_side_space, fullscreen, fullscreen_configure};
use crate::windows::tiling::{fill_main_space, send_side_space, remove_side_window, focus_main, main_configure, same_tiling, fill_acts, focus_acts, main_center, main_center_in, main_center_action};
use crate::windows::layout::{layout_acts, layout_acts_in, audit_map, layout_rec, fill_rec, focus_rec, frame, frame_in, lemma_frame_in, lemma_frame_reads, audit_f, focused_floats};
use crate::model::{has_dead, hint_map};
use crate::windows::workspaces::switch;

verus! {

/// The requests of putting the side window `w` in the main area in place of
/// the main window: its geometry with the side list left without it, then
/// its focus.
pub open spec fn swap_fill(a: State, w: Window, world: &World) -> Seq<Action> {
    let sides = side_without(a.ws().side_windows@, w);
    fill_rec(
        frame_in(a, sides),
        w,
        sides.len() as int,
        a.ws().floatings@,
        hint_map(a.ws().key_hint_windows@),
        world,
    )
}

/// The key hint map once the side window `w` has been put in the main area
/// in place of the main window: audited where `w` exists and a floating
/// window is gone.
pub open spec fn swap_hints(a: State, w: Window, world: &World) -> Map<Seq<char>, Window> {
    if exists_in(world, w) && has_dead(a.ws().floatings@, world) {
        audit_f(frame_in(a, side_without(a.ws().side_windows@, w)), hint_map(a.ws().key_hint_windows@))
    } else {
        hint_map(a.ws().key_hint_windows@)
    }
}

/// Handles a grabbed mouse button press on `child` (named `child_name`) below
/// `event_window`.  A left click on a side window swaps it with the main
/// window; a right click on a window other than the main window destroys it.
/// Clicks where the event window is gone or the child is excepted, and clicks
/// on the main window itself, are replayed to the client.
#[verifier::rlimit(60)]
pub fn button(
    state: &mut State,
    world: &World,
    actions: &mut Vec<Action>,
    event_window: Window,
    child: Window,
    detail: u8,
    child_name: &Option<String>,
)
    requires
        old(state).wf(),
    ensures
        final(state).wf(),
        only_ws_changed(*old(state), *final(state)),
        extends(old(actions)@, final(actions)@),
        ({
            let a = *old(state);
            let b = *final(state);
            let replay = old(actions)@.push(Action::AllowEvents(Allow::ReplayPointer));
            if !exists_in(world, event_window) || spec_excepted(a.settings, name_view(child_name)) {
                b == a && final(actions)@ == replay
            } else if detail == 1 {
                match a.ws().main_window {
                    None => b == a && final(actions)@ == old(actions)@,
                    Some(e) => if e == child {
                        b == a && final(actions)@ == replay
                    } else {
                        &&& b.ws().main_window == Some(child)
                        &&& b.ws().side_windows@ == sent_sides(side_without(a.ws().side_windows@, child), e, None)
                        &&& b.ws().floatings@ == crate::windows::layout::focused_floats(
                            a.ws().floatings@,
                            Some(child),
                            world,
                        )
                        &&& b.ws().help_window == a.ws().help_window
                        &&& b.ws().fullscreen == a.ws().fullscreen
                        &&& final(actions)@.last() == Action::AllowEvents(Allow::AsyncPointer)
                        &&& !has_dead(a.ws().floatings@, world) ==> final(actions)@ == old(actions)@ + fill_acts(
                            a,
                            child,
                            side_without(a.ws().side_windows@, child).len() as int,
                            world,
                        ) + layout_acts(b, Some(child), hint_map(a.ws().key_hint_windows@), world) + seq![
                            main_center(b),
                            Action::AllowEvents(Allow::AsyncPointer),
                        ]
                        &&& final(actions)@ == old(actions)@ + swap_fill(a, child, world) + layout_rec(
                            frame(b),
                            Some(child),
                            focused_floats(a.ws().floatings@, Some(child), world),
                            swap_hints(a, child, world),
                            world,
                        ) + seq![main_center(b), Action::AllowEvents(Allow::AsyncPointer)]
                    },
                }
            } else if detail == 3 {
                if a.ws().main_window == Some(child) {
                    b == a && final(actions)@ == replay
                } else {
                    &&& same_tiling(a.ws(), b.ws())
                    &&& final(actions)@[old(actions)@.len() as int] == Action::Destroy(child)
                    &&& final(actions)@.last() == Action::AllowEvents(Allow::AsyncPointer)
                    &&& !has_dead(a.ws().floatings@, world) ==> final(actions)@ == old(actions)@ + seq![
                        Action::Destroy(child),
                    ] + layout_acts(a, a.ws().main_window, hint_map(a.ws().key_hint_windows@), world) + seq![
                        Action::AllowEvents(Allow::AsyncPointer),
                    ]
                    &&& final(actions)@ == old(actions)@ + seq![Action::Destroy(child)] + layout_rec(
                        frame(a),
                        a.ws().main_window,
                        a.ws().floatings@,
                        hint_map(a.ws().key_hint_windows@),
                        world,
                    ) + seq![Action::AllowEvents(Allow::AsyncPointer)]
                }
            } else {
                b == a && final(actions)@ == old(actions)@
            }
        }),
{
    let ghost a = *state;
    let ghost acts0 = actions@;
    proof { lemma_extends_refl(acts0); }
    if !window_exists(world, event_window) || is_excepted_window(&state.settings, child_name) {
        actions.push(Action::AllowEvents(Allow::ReplayPointer));
        proof { lemma_extends_push(acts0, Action::AllowEvents(Allow::ReplayPointer)); }
        return;
    }
    let cm = state.current_monitor;
    let cw = state.current_workspace;
    if detail == 1 {
        match state.monitors[cm].workspaces[cw].main_window {
            Some(existing) => {
                if existing == child {
                    actions.push(Action::AllowEvents(Allow::ReplayPointer));
                    proof { lemma_extends_push(acts0, Action::AllowEvents(Allow::ReplayPointer)); }
                    return;
                }
                remove_side_window(state, child);
                let ghost s1 = *state;
                fill_main_space(state, world, actions, child);
                let ghost s2 = *state;
                let ghost acts2 = actions@;
                send_side_space(state, world, actions, existing, None);
                let ghost acts_sent = actions@;
                let warp = main_center_action(state);
                actions.push(warp);
                let ghost acts3 = actions@;
                proof {
                    lemma_extends_push(acts_sent, warp);
                    lemma_extends_trans(acts2, acts_sent, acts3);
                }
                actions.push(Action::AllowEvents(Allow::AsyncPointer));
                proof {
                    assert(actions@ =~= old(actions)@ + swap_fill(a, child, world) + layout_rec(
                        frame(*state),
                        Some(child),
                        focused_floats(a.ws().floatings@, Some(child), world),
                        swap_hints(a, child, world),
                        world,
                    ) + seq![main_center(*state), Action::AllowEvents(Allow::AsyncPointer)]) by {
                        lemma_frame_in(a, s1);
                        lemma_frame_reads(s1, child, 0, hint_map(a.ws().key_hint_windows@));
                        assert(acts2 == acts0 + swap_fill(a, child, world));
                        assert(hint_map(s2.ws().key_hint_windows@) == swap_hints(a, child, world));
                    }
                    if !has_dead(a.ws().floatings@, world) {
                        crate::model::lemma_live_only_all_live(a.ws().floatings@, world);
                        assert(s2.ws().floatings@ == a.ws().floatings@);
                        assert(fill_acts(s1, child, s1.ws().side_windows@.len() as int, world)
                            == fill_acts(a, child, side_without(a.ws().side_windows@, child).len() as int, world)) by {
                            assert(s1.monitors@[s1.current_monitor as int].sizes == a.monitors@[a.current_monitor as int].sizes);
                        }
                        assert(actions@ =~= old(actions)@ + fill_acts(
                            a,
                            child,
                            side_without(a.ws().side_windows@, child).len() as int,
                            world,
                        ) + layout_acts(*state, Some(child), hint_map(a.ws().key_hint_windows@), world) + seq![
                            main_center(*state),
                            Action::AllowEvents(Allow::AsyncPointer),
                        ]);
                    }
                    let c = main_configure(s1, child);
                    lemma_extends_push(acts0, c);
                    lemma_extends_trans(acts0, acts0.push(c), acts2);
                    lemma_extends_trans(acts0, acts2, acts3);
                    lemma_extends_push(acts3, Action::AllowEvents(Allow::AsyncPointer));
                    lemma_extends_trans(acts0, acts3, actions@);
                    lemma_only_ws_changed_trans(a, s1, s2);
                    lemma_only_ws_changed_trans(a, s2, *state);
                    crate::model::lemma_live_only_idem(a.ws().floatings@, world);
                }
            },
            None => {},
        }
    } else if detail == 3 {
        if state.monitors[cm].workspaces[cw].main_window == Some(child) {
            actions.push(Action::AllowEvents(Allow::ReplayPointer));
            proof { lemma_extends_push(acts0, Action::AllowEvents(Allow::ReplayPointer)); }
            return;
        }
        actions.push(Action::Destroy(child));
        let ghost acts1 = actions@;
        layout_side_space(state, world, actions);
        let ghost acts2 = actions@;
        actions.push(Action::AllowEvents(Allow::AsyncPointer));
        proof {
            if !has_dead(a.ws().floatings@, world) {
                assert(actions@ =~= old(actions)@ + seq![Action::Destroy(child)] + layout_acts(
                    a,
                    a.ws().main_window,
                    hint_map(a.ws().key_hint_windows@),
                    world,
                ) + seq![Action::AllowEvents(Allow::AsyncPointer)]);
            }
            lemma_extends_push(acts0, Action::Destroy(child));
            lemma_extends_trans(acts0, acts1, acts2);
            lemma_extends_push(acts2, Action::AllowEvents(Allow::AsyncPointer));
            lemma_extends_trans(acts0, acts2, actions@);
            lemma_extends_trans(acts1, acts2, actions@);
            crate::actions::lemma_extends_index(acts1, actions@, acts0.len() as int);
        }
    }
}

/// A key binding is pressed: the super key is held and the key's keysym is
/// the one of the binding's key name.
pub open spec fn pressed(key: Seq<char>, keysym: Option<u32>, mod4: bool) -> bool {
    mod4 && keysym is Some && keysym_of(lowercase(key)) == keysym
}

fn is_pressed(key: &String, keysym: Option<u32>, mod4: bool) -> (res: bool)
    ensures
        res == pressed(key@, keysym, mod4),
{
    match parse_string(key.as_str()) {
        Some(s) => mod4 && keysym == Some(s),
        None => false,
    }
}

/// The main window and side list after swap key `i` is handled: where it is
/// pressed and names a side window, that window takes the main area and the
/// old main window goes to the end of the side list.
pub open spec fn swap_step(t: (Option<Window>, Seq<Option<Window>>), pressed_i: bool, i: int) -> (Option<Window>, Seq<Option<Window>>) {
    if i >= t.1.len() || !pressed_i {
        t
    } else {
        match t.1[i] {
            Some(x) => (Some(x), match t.0 {
                Some(e) => sent_sides(side_without(t.1, x), e, None),
                None => side_without(t.1, x),
            }),
            None => t,
        }
    }
}

/// The main window and side list after the first `k` swap keys are handled.
pub open spec fn swap_tiling(
    t: (Option<Window>, Seq<Option<Window>>),
    swaps: Seq<Seq<char>>,
    keysym: Option<u32>,
    mod4: bool,
    k: int,
) -> (Option<Window>, Seq<Option<Window>>)
    decreases k,
{
    if k <= 0 {
        t
    } else {
        let prev = swap_tiling(t, swaps, keysym, mod4, k - 1);
        swap_step(prev, pressed(swaps[k - 1], keysym, mod4), k - 1)
    }
}

/// The key hint map and the requests after the first `k` swap keys are
/// handled on the state `st`'s current workspace, from the main window and
/// side list `t0` and the key hint map `h0`: a swap puts the side window in
/// the main area and focuses it, sends the old main window to the side and
/// lays the side list out again, then moves the pointer to the center of
/// the main area.
pub open spec fn swap_run(
    st: State,
    t0: (Option<Window>, Seq<Option<Window>>),
    h0: Map<Seq<char>, Window>,
    swaps: Seq<Seq<char>>,
    keysym: Option<u32>,
    mod4: bool,
    k: int,
    world: &World,
) -> (Map<Seq<char>, Window>, Seq<Action>)
    decreases k,
{
    if k <= 0 {
        (h0, Seq::empty())
    } else {
        let prev = swap_run(st, t0, h0, swaps, keysym, mod4, k - 1, world);
        let t = swap_tiling(t0, swaps, keysym, mod4, k - 1);
        let i = k - 1;
        if i < t.1.len() && pressed(swaps[i], keysym, mod4) && t.1[i] is Some {
            let x = t.1[i].unwrap();
            let rest = side_without(t.1, x);
            let fill = fill_acts(st, x, rest.len() as int, world);
            match t.0 {
                Some(e) => {
                    let ns = sent_sides(rest, e, None);
                    (
                        audit_map(st, ns.len() as int, prev.0),
                        prev.1 + fill + layout_acts_in(st, ns, Some(x), prev.0, world) + seq![
                            main_center_in(st, ns.len() as int),
                        ],
                    )
                },
                None => (prev.0, prev.1 + fill + seq![main_center_in(st, rest.len() as int)]),
            }
        } else {
            prev
        }
    }
}

/// The key hint map, the floating list and the requests after the first
/// `k` swap keys are handled on the state `st`'s current workspace, from the
/// main window and side list `t0`, the key hint map `h0` and the floating
/// list `fl0`, whatever floating windows are gone.
pub open spec fn swap_rec(
    st: State,
    t0: (Option<Window>, Seq<Option<Window>>),
    h0: Map<Seq<char>, Window>,
    fl0: Seq<Window>,
    swaps: Seq<Seq<char>>,
    keysym: Option<u32>,
    mod4: bool,
    k: int,
    world: &World,
) -> (Map<Seq<char>, Window>, Seq<Window>, Seq<Action>)
    decreases k,
{
    if k <= 0 {
        (h0, fl0, Seq::empty())
    } else {
        let prev = swap_rec(st, t0, h0, fl0, swaps, keysym, mod4, k - 1, world);
        let t = swap_tiling(t0, swaps, keysym, mod4, k - 1);
        let i = k - 1;
        if i < t.1.len() && pressed(swaps[i], keysym, mod4) && t.1[i] is Some {
            let x = t.1[i].unwrap();
            let rest = side_without(t.1, x);
            let f1 = frame_in(st, rest);
            let m1 = if exists_in(world, x) && has_dead(prev.1, world) {
                audit_f(f1, prev.0)
            } else {
                prev.0
            };
            let fl1 = focused_floats(prev.1, Some(x), world);
            let fill = fill_rec(f1, x, rest.len() as int, prev.1, prev.0, world);
            match t.0 {
                Some(e) => {
                    let ns = sent_sides(rest, e, None);
                    let f2 = frame_in(st, ns);
                    (
                        audit_f(f2, m1),
                        fl1,
                        prev.2 + fill + layout_rec(f2, Some(x), fl1, m1, world) + seq![
                            main_center_in(st, ns.len() as int),
                        ],
                    )
                },
                None => (m1, fl1, prev.2 + fill + seq![main_center_in(st, rest.len() as int)]),
            }
        } else {
            prev
        }
    }
}

/// Swaps the side window `target` into the main area: it is put there and
/// focused, the old main window (where there is one) is sent to the end of
/// the side list, which is laid out again, and the pointer goes to the
/// center of the main area.
fn swap_in(state: &mut State, world: &World, actions: &mut Vec<Action>, target: Window)
    requires
        old(state).wf(),
    ensures
        final(state).wf(),
        only_ws_changed(*old(state), *final(state)),
        final(state).ws().main_window == Some(target),
        final(state).ws().side_windows@ == match old(state).ws().main_window {
            Some(e) => sent_sides(side_without(old(state).ws().side_windows@, target), e, None),
            None => side_without(old(state).ws().side_windows@, target),
        },
        final(state).ws().fullscreen == old(state).ws().fullscreen,
        final(state).ws().help_window == old(state).ws().help_window,
        final(state).ws().floatings@ == crate::windows::layout::focused_floats(
            old(state).ws().floatings@,
            Some(target),
            world,
        ),
        extends(old(actions)@, final(actions)@),
        !has_dead(old(state).ws().floatings@, world) ==> {
            let a = *old(state);
            let rest = side_without(a.ws().side_windows@, target);
            &&& final(actions)@ == old(actions)@ + fill_acts(a, target, rest.len() as int, world) + match a.ws().main_window {
                Some(_) => layout_acts_in(a, final(state).ws().side_windows@, Some(target), hint_map(a.ws().key_hint_windows@), world),
                None => Seq::empty(),
            } + seq![main_center_in(a, final(state).ws().side_windows@.len() as int)]
            &&& hint_map(final(state).ws().key_hint_windows@) == match a.ws().main_window {
                Some(_) => audit_map(a, final(state).ws().side_windows@.len() as int, hint_map(a.ws().key_hint_windows@)),
                None => hint_map(a.ws().key_hint_windows@),
            }
        },
        ({
            let a = *old(state);
            let rest = side_without(a.ws().side_windows@, target);
            let m0 = hint_map(a.ws().key_hint_windows@);
            let m1 = if exists_in(world, target) && has_dead(a.ws().floatings@, world) {
                audit_f(frame_in(a, rest), m0)
            } else {
                m0
            };
            let fl1 = focused_floats(a.ws().floatings@, Some(target), world);
            let ns = final(state).ws().side_windows@;
            &&& final(actions)@ == old(actions)@ + fill_rec(frame_in(a, rest), target, rest.len() as int, a.ws().floatings@, m0, world)
                + match a.ws().main_window {
                Some(_) => layout_rec(frame_in(a, ns), Some(target), fl1, m1, world),
                None => Seq::empty(),
            } + seq![main_center_in(a, ns.len() as int)]
            &&& hint_map(final(state).ws().key_hint_windows@) == match a.ws().main_window {
                Some(_) => audit_f(frame_in(a, ns), m1),
                None => m1,
            }
        }),
{
    let ghost a = *state;
    let ghost acts0 = actions@;
    let cm = state.current_monitor;
    let cw = state.current_workspace;
    let existing = state.monitors[cm].workspaces[cw].main_window;
    remove_side_window(state, target);
    let ghost s1 = *state;
    fill_main_space(state, world, actions, target);
    let ghost s2 = *state;
    let ghost acts2 = actions@;
    proof {
        let c = main_configure(s1, target);
        lemma_extends_push(acts0, c);
        lemma_extends_trans(acts0, acts0.push(c), actions@);
        lemma_only_ws_changed_trans(a, s1, s2);
        crate::model::lemma_live_only_idem(a.ws().floatings@, world);
    }
    match existing {
        Some(e) => {
            send_side_space(state, world, actions, e, None);
            proof {
                lemma_only_ws_changed_trans(a, s2, *state);
                lemma_extends_trans(acts0, acts2, actions@);
            }
        },
        None => {
            proof { lemma_extends_refl(actions@); }
        },
    }
    let ghost s3 = *state;
    let ghost acts3 = actions@;
    let warp = main_center_action(state);
    actions.push(warp);
    proof {
        lemma_extends_push(acts3, warp);
        lemma_extends_trans(acts0, acts3, actions@);
        assert(s3.mon().sizes == a.mon().sizes && s3.mon().position == a.mon().position) by {
            assert(s3.monitors@[cm as int].sizes == a.monitors@[cm as int].sizes);
        }
        assert(acts2 == acts0 + fill_rec(
            frame_in(a, side_without(a.ws().side_windows@, target)),
            target,
            side_without(a.ws().side_windows@, target).len() as int,
            a.ws().floatings@,
            hint_map(a.ws().key_hint_windows@),
            world,
        )) by {
            crate::windows::layout::lemma_frame_in(a, s1);
        }
        assert(hint_map(s2.ws().key_hint_windows@) == (if exists_in(world, target) && has_dead(a.ws().floatings@, world) {
            audit_f(frame_in(a, side_without(a.ws().side_windows@, target)), hint_map(a.ws().key_hint_windows@))
        } else {
            hint_map(a.ws().key_hint_windows@)
        })) by {
            crate::windows::layout::lemma_frame_in(a, s1);
            lemma_frame_reads(s1, target, 0, hint_map(a.ws().key_hint_windows@));
        }
        match existing {
            Some(e) => {
                crate::windows::layout::lemma_frame_in(a, s3);
                lemma_frame_reads(s3, target, 0, hint_map(s2.ws().key_hint_windows@));
            },
            None => {},
        }
        if !has_dead(a.ws().floatings@, world) {
            crate::model::lemma_live_only_all_live(a.ws().floatings@, world);
            let rest = side_without(a.ws().side_windows@, target);
            assert(s1.mon().sizes == a.mon().sizes && s1.mon().position == a.mon().position) by {
                assert(s1.monitors@[cm as int].sizes == a.monitors@[cm as int].sizes);
            }
            assert(s3.mon().sizes == a.mon().sizes && s3.mon().position == a.mon().position) by {
                assert(s3.monitors@[cm as int].sizes == a.monitors@[cm as int].sizes);
            }
            assert(acts2 == acts0 + fill_acts(a, target, rest.len() as int, world));
            match existing {
                Some(e) => {
                    crate::windows::layout::lemma_layout_acts_in(s2, s3, Some(target), hint_map(a.ws().key_hint_windows@), world);
                    crate::windows::layout::lemma_layout_in_same(a, s2, s3.ws().side_windows@, Some(target), hint_map(a.ws().key_hint_windows@), world);
                },
                None => {},
            }
            assert(actions@ =~= acts0 + fill_acts(a, target, rest.len() as int, world) + match a.ws().main_window {
                Some(_) => layout_acts_in(a, s3.ws().side_windows@, Some(target), hint_map(a.ws().key_hint_windows@), world),
                None => Seq::empty(),
            } + seq![main_center_in(a, s3.ws().side_windows@.len() as int)]);
        }
    }
}

proof fn lemma_swap_run_step(
    a: State,
    s0: State,
    s4: State,
    acts0: Seq<Action>,
    acts_i: Seq<Action>,
    acts: Seq<Action>,
    target: Window,
    index: int,
    keysym: Option<u32>,
    mod4: bool,
    world: &World,
)
    requires
        a.wf(),
        !has_dead(a.ws().floatings@, world),
        only_ws_changed(a, s0),
        s0.ws().floatings@ == a.ws().floatings@,
        s0.ws().fullscreen == a.ws().fullscreen,
        0 <= index < s0.ws().side_windows@.len(),
        pressed(views(a.settings.bindings.swaps@)[index], keysym, mod4),
        s0.ws().side_windows@[index] == Some(target),
        (s0.ws().main_window, s0.ws().side_windows@) == swap_tiling(
            (a.ws().main_window, a.ws().side_windows@), views(a.settings.bindings.swaps@), keysym, mod4, index),
        acts_i == acts0 + swap_run(a, (a.ws().main_window, a.ws().side_windows@), hint_map(a.ws().key_hint_windows@),
            views(a.settings.bindings.swaps@), keysym, mod4, index, world).1,
        hint_map(s0.ws().key_hint_windows@) == swap_run(a, (a.ws().main_window, a.ws().side_windows@),
            hint_map(a.ws().key_hint_windows@), views(a.settings.bindings.swaps@), keysym, mod4, index, world).0,
        s4.ws().side_windows@ == match s0.ws().main_window {
            Some(e) => sent_sides(side_without(s0.ws().side_windows@, target), e, None),
            None => side_without(s0.ws().side_windows@, target),
        },
        acts == acts_i + fill_acts(s0, target, side_without(s0.ws().side_windows@, target).len() as int, world)
            + match s0.ws().main_window {
            Some(_) => layout_acts_in(s0, s4.ws().side_windows@, Some(target), hint_map(s0.ws().key_hint_windows@), world),
            None => Seq::empty(),
        } + seq![main_center_in(s0, s4.ws().side_windows@.len() as int)],
        hint_map(s4.ws().key_hint_windows@) == match s0.ws().main_window {
            Some(_) => audit_map(s0, s4.ws().side_windows@.len() as int, hint_map(s0.ws().key_hint_windows@)),
            None => hint_map(s0.ws().key_hint_windows@),
        },
    ensures
        acts == acts0 + swap_run(a, (a.ws().main_window, a.ws().side_windows@), hint_map(a.ws().key_hint_windows@),
            views(a.settings.bindings.swaps@), keysym, mod4, index + 1, world).1,
        hint_map(s4.ws().key_hint_windows@) == swap_run(a, (a.ws().main_window, a.ws().side_windows@),
            hint_map(a.ws().key_hint_windows@), views(a.settings.bindings.swaps@), keysym, mod4, index + 1, world).0,
{
    let cm = a.current_monitor as int;
    let t0 = (a.ws().main_window, a.ws().side_windows@);
    let h0 = hint_map(a.ws().key_hint_windows@);
    let sw = views(a.settings.bindings.swaps@);
    let prev = swap_run(a, t0, h0, sw, keysym, mod4, index, world);
    let rest = side_without(s0.ws().side_windows@, target);
    assert(s0.mon().sizes == a.mon().sizes && s0.mon().position == a.mon().position) by {
        assert(s0.monitors@[cm].sizes == a.monitors@[cm].sizes);
    }
    assert(fill_acts(s0, target, rest.len() as int, world) == fill_acts(a, target, rest.len() as int, world));
    crate::windows::layout::lemma_layout_in_same(a, s0, s4.ws().side_windows@, Some(target), prev.0, world);
    assert(acts =~= acts0 + swap_run(a, t0, h0, sw, keysym, mod4, index + 1, world).1);
}

proof fn lemma_swap_rec_step(
    a: State,
    s0: State,
    s4: State,
    acts0: Seq<Action>,
    acts_i: Seq<Action>,
    acts: Seq<Action>,
    target: Window,
    index: int,
    keysym: Option<u32>,
    mod4: bool,
    world: &World,
)
    requires
        a.wf(),
        only_ws_changed(a, s0),
        s0.ws().fullscreen == a.ws().fullscreen,
        0 <= index < s0.ws().side_windows@.len(),
        pressed(views(a.settings.bindings.swaps@)[index], keysym, mod4),
        s0.ws().side_windows@[index] == Some(target),
        (s0.ws().main_window, s0.ws().side_windows@) == swap_tiling(
            (a.ws().main_window, a.ws().side_windows@), views(a.settings.bindings.swaps@), keysym, mod4, index),
        ({
            let prev = swap_rec(a, (a.ws().main_window, a.ws().side_windows@), hint_map(a.ws().key_hint_windows@),
                a.ws().floatings@, views(a.settings.bindings.swaps@), keysym, mod4, index, world);
            &&& acts_i == acts0 + prev.2
            &&& hint_map(s0.ws().key_hint_windows@) == prev.0
            &&& s0.ws().floatings@ == prev.1
        }),
        s4.ws().side_windows@ == match s0.ws().main_window {
            Some(e) => sent_sides(side_without(s0.ws().side_windows@, target), e, None),
            None => side_without(s0.ws().side_windows@, target),
        },
        s4.ws().floatings@ == focused_floats(s0.ws().floatings@, Some(target), world),
        ({
            let rest = side_without(s0.ws().side_windows@, target);
            let m0 = hint_map(s0.ws().key_hint_windows@);
            let m1 = if exists_in(world, target) && has_dead(s0.ws().floatings@, world) {
                audit_f(frame_in(s0, rest), m0)
            } else {
                m0
            };
            let fl1 = focused_floats(s0.ws().floatings@, Some(target), world);
            let ns = s4.ws().side_windows@;
            &&& acts == acts_i + fill_rec(frame_in(s0, rest), target, rest.len() as int, s0.ws().floatings@, m0, world)
                + match s0.ws().main_window {
                Some(_) => layout_rec(frame_in(s0, ns), Some(target), fl1, m1, world),
                None => Seq::empty(),
            } + seq![main_center_in(s0, ns.len() as int)]
            &&& hint_map(s4.ws().key_hint_windows@) == match s0.ws().main_window {
                Some(_) => audit_f(frame_in(s0, ns), m1),
                None => m1,
            }
        }),
    ensures
        ({
            let next = swap_rec(a, (a.ws().main_window, a.ws().side_windows@), hint_map(a.ws().key_hint_windows@),
                a.ws().floatings@, views(a.settings.bindings.swaps@), keysym, mod4, index + 1, world);
            &&& acts == acts0 + next.2
            &&& hint_map(s4.ws().key_hint_windows@) == next.0
            &&& s4.ws().floatings@ == next.1
        }),
{
    let cm = a.current_monitor as int;
    let rest = side_without(s0.ws().side_windows@, target);
    crate::windows::layout::lemma_frame_in_same(a, s0, rest);
    crate::windows::layout::lemma_frame_in_same(a, s0, s4.ws().side_windows@);
    assert(s0.mon().sizes == a.mon().sizes && s0.mon().position == a.mon().position) by {
        assert(s0.monitors@[cm].sizes == a.monitors@[cm].sizes);
    }
    let t0 = (a.ws().main_window, a.ws().side_windows@);
    let sw = views(a.settings.bindings.swaps@);
    let next = swap_rec(a, t0, hint_map(a.ws().key_hint_windows@), a.ws().floatings@, sw, keysym, mod4, index + 1, world);
    assert(acts =~= acts0 + next.2);
}

/// Handles the swap keys, in order.
#[verifier::rlimit(100)]
pub fn swap_keys(state: &mut State, world: &World, actions: &mut Vec<Action>, keysym: Option<u32>, mod4: bool)
    requires
        old(state).wf(),
    ensures
        final(state).wf(),
        only_ws_changed(*old(state), *final(state)),
        extends(old(actions)@, final(actions)@),
        (final(state).ws().main_window, final(state).ws().side_windows@) == swap_tiling(
            (old(state).ws().main_window, old(state).ws().side_windows@),
            views(old(state).settings.bindings.swaps@),
            keysym,
            mod4,
            old(state).settings.bindings.swaps@.len() as int,
        ),
        (forall|i: int| 0 <= i < old(state).settings.bindings.swaps@.len() ==> !pressed(
            #[trigger] views(old(state).settings.bindings.swaps@)[i], keysym, mod4))
            ==> *final(state) == *old(state) && final(actions)@ == old(actions)@,
        !has_dead(old(state).ws().floatings@, world) ==> final(actions)@ == old(actions)@ + swap_run(
            *old(state),
            (old(state).ws().main_window, old(state).ws().side_windows@),
            hint_map(old(state).ws().key_hint_windows@),
            views(old(state).settings.bindings.swaps@),
            keysym,
            mod4,
            old(state).settings.bindings.swaps@.len() as int,
            world,
        ).1,
        final(actions)@ == old(actions)@ + swap_rec(
            *old(state),
            (old(state).ws().main_window, old(state).ws().side_windows@),
            hint_map(old(state).ws().key_hint_windows@),
            old(state).ws().floatings@,
            views(old(state).settings.bindings.swaps@),
            keysym,
            mod4,
            old(state).settings.bindings.swaps@.len() as int,
            world,
        ).2,
{
    let ghost a = *state;
    let ghost acts0 = actions@;
    let ghost sw = views(a.settings.bindings.swaps@);
    let ghost t0 = (a.ws().main_window, a.ws().side_windows@);
    let ghost h0 = hint_map(a.ws().key_hint_windows@);
    proof { lemma_extends_refl(acts0); assert(only_ws_changed(a, *state)); }
    let cm = state.current_monitor;
    let cw = state.current_workspace;
    let n = state.settings.bindings.swaps.len();
    let mut index: usize = 0;
    while index < n
        invariant
            a.wf(),
            state.wf(),
            cm == state.current_monitor,
            cw == state.current_workspace,
            n == a.settings.bindings.swaps@.len(),
            sw == views(a.settings.bindings.swaps@),
            index <= n,
            only_ws_changed(a, *state),
            extends(acts0, actions@),
            (state.ws().main_window, state.ws().side_windows@) == swap_tiling(
                (a.ws().main_window, a.ws().side_windows@), sw, keysym, mod4, index as int),
            (forall|i: int| 0 <= i < index ==> !pressed(#[trigger] sw[i], keysym, mod4)) ==> *state == a && actions@ == acts0,
            t0 == (a.ws().main_window, a.ws().side_windows@),
            h0 == hint_map(a.ws().key_hint_windows@),
            !has_dead(a.ws().floatings@, world) ==> {
                &&& actions@ == acts0 + swap_run(a, t0, h0, sw, keysym, mod4, index as int, world).1
                &&& hint_map(state.ws().key_hint_windows@) == swap_run(a, t0, h0, sw, keysym, mod4, index as int, world).0
                &&& state.ws().floatings@ == a.ws().floatings@
                &&& state.ws().fullscreen == a.ws().fullscreen
            },
            state.ws().fullscreen == a.ws().fullscreen,
            ({
                let prev = swap_rec(a, t0, h0, a.ws().floatings@, sw, keysym, mod4, index as int, world);
                &&& actions@ == acts0 + prev.2
                &&& hint_map(state.ws().key_hint_windows@) == prev.0
                &&& state.ws().floatings@ == prev.1
            }),
        decreases n - index,
    {
        let ghost s0 = *state;
        let ghost acts_i = actions@;
        let p = is_pressed(&state.settings.bindings.swaps[index], keysym, mod4);
        proof {
            assert(sw[index as int] == a.settings.bindings.swaps@[index as int]@);
        }
        if index < state.monitors[cm].workspaces[cw].side_windows.len() && p {
            match state.monitors[cm].workspaces[cw].side_windows[index] {
                Some(target) => {
                    swap_in(state, world, actions, target);
                    proof {
                        lemma_only_ws_changed_trans(a, s0, *state);
                        lemma_extends_trans(acts0, acts_i, actions@);
                        lemma_swap_rec_step(a, s0, *state, acts0, acts_i, actions@, target, index as int, keysym, mod4, world);
                        if !has_dead(a.ws().floatings@, world) {
                            crate::model::lemma_live_only_all_live(a.ws().floatings@, world);
                            lemma_swap_run_step(a, s0, *state, acts0, acts_i, actions@, target, index as int, keysym, mod4, world);
                        }
                    }
                },
                None => {},
            }
        }
        proof {
            assert(crate::state::workspace_wf(s0.ws()));
            if !(index < s0.ws().side_windows@.len() && p) {
                assert(swap_rec(a, t0, h0, a.ws().floatings@, sw, keysym, mod4, index + 1, world) == swap_rec(
                    a, t0, h0, a.ws().floatings@, sw, keysym, mod4, index as int, world));
            }
            if !has_dead(a.ws().floatings@, world) && !(index < s0.ws().side_windows@.len() && p) {
                assert(swap_run(a, t0, h0, sw, keysym, mod4, index + 1, world) == swap_run(a, t0, h0, sw, keysym, mod4, index as int, world));
            }
        }
        index += 1;
    }
}

/// Handles the close key: destroys the main window.
pub fn close_key(state: &State, actions: &mut Vec<Action>, keysym: Option<u32>, mod4: bool)
    requires
        state.wf(),
    ensures
        final(actions)@ == (if pressed(state.settings.bindings.close_main@, keysym, mod4)
            && state.ws().main_window is Some {
            old(actions)@ + seq![
                Action::Destroy(state.ws().main_window.unwrap()),
                Action::AllowEvents(Allow::AsyncPointer),
            ]
        } else {
            old(actions)@
        }),
        extends(old(actions)@, final(actions)@),
{
    let ghost acts0 = actions@;
    if is_pressed(&state.settings.bindings.close_main, keysym, mod4) {
        match state.monitors[state.current_monitor].workspaces[state.current_workspace].main_window {
            Some(main) => {
                actions.push(Action::Destroy(main));
                actions.push(Action::AllowEvents(Allow::AsyncPointer));
                proof {
                    assert(actions@ =~= acts0 + seq![Action::Destroy(main), Action::AllowEvents(Allow::AsyncPointer)]);
                    assert(actions@.subrange(0, acts0.len() as int) =~= acts0);
                }
                return;
            },
            None => {},
        }
    }
    proof { lemma_extends_refl(acts0); }
}

/// What the fullscreen key leaves: the main window, side list and help
/// window stay; where the key is pressed and there is a main window, the
/// fullscreen flag flips and the first new action gives the main window the
/// whole screen or gives it back its place; else nothing happens.
pub open spec fn fullscreen_done(
    a: State,
    b: State,
    acts0: Seq<Action>,
    acts: Seq<Action>,
    keysym: Option<u32>,
    mod4: bool,
    world: &World,
) -> bool {
    &&& b.ws().main_window == a.ws().main_window
    &&& b.ws().side_windows@ == a.ws().side_windows@
    &&& b.ws().help_window == a.ws().help_window
    &&& if pressed(a.settings.bindings.fullscreen@, keysym, mod4) && a.ws().main_window is Some {
        let m = a.ws().main_window.unwrap();
        &&& b.ws().fullscreen == !a.ws().fullscreen
        &&& acts.len() > acts0.len()
        &&& acts == acts0 + (if !a.ws().fullscreen {
            seq![fullscreen_configure(a, m)] + focus_rec(
                frame(b),
                Some(m),
                a.ws().floatings@,
                hint_map(a.ws().key_hint_windows@),
                world,
            )
        } else {
            fill_rec(frame(b), m, a.ws().side_windows@.len() as int, a.ws().floatings@, hint_map(a.ws().key_hint_windows@), world)
        })
        &&& acts[acts0.len() as int] == (if !a.ws().fullscreen {
            fullscreen_configure(a, m)
        } else {
            main_configure(a, m)
        })
        &&& !has_dead(a.ws().floatings@, world) ==> acts == acts0 + (if !a.ws().fullscreen {
            seq![fullscreen_configure(a, m)] + focus_acts(a, world)
        } else {
            fill_acts(a, m, a.ws().side_windows@.len() as int, world)
        })
    } else {
        b == a && acts == acts0
    }
}

/// Handles the fullscreen key: toggles fullscreen of the main window, giving
/// it the whole screen or putting it back in the main area.
pub fn fullscreen_key(state: &mut State, world: &World, actions: &mut Vec<Action>, keysym: Option<u32>, mod4: bool)
    requires
        old(state).wf(),
    ensures
        final(state).wf(),
        only_ws_changed(*old(state), *final(state)),
        extends(old(actions)@, final(actions)@),
        fullscreen_done(*old(state), *final(state), old(actions)@, final(actions)@, keysym, mod4, world),
{
    let ghost a = *state;
    let ghost acts0 = actions@;
    proof { lemma_extends_refl(acts0); }
    if is_pressed(&state.settings.bindings.fullscreen, keysym, mod4) {
        let cm = state.current_monitor;
        let cw = state.current_workspace;
        match state.monitors[cm].workspaces[cw].main_window {
            Some(main) => {
                let flag = !state.monitors[cm].workspaces[cw].fullscreen;
                state.monitors[cm].workspaces[cw].fullscreen = flag;
                let ghost s1 = *state;
                proof {
                    assert(crate::state::workspace_wf(a.ws()));
                    assert(s1.ws().side_windows@ == a.ws().side_windows@);
                    assert(s1.ws().floatings@ == a.ws().floatings@);
                    assert(s1.ws().key_hint_windows@ == a.ws().key_hint_windows@);
                    assert(only_ws_changed(a, s1));
                    lemma_wf_kept(a, s1);
                }
                if flag {
                    fullscreen(state, world, actions, main);
                    proof {
                        assert(s1.mon().sizes == a.mon().sizes && s1.mon().position == a.mon().position);
                        assert(focus_acts(s1, world) == focus_acts(a, world));
                        if !has_dead(a.ws().floatings@, world) {
                            assert(actions@ =~= acts0 + (seq![fullscreen_configure(a, main)] + focus_acts(a, world)));
                        }
                        let c = fullscreen_configure(s1, main);
                        lemma_extends_push(acts0, c);
                        lemma_extends_trans(acts0, acts0.push(c), actions@);
                        crate::actions::lemma_extends_index(acts0.push(c), actions@, acts0.len() as int);
                    }
                } else {
                    fill_main_space(state, world, actions, main);
                    proof {
                        assert(s1.mon().sizes == a.mon().sizes && s1.mon().position == a.mon().position);
                        assert(fill_acts(s1, main, s1.ws().side_windows@.len() as int, world)
                            == fill_acts(a, main, a.ws().side_windows@.len() as int, world));
                        if !has_dead(a.ws().floatings@, world) {
                            assert(actions@ =~= acts0 + fill_acts(a, main, a.ws().side_windows@.len() as int, world));
                        }
                        let c = main_configure(s1, main);
                        lemma_extends_push(acts0, c);
                        lemma_extends_trans(acts0, acts0.push(c), actions@);
                        crate::actions::lemma_extends_index(acts0.push(c), actions@, acts0.len() as int);
                    }
                }
                proof {
                    lemma_only_ws_changed_trans(a, s1, *state);
                    crate::windows::layout::lemma_frame_same(s1, *state);
                    assert(fullscreen_configure(s1, main) == fullscreen_configure(a, main));
                    if flag {
                        assert(actions@ =~= acts0 + (seq![fullscreen_configure(a, main)] + focus_rec(
                            frame(*state),
                            Some(main),
                            a.ws().floatings@,
                            hint_map(a.ws().key_hint_windows@),
                            world,
                        )));
                    } else {
                        assert(actions@ =~= acts0 + fill_rec(
                            frame(*state),
                            main,
                            a.ws().side_windows@.len() as int,
                            a.ws().floatings@,
                            hint_map(a.ws().key_hint_windows@),
                            world,
                        ));
                    }
                }
            },
            None => {},
        }
    }
}

/// Handles the help key: starts the help window.
pub fn help_key(state: &State, actions: &mut Vec<Action>, keysym: Option<u32>, mod4: bool)
    ensures
        final(actions)@ == (if pressed(state.settings.bindings.help@, keysym, mod4) {
            old(actions)@.push(Action::SpawnHelp)
        } else {
            old(actions)@
        }),
{
    if is_pressed(&state.settings.bindings.help, keysym, mod4) {
        actions.push(Action::SpawnHelp);
    }
}

/// The last workspace key pressed among the first `k`, or `cw` where none is.
pub open spec fn chosen_workspace(ws_keys: Seq<Seq<char>>, keysym: Option<u32>, mod4: bool, cw: int, k: int) -> int
    decreases k,
{
    if k <= 0 {
        cw
    } else if pressed(ws_keys[k - 1], keysym, mod4) {
        k - 1
    } else {
        chosen_workspace(ws_keys, keysym, mod4, cw, k - 1)
    }
}

/// The monitors keep their number, sizes, positions and close boxes, and the
/// current monitor stays.
pub open spec fn same_geometry(a: State, b: State) -> bool {
    &&& b.current_monitor == a.current_monitor
    &&& b.monitors@.len() == a.monitors@.len()
    &&& forall|m: int|
        0 <= m < a.monitors@.len() ==> {
            &&& (#[trigger] b.monitors@[m]).sizes == a.monitors@[m].sizes
            &&& b.monitors@[m].position == a.monitors@[m].position
            &&& b.monitors@[m].close_box == a.monitors@[m].close_box
        }
}

/// Handles the workspace keys: switches to the workspace of a pressed key.
pub fn workspace_keys(state: &mut State, world: &World, actions: &mut Vec<Action>, keysym: Option<u32>, mod4: bool)
    requires
        old(state).wf(),
    ensures
        final(state).wf(),
        extends(old(actions)@, final(actions)@),
        final(state).settings == old(state).settings,
        final(state).current_monitor == old(state).current_monitor,
        final(state).current_workspace == chosen_workspace(
            views(old(state).settings.bindings.workspaces@),
            keysym,
            mod4,
            old(state).current_workspace as int,
            old(state).settings.bindings.workspaces@.len() as int,
        ),
        (forall|i: int| 0 <= i < old(state).settings.bindings.workspaces@.len() ==> !pressed(
            #[trigger] views(old(state).settings.bindings.workspaces@)[i], keysym, mod4))
            ==> *final(state) == *old(state) && final(actions)@ == old(actions)@,
        (forall|i: int| 0 <= i < old(state).settings.bindings.workspaces@.len() && pressed(
            #[trigger] views(old(state).settings.bindings.workspaces@)[i], keysym, mod4) ==> i == old(state).current_workspace)
            ==> *final(state) == *old(state) && final(actions)@ == old(actions)@,
        same_geometry(*old(state), *final(state)),
        forall|j: int|
            0 <= j < old(state).settings.bindings.workspaces@.len() && j < 0x1_0000_0000 && j != old(state).current_workspace
                && #[trigger] only_pressed(views(old(state).settings.bindings.workspaces@), keysym, mod4, j)
                ==> crate::events::client::desktop_done(
                *old(state),
                *final(state),
                world,
                j as u32,
                old(actions)@,
                final(actions)@,
            ),
{
    let ghost a = *state;
    let ghost acts0 = actions@;
    let ghost wk = views(a.settings.bindings.workspaces@);
    proof { lemma_extends_refl(acts0); }
    let n = state.settings.bindings.workspaces.len();
    let mut index: usize = 0;
    while index < n
        invariant
            a.wf(),
            state.wf(),
            state.settings == a.settings,
            state.current_monitor == a.current_monitor,
            n == a.settings.bindings.workspaces@.len(),
            wk == views(a.settings.bindings.workspaces@),
            index <= n,
            extends(acts0, actions@),
            state.current_workspace == chosen_workspace(wk, keysym, mod4, a.current_workspace as int, index as int),
            (forall|i: int| 0 <= i < index ==> !pressed(#[trigger] wk[i], keysym, mod4)) ==> *state == a && actions@ == acts0,
            (forall|i: int| 0 <= i < index && pressed(#[trigger] wk[i], keysym, mod4) ==> i == a.current_workspace)
                ==> *state == a && actions@ == acts0,
            same_geometry(a, *state),
            forall|j: int|
                0 <= j < n && j < 0x1_0000_0000 && j != a.current_workspace && #[trigger] only_pressed(wk, keysym, mod4, j) ==> {
                    &&& index <= j ==> *state == a && actions@ == acts0
                    &&& index > j ==> crate::events::client::desktop_done(a, *state, world, j as u32, acts0, actions@)
                },
        decreases n - index,
    {
        let ghost s_pre = *state;
        let ghost acts_pre = actions@;
        let p = is_pressed(&state.settings.bindings.workspaces[index], keysym, mod4);
        proof {
            assert(wk[index as int] == a.settings.bindings.workspaces@[index as int]@);
        }
        if p && state.current_workspace != index {
            let ghost s0 = *state;
            let ghost acts_i = actions@;
            state.current_workspace = index;
            let ghost s1 = *state;
            proof {
                assert(s1.wf()) by {
                    assert forall|mm: int, ww: int| 0 <= mm < s1.monitors@.len() && 0 <= ww < s1.nws() implies
                        crate::state::workspace_wf(#[trigger] ws_at(s1, mm, ww)) by {
                        assert(ws_at(s1, mm, ww) == ws_at(s0, mm, ww));
                    }
                }
            }
            switch(state, world, actions);
            proof {
                lemma_extends_trans(acts0, acts_i, actions@);
                assert forall|m: int| 0 <= m < a.monitors@.len() implies (#[trigger] state.monitors@[m]).sizes == a.monitors@[m].sizes
                    && state.monitors@[m].position == a.monitors@[m].position
                    && state.monitors@[m].close_box == a.monitors@[m].close_box by {
                    assert(s1.monitors@[m] == s0.monitors@[m]);
                }
                if forall|i: int| 0 <= i < index + 1 && pressed(#[trigger] wk[i], keysym, mod4) ==> i == a.current_workspace {
                    assert(pressed(wk[index as int], keysym, mod4));
                    assert(forall|i: int| 0 <= i < index && pressed(#[trigger] wk[i], keysym, mod4) ==> i == a.current_workspace);
                    assert(false);
                }
                assert forall|j: int|
                    0 <= j < n && j < 0x1_0000_0000 && j != a.current_workspace && #[trigger] only_pressed(wk, keysym, mod4, j) implies
                    j == index && crate::events::client::desktop_done(a, *state, world, j as u32, acts0, actions@) by {
                    if j != index {
                        assert(!pressed(wk[index as int], keysym, mod4));
                    }
                    assert forall|i: int| 0 <= i < index implies !pressed(#[trigger] wk[i], keysym, mod4) by {
                        assert(i != j);
                    }
                    assert(s0 == a);
                    assert(acts_i == acts0);
                    let mid = crate::events::client::at(a, a.current_monitor as int, j);
                    assert(s1 == mid);
                    assert forall|m: int| 0 <= m < a.monitors@.len() implies ws_at(mid, m, j) == ws_at(a, m, j) by {}
                }
            }
        } else {
            proof {
                assert forall|j: int|
                    0 <= j < n && j < 0x1_0000_0000 && j != a.current_workspace && #[trigger] only_pressed(wk, keysym, mod4, j) implies j != index by {
                    if j == index {
                        assert(state.current_workspace == a.current_workspace);
                    }
                }
            }
        }
        index += 1;
    }
}

/// Of the keys, only the one at position `j` is pressed.
pub open spec fn only_pressed(keys: Seq<Seq<char>>, keysym: Option<u32>, mod4: bool, j: int) -> bool {
    &&& pressed(keys[j], keysym, mod4)
    &&& forall|i: int| 0 <= i < keys.len() && i != j ==> !pressed(#[trigger] keys[i], keysym, mod4)
}

/// What focusing the main window of the current workspace of monitor `next`
/// leaves of that workspace: its tiling stays, its gone floating windows
/// are dropped, and its key hints are audited where one was.
pub open spec fn monitor_focus(a: State, b: State, next: int, world: &World) -> bool {
    let mid = crate::events::client::at(a, next, a.current_workspace as int);
    &&& b.ws().floatings@ == focused_floats(mid.ws().floatings@, mid.ws().main_window, world)
    &&& hint_map(b.ws().key_hint_windows@) == (if crate::windows::tiling::focuses(mid, world) && has_dead(
        mid.ws().floatings@,
        world,
    ) {
        crate::windows::layout::audited(mid, hint_map(mid.ws().key_hint_windows@))
    } else {
        hint_map(mid.ws().key_hint_windows@)
    })
}

/// Handles the monitor key: moves the pointer to the center of the next
/// monitor, makes it current and focuses its main window.
pub fn monitor_key(state: &mut State, world: &World, actions: &mut Vec<Action>, keysym: Option<u32>, mod4: bool)
    requires
        old(state).wf(),
    ensures
        final(state).wf(),
        extends(old(actions)@, final(actions)@),
        final(state).settings == old(state).settings,
        final(state).current_workspace == old(state).current_workspace,
        ({
            let a = *old(state);
            if pressed(a.settings.bindings.monitor@, keysym, mod4) {
                let next = (a.current_monitor + 1) % (a.monitors@.len() as int);
                let t = a.monitors@[next];
                &&& final(state).current_monitor == next
                &&& final(actions)@.len() > old(actions)@.len()
                &&& monitor_focus(a, *final(state), next, world)
                &&& final(actions)@ == old(actions)@ + seq![
                    Action::WarpToCenter {
                        x: t.position.0,
                        y: t.position.1,
                        width: t.sizes.screen.0,
                        height: t.sizes.screen.1,
                    },
                ] + focus_rec(
                    frame(crate::events::client::at(a, next, a.current_workspace as int)),
                    a.monitors@[next].workspaces@[a.current_workspace as int].main_window,
                    a.monitors@[next].workspaces@[a.current_workspace as int].floatings@,
                    hint_map(a.monitors@[next].workspaces@[a.current_workspace as int].key_hint_windows@),
                    world,
                )
                &&& final(actions)@[old(actions)@.len() as int] == Action::WarpToCenter {
                    x: t.position.0,
                    y: t.position.1,
                    width: t.sizes.screen.0,
                    height: t.sizes.screen.1,
                }
                &&& only_ws_changed(crate::events::client::at(a, next, a.current_workspace as int), *final(state))
                &&& same_tiling(crate::events::client::at(a, next, a.current_workspace as int).ws(), final(state).ws())
                &&& !has_dead(crate::events::client::at(a, next, a.current_workspace as int).ws().floatings@, world)
                    ==> final(actions)@ == old(actions)@ + seq![
                    Action::WarpToCenter {
                        x: t.position.0,
                        y: t.position.1,
                        width: t.sizes.screen.0,
                        height: t.sizes.screen.1,
                    },
                ] + crate::windows::tiling::focus_acts(crate::events::client::at(a, next, a.current_workspace as int), world)
            } else {
                *final(state) == a && final(actions)@ == old(actions)@
            }
        }),
{
    let ghost a = *state;
    let ghost acts0 = actions@;
    proof { lemma_extends_refl(acts0); }
    if is_pressed(&state.settings.bindings.monitor, keysym, mod4) {
        let len = state.monitors.len();
        let index = (state.current_monitor + 1) % len;
        let t = &state.monitors[index];
        actions.push(Action::WarpToCenter {
            x: t.position.0,
            y: t.position.1,
            width: t.sizes.screen.0,
            height: t.sizes.screen.1,
        });
        let ghost acts1 = actions@;
        state.current_monitor = index;
        proof {
            let s1 = *state;
            assert(s1.wf()) by {
                assert forall|mm: int, ww: int| 0 <= mm < s1.monitors@.len() && 0 <= ww < s1.nws() implies
                    crate::state::workspace_wf(#[trigger] ws_at(s1, mm, ww)) by {
                    assert(ws_at(s1, mm, ww) == ws_at(a, mm, ww));
                }
            }
        }
        focus_main(state, world, actions);
        proof {
            lemma_extends_push(acts0, acts1.last());
            assert(acts0.push(acts1.last()) =~= acts1);
            lemma_extends_trans(acts0, acts1, actions@);
            crate::actions::lemma_extends_index(acts1, actions@, acts0.len() as int);
        }
    }
}

/// Running the command of each function key that is pressed, in key order.
pub open spec fn function_runs(f: Seq<(String, String)>, keysym: Option<u32>, mod4: bool) -> Seq<Action>
    decreases f.len(),
{
    if f.len() == 0 {
        Seq::empty()
    } else {
        function_runs(f.drop_last(), keysym, mod4) + if pressed(f.last().0@, keysym, mod4) {
            seq![Action::Run(f.last().1)]
        } else {
            Seq::empty()
        }
    }
}

/// Handles the function keys: runs the command bound to each pressed key.
pub fn function_keys(state: &State, actions: &mut Vec<Action>, keysym: Option<u32>, mod4: bool)
    ensures
        final(actions)@ == old(actions)@ + function_runs(state.settings.bindings.functions@, keysym, mod4),
{
    let ghost acts0 = actions@;
    let f = &state.settings.bindings.functions;
    let mut i: usize = 0;
    proof {
        assert(f@.subrange(0, 0) =~= Seq::<(String, String)>::empty());
        assert(acts0 + Seq::<Action>::empty() =~= acts0);
    }
    while i < f.len()
        invariant
            f == &state.settings.bindings.functions,
            i <= f@.len(),
            actions@ == acts0 + function_runs(f@.subrange(0, i as int), keysym, mod4),
        decreases f@.len() - i,
    {
        proof {
            assert(f@.subrange(0, i + 1).drop_last() =~= f@.subrange(0, i as int));
            assert(f@.subrange(0, i + 1).last() == f@[i as int]);
        }
        if is_pressed(&f[i].0, keysym, mod4) {
            actions.push(Action::Run(f[i].1.clone()));
        }
        i += 1;
        proof {
            let g = f@.subrange(0, i as int);
            assert(actions@ =~= acts0 + function_runs(g, keysym, mod4));
        }
    }
    assert(f@.subrange(0, i as int) =~= f@);
}

/// Some binding of the settings is pressed.
pub open spec fn any_pressed(settings: Settings, keysym: Option<u32>, mod4: bool) -> bool {
    let b = settings.bindings;
    ||| exists|i: int| 0 <= i < b.functions@.len() && pressed((#[trigger] b.functions@[i]).0@, keysym, mod4)
    ||| exists|i: int| 0 <= i < b.swaps@.len() && pressed((#[trigger] b.swaps@[i])@, keysym, mod4)
    ||| pressed(b.close_main@, keysym, mod4)
    ||| pressed(b.fullscreen@, keysym, mod4)
    ||| pressed(b.help@, keysym, mod4)
    ||| exists|i: int| 0 <= i < b.workspaces@.len() && pressed((#[trigger] b.workspaces@[i])@, keysym, mod4)
    ||| pressed(b.monitor@, keysym, mod4)
}

proof fn lemma_no_runs(f: Seq<(String, String)>, keysym: Option<u32>, mod4: bool)
    requires
        forall|i: int| 0 <= i < f.len() ==> !pressed((#[trigger] f[i]).0@, keysym, mod4),
    ensures
        function_runs(f, keysym, mod4) == Seq::<Action>::empty(),
    decreases f.len(),
{
    if f.len() > 0 {
        let d = f.drop_last();
        assert forall|i: int| 0 <= i < d.len() implies !pressed((#[trigger] d[i]).0@, keysym, mod4) by {
            assert(d[i] == f[i]);
        }
        lemma_no_runs(d, keysym, mod4);
        assert(!pressed(f[f.len() - 1].0@, keysym, mod4));
    }
}

/// What the swap keys leave (see `swap_keys`).
pub open spec fn swaps_done(a: State, b: State, acts0: Seq<Action>, acts: Seq<Action>, keysym: Option<u32>, mod4: bool, world: &World) -> bool {
    &&& b.wf()
    &&& only_ws_changed(a, b)
    &&& extends(acts0, acts)
    &&& (b.ws().main_window, b.ws().side_windows@) == swap_tiling(
        (a.ws().main_window, a.ws().side_windows@),
        views(a.settings.bindings.swaps@),
        keysym,
        mod4,
        a.settings.bindings.swaps@.len() as int,
    )
    &&& (forall|i: int| 0 <= i < a.settings.bindings.swaps@.len() ==> !pressed(
        #[trigger] views(a.settings.bindings.swaps@)[i], keysym, mod4)) ==> b == a && acts == acts0
    &&& !has_dead(a.ws().floatings@, world) ==> acts == acts0 + swap_run(
        a,
        (a.ws().main_window, a.ws().side_windows@),
        hint_map(a.ws().key_hint_windows@),
        views(a.settings.bindings.swaps@),
        keysym,
        mod4,
        a.settings.bindings.swaps@.len() as int,
        world,
    ).1
    &&& acts == acts0 + swap_rec(
        a,
        (a.ws().main_window, a.ws().side_windows@),
        hint_map(a.ws().key_hint_windows@),
        a.ws().floatings@,
        views(a.settings.bindings.swaps@),
        keysym,
        mod4,
        a.settings.bindings.swaps@.len() as int,
        world,
    ).2
}

/// What the close key leaves (see `close_key`).
pub open spec fn close_done(a: State, acts0: Seq<Action>, acts: Seq<Action>, keysym: Option<u32>, mod4: bool) -> bool {
    acts == (if pressed(a.settings.bindings.close_main@, keysym, mod4) && a.ws().main_window is Some {
        acts0 + seq![Action::Destroy(a.ws().main_window.unwrap()), Action::AllowEvents(Allow::AsyncPointer)]
    } else {
        acts0
    })
}

/// What the help key leaves (see `help_key`).
pub open spec fn help_done(a: State, acts0: Seq<Action>, acts: Seq<Action>, keysym: Option<u32>, mod4: bool) -> bool {
    acts == (if pressed(a.settings.bindings.help@, keysym, mod4) {
        acts0.push(Action::SpawnHelp)
    } else {
        acts0
    })
}

/// What the workspace keys leave (see `workspace_keys`).
pub open spec fn workspaces_done(a: State, b: State, acts0: Seq<Action>, acts: Seq<Action>, keysym: Option<u32>, mod4: bool, world: &World) -> bool {
    &&& b.wf()
    &&& extends(acts0, acts)
    &&& b.settings == a.settings
    &&& b.current_monitor == a.current_monitor
    &&& b.current_workspace == chosen_workspace(
        views(a.settings.bindings.workspaces@),
        keysym,
        mod4,
        a.current_workspace as int,
        a.settings.bindings.workspaces@.len() as int,
    )
    &&& (forall|i: int| 0 <= i < a.settings.bindings.workspaces@.len() ==> !pressed(
        #[trigger] views(a.settings.bindings.workspaces@)[i], keysym, mod4)) ==> b == a && acts == acts0
    &&& (forall|i: int| 0 <= i < a.settings.bindings.workspaces@.len() && pressed(
        #[trigger] views(a.settings.bindings.workspaces@)[i], keysym, mod4) ==> i == a.current_workspace)
        ==> b == a && acts == acts0
    &&& same_geometry(a, b)
    &&& forall|j: int|
        0 <= j < a.settings.bindings.workspaces@.len() && j < 0x1_0000_0000 && j != a.current_workspace
            && #[trigger] only_pressed(views(a.settings.bindings.workspaces@), keysym, mod4, j)
            ==> crate::events::client::desktop_done(a, b, world, j as u32, acts0, acts)
}

/// What the monitor key leaves (see `monitor_key`).
pub open spec fn monitor_done(a: State, b: State, acts0: Seq<Action>, acts: Seq<Action>, keysym: Option<u32>, mod4: bool, world: &World) -> bool {
    &&& b.wf()
    &&& extends(acts0, acts)
    &&& b.settings == a.settings
    &&& b.current_workspace == a.current_workspace
    &&& if pressed(a.settings.bindings.monitor@, keysym, mod4) {
        let next = (a.current_monitor + 1) % (a.monitors@.len() as int);
        let t = a.monitors@[next];
        &&& b.current_monitor == next
        &&& acts.len() > acts0.len()
        &&& monitor_focus(a, b, next, world)
        &&& acts == acts0 + seq![
            Action::WarpToCenter {
                x: t.position.0,
                y: t.position.1,
                width: t.sizes.screen.0,
                height: t.sizes.screen.1,
            },
        ] + focus_rec(
            frame(crate::events::client::at(a, next, a.current_workspace as int)),
            a.monitors@[next].workspaces@[a.current_workspace as int].main_window,
            a.monitors@[next].workspaces@[a.current_workspace as int].floatings@,
            hint_map(a.monitors@[next].workspaces@[a.current_workspace as int].key_hint_windows@),
            world,
        )
        &&& acts[acts0.len() as int] == Action::WarpToCenter {
            x: t.position.0,
            y: t.position.1,
            width: t.sizes.screen.0,
            height: t.sizes.screen.1,
        }
        &&& only_ws_changed(crate::events::client::at(a, next, a.current_workspace as int), b)
        &&& same_tiling(crate::events::client::at(a, next, a.current_workspace as int).ws(), b.ws())
        &&& !has_dead(crate::events::client::at(a, next, a.current_workspace as int).ws().floatings@, world)
            ==> acts == acts0 + seq![
            Action::WarpToCenter {
                x: t.position.0,
                y: t.position.1,
                width: t.sizes.screen.0,
                height: t.sizes.screen.1,
            },
        ] + crate::windows::tiling::focus_acts(crate::events::client::at(a, next, a.current_workspace as int), world)
    } else {
        b == a && acts == acts0
    }
}

/// The key handlers one after the other: the function keys give `a1`, then
/// the swap keys, close, fullscreen, help, the workspace keys and the
/// monitor key, through the states `s1` to `s3` and the actions `a2` to `a6`.
pub open spec fn key_steps(
    a: State,
    s1: State,
    s2: State,
    s3: State,
    b: State,
    acts0: Seq<Action>,
    a1: Seq<Action>,
    a2: Seq<Action>,
    a3: Seq<Action>,
    a4: Seq<Action>,
    a5: Seq<Action>,
    a6: Seq<Action>,
    acts: Seq<Action>,
    keysym: Option<u32>,
    mod4: bool,
    world: &World,
) -> bool {
    &&& a1 == acts0 + function_runs(a.settings.bindings.functions@, keysym, mod4)
    &&& swaps_done(a, s1, a1, a2, keysym, mod4, world)
    &&& close_done(s1, a2, a3, keysym, mod4)
    &&& s2.wf() && only_ws_changed(s1, s2) && extends(a3, a4)
    &&& fullscreen_done(s1, s2, a3, a4, keysym, mod4, world)
    &&& help_done(s2, a4, a5, keysym, mod4)
    &&& workspaces_done(s2, s3, a5, a6, keysym, mod4, world)
    &&& monitor_done(s3, b, a6, acts, keysym, mod4, world)
}

/// Handles a key press of `keysym`, with `mod4` telling whether the super key
/// is held: the function keys, the swap keys, close, fullscreen, help, the
/// workspace keys and the monitor key, in that order.  A key that no binding
/// names, or a key pressed without the super key, changes nothing.
pub fn key(state: &mut State, world: &World, actions: &mut Vec<Action>, keysym: Option<u32>, mod4: bool)
    requires
        old(state).wf(),
    ensures
        final(state).wf(),
        extends(old(actions)@ + function_runs(old(state).settings.bindings.functions@, keysym, mod4), final(actions)@),
        extends(old(actions)@, final(actions)@),
        final(state).settings == old(state).settings,
        !any_pressed(old(state).settings, keysym, mod4) ==> *final(state) == *old(state) && final(actions)@ == old(actions)@,
        final(state).monitors@.len() == old(state).monitors@.len(),
        pressed(old(state).settings.bindings.monitor@, keysym, mod4) ==> final(state).current_monitor == (
        old(state).current_monitor + 1) % (old(state).monitors@.len() as int),
        !pressed(old(state).settings.bindings.monitor@, keysym, mod4) ==> final(state).current_monitor
            == old(state).current_monitor,
        pressed(old(state).settings.bindings.monitor@, keysym, mod4) ==> ({
            let t = old(state).monitors@[(old(state).current_monitor + 1) % (old(state).monitors@.len() as int)];
            exists|k: int|
                old(actions)@.len() <= k < final(actions)@.len() && #[trigger] final(actions)@[k] == Action::WarpToCenter {
                    x: t.position.0,
                    y: t.position.1,
                    width: t.sizes.screen.0,
                    height: t.sizes.screen.1,
                }
        }),
        exists|s1: State, s2: State, s3: State, a1: Seq<Action>, a2: Seq<Action>, a3: Seq<Action>, a4: Seq<Action>,
            a5: Seq<Action>, a6: Seq<Action>| #[trigger] key_steps(
            *old(state),
            s1,
            s2,
            s3,
            *final(state),
            old(actions)@,
            a1,
            a2,
            a3,
            a4,
            a5,
            a6,
            final(actions)@,
            keysym,
            mod4,
            world,
        ),
{
    let ghost a = *state;
    let ghost acts0 = actions@;
    function_keys(state, actions, keysym, mod4);
    let ghost acts_f = actions@;
    swap_keys(state, world, actions, keysym, mod4);
    let ghost acts1 = actions@;
    let ghost st1 = *state;
    close_key(state, actions, keysym, mod4);
    let ghost acts2 = actions@;
    fullscreen_key(state, world, actions, keysym, mod4);
    let ghost acts3 = actions@;
    let ghost st2 = *state;
    help_key(state, actions, keysym, mod4);
    let ghost acts4 = actions@;
    proof {
        if pressed(state.settings.bindings.help@, keysym, mod4) {
            lemma_extends_push(acts3, Action::SpawnHelp);
        } else {
            lemma_extends_refl(acts3);
        }
    }
    workspace_keys(state, world, actions, keysym, mod4);
    let ghost acts5 = actions@;
    let ghost st3 = *state;
    monitor_key(state, world, actions, keysym, mod4);
    proof {
        assert(key_steps(a, st1, st2, st3, *state, acts0, acts_f, acts1, acts2, acts3, acts4, acts5, actions@, keysym, mod4, world));
        assert(st3.current_monitor == a.current_monitor && st3.monitors@.len() == a.monitors@.len());
        if pressed(a.settings.bindings.monitor@, keysym, mod4) {
            let next = (a.current_monitor + 1) % (a.monitors@.len() as int);
            assert(st3.monitors@[next].sizes == a.monitors@[next].sizes);
            assert(st3.monitors@[next].position == a.monitors@[next].position);
            assert(acts5.len() >= acts0.len());
            assert(actions@[acts5.len() as int] == actions@[acts5.len() as int]);
        }
        lemma_extends_trans(acts_f, acts1, acts2);
        lemma_extends_trans(acts_f, acts2, acts3);
        lemma_extends_trans(acts_f, acts3, acts4);
        lemma_extends_trans(acts_f, acts4, acts5);
        lemma_extends_trans(acts_f, acts5, actions@);
        crate::actions::lemma_extends_append(acts0, function_runs(a.settings.bindings.functions@, keysym, mod4));
        lemma_extends_trans(acts0, acts_f, actions@);
        if !any_pressed(a.settings, keysym, mod4) {
            let b = a.settings.bindings;
            assert forall|i: int| 0 <= i < b.functions@.len() implies !pressed((#[trigger] b.functions@[i]).0@, keysym, mod4) by {}
            lemma_no_runs(b.functions@, keysym, mod4);
            assert(acts_f =~= acts0);
            assert forall|i: int| 0 <= i < b.swaps@.len() implies !pressed(#[trigger] views(b.swaps@)[i], keysym, mod4) by {
                assert(views(b.swaps@)[i] == b.swaps@[i]@);
            }
            assert forall|i: int| 0 <= i < b.workspaces@.len() implies !pressed(#[trigger] views(b.workspaces@)[i], keysym, mod4) by {
                assert(views(b.workspaces@)[i] == b.workspaces@[i]@);
            }
        }
    }
}

} // verus!
