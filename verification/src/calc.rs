//! Reading the size and position strings of the layout settings, and finding
//! the monitor under the pointer.
use vstd::prelude::*;
use vstd::string::*;
use crate::text::{ascii_only, spec_parse_i32, single_split, chars_of, parse_i32, split_once_exact};

verus! {

/// One dimension of a layout setting: a percentage of the screen, or pixels.
/// Turning a percentage into pixels is floating-point work left to the caller.
#[derive(PartialEq, Eq, Structural, Debug, Clone, Copy)]
pub enum Dim {
    Percent(i32),
    Pixels(i32),
}

/// What one piece of a layout setting reads as, or `None` where it cannot be
/// read: empty or non-ASCII text, or digits that do not parse.
pub open spec fn spec_dim(s: Seq<char>) -> Option<Dim> {
    if s.len() == 0 || !ascii_only(s) {
        None
    } else if s.last() == '%' {
        match spec_parse_i32(s.drop_last()) {
            Some(v) => Some(Dim::Percent(v)),
            None => None,
        }
    } else {
        match spec_parse_i32(s) {
            Some(v) => Some(Dim::Pixels(v)),
            None => None,
        }
    }
}

/// What a whole layout setting reads as: exactly one separator, with a
/// readable piece on each side.
pub open spec fn spec_config(s: Seq<char>, sep: char) -> Option<(Dim, Dim)> {
    if exists|k: int| single_split(s, sep, k) {
        let k = choose|k: int| single_split(s, sep, k);
        match (spec_dim(s.subrange(0, k)), spec_dim(s.subrange(k + 1, s.len() as int))) {
            (Some(a), Some(b)) => Some((a, b)),
            _ => None,
        }
    } else {
        None
    }
}

/// Whether all characters are ASCII.
pub fn is_ascii_text(s: &str) -> (res: bool)
    ensures
        res == ascii_only(s@),
{
    let cs = chars_of(s);
    let mut i: usize = 0;
    while i < cs.len()
        invariant
            cs@ == s@,
            i <= cs@.len(),
            forall|j: int| 0 <= j < i ==> (#[trigger] cs@[j] as u32) < 128,
        decreases cs@.len() - i,
    {
        if cs[i] as u32 >= 128 {
            return false;
        }
        i += 1;
    }
    true
}

/// The last character of a non-empty ASCII string.
pub fn last_char(s: &str) -> (res: char)
    requires
        s@.len() > 0,
        ascii_only(s@),
    ensures
        res == s@.last(),
{
    let n = s.unicode_len();
    s.get_char(n - 1)
}

/// All characters but the last, where the last is an ASCII character.
pub fn all_but_last(s: &str) -> (res: String)
    requires
        s@.len() > 0,
        (s@.last() as u32) < 128,
    ensures
        res@ == s@.drop_last(),
{
    let n = s.unicode_len();
    String::from_str(s.substring_char(0, n - 1))
}

/// Reads one piece of a layout setting: a trailing `%` marks a percentage.
pub fn percent_or_value(s: &str) -> (res: Option<Dim>)
    ensures
        res == spec_dim(s@),
{
    if s.unicode_len() == 0 || !is_ascii_text(s) {
        return None;
    }
    if last_char(s) == '%' {
        let body = all_but_last(s);
        match parse_i32(body.as_str()) {
            Some(v) => Some(Dim::Percent(v)),
            None => None,
        }
    } else {
        match parse_i32(s) {
            Some(v) => Some(Dim::Pixels(v)),
            None => None,
        }
    }
}

/// Reads a layout setting of two pieces around `deliminator`.
pub fn config_parse(config_string: &str, deliminator: char) -> (res: Option<(Dim, Dim)>)
    ensures
        res == spec_config(config_string@, deliminator),
{
    match split_once_exact(config_string, deliminator) {
        None => None,
        Some((a, b)) => {
            proof {
                let k = choose|k: int| single_split(config_string@, deliminator, k);
                let k2 = choose|k: int|
                    #![trigger config_string@[k]]
                    single_split(config_string@, deliminator, k) && a@ == config_string@.subrange(0, k)
                        && b@ == config_string@.subrange(k + 1, config_string@.len() as int);
                assert(k == k2);
            }
            match (percent_or_value(a.as_str()), percent_or_value(b.as_str())) {
                (Some(x), Some(y)) => Some((x, y)),
                _ => None,
            }
        },
    }
}

/// Reads a main-area size setting such as `80%x96%`.
pub fn get_full_size(config_string: &str) -> (res: Option<(Dim, Dim)>)
    ensures
        res == spec_config(config_string@, 'x'),
{
    config_parse(config_string, 'x')
}

/// Reads a position setting such as `0,4%`.
pub fn get_position(config_string: &str) -> (res: Option<(Dim, Dim)>)
    ensures
        res == spec_config(config_string@, ','),
{
    config_parse(config_string, ',')
}

/// The point lies on the screen of the monitor.
pub open spec fn on_monitor(m: crate::state::Monitor, x: i32, y: i32) -> bool {
    m.position.0 <= x < m.position.0 + m.sizes.screen.0 && m.position.1 <= y < m.position.1
        + m.sizes.screen.1
}

/// The first monitor whose screen holds the point.
pub open spec fn monitor_at(st: crate::state::State, x: i32, y: i32) -> Option<int> {
    if exists|i: int| 0 <= i < st.monitors@.len() && on_monitor(#[trigger] st.monitors@[i], x, y) {
        Some(choose|i: int| 0 <= i < st.monitors@.len() && on_monitor(#[trigger] st.monitors@[i], x, y) && forall|j: int|
            0 <= j < i ==> !on_monitor(#[trigger] st.monitors@[j], x, y))
    } else {
        None
    }
}

proof fn lemma_monitor_at(st: crate::state::State, x: i32, y: i32, k: int)
    requires
        0 <= k <= st.monitors@.len(),
        forall|j: int| 0 <= j < k ==> !on_monitor(#[trigger] st.monitors@[j], x, y),
        k == st.monitors@.len() || on_monitor(st.monitors@[k], x, y),
    ensures
        monitor_at(st, x, y) == (if k < st.monitors@.len() { Some(k) } else { None::<int> }),
{
    let n = st.monitors@.len() as int;
    if k < n {
        assert(exists|c: int| 0 <= c < n && on_monitor(#[trigger] st.monitors@[c], x, y) && forall|j: int|
            0 <= j < c ==> !on_monitor(#[trigger] st.monitors@[j], x, y));
        let c = choose|c: int| 0 <= c < n && on_monitor(#[trigger] st.monitors@[c], x, y) && forall|j: int|
            0 <= j < c ==> !on_monitor(#[trigger] st.monitors@[j], x, y);
        if c < k {
            assert(!on_monitor(st.monitors@[c], x, y));
        } else if c > k {
            assert(!on_monitor(st.monitors@[k], x, y));
        }
    } else {
        assert forall|i: int| 0 <= i < n implies !on_monitor(#[trigger] st.monitors@[i], x, y) by {}
    }
}

/// Makes the monitor under the pointer at (`root_x`, `root_y`) current, and
/// focuses its main window where the monitor changed.
pub fn update_current_monitor(
    state: &mut crate::state::State,
    world: &crate::safety::World,
    actions: &mut Vec<crate::actions::Action>,
    root_x: i32,
    root_y: i32,
)
    requires
        old(state).wf(),
    ensures
        final(state).wf(),
        crate::actions::extends(old(actions)@, final(actions)@),
        final(state).settings == old(state).settings,
        final(state).current_workspace == old(state).current_workspace,
        match monitor_at(*old(state), root_x, root_y) {
            Some(i) => final(state).current_monitor == i
                && (i == old(state).current_monitor ==> *final(state) == *old(state)
                && final(actions)@ == old(actions)@)
                && (i != old(state).current_monitor ==> {
                    let mid = crate::events::client::at(*old(state), i, old(state).current_workspace as int);
                    &&& crate::state::only_ws_changed(mid, *final(state))
                    &&& crate::windows::tiling::same_tiling(mid.ws(), final(state).ws())
                    &&& final(state).ws().floatings@ == crate::windows::layout::focused_floats(
                        mid.ws().floatings@,
                        mid.ws().main_window,
                        world,
                    )
                    &&& crate::model::hint_map(final(state).ws().key_hint_windows@) == (if crate::windows::tiling::focuses(
                        mid,
                        world,
                    ) && crate::model::has_dead(mid.ws().floatings@, world) {
                        crate::windows::layout::audited(mid, crate::model::hint_map(mid.ws().key_hint_windows@))
                    } else {
                        crate::model::hint_map(mid.ws().key_hint_windows@)
                    })
                    &&& !crate::model::has_dead(mid.ws().floatings@, world) ==> final(actions)@ == old(actions)@
                        + crate::windows::tiling::focus_acts(mid, world)
                    &&& final(actions)@ == old(actions)@ + crate::windows::layout::focus_rec(
                        crate::windows::layout::frame(mid),
                        mid.ws().main_window,
                        mid.ws().floatings@,
                        crate::model::hint_map(mid.ws().key_hint_windows@),
                        world,
                    )
                }),
            None => *final(state) == *old(state) && final(actions)@ == old(actions)@,
        },
{
    let ghost a = *state;
    proof { crate::actions::lemma_extends_refl(actions@); }
    let mut i: usize = 0;
    let n = state.monitors.len();
    let ghost acts0 = actions@;
    while i < n
        invariant
            *state == a,
            a == *old(state),
            actions@ == old(actions)@,
            acts0 == old(actions)@,
            a.wf(),
            n == a.monitors@.len(),
            i <= n,
            forall|j: int| 0 <= j < i ==> !on_monitor(#[trigger] a.monitors@[j], root_x, root_y),
        decreases n - i,
    {
        let m = &state.monitors[i];
        proof {
            assert(crate::state::monitor_coords_ok(a.monitors@[i as int]));
        }
        if root_x >= m.position.0 && root_x < m.position.0 + m.sizes.screen.0 && root_y >= m.position.1
            && root_y < m.position.1 + m.sizes.screen.1 {
            proof {
                lemma_monitor_at(a, root_x, root_y, i as int);
            }
            if state.current_monitor != i {
                state.current_monitor = i;
                proof {
                    let s1 = *state;
                    assert(s1.wf()) by {
                        assert forall|mm: int, ww: int| 0 <= mm < s1.monitors@.len() && 0 <= ww < s1.nws() implies
                            crate::state::workspace_wf(#[trigger] crate::state::ws_at(s1, mm, ww)) by {
                            assert(crate::state::ws_at(s1, mm, ww) == crate::state::ws_at(a, mm, ww));
                        }
                    }
                }
                crate::windows::tiling::focus_main(state, world, actions);
            }
            proof { crate::actions::lemma_extends_refl(acts0); }
            return;
        }
        i += 1;
    }
    proof {
        lemma_monitor_at(a, root_x, root_y, n as int);
    }
}

} // verus!
