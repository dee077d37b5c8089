//! Reading what a window is from its name, and which monitor holds a window.
use vstd::prelude::*;
use vstd::string::*;
use crate::state::{State, Monitor, Window, Workspace};
use crate::text::{contains, contains_seq, single_split, split_once_exact};

verus! {

/// The key a key hint window shows: its name holds `key_hint` and splits at
/// its one space, the key being what follows the space.
pub open spec fn spec_key_hint_key(name: Option<Seq<char>>) -> Option<Seq<char>> {
    match name {
        None => None,
        Some(n) => if contains_seq(n, "key_hint"@) && exists|k: int| single_split(n, ' ', k) {
            let k = choose|k: int| single_split(n, ' ', k);
            Some(n.subrange(k + 1, n.len() as int))
        } else {
            None
        },
    }
}

/// The character sequence of an optional name.
pub open spec fn name_view(name: &Option<String>) -> Option<Seq<char>> {
    match name {
        None => None,
        Some(s) => Some(s@),
    }
}

/// The key of a key hint window, read from the window's name.
pub fn key_hint_window(name: &Option<String>) -> (res: Option<String>)
    ensures
        name_view(&res) == spec_key_hint_key(name_view(name)),
{
    match name {
        None => None,
        Some(n) => {
            if contains(n.as_str(), "key_hint") {
                match split_once_exact(n.as_str(), ' ') {
                    Some((_, after)) => {
                        proof {
                            let k = choose|k: int| single_split(n@, ' ', k);
                            let k2 = choose|k: int|
                                #![trigger n@[k]]
                                single_split(n@, ' ', k) && after@ == n@.subrange(k + 1, n@.len() as int);
                            assert(k == k2);
                        }
                        Some(after)
                    },
                    None => None,
                }
            } else {
                None
            }
        },
    }
}

/// `window` is one of the windows a workspace keeps.
pub open spec fn in_workspace(ws: Workspace, window: Window) -> bool {
    ||| ws.main_window == Some(window)
    ||| ws.side_windows@.contains(Some(window))
    ||| ws.floatings@.contains(window)
    ||| (exists|i: int| 0 <= i < ws.key_hint_windows@.len() && (#[trigger] ws.key_hint_windows@[i]).1 == window)
    ||| ws.help_window == Some(window)
}

/// `window` is kept by some workspace of the monitor.
pub open spec fn in_monitor(m: Monitor, window: Window) -> bool {
    exists|w: int| 0 <= w < m.workspaces@.len() && in_workspace(#[trigger] m.workspaces@[w], window)
}

/// The first monitor that keeps the window, or the first monitor where none does.
pub open spec fn spec_monitor_index(st: State, window: Window) -> int {
    if exists|m: int| 0 <= m < st.monitors@.len() && in_monitor(#[trigger] st.monitors@[m], window) {
        choose|m: int|
            0 <= m < st.monitors@.len() && in_monitor(#[trigger] st.monitors@[m], window) && forall|j: int|
                0 <= j < m ==> !in_monitor(#[trigger] st.monitors@[j], window)
    } else {
        0
    }
}

fn workspace_has(ws: &Workspace, window: Window) -> (res: bool)
    ensures
        res == in_workspace(*ws, window),
{
    if ws.main_window == Some(window) {
        return true;
    }
    let mut i: usize = 0;
    while i < ws.side_windows.len()
        invariant
            i <= ws.side_windows@.len(),
            forall|j: int| 0 <= j < i ==> ws.side_windows@[j] != Some(window),
        decreases ws.side_windows@.len() - i,
    {
        if ws.side_windows[i] == Some(window) {
            assert(ws.side_windows@[i as int] == Some(window));
            return true;
        }
        i += 1;
    }
    let mut i: usize = 0;
    while i < ws.floatings.len()
        invariant
            i <= ws.floatings@.len(),
            forall|j: int| 0 <= j < i ==> ws.floatings@[j] != window,
        decreases ws.floatings@.len() - i,
    {
        if ws.floatings[i] == window {
            assert(ws.floatings@[i as int] == window);
            return true;
        }
        i += 1;
    }
    let mut i: usize = 0;
    while i < ws.key_hint_windows.len()
        invariant
            i <= ws.key_hint_windows@.len(),
            forall|j: int| 0 <= j < i ==> (#[trigger] ws.key_hint_windows@[j]).1 != window,
        decreases ws.key_hint_windows@.len() - i,
    {
        if ws.key_hint_windows[i].1 == window {
            return true;
        }
        i += 1;
    }
    ws.help_window == Some(window)
}

/// The monitor index is that of a monitor, where there is one.
pub proof fn lemma_monitor_index_bound(st: State, window: Window)
    requires
        st.monitors@.len() > 0,
    ensures
        0 <= spec_monitor_index(st, window) < st.monitors@.len(),
{
    if exists|m: int| 0 <= m < st.monitors@.len() && in_monitor(#[trigger] st.monitors@[m], window) {
        let m = choose|m: int| 0 <= m < st.monitors@.len() && in_monitor(#[trigger] st.monitors@[m], window);
        lemma_least_from(st, window, m);
    }
}

proof fn lemma_least_from(st: State, window: Window, m: int)
    requires
        0 <= m < st.monitors@.len(),
        in_monitor(st.monitors@[m], window),
    ensures
        exists|c: int|
            0 <= c < st.monitors@.len() && in_monitor(#[trigger] st.monitors@[c], window) && forall|j: int|
                0 <= j < c ==> !in_monitor(#[trigger] st.monitors@[j], window),
    decreases m,
{
    if exists|j: int| 0 <= j < m && in_monitor(#[trigger] st.monitors@[j], window) {
        let j = choose|j: int| 0 <= j < m && in_monitor(#[trigger] st.monitors@[j], window);
        lemma_least_from(st, window, j);
    } else {
        assert(forall|j: int| 0 <= j < m ==> !in_monitor(#[trigger] st.monitors@[j], window));
    }
}

proof fn lemma_least_monitor(st: State, window: Window, m: int)
    requires
        0 <= m < st.monitors@.len(),
        in_monitor(st.monitors@[m], window),
        forall|j: int| 0 <= j < m ==> !in_monitor(#[trigger] st.monitors@[j], window),
    ensures
        spec_monitor_index(st, window) == m,
{
    let c = choose|c: int|
        0 <= c < st.monitors@.len() && in_monitor(#[trigger] st.monitors@[c], window) && forall|j: int|
            0 <= j < c ==> !in_monitor(#[trigger] st.monitors@[j], window);
    assert(exists|c: int|
        0 <= c < st.monitors@.len() && in_monitor(#[trigger] st.monitors@[c], window) && forall|j: int|
            0 <= j < c ==> !in_monitor(#[trigger] st.monitors@[j], window));
    if c < m {
        assert(!in_monitor(st.monitors@[c], window));
    } else if c > m {
        assert(!in_monitor(st.monitors@[m], window));
    }
}

/// The index of the first monitor that keeps the window (0 where none does).
pub fn monitor_index(state: &State, window: Window) -> (res: usize)
    ensures
        res == spec_monitor_index(*state, window),
{
    let mut m: usize = 0;
    while m < state.monitors.len()
        invariant
            m <= state.monitors@.len(),
            forall|j: int| 0 <= j < m ==> !in_monitor(#[trigger] state.monitors@[j], window),
        decreases state.monitors@.len() - m,
    {
        let mon = &state.monitors[m];
        let mut w: usize = 0;
        while w < mon.workspaces.len()
            invariant
                m < state.monitors@.len(),
                forall|j: int| 0 <= j < m ==> !in_monitor(#[trigger] state.monitors@[j], window),
                mon == &state.monitors@[m as int],
                w <= mon.workspaces@.len(),
                forall|j: int| 0 <= j < w ==> !in_workspace(#[trigger] mon.workspaces@[j], window),
            decreases mon.workspaces@.len() - w,
        {
            if workspace_has(&mon.workspaces[w], window) {
                proof {
                    assert(in_monitor(state.monitors@[m as int], window));
                    lemma_least_monitor(*state, window, m as int);
                }
                return m;
            }
            w += 1;
        }
        m += 1;
    }
    0
}

} // verus!
