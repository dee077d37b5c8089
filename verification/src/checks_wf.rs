//! Testing the well-formedness of a state, for callers that cannot prove it.
use vstd::prelude::*;
use vstd::string::*;
use crate::state::{State, Window, Workspace, sides_wf, keys_distinct, workspace_wf, monitor_coords_ok, ws_at, COORD_LIMIT};
use crate::text::{str_eq, chars_of};
use crate::settings::{char_seq_less, ascending_keys, function_keys, lemma_ascending_adjacent};

verus! {

/// Whether `a` comes before `b` in the order of their characters.
pub fn str_less(a: &str, b: &str) -> (res: bool)
    ensures
        res == char_seq_less(a@, b@),
{
    let ca = chars_of(a);
    let cb = chars_of(b);
    let mut k: usize = 0;
    assert(a@.skip(0) =~= a@);
    assert(b@.skip(0) =~= b@);
    while k < ca.len() && k < cb.len() && ca[k] == cb[k]
        invariant
            ca@ == a@,
            cb@ == b@,
            k <= ca@.len(),
            k <= cb@.len(),
            char_seq_less(a@, b@) == char_seq_less(a@.skip(k as int), b@.skip(k as int)),
        decreases ca@.len() - k,
    {
        proof {
            let x = a@.skip(k as int);
            let y = b@.skip(k as int);
            assert(x[0] == y[0]);
            assert(x.drop_first() =~= a@.skip(k + 1));
            assert(y.drop_first() =~= b@.skip(k + 1));
        }
        k += 1;
    }
    proof {
        let x = a@.skip(k as int);
        let y = b@.skip(k as int);
        if k < ca.len() && k < cb.len() {
            assert(x[0] == ca@[k as int] && y[0] == cb@[k as int]);
        }
    }
    if k < ca.len() && k < cb.len() {
        (ca[k] as u32) < (cb[k] as u32)
    } else {
        k == ca.len() && k < cb.len()
    }
}

fn functions_ascending(f: &Vec<(String, String)>) -> (res: bool)
    ensures
        res == ascending_keys(function_keys(f@)),
{
    let ghost ks = function_keys(f@);
    proof { lemma_ascending_adjacent(ks); }
    if f.len() == 0 {
        return true;
    }
    let mut k: usize = 0;
    while k < f.len() - 1
        invariant
            ks == function_keys(f@),
            f@.len() > 0,
            k + 1 <= f@.len(),
            forall|j: int| 0 <= j < k ==> char_seq_less(#[trigger] ks[j], ks[j + 1]),
        decreases f@.len() - k,
    {
        if !str_less(f[k].0.as_str(), f[k + 1].0.as_str()) {
            assert(!char_seq_less(ks[k as int], ks[k + 1]));
            return false;
        }
        k += 1;
    }
    assert forall|j: int| 0 <= j && j + 1 < ks.len() implies char_seq_less(#[trigger] ks[j], ks[j + 1]) by {}
    true
}

fn sides_ok(v: &Vec<Option<Window>>) -> (res: bool)
    ensures
        res == sides_wf(v@),
{
    let mut i: usize = 0;
    while i < v.len()
        invariant
            i <= v@.len(),
            forall|a: int| 0 <= a < i ==> (#[trigger] v@[a]) is Some,
            forall|a: int, b: int| 0 <= a < i && 0 <= b < i && a != b ==> v@[a] != v@[b],
        decreases v@.len() - i,
    {
        if v[i].is_none() {
            return false;
        }
        let mut j: usize = 0;
        while j < i
            invariant
                i < v@.len(),
                j <= i,
                forall|b: int| 0 <= b < j ==> v@[b] != v@[i as int],
            decreases i - j,
        {
            if v[j] == v[i] {
                return false;
            }
            j += 1;
        }
        i += 1;
    }
    true
}

fn keys_unique(v: &Vec<(String, Window)>) -> (res: bool)
    ensures
        res == keys_distinct(v@),
{
    let mut i: usize = 0;
    while i < v.len()
        invariant
            i <= v@.len(),
            forall|a: int, b: int| 0 <= a < i && 0 <= b < i && a != b ==> v@[a].0@ != v@[b].0@,
        decreases v@.len() - i,
    {
        let mut j: usize = 0;
        while j < i
            invariant
                i < v@.len(),
                j <= i,
                forall|b: int| 0 <= b < j ==> v@[b].0@ != v@[i as int].0@,
            decreases i - j,
        {
            if str_eq(v[j].0.as_str(), v[i].0.as_str()) {
                return false;
            }
            j += 1;
        }
        i += 1;
    }
    true
}

fn workspace_ok(w: &Workspace) -> (res: bool)
    ensures
        res == workspace_wf(*w),
{
    sides_ok(&w.side_windows) && keys_unique(&w.key_hint_windows)
}

fn coord_in(v: i32) -> (res: bool)
    ensures
        res == crate::state::coord_ok(v),
{
    -COORD_LIMIT <= v && v <= COORD_LIMIT
}

impl State {
    /// Whether the state is well formed, as the decision functions require.
    pub fn well_formed(&self) -> (res: bool)
        ensures
            res == self.wf(),
    {
        if !functions_ascending(&self.settings.bindings.functions) {
            return false;
        }
        let n = self.monitors.len();
        let nws = self.settings.bindings.workspaces.len();
        if n == 0 || self.current_monitor >= n || self.current_workspace >= nws {
            return false;
        }
        let mut m: usize = 0;
        while m < n
            invariant
                n == self.monitors@.len(),
                nws == self.nws(),
                m <= n,
                forall|k: int| 0 <= k < m ==> (#[trigger] self.monitors@[k]).workspaces@.len() == self.nws()
                    && monitor_coords_ok(self.monitors@[k]),
                forall|k: int, w: int| 0 <= k < m && 0 <= w < self.nws() ==> workspace_wf(#[trigger] ws_at(*self, k, w)),
            decreases n - m,
        {
            let mon = &self.monitors[m];
            if mon.workspaces.len() != nws {
                return false;
            }
            if !(coord_in(mon.position.0) && coord_in(mon.position.1) && coord_in(mon.sizes.screen.0)
                && coord_in(mon.sizes.screen.1) && coord_in(mon.sizes.main.0) && coord_in(mon.sizes.main.1)
                && coord_in(mon.sizes.side.0) && coord_in(mon.sizes.side.1)) {
                return false;
            }
            let mut w: usize = 0;
            while w < nws
                invariant
                    m < n,
                    n == self.monitors@.len(),
                    nws == self.nws(),
                    mon == &self.monitors@[m as int],
                    mon.workspaces@.len() == nws,
                    w <= nws,
                    forall|j: int| 0 <= j < w ==> workspace_wf(#[trigger] ws_at(*self, m as int, j)),
                decreases nws - w,
            {
                if !workspace_ok(&mon.workspaces[w]) {
                    assert(!workspace_wf(ws_at(*self, m as int, w as int)));
                    return false;
                }
                w += 1;
            }
            m += 1;
        }
        true
    }
}

} // verus!
