//! Mathematical descriptions of the window lists: the floating windows that
//! still exist, and the key hint windows seen as a map from key to window.
use vstd::prelude::*;
use crate::safety::{World, exists_in};
use crate::state::{Window, keys_distinct, sides_wf};
use crate::text::str_eq;

verus! {

/// The windows of `s` that exist, in order.
pub open spec fn live_only(s: Seq<Window>, world: &World) -> Seq<Window>
    decreases s.len(),
{
    if s.len() == 0 {
        s
    } else if exists_in(world, s.last()) {
        live_only(s.drop_last(), world).push(s.last())
    } else {
        live_only(s.drop_last(), world)
    }
}

/// `s` without any occurrence of `w`, in order.
pub open spec fn without(s: Seq<Window>, w: Window) -> Seq<Window>
    decreases s.len(),
{
    if s.len() == 0 {
        s
    } else if s.last() != w {
        without(s.drop_last(), w).push(s.last())
    } else {
        without(s.drop_last(), w)
    }
}

/// Some window of `s` no longer exists.
pub open spec fn has_dead(s: Seq<Window>, world: &World) -> bool {
    exists|i: int| 0 <= i < s.len() && !exists_in(world, #[trigger] s[i])
}

pub proof fn lemma_live_only_contains(s: Seq<Window>, world: &World, x: Window)
    ensures
        live_only(s, world).contains(x) <==> (s.contains(x) && exists_in(world, x)),
        live_only(s, world).len() <= s.len(),
    decreases s.len(),
{
    if s.len() > 0 {
        lemma_live_only_contains(s.drop_last(), world, x);
        assert(s =~= s.drop_last().push(s.last()));
        let d = s.drop_last();
        if s.contains(x) && !d.contains(x) {
            assert(x == s.last()) by {
                let i = choose|i: int| 0 <= i < s.len() && s[i] == x;
                if i < s.len() - 1 {
                    assert(d[i] == x);
                }
            }
        }
        if d.contains(x) {
            let i = choose|i: int| 0 <= i < d.len() && d[i] == x;
            assert(s[i] == x);
        }
        if exists_in(world, s.last()) {
            let l = live_only(d, world);
            if l.push(s.last()).contains(x) && x != s.last() {
                let i = choose|i: int| 0 <= i < l.push(s.last()).len() && l.push(s.last())[i] == x;
                assert(l[i] == x);
            }
            if l.contains(x) {
                let i = choose|i: int| 0 <= i < l.len() && l[i] == x;
                assert(l.push(s.last())[i] == x);
            }
            assert(l.push(s.last())[l.len() as int] == s.last());
        }
    }
}

pub proof fn lemma_live_only_no_dead(s: Seq<Window>, world: &World)
    ensures
        !has_dead(live_only(s, world), world),
{
    let l = live_only(s, world);
    if has_dead(l, world) {
        let i = choose|i: int| 0 <= i < l.len() && !exists_in(world, #[trigger] l[i]);
        lemma_live_only_contains(s, world, l[i]);
        assert(l.contains(l[i]));
    }
}

pub proof fn lemma_live_only_idem(s: Seq<Window>, world: &World)
    ensures
        live_only(live_only(s, world), world) == live_only(s, world),
    decreases s.len(),
{
    if s.len() > 0 {
        let d = s.drop_last();
        lemma_live_only_idem(d, world);
        if exists_in(world, s.last()) {
            let l = live_only(d, world);
            assert(l.push(s.last()).drop_last() =~= l);
        }
    }
}

pub proof fn lemma_live_only_all_live(s: Seq<Window>, world: &World)
    requires
        !has_dead(s, world),
    ensures
        live_only(s, world) == s,
    decreases s.len(),
{
    if s.len() > 0 {
        let d = s.drop_last();
        assert(!has_dead(d, world)) by {
            if has_dead(d, world) {
                let i = choose|i: int| 0 <= i < d.len() && !exists_in(world, #[trigger] d[i]);
                assert(s[i] == d[i]);
            }
        }
        lemma_live_only_all_live(d, world);
        assert(!exists_in(world, s[s.len() - 1]) ==> has_dead(s, world));
        assert(d.push(s.last()) =~= s);
    }
}

pub proof fn lemma_live_only_without(s: Seq<Window>, world: &World, w: Window)
    requires
        !exists_in(world, w),
    ensures
        live_only(without(s, w), world) == live_only(s, world),
    decreases s.len(),
{
    if s.len() > 0 {
        let d = s.drop_last();
        lemma_live_only_without(d, world, w);
        if s.last() != w {
            let t = without(d, w);
            assert(t.push(s.last()).drop_last() =~= t);
        }
    }
}

pub proof fn lemma_without_contains(s: Seq<Window>, w: Window, x: Window)
    ensures
        without(s, w).contains(x) <==> (s.contains(x) && x != w),
        without(s, w).len() <= s.len(),
    decreases s.len(),
{
    if s.len() > 0 {
        let d = s.drop_last();
        lemma_without_contains(d, w, x);
        if d.contains(x) {
            let i = choose|i: int| 0 <= i < d.len() && d[i] == x;
            assert(s[i] == x);
        }
        if s.contains(x) && !d.contains(x) {
            let i = choose|i: int| 0 <= i < s.len() && s[i] == x;
            if i < s.len() - 1 {
                assert(d[i] == x);
            }
        }
        if s.last() != w {
            let t = without(d, w);
            let p = t.push(s.last());
            assert(p[t.len() as int] == s.last());
            if p.contains(x) && x != s.last() {
                let i = choose|i: int| 0 <= i < p.len() && p[i] == x;
                assert(t[i] == x);
            }
            if t.contains(x) {
                let i = choose|i: int| 0 <= i < t.len() && t[i] == x;
                assert(p[i] == x);
            }
        }
    }
}

/// Dropping a window that occurs shortens the list.
pub proof fn lemma_without_shorter(s: Seq<Window>, w: Window)
    requires
        s.contains(w),
    ensures
        without(s, w).len() < s.len(),
    decreases s.len(),
{
    let d = s.drop_last();
    lemma_without_contains(d, w, w);
    if s.last() != w {
        let i = choose|i: int| 0 <= i < s.len() && s[i] == w;
        assert(d[i] == w);
        lemma_without_shorter(d, w);
    }
}

/// The side list without `w` (and without empty entries), in order.
pub open spec fn side_without(s: Seq<Option<Window>>, w: Window) -> Seq<Option<Window>>
    decreases s.len(),
{
    if s.len() == 0 {
        s
    } else if s.last() is Some && s.last() != Some(w) {
        side_without(s.drop_last(), w).push(s.last())
    } else {
        side_without(s.drop_last(), w)
    }
}

/// The side windows that exist, in order.
pub open spec fn live_sides(s: Seq<Option<Window>>, world: &World) -> Seq<Option<Window>>
    decreases s.len(),
{
    if s.len() == 0 {
        s
    } else if s.last() is Some && exists_in(world, s.last().unwrap()) {
        live_sides(s.drop_last(), world).push(s.last())
    } else {
        live_sides(s.drop_last(), world)
    }
}

/// Some entry of the side list is not an existing window.
pub open spec fn has_dead_side(s: Seq<Option<Window>>, world: &World) -> bool {
    exists|i: int| 0 <= i < s.len() && !((#[trigger] s[i]) is Some && exists_in(world, s[i].unwrap()))
}

pub proof fn lemma_live_sides_all_live(s: Seq<Option<Window>>, world: &World)
    requires
        !has_dead_side(s, world),
    ensures
        live_sides(s, world) == s,
    decreases s.len(),
{
    if s.len() > 0 {
        let d = s.drop_last();
        assert(!has_dead_side(d, world)) by {
            if has_dead_side(d, world) {
                let i = choose|i: int| 0 <= i < d.len() && !((#[trigger] d[i]) is Some && exists_in(world, d[i].unwrap()));
                assert(s[i] == d[i]);
            }
        }
        lemma_live_sides_all_live(d, world);
        assert(s[s.len() - 1] is Some && exists_in(world, s[s.len() - 1].unwrap()));
        assert(d.push(s.last()) =~= s);
    }
}

pub proof fn lemma_live_sides_live(s: Seq<Option<Window>>, world: &World, i: int)
    requires
        0 <= i < live_sides(s, world).len(),
    ensures
        live_sides(s, world)[i] is Some && exists_in(world, live_sides(s, world)[i].unwrap()),
        live_sides(s, world).len() <= s.len(),
    decreases s.len(),
{
    if s.len() > 0 {
        let d = s.drop_last();
        if s.last() is Some && exists_in(world, s.last().unwrap()) {
            if i < live_sides(d, world).len() {
                lemma_live_sides_live(d, world, i);
            }
            lemma_live_sides_len(d, world);
        } else {
            lemma_live_sides_live(d, world, i);
        }
    }
}

pub proof fn lemma_live_sides_len(s: Seq<Option<Window>>, world: &World)
    ensures
        live_sides(s, world).len() <= s.len(),
    decreases s.len(),
{
    if s.len() > 0 {
        lemma_live_sides_len(s.drop_last(), world);
    }
}

/// The side list after `w` is sent to it: taken out where it was, then put
/// at position `at` where that is within the list, else at the end.
pub open spec fn sent_sides(s: Seq<Option<Window>>, w: Window, at: Option<usize>) -> Seq<
    Option<Window>,
> {
    let r = side_without(s, w);
    match at {
        Some(i) => if i <= r.len() {
            r.insert(i as int, Some(w))
        } else {
            r.push(Some(w))
        },
        None => r.push(Some(w)),
    }
}

pub proof fn lemma_side_without_contains(s: Seq<Option<Window>>, w: Window, x: Option<Window>)
    ensures
        side_without(s, w).contains(x) <==> (s.contains(x) && x is Some && x != Some(w)),
    decreases s.len(),
{
    if s.len() > 0 {
        let d = s.drop_last();
        lemma_side_without_contains(d, w, x);
        if d.contains(x) {
            let i = choose|i: int| 0 <= i < d.len() && d[i] == x;
            assert(s[i] == x);
        }
        if s.contains(x) && !d.contains(x) {
            let i = choose|i: int| 0 <= i < s.len() && s[i] == x;
            if i < s.len() - 1 {
                assert(d[i] == x);
            }
        }
        let t = side_without(d, w);
        if s.last() is Some && s.last() != Some(w) {
            let p = t.push(s.last());
            assert(p[t.len() as int] == s.last());
            if p.contains(x) && x != s.last() {
                let i = choose|i: int| 0 <= i < p.len() && p[i] == x;
                assert(t[i] == x);
            }
            if t.contains(x) {
                let i = choose|i: int| 0 <= i < t.len() && t[i] == x;
                assert(p[i] == x);
            }
        }
    }
}

/// On a well formed side list, dropping `w` is removing its one entry.
pub proof fn lemma_side_without_remove(s: Seq<Option<Window>>, w: Window, i: int)
    requires
        sides_wf(s),
        0 <= i < s.len(),
        s[i] == Some(w),
    ensures
        side_without(s, w) == s.remove(i),
    decreases s.len(),
{
    let d = s.drop_last();
    assert(sides_wf(d));
    if i == s.len() - 1 {
        lemma_side_without_absent(d, w);
        assert(s.remove(i) =~= d);
    } else {
        assert(d[i] == Some(w));
        lemma_side_without_remove(d, w, i);
        assert(s.last() != Some(w));
        assert(s.remove(i) =~= d.remove(i).push(s.last()));
    }
}

/// On a side list without empty entries or `w`, dropping `w` changes nothing.
pub proof fn lemma_side_without_absent(s: Seq<Option<Window>>, w: Window)
    requires
        forall|j: int| 0 <= j < s.len() ==> (#[trigger] s[j]) is Some && s[j] != Some(w),
    ensures
        side_without(s, w) == s,
    decreases s.len(),
{
    if s.len() > 0 {
        let d = s.drop_last();
        lemma_side_without_absent(d, w);
        assert(d.push(s.last()) =~= s);
    }
}

/// Removing an entry keeps a side list well formed.
pub proof fn lemma_sides_wf_remove(s: Seq<Option<Window>>, i: int)
    requires
        sides_wf(s),
        0 <= i < s.len(),
    ensures
        sides_wf(s.remove(i)),
{
    let r = s.remove(i);
    assert forall|a: int, b: int| 0 <= a < r.len() && 0 <= b < r.len() && a != b implies r[a] != r[b] by {
        let a2 = if a < i { a } else { a + 1 };
        let b2 = if b < i { b } else { b + 1 };
        assert(r[a] == s[a2] && r[b] == s[b2]);
    }
    assert forall|a: int| 0 <= a < r.len() implies (#[trigger] r[a]) is Some by {
        let a2 = if a < i { a } else { a + 1 };
        assert(r[a] == s[a2]);
    }
}

/// The key hint windows seen as a map from key to window.
pub open spec fn hint_map(v: Seq<(String, Window)>) -> Map<Seq<char>, Window>
    decreases v.len(),
{
    if v.len() == 0 {
        Map::empty()
    } else {
        hint_map(v.drop_last()).insert(v.last().0@, v.last().1)
    }
}

pub proof fn lemma_hint_map_dom(v: Seq<(String, Window)>, k: Seq<char>)
    ensures
        hint_map(v).dom().contains(k) <==> exists|i: int| 0 <= i < v.len() && (#[trigger] v[i]).0@ == k,
        hint_map(v).dom().finite(),
    decreases v.len(),
{
    if v.len() > 0 {
        let d = v.drop_last();
        lemma_hint_map_dom(d, k);
        if exists|i: int| 0 <= i < d.len() && (#[trigger] d[i]).0@ == k {
            let i = choose|i: int| 0 <= i < d.len() && (#[trigger] d[i]).0@ == k;
            assert(v[i] == d[i]);
        }
        if exists|i: int| 0 <= i < v.len() && (#[trigger] v[i]).0@ == k {
            let i = choose|i: int| 0 <= i < v.len() && (#[trigger] v[i]).0@ == k;
            if i < v.len() - 1 {
                assert(d[i] == v[i]);
            }
        }
    }
}

pub proof fn lemma_hint_map_index(v: Seq<(String, Window)>, i: int)
    requires
        keys_distinct(v),
        0 <= i < v.len(),
    ensures
        hint_map(v).dom().contains(v[i].0@),
        hint_map(v)[v[i].0@] == v[i].1,
    decreases v.len(),
{
    lemma_hint_map_dom(v, v[i].0@);
    if i < v.len() - 1 {
        let d = v.drop_last();
        assert(keys_distinct(d));
        assert(d[i] == v[i]);
        lemma_hint_map_index(d, i);
        assert(v[v.len() - 1].0@ != v[i].0@);
    }
}

pub proof fn lemma_hint_map_push(v: Seq<(String, Window)>, p: (String, Window))
    requires
        keys_distinct(v),
        !hint_map(v).dom().contains(p.0@),
    ensures
        hint_map(v.push(p)) == hint_map(v).insert(p.0@, p.1),
        keys_distinct(v.push(p)),
{
    assert(v.push(p).drop_last() =~= v);
    assert forall|i: int, j: int|
        0 <= i < v.push(p).len() && 0 <= j < v.push(p).len() && i != j implies v.push(p)[i].0@
        != v.push(p)[j].0@ by {
        if i == v.len() {
            lemma_hint_map_dom(v, p.0@);
            assert(v[j] == v.push(p)[j]);
        } else if j == v.len() {
            lemma_hint_map_dom(v, p.0@);
            assert(v[i] == v.push(p)[i]);
        }
    }
}

pub proof fn lemma_hint_map_remove(v: Seq<(String, Window)>, i: int)
    requires
        keys_distinct(v),
        0 <= i < v.len(),
    ensures
        hint_map(v.remove(i)) == hint_map(v).remove(v[i].0@),
        keys_distinct(v.remove(i)),
    decreases v.len(),
{
    let r = v.remove(i);
    assert forall|a: int, b: int| 0 <= a < r.len() && 0 <= b < r.len() && a != b implies r[a].0@
        != r[b].0@ by {
        let a2 = if a < i {
            a
        } else {
            a + 1
        };
        let b2 = if b < i {
            b
        } else {
            b + 1
        };
        assert(r[a] == v[a2] && r[b] == v[b2]);
    }
    if i == v.len() - 1 {
        assert(r =~= v.drop_last());
        let d = v.drop_last();
        lemma_hint_map_dom(d, v[i].0@);
        assert(!hint_map(d).dom().contains(v[i].0@)) by {
            if hint_map(d).dom().contains(v[i].0@) {
                let j = choose|j: int| 0 <= j < d.len() && (#[trigger] d[j]).0@ == v[i].0@;
                assert(v[j] == d[j]);
            }
        }
        assert(hint_map(v).remove(v[i].0@) =~= hint_map(d));
    } else {
        let d = v.drop_last();
        assert(keys_distinct(d));
        lemma_hint_map_remove(d, i);
        assert(r.drop_last() =~= d.remove(i));
        assert(r.last() == v.last());
        assert(v.last().0@ != v[i].0@);
        assert(hint_map(r) =~= hint_map(v).remove(v[i].0@));
    }
}

pub proof fn lemma_hint_map_set(v: Seq<(String, Window)>, i: int, x: Window)
    requires
        keys_distinct(v),
        0 <= i < v.len(),
    ensures
        hint_map(v.update(i, (v[i].0, x))) == hint_map(v).insert(v[i].0@, x),
        keys_distinct(v.update(i, (v[i].0, x))),
    decreases v.len(),
{
    let u = v.update(i, (v[i].0, x));
    assert forall|a: int, b: int| 0 <= a < u.len() && 0 <= b < u.len() && a != b implies u[a].0@
        != u[b].0@ by {
        assert(u[a].0@ == v[a].0@ && u[b].0@ == v[b].0@);
    }
    if i == v.len() - 1 {
        assert(u.drop_last() =~= v.drop_last());
        assert(hint_map(u) =~= hint_map(v).insert(v[i].0@, x));
    } else {
        let d = v.drop_last();
        assert(keys_distinct(d));
        lemma_hint_map_set(d, i, x);
        assert(u.drop_last() =~= d.update(i, (d[i].0, x)));
        assert(v.last().0@ != v[i].0@);
        assert(hint_map(u) =~= hint_map(v).insert(v[i].0@, x));
    }
}

/// The key hint map after the hints are audited for `n` side windows: a swap
/// key among the first `n` gets a hint (an existing one is kept, a new one is
/// recorded as window 0 until its helper maps it), and a swap key after them
/// loses its hint.
pub open spec fn hints_after(m: Map<Seq<char>, Window>, swaps: Seq<Seq<char>>, n: int) -> Map<
    Seq<char>,
    Window,
> {
    let cut = if n < swaps.len() {
        n
    } else {
        swaps.len() as int
    };
    let shown = swaps.subrange(0, cut);
    let hidden = swaps.subrange(cut, swaps.len() as int);
    Map::new(
        |k: Seq<char>| !hidden.contains(k) && (shown.contains(k) || m.dom().contains(k)),
        |k: Seq<char>|
            if m.dom().contains(k) {
                m[k]
            } else {
                0
            },
    )
}

/// Auditing the hints twice is auditing them once.
pub proof fn lemma_hints_after_idem(m: Map<Seq<char>, Window>, swaps: Seq<Seq<char>>, n: int)
    ensures
        hints_after(hints_after(m, swaps, n), swaps, n) == hints_after(m, swaps, n),
{
    assert(hints_after(hints_after(m, swaps, n), swaps, n) =~= hints_after(m, swaps, n));
}

/// Auditing one more swap key.
pub proof fn lemma_hints_step(m: Map<Seq<char>, Window>, s: Seq<Seq<char>>, k: Seq<char>, n: int)
    requires
        0 <= n,
    ensures
        hints_after(m, s.push(k), n) == (if s.len() < n {
            if hints_after(m, s, n).dom().contains(k) {
                hints_after(m, s, n)
            } else {
                hints_after(m, s, n).insert(k, 0)
            }
        } else {
            hints_after(m, s, n).remove(k)
        }),
{
    let t = s.push(k);
    if s.len() < n {
        assert(t.subrange(0, t.len() as int) =~= t);
        assert(s.subrange(0, s.len() as int) =~= s);
        assert(t.subrange(t.len() as int, t.len() as int) =~= Seq::<Seq<char>>::empty());
        assert(s.subrange(s.len() as int, s.len() as int) =~= Seq::<Seq<char>>::empty());
        assert forall|x: Seq<char>| t.contains(x) <==> (s.contains(x) || x == k) by {
            if t.contains(x) && x != k {
                let i = choose|i: int| 0 <= i < t.len() && t[i] == x;
                assert(s[i] == x);
            }
            if s.contains(x) {
                let i = choose|i: int| 0 <= i < s.len() && s[i] == x;
                assert(t[i] == x);
            }
            assert(t[s.len() as int] == k);
        }
        if hints_after(m, s, n).dom().contains(k) {
            assert(hints_after(m, t, n) =~= hints_after(m, s, n));
        } else {
            assert(hints_after(m, t, n) =~= hints_after(m, s, n).insert(k, 0));
        }
    } else {
        let cut = if n < s.len() {
            n
        } else {
            s.len() as int
        };
        let cut2 = if n < t.len() {
            n
        } else {
            t.len() as int
        };
        assert(cut == cut2);
        assert(t.subrange(0, cut) =~= s.subrange(0, cut));
        let h1 = s.subrange(cut, s.len() as int);
        let h2 = t.subrange(cut, t.len() as int);
        assert(h2 =~= h1.push(k));
        assert forall|x: Seq<char>| h2.contains(x) <==> (h1.contains(x) || x == k) by {
            if h2.contains(x) && x != k {
                let i = choose|i: int| 0 <= i < h2.len() && h2[i] == x;
                assert(h1[i] == x);
            }
            if h1.contains(x) {
                let i = choose|i: int| 0 <= i < h1.len() && h1[i] == x;
                assert(h2[i] == x);
            }
            assert(h2[h1.len() as int] == k);
        }
        assert(hints_after(m, t, n) =~= hints_after(m, s, n).remove(k));
    }
}

/// Finds the entry of a key among the key hint windows.
pub fn find_hint(v: &Vec<(String, Window)>, key: &str) -> (res: Option<usize>)
    ensures
        match res {
            Some(i) => i < v@.len() && v@[i as int].0@ == key@,
            None => forall|i: int| 0 <= i < v@.len() ==> (#[trigger] v@[i]).0@ != key@,
        },
{
    let mut i: usize = 0;
    while i < v.len()
        invariant
            i <= v@.len(),
            forall|j: int| 0 <= j < i ==> (#[trigger] v@[j]).0@ != key@,
        decreases v@.len() - i,
    {
        if str_eq(v[i].0.as_str(), key) {
            return Some(i);
        }
        i += 1;
    }
    None
}

/// A copy of a window list.
pub fn copy_windows(v: &Vec<Window>) -> (res: Vec<Window>)
    ensures
        res@ == v@,
{
    let mut r: Vec<Window> = Vec::new();
    let mut i: usize = 0;
    while i < v.len()
        invariant
            i <= v@.len(),
            r@ == v@.subrange(0, i as int),
        decreases v@.len() - i,
    {
        r.push(v[i]);
        i += 1;
        assert(r@ =~= v@.subrange(0, i as int));
    }
    assert(r@ =~= v@);
    r
}

} // verus!
