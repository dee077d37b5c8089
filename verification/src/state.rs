//! The window manager's state: monitors, their workspaces, and which
//! windows sit in the main area, the side area, or float.
use vstd::prelude::*;
use crate::settings::Settings;

verus! {

/// An X window id.
pub type Window = u32;

/// The largest coordinate or size, in absolute value, that a monitor may have:
/// the layout adds up to four of them (and a small constant), which then still
/// fits in an `i32`.  X itself takes only 16-bit coordinates and sizes.
pub const COORD_LIMIT: i32 = 268435456;

/// Position and size of a monitor as the X server reports it.
#[derive(PartialEq, Eq, Debug, Clone, Copy)]
pub struct MonitorInfo {
    pub position: (i32, i32),
    pub size: (u32, u32),
}

/// Sizes of the whole screen, the main area and the side area of a monitor.
#[derive(PartialEq, Eq, Debug, Clone, Copy)]
pub struct Sizes {
    pub screen: (i32, i32),
    pub main: (i32, i32),
    pub side: (i32, i32),
}

impl Sizes {
    /// The sizes of a monitor whose main area is `main` (worked out from the
    /// layout setting): the side area takes the rest of the width.
    pub fn init(monitor_info: &MonitorInfo, main: (i32, i32)) -> (res: Sizes)
        requires
            i32::MIN <= (monitor_info.size.0 as i32) - main.0 <= i32::MAX,
        ensures
            res.screen == (monitor_info.size.0 as i32, monitor_info.size.1 as i32),
            res.main == main,
            res.side.0 == (monitor_info.size.0 as i32) - main.0,
            res.side.1 == main.1,
    {
        let screen: (i32, i32) = (monitor_info.size.0 as i32, monitor_info.size.1 as i32);
        let side = (screen.0 - main.0, main.1);
        Sizes { screen, main, side }
    }
}

/// One virtual workspace of a monitor.
pub struct Workspace {
    pub main_window: Option<Window>,
    pub side_windows: Vec<Option<Window>>,
    pub help_window: Option<Window>,
    /// Key hint windows by the swap key they show.
    pub key_hint_windows: Vec<(String, Window)>,
    pub floatings: Vec<Window>,
    pub fullscreen: bool,
}

impl Workspace {
    /// An empty workspace.
    pub fn new() -> (res: Workspace)
        ensures
            res.main_window is None,
            res.side_windows@.len() == 0,
            res.help_window is None,
            res.key_hint_windows@.len() == 0,
            res.floatings@.len() == 0,
            !res.fullscreen,
    {
        Workspace {
            main_window: None,
            side_windows: Vec::new(),
            help_window: None,
            key_hint_windows: Vec::new(),
            floatings: Vec::new(),
            fullscreen: false,
        }
    }
}

/// A monitor: its layout sizes, the top left corner of its main area, one
/// workspace per workspace key, and its close box window if one was placed.
pub struct Monitor {
    pub sizes: Sizes,
    pub position: (i32, i32),
    pub workspaces: Vec<Workspace>,
    pub close_box: Option<Window>,
}

impl Monitor {
    /// A monitor for `monitor_info`, with the main area size `main` and the
    /// layout offset `offset` worked out from the layout settings, and one
    /// empty workspace per workspace key of the settings.
    pub fn new(
        settings: &Settings,
        monitor_info: &MonitorInfo,
        main: (i32, i32),
        offset: (i32, i32),
    ) -> (res: Monitor)
        requires
            i32::MIN <= (monitor_info.size.0 as i32) - main.0 <= i32::MAX,
            i32::MIN <= offset.0 + monitor_info.position.0 <= i32::MAX,
            i32::MIN <= offset.1 + monitor_info.position.1 <= i32::MAX,
        ensures
            res.sizes.screen == (monitor_info.size.0 as i32, monitor_info.size.1 as i32),
            res.sizes.main == main,
            res.sizes.side.0 == (monitor_info.size.0 as i32) - main.0,
            res.sizes.side.1 == main.1,
            res.position.0 == offset.0 + monitor_info.position.0,
            res.position.1 == offset.1 + monitor_info.position.1,
            res.workspaces@.len() == settings.bindings.workspaces@.len(),
            forall|i: int| 0 <= i < res.workspaces@.len() ==> empty_workspace(#[trigger] res.workspaces@[i]),
            res.close_box is None,
    {
        let sizes = Sizes::init(monitor_info, main);
        let position = (offset.0 + monitor_info.position.0, offset.1 + monitor_info.position.1);
        let mut workspaces: Vec<Workspace> = Vec::new();
        let n = settings.bindings.workspaces.len();
        let mut i: usize = 0;
        while i < n
            invariant
                n == settings.bindings.workspaces@.len(),
                i <= n,
                workspaces@.len() == i,
                forall|j: int| 0 <= j < i ==> empty_workspace(#[trigger] workspaces@[j]),
            decreases n - i,
        {
            workspaces.push(Workspace::new());
            i += 1;
        }
        Monitor { sizes, position, workspaces, close_box: None }
    }
}

/// The layout of monitor `info`, with main area size `main` and offset
/// `offset`, fits in the coordinates a monitor is built with.
pub open spec fn layout_fits(info: MonitorInfo, main: (i32, i32), offset: (i32, i32)) -> bool {
    &&& i32::MIN <= (info.size.0 as i32) - main.0 <= i32::MAX
    &&& i32::MIN <= offset.0 + info.position.0 <= i32::MAX
    &&& i32::MIN <= offset.1 + info.position.1 <= i32::MAX
}

/// `m` is the monitor built for `info` with main area size `main` and offset
/// `offset` (see `Monitor::new`).
pub open spec fn built_monitor(settings: Settings, info: MonitorInfo, main: (i32, i32), offset: (i32, i32), m: Monitor) -> bool {
    &&& m.sizes.screen == (info.size.0 as i32, info.size.1 as i32)
    &&& m.sizes.main == main
    &&& m.sizes.side.0 == (info.size.0 as i32) - main.0
    &&& m.sizes.side.1 == main.1
    &&& m.position.0 == offset.0 + info.position.0
    &&& m.position.1 == offset.1 + info.position.1
    &&& m.workspaces@.len() == settings.bindings.workspaces@.len()
    &&& forall|i: int| 0 <= i < m.workspaces@.len() ==> empty_workspace(#[trigger] m.workspaces@[i])
    &&& m.close_box is None
}

/// The monitors for `infos`, each with its main area size and offset from
/// `layouts` (worked out from the layout settings), in order; none where the
/// two lists differ in length or a layout does not fit.
pub fn monitors_for(settings: &Settings, infos: &Vec<MonitorInfo>, layouts: &Vec<((i32, i32), (i32, i32))>) -> (res: Option<Vec<Monitor>>)
    ensures
        res is Some <==> infos@.len() == layouts@.len() && forall|i: int|
            0 <= i < infos@.len() ==> layout_fits(#[trigger] infos@[i], layouts@[i].0, layouts@[i].1),
        res matches Some(ms) ==> ms@.len() == infos@.len() && forall|i: int|
            0 <= i < ms@.len() ==> built_monitor(*settings, infos@[i], layouts@[i].0, layouts@[i].1, #[trigger] ms@[i]),
{
    if infos.len() != layouts.len() {
        return None;
    }
    let mut ms: Vec<Monitor> = Vec::new();
    let mut i: usize = 0;
    while i < infos.len()
        invariant
            infos@.len() == layouts@.len(),
            i <= infos@.len(),
            ms@.len() == i,
            forall|j: int| 0 <= j < i ==> layout_fits(#[trigger] infos@[j], layouts@[j].0, layouts@[j].1),
            forall|j: int| 0 <= j < i ==> built_monitor(*settings, infos@[j], layouts@[j].0, layouts@[j].1, #[trigger] ms@[j]),
        decreases infos@.len() - i,
    {
        let info = &infos[i];
        let (main, offset) = layouts[i];
        let side: i64 = (info.size.0 as i32) as i64 - main.0 as i64;
        let x: i64 = offset.0 as i64 + info.position.0 as i64;
        let y: i64 = offset.1 as i64 + info.position.1 as i64;
        if side < i32::MIN as i64 || side > i32::MAX as i64 || x < i32::MIN as i64 || x > i32::MAX as i64
            || y < i32::MIN as i64 || y > i32::MAX as i64 {
            return None;
        }
        let m = Monitor::new(settings, info, main, offset);
        ms.push(m);
        i += 1;
    }
    Some(ms)
}

/// A workspace with no windows at all.
pub open spec fn empty_workspace(w: Workspace) -> bool {
    &&& w.main_window is None
    &&& w.side_windows@.len() == 0
    &&& w.help_window is None
    &&& w.key_hint_windows@.len() == 0
    &&& w.floatings@.len() == 0
    &&& !w.fullscreen
}

/// The whole state of the window manager apart from the X connection.
pub struct State {
    pub settings: Settings,
    pub root: Window,
    pub monitors: Vec<Monitor>,
    pub current_monitor: usize,
    pub current_workspace: usize,
}

/// A coordinate or size is small enough that sums of a few of them fit.
pub open spec fn coord_ok(v: i32) -> bool {
    -COORD_LIMIT <= v <= COORD_LIMIT
}

/// All coordinates and sizes of a monitor are small enough.
pub open spec fn monitor_coords_ok(m: Monitor) -> bool {
    &&& coord_ok(m.position.0)
    &&& coord_ok(m.position.1)
    &&& coord_ok(m.sizes.screen.0)
    &&& coord_ok(m.sizes.screen.1)
    &&& coord_ok(m.sizes.main.0)
    &&& coord_ok(m.sizes.main.1)
    &&& coord_ok(m.sizes.side.0)
    &&& coord_ok(m.sizes.side.1)
}

/// The side windows are all present and pairwise distinct.
pub open spec fn sides_wf(s: Seq<Option<Window>>) -> bool {
    &&& forall|i: int| 0 <= i < s.len() ==> (#[trigger] s[i]) is Some
    &&& forall|i: int, j: int| 0 <= i < s.len() && 0 <= j < s.len() && i != j ==> s[i] != s[j]
}

/// The keys are pairwise distinct.
pub open spec fn keys_distinct(s: Seq<(String, Window)>) -> bool {
    forall|i: int, j: int| 0 <= i < s.len() && 0 <= j < s.len() && i != j ==> s[i].0@ != s[j].0@
}

/// A workspace's lists are well formed: the side list holds distinct
/// windows and the key hints distinct keys.  The floating list may hold a
/// window more than once: a pop-up that asks to be mapped again is added
/// again.
pub open spec fn workspace_wf(w: Workspace) -> bool {
    &&& sides_wf(w.side_windows@)
    &&& keys_distinct(w.key_hint_windows@)
}

/// The workspace `w` of monitor `m`.
pub open spec fn ws_at(s: State, m: int, w: int) -> Workspace {
    s.monitors@[m].workspaces@[w]
}

impl State {
    /// A state with the given monitors, on the first monitor and workspace.
    pub fn init(settings: Settings, root: Window, monitors: Vec<Monitor>) -> (res: State)
        ensures
            res.settings == settings,
            res.root == root,
            res.monitors@ == monitors@,
            res.current_monitor == 0,
            res.current_workspace == 0,
    {
        State { settings, root, monitors, current_monitor: 0, current_workspace: 0 }
    }

    /// Number of workspaces per monitor.
    pub open spec fn nws(&self) -> int {
        self.settings.bindings.workspaces@.len() as int
    }

    /// The current monitor.
    pub open spec fn mon(&self) -> Monitor {
        self.monitors@[self.current_monitor as int]
    }

    /// The current workspace of the current monitor.
    pub open spec fn ws(&self) -> Workspace {
        ws_at(*self, self.current_monitor as int, self.current_workspace as int)
    }

    /// The state is well formed: the function keys are in increasing order
    /// (each occurs once), there is a monitor, every monitor has one
    /// workspace per workspace key, the current indices are in range, all
    /// coordinates are small enough, and every workspace is well formed.
    pub open spec fn wf(&self) -> bool {
        &&& crate::settings::ascending_keys(crate::settings::function_keys(self.settings.bindings.functions@))
        &&& self.monitors@.len() > 0
        &&& self.current_monitor < self.monitors@.len()
        &&& self.current_workspace < self.nws()
        &&& forall|m: int|
            0 <= m < self.monitors@.len() ==> (#[trigger] self.monitors@[m]).workspaces@.len()
                == self.nws() && monitor_coords_ok(self.monitors@[m])
        &&& forall|m: int, w: int|
            0 <= m < self.monitors@.len() && 0 <= w < self.nws() ==> workspace_wf(
                #[trigger] ws_at(*self, m, w),
            )
    }

    /// The current monitor.
    pub fn monitor(&self) -> (res: &Monitor)
        requires
            self.current_monitor < self.monitors@.len(),
        ensures
            *res == self.mon(),
    {
        &self.monitors[self.current_monitor]
    }

    /// The current workspace.
    pub fn workspace(&self) -> (res: &Workspace)
        requires
            self.current_monitor < self.monitors@.len(),
            self.current_workspace < self.mon().workspaces@.len(),
        ensures
            *res == self.ws(),
    {
        &self.monitors[self.current_monitor].workspaces[self.current_workspace]
    }
}

/// Where a monitor at horizontal position `v` goes in a list ordered left to
/// right: after every monitor that is not further right.
pub open spec fn place(t: Seq<MonitorInfo>, v: i32) -> int
    decreases t.len(),
{
    if t.len() == 0 {
        0
    } else if t[0].position.0 > v {
        0
    } else {
        1 + place(t.drop_first(), v)
    }
}

/// The monitors ordered left to right, monitors at the same position kept in
/// the order given (a stable sort by horizontal position).
pub open spec fn sorted_infos(s: Seq<MonitorInfo>) -> Seq<MonitorInfo>
    decreases s.len(),
{
    if s.len() == 0 {
        s
    } else {
        let t = sorted_infos(s.drop_last());
        t.insert(place(t, s.last().position.0), s.last())
    }
}

proof fn lemma_place(t: Seq<MonitorInfo>, v: i32, j: int)
    requires
        0 <= j <= t.len(),
        forall|k: int| 0 <= k < j ==> (#[trigger] t[k]).position.0 <= v,
        j == t.len() || t[j].position.0 > v,
    ensures
        place(t, v) == j,
    decreases j,
{
    if j > 0 {
        let d = t.drop_first();
        assert forall|k: int| 0 <= k < j - 1 implies (#[trigger] d[k]).position.0 <= v by {
            assert(d[k] == t[k + 1]);
        }
        if j < t.len() {
            assert(d[j - 1] == t[j]);
        }
        lemma_place(d, v, j - 1);
        assert(t[0].position.0 <= v);
    }
}

/// Orders monitors left to right by horizontal position, keeping the given
/// order among monitors at the same position.
pub fn sort_monitor_infos(infos: &Vec<MonitorInfo>) -> (res: Vec<MonitorInfo>)
    ensures
        res@ == sorted_infos(infos@),
{
    let mut r: Vec<MonitorInfo> = Vec::new();
    let mut i: usize = 0;
    while i < infos.len()
        invariant
            i <= infos@.len(),
            r@ == sorted_infos(infos@.subrange(0, i as int)),
        decreases infos@.len() - i,
    {
        let info = infos[i];
        let v = info.position.0;
        let mut j: usize = 0;
        while j < r.len() && r[j].position.0 <= v
            invariant
                j <= r@.len(),
                forall|k: int| 0 <= k < j ==> (#[trigger] r@[k]).position.0 <= v,
            decreases r@.len() - j,
        {
            j += 1;
        }
        proof {
            lemma_place(r@, v, j as int);
            assert(infos@.subrange(0, i + 1).drop_last() =~= infos@.subrange(0, i as int));
            assert(infos@.subrange(0, i + 1).last() == info);
        }
        r.insert(j, info);
        i += 1;
    }
    assert(infos@.subrange(0, i as int) =~= infos@);
    r
}

/// `b` differs from `a` at most in the current workspace.
pub open spec fn only_ws_changed(a: State, b: State) -> bool {
    &&& a.settings == b.settings
    &&& a.root == b.root
    &&& a.current_monitor == b.current_monitor
    &&& a.current_workspace == b.current_workspace
    &&& a.monitors@.len() == b.monitors@.len()
    &&& forall|m: int|
        0 <= m < a.monitors@.len() ==> {
            &&& (#[trigger] b.monitors@[m]).sizes == a.monitors@[m].sizes
            &&& b.monitors@[m].position == a.monitors@[m].position
            &&& b.monitors@[m].close_box == a.monitors@[m].close_box
            &&& b.monitors@[m].workspaces@.len() == a.monitors@[m].workspaces@.len()
        }
    &&& forall|m: int, w: int|
        0 <= m < a.monitors@.len() && 0 <= w < a.monitors@[m].workspaces@.len() && (m
            != a.current_monitor || w != a.current_workspace) ==> #[trigger] ws_at(b, m, w)
            == ws_at(a, m, w)
}

/// `b` differs from `a` at most in the workspaces of the current monitor.
pub open spec fn only_monitor_changed(a: State, b: State) -> bool {
    &&& a.settings == b.settings
    &&& a.root == b.root
    &&& a.current_monitor == b.current_monitor
    &&& a.current_workspace == b.current_workspace
    &&& a.monitors@.len() == b.monitors@.len()
    &&& forall|m: int|
        0 <= m < a.monitors@.len() ==> {
            &&& (#[trigger] b.monitors@[m]).sizes == a.monitors@[m].sizes
            &&& b.monitors@[m].position == a.monitors@[m].position
            &&& b.monitors@[m].close_box == a.monitors@[m].close_box
            &&& b.monitors@[m].workspaces@.len() == a.monitors@[m].workspaces@.len()
        }
    &&& forall|m: int, w: int|
        0 <= m < a.monitors@.len() && 0 <= w < a.monitors@[m].workspaces@.len() && m
            != a.current_monitor ==> #[trigger] ws_at(b, m, w) == ws_at(a, m, w)
}

/// `only_ws_changed` composes.
pub proof fn lemma_only_ws_changed_trans(a: State, b: State, c: State)
    requires
        only_ws_changed(a, b),
        only_ws_changed(b, c),
    ensures
        only_ws_changed(a, c),
{
    assert forall|m: int, w: int|
        0 <= m < a.monitors@.len() && 0 <= w < a.monitors@[m].workspaces@.len() && (m
            != a.current_monitor || w != a.current_workspace) implies #[trigger] ws_at(c, m, w)
        == ws_at(a, m, w) by {
        assert(ws_at(b, m, w) == ws_at(a, m, w));
        assert(b.monitors@[m].workspaces@.len() == a.monitors@[m].workspaces@.len());
    }
    assert forall|m: int| 0 <= m < a.monitors@.len() implies {
        &&& (#[trigger] c.monitors@[m]).sizes == a.monitors@[m].sizes
        &&& c.monitors@[m].position == a.monitors@[m].position
        &&& c.monitors@[m].close_box == a.monitors@[m].close_box
        &&& c.monitors@[m].workspaces@.len() == a.monitors@[m].workspaces@.len()
    } by {
        assert(b.monitors@[m].sizes == a.monitors@[m].sizes);
    }
}

/// Where only the current workspace changed and it is still well formed,
/// the state is still well formed.
pub proof fn lemma_wf_kept(a: State, b: State)
    requires
        a.wf(),
        only_ws_changed(a, b),
        workspace_wf(b.ws()),
    ensures
        b.wf(),
{
    assert forall|m: int| 0 <= m < b.monitors@.len() implies (#[trigger] b.monitors@[m]).workspaces@.len()
        == b.nws() && monitor_coords_ok(b.monitors@[m]) by {
        assert(a.monitors@[m].workspaces@.len() == a.nws());
        assert(monitor_coords_ok(a.monitors@[m]));
    }
    assert forall|m: int, w: int| 0 <= m < b.monitors@.len() && 0 <= w < b.nws() implies workspace_wf(
        #[trigger] ws_at(b, m, w),
    ) by {
        if m != b.current_monitor || w != b.current_workspace {
            assert(a.monitors@[m].workspaces@.len() == a.nws());
            assert(ws_at(b, m, w) == ws_at(a, m, w));
            assert(workspace_wf(ws_at(a, m, w)));
        }
    }
}

} // verus!
