//! The requests that the window manager's decisions hand to the X connection.
use vstd::prelude::*;
use crate::state::Window;

verus! {

/// How grabbed pointer or keyboard events are released.
#[derive(PartialEq, Eq, Structural, Debug, Clone, Copy)]
pub enum Allow {
    AsyncBoth,
    ReplayPointer,
    AsyncPointer,
}

/// One request to the X server, or one program to start.
#[derive(Debug, PartialEq, Eq, Clone)]
pub enum Action {
    /// Move and resize a window.
    Configure { window: Window, x: i32, y: i32, width: u32, height: u32 },
    /// Place a side window in slot `index` of `count` equal slots that split
    /// `span` pixels downwards from `top`, at column `x` and `width` wide.
    SideSlot { window: Window, x: i32, top: i32, width: u32, span: i32, index: usize, count: usize },
    /// Place a key hint window, 60 by 60, at column `x` and at the top of slot
    /// `index` of `count` equal slots that split `span` pixels down from `top`.
    HintSlot { window: Window, x: i32, top: i32, span: i32, index: usize, count: usize },
    /// Center a window, at its own size, in the given area.
    Center { window: Window, x: i32, y: i32, width: i32, height: i32 },
    /// Stack a window above its siblings.
    Raise(Window),
    MapWindow(Window),
    UnmapWindow(Window),
    Destroy(Window),
    /// Mark a window active: the active-window property, input focus and
    /// raising where the window exists (window 0 clears it).
    SetActive(Window),
    /// Publish the current desktop number.
    SetCurrentDesktop(u32),
    AllowEvents(Allow),
    /// Run a shell command.
    Run(String),
    /// Start the key hint helper for a key.
    SpawnKeyHint(String),
    /// Start the help window helper.
    SpawnHelp,
    /// Start the close box helper.
    SpawnCloseBox,
    /// Start the monitor box helper.
    SpawnMonitorBox,
    /// Move the pointer to the center of the given area.
    WarpToCenter { x: i32, y: i32, width: i32, height: i32 },
}

/// `b` is `a` followed by more actions.
pub open spec fn extends(a: Seq<Action>, b: Seq<Action>) -> bool {
    a.len() <= b.len() && b.subrange(0, a.len() as int) == a
}

pub proof fn lemma_extends_trans(a: Seq<Action>, b: Seq<Action>, c: Seq<Action>)
    requires
        extends(a, b),
        extends(b, c),
    ensures
        extends(a, c),
{
    assert(c.subrange(0, a.len() as int) =~= c.subrange(0, b.len() as int).subrange(0, a.len() as int));
}

pub proof fn lemma_extends_index(a: Seq<Action>, b: Seq<Action>, i: int)
    requires
        extends(a, b),
        0 <= i < a.len(),
    ensures
        b[i] == a[i],
{
    assert(b.subrange(0, a.len() as int)[i] == b[i]);
}

pub proof fn lemma_extends_push(a: Seq<Action>, x: Action)
    ensures
        extends(a, a.push(x)),
{
    assert(a.push(x).subrange(0, a.len() as int) =~= a);
}

pub proof fn lemma_extends_append(a: Seq<Action>, b: Seq<Action>)
    ensures
        extends(a, a + b),
{
    assert((a + b).subrange(0, a.len() as int) =~= a);
}

pub proof fn lemma_extends_refl(a: Seq<Action>)
    ensures
        extends(a, a),
{
    assert(a.subrange(0, a.len() as int) =~= a);
}

} // verus!
