//! What the X server reported about windows when an event came in.
use vstd::prelude::*;
use crate::state::Window;

verus! {

/// The windows that exist on the server, as queried for the current event.
#[derive(Debug, Clone)]
pub struct World {
    pub live: Vec<Window>,
}

/// A window exists: it is not the null window and the server knows it.
pub open spec fn exists_in(world: &World, window: Window) -> bool {
    window != 0 && world.live@.contains(window)
}

/// Whether a window exists on the server.
pub fn window_exists(world: &World, window: Window) -> (res: bool)
    ensures
        res == exists_in(world, window),
{
    if window == 0 {
        return false;
    }
    let mut i: usize = 0;
    while i < world.live.len()
        invariant
            i <= world.live@.len(),
            window != 0,
            forall|j: int| 0 <= j < i ==> world.live@[j] != window,
        decreases world.live@.len() - i,
    {
        if world.live[i] == window {
            assert(world.live@[i as int] == window);
            assert(world.live@.contains(window));
            return true;
        }
        i += 1;
    }
    false
}

} // verus!
