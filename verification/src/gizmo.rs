//! Gizmo mode selection from the E, R and T keys.
use vstd::prelude::*;

verus! {

/// The gizmo mode after a frame's key presses: E selects translate (0), R rotate
/// (1), T scale (2); E wins over R and T, R over T; with no key the mode stays.
pub open spec fn gizmo_mode(current: usize, e: bool, r: bool, t: bool) -> usize {
    if e {
        0
    } else if r {
        1
    } else if t {
        2
    } else {
        current
    }
}

/// Pure function resolving gizmo mode from key press booleans.
/// E → Translate (0), R → Rotate (1), T → Scale (2).
/// If multiple keys are pressed, E takes precedence, then R, then T.
pub fn resolve_gizmo_mode_pure(
    current: usize,
    e_pressed: bool,
    r_pressed: bool,
    t_pressed: bool,
) -> (mode: usize)
    ensures
        mode == gizmo_mode(current, e_pressed, r_pressed, t_pressed),
{
    if e_pressed {
        0
    } else if r_pressed {
        1
    } else if t_pressed {
        2
    } else {
        current
    }
}

/// A pressed mode key always yields one of the three modes, and no pressed key keeps
/// the mode.
pub proof fn lemma_gizmo_mode_range(current: usize, e: bool, r: bool, t: bool)
    ensures
        (e || r || t) ==> gizmo_mode(current, e, r, t) < 3,
        !(e || r || t) ==> gizmo_mode(current, e, r, t) == current,
{
}

} // verus!
