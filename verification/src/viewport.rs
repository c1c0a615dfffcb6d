//! Editor viewports: up to four views, each with its own camera; the first is
//! the primary one and always stays.
use vstd::prelude::*;

verus! {

pub const MAX_VIEWPORTS: usize = 4;

pub const PRIMARY_VIEWPORT: usize = 0;

/// A single editor viewport with its own camera.
pub struct Viewport<C> {
    pub camera: C,
    pub name: String,
    pub open: bool,
    pub is_primary: bool,
}

impl<C: Default> Viewport<C> {
    /// A new open viewport with a default camera.
    pub fn new(name: &str, is_primary: bool) -> (v: Self)
        ensures
            v.name@ == name@,
            v.open,
            v.is_primary == is_primary,
    {
        Self { camera: C::default(), name: name.to_string(), open: true, is_primary }
    }
}

/// The name of the viewport added at position `idx`.
pub open spec fn viewport_name(idx: int) -> Seq<char> {
    if idx == 1 {
        "Viewport 2"@
    } else if idx == 2 {
        "Viewport 3"@
    } else if idx == 3 {
        "Viewport 4"@
    } else {
        "Viewport 1"@
    }
}

/// `after` is `before` after `add_viewport` returned `r`: with `MAX_VIEWPORTS` open
/// nothing changes and the result is `None`; otherwise an open, secondary viewport
/// named by its position is appended and its position returned.
pub open spec fn added_viewport<C>(before: Seq<Viewport<C>>, after: Seq<Viewport<C>>, r: Option<
    usize,
>) -> bool {
    if before.len() >= MAX_VIEWPORTS {
        r is None && after == before
    } else {
        &&& r == Some(before.len() as usize)
        &&& after.len() == before.len() + 1
        &&& after.take(before.len() as int) == before
        &&& after.last().name@ == viewport_name(before.len() as int)
        &&& after.last().open
        &&& !after.last().is_primary
    }
}

/// The viewports after `remove_viewport(index)`: a secondary viewport at `index` is
/// removed; the primary one and positions past the end are left alone.
pub open spec fn after_remove<C>(vs: Seq<Viewport<C>>, index: int) -> Seq<Viewport<C>> {
    if PRIMARY_VIEWPORT < index < vs.len() {
        vs.remove(index)
    } else {
        vs
    }
}

/// Adding a viewport never opens more than `MAX_VIEWPORTS` and keeps the primary
/// viewport first.
pub proof fn lemma_add_keeps_primary<C>(
    before: Seq<Viewport<C>>,
    after: Seq<Viewport<C>>,
    r: Option<usize>,
)
    requires
        added_viewport(before, after, r),
        1 <= before.len() <= MAX_VIEWPORTS,
    ensures
        1 <= after.len() <= MAX_VIEWPORTS,
        after[0] == before[0],
{
    if before.len() < MAX_VIEWPORTS {
        assert(after[0] == after.take(before.len() as int)[0]);
    }
}

/// Removing a viewport never removes the primary one.
pub proof fn lemma_remove_keeps_primary<C>(vs: Seq<Viewport<C>>, index: int)
    requires
        vs.len() >= 1,
    ensures
        after_remove(vs, index).len() >= 1,
        after_remove(vs, index).len() <= vs.len(),
        after_remove(vs, index)[0] == vs[0],
{
}

/// The viewports as the manager keeps them: one to `MAX_VIEWPORTS` of them, the
/// first the primary viewport called "Viewport", and no other one primary.
pub open spec fn viewports_ok<C>(vs: Seq<Viewport<C>>) -> bool {
    &&& 1 <= vs.len() <= MAX_VIEWPORTS
    &&& vs[0].is_primary
    &&& vs[0].name@ == "Viewport"@
    &&& forall|i: int| 1 <= i < vs.len() ==> !(#[trigger] vs[i]).is_primary
}

/// `after` follows `before` by one call of `add_viewport` or `remove_viewport`.
pub open spec fn viewport_step<C>(before: Seq<Viewport<C>>, after: Seq<Viewport<C>>) -> bool {
    ||| exists|r: Option<usize>| added_viewport(before, after, r)
    ||| exists|index: int| after == after_remove(before, index)
}

/// The viewports that `new` makes satisfy the manager's invariant.
pub proof fn lemma_new_viewports_ok<C>(vs: Seq<Viewport<C>>)
    requires
        vs.len() == 1,
        vs[0].name@ == "Viewport"@,
        vs[0].is_primary,
    ensures
        viewports_ok(vs),
{
}

/// Adding or removing a viewport keeps the manager's invariant.
pub proof fn lemma_step_keeps_viewports_ok<C>(before: Seq<Viewport<C>>, after: Seq<Viewport<C>>)
    requires
        viewports_ok(before),
        viewport_step(before, after),
    ensures
        viewports_ok(after),
{
    if exists|r: Option<usize>| added_viewport(before, after, r) {
        let r = choose|r: Option<usize>| added_viewport(before, after, r);
        lemma_add_keeps_primary(before, after, r);
        if before.len() < MAX_VIEWPORTS {
            assert forall|i: int| 1 <= i < after.len() implies !(#[trigger] after[i]).is_primary by {
                if i < before.len() {
                    assert(after[i] == after.take(before.len() as int)[i]);
                }
            }
        }
    } else {
        let index = choose|index: int| after == after_remove(before, index);
        lemma_remove_keeps_primary(before, index);
        if PRIMARY_VIEWPORT < index < before.len() {
            assert forall|i: int| 1 <= i < after.len() implies !(#[trigger] after[i]).is_primary by {
                if i < index {
                    assert(after[i] == before[i]);
                } else {
                    assert(after[i] == before[i + 1]);
                }
            }
        }
    }
}

/// Over any sequence of `add_viewport` and `remove_viewport` calls after `new`,
/// the manager keeps one to `MAX_VIEWPORTS` viewports, the first one the primary
/// viewport called "Viewport" and no other one primary.
pub proof fn lemma_viewports_ok_after_calls<C>(states: Seq<Seq<Viewport<C>>>)
    requires
        states.len() >= 1,
        states[0].len() == 1,
        states[0][0].name@ == "Viewport"@,
        states[0][0].is_primary,
        forall|i: int| 0 <= i < states.len() - 1 ==> viewport_step(states[i], #[trigger] states[i + 1]),
    ensures
        forall|i: int| 0 <= i < states.len() ==> viewports_ok(#[trigger] states[i]),
    decreases states.len(),
{
    if states.len() == 1 {
        lemma_new_viewports_ok(states[0]);
    } else {
        let init = states.drop_last();
        assert forall|i: int| 0 <= i < init.len() - 1 implies viewport_step(
            init[i],
            #[trigger] init[i + 1],
        ) by {
            assert(viewport_step(states[i], states[i + 1]));
        }
        lemma_viewports_ok_after_calls(init);
        let k = states.len() - 1;
        assert(viewports_ok(init[k - 1]));
        assert(viewport_step(states[k - 1], states[(k - 1) + 1]));
        lemma_step_keeps_viewports_ok(states[k - 1], states[k]);
        assert forall|i: int| 0 <= i < states.len() implies viewports_ok(#[trigger] states[i]) by {
            if i < k {
                assert(states[i] == init[i]);
            }
        }
    }
}

/// Manages up to `MAX_VIEWPORTS` viewports. Viewport 0 is always the primary.
pub struct ViewportManager<C> {
    pub viewports: Vec<Viewport<C>>,
}

impl<C: Default> ViewportManager<C> {
    pub fn new() -> (m: Self)
        ensures
            m.viewports@.len() == 1,
            m.viewports@[0].name@ == "Viewport"@,
            m.viewports@[0].open,
            m.viewports@[0].is_primary,
    {
        let mut viewports = Vec::with_capacity(MAX_VIEWPORTS);
        viewports.push(Viewport::new("Viewport", true));
        Self { viewports }
    }

    /// Add a secondary viewport at the end; returns its position, or `None` when
    /// `MAX_VIEWPORTS` are open already.
    pub fn add_viewport(&mut self) -> (r: Option<usize>)
        ensures
            added_viewport(old(self).viewports@, final(self).viewports@, r),
    {
        if self.viewports.len() >= MAX_VIEWPORTS {
            return None;
        }
        let idx = self.viewports.len();
        // idx < MAX_VIEWPORTS here, so 0 is the only position without its own arm.
        let name = match idx {
            1 => "Viewport 2".to_string(),
            2 => "Viewport 3".to_string(),
            3 => "Viewport 4".to_string(),
            _ => "Viewport 1".to_string(),
        };
        let ghost old_views = self.viewports@;
        self.viewports.push(Viewport::new(name.as_str(), false));
        assert(self.viewports@.take(idx as int) =~= old_views);
        Some(idx)
    }
}

impl<C> ViewportManager<C> {
    pub fn primary_camera_mut(&mut self) -> (r: &mut C)
        requires
            old(self).viewports@.len() > PRIMARY_VIEWPORT,
        ensures
            *r == old(self).viewports@[0].camera,
            final(self).viewports@ == old(self).viewports@.update(
                0,
                Viewport { camera: *final(r), ..old(self).viewports@[0] },
            ),
    {
        &mut self.viewports[PRIMARY_VIEWPORT].camera
    }

    pub fn primary_camera(&self) -> (r: &C)
        requires
            self.viewports@.len() > PRIMARY_VIEWPORT,
        ensures
            *r == self.viewports@[0].camera,
    {
        &self.viewports[PRIMARY_VIEWPORT].camera
    }

    /// Remove a secondary viewport; the primary viewport and positions past the end
    /// are left alone.
    pub fn remove_viewport(&mut self, index: usize)
        ensures
            final(self).viewports@ == after_remove(old(self).viewports@, index as int),
    {
        if index > PRIMARY_VIEWPORT && index < self.viewports.len() {
            self.viewports.remove(index);
        }
    }
}

} // verus!
