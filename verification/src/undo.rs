//! Undo / redo history of editor actions, with compound actions and undo or
//! redo restricted to one subsystem of the editor.
//!
//! An action carries its kind, which decides the subsystem it belongs to, and
//! a payload of the caller's choosing (the entity and the state to restore).
use vstd::prelude::*;

verus! {

/// The part of the editor that an action touches.
#[derive(Clone, Copy, PartialEq, Eq, Debug, Structural)]
pub enum Subsystem {
    Transform,
    Hierarchy,
    Rendering,
    Audio,
    Physics,
    Scripting,
    All,
}

/// The kinds of single editor actions.
#[derive(Clone, Copy, PartialEq, Eq, Debug, Structural)]
pub enum ActionKind {
    AddEntity,
    DeleteEntity,
    RenameEntity,
    TransformEntity,
    DirectionalLightChanged,
    PointLightChanged,
    SpotLightChanged,
    MaterialChanged,
    AudioSourceChanged,
    ScriptComponentChanged,
    RigidBodyChanged,
    ColliderChanged,
    MeshComponentChanged,
    AudioListenerChanged,
    CameraChanged,
    ParentChanged,
    ComponentAdded,
    ComponentRemoved,
}

/// An undoable editor action: a single action, or a named group of actions
/// that undo and redo together.
pub enum EditorAction<P> {
    Single { kind: ActionKind, payload: P },
    Compound { name: String, actions: Vec<EditorAction<P>> },
}

/// The subsystem of each kind of single action.
pub open spec fn kind_subsystem(kind: ActionKind) -> Subsystem {
    match kind {
        ActionKind::TransformEntity => Subsystem::Transform,
        ActionKind::AddEntity | ActionKind::DeleteEntity | ActionKind::RenameEntity
        | ActionKind::ParentChanged | ActionKind::ComponentAdded
        | ActionKind::ComponentRemoved => Subsystem::Hierarchy,
        ActionKind::DirectionalLightChanged | ActionKind::PointLightChanged
        | ActionKind::SpotLightChanged | ActionKind::MaterialChanged
        | ActionKind::MeshComponentChanged | ActionKind::CameraChanged => Subsystem::Rendering,
        ActionKind::AudioSourceChanged | ActionKind::AudioListenerChanged => Subsystem::Audio,
        ActionKind::RigidBodyChanged | ActionKind::ColliderChanged => Subsystem::Physics,
        ActionKind::ScriptComponentChanged => Subsystem::Scripting,
    }
}

/// Two subsystems combined: the common one when they agree, `All` otherwise.
pub open spec fn merge_subsystem(a: Subsystem, b: Subsystem) -> Subsystem {
    if a == b {
        a
    } else {
        Subsystem::All
    }
}

/// The subsystem of an action; a compound action has the subsystem that all its
/// parts share, and `All` when they differ or when it is empty.
pub open spec fn action_subsystem<P>(a: EditorAction<P>) -> Subsystem
    decreases a, 0nat,
{
    match a {
        EditorAction::Single { kind, .. } => kind_subsystem(kind),
        EditorAction::Compound { actions, .. } => match fold_subsystems(
            actions@,
            actions@.len(),
        ) {
            Some(s) => s,
            None => Subsystem::All,
        },
    }
}

/// The subsystems of the first `n` actions merged from the left; `None` for no action.
pub open spec fn fold_subsystems<P>(s: Seq<EditorAction<P>>, n: nat) -> Option<Subsystem>
    decreases s, n,
{
    if n == 0 || n > s.len() {
        None
    } else {
        let last = action_subsystem(s[n - 1]);
        match fold_subsystems(s, (n - 1) as nat) {
            None => Some(last),
            Some(acc) => Some(merge_subsystem(acc, last)),
        }
    }
}

fn kind_subsystem_exec(kind: ActionKind) -> (r: Subsystem)
    ensures
        r == kind_subsystem(kind),
{
    match kind {
        ActionKind::TransformEntity => Subsystem::Transform,
        ActionKind::AddEntity | ActionKind::DeleteEntity | ActionKind::RenameEntity
        | ActionKind::ParentChanged | ActionKind::ComponentAdded
        | ActionKind::ComponentRemoved => Subsystem::Hierarchy,
        ActionKind::DirectionalLightChanged | ActionKind::PointLightChanged
        | ActionKind::SpotLightChanged | ActionKind::MaterialChanged
        | ActionKind::MeshComponentChanged | ActionKind::CameraChanged => Subsystem::Rendering,
        ActionKind::AudioSourceChanged | ActionKind::AudioListenerChanged => Subsystem::Audio,
        ActionKind::RigidBodyChanged | ActionKind::ColliderChanged => Subsystem::Physics,
        ActionKind::ScriptComponentChanged => Subsystem::Scripting,
    }
}

impl<P> EditorAction<P> {
    pub fn subsystem(&self) -> (r: Subsystem)
        ensures
            r == action_subsystem(*self),
        decreases *self,
    {
        match self {
            EditorAction::Single { kind, .. } => kind_subsystem_exec(*kind),
            EditorAction::Compound { actions, .. } => {
                let mut acc: Option<Subsystem> = None;
                let mut i: usize = 0;
                while i < actions.len()
                    invariant
                        0 <= i <= actions.len(),
                        *self == (EditorAction::Compound { name: self->name, actions: *actions }),
                        acc == fold_subsystems(actions@, i as nat),
                    decreases actions.len() - i,
                {
                    assert(decreases_to!(*self => actions@[i as int])) by {
                        assert(decreases_to!(*self => self->actions));
                        assert(self->actions == *actions);
                        assert(decreases_to!(*actions => actions@));
                        assert(decreases_to!(actions@ => actions@[i as int]));
                    }
                    let s = actions[i].subsystem();
                    acc = match acc {
                        None => Some(s),
                        Some(a) => Some(
                            if a == s {
                                a
                            } else {
                                Subsystem::All
                            },
                        ),
                    };
                    i = i + 1;
                }
                match acc {
                    Some(s) => s,
                    None => Subsystem::All,
                }
            },
        }
    }
}

/// The single actions of `a` in the order redo applies them: a compound action's
/// parts from the first to the last, each flattened in turn.
pub open spec fn redo_steps<P>(a: EditorAction<P>) -> Seq<EditorAction<P>>
    decreases a, 0nat,
{
    match a {
        EditorAction::Single { .. } => seq![a],
        EditorAction::Compound { actions, .. } => redo_steps_of(actions@, actions@.len()),
    }
}

/// The redo steps of the first `n` actions, in order.
pub open spec fn redo_steps_of<P>(s: Seq<EditorAction<P>>, n: nat) -> Seq<EditorAction<P>>
    decreases s, n,
{
    if n == 0 || n > s.len() {
        Seq::empty()
    } else {
        redo_steps_of(s, (n - 1) as nat) + redo_steps(s[n - 1])
    }
}

/// The single actions of `a` in the order undo applies them: a compound action's
/// parts from the last to the first, each flattened in turn.
pub open spec fn undo_steps<P>(a: EditorAction<P>) -> Seq<EditorAction<P>>
    decreases a, 0nat,
{
    match a {
        EditorAction::Single { .. } => seq![a],
        EditorAction::Compound { actions, .. } => undo_steps_from(actions@, 0),
    }
}

/// The undo steps of the actions from position `n` on, the last one first.
pub open spec fn undo_steps_from<P>(s: Seq<EditorAction<P>>, n: nat) -> Seq<EditorAction<P>>
    decreases s, s.len() - n,
{
    if n >= s.len() {
        Seq::empty()
    } else {
        undo_steps_from(s, n + 1) + undo_steps(s[n as int])
    }
}

/// The actions that references point to.
pub open spec fn deref_all<P>(s: Seq<&EditorAction<P>>) -> Seq<EditorAction<P>> {
    s.map_values(|x: &EditorAction<P>| *x)
}

impl<P> EditorAction<P> {
    fn collect_redo<'a>(&'a self, out: &mut Vec<&'a EditorAction<P>>)
        ensures
            deref_all(final(out)@) == deref_all(old(out)@) + redo_steps(*self),
        decreases *self,
    {
        match self {
            EditorAction::Single { .. } => {
                out.push(self);
                assert(deref_all(out@) =~= deref_all(old(out)@) + redo_steps(*self));
            },
            EditorAction::Compound { actions, .. } => {
                let ghost start = deref_all(out@);
                let mut i: usize = 0;
                while i < actions.len()
                    invariant
                        0 <= i <= actions.len(),
                        *self == (EditorAction::Compound { name: self->name, actions: *actions }),
                        start == deref_all(old(out)@),
                        deref_all(out@) == start + redo_steps_of(actions@, i as nat),
                    decreases actions.len() - i,
                {
                    assert(decreases_to!(*self => actions@[i as int])) by {
                        assert(decreases_to!(*self => self->actions));
                        assert(self->actions == *actions);
                        assert(decreases_to!(*actions => actions@));
                        assert(decreases_to!(actions@ => actions@[i as int]));
                    }
                    actions[i].collect_redo(out);
                    assert(redo_steps_of(actions@, (i + 1) as nat) == redo_steps_of(actions@, i as nat)
                        + redo_steps(actions@[i as int]));
                    assert(deref_all(out@) =~= start + redo_steps_of(actions@, (i + 1) as nat));
                    i = i + 1;
                }
            },
        }
    }

    fn collect_undo<'a>(&'a self, out: &mut Vec<&'a EditorAction<P>>)
        ensures
            deref_all(final(out)@) == deref_all(old(out)@) + undo_steps(*self),
        decreases *self,
    {
        match self {
            EditorAction::Single { .. } => {
                out.push(self);
                assert(deref_all(out@) =~= deref_all(old(out)@) + undo_steps(*self));
            },
            EditorAction::Compound { actions, .. } => {
                let ghost start = deref_all(out@);
                let mut i: usize = actions.len();
                assert(undo_steps_from(actions@, i as nat) =~= Seq::empty());
                assert(deref_all(out@) =~= start + undo_steps_from(actions@, i as nat));
                while i > 0
                    invariant
                        0 <= i <= actions.len(),
                        *self == (EditorAction::Compound { name: self->name, actions: *actions }),
                        start == deref_all(old(out)@),
                        deref_all(out@) == start + undo_steps_from(actions@, i as nat),
                    decreases i,
                {
                    i = i - 1;
                    assert(decreases_to!(*self => actions@[i as int])) by {
                        assert(decreases_to!(*self => self->actions));
                        assert(self->actions == *actions);
                        assert(decreases_to!(*actions => actions@));
                        assert(decreases_to!(actions@ => actions@[i as int]));
                    }
                    actions[i].collect_undo(out);
                    assert(undo_steps_from(actions@, i as nat) == undo_steps_from(actions@, (i + 1) as nat)
                        + undo_steps(actions@[i as int]));
                    assert(deref_all(out@) =~= start + undo_steps_from(actions@, i as nat));
                }
            },
        }
    }

    /// The single actions to apply, in order, when redoing this action: a compound
    /// action's parts from the first to the last.
    pub fn redo_order(&self) -> (r: Vec<&EditorAction<P>>)
        ensures
            deref_all(r@) == redo_steps(*self),
    {
        let mut out: Vec<&EditorAction<P>> = Vec::new();
        assert(deref_all(out@) =~= Seq::empty());
        self.collect_redo(&mut out);
        assert(deref_all(out@) =~= redo_steps(*self));
        out
    }

    /// The single actions to apply, in order, when undoing this action: a compound
    /// action's parts from the last to the first.
    pub fn undo_order(&self) -> (r: Vec<&EditorAction<P>>)
        ensures
            deref_all(r@) == undo_steps(*self),
    {
        let mut out: Vec<&EditorAction<P>> = Vec::new();
        assert(deref_all(out@) =~= Seq::empty());
        self.collect_undo(&mut out);
        assert(deref_all(out@) =~= undo_steps(*self));
        out
    }
}

/// Whether undo or redo restricted to `s` may pick action `a`.
pub open spec fn selects<P>(a: EditorAction<P>, s: Subsystem) -> bool {
    action_subsystem(a) == s || s == Subsystem::All
}

/// The last position below `hi` whose action `s` selects.
pub open spec fn last_selected<P>(acts: Seq<EditorAction<P>>, s: Subsystem, hi: nat) -> Option<
    nat,
>
    decreases hi,
{
    if hi == 0 {
        None
    } else if selects(acts[hi - 1], s) {
        Some((hi - 1) as nat)
    } else {
        last_selected(acts, s, (hi - 1) as nat)
    }
}

/// The first position from `lo` on whose action `s` selects.
pub open spec fn first_selected<P>(acts: Seq<EditorAction<P>>, s: Subsystem, lo: nat) -> Option<
    nat,
>
    decreases acts.len() - lo,
{
    if lo >= acts.len() {
        None
    } else if selects(acts[lo as int], s) {
        Some(lo)
    } else {
        first_selected(acts, s, lo + 1)
    }
}

/// History of actions: the actions before `index` are done and may be undone, the
/// ones from `index` on are undone and may be redone.
pub struct UndoHistory<P> {
    actions: Vec<EditorAction<P>>,
    index: usize,
    max_actions: usize,
    pending_compound: Option<(String, Vec<EditorAction<P>>)>,
    compound_depth: usize,
}

/// The mathematical state of a history.
#[verifier::ext_equal]
pub struct HistoryModel<P> {
    pub actions: Seq<EditorAction<P>>,
    pub index: nat,
    pub max_actions: nat,
    /// The name and the actions of the compound action being recorded.
    pub pending: Option<(String, Vec<EditorAction<P>>)>,
    pub depth: nat,
}

impl<P> View for UndoHistory<P> {
    type V = HistoryModel<P>;

    closed spec fn view(&self) -> HistoryModel<P> {
        HistoryModel {
            actions: self.actions@,
            index: self.index as nat,
            max_actions: self.max_actions as nat,
            pending: self.pending_compound,
            depth: self.compound_depth as nat,
        }
    }
}

/// The history is well formed: the position lies inside the recorded actions, at
/// most `max_actions` of them are kept, and a compound action is being recorded
/// exactly while the nesting depth is positive.
pub open spec fn history_wf<P>(m: HistoryModel<P>) -> bool {
    &&& m.index <= m.actions.len()
    &&& m.actions.len() <= m.max_actions
    &&& (m.depth > 0) == (m.pending is Some)
}

/// The history after recording `a` directly: the redo tail is dropped, the oldest
/// action goes when the history is full, and `a` becomes the last done action.
pub open spec fn push_direct_model<P>(m: HistoryModel<P>, a: EditorAction<P>) -> HistoryModel<P> {
    let t = m.actions.take(m.index as int);
    let kept = if t.len() >= m.max_actions {
        t.drop_first()
    } else {
        t
    };
    HistoryModel { actions: kept.push(a), index: kept.len() + 1, ..m }
}

/// The history after `begin_compound(name)` (as `h`): one more compound action is
/// open; opening the outermost one starts an empty compound action called `name`.
pub open spec fn begun<P>(m: HistoryModel<P>, name: Seq<char>, h: HistoryModel<P>) -> bool {
    &&& h == (HistoryModel { depth: m.depth + 1, pending: h.pending, ..m })
    &&& m.depth == 0 ==> (h.pending matches Some((n, acts)) && n@ == name && acts@.len() == 0)
    &&& m.depth > 0 ==> h.pending == m.pending
}

/// The history after `push(a)` (as `h`): inside a compound action `a` joins it,
/// otherwise it is recorded directly.
pub open spec fn pushed<P>(m: HistoryModel<P>, a: EditorAction<P>, h: HistoryModel<P>) -> bool {
    match m.pending {
        Some((name, acts)) if m.depth > 0 => h.pending matches Some((name2, acts2)) && name2
            == name && acts2@ == acts@.push(a) && h == (HistoryModel { pending: h.pending, ..m }),
        _ => h == push_direct_model(m, a),
    }
}

/// The history after `end_compound`: leaving the outermost compound action records
/// it directly, unless it is empty.
pub open spec fn end_compound_model<P>(m: HistoryModel<P>) -> HistoryModel<P> {
    let depth = if m.depth > 0 {
        (m.depth - 1) as nat
    } else {
        0
    };
    if depth == 0 {
        let m1 = HistoryModel { depth: 0, pending: None, ..m };
        match m.pending {
            Some((name, acts)) if acts@.len() > 0 => push_direct_model(
                m1,
                EditorAction::Compound { name, actions: acts },
            ),
            _ => m1,
        }
    } else {
        HistoryModel { depth, ..m }
    }
}

impl<P> UndoHistory<P> {
    pub open spec fn wf(&self) -> bool {
        history_wf(self@)
    }

    pub fn new(max: usize) -> (h: Self)
        ensures
            h@ == (HistoryModel::<P> {
                actions: Seq::empty(),
                index: 0,
                max_actions: max as nat,
                pending: None,
                depth: 0,
            }),
            h.wf(),
    {
        Self {
            actions: Vec::with_capacity(max),
            index: 0,
            max_actions: max,
            pending_compound: None,
            compound_depth: 0,
        }
    }

    /// The position in the history: the number of done actions.
    pub fn index(&self) -> (r: usize)
        ensures
            r == self@.index,
    {
        self.index
    }

    /// The recorded actions, oldest first; those before `index` are done.
    pub fn actions(&self) -> (r: &[EditorAction<P>])
        ensures
            r@ == self@.actions,
    {
        self.actions.as_slice()
    }

    /// The most actions the history keeps.
    pub fn max_actions(&self) -> (r: usize)
        ensures
            r == self@.max_actions,
    {
        self.max_actions
    }

    /// Whether `end_compound` may be called: closing the outermost compound action
    /// records it when it holds actions, and recording needs room for one action.
    pub fn can_end_compound(&self) -> (r: bool)
        ensures
            r == ((self@.depth <= 1 && (self@.pending matches Some((_, acts)) && acts@.len() > 0))
                ==> self@.max_actions > 0),
    {
        if self.compound_depth <= 1 {
            match &self.pending_compound {
                Some((_, acts)) => acts.len() == 0 || self.max_actions > 0,
                None => true,
            }
        } else {
            true
        }
    }

    /// Put `action` in the place of the recorded action at `idx`: undoing a deletion
    /// records there the entity that it re-created.
    pub fn replace_action(&mut self, idx: usize, action: EditorAction<P>)
        requires
            old(self).wf(),
            idx < old(self)@.actions.len(),
        ensures
            final(self).wf(),
            final(self)@ == (HistoryModel {
                actions: old(self)@.actions.update(idx as int, action),
                ..old(self)@
            }),
    {
        self.actions.set(idx, action);
    }

    /// How many compound actions are open.
    pub fn compound_depth(&self) -> (r: usize)
        ensures
            r == self@.depth,
    {
        self.compound_depth
    }

    pub fn begin_compound(&mut self, name: &str)
        requires
            old(self).wf(),
            old(self)@.depth < usize::MAX,
        ensures
            final(self).wf(),
            begun(old(self)@, name@, final(self)@),
    {
        self.compound_depth = self.compound_depth + 1;
        if self.compound_depth == 1 {
            self.pending_compound = Some((name.to_string(), Vec::new()));
        }
    }

    /// Close a compound action; closing the outermost one records what was pushed
    /// inside it as one action (see `lemma_compound_records_one_action`).
    pub fn end_compound(&mut self)
        requires
            old(self).wf(),
            (old(self)@.depth <= 1 && (old(self)@.pending matches Some((_, acts)) && acts@.len() > 0))
                ==> old(self)@.max_actions > 0,
        ensures
            final(self).wf(),
            final(self)@ == end_compound_model(old(self)@),
    {
        self.compound_depth = self.compound_depth.saturating_sub(1);
        if self.compound_depth == 0 {
            if let Some((name, actions)) = self.pending_compound.take() {
                if !actions.is_empty() {
                    self.push_direct(EditorAction::Compound { name, actions });
                }
            }
        }
    }

    fn push_direct(&mut self, action: EditorAction<P>)
        requires
            history_wf(old(self)@),
            old(self)@.max_actions > 0,
        ensures
            history_wf(final(self)@),
            final(self)@ == push_direct_model(old(self)@, action),
    {
        self.actions.truncate(self.index);
        assert(self.actions@ == old(self)@.actions.take(old(self).index as int));
        if self.actions.len() >= self.max_actions {
            self.actions.remove(0);
            if self.index > 0 {
                self.index = self.index - 1;
            }
        }
        self.actions.push(action);
        self.index = self.actions.len();
    }

    pub fn push(&mut self, action: EditorAction<P>)
        requires
            old(self).wf(),
            old(self)@.depth > 0 || old(self)@.max_actions > 0,
        ensures
            final(self).wf(),
            pushed(old(self)@, action, final(self)@),
    {
        if self.compound_depth > 0 {
            if let Some((_, ref mut actions)) = self.pending_compound {
                actions.push(action);
                return ;
            }
        }
        self.push_direct(action);
    }

    pub fn undo(&mut self) -> (r: Option<&EditorAction<P>>)
        requires
            old(self).wf(),
        ensures
            final(self).wf(),
            old(self)@.index > 0 ==> r == Some(&old(self)@.actions[old(self)@.index - 1])
                && final(self)@ == (HistoryModel { index: (old(self)@.index - 1) as nat, ..old(self)@ }),
            old(self)@.index == 0 ==> r is None && final(self)@ == old(self)@,
    {
        if self.index > 0 {
            self.index = self.index - 1;
            Some(&self.actions[self.index])
        } else {
            None
        }
    }

    pub fn redo(&mut self) -> (r: Option<&EditorAction<P>>)
        requires
            old(self).wf(),
        ensures
            final(self).wf(),
            old(self)@.index < old(self)@.actions.len() ==> r == Some(&old(self)@.actions[old(self)@.index as int])
                && final(self)@ == (HistoryModel { index: old(self)@.index + 1, ..old(self)@ }),
            old(self)@.index >= old(self)@.actions.len() ==> r is None && final(self)@ == old(self)@,
    {
        if self.index < self.actions.len() {
            let action = &self.actions[self.index];
            self.index = self.index + 1;
            Some(action)
        } else {
            None
        }
    }
    pub fn undo_subsystem(&mut self, subsystem: Subsystem) -> (r: Option<&EditorAction<P>>)
        requires
            old(self).wf(),
        ensures
            final(self).wf(),
            match last_selected(old(self)@.actions, subsystem, old(self)@.index) {
                Some(i) => r == Some(&old(self)@.actions[i as int]) && final(self)@ == (
                HistoryModel { index: i, ..old(self)@ }),
                None => r is None && final(self)@ == old(self)@,
            },
    {
        if self.index == 0 {
            return None;
        }
        let mut i = self.index;
        while i > 0
            invariant
                0 <= i <= self.index,
                self.wf(),
                self@ == old(self)@,
                last_selected(self@.actions, subsystem, self@.index) == last_selected(
                    self@.actions,
                    subsystem,
                    i as nat,
                ),
            decreases i,
        {
            let action = &self.actions[i - 1];
            if action.subsystem() == subsystem || subsystem == Subsystem::All {
                self.index = i - 1;
                return Some(action);
            }
            i = i - 1;
        }
        None
    }

    pub fn redo_subsystem(&mut self, subsystem: Subsystem) -> (r: Option<&EditorAction<P>>)
        requires
            old(self).wf(),
        ensures
            final(self).wf(),
            match first_selected(old(self)@.actions, subsystem, old(self)@.index) {
                Some(i) => r == Some(&old(self)@.actions[i as int]) && final(self)@ == (
                HistoryModel { index: i + 1, ..old(self)@ }),
                None => r is None && final(self)@ == old(self)@,
            },
    {
        if self.index >= self.actions.len() {
            return None;
        }
        let mut i = self.index;
        while i < self.actions.len()
            invariant
                self.index <= i <= self.actions.len(),
                self.wf(),
                self@ == old(self)@,
                first_selected(self@.actions, subsystem, self@.index) == first_selected(
                    self@.actions,
                    subsystem,
                    i as nat,
                ),
            decreases self.actions.len() - i,
        {
            let action = &self.actions[i];
            if action.subsystem() == subsystem || subsystem == Subsystem::All {
                self.index = i + 1;
                return Some(action);
            }
            i = i + 1;
        }
        None
    }

    pub fn can_undo(&self) -> (r: bool)
        requires
            self.wf(),
        ensures
            r == (self@.index > 0),
    {
        self.index > 0
    }

    pub fn can_redo(&self) -> (r: bool)
        requires
            self.wf(),
        ensures
            r == (self@.index < self@.actions.len()),
    {
        self.index < self.actions.len()
    }

    pub fn can_undo_subsystem(&self, subsystem: Subsystem) -> (r: bool)
        requires
            self.wf(),
        ensures
            subsystem == Subsystem::All ==> r == (self@.index > 0),
            subsystem != Subsystem::All ==> r == exists|i: int|
                0 <= i < self@.index && action_subsystem(#[trigger] self@.actions[i]) == subsystem,
    {
        if subsystem == Subsystem::All {
            return self.can_undo();
        }
        let mut i: usize = 0;
        while i < self.index
            invariant
                0 <= i <= self.index,
                self.wf(),
                forall|j: int| 0 <= j < i ==> action_subsystem(#[trigger] self@.actions[j]) != subsystem,
            decreases self.index - i,
        {
            if self.actions[i].subsystem() == subsystem {
                return true;
            }
            i = i + 1;
        }
        false
    }

    pub fn can_redo_subsystem(&self, subsystem: Subsystem) -> (r: bool)
        requires
            self.wf(),
        ensures
            subsystem == Subsystem::All ==> r == (self@.index < self@.actions.len()),
            subsystem != Subsystem::All ==> r == exists|i: int|
                self@.index <= i < self@.actions.len() && action_subsystem(
                    #[trigger] self@.actions[i],
                ) == subsystem,
    {
        if subsystem == Subsystem::All {
            return self.can_redo();
        }
        let mut i: usize = self.index;
        while i < self.actions.len()
            invariant
                self.index <= i <= self.actions.len(),
                self.wf(),
                forall|j: int|
                    self@.index <= j < i ==> action_subsystem(#[trigger] self@.actions[j]) != subsystem,
            decreases self.actions.len() - i,
        {
            if self.actions[i].subsystem() == subsystem {
                return true;
            }
            i = i + 1;
        }
        false
    }

    pub fn clear(&mut self)
        ensures
            final(self).wf(),
            final(self)@ == (HistoryModel::<P> {
                actions: Seq::empty(),
                index: 0,
                pending: None,
                depth: 0,
                ..old(self)@
            }),
    {
        self.actions.clear();
        self.index = 0;
        self.pending_compound = None;
        self.compound_depth = 0;
    }
}

/// Undo followed by redo gives the undone action back and restores the history.
pub proof fn lemma_undo_then_redo<P>(m: HistoryModel<P>)
    requires
        history_wf(m),
        m.index > 0,
    ensures
        ({
            let u = HistoryModel { index: (m.index - 1) as nat, ..m };
            &&& history_wf(u)
            &&& u.index < u.actions.len()
            &&& u.actions[u.index as int] == m.actions[m.index - 1]
            &&& HistoryModel { index: u.index + 1, ..u } == m
        }),
{
}

/// Redo followed by undo gives the redone action back and restores the history.
pub proof fn lemma_redo_then_undo<P>(m: HistoryModel<P>)
    requires
        history_wf(m),
        m.index < m.actions.len(),
    ensures
        ({
            let r = HistoryModel { index: m.index + 1, ..m };
            &&& history_wf(r)
            &&& r.index > 0
            &&& r.actions[r.index - 1] == m.actions[m.index as int]
            &&& HistoryModel { index: (r.index - 1) as nat, ..r } == m
        }),
{
}

/// Recording an action directly leaves nothing to redo, makes it the next action to
/// undo, keeps the history within its bound, and keeps every done action that fits.
pub proof fn lemma_push_direct<P>(m: HistoryModel<P>, a: EditorAction<P>)
    requires
        history_wf(m),
        m.max_actions > 0,
    ensures
        ({
            let h = push_direct_model(m, a);
            &&& history_wf(h)
            &&& h.index == h.actions.len()
            &&& h.actions.last() == a
            &&& m.index < m.max_actions ==> h.actions == m.actions.take(m.index as int).push(a)
            &&& m.index == m.max_actions ==> h.actions == m.actions.take(m.index as int).drop_first().push(a)
        }),
{
}

/// Undo restricted to `All` is plain undo: it takes the last done action.
pub proof fn lemma_undo_all_is_undo<P>(acts: Seq<EditorAction<P>>, index: nat)
    requires
        index > 0,
    ensures
        last_selected(acts, Subsystem::All, index) == Some((index - 1) as nat),
{
}

/// Redo restricted to `All` is plain redo: it takes the next undone action.
pub proof fn lemma_redo_all_is_redo<P>(acts: Seq<EditorAction<P>>, index: nat)
    requires
        index < acts.len(),
    ensures
        first_selected(acts, Subsystem::All, index) == Some(index),
{
}

/// The action that a restricted undo picks belongs to the subsystem, and no later
/// done action does; it finds one exactly when one exists.
pub proof fn lemma_last_selected<P>(acts: Seq<EditorAction<P>>, s: Subsystem, hi: nat)
    requires
        hi <= acts.len(),
    ensures
        match last_selected(acts, s, hi) {
            Some(i) => i < hi && selects(acts[i as int], s) && forall|j: int|
                i < j < hi ==> !selects(#[trigger] acts[j], s),
            None => forall|j: int| 0 <= j < hi ==> !selects(#[trigger] acts[j], s),
        },
    decreases hi,
{
    if hi > 0 {
        lemma_last_selected(acts, s, (hi - 1) as nat);
    }
}

/// The action that a restricted redo picks belongs to the subsystem, and no earlier
/// undone action does; it finds one exactly when one exists.
pub proof fn lemma_first_selected<P>(acts: Seq<EditorAction<P>>, s: Subsystem, lo: nat)
    requires
        lo <= acts.len(),
    ensures
        match first_selected(acts, s, lo) {
            Some(i) => lo <= i < acts.len() && selects(acts[i as int], s) && forall|j: int|
                lo <= j < i ==> !selects(#[trigger] acts[j], s),
            None => forall|j: int| lo <= j < acts.len() ==> !selects(#[trigger] acts[j], s),
        },
    decreases acts.len() - lo,
{
    if lo < acts.len() {
        lemma_first_selected(acts, s, lo + 1);
    }
}

/// `can_undo_subsystem` answers exactly whether `undo_subsystem` finds an action.
pub proof fn lemma_can_undo_subsystem_agrees<P>(m: HistoryModel<P>, s: Subsystem)
    requires
        history_wf(m),
    ensures
        (if s == Subsystem::All {
            m.index > 0
        } else {
            exists|i: int| 0 <= i < m.index && action_subsystem(#[trigger] m.actions[i]) == s
        }) == (last_selected(m.actions, s, m.index) is Some),
{
    lemma_last_selected(m.actions, s, m.index);
    if s != Subsystem::All {
        if let Some(i) = last_selected(m.actions, s, m.index) {
            assert(action_subsystem(m.actions[i as int]) == s);
        }
    }
}

/// `can_redo_subsystem` answers exactly whether `redo_subsystem` finds an action.
pub proof fn lemma_can_redo_subsystem_agrees<P>(m: HistoryModel<P>, s: Subsystem)
    requires
        history_wf(m),
    ensures
        (if s == Subsystem::All {
            m.index < m.actions.len()
        } else {
            exists|i: int|
                m.index <= i < m.actions.len() && action_subsystem(#[trigger] m.actions[i]) == s
        }) == (first_selected(m.actions, s, m.index) is Some),
{
    lemma_first_selected(m.actions, s, m.index);
    if s != Subsystem::All {
        if let Some(i) = first_selected(m.actions, s, m.index) {
            assert(action_subsystem(m.actions[i as int]) == s);
        }
    }
}

/// Parts that all share one subsystem give a compound of that subsystem.
pub proof fn lemma_fold_uniform<P>(acts: Seq<EditorAction<P>>, n: nat, s: Subsystem)
    requires
        0 < n <= acts.len(),
        forall|i: int| 0 <= i < n ==> action_subsystem(#[trigger] acts[i]) == s,
    ensures
        fold_subsystems(acts, n) == Some(s),
    decreases n,
{
    assert(action_subsystem(acts[n - 1]) == s);
    if n > 1 {
        lemma_fold_uniform(acts, (n - 1) as nat, s);
    }
}


/// One step of editing inside a compound action.
pub enum CompoundStep<P> {
    Push(EditorAction<P>),
    Begin(Seq<char>),
    End,
}

/// `h` is the history after `step` from `m`, as the step's function states it.
pub open spec fn step_result<P>(m: HistoryModel<P>, step: CompoundStep<P>, h: HistoryModel<P>) -> bool {
    match step {
        CompoundStep::Push(a) => pushed(m, a, h),
        CompoundStep::Begin(name) => begun(m, name, h),
        CompoundStep::End => h == end_compound_model(m),
    }
}

/// The actions pushed by the first `n` steps, in order.
pub open spec fn pushes<P>(steps: Seq<CompoundStep<P>>, n: nat) -> Seq<EditorAction<P>>
    decreases n,
{
    if n == 0 {
        Seq::empty()
    } else {
        let prev = pushes(steps, (n - 1) as nat);
        match steps[n - 1] {
            CompoundStep::Push(a) => prev.push(a),
            _ => prev,
        }
    }
}

proof fn lemma_inside_compound<P>(
    m: HistoryModel<P>,
    name: Seq<char>,
    steps: Seq<CompoundStep<P>>,
    hs: Seq<HistoryModel<P>>,
    i: nat,
)
    requires
        history_wf(m),
        m.depth == 0,
        hs.len() == steps.len() + 1,
        hs[0] == m,
        steps.len() >= 1,
        steps[0] == CompoundStep::<P>::Begin(name),
        forall|j: int| 0 <= j < steps.len() ==> step_result(hs[j], steps[j], #[trigger] hs[j + 1]),
        forall|j: int| 0 < j < steps.len() ==> (#[trigger] hs[j]).depth > 0,
        1 <= i < hs.len(),
        i < steps.len(),
    ensures
        hs[i as int].actions == m.actions,
        hs[i as int].index == m.index,
        hs[i as int].max_actions == m.max_actions,
        hs[i as int].pending matches Some((n, acts)) && n@ == name && acts@ == pushes(steps, i),
    decreases i,
{
    if i > 1 {
        lemma_inside_compound(m, name, steps, hs, (i - 1) as nat);
        let j = i - 1;
        assert(step_result(hs[j], steps[j], hs[j + 1]));
        assert(hs[j].depth > 0);
        assert(hs[j + 1] == hs[i as int]);
        assert(hs[i as int].depth > 0);
        assert(pushes(steps, i) == match steps[j] {
            CompoundStep::Push(a) => pushes(steps, j as nat).push(a),
            _ => pushes(steps, j as nat),
        });
        let (n0, acts0) = hs[j].pending.unwrap();
        match steps[j] {
            CompoundStep::Push(a) => {
                assert(pushed(hs[j], a, hs[i as int]));
                let (n1, acts1) = hs[i as int].pending.unwrap();
                assert(n1 == n0);
                assert(acts1@ == acts0@.push(a));
                assert(acts1@ == pushes(steps, i));
            },
            CompoundStep::Begin(n) => {
                assert(begun(hs[j], n, hs[i as int]));
            },
            CompoundStep::End => {
                assert(hs[i as int] == end_compound_model(hs[j]));
            },
        }
    } else {
        assert(step_result(hs[0], steps[0], hs[1]));
        assert(begun(m, name, hs[1]));
        assert(pushes(steps, 1) == pushes(steps, 0));
    }
}

/// A matched compound action records one action (the law of `begin_compound`,
/// `push` and `end_compound` together): from a history with no compound action
/// open, where `steps` are the calls made and `hs` the histories that their
/// contracts give, `begin_compound(name)` followed by pushes and nested
/// `begin_compound`/`end_compound` pairs, up to the `end_compound` that closes the
/// first one, records the pushed actions, in order, as one compound action called
/// `name`; when nothing was pushed the history is as before.
pub proof fn lemma_compound_records_one_action<P>(
    m: HistoryModel<P>,
    name: Seq<char>,
    steps: Seq<CompoundStep<P>>,
    hs: Seq<HistoryModel<P>>,
)
    requires
        history_wf(m),
        m.depth == 0,
        hs.len() == steps.len() + 1,
        hs[0] == m,
        steps.len() >= 2,
        steps[0] == CompoundStep::<P>::Begin(name),
        forall|j: int| 0 <= j < steps.len() ==> step_result(hs[j], steps[j], #[trigger] hs[j + 1]),
        forall|j: int| 0 < j < steps.len() ==> (#[trigger] hs[j]).depth > 0,
        hs.last().depth == 0,
    ensures
        pushes(steps, steps.len()).len() > 0 ==> exists|n: String, v: Vec<EditorAction<P>>|
            n@ == name && v@ == pushes(steps, steps.len()) && pushed(
                m,
                EditorAction::Compound { name: n, actions: v },
                hs.last(),
            ) && hs.last() == push_direct_model(m, EditorAction::Compound { name: n, actions: v }),
        pushes(steps, steps.len()).len() == 0 ==> hs.last() == m,
        hs.last().depth == 0 && hs.last().pending is None,
{
    let k = steps.len();
    lemma_inside_compound(m, name, steps, hs, (k - 1) as nat);
    let j = k - 1;
    let before = hs[j];
    assert(step_result(hs[j], steps[j], hs[j + 1]));
    assert(hs[j + 1] == hs.last());
    assert(before.depth > 0);
    assert(steps[k - 1] is End) by {
        match steps[k - 1] {
            CompoundStep::Push(a) => {},
            CompoundStep::Begin(n) => {},
            CompoundStep::End => {},
        }
    }
    assert(pushes(steps, k) == pushes(steps, (k - 1) as nat));
    let (n, acts) = before.pending.unwrap();
    assert(HistoryModel { depth: 0, pending: None, ..before } == m);
    if acts@.len() > 0 {
        assert(n@ == name && acts@ == pushes(steps, k) && hs.last() == push_direct_model(
            m,
            EditorAction::Compound { name: n, actions: acts },
        ));
    }
}

/// Which subsystem a single action belongs to, by what it edits: moving an
/// entity is Transform; adding, deleting, renaming, reparenting and adding or
/// removing components is Hierarchy; lights, materials, meshes and cameras are
/// Rendering; audio sources and listeners are Audio; rigid bodies and colliders
/// are Physics; script components are Scripting. No single action is `All`.
pub proof fn lemma_single_action_subsystem<P>(kind: ActionKind, payload: P)
    ensures
        ({
            let s = action_subsystem(EditorAction::Single { kind, payload });
            &&& (s == Subsystem::Transform) <==> kind == ActionKind::TransformEntity
            &&& (s == Subsystem::Hierarchy) <==> (kind == ActionKind::AddEntity || kind
                == ActionKind::DeleteEntity || kind == ActionKind::RenameEntity || kind
                == ActionKind::ParentChanged || kind == ActionKind::ComponentAdded || kind
                == ActionKind::ComponentRemoved)
            &&& (s == Subsystem::Rendering) <==> (kind == ActionKind::DirectionalLightChanged || kind
                == ActionKind::PointLightChanged || kind == ActionKind::SpotLightChanged || kind
                == ActionKind::MaterialChanged || kind == ActionKind::MeshComponentChanged || kind
                == ActionKind::CameraChanged)
            &&& (s == Subsystem::Audio) <==> (kind == ActionKind::AudioSourceChanged || kind
                == ActionKind::AudioListenerChanged)
            &&& (s == Subsystem::Physics) <==> (kind == ActionKind::RigidBodyChanged || kind
                == ActionKind::ColliderChanged)
            &&& (s == Subsystem::Scripting) <==> kind == ActionKind::ScriptComponentChanged
            &&& s != Subsystem::All
        }),
{
}

/// Undo restricted to a subsystem other than `All` takes the last done action
/// when that is a single action of one of the subsystem's kinds, and passes over
/// it otherwise; in particular audio undo takes an audio source or listener edit.
pub proof fn lemma_undo_subsystem_takes_own_kinds<P>(
    acts: Seq<EditorAction<P>>,
    index: nat,
    s: Subsystem,
    kind: ActionKind,
    payload: P,
)
    requires
        0 < index <= acts.len(),
        acts[index - 1] == (EditorAction::Single { kind, payload }),
        s != Subsystem::All,
    ensures
        s == Subsystem::Audio ==> (last_selected(acts, s, index) == Some((index - 1) as nat) <==> (
        kind == ActionKind::AudioSourceChanged || kind == ActionKind::AudioListenerChanged)),
        last_selected(acts, s, index) == Some((index - 1) as nat) <==> kind_subsystem(kind) == s,
        kind_subsystem(kind) != s ==> last_selected(acts, s, index) == last_selected(
            acts,
            s,
            (index - 1) as nat,
        ),
{
    lemma_single_action_subsystem(kind, payload);
    if kind_subsystem(kind) != s {
        lemma_last_selected_below(acts, s, (index - 1) as nat);
    }
}

proof fn lemma_last_selected_below<P>(acts: Seq<EditorAction<P>>, s: Subsystem, hi: nat)
    ensures
        last_selected(acts, s, hi) matches Some(i) ==> i < hi,
    decreases hi,
{
    if hi > 0 {
        lemma_last_selected_below(acts, s, (hi - 1) as nat);
    }
}

} // verus!
