//! Scene components and the registry of scenes loaded into the world.
use vstd::prelude::*;
use crate::text::str_eq;

verus! {

/// Display name of an entity.
#[derive(Debug, Clone)]
pub struct Name(pub String);

/// Name of the mesh that an entity draws.
#[derive(Debug, Clone, PartialEq)]
pub struct MeshComponent(pub String);

/// Tag component that identifies which scene an entity belongs to.
/// Used for additive scene loading and selective unloading.
#[derive(Debug, Clone, PartialEq)]
pub struct SceneTag(pub String);

/// Metadata for a scene that is currently loaded in the world.
#[derive(Debug, Clone)]
pub struct LoadedScene {
    pub name: String,
    pub path: String,
    pub entity_count: usize,
}

/// Manages additive scene loading, unloading, and streaming; `Z` is the type of
/// a streaming zone.
#[derive(Debug, Clone)]
pub struct SceneManager<Z> {
    pub loaded_scenes: Vec<LoadedScene>,
    pub streaming_zones: Vec<Z>,
    pub show_manager: bool,
}

/// The position of the first loaded scene called `name`, if any.
pub open spec fn scene_position(scenes: Seq<LoadedScene>, name: Seq<char>) -> Option<int> {
    if exists|i: int| 0 <= i < scenes.len() && #[trigger] scenes[i].name@ == name {
        Some(choose|i: int| 0 <= i < scenes.len() && #[trigger] scenes[i].name@ == name && forall|k: int| 0 <= k < i ==> scenes[k].name@ != name)
    } else {
        None
    }
}

/// The scenes, bottom first, without the ones called `name`.
pub open spec fn without_scene(scenes: Seq<LoadedScene>, name: Seq<char>) -> Seq<LoadedScene>
    decreases scenes.len(),
{
    if scenes.len() == 0 {
        scenes
    } else {
        let rest = without_scene(scenes.drop_last(), name);
        if scenes.last().name@ == name {
            rest
        } else {
            rest.push(scenes.last())
        }
    }
}

/// The loaded scenes after registering `name`: a scene already recorded under the
/// name gets the new entity count; otherwise the scene is appended.
pub open spec fn registered(
    scenes: Seq<LoadedScene>,
    name: String,
    path: String,
    entity_count: usize,
) -> Seq<LoadedScene> {
    match scene_position(scenes, name@) {
        Some(i) => scenes.update(i, LoadedScene { entity_count, ..scenes[i] }),
        None => scenes.push(LoadedScene { name, path, entity_count }),
    }
}

/// Whether a scene called `name` is among `scenes`.
pub open spec fn has_scene(scenes: Seq<LoadedScene>, name: Seq<char>) -> bool {
    exists|i: int| 0 <= i < scenes.len() && #[trigger] scenes[i].name@ == name
}

proof fn lemma_first_from(scenes: Seq<LoadedScene>, name: Seq<char>, j: int)
    requires
        0 <= j <= scenes.len(),
        forall|k: int| 0 <= k < j ==> scenes[k].name@ != name,
        exists|i: int| j <= i < scenes.len() && #[trigger] scenes[i].name@ == name,
    ensures
        exists|i: int|
            0 <= i < scenes.len() && #[trigger] scenes[i].name@ == name && forall|k: int|
                0 <= k < i ==> scenes[k].name@ != name,
    decreases scenes.len() - j,
{
    if scenes[j].name@ == name {
        assert(0 <= j < scenes.len() && scenes[j].name@ == name);
    } else {
        let i = choose|i: int| j <= i < scenes.len() && #[trigger] scenes[i].name@ == name;
        assert(j + 1 <= i);
        lemma_first_from(scenes, name, j + 1);
    }
}

/// A loaded scene has a first position, and that position holds it.
pub proof fn lemma_scene_position(scenes: Seq<LoadedScene>, name: Seq<char>)
    ensures
        has_scene(scenes, name) <==> scene_position(scenes, name) is Some,
        scene_position(scenes, name) matches Some(i) ==> 0 <= i < scenes.len()
            && scenes[i].name@ == name,
{
    if has_scene(scenes, name) {
        lemma_first_from(scenes, name, 0);
    }
}

/// After registering a scene it is loaded, with the entity count just given.
pub proof fn lemma_register_then_loaded(
    scenes: Seq<LoadedScene>,
    name: String,
    path: String,
    entity_count: usize,
)
    ensures
        exists|i: int|
            0 <= i < registered(scenes, name, path, entity_count).len() && #[trigger] registered(
                scenes,
                name,
                path,
                entity_count,
            )[i].name@ == name@ && registered(scenes, name, path, entity_count)[i].entity_count
                == entity_count,
        registered(scenes, name, path, entity_count).len() == scenes.len() + if has_scene(
            scenes,
            name@,
        ) {
            0int
        } else {
            1int
        },
{
    lemma_scene_position(scenes, name@);
    let r = registered(scenes, name, path, entity_count);
    match scene_position(scenes, name@) {
        Some(i) => {
            assert(r[i].name@ == name@);
        },
        None => {
            assert(r[scenes.len() as int].name@ == name@);
        },
    }
}

/// After unregistering a name no scene of that name is loaded, and every scene of
/// another name still is.
pub proof fn lemma_unregister_removes(scenes: Seq<LoadedScene>, name: Seq<char>)
    ensures
        !has_scene(without_scene(scenes, name), name),
        forall|i: int|
            0 <= i < scenes.len() && scenes[i].name@ != name ==> without_scene(
                scenes,
                name,
            ).contains(#[trigger] scenes[i]),
        without_scene(scenes, name).len() <= scenes.len(),
    decreases scenes.len(),
{
    if scenes.len() > 0 {
        let init = scenes.drop_last();
        lemma_unregister_removes(init, name);
        let rest = without_scene(init, name);
        let w = without_scene(scenes, name);
        assert forall|i: int| 0 <= i < w.len() implies #[trigger] w[i].name@ != name by {
            if i < rest.len() {
                assert(w[i] == rest[i]);
                if rest[i].name@ == name {
                    assert(has_scene(rest, name));
                }
            }
        }
        assert forall|i: int|
            0 <= i < scenes.len() && scenes[i].name@ != name implies w.contains(
            #[trigger] scenes[i],
        ) by {
            if i < scenes.len() - 1 {
                assert(init[i] == scenes[i]);
                assert(rest.contains(init[i]));
                let k = choose|k: int| 0 <= k < rest.len() && rest[k] == init[i];
                assert(w[k] == rest[k]);
            } else {
                assert(w[w.len() - 1] == scenes.last());
            }
        }
    }
}

impl<Z> Default for SceneManager<Z> {
    fn default() -> (m: Self)
        ensures
            m.loaded_scenes@.len() == 0,
            m.streaming_zones@.len() == 0,
            !m.show_manager,
    {
        SceneManager { loaded_scenes: Vec::new(), streaming_zones: Vec::new(), show_manager: false }
    }
}

impl<Z> SceneManager<Z> {
    pub fn new() -> (m: Self)
        ensures
            m.loaded_scenes@.len() == 0,
            m.streaming_zones@.len() == 0,
            !m.show_manager,
    {
        Self::default()
    }

    /// Whether a scene with this name is loaded.
    pub fn is_loaded(&self, name: &str) -> (r: bool)
        ensures
            r == exists|i: int|
                0 <= i < self.loaded_scenes@.len() && #[trigger] self.loaded_scenes@[i].name@
                    == name@,
    {
        let mut i: usize = 0;
        while i < self.loaded_scenes.len()
            invariant
                0 <= i <= self.loaded_scenes@.len(),
                forall|k: int| 0 <= k < i ==> #[trigger] self.loaded_scenes@[k].name@ != name@,
            decreases self.loaded_scenes@.len() - i,
        {
            if str_eq(self.loaded_scenes[i].name.as_str(), name) {
                return true;
            }
            i = i + 1;
        }
        false
    }

    /// Record a loaded scene; a scene already recorded under this name keeps its
    /// path and gets the new entity count.
    pub fn register(&mut self, name: String, path: String, entity_count: usize)
        ensures
            final(self).streaming_zones == old(self).streaming_zones,
            final(self).show_manager == old(self).show_manager,
            final(self).loaded_scenes@ == registered(old(self).loaded_scenes@, name, path, entity_count),
    {
        let mut i: usize = 0;
        while i < self.loaded_scenes.len()
            invariant
                0 <= i <= self.loaded_scenes@.len(),
                self.loaded_scenes == old(self).loaded_scenes,
                self.streaming_zones == old(self).streaming_zones,
                self.show_manager == old(self).show_manager,
                forall|k: int| 0 <= k < i ==> #[trigger] self.loaded_scenes@[k].name@ != name@,
            decreases self.loaded_scenes@.len() - i,
        {
            if str_eq(self.loaded_scenes[i].name.as_str(), name.as_str()) {
                proof {
                    let p = scene_position(old(self).loaded_scenes@, name@);
                    assert(self.loaded_scenes@[i as int].name@ == name@);
                    let c = choose|c: int|
                        0 <= c < self.loaded_scenes@.len() && #[trigger] self.loaded_scenes@[c].name@
                            == name@ && forall|k: int|
                            0 <= k < c ==> self.loaded_scenes@[k].name@ != name@;
                    assert(p == Some(c));
                    if c < i {
                        assert(self.loaded_scenes@[c].name@ != name@);
                    } else if c > i {
                        assert(self.loaded_scenes@[i as int].name@ != name@);
                    }
                }
                let mut scene = self.loaded_scenes.remove(i);
                scene.entity_count = entity_count;
                self.loaded_scenes.insert(i, scene);
                assert(self.loaded_scenes@ =~= old(self).loaded_scenes@.update(
                    i as int,
                    LoadedScene { entity_count, ..old(self).loaded_scenes@[i as int] },
                ));
                return ;
            }
            i = i + 1;
        }
        self.loaded_scenes.push(LoadedScene { name, path, entity_count });
    }

    /// Forget every loaded scene with this name.
    pub fn unregister(&mut self, name: &str)
        ensures
            final(self).streaming_zones == old(self).streaming_zones,
            final(self).show_manager == old(self).show_manager,
            final(self).loaded_scenes@ == without_scene(old(self).loaded_scenes@, name@),
    {
        let mut old_scenes: Vec<LoadedScene> = Vec::new();
        std::mem::swap(&mut old_scenes, &mut self.loaded_scenes);
        let ghost all = old_scenes@;
        for scene in it: old_scenes.into_iter()
            invariant
                it.seq() == all,
                all == old(self).loaded_scenes@,
                self.streaming_zones == old(self).streaming_zones,
                self.show_manager == old(self).show_manager,
                self.loaded_scenes@ == without_scene(all.take(it.index() as int), name@),
        {
            assert(all.take(it.index() + 1).drop_last() =~= all.take(it.index() as int));
            if !str_eq(scene.name.as_str(), name) {
                self.loaded_scenes.push(scene);
            }
        }
        assert(all.take(all.len() as int) =~= all);
    }
}


/// What the streaming logic reads of a zone: the scene that it streams in and
/// whether that scene is loaded now.
#[derive(Debug, Clone)]
pub struct ZoneStatus {
    pub scene_path: String,
    pub loaded: bool,
}

/// The requests that streaming makes for the first `n` zones, in zone order: a
/// zone whose range holds the viewer and whose scene is not loaded asks to load it
/// (`true`); one whose range does not hold the viewer and whose scene is loaded
/// asks to unload it (`false`).
pub open spec fn streaming_changes(zones: Seq<ZoneStatus>, in_range: Seq<bool>, n: nat) -> Seq<
    (Seq<char>, bool),
>
    decreases n,
{
    if n == 0 {
        Seq::empty()
    } else {
        let prev = streaming_changes(zones, in_range, (n - 1) as nat);
        if in_range[n - 1] != zones[n - 1].loaded {
            prev.push((zones[n - 1].scene_path@, in_range[n - 1]))
        } else {
            prev
        }
    }
}

/// Streaming settles: once every zone's loaded flag agrees with whether its range
/// holds the viewer, evaluating again with the viewer in the same zones requests
/// nothing.
pub proof fn lemma_streaming_settles(zones: Seq<ZoneStatus>, in_range: Seq<bool>, n: nat)
    requires
        n <= zones.len(),
        n <= in_range.len(),
        forall|i: int| 0 <= i < n ==> (#[trigger] zones[i]).loaded == in_range[i],
    ensures
        streaming_changes(zones, in_range, n) == Seq::<(Seq<char>, bool)>::empty(),
    decreases n,
{
    if n > 0 {
        lemma_streaming_settles(zones, in_range, (n - 1) as nat);
    }
}

/// Bring every zone's loaded flag in line with whether its range holds the viewer
/// (`in_range[i]` for zone `i`), and return the load and unload requests that this
/// makes, in zone order.
pub fn evaluate_streaming(zones: &mut Vec<ZoneStatus>, in_range: &[bool]) -> (changes: Vec<
    (String, bool),
>)
    requires
        old(zones)@.len() == in_range@.len(),
    ensures
        final(zones)@.len() == old(zones)@.len(),
        forall|i: int|
            0 <= i < old(zones)@.len() ==> (#[trigger] final(zones)@[i]).scene_path@ == old(
                zones,
            )@[i].scene_path@ && final(zones)@[i].loaded == in_range@[i],
        changes@.map_values(|c: (String, bool)| (c.0@, c.1)) == streaming_changes(
            old(zones)@,
            in_range@,
            old(zones)@.len(),
        ),
{
    let ghost z0 = zones@;
    let mut changes: Vec<(String, bool)> = Vec::new();
    let mut i: usize = 0;
    while i < zones.len()
        invariant
            0 <= i <= zones@.len(),
            zones@.len() == z0.len(),
            z0.len() == in_range@.len(),
            forall|k: int|
                0 <= k < z0.len() ==> (#[trigger] zones@[k]).scene_path@ == z0[k].scene_path@,
            forall|k: int| 0 <= k < i ==> (#[trigger] zones@[k]).loaded == in_range@[k],
            forall|k: int| i <= k < z0.len() ==> (#[trigger] zones@[k]).loaded == z0[k].loaded,
            changes@.map_values(|c: (String, bool)| (c.0@, c.1)) == streaming_changes(
                z0,
                in_range@,
                i as nat,
            ),
        decreases z0.len() - i,
    {
        let should_load = in_range[i];
        if should_load != zones[i].loaded {
            let path = zones[i].scene_path.clone();
            let request = zones[i].scene_path.clone();
            zones.set(i, ZoneStatus { scene_path: path, loaded: should_load });
            changes.push((request, should_load));
        }
        proof {
            assert(changes@.map_values(|c: (String, bool)| (c.0@, c.1)) =~= streaming_changes(
                z0,
                in_range@,
                (i + 1) as nat,
            ));
        }
        i = i + 1;
    }
    changes
}


/// What unloading reads of an entity: its id, the scene tag it carries if any,
/// and its parent if it has one.
#[derive(Debug, Clone)]
pub struct EntityTags {
    pub id: u64,
    pub tag: Option<String>,
    pub parent: Option<u64>,
}

/// Whether the entity carries the tag of scene `name`.
pub open spec fn tagged_with(e: EntityTags, name: Seq<char>) -> bool {
    e.tag matches Some(t) && t@ == name
}

/// Whether some entity with id `id` carries the tag of scene `name`.
pub open spec fn id_tagged(es: Seq<EntityTags>, name: Seq<char>, id: u64) -> bool {
    exists|i: int| 0 <= i < es.len() && es[i].id == id && #[trigger] tagged_with(es[i], name)
}

/// The ids of the first `n` entities that carry the tag of scene `name`.
pub open spec fn tagged_ids(es: Seq<EntityTags>, name: Seq<char>, n: nat) -> Seq<u64>
    decreases n,
{
    if n == 0 {
        Seq::empty()
    } else {
        let prev = tagged_ids(es, name, (n - 1) as nat);
        if tagged_with(es[n - 1], name) {
            prev.push(es[n - 1].id)
        } else {
            prev
        }
    }
}

/// The ids of the first `n` entities that do not carry the tag but whose parent does.
pub open spec fn child_ids(es: Seq<EntityTags>, name: Seq<char>, n: nat) -> Seq<u64>
    decreases n,
{
    if n == 0 {
        Seq::empty()
    } else {
        let prev = child_ids(es, name, (n - 1) as nat);
        let e = es[n - 1];
        if e.parent matches Some(p) && id_tagged(es, name, p) && !id_tagged(es, name, e.id) {
            prev.push(e.id)
        } else {
            prev
        }
    }
}

fn tag_is(e: &EntityTags, name: &str) -> (r: bool)
    ensures
        r == tagged_with(*e, name@),
{
    match &e.tag {
        Some(t) => str_eq(t.as_str(), name),
        None => false,
    }
}

fn has_tagged_id(entities: &[EntityTags], name: &str, id: u64) -> (r: bool)
    ensures
        r == id_tagged(entities@, name@, id),
{
    let mut i: usize = 0;
    while i < entities.len()
        invariant
            0 <= i <= entities@.len(),
            forall|k: int|
                0 <= k < i ==> !(entities@[k].id == id && #[trigger] tagged_with(entities@[k], name@)),
        decreases entities@.len() - i,
    {
        if entities[i].id == id && tag_is(&entities[i], name) {
            return true;
        }
        i = i + 1;
    }
    false
}

/// The entities that unloading scene `name` removes: those tagged with the
/// scene, in order, then the untagged children of tagged entities, in order.
pub fn unload_targets(entities: &[EntityTags], name: &str) -> (r: Vec<u64>)
    ensures
        r@ == tagged_ids(entities@, name@, entities@.len()) + child_ids(
            entities@,
            name@,
            entities@.len(),
        ),
{
    let mut tagged: Vec<u64> = Vec::new();
    let mut i: usize = 0;
    while i < entities.len()
        invariant
            0 <= i <= entities@.len(),
            tagged@ == tagged_ids(entities@, name@, i as nat),
        decreases entities@.len() - i,
    {
        if tag_is(&entities[i], name) {
            tagged.push(entities[i].id);
        }
        i = i + 1;
    }
    let mut children: Vec<u64> = Vec::new();
    let mut j: usize = 0;
    while j < entities.len()
        invariant
            0 <= j <= entities@.len(),
            children@ == child_ids(entities@, name@, j as nat),
        decreases entities@.len() - j,
    {
        if let Some(p) = entities[j].parent {
            if has_tagged_id(entities, name, p) && !has_tagged_id(entities, name, entities[j].id) {
                children.push(entities[j].id);
            }
        }
        j = j + 1;
    }
    let ghost t = tagged@;
    let ghost c = children@;
    tagged.append(&mut children);
    assert(tagged@ =~= t + c);
    tagged
}

} // verus!
