use rustix_runtime::scene::{evaluate_streaming, unload_targets, EntityTags, LoadedScene, MeshComponent, Name, SceneManager, SceneTag, ZoneStatus};

fn names(m: &SceneManager<u32>) -> Vec<String> {
    m.loaded_scenes.iter().map(|s| s.name.clone()).collect()
}

#[test]
fn new_manager_is_empty() {
    let m: SceneManager<u32> = SceneManager::new();
    assert!(m.loaded_scenes.is_empty());
    assert!(m.streaming_zones.is_empty());
    assert!(!m.show_manager);
    assert!(!m.is_loaded("level1"));
}

#[test]
fn register_then_is_loaded() {
    let mut m: SceneManager<u32> = SceneManager::new();
    m.register("level1".to_string(), "scenes/level1.json".to_string(), 12);
    assert!(m.is_loaded("level1"));
    assert!(!m.is_loaded("level2"));
    assert!(!m.is_loaded("Level1"));
    assert_eq!(m.loaded_scenes[0].entity_count, 12);
    assert_eq!(m.loaded_scenes[0].path, "scenes/level1.json");
}

#[test]
fn registering_again_updates_the_count_only() {
    let mut m: SceneManager<u32> = SceneManager::new();
    m.register("a".to_string(), "a.json".to_string(), 1);
    m.register("b".to_string(), "b.json".to_string(), 2);
    m.register("a".to_string(), "other.json".to_string(), 7);
    assert_eq!(names(&m), vec!["a".to_string(), "b".to_string()]);
    assert_eq!(m.loaded_scenes[0].entity_count, 7);
    assert_eq!(m.loaded_scenes[0].path, "a.json");
}

#[test]
fn unregister_removes_only_that_scene() {
    let mut m: SceneManager<u32> = SceneManager::new();
    m.register("a".to_string(), "a.json".to_string(), 1);
    m.register("b".to_string(), "b.json".to_string(), 2);
    m.register("c".to_string(), "c.json".to_string(), 3);
    m.unregister("b");
    assert_eq!(names(&m), vec!["a".to_string(), "c".to_string()]);
    assert!(!m.is_loaded("b"));
    m.unregister("missing");
    assert_eq!(names(&m), vec!["a".to_string(), "c".to_string()]);
    m.streaming_zones.push(4);
    m.unregister("a");
    m.unregister("c");
    assert!(m.loaded_scenes.is_empty());
    assert_eq!(m.streaming_zones, vec![4]);
}

#[test]
fn scene_components_hold_their_names() {
    let n = Name("Cube".to_string());
    let mesh = MeshComponent("cube".to_string());
    let tag = SceneTag("my_scene".to_string());
    assert_eq!(n.0, "Cube");
    assert_eq!(mesh, MeshComponent("cube".to_string()));
    assert_eq!(tag, SceneTag("my_scene".to_string()));
    let s = LoadedScene { name: "x".to_string(), path: "x.json".to_string(), entity_count: 0 };
    assert_eq!(s.clone().name, "x");
}

/// Whether a viewer at `viewer` lies in the sphere of `radius` around `center`.
fn in_sphere(center: [f32; 3], radius: f32, viewer: [f32; 3]) -> bool {
    let d: f32 = (0..3).map(|i| (center[i] - viewer[i]) * (center[i] - viewer[i])).sum();
    d.sqrt() <= radius
}

#[test]
fn streaming_zone_evaluation() {
    let center = [0.0, 0.0, 0.0];
    let radius = 10.0;
    let mut zones = vec![ZoneStatus { scene_path: "zone1.rustixscene".into(), loaded: false }];

    // Viewer inside zone -> should trigger load
    let changes = evaluate_streaming(&mut zones, &[in_sphere(center, radius, [5.0, 0.0, 0.0])]);
    assert_eq!(changes.len(), 1);
    assert_eq!(changes[0].0, "zone1.rustixscene");
    assert!(changes[0].1);
    assert!(zones[0].loaded);

    // Viewer still inside -> no new changes
    let changes = evaluate_streaming(&mut zones, &[in_sphere(center, radius, [3.0, 0.0, 0.0])]);
    assert_eq!(changes.len(), 0);

    // Viewer outside -> should trigger unload
    let changes = evaluate_streaming(&mut zones, &[in_sphere(center, radius, [20.0, 0.0, 0.0])]);
    assert_eq!(changes.len(), 1);
    assert_eq!(changes[0].0, "zone1.rustixscene");
    assert!(!changes[0].1);
    assert!(!zones[0].loaded);
}

#[test]
fn streaming_requests_follow_zone_order() {
    let mut zones = vec![
        ZoneStatus { scene_path: "a".into(), loaded: true },
        ZoneStatus { scene_path: "b".into(), loaded: false },
        ZoneStatus { scene_path: "c".into(), loaded: true },
    ];
    let changes = evaluate_streaming(&mut zones, &[false, true, true]);
    assert_eq!(changes, vec![("a".to_string(), false), ("b".to_string(), true)]);
    assert_eq!(zones.iter().map(|z| z.loaded).collect::<Vec<_>>(), vec![false, true, true]);
}

fn tagged(id: u64, tag: Option<&str>, parent: Option<u64>) -> EntityTags {
    EntityTags { id, tag: tag.map(|t| t.to_string()), parent }
}

#[test]
fn unloading_takes_tagged_entities_and_their_untagged_children() {
    let entities = vec![
        tagged(1, Some("temp_scene"), None),
        tagged(2, None, None),
        tagged(3, None, Some(1)),
        tagged(4, Some("other"), Some(1)),
        tagged(5, Some("temp_scene"), Some(1)),
        tagged(6, None, Some(3)),
    ];
    // 3 and 4 are children of a tagged entity; 6 is a grandchild and stays
    assert_eq!(unload_targets(&entities, "temp_scene"), vec![1, 5, 3, 4]);
    assert_eq!(unload_targets(&entities, "other"), vec![4]);
    assert!(unload_targets(&entities, "missing").is_empty());
}

#[test]
fn unload_scene_removes_tagged_entities() {
    let entities = vec![tagged(10, None, None), tagged(11, Some("temp_scene"), None)];
    let removed = unload_targets(&entities, "temp_scene");
    assert_eq!(removed.len(), 1, "should remove exactly 1 tagged entity");
    assert_eq!(removed, vec![11]);
}
