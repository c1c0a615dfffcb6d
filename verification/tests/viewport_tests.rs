use rustix_runtime::viewport::{Viewport, ViewportManager, MAX_VIEWPORTS, PRIMARY_VIEWPORT};

#[derive(Default, Debug, Clone, PartialEq)]
struct Cam {
    zoom: i32,
}

#[test]
fn manager_starts_with_the_primary_viewport() {
    let m: ViewportManager<Cam> = ViewportManager::new();
    assert_eq!(m.viewports.len(), 1);
    assert_eq!(m.viewports[0].name, "Viewport");
    assert!(m.viewports[0].open);
    assert!(m.viewports[0].is_primary);
    assert_eq!(*m.primary_camera(), Cam::default());
}

#[test]
fn adding_viewports_names_them_and_stops_at_four() {
    let mut m: ViewportManager<Cam> = ViewportManager::new();
    assert_eq!(m.add_viewport(), Some(1));
    assert_eq!(m.add_viewport(), Some(2));
    assert_eq!(m.add_viewport(), Some(3));
    assert_eq!(m.add_viewport(), None);
    assert_eq!(m.viewports.len(), MAX_VIEWPORTS);
    assert_eq!(m.viewports[1].name, "Viewport 2");
    assert_eq!(m.viewports[2].name, "Viewport 3");
    assert_eq!(m.viewports[3].name, "Viewport 4");
    assert!(!m.viewports[3].is_primary);
    assert!(m.viewports[3].open);
}

#[test]
fn removing_keeps_the_primary() {
    let mut m: ViewportManager<Cam> = ViewportManager::new();
    m.add_viewport();
    m.add_viewport();
    m.remove_viewport(PRIMARY_VIEWPORT);
    assert_eq!(m.viewports.len(), 3);
    m.remove_viewport(7);
    assert_eq!(m.viewports.len(), 3);
    m.remove_viewport(1);
    assert_eq!(m.viewports.len(), 2);
    assert_eq!(m.viewports[0].name, "Viewport");
    assert_eq!(m.viewports[1].name, "Viewport 3");
    // a viewport added now is named by its position
    assert_eq!(m.add_viewport(), Some(2));
    assert_eq!(m.viewports[2].name, "Viewport 3");
}

#[test]
fn primary_camera_is_editable() {
    let mut m: ViewportManager<Cam> = ViewportManager::new();
    m.add_viewport();
    m.primary_camera_mut().zoom = 5;
    assert_eq!(m.primary_camera().zoom, 5);
    assert_eq!(m.viewports[1].camera.zoom, 0);
}

#[test]
fn new_viewport_is_open() {
    let v: Viewport<Cam> = Viewport::new("Side", false);
    assert_eq!(v.name, "Side");
    assert!(v.open);
    assert!(!v.is_primary);
}

#[test]
fn only_the_first_viewport_is_ever_primary() {
    let mut m: ViewportManager<Cam> = ViewportManager::new();
    let script: [i64; 9] = [-1, -1, -1, -1, 2, -1, 1, 0, 3];
    for step in script {
        if step < 0 {
            m.add_viewport();
        } else {
            m.remove_viewport(step as usize);
        }
        assert!(!m.viewports.is_empty() && m.viewports.len() <= MAX_VIEWPORTS);
        assert!(m.viewports[0].is_primary);
        assert_eq!(m.viewports[0].name, "Viewport");
        assert!(m.viewports.iter().skip(1).all(|v| !v.is_primary));
    }
}
