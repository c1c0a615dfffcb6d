use rustix_runtime::gizmo;

#[test]
fn gizmo_mode_e_selects_translate() {
    assert_eq!(gizmo::resolve_gizmo_mode_pure(2, true, false, false), 0, "E should select translate (0)");
}

#[test]
fn gizmo_mode_r_selects_rotate() {
    assert_eq!(gizmo::resolve_gizmo_mode_pure(0, false, true, false), 1, "R should select rotate (1)");
}

#[test]
fn gizmo_mode_t_selects_scale() {
    assert_eq!(gizmo::resolve_gizmo_mode_pure(0, false, false, true), 2, "T should select scale (2)");
}

#[test]
fn gizmo_mode_no_key_preserves_current() {
    assert_eq!(gizmo::resolve_gizmo_mode_pure(1, false, false, false), 1, "no key should preserve current mode");
}

#[test]
fn gizmo_mode_e_takes_precedence_over_r_and_t() {
    // E pressed together with R and T → E wins (translate)
    assert_eq!(gizmo::resolve_gizmo_mode_pure(2, true, true, true), 0, "E should take precedence over R and T");
}

#[test]
fn gizmo_mode_r_takes_precedence_over_t() {
    // R and T pressed without E → R wins (rotate)
    assert_eq!(gizmo::resolve_gizmo_mode_pure(0, false, true, true), 1, "R should take precedence over T");
}

#[test]
fn gizmo_mode_keys_are_independent_of_shift() {
    // The function does not know about modifiers; the caller filters out
    // command-modified keys before calling it.
    assert_eq!(gizmo::resolve_gizmo_mode_pure(2, true, false, false), 0, "E→translate regardless of modifiers");
    assert_eq!(gizmo::resolve_gizmo_mode_pure(0, false, true, false), 1, "R→rotate regardless of modifiers");
    assert_eq!(gizmo::resolve_gizmo_mode_pure(0, false, false, true), 2, "T→scale regardless of modifiers");
}

#[test]
fn gizmo_mode_keeps_any_current_mode_without_keys() {
    for m in 0..3usize {
        assert_eq!(gizmo::resolve_gizmo_mode_pure(m, false, false, false), m);
    }
}
