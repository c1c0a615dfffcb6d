use rustix_runtime::asset_browser::{entry_order, file_icon_and_color, file_size_unit, size_unit_label, EntryKey};
use rustix_runtime::frame_graph_overlay::group_color;
use rustix_runtime::script_presets::{get_preset, CHARACTER_CONTROLLER_SRC, ENEMY_CONTROLLER_SRC, PRESET_NAMES};
use rustix_runtime::should_cast_shadow;
use rustix_runtime::sprite_editor::{circle_brush, fill_brush_pixels, rect_brush, DrawMode};
use rustix_runtime::terrain::{quad_indices, BrushMode};
use rustix_runtime::text::str_eq;

#[test]
fn every_named_preset_but_custom_has_source() {
    assert_eq!(PRESET_NAMES[0], "(Custom)");
    assert!(get_preset("(Custom)").is_none());
    for name in PRESET_NAMES.iter().skip(1) {
        let src = get_preset(name).expect("preset source");
        assert!(src.starts_with(&format!("// {}", name)));
    }
    assert_eq!(get_preset("Character Controller").unwrap(), CHARACTER_CONTROLLER_SRC);
    assert_eq!(get_preset("Enemy Controller").unwrap(), ENEMY_CONTROLLER_SRC);
    assert!(get_preset("Weather Control").unwrap().contains("scale = vec3(s, s, s);"));
    assert!(get_preset("character controller").is_none());
    assert!(get_preset("").is_none());
}

#[test]
fn shadow_pass_casts_from_every_mesh() {
    assert!(should_cast_shadow());
}

#[test]
fn string_equality_by_bytes() {
    assert!(str_eq("abc", "abc"));
    assert!(!str_eq("abc", "abd"));
    assert!(!str_eq("abc", "ab"));
    assert!(str_eq("", ""));
    assert!(str_eq("Grüße", "Grüße"));
    assert!(!str_eq("é", "e"));
}

#[test]
fn brush_labels() {
    assert_eq!(BrushMode::Raise.label(), "Raise");
    assert_eq!(BrushMode::Lower.label(), "Lower");
    assert_eq!(BrushMode::Smooth.label(), "Smooth");
    assert_eq!(BrushMode::Flatten.label(), "Flatten");
    assert_eq!(BrushMode::Splat(0).label(), "Paint Red");
    assert_eq!(BrushMode::Splat(1).label(), "Paint Green");
    assert_eq!(BrushMode::Splat(2).label(), "Paint Blue");
    assert_eq!(BrushMode::Splat(3).label(), "Paint Alpha");
    assert_eq!(BrushMode::Splat(9).label(), "Paint");
}

#[test]
fn quad_indices_of_small_grids() {
    assert_eq!(quad_indices(2, 2), vec![0, 1, 2, 2, 1, 3]);
    let idx = quad_indices(3, 3);
    assert_eq!(idx.len(), 24);
    assert_eq!(&idx[..6], &[0, 1, 3, 3, 1, 4]);
    assert_eq!(&idx[6..12], &[1, 2, 4, 4, 2, 5]);
    assert_eq!(&idx[18..], &[4, 5, 7, 7, 5, 8]);
    assert!(idx.iter().all(|&i| i < 9));
    assert!(quad_indices(1, 5).is_empty());
    assert!(quad_indices(4, 1).is_empty());
}

#[test]
fn quad_indices_of_a_terrain_grid_stay_in_range() {
    let n = 33u32;
    let idx = quad_indices(n, n);
    assert_eq!(idx.len(), 6 * 32 * 32);
    assert!(idx.iter().all(|&i| (i as u32) < n * n));
    assert_eq!(*idx.last().unwrap() as u32, n * n - 1);
}

#[test]
fn file_icons_by_extension() {
    assert_eq!(file_icon_and_color(true, "png"), ("📁", [240, 200, 80]));
    assert_eq!(file_icon_and_color(false, "glb"), ("🧊", [130, 200, 250]));
    assert_eq!(file_icon_and_color(false, "png"), ("🖼", [100, 220, 140]));
    assert_eq!(file_icon_and_color(false, "ogg"), ("🔊", [250, 150, 200]));
    assert_eq!(file_icon_and_color(false, "wgsl"), ("🎨", [200, 180, 100]));
    assert_eq!(file_icon_and_color(false, "rs"), ("📜", [180, 200, 220]));
    assert_eq!(file_icon_and_color(false, "rustixproj"), ("⚙", [120, 240, 200]));
    assert_eq!(file_icon_and_color(false, "json"), ("📋", [200, 200, 180]));
    assert_eq!(file_icon_and_color(false, "md"), ("📝", [180, 180, 180]));
    assert_eq!(file_icon_and_color(false, "ttf"), ("🔤", [220, 180, 140]));
    assert_eq!(file_icon_and_color(false, "anim"), ("🦴", [220, 160, 120]));
    assert_eq!(file_icon_and_color(false, "PNG"), ("📄", [160, 160, 170]));
    assert_eq!(file_icon_and_color(false, ""), ("📄", [160, 160, 170]));
}

#[test]
fn file_size_units() {
    assert_eq!(file_size_unit(0), 0);
    assert_eq!(file_size_unit(1023), 0);
    assert_eq!(file_size_unit(1024), 1);
    assert_eq!(file_size_unit(1024 * 1024 - 1), 1);
    assert_eq!(file_size_unit(1024 * 1024), 2);
    assert_eq!(file_size_unit(1024 * 1024 * 1024), 3);
    assert_eq!(file_size_unit(u64::MAX), 3);
    assert_eq!(size_unit_label(0), "B");
    assert_eq!(size_unit_label(1), "KB");
    assert_eq!(size_unit_label(2), "MB");
    assert_eq!(size_unit_label(3), "GB");
}

#[test]
fn draw_modes_compare() {
    assert_eq!(DrawMode::Fill, DrawMode::Fill);
    assert_ne!(DrawMode::Rect, DrawMode::Circle);
}

fn key(is_dir: bool, name: &str) -> EntryKey {
    EntryKey { is_dir, name: name.as_bytes().to_vec() }
}

#[test]
fn directories_come_first_then_names() {
    let keys = vec![key(false, "b.txt"), key(true, "src"), key(false, "a.png"), key(true, "assets")];
    assert_eq!(entry_order(&keys), vec![3, 1, 2, 0]);
    let keys = vec![key(false, "alpha"), key(false, "Zeta"), key(false, "abc"), key(false, "ab")];
    assert_eq!(entry_order(&keys), vec![1, 3, 2, 0]);
    let keys = vec![key(false, "x"), key(true, "x"), key(false, "x")];
    assert_eq!(entry_order(&keys), vec![1, 0, 2]);
    assert!(entry_order(&[]).is_empty());
}

#[test]
fn frame_graph_group_colors_cycle() {
    assert_eq!(group_color(0), [100, 180, 100]);
    assert_eq!(group_color(5), [180, 120, 120]);
    assert_eq!(group_color(7), [180, 100, 180]);
    assert_eq!(group_color(6), group_color(0));
}

#[test]
fn fill_brush_covers_a_square_around_the_pointer() {
    assert_eq!(fill_brush_pixels(7, 9, 1, 64, 64), vec![(7, 9)]);
    assert_eq!(fill_brush_pixels(5, 5, 2, 64, 64), vec![(4, 4), (5, 4), (4, 5), (5, 5)]);
    assert_eq!(
        fill_brush_pixels(5, 5, 3, 64, 64),
        vec![(4, 4), (5, 4), (6, 4), (4, 5), (5, 5), (6, 5), (4, 6), (5, 6), (6, 6)]
    );
}

#[test]
fn fill_brush_clamps_at_zero_and_clips_at_the_far_edges() {
    assert_eq!(
        fill_brush_pixels(0, 0, 3, 64, 64),
        vec![(0, 0), (0, 0), (1, 0), (0, 0), (0, 0), (1, 0), (0, 1), (0, 1), (1, 1)]
    );
    assert_eq!(fill_brush_pixels(63, 63, 3, 64, 64), vec![(62, 62), (63, 62), (62, 63), (63, 63)]);
    assert!(fill_brush_pixels(3, 3, 0, 64, 64).is_empty());
}

#[test]
fn rect_and_circle_brushes() {
    assert_eq!(rect_brush(10, 10, 2), (6, 6, 8, 8));
    assert_eq!(rect_brush(0, 1, 1), (-2, -1, 4, 4));
    assert_eq!(circle_brush(10, 12, 3), (10, 12, 12));
}
