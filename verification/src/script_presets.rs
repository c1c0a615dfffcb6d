//! Script presets for common game behaviors.
//!
//! These are Rhai script templates that users can attach to entities via
//! the Inspector panel. Each preset modifies the entity's transform
//! using the scripting API (translation, rotation, scale).
use vstd::prelude::*;
use crate::text::str_eq;

verus! {

/// Available script preset names for the UI dropdown.
pub const PRESET_NAMES: [&'static str; 5] = [
    "(Custom)",
    "Character Controller",
    "Camera Controller",
    "Weather Control",
    "Enemy Controller",
];

/// Source of the "Character Controller" preset.
pub const CHARACTER_CONTROLLER_SRC: &'static str = r#"// Character Controller
// Moves the entity in a circular path.
// Adjust radius and speed below.

let radius = 5.0;
let speed = 1.0;
let t = time();

let x = radius * sin(t * speed);
let z = radius * cos(t * speed);

translation.x = x;
translation.z = z;
"#;

/// Source of the "Camera Controller" preset.
pub const CAMERA_CONTROLLER_SRC: &'static str = r#"// Camera Controller
// Orbits the entity around the origin with vertical bobbing.
// Attach to a camera entity and set it to look at the origin.

let t = time();
let radius = 10.0;
let speed = 0.5;
let height = 5.0;
let bob = 2.0;

translation.x = radius * sin(t * speed);
translation.z = radius * cos(t * speed);
translation.y = height + bob * sin(t * 0.3);
"#;

/// Source of the "Weather Control" preset.
pub const WEATHER_CONTROL_SRC: &'static str = r#"// Weather Control
// Oscillates scale to simulate breathing/pulsing weather elements.
// Adjust base_scale, amplitude, and frequency.

let t = time();
let base_scale = 1.0;
let amplitude = 0.2;
let frequency = 2.0;

let s = base_scale + amplitude * sin(t * frequency);
scale = vec3(s, s, s);
"#;

/// Source of the "Enemy Controller" preset.
pub const ENEMY_CONTROLLER_SRC: &'static str = r#"// Enemy Controller
// Patrols back and forth along the X axis.
// Adjust patrol_range and speed to fit your scene.

let t = time();
let patrol_range = 8.0;
let speed = 1.5;

let x = patrol_range * sin(t * speed);
translation.x = x;
"#;

/// The source of the preset with the given name; the names are those of
/// `PRESET_NAMES` but "(Custom)", which has no source.
pub open spec fn preset_source(name: Seq<char>) -> Option<Seq<char>> {
    if name == "Character Controller"@ {
        Some(CHARACTER_CONTROLLER_SRC@)
    } else if name == "Camera Controller"@ {
        Some(CAMERA_CONTROLLER_SRC@)
    } else if name == "Weather Control"@ {
        Some(WEATHER_CONTROL_SRC@)
    } else if name == "Enemy Controller"@ {
        Some(ENEMY_CONTROLLER_SRC@)
    } else {
        None
    }
}

/// Get the Rhai source for a named preset.
pub fn get_preset(name: &str) -> (r: Option<String>)
    ensures
        match preset_source(name@) {
            Some(src) => r matches Some(s) && s@ == src,
            None => r is None,
        },
{
    if str_eq(name, "Character Controller") {
        Some(character_controller())
    } else if str_eq(name, "Camera Controller") {
        Some(camera_controller())
    } else if str_eq(name, "Weather Control") {
        Some(weather_control())
    } else if str_eq(name, "Enemy Controller") {
        Some(enemy_controller())
    } else {
        None
    }
}

/// Moves the entity in a horizontal circle (autonomous character movement).
fn character_controller() -> (s: String)
    ensures
        s@ == CHARACTER_CONTROLLER_SRC@,
{
    CHARACTER_CONTROLLER_SRC.to_string()
}

/// Orbits the entity around the origin (useful for demo cameras or drones).
fn camera_controller() -> (s: String)
    ensures
        s@ == CAMERA_CONTROLLER_SRC@,
{
    CAMERA_CONTROLLER_SRC.to_string()
}

/// Pulses scale over time (good for rain, clouds, or magical effects).
fn weather_control() -> (s: String)
    ensures
        s@ == WEATHER_CONTROL_SRC@,
{
    WEATHER_CONTROL_SRC.to_string()
}

/// Patrols back and forth along the X axis (simple enemy patrol AI).
fn enemy_controller() -> (s: String)
    ensures
        s@ == ENEMY_CONTROLLER_SRC@,
{
    ENEMY_CONTROLLER_SRC.to_string()
}

} // verus!
