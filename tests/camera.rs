use voxel_scene::camera::{handle_keyboard_input, KeyboardInput, KeyboardResponse};
use voxel_scene::components::AutomaticRotation;

fn input(keys: [bool; 4], quit: bool) -> KeyboardInput {
    KeyboardInput { preset_just_pressed: keys.to_vec(), quit_just_pressed: quit }
}

#[test]
fn no_key_keeps_the_camera() {
    assert_eq!(
        handle_keyboard_input(&input([false; 4], false)),
        KeyboardResponse { camera_preset: None, quit: false }
    );
}

#[test]
fn a_preset_key_selects_its_preset() {
    assert_eq!(handle_keyboard_input(&input([false, false, true, false], false)).camera_preset, Some(2));
    assert_eq!(handle_keyboard_input(&input([true, false, false, false], false)).camera_preset, Some(0));
}

#[test]
fn the_last_of_several_presets_wins() {
    assert_eq!(handle_keyboard_input(&input([true, true, false, true], false)).camera_preset, Some(3));
}

#[test]
fn quit_key_asks_to_quit() {
    assert_eq!(
        handle_keyboard_input(&input([false, true, false, false], true)),
        KeyboardResponse { camera_preset: Some(1), quit: true }
    );
}

#[test]
fn rotation_marker_is_a_plain_value() {
    assert_eq!(AutomaticRotation, AutomaticRotation.clone());
}
