//! The keyboard controls: preset keys switch the camera outright, the quit
//! key ends the program.
use vstd::prelude::*;

verus! {

/// The key edges of one frame: for each camera preset, whether its key went
/// down this frame, and whether the quit key did.
#[derive(Clone, Debug)]
pub struct KeyboardInput {
    pub preset_just_pressed: Vec<bool>,
    pub quit_just_pressed: bool,
}

/// What a frame's key edges ask for: the camera preset to switch to, if
/// any, and whether to quit.
#[derive(Clone, Copy, Debug, PartialEq, Eq, Structural)]
pub struct KeyboardResponse {
    pub camera_preset: Option<usize>,
    pub quit: bool,
}

/// The last preset whose key went down: the presets are applied in order,
/// so the last one stays.
pub open spec fn last_pressed(pressed: Seq<bool>) -> Option<usize>
    decreases pressed.len(),
{
    if pressed.len() == 0 {
        None
    } else if pressed.last() {
        Some((pressed.len() - 1) as usize)
    } else {
        last_pressed(pressed.drop_last())
    }
}

/// Decides a frame's camera switch and quit request from its key edges.
pub fn handle_keyboard_input(input: &KeyboardInput) -> (r: KeyboardResponse)
    ensures
        r.camera_preset == last_pressed(input.preset_just_pressed@),
        r.quit == input.quit_just_pressed,
{
    let pressed = &input.preset_just_pressed;
    let mut chosen: Option<usize> = None;
    let mut i: usize = 0;
    while i < pressed.len()
        invariant
            i <= pressed.len(),
            chosen == last_pressed(pressed@.subrange(0, i as int)),
        decreases pressed.len() - i,
    {
        let ghost prefix = pressed@.subrange(0, i + 1);
        assert(prefix.drop_last() =~= pressed@.subrange(0, i as int));
        if pressed[i] {
            chosen = Some(i);
        }
        i = i + 1;
    }
    assert(pressed@.subrange(0, pressed@.len() as int) =~= pressed@);
    KeyboardResponse { camera_preset: chosen, quit: input.quit_just_pressed }
}

} // verus!
