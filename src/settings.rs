use crossterm::event::KeyCode;
use vstd::prelude::*;

use crate::geometry::Size;

verus! {

/// Declares crossterm::event::KeyCode, the key a terminal event reports; the
/// settings only carry it, nothing here looks inside.
#[verifier::external_type_specification]
#[verifier::external_body]
pub struct ExKeyCode(KeyCode);

/// The key bound to each command of the game.
#[derive(Copy, Clone, Eq, PartialEq, Debug)]
pub struct KeyboardControl {
    pub start: KeyCode,
    pub pause: KeyCode,
    pub down: KeyCode,
    pub right: KeyCode,
    pub left: KeyCode,
    pub change: KeyCode,
    pub exit: KeyCode,
}

/// Layout of the screens and the size of the playing field, fixed at start-up.
#[derive(Copy, Clone, Eq, PartialEq, Debug)]
pub struct AppSettings {
    pub gaming_region: Size,
    pub info_region: Size,
    pub total_region: Size,
    pub welcome_region: Size,
    pub gaming_blocks_size: Size,
    pub keyboard_control: KeyboardControl,
}

} // verus!
