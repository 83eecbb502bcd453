//! Key events as the game reads them, and what each one asks for.

use vstd::prelude::*;
use crate::shape::Dir;

verus! {

/// Whether a key went down, came up, or repeats while held.
#[derive(Clone, Copy, Debug, PartialEq, Eq, Structural)]
pub enum KeyKind {
    Press,
    Release,
    Repeat,
}

/// The keys the game tells apart; every other key is `Other`.
#[derive(Clone, Copy, Debug, PartialEq, Eq, Structural)]
pub enum KeyCode {
    Char(char),
    Esc,
    Up,
    Down,
    Left,
    Right,
    Other,
}

/// A key event. `control` holds when the modifiers are exactly Control.
#[derive(Clone, Copy, Debug, PartialEq, Eq, Structural)]
pub struct KeyEvent {
    pub code: KeyCode,
    pub kind: KeyKind,
    pub control: bool,
}

/// What a key event asks of the game.
pub enum KeyAction {
    Quit,
    StartSoftDrop,
    StopSoftDrop,
    HardDrop,
    Rotate(Dir),
    ReleaseRotation,
    MoveRight,
    MoveLeft,
    StopMove,
    NudgeUp,
    Nothing,
}

/// The controls: q, Escape or Control-c quit; j or Down drops softly while
/// held; space drops hard; z and x rotate counter-clockwise and clockwise,
/// once per press; l or Right and h or Left shift while held; k or Up lifts
/// the piece a row, on a press and while held.
pub open spec fn key_action(key: KeyEvent, rotation_pressed: bool) -> KeyAction {
    let c = key.code;
    match key.kind {
        KeyKind::Press => {
            if c == KeyCode::Char('q') || c == KeyCode::Esc {
                KeyAction::Quit
            } else if c == KeyCode::Char('c') && key.control {
                KeyAction::Quit
            } else if c == KeyCode::Char('j') || c == KeyCode::Down {
                KeyAction::StartSoftDrop
            } else if c == KeyCode::Char(' ') {
                KeyAction::HardDrop
            } else if c == KeyCode::Char('z') && !rotation_pressed {
                KeyAction::Rotate(Dir::CounterClockWise)
            } else if c == KeyCode::Char('x') && !rotation_pressed {
                KeyAction::Rotate(Dir::ClockWise)
            } else if c == KeyCode::Char('l') || c == KeyCode::Right {
                KeyAction::MoveRight
            } else if c == KeyCode::Char('h') || c == KeyCode::Left {
                KeyAction::MoveLeft
            } else if c == KeyCode::Char('k') || c == KeyCode::Up {
                KeyAction::NudgeUp
            } else {
                KeyAction::Nothing
            }
        },
        KeyKind::Release => {
            if c == KeyCode::Down || c == KeyCode::Char('j') {
                KeyAction::StopSoftDrop
            } else if c == KeyCode::Char('z') || c == KeyCode::Char('x') {
                KeyAction::ReleaseRotation
            } else if c == KeyCode::Char('l') || c == KeyCode::Right || c == KeyCode::Char('h')
                || c == KeyCode::Left {
                KeyAction::StopMove
            } else {
                KeyAction::Nothing
            }
        },
        KeyKind::Repeat => {
            if c == KeyCode::Char('k') || c == KeyCode::Up {
                KeyAction::NudgeUp
            } else {
                KeyAction::Nothing
            }
        },
    }
}

/// The sideways move in force after an action.
pub open spec fn horizontal_after(horizontal_move: i32, action: KeyAction) -> i32 {
    match action {
        KeyAction::MoveRight => 1,
        KeyAction::MoveLeft => -1i32,
        KeyAction::StopMove => 0,
        _ => horizontal_move,
    }
}

/// The rotation keys: releasing z or x frees them; a press of x turns
/// clockwise and of z counter-clockwise, once per press, and a press while
/// a rotation key is held does nothing.
pub proof fn lemma_rotation_keys(key: KeyEvent, rotation_pressed: bool)
    ensures
        key.kind == KeyKind::Release && (key.code == KeyCode::Char('z') || key.code == KeyCode::Char(
            'x',
        )) ==> key_action(key, rotation_pressed) == KeyAction::ReleaseRotation,
        key.kind == KeyKind::Press && !rotation_pressed && key.code == KeyCode::Char('x')
            ==> key_action(key, rotation_pressed) == KeyAction::Rotate(Dir::ClockWise),
        key.kind == KeyKind::Press && !rotation_pressed && key.code == KeyCode::Char('z')
            ==> key_action(key, rotation_pressed) == KeyAction::Rotate(Dir::CounterClockWise),
        key.kind == KeyKind::Press && rotation_pressed && (key.code == KeyCode::Char('z')
            || key.code == KeyCode::Char('x')) ==> key_action(key, rotation_pressed)
            == KeyAction::Nothing,
{
}

} // verus!
