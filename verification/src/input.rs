//! What the game screen does with a key press, and what an event asks of the client.

use vstd::prelude::*;

use crate::cube::{Difficulty, Face};
use crate::game_state::GameState;
use crate::keymap::{InputKey, ModKey};

verus! {

/// What handling an event asks of the client.
pub enum EventResult {
    /// Keep going on the current screen.
    Continue,
    /// Start playing this game.
    StartGame(GameState),
    /// Generate a new game of this difficulty.
    StartGenerating(Difficulty),
    /// Go back to the main menu.
    BackToMenu,
    /// Leave the program.
    Quit,
}

/// What a key press on the game screen asks for.
#[derive(Debug, Clone, Copy, PartialEq, Eq, Structural)]
pub enum GameCommand {
    /// Alt+H: fill the current face (in debug mode only).
    DebugHintFace,
    /// Show the previous page of buttons.
    PagePrev,
    /// Show the next page of buttons.
    PageNext,
    /// Back to the menu.
    BackToMenu,
    /// Generate a new game of the same difficulty.
    NewGame,
    /// Switch to the next render mode.
    ToggleMode,
    /// Erase the cell under the cursor unless it is given (E, X).
    EraseUnlessGiven,
    /// Switch the guide highlighting.
    ToggleGuidance,
    /// Fill the selected cell with its answer.
    Hint,
    /// Take back the last move.
    Undo,
    /// Erase the cell under the cursor (Backspace, Delete).
    Erase,
    /// Put a digit in the cell under the cursor.
    Place(u8),
    /// Move the cursor by a step, across edges.
    MoveCursor(i8, i8),
    /// Turn to the neighbouring face in a direction.
    SwitchFace(i8, i8),
    /// Turn to a face.
    JumpFace(Face),
    /// Nothing.
    Nothing,
}

/// Whether `code` is the letter `lower` in either case.
pub open spec fn is_letter(code: InputKey, lower: char) -> bool {
    code == InputKey::Char(lower) || code == InputKey::Char(((lower as u32) - 32) as char)
}

/// The command of a key press on the game screen, in the order the keys are tested: Alt+H
/// first, then the page keys `[`/`{` and `]`/`}` whatever the modifiers, then the letters
/// and keys of the game (WASD only with no modifier or Shift alone).
pub open spec fn game_command(code: InputKey, mods: ModKey) -> GameCommand {
    let shift_or_none = (!mods.shift && !mods.alt && !mods.ctrl) || mods.shift;
    if mods.alt && is_letter(code, 'h') {
        GameCommand::DebugHintFace
    } else if code == InputKey::Char('[') || code == InputKey::Char('{') {
        GameCommand::PagePrev
    } else if code == InputKey::Char(']') || code == InputKey::Char('}') {
        GameCommand::PageNext
    } else if is_letter(code, 'q') {
        GameCommand::BackToMenu
    } else if is_letter(code, 'n') {
        GameCommand::NewGame
    } else if is_letter(code, 'm') {
        GameCommand::ToggleMode
    } else if is_letter(code, 'e') || is_letter(code, 'x') {
        GameCommand::EraseUnlessGiven
    } else if is_letter(code, 'g') {
        GameCommand::ToggleGuidance
    } else if is_letter(code, 'h') {
        GameCommand::Hint
    } else if is_letter(code, 'z') {
        GameCommand::Undo
    } else if code == InputKey::Backspace || code == InputKey::Delete {
        GameCommand::Erase
    } else if code matches InputKey::Char(c) && 49 <= (c as u32) <= 57 {
        GameCommand::Place(((code->Char_0 as u32) - 48) as u8)
    } else if is_letter(code, 'w') && shift_or_none {
        GameCommand::MoveCursor(0i8, -1i8)
    } else if is_letter(code, 'a') && shift_or_none {
        GameCommand::MoveCursor(-1i8, 0i8)
    } else if is_letter(code, 's') && shift_or_none {
        GameCommand::MoveCursor(0i8, 1i8)
    } else if is_letter(code, 'd') && shift_or_none {
        GameCommand::MoveCursor(1i8, 0i8)
    } else if code == InputKey::Up {
        GameCommand::SwitchFace(0i8, -1i8)
    } else if code == InputKey::Down {
        GameCommand::SwitchFace(0i8, 1i8)
    } else if code == InputKey::Left {
        GameCommand::SwitchFace(-1i8, 0i8)
    } else if code == InputKey::Right {
        GameCommand::SwitchFace(1i8, 0i8)
    } else if is_letter(code, 'f') {
        GameCommand::JumpFace(Face::Front)
    } else if is_letter(code, 'b') {
        GameCommand::JumpFace(Face::Back)
    } else if is_letter(code, 'l') {
        GameCommand::JumpFace(Face::Left)
    } else if is_letter(code, 'r') {
        GameCommand::JumpFace(Face::Right)
    } else if is_letter(code, 't') {
        GameCommand::JumpFace(Face::Top)
    } else if is_letter(code, 'u') {
        GameCommand::JumpFace(Face::Bottom)
    } else {
        GameCommand::Nothing
    }
}

/// Whether the client ends its handling right after the command, without selecting the
/// cell under the cursor.
pub open spec fn ends_early(cmd: GameCommand) -> bool {
    match cmd {
        GameCommand::DebugHintFace | GameCommand::PagePrev | GameCommand::PageNext | GameCommand::BackToMenu
        | GameCommand::NewGame => true,
        _ => false,
    }
}

fn letter(code: InputKey, lower: char, upper: char) -> (r: bool)
    requires
        upper as u32 == (lower as u32) - 32,
    ensures
        r == is_letter(code, lower),
{
    match code {
        InputKey::Char(c) => c == lower || c == upper,
        _ => false,
    }
}

/// The command of a key press on the game screen (see `game_command`).
pub fn game_key_command(code: InputKey, mods: ModKey) -> (r: GameCommand)
    ensures
        r == game_command(code, mods),
{
    let shift_or_none = (!mods.shift && !mods.alt && !mods.ctrl) || mods.shift;
    if mods.alt && letter(code, 'h', 'H') {
        return GameCommand::DebugHintFace;
    }
    let (is_char, ch) = match code {
        InputKey::Char(c) => (true, c),
        _ => (false, ' '),
    };
    if is_char && (ch == '[' || ch == '{') {
        return GameCommand::PagePrev;
    }
    if is_char && (ch == ']' || ch == '}') {
        return GameCommand::PageNext;
    }
    if letter(code, 'q', 'Q') {
        GameCommand::BackToMenu
    } else if letter(code, 'n', 'N') {
        GameCommand::NewGame
    } else if letter(code, 'm', 'M') {
        GameCommand::ToggleMode
    } else if letter(code, 'e', 'E') || letter(code, 'x', 'X') {
        GameCommand::EraseUnlessGiven
    } else if letter(code, 'g', 'G') {
        GameCommand::ToggleGuidance
    } else if letter(code, 'h', 'H') {
        GameCommand::Hint
    } else if letter(code, 'z', 'Z') {
        GameCommand::Undo
    } else if code == InputKey::Backspace || code == InputKey::Delete {
        GameCommand::Erase
    } else if is_char && 49 <= (ch as u32) && (ch as u32) <= 57 {
        GameCommand::Place(((ch as u32) - 48) as u8)
    } else if letter(code, 'w', 'W') && shift_or_none {
        GameCommand::MoveCursor(0, -1)
    } else if letter(code, 'a', 'A') && shift_or_none {
        GameCommand::MoveCursor(-1, 0)
    } else if letter(code, 's', 'S') && shift_or_none {
        GameCommand::MoveCursor(0, 1)
    } else if letter(code, 'd', 'D') && shift_or_none {
        GameCommand::MoveCursor(1, 0)
    } else if code == InputKey::Up {
        GameCommand::SwitchFace(0, -1)
    } else if code == InputKey::Down {
        GameCommand::SwitchFace(0, 1)
    } else if code == InputKey::Left {
        GameCommand::SwitchFace(-1, 0)
    } else if code == InputKey::Right {
        GameCommand::SwitchFace(1, 0)
    } else if letter(code, 'f', 'F') {
        GameCommand::JumpFace(Face::Front)
    } else if letter(code, 'b', 'B') {
        GameCommand::JumpFace(Face::Back)
    } else if letter(code, 'l', 'L') {
        GameCommand::JumpFace(Face::Left)
    } else if letter(code, 'r', 'R') {
        GameCommand::JumpFace(Face::Right)
    } else if letter(code, 't', 'T') {
        GameCommand::JumpFace(Face::Top)
    } else if letter(code, 'u', 'U') {
        GameCommand::JumpFace(Face::Bottom)
    } else {
        GameCommand::Nothing
    }
}

/// A digit key places exactly its digit, 1 to 9.
pub proof fn lemma_digit_keys_place(d: u8)
    requires
        1 <= d <= 9,
    ensures
        game_command(InputKey::Char((48 + d) as char), ModKey { shift: false, alt: false, ctrl: false })
            == GameCommand::Place(d),
{
    let c = (48 + d) as char;
    assert(c as u32 == 48 + d);
}

} // verus!
