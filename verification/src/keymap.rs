//! Key bindings: the bindable actions, keys with modifiers, the default tables of each
//! screen, lookup of the action for a key press, and rebinding.

use vstd::prelude::*;

use crate::codec::starts_with;
use crate::text::{decimal, push_char, push_decimal};
use crate::types::AppScreen;

verus! {

/// An action that a key can be bound to.
#[derive(Debug, Clone, Copy, PartialEq, Eq, Hash, Structural)]
pub enum Action {
    Quit,
    Confirm,
    Cancel,
    MenuUp,
    MenuDown,
    MenuSelect,
    MenuDelete,
    MenuForceDelete,
    MenuExport,
    MenuImport,
    CursorUp,
    CursorDown,
    CursorLeft,
    CursorRight,
    FaceUp,
    FaceDown,
    FaceLeft,
    FaceRight,
    FaceFront,
    FaceBack,
    FaceLeftJump,
    FaceRightJump,
    FaceTop,
    FaceBottom,
    Number(u8),
    Erase,
    Hint,
    Undo,
    ToggleGuidance,
    ToggleMode,
    NewGame,
    BtnPagePrev,
    BtnPageNext,
    ShopFocus,
    ShopUp,
    ShopDown,
    ShopBuy,
    SnakeUp,
    SnakeDown,
    SnakeLeft,
    SnakeRight,
    SnakeQuit,
    SettingsUp,
    SettingsDown,
    SettingsLeft,
    SettingsRight,
    ToolCube,
    ToolSnake3,
    ToolFace,
    ToolSnake5,
    ToolTarget,
    DebugHintFace,
    DebugWin,
    DebugGoldUp,
    DebugGoldDown,
    ExportUp,
    ExportDown,
    ImportChar,
    ImportBackspace,
}

/// The group an action is listed under in the key binding screen.
#[derive(Debug, Clone, Copy, PartialEq, Eq, Hash, Structural)]
pub enum ActionGroup {
    General,
    Menu,
    Navigation,
    FaceJump,
    Gameplay,
    ButtonBar,
    Shop,
    Snake,
    Settings,
    Tools,
    Debug,
    Export,
    Import,
}

/// The name of an action shown in the key binding screen.
pub open spec fn action_name(a: Action) -> Seq<char> {
    match a {
        Action::Quit => "Quit"@,
        Action::Confirm => "Confirm"@,
        Action::Cancel => "Cancel"@,
        Action::MenuUp => "Menu Up"@,
        Action::MenuDown => "Menu Down"@,
        Action::MenuSelect => "Menu Select"@,
        Action::MenuDelete => "Delete Game"@,
        Action::MenuForceDelete => "Force Delete"@,
        Action::MenuExport => "Export"@,
        Action::MenuImport => "Import"@,
        Action::CursorUp => "Cursor Up"@,
        Action::CursorDown => "Cursor Down"@,
        Action::CursorLeft => "Cursor Left"@,
        Action::CursorRight => "Cursor Right"@,
        Action::FaceUp => "Face Up"@,
        Action::FaceDown => "Face Down"@,
        Action::FaceLeft => "Face Left"@,
        Action::FaceRight => "Face Right"@,
        Action::FaceFront => "Jump Front"@,
        Action::FaceBack => "Jump Back"@,
        Action::FaceLeftJump => "Jump Left"@,
        Action::FaceRightJump => "Jump Right"@,
        Action::FaceTop => "Jump Top"@,
        Action::FaceBottom => "Jump Bottom"@,
        Action::Number(n) => if n == 1 {
            "Number 1"@
        } else if n == 2 {
            "Number 2"@
        } else if n == 3 {
            "Number 3"@
        } else if n == 4 {
            "Number 4"@
        } else if n == 5 {
            "Number 5"@
        } else if n == 6 {
            "Number 6"@
        } else if n == 7 {
            "Number 7"@
        } else if n == 8 {
            "Number 8"@
        } else if n == 9 {
            "Number 9"@
        } else {
            "Number ?"@
        },
        Action::Erase => "Erase"@,
        Action::Hint => "Hint"@,
        Action::Undo => "Undo"@,
        Action::ToggleGuidance => "Toggle Guide"@,
        Action::ToggleMode => "Toggle Mode"@,
        Action::NewGame => "New Game"@,
        Action::BtnPagePrev => "Btn Page ←"@,
        Action::BtnPageNext => "Btn Page →"@,
        Action::ShopFocus => "Shop Focus"@,
        Action::ShopUp => "Shop Up"@,
        Action::ShopDown => "Shop Down"@,
        Action::ShopBuy => "Shop Buy"@,
        Action::SnakeUp => "Snake Up"@,
        Action::SnakeDown => "Snake Down"@,
        Action::SnakeLeft => "Snake Left"@,
        Action::SnakeRight => "Snake Right"@,
        Action::SnakeQuit => "Snake Quit"@,
        Action::SettingsUp => "Settings Up"@,
        Action::SettingsDown => "Settings Down"@,
        Action::SettingsLeft => "Settings Left"@,
        Action::SettingsRight => "Settings Right"@,
        Action::ToolCube => "Tool: Cube"@,
        Action::ToolSnake3 => "Tool: Snake×3"@,
        Action::ToolFace => "Tool: Face"@,
        Action::ToolSnake5 => "Tool: Snake×5"@,
        Action::ToolTarget => "Tool: Target"@,
        Action::DebugHintFace => "Debug: Hint Face"@,
        Action::DebugWin => "Debug: Win"@,
        Action::DebugGoldUp => "Debug: Gold +100"@,
        Action::DebugGoldDown => "Debug: Gold -50"@,
        Action::ExportUp => "Export Up"@,
        Action::ExportDown => "Export Down"@,
        Action::ImportChar => "Import: Type"@,
        Action::ImportBackspace => "Import: Backspace"@,
    }
}

/// The group of an action.
pub open spec fn action_group(a: Action) -> ActionGroup {
    match a {
        Action::Quit => ActionGroup::General,
        Action::Confirm => ActionGroup::General,
        Action::Cancel => ActionGroup::General,
        Action::MenuUp => ActionGroup::Menu,
        Action::MenuDown => ActionGroup::Menu,
        Action::MenuSelect => ActionGroup::Menu,
        Action::MenuDelete => ActionGroup::Menu,
        Action::MenuForceDelete => ActionGroup::Menu,
        Action::MenuExport => ActionGroup::Menu,
        Action::MenuImport => ActionGroup::Menu,
        Action::CursorUp => ActionGroup::Navigation,
        Action::CursorDown => ActionGroup::Navigation,
        Action::CursorLeft => ActionGroup::Navigation,
        Action::CursorRight => ActionGroup::Navigation,
        Action::FaceUp => ActionGroup::Navigation,
        Action::FaceDown => ActionGroup::Navigation,
        Action::FaceLeft => ActionGroup::Navigation,
        Action::FaceRight => ActionGroup::Navigation,
        Action::FaceFront => ActionGroup::FaceJump,
        Action::FaceBack => ActionGroup::FaceJump,
        Action::FaceLeftJump => ActionGroup::FaceJump,
        Action::FaceRightJump => ActionGroup::FaceJump,
        Action::FaceTop => ActionGroup::FaceJump,
        Action::FaceBottom => ActionGroup::FaceJump,
        Action::Number(_) => ActionGroup::Gameplay,
        Action::Erase => ActionGroup::Gameplay,
        Action::Hint => ActionGroup::Gameplay,
        Action::Undo => ActionGroup::Gameplay,
        Action::ToggleGuidance => ActionGroup::Gameplay,
        Action::ToggleMode => ActionGroup::Gameplay,
        Action::NewGame => ActionGroup::Gameplay,
        Action::BtnPagePrev => ActionGroup::ButtonBar,
        Action::BtnPageNext => ActionGroup::ButtonBar,
        Action::ShopFocus => ActionGroup::Shop,
        Action::ShopUp => ActionGroup::Shop,
        Action::ShopDown => ActionGroup::Shop,
        Action::ShopBuy => ActionGroup::Shop,
        Action::SnakeUp => ActionGroup::Snake,
        Action::SnakeDown => ActionGroup::Snake,
        Action::SnakeLeft => ActionGroup::Snake,
        Action::SnakeRight => ActionGroup::Snake,
        Action::SnakeQuit => ActionGroup::Snake,
        Action::SettingsUp => ActionGroup::Settings,
        Action::SettingsDown => ActionGroup::Settings,
        Action::SettingsLeft => ActionGroup::Settings,
        Action::SettingsRight => ActionGroup::Settings,
        Action::ToolCube => ActionGroup::Tools,
        Action::ToolSnake3 => ActionGroup::Tools,
        Action::ToolFace => ActionGroup::Tools,
        Action::ToolSnake5 => ActionGroup::Tools,
        Action::ToolTarget => ActionGroup::Tools,
        Action::DebugHintFace => ActionGroup::Debug,
        Action::DebugWin => ActionGroup::Debug,
        Action::DebugGoldUp => ActionGroup::Debug,
        Action::DebugGoldDown => ActionGroup::Debug,
        Action::ExportUp => ActionGroup::Export,
        Action::ExportDown => ActionGroup::Export,
        Action::ImportChar => ActionGroup::Import,
        Action::ImportBackspace => ActionGroup::Import,
    }
}

impl Action {
    /// The name shown for this action.
    pub fn display_name(&self) -> (r: &'static str)
        ensures
            r@ == action_name(*self),
    {
        match self {
            Action::Quit => "Quit",
            Action::Confirm => "Confirm",
            Action::Cancel => "Cancel",
            Action::MenuUp => "Menu Up",
            Action::MenuDown => "Menu Down",
            Action::MenuSelect => "Menu Select",
            Action::MenuDelete => "Delete Game",
            Action::MenuForceDelete => "Force Delete",
            Action::MenuExport => "Export",
            Action::MenuImport => "Import",
            Action::CursorUp => "Cursor Up",
            Action::CursorDown => "Cursor Down",
            Action::CursorLeft => "Cursor Left",
            Action::CursorRight => "Cursor Right",
            Action::FaceUp => "Face Up",
            Action::FaceDown => "Face Down",
            Action::FaceLeft => "Face Left",
            Action::FaceRight => "Face Right",
            Action::FaceFront => "Jump Front",
            Action::FaceBack => "Jump Back",
            Action::FaceLeftJump => "Jump Left",
            Action::FaceRightJump => "Jump Right",
            Action::FaceTop => "Jump Top",
            Action::FaceBottom => "Jump Bottom",
            Action::Number(n) => match *n {
                1 => "Number 1",
                2 => "Number 2",
                3 => "Number 3",
                4 => "Number 4",
                5 => "Number 5",
                6 => "Number 6",
                7 => "Number 7",
                8 => "Number 8",
                9 => "Number 9",
                _ => "Number ?",
            },
            Action::Erase => "Erase",
            Action::Hint => "Hint",
            Action::Undo => "Undo",
            Action::ToggleGuidance => "Toggle Guide",
            Action::ToggleMode => "Toggle Mode",
            Action::NewGame => "New Game",
            Action::BtnPagePrev => "Btn Page ←",
            Action::BtnPageNext => "Btn Page →",
            Action::ShopFocus => "Shop Focus",
            Action::ShopUp => "Shop Up",
            Action::ShopDown => "Shop Down",
            Action::ShopBuy => "Shop Buy",
            Action::SnakeUp => "Snake Up",
            Action::SnakeDown => "Snake Down",
            Action::SnakeLeft => "Snake Left",
            Action::SnakeRight => "Snake Right",
            Action::SnakeQuit => "Snake Quit",
            Action::SettingsUp => "Settings Up",
            Action::SettingsDown => "Settings Down",
            Action::SettingsLeft => "Settings Left",
            Action::SettingsRight => "Settings Right",
            Action::ToolCube => "Tool: Cube",
            Action::ToolSnake3 => "Tool: Snake×3",
            Action::ToolFace => "Tool: Face",
            Action::ToolSnake5 => "Tool: Snake×5",
            Action::ToolTarget => "Tool: Target",
            Action::DebugHintFace => "Debug: Hint Face",
            Action::DebugWin => "Debug: Win",
            Action::DebugGoldUp => "Debug: Gold +100",
            Action::DebugGoldDown => "Debug: Gold -50",
            Action::ExportUp => "Export Up",
            Action::ExportDown => "Export Down",
            Action::ImportChar => "Import: Type",
            Action::ImportBackspace => "Import: Backspace",
        }
    }

    /// The group this action is listed under.
    pub fn group(&self) -> (r: ActionGroup)
        ensures
            r == action_group(*self),
    {
        match self {
            Action::Quit => ActionGroup::General,
            Action::Confirm => ActionGroup::General,
            Action::Cancel => ActionGroup::General,
            Action::MenuUp => ActionGroup::Menu,
            Action::MenuDown => ActionGroup::Menu,
            Action::MenuSelect => ActionGroup::Menu,
            Action::MenuDelete => ActionGroup::Menu,
            Action::MenuForceDelete => ActionGroup::Menu,
            Action::MenuExport => ActionGroup::Menu,
            Action::MenuImport => ActionGroup::Menu,
            Action::CursorUp => ActionGroup::Navigation,
            Action::CursorDown => ActionGroup::Navigation,
            Action::CursorLeft => ActionGroup::Navigation,
            Action::CursorRight => ActionGroup::Navigation,
            Action::FaceUp => ActionGroup::Navigation,
            Action::FaceDown => ActionGroup::Navigation,
            Action::FaceLeft => ActionGroup::Navigation,
            Action::FaceRight => ActionGroup::Navigation,
            Action::FaceFront => ActionGroup::FaceJump,
            Action::FaceBack => ActionGroup::FaceJump,
            Action::FaceLeftJump => ActionGroup::FaceJump,
            Action::FaceRightJump => ActionGroup::FaceJump,
            Action::FaceTop => ActionGroup::FaceJump,
            Action::FaceBottom => ActionGroup::FaceJump,
            Action::Number(_) => ActionGroup::Gameplay,
            Action::Erase => ActionGroup::Gameplay,
            Action::Hint => ActionGroup::Gameplay,
            Action::Undo => ActionGroup::Gameplay,
            Action::ToggleGuidance => ActionGroup::Gameplay,
            Action::ToggleMode => ActionGroup::Gameplay,
            Action::NewGame => ActionGroup::Gameplay,
            Action::BtnPagePrev => ActionGroup::ButtonBar,
            Action::BtnPageNext => ActionGroup::ButtonBar,
            Action::ShopFocus => ActionGroup::Shop,
            Action::ShopUp => ActionGroup::Shop,
            Action::ShopDown => ActionGroup::Shop,
            Action::ShopBuy => ActionGroup::Shop,
            Action::SnakeUp => ActionGroup::Snake,
            Action::SnakeDown => ActionGroup::Snake,
            Action::SnakeLeft => ActionGroup::Snake,
            Action::SnakeRight => ActionGroup::Snake,
            Action::SnakeQuit => ActionGroup::Snake,
            Action::SettingsUp => ActionGroup::Settings,
            Action::SettingsDown => ActionGroup::Settings,
            Action::SettingsLeft => ActionGroup::Settings,
            Action::SettingsRight => ActionGroup::Settings,
            Action::ToolCube => ActionGroup::Tools,
            Action::ToolSnake3 => ActionGroup::Tools,
            Action::ToolFace => ActionGroup::Tools,
            Action::ToolSnake5 => ActionGroup::Tools,
            Action::ToolTarget => ActionGroup::Tools,
            Action::DebugHintFace => ActionGroup::Debug,
            Action::DebugWin => ActionGroup::Debug,
            Action::DebugGoldUp => ActionGroup::Debug,
            Action::DebugGoldDown => ActionGroup::Debug,
            Action::ExportUp => ActionGroup::Export,
            Action::ExportDown => ActionGroup::Export,
            Action::ImportChar => ActionGroup::Import,
            Action::ImportBackspace => ActionGroup::Import,
        }
    }
}

/// A combination of modifier keys.
#[derive(Debug, Clone, Copy, PartialEq, Eq, Hash, Structural)]
pub struct ModKey {
    pub shift: bool,
    pub alt: bool,
    pub ctrl: bool,
}

/// A key that can be bound.
#[derive(Debug, Clone, Copy, PartialEq, Eq, Hash, Structural)]
pub enum Key {
    Char(char),
    F(u8),
    Enter,
    Esc,
    Backspace,
    Delete,
    Up,
    Down,
    Left,
    Right,
    Home,
    End,
    PageUp,
    PageDown,
    Tab,
    Space,
}

/// A key as the terminal reports it: the keys a binding can name, and `Other` for any
/// other key (insert, caps lock, media keys and the like).
#[derive(Debug, Clone, Copy, PartialEq, Eq, Hash, Structural)]
pub enum InputKey {
    Char(char),
    F(u8),
    Enter,
    Esc,
    Backspace,
    Delete,
    Up,
    Down,
    Left,
    Right,
    Home,
    End,
    PageUp,
    PageDown,
    Tab,
    Other,
}

/// The bindable key for a reported key; keys that cannot be named become `Space`.
pub open spec fn key_of_input(k: InputKey) -> Key {
    match k {
        InputKey::Char(c) => Key::Char(c),
        InputKey::F(n) => Key::F(n),
        InputKey::Enter => Key::Enter,
        InputKey::Esc => Key::Esc,
        InputKey::Backspace => Key::Backspace,
        InputKey::Delete => Key::Delete,
        InputKey::Up => Key::Up,
        InputKey::Down => Key::Down,
        InputKey::Left => Key::Left,
        InputKey::Right => Key::Right,
        InputKey::Home => Key::Home,
        InputKey::End => Key::End,
        InputKey::PageUp => Key::PageUp,
        InputKey::PageDown => Key::PageDown,
        InputKey::Tab => Key::Tab,
        InputKey::Other => Key::Space,
    }
}

impl Key {
    /// The bindable key for a reported key (used when the user presses a key to rebind).
    pub fn from_input(k: InputKey) -> (r: Key)
        ensures
            r == key_of_input(k),
    {
        match k {
            InputKey::Char(c) => Key::Char(c),
            InputKey::F(n) => Key::F(n),
            InputKey::Enter => Key::Enter,
            InputKey::Esc => Key::Esc,
            InputKey::Backspace => Key::Backspace,
            InputKey::Delete => Key::Delete,
            InputKey::Up => Key::Up,
            InputKey::Down => Key::Down,
            InputKey::Left => Key::Left,
            InputKey::Right => Key::Right,
            InputKey::Home => Key::Home,
            InputKey::End => Key::End,
            InputKey::PageUp => Key::PageUp,
            InputKey::PageDown => Key::PageDown,
            InputKey::Tab => Key::Tab,
            InputKey::Other => Key::Space,
        }
    }
}

/// The code of `c` with ASCII capitals lowered.
pub open spec fn ascii_lower_code(c: char) -> u32 {
    if 65 <= (c as u32) <= 90 {
        ((c as u32) + 32) as u32
    } else {
        c as u32
    }
}

/// `c` with ASCII small letters raised to capitals.
pub open spec fn ascii_upper(c: char) -> char {
    if 97 <= (c as u32) <= 122 {
        (((c as u32) - 32) as u8) as char
    } else {
        c
    }
}

/// Whether a bound key is the reported key: letters compare without regard to ASCII case,
/// and `Space` is the space character.
pub open spec fn key_matches(k: Key, code: InputKey) -> bool {
    match (k, code) {
        (Key::Char(a), InputKey::Char(b)) => ascii_lower_code(a) == ascii_lower_code(b),
        (Key::F(a), InputKey::F(b)) => a == b,
        (Key::Enter, InputKey::Enter) => true,
        (Key::Esc, InputKey::Esc) => true,
        (Key::Backspace, InputKey::Backspace) => true,
        (Key::Delete, InputKey::Delete) => true,
        (Key::Up, InputKey::Up) => true,
        (Key::Down, InputKey::Down) => true,
        (Key::Left, InputKey::Left) => true,
        (Key::Right, InputKey::Right) => true,
        (Key::Home, InputKey::Home) => true,
        (Key::End, InputKey::End) => true,
        (Key::PageUp, InputKey::PageUp) => true,
        (Key::PageDown, InputKey::PageDown) => true,
        (Key::Tab, InputKey::Tab) => true,
        (Key::Space, InputKey::Char(b)) => b == ' ',
        _ => false,
    }
}

/// Whether a binding fires on a key press: the key matches, and Alt or Ctrl is held on
/// both or on neither (Shift is ignored, as letters ignore case).
pub open spec fn binding_matches(b: KeyBinding, code: InputKey, mods: ModKey) -> bool {
    key_matches(b.key, code) && ((b.mods.alt || b.mods.ctrl) == (mods.alt || mods.ctrl))
}

/// The label of a key.
pub open spec fn key_label(k: Key) -> Seq<char> {
    match k {
        Key::Char(c) => seq![ascii_upper(c)],
        Key::F(n) => "F"@ + decimal(n as nat),
        Key::Enter => "Enter"@,
        Key::Esc => "Esc"@,
        Key::Backspace => "Bksp"@,
        Key::Delete => "Del"@,
        Key::Up => "↑"@,
        Key::Down => "↓"@,
        Key::Left => "←"@,
        Key::Right => "→"@,
        Key::Home => "Home"@,
        Key::End => "End"@,
        Key::PageUp => "PgUp"@,
        Key::PageDown => "PgDn"@,
        Key::Tab => "Tab"@,
        Key::Space => "Space"@,
    }
}

/// The label of a binding: the held modifiers in the order Ctrl, Alt, Shift, then the key,
/// joined by `+`.
pub open spec fn binding_label(b: KeyBinding) -> Seq<char> {
    (if b.mods.ctrl {
        "Ctrl+"@
    } else {
        Seq::empty()
    }) + (if b.mods.alt {
        "Alt+"@
    } else {
        Seq::empty()
    }) + (if b.mods.shift {
        "Shift+"@
    } else {
        Seq::empty()
    }) + key_label(b.key)
}

fn lower_code(c: char) -> (r: u32)
    ensures
        r == ascii_lower_code(c),
{
    let code = c as u32;
    if 65 <= code && code <= 90 {
        code + 32
    } else {
        code
    }
}

fn upper_char(c: char) -> (r: char)
    ensures
        r == ascii_upper(c),
{
    let code = c as u32;
    if 97 <= code && code <= 122 {
        let b: u8 = (code - 32) as u8;
        b as char
    } else {
        c
    }
}

/// One key binding: an action, its key and the modifiers held with it.
#[derive(Debug, Clone, Copy, PartialEq, Eq, Hash, Structural)]
pub struct KeyBinding {
    pub action: Action,
    pub key: Key,
    pub mods: ModKey,
}

/// No modifier held.
pub open spec fn no_mods() -> ModKey {
    ModKey { shift: false, alt: false, ctrl: false }
}

impl KeyBinding {
    /// A binding of `key` without modifiers.
    pub fn new(action: Action, key: Key) -> (r: KeyBinding)
        ensures
            r == (KeyBinding { action, key, mods: no_mods() }),
    {
        KeyBinding { action, key, mods: ModKey { shift: false, alt: false, ctrl: false } }
    }

    /// A binding of `key` with the given modifiers.
    pub fn with_mods(action: Action, key: Key, mods: ModKey) -> (r: KeyBinding)
        ensures
            r == (KeyBinding { action, key, mods }),
    {
        KeyBinding { action, key, mods }
    }

    /// Whether this binding fires on the key press `key_code` with modifiers `key_mods`.
    pub fn matches(&self, key_code: InputKey, key_mods: ModKey) -> (r: bool)
        ensures
            r == binding_matches(*self, key_code, key_mods),
    {
        let key_ok = match (self.key, key_code) {
            (Key::Char(a), InputKey::Char(b)) => lower_code(a) == lower_code(b),
            (Key::F(a), InputKey::F(b)) => a == b,
            (Key::Enter, InputKey::Enter) => true,
            (Key::Esc, InputKey::Esc) => true,
            (Key::Backspace, InputKey::Backspace) => true,
            (Key::Delete, InputKey::Delete) => true,
            (Key::Up, InputKey::Up) => true,
            (Key::Down, InputKey::Down) => true,
            (Key::Left, InputKey::Left) => true,
            (Key::Right, InputKey::Right) => true,
            (Key::Home, InputKey::Home) => true,
            (Key::End, InputKey::End) => true,
            (Key::PageUp, InputKey::PageUp) => true,
            (Key::PageDown, InputKey::PageDown) => true,
            (Key::Tab, InputKey::Tab) => true,
            (Key::Space, InputKey::Char(b)) => b == ' ',
            _ => false,
        };
        if !key_ok {
            return false;
        }
        (self.mods.alt || self.mods.ctrl) == (key_mods.alt || key_mods.ctrl)
    }

    /// The label shown for this binding, such as `Alt+H` or `F5`.
    pub fn display_label(&self) -> (r: String)
        ensures
            r@ == binding_label(*self),
    {
        let mut s = String::new();
        if self.mods.ctrl {
            s.append("Ctrl+");
        }
        if self.mods.alt {
            s.append("Alt+");
        }
        if self.mods.shift {
            s.append("Shift+");
        }
        let ghost prefix = s@;
        match self.key {
            Key::Char(c) => push_char(&mut s, upper_char(c)),
            Key::F(n) => {
                s.append("F");
                push_decimal(&mut s, n as usize);
            },
            Key::Enter => s.append("Enter"),
            Key::Esc => s.append("Esc"),
            Key::Backspace => s.append("Bksp"),
            Key::Delete => s.append("Del"),
            Key::Up => s.append("↑"),
            Key::Down => s.append("↓"),
            Key::Left => s.append("←"),
            Key::Right => s.append("→"),
            Key::Home => s.append("Home"),
            Key::End => s.append("End"),
            Key::PageUp => s.append("PgUp"),
            Key::PageDown => s.append("PgDn"),
            Key::Tab => s.append("Tab"),
            Key::Space => s.append("Space"),
        }
        proof {
            assert(s@ =~= prefix + key_label(self.key));
            assert(binding_label(*self) =~= prefix + key_label(self.key));
        }
        s
    }
}

/// A binding without modifiers.
pub open spec fn plain_binding(action: Action, key: Key) -> KeyBinding {
    KeyBinding { action, key, mods: no_mods() }
}

/// A binding with Alt held.
pub open spec fn alt_binding(action: Action, key: Key) -> KeyBinding {
    KeyBinding { action, key, mods: ModKey { shift: false, alt: true, ctrl: false } }
}

fn plain(action: Action, key: Key) -> (r: KeyBinding)
    ensures
        r == plain_binding(action, key),
{
    KeyBinding::new(action, key)
}

fn with_alt(action: Action, key: Key) -> (r: KeyBinding)
    ensures
        r == alt_binding(action, key),
{
    KeyBinding::with_mods(action, key, ModKey { shift: false, alt: true, ctrl: false })
}

/// The default bindings on every screen.
pub open spec fn default_global() -> Seq<KeyBinding> {
    seq![
        plain_binding(Action::Cancel, Key::Esc),
    ]
}

fn global_defaults() -> (r: Vec<KeyBinding>)
    ensures
        r@ == default_global(),
{
    let mut v: Vec<KeyBinding> = Vec::new();
    v.push(plain(Action::Cancel, Key::Esc));
    proof {
        assert(v@ =~= default_global());
    }
    v
}

/// The default bindings of the main menu.
pub open spec fn default_menu() -> Seq<KeyBinding> {
    seq![
        plain_binding(Action::MenuUp, Key::Up),
        plain_binding(Action::MenuUp, Key::Char('w')),
        plain_binding(Action::MenuDown, Key::Down),
        plain_binding(Action::MenuDown, Key::Char('s')),
        plain_binding(Action::MenuSelect, Key::Enter),
        plain_binding(Action::MenuDelete, Key::Char('d')),
        plain_binding(Action::MenuForceDelete, Key::Char('d')),
        plain_binding(Action::MenuExport, Key::Char('e')),
        plain_binding(Action::MenuImport, Key::Char('i')),
        plain_binding(Action::Quit, Key::Char('q')),
    ]
}

fn menu_defaults() -> (r: Vec<KeyBinding>)
    ensures
        r@ == default_menu(),
{
    let mut v: Vec<KeyBinding> = Vec::new();
    v.push(plain(Action::MenuUp, Key::Up));
    v.push(plain(Action::MenuUp, Key::Char('w')));
    v.push(plain(Action::MenuDown, Key::Down));
    v.push(plain(Action::MenuDown, Key::Char('s')));
    v.push(plain(Action::MenuSelect, Key::Enter));
    v.push(plain(Action::MenuDelete, Key::Char('d')));
    v.push(plain(Action::MenuForceDelete, Key::Char('d')));
    v.push(plain(Action::MenuExport, Key::Char('e')));
    v.push(plain(Action::MenuImport, Key::Char('i')));
    v.push(plain(Action::Quit, Key::Char('q')));
    proof {
        assert(v@ =~= default_menu());
    }
    v
}

/// The default bindings of the game screen.
pub open spec fn default_game() -> Seq<KeyBinding> {
    seq![
        plain_binding(Action::CursorUp, Key::Char('w')),
        plain_binding(Action::CursorDown, Key::Char('s')),
        plain_binding(Action::CursorLeft, Key::Char('a')),
        plain_binding(Action::CursorRight, Key::Char('d')),
        plain_binding(Action::FaceUp, Key::Up),
        plain_binding(Action::FaceDown, Key::Down),
        plain_binding(Action::FaceLeft, Key::Left),
        plain_binding(Action::FaceRight, Key::Right),
        plain_binding(Action::FaceFront, Key::Char('f')),
        plain_binding(Action::FaceBack, Key::Char('b')),
        plain_binding(Action::FaceLeftJump, Key::Char('l')),
        plain_binding(Action::FaceRightJump, Key::Char('r')),
        plain_binding(Action::FaceTop, Key::Char('t')),
        plain_binding(Action::FaceBottom, Key::Char('u')),
        plain_binding(Action::Erase, Key::Char('x')),
        plain_binding(Action::Erase, Key::Char('e')),
        plain_binding(Action::Hint, Key::Char('h')),
        plain_binding(Action::Undo, Key::Char('z')),
        plain_binding(Action::ToggleGuidance, Key::Char('g')),
        plain_binding(Action::ToggleMode, Key::Char('m')),
        plain_binding(Action::NewGame, Key::Char('n')),
        plain_binding(Action::Quit, Key::Char('q')),
        plain_binding(Action::Erase, Key::Backspace),
        plain_binding(Action::Erase, Key::Delete),
        plain_binding(Action::Number(1), Key::Char('1')),
        plain_binding(Action::Number(2), Key::Char('2')),
        plain_binding(Action::Number(3), Key::Char('3')),
        plain_binding(Action::Number(4), Key::Char('4')),
        plain_binding(Action::Number(5), Key::Char('5')),
        plain_binding(Action::Number(6), Key::Char('6')),
        plain_binding(Action::Number(7), Key::Char('7')),
        plain_binding(Action::Number(8), Key::Char('8')),
        plain_binding(Action::Number(9), Key::Char('9')),
        plain_binding(Action::BtnPagePrev, Key::Char('[')),
        plain_binding(Action::BtnPageNext, Key::Char(']')),
        plain_binding(Action::ShopFocus, Key::Tab),
        plain_binding(Action::ShopUp, Key::PageUp),
        plain_binding(Action::ShopDown, Key::PageDown),
        plain_binding(Action::ShopBuy, Key::Enter),
        plain_binding(Action::ShopBuy, Key::Char('b')),
        alt_binding(Action::DebugHintFace, Key::Char('h')),
        alt_binding(Action::DebugWin, Key::Char('w')),
        alt_binding(Action::DebugGoldUp, Key::Char('=')),
        alt_binding(Action::DebugGoldUp, Key::Char('+')),
        alt_binding(Action::DebugGoldDown, Key::Char('-')),
        alt_binding(Action::DebugGoldDown, Key::Char('_')),
    ]
}

fn game_defaults() -> (r: Vec<KeyBinding>)
    ensures
        r@ == default_game(),
{
    let mut v: Vec<KeyBinding> = Vec::new();
    v.push(plain(Action::CursorUp, Key::Char('w')));
    v.push(plain(Action::CursorDown, Key::Char('s')));
    v.push(plain(Action::CursorLeft, Key::Char('a')));
    v.push(plain(Action::CursorRight, Key::Char('d')));
    v.push(plain(Action::FaceUp, Key::Up));
    v.push(plain(Action::FaceDown, Key::Down));
    v.push(plain(Action::FaceLeft, Key::Left));
    v.push(plain(Action::FaceRight, Key::Right));
    v.push(plain(Action::FaceFront, Key::Char('f')));
    v.push(plain(Action::FaceBack, Key::Char('b')));
    v.push(plain(Action::FaceLeftJump, Key::Char('l')));
    v.push(plain(Action::FaceRightJump, Key::Char('r')));
    v.push(plain(Action::FaceTop, Key::Char('t')));
    v.push(plain(Action::FaceBottom, Key::Char('u')));
    v.push(plain(Action::Erase, Key::Char('x')));
    v.push(plain(Action::Erase, Key::Char('e')));
    v.push(plain(Action::Hint, Key::Char('h')));
    v.push(plain(Action::Undo, Key::Char('z')));
    v.push(plain(Action::ToggleGuidance, Key::Char('g')));
    v.push(plain(Action::ToggleMode, Key::Char('m')));
    v.push(plain(Action::NewGame, Key::Char('n')));
    v.push(plain(Action::Quit, Key::Char('q')));
    v.push(plain(Action::Erase, Key::Backspace));
    v.push(plain(Action::Erase, Key::Delete));
    v.push(plain(Action::Number(1), Key::Char('1')));
    v.push(plain(Action::Number(2), Key::Char('2')));
    v.push(plain(Action::Number(3), Key::Char('3')));
    v.push(plain(Action::Number(4), Key::Char('4')));
    v.push(plain(Action::Number(5), Key::Char('5')));
    v.push(plain(Action::Number(6), Key::Char('6')));
    v.push(plain(Action::Number(7), Key::Char('7')));
    v.push(plain(Action::Number(8), Key::Char('8')));
    v.push(plain(Action::Number(9), Key::Char('9')));
    v.push(plain(Action::BtnPagePrev, Key::Char('[')));
    v.push(plain(Action::BtnPageNext, Key::Char(']')));
    v.push(plain(Action::ShopFocus, Key::Tab));
    v.push(plain(Action::ShopUp, Key::PageUp));
    v.push(plain(Action::ShopDown, Key::PageDown));
    v.push(plain(Action::ShopBuy, Key::Enter));
    v.push(plain(Action::ShopBuy, Key::Char('b')));
    v.push(with_alt(Action::DebugHintFace, Key::Char('h')));
    v.push(with_alt(Action::DebugWin, Key::Char('w')));
    v.push(with_alt(Action::DebugGoldUp, Key::Char('=')));
    v.push(with_alt(Action::DebugGoldUp, Key::Char('+')));
    v.push(with_alt(Action::DebugGoldDown, Key::Char('-')));
    v.push(with_alt(Action::DebugGoldDown, Key::Char('_')));
    proof {
        assert(v@ =~= default_game());
    }
    v
}

/// The default bindings of the settings popup.
pub open spec fn default_settings() -> Seq<KeyBinding> {
    seq![
        plain_binding(Action::SettingsUp, Key::Up),
        plain_binding(Action::SettingsDown, Key::Down),
        plain_binding(Action::SettingsLeft, Key::Left),
        plain_binding(Action::SettingsRight, Key::Right),
        plain_binding(Action::Confirm, Key::Enter),
    ]
}

fn settings_defaults() -> (r: Vec<KeyBinding>)
    ensures
        r@ == default_settings(),
{
    let mut v: Vec<KeyBinding> = Vec::new();
    v.push(plain(Action::SettingsUp, Key::Up));
    v.push(plain(Action::SettingsDown, Key::Down));
    v.push(plain(Action::SettingsLeft, Key::Left));
    v.push(plain(Action::SettingsRight, Key::Right));
    v.push(plain(Action::Confirm, Key::Enter));
    proof {
        assert(v@ =~= default_settings());
    }
    v
}

/// The default bindings of the snake game.
pub open spec fn default_snake() -> Seq<KeyBinding> {
    seq![
        plain_binding(Action::SnakeUp, Key::Up),
        plain_binding(Action::SnakeUp, Key::Char('w')),
        plain_binding(Action::SnakeDown, Key::Down),
        plain_binding(Action::SnakeDown, Key::Char('s')),
        plain_binding(Action::SnakeLeft, Key::Left),
        plain_binding(Action::SnakeLeft, Key::Char('a')),
        plain_binding(Action::SnakeRight, Key::Right),
        plain_binding(Action::SnakeRight, Key::Char('d')),
        plain_binding(Action::SnakeQuit, Key::Esc),
        plain_binding(Action::SnakeQuit, Key::Char('q')),
    ]
}

fn snake_defaults() -> (r: Vec<KeyBinding>)
    ensures
        r@ == default_snake(),
{
    let mut v: Vec<KeyBinding> = Vec::new();
    v.push(plain(Action::SnakeUp, Key::Up));
    v.push(plain(Action::SnakeUp, Key::Char('w')));
    v.push(plain(Action::SnakeDown, Key::Down));
    v.push(plain(Action::SnakeDown, Key::Char('s')));
    v.push(plain(Action::SnakeLeft, Key::Left));
    v.push(plain(Action::SnakeLeft, Key::Char('a')));
    v.push(plain(Action::SnakeRight, Key::Right));
    v.push(plain(Action::SnakeRight, Key::Char('d')));
    v.push(plain(Action::SnakeQuit, Key::Esc));
    v.push(plain(Action::SnakeQuit, Key::Char('q')));
    proof {
        assert(v@ =~= default_snake());
    }
    v
}

/// The default bindings of the import popup.
pub open spec fn default_import() -> Seq<KeyBinding> {
    seq![
        plain_binding(Action::Confirm, Key::Enter),
        plain_binding(Action::Cancel, Key::Esc),
        plain_binding(Action::ImportBackspace, Key::Backspace),
    ]
}

fn import_defaults() -> (r: Vec<KeyBinding>)
    ensures
        r@ == default_import(),
{
    let mut v: Vec<KeyBinding> = Vec::new();
    v.push(plain(Action::Confirm, Key::Enter));
    v.push(plain(Action::Cancel, Key::Esc));
    v.push(plain(Action::ImportBackspace, Key::Backspace));
    proof {
        assert(v@ =~= default_import());
    }
    v
}

/// The default bindings of the export popup.
pub open spec fn default_export() -> Seq<KeyBinding> {
    seq![
        plain_binding(Action::ExportUp, Key::Up),
        plain_binding(Action::ExportDown, Key::Down),
        plain_binding(Action::Confirm, Key::Enter),
    ]
}

fn export_defaults() -> (r: Vec<KeyBinding>)
    ensures
        r@ == default_export(),
{
    let mut v: Vec<KeyBinding> = Vec::new();
    v.push(plain(Action::ExportUp, Key::Up));
    v.push(plain(Action::ExportDown, Key::Down));
    v.push(plain(Action::Confirm, Key::Enter));
    proof {
        assert(v@ =~= default_export());
    }
    v
}

/// The default bindings of the key binding screen.
pub open spec fn default_keymap_config() -> Seq<KeyBinding> {
    seq![
        plain_binding(Action::SettingsUp, Key::Up),
        plain_binding(Action::SettingsDown, Key::Down),
        plain_binding(Action::SettingsLeft, Key::Left),
        plain_binding(Action::SettingsRight, Key::Right),
        plain_binding(Action::Confirm, Key::Enter),
        plain_binding(Action::Cancel, Key::Esc),
    ]
}

fn keymap_config_defaults() -> (r: Vec<KeyBinding>)
    ensures
        r@ == default_keymap_config(),
{
    let mut v: Vec<KeyBinding> = Vec::new();
    v.push(plain(Action::SettingsUp, Key::Up));
    v.push(plain(Action::SettingsDown, Key::Down));
    v.push(plain(Action::SettingsLeft, Key::Left));
    v.push(plain(Action::SettingsRight, Key::Right));
    v.push(plain(Action::Confirm, Key::Enter));
    v.push(plain(Action::Cancel, Key::Esc));
    proof {
        assert(v@ =~= default_keymap_config());
    }
    v
}

/// The full key map: one table of bindings per screen, plus the global table.
#[derive(Debug, Clone)]
pub struct Keymap {
    /// Bindings active on every screen.
    pub global: Vec<KeyBinding>,
    /// Main menu bindings.
    pub menu: Vec<KeyBinding>,
    /// Game screen bindings.
    pub game: Vec<KeyBinding>,
    /// Settings popup bindings.
    pub settings: Vec<KeyBinding>,
    /// Snake game bindings.
    pub snake: Vec<KeyBinding>,
    /// Import popup bindings.
    pub import: Vec<KeyBinding>,
    /// Export popup bindings.
    pub export: Vec<KeyBinding>,
    /// Key binding screen bindings.
    pub keymap_config: Vec<KeyBinding>,
}

/// The number of tables in a key map.
pub open spec fn table_count() -> int {
    8
}

/// The first binding in `s` from index `i` on that fires on the key press, as its action.
pub open spec fn first_match_from(s: Seq<KeyBinding>, code: InputKey, mods: ModKey, i: int) -> Option<Action>
    decreases s.len() - i,
{
    if i < 0 || i >= s.len() {
        None
    } else if binding_matches(s[i], code, mods) {
        Some(s[i].action)
    } else {
        first_match_from(s, code, mods, i + 1)
    }
}

/// The action of the first binding in `s` that fires on the key press.
pub open spec fn first_match(s: Seq<KeyBinding>, code: InputKey, mods: ModKey) -> Option<Action> {
    first_match_from(s, code, mods, 0)
}

/// `first`, or else `second`.
pub open spec fn or_else(first: Option<Action>, second: Option<Action>) -> Option<Action> {
    match first {
        Some(a) => Some(a),
        None => second,
    }
}

/// Whether some binding in `s` is for action `a`.
pub open spec fn has_action(s: Seq<KeyBinding>, a: Action) -> bool {
    exists|j: int| 0 <= j < s.len() && #[trigger] s[j].action == a
}

/// The index of the first binding for `a` in `s` from index `i` on, or -1.
pub open spec fn first_index_from(s: Seq<KeyBinding>, a: Action, i: int) -> int
    decreases s.len() - i,
{
    if i < 0 || i >= s.len() {
        -1
    } else if s[i].action == a {
        i
    } else {
        first_index_from(s, a, i + 1)
    }
}

/// The index of the first binding for `a` in `s`, or -1.
pub open spec fn first_index(s: Seq<KeyBinding>, a: Action) -> int {
    first_index_from(s, a, 0)
}

/// Whether some binding in `s` is for another action than `a` on the same key and modifiers.
pub open spec fn conflicts(s: Seq<KeyBinding>, a: Action, key: Key, mods: ModKey) -> bool {
    exists|j: int|
        0 <= j < s.len() && #[trigger] s[j].action != a && s[j].key == key && s[j].mods == mods
}

/// The bindings in `s` for action `a`, in order.
pub open spec fn bindings_with(s: Seq<KeyBinding>, a: Action) -> Seq<KeyBinding>
    decreases s.len(),
{
    if s.len() == 0 {
        Seq::empty()
    } else {
        let rest = bindings_with(s.drop_last(), a);
        if s.last().action == a {
            rest.push(s.last())
        } else {
            rest
        }
    }
}

/// The actions of the bindings in `s`, each once, in the order of their first binding.
pub open spec fn distinct_actions(s: Seq<KeyBinding>) -> Seq<Action>
    decreases s.len(),
{
    if s.len() == 0 {
        Seq::empty()
    } else {
        let rest = distinct_actions(s.drop_last());
        if rest.contains(s.last().action) {
            rest
        } else {
            rest.push(s.last().action)
        }
    }
}

/// The bindings that references point to.
pub open spec fn derefs(s: Seq<&KeyBinding>) -> Seq<KeyBinding> {
    Seq::new(s.len(), |i: int| *s[i])
}

/// Whether a key is kept for confirming and cancelling, and cannot be rebound.
pub open spec fn is_reserved(key: Key) -> bool {
    key == Key::Esc || key == Key::Enter
}

impl Keymap {
    /// Table `i` of the key map, in the order global, menu, game, settings, snake, import,
    /// export, key binding screen.
    pub open spec fn table(self, i: int) -> Seq<KeyBinding> {
        if i == 0 {
            self.global@
        } else if i == 1 {
            self.menu@
        } else if i == 2 {
            self.game@
        } else if i == 3 {
            self.settings@
        } else if i == 4 {
            self.snake@
        } else if i == 5 {
            self.import@
        } else if i == 6 {
            self.export@
        } else {
            self.keymap_config@
        }
    }

    /// All bindings, table after table.
    pub open spec fn all_bindings(self) -> Seq<KeyBinding> {
        self.global@ + self.menu@ + self.game@ + self.settings@ + self.snake@ + self.import@
            + self.export@ + self.keymap_config@
    }

    /// Whether this is the default key map.
    pub open spec fn is_default(self) -> bool {
        &&& self.global@ == default_global()
        &&& self.menu@ == default_menu()
        &&& self.game@ == default_game()
        &&& self.settings@ == default_settings()
        &&& self.snake@ == default_snake()
        &&& self.import@ == default_import()
        &&& self.export@ == default_export()
        &&& self.keymap_config@ == default_keymap_config()
    }

    /// The table of a screen's own bindings (none for the generating and victory screens).
    pub open spec fn screen_table(self, screen: AppScreen) -> Seq<KeyBinding> {
        match screen {
            AppScreen::Menu => self.menu@,
            AppScreen::Game => self.game@,
            AppScreen::Settings => self.settings@,
            AppScreen::Generating => Seq::empty(),
            AppScreen::Victory => Seq::empty(),
            AppScreen::ExportSelect => self.export@,
            AppScreen::ImportInput => self.import@,
            AppScreen::KeymapConfig => self.keymap_config@,
        }
    }

    /// The action of a key press: in the snake game the snake table, then the game table
    /// when on the game screen; otherwise the global table, then the screen's own table.
    pub open spec fn resolved(
        self,
        screen: AppScreen,
        snake_active: bool,
        code: InputKey,
        mods: ModKey,
    ) -> Option<Action> {
        if snake_active {
            or_else(
                first_match(self.snake@, code, mods),
                if screen == AppScreen::Game {
                    first_match(self.game@, code, mods)
                } else {
                    None
                },
            )
        } else {
            or_else(first_match(self.global@, code, mods), first_match(self.screen_table(screen), code, mods))
        }
    }

    /// The first table that binds `a`, or 8 when none does.
    pub open spec fn holder(self, a: Action) -> int {
        if has_action(self.global@, a) {
            0
        } else if has_action(self.menu@, a) {
            1
        } else if has_action(self.game@, a) {
            2
        } else if has_action(self.settings@, a) {
            3
        } else if has_action(self.snake@, a) {
            4
        } else if has_action(self.import@, a) {
            5
        } else if has_action(self.export@, a) {
            6
        } else if has_action(self.keymap_config@, a) {
            7
        } else {
            8
        }
    }

    /// The scene of an action: the first table that binds it, the game table when none does.
    pub open spec fn scene_of(self, a: Action) -> int {
        if self.holder(a) < 8 {
            self.holder(a)
        } else {
            2
        }
    }

    /// Table `i` after binding `nb`: the first binding of its action in the first table that
    /// has one is replaced by `nb`; when no table has one, `nb` is added to the game table.
    pub open spec fn rebound_table(self, i: int, nb: KeyBinding) -> Seq<KeyBinding> {
        let h = self.holder(nb.action);
        if h < 8 {
            if i == h {
                self.table(i).update(first_index(self.table(i), nb.action), nb)
            } else {
                self.table(i)
            }
        } else if i == 2 {
            self.table(i).push(nb)
        } else {
            self.table(i)
        }
    }
}

/// `first_index_from` finds the first binding of the action at or after `i`.
proof fn lemma_first_index_from(s: Seq<KeyBinding>, a: Action, i: int)
    requires
        0 <= i,
    ensures
        first_index_from(s, a, i) >= 0 <==> exists|j: int| i <= j < s.len() && #[trigger] s[j].action == a,
        first_index_from(s, a, i) >= 0 ==> {
            let r = first_index_from(s, a, i);
            &&& i <= r < s.len()
            &&& s[r].action == a
            &&& forall|j: int| i <= j < r ==> #[trigger] s[j].action != a
        },
    decreases s.len() - i,
{
    if i < s.len() && s[i].action != a {
        lemma_first_index_from(s, a, i + 1);
        assert forall|j: int| i <= j < s.len() && #[trigger] s[j].action == a implies first_index_from(s, a, i) >= 0 by {
            assert(j != i);
        }
    }
}

/// The first binding of `a` in `s` is found exactly when `s` has one.
proof fn lemma_first_index(s: Seq<KeyBinding>, a: Action)
    ensures
        first_index(s, a) >= 0 <==> has_action(s, a),
        has_action(s, a) ==> 0 <= first_index(s, a) < s.len() && s[first_index(s, a)].action == a,
{
    lemma_first_index_from(s, a, 0);
    if has_action(s, a) {
        let j = choose|j: int| 0 <= j < s.len() && #[trigger] s[j].action == a;
        assert(0 <= j < s.len() && s[j].action == a);
    }
}

fn find_first(v: &Vec<KeyBinding>, code: InputKey, mods: ModKey) -> (r: Option<Action>)
    ensures
        r == first_match(v@, code, mods),
{
    let mut i: usize = 0;
    while i < v.len()
        invariant
            i <= v@.len(),
            first_match(v@, code, mods) == first_match_from(v@, code, mods, i as int),
        decreases v@.len() - i,
    {
        if v[i].matches(code, mods) {
            return Some(v[i].action);
        }
        i = i + 1;
    }
    None
}

fn position(v: &Vec<KeyBinding>, a: Action) -> (r: Option<usize>)
    ensures
        r is None <==> first_index(v@, a) < 0,
        r matches Some(p) ==> p as int == first_index(v@, a),
{
    let mut i: usize = 0;
    while i < v.len()
        invariant
            i <= v@.len(),
            first_index(v@, a) == first_index_from(v@, a, i as int),
        decreases v@.len() - i,
    {
        if v[i].action == a {
            return Some(i);
        }
        i = i + 1;
    }
    None
}

/// Appends the bindings of `v` for `action` to `out`.
fn collect_with<'a>(
    v: &'a Vec<KeyBinding>,
    action: Action,
    out: &mut Vec<&'a KeyBinding>,
    Ghost(before): Ghost<Seq<KeyBinding>>,
)
    requires
        derefs(old(out)@) == bindings_with(before, action),
    ensures
        derefs(final(out)@) == bindings_with(before + v@, action),
{
    let mut i: usize = 0;
    while i < v.len()
        invariant
            i <= v@.len(),
            derefs(out@) == bindings_with(before + v@.take(i as int), action),
        decreases v@.len() - i,
    {
        let ghost prev = out@;
        if v[i].action == action {
            out.push(&v[i]);
        }
        proof {
            let s = before + v@.take(i + 1);
            assert(s.drop_last() =~= before + v@.take(i as int));
            assert(s.last() == v@[i as int]);
            assert(derefs(out@) =~= bindings_with(s, action));
        }
        i = i + 1;
    }
    proof {
        assert(v@.take(v@.len() as int) =~= v@);
    }
}

/// Appends to `out` the actions of `v` that it does not hold yet.
fn collect_new_actions(v: &Vec<KeyBinding>, out: &mut Vec<Action>, Ghost(before): Ghost<Seq<KeyBinding>>)
    requires
        old(out)@ == distinct_actions(before),
    ensures
        final(out)@ == distinct_actions(before + v@),
{
    let mut i: usize = 0;
    while i < v.len()
        invariant
            i <= v@.len(),
            out@ == distinct_actions(before + v@.take(i as int)),
        decreases v@.len() - i,
    {
        let a = v[i].action;
        let mut seen = false;
        let mut j: usize = 0;
        while j < out.len()
            invariant
                j <= out@.len(),
                seen == (exists|k: int| 0 <= k < j && out@[k] == a),
            decreases out@.len() - j,
        {
            if out[j] == a {
                seen = true;
            }
            j = j + 1;
        }
        proof {
            let s = before + v@.take(i + 1);
            assert(s.drop_last() =~= before + v@.take(i as int));
            assert(s.last() == v@[i as int]);
            if seen {
                let k = choose|k: int| 0 <= k < j && out@[k] == a;
                assert(out@.contains(a));
            } else {
                assert(!out@.contains(a));
            }
        }
        if !seen {
            out.push(a);
        }
        i = i + 1;
    }
    proof {
        assert(v@.take(v@.len() as int) =~= v@);
    }
}

impl Default for Keymap {
    fn default() -> (r: Keymap)
        ensures
            r.is_default(),
    {
        Keymap {
            global: global_defaults(),
            menu: menu_defaults(),
            game: game_defaults(),
            settings: settings_defaults(),
            snake: snake_defaults(),
            import: import_defaults(),
            export: export_defaults(),
            keymap_config: keymap_config_defaults(),
        }
    }
}

/// `k1` is key map `k0` after binding `action` to `key` with `mods`: unchanged when the key
/// is reserved or taken by another action of its scene, else with the binding put in.
pub open spec fn rebound(k0: Keymap, k1: Keymap, action: Action, key: Key, mods: ModKey) -> bool {
    if is_reserved(key) || conflicts(k0.table(k0.scene_of(action)), action, key, mods) {
        k1 == k0
    } else {
        forall|i: int| 0 <= i < 8 ==> #[trigger] k1.table(i) == k0.rebound_table(i, KeyBinding { action, key, mods })
    }
}

impl Keymap {
    /// The action bound to a key press on `screen` (see `resolved`).
    pub fn resolve(&self, screen: AppScreen, snake_active: bool, key_code: InputKey, key_mods: ModKey) -> (r: Option<Action>)
        ensures
            r == self.resolved(screen, snake_active, key_code, key_mods),
    {
        if snake_active {
            let first = find_first(&self.snake, key_code, key_mods);
            if first.is_some() {
                return first;
            }
            return match screen {
                AppScreen::Game => find_first(&self.game, key_code, key_mods),
                _ => None,
            };
        }
        let first = find_first(&self.global, key_code, key_mods);
        if first.is_some() {
            return first;
        }
        match screen {
            AppScreen::Menu => find_first(&self.menu, key_code, key_mods),
            AppScreen::Game => find_first(&self.game, key_code, key_mods),
            AppScreen::Settings => find_first(&self.settings, key_code, key_mods),
            AppScreen::Generating => None,
            AppScreen::Victory => None,
            AppScreen::ExportSelect => find_first(&self.export, key_code, key_mods),
            AppScreen::ImportInput => find_first(&self.import, key_code, key_mods),
            AppScreen::KeymapConfig => find_first(&self.keymap_config, key_code, key_mods),
        }
    }

    /// The bindings of `action` in all tables, table after table.
    pub fn find_binding(&self, action: Action) -> (r: Vec<&KeyBinding>)
        ensures
            derefs(r@) == bindings_with(self.all_bindings(), action),
    {
        let mut results: Vec<&KeyBinding> = Vec::new();
        proof {
            assert(derefs(results@) =~= bindings_with(Seq::empty(), action));
        }
        collect_with(&self.global, action, &mut results, Ghost(Seq::empty()));
        let ghost s0 = Seq::<KeyBinding>::empty() + self.global@;
        collect_with(&self.menu, action, &mut results, Ghost(s0));
        let ghost s1 = s0 + self.menu@;
        collect_with(&self.game, action, &mut results, Ghost(s1));
        let ghost s2 = s1 + self.game@;
        collect_with(&self.settings, action, &mut results, Ghost(s2));
        let ghost s3 = s2 + self.settings@;
        collect_with(&self.snake, action, &mut results, Ghost(s3));
        let ghost s4 = s3 + self.snake@;
        collect_with(&self.import, action, &mut results, Ghost(s4));
        let ghost s5 = s4 + self.import@;
        collect_with(&self.export, action, &mut results, Ghost(s5));
        let ghost s6 = s5 + self.export@;
        collect_with(&self.keymap_config, action, &mut results, Ghost(s6));
        proof {
            assert(s6 + self.keymap_config@ =~= self.all_bindings());
        }
        results
    }

    /// The table that holds the first binding of `action` and its place there, if any.
    fn locate(&self, action: Action) -> (r: Option<(usize, usize)>)
        ensures
            self.holder(action) < 8 <==> r is Some,
            r matches Some((t, p)) ==> t == self.holder(action) && p == first_index(self.table(t as int), action),
    {
        proof {
            lemma_first_index(self.global@, action);
            lemma_first_index(self.menu@, action);
            lemma_first_index(self.game@, action);
            lemma_first_index(self.settings@, action);
            lemma_first_index(self.snake@, action);
            lemma_first_index(self.import@, action);
            lemma_first_index(self.export@, action);
            lemma_first_index(self.keymap_config@, action);
        }
        if let Some(p) = position(&self.global, action) {
            return Some((0, p));
        }
        if let Some(p) = position(&self.menu, action) {
            return Some((1, p));
        }
        if let Some(p) = position(&self.game, action) {
            return Some((2, p));
        }
        if let Some(p) = position(&self.settings, action) {
            return Some((3, p));
        }
        if let Some(p) = position(&self.snake, action) {
            return Some((4, p));
        }
        if let Some(p) = position(&self.import, action) {
            return Some((5, p));
        }
        if let Some(p) = position(&self.export, action) {
            return Some((6, p));
        }
        if let Some(p) = position(&self.keymap_config, action) {
            return Some((7, p));
        }
        None
    }

    /// The scene of an action: the first table that binds it, the game table when none does.
    fn action_scene(&self, action: &Action) -> (r: usize)
        ensures
            r == self.scene_of(*action),
    {
        match self.locate(*action) {
            Some((t, _)) => t,
            None => 2,
        }
    }

    /// The bindings of a scene's table.
    fn get_scene_bindings(&self, scene: usize) -> (r: &Vec<KeyBinding>)
        requires
            scene < 8,
        ensures
            r@ == self.table(scene as int),
    {
        match scene {
            0 => &self.global,
            1 => &self.menu,
            2 => &self.game,
            3 => &self.settings,
            4 => &self.snake,
            5 => &self.import,
            6 => &self.export,
            _ => &self.keymap_config,
        }
    }

    /// Replaces binding `pos` of table `t`.
    fn replace_at(&mut self, t: usize, pos: usize, nb: KeyBinding)
        requires
            t < 8,
            pos < old(self).table(t as int).len(),
        ensures
            forall|i: int|
                0 <= i < 8 ==> #[trigger] final(self).table(i) == (if i == t {
                    old(self).table(i).update(pos as int, nb)
                } else {
                    old(self).table(i)
                }),
    {
        match t {
            0 => self.global.set(pos, nb),
            1 => self.menu.set(pos, nb),
            2 => self.game.set(pos, nb),
            3 => self.settings.set(pos, nb),
            4 => self.snake.set(pos, nb),
            5 => self.import.set(pos, nb),
            6 => self.export.set(pos, nb),
            _ => self.keymap_config.set(pos, nb),
        }
    }

    /// Binds `action` to `new_key` with `new_mods`: refused as "reserved" for Esc and Enter,
    /// refused as "conflict" when another action of its scene has that key and modifiers;
    /// otherwise the first binding of the action is replaced, or the binding is added to the
    /// game table when the action has none.
    pub fn rebind(&mut self, action: Action, new_key: Key, new_mods: ModKey) -> (r: Result<(), &'static str>)
        ensures
            is_reserved(new_key) ==> (r matches Err(e) && e@ == "reserved"@ && *final(self) == *old(self)),
            !is_reserved(new_key) && conflicts(
                old(self).table(old(self).scene_of(action)),
                action,
                new_key,
                new_mods,
            ) ==> (r matches Err(e) && e@ == "conflict"@ && *final(self) == *old(self)),
            !is_reserved(new_key) && !conflicts(
                old(self).table(old(self).scene_of(action)),
                action,
                new_key,
                new_mods,
            ) ==> {
                &&& r is Ok
                &&& forall|i: int|
                    0 <= i < 8 ==> #[trigger] final(self).table(i) == old(self).rebound_table(
                        i,
                        KeyBinding { action, key: new_key, mods: new_mods },
                    )
            },
            rebound(*old(self), *final(self), action, new_key, new_mods),
    {
        let reserved = match new_key {
            Key::Esc => true,
            Key::Enter => true,
            _ => false,
        };
        if reserved {
            return Err("reserved");
        }
        let scene = self.action_scene(&action);
        let new_binding = KeyBinding::with_mods(action, new_key, new_mods);
        let scene_bindings = self.get_scene_bindings(scene);
        let mut j: usize = 0;
        while j < scene_bindings.len()
            invariant
                j <= scene_bindings@.len(),
                !is_reserved(new_key),
                *self == *old(self),
                scene_bindings@ == self.table(self.scene_of(action)),
                forall|k: int|
                    0 <= k < j ==> !(#[trigger] scene_bindings@[k].action != action && scene_bindings@[k].key == new_key
                        && scene_bindings@[k].mods == new_mods),
            decreases scene_bindings@.len() - j,
        {
            let b = scene_bindings[j];
            if b.action != action && b.key == new_key && b.mods == new_mods {
                return Err("conflict");
            }
            j = j + 1;
        }
        let ghost before = *self;
        match self.locate(action) {
            Some((t, pos)) => {
                proof {
                    lemma_first_index(before.table(t as int), action);
                }
                self.replace_at(t, pos, new_binding);
            },
            None => {
                self.game.push(new_binding);
            },
        }
        Ok(())
    }

    /// Puts back the default key map.
    pub fn reset_to_default(&mut self)
        ensures
            final(self).is_default(),
    {
        *self = Keymap::default();
    }

    /// Every action that some binding names, each once, in the order of its first binding.
    pub fn all_actions(&self) -> (r: Vec<Action>)
        ensures
            r@ == distinct_actions(self.all_bindings()),
    {
        let mut result: Vec<Action> = Vec::new();
        proof {
            assert(result@ =~= distinct_actions(Seq::empty()));
        }
        collect_new_actions(&self.global, &mut result, Ghost(Seq::empty()));
        let ghost s0 = Seq::<KeyBinding>::empty() + self.global@;
        collect_new_actions(&self.menu, &mut result, Ghost(s0));
        let ghost s1 = s0 + self.menu@;
        collect_new_actions(&self.game, &mut result, Ghost(s1));
        let ghost s2 = s1 + self.game@;
        collect_new_actions(&self.settings, &mut result, Ghost(s2));
        let ghost s3 = s2 + self.settings@;
        collect_new_actions(&self.snake, &mut result, Ghost(s3));
        let ghost s4 = s3 + self.snake@;
        collect_new_actions(&self.import, &mut result, Ghost(s4));
        let ghost s5 = s4 + self.import@;
        collect_new_actions(&self.export, &mut result, Ghost(s5));
        let ghost s6 = s5 + self.export@;
        collect_new_actions(&self.keymap_config, &mut result, Ghost(s6));
        proof {
            assert(s6 + self.keymap_config@ =~= self.all_bindings());
        }
        result
    }
}


/// `all_actions` lists each bound action exactly once: no action twice, and an action
/// exactly when some binding names it.
pub proof fn lemma_distinct_actions(s: Seq<KeyBinding>)
    ensures
        distinct_actions(s).no_duplicates(),
        forall|a: Action| distinct_actions(s).contains(a) <==> has_action(s, a),
    decreases s.len(),
{
    if s.len() > 0 {
        let p = s.drop_last();
        let x = s.last().action;
        let dp = distinct_actions(p);
        let d = distinct_actions(s);
        lemma_distinct_actions(p);
        assert forall|a: Action| d.contains(a) <==> (dp.contains(a) || a == x) by {
            if !dp.contains(x) {
                assert(d == dp.push(x));
                if d.contains(a) {
                    let i = choose|i: int| 0 <= i < d.len() && d[i] == a;
                    if i < dp.len() {
                        assert(dp[i] == a);
                    }
                }
                if dp.contains(a) {
                    let i = choose|i: int| 0 <= i < dp.len() && dp[i] == a;
                    assert(d[i] == a);
                }
                if a == x {
                    assert(d[dp.len() as int] == a);
                }
            }
        }
        assert forall|a: Action| has_action(s, a) <==> (has_action(p, a) || a == x) by {
            if has_action(s, a) {
                let j = choose|j: int| 0 <= j < s.len() && #[trigger] s[j].action == a;
                if j < s.len() - 1 {
                    assert(p[j].action == a);
                }
            }
            if has_action(p, a) {
                let j = choose|j: int| 0 <= j < p.len() && #[trigger] p[j].action == a;
                assert(s[j].action == a);
            }
            if a == x {
                assert(s[s.len() - 1].action == a);
            }
        }
        if !dp.contains(x) {
            assert(d == dp.push(x));
            assert forall|i: int, j: int| 0 <= i < d.len() && 0 <= j < d.len() && i != j implies d[i] != d[j] by {
                if i < dp.len() && j < dp.len() {
                } else if i < dp.len() {
                    assert(dp.contains(dp[i]));
                } else {
                    assert(dp.contains(dp[j]));
                }
            }
        }
    }
}

/// Replacing a binding of another action leaves the bindings of `b` as they were.
proof fn lemma_bindings_with_update(s: Seq<KeyBinding>, k: int, nb: KeyBinding, b: Action)
    requires
        0 <= k < s.len(),
        s[k].action != b,
        nb.action != b,
    ensures
        bindings_with(s.update(k, nb), b) == bindings_with(s, b),
    decreases s.len(),
{
    let u = s.update(k, nb);
    if k == s.len() - 1 {
        assert(u.drop_last() =~= s.drop_last());
    } else {
        assert(u.drop_last() =~= s.drop_last().update(k, nb));
        lemma_bindings_with_update(s.drop_last(), k, nb, b);
    }
}

/// A successful rebind of `nb.action` leaves the bindings of every other action as they were,
/// table by table, and the new binding stands in some table.
pub proof fn lemma_rebind_keeps_other_actions(km: Keymap, nb: KeyBinding, b: Action)
    requires
        b != nb.action,
    ensures
        forall|i: int|
            0 <= i < 8 ==> bindings_with(#[trigger] km.rebound_table(i, nb), b) == bindings_with(km.table(i), b),
        exists|i: int| 0 <= i < 8 && #[trigger] km.rebound_table(i, nb).contains(nb),
{
    let h = km.holder(nb.action);
    assert forall|i: int| 0 <= i < 8 implies bindings_with(#[trigger] km.rebound_table(i, nb), b) == bindings_with(km.table(i), b) by {
        if h < 8 && i == h {
            lemma_first_index(km.table(i), nb.action);
            lemma_bindings_with_update(km.table(i), first_index(km.table(i), nb.action), nb, b);
        } else if h == 8 && i == 2 {
            assert(km.table(i).push(nb).drop_last() =~= km.table(i));
        }
    }
    if h < 8 {
        lemma_first_index(km.table(h), nb.action);
        let k = first_index(km.table(h), nb.action);
        assert(km.rebound_table(h, nb)[k] == nb);
        assert(km.rebound_table(h, nb).contains(nb));
    } else {
        let n = km.table(2).len() as int;
        assert(km.rebound_table(2, nb)[n] == nb);
        assert(km.rebound_table(2, nb).contains(nb));
    }
}

/// Whether an action has a name of its own: every action but a number outside 1 to 9.
pub open spec fn has_own_name(a: Action) -> bool {
    a matches Action::Number(n) ==> 1 <= n <= 9
}

/// The length, first, last and second-to-last characters of a name.
spec fn name_sig(s: Seq<char>) -> (int, char, char, char) {
    (s.len() as int, s[0], s[s.len() - 1], s[s.len() - 2])
}

/// The action whose name has the signature `k`.
spec fn action_of_sig(k: (int, char, char, char)) -> Action {
    if k == (4int, 'Q', 't', 'i') {
        Action::Quit
    } else if k == (7int, 'C', 'm', 'r') {
        Action::Confirm
    } else if k == (6int, 'C', 'l', 'e') {
        Action::Cancel
    } else if k == (7int, 'M', 'p', 'U') {
        Action::MenuUp
    } else if k == (9int, 'M', 'n', 'w') {
        Action::MenuDown
    } else if k == (11int, 'M', 't', 'c') {
        Action::MenuSelect
    } else if k == (11int, 'D', 'e', 'm') {
        Action::MenuDelete
    } else if k == (12int, 'F', 'e', 't') {
        Action::MenuForceDelete
    } else if k == (6int, 'E', 't', 'r') {
        Action::MenuExport
    } else if k == (6int, 'I', 't', 'r') {
        Action::MenuImport
    } else if k == (9int, 'C', 'p', 'U') {
        Action::CursorUp
    } else if k == (11int, 'C', 'n', 'w') {
        Action::CursorDown
    } else if k == (11int, 'C', 't', 'f') {
        Action::CursorLeft
    } else if k == (12int, 'C', 't', 'h') {
        Action::CursorRight
    } else if k == (7int, 'F', 'p', 'U') {
        Action::FaceUp
    } else if k == (9int, 'F', 'n', 'w') {
        Action::FaceDown
    } else if k == (9int, 'F', 't', 'f') {
        Action::FaceLeft
    } else if k == (10int, 'F', 't', 'h') {
        Action::FaceRight
    } else if k == (10int, 'J', 't', 'n') {
        Action::FaceFront
    } else if k == (9int, 'J', 'k', 'c') {
        Action::FaceBack
    } else if k == (9int, 'J', 't', 'f') {
        Action::FaceLeftJump
    } else if k == (10int, 'J', 't', 'h') {
        Action::FaceRightJump
    } else if k == (8int, 'J', 'p', 'o') {
        Action::FaceTop
    } else if k == (11int, 'J', 'm', 'o') {
        Action::FaceBottom
    } else if k == (5int, 'E', 'e', 's') {
        Action::Erase
    } else if k == (4int, 'H', 't', 'n') {
        Action::Hint
    } else if k == (4int, 'U', 'o', 'd') {
        Action::Undo
    } else if k == (12int, 'T', 'e', 'd') {
        Action::ToggleGuidance
    } else if k == (11int, 'T', 'e', 'd') {
        Action::ToggleMode
    } else if k == (8int, 'N', 'e', 'm') {
        Action::NewGame
    } else if k == (10int, 'B', '←', ' ') {
        Action::BtnPagePrev
    } else if k == (10int, 'B', '→', ' ') {
        Action::BtnPageNext
    } else if k == (10int, 'S', 's', 'u') {
        Action::ShopFocus
    } else if k == (7int, 'S', 'p', 'U') {
        Action::ShopUp
    } else if k == (9int, 'S', 'n', 'w') {
        Action::ShopDown
    } else if k == (8int, 'S', 'y', 'u') {
        Action::ShopBuy
    } else if k == (8int, 'S', 'p', 'U') {
        Action::SnakeUp
    } else if k == (10int, 'S', 'n', 'w') {
        Action::SnakeDown
    } else if k == (10int, 'S', 't', 'f') {
        Action::SnakeLeft
    } else if k == (11int, 'S', 't', 'h') {
        Action::SnakeRight
    } else if k == (10int, 'S', 't', 'i') {
        Action::SnakeQuit
    } else if k == (11int, 'S', 'p', 'U') {
        Action::SettingsUp
    } else if k == (13int, 'S', 'n', 'w') {
        Action::SettingsDown
    } else if k == (13int, 'S', 't', 'f') {
        Action::SettingsLeft
    } else if k == (14int, 'S', 't', 'h') {
        Action::SettingsRight
    } else if k == (10int, 'T', 'e', 'b') {
        Action::ToolCube
    } else if k == (13int, 'T', '3', '×') {
        Action::ToolSnake3
    } else if k == (10int, 'T', 'e', 'c') {
        Action::ToolFace
    } else if k == (13int, 'T', '5', '×') {
        Action::ToolSnake5
    } else if k == (12int, 'T', 't', 'e') {
        Action::ToolTarget
    } else if k == (16int, 'D', 'e', 'c') {
        Action::DebugHintFace
    } else if k == (10int, 'D', 'n', 'i') {
        Action::DebugWin
    } else if k == (16int, 'D', '0', '0') {
        Action::DebugGoldUp
    } else if k == (15int, 'D', '0', '5') {
        Action::DebugGoldDown
    } else if k == (9int, 'E', 'p', 'U') {
        Action::ExportUp
    } else if k == (11int, 'E', 'n', 'w') {
        Action::ExportDown
    } else if k == (12int, 'I', 'e', 'p') {
        Action::ImportChar
    } else if k == (17int, 'I', 'e', 'c') {
        Action::ImportBackspace
    } else if k == (8int, 'N', '1', ' ') {
        Action::Number(1u8)
    } else if k == (8int, 'N', '2', ' ') {
        Action::Number(2u8)
    } else if k == (8int, 'N', '3', ' ') {
        Action::Number(3u8)
    } else if k == (8int, 'N', '4', ' ') {
        Action::Number(4u8)
    } else if k == (8int, 'N', '5', ' ') {
        Action::Number(5u8)
    } else if k == (8int, 'N', '6', ' ') {
        Action::Number(6u8)
    } else if k == (8int, 'N', '7', ' ') {
        Action::Number(7u8)
    } else if k == (8int, 'N', '8', ' ') {
        Action::Number(8u8)
    } else if k == (8int, 'N', '9', ' ') {
        Action::Number(9u8)
    } else {
        Action::Number(0)
    }
}

/// The signature of an action's name tells the action, and the name's prefix tells
/// whether it is a tool or a debug action.
proof fn lemma_name_facts(a: Action)
    ensures
        has_own_name(a) ==> action_of_sig(name_sig(action_name(a))) == a,
        action_group(a) == ActionGroup::Debug <==> starts_with(action_name(a), "Debug: "@),
        action_group(a) == ActionGroup::Tools <==> starts_with(action_name(a), "Tool: "@),
{
    reveal_strlit("Debug: ");
    reveal_strlit("Tool: ");
    reveal_strlit("Number ?");
    reveal_strlit("Quit");
    reveal_strlit("Confirm");
    reveal_strlit("Cancel");
    reveal_strlit("Menu Up");
    reveal_strlit("Menu Down");
    reveal_strlit("Menu Select");
    reveal_strlit("Delete Game");
    reveal_strlit("Force Delete");
    reveal_strlit("Export");
    reveal_strlit("Import");
    reveal_strlit("Cursor Up");
    reveal_strlit("Cursor Down");
    reveal_strlit("Cursor Left");
    reveal_strlit("Cursor Right");
    reveal_strlit("Face Up");
    reveal_strlit("Face Down");
    reveal_strlit("Face Left");
    reveal_strlit("Face Right");
    reveal_strlit("Jump Front");
    reveal_strlit("Jump Back");
    reveal_strlit("Jump Left");
    reveal_strlit("Jump Right");
    reveal_strlit("Jump Top");
    reveal_strlit("Jump Bottom");
    reveal_strlit("Erase");
    reveal_strlit("Hint");
    reveal_strlit("Undo");
    reveal_strlit("Toggle Guide");
    reveal_strlit("Toggle Mode");
    reveal_strlit("New Game");
    reveal_strlit("Btn Page ←");
    reveal_strlit("Btn Page →");
    reveal_strlit("Shop Focus");
    reveal_strlit("Shop Up");
    reveal_strlit("Shop Down");
    reveal_strlit("Shop Buy");
    reveal_strlit("Snake Up");
    reveal_strlit("Snake Down");
    reveal_strlit("Snake Left");
    reveal_strlit("Snake Right");
    reveal_strlit("Snake Quit");
    reveal_strlit("Settings Up");
    reveal_strlit("Settings Down");
    reveal_strlit("Settings Left");
    reveal_strlit("Settings Right");
    reveal_strlit("Tool: Cube");
    reveal_strlit("Tool: Snake×3");
    reveal_strlit("Tool: Face");
    reveal_strlit("Tool: Snake×5");
    reveal_strlit("Tool: Target");
    reveal_strlit("Debug: Hint Face");
    reveal_strlit("Debug: Win");
    reveal_strlit("Debug: Gold +100");
    reveal_strlit("Debug: Gold -50");
    reveal_strlit("Export Up");
    reveal_strlit("Export Down");
    reveal_strlit("Import: Type");
    reveal_strlit("Import: Backspace");
    reveal_strlit("Number 1");
    reveal_strlit("Number 2");
    reveal_strlit("Number 3");
    reveal_strlit("Number 4");
    reveal_strlit("Number 5");
    reveal_strlit("Number 6");
    reveal_strlit("Number 7");
    reveal_strlit("Number 8");
    reveal_strlit("Number 9");
    let name = action_name(a);
    if starts_with(name, "Debug: "@) {
        assert(name[0] == name.subrange(0, 7)[0]);
        assert(name[2] == name.subrange(0, 7)[2]);
    }
    if starts_with(name, "Tool: "@) {
        assert(name[0] == name.subrange(0, 6)[0]);
        assert(name[2] == name.subrange(0, 6)[2]);
    }
    match a {
        Action::Quit => {},
        Action::Confirm => {},
        Action::Cancel => {},
        Action::MenuUp => {},
        Action::MenuDown => {},
        Action::MenuSelect => {},
        Action::MenuDelete => {},
        Action::MenuForceDelete => {},
        Action::MenuExport => {},
        Action::MenuImport => {},
        Action::CursorUp => {},
        Action::CursorDown => {},
        Action::CursorLeft => {},
        Action::CursorRight => {},
        Action::FaceUp => {},
        Action::FaceDown => {},
        Action::FaceLeft => {},
        Action::FaceRight => {},
        Action::FaceFront => {},
        Action::FaceBack => {},
        Action::FaceLeftJump => {},
        Action::FaceRightJump => {},
        Action::FaceTop => {},
        Action::FaceBottom => {},
        Action::Erase => {},
        Action::Hint => {},
        Action::Undo => {},
        Action::ToggleGuidance => {},
        Action::ToggleMode => {},
        Action::NewGame => {},
        Action::BtnPagePrev => {},
        Action::BtnPageNext => {},
        Action::ShopFocus => {},
        Action::ShopUp => {},
        Action::ShopDown => {},
        Action::ShopBuy => {},
        Action::SnakeUp => {},
        Action::SnakeDown => {},
        Action::SnakeLeft => {},
        Action::SnakeRight => {},
        Action::SnakeQuit => {},
        Action::SettingsUp => {},
        Action::SettingsDown => {},
        Action::SettingsLeft => {},
        Action::SettingsRight => {},
        Action::ToolCube => assert(name.subrange(0, 6) =~= "Tool: "@),
        Action::ToolSnake3 => assert(name.subrange(0, 6) =~= "Tool: "@),
        Action::ToolFace => assert(name.subrange(0, 6) =~= "Tool: "@),
        Action::ToolSnake5 => assert(name.subrange(0, 6) =~= "Tool: "@),
        Action::ToolTarget => assert(name.subrange(0, 6) =~= "Tool: "@),
        Action::DebugHintFace => assert(name.subrange(0, 7) =~= "Debug: "@),
        Action::DebugWin => assert(name.subrange(0, 7) =~= "Debug: "@),
        Action::DebugGoldUp => assert(name.subrange(0, 7) =~= "Debug: "@),
        Action::DebugGoldDown => assert(name.subrange(0, 7) =~= "Debug: "@),
        Action::ExportUp => {},
        Action::ExportDown => {},
        Action::ImportChar => {},
        Action::ImportBackspace => {},
        Action::Number(n) => {
            if n == 1 {
            } else if n == 2 {
            } else if n == 3 {
            } else if n == 4 {
            } else if n == 5 {
            } else if n == 6 {
            } else if n == 7 {
            } else if n == 8 {
            } else if n == 9 {
            } else {
            }
        },
    }
}

/// An action is a debug action exactly when its name starts with "Debug: ", and a tool
/// exactly when its name starts with "Tool: ".
pub proof fn lemma_debug_and_tool_names(a: Action)
    ensures
        action_group(a) == ActionGroup::Debug <==> starts_with(action_name(a), "Debug: "@),
        action_group(a) == ActionGroup::Tools <==> starts_with(action_name(a), "Tool: "@),
{
    lemma_name_facts(a);
}

/// A binding made from a pressed key (as when an action is rebound) fires on that key held
/// with the binding's modifiers; different reported keys make different bindable keys; a
/// binding of a key other than a character or Space fires on one reported key only, the
/// one it was made from; and a binding fires only when Ctrl or Alt is held exactly when the
/// binding holds one of them.
pub proof fn lemma_binding_fires_on_its_key(b: KeyBinding, code: InputKey, other: InputKey, mods: ModKey)
    ensures
        code != InputKey::Other ==> binding_matches(KeyBinding { key: key_of_input(code), ..b }, code, b.mods),
        code != InputKey::Other && other != InputKey::Other && code != other ==> key_of_input(code)
            != key_of_input(other),
        !(b.key matches Key::Char(_)) && b.key != Key::Space && binding_matches(b, code, mods)
            ==> key_of_input(code) == b.key,
        !(b.key matches Key::Char(_)) && b.key != Key::Space && binding_matches(b, code, mods)
            && binding_matches(b, other, mods) ==> code == other,
        binding_matches(b, code, mods) ==> (b.mods.ctrl || b.mods.alt) == (mods.ctrl || mods.alt),
{
}

/// Different actions have different names (a number outside 1 to 9 has none of its own).
pub proof fn lemma_action_names_differ(a: Action, b: Action)
    requires
        has_own_name(a),
        has_own_name(b),
        a != b,
    ensures
        action_name(a) != action_name(b),
{
    lemma_name_facts(a);
    lemma_name_facts(b);
}

} // verus!
