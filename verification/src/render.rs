//! Layout rules of the terminal client: render modes and their cell sizes, the buttons of
//! the game screen, colour names, text padding and the mouse hit tests on the grid.

use ratatui::style::Color;
use vstd::prelude::*;

use crate::cube::Face;
use crate::i18n::{t, translation, Lang};
use crate::settings::AppSettings;
use crate::text::{push_char, str_eq};

verus! {

/// The terminal colour type, carried through the library opaquely.
#[verifier::external_type_specification]
#[verifier::external_body]
pub struct ExColor(Color);

/// How the sudoku grid is drawn.
#[derive(Debug, Clone, Copy, PartialEq, Eq, Structural)]
pub enum RenderMode {
    /// The whole grid with a scroll bar.
    Scrollbar,
    /// The smallest layout.
    Compact,
    /// The standard layout.
    Standard,
}

/// The mode that `toggle` switches to.
pub open spec fn next_mode(m: RenderMode) -> RenderMode {
    match m {
        RenderMode::Scrollbar => RenderMode::Compact,
        RenderMode::Compact => RenderMode::Standard,
        RenderMode::Standard => RenderMode::Scrollbar,
    }
}

/// The width of a cell in mode `m`.
pub open spec fn mode_cell_width(m: RenderMode, standard_width: usize) -> usize {
    match m {
        RenderMode::Scrollbar => 3,
        RenderMode::Compact => 1,
        RenderMode::Standard => standard_width,
    }
}

/// The height of a cell in mode `m`.
pub open spec fn mode_cell_height(m: RenderMode) -> usize {
    match m {
        RenderMode::Scrollbar => 1,
        RenderMode::Compact => 1,
        RenderMode::Standard => 3,
    }
}

impl RenderMode {
    /// The next mode: scroll bar, compact, standard, and round again.
    pub fn toggle(self) -> (r: RenderMode)
        ensures
            r == next_mode(self),
    {
        match self {
            RenderMode::Scrollbar => RenderMode::Compact,
            RenderMode::Compact => RenderMode::Standard,
            RenderMode::Standard => RenderMode::Scrollbar,
        }
    }

    /// The width of a cell; the standard mode takes it from the settings.
    pub fn cell_width(self, settings: &AppSettings) -> (r: usize)
        ensures
            r == mode_cell_width(self, settings.standard_cell_width),
    {
        self.cell_width_for(settings.standard_cell_width)
    }

    /// The width of a cell when the standard mode's cells are `standard_width` wide.
    pub fn cell_width_for(self, standard_width: usize) -> (r: usize)
        ensures
            r == mode_cell_width(self, standard_width),
    {
        match self {
            RenderMode::Scrollbar => 3,
            RenderMode::Compact => 1,
            RenderMode::Standard => standard_width,
        }
    }

    /// The height of a cell.
    pub fn cell_height(self) -> (r: usize)
        ensures
            r == mode_cell_height(self),
    {
        match self {
            RenderMode::Scrollbar => 1,
            RenderMode::Compact => 1,
            RenderMode::Standard => 3,
        }
    }
}

/// Toggling the render mode three times gives the mode back.
pub proof fn lemma_mode_cycle(m: RenderMode)
    ensures
        next_mode(next_mode(next_mode(m))) == m,
        next_mode(m) != m,
{
}

/// The translation key of a mode's label.
pub open spec fn mode_key(m: RenderMode) -> Seq<char> {
    match m {
        RenderMode::Scrollbar => "game.mode_scrollbar"@,
        RenderMode::Compact => "game.mode_compact"@,
        RenderMode::Standard => "game.mode_standard"@,
    }
}

/// The translated label of a render mode.
pub fn mode_label(mode: RenderMode, lang: Lang) -> (r: &'static str)
    ensures
        r@ == translation(mode_key(mode), lang),
{
    match mode {
        RenderMode::Scrollbar => t("game.mode_scrollbar", lang),
        RenderMode::Compact => t("game.mode_compact", lang),
        RenderMode::Standard => t("game.mode_standard", lang),
    }
}

/// The buttons of the game screen.
#[derive(Debug, Clone, Copy, PartialEq, Eq, Hash, Structural)]
pub enum ButtonId {
    Number(u8),
    Erase,
    Hint,
    Undo,
    ToggleGuidance,
    ToggleMode,
    ToggleDraft,
    Quit,
    ToolCube,
    ToolSnake3,
    ToolSnake5,
    ToolFace,
    ToolTarget,
}

/// The colours of a button.
#[derive(Debug, Clone, Copy)]
pub struct ButtonTheme {
    pub text: Color,
    pub background: Color,
    pub highlight: Color,
    pub shadow: Color,
}

/// Where a button of the game screen stands (for mouse clicks).
pub struct ButtonLayout {
    pub id: ButtonId,
    pub label: String,
    pub col: u16,
    pub row: u16,
    pub width: u16,
    pub height: u16,
    /// The colours it is drawn with.
    pub theme: ButtonTheme,
}

/// A click on the page arrows of the button bar.
#[derive(Debug, Clone, Copy, PartialEq, Eq, Structural)]
pub enum PagerAction {
    Prev,
    Next,
}

/// A colour that the settings can name.
#[derive(Debug, Clone, Copy, PartialEq, Eq, Structural)]
pub enum NamedColor {
    Black,
    DarkGray,
    White,
    Cyan,
    Green,
    Blue,
    Magenta,
    Red,
    Yellow,
    Gray,
}

/// The colour a settings value names; unknown names give cyan.
pub open spec fn color_named(name: Seq<char>) -> NamedColor {
    if name == "black"@ {
        NamedColor::Black
    } else if name == "darkgray"@ {
        NamedColor::DarkGray
    } else if name == "white"@ {
        NamedColor::White
    } else if name == "cyan"@ {
        NamedColor::Cyan
    } else if name == "green"@ {
        NamedColor::Green
    } else if name == "blue"@ {
        NamedColor::Blue
    } else if name == "magenta"@ {
        NamedColor::Magenta
    } else if name == "red"@ {
        NamedColor::Red
    } else if name == "yellow"@ {
        NamedColor::Yellow
    } else if name == "gray"@ {
        NamedColor::Gray
    } else {
        NamedColor::Cyan
    }
}

/// The colour that a settings value names.
pub fn parse_color(name: &str) -> (r: NamedColor)
    ensures
        r == color_named(name@),
{
    if str_eq(name, "black") {
        NamedColor::Black
    } else if str_eq(name, "darkgray") {
        NamedColor::DarkGray
    } else if str_eq(name, "white") {
        NamedColor::White
    } else if str_eq(name, "cyan") {
        NamedColor::Cyan
    } else if str_eq(name, "green") {
        NamedColor::Green
    } else if str_eq(name, "blue") {
        NamedColor::Blue
    } else if str_eq(name, "magenta") {
        NamedColor::Magenta
    } else if str_eq(name, "red") {
        NamedColor::Red
    } else if str_eq(name, "yellow") {
        NamedColor::Yellow
    } else if str_eq(name, "gray") {
        NamedColor::Gray
    } else {
        NamedColor::Cyan
    }
}

/// The colour of each face.
pub open spec fn face_color(face: Face) -> NamedColor {
    match face {
        Face::Front => NamedColor::Red,
        Face::Back => NamedColor::Blue,
        Face::Left => NamedColor::Green,
        Face::Right => NamedColor::Yellow,
        Face::Top => NamedColor::Magenta,
        Face::Bottom => NamedColor::Cyan,
    }
}

/// The colour a face is drawn with.
pub fn face_to_color(face: Face) -> (r: NamedColor)
    ensures
        r == face_color(face),
{
    match face {
        Face::Front => NamedColor::Red,
        Face::Back => NamedColor::Blue,
        Face::Left => NamedColor::Green,
        Face::Right => NamedColor::Yellow,
        Face::Top => NamedColor::Magenta,
        Face::Bottom => NamedColor::Cyan,
    }
}

/// The columns a character takes: one for ASCII, two for anything else.
pub open spec fn char_width(c: char) -> nat {
    if (c as u32) < 128 {
        1
    } else {
        2
    }
}

/// The columns a text takes.
pub open spec fn text_width(s: Seq<char>) -> nat
    decreases s.len(),
{
    if s.len() == 0 {
        0
    } else {
        text_width(s.drop_last()) + char_width(s.last())
    }
}

/// A text takes at most two columns per character.
proof fn lemma_text_width_bound(s: Seq<char>)
    ensures
        text_width(s) <= 2 * s.len(),
    decreases s.len(),
{
    if s.len() > 0 {
        lemma_text_width_bound(s.drop_last());
    }
}

/// The columns that `s` takes on the terminal.
pub fn display_width(s: &str) -> (r: usize)
    requires
        2 * s@.len() <= usize::MAX,
    ensures
        r == text_width(s@),
{
    let n = s.unicode_len();
    let mut w: usize = 0;
    let mut i: usize = 0;
    while i < n
        invariant
            n == s@.len(),
            2 * n <= usize::MAX,
            i <= n,
            w == text_width(s@.subrange(0, i as int)),
        decreases n - i,
    {
        let c = s.get_char(i);
        proof {
            let next = s@.subrange(0, i + 1);
            assert(next.drop_last() =~= s@.subrange(0, i as int));
            lemma_text_width_bound(next);
        }
        if (c as u32) < 128 {
            w = w + 1;
        } else {
            w = w + 2;
        }
        i = i + 1;
    }
    proof {
        assert(s@.subrange(0, n as int) =~= s@);
    }
    w
}

/// `n` spaces.
pub open spec fn spaces(n: nat) -> Seq<char> {
    Seq::new(n, |i: int| ' ')
}

fn push_spaces(s: &mut String, n: usize)
    ensures
        final(s)@ == old(s)@ + spaces(n as nat),
{
    let mut i: usize = 0;
    while i < n
        invariant
            i <= n,
            s@ == old(s)@ + spaces(i as nat),
        decreases n - i,
    {
        push_char(s, ' ');
        proof {
            assert(s@ =~= old(s)@ + spaces((i + 1) as nat));
        }
        i = i + 1;
    }
}

/// `s` padded with spaces on the right to `width` columns (unchanged when wider).
pub open spec fn padded_right(s: Seq<char>, width: nat) -> Seq<char> {
    if text_width(s) >= width {
        s
    } else {
        s + spaces((width - text_width(s)) as nat)
    }
}

/// `s` centred in `width` columns, the odd space on the right (unchanged when wider).
pub open spec fn padded_center(s: Seq<char>, width: nat) -> Seq<char> {
    if text_width(s) >= width {
        s
    } else {
        let total = (width - text_width(s)) as nat;
        spaces(total / 2) + s + spaces((total - total / 2) as nat)
    }
}

/// `s` padded with spaces on the right to `width` columns.
pub fn pad_right(s: &str, width: usize) -> (r: String)
    requires
        2 * s@.len() <= usize::MAX,
    ensures
        r@ == padded_right(s@, width as nat),
{
    let dw = display_width(s);
    let mut r = String::from_str(s);
    if dw < width {
        push_spaces(&mut r, width - dw);
    }
    r
}

/// `s` centred in `width` columns.
pub fn pad_center(s: &str, width: usize) -> (r: String)
    requires
        2 * s@.len() <= usize::MAX,
    ensures
        r@ == padded_center(s@, width as nat),
{
    let dw = display_width(s);
    if dw >= width {
        return String::from_str(s);
    }
    let total = width - dw;
    let left = total / 2;
    let right = total - left;
    let mut r = String::new();
    push_spaces(&mut r, left);
    r.append(s);
    push_spaces(&mut r, right);
    proof {
        assert(r@ =~= padded_center(s@, width as nat));
    }
    r
}

/// A line of a box: the content padded (or centred) to `inner_w` columns between two
/// vertical bars.
pub fn bordered_line(content: &str, inner_w: usize, center: bool) -> (r: String)
    requires
        2 * content@.len() <= usize::MAX,
    ensures
        r@ == seq!['│'] + (if center {
            padded_center(content@, inner_w as nat)
        } else {
            padded_right(content@, inner_w as nat)
        }) + seq!['│'],
{
    let padded = if center {
        pad_center(content, inner_w)
    } else {
        pad_right(content, inner_w)
    };
    let mut r = String::new();
    push_char(&mut r, '│');
    r.append(padded.as_str());
    push_char(&mut r, '│');
    proof {
        assert(r@ =~= seq!['│'] + padded@ + seq!['│']);
    }
    r
}

} // verus!
