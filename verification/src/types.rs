//! Small shared types of the terminal client: screens, cell positions on the cube,
//! settings arrows and the colour theme.

use vstd::prelude::*;

verus! {

/// Where a cell of the 9×9×9 cube sits.
#[derive(Debug, Clone, Copy, PartialEq, Eq, Structural)]
pub enum PositionKind {
    /// All three coordinates on the boundary (0 or 8).
    Corner,
    /// Exactly two coordinates on the boundary.
    Edge,
    /// Exactly one coordinate on the boundary (an inner cell counts here too).
    Center,
}

/// Whether a coordinate lies on the boundary of the cube.
pub open spec fn on_boundary(v: u8) -> bool {
    v == 0 || v == 8
}

/// How many of the three coordinates lie on the boundary.
pub open spec fn boundary_count(x: u8, y: u8, z: u8) -> int {
    (if on_boundary(x) { 1int } else { 0int }) + (if on_boundary(y) { 1int } else { 0int }) + (
    if on_boundary(z) {
        1int
    } else {
        0int
    })
}

/// The kind of position of cell `(x, y, z)`.
pub fn position_kind(x: u8, y: u8, z: u8) -> (r: PositionKind)
    ensures
        r == (if boundary_count(x, y, z) == 3 {
            PositionKind::Corner
        } else if boundary_count(x, y, z) == 2 {
            PositionKind::Edge
        } else {
            PositionKind::Center
        }),
{
    let mut count: u8 = 0;
    if x == 0 || x == 8 {
        count = count + 1;
    }
    if y == 0 || y == 8 {
        count = count + 1;
    }
    if z == 0 || z == 8 {
        count = count + 1;
    }
    match count {
        3 => PositionKind::Corner,
        2 => PositionKind::Edge,
        _ => PositionKind::Center,
    }
}

/// The screen the client shows.
#[derive(Debug, Clone, Copy, PartialEq, Eq, Structural)]
pub enum AppScreen {
    Menu,
    Game,
    Settings,
    Generating,
    Victory,
    ExportSelect,
    ImportInput,
    KeymapConfig,
}

/// Which arrow of a settings field was clicked.
#[derive(Debug, Clone, Copy, PartialEq, Eq, Structural)]
pub enum SettingsArrow {
    Left,
    Right,
}

/// The colour theme; each front end interprets the colours itself.
#[derive(Debug, Clone, Copy, PartialEq, Eq, Structural)]
pub enum Theme {
    Dark,
    Light,
}

/// The theme that `toggle` switches to.
pub open spec fn toggled(t: Theme) -> Theme {
    match t {
        Theme::Dark => Theme::Light,
        Theme::Light => Theme::Dark,
    }
}

impl Theme {
    /// The other theme.
    pub fn toggle(&self) -> (r: Theme)
        ensures
            r == toggled(*self),
            r != *self,
    {
        match self {
            Theme::Dark => Theme::Light,
            Theme::Light => Theme::Dark,
        }
    }
}

impl Default for Theme {
    fn default() -> (r: Theme)
        ensures
            r == Theme::Dark,
    {
        Theme::Dark
    }
}

/// Toggling the theme twice gives the theme back.
pub proof fn lemma_theme_toggle_involutive(t: Theme)
    ensures
        toggled(toggled(t)) == t,
{
}

} // verus!
