//! State of the terminal widgets: button states and edge marks, popup borders, and the
//! selection and scrolling of a list.

use vstd::prelude::*;

verus! {

/// How a button is drawn.
#[derive(Debug, Clone, Copy, PartialEq, Eq, Structural)]
pub enum ButtonState {
    Normal,
    Selected,
    Hovered,
    Active,
}

impl Default for ButtonState {
    fn default() -> (r: ButtonState)
        ensures
            r == ButtonState::Normal,
    {
        ButtonState::Normal
    }
}

/// A mark drawn beside a button (`◁` or `▷`); a faded mark is drawn in the background
/// colour, as unavailable.
#[derive(Debug, Clone, Copy, PartialEq, Eq, Structural)]
pub struct EdgeDecor {
    pub ch: char,
    pub faded: bool,
}

impl EdgeDecor {
    /// A mark that is not faded.
    pub fn new(ch: char) -> (r: EdgeDecor)
        ensures
            r == (EdgeDecor { ch, faded: false }),
    {
        EdgeDecor { ch, faded: false }
    }

    /// The same mark, faded.
    pub fn faded(self) -> (r: EdgeDecor)
        ensures
            r == (EdgeDecor { ch: self.ch, faded: true }),
    {
        let mut d = self;
        d.faded = true;
        d
    }
}

/// The border of a popup.
#[derive(Debug, Clone, Copy, PartialEq, Eq, Structural)]
pub enum PopupKind {
    /// A single line.
    Simple,
    /// A double line.
    Double,
    /// Rounded corners.
    Rounded,
}

impl Default for PopupKind {
    fn default() -> (r: PopupKind)
        ensures
            r == PopupKind::Simple,
    {
        PopupKind::Simple
    }
}

/// The selection and scroll position of a list.
#[derive(Debug, Clone, Copy, PartialEq, Eq, Structural)]
pub struct ScrollableListState {
    /// The selected item.
    pub selected: usize,
    /// The first visible item.
    pub scroll_offset: usize,
    /// The number of items.
    pub item_count: usize,
    /// The number of visible lines (set when drawn).
    pub visible_lines: usize,
}

/// `n - 1`, or 0 for 0.
pub open spec fn last_index(n: usize) -> usize {
    if n == 0 {
        0
    } else {
        (n - 1) as usize
    }
}

impl ScrollableListState {
    /// A list of `item_count` items, the first selected and shown, ten lines visible.
    pub fn new(item_count: usize) -> (r: ScrollableListState)
        ensures
            r.selected == 0,
            r.scroll_offset == 0,
            r.item_count == item_count,
            r.visible_lines == 10,
    {
        ScrollableListState { selected: 0, scroll_offset: 0, item_count, visible_lines: 10 }
    }

    /// Sets the number of items; the selection and the scroll position are kept within the
    /// items.
    pub fn set_item_count(&mut self, count: usize)
        ensures
            final(self).item_count == count,
            final(self).selected == if old(self).selected < last_index(count) {
                old(self).selected
            } else {
                last_index(count)
            },
            final(self).scroll_offset == if old(self).scroll_offset < last_index(count) {
                old(self).scroll_offset
            } else {
                last_index(count)
            },
            final(self).visible_lines == old(self).visible_lines,
    {
        self.item_count = count;
        let last = if count == 0 {
            0
        } else {
            count - 1
        };
        if self.selected > last {
            self.selected = last;
        }
        if self.scroll_offset > last {
            self.scroll_offset = last;
        }
    }

    /// Selects the previous item, scrolling up to it when it is above the view.
    pub fn select_prev(&mut self)
        ensures
            final(self).item_count == old(self).item_count,
            final(self).visible_lines == old(self).visible_lines,
            old(self).selected == 0 ==> *final(self) == *old(self),
            old(self).selected > 0 ==> {
                &&& final(self).selected == old(self).selected - 1
                &&& final(self).scroll_offset == if final(self).selected < old(self).scroll_offset {
                    final(self).selected
                } else {
                    old(self).scroll_offset
                }
            },
    {
        if self.selected > 0 {
            self.selected = self.selected - 1;
            if self.selected < self.scroll_offset {
                self.scroll_offset = self.selected;
            }
        }
    }

    /// Selects the next item, when there is one, scrolling down so that it is the last
    /// visible line when it is below the view.
    pub fn select_next(&mut self)
        requires
            old(self).selected < usize::MAX,
            old(self).scroll_offset + old(self).visible_lines <= usize::MAX,
        ensures
            final(self).item_count == old(self).item_count,
            final(self).visible_lines == old(self).visible_lines,
            old(self).selected + 1 >= old(self).item_count ==> *final(self) == *old(self),
            old(self).selected + 1 < old(self).item_count ==> {
                &&& final(self).selected == old(self).selected + 1
                &&& final(self).scroll_offset == if final(self).selected >= old(self).scroll_offset + old(self).visible_lines {
                    (if final(self).selected >= old(self).visible_lines {
                        final(self).selected - old(self).visible_lines
                    } else {
                        0
                    }) + 1
                } else {
                    old(self).scroll_offset as int
                }
            },
    {
        if self.selected + 1 < self.item_count {
            self.selected = self.selected + 1;
            let max_visible = self.scroll_offset + self.visible_lines;
            if self.selected >= max_visible {
                self.scroll_offset = self.selected.saturating_sub(self.visible_lines) + 1;
            }
        }
    }

    /// Sets the number of visible lines.
    pub fn set_visible_lines(&mut self, visible: usize)
        ensures
            final(self).visible_lines == visible,
            final(self).selected == old(self).selected,
            final(self).scroll_offset == old(self).scroll_offset,
            final(self).item_count == old(self).item_count,
    {
        self.visible_lines = visible;
    }
}

impl Default for ScrollableListState {
    fn default() -> (r: ScrollableListState)
        ensures
            r.selected == 0,
            r.scroll_offset == 0,
            r.item_count == 0,
            r.visible_lines == 10,
    {
        ScrollableListState { selected: 0, scroll_offset: 0, item_count: 0, visible_lines: 10 }
    }
}

/// Moving the selection keeps it on an item, and keeps it in view: when the selected item
/// was within the items and visible (`scroll_offset <= selected < scroll_offset + visible`),
/// it still is after a step down; and a step up keeps the first visible line at or above
/// the selection.
pub proof fn lemma_selection_stays_visible(selected: int, scroll: int, count: int, visible: int)
    requires
        0 <= scroll <= selected < count,
        selected < scroll + visible,
    ensures
        ({
            let (s2, o2) = if selected + 1 < count {
                let s = selected + 1;
                (s, if s >= scroll + visible {
                    (if s >= visible {
                        s - visible
                    } else {
                        0
                    }) + 1
                } else {
                    scroll
                })
            } else {
                (selected, scroll)
            };
            &&& s2 < count
            &&& o2 <= s2 < o2 + visible
        }),
        ({
            let (s2, o2) = if selected > 0 {
                let s = selected - 1;
                (s, if s < scroll {
                    s
                } else {
                    scroll
                })
            } else {
                (selected, scroll)
            };
            &&& s2 < count
            &&& o2 <= s2 < o2 + visible
        }),
{
}

} // verus!
