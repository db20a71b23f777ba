//! Screen geometry of the game screen: rectangles, the paging of the button bar, and the
//! hit tests that turn a mouse position into a button, a pager arrow, a shop item or a
//! cell of the board.

use vstd::prelude::*;

use crate::render::{mode_cell_height, mode_cell_width, ButtonId, ButtonLayout, PagerAction, RenderMode};

verus! {

/// A rectangle of terminal cells.
#[derive(Debug, Clone, Copy, PartialEq, Eq, Structural)]
pub struct Area {
    pub x: u16,
    pub y: u16,
    pub width: u16,
    pub height: u16,
}

impl Area {
    /// Whether the cell `(col, row)` lies in the rectangle.
    pub open spec fn holds(self, col: int, row: int) -> bool {
        self.x <= col < self.x + self.width && self.y <= row < self.y + self.height
    }

    /// The rectangle ends inside the terminal's coordinates.
    pub open spec fn fits(self) -> bool {
        self.x + self.width <= u16::MAX && self.y + self.height <= u16::MAX
    }

    /// Whether the cell `(col, row)` lies in the rectangle.
    pub fn contains(&self, col: u16, row: u16) -> (r: bool)
        requires
            self.fits(),
        ensures
            r == self.holds(col as int, row as int),
    {
        col >= self.x && col < self.x + self.width && row >= self.y && row < self.y + self.height
    }
}

/// Where the pager of the button bar stands.
#[derive(Debug, Clone, Copy, PartialEq, Eq, Structural)]
pub struct PagerLayout {
    /// The "previous page" arrow.
    pub prev_rect: Area,
    /// The "next page" arrow.
    pub next_rect: Area,
    /// The page number.
    pub page_label_rect: Area,
    pub total_pages: u16,
}

/// Whether a click at `(col, row)` hits `b`.
pub open spec fn button_hit(b: ButtonLayout, col: int, row: int) -> bool {
    let h: int = if b.height > 1 {
        b.height as int
    } else {
        1
    };
    row >= b.row && row < b.row + h && col >= b.col && col < b.col + b.width
}

/// The first of `buttons` hit by a click at `(col, row)`.
pub open spec fn first_button_hit(buttons: Seq<ButtonLayout>, col: int, row: int) -> Option<ButtonId>
    decreases buttons.len(),
{
    if buttons.len() == 0 {
        None
    } else if button_hit(buttons[0], col, row) {
        Some(buttons[0].id)
    } else {
        first_button_hit(buttons.drop_first(), col, row)
    }
}

/// Every button ends inside the terminal's coordinates.
pub open spec fn buttons_fit(buttons: Seq<ButtonLayout>) -> bool {
    forall|i: int| 0 <= i < buttons.len() ==> (#[trigger] buttons[i]).row + 1 + buttons[i].height <= u16::MAX
        && buttons[i].col + buttons[i].width <= u16::MAX
}

/// The button under a click at `(col, row)`: the first one laid out there.
pub fn find_button_at(buttons: &Vec<ButtonLayout>, col: u16, row: u16) -> (r: Option<ButtonId>)
    requires
        buttons_fit(buttons@),
    ensures
        r == first_button_hit(buttons@, col as int, row as int),
{
    let mut i: usize = 0;
    proof {
        assert(buttons@.skip(0) =~= buttons@);
    }
    while i < buttons.len()
        invariant
            i <= buttons@.len(),
            buttons_fit(buttons@),
            first_button_hit(buttons@, col as int, row as int) == first_button_hit(buttons@.skip(i as int), col as int, row as int),
        decreases buttons@.len() - i,
    {
        let b = &buttons[i];
        let h: u16 = if b.height > 1 {
            b.height
        } else {
            1
        };
        proof {
            let rest = buttons@.skip(i as int);
            assert(rest[0] == buttons@[i as int]);
            assert(rest.drop_first() =~= buttons@.skip(i + 1));
        }
        if row >= b.row && row < b.row + h && col >= b.col && col < b.col + b.width {
            return Some(b.id);
        }
        i = i + 1;
    }
    proof {
        assert(buttons@.skip(i as int).len() == 0);
    }
    None
}

/// The shop item under a click at `(col, row)` in the shop panel `panel`: inside the
/// panel's border, below the two title lines, three lines an item, four items shown.
pub open spec fn shop_item_hit(panel: Area, col: int, row: int) -> Option<usize> {
    if !panel.holds(col, row) {
        None
    } else {
        let inner_y: int = if row >= panel.y + 1 {
            row - (panel.y + 1)
        } else {
            0
        };
        if inner_y < 2 || (inner_y - 2) / 3 >= 4 {
            None
        } else {
            Some(((inner_y - 2) / 3) as usize)
        }
    }
}

/// The shop item under a click (see `shop_item_hit`).
pub fn shop_item_at(panel: Area, col: u16, row: u16) -> (r: Option<usize>)
    requires
        panel.fits(),
        panel.y < u16::MAX,
    ensures
        r == shop_item_hit(panel, col as int, row as int),
{
    if col < panel.x || col >= panel.x + panel.width {
        return None;
    }
    if row < panel.y || row >= panel.y + panel.height {
        return None;
    }
    let inner_y = row.saturating_sub(panel.y + 1);
    let item_top: u16 = 2;
    if inner_y < item_top {
        return None;
    }
    let item_row = (inner_y - item_top) / 3;
    if item_row >= 4 {
        return None;
    }
    Some(item_row as usize)
}

/// The pager arrow under a click at `(col, row)`, when the bar has more than one page.
pub open spec fn pager_hit(pager: Option<PagerLayout>, col: int, row: int) -> Option<PagerAction> {
    match pager {
        Some(p) => if row == p.prev_rect.y && col == p.prev_rect.x && p.total_pages > 1 {
            Some(PagerAction::Prev)
        } else if row == p.next_rect.y && col == p.next_rect.x && p.total_pages > 1 {
            Some(PagerAction::Next)
        } else {
            None
        },
        None => None,
    }
}

/// The pager arrow under a click (see `pager_hit`).
pub fn pager_action_at(pager: &Option<PagerLayout>, col: u16, row: u16) -> (r: Option<PagerAction>)
    ensures
        r == pager_hit(*pager, col as int, row as int),
{
    match pager {
        Some(p) => {
            if row == p.prev_rect.y && col == p.prev_rect.x && p.total_pages > 1 {
                return Some(PagerAction::Prev);
            }
            if row == p.next_rect.y && col == p.next_rect.x && p.total_pages > 1 {
                return Some(PagerAction::Next);
            }
            None
        },
        None => None,
    }
}

/// The cell of the board under a click at `(col, row)`, for the board drawn in `grid`
/// with cells `cw` wide and `ch` high between one-cell rules: none on a rule or past the
/// ninth cell. (Columns and rows left of or above the board count as its first ones.)
pub open spec fn cell_hit(grid: Area, cw: int, ch: int, col: int, row: int) -> Option<(u8, u8)> {
    let gx: int = if col >= grid.x {
        col - grid.x
    } else {
        0
    };
    let gy: int = if row >= grid.y {
        row - grid.y
    } else {
        0
    };
    if gy % (ch + 1) == 0 || gy / (ch + 1) >= 9 || gx % (cw + 1) == 0 || gx / (cw + 1) >= 9 {
        None
    } else {
        Some(((gx / (cw + 1)) as u8, (gy / (ch + 1)) as u8))
    }
}

/// The cell of the board under a click (see `cell_hit`).
pub fn cell_at(grid: Area, cw: usize, ch: usize, col: u16, row: u16) -> (r: Option<(u8, u8)>)
    requires
        cw < u16::MAX,
        ch < u16::MAX,
    ensures
        r == cell_hit(grid, cw as int, ch as int, col as int, row as int),
        r matches Some(uv) ==> uv.0 < 9 && uv.1 < 9,
{
    let gx = col.saturating_sub(grid.x);
    let gy = row.saturating_sub(grid.y);
    let cw1 = cw as u16 + 1;
    let ch1 = ch as u16 + 1;
    if gy % ch1 == 0 {
        return None;
    }
    let v = gy / ch1;
    if v >= 9 {
        return None;
    }
    if gx % cw1 == 0 {
        return None;
    }
    let u = gx / cw1;
    if u >= 9 {
        return None;
    }
    Some((u as u8, v as u8))
}

/// The width and the height, in terminal cells, of the board drawn in `mode`: nine cells
/// and ten one-cell rules each way (taken to 16 bits).
pub open spec fn board_size(mode: RenderMode, standard_width: usize) -> (u16, u16) {
    let cw = mode_cell_width(mode, standard_width);
    let ch = mode_cell_height(mode);
    ((1 + 9 * (cw + 1)) as u16, (1 + 9 * (ch + 1)) as u16)
}

fn board_side(cell: usize) -> (r: u16)
    requires
        1 + 9 * (cell + 1) <= usize::MAX,
    ensures
        r == (1 + 9 * (cell + 1)) as u16,
{
    #[verifier::truncate]
    let r = (1 + 9 * (cell + 1)) as u16;
    r
}

/// Whether the screen `width` × `height` is too small for the board drawn in `mode` with
/// the side panel: the scrollbar mode never is; otherwise it needs the board's height and
/// eight lines more, and the board's width, two border columns and 24 columns more.
pub open spec fn too_small_for(mode: RenderMode, standard_width: usize, width: u16, height: u16) -> bool {
    let (w, h) = board_size(mode, standard_width);
    mode != RenderMode::Scrollbar && (height < h + 8 || width < w + 2 + 24)
}

/// Whether the board drawn in `mode` needs the scrollbar mode on a screen `width` ×
/// `height` (see `too_small_for`).
pub fn needs_scrollbar_mode(mode: RenderMode, standard_width: usize, width: u16, height: u16) -> (r: bool)
    requires
        1 + 9 * (standard_width + 1) <= usize::MAX,
        board_size(mode, standard_width).0 + 26 <= u16::MAX,
        board_size(mode, standard_width).1 + 8 <= u16::MAX,
    ensures
        r == too_small_for(mode, standard_width, width, height),
{
    if mode == RenderMode::Scrollbar {
        return false;
    }
    let cw = mode.cell_width_for(standard_width);
    let ch = mode.cell_height();
    let grid_h = board_side(ch);
    let grid_w = board_side(cw);
    let center_panel_w = grid_w + 2;
    let min_h: u16 = grid_h + 8;
    let min_w: u16 = center_panel_w + 24;
    height < min_h || width < min_w
}

/// The widths of buttons `i..j` with one column after each.
pub open spec fn sum_plus(ws: Seq<u16>, i: int, j: int) -> int
    decreases j - i,
{
    if j <= i {
        0
    } else {
        sum_plus(ws, i, j - 1) + ws[j - 1] + 1
    }
}

/// The width of buttons `i..j` side by side, one column apart.
pub open spec fn run_width(ws: Seq<u16>, i: int, j: int) -> int {
    if sum_plus(ws, i, j) > 0 {
        sum_plus(ws, i, j) - 1
    } else {
        0
    }
}

/// How many buttons from the `k`-th on, counted from the first, fit side by side in
/// `avail` columns, filling greedily.
pub open spec fn greedy_count(ws: Seq<u16>, avail: int, k: nat) -> nat
    decreases ws.len() - k,
{
    if k >= ws.len() || sum_plus(ws, 0, (k + 1) as int) - 1 > avail {
        k
    } else {
        greedy_count(ws, avail, k + 1)
    }
}

/// Whether all the buttons fit on one page of the bar `inner`.
pub open spec fn bar_single(ws: Seq<u16>, inner: Area) -> bool {
    (run_width(ws, 0, ws.len() as int) as u16) <= inner.width
}

/// The columns a page of buttons may take: the whole bar, or what the pager leaves.
pub open spec fn bar_avail(ws: Seq<u16>, inner: Area) -> int {
    if bar_single(ws, inner) {
        inner.width as int
    } else if inner.width >= 7 {
        inner.width - 7
    } else {
        0
    }
}

/// How many buttons a page holds (all of them when not even one fits).
pub open spec fn bar_capacity(ws: Seq<u16>, inner: Area) -> int {
    let c = greedy_count(ws, bar_avail(ws, inner), 0);
    if c == 0 {
        ws.len() as int
    } else {
        c as int
    }
}

/// The number of pages (taken to 16 bits).
pub open spec fn bar_pages(ws: Seq<u16>, inner: Area) -> u16 {
    ((ws.len() + bar_capacity(ws, inner) - 1) / bar_capacity(ws, inner)) as u16
}

/// The page shown: the one asked for, or the last page.
pub open spec fn bar_page(ws: Seq<u16>, inner: Area, page: u16) -> int {
    let last: int = if bar_pages(ws, inner) >= 1 {
        bar_pages(ws, inner) - 1
    } else {
        0
    };
    if page <= last {
        page as int
    } else {
        last
    }
}

/// The first button shown.
pub open spec fn bar_start(ws: Seq<u16>, inner: Area, page: u16) -> int {
    bar_page(ws, inner, page) * bar_capacity(ws, inner)
}

/// The end of the buttons shown.
pub open spec fn bar_end(ws: Seq<u16>, inner: Area, page: u16) -> int {
    let e = bar_start(ws, inner, page) + bar_capacity(ws, inner);
    if e <= ws.len() {
        e
    } else {
        ws.len() as int
    }
}

/// The width of the buttons shown.
pub open spec fn bar_visible_w(ws: Seq<u16>, inner: Area, page: u16) -> int {
    let (i, j) = (bar_start(ws, inner, page), bar_end(ws, inner, page));
    if i < j {
        run_width(ws, i, j)
    } else {
        0
    }
}

/// The column of the first button shown: centred in the bar, or between the pager's
/// arrows (and not left of the first).
pub open spec fn bar_x(ws: Seq<u16>, inner: Area, page: u16) -> int {
    let vw = bar_visible_w(ws, inner, page) as u16;
    if bar_single(ws, inner) {
        inner.x + (if inner.width >= vw {
            inner.width - vw
        } else {
            0
        }) / 2
    } else {
        let left = inner.x + 1;
        let right: int = inner.x + (if inner.width >= 1 {
            inner.width - 1
        } else {
            0
        });
        let start = left + (if right >= left + vw {
            right - (left + vw)
        } else {
            0
        }) / 2;
        if start >= left {
            start
        } else {
            left
        }
    }
}

/// The pager, when the buttons take more than one page: the arrows at both ends of the
/// bar's middle line and the page number after the left arrow.
pub open spec fn bar_pager(ws: Seq<u16>, inner: Area) -> Option<PagerLayout> {
    if bar_single(ws, inner) {
        None
    } else {
        let y = (inner.y + (if inner.height >= 1 {
            inner.height - 1
        } else {
            0
        }) / 2) as u16;
        let next_x = (inner.x + (if inner.width >= 1 {
            inner.width - 1
        } else {
            0
        })) as u16;
        Some(
            PagerLayout {
                prev_rect: Area { x: inner.x, y, width: 1, height: 1 },
                next_rect: Area { x: next_x, y, width: 1, height: 1 },
                page_label_rect: Area { x: (inner.x + 2) as u16, y, width: 3, height: 1 },
                total_pages: bar_pages(ws, inner),
            },
        )
    }
}

/// The button bar laid out on one page.
pub struct BarLayout {
    /// How many buttons a page holds.
    pub page_capacity: usize,
    pub total_pages: u16,
    /// The page shown (the one asked for, kept within the pages).
    pub current_page: u16,
    /// The buttons shown are `start..end`.
    pub start: usize,
    pub end: usize,
    /// The column of the first button shown.
    pub bar_x: u16,
    /// The column of each button shown.
    pub cols: Vec<u16>,
    pub pager: Option<PagerLayout>,
}

/// The bar's coordinates stay within the terminal's for the page asked for.
pub open spec fn bar_fits(ws: Seq<u16>, inner: Area, page: u16) -> bool {
    &&& inner.fits()
    &&& inner.x + 2 <= u16::MAX
    &&& !bar_single(ws, inner) ==> inner.x + 1 + (bar_visible_w(ws, inner, page) as u16) <= u16::MAX
    &&& bar_x(ws, inner, page) + sum_plus(ws, bar_start(ws, inner, page), bar_end(ws, inner, page)) <= u16::MAX
}

proof fn lemma_sum_plus_split(ws: Seq<u16>, i: int, j: int, k: int)
    requires
        i <= j <= k,
    ensures
        sum_plus(ws, i, k) == sum_plus(ws, i, j) + sum_plus(ws, j, k),
    decreases k - j,
{
    if k > j {
        lemma_sum_plus_split(ws, i, j, k - 1);
    }
}

proof fn lemma_sum_plus_grows(ws: Seq<u16>, i: int, j: int)
    requires
        i <= j,
    ensures
        sum_plus(ws, i, j) >= j - i,
    decreases j - i,
{
    if j > i {
        lemma_sum_plus_grows(ws, i, j - 1);
    }
}

fn widths_sum(ws: &Vec<u16>, i: usize, j: usize) -> (r: usize)
    requires
        i <= j <= ws@.len(),
        sum_plus(ws@, 0, ws@.len() as int) <= usize::MAX,
    ensures
        r == sum_plus(ws@, i as int, j as int),
{
    proof {
        lemma_sum_plus_split(ws@, 0, i as int, ws@.len() as int);
        lemma_sum_plus_split(ws@, i as int, j as int, ws@.len() as int);
        lemma_sum_plus_grows(ws@, 0, i as int);
        lemma_sum_plus_grows(ws@, j as int, ws@.len() as int);
    }
    let mut total: usize = 0;
    let mut k: usize = i;
    while k < j
        invariant
            i <= k <= j,
            j <= ws@.len(),
            total == sum_plus(ws@, i as int, k as int),
            sum_plus(ws@, i as int, j as int) <= usize::MAX,
        decreases j - k,
    {
        proof {
            lemma_sum_plus_split(ws@, i as int, k + 1, j as int);
            lemma_sum_plus_grows(ws@, k + 1, j as int);
        }
        total = total + ws[k] as usize + 1;
        k = k + 1;
    }
    total
}

/// Lays out the button bar `inner` for buttons `ws` wide on page `page`: a page holds the
/// buttons that fit side by side (leaving room for the pager when they do not all fit);
/// the page asked for is kept within the pages; the buttons shown are centred.
#[verifier::rlimit(40)]
pub fn layout_button_bar(ws: &Vec<u16>, inner: Area, page: u16) -> (r: BarLayout)
    requires
        ws@.len() > 0,
        2 * ws@.len() <= usize::MAX,
        sum_plus(ws@, 0, ws@.len() as int) <= usize::MAX,
        bar_fits(ws@, inner, page),
    ensures
        r.page_capacity == bar_capacity(ws@, inner),
        r.total_pages == bar_pages(ws@, inner),
        r.current_page == bar_page(ws@, inner, page),
        r.start == bar_start(ws@, inner, page),
        r.end == bar_end(ws@, inner, page),
        r.bar_x == bar_x(ws@, inner, page),
        r.cols@.len() == r.end - r.start,
        forall|k: int| 0 <= k < r.cols@.len() ==> #[trigger] r.cols@[k] == r.bar_x + sum_plus(ws@, r.start as int, r.start + k),
        r.pager == bar_pager(ws@, inner),
{
    let n = ws.len();
    let total_sum = widths_sum(ws, 0, n);
    let total_w = total_sum.saturating_sub(1);
    #[verifier::truncate]
    let total_w16 = total_w as u16;
    let single = total_w16 <= inner.width;
    let available = if single {
        inner.width
    } else {
        inner.width.saturating_sub(7)
    };
    let mut cap: usize = 0;
    let mut running: usize = 0;
    proof {
        lemma_sum_plus_grows(ws@, 0, n as int);
    }
    while cap < n
        invariant_except_break
            cap <= n,
            n == ws@.len(),
            running == (if cap == 0 {
                0
            } else {
                sum_plus(ws@, 0, cap as int) - 1
            }),
            greedy_count(ws@, available as int, 0) == greedy_count(ws@, available as int, cap as nat),
            sum_plus(ws@, 0, n as int) <= usize::MAX,
            running <= available,
        ensures
            cap <= n,
            greedy_count(ws@, available as int, 0) == cap,
        decreases n - cap,
    {
        let add: usize = if cap == 0 {
            ws[cap] as usize
        } else {
            1 + ws[cap] as usize
        };
        proof {
            lemma_sum_plus_split(ws@, 0, cap + 1, n as int);
            lemma_sum_plus_grows(ws@, cap + 1, n as int);
            assert(sum_plus(ws@, 0, cap + 1) == sum_plus(ws@, 0, cap as int) + ws@[cap as int] + 1);
            if cap == 0 {
                assert(sum_plus(ws@, 0, 0) == 0);
            }
            assert(running + add == sum_plus(ws@, 0, cap + 1) - 1);
        }
        if running + add > available as usize {
            break;
        }
        running = running + add;
        cap = cap + 1;
    }
    if cap == 0 {
        cap = n;
    }
    let q = (n + cap - 1) / cap;
    #[verifier::truncate]
    let total_pages = q as u16;
    proof {
        assert((q as u16) as usize <= q) by (bit_vector);
    }
    let last = (total_pages as usize).saturating_sub(1);
    let current: usize = if (page as usize) <= last {
        page as usize
    } else {
        last
    };
    proof {
        assert(current * cap <= n) by (nonlinear_arith)
            requires
                current <= last,
                last + 1 <= q || last == 0,
                q == (n + cap - 1) as int / cap as int,
                cap >= 1,
                n >= 1,
        {
        }
    }
    let start = current * cap;
    let end = if start + cap <= n {
        start + cap
    } else {
        n
    };
    let vis_sum = widths_sum(ws, start, end);
    let visible_w = if start < end {
        vis_sum.saturating_sub(1)
    } else {
        0
    };
    #[verifier::truncate]
    let vw16 = visible_w as u16;
    let mut pager: Option<PagerLayout> = None;
    let bar_col: u16;
    if single {
        bar_col = inner.x + (inner.width.saturating_sub(vw16)) / 2;
    } else {
        let prev_x = inner.x;
        let page_y = inner.y + (inner.height.saturating_sub(1)) / 2;
        let next_x = inner.x + inner.width.saturating_sub(1);
        let label_x = inner.x + 2;
        pager = Some(
            PagerLayout {
                prev_rect: Area { x: prev_x, y: page_y, width: 1, height: 1 },
                next_rect: Area { x: next_x, y: page_y, width: 1, height: 1 },
                page_label_rect: Area { x: label_x, y: page_y, width: 3, height: 1 },
                total_pages,
            },
        );
        let left = prev_x + 1;
        let right = next_x;
        let centre = left + (right.saturating_sub(left + vw16)) / 2;
        bar_col = if centre >= left {
            centre
        } else {
            left
        };
    }
    let mut cols: Vec<u16> = Vec::new();
    let mut col = bar_col;
    let mut k: usize = start;
    while k < end
        invariant
            start <= k <= end,
            end <= ws@.len(),
            cols@.len() == k - start,
            col == bar_col + sum_plus(ws@, start as int, k as int),
            bar_col + sum_plus(ws@, start as int, end as int) <= u16::MAX,
            forall|i: int| 0 <= i < cols@.len() ==> #[trigger] cols@[i] == bar_col + sum_plus(ws@, start as int, start + i),
        decreases end - k,
    {
        proof {
            lemma_sum_plus_split(ws@, start as int, k + 1, end as int);
            lemma_sum_plus_grows(ws@, k + 1, end as int);
        }
        cols.push(col);
        col = col + ws[k] + 1;
        k = k + 1;
    }
    BarLayout {
        page_capacity: cap,
        total_pages,
        current_page: current as u16,
        start,
        end,
        bar_x: bar_col,
        cols,
        pager,
    }
}

/// The widths of the three columns of the game screen on a screen `total` columns wide,
/// for a middle panel at least `center_panel_w` wide and a cube `cube_w` wide: none when
/// the screen is narrower than the three minimums (24 on the left, the cube and 4 on the
/// right); else the left column takes what the others leave, kept within 24 to 30, the
/// middle three quarters of the rest (at least its minimum) and the right the remainder
/// (at least its minimum).
pub open spec fn columns_for(total: u16, center_panel_w: u16, cube_w: u16) -> Option<(u16, u16, u16)> {
    let right_min = cube_w + 4;
    if total < 24 + right_min + center_panel_w {
        None
    } else {
        let spare: int = if total >= center_panel_w + right_min {
            total - (center_panel_w + right_min)
        } else {
            0
        };
        let left: int = if spare > 30 {
            30
        } else if spare < 24 {
            24
        } else {
            spare
        };
        let side = total - left;
        let middle = side * 3 / 4;
        let center: int = if middle >= center_panel_w {
            middle
        } else {
            center_panel_w as int
        };
        let rest = total - left - center;
        let right: int = if rest >= right_min {
            rest
        } else {
            right_min
        };
        Some((left as u16, center as u16, right as u16))
    }
}

/// The widths of the three columns of the game screen (see `columns_for`).
pub fn column_widths(total: u16, center_panel_w: u16, cube_w: u16) -> (r: Option<(u16, u16, u16)>)
    requires
        center_panel_w + cube_w + 4 <= u16::MAX,
        3 * total <= u16::MAX,
    ensures
        r == columns_for(total, center_panel_w, cube_w),
{
    let left_min: u16 = 24;
    let left_max: u16 = 30;
    let right_min: u16 = cube_w + 4;
    let min_sum = left_min.saturating_add(right_min).saturating_add(center_panel_w);
    if total < min_sum {
        return None;
    }
    let spare = total.saturating_sub(center_panel_w + right_min);
    let capped = if spare < left_max {
        spare
    } else {
        left_max
    };
    let left = if capped > left_min {
        capped
    } else {
        left_min
    };
    let side = total.saturating_sub(left);
    let middle = side * 3 / 4;
    let center = if middle > center_panel_w {
        middle
    } else {
        center_panel_w
    };
    let rest = total - left - center;
    let right = if rest > right_min {
        rest
    } else {
        right_min
    };
    Some((left, center, right))
}

/// Where a row of the settings popup stands.
#[derive(Debug, Clone, Copy, PartialEq, Eq, Structural)]
pub struct FieldRow {
    /// The field shown on the row.
    pub index: usize,
    pub row_y: u16,
    pub label_rect: Area,
    pub left_arrow_rect: Area,
    pub value_rect: Area,
    pub right_arrow_rect: Area,
}

/// The settings popup laid out.
pub struct SettingsPopupLayout {
    pub popup_area: Area,
    pub content_area: Area,
    /// The first field shown.
    pub scroll: u16,
    /// The rows shown, top down.
    pub fields: Vec<FieldRow>,
}

/// The height of the popup's list: the fields and two more lines, within 6 and the screen
/// less four lines (at least 3).
pub open spec fn popup_content_h(area: Area, total: int) -> int {
    let max_h: int = if area.height - 4 > 3 {
        area.height - 4
    } else {
        3
    };
    let want = total + 2;
    if want < 6 {
        6
    } else if want > max_h {
        max_h
    } else {
        want
    }
}

/// The popup: 46 columns wide (at most the screen less two, at least 10), its list and
/// four more lines high, centred.
pub open spec fn popup_area_for(area: Area, total: int) -> Area {
    let box_h = popup_content_h(area, total) + 4;
    let narrow: int = if area.width >= 2 {
        area.width - 2
    } else {
        0
    };
    let box_w: int = if 46 <= (if narrow > 10 {
        narrow
    } else {
        10
    }) {
        46
    } else if narrow > 10 {
        narrow
    } else {
        10
    };
    let x = area.x + (if area.width >= box_w {
        area.width - box_w
    } else {
        0
    }) / 2;
    let y = area.y + (if area.height >= box_h {
        area.height - box_h
    } else {
        0
    }) / 2;
    Area { x: x as u16, y: y as u16, width: box_w as u16, height: box_h as u16 }
}

/// The list inside the popup's border, less the hint line at the bottom.
pub open spec fn popup_content_for(popup: Area) -> Area {
    let w: int = if popup.width >= 2 {
        popup.width - 2
    } else {
        0
    };
    let h: int = if popup.height >= 3 {
        popup.height - 3
    } else {
        0
    };
    Area { x: (popup.x + 1) as u16, y: (popup.y + 1) as u16, width: w as u16, height: h as u16 }
}

/// The first field shown: the scroll moved just enough to show the selected field, and
/// kept within the fields.
pub open spec fn popup_scroll(selected: int, scroll: int, visible: int, total: int) -> int {
    let s1 = if selected < scroll {
        selected
    } else {
        scroll
    };
    let s2 = if selected >= s1 + visible {
        selected - visible + 1
    } else {
        s1
    };
    let s3 = if s2 < 0 {
        0
    } else {
        s2
    };
    let max_scroll = if total - visible > 0 {
        total - visible
    } else {
        0
    };
    if s3 > max_scroll {
        max_scroll
    } else {
        s3
    }
}

/// The row of field `i` on line `y` of list `content`: its label, then padding that puts
/// the arrows and the value at the right end, the left arrow, a space, the value, a space
/// and the right arrow.
pub open spec fn field_row(content: Area, i: int, y: int, lw: int, vw: int) -> FieldRow {
    let pad: int = if content.width - lw - vw - 4 > 0 {
        content.width - lw - vw - 4
    } else {
        0
    };
    let left_x = content.x + lw + pad;
    let value_x = left_x + 2;
    let right_x = value_x + vw + 2;
    FieldRow {
        index: i as usize,
        row_y: y as u16,
        label_rect: Area { x: content.x, y: y as u16, width: lw as u16, height: 1 },
        left_arrow_rect: Area { x: left_x as u16, y: y as u16, width: 1, height: 1 },
        value_rect: Area { x: value_x as u16, y: y as u16, width: vw as u16, height: 1 },
        right_arrow_rect: Area { x: right_x as u16, y: y as u16, width: 1, height: 1 },
    }
}

/// The coordinates of the popup stay within the terminal's.
pub open spec fn popup_fits(area: Area, lws: Seq<u16>, vws: Seq<u16>) -> bool {
    &&& area.fits()
    &&& area.height >= 10
    &&& lws.len() == vws.len()
    &&& lws.len() + 6 <= u16::MAX
    &&& area.x + area.width + 50 <= u16::MAX
    &&& forall|i: int| 0 <= i < lws.len() ==> area.x + area.width + lws[i] + vws[i] + 60 <= u16::MAX
}

/// Lays out the settings popup on screen `area` for fields whose labels and values are
/// `lws` and `vws` columns wide, the field `selected` to be shown and the list scrolled to
/// `scroll` before.
pub fn settings_popup_layout(area: Area, lws: &Vec<u16>, vws: &Vec<u16>, selected: usize, scroll: u16) -> (r: SettingsPopupLayout)
    requires
        popup_fits(area, lws@, vws@),
        selected < lws@.len(),
    ensures
        r.popup_area == popup_area_for(area, lws@.len() as int),
        r.content_area == popup_content_for(r.popup_area),
        r.scroll == popup_scroll(selected as int, scroll as int, r.content_area.height as int, lws@.len() as int),
        r.fields@.len() <= lws@.len(),
        forall|k: int| 0 <= k < r.fields@.len() ==> #[trigger] r.fields@[k] == field_row(
            r.content_area,
            r.scroll + k,
            r.content_area.y + k,
            lws@[r.scroll + k] as int,
            vws@[r.scroll + k] as int,
        ),
        r.fields@.len() == (if lws@.len() - r.scroll < r.content_area.height {
            lws@.len() - r.scroll
        } else {
            r.content_area.height as int
        }),
{
    let total = lws.len();
    let max_h: u16 = if area.height - 4 > 3 {
        area.height - 4
    } else {
        3
    };
    let want = total as u16 + 2;
    let content_h = if want < 6 {
        6
    } else if want > max_h {
        max_h
    } else {
        want
    };
    let box_h = content_h + 4;
    let narrow = area.width.saturating_sub(2);
    let floor = if narrow > 10 {
        narrow
    } else {
        10
    };
    let box_w: u16 = if 46 <= floor {
        46
    } else {
        floor
    };
    let popup_area = Area {
        x: area.x + area.width.saturating_sub(box_w) / 2,
        y: area.y + area.height.saturating_sub(box_h) / 2,
        width: box_w,
        height: box_h,
    };
    let content = Area {
        x: popup_area.x + 1,
        y: popup_area.y + 1,
        width: popup_area.width.saturating_sub(2),
        height: popup_area.height.saturating_sub(3),
    };
    let visible = content.height as usize;
    let mut sc = scroll as usize;
    if selected < sc {
        sc = selected;
    }
    if selected >= sc + visible {
        sc = selected - visible + 1;
    }
    let max_scroll = if total > visible {
        total - visible
    } else {
        0
    };
    if sc > max_scroll {
        sc = max_scroll;
    }
    let mut fields: Vec<FieldRow> = Vec::new();
    let mut k: usize = 0;
    while sc + k < total && k < visible
        invariant
            total == lws@.len(),
            lws@.len() == vws@.len(),
            sc <= total,
            k <= visible,
            sc + k <= total,
            visible == content.height,
            content.y + content.height <= u16::MAX,
            popup_fits(area, lws@, vws@),
            content.x + content.width <= area.x + area.width + 50,
            fields@.len() == k,
            forall|j: int| 0 <= j < k ==> #[trigger] fields@[j] == field_row(content, sc + j, content.y + j, lws@[sc + j] as int, vws@[sc + j] as int),
        decreases visible - k,
    {
        let i = sc + k;
        let lw = lws[i];
        let vw = vws[i];
        let y = content.y + k as u16;
        let wide = (content.width as u32) > (lw as u32) + (vw as u32) + 4;
        let pad: u16 = if wide {
            content.width - lw - vw - 4
        } else {
            0
        };
        let left_x = content.x + lw + pad;
        let value_x = left_x + 2;
        let right_x = value_x + vw + 2;
        fields.push(
            FieldRow {
                index: i,
                row_y: y,
                label_rect: Area { x: content.x, y, width: lw, height: 1 },
                left_arrow_rect: Area { x: left_x, y, width: 1, height: 1 },
                value_rect: Area { x: value_x, y, width: vw, height: 1 },
                right_arrow_rect: Area { x: right_x, y, width: 1, height: 1 },
            },
        );
        k = k + 1;
    }
    SettingsPopupLayout { popup_area, content_area: content, scroll: sc as u16, fields }
}

/// `a - b`, or 0 when `b` is larger (what `saturating_sub` gives on unsigned numbers).
pub open spec fn less(a: int, b: int) -> int {
    if a >= b {
        a - b
    } else {
        0
    }
}

/// Where the parts of the main menu stand on the screen.
#[derive(Debug, Clone, Copy, PartialEq, Eq, Structural)]
pub struct MenuLayout {
    /// The column and first row of the logo.
    pub logo_x: u16,
    pub logo_y: u16,
    /// The box of menu items (its height is the number of items and two).
    pub box_x: u16,
    pub box_y: u16,
    pub box_w: u16,
    /// Whether the side bar of victories fits beside the box.
    pub has_sidebar: bool,
    /// The side bar's column and height, and how many victories it lists.
    pub sidebar_x: u16,
    pub sidebar_h: u16,
    pub list_rows: u16,
}

/// The widest menu text and four more, or 20 when there is none.
pub open spec fn widest_item(widths: Seq<usize>) -> int
    decreases widths.len(),
{
    if widths.len() == 0 {
        20
    } else {
        let rest = widest_item(widths.drop_last());
        let last = widths.last() + 4;
        if widths.len() == 1 || last > rest {
            last
        } else {
            rest
        }
    }
}

/// The width of the side bar of victories.
pub open spec fn sidebar_width() -> int {
    28
}

/// The layout of the main menu on `area` for a logo of `logo_h` lines and `logo_w` columns,
/// items `widths` wide on screen, and `victories` won games: the logo, a gap, the item box
/// and the hint line are centred as a block; the box is four wider than its widest text
/// and four (at most the screen); the side bar stands two to its right when both fit, the
/// pair centred, else the box alone is centred; the side bar lists as many victories as fit
/// below five rows of the box's top, less two.
pub open spec fn menu_layout_for(area: Area, widths: Seq<usize>, logo_h: u16, logo_w: u16, victories: usize) -> MenuLayout {
    let total_h = logo_h + 1 + widths.len() + 2 + 2 + 1;
    let start_y = area.y + less(area.height as int, total_h) / 2;
    let box_y = start_y + logo_h + 1;
    let box_w = if widest_item(widths) + 4 <= area.width {
        widest_item(widths) + 4
    } else {
        area.width as int
    };
    let total_w = box_w + 2 + sidebar_width();
    let has_sidebar = area.width >= total_w;
    let box_x = if has_sidebar {
        area.x + less(area.width as int, total_w) / 2
    } else {
        area.x + less(area.width as int, box_w) / 2
    };
    let rows_free = less(less(area.y + area.height, box_y + 5), 2);
    let list_rows = if victories <= rows_free {
        victories as int
    } else {
        rows_free
    };
    MenuLayout {
        logo_x: (area.x + less(area.width as int, logo_w as int) / 2) as u16,
        logo_y: start_y as u16,
        box_x: box_x as u16,
        box_y: box_y as u16,
        box_w: box_w as u16,
        has_sidebar,
        sidebar_x: (box_x + box_w + 2) as u16,
        sidebar_h: (5 + list_rows + 1) as u16,
        list_rows: list_rows as u16,
    }
}

/// Whether the menu's numbers stay within the screen's coordinates: the area ends on the
/// screen, and the logo, items and rows below the box's top all fit.
pub open spec fn menu_fits(area: Area, widths: Seq<usize>, logo_h: u16) -> bool {
    &&& area.fits()
    &&& area.y + area.height + logo_h + widths.len() + 9 <= u16::MAX
    &&& area.x + area.width + 2 * sidebar_width() + 4 <= u16::MAX
    &&& forall|i: int| 0 <= i < widths.len() ==> #[trigger] widths[i] <= u16::MAX
}

/// Lays out the main menu (see `menu_layout_for`).
pub fn menu_layout(area: Area, widths: &Vec<usize>, logo_h: u16, logo_w: u16, victories: usize) -> (r: MenuLayout)
    requires
        menu_fits(area, widths@, logo_h),
    ensures
        r == menu_layout_for(area, widths@, logo_h, logo_w, victories),
{
    let n = widths.len();
    let total_h: u16 = logo_h + 1 + (n as u16) + 2 + 2 + 1;
    let start_y: u16 = area.y + area.height.saturating_sub(total_h) / 2;
    let box_y: u16 = start_y + logo_h + 1;
    let mut widest: usize = 20;
    let mut i: usize = 0;
    while i < n
        invariant
            n == widths@.len(),
            i <= n,
            forall|k: int| 0 <= k < widths@.len() ==> #[trigger] widths@[k] <= u16::MAX,
            widest == widest_item(widths@.take(i as int)),
            widest <= u16::MAX + 4,
        decreases n - i,
    {
        let w = widths[i] + 4;
        proof {
            assert(widths@.take(i as int + 1).drop_last() =~= widths@.take(i as int));
        }
        if i == 0 || w > widest {
            widest = w;
        }
        i = i + 1;
    }
    proof {
        assert(widths@.take(n as int) =~= widths@);
    }
    let box_w: u16 = if widest + 4 <= area.width as usize {
        (widest + 4) as u16
    } else {
        area.width
    };
    let total_w: u16 = box_w + 2 + 28;
    let has_sidebar = area.width >= total_w;
    let box_x: u16 = if has_sidebar {
        area.x + area.width.saturating_sub(total_w) / 2
    } else {
        area.x + area.width.saturating_sub(box_w) / 2
    };
    let rows_free: u16 = (area.y + area.height).saturating_sub(box_y + 5).saturating_sub(2);
    let list_rows: u16 = if victories <= rows_free as usize {
        victories as u16
    } else {
        rows_free
    };
    MenuLayout {
        logo_x: area.x + area.width.saturating_sub(logo_w) / 2,
        logo_y: start_y,
        box_x,
        box_y,
        box_w,
        has_sidebar,
        sidebar_x: box_x + box_w + 2,
        sidebar_h: 5 + list_rows + 1,
        list_rows,
    }
}

} // verus!
