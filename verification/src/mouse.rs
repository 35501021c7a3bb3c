//! The mouse: what programs are told of it, selections, links, and drags.
use crate::ipc;
use crate::pane;
use crate::pane::{Pane, PaneId, Tab, TabId};
use crate::tabs;
use crate::text;
use crate::view;
use crate::view::{Effect, HoveredUrl, KovaView, PointerState};
use vstd::prelude::*;

verus! {

// ---------------------------------------------------------------
// Reports
// ---------------------------------------------------------------

/// The modifiers of a mouse report.
pub open spec fn modifier_bits(shift: bool, option: bool, control: bool) -> u8 {
    ((if shift {
        4int
    } else {
        0
    }) + (if option {
        8int
    } else {
        0
    }) + (if control {
        16int
    } else {
        0
    })) as u8
}

/// The modifiers of a mouse report: shift is 4, option 8, control 16.
pub fn mouse_modifiers(shift: bool, option: bool, control: bool) -> (m: u8)
    ensures
        m == modifier_bits(shift, option, control),
{
    let mut m: u8 = 0;
    if shift {
        m = m + 4;
    }
    if option {
        m = m + 8;
    }
    if control {
        m = m + 16;
    }
    m
}

/// A mouse report: the button with the modifiers and the motion flag, the
/// cell, and whether the button went down or up.
pub open spec fn mouse_report(
    button: u8,
    mods: u8,
    col: u16,
    row: u16,
    press: bool,
    motion: bool,
) -> Seq<char> {
    let code = button | mods | (if motion {
        32u8
    } else {
        0u8
    });
    "\x1b[<"@ + text::decimal(code as nat) + ";"@ + text::decimal(col as nat) + ";"@
        + text::decimal(row as nat) + seq![
        if press {
            'M'
        } else {
            'm'
        },
    ]
}

/// The text of a mouse report. `button` is 0 for left, 1 for middle, 2 for
/// right, 3 for none, 64 and 65 for the wheel.
pub fn sgr_mouse(button: u8, mods: u8, col: u16, row: u16, press: bool, motion: bool) -> (s: String)
    ensures
        s@ == mouse_report(button, mods, col, row, press, motion),
{
    let flag: u8 = if motion {
        32
    } else {
        0
    };
    let code: u8 = button | mods | flag;
    let mut s = String::new();
    s.append("\x1b[<");
    text::push_decimal(&mut s, code as u64);
    s.append(";");
    text::push_decimal(&mut s, col as u64);
    s.append(";");
    text::push_decimal(&mut s, row as u64);
    s.push(
        if press {
            'M'
        } else {
            'm'
        },
    );
    assert(s@ =~= mouse_report(button, mods, col, row, press, motion));
    s
}

/// What a program asked to be told of the mouse.
#[derive(Clone, Copy, Debug, PartialEq, Eq, Structural)]
pub struct MouseMode {
    /// 0 for nothing, 1000 for buttons, 1002 for drags too, 1003 for every
    /// move.
    pub level: u16,
    /// The reports may have the extended form.
    pub sgr: bool,
}

/// The program is told of what asks for `level`.
pub open spec fn is_told_of(m: MouseMode, level: u16) -> bool {
    m.level >= level && m.sgr
}

/// Where a mouse event of a pane goes.
#[derive(Debug, PartialEq)]
pub enum MouseRoute {
    /// To the program, as the text.
    Program(String),
    /// Nowhere: the program takes it, but it hit no cell.
    Dropped,
    /// To the window.
    Window,
}

/// The button code of a button number.
pub open spec fn button_code(button: u8) -> u8 {
    if button < 2 {
        button
    } else {
        2
    }
}

/// Where an event goes that a program asked for at `level`.
pub open spec fn is_routed(
    r: MouseRoute,
    m: MouseMode,
    level: u16,
    cell: Option<(u16, u16)>,
    report: Seq<char>,
) -> bool {
    if is_told_of(m, level) {
        if cell is Some {
            r matches MouseRoute::Program(s) && s@ == report
        } else {
            r == MouseRoute::Dropped
        }
    } else {
        r == MouseRoute::Window
    }
}

/// The column of a cell.
pub open spec fn col_of(cell: Option<(u16, u16)>) -> u16 {
    match cell {
        Some((col, _)) => col,
        None => 0,
    }
}

/// The row of a cell.
pub open spec fn row_of(cell: Option<(u16, u16)>) -> u16 {
    match cell {
        Some((_, row)) => row,
        None => 0,
    }
}

/// Where a button's press, release or drag goes. `cell` is the cell under the
/// pointer.
pub fn route_button(
    m: MouseMode,
    button: u8,
    mods: u8,
    cell: Option<(u16, u16)>,
    press: bool,
    drag: bool,
) -> (r: MouseRoute)
    ensures
        is_routed(
            r,
            m,
            if drag {
                1002
            } else {
                1000
            },
            cell,
            mouse_report(button_code(button), mods, col_of(cell), row_of(cell), press, drag),
        ),
{
    let level: u16 = if drag {
        1002
    } else {
        1000
    };
    if m.level >= level && m.sgr {
        match cell {
            Some((col, row)) => {
                let code: u8 = if button < 2 {
                    button
                } else {
                    2
                };
                MouseRoute::Program(sgr_mouse(code, mods, col, row, press, drag))
            },
            None => MouseRoute::Dropped,
        }
    } else {
        MouseRoute::Window
    }
}

/// Where a move without a button goes.
pub fn route_move(m: MouseMode, mods: u8, cell: Option<(u16, u16)>) -> (r: MouseRoute)
    ensures
        is_routed(r, m, 1003, cell, mouse_report(3, mods, col_of(cell), row_of(cell), true, true)),
{
    if m.level >= 1003 && m.sgr {
        match cell {
            Some((col, row)) => MouseRoute::Program(sgr_mouse(3, mods, col, row, true, true)),
            None => MouseRoute::Dropped,
        }
    } else {
        MouseRoute::Window
    }
}

/// A text again and again.
pub open spec fn repeated(s: Seq<char>, n: nat) -> Seq<char>
    decreases n,
{
    if n == 0 {
        seq![]
    } else {
        repeated(s, (n - 1) as nat) + s
    }
}

/// How many lines a scroll moves, whichever way.
pub open spec fn line_count(lines: i32) -> nat {
    if lines >= 0 {
        lines as nat
    } else {
        -lines as nat
    }
}

/// Where a scroll by a number of lines goes: a program is told of each line.
pub fn route_wheel(m: MouseMode, lines: i32, mods: u8, cell: Option<(u16, u16)>) -> (r: MouseRoute)
    ensures
        is_routed(
            r,
            m,
            1000,
            cell,
            repeated(
                mouse_report(
                    if lines > 0 {
                        64
                    } else {
                        65
                    },
                    mods,
                    col_of(cell),
                    row_of(cell),
                    true,
                    false,
                ),
                line_count(lines),
            ),
        ),
{
    if m.level >= 1000 && m.sgr {
        match cell {
            Some((col, row)) => {
                let button: u8 = if lines > 0 {
                    64
                } else {
                    65
                };
                let one = sgr_mouse(button, mods, col, row, true, false);
                let count: i64 = if lines >= 0 {
                    lines as i64
                } else {
                    0 - lines as i64
                };
                let mut s = String::new();
                let mut i: i64 = 0;
                while i < count
                    invariant
                        0 <= i <= count,
                        s@ == repeated(one@, i as nat),
                    decreases count - i,
                {
                    s.append(one.as_str());
                    i = i + 1;
                }
                MouseRoute::Program(s)
            },
            None => MouseRoute::Dropped,
        }
    } else {
        MouseRoute::Window
    }
}

/// The axis a trackpad gesture is held to.
#[derive(Clone, Copy, Debug, PartialEq, Eq, Structural)]
pub enum ScrollAxisLock {
    Free,
    Vertical,
    Horizontal,
}

/// What the phases of a trackpad gesture say.
#[derive(Clone, Copy, Debug, PartialEq, Eq, Structural)]
pub struct ScrollPhases {
    pub began: bool,
    /// The fingers left.
    pub ended: bool,
    /// The gesture goes on by itself.
    pub momentum: bool,
    pub momentum_ended: bool,
}

/// The axis a gesture is held to after an event: picked when it begins, let go
/// of when it ends, or when the momentum it left does.
pub fn axis_lock(lock: ScrollAxisLock, p: ScrollPhases, vertical: bool) -> (r: ScrollAxisLock)
    ensures
        r == (if p.began {
            if vertical {
                ScrollAxisLock::Vertical
            } else {
                ScrollAxisLock::Horizontal
            }
        } else if (p.ended && !p.momentum) || p.momentum_ended {
            ScrollAxisLock::Free
        } else {
            lock
        }),
{
    if p.began {
        if vertical {
            ScrollAxisLock::Vertical
        } else {
            ScrollAxisLock::Horizontal
        }
    } else if p.ended && !p.momentum {
        ScrollAxisLock::Free
    } else if p.momentum_ended {
        ScrollAxisLock::Free
    } else {
        lock
    }
}

/// Lines per frame a drag scrolls, from how many cells the pointer is out of
/// the pane: between 1 and 10, negative upwards.
pub fn drag_speed(cells: i32, above: bool) -> (speed: i32)
    ensures
        ({
            let n = if cells < 1 {
                1
            } else if cells > 10 {
                10
            } else {
                cells as int
            };
            speed == (if above {
                -n
            } else {
                n
            })
        }),
{
    let n: i32 = if cells < 1 {
        1
    } else if cells > 10 {
        10
    } else {
        cells
    };
    if above {
        -n
    } else {
        n
    }
}

// ---------------------------------------------------------------
// Selections
// ---------------------------------------------------------------

/// A cell of a pane, counted from the first line kept.
#[derive(Clone, Copy, Debug, PartialEq, Eq, Structural)]
pub struct GridPos {
    pub line: usize,
    pub col: u16,
}

/// What a terminal shows: its grid, how far it is scrolled back, and the rows
/// left blank above its first line.
#[derive(Clone, Copy, Debug, PartialEq, Eq, Structural)]
pub struct GridView {
    pub cols: u16,
    pub rows: u16,
    pub blank_rows: u16,
    pub scrollback: usize,
    pub offset: usize,
}

impl GridView {
    /// The lines on screen are lines that are kept.
    pub open spec fn wf(self) -> bool {
        &&& self.offset <= self.scrollback
        &&& self.scrollback + self.rows <= usize::MAX
    }
}

/// The column `col` cells right of the grid's left edge, the last one past its
/// end.
pub open spec fn kept_col(col: int, cols: u16) -> int {
    let last = if cols == 0 {
        0
    } else {
        cols - 1
    };
    if col < last {
        col
    } else {
        last
    }
}

/// The row and column on screen of the cell `col` right of and `row` below the
/// grid's corner, if it is on the grid.
pub open spec fn cell_on_screen(g: GridView, col: int, row: int) -> Option<(int, int)> {
    let r = row - g.blank_rows;
    if r < 0 || col < 0 || r >= g.rows {
        None
    } else {
        Some((r, kept_col(col, g.cols)))
    }
}

/// Pick the column, the last one past the grid's end.
fn keep_col(col: i32, cols: u16) -> (c: u16)
    requires
        col >= 0,
    ensures
        c == kept_col(col as int, cols),
{
    let last: u16 = if cols == 0 {
        0
    } else {
        cols - 1
    };
    if col < last as i32 {
        col as u16
    } else {
        last
    }
}

/// The row and column on screen of the cell `col` right of and `row` below the
/// grid's corner; nothing outside the grid.
pub fn visible_cell(g: GridView, col: i32, row: i32) -> (r: Option<(usize, u16)>)
    ensures
        match cell_on_screen(g, col as int, row as int) {
            Some(c) => r matches Some(x) && x.0 == c.0 && x.1 == c.1,
            None => r is None,
        },
{
    if col < 0 || row < g.blank_rows as i32 {
        return None;
    }
    let below: i32 = row - g.blank_rows as i32;
    if below >= g.rows as i32 {
        return None;
    }
    Some((below as usize, keep_col(col, g.cols)))
}

/// The cell of the kept lines `col` right of and `row` below the grid's
/// corner; nothing outside the grid.
pub fn grid_pos_at(g: GridView, col: i32, row: i32) -> (r: Option<GridPos>)
    requires
        g.wf(),
    ensures
        match cell_on_screen(g, col as int, row as int) {
            Some(c) => r matches Some(p) && p.line == g.scrollback - g.offset + c.0 && p.col
                == c.1,
            None => r is None,
        },
{
    match visible_cell(g, col, row) {
        Some((line, c)) => Some(GridPos { line: g.scrollback - g.offset + line, col: c }),
        None => None,
    }
}

/// The column and row, counted from one, a program is told of for the cell
/// `col` right of and `row` below the grid's corner: the last row past its
/// end, nothing before its start.
pub fn report_cell(g: GridView, col: i32, row: i32) -> (r: Option<(u16, u16)>)
    ensures
        if col < 0 || row < g.blank_rows {
            r is None
        } else {
            r matches Some(x) && x.0 == kept_col(col as int, g.cols) + 1 && x.1 == kept_col(
                row - g.blank_rows,
                g.rows,
            ) + 1
        },
{
    if col < 0 || row < g.blank_rows as i32 {
        return None;
    }
    let below: i32 = row - g.blank_rows as i32;
    Some((keep_col(col, g.cols) + 1, keep_col(below, g.rows) + 1))
}

#[derive(Clone, Copy, Debug, PartialEq, Eq, Structural)]
pub enum SelectionMode {
    Normal,
    Word,
    Line,
}

/// What is selected, from the cell where it started to the one where it ends.
#[derive(Clone, Copy, Debug, PartialEq, Eq, Structural)]
pub struct Selection {
    pub anchor: GridPos,
    pub end: GridPos,
    pub mode: SelectionMode,
}

/// What clicking selects: a cell, the word around it, or its line.
pub open spec fn clicked(pos: GridPos, clicks: int, word: (u16, u16), last_col: u16) -> Selection {
    if clicks == 2 {
        Selection {
            anchor: GridPos { line: pos.line, col: word.0 },
            end: GridPos { line: pos.line, col: word.1 },
            mode: SelectionMode::Word,
        }
    } else if clicks >= 3 {
        Selection {
            anchor: GridPos { line: pos.line, col: 0 },
            end: GridPos { line: pos.line, col: last_col },
            mode: SelectionMode::Line,
        }
    } else {
        Selection { anchor: pos, end: pos, mode: SelectionMode::Normal }
    }
}

/// What clicking selects. `word` holds the first and last column of the word
/// at the cell, `last_col` the last column of its line.
pub fn start_selection(pos: GridPos, clicks: isize, word: (u16, u16), last_col: u16) -> (s:
    Selection)
    ensures
        s == clicked(pos, clicks as int, word, last_col),
{
    if clicks == 2 {
        Selection {
            anchor: GridPos { line: pos.line, col: word.0 },
            end: GridPos { line: pos.line, col: word.1 },
            mode: SelectionMode::Word,
        }
    } else if clicks >= 3 {
        Selection {
            anchor: GridPos { line: pos.line, col: 0 },
            end: GridPos { line: pos.line, col: last_col },
            mode: SelectionMode::Line,
        }
    } else {
        Selection { anchor: pos, end: pos, mode: SelectionMode::Normal }
    }
}

/// `a` lies at or before the column `col` of line `line`.
pub open spec fn at_or_before(a: GridPos, line: usize, col: u16) -> bool {
    a.line < line || (a.line == line && a.col <= col)
}

/// The selection dragged to a cell: it grows by whole words or lines, away
/// from where it started.
pub open spec fn dragged(
    s: Selection,
    pos: GridPos,
    word: (u16, u16),
    last_col: u16,
    anchor_last_col: u16,
) -> Selection {
    match s.mode {
        SelectionMode::Word => Selection {
            end: GridPos {
                line: pos.line,
                col: if at_or_before(s.anchor, pos.line, word.0) {
                    word.1
                } else {
                    word.0
                },
            },
            ..s
        },
        SelectionMode::Line => if pos.line >= s.anchor.line {
            Selection {
                anchor: GridPos { line: s.anchor.line, col: 0 },
                end: GridPos { line: pos.line, col: last_col },
                ..s
            }
        } else {
            Selection {
                anchor: GridPos { line: s.anchor.line, col: anchor_last_col },
                end: GridPos { line: pos.line, col: 0 },
                ..s
            }
        },
        SelectionMode::Normal => Selection { end: pos, ..s },
    }
}

/// Drag a selection to a cell. `anchor_last_col` is the last column of the
/// line it started on.
pub fn drag_selection(
    s: Selection,
    pos: GridPos,
    word: (u16, u16),
    last_col: u16,
    anchor_last_col: u16,
) -> (r: Selection)
    ensures
        r == dragged(s, pos, word, last_col, anchor_last_col),
{
    match s.mode {
        SelectionMode::Word => {
            let before: bool = s.anchor.line < pos.line || (s.anchor.line == pos.line
                && s.anchor.col <= word.0);
            let col: u16 = if before {
                word.1
            } else {
                word.0
            };
            Selection { end: GridPos { line: pos.line, col }, ..s }
        },
        SelectionMode::Line => {
            if pos.line >= s.anchor.line {
                Selection {
                    anchor: GridPos { line: s.anchor.line, col: 0 },
                    end: GridPos { line: pos.line, col: last_col },
                    ..s
                }
            } else {
                Selection {
                    anchor: GridPos { line: s.anchor.line, col: anchor_last_col },
                    end: GridPos { line: pos.line, col: 0 },
                    ..s
                }
            }
        },
        SelectionMode::Normal => Selection { end: pos, ..s },
    }
}

/// The cell `(line, col)` lies between the ends of a selection, whichever of
/// them comes first.
pub open spec fn covers(s: Selection, line: int, col: int) -> bool {
    let a = s.anchor;
    let e = s.end;
    let from_anchor = a.line < line || (a.line == line && a.col <= col);
    let to_end = line < e.line || (line == e.line && col <= e.col);
    let from_end = e.line < line || (e.line == line && e.col <= col);
    let to_anchor = line < a.line || (line == a.line && col <= a.col);
    (from_anchor && to_end) || (from_end && to_anchor)
}

/// A word selection dragged to a cell covers the whole word there, and still
/// reaches to where it started.
pub proof fn dragging_covers_the_word(
    s: Selection,
    pos: GridPos,
    word: (u16, u16),
    last_col: u16,
    anchor_last_col: u16,
    col: int,
)
    requires
        s.mode == SelectionMode::Word,
        word.0 <= col <= word.1,
        // Where it started is no cell inside the word.
        s.anchor.line != pos.line || s.anchor.col <= word.0 || s.anchor.col > word.1,
    ensures
        covers(dragged(s, pos, word, last_col, anchor_last_col), pos.line as int, col),
        dragged(s, pos, word, last_col, anchor_last_col).anchor == s.anchor,
        dragged(s, pos, word, last_col, anchor_last_col).mode == SelectionMode::Word,
        // Nothing beyond the word is selected on its line.
        forall|c: int|
            (if s.anchor.line < pos.line || (s.anchor.line == pos.line && s.anchor.col <= word.0) {
                c > word.1
            } else {
                0 <= c < word.0
            }) ==> !(#[trigger] covers(
                dragged(s, pos, word, last_col, anchor_last_col),
                pos.line as int,
                c,
            )),
{
}

/// A double click covers its word and nothing else, a triple click its line
/// from end to end, and a click its cell.
pub proof fn clicks_select_what_they_count(
    pos: GridPos,
    clicks: int,
    word: (u16, u16),
    last_col: u16,
    line: int,
    col: int,
)
    requires
        word.0 <= word.1,
        col >= 0,
    ensures
        clicks == 2 ==> (covers(clicked(pos, clicks, word, last_col), line, col) <==> line
            == pos.line && word.0 <= col <= word.1),
        clicks >= 3 ==> (covers(clicked(pos, clicks, word, last_col), line, col) <==> line
            == pos.line && col <= last_col),
        clicks < 2 ==> (covers(clicked(pos, clicks, word, last_col), line, col) <==> line
            == pos.line && col == pos.col),
{
}

/// A word selection dragged away and back selects the word clicked again.
pub proof fn dragging_back_selects_the_word_again(
    pos: GridPos,
    again: GridPos,
    away: GridPos,
    word: (u16, u16),
    away_word: (u16, u16),
    last_col: u16,
)
    requires
        again.line == pos.line,
    ensures
        dragged(
            dragged(clicked(pos, 2, word, last_col), away, away_word, last_col, last_col),
            again,
            word,
            last_col,
            last_col,
        ) == clicked(pos, 2, word, last_col),
{
}

/// A line selection covers every line from where it started to where it is
/// dragged, each from end to end.
pub proof fn dragging_covers_whole_lines(
    s: Selection,
    pos: GridPos,
    word: (u16, u16),
    last_col: u16,
    anchor_last_col: u16,
    line: int,
    col: int,
)
    requires
        s.mode == SelectionMode::Line,
        col >= 0,
        line == pos.line ==> col <= last_col,
        line == s.anchor.line && line != pos.line ==> col <= anchor_last_col,
    ensures
        covers(dragged(s, pos, word, last_col, anchor_last_col), line, col) <==> (s.anchor.line
            <= line <= pos.line || pos.line <= line <= s.anchor.line),
{
}

/// A selection cell by cell reaches from where it started to the cell it is
/// dragged to.
pub proof fn dragging_reaches_the_cell(
    s: Selection,
    pos: GridPos,
    word: (u16, u16),
    last_col: u16,
    anchor_last_col: u16,
)
    requires
        s.mode == SelectionMode::Normal,
    ensures
        dragged(s, pos, word, last_col, anchor_last_col).anchor == s.anchor,
        dragged(s, pos, word, last_col, anchor_last_col).end == pos,
        dragged(s, pos, word, last_col, anchor_last_col).mode == SelectionMode::Normal,
{
}

/// A line selection dragged away and back selects its line again.
pub proof fn dragging_back_selects_the_line_again(
    pos: GridPos,
    away: GridPos,
    word: (u16, u16),
    last_col: u16,
    away_last_col: u16,
)
    ensures
        dragged(
            dragged(clicked(pos, 3, word, last_col), away, word, away_last_col, last_col),
            pos,
            word,
            last_col,
            last_col,
        ) == clicked(pos, 3, word, last_col),
{
}

/// A click that dragged nothing: the selection it left goes.
pub open spec fn is_bare_click(s: Selection) -> bool {
    s.anchor == s.end && s.mode == SelectionMode::Normal
}

/// What the release of the button does.
#[derive(Clone, Copy, Debug, PartialEq, Eq, Structural)]
pub enum Release {
    /// A tab was dragged: it stays where it is.
    EndTabDrag,
    /// A separator was dragged: it stays where it is.
    EndSeparatorDrag,
    /// Hand the release to the pane under the pointer.
    Pass,
}

impl KovaView {
    /// The button is released; `separator` says that a separator was dragged.
    pub fn mouse_up(&mut self, separator: bool) -> (r: Release)
        ensures
            r == (if old(self).pointer.drag_tab is Some {
                Release::EndTabDrag
            } else if separator {
                Release::EndSeparatorDrag
            } else {
                Release::Pass
            }),
            *final(self) == (KovaView {
                pointer: PointerState {
                    auto_scroll_speed: 0,
                    drag_tab: None,
                    ..old(self).pointer
                },
                ..*old(self)
            }),
    {
        self.pointer.auto_scroll_speed = 0;
        if self.pointer.drag_tab.is_some() {
            self.pointer.drag_tab = None;
            return Release::EndTabDrag;
        }
        if separator {
            Release::EndSeparatorDrag
        } else {
            Release::Pass
        }
    }
}

/// Whether the selection a click left goes when the button is released.
pub fn clears_selection(s: Selection) -> (r: bool)
    ensures
        r == is_bare_click(s),
{
    s.anchor.line == s.end.line && s.anchor.col == s.end.col && matches!(
        s.mode,
        SelectionMode::Normal
    )
}

// ---------------------------------------------------------------
// Links
// ---------------------------------------------------------------

/// `after` is `before` with no link under the pointer.
pub open spec fn is_unhovered(after: KovaView, before: KovaView, cmd: bool) -> bool {
    &&& after.effects@ == before.effects@ + (if before.pointer.hovered_url is Some {
        seq![Effect::ArrowCursor, Effect::MarkDirty]
    } else {
        seq![]
    })
    &&& after == (KovaView {
        pointer: PointerState { hovered_url: None, cmd_held: cmd, ..before.pointer },
        effects: after.effects,
        ..before
    })
}

/// The link covers the cells of the one hovered already.
pub open spec fn same_cells(was: Option<HoveredUrl>, segments: Seq<(usize, u16, u16)>) -> bool {
    was matches Some(h) && h.segments@ == segments
}

/// `after` is `before` with the pointer over the link `hit`.
pub open spec fn is_hovered(after: KovaView, before: KovaView, hit: HoveredUrl) -> bool {
    if same_cells(before.pointer.hovered_url, hit.segments@) {
        after == (KovaView {
            pointer: PointerState { cmd_held: true, ..before.pointer },
            ..before
        })
    } else {
        &&& after.effects@ == before.effects@ + seq![Effect::LinkCursor, Effect::MarkDirty]
        &&& after == (KovaView {
            pointer: PointerState {
                hovered_url: Some(hit),
                cmd_held: true,
                ..before.pointer
            },
            effects: after.effects,
            ..before
        })
    }
}

fn is_same_cells(was: &Option<HoveredUrl>, segments: &Vec<(usize, u16, u16)>) -> (r: bool)
    ensures
        r == same_cells(*was, segments@),
{
    match was {
        None => false,
        Some(h) => {
            if h.segments.len() != segments.len() {
                return false;
            }
            for i in 0..segments.len()
                invariant
                    *was == Some(*h),
                    h.segments@.len() == segments@.len(),
                    forall|k: int| 0 <= k < i ==> h.segments@[k] == segments@[k],
            {
                let a: (usize, u16, u16) = h.segments[i];
                let b: (usize, u16, u16) = segments[i];
                if a.0 != b.0 || a.1 != b.1 || a.2 != b.2 {
                    assert(h.segments@[i as int] != segments@[i as int]);
                    return false;
                }
            }
            assert(h.segments@ =~= segments@);
            true
        },
    }
}

impl KovaView {
    /// No link is under the pointer.
    fn unhover(&mut self, cmd: bool)
        ensures
            is_unhovered(*final(self), *old(self), cmd),
    {
        self.pointer.cmd_held = cmd;
        if self.pointer.hovered_url.is_some() {
            self.pointer.hovered_url = None;
            self.emit(Effect::ArrowCursor);
            self.mark_dirty();
        }
        assert(self.effects@ =~= old(self).effects@ + (if old(self).pointer.hovered_url is Some {
            seq![Effect::ArrowCursor, Effect::MarkDirty]
        } else {
            seq![]
        }));
    }

    /// The pointer moved; `hit` is the link under it. Links answer only while
    /// command is held. Without an active tab the link stays as it was.
    pub fn update_hovered_url(&mut self, cmd: bool, hit: Option<HoveredUrl>)
        ensures
            !cmd ==> is_unhovered(*final(self), *old(self), false),
            cmd && !old(self).has_active() ==> *final(self) == (KovaView {
                pointer: PointerState { cmd_held: true, ..old(self).pointer },
                ..*old(self)
            }),
            cmd && old(self).has_active() ==> match hit {
                Some(h) => is_hovered(*final(self), *old(self), h),
                None => is_unhovered(*final(self), *old(self), true),
            },
    {
        if !cmd {
            self.unhover(false);
            return;
        }
        if self.active_tab >= self.tabs.len() {
            self.pointer.cmd_held = true;
            return;
        }
        match hit {
            Some(h) => {
                self.pointer.cmd_held = true;
                if !is_same_cells(&self.pointer.hovered_url, &h.segments) {
                    self.pointer.hovered_url = Some(h);
                    self.emit(Effect::LinkCursor);
                    self.mark_dirty();
                    assert(self.effects@ =~= old(self).effects@ + seq![
                        Effect::LinkCursor,
                        Effect::MarkDirty,
                    ]);
                }
            },
            None => {
                self.unhover(true);
            },
        }
    }

    /// The modifiers changed: letting go of command lets go of the link.
    pub fn flags_changed(&mut self, cmd: bool)
        ensures
            cmd ==> *final(self) == (KovaView {
                pointer: PointerState { cmd_held: true, ..old(self).pointer },
                ..*old(self)
            }),
            !cmd ==> is_unhovered(*final(self), *old(self), false),
    {
        if cmd {
            self.pointer.cmd_held = true;
        } else {
            self.unhover(false);
        }
    }

    /// A click with command held opens the link under the pointer. Returns
    /// whether there was one.
    pub fn open_hovered_url(&mut self) -> (opened: bool)
        ensures
            match old(self).pointer.hovered_url {
                Some(h) => {
                    &&& opened
                    &&& final(self).effects@ == old(self).effects@.push(Effect::OpenUrl(h.url))
                    &&& *final(self) == (KovaView { effects: final(self).effects, ..*old(self) })
                },
                None => !opened && *final(self) == *old(self),
            },
    {
        let url: Option<String> = match &self.pointer.hovered_url {
            Some(h) => Some(h.url.clone()),
            None => None,
        };
        match url {
            Some(u) => {
                self.emit(Effect::OpenUrl(u));
                true
            },
            None => false,
        }
    }
}

// ---------------------------------------------------------------
// Clicks on panes
// ---------------------------------------------------------------

/// A pane seen: what it announced is acknowledged. That a command finished
/// stays on record until the next one starts.
pub open spec fn seen(p: Pane) -> Pane {
    Pane { bell: false, completion_seen: true, ..p }
}

impl Pane {
    pub fn acknowledge(&mut self)
        ensures
            *final(self) == seen(*old(self)),
    {
        self.bell = false;
        self.completion_seen = true;
    }
}

/// `t` is `before` with the focus on the pane `id`, which is seen.
pub open spec fn is_focus_moved(t: Tab, before: Tab, id: PaneId) -> bool {
    let i = pane::pos(before.panes@, id);
    &&& t.panes@ == before.panes@.update(i, seen(before.panes@[i]))
    &&& t == (Tab { panes: t.panes, focused_pane: id, ..before })
}

/// Looking at a pane answers what it announced, but who waits for its command
/// to finish still finds that it did.
pub proof fn looking_keeps_the_completion(t: Tab, before: Tab, id: PaneId, k: int)
    requires
        before.wf(),
        pane::has_pane(before.panes@, id),
        is_focus_moved(t, before, id),
        0 <= k < before.panes@.len(),
    ensures
        t.panes@[k].completed == before.panes@[k].completed,
        before.panes@[k].id == id ==> t.panes@[k].completion_seen && !t.panes@[k].bell,
{
    pane::lemma_pos(before.panes@, id);
}

pub proof fn lemma_focus_moved(t: Tab, before: Tab, id: PaneId)
    requires
        before.wf(),
        pane::has_pane(before.panes@, id),
        is_focus_moved(t, before, id),
    ensures
        t.wf(),
        t.id == before.id,
        forall|x: PaneId| #[trigger]
            pane::has_pane(t.panes@, x) <==> pane::has_pane(before.panes@, x),
{
    pane::lemma_pos(before.panes@, id);
    let i = pane::pos(before.panes@, id);
    pane::lemma_update_flags(before.panes@, i, seen(before.panes@[i]));
}

/// What clicking on a pane does.
pub open spec fn is_pane_clicked(after: KovaView, before: KovaView, id: PaneId) -> bool {
    let i = before.active_tab as int;
    let t = before.tabs@[i];
    let n = after.tabs@[i];
    if !before.has_active() || !pane::has_pane(t.panes@, id) {
        after == before
    } else if t.panes@[pane::pos(t.panes@, id)].minimized {
        &&& ipc::is_focus_taken(n, t, id)
        &&& after.tabs@ == before.tabs@.update(i, n)
        &&& after.effects@ == before.effects@ + seq![
            Effect::RestoreWidth(t.id, id),
            Effect::DirtyTab(t.id),
            Effect::ClampScroll(t.id),
            Effect::Reveal(t.id, id),
            Effect::ResizePanes,
        ]
        &&& after == (KovaView { tabs: after.tabs, effects: after.effects, ..before })
    } else if id != t.focused_pane {
        &&& is_focus_moved(n, t, id)
        &&& after.tabs@ == before.tabs@.update(i, n)
        &&& after.effects@ == before.effects@.push(Effect::DirtyPane(t.focused_pane))
        &&& after == (KovaView { tabs: after.tabs, effects: after.effects, ..before })
    } else {
        after == before
    }
}

impl Tab {
    /// Move the focus to a pane, acknowledging what it announced.
    pub fn move_focus(&mut self, id: PaneId)
        requires
            pane::has_pane(old(self).panes@, id),
        ensures
            is_focus_moved(*final(self), *old(self), id),
    {
        let at = self.find(id);
        self.panes[at].acknowledge();
        self.focused_pane = id;
        assert(self.panes@ =~= old(self).panes@.update(
            at as int,
            seen(old(self).panes@[at as int]),
        ));
    }
}

impl KovaView {
    /// Show a minimized pane of the active tab again, and focus it.
    fn restore_clicked(&mut self, id: PaneId)
        requires
            old(self).wf(),
            old(self).has_active(),
            pane::has_pane(old(self).active().panes@, id),
            old(self).active().panes@[pane::pos(old(self).active().panes@, id)].minimized,
        ensures
            is_pane_clicked(*final(self), *old(self), id),
            final(self).wf(),
    {
        let ti: usize = self.active_tab;
        let tab_id: TabId = self.tabs[ti].id;
        self.tabs[ti].restore_pane(id);
        self.tabs[ti].focused_pane = id;
        let ghost t = old(self).tabs@[ti as int];
        let ghost n = self.tabs@[ti as int];
        proof {
            assert(ipc::is_focus_taken(n, t, id));
            assert(self.tabs@ =~= old(self).tabs@.update(ti as int, n));
            assert(t.wf());
            ipc::lemma_focus_taken(n, t, id);
            tabs::lemma_tabs_update(old(self).tabs@, ti as int, n);
        }
        self.emit(Effect::RestoreWidth(tab_id, id));
        self.emit(Effect::DirtyTab(tab_id));
        self.emit(Effect::ClampScroll(tab_id));
        self.emit(Effect::Reveal(tab_id, id));
        self.emit(Effect::ResizePanes);
        assert(self.effects@ =~= old(self).effects@ + seq![
            Effect::RestoreWidth(tab_id, id),
            Effect::DirtyTab(tab_id),
            Effect::ClampScroll(tab_id),
            Effect::Reveal(tab_id, id),
            Effect::ResizePanes,
        ]);
    }

    /// A click on a pane of the active tab: a minimized one shows again, any
    /// other takes the focus. Returns whether the click goes on to the pane's
    /// content. Nothing happens without an active tab.
    pub fn click_pane(&mut self, id: PaneId) -> (goes_on: bool)
        requires
            old(self).wf(),
        ensures
            is_pane_clicked(*final(self), *old(self), id),
            goes_on == (old(self).has_active() && pane::has_pane(old(self).active().panes@, id)
                && !old(self).active().panes@[pane::pos(old(self).active().panes@, id)].minimized),
            final(self).wf(),
    {
        let ti: usize = self.active_tab;
        if ti >= self.tabs.len() || !self.tabs[ti].contains(id) {
            return false;
        }
        let at = self.tabs[ti].find(id);
        if self.tabs[ti].panes[at].minimized {
            self.restore_clicked(id);
            return false;
        }
        let old_focus: PaneId = self.tabs[ti].focused_pane;
        if id != old_focus {
            self.tabs[ti].move_focus(id);
            proof {
                let t = old(self).tabs@[ti as int];
                let n = self.tabs@[ti as int];
                assert(self.tabs@ =~= old(self).tabs@.update(ti as int, n));
                assert(t.wf());
                lemma_focus_moved(n, t, id);
                tabs::lemma_tabs_update(old(self).tabs@, ti as int, n);
            }
            self.emit(Effect::DirtyPane(old_focus));
        }
        true
    }
}

// ---------------------------------------------------------------
// Tabs
// ---------------------------------------------------------------

/// Two items of a list exchanged.
pub open spec fn exchanged(s: Seq<Tab>, i: int, j: int) -> Seq<Tab> {
    s.update(i, s[j]).update(j, s[i])
}

pub proof fn lemma_tabs_exchanged(s: Seq<Tab>, i: int, j: int)
    requires
        view::tabs_ok(s),
        0 <= i < s.len(),
        0 <= j < s.len(),
    ensures
        view::tabs_ok(exchanged(s, i, j)),
{
    let w = exchanged(s, i, j);
    assert forall|a: int| 0 <= a < w.len() implies (#[trigger] w[a]).wf() by {
        assert(s[i].wf() && s[j].wf() && s[a].wf());
    }
    assert forall|a: int, b: int| 0 <= a < b < w.len() implies (#[trigger] w[a]).id != (#[trigger] w[b]).id by {
        let pa = if a == i {
            j
        } else if a == j {
            i
        } else {
            a
        };
        let pb = if b == i {
            j
        } else if b == j {
            i
        } else {
            b
        };
        assert(w[a] == s[pa] && w[b] == s[pb]);
        if pa < pb {
            assert(s[pa].id != s[pb].id);
        } else {
            assert(s[pb].id != s[pa].id);
        }
    }
    assert forall|a: int, b: int, id: PaneId|
        0 <= a < b < w.len() && #[trigger] pane::has_pane(
            w[a].panes@,
            id,
        ) implies !#[trigger] pane::has_pane(w[b].panes@, id) by {
        let pa = if a == i {
            j
        } else if a == j {
            i
        } else {
            a
        };
        let pb = if b == i {
            j
        } else if b == j {
            i
        } else {
            b
        };
        assert(w[a] == s[pa] && w[b] == s[pb]);
        if pa < pb {
            assert(pane::has_pane(s[pa].panes@, id));
        } else if pane::has_pane(s[pb].panes@, id) {
            assert(!pane::has_pane(s[pa].panes@, id));
        }
    }
}

/// Exchange two tabs.
pub fn exchange_tabs(v: &mut Vec<Tab>, i: usize, j: usize)
    requires
        i < old(v)@.len(),
        j < old(v)@.len(),
    ensures
        final(v)@ == exchanged(old(v)@, i as int, j as int),
{
    if i == j {
        assert(v@ =~= exchanged(old(v)@, i as int, j as int));
        return;
    }
    let (a, b): (usize, usize) = if i < j {
        (i, j)
    } else {
        (j, i)
    };
    let second = v.remove(b);
    let first = v.remove(a);
    v.insert(a, second);
    v.insert(b, first);
    assert(v@ =~= exchanged(old(v)@, i as int, j as int));
}

impl KovaView {
    /// The mouse went down on a tab of the tab bar: it becomes the active one,
    /// and the drag holds it.
    pub fn press_tab(&mut self, idx: usize)
        requires
            idx < old(self).tabs@.len(),
        ensures
            exists|mid: KovaView|
                {
                    &&& #[trigger] tabs::is_switched(mid, *old(self), idx as int)
                    &&& *final(self) == (KovaView {
                        pointer: PointerState { drag_tab: Some(idx), ..mid.pointer },
                        ..mid
                    })
                },
            old(self).wf() ==> final(self).wf(),
    {
        self.do_switch_tab(idx);
        let ghost mid = *self;
        self.pointer.drag_tab = Some(idx);
        assert(tabs::is_switched(mid, *old(self), idx as int));
    }

    /// The dragged tab reached the place `target` of the tab bar: it changes
    /// places with the tab there.
    pub fn drag_tab_to(&mut self, target: Option<usize>)
        requires
            old(self).wf(),
            old(self).pointer.drag_tab matches Some(from) ==> from < old(self).tabs@.len(),
            target matches Some(t) ==> t < old(self).tabs@.len(),
        ensures
            final(self).wf(),
            match (old(self).pointer.drag_tab, target) {
                (Some(from), Some(to)) if from != to => {
                    &&& final(self).tabs@ == exchanged(old(self).tabs@, from as int, to as int)
                    &&& final(self).active_tab == to
                    &&& final(self).effects@ == old(self).effects@.push(Effect::MarkDirty)
                    &&& *final(self) == (KovaView {
                        tabs: final(self).tabs,
                        active_tab: to,
                        pointer: PointerState { drag_tab: Some(to), ..old(self).pointer },
                        effects: final(self).effects,
                        ..*old(self)
                    })
                },
                _ => *final(self) == *old(self),
            },
    {
        match (self.pointer.drag_tab, target) {
            (Some(from), Some(to)) => {
                if from != to {
                    exchange_tabs(&mut self.tabs, from, to);
                    proof {
                        lemma_tabs_exchanged(old(self).tabs@, from as int, to as int);
                    }
                    self.active_tab = to;
                    self.pointer.drag_tab = Some(to);
                    self.mark_dirty();
                }
            },
            _ => {},
        }
    }

    /// A colour of the tab's menu was picked: a tag past the palette clears
    /// it.
    pub fn tab_color_selected(&mut self, tag: isize)
        ensures
            ({
                let i = old(self).pointer.color_menu_tab as int;
                let color = if 0 <= tag < PALETTE_SIZE {
                    Some(tag as usize)
                } else {
                    None
                };
                &&& final(self).tabs@ == (if i < old(self).tabs@.len() {
                    old(self).tabs@.update(i, Tab { color, ..old(self).tabs@[i] })
                } else {
                    old(self).tabs@
                })
                &&& final(self).effects@ == old(self).effects@.push(Effect::MarkDirty)
                &&& *final(self) == (KovaView {
                    tabs: final(self).tabs,
                    effects: final(self).effects,
                    ..*old(self)
                })
            }),
            old(self).wf() ==> final(self).wf(),
    {
        let i: usize = self.pointer.color_menu_tab;
        if i < self.tabs.len() {
            let color: Option<usize> = if 0 <= tag && tag < PALETTE_SIZE {
                Some(tag as usize)
            } else {
                None
            };
            self.tabs[i].color = color;
            proof {
                let t = Tab { color, ..old(self).tabs@[i as int] };
                assert(self.tabs@ =~= old(self).tabs@.update(i as int, t));
                if old(self).wf() {
                    assert(old(self).tabs@[i as int].wf());
                    tabs::lemma_tabs_update(old(self).tabs@, i as int, t);
                }
            }
        }
        self.mark_dirty();
    }
}

/// The colours a tab can have.
pub const PALETTE_SIZE: isize = 6;

/// A report to a program starts its code with the button, adds four for shift,
/// eight for option, sixteen for control and thirty-two for motion, and ends in
/// a capital letter for a press.
pub proof fn a_report_tells_the_button(
    button: u8,
    shift: bool,
    option: bool,
    control: bool,
    col: u16,
    row: u16,
    press: bool,
    motion: bool,
)
    requires
        button <= 3 || button == 64 || button == 65,
    ensures
        ({
            let code = button + (if shift {
                4int
            } else {
                0
            }) + (if option {
                8int
            } else {
                0
            }) + (if control {
                16int
            } else {
                0
            }) + (if motion {
                32int
            } else {
                0
            });
            let r = mouse_report(
                button,
                modifier_bits(shift, option, control),
                col,
                row,
                press,
                motion,
            );
            r == "\x1b[<"@ + text::decimal(code as nat) + ";"@ + text::decimal(col as nat) + ";"@
                + text::decimal(row as nat) + seq![
                if press {
                    'M'
                } else {
                    'm'
                },
            ]
        }),
{
    let m = modifier_bits(shift, option, control);
    let f: u8 = if motion {
        32
    } else {
        0
    };
    assert(m == 0 || m == 4 || m == 8 || m == 12 || m == 16 || m == 20 || m == 24 || m == 28);
    assert(button | m | f == button + m + f) by (bit_vector)
        requires
            button <= 3 || button == 64 || button == 65,
            m == 0 || m == 4 || m == 8 || m == 12 || m == 16 || m == 20 || m == 24 || m == 28,
            f == 0 || f == 32,
    ;
}

/// A click on a pane of the active tab focuses it and hears what it announced;
/// a folded one is shown again. Nothing moves.
pub proof fn a_click_focuses_the_pane(after: KovaView, before: KovaView, i: int)
    requires
        before.wf(),
        before.has_active(),
        0 <= i < before.active().panes@.len(),
        is_pane_clicked(after, before, before.active().panes@[i].id),
    ensures
        after.active_tab == before.active_tab,
        after.active().focused_pane == before.active().panes@[i].id,
        after.active().panes@.len() == before.active().panes@.len(),
        before.active().panes@[i].minimized ==> !after.active().panes@[i].minimized,
        !before.active().panes@[i].minimized && before.active().panes@[i].id
            != before.active().focused_pane ==> !after.active().panes@[i].bell
            && after.active().panes@[i].completion_seen,
        forall|k: int|
            0 <= k < before.active().panes@.len() && k != i ==> after.active().panes@[k]
                == before.active().panes@[k],
{
    let t = before.active();
    assert(t.wf());
    pane::lemma_pos(t.panes@, t.panes@[i].id);
    assert(pane::pos(t.panes@, t.panes@[i].id) == i);
}

/// A pointer over a link with command held shows that link, and without
/// command or a link shows none.
pub proof fn a_link_shows_under_the_pointer(after: KovaView, before: KovaView, hit: HoveredUrl)
    requires
        is_hovered(after, before, hit),
    ensures
        after.pointer.cmd_held,
        after.pointer.hovered_url matches Some(h) && h.segments@ == hit.segments@,
        before.pointer.hovered_url is None ==> after.pointer.hovered_url == Some(hit)
            && after.effects@.contains(Effect::LinkCursor),
{
    if before.pointer.hovered_url is None {
        assert(after.effects@[before.effects@.len() as int] == Effect::LinkCursor);
    }
}

/// A dragged tab and the one it is dragged to trade places; the others stay.
pub proof fn a_dragged_tab_trades_places(s: Seq<Tab>, i: int, j: int)
    requires
        0 <= i < s.len(),
        0 <= j < s.len(),
    ensures
        exchanged(s, i, j).len() == s.len(),
        exchanged(s, i, j)[i] == s[j],
        exchanged(s, i, j)[j] == s[i],
        forall|k: int| 0 <= k < s.len() && k != i && k != j ==> exchanged(s, i, j)[k] == s[k],
{
}

} // verus!
