//! The tab and pane switcher: every tab with its panes, or the panes that ask
//! for something, in up to three columns, one pane selected.
use crate::ipc;
use crate::pane;
use crate::pane::{Pane, PaneId, Tab, TabId};
use crate::sidebar_ui;
use crate::tabs;
use crate::text;
use crate::view;
use crate::view::{
    Effect, KeyPress, KovaView, Overlays, KEY_DOWN, KEY_ENTER, KEY_ESCAPE, KEY_LEFT, KEY_RIGHT,
    KEY_UP,
};
use vstd::prelude::*;

verus! {

/// A row of the switcher: a tab's header, or a pane.
#[derive(Debug, PartialEq)]
pub enum SwitcherRow {
    TabHeader(String),
    Pane { pane_id: PaneId, title: String, is_current: bool },
}

/// The switcher: its rows in columns, and the selected one.
#[derive(Debug, PartialEq)]
pub struct PaneSwitcherState {
    /// Each column holds whole tabs: a header followed by its pane rows.
    pub columns: Vec<Vec<SwitcherRow>>,
    pub selected_col: usize,
    pub selected_row: usize,
    /// Index of the first row shown, column by column.
    pub scroll: Vec<usize>,
    /// Only the panes that ask for something are listed.
    pub unread_only: bool,
}

impl SwitcherRow {
    pub fn is_pane(&self) -> (r: bool)
        ensures
            r == (self is Pane),
    {
        matches!(self, SwitcherRow::Pane { .. })
    }

    pub open spec fn current(self) -> bool {
        self matches SwitcherRow::Pane { is_current, .. } && is_current
    }

    fn is_current_pane(&self) -> (r: bool)
        ensures
            r == self.current(),
    {
        match self {
            SwitcherRow::Pane { is_current, .. } => *is_current,
            SwitcherRow::TabHeader(_) => false,
        }
    }
}

impl PaneSwitcherState {
    /// No column is empty, the selection is a row of a column, and every
    /// column has a scroll offset.
    pub open spec fn wf(self) -> bool {
        &&& forall|c: int| 0 <= c < self.columns@.len() ==> (#[trigger] self.columns@[c])@.len() > 0
        &&& self.selected_col < self.columns@.len()
        &&& self.selected_row < self.columns@[self.selected_col as int]@.len()
        &&& self.scroll@.len() == self.columns@.len()
    }
}

// ---------------------------------------------------------------
// Rows
// ---------------------------------------------------------------

/// The first pane row from `from` on, the length without one.
pub open spec fn pane_row_from(rows: Seq<SwitcherRow>, from: int) -> int
    decreases rows.len() - from,
{
    if from >= rows.len() {
        rows.len() as int
    } else if rows[from] is Pane {
        from
    } else {
        pane_row_from(rows, from + 1)
    }
}

/// The last pane row before `upto`, -1 without one.
pub open spec fn pane_row_before(rows: Seq<SwitcherRow>, upto: int) -> int
    decreases upto,
{
    if upto <= 0 {
        -1
    } else if rows[upto - 1] is Pane {
        upto - 1
    } else {
        pane_row_before(rows, upto - 1)
    }
}

/// The first row of the current pane, the length without one.
pub open spec fn current_row_from(rows: Seq<SwitcherRow>, from: int) -> int
    decreases rows.len() - from,
{
    if from >= rows.len() {
        rows.len() as int
    } else if rows[from].current() {
        from
    } else {
        current_row_from(rows, from + 1)
    }
}

proof fn lemma_pane_row_from(rows: Seq<SwitcherRow>, from: int)
    requires
        0 <= from <= rows.len(),
    ensures
        from <= pane_row_from(rows, from) <= rows.len(),
        pane_row_from(rows, from) < rows.len() ==> rows[pane_row_from(rows, from)] is Pane,
        forall|k: int| from <= k < pane_row_from(rows, from) ==> !(#[trigger] rows[k] is Pane),
    decreases rows.len() - from,
{
    if from < rows.len() && !(rows[from] is Pane) {
        lemma_pane_row_from(rows, from + 1);
    }
}

fn find_pane_row(rows: &Vec<SwitcherRow>, from: usize) -> (r: usize)
    requires
        from <= rows@.len(),
    ensures
        r == pane_row_from(rows@, from as int),
        from <= r <= rows@.len(),
        r < rows@.len() ==> rows@[r as int] is Pane,
{
    let mut i: usize = from;
    while i < rows.len() && !rows[i].is_pane()
        invariant
            from <= i <= rows@.len(),
            pane_row_from(rows@, i as int) == pane_row_from(rows@, from as int),
        decreases rows@.len() - i,
    {
        i = i + 1;
    }
    i
}

fn find_pane_row_before(rows: &Vec<SwitcherRow>, upto: usize) -> (r: Option<usize>)
    requires
        upto <= rows@.len(),
    ensures
        match r {
            Some(i) => i == pane_row_before(rows@, upto as int) && i < upto,
            None => pane_row_before(rows@, upto as int) < 0,
        },
{
    let mut i: usize = upto;
    while i > 0 && !rows[i - 1].is_pane()
        invariant
            i <= upto <= rows@.len(),
            pane_row_before(rows@, i as int) == pane_row_before(rows@, upto as int),
        decreases i,
    {
        i = i - 1;
    }
    if i == 0 {
        None
    } else {
        Some(i - 1)
    }
}

fn find_current_row(rows: &Vec<SwitcherRow>) -> (r: usize)
    ensures
        r == current_row_from(rows@, 0),
        r <= rows@.len(),
        r < rows@.len() ==> rows@[r as int] is Pane,
{
    let mut i: usize = 0;
    while i < rows.len() && !rows[i].is_current_pane()
        invariant
            i <= rows@.len(),
            current_row_from(rows@, i as int) == current_row_from(rows@, 0),
        decreases rows@.len() - i,
    {
        i = i + 1;
    }
    i
}

/// How far apart two rows are.
pub open spec fn gap(a: int, b: int) -> int {
    if a <= b {
        b - a
    } else {
        a - b
    }
}

/// `r` is the pane row closest to `target`, the upper one of two as close; 0
/// without a pane row.
pub open spec fn is_nearest(rows: Seq<SwitcherRow>, target: int, r: int) -> bool {
    if pane_row_from(rows, 0) >= rows.len() {
        r == 0
    } else {
        &&& 0 <= r < rows.len()
        &&& rows[r] is Pane
        &&& forall|k: int|
            0 <= k < rows.len() && #[trigger] rows[k] is Pane ==> gap(r, target) < gap(k, target)
                || (gap(r, target) == gap(k, target) && r <= k)
    }
}

/// The pane row of a column closest to `target`.
pub fn nearest_pane_row(rows: &Vec<SwitcherRow>, target: usize) -> (r: usize)
    ensures
        is_nearest(rows@, target as int, r as int),
{
    proof {
        lemma_pane_row_from(rows@, 0);
    }
    let mut best: Option<usize> = None;
    for i in 0..rows.len()
        invariant
            match best {
                None => forall|k: int| 0 <= k < i ==> !(#[trigger] rows@[k] is Pane),
                Some(b) => b < i && rows@[b as int] is Pane && forall|k: int|
                    0 <= k < i && #[trigger] rows@[k] is Pane ==> gap(b as int, target as int)
                        < gap(k, target as int) || (gap(b as int, target as int) == gap(
                        k,
                        target as int,
                    ) && b <= k),
            },
    {
        if rows[i].is_pane() {
            let d: usize = if i <= target {
                target - i
            } else {
                i - target
            };
            match best {
                None => {
                    best = Some(i);
                },
                Some(b) => {
                    let e: usize = if b <= target {
                        target - b
                    } else {
                        b - target
                    };
                    if d < e {
                        best = Some(i);
                    }
                },
            }
        }
    }
    match best {
        Some(b) => b,
        None => 0,
    }
}

// ---------------------------------------------------------------
// Columns
// ---------------------------------------------------------------

/// The pane has something nobody has looked at.
pub open spec fn asks(p: Pane, t: Tab, active: bool) -> bool {
    sidebar_ui::flags_of(p, active && p.id == t.focused_pane).unread()
}

/// The panes of `t` that are listed: all of them, or those that ask for
/// something.
pub open spec fn listed(panes: Seq<Pane>, t: Tab, active: bool, unread: bool) -> Seq<Pane>
    decreases panes.len(),
{
    if panes.len() == 0 {
        seq![]
    } else {
        let before = listed(panes.drop_last(), t, active, unread);
        if !unread || asks(panes.last(), t, active) {
            before.push(panes.last())
        } else {
            before
        }
    }
}

/// The places of the tabs that are listed: all of them, or those with a pane
/// that asks for something.
pub open spec fn listed_tabs(tabs: Seq<Tab>, active: int, unread: bool) -> Seq<int>
    decreases tabs.len(),
{
    if tabs.len() == 0 {
        seq![]
    } else {
        let i = tabs.len() - 1;
        let before = listed_tabs(tabs.drop_last(), active, unread);
        if !unread || listed(tabs[i].panes@, tabs[i], i == active, unread).len() > 0 {
            before.push(i)
        } else {
            before
        }
    }
}

/// The row of a pane.
pub open spec fn row_for(p: Pane, t: Tab, active: bool) -> SwitcherRow {
    SwitcherRow::Pane {
        pane_id: p.id,
        title: p.term.display_title,
        is_current: active && p.id == t.focused_pane,
    }
}

/// The rows of a tab: its number and title, then its listed panes.
pub open spec fn is_group(g: Seq<SwitcherRow>, t: Tab, ti: int, active: int, unread: bool) -> bool {
    let l = listed(t.panes@, t, ti == active, unread);
    &&& g.len() == l.len() + 1
    &&& g[0] matches SwitcherRow::TabHeader(h) && h@ == text::decimal((ti + 1) as nat) + "  "@
        + t.shown_title()@
    &&& forall|k: int|
        0 <= k < l.len() ==> (#[trigger] g[k + 1]) == row_for(l[k], t, ti == active)
}

proof fn lemma_listed(panes: Seq<Pane>, t: Tab, active: bool, unread: bool)
    ensures
        listed(panes, t, active, unread).len() <= panes.len(),
        !unread ==> listed(panes, t, active, unread) == panes,
        forall|p: Pane| #[trigger]
            listed(panes, t, active, unread).contains(p) <==> panes.contains(p) && (!unread
                || asks(p, t, active)),
    decreases panes.len(),
{
    let l = listed(panes, t, active, unread);
    if panes.len() > 0 {
        let rest = panes.drop_last();
        let before = listed(rest, t, active, unread);
        lemma_listed(rest, t, active, unread);
        assert(panes =~= rest.push(panes.last()));
        assert forall|p: Pane| #[trigger] l.contains(p) <==> panes.contains(p) && (!unread || asks(
            p,
            t,
            active,
        )) by {
            if l.contains(p) {
                let k = choose|k: int| 0 <= k < l.len() && l[k] == p;
                if k < before.len() {
                    assert(before[k] == p);
                    assert(before.contains(p));
                    let m = choose|m: int| 0 <= m < rest.len() && rest[m] == p;
                    assert(panes[m] == p);
                } else {
                    assert(panes[panes.len() - 1] == p);
                }
            }
            if panes.contains(p) && (!unread || asks(p, t, active)) {
                let m = choose|m: int| 0 <= m < panes.len() && panes[m] == p;
                if m < rest.len() {
                    assert(rest[m] == p);
                    assert(before.contains(p));
                    let k = choose|k: int| 0 <= k < before.len() && before[k] == p;
                    assert(l[k] == p);
                } else {
                    assert(l[l.len() - 1] == p);
                }
            }
        }
    }
}

proof fn lemma_listed_tabs(tabs: Seq<Tab>, active: int, unread: bool)
    ensures
        listed_tabs(tabs, active, unread).len() <= tabs.len(),
        forall|k: int|
            0 <= k < listed_tabs(tabs, active, unread).len() ==> 0 <= #[trigger] listed_tabs(
                tabs,
                active,
                unread,
            )[k] < tabs.len(),
    decreases tabs.len(),
{
    if tabs.len() > 0 {
        lemma_listed_tabs(tabs.drop_last(), active, unread);
        let l = listed_tabs(tabs, active, unread);
        let before = listed_tabs(tabs.drop_last(), active, unread);
        assert forall|k: int| 0 <= k < l.len() implies 0 <= #[trigger] l[k] < tabs.len() by {
            if k < before.len() {
                assert(l[k] == before[k]);
            }
        }
    }
}

/// The full list shows every pane, and the short one exactly those that ask
/// for something, each in its tab's order.
pub proof fn the_switcher_lists_what_it_says(t: Tab, active: bool, p: Pane)
    requires
        t.panes@.contains(p),
    ensures
        listed(t.panes@, t, active, false) == t.panes@,
        listed(t.panes@, t, active, true).contains(p) <==> asks(p, t, active),
{
    lemma_listed(t.panes@, t, active, false);
    lemma_listed(t.panes@, t, active, true);
}

/// The rows of the columns, or of the groups, one after the other.
pub open spec fn flat(groups: Seq<Seq<SwitcherRow>>) -> Seq<SwitcherRow>
    decreases groups.len(),
{
    if groups.len() == 0 {
        Seq::empty()
    } else {
        flat(groups.drop_last()) + groups.last()
    }
}

/// The rows inside a list of lists.
pub open spec fn inner(v: Seq<Vec<SwitcherRow>>) -> Seq<Seq<SwitcherRow>> {
    v.map_values(|g: Vec<SwitcherRow>| g@)
}

/// The current column, `cur` rows long, is closed before a group of `w` rows:
/// more than one column is left, and it lies closer to its share of the `rest`
/// rows without the group than with it.
pub open spec fn closes_column(rest: int, cols_left: int, cur: int, w: int) -> bool {
    cols_left > 1 && cur > 0 && gap(cur * cols_left, rest) <= gap((cur + w) * cols_left, rest)
}

/// The columns closed so far, the current one, and the rows in the closed
/// ones, after the groups; `total` rows go into at most `ncols` columns.
pub open spec fn balanced(groups: Seq<Seq<SwitcherRow>>, total: int, ncols: int) -> (
    Seq<Seq<SwitcherRow>>,
    Seq<SwitcherRow>,
    int,
)
    decreases groups.len(),
{
    if groups.len() == 0 {
        (Seq::empty(), Seq::empty(), 0)
    } else {
        let s = balanced(groups.drop_last(), total, ncols);
        let g = groups.last();
        if closes_column(total - s.2, ncols - s.0.len(), s.1.len() as int, g.len() as int) {
            (s.0.push(s.1), g, s.2 + s.1.len())
        } else {
            (s.0, s.1 + g, s.2)
        }
    }
}

/// How many columns a number of groups is laid out in.
pub open spec fn column_limit(groups: int) -> int {
    if groups >= 3 {
        3
    } else if groups >= 1 {
        groups
    } else {
        1
    }
}

/// The groups laid out in columns.
pub open spec fn layout(groups: Seq<Seq<SwitcherRow>>) -> Seq<Seq<SwitcherRow>> {
    let s = balanced(groups, flat(groups).len() as int, column_limit(groups.len() as int));
    s.0.push(s.1)
}

proof fn lemma_balanced(groups: Seq<Seq<SwitcherRow>>, total: int, ncols: int)
    requires
        ncols >= 1,
    ensures
        ({
            let s = balanced(groups, total, ncols);
            &&& flat(s.0) + s.1 == flat(groups)
            &&& s.0.len() < ncols
            &&& s.2 == flat(s.0).len()
            &&& s.2 + s.1.len() == flat(groups).len()
        }),
    decreases groups.len(),
{
    if groups.len() > 0 {
        let prev = groups.drop_last();
        lemma_balanced(prev, total, ncols);
        let p = balanced(prev, total, ncols);
        let g = groups.last();
        if closes_column(total - p.2, ncols - p.0.len(), p.1.len() as int, g.len() as int) {
            assert(p.0.push(p.1).drop_last() =~= p.0);
            assert(flat(p.0.push(p.1)) =~= flat(p.0) + p.1);
        } else {
            assert(flat(p.0) + (p.1 + g) =~= (flat(p.0) + p.1) + g);
        }
    } else {
        assert(flat(Seq::<Seq<SwitcherRow>>::empty()) + Seq::<SwitcherRow>::empty()
            =~= Seq::empty());
    }
}

/// Laying the tabs out loses no row and keeps their order, in one to three
/// columns.
pub proof fn layout_keeps_every_row(groups: Seq<Seq<SwitcherRow>>)
    ensures
        flat(layout(groups)) == flat(groups),
        1 <= layout(groups).len() <= 3,
        groups.len() >= 1 ==> layout(groups).len() <= groups.len(),
{
    let n = column_limit(groups.len() as int);
    let s = balanced(groups, flat(groups).len() as int, n);
    lemma_balanced(groups, flat(groups).len() as int, n);
    assert(layout(groups).drop_last() =~= s.0);
}

proof fn lemma_flat_take(groups: Seq<Seq<SwitcherRow>>, n: int)
    requires
        0 <= n <= groups.len(),
    ensures
        flat(groups.take(n)).len() <= flat(groups).len(),
    decreases groups.len() - n,
{
    if n < groups.len() {
        lemma_flat_take(groups, n + 1);
        assert(groups.take(n + 1).drop_last() =~= groups.take(n));
    } else {
        assert(groups.take(n) =~= groups);
    }
}

/// Lay groups of rows out in columns, balanced by their number of rows.
pub fn balance(groups: Vec<Vec<SwitcherRow>>) -> (columns: Vec<Vec<SwitcherRow>>)
    requires
        flat(inner(groups@)).len() <= usize::MAX,
    ensures
        inner(columns@) == layout(inner(groups@)),
{
    let ghost all = inner(groups@);
    let count: usize = groups.len();
    let ncols: usize = if count >= 3 {
        3
    } else if count >= 1 {
        count
    } else {
        1
    };
    let mut total: usize = 0;
    assert(all.take(0) =~= Seq::empty());
    for i in 0..count
        invariant
            count == groups@.len(),
            all == inner(groups@),
            flat(all).len() <= usize::MAX,
            total == flat(all.take(i as int)).len(),
    {
        proof {
            assert(all.take(i + 1).drop_last() =~= all.take(i as int));
            assert(all.take(i + 1).last() == groups@[i as int]@);
            lemma_flat_take(all, i + 1);
        }
        total = total + groups[i].len();
    }
    assert(all.take(count as int) =~= all);
    let mut rest = groups;
    let mut columns: Vec<Vec<SwitcherRow>> = Vec::new();
    let mut cur: Vec<SwitcherRow> = Vec::new();
    let mut placed: usize = 0;
    assert(inner(columns@) =~= Seq::empty());
    while rest.len() > 0
        invariant
            1 <= ncols <= 3,
            total == flat(all).len(),
            rest@.len() <= all.len(),
            inner(rest@) == all.skip(all.len() - rest@.len()),
            ({
                let s = balanced(
                    all.take(all.len() - rest@.len()),
                    total as int,
                    ncols as int,
                );
                &&& inner(columns@) == s.0
                &&& cur@ == s.1
                &&& placed == s.2
            }),
        decreases rest@.len(),
    {
        let ghost k = all.len() - rest@.len();
        proof {
            lemma_balanced(all.take(k), total as int, ncols as int);
            lemma_flat_take(all, k);
            lemma_flat_take(all, k + 1);
            assert(all.take(k + 1).drop_last() =~= all.take(k));
            assert(all.take(k + 1).last() == all[k]);
            assert(inner(rest@)[0] == all[k]);
        }
        let ghost before = rest@;
        let g = rest.remove(0);
        assert forall|i: int| 0 <= i < rest@.len() implies inner(rest@)[i] == all.skip(k + 1)[i] by {
            assert(inner(before)[i + 1] == all.skip(k)[i + 1]);
        }
        assert(inner(rest@) =~= all.skip(k + 1));
        let cols_left: usize = ncols - columns.len();
        let w: usize = g.len();
        let cur_w: usize = cur.len();
        if cols_left > 1 && cur_w > 0 {
            let left: u128 = cols_left as u128;
            let share: u128 = (total - placed) as u128;
            assert(cur_w * cols_left <= usize::MAX * 3) by (nonlinear_arith)
                requires
                    cur_w <= usize::MAX,
                    cols_left <= 3,
            ;
            assert((cur_w + w) * cols_left <= usize::MAX * 3) by (nonlinear_arith)
                requires
                    cur_w + w <= usize::MAX,
                    cols_left <= 3,
            ;
            let without: u128 = cur_w as u128 * left;
            let with: u128 = (cur_w + w) as u128 * left;
            let gap_without: u128 = if without <= share {
                share - without
            } else {
                without - share
            };
            let gap_with: u128 = if with <= share {
                share - with
            } else {
                with - share
            };
            if gap_without <= gap_with {
                placed = placed + cur_w;
                let ghost closed = inner(columns@);
                let ghost col = cur@;
                columns.push(cur);
                cur = Vec::new();
                assert(inner(columns@) =~= closed.push(col));
            }
        }
        let mut g = g;
        let ghost rows = g@;
        cur.append(&mut g);
    }
    assert(all.take(all.len() as int) =~= all);
    let ghost closed = inner(columns@);
    let ghost col = cur@;
    columns.push(cur);
    assert(inner(columns@) =~= closed.push(col));
    columns
}

// ---------------------------------------------------------------
// Selection
// ---------------------------------------------------------------

/// The first column from `from` on whose rows hold the current pane, the
/// length without one.
pub open spec fn current_col_from(columns: Seq<Seq<SwitcherRow>>, from: int) -> int
    decreases columns.len() - from,
{
    if from >= columns.len() {
        columns.len() as int
    } else if current_row_from(columns[from], 0) < columns[from].len() {
        from
    } else {
        current_col_from(columns, from + 1)
    }
}

/// The first column from `from` on that holds a pane, the length without one.
pub open spec fn pane_col_from(columns: Seq<Seq<SwitcherRow>>, from: int) -> int
    decreases columns.len() - from,
{
    if from >= columns.len() {
        columns.len() as int
    } else if pane_row_from(columns[from], 0) < columns[from].len() {
        from
    } else {
        pane_col_from(columns, from + 1)
    }
}

/// The row selected at first: the current pane's, else the first pane's.
pub open spec fn first_selection(columns: Seq<Seq<SwitcherRow>>) -> (int, int) {
    let c = current_col_from(columns, 0);
    let p = pane_col_from(columns, 0);
    if c < columns.len() {
        (c, current_row_from(columns[c], 0))
    } else if p < columns.len() {
        (p, pane_row_from(columns[p], 0))
    } else {
        (0, 0)
    }
}

/// The row to select at first.
pub fn initial_selection(columns: &Vec<Vec<SwitcherRow>>) -> (sel: (usize, usize))
    ensures
        (sel.0 as int, sel.1 as int) == first_selection(inner(columns@)),
        pane_col_from(inner(columns@), 0) < columns@.len() ==> sel.0 < columns@.len() && sel.1
            < columns@[sel.0 as int]@.len() && columns@[sel.0 as int]@[sel.1 as int] is Pane,
{
    let ghost cols = inner(columns@);
    let mut c: usize = 0;
    while c < columns.len()
        invariant
            c <= columns@.len(),
            cols == inner(columns@),
            current_col_from(cols, c as int) == current_col_from(cols, 0),
        decreases columns@.len() - c,
    {
        assert(cols[c as int] == columns@[c as int]@);
        let r = find_current_row(&columns[c]);
        if r < columns[c].len() {
            return (c, r);
        }
        c = c + 1;
    }
    let mut p: usize = 0;
    while p < columns.len()
        invariant
            p <= columns@.len(),
            cols == inner(columns@),
            current_col_from(cols, 0) >= cols.len(),
            pane_col_from(cols, p as int) == pane_col_from(cols, 0),
        decreases columns@.len() - p,
    {
        assert(cols[p as int] == columns@[p as int]@);
        let r = find_pane_row(&columns[p], 0);
        if r < columns[p].len() {
            return (p, r);
        }
        p = p + 1;
    }
    (0, 0)
}

/// The scroll offset that keeps `row` among the `shown` rows on screen, moved
/// as little as possible.
pub open spec fn scrolled_to(scroll: int, row: int, shown: int) -> int {
    if row < scroll {
        row
    } else if row >= scroll + shown {
        row + 1 - shown
    } else {
        scroll
    }
}

/// The selected row is on screen once its column has scrolled to it, and a
/// column that showed it does not move.
pub proof fn scrolled_row_is_on_screen(scroll: int, row: int, shown: int)
    requires
        0 <= scroll,
        0 <= row,
        shown >= 1,
    ensures
        0 <= scrolled_to(scroll, row, shown) <= row < scrolled_to(scroll, row, shown) + shown,
        scroll <= row < scroll + shown ==> scrolled_to(scroll, row, shown) == scroll,
{
}

/// At least one.
pub open spec fn at_least_one(n: usize) -> int {
    if n >= 1 {
        n as int
    } else {
        1
    }
}

/// The scroll offsets with the selected column scrolled to the selected row,
/// `shown` rows being on screen.
pub open spec fn scroll_settled(s: PaneSwitcherState, shown: usize) -> Seq<usize> {
    let c = s.selected_col as int;
    if c < s.scroll@.len() {
        s.scroll@.update(
            c,
            scrolled_to(s.scroll@[c] as int, s.selected_row as int, at_least_one(shown)) as usize,
        )
    } else {
        s.scroll@
    }
}

impl PaneSwitcherState {
    /// Scroll the selected column so that the selected row is on screen.
    fn clamp_scroll(&mut self, shown: usize)
        ensures
            final(self).scroll@ == scroll_settled(*old(self), shown),
            *final(self) == (PaneSwitcherState { scroll: final(self).scroll, ..*old(self) }),
    {
        let n: usize = if shown >= 1 {
            shown
        } else {
            1
        };
        let c: usize = self.selected_col;
        let row: usize = self.selected_row;
        if c < self.scroll.len() {
            let s: usize = self.scroll[c];
            if row < s {
                self.scroll[c] = row;
            } else if row - s >= n {
                self.scroll[c] = row - n + 1;
            }
            assert(self.scroll@ =~= scroll_settled(*old(self), shown));
        }
    }
}

/// A switcher key moves the selection to another row, within its column to
/// the next pane row, across columns to the nearest.
pub open spec fn is_moved(after: PaneSwitcherState, s: PaneSwitcherState, code: u16) -> bool {
    let col = s.columns@[s.selected_col as int]@;
    let up = pane_row_before(col, s.selected_row as int);
    let down = pane_row_from(col, s.selected_row + 1);
    &&& after == (PaneSwitcherState {
        selected_col: after.selected_col,
        selected_row: after.selected_row,
        ..s
    })
    &&& if code == KEY_UP {
        after.selected_col == s.selected_col && after.selected_row == (if up >= 0 {
            up
        } else {
            s.selected_row as int
        })
    } else if code == KEY_DOWN {
        after.selected_col == s.selected_col && after.selected_row == (if down < col.len() {
            down
        } else {
            s.selected_row as int
        })
    } else if code == KEY_LEFT {
        if s.selected_col > 0 {
            after.selected_col == s.selected_col - 1 && is_nearest(
                s.columns@[s.selected_col - 1]@,
                s.selected_row as int,
                after.selected_row as int,
            )
        } else {
            after == s
        }
    } else {
        if s.selected_col + 1 < s.columns@.len() {
            after.selected_col == s.selected_col + 1 && is_nearest(
                s.columns@[s.selected_col + 1]@,
                s.selected_row as int,
                after.selected_row as int,
            )
        } else {
            after == s
        }
    }
}

/// The code is one of an arrow.
pub open spec fn is_arrow(code: u16) -> bool {
    code == KEY_UP || code == KEY_DOWN || code == KEY_LEFT || code == KEY_RIGHT
}

/// The pane of the selected row.
pub open spec fn selected_pane(s: PaneSwitcherState) -> Option<PaneId> {
    if s.selected_col < s.columns@.len() && s.selected_row
        < s.columns@[s.selected_col as int]@.len() {
        match s.columns@[s.selected_col as int]@[s.selected_row as int] {
            SwitcherRow::Pane { pane_id, .. } => Some(pane_id),
            SwitcherRow::TabHeader(_) => None,
        }
    } else {
        None
    }
}

/// The pane of the row `vis` rows below the first shown of a column.
pub open spec fn clicked_pane(s: PaneSwitcherState, col: int, vis: int) -> Option<PaneId> {
    let first = if col < s.scroll@.len() {
        s.scroll@[col] as int
    } else {
        0
    };
    if first + vis < s.columns@[col]@.len() {
        match s.columns@[col]@[first + vis] {
            SwitcherRow::Pane { pane_id, .. } => Some(pane_id),
            SwitcherRow::TabHeader(_) => None,
        }
    } else {
        None
    }
}

/// `after` is `before` with the switcher closed and the pane focused, if there
/// is one and the window holds it.
pub open spec fn is_left_for(after: KovaView, before: KovaView, id: Option<PaneId>) -> bool {
    let closed = Overlays { pane_switcher: None, ..before.overlays };
    match id {
        Some(p) if view::some_tab_has(before.tabs@, p) => {
            let ti = view::tab_of(before.tabs@, p);
            &&& ipc::is_focus_taken(after.tabs@[ti], before.tabs@[ti], p)
            &&& after.tabs@ == before.tabs@.update(ti, after.tabs@[ti])
            &&& after.active_tab == ti
            &&& after.effects@ == before.effects@ + ipc::focus_effects(before.tabs@[ti], p) + seq![
                Effect::MarkDirty,
            ]
            &&& after == (KovaView {
                tabs: after.tabs,
                active_tab: after.active_tab,
                overlays: closed,
                effects: after.effects,
                ..before
            })
        },
        _ => {
            &&& after.effects@ == before.effects@.push(Effect::MarkDirty)
            &&& after == (KovaView { overlays: closed, effects: after.effects, ..before })
        },
    }
}

/// The rows of each listed tab.
pub open spec fn are_groups(
    groups: Seq<Seq<SwitcherRow>>,
    tabs: Seq<Tab>,
    active: int,
    unread: bool,
) -> bool {
    let l = listed_tabs(tabs, active, unread);
    &&& groups.len() == l.len()
    &&& forall|k: int|
        0 <= k < l.len() ==> is_group(#[trigger] groups[k], tabs[l[k]], l[k], active, unread)
}

/// How many rows the tabs take.
pub open spec fn row_count(tabs: Seq<Tab>) -> int
    decreases tabs.len(),
{
    if tabs.len() == 0 {
        0
    } else {
        row_count(tabs.drop_last()) + tabs.last().panes@.len() + 1
    }
}

/// Some pane is listed.
pub open spec fn any_listed(tabs: Seq<Tab>, active: int, unread: bool) -> bool {
    exists|i: int|
        0 <= i < tabs.len() && listed(
            (#[trigger] tabs[i]).panes@,
            tabs[i],
            i == active,
            unread,
        ).len() > 0
}

proof fn lemma_row_count(groups: Seq<Seq<SwitcherRow>>, tabs: Seq<Tab>, active: int, unread: bool)
    requires
        are_groups(groups, tabs, active, unread),
    ensures
        flat(groups).len() <= row_count(tabs),
        forall|k: int| 0 <= k < groups.len() ==> (#[trigger] groups[k]).len() > 0,
    decreases tabs.len(),
{
    let l = listed_tabs(tabs, active, unread);
    assert forall|k: int| 0 <= k < groups.len() implies (#[trigger] groups[k]).len() > 0 by {
        assert(is_group(groups[k], tabs[l[k]], l[k], active, unread));
    }
    if tabs.len() > 0 {
        let t = tabs.drop_last();
        let i = tabs.len() - 1;
        let before = listed_tabs(t, active, unread);
        lemma_listed_tabs(t, active, unread);
        lemma_listed(tabs[i].panes@, tabs[i], i == active, unread);
        let g = groups.take(before.len() as int);
        assert forall|k: int| 0 <= k < before.len() implies is_group(
            #[trigger] g[k],
            t[before[k]],
            before[k],
            active,
            unread,
        ) by {
            assert(l[k] == before[k]);
            assert(is_group(groups[k], tabs[l[k]], l[k], active, unread));
        }
        lemma_row_count(g, t, active, unread);
        if l.len() > before.len() {
            assert(is_group(groups[l.len() - 1], tabs[i], i, active, unread)) by {
                assert(l[l.len() - 1] == i);
            }
            assert(groups.drop_last() =~= g);
        } else {
            assert(groups =~= g);
        }
    } else {
        assert(groups =~= Seq::empty());
    }
}

/// A window with a listed pane has a listed tab.
proof fn lemma_any_listed(tabs: Seq<Tab>, active: int, unread: bool)
    requires
        any_listed(tabs, active, unread),
    ensures
        listed_tabs(tabs, active, unread).len() > 0,
    decreases tabs.len(),
{
    let t = tabs.drop_last();
    let last = tabs.len() - 1;
    if listed(tabs[last].panes@, tabs[last], last == active, unread).len() == 0 {
        let i = choose|i: int|
            0 <= i < tabs.len() && listed(
                (#[trigger] tabs[i]).panes@,
                tabs[i],
                i == active,
                unread,
            ).len() > 0;
        assert(t[i] == tabs[i]);
        lemma_any_listed(t, active, unread);
    }
}

/// The first row of a pane from `from` on, the length without one.
pub open spec fn row_with(rows: Seq<SwitcherRow>, id: PaneId, from: int) -> int
    decreases rows.len() - from,
{
    if from >= rows.len() {
        rows.len() as int
    } else if rows[from] matches SwitcherRow::Pane { pane_id, .. } && pane_id == id {
        from
    } else {
        row_with(rows, id, from + 1)
    }
}

/// The first column from `from` on that lists a pane, the length without one.
pub open spec fn col_with(columns: Seq<Seq<SwitcherRow>>, id: PaneId, from: int) -> int
    decreases columns.len() - from,
{
    if from >= columns.len() {
        columns.len() as int
    } else if row_with(columns[from], id, 0) < columns[from].len() {
        from
    } else {
        col_with(columns, id, from + 1)
    }
}

/// The row selected in a new list: the picked pane's, else the one selected at
/// first.
pub open spec fn selection_of(columns: Seq<Seq<SwitcherRow>>, pick: Option<PaneId>) -> (int, int) {
    match pick {
        Some(id) if col_with(columns, id, 0) < columns.len() => {
            let c = col_with(columns, id, 0);
            (c, row_with(columns[c], id, 0))
        },
        _ => first_selection(columns),
    }
}

fn find_row_with(rows: &Vec<SwitcherRow>, id: PaneId) -> (r: usize)
    ensures
        r == row_with(rows@, id, 0),
        r <= rows@.len(),
{
    let mut i: usize = 0;
    while i < rows.len()
        invariant
            i <= rows@.len(),
            row_with(rows@, id, i as int) == row_with(rows@, id, 0),
        decreases rows@.len() - i,
    {
        match &rows[i] {
            SwitcherRow::Pane { pane_id, .. } => {
                if *pane_id == id {
                    return i;
                }
            },
            SwitcherRow::TabHeader(_) => {},
        }
        i = i + 1;
    }
    i
}

/// The row to select in a new list.
fn pick_selection(columns: &Vec<Vec<SwitcherRow>>, pick: Option<PaneId>) -> (sel: (usize, usize))
    requires
        columns@.len() > 0,
        forall|c: int| 0 <= c < columns@.len() ==> (#[trigger] columns@[c])@.len() > 0,
    ensures
        (sel.0 as int, sel.1 as int) == selection_of(inner(columns@), pick),
        sel.0 < columns@.len(),
        sel.1 < columns@[sel.0 as int]@.len(),
{
    let ghost cols = inner(columns@);
    match pick {
        Some(id) => {
            let mut c: usize = 0;
            while c < columns.len()
                invariant
                    pick == Some(id),
                    c <= columns@.len(),
                    cols == inner(columns@),
                    col_with(cols, id, c as int) == col_with(cols, id, 0),
                decreases columns@.len() - c,
            {
                assert(cols[c as int] == columns@[c as int]@);
                let r = find_row_with(&columns[c], id);
                if r < columns[c].len() {
                    return (c, r);
                }
                c = c + 1;
            }
        },
        None => {},
    }
    proof {
        assert forall|c: int| 0 <= c < cols.len() implies (#[trigger] cols[c]).len() > 0 by {
            assert(columns@[c]@.len() > 0);
        }
        lemma_selected_in_range(cols);
    }
    let sel = initial_selection(columns);
    assert(cols[sel.0 as int] == columns@[sel.0 as int]@);
    sel
}

/// `s` lists the panes of the tabs, with the row of `pick` selected.
pub open spec fn is_listing(
    s: PaneSwitcherState,
    tabs: Seq<Tab>,
    active: int,
    unread: bool,
    pick: Option<PaneId>,
    shown: Option<usize>,
) -> bool {
    &&& s.wf()
    &&& s.unread_only == unread
    &&& exists|groups: Seq<Seq<SwitcherRow>>|
        {
            let cols = layout(groups);
            let zero = Seq::new(cols.len(), |i: int| 0usize);
            &&& #[trigger] are_groups(groups, tabs, active, unread)
            &&& inner(s.columns@) == cols
            &&& (s.selected_col as int, s.selected_row as int) == selection_of(cols, pick)
            &&& s.scroll@ == (match shown {
                Some(n) => zero.update(
                    s.selected_col as int,
                    scrolled_to(0, s.selected_row as int, at_least_one(n)) as usize,
                ),
                None => zero,
            })
        }
}

/// What opening the pane switcher does: without a pane to go to, nothing.
pub open spec fn is_switcher_open(
    after: KovaView,
    before: KovaView,
    unread: bool,
    shown: Option<usize>,
) -> bool {
    if any_listed(before.tabs@, before.active_tab as int, unread) {
        &&& after.overlays.pane_switcher matches Some(s) && is_listing(
            s,
            before.tabs@,
            before.active_tab as int,
            unread,
            None,
            shown,
        )
        &&& after.effects@ == before.effects@.push(Effect::MarkDirty)
        &&& after == (KovaView {
            overlays: Overlays {
                pane_switcher: after.overlays.pane_switcher,
                ..before.overlays
            },
            effects: after.effects,
            ..before
        })
    } else {
        after == before
    }
}

/// The listed panes of a tab, as rows below its header.
fn list_tab(tab: &Tab, ti: usize, active: bool, unread: bool) -> (rows: Vec<SwitcherRow>)
    requires
        ti < usize::MAX,
    ensures
        forall|at: int| #[trigger]
            is_group(rows@, *tab, ti as int, at, unread) || (ti == at) != active,
        rows@.len() == listed(tab.panes@, *tab, active, unread).len() + 1,
{
    let mut header = String::new();
    text::push_decimal(&mut header, ti as u64 + 1);
    header.append("  ");
    let title = tab.title();
    header.append(title.as_str());
    assert(header@ =~= text::decimal((ti + 1) as nat) + "  "@ + tab.shown_title()@);
    let ghost panes = tab.panes@;
    let mut rows: Vec<SwitcherRow> = Vec::new();
    rows.push(SwitcherRow::TabHeader(header));
    assert(panes.take(0) =~= seq![]);
    for k in 0..tab.panes.len()
        invariant
            panes == tab.panes@,
            rows@.len() == listed(panes.take(k as int), *tab, active, unread).len() + 1,
            rows@[0] == SwitcherRow::TabHeader(header),
            forall|m: int|
                0 <= m < rows@.len() - 1 ==> (#[trigger] rows@[m + 1]) == row_for(
                    listed(panes.take(k as int), *tab, active, unread)[m],
                    *tab,
                    active,
                ),
    {
        let p = &tab.panes[k];
        let ghost prev = rows@;
        let ghost before = listed(panes.take(k as int), *tab, active, unread);
        assert(panes.take(k + 1).drop_last() =~= panes.take(k as int));
        assert(panes.take(k + 1).last() == *p);
        let here: bool = active && p.id == tab.focused_pane;
        if !unread || sidebar_ui::pane_flags(p, here).is_unread() {
            rows.push(
                SwitcherRow::Pane {
                    pane_id: p.id,
                    title: p.term.display_title.clone(),
                    is_current: here,
                },
            );
            let ghost now = listed(panes.take(k + 1), *tab, active, unread);
            assert(now == before.push(*p));
            assert forall|m: int| 0 <= m < rows@.len() - 1 implies (#[trigger] rows@[m + 1])
                == row_for(now[m], *tab, active) by {
                if m < prev.len() - 1 {
                    assert(rows@[m + 1] == prev[m + 1]);
                    assert(now[m] == before[m]);
                }
            }
        }
    }
    assert(panes.take(panes.len() as int) =~= panes);
    rows
}

impl KovaView {
    /// The rows of each listed tab.
    fn switcher_groups(&self, unread: bool) -> (groups: Vec<Vec<SwitcherRow>>)
        ensures
            are_groups(inner(groups@), self.tabs@, self.active_tab as int, unread),
    {
        let ghost all = self.tabs@;
        let ghost at = self.active_tab as int;
        let mut groups: Vec<Vec<SwitcherRow>> = Vec::new();
        assert(all.take(0) =~= seq![]);
        for ti in 0..self.tabs.len()
            invariant
                all == self.tabs@,
                at == self.active_tab,
                groups@.len() == listed_tabs(all.take(ti as int), at, unread).len(),
                forall|k: int|
                    0 <= k < groups@.len() ==> is_group(
                        (#[trigger] groups@[k])@,
                        all[listed_tabs(all.take(ti as int), at, unread)[k]],
                        listed_tabs(all.take(ti as int), at, unread)[k],
                        at,
                        unread,
                    ),
        {
            let active: bool = ti == self.active_tab;
            let ghost prev = groups@;
            let ghost before = listed_tabs(all.take(ti as int), at, unread);
            let ghost now = listed_tabs(all.take(ti + 1), at, unread);
            assert(all.take(ti + 1).drop_last() =~= all.take(ti as int));
            assert(all.take(ti + 1)[ti as int] == all[ti as int]);
            let rows = list_tab(&self.tabs[ti], ti, active, unread);
            assert(is_group(rows@, all[ti as int], ti as int, at, unread));
            if !unread || rows.len() > 1 {
                groups.push(rows);
                assert(now == before.push(ti as int));
                assert forall|k: int| 0 <= k < groups@.len() implies is_group(
                    (#[trigger] groups@[k])@,
                    all[now[k]],
                    now[k],
                    at,
                    unread,
                ) by {
                    if k < prev.len() {
                        assert(groups@[k] == prev[k]);
                        assert(now[k] == before[k]);
                    }
                }
            } else {
                assert(now == before);
            }
        }
        assert(all.take(all.len() as int) =~= all);
        let ghost l = listed_tabs(all, at, unread);
        assert forall|k: int| 0 <= k < l.len() implies is_group(
            #[trigger] inner(groups@)[k],
            all[l[k]],
            l[k],
            at,
            unread,
        ) by {
            assert(is_group(groups@[k]@, all[l[k]], l[k], at, unread));
        }
        groups
    }

    /// Whether some pane is listed.
    fn lists_any(&self, unread: bool) -> (r: bool)
        ensures
            r == any_listed(self.tabs@, self.active_tab as int, unread),
    {
        let ghost at = self.active_tab as int;
        for i in 0..self.tabs.len()
            invariant
                at == self.active_tab,
                forall|k: int|
                    0 <= k < i ==> listed(
                        (#[trigger] self.tabs@[k]).panes@,
                        self.tabs@[k],
                        k == at,
                        unread,
                    ).len() == 0,
        {
            let rows = list_tab(&self.tabs[i], i, i == self.active_tab, unread);
            if rows.len() > 1 {
                assert(listed(
                    self.tabs@[i as int].panes@,
                    self.tabs@[i as int],
                    i as int == at,
                    unread,
                ).len() > 0);
                return true;
            }
        }
        false
    }

    /// A new list of the panes, with the row of `pick` selected.
    fn list_panes(&self, unread: bool, pick: Option<PaneId>, shown: Option<usize>) -> (s:
        PaneSwitcherState)
        requires
            row_count(self.tabs@) <= usize::MAX,
            any_listed(self.tabs@, self.active_tab as int, unread),
        ensures
            is_listing(s, self.tabs@, self.active_tab as int, unread, pick, shown),
    {
        let groups = self.switcher_groups(unread);
        let ghost gs = inner(groups@);
        proof {
            lemma_any_listed(self.tabs@, self.active_tab as int, unread);
            lemma_row_count(gs, self.tabs@, self.active_tab as int, unread);
            layout_keeps_every_row(gs);
        }
        let columns = balance(groups);
        let ghost cols = inner(columns@);
        assert(cols.len() == columns@.len());
        proof {
            lemma_columns_filled(gs);
            assert forall|c: int| 0 <= c < columns@.len() implies (#[trigger] columns@[c])@.len()
                > 0 by {
                assert(cols[c].len() > 0);
            }
        }
        let (selected_col, selected_row) = pick_selection(&columns, pick);
        let mut scroll: Vec<usize> = Vec::new();
        for i in 0..columns.len()
            invariant
                scroll@ == Seq::new(i as nat, |k: int| 0usize),
        {
            scroll.push(0);
            assert(scroll@ =~= Seq::new((i + 1) as nat, |k: int| 0usize));
        }
        let mut state = PaneSwitcherState {
            columns,
            selected_col,
            selected_row,
            scroll,
            unread_only: unread,
        };
        match shown {
            Some(n) => {
                state.clamp_scroll(n);
            },
            None => {},
        }
        assert(are_groups(gs, self.tabs@, self.active_tab as int, unread));
        state
    }

    /// Open the switcher on the current pane, listing every pane or those that
    /// ask for something; `shown` is how many rows fit on screen, if that is
    /// known. Nothing happens without a pane to switch to.
    pub fn open_pane_switcher(&mut self, unread: bool, shown: Option<usize>)
        requires
            row_count(old(self).tabs@) <= usize::MAX,
        ensures
            is_switcher_open(*final(self), *old(self), unread, shown),
    {
        if !self.lists_any(unread) {
            return;
        }
        let state = self.list_panes(unread, None, shown);
        self.overlays.pane_switcher = Some(state);
        self.mark_dirty();
    }

    /// Open the switcher on the current pane, listing every pane.
    pub fn do_open_pane_switcher(&mut self, shown: Option<usize>)
        requires
            row_count(old(self).tabs@) <= usize::MAX,
        ensures
            is_switcher_open(*final(self), *old(self), false, shown),
    {
        self.open_pane_switcher(false, shown)
    }
}

/// No column is empty when no group is.
proof fn lemma_columns_filled(groups: Seq<Seq<SwitcherRow>>)
    requires
        groups.len() > 0,
        forall|i: int| 0 <= i < groups.len() ==> (#[trigger] groups[i]).len() > 0,
    ensures
        forall|c: int| 0 <= c < layout(groups).len() ==> (#[trigger] layout(groups)[c]).len() > 0,
{
    lemma_balanced_filled(
        groups,
        flat(groups).len() as int,
        column_limit(groups.len() as int),
    );
}

proof fn lemma_balanced_filled(groups: Seq<Seq<SwitcherRow>>, total: int, ncols: int)
    requires
        forall|i: int| 0 <= i < groups.len() ==> (#[trigger] groups[i]).len() > 0,
    ensures
        ({
            let s = balanced(groups, total, ncols);
            &&& forall|c: int| 0 <= c < s.0.len() ==> (#[trigger] s.0[c]).len() > 0
            &&& groups.len() > 0 ==> s.1.len() > 0
        }),
    decreases groups.len(),
{
    if groups.len() > 0 {
        let prev = groups.drop_last();
        assert forall|i: int| 0 <= i < prev.len() implies (#[trigger] prev[i]).len() > 0 by {
            assert(groups[i].len() > 0);
        }
        lemma_balanced_filled(prev, total, ncols);
        assert(groups[groups.len() - 1].len() > 0);
        let p = balanced(prev, total, ncols);
        let s = balanced(groups, total, ncols);
        if closes_column(
            total - p.2,
            ncols - p.0.len(),
            p.1.len() as int,
            groups.last().len() as int,
        ) {
            assert forall|c: int| 0 <= c < s.0.len() implies (#[trigger] s.0[c]).len() > 0 by {
                if c < p.0.len() {
                    assert(s.0[c] == p.0[c]);
                }
            }
        }
    }
}

proof fn lemma_selected_in_range(columns: Seq<Seq<SwitcherRow>>)
    requires
        columns.len() > 0,
        forall|c: int| 0 <= c < columns.len() ==> (#[trigger] columns[c]).len() > 0,
    ensures
        ({
            let sel = first_selection(columns);
            &&& 0 <= sel.0 < columns.len()
            &&& 0 <= sel.1 < columns[sel.0].len()
        }),
{
    lemma_current_col_from(columns, 0);
    lemma_pane_col_from(columns, 0);
    assert(columns[0].len() > 0);
    let c = current_col_from(columns, 0);
    if c < columns.len() {
        lemma_current_row_from(columns[c], 0);
    }
    let p = pane_col_from(columns, 0);
    if p < columns.len() {
        lemma_pane_row_from(columns[p], 0);
    }
}

proof fn lemma_current_row_from(rows: Seq<SwitcherRow>, from: int)
    requires
        0 <= from <= rows.len(),
    ensures
        from <= current_row_from(rows, from) <= rows.len(),
    decreases rows.len() - from,
{
    if from < rows.len() && !rows[from].current() {
        lemma_current_row_from(rows, from + 1);
    }
}

proof fn lemma_current_col_from(columns: Seq<Seq<SwitcherRow>>, from: int)
    requires
        0 <= from <= columns.len(),
    ensures
        from <= current_col_from(columns, from) <= columns.len(),
        current_col_from(columns, from) < columns.len() ==> current_row_from(
            columns[current_col_from(columns, from)],
            0,
        ) < columns[current_col_from(columns, from)].len(),
    decreases columns.len() - from,
{
    if from < columns.len() && !(current_row_from(columns[from], 0) < columns[from].len()) {
        lemma_current_col_from(columns, from + 1);
    }
}

proof fn lemma_pane_col_from(columns: Seq<Seq<SwitcherRow>>, from: int)
    requires
        0 <= from <= columns.len(),
    ensures
        from <= pane_col_from(columns, from) <= columns.len(),
        pane_col_from(columns, from) < columns.len() ==> pane_row_from(
            columns[pane_col_from(columns, from)],
            0,
        ) < columns[pane_col_from(columns, from)].len(),
    decreases columns.len() - from,
{
    if from < columns.len() && !(pane_row_from(columns[from], 0) < columns[from].len()) {
        lemma_pane_col_from(columns, from + 1);
    }
}

/// The key flips the switcher between every pane and those that ask for
/// something.
pub open spec fn flips(key: KeyPress) -> bool {
    key.ch == 'u' && !key.cmd && !key.ctrl && !key.option
}

/// The key moves the selected pane in its tab.
pub open spec fn shifts(key: KeyPress) -> bool {
    key.cmd && (key.code == KEY_UP || key.code == KEY_DOWN)
}

/// The place next to `i` in a tab of `len` panes, up or down, if there is one.
pub open spec fn next_place(i: int, len: int, up: bool) -> Option<int> {
    if up {
        if i > 0 {
            Some(i - 1)
        } else {
            None
        }
    } else if i + 1 < len {
        Some(i + 1)
    } else {
        None
    }
}

/// The place a pane moves to in its tab's order, if it can.
pub open spec fn shift_of(tabs: Seq<Tab>, id: Option<PaneId>, up: bool) -> Option<(int, int, int)> {
    match id {
        Some(p) if view::some_tab_has(tabs, p) => {
            let ti = view::tab_of(tabs, p);
            let i = pane::pos(tabs[ti].panes@, p);
            match next_place(i, tabs[ti].panes@.len() as int, up) {
                Some(j) => Some((ti, i, j)),
                None => None,
            }
        },
        _ => None,
    }
}

/// `after` is `before` with the selected pane moved one place up or down its
/// tab's order, and still selected; at the end of the order nothing happens.
pub open spec fn is_pane_shifted(
    after: KovaView,
    before: KovaView,
    s: PaneSwitcherState,
    up: bool,
    shown: Option<usize>,
) -> bool {
    match shift_of(before.tabs@, selected_pane(s), up) {
        None => after == before,
        Some((ti, i, j)) => {
            let b = before.tabs@[ti];
            let t = after.tabs@[ti];
            &&& t.panes@ == pane::places_traded(b.panes@, i, j)
            &&& t == (Tab { panes: t.panes, ..b })
            &&& after.tabs@ == before.tabs@.update(ti, t)
            &&& if any_listed(after.tabs@, before.active_tab as int, s.unread_only) {
                after.overlays.pane_switcher matches Some(n) && is_listing(
                    n,
                    after.tabs@,
                    before.active_tab as int,
                    s.unread_only,
                    selected_pane(s),
                    shown,
                )
            } else {
                after.overlays.pane_switcher is None
            }
            &&& after.effects@ == before.effects@ + seq![
                Effect::DirtyTab(b.id),
                Effect::ResizePanes,
                Effect::MarkDirty,
            ]
            &&& after == (KovaView {
                tabs: after.tabs,
                overlays: Overlays {
                    pane_switcher: after.overlays.pane_switcher,
                    ..before.overlays
                },
                effects: after.effects,
                ..before
            })
        },
    }
}

/// Moving a pane up and then down again leaves its tab as it was.
pub proof fn shifting_back_restores_the_order(panes: Seq<Pane>, i: int, j: int)
    requires
        0 <= i < panes.len(),
        next_place(i, panes.len() as int, true) == Some(j),
    ensures
        next_place(j, panes.len() as int, false) == Some(i),
        pane::places_traded(pane::places_traded(panes, i, j), j, i) == panes,
{
    assert(pane::places_traded(pane::places_traded(panes, i, j), j, i) =~= panes);
}

/// What a key does in the pane switcher.
pub open spec fn is_switcher_keyed(
    after: KovaView,
    before: KovaView,
    key: KeyPress,
    shown: Option<usize>,
) -> bool {
    match before.overlays.pane_switcher {
        None => if key.code == KEY_ESCAPE || key.code == KEY_ENTER {
            is_left_for(after, before, None)
        } else {
            after == before
        },
        Some(s) => if key.code == KEY_ESCAPE {
            is_left_for(after, before, None)
        } else if key.code == KEY_ENTER {
            is_left_for(after, before, selected_pane(s))
        } else if flips(key) {
            is_switcher_open(after, before, !s.unread_only, shown)
        } else if shifts(key) {
            is_pane_shifted(after, before, s, key.code == KEY_UP, shown)
        } else if is_arrow(key.code) {
            &&& after.overlays.pane_switcher matches Some(next) && next.wf()
                && exists|mid: PaneSwitcherState|
                {
                    &&& #[trigger] is_moved(mid, s, key.code)
                    &&& next.scroll@ == (match shown {
                        Some(n) => scroll_settled(mid, n),
                        None => mid.scroll@,
                    })
                    &&& next == (PaneSwitcherState { scroll: next.scroll, ..mid })
                }
            &&& after.effects@ == before.effects@.push(Effect::MarkDirty)
            &&& after == (KovaView {
                overlays: Overlays {
                    pane_switcher: after.overlays.pane_switcher,
                    ..before.overlays
                },
                effects: after.effects,
                ..before
            })
        } else {
            after == before
        },
    }
}

proof fn lemma_same_row_count(a: Seq<Tab>, b: Seq<Tab>)
    requires
        a.len() == b.len(),
        forall|i: int| 0 <= i < a.len() ==> (#[trigger] a[i]).panes@.len() == b[i].panes@.len(),
    ensures
        row_count(a) == row_count(b),
    decreases a.len(),
{
    if a.len() > 0 {
        let x = a.drop_last();
        let y = b.drop_last();
        assert forall|i: int| 0 <= i < x.len() implies (#[trigger] x[i]).panes@.len()
            == y[i].panes@.len() by {
            assert(a[i].panes@.len() == b[i].panes@.len());
        }
        lemma_same_row_count(x, y);
        assert(a[a.len() - 1].panes@.len() == b[b.len() - 1].panes@.len());
    }
}

impl KovaView {
    /// The pane of the switcher's selected row.
    fn switcher_choice(&self) -> (id: Option<PaneId>)
        ensures
            id == (match self.overlays.pane_switcher {
                Some(s) => selected_pane(s),
                None => None,
            }),
    {
        match &self.overlays.pane_switcher {
            Some(s) => {
                if s.selected_col < s.columns.len() && s.selected_row
                    < s.columns[s.selected_col].len() {
                    match &s.columns[s.selected_col][s.selected_row] {
                        SwitcherRow::Pane { pane_id, .. } => Some(*pane_id),
                        SwitcherRow::TabHeader(_) => None,
                    }
                } else {
                    None
                }
            },
            None => None,
        }
    }

    /// Put two panes of a tab in each other's place.
    fn trade_in_tab(&mut self, ti: usize, i: usize, j: usize)
        requires
            old(self).wf(),
            ti < old(self).tabs@.len(),
            i < old(self).tabs@[ti as int].panes@.len(),
            j < old(self).tabs@[ti as int].panes@.len(),
            i != j,
        ensures
            ({
                let b = old(self).tabs@[ti as int];
                let t = final(self).tabs@[ti as int];
                &&& t.panes@ == pane::places_traded(b.panes@, i as int, j as int)
                &&& t == (Tab { panes: t.panes, ..b })
                &&& final(self).tabs@ == old(self).tabs@.update(ti as int, t)
                &&& *final(self) == (KovaView { tabs: final(self).tabs, ..*old(self) })
            }),
            row_count(final(self).tabs@) == row_count(old(self).tabs@),
            final(self).wf(),
    {
        let ghost b = self.tabs@[ti as int];
        assert(b.wf());
        self.tabs[ti].trade_places(i, j);
        proof {
            let t = self.tabs@[ti as int];
            pane::lemma_places_traded(b.panes@, i as int, j as int);
            assert(self.tabs@ =~= old(self).tabs@.update(ti as int, t));
            assert(t.wf());
            tabs::lemma_tabs_update(old(self).tabs@, ti as int, t);
            lemma_same_row_count(self.tabs@, old(self).tabs@);
        }
    }

    /// List the panes anew with `pick` selected, and close the switcher when
    /// none is left to list.
    fn relist(&mut self, unread: bool, pick: Option<PaneId>, shown: Option<usize>)
        requires
            row_count(old(self).tabs@) <= usize::MAX,
        ensures
            if any_listed(old(self).tabs@, old(self).active_tab as int, unread) {
                final(self).overlays.pane_switcher matches Some(n) && is_listing(
                    n,
                    old(self).tabs@,
                    old(self).active_tab as int,
                    unread,
                    pick,
                    shown,
                )
            } else {
                final(self).overlays.pane_switcher is None
            },
            *final(self) == (KovaView {
                overlays: Overlays {
                    pane_switcher: final(self).overlays.pane_switcher,
                    ..old(self).overlays
                },
                ..*old(self)
            }),
    {
        if self.lists_any(unread) {
            let state = self.list_panes(unread, pick, shown);
            self.overlays.pane_switcher = Some(state);
        } else {
            self.overlays.pane_switcher = None;
        }
    }

    /// The tab, the place and the next place of a pane, if it can move.
    fn find_shift(&self, id: Option<PaneId>, up: bool) -> (r: Option<(usize, usize, usize)>)
        ensures
            match r {
                Some((ti, i, j)) => {
                    &&& shift_of(self.tabs@, id, up) == Some((ti as int, i as int, j as int))
                    &&& ti < self.tabs@.len()
                    &&& i < self.tabs@[ti as int].panes@.len()
                    &&& j < self.tabs@[ti as int].panes@.len()
                    &&& i != j
                },
                None => shift_of(self.tabs@, id, up) is None,
            },
    {
        let id: PaneId = match id {
            Some(id) => id,
            None => {
                return None;
            },
        };
        proof {
            view::lemma_tab_of(self.tabs@, id);
        }
        let ti = self.find_tab_of(id);
        if ti >= self.tabs.len() {
            return None;
        }
        let i = self.tabs[ti].find(id);
        let len: usize = self.tabs[ti].panes.len();
        proof {
            pane::lemma_pos(self.tabs@[ti as int].panes@, id);
        }
        if up {
            if i == 0 {
                None
            } else {
                Some((ti, i, i - 1))
            }
        } else if len - i > 1 {
            Some((ti, i, i + 1))
        } else {
            None
        }
    }

    /// Move the selected pane one place up or down its tab's order.
    fn shift_selected(&mut self, up: bool, shown: Option<usize>)
        requires
            old(self).wf(),
            row_count(old(self).tabs@) <= usize::MAX,
            old(self).overlays.pane_switcher matches Some(s) && s.wf(),
        ensures
            is_pane_shifted(
                *final(self),
                *old(self),
                old(self).overlays.pane_switcher->0,
                up,
                shown,
            ),
            final(self).overlays.pane_switcher matches Some(s) ==> s.wf(),
            final(self).wf(),
    {
        let choice = self.switcher_choice();
        let unread: bool = match &self.overlays.pane_switcher {
            Some(s) => s.unread_only,
            None => false,
        };
        match self.find_shift(choice, up) {
            None => {},
            Some((ti, i, j)) => {
                let tab_id: TabId = self.tabs[ti].id;
                self.trade_in_tab(ti, i, j);
                self.relist(unread, choice, shown);
                self.emit(Effect::DirtyTab(tab_id));
                self.emit(Effect::ResizePanes);
                self.mark_dirty();
                assert(self.effects@ =~= old(self).effects@ + seq![
                    Effect::DirtyTab(tab_id),
                    Effect::ResizePanes,
                    Effect::MarkDirty,
                ]);
            },
        }
    }

    /// The switcher's keys: escape closes it, enter focuses the selected pane,
    /// the arrows move the selection, and the pane itself with Cmd; `u` flips
    /// between every pane and those that ask for something. Other keys do
    /// nothing.
    pub fn handle_pane_switcher_key(&mut self, key: KeyPress, shown: Option<usize>)
        requires
            old(self).wf(),
            old(self).overlays.pane_switcher matches Some(s) ==> s.wf(),
            row_count(old(self).tabs@) <= usize::MAX,
        ensures
            is_switcher_keyed(*final(self), *old(self), key, shown),
            final(self).overlays.pane_switcher matches Some(s) ==> s.wf(),
            final(self).wf(),
    {
        let code: u16 = key.code;
        if code == KEY_ESCAPE {
            self.overlays.pane_switcher = None;
            self.mark_dirty();
            return;
        }
        if code == KEY_ENTER {
            self.pane_switcher_focus_selected();
            return;
        }
        let unread: bool = match &self.overlays.pane_switcher {
            Some(s) => s.unread_only,
            None => {
                return;
            },
        };
        if key.ch == 'u' && !key.cmd && !key.ctrl && !key.option {
            self.open_pane_switcher(!unread, shown);
            return;
        }
        if key.cmd && (code == KEY_UP || code == KEY_DOWN) {
            self.shift_selected(code == KEY_UP, shown);
            return;
        }
        if !(code == KEY_UP || code == KEY_DOWN || code == KEY_LEFT || code == KEY_RIGHT) {
            return;
        }
        match self.overlays.pane_switcher.take() {
            None => {},
            Some(state) => {
                let mut state = state;
                state.step(code);
                let ghost mid = state;
                match shown {
                    Some(n) => {
                        state.clamp_scroll(n);
                    },
                    None => {},
                }
                self.overlays.pane_switcher = Some(state);
                assert(is_moved(mid, old(self).overlays.pane_switcher->0, code));
                self.mark_dirty();
            },
        }
    }

    /// Close the switcher and focus the pane of its selected row.
    pub fn pane_switcher_focus_selected(&mut self)
        requires
            old(self).wf(),
        ensures
            final(self).wf(),
            is_left_for(
                *final(self),
                *old(self),
                match old(self).overlays.pane_switcher {
                    Some(s) => selected_pane(s),
                    None => None,
                },
            ),
    {
        let mut pane_id: Option<PaneId> = None;
        match &self.overlays.pane_switcher {
            Some(s) => {
                if s.selected_col < s.columns.len() && s.selected_row
                    < s.columns[s.selected_col].len() {
                    match &s.columns[s.selected_col][s.selected_row] {
                        SwitcherRow::Pane { pane_id: id, .. } => {
                            pane_id = Some(*id);
                        },
                        SwitcherRow::TabHeader(_) => {},
                    }
                }
            },
            None => {},
        }
        self.leave_switcher(pane_id);
    }

    /// Close the switcher and focus a pane.
    fn leave_switcher(&mut self, pane_id: Option<PaneId>)
        requires
            old(self).wf(),
        ensures
            final(self).wf(),
            is_left_for(*final(self), *old(self), pane_id),
    {
        self.overlays.pane_switcher = None;
        let ghost mid = *self;
        match pane_id {
            Some(id) => {
                self.ipc_focus_pane(id);
                proof {
                    assert(view::some_tab_has(mid.tabs@, id) ==> self.effects@.push(Effect::MarkDirty) =~= mid.effects@
                        + ipc::focus_effects(mid.tabs@[view::tab_of(mid.tabs@, id)], id) + seq![
                        Effect::MarkDirty,
                    ]);
                }
            },
            None => {},
        }
        self.mark_dirty();
    }

    /// Scroll a column of the switcher by a number of rows; the selection
    /// stays.
    pub fn handle_pane_switcher_scroll(&mut self, col: usize, lines: i32, shown: usize)
        requires
            old(self).overlays.pane_switcher matches Some(s) ==> col < s.columns@.len(),
        ensures
            match old(self).overlays.pane_switcher {
                Some(s) if col < s.scroll@.len() && lines != 0 && wheeled(
                    s.scroll@[col as int] as int,
                    lines as int,
                    s.columns@[col as int]@.len() as int,
                    at_least_one(shown),
                ) != s.scroll@[col as int] => {
                    &&& final(self).overlays.pane_switcher matches Some(after) && after.scroll@
                        == s.scroll@.update(
                        col as int,
                        wheeled(
                            s.scroll@[col as int] as int,
                            lines as int,
                            s.columns@[col as int]@.len() as int,
                            at_least_one(shown),
                        ) as usize,
                    ) && after == (PaneSwitcherState { scroll: after.scroll, ..s })
                    &&& final(self).effects@ == old(self).effects@.push(Effect::MarkDirty)
                    &&& *final(self) == (KovaView {
                        overlays: Overlays {
                            pane_switcher: final(self).overlays.pane_switcher,
                            ..old(self).overlays
                        },
                        effects: final(self).effects,
                        ..*old(self)
                    })
                },
                _ => *final(self) == *old(self),
            },
    {
        if lines == 0 {
            return;
        }
        match self.overlays.pane_switcher.take() {
            None => {},
            Some(state) => {
                let mut state = state;
                let mut changed = false;
                if col < state.scroll.len() {
                    let next: usize = wheel(
                        state.scroll[col],
                        lines,
                        state.columns[col].len(),
                        shown,
                    );
                    if next != state.scroll[col] {
                        state.scroll[col] = next;
                        changed = true;
                    }
                }
                self.overlays.pane_switcher = Some(state);
                if changed {
                    self.mark_dirty();
                }
            },
        }
    }

    /// A click in the switcher, on the row `hit.1` rows below the first shown
    /// of column `hit.0`, or beside the rows: focus the pane clicked on, and
    /// close the switcher whatever was hit.
    pub fn handle_pane_switcher_click(&mut self, hit: Option<(usize, usize)>)
        requires
            old(self).wf(),
            old(self).overlays.pane_switcher matches Some(s) ==> (hit matches Some(at) ==> at.0
                < s.columns@.len() && (at.0 < s.scroll@.len() ==> s.scroll@[at.0 as int] + at.1
                <= usize::MAX)),
        ensures
            final(self).wf(),
            match old(self).overlays.pane_switcher {
                None => *final(self) == *old(self),
                Some(s) => is_left_for(
                    *final(self),
                    *old(self),
                    match hit {
                        Some(at) => clicked_pane(s, at.0 as int, at.1 as int),
                        None => None,
                    },
                ),
            },
    {
        let mut pane_id: Option<PaneId> = None;
        match &self.overlays.pane_switcher {
            None => {
                return;
            },
            Some(s) => {
                match hit {
                    Some((col, vis)) => {
                        let first: usize = if col < s.scroll.len() {
                            s.scroll[col]
                        } else {
                            0
                        };
                        let idx: usize = first + vis;
                        if idx < s.columns[col].len() {
                            match &s.columns[col][idx] {
                                SwitcherRow::Pane { pane_id: id, .. } => {
                                    pane_id = Some(*id);
                                },
                                SwitcherRow::TabHeader(_) => {},
                            }
                        }
                    },
                    None => {},
                }
            },
        }
        self.leave_switcher(pane_id);
    }
}

/// A scroll offset moved by a number of rows, kept between the top and the
/// last page.
pub open spec fn wheeled(scroll: int, lines: int, len: int, shown: int) -> int {
    let last = if len >= shown {
        len - shown
    } else {
        0
    };
    if scroll + lines < 0 {
        0
    } else if scroll + lines > last {
        last
    } else {
        scroll + lines
    }
}

fn wheel(scroll: usize, lines: i32, len: usize, shown: usize) -> (r: usize)
    ensures
        r == wheeled(scroll as int, lines as int, len as int, at_least_one(shown)),
{
    let n: usize = if shown >= 1 {
        shown
    } else {
        1
    };
    let last: usize = if len >= n {
        len - n
    } else {
        0
    };
    let next: i128 = scroll as i128 + lines as i128;
    if next < 0 {
        0
    } else if next > last as i128 {
        last
    } else {
        next as usize
    }
}

impl PaneSwitcherState {
    /// Move the selection with an arrow.
    fn step(&mut self, code: u16)
        requires
            old(self).wf(),
            is_arrow(code),
        ensures
            is_moved(*final(self), *old(self), code),
            final(self).wf(),
    {
        let c: usize = self.selected_col;
        let row: usize = self.selected_row;
        assert(self.columns.len() == self.columns@.len());
        assert(self.columns@[c as int].len() == self.columns@[c as int]@.len());
        if code == KEY_UP {
            match find_pane_row_before(&self.columns[c], row) {
                Some(i) => {
                    self.selected_row = i;
                },
                None => {},
            }
        } else if code == KEY_DOWN {
            let next: usize = find_pane_row(&self.columns[c], row + 1);
            if next < self.columns[c].len() {
                self.selected_row = next;
            }
        } else if code == KEY_LEFT {
            if c > 0 {
                let r: usize = nearest_pane_row(&self.columns[c - 1], row);
                self.selected_col = c - 1;
                self.selected_row = r;
            }
        } else if c + 1 < self.columns.len() {
            let r: usize = nearest_pane_row(&self.columns[c + 1], row);
            self.selected_col = c + 1;
            self.selected_row = r;
        }
    }
}

/// Up and down select the nearest pane row above and below in the column,
/// passing over the headers; left and right go to the column beside.
pub proof fn arrows_select_the_nearest_pane(
    after: PaneSwitcherState,
    s: PaneSwitcherState,
    code: u16,
)
    requires
        s.wf(),
        is_moved(after, s, code),
    ensures
        after.columns == s.columns,
        code == 0x7E && after.selected_row != s.selected_row ==> {
            let rows = s.columns@[s.selected_col as int]@;
            &&& after.selected_col == s.selected_col
            &&& after.selected_row < s.selected_row
            &&& rows[after.selected_row as int] is Pane
            &&& forall|k: int|
                after.selected_row < k < s.selected_row ==> !(#[trigger] rows[k] is Pane)
        },
        code == 0x7D && after.selected_row != s.selected_row ==> {
            let rows = s.columns@[s.selected_col as int]@;
            &&& after.selected_col == s.selected_col
            &&& s.selected_row < after.selected_row < rows.len()
            &&& rows[after.selected_row as int] is Pane
            &&& forall|k: int|
                s.selected_row < k < after.selected_row ==> !(#[trigger] rows[k] is Pane)
        },
        code == 0x7B ==> after.selected_col == (if s.selected_col > 0 {
            s.selected_col - 1
        } else {
            0
        }),
        code == 0x7C ==> after.selected_col == (if s.selected_col + 1 < s.columns@.len() {
            s.selected_col + 1
        } else {
            s.selected_col as int
        }),
{
    let rows = s.columns@[s.selected_col as int]@;
    assert(rows.len() == s.columns@[s.selected_col as int].len());
    assert(s.columns@.len() == s.columns.len());
    lemma_pane_row_from(rows, s.selected_row + 1);
    lemma_last_pane_row(rows, s.selected_row as int);
}

proof fn lemma_last_pane_row(rows: Seq<SwitcherRow>, upto: int)
    requires
        0 <= upto <= rows.len(),
    ensures
        -1 <= pane_row_before(rows, upto),
        pane_row_before(rows, upto) < upto || upto == 0,
        pane_row_before(rows, upto) >= 0 ==> rows[pane_row_before(rows, upto)] is Pane,
        forall|k: int| pane_row_before(rows, upto) < k < upto ==> !(#[trigger] rows[k] is Pane),
    decreases upto,
{
    if upto > 0 && !(rows[upto - 1] is Pane) {
        lemma_last_pane_row(rows, upto - 1);
    }
}

/// Return on a pane's row closes the switcher and focuses that pane in its
/// tab; escape closes it and focuses nothing new.
pub proof fn return_focuses_the_selected_pane(
    after: KovaView,
    before: KovaView,
    key: KeyPress,
    shown: Option<usize>,
    s: PaneSwitcherState,
    ti: int,
    i: int,
)
    requires
        before.wf(),
        before.overlays.pane_switcher == Some(s),
        s.wf(),
        0 <= ti < before.tabs@.len(),
        0 <= i < before.tabs@[ti].panes@.len(),
        s.columns@[s.selected_col as int]@[s.selected_row as int] matches SwitcherRow::Pane {
            pane_id,
            ..
        } && pane_id == before.tabs@[ti].panes@[i].id,
        is_switcher_keyed(after, before, key, shown),
    ensures
        key.code == 0x24 ==> {
            &&& after.overlays.pane_switcher is None
            &&& after.active_tab == ti
            &&& after.tabs@[ti].focused_pane == before.tabs@[ti].panes@[i].id
            &&& !after.tabs@[ti].panes@[i].minimized
        },
        key.code == 0x35 ==> after.overlays.pane_switcher is None && after.tabs == before.tabs
            && after.active_tab == before.active_tab,
{
    ipc::lemma_here(before, before.tabs@[ti].panes@[i].id, ti, i);
}

/// Command with up moves the selected pane before the one above it in its tab,
/// and with down after the one below it, columns staying where they are.
pub proof fn shifting_moves_the_selected_pane(
    after: KovaView,
    before: KovaView,
    s: PaneSwitcherState,
    up: bool,
    shown: Option<usize>,
    ti: int,
    i: int,
)
    requires
        before.wf(),
        s.wf(),
        0 <= ti < before.tabs@.len(),
        0 <= i < before.tabs@[ti].panes@.len(),
        selected_pane(s) == Some(before.tabs@[ti].panes@[i].id),
        is_pane_shifted(after, before, s, up, shown),
    ensures
        up && i > 0 ==> after.tabs@[ti].panes@[i - 1].id == before.tabs@[ti].panes@[i].id
            && after.tabs@[ti].panes@[i].id == before.tabs@[ti].panes@[i - 1].id,
        up && i == 0 ==> after == before,
        !up && i + 1 < before.tabs@[ti].panes@.len() ==> after.tabs@[ti].panes@[i + 1].id
            == before.tabs@[ti].panes@[i].id && after.tabs@[ti].panes@[i].id
            == before.tabs@[ti].panes@[i + 1].id,
        !up && i + 1 == before.tabs@[ti].panes@.len() ==> after == before,
        forall|k: int|
            0 <= k < before.tabs@[ti].panes@.len() ==> (
            #[trigger] after.tabs@[ti].panes@[k]).column == before.tabs@[ti].panes@[k].column,
{
    ipc::lemma_here(before, before.tabs@[ti].panes@[i].id, ti, i);
}

/// Of the keys of the switcher, `u` alone flips between every pane and those
/// that ask for something, and the arrows with command shift.
pub proof fn keys_of_the_switcher(key: KeyPress)
    ensures
        flips(key) <==> key.ch == 'u' && !key.cmd && !key.ctrl && !key.option,
        shifts(key) <==> key.cmd && (key.code == 0x7E || key.code == 0x7D),
        is_arrow(key.code) <==> key.code == 0x7E || key.code == 0x7D || key.code == 0x7B
            || key.code == 0x7C,
{
}

} // verus!
