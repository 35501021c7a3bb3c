//! Moving the focus, and the panes, around a window.
use crate::mouse;
use crate::pane;
use crate::pane::{NavDirection, PaneId, Tab, TabId};
use crate::tabs;
use crate::view::{BoundaryFlash, BoundaryHit, Effect, FrameState, KovaView};
use vstd::prelude::*;

verus! {

/// Milliseconds within which a second press crosses the edge of a tab.
pub const CROSS_MS: u64 = 500;

/// Nothing of the window changed.
pub open spec fn as_it_was(after: KovaView, before: KovaView) -> bool {
    &&& after.tabs@ == before.tabs@
    &&& after == (KovaView { tabs: after.tabs, ..before })
}

// ---------------------------------------------------------------
// Minimizing
// ---------------------------------------------------------------

/// The tab with its focused pane folded away.
pub open spec fn is_minimized(t: Tab, before: Tab) -> bool {
    let id = before.focused_pane;
    let i = pane::pos(before.panes@, id);
    &&& t.panes@ == before.panes@.update(i, pane::folded(before.panes@[i]))
    &&& t.minimized_stack@ == before.minimized_stack@.push(id)
    &&& pane::first_visible(t.panes@) == Some(t.focused_pane)
    &&& t == (Tab {
        panes: t.panes,
        minimized_stack: t.minimized_stack,
        focused_pane: t.focused_pane,
        ..before
    })
}

/// What folding the focused pane away asks for.
pub open spec fn minimize_effects(t: Tab, before: Tab) -> Seq<Effect> {
    seq![
        Effect::ScaleWidth(
            t.id,
            pane::visible_columns(before.panes@) as usize,
            pane::visible_columns(t.panes@) as usize,
        ),
        Effect::DirtyTab(t.id),
        Effect::ClampScroll(t.id),
        Effect::Reveal(t.id, t.focused_pane),
        Effect::ResizePanes,
    ]
}

/// The tab with its last minimized pane shown again and focused.
pub open spec fn is_brought_back(t: Tab, before: Tab, id: PaneId) -> bool {
    let i = pane::pos(before.panes@, id);
    &&& t.panes@ == before.panes@.update(i, pane::shown(before.panes@[i]))
    &&& t.minimized_stack@ == pane::stack_without(before.minimized_stack@, id)
    &&& t == (Tab {
        panes: t.panes,
        minimized_stack: t.minimized_stack,
        focused_pane: id,
        ..before
    })
}

/// What showing a pane again asks for.
pub open spec fn bring_back_effects(t: Tab, id: PaneId) -> Seq<Effect> {
    seq![
        Effect::RestoreWidth(t.id, id),
        Effect::DirtyTab(t.id),
        Effect::ClampScroll(t.id),
        Effect::Reveal(t.id, id),
        Effect::ResizePanes,
    ]
}

/// Bringing the last minimized pane back undoes minimizing it: the panes and
/// the focus are what they were.
pub proof fn bringing_back_undoes_minimizing(before: Tab, folded: Tab, after: Tab)
    requires
        before.wf(),
        pane::can_minimize(before.panes@, before.focused_pane),
        is_minimized(folded, before),
        is_brought_back(after, folded, before.focused_pane),
    ensures
        pane::last_minimized(folded) == Some(before.focused_pane),
        after.panes@ == before.panes@,
        after.focused_pane == before.focused_pane,
{
    let id = before.focused_pane;
    let i = pane::pos(before.panes@, id);
    pane::lemma_pos(before.panes@, id);
    pane::lemma_update_flags(before.panes@, i, pane::folded(before.panes@[i]));
    pane::lemma_pos(folded.panes@, id);
    let j = pane::pos(folded.panes@, id);
    assert(folded.panes@[i].id == id);
    assert(j == i) by {
        if j < i {
            assert(folded.panes@[j] == before.panes@[j]);
        }
    }
    assert(folded.minimized_stack@.last() == id);
    assert(after.panes@ =~= before.panes@);
}

proof fn lemma_minimized(t: Tab, before: Tab)
    requires
        before.wf(),
        is_minimized(t, before),
    ensures
        t.wf(),
        t.id == before.id,
        forall|x: PaneId| #[trigger]
            pane::has_pane(t.panes@, x) <==> pane::has_pane(before.panes@, x),
{
    let i = pane::pos(before.panes@, before.focused_pane);
    pane::lemma_pos(before.panes@, before.focused_pane);
    pane::lemma_update_flags(before.panes@, i, pane::folded(before.panes@[i]));
    pane::lemma_visible_from(t.panes@, 0);
    assert(pane::has_pane(t.panes@, t.focused_pane));
}

proof fn lemma_brought_back(t: Tab, before: Tab, id: PaneId)
    requires
        before.wf(),
        pane::has_pane(before.panes@, id),
        is_brought_back(t, before, id),
    ensures
        t.wf(),
        t.id == before.id,
        forall|x: PaneId| #[trigger]
            pane::has_pane(t.panes@, x) <==> pane::has_pane(before.panes@, x),
{
    let i = pane::pos(before.panes@, id);
    pane::lemma_pos(before.panes@, id);
    pane::lemma_update_flags(before.panes@, i, pane::shown(before.panes@[i]));
}

impl KovaView {
    fn emit_after_focus(&mut self, tab_id: TabId, id: PaneId)
        ensures
            final(self).effects@ == old(self).effects@ + seq![
                Effect::DirtyTab(tab_id),
                Effect::ClampScroll(tab_id),
                Effect::Reveal(tab_id, id),
                Effect::ResizePanes,
            ],
            *final(self) == (KovaView { effects: final(self).effects, ..*old(self) }),
    {
        self.emit(Effect::DirtyTab(tab_id));
        self.emit(Effect::ClampScroll(tab_id));
        self.emit(Effect::Reveal(tab_id, id));
        self.emit(Effect::ResizePanes);
        assert(self.effects@ =~= old(self).effects@ + seq![
            Effect::DirtyTab(tab_id),
            Effect::ClampScroll(tab_id),
            Effect::Reveal(tab_id, id),
            Effect::ResizePanes,
        ]);
    }

    /// Fold the focused pane away. Nothing happens without an active tab.
    pub fn do_minimize_pane(&mut self)
        requires
            old(self).wf(),
        ensures
            is_minimize_done(*final(self), *old(self)),
            final(self).wf(),
    {
        if self.active_tab >= self.tabs.len() {
            return;
        }
        let ti: usize = self.active_tab;
        let id: PaneId = self.tabs[ti].focused_pane;
        let tab_id: TabId = self.tabs[ti].id;
        let before_cols = self.tabs[ti].num_visible_columns();
        let ghost t = self.tabs@[ti as int];
        assert(t.wf());
        if !self.tabs[ti].minimize_pane(id) {
            assert(self.tabs@ =~= old(self).tabs@);
            return;
        }
        let ghost n = self.tabs@[ti as int];
        proof {
            pane::lemma_pos(t.panes@, id);
            pane::lemma_visible_from(n.panes@, 0);
            let m = choose|m: int|
                0 <= m < t.panes@.len() && m != pane::pos(t.panes@, id) && !(#[trigger] t.panes@[m]).minimized;
            assert(!n.panes@[m].minimized);
            assert(is_minimized(n, t));
            lemma_minimized(n, t);
            assert(self.tabs@ =~= old(self).tabs@.update(ti as int, n));
            tabs::lemma_tabs_update(old(self).tabs@, ti as int, n);
        }
        let after_cols = self.tabs[ti].num_visible_columns();
        let focus: PaneId = self.tabs[ti].focused_pane;
        self.emit(Effect::ScaleWidth(tab_id, before_cols, after_cols));
        self.emit_after_focus(tab_id, focus);
        assert(self.effects@ =~= old(self).effects@ + minimize_effects(n, t));
    }

    /// Show the last minimized pane again. Nothing happens without an active
    /// tab.
    pub fn do_restore_last_minimized(&mut self)
        requires
            old(self).wf(),
        ensures
            is_bring_back_done(*final(self), *old(self)),
            final(self).wf(),
    {
        if self.active_tab >= self.tabs.len() {
            return;
        }
        let ti: usize = self.active_tab;
        let tab_id: TabId = self.tabs[ti].id;
        let ghost t = self.tabs@[ti as int];
        assert(t.wf());
        if !self.tabs[ti].restore_last_minimized() {
            assert(self.tabs@ =~= old(self).tabs@);
            return;
        }
        let ghost n = self.tabs@[ti as int];
        let id: PaneId = self.tabs[ti].focused_pane;
        proof {
            assert(is_brought_back(n, t, id));
            lemma_brought_back(n, t, id);
            assert(self.tabs@ =~= old(self).tabs@.update(ti as int, n));
            tabs::lemma_tabs_update(old(self).tabs@, ti as int, n);
        }
        self.emit(Effect::RestoreWidth(tab_id, id));
        self.emit_after_focus(tab_id, id);
        assert(self.effects@ =~= old(self).effects@ + bring_back_effects(n, id));
    }
}

/// What folding the focused pane away does to a window.
pub open spec fn is_minimize_done(after: KovaView, before: KovaView) -> bool {
    let i = before.active_tab as int;
    let t = before.tabs@[i];
    if before.has_active() && pane::can_minimize(t.panes@, t.focused_pane) {
        &&& is_minimized(after.tabs@[i], t)
        &&& tabs::is_tab_changed(
            after,
            before,
            i,
            after.tabs@[i],
            minimize_effects(after.tabs@[i], t),
        )
    } else {
        as_it_was(after, before)
    }
}

/// What showing the last minimized pane again does to a window.
pub open spec fn is_bring_back_done(after: KovaView, before: KovaView) -> bool {
    let i = before.active_tab as int;
    let t = before.tabs@[i];
    match pane::last_minimized(t) {
        Some(id) if before.has_active() => {
            &&& is_brought_back(after.tabs@[i], t, id)
            &&& tabs::is_tab_changed(
                after,
                before,
                i,
                after.tabs@[i],
                bring_back_effects(after.tabs@[i], id),
            )
        },
        _ => as_it_was(after, before),
    }
}

// ---------------------------------------------------------------
// Navigating
// ---------------------------------------------------------------

/// The way along the tabs a direction goes.
pub open spec fn along_tabs(dir: NavDirection) -> int {
    match dir {
        NavDirection::Left | NavDirection::Up => -1,
        NavDirection::Right | NavDirection::Down => 1,
    }
}

/// The edge of the window a direction runs into.
pub open spec fn edge_of(dir: NavDirection) -> NavDirection {
    match dir {
        NavDirection::Left | NavDirection::Up => NavDirection::Left,
        NavDirection::Right | NavDirection::Down => NavDirection::Right,
    }
}

/// The same edge was run into a moment ago.
pub open spec fn crosses(hit: Option<BoundaryHit>, dir: NavDirection, now: u64) -> bool {
    hit matches Some(h) && h.direction == dir && now < h.time + CROSS_MS
}

/// The focus moved to a neighbour in the active tab.
pub open spec fn is_focus_stepped(after: KovaView, before: KovaView, next: PaneId) -> bool {
    let i = before.active_tab as int;
    let t = before.tabs@[i];
    &&& mouse::is_focus_moved(after.tabs@[i], t, next)
    &&& tabs::is_tab_changed(
        after,
        before,
        i,
        after.tabs@[i],
        seq![
            Effect::DirtyPane(t.focused_pane),
            Effect::DirtyPane(next),
            Effect::Reveal(t.id, next),
        ],
    )
}

/// The focus crossed to the next tab, to its nearest pane.
pub open spec fn is_crossed(after: KovaView, before: KovaView, dir: NavDirection) -> bool {
    let i = tabs::tab_away(before.active_tab as int, along_tabs(dir), before.tabs@.len() as int);
    let t = before.tabs@[i];
    let target = if along_tabs(dir) > 0 {
        t.panes@[0].id
    } else {
        t.panes@.last().id
    };
    &&& after.tabs@ == before.tabs@.update(
        i,
        Tab { has_bell: false, has_completion: false, focused_pane: target, ..t },
    )
    &&& after.active_tab == i
    &&& after.effects@ == before.effects@ + seq![
        Effect::DirtyTab(t.id),
        Effect::ResizePanes,
        Effect::Reveal(t.id, target),
    ]
    &&& after == (KovaView {
        tabs: after.tabs,
        active_tab: after.active_tab,
        frame: FrameState { boundary_hit: None, boundary_flash: None, ..before.frame },
        effects: after.effects,
        ..before
    })
}

/// The edge flashes, and is remembered for a second press.
pub open spec fn is_edge_hit(after: KovaView, before: KovaView, dir: NavDirection, now: u64) -> bool {
    &&& after.effects@ == before.effects@.push(Effect::MarkDirty)
    &&& after == (KovaView {
        frame: FrameState {
            boundary_hit: Some(BoundaryHit { time: now, direction: dir }),
            boundary_flash: Some(
                BoundaryFlash { edge: edge_of(dir), remaining_frames: before.frame.fps / 4 },
            ),
            ..before.frame
        },
        effects: after.effects,
        ..before
    })
}

/// What navigating does to a window: the focus steps to the neighbour; with
/// none, a second press within the time crosses to the next tab, and a first
/// one flashes the edge. A window with one tab has no edge to cross, and one
/// without a tab no focus to move.
pub open spec fn is_navigated(
    after: KovaView,
    before: KovaView,
    dir: NavDirection,
    neighbor: Option<PaneId>,
    now: u64,
) -> bool {
    match neighbor {
        Some(n) => if before.has_active() {
            is_focus_stepped(after, before, n)
        } else {
            after == before
        },
        None => if before.tabs@.len() <= 1 {
            after == before
        } else if crosses(before.frame.boundary_hit, dir, now) {
            is_crossed(after, before, dir)
        } else {
            is_edge_hit(after, before, dir, now)
        },
    }
}

/// A first press at an edge never leaves the tab, and arms the second.
pub proof fn crossing_takes_two_presses(
    before: KovaView,
    mid: KovaView,
    after: KovaView,
    dir: NavDirection,
    first: u64,
    second: u64,
)
    requires
        before.wf(),
        before.tabs@.len() > 1,
        !crosses(before.frame.boundary_hit, dir, first),
        is_navigated(mid, before, dir, None, first),
        is_navigated(after, mid, dir, None, second),
        first <= second,
    ensures
        mid.active_tab == before.active_tab,
        second < first + CROSS_MS ==> is_crossed(after, mid, dir),
        second >= first + CROSS_MS ==> after.active_tab == before.active_tab,
{
}

/// A press that crosses the left or the upper edge leads to the tab before, to
/// its last pane; one that crosses the right or the lower edge leads to the tab
/// after, to its first pane. Past either end the tabs go around.
pub proof fn crossing_leads_to_the_adjacent_tab(
    after: KovaView,
    before: KovaView,
    dir: NavDirection,
    now: u64,
)
    requires
        before.wf(),
        before.tabs@.len() > 1,
        before.frame.boundary_hit matches Some(h) && h.direction == dir && now < h.time + 500,
        is_navigated(after, before, dir, None, now),
    ensures
        (dir == NavDirection::Left || dir == NavDirection::Up) && before.active_tab > 0
            ==> after.active_tab == before.active_tab - 1,
        (dir == NavDirection::Left || dir == NavDirection::Up) && before.active_tab == 0
            ==> after.active_tab == before.tabs@.len() - 1,
        (dir == NavDirection::Right || dir == NavDirection::Down) && before.active_tab
            < before.tabs@.len() - 1 ==> after.active_tab == before.active_tab + 1,
        (dir == NavDirection::Right || dir == NavDirection::Down) && before.active_tab
            == before.tabs@.len() - 1 ==> after.active_tab == 0,
        after.tabs@.len() == before.tabs@.len(),
        forall|k: int|
            0 <= k < before.tabs@.len() ==> (#[trigger] after.tabs@[k]).id == before.tabs@[k].id
                && after.tabs@[k].panes@ == before.tabs@[k].panes@,
        forall|k: int|
            0 <= k < before.tabs@.len() && k != after.active_tab ==> after.tabs@[k]
                == before.tabs@[k],
        ({
            let panes = before.tabs@[after.active_tab as int].panes@;
            let focus = after.tabs@[after.active_tab as int].focused_pane;
            if dir == NavDirection::Left || dir == NavDirection::Up {
                focus == panes[panes.len() - 1].id
            } else {
                focus == panes[0].id
            }
        }),
        after.frame.boundary_hit is None,
{
    let len = before.tabs@.len() as int;
    let k = before.active_tab as int;
    if dir == NavDirection::Left || dir == NavDirection::Up {
        lemma_one_away(k, -1, len);
    } else {
        lemma_one_away(k, 1, len);
    }
}

/// A press at an edge that was not run into a moment ago in the same direction
/// stays on the tab, and is remembered.
pub proof fn a_first_press_stays_on_the_tab(
    after: KovaView,
    before: KovaView,
    dir: NavDirection,
    now: u64,
)
    requires
        before.tabs@.len() > 1,
        before.frame.boundary_hit matches Some(h) ==> h.direction != dir || now >= h.time + 500,
        is_navigated(after, before, dir, None, now),
    ensures
        after.tabs == before.tabs,
        after.active_tab == before.active_tab,
        after.frame.boundary_hit matches Some(h) && h.direction == dir && h.time == now,
        after.frame.boundary_flash matches Some(f) && (f.edge == NavDirection::Left <==> (dir
            == NavDirection::Left || dir == NavDirection::Up)) && (f.edge == NavDirection::Right
            <==> (dir == NavDirection::Right || dir == NavDirection::Down)),
{
}

/// Crossing to the right and back to the left leads to the tab it started
/// from.
pub proof fn crossing_back_leads_back(
    before: KovaView,
    over: KovaView,
    armed: KovaView,
    back: KovaView,
    there: NavDirection,
    here: NavDirection,
    t1: u64,
    t2: u64,
    t3: u64,
)
    requires
        before.wf(),
        over.wf(),
        before.tabs@.len() > 1,
        there == NavDirection::Right || there == NavDirection::Down,
        here == NavDirection::Left || here == NavDirection::Up,
        before.frame.boundary_hit matches Some(h) && h.direction == there && t1 < h.time + 500,
        is_navigated(over, before, there, None, t1),
        is_navigated(armed, over, here, None, t2),
        t2 <= t3 < t2 + 500,
        is_navigated(back, armed, here, None, t3),
    ensures
        over.active_tab != before.active_tab,
        armed.active_tab == over.active_tab,
        back.active_tab == before.active_tab,
{
    crossing_leads_to_the_adjacent_tab(over, before, there, t1);
    a_first_press_stays_on_the_tab(armed, over, here, t2);
    crossing_leads_to_the_adjacent_tab(back, armed, here, t3);
}

/// With a neighbour the focus goes to it, in the same tab, and what the
/// neighbour announced is acknowledged; the panes stay where they are.
pub proof fn a_step_focuses_the_neighbour(
    after: KovaView,
    before: KovaView,
    dir: NavDirection,
    next: PaneId,
    now: u64,
)
    requires
        before.wf(),
        before.has_active(),
        pane::has_pane(before.active().panes@, next),
        is_navigated(after, before, dir, Some(next), now),
    ensures
        after.active_tab == before.active_tab,
        after.tabs@.len() == before.tabs@.len(),
        after.active().focused_pane == next,
        after.active().panes@.len() == before.active().panes@.len(),
        forall|k: int|
            0 <= k < before.active().panes@.len() ==> (#[trigger] after.active().panes@[k]).id
                == before.active().panes@[k].id && after.active().panes@[k].column
                == before.active().panes@[k].column,
        next != before.active().focused_pane ==> forall|k: int|
            0 <= k < before.active().panes@.len() && before.active().panes@[k].id == next
                ==> !(#[trigger] after.active().panes@[k]).bell,
        forall|k: int|
            0 <= k < before.tabs@.len() && k != before.active_tab ==> after.tabs@[k]
                == before.tabs@[k],
{
    let t = before.active();
    pane::lemma_pos(t.panes@, next);
}

pub proof fn lemma_one_away(k: int, delta: int, count: int)
    requires
        0 <= k < count,
        count > 1,
        delta == 1 || delta == -1,
    ensures
        delta == -1 && k > 0 ==> tabs::tab_away(k, delta, count) == k - 1,
        delta == -1 && k == 0 ==> tabs::tab_away(k, delta, count) == count - 1,
        delta == 1 && k < count - 1 ==> tabs::tab_away(k, delta, count) == k + 1,
        delta == 1 && k == count - 1 ==> tabs::tab_away(k, delta, count) == 0,
{
    let x = k + delta;
    if x < 0 {
        assert(x % count == count - 1) by (nonlinear_arith)
            requires
                x == -1,
                count > 1,
        ;
    } else if x == count {
        assert(x % count == 0) by (nonlinear_arith)
            requires
                x == count,
                count > 1,
        ;
    } else {
        assert(x % count == x) by (nonlinear_arith)
            requires
                0 <= x < count,
        ;
    }
}

impl KovaView {
    fn step_focus(&mut self, next: PaneId)
        requires
            old(self).wf(),
            old(self).has_active(),
            pane::has_pane(old(self).active().panes@, next),
        ensures
            is_focus_stepped(*final(self), *old(self), next),
            final(self).wf(),
    {
        let ti: usize = self.active_tab;
        let from: PaneId = self.tabs[ti].focused_pane;
        let tab_id: TabId = self.tabs[ti].id;
        self.tabs[ti].move_focus(next);
        proof {
            let t = old(self).tabs@[ti as int];
            let n = self.tabs@[ti as int];
            assert(self.tabs@ =~= old(self).tabs@.update(ti as int, n));
            assert(t.wf());
            mouse::lemma_focus_moved(n, t, next);
            tabs::lemma_tabs_update(old(self).tabs@, ti as int, n);
        }
        self.emit(Effect::DirtyPane(from));
        self.emit(Effect::DirtyPane(next));
        self.emit(Effect::Reveal(tab_id, next));
        assert(self.effects@ =~= old(self).effects@ + seq![
            Effect::DirtyPane(from),
            Effect::DirtyPane(next),
            Effect::Reveal(tab_id, next),
        ]);
    }

    fn cross_edge(&mut self, dir: NavDirection)
        requires
            old(self).wf(),
            old(self).tabs@.len() > 1,
        ensures
            is_crossed(*final(self), *old(self), dir),
            final(self).wf(),
    {
        self.frame.boundary_hit = None;
        self.frame.boundary_flash = None;
        let forward: bool = match dir {
            NavDirection::Left | NavDirection::Up => false,
            NavDirection::Right | NavDirection::Down => true,
        };
        let ghost i = tabs::tab_away(
            self.active_tab as int,
            along_tabs(dir),
            self.tabs@.len() as int,
        );
        proof {
            lemma_away_moves(self.active_tab as int, along_tabs(dir), self.tabs@.len() as int);
        }
        self.do_switch_tab_relative(
            if forward {
                1
            } else {
                -1
            },
        );
        let ti: usize = self.active_tab;
        let ghost mid = self.tabs@;
        assert(mid[ti as int].wf());
        let target: PaneId = if forward {
            self.tabs[ti].first_pane_id()
        } else {
            self.tabs[ti].last_pane_id()
        };
        let tab_id: TabId = self.tabs[ti].id;
        self.tabs[ti].focused_pane = target;
        proof {
            let n = self.tabs@[ti as int];
            let t = mid[ti as int];
            assert(self.tabs@ =~= mid.update(ti as int, n));
            assert(pane::has_pane(t.panes@, target)) by {
                if forward {
                    assert(t.panes@[0].id == target);
                } else {
                    assert(t.panes@[t.panes@.len() - 1].id == target);
                }
            }
            assert(n.wf());
            tabs::lemma_tabs_update(mid, ti as int, n);
            assert(self.tabs@ =~= old(self).tabs@.update(i, n));
        }
        self.emit(Effect::Reveal(tab_id, target));
        assert(self.effects@ =~= old(self).effects@ + seq![
            Effect::DirtyTab(tab_id),
            Effect::ResizePanes,
            Effect::Reveal(tab_id, target),
        ]);
    }

    /// Move the focus to the neighbour in a direction, or across the edge of
    /// the tab on a second press. Nothing happens without an active tab.
    pub fn do_navigate(&mut self, dir: NavDirection, neighbor: Option<PaneId>, now: u64)
        requires
            old(self).wf(),
            old(self).has_active() ==> (neighbor matches Some(n) ==> pane::has_pane(
                old(self).active().panes@,
                n,
            )),
        ensures
            is_navigated(*final(self), *old(self), dir, neighbor, now),
            final(self).wf(),
    {
        if self.active_tab >= self.tabs.len() {
            return;
        }
        match neighbor {
            Some(n) => {
                self.step_focus(n);
                return;
            },
            None => {},
        }
        if self.tabs.len() <= 1 {
            return;
        }
        match self.frame.boundary_hit {
            Some(h) => {
                if h.direction == dir && (h.time > now || now - h.time < CROSS_MS) {
                    self.cross_edge(dir);
                    return;
                }
            },
            None => {},
        }
        self.frame.boundary_hit = Some(BoundaryHit { time: now, direction: dir });
        let edge = match dir {
            NavDirection::Left | NavDirection::Up => NavDirection::Left,
            NavDirection::Right | NavDirection::Down => NavDirection::Right,
        };
        self.frame.boundary_flash = Some(
            BoundaryFlash { edge, remaining_frames: self.frame.fps / 4 },
        );
        self.mark_dirty();
    }
}

proof fn lemma_away_moves(current: int, delta: int, count: int)
    requires
        0 <= current < count,
        count > 1,
        delta == 1 || delta == -1,
    ensures
        0 <= tabs::tab_away(current, delta, count) < count,
        tabs::tab_away(current, delta, count) != current,
{
    lemma_one_away(current, delta, count);
}

// ---------------------------------------------------------------
// Moving panes
// ---------------------------------------------------------------

/// What swapping the focused pane with a neighbour does to a window.
pub open spec fn is_swap_done(
    after: KovaView,
    before: KovaView,
    dir: NavDirection,
    neighbor: Option<PaneId>,
) -> bool {
    let i = before.active_tab as int;
    let t = before.tabs@[i];
    let id = t.focused_pane;
    match neighbor {
        Some(n) if before.has_active() && pane::can_swap(t.panes@, id, n, dir) => {
            &&& after.tabs@[i].panes@ == pane::swapped(
                t.panes@,
                pane::pos(t.panes@, id),
                pane::pos(t.panes@, n),
            )
            &&& after.tabs@[i] == (Tab { panes: after.tabs@[i].panes, ..t })
            &&& tabs::is_tab_changed(
                after,
                before,
                i,
                after.tabs@[i],
                seq![
                    Effect::DirtyPane(id),
                    Effect::DirtyPane(n),
                    Effect::Reveal(t.id, id),
                    Effect::ResizePanes,
                ],
            )
        },
        _ => as_it_was(after, before),
    }
}

/// The tab can stand in for the other: it is whole, has its id, and brings no
/// pane of its own.
pub open spec fn can_take(t: Tab, before: Tab) -> bool {
    &&& t.wf()
    &&& t.id == before.id
    &&& forall|id: PaneId| #[trigger]
        pane::has_pane(t.panes@, id) ==> pane::has_pane(before.panes@, id)
}

/// What moving the focused pane in the split does.
pub open spec fn is_reparented(
    after: KovaView,
    before: KovaView,
    rearranged: Option<Tab>,
) -> bool {
    match rearranged {
        Some(t) if before.has_active() => tabs::is_tab_changed(
            after,
            before,
            before.active_tab as int,
            t,
            seq![Effect::ResizePanes],
        ),
        _ => after == before,
    }
}

impl KovaView {
    /// Swap the focused pane with its neighbour in a direction.
    pub fn do_swap_pane(&mut self, dir: NavDirection, neighbor: Option<PaneId>)
        requires
            old(self).wf(),
        ensures
            is_swap_done(*final(self), *old(self), dir, neighbor),
            final(self).wf(),
    {
        if self.active_tab >= self.tabs.len() {
            return;
        }
        let n: PaneId = match neighbor {
            Some(n) => n,
            None => {
                return;
            },
        };
        let ti: usize = self.active_tab;
        let id: PaneId = self.tabs[ti].focused_pane;
        let tab_id: TabId = self.tabs[ti].id;
        let ghost t = self.tabs@[ti as int];
        assert(t.wf());
        if !self.tabs[ti].swap_panes(id, n, dir) {
            assert(self.tabs@ =~= old(self).tabs@);
            return;
        }
        proof {
            let s = self.tabs@[ti as int];
            pane::lemma_pos(t.panes@, id);
            pane::lemma_pos(t.panes@, n);
            pane::lemma_swapped(t.panes@, pane::pos(t.panes@, id), pane::pos(t.panes@, n));
            assert(s.wf());
            assert(self.tabs@ =~= old(self).tabs@.update(ti as int, s));
            tabs::lemma_tabs_update(old(self).tabs@, ti as int, s);
        }
        self.emit(Effect::DirtyPane(id));
        self.emit(Effect::DirtyPane(n));
        self.emit(Effect::Reveal(tab_id, id));
        self.emit(Effect::ResizePanes);
        assert(self.effects@ =~= old(self).effects@ + seq![
            Effect::DirtyPane(id),
            Effect::DirtyPane(n),
            Effect::Reveal(tab_id, id),
            Effect::ResizePanes,
        ]);
    }

    /// Put the active tab's panes in a new arrangement: `rearranged` is what
    /// moving its focused pane in the split gave, nothing when it cannot
    /// move.
    pub fn do_reparent_pane(&mut self, rearranged: Option<Tab>)
        requires
            old(self).wf(),
            old(self).has_active() ==> (rearranged matches Some(t) ==> can_take(
                t,
                old(self).active(),
            )),
        ensures
            is_reparented(*final(self), *old(self), rearranged),
            final(self).wf(),
    {
        if self.active_tab >= self.tabs.len() {
            return;
        }
        match rearranged {
            Some(t) => {
                let ti: usize = self.active_tab;
                proof {
                    tabs::lemma_tabs_update(self.tabs@, ti as int, t);
                }
                self.tabs.set(ti, t);
                self.emit(Effect::ResizePanes);
                assert(self.effects@ =~= old(self).effects@ + seq![Effect::ResizePanes]);
            },
            None => {},
        }
    }
}

} // verus!
