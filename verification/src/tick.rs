//! One frame of a window: what is counted, polled and told the programs, and
//! what the renderer is handed.
use crate::pane;
use crate::pane::{Pane, PaneId, Tab, TabId};
use crate::reap;
use crate::resize;
use crate::resize::{arm_timer, step_timers, POST_RESTORE_CHECK_FRAMES};
use crate::sidebar_model::copy_text;
use crate::tabs;
use crate::text;
use crate::view;
use crate::view::{
    BoundaryFlash, Effect, FrameState, KovaView, PaneFlash, PaneTimer, ResizeFeedback,
    ResizeState,
};
use vstd::prelude::*;

verus! {

/// Frames between two looks at the foreground processes.
pub const FG_POLL_FRAMES: u32 = 30;

// ---------------------------------------------------------------
// Window sizes put back
// ---------------------------------------------------------------

/// The true sizes of the panes of a tab whose nudge has lasted long enough.
pub open spec fn sizes_in(panes: Seq<Pane>, due: Seq<PaneId>) -> Seq<Effect>
    decreases panes.len(),
{
    if panes.len() == 0 {
        seq![]
    } else {
        let p = panes.last();
        let before = sizes_in(panes.drop_last(), due);
        if due.contains(p.id) {
            before.push(Effect::PtyResize(p.id, p.term.cols, p.term.rows))
        } else {
            before
        }
    }
}

/// The checks owed once those sizes are put back.
pub open spec fn checks_in(checks: Seq<PaneTimer>, panes: Seq<Pane>, due: Seq<PaneId>) -> Seq<
    PaneTimer,
>
    decreases panes.len(),
{
    if panes.len() == 0 {
        checks
    } else {
        let p = panes.last();
        let before = checks_in(checks, panes.drop_last(), due);
        if due.contains(p.id) {
            resize::timer_armed(before, p.id, POST_RESTORE_CHECK_FRAMES)
        } else {
            before
        }
    }
}

pub open spec fn sizes_of(tabs: Seq<Tab>, due: Seq<PaneId>) -> Seq<Effect>
    decreases tabs.len(),
{
    if tabs.len() == 0 {
        seq![]
    } else {
        sizes_of(tabs.drop_last(), due) + sizes_in(tabs.last().panes@, due)
    }
}

pub open spec fn checks_of(checks: Seq<PaneTimer>, tabs: Seq<Tab>, due: Seq<PaneId>) -> Seq<
    PaneTimer,
>
    decreases tabs.len(),
{
    if tabs.len() == 0 {
        checks
    } else {
        checks_in(checks_of(checks, tabs.drop_last(), due), tabs.last().panes@, due)
    }
}

/// `after` is `before` with the nudges that lasted long enough undone.
pub open spec fn is_sizes_restored(after: KovaView, before: KovaView) -> bool {
    let due = resize::due(before.resizes.pty_restore@);
    &&& after.resizes.pty_restore@ == resize::running(before.resizes.pty_restore@)
    &&& after.resizes.post_restore_checks@ == checks_of(
        before.resizes.post_restore_checks@,
        before.tabs@,
        due,
    )
    &&& after.effects@ == before.effects@ + sizes_of(before.tabs@, due)
    &&& after == (KovaView {
        resizes: ResizeState {
            pty_restore: after.resizes.pty_restore,
            post_restore_checks: after.resizes.post_restore_checks,
            ..before.resizes
        },
        effects: after.effects,
        ..before
    })
}

impl KovaView {
    fn restore_sizes_in(&mut self, ti: usize, due: &Vec<PaneId>)
        requires
            ti < old(self).tabs@.len(),
        ensures
            final(self).resizes.post_restore_checks@ == checks_in(
                old(self).resizes.post_restore_checks@,
                old(self).tabs@[ti as int].panes@,
                due@,
            ),
            final(self).effects@ == old(self).effects@ + sizes_in(
                old(self).tabs@[ti as int].panes@,
                due@,
            ),
            *final(self) == (KovaView {
                resizes: ResizeState {
                    post_restore_checks: final(self).resizes.post_restore_checks,
                    ..old(self).resizes
                },
                effects: final(self).effects,
                ..*old(self)
            }),
    {
        let ghost panes = self.tabs@[ti as int].panes@;
        let n: usize = self.tabs[ti].panes.len();
        assert(panes.take(0) =~= seq![]);
        assert(self.effects@ =~= old(self).effects@ + sizes_in(seq![], due@));
        for k in 0..n
            invariant
                ti < self.tabs@.len(),
                panes == self.tabs@[ti as int].panes@,
                n == panes.len(),
                self.resizes.post_restore_checks@ == checks_in(
                    old(self).resizes.post_restore_checks@,
                    panes.take(k as int),
                    due@,
                ),
                self.effects@ == old(self).effects@ + sizes_in(panes.take(k as int), due@),
                *self == (KovaView {
                    resizes: ResizeState {
                        post_restore_checks: self.resizes.post_restore_checks,
                        ..old(self).resizes
                    },
                    effects: self.effects,
                    ..*old(self)
                }),
        {
            assert(panes.take(k + 1).drop_last() =~= panes.take(k as int));
            let id: PaneId = self.tabs[ti].panes[k].id;
            if pane::lists_id(due, id) {
                let cols: u16 = self.tabs[ti].panes[k].term.cols;
                let rows: u16 = self.tabs[ti].panes[k].term.rows;
                self.emit(Effect::PtyResize(id, cols, rows));
                arm_timer(
                    &mut self.resizes.post_restore_checks,
                    id,
                    POST_RESTORE_CHECK_FRAMES,
                );
            }
            assert(self.effects@ =~= old(self).effects@ + sizes_in(panes.take(k + 1), due@));
        }
        assert(panes.take(panes.len() as int) =~= panes);
    }

    /// Put the window sizes back whose nudge has lasted long enough. The sizes
    /// are read now: a resize meanwhile has set new ones.
    pub fn restore_winsizes(&mut self)
        ensures
            is_sizes_restored(*final(self), *old(self)),
    {
        let due = step_timers(&mut self.resizes.pty_restore);
        let ghost mid = *self;
        let ghost all = self.tabs@;
        let n: usize = self.tabs.len();
        assert(all.take(0) =~= seq![]);
        assert(self.effects@ =~= mid.effects@ + sizes_of(seq![], due@));
        for i in 0..n
            invariant
                all == self.tabs@,
                n == all.len(),
                self.resizes.post_restore_checks@ == checks_of(
                    mid.resizes.post_restore_checks@,
                    all.take(i as int),
                    due@,
                ),
                self.effects@ == mid.effects@ + sizes_of(all.take(i as int), due@),
                *self == (KovaView {
                    resizes: ResizeState {
                        post_restore_checks: self.resizes.post_restore_checks,
                        ..mid.resizes
                    },
                    effects: self.effects,
                    ..mid
                }),
        {
            assert(all.take(i + 1).drop_last() =~= all.take(i as int));
            self.restore_sizes_in(i, &due);
            assert(self.effects@ =~= mid.effects@ + sizes_of(all.take(i + 1), due@));
        }
        assert(all.take(all.len() as int) =~= all);
    }
}

// ---------------------------------------------------------------
// Polls
// ---------------------------------------------------------------

/// A counter after one more frame: around to 0 at the limit.
pub open spec fn counted(count: u32, limit: u32) -> u32 {
    if count + 1 >= limit {
        0
    } else {
        (count + 1) as u32
    }
}

/// `after` is `before` with the branches polled if it is time.
pub open spec fn is_git_counted(after: KovaView, before: KovaView) -> bool {
    let f = before.frame;
    &&& after.effects@ == before.effects@ + (if f.git_poll_counter + 1 >= f.git_poll_interval {
        seq![Effect::PollBranches]
    } else {
        seq![]
    })
    &&& after == (KovaView {
        frame: FrameState {
            git_poll_counter: counted(f.git_poll_counter, f.git_poll_interval),
            ..f
        },
        effects: after.effects,
        ..before
    })
}

/// `after` is `before` with the foreground processes polled if it is time.
pub open spec fn is_fg_counted(after: KovaView, before: KovaView) -> bool {
    let f = before.frame;
    &&& after.effects@ == before.effects@ + (if f.fg_poll_counter + 1 >= FG_POLL_FRAMES {
        seq![Effect::PollProcesses]
    } else {
        seq![]
    })
    &&& after == (KovaView {
        frame: FrameState { fg_poll_counter: counted(f.fg_poll_counter, FG_POLL_FRAMES), ..f },
        effects: after.effects,
        ..before
    })
}

/// The poll counters stay in range.
pub open spec fn counters_ok(f: FrameState) -> bool {
    f.git_poll_counter < u32::MAX && f.fg_poll_counter < u32::MAX
}

/// The pane's branch, and whether it has changed.
pub open spec fn with_branch(p: Pane, branch: Option<String>) -> Pane {
    Pane { term: pane::TermFacts { git_branch: branch, ..p.term }, ..p }
}

/// The same optional text.
pub open spec fn same_opt(a: Option<String>, b: Option<String>) -> bool {
    match (a, b) {
        (Some(x), Some(y)) => x@ == y@,
        (None, None) => true,
        _ => false,
    }
}

fn is_same_opt(a: &Option<String>, b: &Option<String>) -> (r: bool)
    ensures
        r == same_opt(*a, *b),
{
    match (a, b) {
        (Some(x), Some(y)) => text::same_text(x.as_str(), y.as_str()),
        (None, None) => true,
        _ => false,
    }
}

impl KovaView {
    /// Count a frame towards the next poll of the git branches.
    pub fn count_git_poll(&mut self)
        requires
            counters_ok(old(self).frame),
        ensures
            is_git_counted(*final(self), *old(self)),
            counters_ok(final(self).frame),
    {
        let count: u32 = self.frame.git_poll_counter + 1;
        if count >= self.frame.git_poll_interval {
            self.frame.git_poll_counter = 0;
            self.emit(Effect::PollBranches);
        } else {
            self.frame.git_poll_counter = count;
        }
        assert(self.effects@ =~= old(self).effects@ + (if count
            >= old(self).frame.git_poll_interval {
            seq![Effect::PollBranches]
        } else {
            seq![]
        }));
    }

    /// Count a frame towards the next look at the foreground processes.
    pub fn count_fg_poll(&mut self)
        requires
            counters_ok(old(self).frame),
        ensures
            is_fg_counted(*final(self), *old(self)),
            counters_ok(final(self).frame),
    {
        let count: u32 = self.frame.fg_poll_counter + 1;
        if count >= FG_POLL_FRAMES {
            self.frame.fg_poll_counter = 0;
            self.emit(Effect::PollProcesses);
        } else {
            self.frame.fg_poll_counter = count;
        }
        assert(self.effects@ =~= old(self).effects@ + (if count >= FG_POLL_FRAMES {
            seq![Effect::PollProcesses]
        } else {
            seq![]
        }));
    }

    /// The git branch a poll found for a pane: a new one is shown.
    pub fn note_git_branch(&mut self, pane_id: PaneId, branch: Option<String>)
        ensures
            ({
                let ti = view::tab_of(old(self).tabs@, pane_id);
                let p = resize::pane_of(old(self).tabs@, pane_id);
                if view::some_tab_has(old(self).tabs@, pane_id) && p.term.cwd is Some && !same_opt(
                    p.term.git_branch,
                    branch,
                ) {
                    &&& view::pane_replaced(
                        final(self).tabs@,
                        old(self).tabs@,
                        ti,
                        pane::pos(old(self).tabs@[ti].panes@, pane_id),
                        with_branch(p, branch),
                    )
                    &&& final(self).effects@ == old(self).effects@.push(Effect::DirtyPane(pane_id))
                    &&& *final(self) == (KovaView {
                        tabs: final(self).tabs,
                        effects: final(self).effects,
                        ..*old(self)
                    })
                } else {
                    *final(self) == *old(self)
                }
            }),
            old(self).wf() ==> final(self).wf(),
    {
        proof {
            view::lemma_tab_of(self.tabs@, pane_id);
        }
        let ti = self.find_tab_of(pane_id);
        if ti >= self.tabs.len() {
            return;
        }
        let at = self.tabs[ti].find(pane_id);
        proof {
            pane::lemma_pos(self.tabs@[ti as int].panes@, pane_id);
        }
        let ghost p = self.tabs@[ti as int].panes@[at as int];
        if self.tabs[ti].panes[at].term.cwd.is_none() || is_same_opt(
            &self.tabs[ti].panes[at].term.git_branch,
            &branch,
        ) {
            return;
        }
        self.tabs[ti].panes[at].set_branch(branch);
        proof {
            assert(self.tabs@[ti as int].panes@ =~= old(self).tabs@[ti as int].panes@.update(
                at as int,
                with_branch(p, branch),
            ));
            if old(self).wf() {
                view::lemma_pane_replaced(
                    self.tabs@,
                    old(self).tabs@,
                    ti as int,
                    at as int,
                    with_branch(p, branch),
                );
            }
        }
        self.emit(Effect::DirtyPane(pane_id));
    }
}

impl Pane {
    fn set_branch(&mut self, branch: Option<String>)
        ensures
            *final(self) == with_branch(*old(self), branch),
    {
        self.term.git_branch = branch;
    }
}

// ---------------------------------------------------------------
// Drag selections
// ---------------------------------------------------------------

/// `after` is `before` with the selection dragged on, if one is.
pub open spec fn is_drag_scrolled(after: KovaView, before: KovaView) -> bool {
    let speed = before.pointer.auto_scroll_speed;
    match before.focused() {
        Some(p) if speed != 0 && p.term.has_selection => {
            &&& after.effects@ == before.effects@.push(Effect::DragScroll(p.id, speed))
            &&& after == (KovaView { effects: after.effects, ..before })
        },
        _ => after == before,
    }
}

/// Where the end of a dragged selection goes: the first cell shown when it is
/// dragged up, the last one when it is dragged down.
pub open spec fn drag_end(
    speed: i32,
    scrollback: int,
    offset: int,
    rows: int,
    cols: int,
) -> (int, int) {
    if speed < 0 {
        (scrollback - offset, 0)
    } else {
        (
            scrollback - offset + rows - 1,
            if cols > 0 {
                cols - 1
            } else {
                0
            },
        )
    }
}

/// Where the end of a dragged selection goes, from the lines scrolled out of
/// the pane, how far back it is scrolled, and its size.
pub fn drag_selection_end(
    speed: i32,
    scrollback: usize,
    offset: usize,
    rows: u16,
    cols: u16,
) -> (end: (usize, u16))
    requires
        offset <= scrollback,
        speed >= 0 ==> scrollback - offset + rows >= 1,
        scrollback + rows <= usize::MAX,
    ensures
        (end.0 as int, end.1 as int) == drag_end(
            speed,
            scrollback as int,
            offset as int,
            rows as int,
            cols as int,
        ),
{
    if speed < 0 {
        (scrollback - offset, 0)
    } else {
        (
            scrollback - offset + rows as usize - 1,
            if cols > 0 {
                cols - 1
            } else {
                0
            },
        )
    }
}

impl KovaView {
    /// Scroll on while a selection is dragged outside its pane.
    pub fn auto_scroll(&mut self)
        ensures
            is_drag_scrolled(*final(self), *old(self)),
    {
        let speed: i32 = self.pointer.auto_scroll_speed;
        if speed == 0 {
            return;
        }
        let id: PaneId = match self.focused_pane() {
            Some(p) => {
                if !p.term.has_selection {
                    return;
                }
                p.id
            },
            None => {
                return;
            },
        };
        self.emit(Effect::DragScroll(id, speed));
    }
}

// ---------------------------------------------------------------
// Titles and marks
// ---------------------------------------------------------------

/// A pane of the active tab as a frame leaves it: a sticky title the shell
/// asked for is taken, an empty one dropping it; the bell of the focused pane
/// is acknowledged.
pub open spec fn shown_pane(p: Pane, focused: PaneId) -> Pane {
    Pane {
        bell: p.bell && p.id != focused,
        custom_title: match p.osc1_title {
            Some(t) => if t@.len() == 0 {
                None
            } else {
                Some(t)
            },
            None => p.custom_title,
        },
        osc1_title: None,
        ..p
    }
}

/// The panes of the active tab as a frame leaves them.
pub open spec fn shown_panes(panes: Seq<Pane>, focused: PaneId) -> Seq<Pane> {
    panes.map_values(|p: Pane| shown_pane(p, focused))
}

/// `after` is `before` with the panes of the active tab shown.
pub open spec fn is_shown(after: KovaView, before: KovaView) -> bool {
    let i = before.active_tab as int;
    let t = after.tabs@[i];
    if before.has_active() {
        &&& t.panes@ == shown_panes(before.active().panes@, before.active().focused_pane)
        &&& t == (Tab { panes: t.panes, ..before.tabs@[i] })
        &&& after.tabs@ == before.tabs@.update(i, t)
        &&& after == (KovaView { tabs: after.tabs, ..before })
    } else {
        after == before
    }
}

impl Pane {
    fn show(&mut self, focused: PaneId)
        ensures
            *final(self) == shown_pane(*old(self), focused),
    {
        if self.id == focused {
            self.bell = false;
        }
        match self.osc1_title.take() {
            Some(t) => {
                if t.as_str().is_empty() {
                    self.custom_title = None;
                } else {
                    self.custom_title = Some(t);
                }
            },
            None => {},
        }
    }
}

proof fn lemma_shown(panes: Seq<Pane>, focused: PaneId)
    ensures
        shown_panes(panes, focused).len() == panes.len(),
        forall|k: int|
            0 <= k < panes.len() ==> (#[trigger] shown_panes(panes, focused)[k]).id == panes[k].id
                && shown_panes(panes, focused)[k].column == panes[k].column,
{
}

/// Panes that keep their ids and columns keep a tab whole.
proof fn lemma_same_places(after: Tab, before: Tab)
    requires
        before.wf(),
        after.panes@.len() == before.panes@.len(),
        after.focused_pane == before.focused_pane,
        forall|k: int|
            0 <= k < before.panes@.len() ==> (#[trigger] after.panes@[k]).id == before.panes@[k].id
                && after.panes@[k].column == before.panes@[k].column,
    ensures
        after.wf(),
        forall|id: PaneId| #[trigger]
            pane::has_pane(after.panes@, id) <==> pane::has_pane(before.panes@, id),
{
    let a = after.panes@;
    let b = before.panes@;
    assert forall|id: PaneId| #[trigger] pane::has_pane(a, id) <==> pane::has_pane(b, id) by {
        if pane::has_pane(a, id) {
            let k = choose|k: int| 0 <= k < a.len() && (#[trigger] a[k]).id == id;
            assert(b[k].id == id);
        }
        if pane::has_pane(b, id) {
            let k = choose|k: int| 0 <= k < b.len() && (#[trigger] b[k]).id == id;
            assert(a[k].id == id);
        }
    }
    assert forall|i: int, j: int| 0 <= i < j < a.len() implies (#[trigger] a[i]).id != (#[trigger] a[j]).id by {
        assert(b[i].id != b[j].id);
    }
    assert(pane::columns_ok(a)) by {
        assert(a[0].column == b[0].column);
        assert forall|x: int, y: int|
            0 <= x < a.len() && 0 <= y < a.len() && y == x + 1 implies (#[trigger] a[y]).column == (
        #[trigger] a[x]).column || a[y].column == a[x].column + 1 by {
            assert(b[y].column == b[x].column || b[y].column == b[x].column + 1);
        }
    }
}

impl KovaView {
    /// Take the sticky titles the shells of the active tab asked for, and
    /// acknowledge the bell of its focused pane.
    pub fn show_active_panes(&mut self)
        ensures
            is_shown(*final(self), *old(self)),
            old(self).wf() ==> final(self).wf(),
    {
        if self.active_tab >= self.tabs.len() {
            return;
        }
        let ti: usize = self.active_tab;
        let focused: PaneId = self.tabs[ti].focused_pane;
        let n: usize = self.tabs[ti].panes.len();
        let ghost all = self.tabs@;
        let ghost panes = self.tabs@[ti as int].panes@;
        let ghost want = shown_panes(panes, focused);
        for k in 0..n
            invariant
                ti < self.tabs@.len(),
                n == panes.len(),
                want == shown_panes(panes, focused),
                all == old(self).tabs@,
                self.tabs@.len() == all.len(),
                self.tabs@[ti as int].panes@.len() == n,
                forall|j: int| 0 <= j < k ==> self.tabs@[ti as int].panes@[j] == want[j],
                forall|j: int| k <= j < n ==> self.tabs@[ti as int].panes@[j] == panes[j],
                self.tabs@[ti as int] == (Tab {
                    panes: self.tabs@[ti as int].panes,
                    ..all[ti as int]
                }),
                forall|j: int| 0 <= j < all.len() && j != ti ==> self.tabs@[j] == all[j],
                *self == (KovaView { tabs: self.tabs, ..*old(self) }),
        {
            self.tabs[ti].panes[k].show(focused);
        }
        proof {
            let t = self.tabs@[ti as int];
            assert(t.panes@ =~= want);
            assert(self.tabs@ =~= all.update(ti as int, t));
            if old(self).wf() {
                assert(all[ti as int].wf());
                lemma_shown(panes, focused);
                lemma_same_places(t, all[ti as int]);
                tabs::lemma_tabs_update(all, ti as int, t);
            }
        }
    }
}

/// Some pane rings.
pub open spec fn any_bell(panes: Seq<Pane>) -> bool {
    exists|i: int| 0 <= i < panes.len() && (#[trigger] panes[i]).bell
}

/// A command finished in some pane other than `focused`, and nobody looked
/// since.
pub open spec fn any_completed(panes: Seq<Pane>, focused: Option<PaneId>) -> bool {
    exists|i: int|
        0 <= i < panes.len() && (#[trigger] panes[i]).completed && !panes[i].completion_seen
            && Some(panes[i].id) != focused
}

/// The marks of a tab: the active one shows no bell, and no completion of its
/// focused pane.
pub open spec fn marked(t: Tab, active: bool, running: bool) -> Tab {
    Tab {
        has_bell: !active && any_bell(t.panes@),
        has_completion: any_completed(
            t.panes@,
            if active {
                Some(t.focused_pane)
            } else {
                None
            },
        ),
        has_running: running,
        ..t
    }
}

/// `after` is `before` with the marks of its tabs brought up to date.
pub open spec fn is_marked(after: KovaView, before: KovaView, running: Seq<TabId>) -> bool {
    &&& after.tabs@ == Seq::new(
        before.tabs@.len(),
        |i: int|
            marked(before.tabs@[i], i == before.active_tab, running.contains(before.tabs@[i].id)),
    )
    &&& after == (KovaView { tabs: after.tabs, ..before })
}

fn has_bell_in(panes: &Vec<Pane>) -> (r: bool)
    ensures
        r == any_bell(panes@),
{
    for i in 0..panes.len()
        invariant
            forall|k: int| 0 <= k < i ==> !(#[trigger] panes@[k]).bell,
    {
        if panes[i].bell {
            return true;
        }
    }
    false
}

fn has_completed_in(panes: &Vec<Pane>, focused: Option<PaneId>) -> (r: bool)
    ensures
        r == any_completed(panes@, focused),
{
    for i in 0..panes.len()
        invariant
            forall|k: int|
                0 <= k < i ==> !((#[trigger] panes@[k]).completed && !panes@[k].completion_seen
                    && Some(panes@[k].id) != focused),
    {
        let skip: bool = match focused {
            Some(f) => f == panes[i].id,
            None => false,
        };
        if panes[i].completed && !panes[i].completion_seen && !skip {
            return true;
        }
    }
    false
}

impl Tab {
    fn mark(&mut self, active: bool, running: bool)
        ensures
            *final(self) == marked(*old(self), active, running),
    {
        self.has_bell = !active && has_bell_in(&self.panes);
        let focused: Option<PaneId> = if active {
            Some(self.focused_pane)
        } else {
            None
        };
        self.has_completion = has_completed_in(&self.panes, focused);
        self.has_running = running;
    }
}

impl KovaView {
    /// Bring the marks of the tabs up to date; `running` lists those in which
    /// a program runs.
    pub fn mark_tabs(&mut self, running: &Vec<TabId>)
        ensures
            is_marked(*final(self), *old(self), running@),
            old(self).wf() ==> final(self).wf(),
    {
        let ghost all = self.tabs@;
        let active: usize = self.active_tab;
        let ghost want = Seq::new(
            all.len(),
            |i: int| marked(all[i], i == active, running@.contains(all[i].id)),
        );
        let n: usize = self.tabs.len();
        for i in 0..n
            invariant
                n == all.len(),
                all == old(self).tabs@,
                self.tabs@.len() == n,
                want == Seq::new(
                    all.len(),
                    |i: int| marked(all[i], i == active, running@.contains(all[i].id)),
                ),
                forall|k: int| 0 <= k < i ==> self.tabs@[k] == want[k],
                forall|k: int| i <= k < n ==> self.tabs@[k] == all[k],
                *self == (KovaView { tabs: self.tabs, ..*old(self) }),
        {
            let runs = pane::lists_id(running, self.tabs[i].id);
            self.tabs[i].mark(i == active, runs);
        }
        proof {
            assert(self.tabs@ =~= want);
            if old(self).wf() {
                assert forall|i: int| 0 <= i < want.len() implies (#[trigger] want[i]).wf() by {
                    assert(all[i].wf());
                }
                assert forall|i: int, j: int| 0 <= i < j < want.len() implies (#[trigger] want[i]).id
                    != (#[trigger] want[j]).id by {
                    assert(all[i].id != all[j].id);
                }
                assert forall|i: int, j: int, id: PaneId|
                    0 <= i < j < want.len() && #[trigger] pane::has_pane(
                        want[i].panes@,
                        id,
                    ) implies !#[trigger] pane::has_pane(want[j].panes@, id) by {
                    assert(pane::has_pane(all[i].panes@, id));
                    assert(want[j].panes == all[j].panes);
                }
            }
        }
    }
}

// ---------------------------------------------------------------
// Focus and window title
// ---------------------------------------------------------------

/// What a program that asked for it is told when the application gains or
/// loses the focus.
pub open spec fn focus_report(focused: bool) -> Seq<char> {
    if focused {
        "\x1b[I"@
    } else {
        "\x1b[O"@
    }
}

/// `after` is `before` with a change of the application's focus reported.
pub open spec fn is_focus_reported(after: KovaView, before: KovaView, focused: bool) -> bool {
    if focused == before.frame.last_focused {
        after == before
    } else {
        &&& match before.focused() {
            Some(p) if p.term.focus_reporting => {
                &&& after.effects@.len() == before.effects@.len() + 1
                &&& after.effects@.drop_last() == before.effects@
                &&& after.effects@.last() matches Effect::Write(id, s) && id == p.id && s@
                    == focus_report(focused)
            },
            _ => after.effects@ == before.effects@,
        }
        &&& after == (KovaView {
            frame: FrameState { last_focused: focused, ..before.frame },
            effects: after.effects,
            ..before
        })
    }
}

/// The window's title over a program's.
pub open spec fn window_title(title: Option<String>) -> Seq<char> {
    match title {
        Some(t) => "Kova — "@ + t@,
        None => "Kova"@,
    }
}

/// `after` is `before` with the window's title following the focused pane's.
pub open spec fn is_titled(after: KovaView, before: KovaView) -> bool {
    match before.focused() {
        Some(p) if !same_opt(p.term.title, before.frame.last_title) => {
            &&& after.effects@.len() == before.effects@.len() + 1
            &&& after.effects@.drop_last() == before.effects@
            &&& after.effects@.last() matches Effect::SetTitle(s) && s@ == window_title(p.term.title)
            &&& after == (KovaView {
                frame: FrameState { last_title: p.term.title, ..before.frame },
                effects: after.effects,
                ..before
            })
        },
        _ => after == before,
    }
}

impl KovaView {
    /// Report a change of the application's focus to the focused pane, if its
    /// program asked for it.
    pub fn report_focus(&mut self, focused: bool)
        ensures
            is_focus_reported(*final(self), *old(self), focused),
    {
        if focused == self.frame.last_focused {
            return;
        }
        let target: Option<PaneId> = match self.focused_pane() {
            Some(p) => if p.term.focus_reporting {
                Some(p.id)
            } else {
                None
            },
            None => None,
        };
        self.frame.last_focused = focused;
        match target {
            Some(id) => {
                let s = if focused {
                    "\x1b[I".to_string()
                } else {
                    "\x1b[O".to_string()
                };
                self.emit(Effect::Write(id, s));
                assert(self.effects@.drop_last() =~= old(self).effects@);
            },
            None => {},
        }
    }

    /// Show the focused pane's title in the window's, when it has changed.
    pub fn update_window_title(&mut self)
        ensures
            is_titled(*final(self), *old(self)),
    {
        let title: Option<String> = match self.focused_pane() {
            Some(p) => copy_text(&p.term.title),
            None => {
                return;
            },
        };
        if is_same_opt(&title, &self.frame.last_title) {
            return;
        }
        let mut s = String::new();
        match &title {
            Some(t) => {
                s.append("Kova — ");
                s.append(t.as_str());
            },
            None => {
                s.append("Kova");
            },
        }
        assert(s@ =~= window_title(title));
        self.emit(Effect::SetTitle(s));
        self.frame.last_title = title;
        assert(self.effects@.drop_last() =~= old(self).effects@);
    }
}

// ---------------------------------------------------------------
// Countdowns
// ---------------------------------------------------------------

/// A flash one frame on: it ends with its frames, or with its pane.
pub open spec fn flash_on(flash: Option<PaneFlash>, panes: Seq<Pane>) -> Option<PaneFlash> {
    match flash {
        Some(f) => if f.remaining_frames > 0 && pane::has_pane(panes, f.pane_id) {
            Some(PaneFlash { remaining_frames: (f.remaining_frames - 1) as u32, ..f })
        } else {
            None
        },
        None => None,
    }
}

/// The counters one frame on; `panes` are those of the active tab.
pub open spec fn frame_on(f: FrameState, panes: Seq<Pane>) -> FrameState {
    FrameState {
        help_hint_frames: resize::one_less(f.help_hint_frames),
        pane_flash: flash_on(f.pane_flash, panes),
        resize_feedback: match f.resize_feedback {
            Some(r) => if r.remaining_frames > 0 {
                Some(ResizeFeedback { remaining_frames: (r.remaining_frames - 1) as u32, ..r })
            } else {
                None
            },
            None => None,
        },
        boundary_flash: match f.boundary_flash {
            Some(b) => if b.remaining_frames > 0 {
                Some(BoundaryFlash { remaining_frames: (b.remaining_frames - 1) as u32, ..b })
            } else {
                None
            },
            None => None,
        },
        transient_status: match f.transient_status {
            Some(t) => if t.1 > 0 {
                Some((t.0, (t.1 - 1) as u32))
            } else {
                None
            },
            None => None,
        },
        ..f
    }
}

/// The panes of the active tab, none without one.
pub open spec fn active_panes(v: KovaView) -> Seq<Pane> {
    if v.has_active() {
        v.active().panes@
    } else {
        seq![]
    }
}

/// `after` is `before` with its counters one frame on.
pub open spec fn is_counted_down(after: KovaView, before: KovaView) -> bool {
    after == (KovaView { frame: frame_on(before.frame, active_panes(before)), ..before })
}

impl FrameState {
    fn count_down(&mut self, flash_here: bool)
        ensures
            *final(self) == (FrameState {
                pane_flash: match old(self).pane_flash {
                    Some(f) => if f.remaining_frames > 0 && flash_here {
                        Some(PaneFlash { remaining_frames: (f.remaining_frames - 1) as u32, ..f })
                    } else {
                        None
                    },
                    None => None,
                },
                ..frame_on(*old(self), seq![])
            }),
    {
        if self.help_hint_frames > 0 {
            self.help_hint_frames = self.help_hint_frames - 1;
        }
        match self.pane_flash.take() {
            Some(f) => {
                if f.remaining_frames > 0 && flash_here {
                    let mut f = f;
                    f.remaining_frames = f.remaining_frames - 1;
                    self.pane_flash = Some(f);
                }
            },
            None => {},
        }
        match self.resize_feedback {
            Some(r) => {
                self.resize_feedback = if r.remaining_frames > 0 {
                    Some(ResizeFeedback { remaining_frames: r.remaining_frames - 1, ..r })
                } else {
                    None
                };
            },
            None => {},
        }
        match self.boundary_flash {
            Some(b) => {
                self.boundary_flash = if b.remaining_frames > 0 {
                    Some(BoundaryFlash { remaining_frames: b.remaining_frames - 1, ..b })
                } else {
                    None
                };
            },
            None => {},
        }
        match self.transient_status.take() {
            Some((t, n)) => {
                if n > 0 {
                    self.transient_status = Some((t, n - 1));
                }
            },
            None => {},
        }
    }
}

impl KovaView {
    /// Count the flashes, hints and messages down.
    pub fn count_down(&mut self)
        ensures
            is_counted_down(*final(self), *old(self)),
    {
        let here: bool = match &self.frame.pane_flash {
            Some(f) => self.active_tab < self.tabs.len() && self.tabs[self.active_tab].contains(
                f.pane_id,
            ),
            None => false,
        };
        proof {
            assert(self.frame.pane_flash matches Some(f) ==> here == pane::has_pane(
                active_panes(*self),
                f.pane_id,
            ));
        }
        self.frame.count_down(here);
    }
}

// ---------------------------------------------------------------
// The frame
// ---------------------------------------------------------------

/// What a frame of a live window does, step by step.
pub open spec fn is_frame(
    after: KovaView,
    before: KovaView,
    focused: bool,
    running: Seq<TabId>,
    alive: bool,
) -> bool {
    exists|a: KovaView, b: KovaView|
        {
            &&& #[trigger] is_polled(a, before)
            &&& #[trigger] reap::is_reaped(b, a)
            &&& alive == (b.tabs@.len() > 0)
            &&& if alive {
                is_finished(after, b, focused, running)
            } else {
                after == b
            }
        }
}

/// What is left of a frame once the exited panes are gone.
pub open spec fn is_finished(
    after: KovaView,
    before: KovaView,
    focused: bool,
    running: Seq<TabId>,
) -> bool {
    exists|a: KovaView, b: KovaView|
        {
            &&& #[trigger] is_drawn(a, before, running)
            &&& #[trigger] is_told(b, a, focused)
            &&& is_counted_down(after, b)
        }
}

/// Pending commands are typed, a dragged selection scrolls on, window sizes
/// are put back, and the branches are polled.
pub open spec fn is_polled(after: KovaView, before: KovaView) -> bool {
    exists|a: KovaView, b: KovaView, c: KovaView|
        {
            &&& a.effects@ == before.effects@.push(Effect::InjectPending)
            &&& a == (KovaView { effects: a.effects, ..before })
            &&& #[trigger] is_drag_scrolled(b, a)
            &&& #[trigger] is_sizes_restored(c, b)
            &&& is_git_counted(after, c)
        }
}

/// The panes of the active tab are shown, the processes polled, and the tabs
/// marked.
pub open spec fn is_drawn(after: KovaView, before: KovaView, running: Seq<TabId>) -> bool {
    exists|a: KovaView, b: KovaView|
        {
            &&& #[trigger] is_shown(a, before)
            &&& #[trigger] is_fg_counted(b, a)
            &&& is_marked(after, b, running)
        }
}

/// The focus and the title are reported.
pub open spec fn is_told(after: KovaView, before: KovaView, focused: bool) -> bool {
    exists|a: KovaView| #[trigger]
        is_focus_reported(a, before, focused) && is_titled(after, a)
}

impl KovaView {
    fn poll(&mut self)
        requires
            old(self).wf(),
            counters_ok(old(self).frame),
        ensures
            is_polled(*final(self), *old(self)),
            final(self).wf(),
            final(self).tabs == old(self).tabs,
            final(self).active_tab == old(self).active_tab,
            counters_ok(final(self).frame),
    {
        self.emit(Effect::InjectPending);
        let ghost a = *self;
        self.auto_scroll();
        let ghost b = *self;
        self.restore_winsizes();
        let ghost c = *self;
        self.count_git_poll();
        assert(is_drag_scrolled(b, a) && is_sizes_restored(c, b));
    }

    fn draw(&mut self, running: &Vec<TabId>)
        requires
            old(self).wf(),
            counters_ok(old(self).frame),
        ensures
            is_drawn(*final(self), *old(self), running@),
            final(self).wf(),
            counters_ok(final(self).frame),
    {
        self.show_active_panes();
        let ghost a = *self;
        self.count_fg_poll();
        let ghost b = *self;
        self.mark_tabs(running);
        assert(is_shown(a, *old(self)) && is_fg_counted(b, a));
    }

    fn tell(&mut self, focused: bool)
        requires
            old(self).wf(),
            counters_ok(old(self).frame),
        ensures
            is_told(*final(self), *old(self), focused),
            final(self).wf(),
            counters_ok(final(self).frame),
    {
        self.report_focus(focused);
        let ghost a = *self;
        self.update_window_title();
        assert(is_focus_reported(a, *old(self), focused));
    }

    /// One frame. `focused` says whether the application has the focus;
    /// `running` lists the tabs in which a program runs.
    /// Returns `false` when the window has no tab left, or is closing; a
    /// window without tabs only polls.
    pub fn tick(&mut self, focused: bool, running: &Vec<TabId>) -> (alive: bool)
        requires
            old(self).wf(),
            counters_ok(old(self).frame),
        ensures
            old(self).closing ==> !alive && *final(self) == *old(self),
            !old(self).closing ==> is_frame(
                *final(self),
                *old(self),
                focused,
                running@,
                alive,
            ),
            !old(self).closing && old(self).tabs@.len() == 0 ==> !alive && is_polled(
                *final(self),
                *old(self),
            ),
            alive ==> final(self).has_active(),
            final(self).wf(),
            counters_ok(final(self).frame),
    {
        if self.closing {
            return false;
        }
        self.poll();
        let ghost a = *self;
        let alive = self.reap_exited();
        let ghost b = *self;
        if !alive {
            assert(is_polled(a, *old(self)) && reap::is_reaped(b, a));
            return false;
        }
        self.draw(running);
        let ghost c = *self;
        self.tell(focused);
        let ghost d = *self;
        self.count_down();
        assert(is_drawn(c, b, running@) && is_told(d, c, focused));
        assert(is_finished(*self, b, focused, running@));
        assert(is_polled(a, *old(self)) && reap::is_reaped(b, a));
        true
    }
}

/// A tab in the back shows a bell if and only if a pane of it rings, and a
/// completion if and only if a command finished in one of its panes that
/// nobody looked at; the active tab shows neither of the pane that is focused.
pub proof fn marks_show_what_the_panes_announce(
    after: KovaView,
    before: KovaView,
    running: Seq<TabId>,
    i: int,
)
    requires
        0 <= i < before.tabs@.len(),
        is_marked(after, before, running),
    ensures
        after.tabs@.len() == before.tabs@.len(),
        after.tabs@[i].panes == before.tabs@[i].panes,
        after.tabs@[i].focused_pane == before.tabs@[i].focused_pane,
        i != before.active_tab ==> (after.tabs@[i].has_bell <==> exists|k: int|
            0 <= k < before.tabs@[i].panes@.len() && (#[trigger] before.tabs@[i].panes@[k]).bell),
        i == before.active_tab ==> !after.tabs@[i].has_bell,
        i != before.active_tab ==> (after.tabs@[i].has_completion <==> exists|k: int|
            0 <= k < before.tabs@[i].panes@.len() && (
            #[trigger] before.tabs@[i].panes@[k]).completed
                && !before.tabs@[i].panes@[k].completion_seen),
        i == before.active_tab ==> (after.tabs@[i].has_completion <==> exists|k: int|
            0 <= k < before.tabs@[i].panes@.len() && (
            #[trigger] before.tabs@[i].panes@[k]).completed
                && !before.tabs@[i].panes@[k].completion_seen && before.tabs@[i].panes@[k].id
                != before.tabs@[i].focused_pane),
        after.tabs@[i].has_running <==> running.contains(before.tabs@[i].id),
{
}

/// A frame acknowledges the bell of the focused pane of the active tab alone,
/// and takes the titles that programs asked for.
pub proof fn a_frame_hears_the_focused_bell(after: KovaView, before: KovaView, k: int)
    requires
        before.has_active(),
        0 <= k < before.active().panes@.len(),
        is_shown(after, before),
    ensures
        after.active().panes@.len() == before.active().panes@.len(),
        ({
            let was = before.active().panes@[k];
            let got = after.active().panes@[k];
            &&& got.id == was.id && got.column == was.column
            &&& was.id == before.active().focused_pane ==> !got.bell
            &&& was.id != before.active().focused_pane ==> got.bell == was.bell
            &&& was.osc1_title is None ==> got.custom_title == was.custom_title
            &&& was.osc1_title matches Some(t) ==> (t@.len() == 0 ==> got.custom_title is None) && (
            t@.len() > 0 ==> got.custom_title == Some(t))
            &&& got.osc1_title is None
        }),
        forall|j: int|
            0 <= j < before.tabs@.len() && j != before.active_tab ==> after.tabs@[j]
                == before.tabs@[j],
{
}

} // verus!
