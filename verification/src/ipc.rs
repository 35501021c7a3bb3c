//! What other programs can ask of a window.
use crate::pane;
use crate::pane::{
    ChildProcess, NavDirection, Pane, PaneId, SplitAxis, SplitDirection, Tab, TabId,
};
use crate::sidebar_model::copy_text;
use crate::tabs;
use crate::text;
use crate::view;
use crate::view::{Effect, KovaView};
use std::collections::HashMap;
use vstd::prelude::*;

verus! {

/// What became of a request to close a tab.
#[derive(Clone, Copy, Debug, PartialEq, Eq, Structural)]
pub enum IpcCloseTabResult {
    Closed,
    NotFound,
    /// It is the last tab: closing it would end the application.
    WouldTerminate,
}

/// What became of a request to merge a tab into another.
#[derive(Clone, Copy, Debug, PartialEq, Eq, Structural)]
pub enum IpcMergeTabResult {
    Merged,
    SourceMissing,
    TargetMissing,
}

/// What became of a request to swap two panes.
#[derive(Clone, Copy, Debug, PartialEq, Eq, Structural)]
pub enum IpcSwapPaneResult {
    Swapped,
    AMissing,
    BMissing,
    Failed,
}

/// One pane as a client sees it.
#[derive(Debug, PartialEq)]
pub struct PaneRecord {
    pub id: PaneId,
    pub window: usize,
    pub tab: usize,
    pub cwd: String,
    pub title: String,
    pub focused: bool,
    pub pid: u32,
    pub child_processes: Vec<ChildProcess>,
    pub is_idle: bool,
    pub working: bool,
    pub awaiting: bool,
    pub awaiting_since: Option<u64>,
    /// The waiting pane has been looked at since it started waiting; false
    /// when it does not wait.
    pub awaiting_seen: bool,
    pub minimized: bool,
    pub agent: Option<String>,
    pub agent_session_id: Option<String>,
    pub agent_session_name: Option<String>,
    pub claude_session_id: Option<String>,
    pub claude_session_name: Option<String>,
}

/// One tab as a client sees it.
#[derive(Debug, PartialEq)]
pub struct TabRecord {
    pub id: TabId,
    pub window: usize,
    pub tab_index: usize,
    pub title: String,
    pub pane_count: usize,
    pub focused_pane_id: PaneId,
    pub active: bool,
    pub has_bell: bool,
    pub has_completion: bool,
    pub has_running: bool,
}

/// The flags of a pane whose changes are announced.
#[derive(Clone, Copy, Debug, PartialEq, Eq, Structural)]
pub struct EventFlags {
    pub window: usize,
    pub tab: usize,
    pub working: bool,
    pub awaiting: bool,
    pub awaiting_since: Option<u64>,
}

/// The rendered text of a pane.
#[derive(Debug, PartialEq)]
pub struct TextDump {
    pub text: String,
    pub cols: u16,
    pub rows: u16,
    pub cursor_row: u16,
    pub cursor_col: u16,
}

impl PaneRecord {
    /// The record of a pane at its place.
    pub open spec fn describes(self, p: Pane, win_idx: usize, tab_idx: usize, focused: bool) -> bool {
        &&& self.id == p.id
        &&& self.window == win_idx
        &&& self.tab == tab_idx
        &&& self.cwd@ == (match p.term.cwd {
            Some(c) => c@,
            None => Seq::empty(),
        })
        &&& self.title == p.term.display_title
        &&& self.focused == focused
        &&& self.pid == p.term.pid
        &&& self.child_processes@ == p.term.children@
        &&& self.is_idle == (p.term.children@.len() == 0)
        &&& self.working == p.agent.working
        &&& self.awaiting == p.agent.waits.since is Some
        &&& self.awaiting_since == p.agent.waits.since
        &&& self.awaiting_seen == (p.agent.waits.since is Some && p.agent.waits.seen)
        &&& self.minimized == p.minimized
        &&& self.agent == p.agent.kind
        &&& self.agent_session_id == p.agent.session_id
        &&& self.agent_session_name == p.agent.session_name
        &&& self.claude_session_id == p.agent.claude_session_id
        &&& self.claude_session_name == p.agent.claude_session_name
    }
}

fn copy_children(v: &Vec<ChildProcess>) -> (r: Vec<ChildProcess>)
    ensures
        r@ == v@,
{
    let mut r: Vec<ChildProcess> = Vec::new();
    for i in 0..v.len()
        invariant
            r@ == v@.take(i as int),
    {
        r.push(v[i].clone());
        assert(r@ =~= v@.take(i + 1));
    }
    assert(r@ =~= v@);
    r
}

/// The record of one pane, the same wherever a client meets it.
pub fn pane_json(p: &Pane, win_idx: usize, tab_idx: usize, focused: bool) -> (r: PaneRecord)
    ensures
        r.describes(*p, win_idx, tab_idx, focused),
{
    let awaiting = p.agent.waits.since.is_some();
    PaneRecord {
        id: p.id,
        window: win_idx,
        tab: tab_idx,
        cwd: match &p.term.cwd {
            Some(c) => c.clone(),
            None => String::new(),
        },
        title: p.term.display_title.clone(),
        focused,
        pid: p.term.pid,
        child_processes: copy_children(&p.term.children),
        is_idle: p.term.children.len() == 0,
        working: p.agent.working,
        awaiting,
        awaiting_since: p.agent.waits.since,
        awaiting_seen: awaiting && p.agent.waits.seen,
        minimized: p.minimized,
        agent: copy_text(&p.agent.kind),
        agent_session_id: copy_text(&p.agent.session_id),
        agent_session_name: copy_text(&p.agent.session_name),
        claude_session_id: copy_text(&p.agent.claude_session_id),
        claude_session_name: copy_text(&p.agent.claude_session_name),
    }
}

// ---------------------------------------------------------------
// Splitting and closing
// ---------------------------------------------------------------

/// A pane with a command to type once its shell is ready.
pub open spec fn with_command(p: Pane, command: Option<String>) -> Pane {
    match command {
        Some(c) => Pane { pending_command: Some(c), ..p },
        None => p,
    }
}

/// A new pane as it is put in: the directory it starts in, and a command to
/// type once its shell is ready.
pub open spec fn asked_of(p: Pane, cwd: Option<String>, command: Option<String>) -> Pane {
    with_command(pane::started_in(p, cwd), command)
}

/// What a split asks for before the redraw.
pub open spec fn split_extra(tab_id: TabId, direction: SplitDirection, id: PaneId) -> Seq<Effect> {
    (if direction == SplitDirection::Horizontal {
        seq![Effect::GrowForColumn(tab_id, id)]
    } else {
        seq![]
    }) + seq![Effect::Reveal(tab_id, id)]
}

/// `after` is `before` with `new` split off the focused pane.
pub open spec fn is_split_asked(
    after: KovaView,
    before: KovaView,
    direction: SplitDirection,
    new: Pane,
) -> bool {
    tabs::is_pane_put_in(
        after,
        before,
        tabs::split_panes(before.active(), direction, new),
        new,
        split_extra(before.active().id, direction, new.id),
    )
}

/// The tab a pane leaves: its panes, its stack and its focus. When only
/// minimized panes are left the last minimized one shows again and is
/// focused; else the neighbour is, when it is still there, else the first
/// pane that shows.
pub open spec fn is_pane_left(t: Tab, before: Tab, i: int, next: Option<PaneId>) -> bool {
    let w = pane::without(before.panes@, i);
    let stack = pane::stack_without(before.minimized_stack@, before.panes@[i].id);
    let top = if pane::first_visible(w) is None && stack.len() > 0 && pane::has_pane(
        w,
        stack.last(),
    ) {
        Some(stack.last())
    } else {
        None
    };
    &&& t.panes@ == (match top {
        Some(id) => w.update(pane::pos(w, id), pane::shown(w[pane::pos(w, id)])),
        None => w,
    })
    &&& t.minimized_stack@ == (match top {
        Some(id) => pane::stack_without(stack, id),
        None => stack,
    })
    &&& t == (Tab {
        panes: t.panes,
        minimized_stack: t.minimized_stack,
        focused_pane: match top {
            Some(id) => id,
            None => match next {
                Some(n) if pane::has_pane(w, n) => n,
                _ => match pane::first_visible(w) {
                    Some(f) => f,
                    None => w[0].id,
                },
            },
        },
        ..before
    })
}

/// The pane is there, but it is the only one of the only tab.
pub open spec fn is_last_pane(v: KovaView) -> bool {
    v.tabs@.len() == 1 && v.tabs@[0].panes@.len() == 1
}

/// A tab a pane leaves stays whole.
pub proof fn lemma_pane_left(t: Tab, before: Tab, i: int, next: Option<PaneId>)
    requires
        before.wf(),
        before.panes@.len() > 1,
        0 <= i < before.panes@.len(),
        is_pane_left(t, before, i, next),
    ensures
        t.wf(),
        forall|id: PaneId| #[trigger]
            pane::has_pane(t.panes@, id) ==> pane::has_pane(before.panes@, id),
        !pane::has_pane(t.panes@, before.panes@[i].id),
{
    let w = pane::without(before.panes@, i);
    pane::lemma_without(before.panes@, i);
    let stack = pane::stack_without(before.minimized_stack@, before.panes@[i].id);
    if pane::first_visible(w) is None && stack.len() > 0 && pane::has_pane(w, stack.last()) {
        let id = stack.last();
        pane::lemma_pos(w, id);
        pane::lemma_update_flags(w, pane::pos(w, id), pane::shown(w[pane::pos(w, id)]));
        assert(pane::has_pane(t.panes@, id));
    } else {
        pane::lemma_visible_from(w, 0);
        assert(pane::has_pane(w, w[0].id));
        if pane::first_visible(w) is Some {
            let k = pane::visible_from(w, 0);
            assert(pane::has_pane(w, w[k].id));
        }
    }
}

impl Tab {
    /// Take the pane at `i` out for good and settle the focus.
    fn leave_pane(&mut self, i: usize, next: Option<PaneId>)
        requires
            i < old(self).panes@.len(),
            old(self).panes@.len() > 1,
            pane::columns_ok(old(self).panes@),
            pane::distinct_ids(old(self).panes@),
        ensures
            is_pane_left(*final(self), *old(self), i as int, next),
    {
        let id: PaneId = self.panes[i].id;
        proof {
            pane::lemma_without(self.panes@, i as int);
        }
        let gone = self.take_out(i);
        pane::retain_other(&mut self.minimized_stack, id);
        let ghost mid = *self;
        let first = self.first_visible_pane();
        let held = match next {
            Some(n) => self.contains(n),
            None => false,
        };
        let shown_again = self.ensure_visible_pane();
        match shown_again {
            Some(top) => {
                self.focused_pane = top;
            },
            None => {
                match next {
                    Some(n) => {
                        if held {
                            self.focused_pane = n;
                            return;
                        }
                    },
                    None => {},
                }
                match first {
                    Some(f) => {
                        self.focused_pane = f;
                    },
                    None => {
                        self.focused_pane = self.first_pane_id();
                    },
                }
            },
        }
    }
}

impl KovaView {
    /// Split the active tab at its focused pane; `new` is what spawning the
    /// pane gave, in the directory `cwd` or else the focused pane's, and
    /// `command` what it will be asked to type. Returns the new pane's id.
    pub fn ipc_split(
        &mut self,
        direction: SplitDirection,
        new: Option<Pane>,
        cwd: Option<String>,
        command: Option<String>,
    ) -> (id: Option<PaneId>)
        requires
            old(self).active_columns_ok(),
        ensures
            new is None || !tabs::can_split(*old(self)) ==> id is None && *final(self) == *old(
                self,
            ),
            new matches Some(p) ==> tabs::can_split(*old(self)) ==> {
                &&& id == Some(p.id)
                &&& is_split_asked(
                    *final(self),
                    *old(self),
                    direction,
                    asked_of(p, old(self).cwd_for(cwd), command),
                )
            },
            old(self).wf() && (new matches Some(p) ==> tabs::fresh_pane(*old(self), p))
                ==> final(self).wf(),
    {
        if self.active_tab >= self.tabs.len() {
            return None;
        }
        if !self.tabs[self.active_tab].contains(self.tabs[self.active_tab].focused_pane) {
            return None;
        }
        match new {
            Some(p) => {
                let start = self.new_pane_cwd(cwd);
                let mut q = p;
                q.start_in(start);
                if command.is_some() {
                    q.pending_command = command;
                }
                let id: PaneId = q.id;
                self.split_with(direction, q);
                Some(id)
            },
            None => None,
        }
    }

    /// Split the active tab at its focused pane.
    fn split_with(&mut self, direction: SplitDirection, new: Pane)
        requires
            old(self).active_columns_ok(),
            tabs::can_split(*old(self)),
        ensures
            is_split_asked(*final(self), *old(self), direction, new),
            old(self).wf() && tabs::fresh_pane(*old(self), new) ==> final(self).wf(),
    {
        let id: PaneId = new.id;
        let tab_id: TabId = self.tabs[self.active_tab].id;
        self.put_in_split(direction, new);
        if direction == SplitDirection::Horizontal {
            self.emit(Effect::GrowForColumn(tab_id, id));
        }
        self.emit(Effect::Reveal(tab_id, id));
        self.emit(Effect::PaneInserted(id));
        self.emit(Effect::ResizePanes);
        proof {
            let extra = split_extra(tab_id, direction, id);
            assert(self.effects@ =~= old(self).effects@ + extra + seq![
                Effect::PaneInserted(id),
                Effect::ResizePanes,
            ]);
            if old(self).wf() && tabs::fresh_pane(*old(self), new) {
                tabs::lemma_split_keeps_wf(*self, *old(self), direction, new, extra);
            }
        }
    }

    /// Take the pane at `at` of tab `ti` out for good.
    fn leave_pane_of(&mut self, ti: usize, at: usize, next: Option<PaneId>)
        requires
            ti < old(self).tabs@.len(),
            at < old(self).tabs@[ti as int].panes@.len(),
            old(self).tabs@[ti as int].panes@.len() > 1,
            pane::columns_ok(old(self).tabs@[ti as int].panes@),
            pane::distinct_ids(old(self).tabs@[ti as int].panes@),
        ensures
            is_pane_left(
                final(self).tabs@[ti as int],
                old(self).tabs@[ti as int],
                at as int,
                next,
            ),
            tabs::is_tab_changed(
                *final(self),
                *old(self),
                ti as int,
                final(self).tabs@[ti as int],
                tabs::after_pane_left(
                    final(self).tabs@[ti as int].id,
                    pane::visible_columns(old(self).tabs@[ti as int].panes@) as int,
                    pane::visible_columns(final(self).tabs@[ti as int].panes@) as int,
                    final(self).tabs@[ti as int].focused_pane,
                ),
            ),
    {
        let tab_id: TabId = self.tabs[ti].id;
        let old_cols = self.tabs[ti].num_visible_columns();
        self.tabs[ti].leave_pane(at, next);
        let new_cols = self.tabs[ti].num_visible_columns();
        let focus: PaneId = self.tabs[ti].focused_pane;
        let ghost t = self.tabs@[ti as int];
        assert(self.tabs@ =~= old(self).tabs@.update(ti as int, t));
        self.emit(Effect::ScaleWidth(tab_id, old_cols, new_cols));
        self.emit(Effect::ClampScroll(tab_id));
        self.emit(Effect::Reveal(tab_id, focus));
        self.emit(Effect::ResizePanes);
        assert(self.effects@ =~= old(self).effects@ + tabs::after_pane_left(
            t.id,
            pane::visible_columns(old(self).tabs@[ti as int].panes@) as int,
            pane::visible_columns(t.panes@) as int,
            t.focused_pane,
        ));
    }

    /// Close the pane with the id; `next` is the neighbour to focus. `None`
    /// when it is not in this window, `Some(false)` when it is the last pane
    /// of the window, which stays.
    pub fn ipc_close_pane(&mut self, pane_id: PaneId, next: Option<PaneId>) -> (closed: Option<
        bool,
    >)
        requires
            view::tabs_ok(old(self).tabs@),
        ensures
            closed == (if !view::some_tab_has(old(self).tabs@, pane_id) {
                None
            } else {
                Some(!is_last_pane(*old(self)))
            }),
            closed != Some(true) ==> *final(self) == *old(self),
            closed == Some(true) ==> is_pane_gone(*final(self), *old(self), pane_id, next),
            closed == Some(true) ==> !view::some_tab_has(final(self).tabs@, pane_id),
            old(self).tabs@.len() > 0 ==> final(self).tabs@.len() > 0,
            view::tabs_ok(final(self).tabs@),
            old(self).wf() ==> final(self).wf(),
    {
        let ti = self.find_tab_of(pane_id);
        proof {
            view::lemma_tab_of(self.tabs@, pane_id);
        }
        if ti >= self.tabs.len() {
            return None;
        }
        assert(self.tabs@[ti as int].wf());
        let at = self.tabs[ti].find(pane_id);
        proof {
            pane::lemma_pos(self.tabs@[ti as int].panes@, pane_id);
        }
        if self.tabs[ti].panes.len() == 1 {
            if self.tabs.len() == 1 {
                return Some(false);
            }
            self.remove_tab(ti);
            proof {
                tabs::lemma_tabs_remove(old(self).tabs@, ti as int);
                if view::some_tab_has(self.tabs@, pane_id) {
                    let j = choose|j: int|
                        0 <= j < self.tabs@.len() && pane::has_pane(
                            (#[trigger] self.tabs@[j]).panes@,
                            pane_id,
                        );
                    assert(pane::has_pane(old(self).tabs@[ti as int].panes@, pane_id));
                    assert(!pane::has_pane(self.tabs@[j].panes@, pane_id));
                }
            }
            return Some(true);
        }
        self.leave_pane_of(ti, at, next);
        proof {
            let b = old(self).tabs@[ti as int];
            let t = self.tabs@[ti as int];
            lemma_pane_left(t, b, at as int, next);
            tabs::lemma_tabs_update(old(self).tabs@, ti as int, t);
            if view::some_tab_has(self.tabs@, pane_id) {
                let j = choose|j: int|
                    0 <= j < self.tabs@.len() && pane::has_pane(
                        (#[trigger] self.tabs@[j]).panes@,
                        pane_id,
                    );
                assert(pane::has_pane(b.panes@, pane_id));
                if j < ti {
                    assert(!pane::has_pane(old(self).tabs@[j].panes@, pane_id));
                } else if j > ti {
                    assert(!pane::has_pane(old(self).tabs@[j].panes@, pane_id));
                }
            }
        }
        Some(true)
    }
}

// ---------------------------------------------------------------
// Focusing and reading
// ---------------------------------------------------------------

/// The tab whose pane `id` takes the focus, shown again when it was minimized.
pub open spec fn is_focus_taken(t: Tab, before: Tab, id: PaneId) -> bool {
    let i = pane::pos(before.panes@, id);
    if before.panes@[i].minimized {
        &&& t.panes@ == before.panes@.update(i, pane::shown(before.panes@[i]))
        &&& t.minimized_stack@ == pane::stack_without(before.minimized_stack@, id)
        &&& t == (Tab {
            panes: t.panes,
            minimized_stack: t.minimized_stack,
            focused_pane: id,
            ..before
        })
    } else {
        t == (Tab { focused_pane: id, ..before })
    }
}

/// What focusing a pane asks for.
pub open spec fn focus_effects(before: Tab, id: PaneId) -> Seq<Effect> {
    (if before.panes@[pane::pos(before.panes@, id)].minimized {
        seq![Effect::RestoreWidth(before.id, id), Effect::DirtyTab(before.id)]
    } else {
        seq![]
    }) + seq![Effect::ClampScroll(before.id), Effect::Reveal(before.id, id), Effect::ResizePanes]
}

/// `after` is `before` with the pane `id` focused and its tab active.
pub open spec fn is_pane_focused(after: KovaView, before: KovaView, id: PaneId) -> bool {
    let ti = view::tab_of(before.tabs@, id);
    &&& is_focus_taken(after.tabs@[ti], before.tabs@[ti], id)
    &&& after.tabs@ == before.tabs@.update(ti, after.tabs@[ti])
    &&& after.active_tab == ti
    &&& after.effects@ == before.effects@ + focus_effects(before.tabs@[ti], id)
    &&& after == (KovaView {
        tabs: after.tabs,
        active_tab: after.active_tab,
        effects: after.effects,
        ..before
    })
}

/// A tab whose pane takes the focus stays whole.
pub proof fn lemma_focus_taken(t: Tab, before: Tab, id: PaneId)
    requires
        before.wf(),
        pane::has_pane(before.panes@, id),
        is_focus_taken(t, before, id),
    ensures
        t.wf(),
        t.id == before.id,
        forall|x: PaneId| #[trigger]
            pane::has_pane(t.panes@, x) <==> pane::has_pane(before.panes@, x),
{
    pane::lemma_pos(before.panes@, id);
    let i = pane::pos(before.panes@, id);
    pane::lemma_update_flags(before.panes@, i, pane::shown(before.panes@[i]));
}

/// `after` is `before` with text typed into the pane `id`, which waits for
/// nobody any more.
pub open spec fn are_keys_sent(after: KovaView, before: KovaView, id: PaneId, text: Seq<char>) -> bool {
    let ti = view::tab_of(before.tabs@, id);
    let p = pane_with_id(before.tabs@, id)->0;
    &&& view::pane_replaced(
        after.tabs@,
        before.tabs@,
        ti,
        pane::pos(before.tabs@[ti].panes@, id),
        pane::answered(p),
    )
    &&& view::is_typed(after.effects@, before.effects@, id, text)
    &&& after == (KovaView { tabs: after.tabs, effects: after.effects, ..before })
}

/// `after` is `before` with the pane `id` closed, the only one of its tab
/// with the tab.
pub open spec fn is_pane_gone(
    after: KovaView,
    before: KovaView,
    id: PaneId,
    next: Option<PaneId>,
) -> bool {
    let ti = view::tab_of(before.tabs@, id);
    let b = before.tabs@[ti];
    if b.panes@.len() == 1 {
        tabs::is_tab_removed(after, before, ti)
    } else {
        let t = after.tabs@[ti];
        &&& is_pane_left(t, b, pane::pos(b.panes@, id), next)
        &&& tabs::is_tab_changed(
            after,
            before,
            ti,
            t,
            tabs::after_pane_left(
                t.id,
                pane::visible_columns(b.panes@) as int,
                pane::visible_columns(t.panes@) as int,
                t.focused_pane,
            ),
        )
    }
}

/// The ids of a list of panes.
pub open spec fn ids_of(panes: Seq<Pane>) -> Seq<PaneId> {
    panes.map_values(|p: Pane| p.id)
}

/// The ids of the panes of the tabs, tab by tab.
pub open spec fn all_ids(tabs: Seq<Tab>) -> Seq<PaneId>
    decreases tabs.len(),
{
    if tabs.len() == 0 {
        Seq::empty()
    } else {
        all_ids(tabs.drop_last()) + ids_of(tabs.last().panes@)
    }
}

/// The records list the panes of the tabs, tab by tab, after what was there.
pub open spec fn lists_panes(
    records: Seq<PaneRecord>,
    tabs: Seq<Tab>,
    win_idx: usize,
    active: int,
    key_window: bool,
) -> bool
    decreases tabs.len(),
{
    if tabs.len() == 0 {
        records.len() == 0
    } else {
        let t = tabs.last();
        let n = records.len() - t.panes@.len();
        let ti = tabs.len() - 1;
        &&& n >= 0
        &&& lists_panes(records.take(n), tabs.drop_last(), win_idx, active, key_window)
        &&& forall|k: int|
            0 <= k < t.panes@.len() ==> (#[trigger] records[n + k]).describes(
                t.panes@[k],
                win_idx,
                ti as usize,
                t.panes@[k].id == t.focused_pane && ti == active && key_window,
            )
    }
}

/// The flags announced for a pane.
pub open spec fn flags_of(p: Pane, win_idx: usize, tab_idx: usize) -> EventFlags {
    EventFlags {
        window: win_idx,
        tab: tab_idx,
        working: p.agent.working,
        awaiting: p.agent.waits.since is Some,
        awaiting_since: p.agent.waits.since,
    }
}

/// `m` with the flags of a list of panes, a later one replacing an earlier.
pub open spec fn with_flags(
    m: Map<PaneId, EventFlags>,
    panes: Seq<Pane>,
    win_idx: usize,
    tab_idx: usize,
) -> Map<PaneId, EventFlags>
    decreases panes.len(),
{
    if panes.len() == 0 {
        m
    } else {
        with_flags(m, panes.drop_last(), win_idx, tab_idx).insert(
            panes.last().id,
            flags_of(panes.last(), win_idx, tab_idx),
        )
    }
}

/// `m` with the flags of every pane of the tabs.
pub open spec fn with_all_flags(
    m: Map<PaneId, EventFlags>,
    tabs: Seq<Tab>,
    win_idx: usize,
) -> Map<PaneId, EventFlags>
    decreases tabs.len(),
{
    if tabs.len() == 0 {
        m
    } else {
        with_flags(
            with_all_flags(m, tabs.drop_last(), win_idx),
            tabs.last().panes@,
            win_idx,
            (tabs.len() - 1) as usize,
        )
    }
}

impl TabRecord {
    pub open spec fn describes(
        self,
        t: Tab,
        win_idx: usize,
        tab_idx: usize,
        active: bool,
    ) -> bool {
        self == (TabRecord {
            id: t.id,
            window: win_idx,
            tab_index: tab_idx,
            title: t.shown_title(),
            pane_count: t.panes@.len() as usize,
            focused_pane_id: t.focused_pane,
            active,
            has_bell: t.has_bell,
            has_completion: t.has_completion,
            has_running: t.has_running,
        })
    }
}

/// The first pane of the window with the id.
pub open spec fn pane_with_id(tabs: Seq<Tab>, id: PaneId) -> Option<Pane> {
    let ti = view::tab_of(tabs, id);
    if ti < tabs.len() {
        Some(tabs[ti].panes@[pane::pos(tabs[ti].panes@, id)])
    } else {
        None
    }
}

impl KovaView {
    /// The pane of the window with the id.
    pub fn find_pane(&self, id: PaneId) -> (p: Option<&Pane>)
        ensures
            p matches Some(q) ==> pane_with_id(self.tabs@, id) == Some(*q),
            p is None ==> pane_with_id(self.tabs@, id) is None,
            p is Some <==> view::some_tab_has(self.tabs@, id),
    {
        let ti = self.find_tab_of(id);
        proof {
            view::lemma_tab_of(self.tabs@, id);
        }
        if ti < self.tabs.len() {
            self.tabs[ti].pane(id)
        } else {
            None
        }
    }

    /// The working directory of the focused pane.
    pub fn ipc_focused_cwd(&self) -> (cwd: Option<String>)
        ensures
            cwd == (match self.focused() {
                Some(p) => p.term.cwd,
                None => None,
            }),
    {
        match self.focused_pane() {
            Some(p) => copy_text(&p.term.cwd),
            None => None,
        }
    }

    /// The directory to start a new pane or tab in: the given one, else the
    /// focused pane's.
    pub fn new_pane_cwd(&self, given: Option<String>) -> (cwd: Option<String>)
        ensures
            given is Some ==> cwd == given,
            given is None ==> cwd == (match self.focused() {
                Some(p) => p.term.cwd,
                None => None,
            }),
            cwd == self.cwd_for(given),
    {
        match given {
            Some(c) => Some(c),
            None => self.ipc_focused_cwd(),
        }
    }

    /// The working directory of a pane.
    pub fn pane_cwd(&self, pane_id: PaneId) -> (cwd: Option<String>)
        ensures
            cwd == (match pane_with_id(self.tabs@, pane_id) {
                Some(p) => p.term.cwd,
                None => None,
            }),
    {
        match self.find_pane(pane_id) {
            Some(p) => copy_text(&p.term.cwd),
            None => None,
        }
    }

    /// Append the records of this window's panes.
    pub fn ipc_collect_panes(
        &self,
        win_idx: usize,
        is_key_window: bool,
        out: &mut Vec<PaneRecord>,
    )
        ensures
            final(out)@.len() >= old(out)@.len(),
            final(out)@.take(old(out)@.len() as int) == old(out)@,
            lists_panes(
                final(out)@.skip(old(out)@.len() as int),
                self.tabs@,
                win_idx,
                self.active_tab as int,
                is_key_window,
            ),
    {
        let ghost before = out@;
        assert(out@.skip(before.len() as int) =~= Seq::empty());
        assert(out@.take(before.len() as int) =~= before);
        assert(self.tabs@.take(0) =~= Seq::empty());
        for ti in 0..self.tabs.len()
            invariant
                out@.len() >= before.len(),
                out@.take(before.len() as int) == before,
                lists_panes(
                    out@.skip(before.len() as int),
                    self.tabs@.take(ti as int),
                    win_idx,
                    self.active_tab as int,
                    is_key_window,
                ),
        {
            let ghost mid = out@;
            let tab = &self.tabs[ti];
            for k in 0..tab.panes.len()
                invariant
                    ti < self.tabs@.len(),
                    *tab == self.tabs@[ti as int],
                    out@.len() == mid.len() + k,
                    mid.len() >= before.len(),
                    mid.take(before.len() as int) == before,
                    out@.take(mid.len() as int) == mid,
                    forall|m: int|
                        0 <= m < k ==> (#[trigger] out@[mid.len() + m]).describes(
                            tab.panes@[m],
                            win_idx,
                            ti,
                            tab.panes@[m].id == tab.focused_pane && ti == self.active_tab
                                && is_key_window,
                        ),
            {
                let p = &tab.panes[k];
                let focused = p.id == tab.focused_pane && ti == self.active_tab && is_key_window;
                let ghost prev = out@;
                out.push(pane_json(p, win_idx, ti, focused));
                assert(out@.take(mid.len() as int) =~= mid);
                assert forall|m: int| 0 <= m < k + 1 implies (#[trigger] out@[mid.len() + m]).describes(
                    tab.panes@[m],
                    win_idx,
                    ti,
                    tab.panes@[m].id == tab.focused_pane && ti == self.active_tab && is_key_window,
                ) by {
                    if m < k {
                        assert(out@[mid.len() + m] == prev[mid.len() + m]);
                    }
                }
            }
            proof {
                let now = self.tabs@.take(ti + 1);
                assert(now.drop_last() =~= self.tabs@.take(ti as int));
                assert(now.last() == self.tabs@[ti as int]);
                let recs = out@.skip(before.len() as int);
                let n = recs.len() - tab.panes@.len();
                assert(recs.take(n) =~= mid.skip(before.len() as int));
                assert forall|k: int| 0 <= k < tab.panes@.len() implies (#[trigger] recs[n + k]).describes(
                    tab.panes@[k],
                    win_idx,
                    (now.len() - 1) as usize,
                    tab.panes@[k].id == tab.focused_pane && now.len() - 1 == self.active_tab
                        && is_key_window,
                ) by {
                    assert(recs[n + k] == out@[mid.len() + k]);
                }
                assert(out@.take(before.len() as int) =~= before) by {
                    assert(out@.take(before.len() as int) =~= mid.take(before.len() as int));
                }
            }
        }
        assert(self.tabs@.take(self.tabs@.len() as int) =~= self.tabs@);
    }

    /// What the keyboard would go to: the active tab, its focused pane, and
    /// the conversation running in it by id and name.
    pub fn events_focus_key(&self) -> (key: Option<
        (usize, PaneId, Option<String>, Option<String>),
    >)
        ensures
            key == (if self.has_active() {
                Some(
                    (
                        self.active_tab,
                        self.active().focused_pane,
                        match self.focused() {
                            Some(p) => p.agent.session_id,
                            None => None,
                        },
                        match self.focused() {
                            Some(p) => p.agent.session_name,
                            None => None,
                        },
                    ),
                )
            } else {
                None
            }),
    {
        if self.active_tab >= self.tabs.len() {
            return None;
        }
        let id: PaneId = self.tabs[self.active_tab].focused_pane;
        match self.focused_pane() {
            Some(p) => Some(
                (
                    self.active_tab,
                    id,
                    copy_text(&p.agent.session_id),
                    copy_text(&p.agent.session_name),
                ),
            ),
            None => Some((self.active_tab, id, None, None)),
        }
    }

    /// The record of one pane, if this window holds it.
    pub fn events_pane_json(
        &self,
        win_idx: usize,
        pane_id: PaneId,
        is_key_window: bool,
    ) -> (r: Option<PaneRecord>)
        ensures
            r is Some <==> view::some_tab_has(self.tabs@, pane_id),
            r matches Some(rec) ==> {
                let ti = view::tab_of(self.tabs@, pane_id);
                rec.describes(
                    pane_with_id(self.tabs@, pane_id)->0,
                    win_idx,
                    ti as usize,
                    pane_id == self.tabs@[ti].focused_pane && ti == self.active_tab
                        && is_key_window,
                )
            },
    {
        let ti = self.find_tab_of(pane_id);
        proof {
            view::lemma_tab_of(self.tabs@, pane_id);
        }
        if ti >= self.tabs.len() {
            return None;
        }
        proof {
            pane::lemma_pos(self.tabs@[ti as int].panes@, pane_id);
        }
        match self.tabs[ti].pane(pane_id) {
            Some(p) => {
                let focused = p.id == self.tabs[ti].focused_pane && ti == self.active_tab
                    && is_key_window;
                Some(pane_json(p, win_idx, ti, focused))
            },
            None => None,
        }
    }

    /// Add the announced flags of this window's panes.
    pub fn events_collect_flags(&self, win_idx: usize, out: &mut HashMap<PaneId, EventFlags>)
        ensures
            final(out)@ == with_all_flags(old(out)@, self.tabs@, win_idx),
    {
        broadcast use vstd::std_specs::hash::group_hash_axioms;

        let ghost m = out@;
        assert(self.tabs@.take(0) =~= Seq::empty());
        for ti in 0..self.tabs.len()
            invariant
                out@ == with_all_flags(m, self.tabs@.take(ti as int), win_idx),
        {
            let tab = &self.tabs[ti];
            let ghost mid = out@;
            assert(tab.panes@.take(0) =~= Seq::empty());
            for k in 0..tab.panes.len()
                invariant
                    out@ == with_flags(mid, tab.panes@.take(k as int), win_idx, ti),
            {
                assert(tab.panes@.take(k + 1).drop_last() =~= tab.panes@.take(k as int));
                let p = &tab.panes[k];
                out.insert(
                    p.id,
                    EventFlags {
                        window: win_idx,
                        tab: ti,
                        working: p.agent.working,
                        awaiting: p.agent.waits.since.is_some(),
                        awaiting_since: p.agent.waits.since,
                    },
                );
            }
            assert(tab.panes@.take(tab.panes@.len() as int) =~= tab.panes@);
            assert(self.tabs@.take(ti + 1).drop_last() =~= self.tabs@.take(ti as int));
        }
        assert(self.tabs@.take(self.tabs@.len() as int) =~= self.tabs@);
    }

    /// Change what is known of the agent in the pane at `at` of tab `ti`.
    pub(crate) fn set_agent(&mut self, ti: usize, at: usize, answered: bool, now: u64)
        requires
            ti < old(self).tabs@.len(),
            at < old(self).tabs@[ti as int].panes@.len(),
        ensures
            ({
                let p = old(self).tabs@[ti as int].panes@[at as int];
                view::pane_replaced(
                    final(self).tabs@,
                    old(self).tabs@,
                    ti as int,
                    at as int,
                    if answered {
                        pane::answered(p)
                    } else {
                        pane::waiting(p, now)
                    },
                )
            }),
            *final(self) == (KovaView { tabs: final(self).tabs, ..*old(self) }),
            view::tabs_ok(old(self).tabs@) ==> view::tabs_ok(final(self).tabs@),
    {
        if answered {
            self.tabs[ti].panes[at].agent.waits.clear_awaiting();
        } else {
            self.tabs[ti].panes[at].agent.waits.set_awaiting(now);
        }
        proof {
            let p = old(self).tabs@[ti as int].panes@[at as int];
            let q = if answered {
                pane::answered(p)
            } else {
                pane::waiting(p, now)
            };
            assert(view::pane_replaced(self.tabs@, old(self).tabs@, ti as int, at as int, q));
            if view::tabs_ok(old(self).tabs@) {
                view::lemma_pane_replaced(self.tabs@, old(self).tabs@, ti as int, at as int, q);
            }
        }
    }

    /// Type text into a pane, which then waits for nobody. Returns whether
    /// the pane is here.
    pub fn ipc_send_keys(&mut self, pane_id: PaneId, text: String) -> (found: bool)
        ensures
            found == view::some_tab_has(old(self).tabs@, pane_id),
            !found ==> *final(self) == *old(self),
            found ==> are_keys_sent(*final(self), *old(self), pane_id, text@),
            old(self).wf() ==> final(self).wf(),
    {
        let ti = self.find_tab_of(pane_id);
        proof {
            view::lemma_tab_of(self.tabs@, pane_id);
        }
        if ti >= self.tabs.len() {
            return false;
        }
        let at = self.tabs[ti].find(pane_id);
        self.set_agent(ti, at, true, 0);
        self.emit(Effect::Write(pane_id, text));
        assert(self.effects@.drop_last() =~= old(self).effects@);
        true
    }

    /// Focus a pane, switching to its tab; a minimized one shows again first.
    /// Returns whether the pane is here.
    pub fn ipc_focus_pane(&mut self, pane_id: PaneId) -> (found: bool)
        ensures
            found == view::some_tab_has(old(self).tabs@, pane_id),
            !found ==> *final(self) == *old(self),
            found ==> is_pane_focused(*final(self), *old(self), pane_id),
            found ==> final(self).has_active() && final(self).active().focused_pane == pane_id,
            old(self).wf() ==> final(self).wf(),
    {
        let ti = self.find_tab_of(pane_id);
        proof {
            view::lemma_tab_of(self.tabs@, pane_id);
        }
        if ti >= self.tabs.len() {
            return false;
        }
        let tab_id: TabId = self.tabs[ti].id;
        let at = self.tabs[ti].find(pane_id);
        if self.tabs[ti].panes[at].minimized {
            self.tabs[ti].restore_pane(pane_id);
            self.emit(Effect::RestoreWidth(tab_id, pane_id));
            self.emit(Effect::DirtyTab(tab_id));
        }
        self.tabs[ti].focused_pane = pane_id;
        self.emit(Effect::ClampScroll(tab_id));
        self.emit(Effect::Reveal(tab_id, pane_id));
        self.active_tab = ti;
        self.emit(Effect::ResizePanes);
        proof {
            let b = old(self).tabs@[ti as int];
            let t = self.tabs@[ti as int];
            assert(self.tabs@ =~= old(self).tabs@.update(ti as int, t));
            assert(self.effects@ =~= old(self).effects@ + focus_effects(b, pane_id));
            assert(is_focus_taken(t, b, pane_id));
            if old(self).wf() {
                assert(b.wf());
                lemma_focus_taken(t, b, pane_id);
                tabs::lemma_tabs_update(old(self).tabs@, ti as int, t);
            }
        }
        true
    }

    /// Append the ids of this window's panes.
    pub fn ipc_collect_pane_ids(&self, out: &mut Vec<PaneId>)
        ensures
            final(out)@ == old(out)@ + all_ids(self.tabs@),
    {
        let ghost before = out@;
        assert(self.tabs@.take(0) =~= Seq::empty());
        assert(before + all_ids(self.tabs@.take(0)) =~= before);
        for ti in 0..self.tabs.len()
            invariant
                out@ == before + all_ids(self.tabs@.take(ti as int)),
        {
            let tab = &self.tabs[ti];
            let ghost mid = out@;
            for k in 0..tab.panes.len()
                invariant
                    out@ == mid + ids_of(tab.panes@).take(k as int),
            {
                out.push(tab.panes[k].id);
                assert(out@ =~= mid + ids_of(tab.panes@).take(k + 1));
            }
            assert(self.tabs@.take(ti + 1).drop_last() =~= self.tabs@.take(ti as int));
            assert(out@ =~= before + all_ids(self.tabs@.take(ti + 1)));
        }
        assert(self.tabs@.take(self.tabs@.len() as int) =~= self.tabs@);
    }

    /// The rendered text of a pane under its id, if the pane is here; `dump`
    /// is what rendering it gave.
    pub fn ipc_dump_pane_text(&self, pane_id: PaneId, dump: TextDump) -> (r: Option<
        (PaneId, TextDump),
    >)
        ensures
            r == (if view::some_tab_has(self.tabs@, pane_id) {
                Some((pane_id, dump))
            } else {
                None
            }),
    {
        if self.find_pane(pane_id).is_some() {
            Some((pane_id, dump))
        } else {
            None
        }
    }

    /// Whether a command finished in a pane since the last one started.
    pub fn ipc_check_completion(&self, pane_id: PaneId) -> (r: Option<bool>)
        ensures
            r == (match pane_with_id(self.tabs@, pane_id) {
                Some(p) => Some(p.completed),
                None => None,
            }),
    {
        match self.find_pane(pane_id) {
            Some(p) => Some(p.completed),
            None => None,
        }
    }

    /// How big the rendered text of a pane is, in characters and bytes, if
    /// the pane is here; `text` is what rendering it gave.
    pub fn ipc_measure_pane_text(&self, pane_id: PaneId, text: &str) -> (r: Option<(usize, usize)>)
        ensures
            r is Some <==> view::some_tab_has(self.tabs@, pane_id),
            r matches Some((chars, bytes)) ==> chars == text@.len() && bytes
                == vstd::utf8::encode_utf8(text@).len() as usize,
    {
        if self.find_pane(pane_id).is_some() {
            Some((text::char_count(text), text.len()))
        } else {
            None
        }
    }
}

// ---------------------------------------------------------------
// Changing
// ---------------------------------------------------------------

impl KovaView {
    /// Name the tab holding a pane, or drop its name. Returns whether the
    /// pane is here.
    pub fn ipc_set_tab_title(&mut self, pane_id: PaneId, title: Option<String>) -> (found: bool)
        ensures
            found == view::some_tab_has(old(self).tabs@, pane_id),
            !found ==> *final(self) == *old(self),
            found ==> {
                let ti = view::tab_of(old(self).tabs@, pane_id);
                &&& final(self).tabs@ == old(self).tabs@.update(
                    ti,
                    Tab { custom_title: title, ..old(self).tabs@[ti] },
                )
                &&& *final(self) == (KovaView { tabs: final(self).tabs, ..*old(self) })
            },
            old(self).wf() ==> final(self).wf(),
    {
        let ti = self.find_tab_of(pane_id);
        if ti >= self.tabs.len() {
            return false;
        }
        self.tabs[ti].custom_title = title;
        proof {
            let t = self.tabs@[ti as int];
            assert(self.tabs@ =~= old(self).tabs@.update(ti as int, t));
            if old(self).wf() {
                assert(old(self).tabs@[ti as int].wf());
                tabs::lemma_tabs_update(old(self).tabs@, ti as int, t);
            }
        }
        true
    }

    /// Colour the tab holding a pane, or clear its colour. Returns whether
    /// the pane is here.
    pub fn ipc_set_tab_color(&mut self, pane_id: PaneId, color: Option<usize>) -> (found: bool)
        ensures
            found == view::some_tab_has(old(self).tabs@, pane_id),
            !found ==> *final(self) == *old(self),
            found ==> {
                let ti = view::tab_of(old(self).tabs@, pane_id);
                &&& final(self).tabs@ == old(self).tabs@.update(
                    ti,
                    Tab { color, ..old(self).tabs@[ti] },
                )
                &&& final(self).effects@ == old(self).effects@.push(Effect::MarkDirty)
                &&& *final(self) == (KovaView {
                    tabs: final(self).tabs,
                    effects: final(self).effects,
                    ..*old(self)
                })
            },
            old(self).wf() ==> final(self).wf(),
    {
        let ti = self.find_tab_of(pane_id);
        if ti >= self.tabs.len() {
            return false;
        }
        self.tabs[ti].color = color;
        proof {
            let t = self.tabs@[ti as int];
            assert(self.tabs@ =~= old(self).tabs@.update(ti as int, t));
            if old(self).wf() {
                assert(old(self).tabs@[ti as int].wf());
                tabs::lemma_tabs_update(old(self).tabs@, ti as int, t);
            }
        }
        self.mark_dirty();
        true
    }

    /// Open a tab right of the active one; `tab` is what creating it gave, in
    /// the directory `cwd` or else the focused pane's, and `command` what its
    /// first pane will be asked to type. Returns the ids of the tab and of its
    /// first pane.
    pub fn ipc_new_tab(
        &mut self,
        tab: Option<Tab>,
        cwd: Option<String>,
        command: Option<String>,
    ) -> (ids: Option<(TabId, PaneId)>)
        requires
            tab matches Some(t) ==> t.panes@.len() > 0 && old(self).has_active(),
        ensures
            tab is None ==> ids is None && *final(self) == *old(self),
            tab matches Some(t) ==> {
                &&& ids == Some((t.id, t.panes@[0].id))
                &&& tabs::is_tab_opened(*final(self), *old(self), t, cwd, command)
            },
            old(self).wf() && (tab matches Some(t) ==> tabs::fresh_tab(old(self).tabs@, t))
                ==> final(self).wf(),
    {
        match tab {
            Some(t) => {
                let pane_id: PaneId = t.panes[0].id;
                let tab_id: TabId = t.id;
                self.open_tab(t, cwd, command);
                Some((tab_id, pane_id))
            },
            None => None,
        }
    }

    /// Append the records of this window's tabs.
    pub fn ipc_collect_tabs(&self, win_idx: usize, is_key_window: bool, out: &mut Vec<TabRecord>)
        ensures
            final(out)@.len() == old(out)@.len() + self.tabs@.len(),
            forall|k: int| 0 <= k < old(out)@.len() ==> final(out)@[k] == old(out)@[k],
            forall|k: int|
                0 <= k < self.tabs@.len() ==> (#[trigger] final(out)@[old(out)@.len()
                    + k]).describes(
                    self.tabs@[k],
                    win_idx,
                    k as usize,
                    k == self.active_tab && is_key_window,
                ),
    {
        let ghost before = out@;
        for i in 0..self.tabs.len()
            invariant
                out@.len() == before.len() + i,
                forall|k: int| 0 <= k < before.len() ==> out@[k] == before[k],
                forall|k: int|
                    0 <= k < i ==> (#[trigger] out@[before.len() + k]).describes(
                        self.tabs@[k],
                        win_idx,
                        k as usize,
                        k == self.active_tab && is_key_window,
                    ),
        {
            let t = &self.tabs[i];
            out.push(
                TabRecord {
                    id: t.id,
                    window: win_idx,
                    tab_index: i,
                    title: t.title(),
                    pane_count: t.panes.len(),
                    focused_pane_id: t.focused_pane,
                    active: i == self.active_tab && is_key_window,
                    has_bell: t.has_bell,
                    has_completion: t.has_completion,
                    has_running: t.has_running,
                },
            );
        }
    }

    /// Close the tab with the id. The last tab stays.
    pub fn ipc_close_tab(&mut self, tab_id: TabId) -> (r: IpcCloseTabResult)
        ensures
            ({
                let ti = view::tab_with_id(old(self).tabs@, tab_id);
                if ti >= old(self).tabs@.len() {
                    r == IpcCloseTabResult::NotFound && *final(self) == *old(self)
                } else if old(self).tabs@.len() == 1 {
                    r == IpcCloseTabResult::WouldTerminate && *final(self) == *old(self)
                } else {
                    r == IpcCloseTabResult::Closed && tabs::is_tab_removed(
                        *final(self),
                        *old(self),
                        ti,
                    )
                }
            }),
            old(self).tabs@.len() > 0 ==> final(self).tabs@.len() > 0,
            old(self).wf() ==> final(self).wf(),
    {
        let ti = self.find_tab(tab_id);
        if ti >= self.tabs.len() {
            return IpcCloseTabResult::NotFound;
        }
        if self.tabs.len() <= 1 {
            return IpcCloseTabResult::WouldTerminate;
        }
        self.remove_tab(ti);
        IpcCloseTabResult::Closed
    }

    /// Merge the first tab into the second. A tab merged into itself only
    /// becomes the active one.
    pub fn ipc_merge_tab(&mut self, source_tab_id: TabId, target_tab_id: TabId) -> (r:
        IpcMergeTabResult)
        requires
            tabs::all_columns_ok(old(self).tabs@),
        ensures
            ({
                let s = view::tab_with_id(old(self).tabs@, source_tab_id);
                let t = view::tab_with_id(old(self).tabs@, target_tab_id);
                if s >= old(self).tabs@.len() {
                    r == IpcMergeTabResult::SourceMissing && *final(self) == *old(self)
                } else if t >= old(self).tabs@.len() {
                    r == IpcMergeTabResult::TargetMissing && *final(self) == *old(self)
                } else {
                    r == IpcMergeTabResult::Merged && tabs::is_merged_into(
                        *final(self),
                        KovaView { active_tab: s as usize, ..*old(self) },
                        t,
                    )
                }
            }),
            old(self).wf() ==> final(self).wf(),
    {
        let s = self.find_tab(source_tab_id);
        if s >= self.tabs.len() {
            return IpcMergeTabResult::SourceMissing;
        }
        let t = self.find_tab(target_tab_id);
        if t >= self.tabs.len() {
            return IpcMergeTabResult::TargetMissing;
        }
        self.active_tab = s;
        self.merge_active_tab_into(t);
        IpcMergeTabResult::Merged
    }

    /// Swap two panes of one tab: within their column, else their columns.
    pub fn ipc_swap_pane(&mut self, pane_id_a: PaneId, pane_id_b: PaneId) -> (r: IpcSwapPaneResult)
        requires
            tabs::all_columns_ok(old(self).tabs@),
        ensures
            ({
                let ti = view::tab_of(old(self).tabs@, pane_id_a);
                if pane_id_a == pane_id_b {
                    r == IpcSwapPaneResult::Failed && *final(self) == *old(self)
                } else if ti >= old(self).tabs@.len() {
                    r == IpcSwapPaneResult::AMissing && *final(self) == *old(self)
                } else if !pane::has_pane(old(self).tabs@[ti].panes@, pane_id_b) {
                    r == IpcSwapPaneResult::BMissing && *final(self) == *old(self)
                } else {
                    let b = old(self).tabs@[ti];
                    let t = final(self).tabs@[ti];
                    &&& r == IpcSwapPaneResult::Swapped
                    &&& t.panes@ == pane::swapped(
                        b.panes@,
                        pane::pos(b.panes@, pane_id_a),
                        pane::pos(b.panes@, pane_id_b),
                    )
                    &&& t == (Tab { panes: t.panes, ..b })
                    &&& tabs::is_tab_changed(
                        *final(self),
                        *old(self),
                        ti,
                        t,
                        seq![
                            Effect::DirtyPane(pane_id_a),
                            Effect::DirtyPane(pane_id_b),
                            Effect::ResizePanes,
                        ],
                    )
                }
            }),
            old(self).wf() ==> final(self).wf(),
    {
        if pane_id_a == pane_id_b {
            return IpcSwapPaneResult::Failed;
        }
        let ti = self.find_tab_of(pane_id_a);
        proof {
            view::lemma_tab_of(self.tabs@, pane_id_a);
        }
        if ti >= self.tabs.len() {
            return IpcSwapPaneResult::AMissing;
        }
        if !self.tabs[ti].contains(pane_id_b) {
            return IpcSwapPaneResult::BMissing;
        }
        proof {
            pane::lemma_pos(self.tabs@[ti as int].panes@, pane_id_a);
            pane::lemma_pos(self.tabs@[ti as int].panes@, pane_id_b);
        }
        let i = self.tabs[ti].find(pane_id_a);
        let j = self.tabs[ti].find(pane_id_b);
        let dir = if self.tabs[ti].panes[i].column == self.tabs[ti].panes[j].column {
            NavDirection::Up
        } else {
            NavDirection::Right
        };
        assert(pane::columns_ok(self.tabs@[ti as int].panes@));
        let done = self.tabs[ti].swap_panes(pane_id_a, pane_id_b, dir);
        if !done {
            return IpcSwapPaneResult::Failed;
        }
        self.emit(Effect::DirtyPane(pane_id_a));
        self.emit(Effect::DirtyPane(pane_id_b));
        self.emit(Effect::ResizePanes);
        proof {
            let b = old(self).tabs@[ti as int];
            let t = self.tabs@[ti as int];
            assert(self.tabs@ =~= old(self).tabs@.update(ti as int, t));
            assert(self.effects@ =~= old(self).effects@ + seq![
                Effect::DirtyPane(pane_id_a),
                Effect::DirtyPane(pane_id_b),
                Effect::ResizePanes,
            ]);
            if old(self).wf() {
                assert(b.wf());
                pane::lemma_swapped(b.panes@, i as int, j as int);
                assert(t.wf());
                tabs::lemma_tabs_update(old(self).tabs@, ti as int, t);
            }
        }
        IpcSwapPaneResult::Swapped
    }
}

/// The pane at `i` is the last of its column.
pub open spec fn last_in_column(panes: Seq<Pane>, i: int) -> bool {
    i + 1 == panes.len() || panes[i + 1].column != panes[i].column
}

/// The pane at `i` has a neighbour along the axis to resize against.
pub open spec fn resizable(panes: Seq<Pane>, i: int, axis: SplitAxis) -> bool {
    match axis {
        SplitAxis::Horizontal => Tab::column_count(panes) >= 2,
        SplitAxis::Vertical => !pane::alone(panes, i),
    }
}

/// Whether the separator a resize moves goes right or down: to grow a pane
/// that is not last, or to shrink one that is.
pub open spec fn moves_forward(panes: Seq<Pane>, i: int, axis: SplitAxis, grow: bool) -> bool {
    let last = match axis {
        SplitAxis::Horizontal => panes[i].column + 1 == Tab::column_count(panes),
        SplitAxis::Vertical => last_in_column(panes, i),
    };
    grow != last
}

/// Some pane lies right of the one at `i`, or below it in its column.
pub open spec fn has_after(panes: Seq<Pane>, i: int, axis: SplitAxis) -> bool {
    match axis {
        SplitAxis::Horizontal => exists|k: int|
            0 <= k < panes.len() && (#[trigger] panes[k]).column > panes[i].column,
        SplitAxis::Vertical => exists|k: int|
            i < k < panes.len() && (#[trigger] panes[k]).column == panes[i].column,
    }
}

/// Some pane lies left of the one at `i`, or above it in its column.
pub open spec fn has_before(panes: Seq<Pane>, i: int, axis: SplitAxis) -> bool {
    match axis {
        SplitAxis::Horizontal => exists|k: int|
            0 <= k < panes.len() && (#[trigger] panes[k]).column < panes[i].column,
        SplitAxis::Vertical => exists|k: int|
            0 <= k < i && (#[trigger] panes[k]).column == panes[i].column,
    }
}

/// Growing a pane moves an edge of it away from it, and shrinking towards it:
/// the edge it shares with what comes after it, else the one it shares with
/// what comes before it.
pub proof fn growing_moves_an_edge_outwards(panes: Seq<Pane>, i: int, axis: SplitAxis, grow: bool)
    requires
        pane::columns_ok(panes),
        0 <= i < panes.len(),
    ensures
        resizable(panes, i, axis) <==> has_after(panes, i, axis) || has_before(panes, i, axis),
        has_after(panes, i, axis) ==> (moves_forward(panes, i, axis, grow) <==> grow),
        !has_after(panes, i, axis) ==> (moves_forward(panes, i, axis, grow) <==> !grow),
{
    let n = panes.len() as int;
    pane::lemma_columns_sorted(panes, 0, n - 1);
    pane::lemma_columns_sorted(panes, 0, i);
    pane::lemma_columns_sorted(panes, i, n - 1);
    match axis {
        SplitAxis::Horizontal => {
            if panes[i].column < panes[n - 1].column {
                assert(has_after(panes, i, axis));
            } else {
                assert forall|k: int| 0 <= k < n implies (#[trigger] panes[k]).column
                    <= panes[i].column by {
                    pane::lemma_columns_sorted(panes, k, n - 1);
                }
                if panes[i].column > 0 {
                    assert(panes[0].column < panes[i].column);
                }
            }
        },
        SplitAxis::Vertical => {
            if i + 1 < n && panes[i + 1].column == panes[i].column {
                assert(has_after(panes, i, axis));
            } else if i + 1 < n {
                assert forall|k: int| i < k < n implies (#[trigger] panes[k]).column
                    != panes[i].column by {
                    pane::lemma_columns_sorted(panes, i, i + 1);
                    pane::lemma_columns_sorted(panes, i + 1, k);
                }
            }
            if i > 0 && panes[i - 1].column == panes[i].column {
                assert(has_before(panes, i, axis));
            } else if i > 0 {
                assert forall|k: int| 0 <= k < i implies (#[trigger] panes[k]).column
                    != panes[i].column by {
                    pane::lemma_columns_sorted(panes, k, i - 1);
                    pane::lemma_columns_sorted(panes, i - 1, i);
                }
            }
        },
    }
}

impl KovaView {
    /// How to resize the split of a pane: `None` when it is not here,
    /// `Some(None)` when it has no neighbour along the axis, else whether the
    /// separator moves right or down.
    pub fn ipc_resize_pane(&self, pane_id: PaneId, axis: SplitAxis, grow: bool) -> (r: Option<
        Option<bool>,
    >)
        requires
            tabs::all_columns_ok(self.tabs@),
        ensures
            r is Some <==> view::some_tab_has(self.tabs@, pane_id),
            r matches Some(m) ==> {
                let panes = self.tabs@[view::tab_of(self.tabs@, pane_id)].panes@;
                let i = pane::pos(panes, pane_id);
                &&& m == (if resizable(panes, i, axis) {
                    Some(moves_forward(panes, i, axis, grow))
                } else {
                    None
                })
                &&& has_after(panes, i, axis) ==> m == Some(grow)
                &&& !has_after(panes, i, axis) && has_before(panes, i, axis) ==> m == Some(!grow)
                &&& !has_after(panes, i, axis) && !has_before(panes, i, axis) ==> m is None
            },
    {
        let ti = self.find_tab_of(pane_id);
        proof {
            view::lemma_tab_of(self.tabs@, pane_id);
        }
        if ti >= self.tabs.len() {
            return None;
        }
        assert(pane::columns_ok(self.tabs@[ti as int].panes@));
        let panes = &self.tabs[ti].panes;
        let i = self.tabs[ti].find(pane_id);
        let n: usize = panes.len();
        proof {
            growing_moves_an_edge_outwards(panes@, i as int, axis, grow);
        }
        match axis {
            SplitAxis::Horizontal => {
                let cols = self.tabs[ti].num_columns();
                if cols < 2 {
                    return Some(None);
                }
                let last = panes[i].column == cols - 1;
                Some(Some(grow != last))
            },
            SplitAxis::Vertical => {
                let last = i + 1 == n || panes[i + 1].column != panes[i].column;
                let first = i == 0 || panes[i - 1].column != panes[i].column;
                if first && last {
                    return Some(None);
                }
                Some(Some(grow != last))
            },
        }
    }

    /// The split of the tab holding a pane was resized: settle its width.
    pub fn ipc_pane_resized(&mut self, pane_id: PaneId) -> (found: bool)
        ensures
            found == view::some_tab_has(old(self).tabs@, pane_id),
            !found ==> *final(self) == *old(self),
            found ==> {
                let id = old(self).tabs@[view::tab_of(old(self).tabs@, pane_id)].id;
                &&& final(self).effects@ == old(self).effects@ + seq![
                    Effect::CapWidth(id),
                    Effect::ClampScroll(id),
                    Effect::ResizePanes,
                    Effect::MarkDirty,
                ]
                &&& *final(self) == (KovaView { effects: final(self).effects, ..*old(self) })
            },
    {
        let ti = self.find_tab_of(pane_id);
        if ti >= self.tabs.len() {
            return false;
        }
        let id: TabId = self.tabs[ti].id;
        self.emit(Effect::CapWidth(id));
        self.emit(Effect::ClampScroll(id));
        self.emit(Effect::ResizePanes);
        self.mark_dirty();
        assert(self.effects@ =~= old(self).effects@ + seq![
            Effect::CapWidth(id),
            Effect::ClampScroll(id),
            Effect::ResizePanes,
            Effect::MarkDirty,
        ]);
        true
    }

    /// Set or drop a pane's sticky title; one the shell asked for and that
    /// was not taken yet goes with it. Returns whether the pane is here.
    pub fn ipc_rename_pane(&mut self, pane_id: PaneId, title: Option<String>) -> (found: bool)
        ensures
            found == view::some_tab_has(old(self).tabs@, pane_id),
            !found ==> *final(self) == *old(self),
            found ==> {
                let ti = view::tab_of(old(self).tabs@, pane_id);
                let p = pane_with_id(old(self).tabs@, pane_id)->0;
                &&& view::pane_replaced(
                    final(self).tabs@,
                    old(self).tabs@,
                    ti,
                    pane::pos(old(self).tabs@[ti].panes@, pane_id),
                    Pane { custom_title: title, osc1_title: None, ..p },
                )
                &&& final(self).effects@ == old(self).effects@.push(Effect::DirtyPane(pane_id))
                &&& *final(self) == (KovaView {
                    tabs: final(self).tabs,
                    effects: final(self).effects,
                    ..*old(self)
                })
            },
            old(self).wf() ==> final(self).wf(),
    {
        let ti = self.find_tab_of(pane_id);
        proof {
            view::lemma_tab_of(self.tabs@, pane_id);
        }
        if ti >= self.tabs.len() {
            return false;
        }
        let at = self.tabs[ti].find(pane_id);
        self.tabs[ti].panes[at].custom_title = title;
        self.tabs[ti].panes[at].osc1_title = None;
        proof {
            let p = old(self).tabs@[ti as int].panes@[at as int];
            let q = Pane { custom_title: title, osc1_title: None, ..p };
            assert(self.tabs@[ti as int].panes@ =~= old(self).tabs@[ti as int].panes@.update(
                at as int,
                q,
            ));
            assert(view::pane_replaced(self.tabs@, old(self).tabs@, ti as int, at as int, q));
            if old(self).wf() {
                view::lemma_pane_replaced(self.tabs@, old(self).tabs@, ti as int, at as int, q);
            }
        }
        self.emit(Effect::DirtyPane(pane_id));
        true
    }

    /// Set or clear a pane's flag that it waits for the user; `now` is the
    /// time in seconds. Returns whether the pane is here.
    pub fn ipc_set_pane_status(&mut self, pane_id: PaneId, waiting: bool, now: u64) -> (found: bool)
        ensures
            found == view::some_tab_has(old(self).tabs@, pane_id),
            !found ==> *final(self) == *old(self),
            found ==> {
                let ti = view::tab_of(old(self).tabs@, pane_id);
                let p = pane_with_id(old(self).tabs@, pane_id)->0;
                &&& view::pane_replaced(
                    final(self).tabs@,
                    old(self).tabs@,
                    ti,
                    pane::pos(old(self).tabs@[ti].panes@, pane_id),
                    if waiting {
                        pane::waiting(p, now)
                    } else {
                        pane::answered(p)
                    },
                )
                &&& final(self).effects@ == old(self).effects@.push(Effect::MarkDirty)
                &&& *final(self) == (KovaView {
                    tabs: final(self).tabs,
                    effects: final(self).effects,
                    ..*old(self)
                })
            },
            old(self).wf() ==> final(self).wf(),
    {
        let ti = self.find_tab_of(pane_id);
        proof {
            view::lemma_tab_of(self.tabs@, pane_id);
        }
        if ti >= self.tabs.len() {
            return false;
        }
        let at = self.tabs[ti].find(pane_id);
        self.set_agent(ti, at, !waiting, now);
        self.mark_dirty();
        true
    }
}

/// Focusing a pane makes its tab the active one and the pane its focus, shown
/// if it was folded; no pane moves, and no other tab changes.
pub proof fn focusing_leads_to_the_pane(after: KovaView, before: KovaView, id: PaneId, ti: int, i: int)
    requires
        before.wf(),
        0 <= ti < before.tabs@.len(),
        0 <= i < before.tabs@[ti].panes@.len(),
        before.tabs@[ti].panes@[i].id == id,
        is_pane_focused(after, before, id),
    ensures
        after.active_tab == ti,
        after.tabs@.len() == before.tabs@.len(),
        after.tabs@[ti].focused_pane == id,
        after.tabs@[ti].panes@.len() == before.tabs@[ti].panes@.len(),
        after.tabs@[ti].panes@[i].id == id,
        after.tabs@[ti].panes@[i].column == before.tabs@[ti].panes@[i].column,
        !after.tabs@[ti].panes@[i].minimized,
        forall|k: int|
            0 <= k < before.tabs@[ti].panes@.len() && k != i ==> after.tabs@[ti].panes@[k]
                == before.tabs@[ti].panes@[k],
        forall|k: int|
            0 <= k < before.tabs@.len() && k != ti ==> after.tabs@[k] == before.tabs@[k],
{
    lemma_here(before, id, ti, i);
}

pub proof fn lemma_here(v: KovaView, id: PaneId, ti: int, i: int)
    requires
        v.wf(),
        0 <= ti < v.tabs@.len(),
        0 <= i < v.tabs@[ti].panes@.len(),
        v.tabs@[ti].panes@[i].id == id,
    ensures
        view::some_tab_has(v.tabs@, id),
        view::tab_of(v.tabs@, id) == ti,
        pane::pos(v.tabs@[ti].panes@, id) == i,
{
    assert(pane::has_pane(v.tabs@[ti].panes@, id));
    view::lemma_tab_of(v.tabs@, id);
    let t = view::tab_of(v.tabs@, id);
    assert(pane::has_pane(v.tabs@[t].panes@, id));
    assert(v.tabs@[ti].wf());
    pane::lemma_pos(v.tabs@[ti].panes@, id);
}

/// Keys sent to a pane are written to that pane as they are; nothing else is
/// written, and no tab or focus changes.
pub proof fn sent_keys_reach_the_pane(
    after: KovaView,
    before: KovaView,
    id: PaneId,
    text: Seq<char>,
    ti: int,
    i: int,
)
    requires
        before.wf(),
        0 <= ti < before.tabs@.len(),
        0 <= i < before.tabs@[ti].panes@.len(),
        before.tabs@[ti].panes@[i].id == id,
        are_keys_sent(after, before, id, text),
    ensures
        after.effects@.len() == before.effects@.len() + 1,
        after.effects@.drop_last() == before.effects@,
        after.effects@.last() matches Effect::Write(p, s) && p == id && s@ == text,
        after.active_tab == before.active_tab,
        after.tabs@.len() == before.tabs@.len(),
        after.tabs@[ti].focused_pane == before.tabs@[ti].focused_pane,
        forall|k: int|
            0 <= k < before.tabs@.len() && k != ti ==> after.tabs@[k] == before.tabs@[k],
        forall|k: int|
            0 <= k < before.tabs@[ti].panes@.len() && k != i ==> after.tabs@[ti].panes@[k]
                == before.tabs@[ti].panes@[k],
{
    lemma_here(before, id, ti, i);
}

/// Closing a pane takes that pane alone, or its tab when it was the only one
/// there; every other pane stays, in its order.
pub proof fn closing_takes_that_pane_alone(
    after: KovaView,
    before: KovaView,
    id: PaneId,
    next: Option<PaneId>,
    ti: int,
    i: int,
)
    requires
        before.wf(),
        0 <= ti < before.tabs@.len(),
        0 <= i < before.tabs@[ti].panes@.len(),
        before.tabs@[ti].panes@[i].id == id,
        is_pane_gone(after, before, id, next),
    ensures
        before.tabs@[ti].panes@.len() == 1 ==> after.tabs@ == before.tabs@.remove(ti),
        before.tabs@[ti].panes@.len() > 1 ==> {
            &&& after.tabs@.len() == before.tabs@.len()
            &&& after.active_tab == before.active_tab
            &&& ids_of(after.tabs@[ti].panes@) == ids_of(before.tabs@[ti].panes@).remove(i)
            &&& forall|k: int|
                0 <= k < before.tabs@.len() && k != ti ==> after.tabs@[k] == before.tabs@[k]
            &&& pane::has_pane(after.tabs@[ti].panes@, after.tabs@[ti].focused_pane)
        },
{
    lemma_here(before, id, ti, i);
    let b = before.tabs@[ti];
    assert(b.wf());
    if b.panes@.len() > 1 {
        lemma_pane_left(after.tabs@[ti], b, i, next);
        lemma_left_ids(after.tabs@[ti], b, i, next);
    }
}

proof fn lemma_left_ids(t: Tab, b: Tab, i: int, next: Option<PaneId>)
    requires
        0 <= i < b.panes@.len(),
        is_pane_left(t, b, i, next),
    ensures
        ids_of(t.panes@) == ids_of(b.panes@).remove(i),
{
    let w = pane::without(b.panes@, i);
    let stack = pane::stack_without(b.minimized_stack@, b.panes@[i].id);
    if stack.len() > 0 {
        pane::lemma_pos(w, stack.last());
    }
    assert(w.len() == b.panes@.len() - 1);
    assert forall|k: int| 0 <= k < w.len() implies (#[trigger] w[k]).id == b.panes@[if k < i {
        k
    } else {
        k + 1
    }].id by {}
    assert(ids_of(t.panes@) =~= ids_of(w));
    assert(ids_of(w) =~= ids_of(b.panes@).remove(i));
}

} // verus!
