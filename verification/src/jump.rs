//! Bringing a pane to the front: what a search hit or a closed conversation
//! leads to.
use crate::ipc;
use crate::pane;
use crate::pane::{Pane, PaneId, SplitDirection, Tab, TabId};
use crate::recent::RecentProject;
use crate::search::{SearchPaneSnapshot, SearchTabSnapshot, SearchTarget};
use crate::tabs;
use crate::text;
use crate::view;
use crate::view::{Effect, FrameState, KovaView, PaneFlash, PaneFlashLabel};
use vstd::prelude::*;

verus! {

/// Frames a pane's border pulses after a jump.
pub const JUMP_FLASH_FRAMES: u32 = 30;

/// `after` is `before` with the tab at `idx` made the active one.
pub open spec fn is_activated(after: KovaView, before: KovaView, idx: int) -> bool {
    &&& after.active_tab == idx
    &&& after.effects@ == before.effects@ + seq![Effect::ResizePanes, Effect::MarkDirty]
    &&& after == (KovaView { active_tab: after.active_tab, effects: after.effects, ..before })
}

/// The focus moved to a pane of the active tab.
pub open spec fn is_focused_in_active(after: KovaView, before: KovaView, id: PaneId) -> bool {
    let i = before.active_tab as int;
    &&& after.tabs@ == before.tabs@.update(i, Tab { focused_pane: id, ..before.tabs@[i] })
    &&& after.effects@ == before.effects@ + seq![
        Effect::ClampScroll(before.tabs@[i].id),
        Effect::Reveal(before.tabs@[i].id, id),
        Effect::MarkDirty,
    ]
    &&& after == (KovaView { tabs: after.tabs, effects: after.effects, ..before })
}

/// The active tab holds the pane.
pub open spec fn active_has(v: KovaView, id: PaneId) -> bool {
    v.has_active() && pane::has_pane(v.active().panes@, id)
}

/// `after` is `before` with a pane's border pulsing.
pub open spec fn is_flashed(
    after: KovaView,
    before: KovaView,
    id: PaneId,
    frames: u32,
    label: Option<PaneFlashLabel>,
) -> bool {
    &&& after.effects@ == before.effects@.push(Effect::MarkDirty)
    &&& after == (KovaView {
        frame: FrameState {
            pane_flash: Some(PaneFlash { pane_id: id, remaining_frames: frames, label }),
            ..before.frame
        },
        effects: after.effects,
        ..before
    })
}

/// The last command of some pane of the tab is `command`.
pub open spec fn ran(t: Tab, command: Seq<char>) -> bool {
    exists|i: int|
        0 <= i < t.panes@.len() && ((#[trigger] t.panes@[i]).term.last_command matches Some(c) && c@
            == command)
}

/// Some pane of the tab sits in the directory.
pub open spec fn works_in(t: Tab, cwd: Seq<char>) -> bool {
    exists|i: int|
        0 <= i < t.panes@.len() && ((#[trigger] t.panes@[i]).term.cwd matches Some(c) && c@ == cwd)
}

/// The first tab from `from` on with a pane in the directory, the length
/// without one.
pub open spec fn tab_in_from(tabs: Seq<Tab>, cwd: Seq<char>, from: int) -> int
    decreases tabs.len() - from,
{
    if from >= tabs.len() {
        tabs.len() as int
    } else if works_in(tabs[from], cwd) {
        from
    } else {
        tab_in_from(tabs, cwd, from + 1)
    }
}

/// Where a tab for the directory is: nowhere for the empty directory.
pub open spec fn tab_for(tabs: Seq<Tab>, cwd: Seq<char>) -> int {
    if cwd.len() == 0 {
        tabs.len() as int
    } else {
        tab_in_from(tabs, cwd, 0)
    }
}

/// A window with a pulse on a pane.
pub open spec fn with_flash(f: FrameState, id: PaneId) -> FrameState {
    FrameState {
        pane_flash: Some(
            PaneFlash { pane_id: id, remaining_frames: JUMP_FLASH_FRAMES, label: None },
        ),
        ..f
    }
}

/// What jumping to a tab, or a pane of it, does to a window that holds the tab.
pub open spec fn is_jumped(
    after: KovaView,
    before: KovaView,
    idx: int,
    pane_id: Option<PaneId>,
) -> bool {
    match pane_id {
        None => is_activated(after, before, idx),
        Some(id) => {
            let t = before.tabs@[idx];
            let here = pane::has_pane(t.panes@, id);
            &&& after.tabs@ == (if here {
                before.tabs@.update(idx, Tab { focused_pane: id, ..t })
            } else {
                before.tabs@
            })
            &&& after.active_tab == idx
            &&& after.effects@ == before.effects@ + seq![Effect::ResizePanes, Effect::MarkDirty] + (
            if here {
                seq![Effect::ClampScroll(t.id), Effect::Reveal(t.id, id), Effect::MarkDirty]
            } else {
                seq![]
            }) + seq![Effect::MarkDirty]
            &&& after == (KovaView {
                tabs: after.tabs,
                active_tab: after.active_tab,
                frame: with_flash(before.frame, id),
                effects: after.effects,
                ..before
            })
        },
    }
}

fn is_text(o: &Option<String>, t: &str) -> (r: bool)
    ensures
        r == (o matches Some(s) && s@ == t@),
{
    match o {
        Some(s) => text::same_text(s.as_str(), t),
        None => false,
    }
}

impl KovaView {
    /// Pulse a pane's border for a number of frames, under a label if there is
    /// one.
    pub fn set_pane_flash(&mut self, pane_id: PaneId, frames: u32, label: Option<PaneFlashLabel>)
        ensures
            is_flashed(*final(self), *old(self), pane_id, frames, label),
    {
        self.frame.pane_flash = Some(PaneFlash { pane_id, remaining_frames: frames, label });
        self.mark_dirty();
    }

    /// Make the tab with the id the active one. Returns whether it is here.
    pub fn activate_tab(&mut self, tab_id: TabId) -> (found: bool)
        ensures
            found == (view::tab_with_id(old(self).tabs@, tab_id) < old(self).tabs@.len()),
            !found ==> *final(self) == *old(self),
            found ==> is_activated(
                *final(self),
                *old(self),
                view::tab_with_id(old(self).tabs@, tab_id),
            ),
            found ==> final(self).has_active() && final(self).active().id == tab_id,
            old(self).wf() ==> final(self).wf(),
    {
        let i = self.find_tab(tab_id);
        if i >= self.tabs.len() {
            return false;
        }
        self.active_tab = i;
        self.emit(Effect::ResizePanes);
        self.mark_dirty();
        assert(self.effects@ =~= old(self).effects@ + seq![Effect::ResizePanes, Effect::MarkDirty]);
        true
    }

    /// Focus a pane of the active tab. Returns whether it is there.
    pub fn focus_pane_in_active_tab(&mut self, pane_id: PaneId) -> (found: bool)
        ensures
            found == active_has(*old(self), pane_id),
            !found ==> *final(self) == *old(self),
            found ==> is_focused_in_active(*final(self), *old(self), pane_id),
            old(self).wf() ==> final(self).wf(),
    {
        let i: usize = self.active_tab;
        if i >= self.tabs.len() || !self.tabs[i].contains(pane_id) {
            return false;
        }
        let tab_id: TabId = self.tabs[i].id;
        self.tabs[i].focused_pane = pane_id;
        let ghost t = Tab { focused_pane: pane_id, ..old(self).tabs@[i as int] };
        assert(self.tabs@ =~= old(self).tabs@.update(i as int, t));
        self.emit(Effect::ClampScroll(tab_id));
        self.emit(Effect::Reveal(tab_id, pane_id));
        self.mark_dirty();
        proof {
            assert(self.effects@ =~= old(self).effects@ + seq![
                Effect::ClampScroll(tab_id),
                Effect::Reveal(tab_id, pane_id),
                Effect::MarkDirty,
            ]);
            if old(self).wf() {
                assert(old(self).tabs@[i as int].wf());
                tabs::lemma_tabs_update(old(self).tabs@, i as int, t);
            }
        }
        true
    }

    /// Bring what a hit points at to the front, if this window holds it.
    /// Returns whether it does.
    pub fn jump_to_search_hit(&mut self, target: &SearchTarget) -> (found: bool)
        requires
            old(self).wf(),
        ensures
            final(self).wf(),
            match *target {
                SearchTarget::Open { tab_id, pane_id } => {
                    let idx = view::tab_with_id(old(self).tabs@, tab_id);
                    &&& found == (idx < old(self).tabs@.len())
                    &&& !found ==> *final(self) == *old(self)
                    &&& found ==> is_jumped(*final(self), *old(self), idx, pane_id)
                },
                _ => !found && *final(self) == *old(self),
            },
    {
        match target {
            SearchTarget::Open { tab_id, pane_id } => {
                if !self.activate_tab(*tab_id) {
                    return false;
                }
                let ghost a = *self;
                match pane_id {
                    Some(id) => {
                        let focused = self.focus_pane_in_active_tab(*id);
                        self.set_pane_flash(*id, JUMP_FLASH_FRAMES, None);
                        assert(self.effects@ =~= old(self).effects@ + seq![
                            Effect::ResizePanes,
                            Effect::MarkDirty,
                        ] + (if focused {
                            seq![
                                Effect::ClampScroll(a.active().id),
                                Effect::Reveal(a.active().id, *id),
                                Effect::MarkDirty,
                            ]
                        } else {
                            seq![]
                        }) + seq![Effect::MarkDirty]);
                    },
                    None => {},
                }
                true
            },
            _ => false,
        }
    }

    /// The first tab with a pane in the directory.
    pub fn tab_for_cwd(&self, cwd: &str) -> (i: usize)
        ensures
            i == tab_for(self.tabs@, cwd@),
            i <= self.tabs@.len(),
    {
        if cwd.is_empty() {
            return self.tabs.len();
        }
        let mut i: usize = 0;
        while i < self.tabs.len()
            invariant
                cwd@.len() > 0,
                i <= self.tabs@.len(),
                tab_in_from(self.tabs@, cwd@, i as int) == tab_in_from(self.tabs@, cwd@, 0),
            decreases self.tabs@.len() - i,
        {
            if tab_works_in(&self.tabs[i], cwd) {
                return i;
            }
            i = i + 1;
        }
        i
    }

    /// Bring the tab for a directory to the front and split it; `new` is what
    /// spawning the pane gave, `command` what it will be asked to type.
    /// Returns whether the pane is there.
    pub fn open_pane_in_tab_for_cwd(
        &mut self,
        cwd: &str,
        new: Option<Pane>,
        command: Option<String>,
    ) -> (opened: bool)
        requires
            old(self).wf(),
            new matches Some(p) ==> tabs::fresh_pane(*old(self), p),
        ensures
            final(self).wf(),
            opened == (tab_for(old(self).tabs@, cwd@) < old(self).tabs@.len() && new is Some),
            tab_for(old(self).tabs@, cwd@) >= old(self).tabs@.len() ==> *final(self) == *old(self),
            tab_for(old(self).tabs@, cwd@) < old(self).tabs@.len() ==> exists|dir: String|
                dir@ == cwd@ && #[trigger] is_opened_in(
                    *final(self),
                    *old(self),
                    view::tab_with_id(
                        old(self).tabs@,
                        old(self).tabs@[tab_for(old(self).tabs@, cwd@)].id,
                    ),
                    new,
                    dir,
                    command,
                ),
    {
        let i = self.tab_for_cwd(cwd);
        if i >= self.tabs.len() {
            return false;
        }
        let tab_id: TabId = self.tabs[i].id;
        proof {
            view::lemma_tab_id_from(self.tabs@, tab_id, 0);
        }
        let found = self.activate_tab(tab_id);
        let ghost a = *self;
        proof {
            assert(found);
            assert(self.active().wf());
        }
        let dir = cwd.to_string();
        let ghost start = dir;
        match self.ipc_split(SplitDirection::Horizontal, new, Some(dir), command) {
            Some(id) => {
                self.set_pane_flash(id, JUMP_FLASH_FRAMES, None);
                proof {
                    let idx = view::tab_with_id(old(self).tabs@, tab_id);
                    assert(self.tabs@ =~= old(self).tabs@.update(idx, self.tabs@[idx]));
                    assert(self.effects@ =~= old(self).effects@ + seq![
                        Effect::ResizePanes,
                        Effect::MarkDirty,
                        Effect::GrowForColumn(tab_id, id),
                        Effect::Reveal(tab_id, id),
                        Effect::PaneInserted(id),
                        Effect::ResizePanes,
                        Effect::MarkDirty,
                    ]);
                    assert(is_opened_in(*self, *old(self), idx, new, start, command));
                }
                true
            },
            None => {
                assert(is_opened_in(
                    *self,
                    *old(self),
                    view::tab_with_id(old(self).tabs@, tab_id),
                    new,
                    start,
                    command,
                ));
                false
            },
        }
    }

    /// Whether a pane of the active tab ran the command last.
    pub fn active_tab_ran(&self, command: &str) -> (r: bool)
        ensures
            r == (self.has_active() && ran(self.active(), command@)),
    {
        if self.active_tab >= self.tabs.len() {
            return false;
        }
        let t = &self.tabs[self.active_tab];
        for i in 0..t.panes.len()
            invariant
                self.has_active(),
                *t == self.active(),
                forall|k: int|
                    0 <= k < i ==> !((#[trigger] t.panes@[k]).term.last_command matches Some(c)
                        && c@ == command@),
        {
            if is_text(&t.panes[i].term.last_command, command) {
                assert(t.panes@[i as int].term.last_command is Some);
                return true;
            }
        }
        false
    }

    /// The tabs and panes of the window as the search sees them, and the agent
    /// sessions that run in them.
    pub fn collect_search_snapshot(
        &self,
        tabs_out: &mut Vec<SearchTabSnapshot>,
        panes_out: &mut Vec<SearchPaneSnapshot>,
        live_sessions: &mut Vec<String>,
    )
        ensures
            final(tabs_out)@ == old(tabs_out)@ + tab_snapshots(self.tabs@),
            final(panes_out)@ == old(panes_out)@ + pane_snapshots(self.tabs@),
            final(live_sessions)@ == old(live_sessions)@ + sessions_of(self.tabs@),
    {
        let ghost t0 = tabs_out@;
        let ghost p0 = panes_out@;
        let ghost l0 = live_sessions@;
        assert(self.tabs@.take(0) =~= seq![]);
        assert(t0 =~= t0 + tab_snapshots(seq![]));
        assert(p0 =~= p0 + pane_snapshots(seq![]));
        assert(l0 =~= l0 + sessions_of(seq![]));
        for i in 0..self.tabs.len()
            invariant
                tabs_out@ == t0 + tab_snapshots(self.tabs@.take(i as int)),
                panes_out@ == p0 + pane_snapshots(self.tabs@.take(i as int)),
                live_sessions@ == l0 + sessions_of(self.tabs@.take(i as int)),
        {
            let ghost upto = self.tabs@.take(i + 1);
            let ghost prev = self.tabs@.take(i as int);
            assert(upto.drop_last() =~= prev);
            let tab = &self.tabs[i];
            let title = tab.title();
            tabs_out.push(SearchTabSnapshot { tab_id: tab.id, title });
            assert(tabs_out@ =~= t0 + tab_snapshots(upto));
            collect_panes(tab, panes_out, live_sessions);
            assert(panes_out@ =~= p0 + pane_snapshots(upto));
            assert(live_sessions@ =~= l0 + sessions_of(upto));
        }
        assert(self.tabs@.take(self.tabs@.len() as int) =~= self.tabs@);
    }
}

/// The tab at `idx` brought to the front and split: what opening a pane in it
/// gives.
pub open spec fn is_opened_in(
    after: KovaView,
    before: KovaView,
    idx: int,
    new: Option<Pane>,
    cwd: String,
    command: Option<String>,
) -> bool {
    match new {
        None => is_activated(after, before, idx),
        Some(p) => {
            let t = before.tabs@[idx];
            let n = after.tabs@[idx];
            &&& n.panes@ == tabs::split_panes(
                t,
                SplitDirection::Horizontal,
                ipc::asked_of(p, Some(cwd), command),
            )
            &&& n == (Tab { panes: n.panes, focused_pane: p.id, ..t })
            &&& after.tabs@ == before.tabs@.update(idx, n)
            &&& after.active_tab == idx
            &&& after.effects@ == before.effects@ + seq![
                Effect::ResizePanes,
                Effect::MarkDirty,
                Effect::GrowForColumn(t.id, p.id),
                Effect::Reveal(t.id, p.id),
                Effect::PaneInserted(p.id),
                Effect::ResizePanes,
                Effect::MarkDirty,
            ]
            &&& after == (KovaView {
                tabs: after.tabs,
                active_tab: after.active_tab,
                frame: with_flash(before.frame, p.id),
                effects: after.effects,
                ..before
            })
        },
    }
}

fn tab_works_in(t: &Tab, cwd: &str) -> (r: bool)
    ensures
        r == works_in(*t, cwd@),
{
    for i in 0..t.panes.len()
        invariant
            forall|k: int|
                0 <= k < i ==> !((#[trigger] t.panes@[k]).term.cwd matches Some(c) && c@ == cwd@),
    {
        if is_text(&t.panes[i].term.cwd, cwd) {
            assert(t.panes@[i as int].term.cwd is Some);
            return true;
        }
    }
    false
}

// ---------------------------------------------------------------
// Snapshots
// ---------------------------------------------------------------

pub open spec fn tab_snapshots(tabs: Seq<Tab>) -> Seq<SearchTabSnapshot>
    decreases tabs.len(),
{
    if tabs.len() == 0 {
        seq![]
    } else {
        tab_snapshots(tabs.drop_last()).push(
            SearchTabSnapshot { tab_id: tabs.last().id, title: tabs.last().shown_title() },
        )
    }
}

pub open spec fn pane_snapshot(t: Tab, p: Pane) -> SearchPaneSnapshot {
    SearchPaneSnapshot {
        tab_id: t.id,
        tab_title: t.shown_title(),
        pane_id: p.id,
        pane_title: p.term.display_title,
    }
}

pub open spec fn pane_snapshots(tabs: Seq<Tab>) -> Seq<SearchPaneSnapshot>
    decreases tabs.len(),
{
    if tabs.len() == 0 {
        seq![]
    } else {
        pane_snapshots(tabs.drop_last()) + tabs.last().panes@.map_values(
            |p: Pane| pane_snapshot(tabs.last(), p),
        )
    }
}

/// The agent sessions of the panes.
pub open spec fn sessions_in(panes: Seq<Pane>) -> Seq<String>
    decreases panes.len(),
{
    if panes.len() == 0 {
        seq![]
    } else {
        match panes.last().agent.session_id {
            Some(id) => sessions_in(panes.drop_last()).push(id),
            None => sessions_in(panes.drop_last()),
        }
    }
}

pub open spec fn sessions_of(tabs: Seq<Tab>) -> Seq<String>
    decreases tabs.len(),
{
    if tabs.len() == 0 {
        seq![]
    } else {
        sessions_of(tabs.drop_last()) + sessions_in(tabs.last().panes@)
    }
}

fn collect_panes(
    tab: &Tab,
    panes_out: &mut Vec<SearchPaneSnapshot>,
    live_sessions: &mut Vec<String>,
)
    ensures
        final(panes_out)@ == old(panes_out)@ + tab.panes@.map_values(
            |p: Pane| pane_snapshot(*tab, p),
        ),
        final(live_sessions)@ == old(live_sessions)@ + sessions_in(tab.panes@),
{
    let ghost p0 = panes_out@;
    let ghost l0 = live_sessions@;
    let ghost snaps = tab.panes@.map_values(|p: Pane| pane_snapshot(*tab, p));
    assert(tab.panes@.take(0) =~= seq![]);
    assert(p0 =~= p0 + snaps.take(0));
    assert(l0 =~= l0 + sessions_in(seq![]));
    for k in 0..tab.panes.len()
        invariant
            snaps == tab.panes@.map_values(|p: Pane| pane_snapshot(*tab, p)),
            panes_out@ == p0 + snaps.take(k as int),
            live_sessions@ == l0 + sessions_in(tab.panes@.take(k as int)),
    {
        let p = &tab.panes[k];
        assert(tab.panes@.take(k + 1).drop_last() =~= tab.panes@.take(k as int));
        match &p.agent.session_id {
            Some(id) => {
                live_sessions.push(id.clone());
            },
            None => {},
        }
        assert(live_sessions@ =~= l0 + sessions_in(tab.panes@.take(k + 1)));
        let tab_title = tab.title();
        panes_out.push(
            SearchPaneSnapshot {
                tab_id: tab.id,
                tab_title,
                pane_id: p.id,
                pane_title: p.term.display_title.clone(),
            },
        );
        assert(panes_out@ =~= p0 + snaps.take(k + 1));
    }
    assert(tab.panes@.take(tab.panes@.len() as int) =~= tab.panes@);
    assert(snaps.take(snaps.len() as int) =~= snaps);
}

// ---------------------------------------------------------------
// Closed conversations
// ---------------------------------------------------------------

/// A pane of the closed tab was in the directory.
pub open spec fn worked_in(p: RecentProject, cwd: Seq<char>) -> bool {
    exists|i: int| 0 <= i < p.cwds@.len() && (#[trigger] p.cwds@[i])@ == cwd
}

/// The first closed tab from `from` on whose own directory it is, the length
/// without one.
pub open spec fn project_at(projects: Seq<RecentProject>, cwd: Seq<char>, from: int) -> int
    decreases projects.len() - from,
{
    if from >= projects.len() {
        projects.len() as int
    } else if projects[from].path@ == cwd {
        from
    } else {
        project_at(projects, cwd, from + 1)
    }
}

/// The first closed tab from `from` on with a pane in the directory, the
/// length without one.
pub open spec fn project_with(projects: Seq<RecentProject>, cwd: Seq<char>, from: int) -> int
    decreases projects.len() - from,
{
    if from >= projects.len() {
        projects.len() as int
    } else if worked_in(projects[from], cwd) {
        from
    } else {
        project_with(projects, cwd, from + 1)
    }
}

/// The closed tab to put back for a directory: one focused on it, else one
/// with any pane in it.
pub open spec fn project_for(projects: Seq<RecentProject>, cwd: Seq<char>) -> int {
    if project_at(projects, cwd, 0) < projects.len() {
        project_at(projects, cwd, 0)
    } else {
        project_with(projects, cwd, 0)
    }
}

/// Where a conversation comes back.
#[derive(Clone, Copy, Debug, PartialEq, Eq)]
pub enum ConversationPlan {
    /// A pane next to a tab open on its directory.
    InOpenTab,
    /// The closed tab at the index, and a pane in it.
    InClosedTab(usize),
    /// A new tab on its directory.
    InNewTab,
}

/// Where a conversation of `cwd` comes back: next to a tab open there, else in
/// the closed tab that worked there, else in a tab of its own. Without a
/// command to resume it, closed tabs are left alone.
pub open spec fn plan_of(
    open_here: bool,
    resumes: bool,
    projects: Seq<RecentProject>,
    cwd: Seq<char>,
) -> ConversationPlan {
    if open_here {
        ConversationPlan::InOpenTab
    } else if resumes && project_for(projects, cwd) < projects.len() {
        ConversationPlan::InClosedTab(project_for(projects, cwd) as usize)
    } else {
        ConversationPlan::InNewTab
    }
}

fn holds_text_of(cwds: &Vec<String>, cwd: &str) -> (r: bool)
    ensures
        r == exists|i: int| 0 <= i < cwds@.len() && (#[trigger] cwds@[i])@ == cwd@,
{
    for i in 0..cwds.len()
        invariant
            forall|k: int| 0 <= k < i ==> (#[trigger] cwds@[k])@ != cwd@,
    {
        if text::same_text(cwds[i].as_str(), cwd) {
            return true;
        }
    }
    false
}

/// The closed tab to put back for a directory, the length without one.
pub fn find_project_for(projects: &Vec<RecentProject>, cwd: &str) -> (i: usize)
    ensures
        i == project_for(projects@, cwd@),
        i <= projects@.len(),
{
    let mut i: usize = 0;
    while i < projects.len()
        invariant
            i <= projects@.len(),
            project_at(projects@, cwd@, i as int) == project_at(projects@, cwd@, 0),
        decreases projects@.len() - i,
    {
        if text::same_text(projects[i].path.as_str(), cwd) {
            return i;
        }
        i = i + 1;
    }
    let mut k: usize = 0;
    while k < projects.len()
        invariant
            k <= projects@.len(),
            project_at(projects@, cwd@, 0) >= projects@.len(),
            project_with(projects@, cwd@, k as int) == project_with(projects@, cwd@, 0),
        decreases projects@.len() - k,
    {
        if holds_text_of(&projects[k].cwds, cwd) {
            return k;
        }
        k = k + 1;
    }
    k
}

/// Where a conversation of `cwd` comes back; `open_here` says that a pane came
/// up in a tab open on it, `resumes` that there is a command to resume it.
pub fn open_conversation_in_project(
    open_here: bool,
    resumes: bool,
    projects: &Vec<RecentProject>,
    cwd: &str,
) -> (plan: ConversationPlan)
    ensures
        plan == plan_of(open_here, resumes, projects@, cwd@),
{
    if open_here {
        return ConversationPlan::InOpenTab;
    }
    if !resumes {
        return ConversationPlan::InNewTab;
    }
    let i = find_project_for(projects, cwd);
    if i < projects.len() {
        ConversationPlan::InClosedTab(i)
    } else {
        ConversationPlan::InNewTab
    }
}

/// Where a closed conversation of `cwd` comes back. Without a command line
/// that is safe to type for it, it does not: nothing reaches a pane.
pub fn open_archived_claude_session(
    command: &Option<String>,
    open_here: bool,
    projects: &Vec<RecentProject>,
    cwd: &str,
) -> (plan: Option<ConversationPlan>)
    ensures
        plan == (match *command {
            Some(_) => Some(plan_of(open_here, true, projects@, cwd@)),
            None => None,
        }),
{
    match command {
        Some(_) => Some(open_conversation_in_project(open_here, true, projects, cwd)),
        None => None,
    }
}

impl KovaView {
    /// Add the pane of a conversation to the tab put back for it, unless the
    /// tab brought the conversation back by itself.
    pub fn resume_in_restored_tab(
        &mut self,
        new: Option<Pane>,
        cwd: Option<String>,
        command: String,
    )
        requires
            old(self).wf(),
            new matches Some(p) ==> tabs::fresh_pane(*old(self), p),
        ensures
            final(self).wf(),
            !old(self).has_active() || ran(old(self).active(), command@) || new is None
                ==> *final(self) == *old(self),
            new matches Some(p) ==> old(self).has_active() && !ran(old(self).active(), command@)
                ==> ipc::is_split_asked(
                *final(self),
                *old(self),
                SplitDirection::Horizontal,
                ipc::asked_of(p, old(self).cwd_for(cwd), Some(command)),
            ),
    {
        if self.active_tab_ran(command.as_str()) {
            return;
        }
        proof {
            if self.has_active() {
                assert(self.active().wf());
            }
        }
        self.ipc_split(SplitDirection::Horizontal, new, cwd, Some(command));
    }
}

} // verus!
