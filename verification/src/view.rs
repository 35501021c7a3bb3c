//! One window: its tabs, its overlays, and what it asks of the system.
//!
//! A window decides; it does not act. Everything that leaves the window (a
//! write to a terminal, a redraw, a resize, a tab sent elsewhere) is appended
//! to `effects`, in order, for the application to carry out.
use crate::overlays::{FilterState, RenameState};
use crate::pane;
use crate::pane::{NavDirection, Pane, PaneId, Tab, TabId};
use crate::recent::{RecentProject, RecentProjectsState};
use crate::search::{SearchPaletteState, SearchTarget};
use crate::sidebar_ui::SidebarState;
use crate::switcher::PaneSwitcherState;
use crate::tabs::{MergeTabState, SendToWindowState};
use std::collections::HashMap;
use vstd::prelude::*;

verus! {

/// What a window asks of the application.
#[derive(Debug, PartialEq)]
pub enum Effect {
    /// Redraw the focused pane of the active tab.
    MarkDirty,
    /// Redraw a pane.
    DirtyPane(PaneId),
    /// Redraw every pane of a tab.
    DirtyTab(TabId),
    /// Give every pane of the active tab the size of its viewport.
    ResizePanes,
    /// Keep a tab's horizontal scroll within its width.
    ClampScroll(TabId),
    /// Scroll a tab so that a pane is on screen.
    Reveal(TabId, PaneId),
    /// Scroll a tab to its right end.
    ScrollToEnd(TabId),
    /// Scale a tab's width from one count of columns to another.
    ScaleWidth(TabId, usize, usize),
    /// Make room in a tab for a pane shown again.
    RestoreWidth(TabId, PaneId),
    /// Keep every pane of a tab within the screen.
    CapWidth(TabId),
    /// Rebuild the glyphs for the scale of the screen.
    RebuildAtlas,
    /// Convert a tab's widths to the scale of the screen.
    AdoptScale(TabId),
    /// Keep the width a tab had on the screen it left, if none was set by
    /// hand.
    PinWidth(TabId),
    /// Widen a scrolled tab for the column of a pane just put in.
    GrowForColumn(TabId, PaneId),
    /// Balance the columns and rows of a tab.
    Equalize(TabId),
    /// A pane took its place in a tab.
    PaneInserted(PaneId),
    /// Record a closed tab among the recent projects, then drop it.
    Remember(Tab),
    /// Record every tab of the window among the recent projects.
    RememberAll,
    /// End the application.
    Terminate,
    /// Move a tab to the window with the index.
    SendTab(Tab, usize),
    /// Move tabs to the window with the index.
    SendTabs(Vec<Tab>, usize),
    /// Move a tab to a window of its own.
    DetachTab(Tab),
    /// Open a new window.
    NewWindow,
    /// Scroll a pane back to its last line.
    ResetScroll(PaneId),
    /// Type text into a pane.
    Write(PaneId, String),
    /// Set the size a pane's program sees.
    PtyResize(PaneId, u16, u16),
    /// Reset a pane's screen state and its coverage window.
    SoftReset(PaneId),
    /// Clear a pane's screen and scrollback.
    ClearScrollback(PaneId),
    /// Scroll the focused pane to a line.
    ScrollToLine(usize),
    /// Scroll the selection of a pane while the mouse is held outside.
    DragScroll(PaneId, i32),
    /// Run the filter's query over the focused pane's lines.
    FilterSearch,
    /// Remember a query typed into the filter.
    RecordFilter(String),
    /// Remember a query typed into the search palette.
    RecordSearch(String),
    /// Index the closed conversations.
    WarmHistory,
    /// Search every pane for a query: the query, its number, and the channel
    /// the answer goes to, tagged with that number.
    StartSearch(String, u64, u64),
    /// Go to what a search hit points at.
    JumpToHit(SearchTarget),
    /// Bring a closed conversation back.
    OpenArchived(String, String),
    /// Open a recent project as a tab of this window.
    RestoreProject(RecentProject),
    /// Forget a recent project.
    ForgetProject(String),
    /// Put the memory report together.
    BuildMemReport,
    /// Put text on the pasteboard.
    CopyText(String),
    /// Drop the selection of a pane.
    ClearSelection(PaneId),
    /// Switch every window between the tab strip and the sidebar.
    ToggleLayout,
    /// Widen or narrow a tab; the number is the sign.
    AdjustWidth(TabId, i8),
    /// Show the window title.
    SetTitle(String),
    /// Read the git branch of every pane.
    PollBranches,
    /// Read the foreground process of every pane.
    PollProcesses,
    /// Type the pending commands of the panes that are ready.
    InjectPending,
    /// Focus a pane of another window.
    FocusElsewhere(PaneId),
    /// The bookmarks changed: toggle the one of a pane.
    ToggleBookmark(PaneId),
    /// Scroll the sidebar so that the tile of the pane, or the header of its
    /// tab, is on screen.
    RevealTile(usize, PaneId),
    /// Relayout every window.
    Relayout,
    /// Set the pointer back to the arrow.
    ArrowCursor,
    /// Set the pointer to the link hand.
    LinkCursor,
    /// Open a link.
    OpenUrl(String),
}

/// A key press: its code, the character it types, and the modifiers held.
#[derive(Clone, Copy, Debug, PartialEq, Eq, Structural)]
pub struct KeyPress {
    pub code: u16,
    pub ch: char,
    pub cmd: bool,
    pub ctrl: bool,
    pub option: bool,
}

/// The codes of the keys the overlays answer.
pub const KEY_ESCAPE: u16 = 0x35;

pub const KEY_ENTER: u16 = 0x24;

pub const KEY_BACKSPACE: u16 = 0x33;

pub const KEY_UP: u16 = 0x7E;

pub const KEY_DOWN: u16 = 0x7D;

pub const KEY_LEFT: u16 = 0x7B;

pub const KEY_RIGHT: u16 = 0x7C;

/// The two lines of a flash label: the directory the pane sits in, and the
/// path above it.
#[derive(Debug, PartialEq)]
pub struct PaneFlashLabel {
    pub name: String,
    pub parent: String,
}

/// A pane whose border pulses.
#[derive(Debug, PartialEq)]
pub struct PaneFlash {
    pub pane_id: PaneId,
    pub remaining_frames: u32,
    /// Big label drawn over the pane while it flashes; without one the border
    /// pulse is all there is.
    pub label: Option<PaneFlashLabel>,
}

/// A countdown in frames for one pane.
#[derive(Clone, Copy, Debug, PartialEq, Eq, Structural)]
pub struct PaneTimer {
    pub pane_id: PaneId,
    pub remaining_frames: u32,
}

/// The last time navigation ran into the edge of a tab.
#[derive(Clone, Copy, Debug, PartialEq, Eq, Structural)]
pub struct BoundaryHit {
    /// In milliseconds.
    pub time: u64,
    pub direction: NavDirection,
}

/// The edge of the focused pane that flashes.
#[derive(Clone, Copy, Debug, PartialEq, Eq, Structural)]
pub struct BoundaryFlash {
    pub edge: NavDirection,
    pub remaining_frames: u32,
}

#[derive(Clone, Copy, Debug, PartialEq, Eq, Structural)]
pub enum ResizeMode {
    Ratio,
    Virtual,
    Edge,
}

/// What the status bar says about the last change of width.
#[derive(Clone, Copy, Debug, PartialEq, Eq, Structural)]
pub struct ResizeFeedback {
    pub mode: ResizeMode,
    pub screen_w: u32,
    pub virtual_w: u32,
    pub remaining_frames: u32,
}

/// The saved form of a tab.
#[derive(Debug, PartialEq)]
pub struct SavedTab {
    /// How many panes it holds.
    pub panes: u32,
    /// Its serialized form.
    pub data: String,
}

impl Clone for SavedTab {
    fn clone(&self) -> (s: Self)
        ensures
            s == *self,
    {
        SavedTab { panes: self.panes, data: self.data.clone() }
    }
}

/// A tab to restore once shells are free, and its placeholder.
#[derive(Debug, PartialEq)]
pub struct DeferredTab {
    pub tab_id: TabId,
    pub saved: SavedTab,
}

/// A link under the pointer: the pane, the cells it covers row by row, and
/// where it leads.
#[derive(Debug, PartialEq)]
pub struct HoveredUrl {
    pub pane_id: PaneId,
    pub segments: Vec<(usize, u16, u16)>,
    pub url: String,
}

/// The sizes a pane had lately: columns, rows, and when in milliseconds.
pub type SizeHistory = Vec<((u16, u16), u64)>;

/// What may cover the panes of a window.
pub struct Overlays {
    pub filter: Option<FilterState>,
    pub rename_tab: Option<RenameState>,
    pub rename_pane: Option<RenameState>,
    pub recent_projects: Option<RecentProjectsState>,
    pub send_to_window: Option<SendToWindowState>,
    pub merge_tab: Option<MergeTabState>,
    pub search_palette: Option<SearchPaletteState>,
    /// The last channel a search was given; every search gets one of its own.
    pub last_channel: u64,
    pub pane_switcher: Option<PaneSwitcherState>,
    pub show_help: bool,
    pub show_mem_report: bool,
}

/// What the mouse is doing.
pub struct PointerState {
    /// The tab a colour menu is open for.
    pub color_menu_tab: usize,
    /// The tab a drag on the tab bar holds.
    pub drag_tab: Option<usize>,
    pub hovered_url: Option<HoveredUrl>,
    pub cmd_held: bool,
    /// Lines per tick a drag selection scrolls, negative upwards.
    pub auto_scroll_speed: i32,
}

/// What counts frames.
pub struct FrameState {
    /// Frames per second the window is drawn at.
    pub fps: u32,
    pub last_focused: bool,
    pub last_title: Option<String>,
    pub git_poll_counter: u32,
    pub git_poll_interval: u32,
    pub fg_poll_counter: u32,
    pub help_hint_frames: u32,
    pub pane_flash: Option<PaneFlash>,
    pub boundary_hit: Option<BoundaryHit>,
    pub boundary_flash: Option<BoundaryFlash>,
    pub resize_feedback: Option<ResizeFeedback>,
    /// A message in the status bar and the frames it has left.
    pub transient_status: Option<(String, u32)>,
}

/// What follows a resize.
pub struct ResizeState {
    /// Window sizes to put back after a repaint nudge.
    pub pty_restore: Vec<PaneTimer>,
    /// Checks of the screen owed after a window size was put back.
    pub post_restore_checks: Vec<PaneTimer>,
    pub recent_resizes: HashMap<PaneId, SizeHistory>,
    /// Frames left until the repaint that follows a burst of resizes.
    pub resize_settle: HashMap<PaneId, u32>,
    /// Repaints already forced on a pane since its last real resize.
    pub band_repair_attempts: HashMap<PaneId, u32>,
}

/// What is left to restore of the last session.
pub struct RestoreState {
    /// Tabs waiting to be restored, the next one last.
    pub deferred_tabs: Vec<DeferredTab>,
    /// The panes the loading counter counts up to, 0 when nothing loads.
    pub loading_total_panes: u32,
    /// The saved form of the tabs that are placeholders still.
    pub tab_backup: HashMap<TabId, SavedTab>,
}

/// One window.
pub struct KovaView {
    pub tabs: Vec<Tab>,
    pub active_tab: usize,
    pub effects: Vec<Effect>,
    /// The window is closing: the next tick says so.
    pub closing: bool,
    /// The window is left out of the saved session.
    pub skip_session_save: bool,
    pub overlays: Overlays,
    pub pointer: PointerState,
    pub frame: FrameState,
    pub resizes: ResizeState,
    pub restore: RestoreState,
    pub sidebar: SidebarState,
    /// The keys of the bookmarks: session ids and directories.
    pub bookmark_keys: Vec<String>,
}

/// No two tabs share an id, no pane is in two tabs, every tab is whole.
pub open spec fn tabs_ok(tabs: Seq<Tab>) -> bool {
    &&& forall|i: int| 0 <= i < tabs.len() ==> (#[trigger] tabs[i]).wf()
    &&& forall|i: int, j: int|
        0 <= i < j < tabs.len() ==> (#[trigger] tabs[i]).id != (#[trigger] tabs[j]).id
    &&& forall|i: int, j: int, id: PaneId|
        0 <= i < j < tabs.len() && #[trigger] pane::has_pane(tabs[i].panes@, id)
            ==> !#[trigger] pane::has_pane(tabs[j].panes@, id)
}

/// Some tab of the list holds the pane.
pub open spec fn some_tab_has(tabs: Seq<Tab>, id: PaneId) -> bool {
    exists|i: int| 0 <= i < tabs.len() && pane::has_pane((#[trigger] tabs[i]).panes@, id)
}

/// The first tab at or after `from` that holds the pane, the length without
/// one.
pub open spec fn tab_pos_from(tabs: Seq<Tab>, id: PaneId, from: int) -> int
    decreases tabs.len() - from,
{
    if from >= tabs.len() {
        tabs.len() as int
    } else if pane::has_pane(tabs[from].panes@, id) {
        from
    } else {
        tab_pos_from(tabs, id, from + 1)
    }
}

/// The first tab that holds the pane, the length without one.
pub open spec fn tab_of(tabs: Seq<Tab>, id: PaneId) -> int {
    tab_pos_from(tabs, id, 0)
}

pub proof fn lemma_tab_pos_from(tabs: Seq<Tab>, id: PaneId, from: int)
    requires
        0 <= from <= tabs.len(),
    ensures
        from <= tab_pos_from(tabs, id, from) <= tabs.len(),
        tab_pos_from(tabs, id, from) < tabs.len() ==> pane::has_pane(
            tabs[tab_pos_from(tabs, id, from)].panes@,
            id,
        ),
        forall|k: int|
            from <= k < tab_pos_from(tabs, id, from) ==> !pane::has_pane(
                (#[trigger] tabs[k]).panes@,
                id,
            ),
    decreases tabs.len() - from,
{
    if from < tabs.len() && !pane::has_pane(tabs[from].panes@, id) {
        lemma_tab_pos_from(tabs, id, from + 1);
    }
}

pub proof fn lemma_tab_of(tabs: Seq<Tab>, id: PaneId)
    ensures
        0 <= tab_of(tabs, id) <= tabs.len(),
        tab_of(tabs, id) < tabs.len() <==> some_tab_has(tabs, id),
        tab_of(tabs, id) < tabs.len() ==> pane::has_pane(tabs[tab_of(tabs, id)].panes@, id),
        forall|k: int| 0 <= k < tab_of(tabs, id) ==> !pane::has_pane((#[trigger] tabs[k]).panes@, id),
{
    lemma_tab_pos_from(tabs, id, 0);
    if some_tab_has(tabs, id) {
        let i = choose|i: int| 0 <= i < tabs.len() && pane::has_pane((#[trigger] tabs[i]).panes@, id);
        assert(pane::has_pane(tabs[i].panes@, id));
    }
}

/// The first tab at or after `from` with the id, the length without one.
pub open spec fn tab_id_from(tabs: Seq<Tab>, id: TabId, from: int) -> int
    decreases tabs.len() - from,
{
    if from >= tabs.len() {
        tabs.len() as int
    } else if tabs[from].id == id {
        from
    } else {
        tab_id_from(tabs, id, from + 1)
    }
}

/// The first tab with the id, the length without one.
pub open spec fn tab_with_id(tabs: Seq<Tab>, id: TabId) -> int {
    tab_id_from(tabs, id, 0)
}

pub proof fn lemma_tab_id_from(tabs: Seq<Tab>, id: TabId, from: int)
    requires
        0 <= from <= tabs.len(),
    ensures
        from <= tab_id_from(tabs, id, from) <= tabs.len(),
        tab_id_from(tabs, id, from) < tabs.len() ==> tabs[tab_id_from(tabs, id, from)].id == id,
        forall|k: int| from <= k < tab_id_from(tabs, id, from) ==> (#[trigger] tabs[k]).id != id,
    decreases tabs.len() - from,
{
    if from < tabs.len() && tabs[from].id != id {
        lemma_tab_id_from(tabs, id, from + 1);
    }
}

/// `after` is `before` with the pane at `pi` of the tab at `ti` replaced by `p`.
pub open spec fn pane_replaced(after: Seq<Tab>, before: Seq<Tab>, ti: int, pi: int, p: Pane) -> bool {
    &&& after.len() == before.len()
    &&& after[ti].panes@ == before[ti].panes@.update(pi, p)
    &&& after[ti] == (Tab { panes: after[ti].panes, ..before[ti] })
    &&& forall|k: int| 0 <= k < before.len() && k != ti ==> after[k] == before[k]
}

/// A pane replaced by one with its id and column keeps the tabs whole.
pub proof fn lemma_pane_replaced(after: Seq<Tab>, before: Seq<Tab>, ti: int, pi: int, p: Pane)
    requires
        pane_replaced(after, before, ti, pi, p),
        0 <= ti < before.len(),
        0 <= pi < before[ti].panes@.len(),
        p.id == before[ti].panes@[pi].id,
        p.column == before[ti].panes@[pi].column,
        tabs_ok(before),
    ensures
        tabs_ok(after),
{
    assert(before[ti].wf());
    pane::lemma_update_flags(before[ti].panes@, pi, p);
    assert(after[ti].wf());
    crate::tabs::lemma_tabs_update(before, ti, after[ti]);
    assert(after =~= before.update(ti, after[ti]));
}

/// `after` is `before` with another frame asked for.
pub open spec fn is_marked_dirty(after: KovaView, before: KovaView) -> bool {
    &&& after.effects@ == before.effects@.push(Effect::MarkDirty)
    &&& after == (KovaView { effects: after.effects, ..before })
}

/// `after` is `before` with text written to the pane `id`.
pub open spec fn is_typed(
    after: Seq<Effect>,
    before: Seq<Effect>,
    id: PaneId,
    text: Seq<char>,
) -> bool {
    &&& after.len() == before.len() + 1
    &&& after.drop_last() == before
    &&& after.last() matches Effect::Write(p, s) && p == id && s@ == text
}

impl KovaView {
    /// A window as it is kept between two calls: its tabs are whole and
    /// disjoint, and the active one is one of them, unless there is none.
    pub open spec fn wf(self) -> bool {
        &&& tabs_ok(self.tabs@)
        &&& self.tabs@.len() == 0 || self.has_active()
    }

    /// What the overlays hold is whole.
    pub open spec fn overlays_ok(self) -> bool {
        let o = self.overlays;
        &&& o.send_to_window matches Some(s) ==> s.selected < s.entries@.len()
        &&& o.merge_tab matches Some(s) ==> s.selected < s.entries@.len()
        &&& o.recent_projects matches Some(s) ==> s.wf()
        &&& o.search_palette matches Some(s) ==> s.wf()
        &&& o.pane_switcher matches Some(s) ==> s.wf()
        &&& o.rename_tab matches Some(r) ==> r.wf()
        &&& o.rename_pane matches Some(r) ==> r.wf()
    }

    /// The active tab exists.
    pub open spec fn has_active(self) -> bool {
        self.active_tab < self.tabs@.len()
    }

    /// The active tab.
    pub open spec fn active(self) -> Tab {
        self.tabs@[self.active_tab as int]
    }

    /// The focused pane of the active tab.
    pub open spec fn focused(self) -> Option<Pane> {
        if self.has_active() && pane::has_pane(self.active().panes@, self.active().focused_pane) {
            Some(self.active().panes@[pane::pos(self.active().panes@, self.active().focused_pane)])
        } else {
            None
        }
    }

    /// The directory a new pane starts in: the given one, else the focused
    /// pane's.
    pub open spec fn cwd_for(self, given: Option<String>) -> Option<String> {
        match (given, self.focused()) {
            (Some(c), _) => Some(c),
            (None, Some(p)) => p.term.cwd,
            (None, None) => None,
        }
    }

    /// The active tab keeps its columns numbered.
    pub open spec fn active_columns_ok(self) -> bool {
        self.has_active() ==> pane::columns_ok(self.active().panes@)
    }

    /// Ask something of the application.
    pub fn emit(&mut self, e: Effect)
        ensures
            final(self).effects@ == old(self).effects@.push(e),
            *final(self) == (KovaView { effects: final(self).effects, ..*old(self) }),
    {
        self.effects.push(e);
    }

    /// Ask for a redraw of the focused pane.
    pub fn mark_dirty(&mut self)
        ensures
            final(self).effects@ == old(self).effects@.push(Effect::MarkDirty),
            *final(self) == (KovaView { effects: final(self).effects, ..*old(self) }),
    {
        self.emit(Effect::MarkDirty);
    }

    /// The focused pane of the active tab.
    pub fn focused_pane(&self) -> (p: Option<&Pane>)
        ensures
            p matches Some(q) ==> self.focused() == Some(*q),
            p is None ==> self.focused() is None,
    {
        if self.active_tab < self.tabs.len() {
            let tab = &self.tabs[self.active_tab];
            tab.pane(tab.focused_pane)
        } else {
            None
        }
    }

    /// The index of the tab holding the pane.
    pub fn find_tab_of(&self, id: PaneId) -> (i: usize)
        ensures
            i == tab_of(self.tabs@, id),
            i <= self.tabs@.len(),
            i < self.tabs@.len() <==> some_tab_has(self.tabs@, id),
    {
        proof {
            lemma_tab_of(self.tabs@, id);
        }
        let mut i: usize = 0;
        while i < self.tabs.len() && !self.tabs[i].contains(id)
            invariant
                i <= self.tabs@.len(),
                tab_pos_from(self.tabs@, id, i as int) == tab_of(self.tabs@, id),
            decreases self.tabs@.len() - i,
        {
            i = i + 1;
        }
        i
    }

    /// The index of the tab with the id.
    pub fn find_tab(&self, id: TabId) -> (i: usize)
        ensures
            i == tab_with_id(self.tabs@, id),
            i <= self.tabs@.len(),
            i < self.tabs@.len() ==> self.tabs@[i as int].id == id,
    {
        proof {
            lemma_tab_id_from(self.tabs@, id, 0);
        }
        let mut i: usize = 0;
        while i < self.tabs.len() && self.tabs[i].id != id
            invariant
                i <= self.tabs@.len(),
                tab_id_from(self.tabs@, id, i as int) == tab_with_id(self.tabs@, id),
            decreases self.tabs@.len() - i,
        {
            i = i + 1;
        }
        i
    }

    /// A window without tabs.
    pub fn new(fps: u32) -> (v: Self)
        ensures
            v.tabs@.len() == 0,
            v.active_tab == 0,
            v.effects@.len() == 0,
            !v.closing && !v.skip_session_save,
            v.overlays == (Overlays {
                filter: None,
                rename_tab: None,
                rename_pane: None,
                recent_projects: None,
                send_to_window: None,
                merge_tab: None,
                search_palette: None,
                last_channel: 0,
                pane_switcher: None,
                show_help: false,
                show_mem_report: false,
            }),
            v.pointer == (PointerState {
                color_menu_tab: 0,
                drag_tab: None,
                hovered_url: None,
                cmd_held: false,
                auto_scroll_speed: 0,
            }),
            v.frame == (FrameState {
                fps,
                last_focused: true,
                last_title: None,
                git_poll_counter: 0,
                git_poll_interval: 120,
                fg_poll_counter: 0,
                help_hint_frames: 0,
                pane_flash: None,
                boundary_hit: None,
                boundary_flash: None,
                resize_feedback: None,
                transient_status: None,
            }),
            v.resizes.pty_restore@.len() == 0 && v.resizes.post_restore_checks@.len() == 0,
            v.resizes.recent_resizes@ == Map::<PaneId, SizeHistory>::empty(),
            v.resizes.resize_settle@ == Map::<PaneId, u32>::empty(),
            v.resizes.band_repair_attempts@ == Map::<PaneId, u32>::empty(),
            v.restore.deferred_tabs@.len() == 0 && v.restore.loading_total_panes == 0,
            v.restore.tab_backup@ == Map::<TabId, SavedTab>::empty(),
            v.sidebar == SidebarState::fresh(),
            v.bookmark_keys@.len() == 0,
    {
        KovaView {
            tabs: Vec::new(),
            active_tab: 0,
            effects: Vec::new(),
            closing: false,
            skip_session_save: false,
            overlays: Overlays {
                filter: None,
                rename_tab: None,
                rename_pane: None,
                recent_projects: None,
                send_to_window: None,
                merge_tab: None,
                search_palette: None,
                last_channel: 0,
                pane_switcher: None,
                show_help: false,
                show_mem_report: false,
            },
            pointer: PointerState {
                color_menu_tab: 0,
                drag_tab: None,
                hovered_url: None,
                cmd_held: false,
                auto_scroll_speed: 0,
            },
            frame: FrameState {
                fps,
                last_focused: true,
                last_title: None,
                git_poll_counter: 0,
                git_poll_interval: 120,
                fg_poll_counter: 0,
                help_hint_frames: 0,
                pane_flash: None,
                boundary_hit: None,
                boundary_flash: None,
                resize_feedback: None,
                transient_status: None,
            },
            resizes: ResizeState {
                pty_restore: Vec::new(),
                post_restore_checks: Vec::new(),
                recent_resizes: HashMap::new(),
                resize_settle: HashMap::new(),
                band_repair_attempts: HashMap::new(),
            },
            restore: RestoreState {
                deferred_tabs: Vec::new(),
                loading_total_panes: 0,
                tab_backup: HashMap::new(),
            },
            sidebar: SidebarState::new(),
            bookmark_keys: Vec::new(),
        }
    }

    /// Whether the window is left out of the saved session.
    pub fn skip_session_save(&self) -> (r: bool)
        ensures
            r == self.skip_session_save,
    {
        self.skip_session_save
    }
}

} // verus!
