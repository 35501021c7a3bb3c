//! The sidebar's view model: a plain, comparable description of what the
//! sidebar shows for one window, built once per tick from the facts read off
//! the tabs and panes.
use crate::pane::{PaneId, TabId};
use crate::sidebar;
use crate::sidebar::{
    display_order, format_age, summary_runs, CollapsedSummary, NextPill, PaneFlags, SidebarSort,
    SummaryRun, TileState, AGING_SECS,
};
use crate::text;
use crate::text::{
    chars_of, find_after_last, find_end_of, holds_char, is_white_space, same_text, text_between,
    trim,
};
use vstd::prelude::*;

verus! {

/// The text of an optional string.
pub open spec fn opt_text(o: Option<String>) -> Option<Seq<char>> {
    match o {
        Some(s) => Some(s@),
        None => None,
    }
}

/// The text of an optional string slice.
pub open spec fn opt_str(o: Option<&str>) -> Option<Seq<char>> {
    match o {
        Some(s) => Some(s@),
        None => None,
    }
}

/// What the agent's screen says a pane waits for, or how its last turn ended.
#[derive(Debug, PartialEq)]
pub enum PromptPreview {
    Permission {
        header: String,
        question: String,
        detail: Option<String>,
        /// Seconds since the epoch at which the prompt appeared.
        since: u64,
        seen: bool,
    },
    TurnEnd { summary: String, seen: bool },
}

impl Clone for PromptPreview {
    fn clone(&self) -> (p: Self)
        ensures
            p == *self,
    {
        match self {
            PromptPreview::Permission { header, question, detail, since, seen } => {
                PromptPreview::Permission {
                    header: header.clone(),
                    question: question.clone(),
                    detail: copy_text(detail),
                    since: *since,
                    seen: *seen,
                }
            },
            PromptPreview::TurnEnd { summary, seen } => PromptPreview::TurnEnd {
                summary: summary.clone(),
                seen: *seen,
            },
        }
    }
}

/// Everything the sidebar shows for one window.
#[derive(Clone, Debug, PartialEq)]
pub struct SidebarModel {
    /// `2 waiting · 3 working · 4 idle`, one coloured run at a time.
    pub summary: Vec<(String, SummaryRun)>,
    pub sort: SidebarSort,
    pub pill: NextPill,
    /// The groups in display order.
    pub groups: Vec<GroupVm>,
    /// Fewer than three panes in the window: show the new tab and split hint.
    pub show_hint: bool,
}

/// One tab as a group header and its tiles.
#[derive(Clone, Debug, PartialEq)]
pub struct GroupVm {
    pub tab_idx: usize,
    pub tab_id: TabId,
    /// Tab title, already the edit buffer while renaming.
    pub title: String,
    pub color: Option<usize>,
    pub active: bool,
    pub collapsed: bool,
    pub renaming: bool,
    pub summary: CollapsedSummary,
    /// Empty when collapsed.
    pub tiles: Vec<TileVm>,
}

/// One pane tile.
#[derive(Clone, Debug, PartialEq)]
pub struct TileVm {
    pub pane_id: PaneId,
    /// The column the pane sits in: a drag only reorders within one column.
    pub column: usize,
    pub state: TileState,
    /// The hover action reads Mark read / unread.
    pub unread: bool,
    pub minimized: bool,
    /// A plain shell: the agent can be started.
    pub bare_shell: bool,
    /// A shell with an agent's resume line waiting at its prompt: the chip
    /// names the agent and Resume replaces the start link.
    pub resumable: bool,
    /// The title of `tile_title`; already the edit buffer while renaming.
    pub title: String,
    /// `project · agent`, the agent left out when it is the title.
    pub secondary: String,
    /// The live or restored agent, for the chip.
    pub agent: Option<String>,
    pub bookmarked: bool,
    /// The focused pane of the active tab.
    pub focused: bool,
    pub renaming: bool,
    /// Awaiting tile: the permission prompt's question and its detail (the
    /// command, the file, or the header when there is nothing else).
    pub question: Option<String>,
    pub detail: Option<String>,
    /// Unread tile: the first line of the agent's last answer.
    pub summary: Option<String>,
    /// Awaiting tile: `4m` and whether it is old enough to go red.
    pub age: Option<(String, bool)>,
}

/// The reads of one pane the model needs.
#[derive(Clone, Debug)]
pub struct PaneFacts {
    pub pane_id: PaneId,
    pub column: usize,
    pub flags: PaneFlags,
    pub minimized: bool,
    pub bare_shell: bool,
    /// What the agent's rename command called the conversation.
    pub session_name: Option<String>,
    /// The pane's sticky title, which the shell also writes.
    pub custom_title: Option<String>,
    /// The title the running application set.
    pub osc_title: Option<String>,
    /// The rename edit buffer while the pane is being renamed.
    pub edit: Option<String>,
    /// The live agent, or the one whose resume line waits at the prompt, then
    /// with `resumable`.
    pub agent: Option<String>,
    pub resumable: bool,
    pub process: Option<String>,
    pub cwd: String,
    pub bookmarked: bool,
    pub focused: bool,
    pub preview: Option<PromptPreview>,
}

impl Default for PaneFacts {
    fn default() -> (p: Self)
        ensures
            p.pane_id == 0,
            p.column == 0,
            p.flags == PaneFlags::none(),
            !p.minimized && !p.bare_shell && !p.resumable && !p.bookmarked && !p.focused,
            p.session_name is None && p.custom_title is None && p.osc_title is None && p.edit
                is None && p.agent is None && p.process is None && p.preview is None,
            p.cwd@ == Seq::<char>::empty(),
    {
        PaneFacts {
            pane_id: 0,
            column: 0,
            flags: PaneFlags::default(),
            minimized: false,
            bare_shell: false,
            session_name: None,
            custom_title: None,
            osc_title: None,
            edit: None,
            agent: None,
            resumable: false,
            process: None,
            cwd: String::new(),
            bookmarked: false,
            focused: false,
            preview: None,
        }
    }
}

/// The reads of one tab the model needs.
#[derive(Clone, Debug)]
pub struct TabFacts {
    pub tab_idx: usize,
    pub tab_id: TabId,
    pub title: String,
    pub color: Option<usize>,
    pub active: bool,
    pub collapsed: bool,
    pub renaming: bool,
    /// Panes column by column, in sidebar order.
    pub panes: Vec<PaneFacts>,
}

impl Default for TabFacts {
    fn default() -> (t: Self)
        ensures
            t.tab_idx == 0,
            t.tab_id == 0,
            t.title@ == Seq::<char>::empty(),
            t.color is None,
            !t.active && !t.collapsed && !t.renaming,
            t.panes@ == Seq::<PaneFacts>::empty(),
    {
        TabFacts {
            tab_idx: 0,
            tab_id: 0,
            title: String::new(),
            color: None,
            active: false,
            collapsed: false,
            renaming: false,
            panes: Vec::new(),
        }
    }
}

// ---------------------------------------------------------------
// Titles
// ---------------------------------------------------------------

/// A title worth showing: without the white space around it, and not empty.
pub open spec fn present_text(t: Option<Seq<char>>) -> Option<Seq<char>> {
    match t {
        Some(s) => if text::trimmed(s).len() > 0 {
            Some(text::trimmed(s))
        } else {
            None
        },
        None => None,
    }
}

/// The last path segment, the path itself when it has none.
pub open spec fn project_of(cwd: Seq<char>) -> Seq<char> {
    let base = text::after_last(text::trim_end_of(cwd, '/'), '/');
    if base.len() == 0 {
        cwd
    } else {
        base
    }
}

/// A title that is a directory rather than a name: the working directory or
/// its last segment, a path, a path cut at its head, or a shell prompt title
/// ending in a home path.
pub open spec fn directory_title(title: Seq<char>, cwd: Seq<char>) -> bool {
    let tail = text::trim_start(text::after_last(title, ':'));
    ||| title == cwd
    ||| cwd.len() > 0 && title == project_of(cwd)
    ||| title.contains('/')
    ||| tail.len() > 0 && tail[0] == '~'
    ||| title.len() >= 2 && title[0] == '.' && title[1] == '.'
}

/// What names the pane, if anything: the session name, else its custom or
/// application title unless that is a directory.
pub open spec fn name_of_pane(
    session_name: Option<Seq<char>>,
    custom_title: Option<Seq<char>>,
    osc_title: Option<Seq<char>>,
    cwd: Seq<char>,
) -> Option<Seq<char>> {
    let own = match present_text(custom_title) {
        Some(t) => Some(t),
        None => present_text(osc_title),
    };
    match present_text(session_name) {
        Some(n) => Some(n),
        None => match own {
            Some(t) => if directory_title(t, cwd) {
                None
            } else {
                Some(t)
            },
            None => None,
        },
    }
}

/// The name of a tile: what names the pane, else the agent, else the
/// foreground process, else `Shell`.
pub open spec fn title_of_tile(
    session_name: Option<Seq<char>>,
    custom_title: Option<Seq<char>>,
    osc_title: Option<Seq<char>>,
    agent: Option<Seq<char>>,
    process: Option<Seq<char>>,
    cwd: Seq<char>,
) -> Seq<char> {
    match name_of_pane(session_name, custom_title, osc_title, cwd) {
        Some(n) => n,
        None => match present_text(agent) {
            Some(a) => a,
            None => match present_text(process) {
                Some(p) => p,
                None => "Shell"@,
            },
        },
    }
}

/// `project · agent`, the agent left out when it is already the title.
pub open spec fn subtitle_of(
    project: Seq<char>,
    agent: Option<Seq<char>>,
    title: Seq<char>,
) -> Seq<char> {
    match agent {
        Some(a) => if a == title {
            project
        } else if project.len() > 0 {
            project + " \u{b7} "@ + a
        } else {
            a
        },
        None => project,
    }
}

fn present(t: Option<&str>) -> (r: Option<String>)
    ensures
        opt_text(r) == present_text(opt_str(t)),
{
    match t {
        Some(s) => {
            let inner = trim(s);
            if inner.as_str().is_empty() {
                None
            } else {
                Some(inner)
            }
        },
        None => None,
    }
}

pub fn project_name(cwd: &str) -> (s: String)
    ensures
        s@ == project_of(cwd@),
{
    let v = chars_of(cwd);
    let end = find_end_of(&v, '/');
    let start = find_after_last(&v, end, '/');
    proof {
        text::lemma_last_pos(v@.take(end as int), '/');
        assert(text::after_last(v@.take(end as int), '/') =~= v@.subrange(start as int, end as int));
    }
    if start == end {
        cwd.to_string()
    } else {
        text_between(&v, start, end)
    }
}

fn names_directory(title: &str, cwd: &str) -> (r: bool)
    ensures
        r == directory_title(title@, cwd@),
{
    let v = chars_of(title);
    let n: usize = v.len();
    let start = find_after_last(&v, n, ':');
    proof {
        assert(v@.take(n as int) =~= v@);
        text::lemma_last_pos(v@, ':');
    }
    let mut i: usize = start;
    assert(v@.skip(start as int) == text::after_last(v@, ':'));
    while i < n && is_white_space(v[i])
        invariant
            start <= i <= n,
            n == v@.len(),
            text::trim_start(v@.skip(i as int)) == text::trim_start(v@.skip(start as int)),
        decreases n - i,
    {
        assert(v@.skip(i as int).drop_first() =~= v@.skip(i + 1));
        i = i + 1;
    }
    assert(text::trim_start(v@.skip(i as int)) == v@.skip(i as int));
    let project = project_name(cwd);
    same_text(title, cwd) || (!cwd.is_empty() && same_text(title, project.as_str()))
        || holds_char(&v, '/') || (i < n && v[i] == '~') || (n >= 2 && v[0] == '.' && v[1] == '.')
}

fn pane_name(
    session_name: Option<&str>,
    custom_title: Option<&str>,
    osc_title: Option<&str>,
    cwd: &str,
) -> (r: Option<String>)
    ensures
        opt_text(r) == name_of_pane(
            opt_str(session_name),
            opt_str(custom_title),
            opt_str(osc_title),
            cwd@,
        ),
{
    if let Some(name) = present(session_name) {
        return Some(name);
    }
    let own = match present(custom_title) {
        Some(t) => Some(t),
        None => present(osc_title),
    };
    match own {
        Some(t) => if names_directory(t.as_str(), cwd) {
            None
        } else {
            Some(t)
        },
        None => None,
    }
}

/// The tile title: the agent session name, else the pane's own title (custom
/// or application-set) unless the shell put a directory there, else the
/// agent, else the foreground process, else `Shell`. A pane is never titled
/// by its directory: that is the subtitle's job.
pub fn tile_title(
    session_name: Option<&str>,
    custom_title: Option<&str>,
    osc_title: Option<&str>,
    agent: Option<&str>,
    process: Option<&str>,
    cwd: &str,
) -> (s: String)
    ensures
        s@ == title_of_tile(
            opt_str(session_name),
            opt_str(custom_title),
            opt_str(osc_title),
            opt_str(agent),
            opt_str(process),
            cwd@,
        ),
{
    if let Some(name) = pane_name(session_name, custom_title, osc_title, cwd) {
        return name;
    }
    if let Some(what) = present(agent) {
        return what;
    }
    if let Some(what) = present(process) {
        return what;
    }
    "Shell".to_string()
}

/// An optional string as an optional slice.
fn as_str(o: &Option<String>) -> (r: Option<&str>)
    ensures
        opt_str(r) == opt_text(*o),
{
    match o {
        Some(s) => Some(s.as_str()),
        None => None,
    }
}

/// The header of a group whose tab has no name of its own.
pub open spec fn header_of(p: PaneFacts) -> Seq<char> {
    match name_of_pane(
        opt_text(p.session_name),
        opt_text(p.custom_title),
        opt_text(p.osc_title),
        p.cwd@,
    ) {
        Some(n) => n,
        None => if project_of(p.cwd@).len() > 0 {
            project_of(p.cwd@)
        } else {
            "shell"@
        },
    }
}

/// The group header of a tab without a custom name: the focused pane's name
/// when it has one, else its project, else `shell`.
pub fn header_title(p: &PaneFacts) -> (s: String)
    ensures
        s@ == header_of(*p),
{
    let name = pane_name(
        as_str(&p.session_name),
        as_str(&p.custom_title),
        as_str(&p.osc_title),
        p.cwd.as_str(),
    );
    match name {
        Some(n) => n,
        None => {
            let project = project_name(p.cwd.as_str());
            if project.as_str().is_empty() {
                "shell".to_string()
            } else {
                project
            }
        },
    }
}

pub fn subtitle(project: &str, agent: Option<&str>, title: &str) -> (s: String)
    ensures
        s@ == subtitle_of(project@, opt_str(agent), title@),
{
    match agent {
        Some(a) => if same_text(a, title) {
            project.to_string()
        } else if project.is_empty() {
            a.to_string()
        } else {
            let mut s = project.to_string();
            s.append(" \u{b7} ");
            s.append(a);
            s
        },
        None => project.to_string(),
    }
}

// ---------------------------------------------------------------
// Tiles
// ---------------------------------------------------------------

/// A copy of an optional string.
pub fn copy_text(o: &Option<String>) -> (r: Option<String>)
    ensures
        r == *o,
{
    match o {
        Some(s) => Some(s.clone()),
        None => None,
    }
}

/// What a tile takes from the preview of its pane: question, detail, age of
/// a permission prompt on an awaiting tile; the summary of a finished turn on
/// an unread one.
pub open spec fn preview_question(f: PaneFacts) -> Option<Seq<char>> {
    match f.preview {
        Some(PromptPreview::Permission { question, .. }) => if TileState::of_flags(f.flags)
            == TileState::Awaiting {
            Some(question@)
        } else {
            None
        },
        _ => None,
    }
}

pub open spec fn preview_detail(f: PaneFacts) -> Option<Seq<char>> {
    match f.preview {
        Some(PromptPreview::Permission { header, detail, .. }) => if TileState::of_flags(f.flags)
            == TileState::Awaiting {
            match detail {
                Some(d) => Some(d@),
                None => Some(header@),
            }
        } else {
            None
        },
        _ => None,
    }
}

pub open spec fn preview_age(f: PaneFacts, now: u64) -> Option<(Seq<char>, bool)> {
    match f.preview {
        Some(PromptPreview::Permission { since, .. }) => if TileState::of_flags(f.flags)
            == TileState::Awaiting {
            let secs = if now >= since {
                (now - since) as u64
            } else {
                0u64
            };
            Some((sidebar::age_text(secs), secs >= AGING_SECS))
        } else {
            None
        },
        _ => None,
    }
}

pub open spec fn preview_summary(f: PaneFacts) -> Option<Seq<char>> {
    match f.preview {
        Some(PromptPreview::TurnEnd { summary, .. }) => if TileState::of_flags(f.flags) is Unread
            && summary@.len() > 0 {
            Some(summary@)
        } else {
            None
        },
        _ => None,
    }
}

/// The title facts alone call for, before any edit in progress.
pub open spec fn plain_title(f: PaneFacts) -> Seq<char> {
    title_of_tile(
        opt_text(f.session_name),
        opt_text(f.custom_title),
        opt_text(f.osc_title),
        opt_text(f.agent),
        opt_text(f.process),
        f.cwd@,
    )
}

impl TileVm {
    /// The tile of the pane the facts describe, at `now`.
    pub open spec fn shows(self, f: PaneFacts, now: u64) -> bool {
        &&& self.pane_id == f.pane_id
        &&& self.column == f.column
        &&& self.state == TileState::of_flags(f.flags)
        &&& self.unread == f.flags.unread()
        &&& self.minimized == f.minimized
        &&& self.bare_shell == (f.bare_shell && !f.resumable)
        &&& self.resumable == (f.bare_shell && f.resumable)
        &&& self.title@ == (match f.edit {
            Some(e) => e@,
            None => plain_title(f),
        })
        &&& self.secondary@ == subtitle_of(project_of(f.cwd@), opt_text(f.agent), plain_title(f))
        &&& self.agent == f.agent
        &&& self.bookmarked == f.bookmarked
        &&& self.focused == f.focused
        &&& self.renaming == f.edit is Some
        &&& opt_text(self.question) == preview_question(f)
        &&& opt_text(self.detail) == preview_detail(f)
        &&& opt_text(self.summary) == preview_summary(f)
        &&& (match self.age {
            Some((t, red)) => Some((t@, red)),
            None => None,
        }) == preview_age(f, now)
    }

    pub fn from_facts(f: &PaneFacts, now: u64) -> (t: Self)
        ensures
            t.shows(*f, now),
    {
        let state = TileState::from_flags(f.flags);
        let mut question: Option<String> = None;
        let mut detail: Option<String> = None;
        let mut summary: Option<String> = None;
        let mut age: Option<(String, bool)> = None;
        match &f.preview {
            Some(PromptPreview::Permission { header, question: q, detail: d, since, .. }) => {
                if state == TileState::Awaiting {
                    question = Some(q.clone());
                    detail =
                    Some(
                        match d {
                            Some(d) => d.clone(),
                            None => header.clone(),
                        },
                    );
                    let secs: u64 = now.saturating_sub(*since);
                    age = Some((format_age(secs), secs >= AGING_SECS));
                }
            },
            Some(PromptPreview::TurnEnd { summary: s, .. }) => {
                if matches!(state, TileState::Unread { .. }) && !s.as_str().is_empty() {
                    summary = Some(s.clone());
                }
            },
            None => {},
        }
        let title = tile_title(
            as_str(&f.session_name),
            as_str(&f.custom_title),
            as_str(&f.osc_title),
            as_str(&f.agent),
            as_str(&f.process),
            f.cwd.as_str(),
        );
        let project = project_name(f.cwd.as_str());
        let secondary = subtitle(project.as_str(), as_str(&f.agent), title.as_str());
        let renaming = f.edit.is_some();
        TileVm {
            pane_id: f.pane_id,
            column: f.column,
            state,
            unread: f.flags.is_unread(),
            minimized: f.minimized,
            bare_shell: f.bare_shell && !f.resumable,
            resumable: f.bare_shell && f.resumable,
            title: match &f.edit {
                Some(e) => e.clone(),
                None => title,
            },
            secondary,
            agent: copy_text(&f.agent),
            bookmarked: f.bookmarked,
            focused: f.focused,
            renaming,
            question,
            detail,
            summary,
            age,
        }
    }

    /// Whether the tile is the tall awaiting card.
    pub fn awaiting(&self) -> (r: bool)
        ensures
            r == (self.state == TileState::Awaiting),
    {
        self.state == TileState::Awaiting
    }

    /// The chip: the state word, except that a shell holding an agent's
    /// resume line names that agent rather than `shell`.
    pub fn chip(&self) -> (s: String)
        ensures
            s@ == (match self.agent {
                Some(a) => if self.state == TileState::Shell && self.resumable {
                    a@
                } else {
                    self.state.chip_text()
                },
                None => self.state.chip_text(),
            }),
    {
        match &self.agent {
            Some(agent) => if self.state == TileState::Shell && self.resumable {
                return agent.clone();
            },
            None => {},
        }
        self.state.chip().to_string()
    }
}

// ---------------------------------------------------------------
// The walk and the model
// ---------------------------------------------------------------

/// The tile states of a tab's panes.
pub open spec fn states_of_tab(t: TabFacts) -> Seq<TileState> {
    t.panes@.map_values(|p: PaneFacts| TileState::of_flags(p.flags))
}

/// The most urgent state of each tab.
pub open spec fn urgent_states(tabs: Seq<TabFacts>) -> Seq<TileState> {
    tabs.map_values(|t: TabFacts| TileState::first_most_urgent(states_of_tab(t)))
}

/// The tile states of every pane of the window.
pub open spec fn all_states(tabs: Seq<TabFacts>) -> Seq<TileState>
    decreases tabs.len(),
{
    if tabs.len() == 0 {
        Seq::empty()
    } else {
        all_states(tabs.drop_last()) + states_of_tab(tabs.last())
    }
}

/// The panes of a tab a walk can land on, each with whether it is unread.
pub open spec fn visible_panes(panes: Seq<PaneFacts>) -> Seq<(PaneId, bool)>
    decreases panes.len(),
{
    if panes.len() == 0 {
        Seq::empty()
    } else {
        let before = visible_panes(panes.drop_last());
        if panes.last().minimized {
            before
        } else {
            before.push((panes.last().pane_id, panes.last().flags.unread()))
        }
    }
}

/// The visible panes of the tabs listed by `order`, one tab after the other.
pub open spec fn walk(tabs: Seq<TabFacts>, order: Seq<usize>) -> Seq<(PaneId, bool)>
    decreases order.len(),
{
    if order.len() == 0 {
        Seq::empty()
    } else {
        walk(tabs, order.drop_last()) + visible_panes(tabs[order.last() as int].panes@)
    }
}

/// `r` walks the panes of `tabs` as `sort` lists them.
pub open spec fn is_pane_order(
    r: Seq<(PaneId, bool)>,
    tabs: Seq<TabFacts>,
    sort: SidebarSort,
) -> bool {
    exists|order: Seq<usize>| #[trigger]
        sidebar::is_display_order(order, sort, urgent_states(tabs)) && r == walk(tabs, order)
}

fn tab_states(t: &TabFacts) -> (states: Vec<TileState>)
    ensures
        states@ == states_of_tab(*t),
{
    let mut states: Vec<TileState> = Vec::new();
    for i in 0..t.panes.len()
        invariant
            states@ == states_of_tab(*t).take(i as int),
    {
        states.push(TileState::from_flags(t.panes[i].flags));
        assert(states@ =~= states_of_tab(*t).take(i + 1));
    }
    assert(states@ =~= states_of_tab(*t));
    states
}

fn most_urgent_states(tabs: &[TabFacts]) -> (states: Vec<TileState>)
    ensures
        states@ == urgent_states(tabs@),
{
    let mut states: Vec<TileState> = Vec::new();
    for i in 0..tabs.len()
        invariant
            states@ == urgent_states(tabs@).take(i as int),
    {
        let of_tab = tab_states(&tabs[i]);
        states.push(TileState::most_urgent(of_tab.as_slice()));
        assert(states@ =~= urgent_states(tabs@).take(i + 1));
    }
    assert(states@ =~= urgent_states(tabs@));
    states
}

/// The panes of a window in the order a jump to the next unread walks them,
/// each with whether it is unread: the tabs in the sidebar's display order
/// (`sort`), the panes in tab order, minimized panes left out (never a
/// landing spot: the user folded them).
pub fn pane_order(tabs: &[TabFacts], sort: SidebarSort) -> (r: Vec<(PaneId, bool)>)
    ensures
        is_pane_order(r@, tabs@, sort),
{
    let states = most_urgent_states(tabs);
    let order = display_order(sort, states.as_slice());
    let mut out: Vec<(PaneId, bool)> = Vec::new();
    assert(walk(tabs@, order@.take(0)) =~= Seq::empty());
    for k in 0..order.len()
        invariant
            states@ == urgent_states(tabs@),
            sidebar::is_display_order(order@, sort, states@),
            out@ == walk(tabs@, order@.take(k as int)),
    {
        let ti: usize = order[k];
        let panes = &tabs[ti].panes;
        let ghost before = out@;
        assert(visible_panes(panes@.take(0)) =~= Seq::empty());
        for i in 0..panes.len()
            invariant
                out@ == before + visible_panes(panes@.take(i as int)),
        {
            assert(panes@.take(i + 1).drop_last() =~= panes@.take(i as int));
            if !panes[i].minimized {
                out.push((panes[i].pane_id, panes[i].flags.is_unread()));
            }
            assert(out@ =~= before + visible_panes(panes@.take(i + 1)));
        }
        assert(panes@.take(panes@.len() as int) =~= panes@);
        assert(order@.take(k + 1).drop_last() =~= order@.take(k as int));
        assert(order@.take(k + 1).last() == ti);
    }
    assert(order@.take(order@.len() as int) =~= order@);
    out
}

impl GroupVm {
    /// The group of the tab the facts describe, at `now`.
    pub open spec fn shows(self, t: TabFacts, now: u64) -> bool {
        &&& self.tab_idx == t.tab_idx
        &&& self.tab_id == t.tab_id
        &&& self.title == t.title
        &&& self.color == t.color
        &&& self.active == t.active
        &&& self.collapsed == t.collapsed
        &&& self.renaming == t.renaming
        &&& self.summary.summarizes(states_of_tab(t))
        &&& self.tiles@.len() == (if t.collapsed {
            0
        } else {
            t.panes@.len()
        })
        &&& forall|k: int|
            0 <= k < self.tiles@.len() ==> (#[trigger] self.tiles@[k]).shows(t.panes@[k], now)
    }

    fn from_facts(t: &TabFacts, now: u64) -> (g: Self)
        ensures
            g.shows(*t, now),
    {
        let mut tiles: Vec<TileVm> = Vec::new();
        if !t.collapsed {
            for i in 0..t.panes.len()
                invariant
                    tiles@.len() == i,
                    forall|k: int|
                        0 <= k < i ==> (#[trigger] tiles@[k]).shows(t.panes@[k], now),
            {
                tiles.push(TileVm::from_facts(&t.panes[i], now));
            }
        }
        let states = tab_states(t);
        GroupVm {
            tab_idx: t.tab_idx,
            tab_id: t.tab_id,
            title: t.title.clone(),
            color: t.color,
            active: t.active,
            collapsed: t.collapsed,
            renaming: t.renaming,
            summary: CollapsedSummary::of(states.as_slice()),
            tiles,
        }
    }
}

proof fn lemma_count_concat(a: Seq<TileState>, b: Seq<TileState>, s: TileState)
    ensures
        sidebar::count_of(a + b, s) == sidebar::count_of(a, s) + sidebar::count_of(b, s),
    decreases b.len(),
{
    if b.len() == 0 {
        assert(a + b =~= a);
    } else {
        lemma_count_concat(a, b.drop_last(), s);
        assert((a + b).drop_last() =~= a + b.drop_last());
    }
}

proof fn lemma_all_states_prefix(tabs: Seq<TabFacts>, n: int)
    requires
        0 <= n <= tabs.len(),
    ensures
        all_states(tabs.take(n)).len() <= all_states(tabs).len(),
    decreases tabs.len() - n,
{
    if n < tabs.len() {
        lemma_all_states_prefix(tabs, n + 1);
        assert(tabs.take(n + 1).drop_last() =~= tabs.take(n));
    } else {
        assert(tabs.take(n) =~= tabs);
    }
}

/// The counts of the summary line over a window's panes.
pub open spec fn summary_of(states: Seq<TileState>) -> Seq<(Seq<char>, SummaryRun)> {
    sidebar::summary_line(
        sidebar::count_of(states, TileState::Awaiting),
        sidebar::count_of(states, TileState::Working) + sidebar::count_of(states, TileState::Starting),
        sidebar::count_of(states, TileState::Idle),
    )
}

impl SidebarModel {
    /// The model of the window the facts describe.
    pub open spec fn shows(
        self,
        tabs: Seq<TabFacts>,
        sort: SidebarSort,
        pill: NextPill,
        now: u64,
    ) -> bool {
        &&& sidebar::run_texts(self.summary@) == summary_of(all_states(tabs))
        &&& self.sort == sort
        &&& self.pill == pill
        &&& self.show_hint == (all_states(tabs).len() < 3)
        &&& self.groups@.len() == tabs.len()
        &&& exists|order: Seq<usize>|
            {
                &&& #[trigger] sidebar::is_display_order(order, sort, urgent_states(tabs))
                &&& forall|k: int|
                    0 <= k < tabs.len() ==> (#[trigger] self.groups@[k]).shows(
                        tabs[order[k] as int],
                        now,
                    )
            }
    }

    /// Assemble the model with a pill that counts the unread panes alone.
    /// `unread` is the unread count across every window.
    pub fn build(tabs: &[TabFacts], sort: SidebarSort, unread: usize, now: u64) -> (m: Self)
        requires
            all_states(tabs@).len() <= usize::MAX,
        ensures
            m.shows(tabs@, sort, NextPill::shows(unread, 0, false), now),
    {
        SidebarModel::assemble(tabs, sort, NextPill::of(unread, 0, false), now)
    }

    /// Assemble the model.
    pub fn assemble(tabs: &[TabFacts], sort: SidebarSort, pill: NextPill, now: u64) -> (m: Self)
        requires
            all_states(tabs@).len() <= usize::MAX,
        ensures
            m.shows(tabs@, sort, pill, now),
    {
        let mut waiting: usize = 0;
        let mut working: usize = 0;
        let mut idle_here: usize = 0;
        let mut total_panes: usize = 0;
        assert(all_states(tabs@.take(0)) =~= Seq::empty());
        for ti in 0..tabs.len()
            invariant
                all_states(tabs@).len() <= usize::MAX,
                total_panes == all_states(tabs@.take(ti as int)).len(),
                waiting == sidebar::count_of(all_states(tabs@.take(ti as int)), TileState::Awaiting),
                working == sidebar::count_of(all_states(tabs@.take(ti as int)), TileState::Working)
                    + sidebar::count_of(all_states(tabs@.take(ti as int)), TileState::Starting),
                idle_here == sidebar::count_of(all_states(tabs@.take(ti as int)), TileState::Idle),
                waiting + working + idle_here <= total_panes,
        {
            let panes = &tabs[ti].panes;
            let ghost before = all_states(tabs@.take(ti as int));
            let ghost here = states_of_tab(tabs@[ti as int]);
            proof {
                assert(tabs@.take(ti + 1).drop_last() =~= tabs@.take(ti as int));
                assert(tabs@.take(ti + 1).last() == tabs@[ti as int]);
                lemma_all_states_prefix(tabs@, ti + 1);
                assert(before + here.take(0) =~= before);
            }
            for i in 0..panes.len()
                invariant
                    here == states_of_tab(tabs@[ti as int]),
                    panes@ == tabs@[ti as int].panes@,
                    before.len() + here.len() <= usize::MAX,
                    total_panes == (before + here.take(i as int)).len(),
                    waiting == sidebar::count_of(before + here.take(i as int), TileState::Awaiting),
                    working == sidebar::count_of(before + here.take(i as int), TileState::Working)
                        + sidebar::count_of(before + here.take(i as int), TileState::Starting),
                    idle_here == sidebar::count_of(before + here.take(i as int), TileState::Idle),
                    waiting + working + idle_here <= total_panes,
            {
                proof {
                    let next = before + here.take(i + 1);
                    assert(next.drop_last() =~= before + here.take(i as int));
                    assert(next.last() == here[i as int]);
                }
                total_panes = total_panes + 1;
                match TileState::from_flags(panes[i].flags) {
                    TileState::Awaiting => {
                        waiting = waiting + 1;
                    },
                    TileState::Working | TileState::Starting => {
                        working = working + 1;
                    },
                    TileState::Idle => {
                        idle_here = idle_here + 1;
                    },
                    _ => {},
                }
            }
            assert(here.take(here.len() as int) =~= here);
        }
        assert(tabs@.take(tabs@.len() as int) =~= tabs@);
        let states = most_urgent_states(tabs);
        let order = display_order(sort, states.as_slice());
        let mut groups: Vec<GroupVm> = Vec::new();
        for k in 0..order.len()
            invariant
                states@ == urgent_states(tabs@),
                sidebar::is_display_order(order@, sort, states@),
                groups@.len() == k,
                forall|j: int|
                    0 <= j < k ==> (#[trigger] groups@[j]).shows(tabs@[order@[j] as int], now),
        {
            groups.push(GroupVm::from_facts(&tabs[order[k]], now));
        }
        SidebarModel {
            summary: summary_runs(waiting, working, idle_here),
            sort,
            pill,
            groups,
            show_hint: total_panes < 3,
        }
    }
}

/// Two tiles that read the same.
pub open spec fn same_tile(a: TileVm, b: TileVm) -> bool {
    &&& a.pane_id == b.pane_id
    &&& a.column == b.column
    &&& a.state == b.state
    &&& a.unread == b.unread
    &&& a.minimized == b.minimized
    &&& a.bare_shell == b.bare_shell
    &&& a.resumable == b.resumable
    &&& a.title@ == b.title@
    &&& a.secondary@ == b.secondary@
    &&& a.agent == b.agent
    &&& a.bookmarked == b.bookmarked
    &&& a.focused == b.focused
    &&& a.renaming == b.renaming
    &&& opt_text(a.question) == opt_text(b.question)
    &&& opt_text(a.detail) == opt_text(b.detail)
    &&& opt_text(a.summary) == opt_text(b.summary)
    &&& match (a.age, b.age) {
        (Some(x), Some(y)) => x.0@ == y.0@ && x.1 == y.1,
        (None, None) => true,
        _ => false,
    }
}

/// Two groups that read the same.
pub open spec fn same_group(a: GroupVm, b: GroupVm) -> bool {
    &&& a == (GroupVm { tiles: a.tiles, ..b })
    &&& a.tiles@.len() == b.tiles@.len()
    &&& forall|k: int|
        0 <= k < a.tiles@.len() ==> same_tile(#[trigger] a.tiles@[k], #[trigger] b.tiles@[k])
}

/// The facts of a window with the group of tab `i` folded or unfolded.
pub open spec fn folded(tabs: Seq<TabFacts>, i: int, collapsed: bool) -> Seq<TabFacts> {
    tabs.update(i, TabFacts { collapsed, ..tabs[i] })
}

/// The tab `i` is listed at `at` in both models. Its group differs in whether
/// it is folded and in its tiles; every other group reads the same.
pub open spec fn only_group_folds(
    at: int,
    before: Seq<GroupVm>,
    after: Seq<GroupVm>,
    tab: TabFacts,
    collapsed: bool,
    now: u64,
) -> bool {
    &&& 0 <= at < before.len()
    &&& before[at].shows(tab, now)
    &&& after[at].shows(TabFacts { collapsed, ..tab }, now)
    &&& after[at] == (GroupVm { collapsed, tiles: after[at].tiles, ..before[at] })
    &&& forall|k: int|
        0 <= k < before.len() && k != at ==> same_group(#[trigger] before[k], #[trigger] after[k])
}

/// Folding or unfolding one group leaves the summary line, the sort, the
/// pill, the hint, the order of the groups and every other group as they were.
pub proof fn folding_a_group_leaves_the_rest(
    before: SidebarModel,
    after: SidebarModel,
    tabs: Seq<TabFacts>,
    i: int,
    collapsed: bool,
    sort: SidebarSort,
    pill: NextPill,
    now: u64,
)
    requires
        0 <= i < tabs.len(),
        before.shows(tabs, sort, pill, now),
        after.shows(folded(tabs, i, collapsed), sort, pill, now),
    ensures
        sidebar::run_texts(after.summary@) == sidebar::run_texts(before.summary@),
        after.sort == before.sort,
        after.pill == before.pill,
        after.show_hint == before.show_hint,
        after.groups@.len() == before.groups@.len(),
        exists|at: int| #[trigger]
            only_group_folds(at, before.groups@, after.groups@, tabs[i], collapsed, now),
{
    let next = folded(tabs, i, collapsed);
    lemma_folded_states(tabs, i, collapsed);
    assert(urgent_states(next) =~= urgent_states(tabs)) by {
        assert forall|k: int| 0 <= k < tabs.len() implies urgent_states(next)[k] == urgent_states(
            tabs,
        )[k] by {
            assert(states_of_tab(next[k]) =~= states_of_tab(tabs[k]));
        }
    }
    let order = choose|order: Seq<usize>|
        {
            &&& #[trigger] sidebar::is_display_order(order, sort, urgent_states(tabs))
            &&& forall|k: int|
                0 <= k < tabs.len() ==> (#[trigger] before.groups@[k]).shows(
                    tabs[order[k] as int],
                    now,
                )
        };
    let again = choose|order: Seq<usize>|
        {
            &&& #[trigger] sidebar::is_display_order(order, sort, urgent_states(next))
            &&& forall|k: int|
                0 <= k < next.len() ==> (#[trigger] after.groups@[k]).shows(
                    next[order[k] as int],
                    now,
                )
        };
    sidebar::display_order_is_unique(order, again, sort, urgent_states(tabs));
    assert(before.groups.len() == tabs.len());
    assert(order.contains(i as usize));
    let at = choose|at: int| 0 <= at < order.len() && order[at] == i as usize;
    assert forall|k: int| 0 <= k < before.groups@.len() && k != at implies same_group(
        #[trigger] before.groups@[k],
        #[trigger] after.groups@[k],
    ) by {
        assert(order[k] != order[at]);
        lemma_shown_alike(before.groups@[k], after.groups@[k], tabs[order[k] as int], now);
    }
    assert(only_group_folds(at, before.groups@, after.groups@, tabs[i], collapsed, now));
}

proof fn lemma_shown_alike(a: GroupVm, b: GroupVm, t: TabFacts, now: u64)
    requires
        a.shows(t, now),
        b.shows(t, now),
    ensures
        same_group(a, b),
{
    assert forall|k: int| 0 <= k < a.tiles@.len() implies same_tile(
        #[trigger] a.tiles@[k],
        #[trigger] b.tiles@[k],
    ) by {
        assert(a.tiles@[k].shows(t.panes@[k], now));
        assert(b.tiles@[k].shows(t.panes@[k], now));
    }
}

proof fn lemma_folded_states(tabs: Seq<TabFacts>, i: int, collapsed: bool)
    requires
        0 <= i < tabs.len(),
    ensures
        all_states(folded(tabs, i, collapsed)) == all_states(tabs),
    decreases tabs.len(),
{
    let next = folded(tabs, i, collapsed);
    assert(states_of_tab(next.last()) =~= states_of_tab(tabs.last()));
    if i == tabs.len() - 1 {
        assert(next.drop_last() =~= tabs.drop_last());
    } else {
        lemma_folded_states(tabs.drop_last(), i, collapsed);
        assert(next.drop_last() =~= folded(tabs.drop_last(), i, collapsed));
    }
}

} // verus!
