//! The sidebar from the window's side.
use crate::overlays::RenameState;
use crate::pane;
use crate::pane::{Pane, PaneId, Tab};
use crate::render;
use crate::render::caret_text;
use crate::sidebar::{NextPill, PaneFlags, SidebarSort};
use crate::sidebar_model;
use crate::sidebar_model::{copy_text, header_title, PaneFacts, SidebarModel, TabFacts};
use crate::switcher;
use crate::text;
use crate::view::{Effect, KovaView, PointerState};
use vstd::prelude::*;

verus! {

/// The sidebar's state on the window's side.
#[derive(Clone, Copy, Debug, PartialEq, Eq)]
pub struct SidebarState {
    pub sort: SidebarSort,
    /// The active tab and focused pane the list last scrolled to show.
    pub last_reveal: Option<(usize, PaneId)>,
    /// Unread count of the previous frame.
    pub last_unread: Option<usize>,
    /// Frames left of the caught-up flash.
    pub caught_up_frames: u32,
    /// The pane a context menu is open for.
    pub menu_pane: PaneId,
    /// The tab a context menu is open for.
    pub menu_tab: usize,
    /// The sidebar is on screen.
    pub shown: bool,
}

impl SidebarState {
    pub open spec fn fresh() -> SidebarState {
        SidebarState {
            sort: SidebarSort::Kova,
            last_reveal: None,
            last_unread: None,
            caught_up_frames: 0,
            menu_pane: 0,
            menu_tab: 0,
            shown: false,
        }
    }

    pub fn new() -> (s: Self)
        ensures
            s == SidebarState::fresh(),
    {
        SidebarState {
            sort: SidebarSort::Kova,
            last_reveal: None,
            last_unread: None,
            caught_up_frames: 0,
            menu_pane: 0,
            menu_tab: 0,
            shown: false,
        }
    }
}

// ---------------------------------------------------------------
// Menus
// ---------------------------------------------------------------

/// What a tile's context menu can do.
#[derive(Clone, Copy, Debug, PartialEq, Eq, Structural)]
pub enum PaneAction {
    Open,
    Stop,
    StartClaude,
    /// Run the resume line waiting at the pane's prompt.
    Resume,
    Rename,
    ToggleBookmark,
    Minimize,
    Restore,
    Close,
}

impl PaneAction {
    pub open spec fn number(self) -> isize {
        match self {
            PaneAction::Open => 0,
            PaneAction::Stop => 1,
            PaneAction::StartClaude => 2,
            PaneAction::Resume => 3,
            PaneAction::Rename => 4,
            PaneAction::ToggleBookmark => 5,
            PaneAction::Minimize => 6,
            PaneAction::Restore => 7,
            PaneAction::Close => 8,
        }
    }

    /// The action a menu item's tag stands for.
    pub fn from_tag(tag: isize) -> (a: Option<Self>)
        ensures
            a matches Some(x) ==> x.number() == tag,
            a is None <==> tag < 0 || tag > 8,
    {
        match tag {
            0 => Some(PaneAction::Open),
            1 => Some(PaneAction::Stop),
            2 => Some(PaneAction::StartClaude),
            3 => Some(PaneAction::Resume),
            4 => Some(PaneAction::Rename),
            5 => Some(PaneAction::ToggleBookmark),
            6 => Some(PaneAction::Minimize),
            7 => Some(PaneAction::Restore),
            8 => Some(PaneAction::Close),
            _ => None,
        }
    }

    /// The tag of the action's menu item.
    pub fn tag(self) -> (t: isize)
        ensures
            t == self.number(),
    {
        match self {
            PaneAction::Open => 0,
            PaneAction::Stop => 1,
            PaneAction::StartClaude => 2,
            PaneAction::Resume => 3,
            PaneAction::Rename => 4,
            PaneAction::ToggleBookmark => 5,
            PaneAction::Minimize => 6,
            PaneAction::Restore => 7,
            PaneAction::Close => 8,
        }
    }
}

/// No two tile actions share a tag: a tag reads back as the action it was made
/// of.
pub proof fn pane_action_tags_read_back(a: PaneAction, b: PaneAction)
    ensures
        a.number() == b.number() <==> a == b,
        0 <= a.number() <= 8,
{
}

/// What a header's context menu can do.
#[derive(Clone, Copy, Debug, PartialEq, Eq, Structural)]
pub enum TabAction {
    Color(usize),
    NoColor,
    Rename,
    AddPane,
    CollapseOthers,
    Close,
}

impl TabAction {
    pub open spec fn number(self) -> int {
        match self {
            TabAction::Color(i) => i as int,
            TabAction::NoColor => 6,
            TabAction::Rename => 10,
            TabAction::AddPane => 11,
            TabAction::CollapseOthers => 12,
            TabAction::Close => 13,
        }
    }

    /// An action a menu can offer: its colour is one of the palette.
    pub open spec fn wf(self) -> bool {
        self matches TabAction::Color(i) ==> i <= 5
    }

    /// The action a menu item's tag stands for.
    pub fn from_tag(tag: isize) -> (a: Option<Self>)
        ensures
            a matches Some(x) ==> x.wf() && x.number() == tag,
            a is None <==> !(0 <= tag <= 6 || 10 <= tag <= 13),
    {
        if 0 <= tag && tag <= 5 {
            return Some(TabAction::Color(tag as usize));
        }
        match tag {
            6 => Some(TabAction::NoColor),
            10 => Some(TabAction::Rename),
            11 => Some(TabAction::AddPane),
            12 => Some(TabAction::CollapseOthers),
            13 => Some(TabAction::Close),
            _ => None,
        }
    }

    /// The tag of the action's menu item.
    pub fn tag(self) -> (t: isize)
        requires
            self matches TabAction::Color(i) ==> i <= isize::MAX,
        ensures
            t == self.number(),
    {
        match self {
            TabAction::Color(i) => i as isize,
            TabAction::NoColor => 6,
            TabAction::Rename => 10,
            TabAction::AddPane => 11,
            TabAction::CollapseOthers => 12,
            TabAction::Close => 13,
        }
    }
}

/// No two header actions share a tag: a tag reads back as the action it was
/// made of.
pub proof fn tab_action_tags_read_back(a: TabAction, b: TabAction)
    requires
        a.wf(),
        b.wf(),
    ensures
        a.number() == b.number() <==> a == b,
        0 <= a.number() <= 6 || 10 <= a.number() <= 13,
{
}

/// A row of a menu.
#[derive(Debug, PartialEq)]
pub enum MenuRow {
    /// A label and its tag.
    Item(String, isize),
    /// A colour: its label, tag, place in the palette, and whether it is the
    /// current one.
    Swatch(String, isize, Option<usize>, bool),
    Separator,
}

/// A row of a menu with its text.
pub enum MenuText {
    Item(Seq<char>, int),
    Swatch(Seq<char>, int, Option<usize>, bool),
    Separator,
}

pub open spec fn menu_text(r: MenuRow) -> MenuText {
    match r {
        MenuRow::Item(s, t) => MenuText::Item(s@, t as int),
        MenuRow::Swatch(s, t, c, on) => MenuText::Swatch(s@, t as int, c, on),
        MenuRow::Separator => MenuText::Separator,
    }
}

pub open spec fn menu_texts(rows: Seq<MenuRow>) -> Seq<MenuText> {
    rows.map_values(|r: MenuRow| menu_text(r))
}

fn push_item(rows: &mut Vec<MenuRow>, label: &str, tag: isize)
    ensures
        menu_texts(final(rows)@) == menu_texts(old(rows)@).push(
            MenuText::Item(label@, tag as int),
        ),
{
    let mut s = String::new();
    s.append(label);
    assert(s@ =~= label@);
    let ghost before = rows@;
    rows.push(MenuRow::Item(s, tag));
    assert(menu_texts(rows@) =~= menu_texts(before).push(MenuText::Item(label@, tag as int)));
}

fn push_swatch(rows: &mut Vec<MenuRow>, label: &str, tag: isize, color: Option<usize>, on: bool)
    ensures
        menu_texts(final(rows)@) == menu_texts(old(rows)@).push(
            MenuText::Swatch(label@, tag as int, color, on),
        ),
{
    let mut s = String::new();
    s.append(label);
    assert(s@ =~= label@);
    let ghost before = rows@;
    rows.push(MenuRow::Swatch(s, tag, color, on));
    assert(menu_texts(rows@) =~= menu_texts(before).push(
        MenuText::Swatch(label@, tag as int, color, on),
    ));
}

fn push_separator(rows: &mut Vec<MenuRow>)
    ensures
        menu_texts(final(rows)@) == menu_texts(old(rows)@).push(MenuText::Separator),
{
    let ghost before = rows@;
    rows.push(MenuRow::Separator);
    assert(menu_texts(rows@) =~= menu_texts(before).push(MenuText::Separator));
}

/// What the menus and actions read of a pane.
#[derive(Debug, PartialEq)]
pub struct PaneSnapshot {
    pub title: String,
    pub working: bool,
    pub awaiting: bool,
    pub bare: bool,
    pub resumable: bool,
    pub minimized: bool,
    pub bookmarked: bool,
}

pub open spec fn item(label: Seq<char>, a: PaneAction) -> MenuText {
    MenuText::Item(label, a.number() as int)
}

/// The rows of a tile's menu: what can be done with the pane as it is.
pub open spec fn pane_menu(p: PaneSnapshot, agent: Seq<char>) -> Seq<MenuText> {
    seq![item("Open"@, PaneAction::Open)] + (if p.working || p.awaiting {
        seq![item("Stop"@, PaneAction::Stop)]
    } else {
        seq![]
    }) + (if p.resumable {
        seq![item("Resume the session"@, PaneAction::Resume)]
    } else if p.bare {
        seq![item("Start "@ + agent + " here"@, PaneAction::StartClaude)]
    } else {
        seq![]
    }) + seq![
        MenuText::Separator,
        item("Rename\u{2026}"@, PaneAction::Rename),
        item(
            if p.bookmarked {
                "Unbookmark"@
            } else {
                "Bookmark"@
            },
            PaneAction::ToggleBookmark,
        ),
        if p.minimized {
            item("Restore"@, PaneAction::Restore)
        } else {
            item("Minimize"@, PaneAction::Minimize)
        },
        MenuText::Separator,
        item("Close"@, PaneAction::Close),
    ]
}

/// The rows of a tile's menu; `agent` is what the agent is called.
pub fn pane_menu_rows(p: &PaneSnapshot, agent: &str) -> (rows: Vec<MenuRow>)
    ensures
        menu_texts(rows@) == pane_menu(*p, agent@),
{
    let mut rows: Vec<MenuRow> = Vec::new();
    assert(menu_texts(rows@) =~= seq![]);
    push_item(&mut rows, "Open", PaneAction::Open.tag());
    if p.working || p.awaiting {
        push_item(&mut rows, "Stop", PaneAction::Stop.tag());
    }
    if p.resumable {
        push_item(&mut rows, "Resume the session", PaneAction::Resume.tag());
    } else if p.bare {
        let mut s = String::new();
        s.append("Start ");
        s.append(agent);
        s.append(" here");
        assert(s@ =~= "Start "@ + agent@ + " here"@);
        push_item(&mut rows, s.as_str(), PaneAction::StartClaude.tag());
    }
    push_separator(&mut rows);
    push_item(&mut rows, "Rename\u{2026}", PaneAction::Rename.tag());
    push_item(
        &mut rows,
        if p.bookmarked {
            "Unbookmark"
        } else {
            "Bookmark"
        },
        PaneAction::ToggleBookmark.tag(),
    );
    if p.minimized {
        push_item(&mut rows, "Restore", PaneAction::Restore.tag());
    } else {
        push_item(&mut rows, "Minimize", PaneAction::Minimize.tag());
    }
    push_separator(&mut rows);
    push_item(&mut rows, "Close", PaneAction::Close.tag());
    assert(menu_texts(rows@) =~= pane_menu(*p, agent@));
    rows
}

/// How the colour menu names a colour of the palette.
pub open spec fn color_name(i: int) -> Seq<char> {
    if i == 0 {
        "Red"@
    } else if i == 1 {
        "Orange"@
    } else if i == 2 {
        "Yellow"@
    } else if i == 3 {
        "Green"@
    } else if i == 4 {
        "Blue"@
    } else {
        "Violet"@
    }
}

/// How the colour menu names a colour of the palette.
pub fn tab_color_name(i: usize) -> (s: &'static str)
    requires
        i < 6,
    ensures
        s@ == color_name(i as int),
{
    if i == 0 {
        "Red"
    } else if i == 1 {
        "Orange"
    } else if i == 2 {
        "Yellow"
    } else if i == 3 {
        "Green"
    } else if i == 4 {
        "Blue"
    } else {
        "Violet"
    }
}

/// How the header menu shows a colour of the palette.
pub open spec fn color_dot(i: int) -> Seq<char> {
    if i == 0 {
        "🔴"@
    } else if i == 1 {
        "🟠"@
    } else if i == 2 {
        "🟡"@
    } else if i == 3 {
        "🟢"@
    } else if i == 4 {
        "🔵"@
    } else {
        "🟣"@
    }
}

fn tab_color_dot(i: usize) -> (s: &'static str)
    requires
        i < 6,
    ensures
        s@ == color_dot(i as int),
{
    if i == 0 {
        "🔴"
    } else if i == 1 {
        "🟠"
    } else if i == 2 {
        "🟡"
    } else if i == 3 {
        "🟢"
    } else if i == 4 {
        "🔵"
    } else {
        "🟣"
    }
}

/// The rows of a header's menu: the colours, then the tab's actions.
pub open spec fn tab_menu() -> Seq<MenuText> {
    Seq::new(6, |i: int| MenuText::Item(color_dot(i), i)) + seq![
        MenuText::Item("No colour"@, TabAction::NoColor.number()),
        MenuText::Separator,
        MenuText::Item("Rename tab\u{2026}"@, TabAction::Rename.number()),
        MenuText::Item("Add a pane"@, TabAction::AddPane.number()),
        MenuText::Item("Collapse others"@, TabAction::CollapseOthers.number()),
        MenuText::Separator,
        MenuText::Item("Close tab"@, TabAction::Close.number()),
    ]
}

/// The rows of a header's menu.
pub fn tab_menu_rows() -> (rows: Vec<MenuRow>)
    ensures
        menu_texts(rows@) == tab_menu(),
{
    let mut rows: Vec<MenuRow> = Vec::new();
    let ghost dots = Seq::new(6, |i: int| MenuText::Item(color_dot(i), i));
    assert(menu_texts(rows@) =~= dots.take(0));
    for i in 0..6usize
        invariant
            dots == Seq::new(6, |i: int| MenuText::Item(color_dot(i), i)),
            menu_texts(rows@) == dots.take(i as int),
    {
        push_item(&mut rows, tab_color_dot(i), TabAction::Color(i).tag());
        assert(menu_texts(rows@) =~= dots.take(i + 1));
    }
    push_item(&mut rows, "No colour", TabAction::NoColor.tag());
    push_separator(&mut rows);
    push_item(&mut rows, "Rename tab\u{2026}", TabAction::Rename.tag());
    push_item(&mut rows, "Add a pane", TabAction::AddPane.tag());
    push_item(&mut rows, "Collapse others", TabAction::CollapseOthers.tag());
    push_separator(&mut rows);
    push_item(&mut rows, "Close tab", TabAction::Close.tag());
    assert(menu_texts(rows@) =~= tab_menu());
    rows
}

/// The rows of the colour menu of the tab bar: the palette, then none.
pub open spec fn strip_color_menu() -> Seq<MenuText> {
    Seq::new(6, |i: int| MenuText::Item(color_dot(i), i)) + seq![
        MenuText::Separator,
        MenuText::Item("Aucune"@, -1int),
    ]
}

impl KovaView {
    /// The colour menu of a tab of the tab bar opens: its items act on the
    /// tab. Returns its rows.
    pub fn show_tab_color_menu(&mut self, tab_idx: usize) -> (rows: Vec<MenuRow>)
        ensures
            menu_texts(rows@) == strip_color_menu(),
            *final(self) == (KovaView {
                pointer: PointerState { color_menu_tab: tab_idx, ..old(self).pointer },
                ..*old(self)
            }),
    {
        self.pointer.color_menu_tab = tab_idx;
        let mut rows: Vec<MenuRow> = Vec::new();
        let ghost want = strip_color_menu();
        assert(menu_texts(rows@) =~= want.take(0));
        for i in 0..6usize
            invariant
                want == strip_color_menu(),
                menu_texts(rows@) == want.take(i as int),
        {
            push_item(&mut rows, tab_color_dot(i), i as isize);
            assert(menu_texts(rows@) =~= want.take(i + 1));
        }
        push_separator(&mut rows);
        push_item(&mut rows, "Aucune", -1);
        assert(menu_texts(rows@) =~= want);
        rows
    }
}

/// The rows of the colour menu: the palette, then none, the current one
/// checked.
pub open spec fn color_menu(current: Option<usize>) -> Seq<MenuText> {
    Seq::new(
        6,
        |i: int|
            MenuText::Swatch(color_name(i), i, Some(i as usize), current == Some(i as usize)),
    ) + seq![
        MenuText::Swatch("No colour"@, TabAction::NoColor.number(), None, current is None),
    ]
}

/// The rows of the colour menu of a tab with the colour `current`.
pub fn color_menu_rows(current: Option<usize>) -> (rows: Vec<MenuRow>)
    ensures
        menu_texts(rows@) == color_menu(current),
{
    let mut rows: Vec<MenuRow> = Vec::new();
    let ghost want = color_menu(current);
    assert(menu_texts(rows@) =~= want.take(0));
    for i in 0..6usize
        invariant
            want == color_menu(current),
            menu_texts(rows@) == want.take(i as int),
    {
        let on: bool = match current {
            Some(c) => c == i,
            None => false,
        };
        push_swatch(&mut rows, tab_color_name(i), TabAction::Color(i).tag(), Some(i), on);
        assert(menu_texts(rows@) =~= want.take(i + 1));
    }
    push_swatch(&mut rows, "No colour", TabAction::NoColor.tag(), None, current.is_none());
    assert(menu_texts(rows@) =~= want);
    rows
}

// ---------------------------------------------------------------
// What the sidebar reads of the tabs
// ---------------------------------------------------------------

/// The key is one of the bookmarks'.
pub open spec fn holds_key(keys: Seq<String>, key: Seq<char>) -> bool {
    exists|i: int| 0 <= i < keys.len() && (#[trigger] keys[i])@ == key
}

pub fn is_key(keys: &Vec<String>, key: &str) -> (r: bool)
    ensures
        r == holds_key(keys@, key@),
{
    for i in 0..keys.len()
        invariant
            forall|k: int| 0 <= k < i ==> (#[trigger] keys@[k])@ != key@,
    {
        if text::same_text(keys[i].as_str(), key) {
            return true;
        }
    }
    false
}

/// The pane is bookmarked: by its conversation, else by its directory.
pub open spec fn is_bookmarked(p: Pane, keys: Seq<String>) -> bool {
    match p.agent.session_id {
        Some(id) => holds_key(keys, id@),
        None => p.term.cwd matches Some(c) && c@.len() > 0 && holds_key(keys, c@),
    }
}

fn pane_bookmarked(p: &Pane, keys: &Vec<String>) -> (r: bool)
    ensures
        r == is_bookmarked(*p, keys@),
{
    match &p.agent.session_id {
        Some(id) => is_key(keys, id.as_str()),
        None => match &p.term.cwd {
            Some(c) => !c.as_str().is_empty() && is_key(keys, c.as_str()),
            None => false,
        },
    }
}

/// The flags a pane's tile is made of; `seen` says that it is being looked at.
pub open spec fn flags_of(p: Pane, seen: bool) -> PaneFlags {
    PaneFlags {
        permission_prompt: p.agent.permission_prompt,
        prompt_unseen: p.agent.prompt_unseen,
        bell: p.bell,
        completion: p.completed && !p.completion_seen,
        hook_unseen: p.agent.waits.since is Some && !p.agent.waits.seen,
        turn_end_unseen: p.agent.turn_end_unseen,
        working: p.agent.working,
        starting: p.agent.starting,
        idle_agent: p.agent.idle,
        seen,
        manual: p.marked_unread,
    }
}

pub fn pane_flags(p: &Pane, seen: bool) -> (f: PaneFlags)
    ensures
        f == flags_of(*p, seen),
{
    PaneFlags {
        permission_prompt: p.agent.permission_prompt,
        prompt_unseen: p.agent.prompt_unseen,
        bell: p.bell,
        completion: p.completed && !p.completion_seen,
        hook_unseen: p.agent.waits.since.is_some() && !p.agent.waits.seen,
        turn_end_unseen: p.agent.turn_end_unseen,
        working: p.agent.working,
        starting: p.agent.starting,
        idle_agent: p.agent.idle,
        seen,
        manual: p.marked_unread,
    }
}

/// The agent of a pane: the live one, else the one it can resume.
pub open spec fn agent_of(p: Pane) -> Option<String> {
    match p.agent.kind {
        Some(k) => Some(k),
        None => match p.agent.restored {
            Some(r) => Some(r.0),
            None => None,
        },
    }
}

/// What the sidebar reads of a pane.
pub open spec fn are_pane_facts(
    f: PaneFacts,
    p: Pane,
    focused: bool,
    rename: Option<RenameState>,
    keys: Seq<String>,
) -> bool {
    &&& match rename {
        Some(r) if focused => f.edit matches Some(e) && e@ == render::with_caret(
            r.input@,
            r.cursor as int,
        ),
        _ => f.edit is None,
    }
    &&& f.cwd@ == (match p.term.cwd {
        Some(c) => c@,
        None => Seq::<char>::empty(),
    })
    &&& f == (PaneFacts {
        pane_id: p.id,
        column: p.column,
        flags: flags_of(p, focused),
        minimized: p.minimized,
        bare_shell: p.term.bare_shell,
        session_name: p.agent.session_name,
        custom_title: p.custom_title,
        osc_title: p.term.title,
        edit: f.edit,
        agent: agent_of(p),
        resumable: p.agent.restored is Some,
        process: p.term.process,
        cwd: f.cwd,
        bookmarked: is_bookmarked(p, keys),
        focused,
        preview: p.agent.waits.preview,
    })
}

/// What the sidebar reads of a tab.
pub open spec fn are_tab_facts(
    f: TabFacts,
    t: Tab,
    at: int,
    active: bool,
    rename_tab: Option<RenameState>,
    rename_pane: Option<RenameState>,
    keys: Seq<String>,
) -> bool {
    let focus = pane::pos(t.panes@, t.focused_pane);
    &&& f.panes@.len() == t.panes@.len()
    &&& forall|k: int|
        0 <= k < t.panes@.len() ==> are_pane_facts(
            #[trigger] f.panes@[k],
            t.panes@[k],
            active && t.panes@[k].id == t.focused_pane,
            rename_pane,
            keys,
        )
    &&& f.title@ == (match rename_tab {
        Some(r) if active => render::with_caret(r.input@, r.cursor as int),
        _ => match t.custom_title {
            Some(c) => c@,
            None => if focus < t.panes@.len() {
                sidebar_model::header_of(f.panes@[focus])
            } else {
                "shell"@
            },
        },
    })
    &&& f == (TabFacts {
        tab_idx: f.tab_idx,
        tab_id: t.id,
        title: f.title,
        color: t.color,
        active,
        collapsed: t.collapsed,
        renaming: active && rename_tab is Some,
        panes: f.panes,
    })
    &&& f.tab_idx == at
}

/// What the sidebar reads of a window.
pub open spec fn are_facts(f: Seq<TabFacts>, v: KovaView) -> bool {
    &&& f.len() == v.tabs@.len()
    &&& forall|i: int|
        0 <= i < f.len() ==> are_tab_facts(
            #[trigger] f[i],
            v.tabs@[i],
            i,
            i == v.active_tab,
            v.overlays.rename_tab,
            v.overlays.rename_pane,
            v.bookmark_keys@,
        )
}

fn pane_facts(p: &Pane, focused: bool, rename: &Option<RenameState>, keys: &Vec<String>) -> (f:
    PaneFacts)
    requires
        rename matches Some(r) ==> r.wf(),
    ensures
        are_pane_facts(f, *p, focused, *rename, keys@),
{
    let mut edit: Option<String> = None;
    if focused {
        match rename {
            Some(r) => {
                edit = Some(caret_text(r));
            },
            None => {},
        }
    }
    let cwd = match &p.term.cwd {
        Some(c) => c.clone(),
        None => String::new(),
    };
    let agent = match &p.agent.kind {
        Some(k) => Some(k.clone()),
        None => match &p.agent.restored {
            Some(r) => Some(r.0.clone()),
            None => None,
        },
    };
    let preview = match &p.agent.waits.preview {
        Some(v) => Some(v.clone()),
        None => None,
    };
    PaneFacts {
        pane_id: p.id,
        column: p.column,
        flags: pane_flags(p, focused),
        minimized: p.minimized,
        bare_shell: p.term.bare_shell,
        session_name: copy_text(&p.agent.session_name),
        custom_title: copy_text(&p.custom_title),
        osc_title: copy_text(&p.term.title),
        edit,
        agent,
        resumable: p.agent.restored.is_some(),
        process: copy_text(&p.term.process),
        cwd,
        bookmarked: pane_bookmarked(p, keys),
        focused,
        preview,
    }
}

impl KovaView {
    fn tab_facts(&self, ti: usize) -> (f: TabFacts)
        requires
            ti < self.tabs@.len(),
            self.overlays.rename_tab matches Some(r) ==> r.wf(),
            self.overlays.rename_pane matches Some(r) ==> r.wf(),
        ensures
            are_tab_facts(
                f,
                self.tabs@[ti as int],
                ti as int,
                ti == self.active_tab,
                self.overlays.rename_tab,
                self.overlays.rename_pane,
                self.bookmark_keys@,
            ),
    {
        let t = &self.tabs[ti];
        let active: bool = ti == self.active_tab;
        let mut panes: Vec<PaneFacts> = Vec::new();
        for k in 0..t.panes.len()
            invariant
                ti < self.tabs@.len(),
                *t == self.tabs@[ti as int],
                active == (ti == self.active_tab),
                self.overlays.rename_pane matches Some(r) ==> r.wf(),
                panes@.len() == k,
                forall|j: int|
                    0 <= j < k ==> are_pane_facts(
                        #[trigger] panes@[j],
                        t.panes@[j],
                        active && t.panes@[j].id == t.focused_pane,
                        self.overlays.rename_pane,
                        self.bookmark_keys@,
                    ),
        {
            let p = &t.panes[k];
            let focused: bool = active && p.id == t.focused_pane;
            panes.push(
                pane_facts(p, focused, &self.overlays.rename_pane, &self.bookmark_keys),
            );
        }
        let mut renaming = false;
        let mut title = String::new();
        if active {
            match &self.overlays.rename_tab {
                Some(r) => {
                    title = caret_text(r);
                    renaming = true;
                },
                None => {},
            }
        }
        if !renaming {
            match &t.custom_title {
                Some(c) => {
                    title = c.clone();
                },
                None => {
                    let focus = t.find(t.focused_pane);
                    if focus < panes.len() {
                        title = header_title(&panes[focus]);
                    } else {
                        title = "shell".to_string();
                    }
                },
            }
        }
        TabFacts {
            tab_idx: ti,
            tab_id: t.id,
            title,
            color: t.color,
            active,
            collapsed: t.collapsed,
            renaming,
            panes,
        }
    }

    /// What the sidebar reads of the tabs.
    pub fn sidebar_tab_facts(&self) -> (facts: Vec<TabFacts>)
        requires
            self.overlays.rename_tab matches Some(r) ==> r.wf(),
            self.overlays.rename_pane matches Some(r) ==> r.wf(),
        ensures
            are_facts(facts@, *self),
    {
        let mut facts: Vec<TabFacts> = Vec::new();
        for ti in 0..self.tabs.len()
            invariant
                self.overlays.rename_tab matches Some(r) ==> r.wf(),
                self.overlays.rename_pane matches Some(r) ==> r.wf(),
                facts@.len() == ti,
                forall|i: int|
                    0 <= i < ti ==> are_tab_facts(
                        #[trigger] facts@[i],
                        self.tabs@[i],
                        i,
                        i == self.active_tab,
                        self.overlays.rename_tab,
                        self.overlays.rename_pane,
                        self.bookmark_keys@,
                    ),
        {
            facts.push(self.tab_facts(ti));
        }
        facts
    }
}

// ---------------------------------------------------------------
// The frame
// ---------------------------------------------------------------

/// Frames the caught-up flash lasts: 1.6 seconds.
pub open spec fn caught_up_for(fps: u32) -> u32 {
    (fps * 8 / 5) as u32
}

/// The caught-up flash one frame on: it starts when the last unread pane is
/// read.
pub open spec fn flash_frames(s: SidebarState, unread: usize, fps: u32) -> u32 {
    let frames = if (s.last_unread matches Some(n) && n > 0) && unread == 0 {
        caught_up_for(fps)
    } else {
        s.caught_up_frames
    };
    if frames > 0 {
        (frames - 1) as u32
    } else {
        0
    }
}

/// The state of the sidebar one frame on, and whether the focus moved.
pub open spec fn synced(v: KovaView, unread: usize) -> SidebarState {
    SidebarState {
        last_unread: Some(unread),
        caught_up_frames: flash_frames(v.sidebar, unread, v.frame.fps),
        last_reveal: if v.has_active() {
            Some((v.active_tab, v.active().focused_pane))
        } else {
            v.sidebar.last_reveal
        },
        ..v.sidebar
    }
}

/// What following the focus asks for: the tile is revealed once per change.
pub open spec fn reveal_effects(v: KovaView) -> Seq<Effect> {
    let key = (v.active_tab, v.active().focused_pane);
    if v.has_active() && v.sidebar.last_reveal != Some(key) {
        seq![Effect::RevealTile(v.active_tab, v.active().focused_pane)]
    } else {
        seq![]
    }
}

/// The focus is revealed once: a second frame with the same focus asks for
/// nothing, so that a manual scroll sticks.
pub proof fn a_focus_is_revealed_once(v: KovaView, unread: usize)
    ensures
        reveal_effects(KovaView { sidebar: synced(v, unread), ..v }) == Seq::<Effect>::empty(),
{
}

impl SidebarState {
    fn count(&mut self, unread: usize, fps: u32)
        requires
            fps * 8 <= u32::MAX,
        ensures
            *final(self) == (SidebarState {
                last_unread: Some(unread),
                caught_up_frames: flash_frames(*old(self), unread, fps),
                ..*old(self)
            }),
    {
        match self.last_unread {
            Some(n) => {
                if n > 0 && unread == 0 {
                    self.caught_up_frames = fps * 8 / 5;
                }
            },
            None => {},
        }
        self.last_unread = Some(unread);
        if self.caught_up_frames > 0 {
            self.caught_up_frames = self.caught_up_frames - 1;
        }
    }
}

impl KovaView {
    /// Whether the sidebar is on screen.
    pub fn sidebar_active(&self) -> (r: bool)
        ensures
            r == self.sidebar.shown,
    {
        self.sidebar.shown
    }

    pub fn sidebar_sort(&self) -> (s: SidebarSort)
        ensures
            s == self.sidebar.sort,
    {
        self.sidebar.sort
    }

    pub fn set_sidebar_sort(&mut self, sort: SidebarSort)
        ensures
            *final(self) == (KovaView {
                sidebar: SidebarState { sort, ..old(self).sidebar },
                ..*old(self)
            }),
    {
        self.sidebar.sort = sort;
    }

    /// Switch the list between the tab order and the most urgent first.
    pub fn sidebar_toggle_sort(&mut self)
        ensures
            *final(self) == (KovaView {
                sidebar: SidebarState {
                    sort: old(self).sidebar.sort.other(),
                    ..old(self).sidebar
                },
                ..*old(self)
            }),
    {
        self.sidebar.sort = self.sidebar.sort.toggled();
    }

    /// One frame of the sidebar: the model to show, and the focus followed.
    /// `unread` and `idle` count the panes of every window, `now` is in
    /// seconds since the epoch. Nothing is done while it is off screen.
    pub fn sync_sidebar(&mut self, unread: usize, idle: usize, now: u64) -> (model: Option<
        SidebarModel,
    >)
        requires
            old(self).frame.fps * 8 <= u32::MAX,
            old(self).overlays.rename_tab matches Some(r) ==> r.wf(),
            old(self).overlays.rename_pane matches Some(r) ==> r.wf(),
            switcher::row_count(old(self).tabs@) <= usize::MAX,
        ensures
            !old(self).sidebar.shown ==> model is None && *final(self) == *old(self),
            old(self).sidebar.shown ==> {
                let pill = NextPill::shows(
                    unread,
                    idle,
                    flash_frames(old(self).sidebar, unread, old(self).frame.fps) > 0,
                );
                &&& model matches Some(m) && exists|facts: Seq<TabFacts>| #[trigger]
                    are_facts(facts, *old(self)) && m.shows(
                        facts,
                        old(self).sidebar.sort,
                        pill,
                        now,
                    )
                &&& final(self).effects@ == old(self).effects@ + reveal_effects(*old(self))
                &&& *final(self) == (KovaView {
                    sidebar: synced(*old(self), unread),
                    effects: final(self).effects,
                    ..*old(self)
                })
            },
    {
        if !self.sidebar.shown {
            return None;
        }
        let facts = self.sidebar_tab_facts();
        proof {
            lemma_state_count(facts@, *self, facts@.len() as int);
            assert(facts@.take(facts@.len() as int) =~= facts@);
            assert(self.tabs@.take(facts@.len() as int) =~= self.tabs@);
        }
        let fps: u32 = self.frame.fps;
        self.sidebar.count(unread, fps);
        let pill = NextPill::of(unread, idle, self.sidebar.caught_up_frames > 0);
        let model = SidebarModel::assemble(facts.as_slice(), self.sidebar.sort, pill, now);
        assert(are_facts(facts@, *old(self)));
        if self.active_tab < self.tabs.len() {
            let ti: usize = self.active_tab;
            let id: PaneId = self.tabs[ti].focused_pane;
            let seen: bool = match self.sidebar.last_reveal {
                Some((a, b)) => a == ti && b == id,
                None => false,
            };
            if !seen {
                self.sidebar.last_reveal = Some((ti, id));
                self.emit(Effect::RevealTile(ti, id));
            }
        }
        assert(self.effects@ =~= old(self).effects@ + reveal_effects(*old(self)));
        Some(model)
    }
}

/// The states of the tiles are no more than the rows of the tabs.
proof fn lemma_state_count(facts: Seq<TabFacts>, v: KovaView, n: int)
    requires
        are_facts(facts, v),
        0 <= n <= facts.len(),
    ensures
        sidebar_model::all_states(facts.take(n)).len() <= switcher::row_count(v.tabs@.take(n)),
    decreases n,
{
    if n > 0 {
        lemma_state_count(facts, v, n - 1);
        assert(facts.take(n).drop_last() =~= facts.take(n - 1));
        assert(v.tabs@.take(n).drop_last() =~= v.tabs@.take(n - 1));
        assert(are_tab_facts(
            facts[n - 1],
            v.tabs@[n - 1],
            n - 1,
            n - 1 == v.active_tab,
            v.overlays.rename_tab,
            v.overlays.rename_pane,
            v.bookmark_keys@,
        ));
    }
}

} // verus!
