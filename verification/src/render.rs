//! What the renderer is handed each frame.
use crate::overlays::RenameState;
use crate::pane;
use crate::pane::{Pane, PaneId, Tab};
use crate::sidebar_model::copy_text;
use crate::text;
use crate::view::{KovaView, ResizeFeedback, ResizeMode};
use vstd::prelude::*;

verus! {

/// A pane of the active tab.
#[derive(Debug, PartialEq)]
pub struct PaneRow {
    pub pane_id: PaneId,
    pub shell_ready: bool,
    pub is_focused: bool,
    pub display_title: String,
    pub custom_title: Option<String>,
    pub has_completion: bool,
    pub has_bell: bool,
    pub minimized: bool,
}

/// A tab of the tab bar.
#[derive(Debug, PartialEq)]
pub struct TabItem {
    pub title: String,
    pub is_active: bool,
    pub color: Option<usize>,
    pub is_renaming: bool,
    pub has_bell: bool,
    pub has_completion: bool,
    pub has_running: bool,
}

/// A list to pick from.
#[derive(Debug, PartialEq)]
pub struct OverlayList {
    pub title: String,
    pub entries: Vec<String>,
    pub selected: usize,
    /// The last entry stands for something new.
    pub has_new_entry: bool,
}

/// The place of the focus: its column, the columns, its tab, the tabs, and the
/// tab's title; places count from one.
#[derive(Debug, PartialEq)]
pub struct FocusPlace {
    pub focused_column: usize,
    pub total_columns: usize,
    pub active_tab: usize,
    pub total_tabs: usize,
    pub tab_title: String,
}

/// A text with the caret in it.
pub open spec fn with_caret(input: Seq<char>, cursor: int) -> Seq<char> {
    input.take(cursor).push('▏') + input.skip(cursor)
}

/// The caret hides nothing of what is typed.
pub proof fn the_caret_hides_nothing(input: Seq<char>, cursor: int)
    requires
        0 <= cursor <= input.len(),
    ensures
        with_caret(input, cursor).remove(cursor) == input,
        with_caret(input, cursor)[cursor] == '▏',
{
    assert(with_caret(input, cursor).remove(cursor) =~= input);
}

pub(crate) fn caret_text(r: &RenameState) -> (s: String)
    requires
        r.wf(),
    ensures
        s@ == with_caret(r.input@, r.cursor as int),
{
    let v = text::chars_of(r.input.as_str());
    let mut s = text::text_between(&v, 0, r.cursor);
    s.push('▏');
    text::push_between(&mut s, &v, r.cursor, v.len());
    assert(s@ =~= with_caret(r.input@, r.cursor as int));
    s
}

/// The row of a pane: a rename of the focused one shows what is typed.
pub open spec fn is_pane_row(
    r: PaneRow,
    p: Pane,
    focused: PaneId,
    rename: Option<RenameState>,
) -> bool {
    &&& match rename {
        Some(rs) if p.id == focused => r.custom_title matches Some(t) && t@ == with_caret(
            rs.input@,
            rs.cursor as int,
        ),
        _ => r.custom_title == p.custom_title,
    }
    &&& r == (PaneRow {
        pane_id: p.id,
        shell_ready: p.term.ready,
        is_focused: p.id == focused,
        display_title: p.term.display_title,
        custom_title: r.custom_title,
        has_completion: p.id != focused && p.completed && !p.completion_seen,
        has_bell: p.id != focused && p.bell,
        minimized: p.minimized,
    })
}

/// The item of a tab: a rename of the active one shows what is typed.
pub open spec fn is_tab_item(r: TabItem, t: Tab, active: bool, rename: Option<RenameState>) -> bool {
    &&& match rename {
        Some(rs) if active => r.title@ == with_caret(rs.input@, rs.cursor as int),
        _ => r.title == t.shown_title(),
    }
    &&& r == (TabItem {
        title: r.title,
        is_active: active,
        color: t.color,
        is_renaming: active && rename is Some,
        has_bell: t.has_bell,
        has_completion: t.has_completion,
        has_running: t.has_running,
    })
}

impl KovaView {
    /// The panes of the active tab.
    pub fn pane_rows(&self) -> (rows: Vec<PaneRow>)
        requires
            self.overlays.rename_pane matches Some(r) ==> r.wf(),
        ensures
            !self.has_active() ==> rows@.len() == 0,
            self.has_active() ==> rows@.len() == self.active().panes@.len() && forall|k: int|
                0 <= k < rows@.len() ==> is_pane_row(
                    #[trigger] rows@[k],
                    self.active().panes@[k],
                    self.active().focused_pane,
                    self.overlays.rename_pane,
                ),
    {
        let mut rows: Vec<PaneRow> = Vec::new();
        if self.active_tab >= self.tabs.len() {
            return rows;
        }
        let t = &self.tabs[self.active_tab];
        let focused: PaneId = t.focused_pane;
        for k in 0..t.panes.len()
            invariant
                self.has_active(),
                *t == self.active(),
                focused == t.focused_pane,
                self.overlays.rename_pane matches Some(r) ==> r.wf(),
                rows@.len() == k,
                forall|j: int|
                    0 <= j < k ==> is_pane_row(
                        #[trigger] rows@[j],
                        t.panes@[j],
                        focused,
                        self.overlays.rename_pane,
                    ),
        {
            let p = &t.panes[k];
            let here: bool = p.id == focused;
            let mut custom_title = copy_text(&p.custom_title);
            if here {
                match &self.overlays.rename_pane {
                    Some(r) => {
                        custom_title = Some(caret_text(r));
                    },
                    None => {},
                }
            }
            rows.push(
                PaneRow {
                    pane_id: p.id,
                    shell_ready: p.term.ready,
                    is_focused: here,
                    display_title: p.term.display_title.clone(),
                    custom_title,
                    has_completion: !here && p.completed && !p.completion_seen,
                    has_bell: !here && p.bell,
                    minimized: p.minimized,
                },
            );
        }
        rows
    }

    /// The tabs of the tab bar.
    pub fn tab_items(&self) -> (items: Vec<TabItem>)
        requires
            self.overlays.rename_tab matches Some(r) ==> r.wf(),
        ensures
            items@.len() == self.tabs@.len(),
            forall|i: int|
                0 <= i < items@.len() ==> is_tab_item(
                    #[trigger] items@[i],
                    self.tabs@[i],
                    i == self.active_tab,
                    self.overlays.rename_tab,
                ),
    {
        let mut items: Vec<TabItem> = Vec::new();
        for i in 0..self.tabs.len()
            invariant
                self.overlays.rename_tab matches Some(r) ==> r.wf(),
                items@.len() == i,
                forall|j: int|
                    0 <= j < i ==> is_tab_item(
                        #[trigger] items@[j],
                        self.tabs@[j],
                        j == self.active_tab,
                        self.overlays.rename_tab,
                    ),
        {
            let t = &self.tabs[i];
            let active: bool = i == self.active_tab;
            let mut title = t.title();
            let mut renaming = false;
            if active {
                match &self.overlays.rename_tab {
                    Some(r) => {
                        title = caret_text(r);
                        renaming = true;
                    },
                    None => {},
                }
            }
            items.push(
                TabItem {
                    title,
                    is_active: active,
                    color: t.color,
                    is_renaming: renaming,
                    has_bell: t.has_bell,
                    has_completion: t.has_completion,
                    has_running: t.has_running,
                },
            );
        }
        items
    }

    /// Where the focus is: nowhere without an active tab.
    pub fn focus_place(&self) -> (r: Option<FocusPlace>)
        requires
            self.wf(),
        ensures
            !self.has_active() ==> r is None,
            self.has_active() ==> ({
                let t = self.active();
                r matches Some(place) && place == (FocusPlace {
                    focused_column: (t.panes@[pane::pos(t.panes@, t.focused_pane)].column
                        + 1) as usize,
                    total_columns: Tab::column_count(t.panes@) as usize,
                    active_tab: (self.active_tab + 1) as usize,
                    total_tabs: self.tabs@.len() as usize,
                    tab_title: t.shown_title(),
                })
            }),
    {
        if self.active_tab >= self.tabs.len() {
            return None;
        }
        let t = &self.tabs[self.active_tab];
        proof {
            assert(self.active().wf());
            pane::lemma_pos(t.panes@, t.focused_pane);
            pane::lemma_columns_sorted(
                t.panes@,
                pane::pos(t.panes@, t.focused_pane),
                t.panes@.len() - 1,
            );
            lemma_column_below(t.panes@, t.panes@.len() - 1);
        }
        assert(t.panes.len() == t.panes@.len());
        let at = t.find(t.focused_pane);
        let total_columns = t.num_columns();
        Some(
            FocusPlace {
                focused_column: t.panes[at].column + 1,
                total_columns,
                active_tab: self.active_tab + 1,
                total_tabs: self.tabs.len(),
                tab_title: t.title(),
            },
        )
    }

    /// The list to pick from: the windows a tab can be sent to, or the tabs it
    /// can be merged into.
    pub fn overlay_list(&self) -> (list: Option<OverlayList>)
        ensures
            match (self.overlays.send_to_window, self.overlays.merge_tab) {
                (Some(s), _) => list matches Some(l) && l.title@ == "Send Tab to Window"@
                    && l.entries@ == s.entries@.map_values(
                    |e: crate::tabs::SendToWindowEntry| e.label,
                ) && l.selected == s.selected && l.has_new_entry == (s.entries@.len() > 0
                    && s.entries@.last().window_index is None),
                (None, Some(m)) => list matches Some(l) && l.title@ == "Merge Tab Into"@
                    && l.entries@ == m.entries@.map_values(|e: crate::tabs::MergeTabEntry| e.label)
                    && l.selected == m.selected && !l.has_new_entry,
                (None, None) => list is None,
            },
    {
        match &self.overlays.send_to_window {
            Some(s) => {
                let mut entries: Vec<String> = Vec::new();
                let ghost want = s.entries@.map_values(
                    |e: crate::tabs::SendToWindowEntry| e.label,
                );
                for i in 0..s.entries.len()
                    invariant
                        want == s.entries@.map_values(
                            |e: crate::tabs::SendToWindowEntry| e.label,
                        ),
                        entries@ == want.take(i as int),
                {
                    entries.push(s.entries[i].label.clone());
                    assert(entries@ =~= want.take(i + 1));
                }
                assert(want.take(want.len() as int) =~= want);
                let n: usize = s.entries.len();
                let has_new_entry: bool = n > 0 && s.entries[n - 1].window_index.is_none();
                return Some(
                    OverlayList {
                        title: "Send Tab to Window".to_string(),
                        entries,
                        selected: s.selected,
                        has_new_entry,
                    },
                );
            },
            None => {},
        }
        match &self.overlays.merge_tab {
            Some(m) => {
                let mut entries: Vec<String> = Vec::new();
                let ghost want = m.entries@.map_values(|e: crate::tabs::MergeTabEntry| e.label);
                for i in 0..m.entries.len()
                    invariant
                        want == m.entries@.map_values(|e: crate::tabs::MergeTabEntry| e.label),
                        entries@ == want.take(i as int),
                {
                    entries.push(m.entries[i].label.clone());
                    assert(entries@ =~= want.take(i + 1));
                }
                assert(want.take(want.len() as int) =~= want);
                Some(
                    OverlayList {
                        title: "Merge Tab Into".to_string(),
                        entries,
                        selected: m.selected,
                        has_new_entry: false,
                    },
                )
            },
            None => None,
        }
    }

    /// What the status bar says of the last change of width.
    pub fn resize_feedback_text(&self) -> (s: Option<String>)
        ensures
            match self.frame.resize_feedback {
                Some(f) => s matches Some(t) && t@ == feedback_text(f),
                None => s is None,
            },
    {
        match self.frame.resize_feedback {
            Some(f) => {
                let mut t = String::new();
                match f.mode {
                    ResizeMode::Ratio => {
                        t.append("Ratio");
                    },
                    ResizeMode::Virtual => {
                        t.append("Virtual");
                    },
                    ResizeMode::Edge => {
                        t.append("Right Edge");
                    },
                }
                t.append(" — screen ");
                text::push_decimal(&mut t, f.screen_w as u64);
                t.append("px — virtual ");
                text::push_decimal(&mut t, f.virtual_w as u64);
                t.append("px");
                assert(t@ =~= feedback_text(f));
                Some(t)
            },
            None => None,
        }
    }
}

proof fn lemma_column_below(panes: Seq<Pane>, i: int)
    requires
        pane::columns_ok(panes),
        0 <= i < panes.len(),
    ensures
        panes[i].column <= i,
    decreases i,
{
    if i > 0 {
        lemma_column_below(panes, i - 1);
        assert(panes[i].column == panes[i - 1].column || panes[i].column == panes[i - 1].column
            + 1);
    }
}

pub open spec fn mode_name(m: ResizeMode) -> Seq<char> {
    match m {
        ResizeMode::Ratio => "Ratio"@,
        ResizeMode::Virtual => "Virtual"@,
        ResizeMode::Edge => "Right Edge"@,
    }
}

pub open spec fn feedback_text(f: ResizeFeedback) -> Seq<char> {
    mode_name(f.mode) + " — screen "@ + text::decimal(f.screen_w as nat) + "px — virtual "@
        + text::decimal(f.virtual_w as nat) + "px"@
}

} // verus!
