//! The actions a key, a menu or a client can ask of a window.
use crate::attention;
use crate::nav;
use crate::overlays;
use crate::overlays::FilterMatch;
use crate::pane;
use crate::pane::{NavDirection, Pane, PaneId, SplitDirection, Tab, TabId};
use crate::paths;
use crate::paths::{paste_image_text, paste_text};
use crate::recent;
use crate::recent::{RecentLook, RecentProject};
use crate::resize;
use crate::search;
use crate::switcher;
use crate::tabs;
use crate::tabs::OtherWindow;
use crate::view;
use crate::view::{Effect, KovaView, Overlays};
use vstd::prelude::*;

verus! {

/// What the pasteboard holds: an image, by the path it was written to, or
/// text.
#[derive(Debug)]
pub struct Clipboard {
    pub image: Option<String>,
    pub text: Option<String>,
}

/// The text selected in the focused pane, as it is laid out and with its
/// wrapped lines joined.
#[derive(Debug)]
pub struct SelectedText {
    pub raw: String,
    pub joined: String,
}

/// A window-level action, with what it needs from outside the window.
#[derive(Debug)]
pub enum Action {
    ToggleHelp,
    ToggleFilter,
    MemReport,
    NewWindow,
    /// The tab that was spawned.
    NewTab(Option<Tab>),
    /// The pane that was spawned.
    VSplit(Option<Pane>),
    HSplit(Option<Pane>),
    VSplitRoot(Option<Pane>),
    HSplitRoot(Option<Pane>),
    /// The answer to the question about running processes.
    CloseWindow(bool),
    KillWindow,
    /// The answer, and the neighbour to focus.
    ClosePaneOrTab(bool, Option<PaneId>),
    CloseTab(bool),
    /// The closed tabs, and what tells the open ones apart.
    OpenRecentProject(Vec<(RecentProject, RecentLook)>, Vec<String>),
    /// The queries searched earlier.
    OpenSearchPalette(Vec<String>),
    /// The rows a column of the switcher shows.
    OpenPaneSwitcher(Option<usize>),
    OpenUnreadSwitcher(Option<usize>),
    ToggleBookmark,
    Equalize,
    RepaintPane,
    /// The panes of every window and whether each is unread, and those with an
    /// idle agent.
    NextAttention(Vec<(PaneId, bool)>, Vec<PaneId>),
    /// Where the step leads.
    HistoryBack(Option<PaneId>),
    HistoryForward(Option<PaneId>),
    ToggleSidebar,
    PrevTab,
    NextTab,
    RenameTab,
    RenamePane,
    /// The other windows.
    DetachTab(Vec<OtherWindow>),
    /// The id of the new tab, and the neighbour to focus.
    BreakPane(TabId, Option<PaneId>),
    MergeTab,
    MergeWindow(Vec<OtherWindow>),
    SwitchTab(usize),
    MinimizePane,
    RestoreLastMinimized,
    /// The neighbour, and the time in milliseconds.
    Navigate(NavDirection, Option<PaneId>, u64),
    SwapPane(NavDirection, Option<PaneId>),
    /// The tab with its panes in the new arrangement.
    ReparentPane(Option<Tab>),
    /// The widths of the screen and of the tab, once the separator moved.
    Resize(Option<(u32, u32)>),
    /// The same, once the edge of the focused pane moved.
    EdgeGrow(Option<(u32, u32)>),
    /// Copy what is selected in the focused pane, its wrapped lines joined.
    Copy(SelectedText),
    /// Copy what is selected in the focused pane as it is laid out.
    CopyRaw(SelectedText),
    /// What the pasteboard holds, and whether the focused pane brackets what
    /// is pasted.
    Paste(Clipboard, bool),
}

// ---------------------------------------------------------------
// Copying
// ---------------------------------------------------------------

/// The matches of the filter, one per line.
pub open spec fn joined(matches: Seq<FilterMatch>) -> Seq<char>
    decreases matches.len(),
{
    if matches.len() == 0 {
        Seq::empty()
    } else if matches.len() == 1 {
        matches[0].text@
    } else {
        joined(matches.drop_last()) + "\n"@ + matches.last().text@
    }
}

fn join_matches(matches: &Vec<FilterMatch>) -> (s: String)
    ensures
        s@ == joined(matches@),
{
    let mut s = String::new();
    assert(matches@.take(0) =~= Seq::empty());
    for i in 0..matches.len()
        invariant
            s@ == joined(matches@.take(i as int)),
    {
        assert(matches@.take(i + 1).drop_last() =~= matches@.take(i as int));
        if i > 0 {
            s.append("\n");
        }
        s.append(matches[i].text.as_str());
        assert(s@ =~= joined(matches@.take(i + 1)));
    }
    assert(matches@.take(matches@.len() as int) =~= matches@);
    s
}

/// `after` is `before` with text put on the pasteboard.
pub open spec fn is_copied(after: Seq<Effect>, before: Seq<Effect>, text: Seq<char>) -> bool {
    &&& after.len() == before.len() + 1
    &&& after.drop_last() == before
    &&& after.last() matches Effect::CopyText(s) && s@ == text
}

/// What copying does: the matches of an open filter, which then closes; else
/// the text selected in the focused pane, whose selection goes.
pub open spec fn is_copy_done(after: KovaView, before: KovaView, selected: Seq<char>) -> bool {
    match before.overlays.filter {
        Some(f) => if f.matches@.len() > 0 {
            exists|mid: KovaView, closed: KovaView|
                {
                    &&& is_copied(mid.effects@, before.effects@, joined(f.matches@))
                    &&& mid == (KovaView { effects: mid.effects, ..before })
                    &&& #[trigger] overlays::is_filter_closed(closed, mid)
                    &&& view::is_marked_dirty(after, closed)
                }
        } else {
            after == before
        },
        None => match before.focused() {
            Some(p) if selected.len() > 0 => {
                &&& after.effects@.len() == before.effects@.len() + 2
                &&& is_copied(after.effects@.drop_last(), before.effects@, selected)
                &&& after.effects@.last() == Effect::ClearSelection(p.id)
                &&& after == (KovaView { effects: after.effects, ..before })
            },
            _ => after == before,
        },
    }
}

/// Nothing was copied, and the key may go on to another responder.
pub open spec fn nothing_to_copy(v: KovaView, selected: Seq<char>) -> bool {
    v.overlays.filter is None && v.focused() is Some && selected.len() == 0
}

// ---------------------------------------------------------------
// Pasting
// ---------------------------------------------------------------

/// What pasting does: an image is pasted as its path, text as itself.
pub open spec fn is_paste_done(
    after: KovaView,
    before: KovaView,
    held: Clipboard,
    bracketed: bool,
) -> bool {
    match before.focused() {
        None => after == before,
        Some(p) => match (held.image, held.text) {
            (Some(path), _) => {
                &&& view::is_typed(
                    after.effects@,
                    before.effects@,
                    p.id,
                    (if bracketed {
                        "\x1b[200~"@ + path@ + "\x1b[201~"@
                    } else {
                        path@
                    }),
                )
                &&& after == (KovaView { effects: after.effects, ..before })
            },
            (None, Some(s)) => {
                &&& view::is_typed(
                    after.effects@,
                    before.effects@,
                    p.id,
                    paths::pasted_text(s@, bracketed),
                )
                &&& after == (KovaView { effects: after.effects, ..before })
            },
            (None, None) => after == before,
        },
    }
}

impl KovaView {
    /// Copy the matches of the filter, or the selection of the focused pane.
    /// Returns whether the key is used up.
    fn do_copy(&mut self, selected: String) -> (consumed: bool)
        ensures
            is_copy_done(*final(self), *old(self), selected@),
            consumed == !nothing_to_copy(*old(self), selected@),
    {
        let ghost before = *self;
        let filtered: Option<String> = match &self.overlays.filter {
            Some(f) => {
                if f.matches.len() == 0 {
                    return true;
                }
                Some(join_matches(&f.matches))
            },
            None => None,
        };
        match filtered {
            Some(s) => {
                self.emit(Effect::CopyText(s));
                assert(self.effects@.drop_last() =~= before.effects@);
                let ghost mid = *self;
                let closed = self.close_filter();
                let ghost shut = *self;
                self.mark_dirty();
                assert(overlays::is_filter_closed(shut, mid));
                true
            },
            None => {
                let id: PaneId = match self.focused_pane() {
                    Some(p) => p.id,
                    None => {
                        return true;
                    },
                };
                if selected.as_str().is_empty() {
                    return false;
                }
                self.emit(Effect::CopyText(selected));
                self.emit(Effect::ClearSelection(id));
                proof {
                    let e = self.effects@.drop_last();
                    assert(e.drop_last() =~= before.effects@);
                }
                true
            },
        }
    }

    /// Paste into the focused pane.
    fn do_paste(&mut self, held: Clipboard, bracketed: bool)
        ensures
            is_paste_done(*final(self), *old(self), held, bracketed),
    {
        let id: PaneId = match self.focused_pane() {
            Some(p) => p.id,
            None => {
                return;
            },
        };
        let s = match (&held.image, &held.text) {
            (Some(path), _) => paste_image_text(path.as_str(), bracketed),
            (None, Some(t)) => paste_text(t.as_str(), bracketed),
            (None, None) => {
                return;
            },
        };
        self.emit(Effect::Write(id, s));
        assert(self.effects@.drop_last() =~= old(self).effects@);
    }
}

// ---------------------------------------------------------------
// Widths
// ---------------------------------------------------------------

/// What follows a change of width: the tab keeps within its scroll, the
/// focused pane stays on screen, and the status bar says what changed.
pub open spec fn is_width_changed(
    after: KovaView,
    before: KovaView,
    mode: Seq<char>,
    widths: Option<(u32, u32)>,
) -> bool {
    match widths {
        Some(w) if before.has_active() => {
            let t = before.active();
            &&& after.effects@ == before.effects@ + seq![
                Effect::ClampScroll(t.id),
                Effect::Reveal(t.id, t.focused_pane),
                Effect::ResizePanes,
            ]
            &&& resize::is_feedback_set(
                after,
                KovaView { effects: after.effects, ..before },
                mode,
                w.0,
                w.1,
            )
        },
        _ => after == before,
    }
}

/// What balancing the panes of the active tab does.
pub open spec fn is_equalized(after: KovaView, before: KovaView) -> bool {
    if before.has_active() {
        &&& after.effects@ == before.effects@ + seq![
            Effect::Equalize(before.active().id),
            Effect::ResizePanes,
        ]
        &&& after == (KovaView { effects: after.effects, ..before })
    } else {
        after == before
    }
}

/// What toggling the memory report does.
pub open spec fn is_report_toggled(after: KovaView, before: KovaView) -> bool {
    let showing = before.overlays.show_mem_report;
    &&& after.effects@ == before.effects@ + (if showing {
        seq![Effect::MarkDirty]
    } else {
        seq![Effect::BuildMemReport, Effect::MarkDirty]
    })
    &&& after == (KovaView {
        overlays: Overlays { show_mem_report: !showing, ..before.overlays },
        effects: after.effects,
        ..before
    })
}

impl KovaView {
    /// The widths changed: `widths` are those of the screen and of the tab,
    /// nothing when the change was refused.
    fn width_changed(&mut self, mode: &str, widths: Option<(u32, u32)>)
        requires
            attention::fps_ok(*old(self)),
        ensures
            is_width_changed(*final(self), *old(self), mode@, widths),
    {
        let w: (u32, u32) = match widths {
            Some(w) => w,
            None => {
                return;
            },
        };
        if self.active_tab < self.tabs.len() {
            let id: TabId = self.tabs[self.active_tab].id;
            let focused: PaneId = self.tabs[self.active_tab].focused_pane;
            self.emit(Effect::ClampScroll(id));
            self.emit(Effect::Reveal(id, focused));
            self.set_resize_feedback(mode, w.0, w.1);
            self.emit(Effect::ResizePanes);
            assert(self.effects@ =~= old(self).effects@ + seq![
                Effect::ClampScroll(id),
                Effect::Reveal(id, focused),
                Effect::ResizePanes,
            ]);
        }
    }

    fn do_equalize(&mut self)
        ensures
            is_equalized(*final(self), *old(self)),
    {
        if self.active_tab < self.tabs.len() {
            let id: TabId = self.tabs[self.active_tab].id;
            self.emit(Effect::Equalize(id));
            self.emit(Effect::ResizePanes);
            assert(self.effects@ =~= old(self).effects@ + seq![
                Effect::Equalize(id),
                Effect::ResizePanes,
            ]);
        }
    }

    fn toggle_mem_report(&mut self)
        ensures
            is_report_toggled(*final(self), *old(self)),
    {
        if self.overlays.show_mem_report {
            self.overlays.show_mem_report = false;
        } else {
            self.emit(Effect::BuildMemReport);
            self.overlays.show_mem_report = true;
        }
        self.mark_dirty();
        assert(self.effects@ =~= old(self).effects@ + (if old(self).overlays.show_mem_report {
            seq![Effect::MarkDirty]
        } else {
            seq![Effect::BuildMemReport, Effect::MarkDirty]
        }));
    }
}

// ---------------------------------------------------------------
// Dispatch
// ---------------------------------------------------------------

/// What an action carries fits the window it is asked of.
pub open spec fn action_fits(v: KovaView, action: Action) -> bool {
    match action {
        Action::OpenPaneSwitcher(_) | Action::OpenUnreadSwitcher(_) => switcher::row_count(v.tabs@)
            <= usize::MAX,
        Action::NewTab(tab) => tab is Some ==> v.has_active(),
        Action::Navigate(_, neighbor, _) => v.has_active() ==> (neighbor matches Some(n)
            ==> pane::has_pane(v.active().panes@, n)),
        Action::ReparentPane(rearranged) => v.has_active() ==> (rearranged matches Some(t)
            ==> nav::can_take(t, v.active())),
        _ => true,
    }
}

/// What an action brings into the window is new to it.
pub open spec fn brings_fresh(v: KovaView, action: Action) -> bool {
    match action {
        Action::NewTab(tab) => tab matches Some(t) ==> tabs::fresh_tab(v.tabs@, t),
        Action::VSplit(new) | Action::HSplit(new) | Action::VSplitRoot(new) | Action::HSplitRoot(
            new,
        ) => new matches Some(p) ==> tabs::fresh_pane(v, p),
        Action::BreakPane(id, _) => forall|k: int|
            0 <= k < v.tabs@.len() ==> (#[trigger] v.tabs@[k]).id != id,
        _ => true,
    }
}

/// What an action does to a window.
pub open spec fn is_action_done(after: KovaView, before: KovaView, action: Action) -> bool {
    match action {
        Action::ToggleHelp => {
            &&& after.effects@ == before.effects@.push(Effect::MarkDirty)
            &&& after == (KovaView {
                overlays: Overlays { show_help: true, ..before.overlays },
                effects: after.effects,
                ..before
            })
        },
        Action::ToggleFilter => overlays::is_filter_toggled(after, before),
        Action::MemReport => is_report_toggled(after, before),
        Action::NewWindow => {
            &&& after.effects@ == before.effects@.push(Effect::NewWindow)
            &&& after == (KovaView { effects: after.effects, ..before })
        },
        Action::NewTab(tab) => tabs::is_new_tab_done(after, before, tab),
        Action::VSplit(new) => tabs::is_split_done(after, before, SplitDirection::Horizontal, new),
        Action::HSplit(new) => tabs::is_split_done(after, before, SplitDirection::Vertical, new),
        Action::VSplitRoot(new) => tabs::is_root_split_done(
            after,
            before,
            SplitDirection::Horizontal,
            new,
        ),
        Action::HSplitRoot(new) => tabs::is_root_split_done(
            after,
            before,
            SplitDirection::Vertical,
            new,
        ),
        Action::CloseWindow(confirmed) => tabs::is_window_close_done(after, before, confirmed),
        Action::KillWindow => after == (KovaView {
            skip_session_save: true,
            closing: true,
            ..before
        }),
        Action::ClosePaneOrTab(confirmed, next) => tabs::is_pane_close_done(
            after,
            before,
            confirmed,
            next,
        ),
        Action::CloseTab(confirmed) => tabs::is_tab_close_done(after, before, confirmed),
        Action::OpenRecentProject(entries, open_keys) => recent::is_recents_open(
            after,
            before,
            entries@,
            open_keys@,
        ),
        Action::OpenSearchPalette(history) => search::is_palette_open(after, before, history@),
        Action::OpenPaneSwitcher(shown) => switcher::is_switcher_open(after, before, false, shown),
        Action::OpenUnreadSwitcher(shown) => switcher::is_switcher_open(after, before, true, shown),
        Action::ToggleBookmark => attention::is_bookmark_asked(after, before),
        Action::Equalize => is_equalized(after, before),
        Action::RepaintPane => resize::is_repaint_done(after, before),
        Action::NextAttention(order, idle) => attention::is_jump_asked(
            after,
            before,
            order@,
            idle@,
        ),
        Action::HistoryBack(target) | Action::HistoryForward(target) => attention::is_history_stepped(
            after,
            before,
            target,
        ),
        Action::ToggleSidebar => {
            &&& after.effects@ == before.effects@.push(Effect::ToggleLayout)
            &&& after == (KovaView { effects: after.effects, ..before })
        },
        Action::PrevTab => tabs::is_switched_relative(after, before, -1),
        Action::NextTab => tabs::is_switched_relative(after, before, 1),
        Action::RenameTab => overlays::is_tab_rename_open(after, before),
        Action::RenamePane => overlays::is_pane_rename_open(after, before),
        Action::DetachTab(others) => tabs::is_detach_done(after, before, others@),
        Action::BreakPane(id, next) => tabs::is_break_done(after, before, id, next),
        Action::MergeTab => tabs::is_merge_done(after, before),
        Action::MergeWindow(others) => tabs::is_window_merge_done(after, before, others@),
        Action::SwitchTab(idx) => tabs::is_switched(after, before, idx as int),
        Action::MinimizePane => nav::is_minimize_done(after, before),
        Action::RestoreLastMinimized => nav::is_bring_back_done(after, before),
        Action::Navigate(dir, neighbor, now) => nav::is_navigated(
            after,
            before,
            dir,
            neighbor,
            now,
        ),
        Action::SwapPane(dir, neighbor) => nav::is_swap_done(after, before, dir, neighbor),
        Action::ReparentPane(rearranged) => nav::is_reparented(after, before, rearranged),
        Action::Resize(widths) => is_width_changed(after, before, "Ratio"@, widths),
        Action::EdgeGrow(widths) => is_width_changed(after, before, "Right Edge"@, widths),
        Action::Copy(selected) => is_copy_done(after, before, selected.joined@),
        Action::CopyRaw(selected) => is_copy_done(after, before, selected.raw@),
        Action::Paste(held, bracketed) => is_paste_done(after, before, held, bracketed),
    }
}

/// An action is used up, but for a copy of nothing.
pub open spec fn is_consumed(v: KovaView, action: Action) -> bool {
    match action {
        Action::Copy(selected) => !nothing_to_copy(v, selected.joined@),
        Action::CopyRaw(selected) => !nothing_to_copy(v, selected.raw@),
        _ => true,
    }
}

impl KovaView {
    /// Run an action. Returns whether it was used up: `false` for a copy with
    /// nothing selected, which the caller may want to pass on.
    pub fn dispatch_action(&mut self, action: Action) -> (consumed: bool)
        requires
            old(self).wf(),
            attention::fps_ok(*old(self)),
            action_fits(*old(self), action),
        ensures
            is_action_done(*final(self), *old(self), action),
            consumed == is_consumed(*old(self), action),
            old(self).overlays_ok() ==> final(self).overlays_ok(),
            brings_fresh(*old(self), action) ==> final(self).wf(),
    {
        proof {
            if self.has_active() {
                assert(self.active().wf());
            }
            assert(tabs::all_columns_ok(self.tabs@)) by {
                assert forall|i: int| 0 <= i < self.tabs@.len() implies pane::columns_ok(
                    (#[trigger] self.tabs@[i]).panes@,
                ) by {
                    assert(self.tabs@[i].wf());
                }
            }
            tabs::lemma_merge_rows(self.tabs@, self.active_tab as int);
        }
        match action {
            Action::ToggleHelp => {
                self.overlays.show_help = true;
                self.mark_dirty();
            },
            Action::ToggleFilter => self.toggle_filter(),
            Action::MemReport => self.toggle_mem_report(),
            Action::NewWindow => self.emit(Effect::NewWindow),
            Action::NewTab(tab) => self.do_new_tab(tab),
            Action::VSplit(new) => self.do_split(SplitDirection::Horizontal, new),
            Action::HSplit(new) => self.do_split(SplitDirection::Vertical, new),
            Action::VSplitRoot(new) => self.do_split_root(SplitDirection::Horizontal, new),
            Action::HSplitRoot(new) => self.do_split_root(SplitDirection::Vertical, new),
            Action::CloseWindow(confirmed) => self.do_close_window(confirmed),
            Action::KillWindow => self.do_kill_window(),
            Action::ClosePaneOrTab(confirmed, next) => self.do_close_pane_or_tab(confirmed, next),
            Action::CloseTab(confirmed) => self.do_close_tab(confirmed),
            Action::OpenRecentProject(entries, open_keys) => self.do_open_recent_projects(
                entries,
                &open_keys,
            ),
            Action::OpenSearchPalette(history) => self.do_open_search_palette(&history),
            Action::OpenPaneSwitcher(shown) => self.do_open_pane_switcher(shown),
            Action::OpenUnreadSwitcher(shown) => self.open_pane_switcher(true, shown),
            Action::ToggleBookmark => self.do_toggle_bookmark(),
            Action::Equalize => self.do_equalize(),
            Action::RepaintPane => self.do_repaint_pane(),
            Action::NextAttention(order, idle) => self.do_focus_next_attention(&order, &idle),
            Action::HistoryBack(target) => self.do_history_step(target),
            Action::HistoryForward(target) => self.do_history_step(target),
            Action::ToggleSidebar => self.emit(Effect::ToggleLayout),
            Action::PrevTab => self.do_switch_tab_relative(-1),
            Action::NextTab => self.do_switch_tab_relative(1),
            Action::RenameTab => self.start_rename_tab(),
            Action::RenamePane => self.start_rename_pane(),
            Action::DetachTab(others) => self.do_detach_tab(others),
            Action::BreakPane(id, next) => self.do_break_pane(id, next),
            Action::MergeTab => self.do_merge_tab(),
            Action::MergeWindow(others) => self.do_merge_window(others),
            Action::SwitchTab(idx) => self.do_switch_tab(idx),
            Action::MinimizePane => self.do_minimize_pane(),
            Action::RestoreLastMinimized => self.do_restore_last_minimized(),
            Action::Navigate(dir, neighbor, now) => self.do_navigate(dir, neighbor, now),
            Action::SwapPane(dir, neighbor) => self.do_swap_pane(dir, neighbor),
            Action::ReparentPane(rearranged) => self.do_reparent_pane(rearranged),
            Action::Resize(widths) => self.width_changed("Ratio", widths),
            Action::EdgeGrow(widths) => self.width_changed("Right Edge", widths),
            Action::Copy(selected) => {
                return self.do_copy(selected.joined);
            },
            Action::CopyRaw(selected) => {
                return self.do_copy(selected.raw);
            },
            Action::Paste(held, bracketed) => self.do_paste(held, bracketed),
        }
        true
    }
}

// ---------------------------------------------------------------
// What the actions are for
// ---------------------------------------------------------------

/// The other tabs are as they were, the active tab is the same, and the new
/// pane has the focus.
pub open spec fn only_active_split(after: KovaView, before: KovaView, new: Pane) -> bool {
    &&& after.active_tab == before.active_tab
    &&& after.tabs@.len() == before.tabs@.len()
    &&& after.active().id == before.active().id
    &&& after.active().focused_pane == new.id
    &&& forall|k: int|
        0 <= k < before.tabs@.len() && k != before.active_tab ==> after.tabs@[k] == before.tabs@[k]
}

/// The panes `got` are `was` with one put in at `at`, below every pane of the
/// column of the one at `i`.
pub open spec fn is_bottom_row(got: Seq<Pane>, was: Seq<Pane>, i: int, at: int) -> bool {
    &&& 0 <= i < was.len()
    &&& 0 < at <= was.len()
    &&& got.len() == was.len() + 1
    &&& got[at].column == was[i].column
    &&& got.remove(at) == was
    &&& forall|k: int| 0 <= k < at ==> (#[trigger] was[k]).column <= was[i].column
    &&& forall|k: int| at <= k < was.len() ==> (#[trigger] was[k]).column > was[i].column
}

/// The panes `got` are `was` with one put in at `at`, alone in the column right
/// of that of the one at `i`.
pub open spec fn is_next_column(got: Seq<Pane>, was: Seq<Pane>, i: int, at: int) -> bool {
    &&& 0 <= i < was.len()
    &&& i < at <= was.len()
    &&& got.len() == was.len() + 1
    &&& got[at].column == was[i].column + 1
    &&& forall|k: int|
        0 <= k < at ==> got[k] == was[k] && (#[trigger] was[k]).column <= was[i].column
    &&& forall|k: int|
        at <= k < was.len() ==> (#[trigger] was[k]).column > was[i].column && got[k + 1].id
            == was[k].id && got[k + 1].column == was[k].column + 1
}

/// The panes `got` are `was` with one put in right below the one at `i`.
pub open spec fn is_row_below(got: Seq<Pane>, was: Seq<Pane>, i: int) -> bool {
    &&& 0 <= i < was.len()
    &&& got.len() == was.len() + 1
    &&& got[i + 1].column == was[i].column
    &&& got.remove(i + 1) == was
}

/// A vertical split at the root puts the new pane in a column of its own,
/// right of every other pane; the other panes stay as they are.
pub proof fn a_root_column_is_the_last(after: KovaView, before: KovaView, new: Pane)
    requires
        before.wf(),
        before.has_active(),
        before.active().panes@.len() < usize::MAX,
        is_action_done(after, before, Action::VSplitRoot(Some(new))),
    ensures
        only_active_split(after, before, new),
        ({
            let was = before.active().panes@;
            let got = after.active().panes@;
            let n = was.len() as int;
            &&& got.len() == n + 1
            &&& got[n].id == new.id
            &&& forall|k: int| 0 <= k < n ==> got[k] == was[k]
            &&& forall|k: int| 0 <= k < n ==> (#[trigger] was[k]).column < got[n].column
            &&& got[n].column == was[n - 1].column + 1
        }),
{
    let was = before.active().panes@;
    let n = was.len() as int;
    assert(before.active().wf());
    pane::lemma_right_of(was, was[n - 1].column as int, 0);
    assert forall|k: int| 0 <= k < n implies (#[trigger] was[k]).column <= was[n - 1].column by {
        pane::lemma_columns_sorted(was, k, n - 1);
    }
    pane::lemma_columns_sorted(was, n - 1, n - 1);
}

/// A horizontal split at the root puts the new pane at the bottom of the
/// focused pane's column; the other panes stay as they are, in the same order,
/// and no column is added.
pub proof fn a_root_row_is_at_the_bottom(after: KovaView, before: KovaView, new: Pane)
    requires
        before.wf(),
        before.has_active(),
        is_action_done(after, before, Action::HSplitRoot(Some(new))),
    ensures
        only_active_split(after, before, new),
        exists|i: int, at: int| #[trigger]
            is_bottom_row(after.active().panes@, before.active().panes@, i, at) && before.active(
            ).panes@[i].id == before.active().focused_pane && after.active().panes@[at].id
                == new.id,
{
    let t = before.active();
    let was = t.panes@;
    let got = after.active().panes@;
    assert(t.wf());
    pane::lemma_pos(was, t.focused_pane);
    let i = pane::pos(was, t.focused_pane);
    let at = pane::right_of(was, was[i].column as int, 0);
    pane::lemma_right_of(was, was[i].column as int, 0);
    assert(at > 0);
    pane::lemma_columns_sorted(was, i, at - 1);
    assert(was[at - 1].column == was[i].column);
    assert(got.remove(at) =~= was);
    assert(is_bottom_row(got, was, i, at));
}

/// A vertical split puts the new pane in a column of its own next to the
/// focused pane's, on its right; what lay right of that moves on by one
/// column, and nothing else moves.
pub proof fn a_split_column_is_on_the_right(after: KovaView, before: KovaView, new: Pane)
    requires
        before.wf(),
        before.has_active(),
        before.active().panes@.len() < usize::MAX,
        is_action_done(after, before, Action::VSplit(Some(new))),
    ensures
        only_active_split(after, before, new),
        exists|i: int, at: int| #[trigger]
            is_next_column(after.active().panes@, before.active().panes@, i, at) && before.active(
            ).panes@[i].id == before.active().focused_pane && after.active().panes@[at].id
                == new.id,
{
    let t = before.active();
    let was = t.panes@;
    let got = after.active().panes@;
    assert(t.wf());
    pane::lemma_pos(was, t.focused_pane);
    let i = pane::pos(was, t.focused_pane);
    let at = pane::right_of(was, was[i].column as int, 0);
    pane::lemma_right_of(was, was[i].column as int, 0);
    pane::lemma_columns_sorted(was, i, i);
    assert forall|k: int| at <= k < was.len() implies (#[trigger] was[k]).column > was[i].column
        && got[k + 1].id == was[k].id && got[k + 1].column == was[k].column + 1 by {
        pane::lemma_columns_sorted(was, k, k);
    }
    assert(is_next_column(got, was, i, at));
}

/// A horizontal split puts the new pane right below the focused one, in its
/// column; nothing else moves.
pub proof fn a_split_row_is_below(after: KovaView, before: KovaView, new: Pane)
    requires
        before.wf(),
        before.has_active(),
        is_action_done(after, before, Action::HSplit(Some(new))),
    ensures
        only_active_split(after, before, new),
        exists|i: int| #[trigger]
            is_row_below(after.active().panes@, before.active().panes@, i) && before.active(
            ).panes@[i].id == before.active().focused_pane && after.active().panes@[i + 1].id
                == new.id,
{
    let t = before.active();
    let was = t.panes@;
    let got = after.active().panes@;
    assert(t.wf());
    pane::lemma_pos(was, t.focused_pane);
    let i = pane::pos(was, t.focused_pane);
    assert(got.remove(i + 1) =~= was);
    assert(is_row_below(got, was, i));
}

/// The next tab is the one after the active tab, and the previous one the one
/// before it, around the ends; a number goes to the tab of that index.
pub proof fn tabs_switch_to_where_they_say(after: KovaView, before: KovaView, action: Action)
    requires
        before.wf(),
        before.tabs@.len() > 1,
        is_action_done(after, before, action),
    ensures
        action == Action::NextTab ==> after.active_tab == (if before.active_tab + 1
            < before.tabs@.len() {
            before.active_tab + 1
        } else {
            0
        }),
        action == Action::PrevTab ==> after.active_tab == (if before.active_tab > 0 {
            before.active_tab - 1
        } else {
            before.tabs@.len() - 1
        }),
        action matches Action::SwitchTab(idx) ==> after.active_tab == (if idx < before.tabs@.len() {
            idx as int
        } else {
            before.active_tab as int
        }),
        action == Action::NextTab || action == Action::PrevTab || action is SwitchTab ==> {
            &&& after.tabs@.len() == before.tabs@.len()
            &&& forall|k: int|
                0 <= k < before.tabs@.len() ==> (#[trigger] after.tabs@[k]).id
                    == before.tabs@[k].id && after.tabs@[k].panes == before.tabs@[k].panes
                    && after.tabs@[k].focused_pane == before.tabs@[k].focused_pane
            &&& after.active_tab != before.active_tab ==> !after.active().has_bell
                && !after.active().has_completion
        },
{
    let k = before.active_tab as int;
    let len = before.tabs@.len() as int;
    nav::lemma_one_away(k, 1, len);
    nav::lemma_one_away(k, -1, len);
}

/// A copy puts the selected text on the pasteboard and lets go of the
/// selection: with its wrapped lines joined, or as it is laid out.
pub proof fn copies_take_the_selection(
    after: KovaView,
    before: KovaView,
    action: Action,
    selected: SelectedText,
)
    requires
        before.overlays.filter is None,
        before.focused() is Some,
        action == Action::Copy(selected) || action == Action::CopyRaw(selected),
        is_action_done(after, before, action),
    ensures
        ({
            let text = if action is Copy {
                selected.joined@
            } else {
                selected.raw@
            };
            let n = before.effects@.len() as int;
            if text.len() > 0 {
                &&& is_consumed(before, action)
                &&& after.effects@.len() == n + 2
                &&& after.effects@[n] matches Effect::CopyText(s) && s@ == text
                &&& after.effects@[n + 1] == Effect::ClearSelection(before.focused()->0.id)
                &&& after.effects@.take(n) == before.effects@
            } else {
                !is_consumed(before, action) && after == before
            }
        }),
{
    let n = before.effects@.len() as int;
    if after.effects@.len() == n + 2 {
        assert(after.effects@.drop_last()[n] == after.effects@[n]);
        assert(after.effects@.take(n) =~= after.effects@.drop_last().drop_last());
    }
}

/// With a filter open a copy takes its matches, a line each, and closes it.
pub proof fn copies_take_the_matches(
    after: KovaView,
    before: KovaView,
    action: Action,
    f: overlays::FilterState,
)
    requires
        before.overlays.filter == Some(f),
        f.matches@.len() > 0,
        action is Copy || action is CopyRaw,
        is_action_done(after, before, action),
    ensures
        after.overlays.filter is None,
        is_consumed(before, action),
        exists|i: int|
            before.effects@.len() <= i < after.effects@.len() && (
            #[trigger] after.effects@[i] matches Effect::CopyText(s) && s@ == joined(f.matches@)),
{
    let selected = if action is Copy {
        action->Copy_0.joined@
    } else {
        action->CopyRaw_0.raw@
    };
    let (mid, closed) = choose|mid: KovaView, closed: KovaView|
        {
            &&& is_copied(mid.effects@, before.effects@, joined(f.matches@))
            &&& mid == (KovaView { effects: mid.effects, ..before })
            &&& #[trigger] overlays::is_filter_closed(closed, mid)
            &&& view::is_marked_dirty(after, closed)
        };
    let n = before.effects@.len() as int;
    assert(mid.effects@.last() == mid.effects@[n]);
    assert(after.effects@[n] == mid.effects@[n]);
}

/// Copied matches stand one to a line, in their order: the text is theirs with
/// a line break between each two.
pub proof fn matches_stand_a_line_each(matches: Seq<FilterMatch>, m: FilterMatch)
    ensures
        joined(seq![m]) == m.text@,
        matches.len() > 0 ==> joined(matches.push(m)) == joined(matches) + seq!['\n'] + m.text@,
{
    reveal_strlit("\n");
    if matches.len() > 0 {
        assert(matches.push(m).drop_last() =~= matches);
        assert("\n"@ =~= seq!['\n']);
    }
}

/// What is pasted is typed into the focused pane: the path of an image, else
/// the text, between the marks of a bracketed paste where the program asks for
/// them.
pub proof fn a_paste_types_what_is_held(
    after: KovaView,
    before: KovaView,
    held: Clipboard,
    bracketed: bool,
)
    requires
        before.focused() is Some,
        is_action_done(after, before, Action::Paste(held, bracketed)),
    ensures
        held.image is None && held.text is None ==> after == before,
        held.image matches Some(path) ==> {
            &&& after.effects@.len() == before.effects@.len() + 1
            &&& after.effects@.last() matches Effect::Write(id, s) && id == before.focused()->0.id
                && s@ == (if bracketed {
                "\x1b[200~"@ + path@ + "\x1b[201~"@
            } else {
                path@
            })
        },
        held.image is None && held.text is Some && held.text->0@.len() > 0 ==> {
            &&& after.effects@.len() == before.effects@.len() + 1
            &&& after.effects@.last() matches Effect::Write(id, _) && id == before.focused()->0.id
        },
{
}

/// The panes `got` are `was` without the one at `i`, in their order. Those right
/// of it move one column to the left if it was alone in its own; nothing else
/// moves.
pub open spec fn is_one_gone(got: Seq<Pane>, was: Seq<Pane>, i: int) -> bool {
    &&& 0 <= i < was.len()
    &&& got.len() == was.len() - 1
    &&& forall|k: int| 0 <= k < i ==> got[k] == was[k]
    &&& forall|k: int| i < k < was.len() ==> got[k - 1].id == (#[trigger] was[k]).id
    &&& (forall|k: int|
        0 <= k < was.len() && k != i ==> (#[trigger] was[k]).column != was[i].column)
        ==> forall|k: int|
        i < k < was.len() ==> got[k - 1].column == (#[trigger] was[k]).column - 1
    &&& (exists|k: int|
        0 <= k < was.len() && k != i && (#[trigger] was[k]).column == was[i].column)
        ==> forall|k: int| i < k < was.len() ==> got[k - 1] == #[trigger] was[k]
}

pub proof fn lemma_one_gone(was: Seq<Pane>, i: int)
    requires
        pane::columns_ok(was),
        0 <= i < was.len(),
    ensures
        is_one_gone(pane::without(was, i), was, i),
{
    let n = was.len() as int;
    if pane::alone(was, i) {
        assert forall|k: int| 0 <= k < n && k != i implies (#[trigger] was[k]).column
            != was[i].column by {
            if k < i {
                pane::lemma_columns_sorted(was, k, i - 1);
                pane::lemma_columns_sorted(was, i - 1, i);
            } else {
                pane::lemma_columns_sorted(was, i, i + 1);
                pane::lemma_columns_sorted(was, i + 1, k);
            }
        }
        assert forall|k: int| i < k < n implies pane::without(was, i)[k - 1].column == (
        #[trigger] was[k]).column - 1 by {
            pane::lemma_columns_sorted(was, i, k);
            assert(was[k].column != was[i].column);
        }
    } else {
        if i > 0 && was[i - 1].column == was[i].column {
            assert(was[i - 1].column == was[i].column);
        } else {
            assert(was[i + 1].column == was[i].column);
        }
    }
}

/// Closing the focused pane takes that pane alone out of its tab; the focus
/// goes to the pane asked for if it is left, else to the first one. A pane in
/// which a program runs stays until that is confirmed, and the last pane of a
/// tab takes the tab with it.
pub proof fn closing_takes_the_focused_pane(
    after: KovaView,
    before: KovaView,
    confirmed: bool,
    next: Option<PaneId>,
    i: int,
)
    requires
        before.wf(),
        before.has_active(),
        0 <= i < before.active().panes@.len(),
        before.active().panes@[i].id == before.active().focused_pane,
        is_action_done(after, before, Action::ClosePaneOrTab(confirmed, next)),
    ensures
        before.active().panes@[i].term.process is Some && !confirmed ==> after == before,
        (before.active().panes@[i].term.process is None || confirmed)
            && before.active().panes@.len() > 1 ==> {
            &&& after.active_tab == before.active_tab
            &&& after.tabs@.len() == before.tabs@.len()
            &&& is_one_gone(after.active().panes@, before.active().panes@, i)
            &&& next is None ==> after.active().focused_pane == after.active().panes@[0].id
            &&& next matches Some(n) ==> (n != before.active().focused_pane && pane::has_pane(
                before.active().panes@,
                n,
            ) ==> after.active().focused_pane == n)
            &&& forall|k: int|
                0 <= k < before.tabs@.len() && k != before.active_tab ==> after.tabs@[k]
                    == before.tabs@[k]
        },
        (before.active().panes@[i].term.process is None || confirmed)
            && before.active().panes@.len() == 1 ==> after.tabs@ == before.tabs@.remove(
            before.active_tab as int,
        ),
{
    let t = before.active();
    assert(t.wf());
    pane::lemma_pos(t.panes@, t.focused_pane);
    let at = pane::pos(t.panes@, t.focused_pane);
    assert(at == i);
    lemma_one_gone(t.panes@, i);
    pane::lemma_without(t.panes@, i);
}

/// Closing a tab takes it out, to the recent projects, unless a program runs
/// in it and that was not confirmed; the tab that moves into its place becomes
/// the active one, the last one when there is none.
pub proof fn closing_takes_the_active_tab(after: KovaView, before: KovaView, confirmed: bool)
    requires
        before.wf(),
        before.has_active(),
        is_action_done(after, before, Action::CloseTab(confirmed)),
    ensures
        confirmed || (forall|k: int|
            0 <= k < before.active().panes@.len() ==> (
            #[trigger] before.active().panes@[k]).term.process is None) ==> {
            &&& after.tabs@ == before.tabs@.remove(before.active_tab as int)
            &&& after.effects@[before.effects@.len() as int] == Effect::Remember(before.active())
            &&& before.tabs@.len() == 1 ==> after.effects@.last() == Effect::Terminate
            &&& before.tabs@.len() > 1 && before.active_tab < before.tabs@.len() - 1
                ==> after.active() == before.tabs@[before.active_tab + 1]
            &&& before.tabs@.len() > 1 && before.active_tab == before.tabs@.len() - 1
                ==> after.active() == before.tabs@[before.active_tab - 1]
        },
        !confirmed && (exists|k: int|
            0 <= k < before.active().panes@.len() && (
            #[trigger] before.active().panes@[k]).term.process is Some) ==> after == before,
{
    lemma_processes(before.active().shown_title(), before.active().panes@);
}

proof fn lemma_processes(title: String, panes: Seq<Pane>)
    ensures
        tabs::processes_in(title, panes).len() == 0 <==> forall|k: int|
            0 <= k < panes.len() ==> (#[trigger] panes[k]).term.process is None,
    decreases panes.len(),
{
    if panes.len() > 0 {
        let prev = panes.drop_last();
        lemma_processes(title, prev);
        if tabs::processes_in(title, panes).len() == 0 {
            assert forall|k: int| 0 <= k < panes.len() implies (
            #[trigger] panes[k]).term.process is None by {
                if k < prev.len() {
                    assert(prev[k].term.process is None);
                }
            }
        }
        if forall|k: int| 0 <= k < panes.len() ==> (#[trigger] panes[k]).term.process is None {
            assert forall|k: int| 0 <= k < prev.len() implies (
            #[trigger] prev[k]).term.process is None by {
                assert(panes[k].term.process is None);
            }
            assert(panes[panes.len() - 1].term.process is None);
        }
    }
}

/// A new tab stands right of the active one and becomes the active one; the
/// others keep their order.
pub proof fn a_new_tab_stands_next(after: KovaView, before: KovaView, t: Tab)
    requires
        before.has_active(),
        is_action_done(after, before, Action::NewTab(Some(t))),
    ensures
        after.tabs@.len() == before.tabs@.len() + 1,
        after.active_tab == before.active_tab + 1,
        after.active().id == t.id,
        after.tabs@.remove(before.active_tab + 1) == before.tabs@,
{
    assert(after.tabs@.remove(before.active_tab + 1) =~= before.tabs@);
}

/// Minimizing folds the focused pane, the pane last folded; the focus goes to
/// the first pane that shows. The last pane that shows is never folded.
pub proof fn minimizing_folds_the_focused_pane(after: KovaView, before: KovaView, i: int)
    requires
        before.wf(),
        before.has_active(),
        0 <= i < before.active().panes@.len(),
        before.active().panes@[i].id == before.active().focused_pane,
        is_action_done(after, before, Action::MinimizePane),
    ensures
        !before.active().panes@[i].minimized && (exists|m: int|
            0 <= m < before.active().panes@.len() && m != i && !(
            #[trigger] before.active().panes@[m]).minimized) ==> {
            let got = after.active().panes@;
            &&& got.len() == before.active().panes@.len()
            &&& got[i].minimized && got[i].id == before.active().panes@[i].id && got[i].column
                == before.active().panes@[i].column
            &&& forall|k: int|
                0 <= k < got.len() && k != i ==> got[k] == before.active().panes@[k]
            &&& after.active().minimized_stack@ == before.active().minimized_stack@.push(
                before.active().focused_pane,
            )
            &&& exists|f: int|
                0 <= f < got.len() && (#[trigger] got[f]).id == after.active().focused_pane
                    && !got[f].minimized && forall|k: int| 0 <= k < f ==> got[k].minimized
        },
        before.active().panes@[i].minimized || (forall|m: int|
            0 <= m < before.active().panes@.len() && m != i ==> (
            #[trigger] before.active().panes@[m]).minimized) ==> after.tabs@ == before.tabs@,
{
    let t = before.active();
    assert(t.wf());
    pane::lemma_pos(t.panes@, t.focused_pane);
    assert(pane::pos(t.panes@, t.focused_pane) == i);
    if pane::can_minimize(t.panes@, t.focused_pane) {
        let got = after.active().panes@;
        pane::lemma_visible_from(got, 0);
        lemma_folded_before(got, 0);
        let f = pane::visible_from(got, 0);
        assert(got[f].id == after.active().focused_pane);
    }
}

proof fn lemma_folded_before(panes: Seq<Pane>, from: int)
    requires
        0 <= from <= panes.len(),
    ensures
        forall|k: int| from <= k < pane::visible_from(panes, from) ==> (#[trigger] panes[k]).minimized,
    decreases panes.len() - from,
{
    if from < panes.len() {
        lemma_folded_before(panes, from + 1);
    }
}

/// Bringing back shows the pane folded last and focuses it; nothing else of the
/// panes changes.
pub proof fn bringing_back_shows_the_last_folded(after: KovaView, before: KovaView, i: int)
    requires
        before.wf(),
        before.has_active(),
        before.active().minimized_stack@.len() > 0,
        0 <= i < before.active().panes@.len(),
        before.active().panes@[i].id == before.active().minimized_stack@.last(),
        is_action_done(after, before, Action::RestoreLastMinimized),
    ensures
        after.active().focused_pane == before.active().panes@[i].id,
        after.active().panes@.len() == before.active().panes@.len(),
        !after.active().panes@[i].minimized,
        after.active().panes@[i].id == before.active().panes@[i].id,
        forall|k: int|
            0 <= k < before.active().panes@.len() && k != i ==> after.active().panes@[k]
                == before.active().panes@[k],
        !after.active().minimized_stack@.contains(before.active().panes@[i].id),
{
    let t = before.active();
    let id = t.panes@[i].id;
    assert(t.wf());
    pane::lemma_pos(t.panes@, id);
    assert(pane::pos(t.panes@, id) == i);
    lemma_off_stack(t.minimized_stack@, id, id);
}

proof fn lemma_off_stack(stack: Seq<PaneId>, id: PaneId, other: PaneId)
    ensures
        pane::stack_without(stack, id).contains(other) <==> stack.contains(other) && other != id,
    decreases stack.len(),
{
    if stack.len() > 0 {
        let prev = stack.drop_last();
        lemma_off_stack(prev, id, other);
        let b = pane::stack_without(prev, id);
        let w = pane::stack_without(stack, id);
        if prev.contains(other) {
            let j = choose|j: int| 0 <= j < prev.len() && prev[j] == other;
            assert(stack[j] == other);
        }
        if b.contains(other) {
            let j = choose|j: int| 0 <= j < b.len() && b[j] == other;
            assert(w[j] == other);
        }
        if stack.contains(other) {
            let j = choose|j: int| 0 <= j < stack.len() && stack[j] == other;
            if j < prev.len() {
                assert(prev[j] == other);
            } else if other != id {
                assert(w[w.len() - 1] == other);
            }
        }
        if w.contains(other) {
            let j = choose|j: int| 0 <= j < w.len() && w[j] == other;
            if j < b.len() {
                assert(b[j] == other);
            }
        }
    }
}

/// Breaking a pane out leaves its tab without it, and gives it a tab of its own
/// right after, which becomes the active one.
pub proof fn breaking_out_gives_a_tab_of_its_own(
    after: KovaView,
    before: KovaView,
    id: TabId,
    next: Option<PaneId>,
    i: int,
)
    requires
        before.wf(),
        before.has_active(),
        before.active().panes@.len() > 1,
        0 <= i < before.active().panes@.len(),
        before.active().panes@[i].id == before.active().focused_pane,
        is_action_done(after, before, Action::BreakPane(id, next)),
    ensures
        after.tabs@.len() == before.tabs@.len() + 1,
        after.active_tab == before.active_tab + 1,
        after.active().id == id,
        after.active().focused_pane == before.active().focused_pane,
        after.active().panes@.len() == 1,
        after.active().panes@[0].id == before.active().focused_pane,
        after.active().panes@[0].column == 0,
        is_one_gone(
            after.tabs@[before.active_tab as int].panes@,
            before.active().panes@,
            i,
        ),
        forall|k: int| 0 <= k < before.active_tab ==> after.tabs@[k] == before.tabs@[k],
        forall|k: int|
            before.active_tab < k < before.tabs@.len() ==> after.tabs@[k + 1] == before.tabs@[k],
{
    let t = before.active();
    assert(t.wf());
    pane::lemma_pos(t.panes@, t.focused_pane);
    assert(pane::pos(t.panes@, t.focused_pane) == i);
    lemma_one_gone(t.panes@, i);
    assert(after.active() == after.tabs@[before.active_tab + 1]);
}

/// A tab merged into another puts its panes right of the other's, in columns
/// of their own; the other tab keeps its name and becomes the active one, and
/// the merged tab is gone.
pub proof fn merging_puts_the_panes_right(after: KovaView, before: KovaView, target: int)
    requires
        before.wf(),
        before.has_active(),
        0 <= target < before.tabs@.len(),
        target != before.active_tab,
        before.tabs@[target].panes@.len() + before.active().panes@.len() <= usize::MAX,
        tabs::is_merged_into(after, before, target),
    ensures
        after.tabs@.len() == before.tabs@.len() - 1,
        after.active().id == before.tabs@[target].id,
        after.active().custom_title == before.tabs@[target].custom_title,
        ({
            let was = before.tabs@[target].panes@;
            let more = before.active().panes@;
            let got = after.active().panes@;
            &&& got.len() == was.len() + more.len()
            &&& forall|k: int| 0 <= k < was.len() ==> got[k] == was[k]
            &&& forall|k: int|
                0 <= k < more.len() ==> got[was.len() + k].id == (#[trigger] more[k]).id
                    && got[was.len() + k].column == more[k].column + was[was.len() - 1].column + 1
            &&& after.active().focused_pane == more[0].id
        }),
        forall|k: int|
            0 <= k < before.tabs@.len() && k != target && k != before.active_tab ==> exists|j: int|
                0 <= j < after.tabs@.len() && #[trigger] after.tabs@[j] == #[trigger] before.tabs@[k],
{
    let a = before.active_tab as int;
    let was = before.tabs@[target].panes@;
    let more = before.active().panes@;
    assert(before.tabs@[target].wf() && before.active().wf());
    let got = after.active().panes@;
    assert forall|k: int| 0 <= k < more.len() implies got[was.len() + k].id == (
    #[trigger] more[k]).id && got[was.len() + k].column == more[k].column + was[was.len()
        - 1].column + 1 by {
        pane::lemma_columns_sorted(more, k, k);
        pane::lemma_columns_sorted(was, was.len() - 1, was.len() - 1);
    }
    assert forall|k: int| 0 <= k < before.tabs@.len() && k != target && k != a implies exists|
        j: int,
    |
        0 <= j < after.tabs@.len() && #[trigger] after.tabs@[j] == #[trigger] before.tabs@[k] by {
        let j = if k > a {
            k - 1
        } else {
            k
        };
        assert(after.tabs@[j] == before.tabs@[k]);
    }
}

/// A tab detached without other windows leaves for a window of its own; the
/// tab that moves into its place becomes the active one. The only tab of a
/// window stays.
pub proof fn detaching_takes_the_active_tab(after: KovaView, before: KovaView, others: Vec<OtherWindow>)
    requires
        before.wf(),
        before.has_active(),
        others@.len() == 0,
        is_action_done(after, before, Action::DetachTab(others)),
    ensures
        before.tabs@.len() == 1 ==> after == before,
        before.tabs@.len() > 1 ==> {
            &&& after.tabs@ == before.tabs@.remove(before.active_tab as int)
            &&& after.effects@.last() == Effect::DetachTab(before.active())
            &&& after.active_tab < after.tabs@.len()
            &&& before.active_tab < before.tabs@.len() - 1 ==> after.active()
                == before.tabs@[before.active_tab + 1]
            &&& before.active_tab == before.tabs@.len() - 1 ==> after.active()
                == before.tabs@[before.active_tab - 1]
        },
{
}

/// Swapping the focused pane with a neighbour above or below trades their
/// places; with one to the side, the two columns trade places, each with all
/// its panes. The focus stays on its pane, and no pane comes or goes.
pub proof fn swapping_trades_places(
    after: KovaView,
    before: KovaView,
    dir: NavDirection,
    n: PaneId,
    i: int,
    j: int,
)
    requires
        before.wf(),
        before.has_active(),
        0 <= i < before.active().panes@.len(),
        0 <= j < before.active().panes@.len(),
        i != j,
        before.active().panes@[i].id == before.active().focused_pane,
        before.active().panes@[j].id == n,
        is_action_done(after, before, Action::SwapPane(dir, Some(n))),
    ensures
        after.active().focused_pane == before.active().focused_pane,
        after.active_tab == before.active_tab,
        (before.active().panes@[i].column == before.active().panes@[j].column) != (dir
            == NavDirection::Up || dir == NavDirection::Down) ==> after.active().panes@
            == before.active().panes@,
        before.active().panes@[i].column == before.active().panes@[j].column && (dir
            == NavDirection::Up || dir == NavDirection::Down) ==> {
            &&& after.active().panes@.len() == before.active().panes@.len()
            &&& after.active().panes@[i] == before.active().panes@[j]
            &&& after.active().panes@[j] == before.active().panes@[i]
            &&& forall|k: int|
                0 <= k < before.active().panes@.len() && k != i && k != j
                    ==> after.active().panes@[k] == before.active().panes@[k]
        },
        before.active().panes@[i].column != before.active().panes@[j].column && (dir
            == NavDirection::Left || dir == NavDirection::Right) ==> {
            &&& only_columns_trade(
                after.active().panes@,
                before.active().panes@,
                before.active().panes@[i].column,
                before.active().panes@[j].column,
            )
            &&& forall|id: PaneId|
                pane::has_pane(after.active().panes@, id) <==> #[trigger] pane::has_pane(
                    before.active().panes@,
                    id,
                )
        },
{
    let t = before.active();
    let was = t.panes@;
    assert(t.wf());
    pane::lemma_pos(was, t.focused_pane);
    pane::lemma_pos(was, n);
    assert(pane::pos(was, t.focused_pane) == i && pane::pos(was, n) == j);
    assert(pane::has_pane(was, n));
    let a = was[i].column;
    let b = was[j].column;
    pane::lemma_swapped(was, i, j);
    pane::lemma_columns_sorted(was, i, was.len() - 1);
    pane::lemma_columns_sorted(was, j, was.len() - 1);
    if a != b && (dir == NavDirection::Left || dir == NavDirection::Right) {
        let got = after.active().panes@;
        assert(pane::can_swap(was, t.focused_pane, n, dir));
        assert(got == pane::swapped(was, i, j));
        assert(got == pane::exchanged_columns(was, a, b));
        assert forall|k: int| 0 <= k < got.len() implies has_traded(was, #[trigger] got[k], a, b) by {
            pane::lemma_exchanged_origin(was, a, b, k);
            let m = choose|m: int|
                0 <= m < was.len() && (#[trigger] was[m]).id == got[k].id && pane::traded(
                    was[m].column,
                    a,
                    b,
                ) == got[k].column;
            assert(is_in_other_column(was, m, got[k], a, b));
        }
        assert(only_columns_trade(got, was, a, b));
        assert forall|id: PaneId|
            pane::has_pane(got, id) <==> #[trigger] pane::has_pane(was, id) by {
            assert(pane::has_pane(pane::swapped(was, i, j), id) <==> pane::has_pane(was, id));
        }
    }
}

/// The pane is one of `was`, in the other of the columns `a` and `b` if it was
/// in one of them.
pub open spec fn has_traded(was: Seq<Pane>, p: Pane, a: usize, b: usize) -> bool {
    exists|m: int| #[trigger] is_in_other_column(was, m, p, a, b)
}

/// Every pane of `got` is one of `was`, with the columns `a` and `b` traded.
pub open spec fn only_columns_trade(got: Seq<Pane>, was: Seq<Pane>, a: usize, b: usize) -> bool {
    forall|k: int| 0 <= k < got.len() ==> has_traded(was, #[trigger] got[k], a, b)
}

/// The pane is the one of `was` at `m`: in column `b` if it was in column `a`,
/// in `a` if it was in `b`, else where it was.
pub open spec fn is_in_other_column(was: Seq<Pane>, m: int, p: Pane, a: usize, b: usize) -> bool {
    &&& 0 <= m < was.len()
    &&& was[m].id == p.id
    &&& was[m].column == a ==> p.column == b
    &&& was[m].column == b ==> p.column == a
    &&& was[m].column != a && was[m].column != b ==> p.column == was[m].column
}

/// The actions that ask for work outside the window ask for that work alone,
/// and the tabs stay as they are.
pub proof fn requests_leave_the_tabs(after: KovaView, before: KovaView, action: Action)
    requires
        is_action_done(after, before, action),
    ensures
        action == Action::NewWindow ==> after.tabs == before.tabs && after.effects@
            == before.effects@.push(Effect::NewWindow),
        action == Action::ToggleSidebar ==> after.tabs == before.tabs && after.effects@
            == before.effects@.push(Effect::ToggleLayout),
        action == Action::ToggleHelp ==> after.tabs == before.tabs && after.overlays.show_help,
        action == Action::KillWindow ==> after.tabs == before.tabs && after.closing
            && after.skip_session_save && after.effects == before.effects,
        action matches Action::CloseWindow(confirmed) ==> after.tabs == before.tabs && (confirmed
            ==> after.closing && after.skip_session_save == before.skip_session_save),
        action matches Action::HistoryBack(Some(id)) ==> after.effects@ == before.effects@.push(
            Effect::FocusElsewhere(id),
        ),
        action matches Action::HistoryForward(Some(id)) ==> after.effects@ == before.effects@.push(
            Effect::FocusElsewhere(id),
        ),
        action is OpenSearchPalette ==> after.overlays.search_palette is Some && after.tabs
            == before.tabs,
        action matches Action::OpenUnreadSwitcher(_) ==> (after == before || (
        after.overlays.pane_switcher matches Some(s) && s.unread_only)),
        action matches Action::OpenPaneSwitcher(_) ==> (after == before || (
        after.overlays.pane_switcher matches Some(s) && !s.unread_only)),
        action == Action::RenameTab && before.has_active() ==> after.overlays.rename_tab is Some,
        action == Action::ToggleFilter ==> (after.overlays.filter is Some
            <==> before.overlays.filter is None),
{
}

} // verus!
