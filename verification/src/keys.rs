//! Where a key goes: to an overlay, to an action, or to the focused pane.
use crate::actions;
use crate::actions::Action;
use crate::attention;
use crate::overlays;
use crate::pane;
use crate::pane::{Pane, PaneId, TabId};
use crate::recent;
use crate::search;
use crate::switcher;
use crate::tabs;
use crate::view;
use crate::view::{Effect, KeyPress, KovaView, Overlays, KEY_ESCAPE};
use vstd::prelude::*;

verus! {

/// The characters the arrow keys type.
pub const CHAR_LEFT: char = '\u{f702}';

pub const CHAR_RIGHT: char = '\u{f703}';

/// Who answers a key.
#[derive(Clone, Copy, Debug, PartialEq, Eq, Structural)]
pub enum KeyRoute {
    SendToWindow,
    MergeTab,
    RecentProjects,
    SearchPalette,
    PaneSwitcher,
    CloseHelp,
    CloseMemReport,
    /// The help or the report is on screen and keeps the key from the panes.
    Blocked,
    RenameTab,
    RenamePane,
    Filter,
    ToggleFilter,
    Widen,
    Narrow,
    Pane,
}

/// Who answers a key while these overlays are open: the pickers first, then
/// the help and the report, then the editors and the filter, then the window's
/// own keys, then the focused pane.
pub open spec fn route_of(o: Overlays, key: KeyPress) -> KeyRoute {
    if o.send_to_window is Some {
        KeyRoute::SendToWindow
    } else if o.merge_tab is Some {
        KeyRoute::MergeTab
    } else if o.recent_projects is Some {
        KeyRoute::RecentProjects
    } else if o.search_palette is Some {
        KeyRoute::SearchPalette
    } else if o.pane_switcher is Some {
        KeyRoute::PaneSwitcher
    } else if o.show_help {
        if key.code == KEY_ESCAPE {
            KeyRoute::CloseHelp
        } else {
            KeyRoute::Blocked
        }
    } else if o.show_mem_report {
        if key.code == KEY_ESCAPE {
            KeyRoute::CloseMemReport
        } else {
            KeyRoute::Blocked
        }
    } else if o.rename_tab is Some {
        KeyRoute::RenameTab
    } else if o.rename_pane is Some {
        KeyRoute::RenamePane
    } else if o.filter is Some {
        KeyRoute::Filter
    } else if key.ctrl && !key.cmd && key.ch == 'f' {
        KeyRoute::ToggleFilter
    } else if key.ctrl && key.option && !key.cmd && key.ch == CHAR_RIGHT {
        KeyRoute::Widen
    } else if key.ctrl && key.option && !key.cmd && key.ch == CHAR_LEFT {
        KeyRoute::Narrow
    } else {
        KeyRoute::Pane
    }
}

/// The key clears the scrollback on its way to the pane.
pub open spec fn clears_scrollback(key: KeyPress) -> bool {
    key.ctrl && !key.option && !key.cmd && key.ch == 'l'
}

/// What a key has from outside the window.
#[derive(Debug)]
pub struct KeyFacts {
    /// The time in milliseconds.
    pub now: u64,
    /// The rows a column of the pane switcher shows.
    pub shown: Option<usize>,
    /// The queries the filter recalls, the most recent first.
    pub history: Vec<String>,
    /// The focused pane wants modified keys encoded, not composed.
    pub encoded: bool,
}

/// What is left to do with a key.
#[derive(Clone, Copy, Debug, PartialEq, Eq, Structural)]
pub enum KeyOutcome {
    Done,
    /// Write the key's encoding to the pane.
    Encode(PaneId),
    /// Hand the key to the text input system, which composes what is typed.
    Compose(PaneId),
}

/// The filter's place in its history is one the history has.
pub open spec fn recall_ok(v: KovaView, history: Seq<String>) -> bool {
    v.overlays.filter matches Some(s) ==> overlays::recall_in_range(
        s.history_pos,
        history.len() as int,
    )
}

/// `after` is `before` with the focused pane scrolled to its last line and
/// waiting for nobody: the user typed into it.
pub open spec fn is_answered(after: KovaView, before: KovaView, p: Pane) -> bool {
    let i = before.active_tab as int;
    &&& view::pane_replaced(
        after.tabs@,
        before.tabs@,
        i,
        pane::pos(before.active().panes@, p.id),
        pane::answered(p),
    )
    &&& after.effects@ == before.effects@.push(Effect::ResetScroll(p.id))
    &&& after == (KovaView { tabs: after.tabs, effects: after.effects, ..before })
}

/// `after` is `before` with the scrollback of the focused pane cleared, unless
/// a full-screen program runs there.
pub open spec fn is_scrollback_cleared(after: KovaView, before: KovaView) -> bool {
    match before.focused() {
        Some(p) if !p.term.in_alt_screen => {
            &&& after.effects@ == before.effects@.push(Effect::ClearScrollback(p.id))
            &&& after == (KovaView { effects: after.effects, ..before })
        },
        _ => after == before,
    }
}

/// What a key does that reaches the focused pane.
pub open spec fn is_pane_keyed(
    after: KovaView,
    before: KovaView,
    key: KeyPress,
    encoded: bool,
    outcome: KeyOutcome,
) -> bool {
    exists|mid: KovaView|
        {
            &&& #[trigger] is_cleared_for(mid, before, key)
            &&& match mid.focused() {
                None => after == mid && outcome == KeyOutcome::Done,
                Some(p) => if encoded && (key.ctrl || key.option) && !key.cmd {
                    is_answered(after, mid, p) && outcome == KeyOutcome::Encode(p.id)
                } else {
                    after == mid && outcome == KeyOutcome::Compose(p.id)
                },
            }
        }
}

/// What the key that clears the scrollback does before it goes on.
pub open spec fn is_cleared_for(after: KovaView, before: KovaView, key: KeyPress) -> bool {
    if clears_scrollback(key) {
        is_scrollback_cleared(after, before)
    } else {
        after == before
    }
}

/// `after` is `before` with the help closed.
pub open spec fn is_help_closed(after: KovaView, before: KovaView) -> bool {
    if before.overlays.show_help {
        &&& after.effects@ == before.effects@.push(Effect::MarkDirty)
        &&& after == (KovaView {
            overlays: Overlays { show_help: false, ..before.overlays },
            effects: after.effects,
            ..before
        })
    } else {
        after == before
    }
}

/// `after` is `before` with the memory report closed.
pub open spec fn is_report_closed(after: KovaView, before: KovaView) -> bool {
    if before.overlays.show_mem_report {
        &&& after.effects@ == before.effects@.push(Effect::MarkDirty)
        &&& after == (KovaView {
            overlays: Overlays { show_mem_report: false, ..before.overlays },
            effects: after.effects,
            ..before
        })
    } else {
        after == before
    }
}

/// What widening or narrowing the active tab asks for.
pub open spec fn is_width_asked(after: KovaView, before: KovaView, sign: int) -> bool {
    if before.has_active() {
        &&& after.effects@ == before.effects@.push(
            Effect::AdjustWidth(before.active().id, sign as i8),
        )
        &&& after == (KovaView { effects: after.effects, ..before })
    } else {
        after == before
    }
}

/// What a key press does.
pub open spec fn is_key_down(
    after: KovaView,
    before: KovaView,
    key: KeyPress,
    facts: KeyFacts,
    outcome: KeyOutcome,
) -> bool {
    let route = route_of(before.overlays, key);
    &&& route != KeyRoute::Pane ==> outcome == KeyOutcome::Done
    &&& match route {
        KeyRoute::SendToWindow => tabs::is_send_keyed(after, before, key),
        KeyRoute::MergeTab => tabs::is_merge_keyed(after, before, key),
        KeyRoute::RecentProjects => recent::is_recent_keyed(after, before, key),
        KeyRoute::SearchPalette => search::is_palette_keyed(after, before, key, facts.now),
        KeyRoute::PaneSwitcher => switcher::is_switcher_keyed(after, before, key, facts.shown),
        KeyRoute::CloseHelp => is_help_closed(after, before),
        KeyRoute::CloseMemReport => is_report_closed(after, before),
        KeyRoute::Blocked => after == before,
        KeyRoute::RenameTab => overlays::is_tab_rename_keyed(after, before, key),
        KeyRoute::RenamePane => overlays::is_pane_rename_keyed(after, before, key),
        KeyRoute::Filter => overlays::is_filter_keyed(after, before, key, facts.history@),
        KeyRoute::ToggleFilter => overlays::is_filter_toggled(after, before),
        KeyRoute::Widen => is_width_asked(after, before, 1),
        KeyRoute::Narrow => is_width_asked(after, before, -1),
        KeyRoute::Pane => is_pane_keyed(after, before, key, facts.encoded, outcome),
    }
}

/// A key never reaches a pane while anything covers the window or an editor is
/// open.
pub proof fn overlays_keep_keys_from_panes(o: Overlays, key: KeyPress)
    ensures
        route_of(o, key) == KeyRoute::Pane ==> {
            &&& o.send_to_window is None && o.merge_tab is None && o.recent_projects is None
            &&& o.search_palette is None && o.pane_switcher is None && o.filter is None
            &&& o.rename_tab is None && o.rename_pane is None
            &&& !o.show_help && !o.show_mem_report
        },
{
}

impl KovaView {
    /// Who answers a key.
    pub fn key_route(&self, key: KeyPress) -> (r: KeyRoute)
        ensures
            r == route_of(self.overlays, key),
    {
        let o = &self.overlays;
        if o.send_to_window.is_some() {
            return KeyRoute::SendToWindow;
        }
        if o.merge_tab.is_some() {
            return KeyRoute::MergeTab;
        }
        if o.recent_projects.is_some() {
            return KeyRoute::RecentProjects;
        }
        if o.search_palette.is_some() {
            return KeyRoute::SearchPalette;
        }
        if o.pane_switcher.is_some() {
            return KeyRoute::PaneSwitcher;
        }
        if key.code == KEY_ESCAPE {
            if o.show_help {
                return KeyRoute::CloseHelp;
            }
            if o.show_mem_report {
                return KeyRoute::CloseMemReport;
            }
        }
        if o.show_help || o.show_mem_report {
            return KeyRoute::Blocked;
        }
        if o.rename_tab.is_some() {
            return KeyRoute::RenameTab;
        }
        if o.rename_pane.is_some() {
            return KeyRoute::RenamePane;
        }
        if o.filter.is_some() {
            return KeyRoute::Filter;
        }
        if key.ctrl && !key.cmd && key.ch == 'f' {
            return KeyRoute::ToggleFilter;
        }
        if key.ctrl && key.option && !key.cmd {
            if key.ch == CHAR_RIGHT {
                return KeyRoute::Widen;
            }
            if key.ch == CHAR_LEFT {
                return KeyRoute::Narrow;
            }
        }
        KeyRoute::Pane
    }

    /// The user typed into the focused pane: it scrolls to its last line and
    /// waits for nobody. Returns the pane.
    pub fn answer_focused(&mut self) -> (id: Option<PaneId>)
        ensures
            match old(self).focused() {
                Some(p) => id == Some(p.id) && is_answered(*final(self), *old(self), p),
                None => id is None && *final(self) == *old(self),
            },
            old(self).wf() ==> final(self).wf(),
    {
        let id: PaneId = match self.focused_pane() {
            Some(p) => p.id,
            None => {
                return None;
            },
        };
        let ti: usize = self.active_tab;
        let at = self.tabs[ti].find(id);
        proof {
            pane::lemma_pos(self.active().panes@, self.active().focused_pane);
        }
        self.set_agent(ti, at, true, 0);
        self.emit(Effect::ResetScroll(id));
        Some(id)
    }

    /// Text was typed or composed: it goes to the focused pane.
    pub fn insert_text(&mut self, text: String)
        ensures
            match old(self).focused() {
                Some(p) => exists|mid: KovaView|
                    {
                        &&& #[trigger] is_answered(mid, *old(self), p)
                        &&& view::is_typed(final(self).effects@, mid.effects@, p.id, text@)
                        &&& *final(self) == (KovaView { effects: final(self).effects, ..mid })
                    },
                None => *final(self) == *old(self),
            },
            old(self).wf() ==> final(self).wf(),
    {
        let ghost before = *self;
        match self.answer_focused() {
            Some(id) => {
                let ghost mid = *self;
                self.emit(Effect::Write(id, text));
                assert(self.effects@.drop_last() =~= mid.effects@);
                assert(is_answered(mid, before, before.focused()->0));
            },
            None => {},
        }
    }

    fn clear_scrollback(&mut self)
        ensures
            is_scrollback_cleared(*final(self), *old(self)),
    {
        let id: PaneId = match self.focused_pane() {
            Some(p) => {
                if p.term.in_alt_screen {
                    return;
                }
                p.id
            },
            None => {
                return;
            },
        };
        self.emit(Effect::ClearScrollback(id));
    }

    fn close_help(&mut self)
        ensures
            is_help_closed(*final(self), *old(self)),
    {
        if self.overlays.show_help {
            self.overlays.show_help = false;
            self.mark_dirty();
        }
    }

    fn close_mem_report(&mut self)
        ensures
            is_report_closed(*final(self), *old(self)),
    {
        if self.overlays.show_mem_report {
            self.overlays.show_mem_report = false;
            self.mark_dirty();
        }
    }

    fn ask_width(&mut self, sign: i8)
        ensures
            is_width_asked(*final(self), *old(self), sign as int),
    {
        if self.active_tab < self.tabs.len() {
            let id: TabId = self.tabs[self.active_tab].id;
            self.emit(Effect::AdjustWidth(id, sign));
        }
    }

    /// A key for the focused pane.
    fn key_pane(&mut self, key: KeyPress, encoded: bool) -> (outcome: KeyOutcome)
        ensures
            is_pane_keyed(*final(self), *old(self), key, encoded, outcome),
            old(self).wf() ==> final(self).wf(),
    {
        let ghost before = *self;
        if key.ctrl && !key.option && !key.cmd && key.ch == 'l' {
            self.clear_scrollback();
        }
        let ghost mid = *self;
        assert(is_cleared_for(mid, before, key));
        let id: PaneId = match self.focused_pane() {
            Some(p) => p.id,
            None => {
                return KeyOutcome::Done;
            },
        };
        if encoded && (key.ctrl || key.option) && !key.cmd {
            self.answer_focused();
            return KeyOutcome::Encode(id);
        }
        KeyOutcome::Compose(id)
    }

    /// A key was pressed. Returns what is left to do with it.
    pub fn key_down(&mut self, key: KeyPress, facts: KeyFacts) -> (outcome: KeyOutcome)
        requires
            old(self).wf(),
            old(self).overlays_ok(),
            recall_ok(*old(self), facts.history@),
            switcher::row_count(old(self).tabs@) <= usize::MAX,
        ensures
            is_key_down(*final(self), *old(self), key, facts, outcome),
            final(self).overlays_ok(),
            final(self).wf(),
    {
        let route = self.key_route(key);
        match route {
            KeyRoute::SendToWindow => self.handle_send_to_window_key(key),
            KeyRoute::MergeTab => {
                proof {
                    assert forall|i: int| 0 <= i < self.tabs@.len() implies pane::columns_ok(
                        (#[trigger] self.tabs@[i]).panes@,
                    ) by {
                        assert(self.tabs@[i].wf());
                    }
                }
                self.handle_merge_tab_key(key)
            },
            KeyRoute::RecentProjects => self.handle_recent_projects_key(key),
            KeyRoute::SearchPalette => self.handle_search_palette_key(key, facts.now),
            KeyRoute::PaneSwitcher => self.handle_pane_switcher_key(key, facts.shown),
            KeyRoute::CloseHelp => self.close_help(),
            KeyRoute::CloseMemReport => self.close_mem_report(),
            KeyRoute::Blocked => {},
            KeyRoute::RenameTab => self.handle_rename_tab_key(key),
            KeyRoute::RenamePane => self.handle_rename_pane_key(key),
            KeyRoute::Filter => self.handle_filter_key(key, &facts.history),
            KeyRoute::ToggleFilter => self.toggle_filter(),
            KeyRoute::Widen => self.ask_width(1),
            KeyRoute::Narrow => self.ask_width(-1),
            KeyRoute::Pane => {
                return self.key_pane(key, facts.encoded);
            },
        }
        KeyOutcome::Done
    }
}

// ---------------------------------------------------------------
// Shortcuts
// ---------------------------------------------------------------

/// The key closes the overlay it found open, and does no more: it is the
/// overlay's own shortcut, or Escape.
pub open spec fn only_closes(own: bool, key: KeyPress) -> bool {
    own || key.code == KEY_ESCAPE
}

/// What a shortcut does with nothing covering the window: an editor takes a
/// paste and nothing else, else the action bound to the key runs.
pub open spec fn is_bound_run(
    after: KovaView,
    before: KovaView,
    bound: Option<Action>,
    used: bool,
) -> bool {
    if before.overlays.rename_tab is Some || before.overlays.rename_pane is Some {
        match bound {
            Some(Action::Paste(held, _)) => used && match held.text {
                Some(t) => overlays::is_rename_pasted(after, before, t@),
                None => after == before,
            },
            _ => !used && after == before,
        }
    } else {
        match bound {
            Some(a) => actions::is_action_done(after, before, a) && used == actions::is_consumed(
                before,
                a,
            ),
            None => !used && after == before,
        }
    }
}

/// What a shortcut does once the help is closed: the report closes, then the
/// shortcut runs.
pub open spec fn is_run_past_report(
    after: KovaView,
    before: KovaView,
    key: KeyPress,
    bound: Option<Action>,
    used: bool,
) -> bool {
    exists|m: KovaView|
        {
            &&& #[trigger] is_report_closed(m, before)
            &&& if before.overlays.show_mem_report && only_closes(
                bound matches Some(Action::MemReport),
                key,
            ) {
                after == m && used
            } else {
                is_bound_run(after, m, bound, used)
            }
        }
}

/// What a shortcut does with no picker or palette open: the help closes, then
/// the report, then the shortcut runs.
pub open spec fn is_shortcut_run(
    after: KovaView,
    before: KovaView,
    key: KeyPress,
    bound: Option<Action>,
    used: bool,
) -> bool {
    exists|h: KovaView|
        {
            &&& #[trigger] is_help_closed(h, before)
            &&& if before.overlays.show_help && only_closes(
                bound matches Some(Action::ToggleHelp),
                key,
            ) {
                after == h && used
            } else {
                is_run_past_report(after, h, key, bound, used)
            }
        }
}

/// What a key equivalent does; `used` says whether it stops here.
pub open spec fn is_key_equivalent(
    after: KovaView,
    before: KovaView,
    key: KeyPress,
    bound: Option<Action>,
    facts: KeyFacts,
    used: bool,
) -> bool {
    if before.overlays.recent_projects is Some {
        used && recent::is_recent_keyed(after, before, key)
    } else if before.overlays.search_palette is Some {
        used && search::is_palette_keyed(after, before, key, facts.now)
    } else if before.overlays.pane_switcher is Some {
        used && switcher::is_switcher_keyed(after, before, key, facts.shown)
    } else {
        is_shortcut_run(after, before, key, bound, used)
    }
}

/// What is pasted fits the editor it goes into.
pub open spec fn paste_fits(v: KovaView, bound: Option<Action>) -> bool {
    bound matches Some(Action::Paste(held, _)) ==> (held.text matches Some(t) ==> {
        &&& v.overlays.rename_tab matches Some(r) ==> r.input@.len() + t@.len() <= usize::MAX
        &&& v.overlays.rename_pane matches Some(r) ==> r.input@.len() + t@.len() <= usize::MAX
    })
}

impl KovaView {
    /// A shortcut with no picker or palette open.
    fn run_shortcut(&mut self, key: KeyPress, bound: Option<Action>) -> (used: bool)
        requires
            old(self).wf(),
            old(self).overlays_ok(),
            attention::fps_ok(*old(self)),
            bound matches Some(a) ==> actions::action_fits(*old(self), a),
            paste_fits(*old(self), bound),
        ensures
            is_shortcut_run(*final(self), *old(self), key, bound, used),
            final(self).overlays_ok(),
            (bound matches Some(a) ==> actions::brings_fresh(*old(self), a)) ==> final(self).wf(),
    {
        let ghost before = *self;
        let help = self.overlays.show_help;
        let report = self.overlays.show_mem_report;
        let own_help = match &bound {
            Some(Action::ToggleHelp) => true,
            _ => false,
        };
        let own_report = match &bound {
            Some(Action::MemReport) => true,
            _ => false,
        };
        let escape = key.code == KEY_ESCAPE;
        self.close_help();
        let ghost h = *self;
        assert(is_help_closed(h, before));
        if help && (own_help || escape) {
            return true;
        }
        self.close_mem_report();
        let ghost m = *self;
        assert(is_report_closed(m, h));
        if report && (own_report || escape) {
            return true;
        }
        if self.overlays.rename_tab.is_some() || self.overlays.rename_pane.is_some() {
            return match bound {
                Some(Action::Paste(held, _)) => {
                    match &held.text {
                        Some(t) => {
                            self.paste_into_rename(t.as_str());
                        },
                        None => {},
                    }
                    true
                },
                _ => false,
            };
        }
        match bound {
            Some(a) => self.dispatch_action(a),
            None => false,
        }
    }

    /// A key that may be a shortcut was pressed; `bound` is the action bound
    /// to it. Returns whether it stops here.
    pub fn perform_key_equivalent(&mut self, key: KeyPress, bound: Option<Action>, facts: KeyFacts) -> (used:
        bool)
        requires
            old(self).wf(),
            old(self).overlays_ok(),
            attention::fps_ok(*old(self)),
            bound matches Some(a) ==> actions::action_fits(*old(self), a),
            paste_fits(*old(self), bound),
            switcher::row_count(old(self).tabs@) <= usize::MAX,
        ensures
            is_key_equivalent(*final(self), *old(self), key, bound, facts, used),
            final(self).overlays_ok(),
            (bound matches Some(a) ==> actions::brings_fresh(*old(self), a)) ==> final(self).wf(),
    {
        if self.overlays.recent_projects.is_some() {
            self.handle_recent_projects_key(key);
            return true;
        }
        if self.overlays.search_palette.is_some() {
            self.handle_search_palette_key(key, facts.now);
            return true;
        }
        if self.overlays.pane_switcher.is_some() {
            self.handle_pane_switcher_key(key, facts.shown);
            return true;
        }
        self.run_shortcut(key, bound)
    }
}

/// The keys of a window without an overlay: Ctrl+L clears the scrollback of the
/// focused pane, but for a full-screen program, and still reaches it; Ctrl+F
/// opens the filter; with Option too, the arrows widen and narrow the tab; any
/// other key reaches the focused pane.
pub proof fn keys_reach_the_focused_pane(
    after: KovaView,
    before: KovaView,
    key: KeyPress,
    facts: KeyFacts,
    outcome: KeyOutcome,
    p: Pane,
)
    requires
        before.wf(),
        before.focused() == Some(p),
        route_of(before.overlays, key) == KeyRoute::Pane,
        is_key_down(after, before, key, facts, outcome),
    ensures
        outcome == KeyOutcome::Encode(p.id) || outcome == KeyOutcome::Compose(p.id),
        outcome == KeyOutcome::Encode(p.id) <==> facts.encoded && (key.ctrl || key.option)
            && !key.cmd,
        key.ctrl && !key.option && !key.cmd && key.ch == 'l' && !p.term.in_alt_screen
            ==> after.effects@.contains(Effect::ClearScrollback(p.id)),
        !(key.ctrl && !key.option && !key.cmd && key.ch == 'l') || p.term.in_alt_screen
            ==> forall|i: int|
            before.effects@.len() <= i < after.effects@.len() ==> !(
            #[trigger] after.effects@[i] is ClearScrollback),
{
    let mid = choose|mid: KovaView|
        {
            &&& #[trigger] is_cleared_for(mid, before, key)
            &&& match mid.focused() {
                None => after == mid && outcome == KeyOutcome::Done,
                Some(p) => if facts.encoded && (key.ctrl || key.option) && !key.cmd {
                    is_answered(after, mid, p) && outcome == KeyOutcome::Encode(p.id)
                } else {
                    after == mid && outcome == KeyOutcome::Compose(p.id)
                },
            }
        };
    assert(mid.focused() == before.focused());
    if mid.effects@.len() > before.effects@.len() {
        let n = before.effects@.len() as int;
        assert(after.effects@[n] == mid.effects@[n]);
    }
}

/// Ctrl+F, Ctrl+Option and an arrow, and a key with nothing open, each go
/// their way.
pub proof fn plain_keys_go_their_way(o: Overlays, key: KeyPress)
    requires
        o.send_to_window is None && o.merge_tab is None && o.recent_projects is None,
        o.search_palette is None && o.pane_switcher is None,
        !o.show_help && !o.show_mem_report,
        o.rename_tab is None && o.rename_pane is None && o.filter is None,
    ensures
        key.ctrl && !key.cmd && key.ch == 'f' ==> route_of(o, key) == KeyRoute::ToggleFilter,
        key.ctrl && key.option && !key.cmd && key.ch == '\u{F703}' ==> route_of(o, key)
            == KeyRoute::Widen,
        key.ctrl && key.option && !key.cmd && key.ch == '\u{F702}' ==> route_of(o, key)
            == KeyRoute::Narrow,
        !key.ctrl ==> route_of(o, key) == KeyRoute::Pane,
{
}

/// Widening asks for one step more of the active tab's width, narrowing for
/// one less.
pub proof fn widening_and_narrowing_differ(
    after: KovaView,
    before: KovaView,
    key: KeyPress,
    facts: KeyFacts,
    outcome: KeyOutcome,
)
    requires
        before.has_active(),
        is_key_down(after, before, key, facts, outcome),
    ensures
        route_of(before.overlays, key) == KeyRoute::Widen ==> after.effects@.last()
            == Effect::AdjustWidth(before.active().id, 1i8),
        route_of(before.overlays, key) == KeyRoute::Narrow ==> after.effects@.last()
            == Effect::AdjustWidth(before.active().id, -1i8),
{
}

} // verus!
