use kova::actions::{Action, Clipboard, SelectedText};
use kova::keys::{KeyFacts, KeyOutcome, KeyRoute, CHAR_LEFT, CHAR_RIGHT};
use kova::overlays::FilterMatch;
use kova::pane::{AgentFacts, NavDirection, Pane, SplitDirection, Tab, TermFacts, WaitFacts};
use kova::view::{Effect, KeyPress, KovaView, KEY_ESCAPE};

fn selected(raw: &str, joined: &str) -> SelectedText {
    SelectedText { raw: raw.to_string(), joined: joined.to_string() }
}

fn pane(id: u32, column: usize) -> Pane {
    Pane {
        id,
        column,
        minimized: false,
        custom_title: None,
        osc1_title: None,
        pending_command: None,
        bell: false,
        completed: false,
        completion_seen: false,
        marked_unread: false,
        term: TermFacts {
            display_title: format!("pane {id}"),
            title: None,
            cwd: None,
            git_branch: None,
            process: None,
            last_command: None,
            pid: 1000 + id,
            children: vec![],
            cols: 80,
            rows: 24,
            focus_reporting: false,
            ready: true,
            live: true,
            exited: false,
            bare_shell: false,
            has_selection: false,
            in_alt_screen: false,
        },
        agent: AgentFacts {
            kind: None,
            session_id: None,
            session_name: None,
            claude_session_id: None,
            claude_session_name: None,
            restored: None,
            working: false,
            starting: false,
            idle: false,
            permission_prompt: false,
            prompt_unseen: false,
            turn_end_unseen: false,
            waits: WaitFacts { since: None, seen: false, preview: None },
        },
    }
}

/// A tab of panes given as (id, column), the first focused.
fn tab(id: u32, panes: &[(u32, usize)]) -> Tab {
    Tab {
        id,
        panes: panes.iter().map(|&(p, c)| pane(p, c)).collect(),
        focused_pane: panes[0].0,
        custom_title: None,
        auto_title: format!("tab {id}"),
        color: None,
        collapsed: false,
        has_bell: false,
        has_completion: false,
        has_running: false,
        minimized_stack: vec![],
    }
}

fn window(tabs: Vec<Tab>) -> KovaView {
    let mut v = KovaView::new(60);
    v.tabs = tabs;
    v
}

fn ids(t: &Tab) -> Vec<(u32, usize)> {
    t.panes.iter().map(|p| (p.id, p.column)).collect()
}

fn key(ch: char) -> KeyPress {
    KeyPress { code: 0, ch, cmd: false, ctrl: false, option: false }
}

fn escape() -> KeyPress {
    KeyPress { code: KEY_ESCAPE, ch: '\u{1b}', cmd: false, ctrl: false, option: false }
}

fn facts() -> KeyFacts {
    KeyFacts { now: 0, shown: None, history: vec![], encoded: false }
}

#[test]
fn overlays_take_keys_in_order() {
    let mut v = window(vec![tab(1, &[(1, 0)])]);
    assert_eq!(v.key_route(key('a')), KeyRoute::Pane);
    v.toggle_filter();
    assert_eq!(v.key_route(key('a')), KeyRoute::Filter);
    v.start_rename_tab();
    assert_eq!(v.key_route(key('a')), KeyRoute::RenameTab);
    v.overlays.show_mem_report = true;
    assert_eq!(v.key_route(key('a')), KeyRoute::Blocked);
    assert_eq!(v.key_route(escape()), KeyRoute::CloseMemReport);
    v.overlays.show_help = true;
    assert_eq!(v.key_route(escape()), KeyRoute::CloseHelp);
    v.do_open_search_palette(&vec![]);
    assert_eq!(v.key_route(escape()), KeyRoute::SearchPalette);
}

#[test]
fn escape_closes_the_help_and_other_keys_wait() {
    let mut v = window(vec![tab(1, &[(1, 0)])]);
    v.overlays.show_help = true;
    assert_eq!(v.key_down(key('x'), facts()), KeyOutcome::Done);
    assert!(v.overlays.show_help && v.effects.is_empty());
    assert_eq!(v.key_down(escape(), facts()), KeyOutcome::Done);
    assert!(!v.overlays.show_help);
    assert_eq!(v.effects, vec![Effect::MarkDirty]);
}

#[test]
fn a_plain_key_is_composed_and_a_modified_one_may_be_encoded() {
    let mut v = window(vec![tab(1, &[(1, 0)])]);
    v.tabs[0].panes[0].agent.waits.since = Some(3);
    assert_eq!(v.key_down(key('x'), facts()), KeyOutcome::Compose(1));
    assert!(v.effects.is_empty());
    let ctrl = KeyPress { ctrl: true, ..key('x') };
    assert_eq!(v.key_down(ctrl, facts()), KeyOutcome::Compose(1));
    let encoded = KeyFacts { encoded: true, ..facts() };
    assert_eq!(v.key_down(ctrl, encoded), KeyOutcome::Encode(1));
    assert_eq!(v.effects, vec![Effect::ResetScroll(1)]);
    assert_eq!(v.tabs[0].panes[0].agent.waits.since, None);
}

#[test]
fn typed_text_answers_the_pane() {
    let mut v = window(vec![tab(1, &[(1, 0)])]);
    v.tabs[0].panes[0].agent.waits.since = Some(3);
    v.insert_text("hi".to_string());
    assert_eq!(v.effects, vec![Effect::ResetScroll(1), Effect::Write(1, "hi".to_string())]);
    assert_eq!(v.tabs[0].panes[0].agent.waits.since, None);
    let mut empty = KovaView::new(60);
    empty.insert_text("hi".to_string());
    assert!(empty.effects.is_empty());
}

#[test]
fn control_keys_of_the_window() {
    let mut v = window(vec![tab(1, &[(1, 0)])]);
    let ctrl = |ch: char| KeyPress { ctrl: true, ..key(ch) };
    // Ctrl+L clears the scrollback and goes on to the pane.
    assert_eq!(v.key_down(ctrl('l'), facts()), KeyOutcome::Compose(1));
    assert_eq!(v.effects, vec![Effect::ClearScrollback(1)]);
    v.effects.clear();
    v.tabs[0].panes[0].term.in_alt_screen = true;
    assert_eq!(v.key_down(ctrl('l'), facts()), KeyOutcome::Compose(1));
    assert!(v.effects.is_empty());
    let both = |ch: char| KeyPress { ctrl: true, option: true, ..key(ch) };
    assert_eq!(v.key_down(both(CHAR_RIGHT), facts()), KeyOutcome::Done);
    assert_eq!(v.key_down(both(CHAR_LEFT), facts()), KeyOutcome::Done);
    assert_eq!(v.effects, vec![Effect::AdjustWidth(1, 1), Effect::AdjustWidth(1, -1)]);
    assert_eq!(v.key_down(ctrl('f'), facts()), KeyOutcome::Done);
    assert!(v.overlays.filter.is_some());
}

#[test]
fn a_shortcut_closes_the_help_first() {
    let mut v = window(vec![tab(1, &[(1, 0)]), tab(2, &[(2, 0)])]);
    v.overlays.show_help = true;
    // The help's own shortcut only closes it.
    assert!(v.perform_key_equivalent(key('?'), Some(Action::ToggleHelp), facts()));
    assert!(!v.overlays.show_help);
    v.overlays.show_help = true;
    assert!(v.perform_key_equivalent(key('t'), Some(Action::NextTab), facts()));
    assert!(!v.overlays.show_help);
    assert_eq!(v.active_tab, 1);
    v.overlays.show_mem_report = true;
    assert!(v.perform_key_equivalent(escape(), None, facts()));
    assert!(!v.overlays.show_mem_report);
    assert!(!v.perform_key_equivalent(key('z'), None, facts()));
}

#[test]
fn an_editor_takes_a_paste_and_nothing_else() {
    let mut v = window(vec![tab(1, &[(1, 0)]), tab(2, &[(2, 0)])]);
    v.start_rename_tab();
    let held = Clipboard { image: None, text: Some("!!".to_string()) };
    assert!(v.perform_key_equivalent(key('v'), Some(Action::Paste(held, false)), facts()));
    assert_eq!(v.overlays.rename_tab.as_ref().unwrap().input, "tab 1!!");
    assert!(!v.perform_key_equivalent(key('t'), Some(Action::NextTab), facts()));
    assert_eq!(v.active_tab, 0);
}

#[test]
fn the_palette_keeps_shortcuts_to_itself() {
    let mut v = window(vec![tab(1, &[(1, 0)]), tab(2, &[(2, 0)])]);
    v.do_open_search_palette(&vec![]);
    assert!(v.perform_key_equivalent(key('t'), Some(Action::NextTab), facts()));
    assert_eq!(v.active_tab, 0);
}

#[test]
fn copying_takes_the_filter_then_the_selection() {
    let mut v = window(vec![tab(1, &[(1, 0)])]);
    assert!(!v.dispatch_action(Action::Copy(selected("", ""))));
    assert!(v.effects.is_empty());
    assert!(v.dispatch_action(Action::CopyRaw(selected("one\ntwo", "onetwo"))));
    assert_eq!(v.effects, vec![Effect::CopyText("one\ntwo".to_string()), Effect::ClearSelection(1)]);
    v.effects.clear();
    assert!(v.dispatch_action(Action::Copy(selected("one\ntwo", "onetwo"))));
    assert_eq!(v.effects, vec![Effect::CopyText("onetwo".to_string()), Effect::ClearSelection(1)]);
    v.toggle_filter();
    v.effects.clear();
    // A filter without a match copies nothing, and uses the key up.
    assert!(v.dispatch_action(Action::Copy(selected("", ""))));
    assert!(v.effects.is_empty());
    v.set_filter_matches(vec![
        FilterMatch { abs_line: 1, text: "one".to_string() },
        FilterMatch { abs_line: 2, text: "two".to_string() },
    ]);
    v.effects.clear();
    assert!(v.dispatch_action(Action::Copy(selected("", ""))));
    assert_eq!(v.effects[0], Effect::CopyText("one\ntwo".to_string()));
    assert!(v.overlays.filter.is_none());
}

#[test]
fn pasting_prefers_an_image() {
    let mut v = window(vec![tab(1, &[(1, 0)])]);
    let text = || Clipboard { image: None, text: Some("t".to_string()) };
    assert!(v.dispatch_action(Action::Paste(text(), true)));
    assert_eq!(v.effects, vec![Effect::Write(1, "\x1b[200~t\x1b[201~".to_string())]);
    v.effects.clear();
    let image = Clipboard { image: Some("/tmp/p.png".to_string()), ..text() };
    v.dispatch_action(Action::Paste(image, false));
    assert_eq!(v.effects, vec![Effect::Write(1, "/tmp/p.png".to_string())]);
    v.effects.clear();
    v.dispatch_action(Action::Paste(Clipboard { image: None, text: None }, true));
    assert!(v.effects.is_empty());
}

#[test]
fn actions_reach_the_functions_behind_them() {
    let mut v = window(vec![tab(1, &[(1, 0)])]);
    v.dispatch_action(Action::ToggleHelp);
    assert!(v.overlays.show_help);
    v.overlays.show_help = false;
    v.effects.clear();
    v.dispatch_action(Action::MemReport);
    assert_eq!(v.effects, vec![Effect::BuildMemReport, Effect::MarkDirty]);
    v.dispatch_action(Action::MemReport);
    assert!(!v.overlays.show_mem_report);
    v.effects.clear();
    v.dispatch_action(Action::NewWindow);
    v.dispatch_action(Action::ToggleSidebar);
    v.dispatch_action(Action::Equalize);
    assert_eq!(
        v.effects,
        vec![Effect::NewWindow, Effect::ToggleLayout, Effect::Equalize(1), Effect::ResizePanes]
    );
    v.dispatch_action(Action::VSplit(Some(pane(2, 0))));
    v.dispatch_action(Action::HSplit(Some(pane(3, 0))));
    assert_eq!(ids(&v.tabs[0]), vec![(1, 0), (2, 1), (3, 1)]);
    let mut same = window(vec![tab(1, &[(1, 0), (2, 1)])]);
    same.tabs[0].focused_pane = 2;
    same.do_split(SplitDirection::Vertical, Some(pane(3, 0)));
    assert_eq!(ids(&same.tabs[0]), ids(&v.tabs[0]));
    v.dispatch_action(Action::NewTab(Some(tab(2, &[(9, 0)]))));
    v.dispatch_action(Action::PrevTab);
    assert_eq!(v.active_tab, 0);
    v.dispatch_action(Action::SwitchTab(1));
    assert_eq!(v.active_tab, 1);
    v.dispatch_action(Action::RenamePane);
    assert!(v.overlays.rename_pane.is_some());
    v.effects.clear();
    v.dispatch_action(Action::Resize(None));
    assert!(v.effects.is_empty());
    v.dispatch_action(Action::EdgeGrow(Some((1000, 1500))));
    assert_eq!(
        v.effects,
        vec![Effect::ClampScroll(2), Effect::Reveal(2, 9), Effect::ResizePanes]
    );
    assert_eq!(v.frame.resize_feedback.unwrap().virtual_w, 1500);
    v.dispatch_action(Action::HistoryBack(Some(4)));
    v.dispatch_action(Action::HistoryForward(None));
    assert_eq!(v.effects.last(), Some(&Effect::FocusElsewhere(4)));
    v.dispatch_action(Action::KillWindow);
    assert!(v.closing && v.skip_session_save);
}

#[test]
fn keys_and_actions_do_nothing_without_a_tab() {
    let mut v = KovaView::new(60);
    assert_eq!(v.key_down(key('x'), facts()), KeyOutcome::Done);
    for action in [
        Action::MinimizePane,
        Action::RestoreLastMinimized,
        Action::Navigate(NavDirection::Left, None, 0),
        Action::SwapPane(NavDirection::Right, Some(1)),
        Action::ReparentPane(None),
        Action::NewTab(None),
        Action::VSplit(Some(pane(1, 0))),
        Action::HSplitRoot(Some(pane(1, 0))),
        Action::Copy(selected("a", "a")),
        Action::NextTab,
    ] {
        assert!(v.dispatch_action(action));
        assert!(v.tabs.is_empty() && v.effects.is_empty());
    }
    assert!(!v.click_pane(1));
    assert!(v.focus_place().is_none());
    assert!(v.effects.is_empty());
}
