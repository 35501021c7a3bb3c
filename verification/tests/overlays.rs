use kova::overlays::{apply_edit, recall_filter_query, Edit, FilterMatch, FilterState, RenameState};
use kova::pane::{AgentFacts, Pane, Tab, TermFacts, WaitFacts};
use kova::view::{
    Effect, KeyPress, KovaView, KEY_BACKSPACE, KEY_DOWN, KEY_ENTER, KEY_ESCAPE, KEY_LEFT, KEY_UP,
};

fn pane(id: u32, column: usize) -> Pane {
    Pane {
        id,
        column,
        minimized: false,
        custom_title: None,
        osc1_title: None,
        pending_command: None,
        bell: false,
        completed: false,
        completion_seen: false,
        marked_unread: false,
        term: TermFacts {
            display_title: format!("pane {id}"),
            title: None,
            cwd: None,
            git_branch: None,
            process: None,
            last_command: None,
            pid: 1000 + id,
            children: vec![],
            cols: 80,
            rows: 24,
            focus_reporting: false,
            ready: true,
            live: true,
            exited: false,
            bare_shell: false,
            has_selection: false,
            in_alt_screen: false,
        },
        agent: AgentFacts {
            kind: None,
            session_id: None,
            session_name: None,
            claude_session_id: None,
            claude_session_name: None,
            restored: None,
            working: false,
            starting: false,
            idle: false,
            permission_prompt: false,
            prompt_unseen: false,
            turn_end_unseen: false,
            waits: WaitFacts { since: None, seen: false, preview: None },
        },
    }
}

/// A tab of panes given as (id, column), the first focused.
fn tab(id: u32, panes: &[(u32, usize)]) -> Tab {
    Tab {
        id,
        panes: panes.iter().map(|&(p, c)| pane(p, c)).collect(),
        focused_pane: panes[0].0,
        custom_title: None,
        auto_title: format!("tab {id}"),
        color: None,
        collapsed: false,
        has_bell: false,
        has_completion: false,
        has_running: false,
        minimized_stack: vec![],
    }
}

fn window(tabs: Vec<Tab>) -> KovaView {
    let mut v = KovaView::new(60);
    v.tabs = tabs;
    v
}

fn key(code: u16, ch: char) -> KeyPress {
    KeyPress { code, ch, cmd: false, ctrl: false, option: false }
}

#[test]
fn erasing_undoes_typing() {
    let mut input = "h\u{e9}llo".to_string();
    let mut cursor = 2;
    apply_edit(&mut input, &mut cursor, Edit::Type, 'x');
    assert_eq!((input.as_str(), cursor), ("h\u{e9}xllo", 3));
    apply_edit(&mut input, &mut cursor, Edit::Erase, ' ');
    assert_eq!((input.as_str(), cursor), ("h\u{e9}llo", 2));
    apply_edit(&mut input, &mut cursor, Edit::Left, ' ');
    apply_edit(&mut input, &mut cursor, Edit::Left, ' ');
    apply_edit(&mut input, &mut cursor, Edit::Left, ' ');
    assert_eq!(cursor, 0);
    apply_edit(&mut input, &mut cursor, Edit::Erase, ' ');
    assert_eq!(input, "h\u{e9}llo");
}

#[test]
fn a_tab_is_renamed_cancelled_and_reset() {
    let mut v = window(vec![tab(1, &[(1, 0)])]);
    v.start_rename_tab();
    assert_eq!(
        v.overlays.rename_tab,
        Some(RenameState { input: "tab 1".to_string(), cursor: 5 })
    );
    v.handle_rename_tab_key(key(0, '!'));
    v.handle_rename_tab_key(key(KEY_ENTER, '\r'));
    assert_eq!(v.tabs[0].custom_title.as_deref(), Some("tab 1!"));
    assert!(v.overlays.rename_tab.is_none());
    // Escape leaves the name alone.
    v.start_rename_tab();
    v.handle_rename_tab_key(key(0, 'z'));
    v.handle_rename_tab_key(key(KEY_ESCAPE, '\u{1b}'));
    assert_eq!(v.tabs[0].custom_title.as_deref(), Some("tab 1!"));
    // A blank name resets to the derived title.
    v.start_rename_tab();
    for _ in 0..6 {
        v.handle_rename_tab_key(key(KEY_BACKSPACE, '\u{7f}'));
    }
    v.handle_rename_tab_key(key(0, ' '));
    v.handle_rename_tab_key(key(KEY_ENTER, '\r'));
    assert_eq!(v.tabs[0].custom_title, None);
    v.effects.clear();
    v.handle_rename_tab_key(key(0, 'a'));
    assert!(v.effects.is_empty());
}

#[test]
fn a_pane_is_renamed_and_pasted_into() {
    let mut v = window(vec![tab(1, &[(1, 0)])]);
    v.tabs[0].panes[0].term.title = Some("vim".to_string());
    v.start_rename_pane();
    assert_eq!(v.overlays.rename_pane.as_ref().unwrap().input, "vim");
    v.handle_rename_pane_key(key(KEY_LEFT, '\u{f702}'));
    v.paste_into_rename("XY");
    let r = v.overlays.rename_pane.as_ref().unwrap();
    assert_eq!((r.input.as_str(), r.cursor), ("viXYm", 4));
    v.handle_rename_pane_key(key(KEY_ENTER, '\r'));
    assert_eq!(v.tabs[0].panes[0].custom_title.as_deref(), Some("viXYm"));
    v.effects.clear();
    v.paste_into_rename("");
    assert!(v.effects.is_empty());
}

#[test]
fn the_filter_types_recalls_and_jumps() {
    let history = vec!["new".to_string(), "older".to_string()];
    let mut v = window(vec![tab(1, &[(1, 0)])]);
    v.toggle_filter();
    v.handle_filter_key(key(0, 'e'), &history);
    assert_eq!(v.overlays.filter.as_ref().unwrap().query, "e");
    assert!(v.effects.contains(&Effect::FilterSearch));
    v.handle_filter_key(key(KEY_UP, '\u{f700}'), &history);
    assert_eq!(v.overlays.filter.as_ref().unwrap().query, "new");
    v.handle_filter_key(key(KEY_UP, '\u{f700}'), &history);
    assert_eq!(v.overlays.filter.as_ref().unwrap().query, "older");
    // Back down past the newest: the draft is on screen again.
    v.handle_filter_key(key(KEY_DOWN, '\u{f701}'), &history);
    v.handle_filter_key(key(KEY_DOWN, '\u{f701}'), &history);
    assert_eq!(v.overlays.filter.as_ref().unwrap().query, "e");
    v.set_filter_matches(vec![
        FilterMatch { abs_line: 7, text: "seven".to_string() },
        FilterMatch { abs_line: 9, text: "nine".to_string() },
    ]);
    v.effects.clear();
    v.handle_filter_click(Some(1));
    assert!(v.overlays.filter.is_none());
    assert!(v.effects.contains(&Effect::ScrollToLine(9)));
    assert!(v.effects.contains(&Effect::RecordFilter("e".to_string())));
    v.toggle_filter();
    v.toggle_filter();
    assert!(v.overlays.filter.is_none());
    assert!(v.close_filter().is_none());
}

#[test]
fn recalling_from_an_empty_history_changes_nothing() {
    let mut s = FilterState {
        query: "q".to_string(),
        matches: vec![],
        history_pos: None,
        draft: String::new(),
    };
    assert!(!recall_filter_query(&mut s, &vec![], true));
    assert!(!recall_filter_query(&mut s, &vec!["h".to_string()], false));
    assert!(recall_filter_query(&mut s, &vec!["h".to_string()], true));
    assert_eq!((s.query.as_str(), s.draft.as_str(), s.history_pos), ("h", "q", Some(0)));
}
