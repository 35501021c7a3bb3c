use kova::pane::{AgentFacts, Pane, SplitDirection, Tab, TermFacts, WaitFacts};
use kova::tabs::{confirm_running_processes, Neighbors, OtherWindow};
use kova::view::{Effect, KeyPress, KovaView, KEY_DOWN, KEY_ENTER, KEY_ESCAPE};

fn pane(id: u32, column: usize) -> Pane {
    Pane {
        id,
        column,
        minimized: false,
        custom_title: None,
        osc1_title: None,
        pending_command: None,
        bell: false,
        completed: false,
        completion_seen: false,
        marked_unread: false,
        term: TermFacts {
            display_title: format!("pane {id}"),
            title: None,
            cwd: None,
            git_branch: None,
            process: None,
            last_command: None,
            pid: 1000 + id,
            children: vec![],
            cols: 80,
            rows: 24,
            focus_reporting: false,
            ready: true,
            live: true,
            exited: false,
            bare_shell: false,
            has_selection: false,
            in_alt_screen: false,
        },
        agent: AgentFacts {
            kind: None,
            session_id: None,
            session_name: None,
            claude_session_id: None,
            claude_session_name: None,
            restored: None,
            working: false,
            starting: false,
            idle: false,
            permission_prompt: false,
            prompt_unseen: false,
            turn_end_unseen: false,
            waits: WaitFacts { since: None, seen: false, preview: None },
        },
    }
}

/// A tab of panes given as (id, column), the first focused.
fn tab(id: u32, panes: &[(u32, usize)]) -> Tab {
    Tab {
        id,
        panes: panes.iter().map(|&(p, c)| pane(p, c)).collect(),
        focused_pane: panes[0].0,
        custom_title: None,
        auto_title: format!("tab {id}"),
        color: None,
        collapsed: false,
        has_bell: false,
        has_completion: false,
        has_running: false,
        minimized_stack: vec![],
    }
}

fn window(tabs: Vec<Tab>) -> KovaView {
    let mut v = KovaView::new(60);
    v.tabs = tabs;
    v
}

fn ids(t: &Tab) -> Vec<(u32, usize)> {
    t.panes.iter().map(|p| (p.id, p.column)).collect()
}

fn key(code: u16) -> KeyPress {
    KeyPress { code, ch: ' ', cmd: false, ctrl: false, option: false }
}

#[test]
fn a_new_tab_opens_right_of_the_active_one() {
    let mut v = window(vec![tab(1, &[(1, 0)]), tab(2, &[(2, 0)])]);
    v.do_new_tab(Some(tab(3, &[(3, 0)])));
    assert_eq!(v.tabs.iter().map(|t| t.id).collect::<Vec<_>>(), vec![1, 3, 2]);
    assert_eq!(v.active_tab, 1);
    v.effects.clear();
    v.do_new_tab(None);
    assert!(v.effects.is_empty());
    assert_eq!(v.tabs.len(), 3);
}

#[test]
fn new_tabs_and_splits_start_where_the_focused_pane_is() {
    let mut v = window(vec![tab(1, &[(1, 0)])]);
    v.tabs[0].panes[0].term.cwd = Some("/work".to_string());
    v.do_new_tab(Some(tab(2, &[(2, 0)])));
    assert_eq!(v.tabs[1].panes[0].term.cwd.as_deref(), Some("/work"));
    v.do_split(SplitDirection::Vertical, Some(pane(3, 0)));
    v.do_split_root(SplitDirection::Horizontal, Some(pane(4, 0)));
    let dirs: Vec<_> = v.tabs[1].panes.iter().map(|p| p.term.cwd.as_deref()).collect();
    assert_eq!(dirs, vec![Some("/work"); 3]);
    // Without a directory to inherit, the shell starts where it will.
    v.tabs[1].panes[2].term.cwd = None;
    let mut p = pane(5, 0);
    p.term.cwd = Some("/home".to_string());
    v.do_split(SplitDirection::Vertical, Some(p));
    assert_eq!(v.tabs[1].panes[3].term.cwd.as_deref(), Some("/home"));
}

#[test]
fn switching_clears_the_marks_and_wraps_around() {
    let mut v = window(vec![tab(1, &[(1, 0)]), tab(2, &[(2, 0)]), tab(3, &[(3, 0)])]);
    v.tabs[2].has_bell = true;
    v.tabs[2].has_completion = true;
    v.do_switch_tab_relative(-1);
    assert_eq!(v.active_tab, 2);
    assert!(!v.tabs[2].has_bell && !v.tabs[2].has_completion);
    assert_eq!(v.effects, vec![Effect::DirtyTab(3), Effect::ResizePanes]);
    v.do_switch_tab_relative(1);
    assert_eq!(v.active_tab, 0);
    v.effects.clear();
    v.do_switch_tab(0);
    v.do_switch_tab(9);
    assert!(v.effects.is_empty());
}

#[test]
fn a_split_puts_the_new_pane_next_to_the_focused_one() {
    let mut v = window(vec![tab(1, &[(1, 0), (2, 1)])]);
    v.do_split(SplitDirection::Horizontal, Some(pane(3, 0)));
    assert_eq!(ids(&v.tabs[0]), vec![(1, 0), (3, 1), (2, 2)]);
    assert_eq!(v.tabs[0].focused_pane, 3);
    v.do_split(SplitDirection::Vertical, Some(pane(4, 0)));
    assert_eq!(ids(&v.tabs[0]), vec![(1, 0), (3, 1), (4, 1), (2, 2)]);
    assert_eq!(v.tabs[0].focused_pane, 4);
    v.do_split_root(SplitDirection::Horizontal, Some(pane(5, 0)));
    assert_eq!(ids(&v.tabs[0]), vec![(1, 0), (3, 1), (4, 1), (2, 2), (5, 3)]);
    v.effects.clear();
    v.do_split(SplitDirection::Horizontal, None);
    assert!(v.effects.is_empty());
}

#[test]
fn closing_a_pane_asks_about_its_process_and_focuses_the_neighbour() {
    let mut v = window(vec![tab(1, &[(1, 0), (2, 1), (3, 2)])]);
    v.tabs[0].panes[0].term.process = Some("vim".to_string());
    assert_eq!(v.pane_close_question(), Some(("tab 1".to_string(), "vim".to_string())));
    v.do_close_pane_or_tab(false, Some(3));
    assert_eq!(v.tabs[0].panes.len(), 3);
    v.do_close_pane_or_tab(true, Some(3));
    assert_eq!(ids(&v.tabs[0]), vec![(2, 0), (3, 1)]);
    assert_eq!(v.tabs[0].focused_pane, 3);
    assert!(v.effects.contains(&Effect::ScaleWidth(1, 3, 2)));
    // A neighbour that is gone falls back to the first pane.
    v.do_close_pane_or_tab(false, Some(99));
    assert_eq!(v.tabs[0].focused_pane, 2);
}

#[test]
fn closing_the_last_tab_ends_the_application() {
    let mut v = window(vec![tab(1, &[(1, 0)]), tab(2, &[(2, 0)])]);
    v.active_tab = 1;
    v.do_close_tab(false);
    assert_eq!(v.active_tab, 0);
    assert!(matches!(v.effects[0], Effect::Remember(ref t) if t.id == 2));
    v.effects.clear();
    v.do_close_pane_or_tab(false, None);
    assert!(v.tabs.is_empty());
    assert_eq!(v.effects.len(), 2);
    assert_eq!(v.effects[1], Effect::Terminate);
}

#[test]
fn closing_a_window_asks_about_every_process() {
    let mut v = window(vec![tab(1, &[(1, 0)]), tab(2, &[(2, 0)])]);
    v.tabs[1].panes[0].term.process = Some("make".to_string());
    assert_eq!(v.running_processes(), vec![("tab 2".to_string(), "make".to_string())]);
    assert!(v.tab_processes().is_empty());
    assert_eq!(confirm_running_processes(&vec![]), None);
    assert!(confirm_running_processes(&v.running_processes()).unwrap().contains("make"));
    v.do_close_window(false);
    assert!(!v.closing);
    v.do_close_window(true);
    assert!(v.closing && !v.skip_session_save());
    assert_eq!(v.effects, vec![Effect::RememberAll]);
    v.do_kill_window();
    assert!(v.skip_session_save());
}

#[test]
fn the_neighbour_to_focus_is_taken_in_order() {
    let n = Neighbors { right: None, left: Some(2), down: Some(3), up: None };
    assert_eq!(n.first(), Some(2));
    assert_eq!(Neighbors { right: None, left: None, down: None, up: None }.first(), None);
}

fn others(n: usize) -> Vec<OtherWindow> {
    (0..n).map(|i| OtherWindow { index: i, label: format!("w{i}") }).collect()
}

#[test]
fn a_tab_is_sent_detached_or_offered() {
    // No other window: a window of its own, but not for the only tab.
    let mut v = window(vec![tab(1, &[(1, 0)])]);
    v.do_detach_tab(others(0));
    assert!(v.effects.is_empty());
    let mut v = window(vec![tab(1, &[(1, 0)]), tab(2, &[(2, 0)])]);
    v.do_detach_tab(others(0));
    assert!(matches!(v.effects[1], Effect::DetachTab(ref t) if t.id == 1));
    // The last tab goes straight to the only other window.
    let mut v = window(vec![tab(1, &[(1, 0)])]);
    v.do_detach_tab(others(1));
    assert!(matches!(v.effects[0], Effect::SendTab(ref t, 0) if t.id == 1));
    assert!(v.closing && v.skip_session_save);
    // Otherwise the user picks.
    let mut v = window(vec![tab(1, &[(1, 0)]), tab(2, &[(2, 0)])]);
    v.do_detach_tab(others(2));
    let s = v.overlays.send_to_window.as_ref().unwrap();
    assert_eq!(s.entries.len(), 3);
    assert_eq!(s.entries[2].label, "New Window");
    v.handle_send_to_window_key(key(KEY_DOWN));
    v.handle_send_to_window_key(key(KEY_ENTER));
    assert!(v.overlays.send_to_window.is_none());
    assert!(v.effects.iter().any(|e| matches!(e, Effect::SendTab(t, 1) if t.id == 1)));
}

#[test]
fn a_window_merges_into_another() {
    let mut v = window(vec![tab(1, &[(1, 0)]), tab(2, &[(2, 0)])]);
    v.do_merge_window(others(0));
    assert!(v.effects.is_empty());
    v.do_merge_window(others(2));
    assert!(v.overlays.send_to_window.as_ref().unwrap().merge_all);
    v.handle_send_to_window_key(key(KEY_ESCAPE));
    assert!(v.overlays.send_to_window.is_none() && v.tabs.len() == 2);
    v.effects.clear();
    v.do_merge_window(others(1));
    assert!(v.tabs.is_empty());
    assert!(matches!(v.effects[0], Effect::SendTabs(ref ts, 0) if ts.len() == 2));
}

#[test]
fn a_pane_breaks_out_and_merges_back() {
    let mut v = window(vec![tab(1, &[(1, 0), (2, 1)])]);
    v.do_break_pane(7, Some(2));
    assert_eq!(v.tabs.len(), 2);
    assert_eq!(ids(&v.tabs[0]), vec![(2, 0)]);
    assert_eq!(ids(&v.tabs[1]), vec![(1, 0)]);
    assert_eq!((v.tabs[1].id, v.active_tab), (7, 1));
    v.do_merge_tab();
    assert_eq!(v.tabs.len(), 1);
    assert_eq!(ids(&v.tabs[0]), vec![(2, 0), (1, 1)]);
    assert_eq!(v.tabs[0].focused_pane, 1);
    // A pane alone stays.
    let mut v = window(vec![tab(1, &[(1, 0)])]);
    v.do_break_pane(7, None);
    assert_eq!(v.tabs.len(), 1);
    v.do_merge_tab();
    assert_eq!(v.tabs.len(), 1);
}

#[test]
fn the_tab_picker_merges_into_the_picked_tab() {
    let mut v = window(vec![tab(1, &[(1, 0)]), tab(2, &[(2, 0)]), tab(3, &[(3, 0)])]);
    v.do_merge_tab();
    let s = v.overlays.merge_tab.as_ref().unwrap();
    assert_eq!(s.entries.iter().map(|e| e.tab_index).collect::<Vec<_>>(), vec![1, 2]);
    v.handle_merge_tab_key(key(KEY_DOWN));
    v.handle_merge_tab_key(key(KEY_ENTER));
    assert_eq!(v.tabs.len(), 2);
    assert_eq!(ids(&v.tabs[1]), vec![(3, 0), (1, 1)]);
    assert_eq!(v.active_tab, 1);
    assert_eq!(v.tab_titles(), vec!["tab 2", "tab 3"]);
}

#[test]
fn tabs_sent_from_elsewhere_are_taken_in() {
    let mut v = window(vec![tab(1, &[(1, 0)])]);
    v.append_tabs(vec![tab(2, &[(2, 0)]), tab(3, &[(3, 0)])]);
    assert_eq!(v.tabs.len(), 3);
    assert_eq!(v.active_tab, 1);
    v.merge_window_into(4);
    assert!(v.tabs.is_empty() && v.closing);
}
