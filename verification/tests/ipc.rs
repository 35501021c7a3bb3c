use kova::ipc::{pane_json, IpcCloseTabResult, IpcMergeTabResult, IpcSwapPaneResult, TextDump};
use kova::pane::{
    AgentFacts, Pane, SplitAxis, SplitDirection, Tab, TermFacts, WaitFacts,
};
use kova::sidebar_model::PromptPreview;
use kova::view::{Effect, KovaView};
use std::collections::HashMap;

fn pane(id: u32, column: usize) -> Pane {
    Pane {
        id,
        column,
        minimized: false,
        custom_title: None,
        osc1_title: None,
        pending_command: None,
        bell: false,
        completed: false,
        completion_seen: false,
        marked_unread: false,
        term: TermFacts {
            display_title: format!("pane {id}"),
            title: None,
            cwd: None,
            git_branch: None,
            process: None,
            last_command: None,
            pid: 1000 + id,
            children: vec![],
            cols: 80,
            rows: 24,
            focus_reporting: false,
            ready: true,
            live: true,
            exited: false,
            bare_shell: false,
            has_selection: false,
            in_alt_screen: false,
        },
        agent: AgentFacts {
            kind: None,
            session_id: None,
            session_name: None,
            claude_session_id: None,
            claude_session_name: None,
            restored: None,
            working: false,
            starting: false,
            idle: false,
            permission_prompt: false,
            prompt_unseen: false,
            turn_end_unseen: false,
            waits: WaitFacts { since: None, seen: false, preview: None },
        },
    }
}

/// A tab of panes given as (id, column), the first focused.
fn tab(id: u32, panes: &[(u32, usize)]) -> Tab {
    Tab {
        id,
        panes: panes.iter().map(|&(p, c)| pane(p, c)).collect(),
        focused_pane: panes[0].0,
        custom_title: None,
        auto_title: format!("tab {id}"),
        color: None,
        collapsed: false,
        has_bell: false,
        has_completion: false,
        has_running: false,
        minimized_stack: vec![],
    }
}

fn window(tabs: Vec<Tab>) -> KovaView {
    let mut v = KovaView::new(60);
    v.tabs = tabs;
    v
}

fn ids(t: &Tab) -> Vec<(u32, usize)> {
    t.panes.iter().map(|p| (p.id, p.column)).collect()
}

#[test]
fn a_pane_is_described_with_its_place_and_agent() {
    let mut p = pane(7, 0);
    p.term.cwd = Some("/w".to_string());
    p.agent.kind = Some("codex".to_string());
    p.agent.waits.since = Some(42);
    let r = pane_json(&p, 2, 3, true);
    assert_eq!((r.id, r.window, r.tab, r.focused, r.pid), (7, 2, 3, true, 1007));
    assert_eq!(r.cwd, "/w");
    assert_eq!(r.title, "pane 7");
    assert_eq!(r.agent.as_deref(), Some("codex"));
    assert_eq!((r.awaiting, r.awaiting_since, r.awaiting_seen), (true, Some(42), false));
}

#[test]
fn the_last_pane_cannot_be_closed() {
    let mut v = window(vec![tab(1, &[(1, 0), (2, 1)])]);
    assert_eq!(v.ipc_close_pane(9, None), None);
    assert_eq!(v.ipc_close_pane(1, None), Some(true));
    assert_eq!(ids(&v.tabs[0]), vec![(2, 0)]);
    assert_eq!(v.tabs[0].focused_pane, 2);
    assert_eq!(v.ipc_close_pane(2, None), Some(false));
    assert_eq!(v.tabs.len(), 1);
}

#[test]
fn typing_into_a_pane_answers_it() {
    let mut v = window(vec![tab(1, &[(1, 0)])]);
    assert!(v.ipc_set_pane_status(1, true, 50));
    assert_eq!(v.tabs[0].panes[0].agent.waits.since, Some(50));
    // Waiting already: the time it started stays.
    assert!(v.ipc_set_pane_status(1, true, 60));
    assert_eq!(v.tabs[0].panes[0].agent.waits.since, Some(50));
    v.tabs[0].panes[0].agent.waits.preview =
        Some(PromptPreview::TurnEnd { summary: "s".to_string(), seen: false });
    v.effects.clear();
    assert!(v.ipc_send_keys(1, "y".to_string()));
    assert_eq!(v.tabs[0].panes[0].agent.waits, WaitFacts { since: None, seen: false, preview: None });
    assert_eq!(v.effects, vec![Effect::Write(1, "y".to_string())]);
    assert!(!v.ipc_send_keys(9, "y".to_string()));
    assert!(v.ipc_set_pane_status(1, false, 0));
    assert!(!v.ipc_set_pane_status(9, true, 0));
}

#[test]
fn focusing_a_pane_switches_tabs_and_unfolds_it() {
    let mut v = window(vec![tab(1, &[(1, 0)]), tab(2, &[(2, 0), (3, 1)])]);
    v.tabs[1].panes[1].minimized = true;
    v.tabs[1].minimized_stack = vec![3];
    assert!(v.ipc_focus_pane(3));
    assert_eq!((v.active_tab, v.tabs[1].focused_pane), (1, 3));
    assert!(!v.tabs[1].panes[1].minimized && v.tabs[1].minimized_stack.is_empty());
    assert!(v.effects.contains(&Effect::RestoreWidth(2, 3)));
    assert!(!v.ipc_focus_pane(9));
}

#[test]
fn records_and_flags_list_every_pane() {
    let mut v = window(vec![tab(1, &[(1, 0)]), tab(2, &[(2, 0), (3, 1)])]);
    v.tabs[1].panes[0].agent.working = true;
    let mut out = Vec::new();
    v.ipc_collect_panes(4, true, &mut out);
    assert_eq!(out.iter().map(|r| (r.id, r.tab)).collect::<Vec<_>>(), vec![(1, 0), (2, 1), (3, 1)]);
    assert_eq!(out.iter().filter(|r| r.focused).map(|r| r.id).collect::<Vec<_>>(), vec![1]);
    let mut all = Vec::new();
    v.ipc_collect_pane_ids(&mut all);
    assert_eq!(all, vec![1, 2, 3]);
    let mut flags = HashMap::new();
    v.events_collect_flags(4, &mut flags);
    assert_eq!(flags.len(), 3);
    assert!(flags[&2].working && !flags[&3].working);
    assert_eq!(v.events_pane_json(4, 3, true).unwrap().tab, 1);
    assert!(v.events_pane_json(4, 9, true).is_none());
    let k = v.events_focus_key().unwrap();
    assert_eq!((k.0, k.1), (0, 1));
    let mut tabs = Vec::new();
    v.ipc_collect_tabs(4, true, &mut tabs);
    assert_eq!(tabs.iter().map(|t| (t.id, t.pane_count, t.active)).collect::<Vec<_>>(), vec![(1, 1, true), (2, 2, false)]);
}

#[test]
fn text_is_measured_in_characters_and_cwds_are_read() {
    let mut v = window(vec![tab(1, &[(1, 0)])]);
    assert_eq!(v.ipc_focused_cwd(), None);
    v.tabs[0].panes[0].term.cwd = Some("/w".to_string());
    assert_eq!(v.ipc_focused_cwd().as_deref(), Some("/w"));
    assert_eq!(v.pane_cwd(1).as_deref(), Some("/w"));
    assert_eq!(v.pane_cwd(9), None);
    v.tabs[0].panes[0].completed = true;
    assert_eq!(v.ipc_check_completion(1), Some(true));
    assert_eq!(v.ipc_check_completion(9), None);
    assert!(v.ipc_measure_pane_text(9, "x").is_none());
    assert!(v.ipc_measure_pane_text(1, "ab\ncd").is_some());
    let dump = || TextDump {
        text: "t".to_string(),
        cols: 80,
        rows: 24,
        cursor_row: 0,
        cursor_col: 0,
    };
    assert_eq!(v.ipc_dump_pane_text(1, dump()).unwrap().0, 1);
    assert!(v.ipc_dump_pane_text(9, dump()).is_none());
}

#[test]
fn titles_and_colours_are_set_by_pane() {
    let mut v = window(vec![tab(1, &[(1, 0)]), tab(2, &[(2, 0)])]);
    assert!(v.ipc_set_tab_title(2, Some("named".to_string())));
    assert_eq!(v.tabs[1].custom_title.as_deref(), Some("named"));
    assert!(v.ipc_set_tab_color(2, Some(3)));
    assert_eq!(v.tabs[1].color, Some(3));
    assert!(v.ipc_rename_pane(1, Some("p".to_string())));
    assert_eq!(v.tabs[0].panes[0].custom_title.as_deref(), Some("p"));
    assert!(!v.ipc_set_tab_title(9, None) && !v.ipc_set_tab_color(9, None));
    assert!(!v.ipc_rename_pane(9, None));
}

#[test]
fn tabs_open_close_and_merge_by_id() {
    let mut v = window(vec![tab(1, &[(1, 0)])]);
    assert_eq!(v.ipc_new_tab(None, None, None), None);
    assert_eq!(v.ipc_new_tab(Some(tab(2, &[(2, 0)])), None, Some("ls".to_string())), Some((2, 2)));
    assert_eq!(v.tabs[1].panes[0].pending_command.as_deref(), Some("ls"));
    assert_eq!(v.ipc_merge_tab(9, 1), IpcMergeTabResult::SourceMissing);
    assert_eq!(v.ipc_merge_tab(1, 9), IpcMergeTabResult::TargetMissing);
    assert_eq!(v.ipc_merge_tab(1, 2), IpcMergeTabResult::Merged);
    assert_eq!(ids(&v.tabs[0]), vec![(2, 0), (1, 1)]);
    assert_eq!(v.ipc_close_tab(9), IpcCloseTabResult::NotFound);
    assert_eq!(v.ipc_close_tab(2), IpcCloseTabResult::WouldTerminate);
    v.ipc_new_tab(Some(tab(3, &[(3, 0)])), None, None);
    assert_eq!(v.ipc_close_tab(2), IpcCloseTabResult::Closed);
    assert_eq!(v.tabs.len(), 1);
}

#[test]
fn panes_split_swap_and_resize_by_id() {
    let mut v = window(vec![tab(1, &[(1, 0)])]);
    assert_eq!(v.ipc_split(SplitDirection::Horizontal, None, None, None), None);
    assert_eq!(v.ipc_split(SplitDirection::Horizontal, Some(pane(2, 0)), None, None), Some(2));
    assert_eq!(v.ipc_split(SplitDirection::Vertical, Some(pane(3, 0)), None, None), Some(3));
    assert_eq!(ids(&v.tabs[0]), vec![(1, 0), (2, 1), (3, 1)]);
    assert_eq!(v.ipc_swap_pane(2, 2), IpcSwapPaneResult::Failed);
    assert_eq!(v.ipc_swap_pane(9, 2), IpcSwapPaneResult::AMissing);
    assert_eq!(v.ipc_swap_pane(2, 9), IpcSwapPaneResult::BMissing);
    assert_eq!(v.ipc_swap_pane(2, 3), IpcSwapPaneResult::Swapped);
    assert_eq!(ids(&v.tabs[0]), vec![(1, 0), (3, 1), (2, 1)]);
    assert_eq!(v.ipc_swap_pane(1, 2), IpcSwapPaneResult::Swapped);
    assert_eq!(ids(&v.tabs[0]), vec![(3, 0), (2, 0), (1, 1)]);
    assert_eq!(v.ipc_resize_pane(9, SplitAxis::Horizontal, true), None);
    assert!(matches!(v.ipc_resize_pane(1, SplitAxis::Horizontal, true), Some(Some(_))));
    assert_eq!(v.ipc_resize_pane(1, SplitAxis::Vertical, true), Some(None));
    v.effects.clear();
    assert!(v.ipc_pane_resized(1));
    assert!(v.effects.contains(&Effect::ResizePanes));
    assert!(!v.ipc_pane_resized(9));
}

fn cwd(p: &Pane) -> Option<&str> {
    p.term.cwd.as_deref()
}

#[test]
fn a_request_starts_where_it_says_else_where_the_focus_is() {
    let mut v = window(vec![tab(1, &[(1, 0)])]);
    let other = || Some("/other".to_string());
    for p in &mut v.tabs[0].panes {
        p.term.cwd = Some("/work".to_string());
    }
    assert_eq!(v.new_pane_cwd(None).as_deref(), Some("/work"));
    assert_eq!(v.new_pane_cwd(other()).as_deref(), Some("/other"));
    v.ipc_split(SplitDirection::Vertical, Some(pane(2, 0)), None, None);
    assert_eq!(cwd(&v.tabs[0].panes[1]), Some("/work"));
    v.ipc_new_tab(Some(tab(2, &[(3, 0)])), other(), None);
    assert_eq!(cwd(&v.tabs[1].panes[0]), Some("/other"));
    v.ipc_new_tab(Some(tab(3, &[(4, 0)])), None, None);
    assert_eq!(cwd(&v.tabs[2].panes[0]), Some("/other"));
    v.ipc_split(SplitDirection::Horizontal, Some(pane(5, 0)), Some("/work".to_string()), None);
    assert_eq!(cwd(&v.tabs[2].panes[1]), Some("/work"));
    let empty = KovaView::new(60);
    assert_eq!(empty.new_pane_cwd(None), None);
    assert_eq!(empty.new_pane_cwd(other()).as_deref(), Some("/other"));
}
