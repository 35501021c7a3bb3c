use kova::pane::{AgentFacts, Pane, Tab, TermFacts, WaitFacts};
use kova::restore::MAX_CONCURRENT_SHELLS;
use kova::view::{Effect, KovaView, SavedTab};

fn pane(id: u32, column: usize) -> Pane {
    Pane {
        id,
        column,
        minimized: false,
        custom_title: None,
        osc1_title: None,
        pending_command: None,
        bell: false,
        completed: false,
        completion_seen: false,
        marked_unread: false,
        term: TermFacts {
            display_title: format!("pane {id}"),
            title: None,
            cwd: None,
            git_branch: None,
            process: None,
            last_command: None,
            pid: 1000 + id,
            children: vec![],
            cols: 80,
            rows: 24,
            focus_reporting: false,
            ready: true,
            live: true,
            exited: false,
            bare_shell: false,
            has_selection: false,
            in_alt_screen: false,
        },
        agent: AgentFacts {
            kind: None,
            session_id: None,
            session_name: None,
            claude_session_id: None,
            claude_session_name: None,
            restored: None,
            working: false,
            starting: false,
            idle: false,
            permission_prompt: false,
            prompt_unseen: false,
            turn_end_unseen: false,
            waits: WaitFacts { since: None, seen: false, preview: None },
        },
    }
}

/// A tab of panes given as (id, column), the first focused.
fn tab(id: u32, panes: &[(u32, usize)]) -> Tab {
    Tab {
        id,
        panes: panes.iter().map(|&(p, c)| pane(p, c)).collect(),
        focused_pane: panes[0].0,
        custom_title: None,
        auto_title: format!("tab {id}"),
        color: None,
        collapsed: false,
        has_bell: false,
        has_completion: false,
        has_running: false,
        minimized_stack: vec![],
    }
}

fn window(tabs: Vec<Tab>) -> KovaView {
    let mut v = KovaView::new(60);
    v.tabs = tabs;
    v
}

fn saved(panes: u32, data: &str) -> SavedTab {
    SavedTab { panes, data: data.to_string() }
}

#[test]
fn setting_up_counts_frames_in_seconds() {
    let mut v = KovaView::new(60);
    v.setup(vec![tab(1, &[(1, 0)]), tab(2, &[(2, 0)])], 1);
    assert_eq!((v.tabs.len(), v.active_tab), (2, 1));
    assert_eq!((v.frame.git_poll_interval, v.frame.help_hint_frames), (120, 180));
}

#[test]
fn a_deferred_tab_is_restored_or_kept_as_it_was_saved() {
    let mut v = window(vec![tab(1, &[(1, 0)]), tab(2, &[(2, 0)]), tab(3, &[(3, 0)])]);
    v.tabs[1].panes[0].term.live = false;
    v.tabs[2].panes[0].term.live = false;
    v.defer_tabs(vec![(1, saved(2, "two")), (2, saved(3, "three"))]);
    assert_eq!(v.restore.loading_total_panes, 6);
    assert_eq!(v.restore.tab_backup.len(), 2);
    // What is saved meanwhile is what was saved before.
    let snapshots = vec![saved(1, "now 1"), saved(1, "now 2"), saved(1, "now 3")];
    let mut out = Vec::new();
    v.append_session_data(&snapshots, &mut out);
    let data: Vec<&str> = out[0].tabs.iter().map(|t| t.data.as_str()).collect();
    assert_eq!(data, vec!["now 1", "two", "three"]);
    // Too many shells start: wait.
    assert_eq!(v.next_deferred(MAX_CONCURRENT_SHELLS), None);
    let d = v.next_deferred(0).unwrap();
    let id = d.tab_id;
    let n = d.saved.panes;
    let now = v.finish_deferred(d, Some(tab(id, &[(20, 0)])), 0);
    assert_eq!(now, n);
    assert!(!v.restore.tab_backup.contains_key(&id));
    assert_eq!(v.effects, vec![Effect::ResizePanes]);
    // A failed one keeps its backup and leaves the count.
    let d = v.next_deferred(0).unwrap();
    let id = d.tab_id;
    let left = v.restore.loading_total_panes - d.saved.panes;
    assert_eq!(v.finish_deferred(d, None, 1), 1);
    assert_eq!(v.restore.loading_total_panes, left);
    assert!(v.restore.tab_backup.contains_key(&id));
    assert_eq!(v.next_deferred(0), None);
}

#[test]
fn progress_shows_until_every_shell_is_ready() {
    let mut v = window(vec![tab(1, &[(1, 0), (2, 1)])]);
    assert_eq!(v.loading_progress(), None);
    v.restore.loading_total_panes = 2;
    v.tabs[0].panes[1].term.ready = false;
    assert_eq!(v.count_shells(), (1, 1));
    assert_eq!(v.loading_progress(), Some((1, 2)));
    v.tabs[0].panes[1].term.ready = true;
    assert_eq!(v.loading_progress(), None);
    assert_eq!(v.restore.loading_total_panes, 0);
}
