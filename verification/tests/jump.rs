use kova::jump::{
    find_project_for, open_archived_claude_session, open_conversation_in_project, ConversationPlan,
    JUMP_FLASH_FRAMES,
};
use kova::pane::{AgentFacts, Pane, Tab, TermFacts, WaitFacts};
use kova::recent::RecentProject;
use kova::search::SearchTarget;
use kova::view::{Effect, KovaView, SavedTab};

fn pane(id: u32, column: usize) -> Pane {
    Pane {
        id,
        column,
        minimized: false,
        custom_title: None,
        osc1_title: None,
        pending_command: None,
        bell: false,
        completed: false,
        completion_seen: false,
        marked_unread: false,
        term: TermFacts {
            display_title: format!("pane {id}"),
            title: None,
            cwd: None,
            git_branch: None,
            process: None,
            last_command: None,
            pid: 1000 + id,
            children: vec![],
            cols: 80,
            rows: 24,
            focus_reporting: false,
            ready: true,
            live: true,
            exited: false,
            bare_shell: false,
            has_selection: false,
            in_alt_screen: false,
        },
        agent: AgentFacts {
            kind: None,
            session_id: None,
            session_name: None,
            claude_session_id: None,
            claude_session_name: None,
            restored: None,
            working: false,
            starting: false,
            idle: false,
            permission_prompt: false,
            prompt_unseen: false,
            turn_end_unseen: false,
            waits: WaitFacts { since: None, seen: false, preview: None },
        },
    }
}

/// A tab of panes given as (id, column), the first focused.
fn tab(id: u32, panes: &[(u32, usize)]) -> Tab {
    Tab {
        id,
        panes: panes.iter().map(|&(p, c)| pane(p, c)).collect(),
        focused_pane: panes[0].0,
        custom_title: None,
        auto_title: format!("tab {id}"),
        color: None,
        collapsed: false,
        has_bell: false,
        has_completion: false,
        has_running: false,
        minimized_stack: vec![],
    }
}

fn window(tabs: Vec<Tab>) -> KovaView {
    let mut v = KovaView::new(60);
    v.tabs = tabs;
    v
}

fn project(key: &str, cwds: &[&str]) -> RecentProject {
    RecentProject {
        key: key.to_string(),
        path: cwds[0].to_string(),
        last_opened: 0,
        title: None,
        color: None,
        cwds: cwds.iter().map(|c| c.to_string()).collect(),
        tab: SavedTab { panes: 1, data: String::new() },
    }
}

#[test]
fn a_hit_switches_focuses_and_pulses() {
    let mut v = window(vec![tab(1, &[(1, 0)]), tab(2, &[(2, 0), (3, 1)])]);
    assert!(v.jump_to_search_hit(&SearchTarget::Open { tab_id: 2, pane_id: Some(3) }));
    assert_eq!((v.active_tab, v.tabs[1].focused_pane), (1, 3));
    let f = v.frame.pane_flash.as_ref().unwrap();
    assert_eq!((f.pane_id, f.remaining_frames), (3, JUMP_FLASH_FRAMES));
    assert!(!v.jump_to_search_hit(&SearchTarget::Open { tab_id: 9, pane_id: None }));
    assert!(!v.jump_to_search_hit(&SearchTarget::Recall { query: "q".to_string() }));
    assert!(v.activate_tab(1) && v.active_tab == 0);
    assert!(!v.activate_tab(9));
    assert!(!v.focus_pane_in_active_tab(3));
}

#[test]
fn a_pane_opens_in_the_tab_of_its_directory() {
    let mut v = window(vec![tab(1, &[(1, 0)]), tab(2, &[(2, 0)])]);
    v.tabs[1].panes[0].term.cwd = Some("/w".to_string());
    assert_eq!(v.tab_for_cwd("/w"), 1);
    assert_eq!(v.tab_for_cwd("/elsewhere"), 2);
    assert!(!v.open_pane_in_tab_for_cwd("/elsewhere", Some(pane(5, 0)), None));
    assert_eq!(v.active_tab, 0);
    assert!(v.open_pane_in_tab_for_cwd("/w", Some(pane(5, 0)), Some("ls".to_string())));
    assert_eq!(v.active_tab, 1);
    assert_eq!(v.tabs[1].focused_pane, 5);
    assert_eq!(v.tabs[1].panes[1].pending_command.as_deref(), Some("ls"));
    assert_eq!(v.tabs[1].panes[1].term.cwd.as_deref(), Some("/w"));
}

#[test]
fn a_conversation_goes_where_its_project_is() {
    let projects = vec![project("a", &["/a"]), project("b", &["/b", "/b/sub"])];
    assert_eq!(find_project_for(&projects, "/b/sub"), 1);
    assert_eq!(find_project_for(&projects, "/none"), 2);
    assert_eq!(open_conversation_in_project(true, true, &projects, "/b"), ConversationPlan::InOpenTab);
    assert_eq!(
        open_conversation_in_project(false, true, &projects, "/b"),
        ConversationPlan::InClosedTab(1)
    );
    assert_eq!(
        open_conversation_in_project(false, true, &projects, "/none"),
        ConversationPlan::InNewTab
    );
    let line = Some("codex resume x".to_string());
    assert_eq!(
        open_archived_claude_session(&line, false, &projects, "/b"),
        Some(ConversationPlan::InClosedTab(1))
    );
    assert_eq!(open_archived_claude_session(&None, true, &projects, "/b"), None);
}

#[test]
fn a_restored_tab_that_ran_the_command_is_left_alone() {
    let mut v = window(vec![tab(1, &[(1, 0)])]);
    v.tabs[0].panes[0].term.last_command = Some("resume x".to_string());
    assert!(v.active_tab_ran("resume x"));
    v.resume_in_restored_tab(Some(pane(2, 0)), None, "resume x".to_string());
    assert_eq!(v.tabs[0].panes.len(), 1);
    assert!(!v.active_tab_ran("resume y"));
    v.resume_in_restored_tab(Some(pane(2, 0)), Some("/w".to_string()), "resume y".to_string());
    assert_eq!(v.tabs[0].panes.len(), 2);
    assert_eq!(v.tabs[0].panes[1].pending_command.as_deref(), Some("resume y"));
    assert_eq!(v.tabs[0].panes[1].term.cwd.as_deref(), Some("/w"));
    assert!(v.effects.contains(&Effect::GrowForColumn(1, 2)));
}

#[test]
fn a_search_snapshot_lists_tabs_panes_and_live_sessions() {
    let mut v = window(vec![tab(1, &[(1, 0), (2, 1)])]);
    v.tabs[0].panes[0].agent.session_id = Some("s1".to_string());
    let (mut tabs, mut panes, mut live) = (Vec::new(), Vec::new(), Vec::new());
    v.collect_search_snapshot(&mut tabs, &mut panes, &mut live);
    assert_eq!(tabs.len(), 1);
    assert_eq!(panes.iter().map(|p| (p.tab_id, p.pane_id)).collect::<Vec<_>>(), vec![(1, 1), (1, 2)]);
    assert_eq!(panes[1].pane_title, "pane 2");
    assert_eq!(live, vec!["s1".to_string()]);
}
