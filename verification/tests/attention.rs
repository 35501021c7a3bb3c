use kova::attention::{collect_unread, PaneState, FAR_JUMP_FRAMES};
use kova::pane::{AgentFacts, Pane, Tab, TermFacts, WaitFacts};
use kova::view::{Effect, KovaView};

fn pane(id: u32, column: usize) -> Pane {
    Pane {
        id,
        column,
        minimized: false,
        custom_title: None,
        osc1_title: None,
        pending_command: None,
        bell: false,
        completed: false,
        completion_seen: false,
        marked_unread: false,
        term: TermFacts {
            display_title: format!("pane {id}"),
            title: None,
            cwd: None,
            git_branch: None,
            process: None,
            last_command: None,
            pid: 1000 + id,
            children: vec![],
            cols: 80,
            rows: 24,
            focus_reporting: false,
            ready: true,
            live: true,
            exited: false,
            bare_shell: false,
            has_selection: false,
            in_alt_screen: false,
        },
        agent: AgentFacts {
            kind: None,
            session_id: None,
            session_name: None,
            claude_session_id: None,
            claude_session_name: None,
            restored: None,
            working: false,
            starting: false,
            idle: false,
            permission_prompt: false,
            prompt_unseen: false,
            turn_end_unseen: false,
            waits: WaitFacts { since: None, seen: false, preview: None },
        },
    }
}

/// A tab of panes given as (id, column), the first focused.
fn tab(id: u32, panes: &[(u32, usize)]) -> Tab {
    Tab {
        id,
        panes: panes.iter().map(|&(p, c)| pane(p, c)).collect(),
        focused_pane: panes[0].0,
        custom_title: None,
        auto_title: format!("tab {id}"),
        color: None,
        collapsed: false,
        has_bell: false,
        has_completion: false,
        has_running: false,
        minimized_stack: vec![],
    }
}

fn window(tabs: Vec<Tab>) -> KovaView {
    let mut v = KovaView::new(60);
    v.tabs = tabs;
    v
}

#[test]
fn a_message_shows_for_two_seconds() {
    let mut v = window(vec![tab(1, &[(1, 0)])]);
    v.set_transient_status("Stopped");
    assert_eq!(v.frame.transient_status, Some(("Stopped".to_string(), 120)));
    assert_eq!(v.effects, vec![Effect::MarkDirty]);
}

#[test]
fn a_bookmark_needs_something_to_keep() {
    let mut v = window(vec![tab(1, &[(1, 0)])]);
    v.do_toggle_bookmark();
    assert_eq!(
        v.frame.transient_status.as_ref().unwrap().0,
        "Nothing to bookmark in this pane"
    );
    v.tabs[0].panes[0].term.cwd = Some("/w".to_string());
    v.effects.clear();
    v.do_toggle_bookmark();
    assert_eq!(v.effects, vec![Effect::ToggleBookmark(1)]);
    v.bookmark_toggled(true, "w", vec!["/w".to_string()]);
    assert_eq!(v.bookmark_keys, vec!["/w".to_string()]);
    assert!(v.frame.transient_status.as_ref().unwrap().0.contains("w"));
}

#[test]
fn the_next_unread_pane_is_asked_for_across_windows() {
    let own = vec![(1, false), (2, true)];
    let others = vec![vec![(7, true)], vec![]];
    let order = collect_unread(own, &others);
    assert_eq!(order, vec![(1, false), (2, true), (7, true)]);
    let mut v = window(vec![tab(1, &[(2, 0)])]);
    v.do_focus_next_attention(&order, &vec![1]);
    assert_eq!(v.effects, vec![Effect::FocusElsewhere(7), Effect::MarkDirty]);
    assert_eq!(v.frame.transient_status.as_ref().unwrap().0, "Next unread");
    v.effects.clear();
    // Nothing unread: the next idle agent.
    v.do_focus_next_attention(&vec![(1, false), (2, false)], &vec![1, 2]);
    assert_eq!(v.effects[0], Effect::FocusElsewhere(1));
    assert_eq!(v.frame.transient_status.as_ref().unwrap().0, "Next idle");
    v.effects.clear();
    v.do_focus_next_attention(&vec![(1, false)], &vec![]);
    assert_eq!(v.effects, vec![Effect::MarkDirty]);
    assert_eq!(v.frame.transient_status.as_ref().unwrap().0, "Nothing to read");
}

#[test]
fn landing_on_a_pane_names_its_directory() {
    let mut v = window(vec![tab(1, &[(1, 0)]), tab(2, &[(2, 0)])]);
    v.tabs[1].panes[0].term.cwd = Some("/home/me/kova".to_string());
    assert!(v.focus_pane_here(2, "/home/me"));
    assert_eq!(v.active_tab, 1);
    let f = v.frame.pane_flash.as_ref().unwrap();
    assert_eq!((f.pane_id, f.remaining_frames), (2, FAR_JUMP_FRAMES));
    let l = f.label.as_ref().unwrap();
    assert_eq!((l.name.as_str(), l.parent.as_str()), ("kova", "~"));
    assert!(!v.focus_pane_here(9, "/home/me"));
}

#[test]
fn the_visit_history_skips_what_is_folded_or_gone() {
    let mut v = window(vec![tab(1, &[(1, 0), (2, 1)])]);
    v.tabs[0].panes[1].minimized = true;
    assert_eq!(v.pane_history_state(1), PaneState::Focusable);
    assert_eq!(v.pane_history_state(2), PaneState::Hidden);
    assert_eq!(v.pane_history_state(3), PaneState::Gone);
    v.do_history_step(None);
    assert!(v.effects.is_empty());
    v.do_history_step(Some(1));
    assert_eq!(v.effects, vec![Effect::FocusElsewhere(1)]);
}
