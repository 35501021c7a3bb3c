use kova::pane::{AgentFacts, NavDirection, Pane, Tab, TermFacts, WaitFacts};
use kova::view::{Effect, KovaView};

fn pane(id: u32, column: usize) -> Pane {
    Pane {
        id,
        column,
        minimized: false,
        custom_title: None,
        osc1_title: None,
        pending_command: None,
        bell: false,
        completed: false,
        completion_seen: false,
        marked_unread: false,
        term: TermFacts {
            display_title: format!("pane {id}"),
            title: None,
            cwd: None,
            git_branch: None,
            process: None,
            last_command: None,
            pid: 1000 + id,
            children: vec![],
            cols: 80,
            rows: 24,
            focus_reporting: false,
            ready: true,
            live: true,
            exited: false,
            bare_shell: false,
            has_selection: false,
            in_alt_screen: false,
        },
        agent: AgentFacts {
            kind: None,
            session_id: None,
            session_name: None,
            claude_session_id: None,
            claude_session_name: None,
            restored: None,
            working: false,
            starting: false,
            idle: false,
            permission_prompt: false,
            prompt_unseen: false,
            turn_end_unseen: false,
            waits: WaitFacts { since: None, seen: false, preview: None },
        },
    }
}

/// A tab of panes given as (id, column), the first focused.
fn tab(id: u32, panes: &[(u32, usize)]) -> Tab {
    Tab {
        id,
        panes: panes.iter().map(|&(p, c)| pane(p, c)).collect(),
        focused_pane: panes[0].0,
        custom_title: None,
        auto_title: format!("tab {id}"),
        color: None,
        collapsed: false,
        has_bell: false,
        has_completion: false,
        has_running: false,
        minimized_stack: vec![],
    }
}

fn window(tabs: Vec<Tab>) -> KovaView {
    let mut v = KovaView::new(60);
    v.tabs = tabs;
    v
}

fn ids(t: &Tab) -> Vec<(u32, usize)> {
    t.panes.iter().map(|p| (p.id, p.column)).collect()
}

#[test]
fn removing_a_pane_renumbers_the_columns() {
    let mut t = tab(1, &[(1, 0), (2, 1), (3, 1), (4, 2)]);
    assert!(t.remove_pane(1));
    assert_eq!(ids(&t), vec![(2, 0), (3, 0), (4, 1)]);
    assert!(t.remove_pane(3));
    assert_eq!(ids(&t), vec![(2, 0), (4, 1)]);
    assert!(!t.remove_pane(9));
    assert_eq!(t.num_columns(), 2);
    assert_eq!((t.first_pane_id(), t.last_pane_id()), (2, 4));
}

#[test]
fn a_vertical_swap_trades_places_and_a_horizontal_one_columns() {
    let mut t = tab(1, &[(1, 0), (2, 0), (3, 1)]);
    assert!(t.swap_panes(1, 2, NavDirection::Down));
    assert_eq!(ids(&t), vec![(2, 0), (1, 0), (3, 1)]);
    assert!(!t.swap_panes(1, 3, NavDirection::Down));
    assert!(t.swap_panes(1, 3, NavDirection::Right));
    assert_eq!(ids(&t), vec![(3, 0), (2, 1), (1, 1)]);
    assert!(!t.swap_panes(1, 1, NavDirection::Down));
    assert!(!t.swap_panes(1, 9, NavDirection::Right));
}

#[test]
fn minimizing_and_bringing_back_undo_each_other() {
    let mut v = window(vec![tab(1, &[(1, 0), (2, 1)])]);
    v.do_minimize_pane();
    assert!(v.tabs[0].panes[0].minimized);
    assert_eq!(v.tabs[0].focused_pane, 2);
    assert_eq!(v.tabs[0].minimized_stack, vec![1]);
    // The last one that shows stays.
    v.effects.clear();
    v.do_minimize_pane();
    assert!(!v.tabs[0].panes[1].minimized);
    assert!(v.effects.is_empty());
    v.do_restore_last_minimized();
    assert!(!v.tabs[0].panes[0].minimized);
    assert_eq!(v.tabs[0].focused_pane, 1);
    assert!(v.tabs[0].minimized_stack.is_empty());
    v.effects.clear();
    v.do_restore_last_minimized();
    assert!(v.effects.is_empty());
}

#[test]
fn a_tab_with_everything_folded_shows_its_last_pane_again() {
    let mut t = tab(1, &[(1, 0), (2, 0)]);
    assert_eq!(t.ensure_visible_pane(), None);
    t.panes[0].minimized = true;
    t.panes[1].minimized = true;
    t.minimized_stack = vec![2, 1];
    assert_eq!(t.num_visible_columns(), 0);
    assert_eq!(t.ensure_visible_pane(), Some(1));
    assert_eq!(t.first_visible_pane(), Some(1));
    assert_eq!(t.num_visible_columns(), 1);
}

#[test]
fn crossing_to_the_next_tab_takes_two_presses() {
    let mut v = window(vec![tab(1, &[(1, 0), (2, 1)]), tab(2, &[(3, 0)])]);
    v.do_navigate(NavDirection::Right, Some(2), 0);
    assert_eq!(v.tabs[0].focused_pane, 2);
    v.do_navigate(NavDirection::Right, None, 1000);
    assert_eq!(v.active_tab, 0);
    assert!(v.frame.boundary_flash.is_some());
    v.do_navigate(NavDirection::Right, None, 1100);
    assert_eq!(v.active_tab, 1);
    // A second press too late counts as a first one.
    v.do_navigate(NavDirection::Left, None, 2000);
    v.do_navigate(NavDirection::Left, None, 60_000);
    assert_eq!(v.active_tab, 1);
}

#[test]
fn a_swap_and_a_new_arrangement_resize_the_panes() {
    let mut v = window(vec![tab(1, &[(1, 0), (2, 0)])]);
    v.do_swap_pane(NavDirection::Down, None);
    assert!(v.effects.is_empty());
    v.do_swap_pane(NavDirection::Down, Some(2));
    assert_eq!(ids(&v.tabs[0]), vec![(2, 0), (1, 0)]);
    assert_eq!(
        v.effects,
        vec![
            Effect::DirtyPane(1),
            Effect::DirtyPane(2),
            Effect::Reveal(1, 1),
            Effect::ResizePanes
        ]
    );
    v.effects.clear();
    v.do_reparent_pane(None);
    assert!(v.effects.is_empty());
    v.do_reparent_pane(Some(tab(1, &[(2, 0), (1, 1)])));
    assert_eq!(ids(&v.tabs[0]), vec![(2, 0), (1, 1)]);
    assert_eq!(v.effects, vec![Effect::ResizePanes]);
}

#[test]
fn titles_and_lookups() {
    let mut t = tab(1, &[(1, 0), (2, 1)]);
    assert_eq!(t.title(), "tab 1");
    t.custom_title = Some("mine".to_string());
    assert_eq!(t.title(), "mine");
    assert_eq!(t.find(2), 1);
    assert!(t.contains(1) && !t.contains(7));
    assert!(t.pane(7).is_none());
    assert!(!t.is_single_pane());
    let mut source = vec![pane(5, 0), pane(6, 1)];
    t.append_columns(&mut source);
    assert_eq!(ids(&t), vec![(1, 0), (2, 1), (5, 2), (6, 3)]);
}
