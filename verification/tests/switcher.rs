use kova::pane::{AgentFacts, Pane, Tab, TermFacts, WaitFacts};
use kova::switcher::{balance, initial_selection, nearest_pane_row, SwitcherRow};
use kova::view::{Effect, KeyPress, KovaView, KEY_DOWN, KEY_ENTER, KEY_ESCAPE, KEY_RIGHT, KEY_UP};

fn pane(id: u32, column: usize) -> Pane {
    Pane {
        id,
        column,
        minimized: false,
        custom_title: None,
        osc1_title: None,
        pending_command: None,
        bell: false,
        completed: false,
        completion_seen: false,
        marked_unread: false,
        term: TermFacts {
            display_title: format!("pane {id}"),
            title: None,
            cwd: None,
            git_branch: None,
            process: None,
            last_command: None,
            pid: 1000 + id,
            children: vec![],
            cols: 80,
            rows: 24,
            focus_reporting: false,
            ready: true,
            live: true,
            exited: false,
            bare_shell: false,
            has_selection: false,
            in_alt_screen: false,
        },
        agent: AgentFacts {
            kind: None,
            session_id: None,
            session_name: None,
            claude_session_id: None,
            claude_session_name: None,
            restored: None,
            working: false,
            starting: false,
            idle: false,
            permission_prompt: false,
            prompt_unseen: false,
            turn_end_unseen: false,
            waits: WaitFacts { since: None, seen: false, preview: None },
        },
    }
}

/// A tab of panes given as (id, column), the first focused.
fn tab(id: u32, panes: &[(u32, usize)]) -> Tab {
    Tab {
        id,
        panes: panes.iter().map(|&(p, c)| pane(p, c)).collect(),
        focused_pane: panes[0].0,
        custom_title: None,
        auto_title: format!("tab {id}"),
        color: None,
        collapsed: false,
        has_bell: false,
        has_completion: false,
        has_running: false,
        minimized_stack: vec![],
    }
}

fn window(tabs: Vec<Tab>) -> KovaView {
    let mut v = KovaView::new(60);
    v.tabs = tabs;
    v
}

fn key(code: u16) -> KeyPress {
    KeyPress { code, ch: ' ', cmd: false, ctrl: false, option: false }
}

fn header(t: &str) -> SwitcherRow {
    SwitcherRow::TabHeader(t.to_string())
}

fn row(id: u32, current: bool) -> SwitcherRow {
    SwitcherRow::Pane { pane_id: id, title: format!("p{id}"), is_current: current }
}

#[test]
fn the_nearest_pane_row_skips_headers() {
    let rows = vec![header("a"), row(1, false), row(2, false), header("b"), row(3, false)];
    assert_eq!(nearest_pane_row(&rows, 0), 1);
    assert_eq!(nearest_pane_row(&rows, 2), 2);
    assert!(rows[nearest_pane_row(&rows, 3)].is_pane());
    assert!(!header("x").is_pane());
}

#[test]
fn balancing_keeps_every_row_and_selects_the_current_pane() {
    let groups = vec![
        vec![header("a"), row(1, false)],
        vec![header("b"), row(2, true), row(3, false)],
        vec![header("c"), row(4, false)],
    ];
    let columns = balance(groups);
    let rows: usize = columns.iter().map(|c| c.len()).sum();
    assert_eq!(rows, 7);
    let (c, r) = initial_selection(&columns);
    assert_eq!(columns[c][r], row(2, true));
}

#[test]
fn the_switcher_opens_on_the_current_pane_and_focuses_the_selected_one() {
    let mut v = window(vec![tab(1, &[(1, 0), (2, 1)]), tab(2, &[(3, 0)])]);
    v.do_open_pane_switcher(Some(20));
    let s = v.overlays.pane_switcher.as_ref().unwrap();
    assert!(matches!(
        s.columns[s.selected_col][s.selected_row],
        SwitcherRow::Pane { pane_id: 1, is_current: true, .. }
    ));
    v.handle_pane_switcher_key(key(KEY_DOWN), Some(20));
    v.handle_pane_switcher_key(key(KEY_ENTER), Some(20));
    assert!(v.overlays.pane_switcher.is_none());
    assert_eq!((v.active_tab, v.tabs[0].focused_pane), (0, 2));
    // Escape leaves the focus alone.
    v.do_open_pane_switcher(None);
    v.handle_pane_switcher_key(key(KEY_RIGHT), None);
    v.handle_pane_switcher_key(key(KEY_ESCAPE), None);
    assert!(v.overlays.pane_switcher.is_none());
    assert_eq!((v.active_tab, v.tabs[0].focused_pane), (0, 2));
}

#[test]
fn a_click_picks_a_row_and_scrolling_stays_in_range() {
    let mut v = window(vec![tab(1, &[(1, 0), (2, 0), (3, 0)])]);
    v.do_open_pane_switcher(Some(2));
    v.handle_pane_switcher_scroll(0, 100, 2);
    // Four rows, two of them on screen.
    assert_eq!(v.overlays.pane_switcher.as_ref().unwrap().scroll[0], 2);
    v.handle_pane_switcher_scroll(0, -100, 2);
    assert_eq!(v.overlays.pane_switcher.as_ref().unwrap().scroll[0], 0);
    v.effects.clear();
    v.handle_pane_switcher_click(Some((0, 2)));
    assert!(v.overlays.pane_switcher.is_none());
    assert_eq!(v.tabs[0].focused_pane, 2);
    assert!(v.effects.contains(&Effect::ResizePanes));
    let mut empty = KovaView::new(60);
    empty.do_open_pane_switcher(None);
    assert!(empty.overlays.pane_switcher.is_none());
}

fn typed(ch: char) -> KeyPress {
    KeyPress { code: 32, ch, cmd: false, ctrl: false, option: false }
}

fn listed(v: &KovaView) -> Vec<u32> {
    let s = v.overlays.pane_switcher.as_ref().unwrap();
    s.columns
        .iter()
        .flatten()
        .filter_map(|r| match r {
            SwitcherRow::Pane { pane_id, .. } => Some(*pane_id),
            SwitcherRow::TabHeader(_) => None,
        })
        .collect()
}

fn selected(v: &KovaView) -> u32 {
    let s = v.overlays.pane_switcher.as_ref().unwrap();
    match s.columns[s.selected_col][s.selected_row] {
        SwitcherRow::Pane { pane_id, .. } => pane_id,
        SwitcherRow::TabHeader(_) => panic!("a header is selected"),
    }
}

#[test]
fn the_short_list_shows_the_panes_that_ask_for_something() {
    let mut v = window(vec![tab(1, &[(1, 0), (2, 1)]), tab(2, &[(3, 0)]), tab(3, &[(4, 0), (5, 0)])]);
    // Nothing asks for anything: the list does not open.
    v.open_pane_switcher(true, Some(20));
    assert!(v.overlays.pane_switcher.is_none() && v.effects.is_empty());
    v.tabs[0].panes[0].bell = true;
    v.tabs[0].panes[1].bell = true;
    v.tabs[2].panes[1].completed = true;
    v.open_pane_switcher(true, Some(20));
    // The pane looked at does not count, nor does a tab without one.
    assert_eq!(listed(&v), vec![2, 5]);
    assert_eq!(selected(&v), 2);
    let s = v.overlays.pane_switcher.as_ref().unwrap();
    assert!(s.unread_only && s.columns.iter().flatten().count() == 4);
    v.handle_pane_switcher_key(typed('u'), Some(20));
    assert_eq!(listed(&v), vec![1, 2, 3, 4, 5]);
    assert_eq!(selected(&v), 1);
    v.handle_pane_switcher_key(typed('u'), Some(20));
    assert_eq!(listed(&v), vec![2, 5]);
    // With nothing left to show, the list stays as it is.
    v.handle_pane_switcher_key(typed('u'), Some(20));
    v.tabs[0].panes[1].bell = false;
    v.tabs[2].panes[1].completion_seen = true;
    v.effects.clear();
    v.handle_pane_switcher_key(typed('u'), Some(20));
    assert_eq!(listed(&v), vec![1, 2, 3, 4, 5]);
    assert!(v.effects.is_empty());
}

#[test]
fn the_selected_pane_moves_in_its_tab_and_back() {
    let mut v = window(vec![tab(1, &[(1, 0), (2, 0), (3, 1)])]);
    let shift = |code: u16| KeyPress { code, ch: ' ', cmd: true, ctrl: false, option: false };
    let places = |v: &KovaView| v.tabs[0].panes.iter().map(|p| (p.id, p.column)).collect::<Vec<_>>();
    v.do_open_pane_switcher(None);
    v.effects.clear();
    // Already first.
    v.handle_pane_switcher_key(shift(KEY_UP), None);
    assert!(v.effects.is_empty());
    v.handle_pane_switcher_key(shift(KEY_DOWN), None);
    assert_eq!(places(&v), vec![(2, 0), (1, 0), (3, 1)]);
    assert_eq!(v.effects, vec![Effect::DirtyTab(1), Effect::ResizePanes, Effect::MarkDirty]);
    assert_eq!((selected(&v), listed(&v)), (1, vec![2, 1, 3]));
    v.handle_pane_switcher_key(shift(KEY_DOWN), None);
    assert_eq!(places(&v), vec![(2, 0), (3, 0), (1, 1)]);
    v.handle_pane_switcher_key(shift(KEY_UP), None);
    v.handle_pane_switcher_key(shift(KEY_UP), None);
    assert_eq!(places(&v), vec![(1, 0), (2, 0), (3, 1)]);
    assert_eq!(v.tabs[0].focused_pane, 1);
}
