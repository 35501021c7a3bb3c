use kova::mouse::PALETTE_SIZE;
use kova::pane::{AgentFacts, Pane, Tab, TermFacts, WaitFacts};
use kova::sidebar::{LayoutMode, LayoutPrefs, LayoutSetting, NextPill, SidebarSort};
use kova::sidebar_actions::{PaneActionFacts, TabActionFacts};
use kova::sidebar_ui::{
    color_menu_rows, pane_menu_rows, tab_color_name, tab_menu_rows, MenuRow, PaneAction, TabAction,
};
use kova::view::{Effect, KovaView};

fn pane(id: u32, column: usize) -> Pane {
    Pane {
        id,
        column,
        minimized: false,
        custom_title: None,
        osc1_title: None,
        pending_command: None,
        bell: false,
        completed: false,
        completion_seen: false,
        marked_unread: false,
        term: TermFacts {
            display_title: format!("pane {id}"),
            title: None,
            cwd: None,
            git_branch: None,
            process: None,
            last_command: None,
            pid: 1000 + id,
            children: vec![],
            cols: 80,
            rows: 24,
            focus_reporting: false,
            ready: true,
            live: true,
            exited: false,
            bare_shell: false,
            has_selection: false,
            in_alt_screen: false,
        },
        agent: AgentFacts {
            kind: None,
            session_id: None,
            session_name: None,
            claude_session_id: None,
            claude_session_name: None,
            restored: None,
            working: false,
            starting: false,
            idle: false,
            permission_prompt: false,
            prompt_unseen: false,
            turn_end_unseen: false,
            waits: WaitFacts { since: None, seen: false, preview: None },
        },
    }
}

/// A tab of panes given as (id, column), the first focused.
fn tab(id: u32, panes: &[(u32, usize)]) -> Tab {
    Tab {
        id,
        panes: panes.iter().map(|&(p, c)| pane(p, c)).collect(),
        focused_pane: panes[0].0,
        custom_title: None,
        auto_title: format!("tab {id}"),
        color: None,
        collapsed: false,
        has_bell: false,
        has_completion: false,
        has_running: false,
        minimized_stack: vec![],
    }
}

fn window(tabs: Vec<Tab>) -> KovaView {
    let mut v = KovaView::new(60);
    v.tabs = tabs;
    v
}

fn ids(t: &Tab) -> Vec<(u32, usize)> {
    t.panes.iter().map(|p| (p.id, p.column)).collect()
}

fn facts() -> PaneActionFacts {
    PaneActionFacts {
        agent_command: "codex".to_string(),
        resume: None,
        confirmed: false,
        next: None,
    }
}

fn tab_facts() -> TabActionFacts {
    TabActionFacts { new: None, confirmed: false }
}

fn status(v: &KovaView) -> &str {
    v.frame.transient_status.as_ref().unwrap().0.as_str()
}

#[test]
fn the_colour_menu_names_every_tab_colour_and_round_trips_its_tags() {
    let names: Vec<String> = color_menu_rows(None)
        .into_iter()
        .filter_map(|row| match row {
            MenuRow::Swatch(name, tag, Some(i), _) => {
                assert_eq!(tag, i as isize);
                assert_eq!(name, tab_color_name(i));
                Some(name)
            }
            _ => None,
        })
        .collect();
    assert_eq!(names.len(), PALETTE_SIZE as usize);
    assert_eq!(names, ["Red", "Orange", "Yellow", "Green", "Blue", "Violet"]);
    for i in 0..names.len() {
        assert_eq!(TabAction::from_tag(TabAction::Color(i).tag()), Some(TabAction::Color(i)));
    }
    assert_eq!(TabAction::from_tag(TabAction::NoColor.tag()), Some(TabAction::NoColor));
    assert!(names.iter().all(|n| n.is_ascii()));
}

#[test]
fn every_action_reads_back_from_its_tag() {
    for a in [
        PaneAction::Open,
        PaneAction::Stop,
        PaneAction::StartClaude,
        PaneAction::Resume,
        PaneAction::Rename,
        PaneAction::ToggleBookmark,
        PaneAction::Minimize,
        PaneAction::Restore,
        PaneAction::Close,
    ] {
        assert_eq!(PaneAction::from_tag(a.tag()), Some(a));
    }
    assert_eq!(PaneAction::from_tag(-1), None);
    for a in [TabAction::Rename, TabAction::AddPane, TabAction::CollapseOthers, TabAction::Close] {
        assert_eq!(TabAction::from_tag(a.tag()), Some(a));
    }
    assert_eq!(TabAction::from_tag(8), None);
}

#[test]
fn menus_offer_what_fits_the_pane() {
    let mut v = window(vec![tab(1, &[(1, 0), (2, 1)])]);
    v.tabs[0].panes[0].agent.working = true;
    v.bookmark_keys = vec!["/w".to_string()];
    v.tabs[0].panes[0].term.cwd = Some("/w".to_string());
    let s = v.open_pane_menu(1).unwrap();
    assert_eq!(v.sidebar.menu_pane, 1);
    assert!(s.working && s.bookmarked && !s.bare);
    assert_eq!(s.title, "pane 1");
    let tags: Vec<isize> = pane_menu_rows(&s, "Codex")
        .iter()
        .filter_map(|r| match r {
            MenuRow::Item(_, tag) => Some(*tag),
            _ => None,
        })
        .collect();
    assert!(tags.contains(&PaneAction::Stop.tag()) && tags.contains(&PaneAction::Close.tag()));
    assert!(!tags.contains(&PaneAction::StartClaude.tag()));
    assert!(v.open_pane_menu(9).is_none());
    assert_eq!(v.sidebar.menu_pane, 1);
    assert!(!tab_menu_rows().is_empty() && color_menu_rows(Some(2)).len() > PALETTE_SIZE as usize);
}

#[test]
fn the_tab_bar_offers_the_palette_and_none() {
    let mut v = window(vec![tab(1, &[(1, 0)]), tab(2, &[(2, 0)])]);
    let rows = v.show_tab_color_menu(1);
    assert_eq!(v.pointer.color_menu_tab, 1);
    assert_eq!(rows.len(), 8);
    assert_eq!(rows[6], MenuRow::Separator);
    assert_eq!(rows[7], MenuRow::Item("Aucune".to_string(), -1));
}

#[test]
fn the_layout_toggles_and_is_remembered() {
    let mut v = KovaView::new(60);
    let mut s = LayoutSetting { mode: 0, width_pt: 200, min_width: 100, max_width: 400 };
    assert_eq!(v.set_layout_mode(&mut s, LayoutMode::Tabs), None);
    assert!(v.effects.is_empty());
    assert_eq!(
        v.toggle_layout_mode(&mut s),
        Some(LayoutPrefs { mode: Some(LayoutMode::Sidebar), sidebar_width: Some(200) })
    );
    assert_eq!(v.effects, vec![Effect::Relayout]);
    v.toggle_layout_mode(&mut s);
    assert_eq!(s.mode, 0);
}

#[test]
fn headers_fold_switch_and_move() {
    let mut v = window(vec![tab(1, &[(1, 0)]), tab(2, &[(2, 0)]), tab(3, &[(3, 0)])]);
    v.sidebar_header_clicked(0);
    assert!(v.tabs[0].collapsed);
    v.sidebar_header_clicked(2);
    assert_eq!(v.active_tab, 2);
    v.effects.clear();
    // Dropping a header on itself moves nothing.
    v.sidebar_reorder_tab(1, 1);
    v.sidebar_reorder_tab(1, 2);
    assert!(v.effects.is_empty());
    v.sidebar_reorder_tab(0, 3);
    assert_eq!(v.tabs.iter().map(|t| t.id).collect::<Vec<_>>(), vec![2, 3, 1]);
    // The active tab stays active.
    assert_eq!(v.tabs[v.active_tab].id, 3);
    v.sidebar_toggle_collapsed(9);
}

#[test]
fn a_dropped_tile_moves_within_its_column() {
    let mut v = window(vec![tab(1, &[(9, 0), (1, 1), (2, 1), (3, 1), (4, 1)])]);
    v.sidebar_drop_pane(0, &vec![1, 2, 3, 4], 0, 2);
    assert_eq!(ids(&v.tabs[0]), vec![(9, 0), (2, 1), (3, 1), (1, 1), (4, 1)]);
    assert_eq!(v.effects, vec![Effect::DirtyTab(1), Effect::ResizePanes, Effect::MarkDirty]);
    v.sidebar_drop_pane(0, &vec![2, 3, 1, 4], 3, 0);
    assert_eq!(ids(&v.tabs[0]), vec![(9, 0), (4, 1), (2, 1), (3, 1), (1, 1)]);
    v.effects.clear();
    v.sidebar_drop_pane(0, &vec![4, 2], 1, 1);
    v.sidebar_drop_pane(7, &vec![4, 2], 0, 1);
    assert!(v.effects.is_empty());
}

#[test]
fn the_pill_jumps_only_with_a_badge() {
    let mut v = window(vec![tab(1, &[(1, 0)])]);
    v.sidebar_next_pill_clicked(&vec![(5, false)], &vec![]);
    assert!(v.effects.is_empty());
    v.sidebar_next_pill_clicked(&vec![(5, true)], &vec![]);
    assert_eq!(v.effects[0], Effect::FocusElsewhere(5));
    v.effects.clear();
    v.sidebar_next_pill_clicked(&vec![(5, false)], &vec![5]);
    assert_eq!(v.effects[0], Effect::FocusElsewhere(5));
}

#[test]
fn a_tile_stops_starts_and_resumes() {
    let mut v = window(vec![tab(1, &[(1, 0), (2, 1)])]);
    v.tabs[0].panes[0].agent.waits.since = Some(1);
    v.dispatch_pane_action(1, PaneAction::Stop, facts());
    assert_eq!(status(&v), "Stopped");
    assert_eq!(v.effects[0], Effect::Write(1, "\x03".to_string()));
    assert_eq!(v.tabs[0].panes[0].agent.waits.since, None);
    v.dispatch_pane_action(1, PaneAction::StartClaude, facts());
    assert_eq!(status(&v), "Something already runs in this pane");
    v.tabs[0].panes[0].term.bare_shell = true;
    v.effects.clear();
    v.dispatch_pane_action(1, PaneAction::StartClaude, facts());
    assert_eq!(v.effects, vec![Effect::Write(1, "codex\r".to_string()), Effect::MarkDirty]);
    let resume = || PaneActionFacts { resume: Some("codex resume x".to_string()), ..facts() };
    v.dispatch_pane_action(1, PaneAction::Resume, resume());
    assert_eq!(status(&v), "Nothing to resume in this pane");
    v.tabs[0].panes[0].agent.restored = Some(("codex".to_string(), "x".to_string()));
    v.effects.clear();
    v.dispatch_pane_action(1, PaneAction::Resume, resume());
    assert_eq!(v.effects[0], Effect::Write(1, "\x15codex resume x\r".to_string()));
    v.dispatch_pane_action(1, PaneAction::Resume, facts());
    assert_eq!(status(&v), "Nothing to resume in this pane");
    v.tabs[0].panes[0].term.bare_shell = false;
    v.effects.clear();
    v.dispatch_pane_action(1, PaneAction::Resume, resume());
    assert_eq!(status(&v), "Something already runs in this pane");
    assert!(!v.effects.iter().any(|e| matches!(e, Effect::Write(_, _))));
}

#[test]
fn a_working_pane_is_closed_only_when_confirmed() {
    let mut v = window(vec![tab(1, &[(1, 0), (2, 1)])]);
    assert_eq!(v.close_pane_question(1), None);
    v.tabs[0].panes[0].agent.working = true;
    assert_eq!(v.close_pane_question(1).as_deref(), Some("Close pane 1?"));
    v.dispatch_pane_action(1, PaneAction::Close, facts());
    assert_eq!(v.tabs[0].panes.len(), 2);
    v.dispatch_pane_action(1, PaneAction::Close, PaneActionFacts { confirmed: true, ..facts() });
    assert_eq!(ids(&v.tabs[0]), vec![(2, 0)]);
    v.dispatch_pane_action(2, PaneAction::Close, facts());
    assert_eq!(status(&v), "Cannot close the last pane");
}

#[test]
fn tile_actions_focus_first() {
    let mut v = window(vec![tab(1, &[(1, 0)]), tab(2, &[(2, 0), (3, 1)])]);
    v.sidebar.menu_pane = 3;
    v.sidebar_pane_menu_picked(PaneAction::Rename.tag(), facts());
    assert_eq!((v.active_tab, v.tabs[1].focused_pane), (1, 3));
    assert!(v.overlays.rename_pane.is_some());
    v.sidebar_pane_menu_picked(PaneAction::Minimize.tag(), facts());
    assert!(v.tabs[1].panes[1].minimized);
    v.sidebar_pane_menu_picked(PaneAction::Restore.tag(), facts());
    assert!(!v.tabs[1].panes[1].minimized);
    v.effects.clear();
    v.sidebar_pane_menu_picked(99, facts());
    assert!(v.effects.is_empty());
    v.dispatch_pane_action(77, PaneAction::Open, facts());
    assert_eq!(v.effects, vec![Effect::MarkDirty]);
}

#[test]
fn header_actions_colour_fold_split_and_close() {
    let mut v = window(vec![tab(1, &[(1, 0)]), tab(2, &[(2, 0)]), tab(3, &[(3, 0)])]);
    v.open_tab_menu(1);
    v.sidebar_tab_menu_picked(TabAction::Color(4).tag(), tab_facts());
    assert_eq!(v.tabs[1].color, Some(4));
    v.run_tab_action(1, TabAction::NoColor, tab_facts());
    assert_eq!(v.tabs[1].color, None);
    v.run_tab_action(1, TabAction::CollapseOthers, tab_facts());
    assert_eq!(v.tabs.iter().map(|t| t.collapsed).collect::<Vec<_>>(), vec![true, false, true]);
    v.run_tab_action(2, TabAction::Rename, tab_facts());
    assert_eq!(v.active_tab, 2);
    assert_eq!(v.overlays.rename_tab.as_ref().unwrap().input, "tab 3");
    v.run_tab_action(1, TabAction::AddPane, TabActionFacts { new: Some(pane(8, 0)), confirmed: false });
    assert_eq!(ids(&v.tabs[1]), vec![(2, 0), (8, 1)]);
    v.run_tab_action(0, TabAction::Close, tab_facts());
    assert_eq!(v.tabs.iter().map(|t| t.id).collect::<Vec<_>>(), vec![2, 3]);
}

#[test]
fn the_sidebar_follows_the_focus_and_flashes_when_all_is_read() {
    let mut v = window(vec![tab(1, &[(1, 0)])]);
    v.sidebar.shown = true;
    let m = v.sync_sidebar(2, 0, 0).unwrap();
    assert_eq!(m.pill, NextPill::Next(2));
    assert!(v.effects.contains(&Effect::RevealTile(0, 1)));
    v.effects.clear();
    let m = v.sync_sidebar(0, 0, 0).unwrap();
    assert_eq!(m.pill, NextPill::CaughtUp);
    assert!(v.effects.is_empty());
    v.sidebar_toggle_sort();
    assert_eq!(v.sidebar_sort(), SidebarSort::Activity);
    v.set_sidebar_sort(SidebarSort::Kova);
    assert!(v.sidebar_active());
    for _ in 0..200 {
        v.sync_sidebar(0, 0, 0);
    }
    assert_eq!(v.sync_sidebar(0, 0, 0).unwrap().pill, NextPill::Nothing);
}

#[test]
fn facts_come_from_the_tabs() {
    let mut v = window(vec![tab(1, &[(1, 0), (2, 1)])]);
    v.tabs[0].panes[1].agent.working = true;
    v.tabs[0].color = Some(3);
    v.tabs[0].custom_title = Some("named".to_string());
    let f = v.sidebar_tab_facts();
    assert_eq!(f.len(), 1);
    assert_eq!((f[0].tab_id, f[0].color, f[0].title.as_str()), (1, Some(3), "named"));
    assert!(f[0].panes[0].focused && !f[0].panes[1].focused);
    assert!(f[0].panes[1].flags.working);
}
