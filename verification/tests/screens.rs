use kova::pane::{AgentFacts, Pane, Tab, TermFacts, WaitFacts};
use kova::recent::{build_items, RecentLook, RecentProject};
use kova::tabs::OtherWindow;
use kova::view::{Effect, KeyPress, KovaView, SavedTab, KEY_BACKSPACE, KEY_DOWN, KEY_ENTER, KEY_ESCAPE};

fn pane(id: u32, column: usize) -> Pane {
    Pane {
        id,
        column,
        minimized: false,
        custom_title: None,
        osc1_title: None,
        pending_command: None,
        bell: false,
        completed: false,
        completion_seen: false,
        marked_unread: false,
        term: TermFacts {
            display_title: format!("pane {id}"),
            title: None,
            cwd: None,
            git_branch: None,
            process: None,
            last_command: None,
            pid: 1000 + id,
            children: vec![],
            cols: 80,
            rows: 24,
            focus_reporting: false,
            ready: true,
            live: true,
            exited: false,
            bare_shell: false,
            has_selection: false,
            in_alt_screen: false,
        },
        agent: AgentFacts {
            kind: None,
            session_id: None,
            session_name: None,
            claude_session_id: None,
            claude_session_name: None,
            restored: None,
            working: false,
            starting: false,
            idle: false,
            permission_prompt: false,
            prompt_unseen: false,
            turn_end_unseen: false,
            waits: WaitFacts { since: None, seen: false, preview: None },
        },
    }
}

/// A tab of panes given as (id, column), the first focused.
fn tab(id: u32, panes: &[(u32, usize)]) -> Tab {
    Tab {
        id,
        panes: panes.iter().map(|&(p, c)| pane(p, c)).collect(),
        focused_pane: panes[0].0,
        custom_title: None,
        auto_title: format!("tab {id}"),
        color: None,
        collapsed: false,
        has_bell: false,
        has_completion: false,
        has_running: false,
        minimized_stack: vec![],
    }
}

fn window(tabs: Vec<Tab>) -> KovaView {
    let mut v = KovaView::new(60);
    v.tabs = tabs;
    v
}

fn key(code: u16) -> KeyPress {
    KeyPress { code, ch: ' ', cmd: false, ctrl: false, option: false }
}

fn saved_tab_with_panes(n: u32) -> SavedTab {
    SavedTab { panes: n, data: format!("{n} panes") }
}

fn project(path: &str, n: u32) -> RecentProject {
    RecentProject {
        key: path.to_string(),
        path: path.to_string(),
        last_opened: 0,
        title: None,
        color: None,
        cwds: vec![path.to_string()],
        tab: saved_tab_with_panes(n),
    }
}

fn look(path: &str, is_dir: bool) -> RecentLook {
    RecentLook { path: path.to_string(), time_ago: "now".to_string(), is_dir }
}

#[test]
fn build_items_flags_a_project_whose_directory_is_gone() {
    // The overlay greys out an entry it can no longer reopen, so `invalid` is
    // read off the filesystem, not off the saved session.
    let is_dir = |p: &str| std::path::Path::new(p).is_dir();
    let items = build_items(vec![
        (project("/", 2), look("/", is_dir("/"))),
        (
            project("/kova-no-such-directory", 1),
            look("/kova-no-such-directory", is_dir("/kova-no-such-directory")),
        ),
    ]);
    assert_eq!(items.len(), 2);
    assert!(!items[0].render.invalid, "/ exists");
    assert!(items[1].render.invalid, "a missing directory is flagged");
    // The pane count shown on the row comes from the saved tab.
    assert_eq!(items[0].render.pane_count, 2);
    assert_eq!(items[1].render.pane_count, 1);
    // The entry itself is carried through untouched, since selecting the row
    // restores it.
    assert_eq!(items[1].entry.path, "/kova-no-such-directory");
}

#[test]
fn closed_projects_are_offered_opened_and_forgotten() {
    let mut v = window(vec![tab(1, &[(1, 0)])]);
    let entries = vec![
        (project("/open", 1), look("/open", true)),
        (project("/a", 1), look("/a", true)),
        (project("/gone", 1), look("/gone", false)),
    ];
    v.do_open_recent_projects(entries, &vec!["/open".to_string()]);
    assert_eq!(v.overlays.recent_projects.as_ref().unwrap().items.len(), 2);
    v.handle_recent_projects_key(key(KEY_DOWN));
    assert_eq!(v.overlays.recent_projects.as_ref().unwrap().selected, 1);
    // A project whose directory is gone does not open.
    v.effects.clear();
    v.handle_recent_projects_key(key(KEY_ENTER));
    assert!(v.overlays.recent_projects.is_some() && v.effects.is_empty());
    v.handle_recent_projects_key(key(KEY_BACKSPACE));
    assert_eq!(v.overlays.recent_projects.as_ref().unwrap().items.len(), 2);
    v.handle_recent_projects_key(KeyPress { cmd: true, ..key(KEY_BACKSPACE) });
    assert_eq!(v.overlays.recent_projects.as_ref().unwrap().items.len(), 1);
    assert!(v.effects.contains(&Effect::ForgetProject("/gone".to_string())));
    v.effects.clear();
    v.handle_recent_projects_key(key(KEY_ENTER));
    assert!(v.overlays.recent_projects.is_none());
    assert!(matches!(v.effects[0], Effect::RestoreProject(ref p) if p.path == "/a"));
    v.effects.clear();
    v.restore_recent_project(Some(tab(2, &[(2, 0)])));
    assert_eq!((v.tabs.len(), v.active_tab), (2, 1));
    assert_eq!(v.effects, vec![Effect::AdoptScale(2), Effect::ResizePanes]);
    v.do_open_recent_projects(vec![], &vec![]);
    v.handle_recent_projects_key(key(KEY_ESCAPE));
    assert!(v.overlays.recent_projects.is_none());
}

#[test]
fn rows_and_items_show_the_caret_of_an_editor() {
    let mut v = window(vec![tab(1, &[(1, 0), (2, 1)]), tab(2, &[(3, 0)])]);
    v.tabs[0].panes[1].bell = true;
    v.start_rename_pane();
    let rows = v.pane_rows();
    assert_eq!(rows.len(), 2);
    assert!(rows[0].is_focused && !rows[1].is_focused && rows[1].has_bell);
    assert_eq!(rows[0].custom_title.as_deref(), Some("\u{258f}"));
    v.overlays.rename_pane = None;
    v.start_rename_tab();
    let items = v.tab_items();
    assert_eq!(items[0].title, "tab 1\u{258f}");
    assert!(items[0].is_renaming && items[0].is_active && !items[1].is_renaming);
    assert_eq!(items[1].title, "tab 2");
}

#[test]
fn the_focus_is_placed_among_columns_and_tabs() {
    let mut v = window(vec![tab(1, &[(1, 0), (2, 1)]), tab(2, &[(3, 0)])]);
    v.tabs[0].focused_pane = 2;
    let p = v.focus_place().unwrap();
    assert_eq!(
        (p.focused_column, p.total_columns, p.active_tab, p.total_tabs, p.tab_title.as_str()),
        (2, 2, 1, 2, "tab 1")
    );
}

#[test]
fn the_pickers_share_one_list() {
    let mut v = window(vec![tab(1, &[(1, 0)]), tab(2, &[(2, 0)]), tab(3, &[(3, 0)])]);
    assert_eq!(v.overlay_list(), None);
    v.do_merge_tab();
    let l = v.overlay_list().unwrap();
    assert_eq!((l.title.as_str(), l.has_new_entry), ("Merge Tab Into", false));
    assert_eq!(l.entries.len(), 2);
    v.do_detach_tab(vec![OtherWindow { index: 0, label: "w".to_string() }]);
    let l = v.overlay_list().unwrap();
    assert_eq!((l.title.as_str(), l.has_new_entry), ("Send Tab to Window", true));
}

#[test]
fn dropped_files_go_under_the_pointer_else_to_the_focus() {
    let mut v = window(vec![tab(1, &[(1, 0), (2, 1)])]);
    assert!(!v.handle_file_drop(&vec![], None));
    assert!(v.handle_file_drop(&vec!["/a b".to_string()], Some(2)));
    assert_eq!(v.effects, vec![Effect::ResetScroll(2), Effect::Write(2, "'/a b' ".to_string())]);
    v.effects.clear();
    assert!(v.handle_file_drop(&vec!["/a".to_string()], None));
    assert_eq!(v.effects[1], Effect::Write(1, "/a ".to_string()));
}

#[test]
fn a_fresh_window_is_empty() {
    let v = KovaView::new(30);
    assert!(v.tabs.is_empty() && v.effects.is_empty() && !v.skip_session_save());
    assert!(v.focused_pane().is_none());
    assert_eq!(v.frame.fps, 30);
    let w = window(vec![tab(4, &[(1, 0)]), tab(5, &[(2, 0)])]);
    assert_eq!((w.find_tab(5), w.find_tab_of(2), w.find_tab_of(9)), (1, 1, 2));
}
