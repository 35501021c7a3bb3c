use kova::mouse::{
    axis_lock, clears_selection, drag_selection, drag_speed, grid_pos_at, mouse_modifiers,
    report_cell, route_button, route_move, route_wheel, sgr_mouse, start_selection, visible_cell,
    GridPos, GridView, MouseMode, MouseRoute, Release, ScrollAxisLock, ScrollPhases, SelectionMode,
};
use kova::pane::{AgentFacts, Pane, Tab, TermFacts, WaitFacts};
use kova::view::{Effect, HoveredUrl, KovaView};

fn pane(id: u32, column: usize) -> Pane {
    Pane {
        id,
        column,
        minimized: false,
        custom_title: None,
        osc1_title: None,
        pending_command: None,
        bell: false,
        completed: false,
        completion_seen: false,
        marked_unread: false,
        term: TermFacts {
            display_title: format!("pane {id}"),
            title: None,
            cwd: None,
            git_branch: None,
            process: None,
            last_command: None,
            pid: 1000 + id,
            children: vec![],
            cols: 80,
            rows: 24,
            focus_reporting: false,
            ready: true,
            live: true,
            exited: false,
            bare_shell: false,
            has_selection: false,
            in_alt_screen: false,
        },
        agent: AgentFacts {
            kind: None,
            session_id: None,
            session_name: None,
            claude_session_id: None,
            claude_session_name: None,
            restored: None,
            working: false,
            starting: false,
            idle: false,
            permission_prompt: false,
            prompt_unseen: false,
            turn_end_unseen: false,
            waits: WaitFacts { since: None, seen: false, preview: None },
        },
    }
}

/// A tab of panes given as (id, column), the first focused.
fn tab(id: u32, panes: &[(u32, usize)]) -> Tab {
    Tab {
        id,
        panes: panes.iter().map(|&(p, c)| pane(p, c)).collect(),
        focused_pane: panes[0].0,
        custom_title: None,
        auto_title: format!("tab {id}"),
        color: None,
        collapsed: false,
        has_bell: false,
        has_completion: false,
        has_running: false,
        minimized_stack: vec![],
    }
}

fn window(tabs: Vec<Tab>) -> KovaView {
    let mut v = KovaView::new(60);
    v.tabs = tabs;
    v
}

#[test]
fn mouse_reports_carry_the_button_the_modifiers_and_the_cell() {
    assert_eq!(mouse_modifiers(true, true, true), 4 | 8 | 16);
    assert_eq!(sgr_mouse(0, 0, 3, 7, true, false), "\x1b[<0;3;7M");
    assert_eq!(sgr_mouse(2, 16, 1, 1, false, false), "\x1b[<18;1;1m");
    assert_eq!(sgr_mouse(3, 0, 10, 20, true, true), "\x1b[<35;10;20M");
}

#[test]
fn a_program_gets_only_the_reports_it_asked_for() {
    let off = MouseMode { level: 0, sgr: true };
    let clicks = MouseMode { level: 1000, sgr: true };
    let all = MouseMode { level: 1003, sgr: true };
    let cell = Some((2, 3));
    assert_eq!(route_button(off, 0, 0, cell, true, false), MouseRoute::Window);
    assert_eq!(
        route_button(clicks, 0, 0, cell, true, false),
        MouseRoute::Program("\x1b[<0;2;3M".to_string())
    );
    assert_eq!(route_button(clicks, 0, 0, cell, true, true), MouseRoute::Window);
    assert_eq!(route_move(clicks, 0, cell), MouseRoute::Window);
    assert_eq!(
        route_move(all, 0, cell),
        MouseRoute::Program("\x1b[<35;2;3M".to_string())
    );
    assert_eq!(
        route_wheel(clicks, 2, 0, cell),
        MouseRoute::Program("\x1b[<64;2;3M\x1b[<64;2;3M".to_string())
    );
    assert_eq!(
        route_wheel(clicks, -1, 0, cell),
        MouseRoute::Program("\x1b[<65;2;3M".to_string())
    );
    assert_eq!(route_wheel(off, -1, 0, cell), MouseRoute::Window);
}

#[test]
fn a_scroll_keeps_to_the_axis_it_began_on() {
    let none = ScrollPhases { began: false, ended: false, momentum: false, momentum_ended: false };
    let began = ScrollPhases { began: true, ..none };
    assert_eq!(axis_lock(ScrollAxisLock::Free, began, true), ScrollAxisLock::Vertical);
    assert_eq!(axis_lock(ScrollAxisLock::Vertical, began, false), ScrollAxisLock::Horizontal);
    assert_eq!(axis_lock(ScrollAxisLock::Vertical, none, false), ScrollAxisLock::Vertical);
    let ended = ScrollPhases { ended: true, ..none };
    assert_eq!(axis_lock(ScrollAxisLock::Vertical, ended, true), ScrollAxisLock::Free);
    let fling = ScrollPhases { ended: true, momentum: true, ..none };
    assert_eq!(axis_lock(ScrollAxisLock::Vertical, fling, true), ScrollAxisLock::Vertical);
    assert_eq!(drag_speed(0, true), -1);
    assert_eq!(drag_speed(50, false), 10);
    assert_eq!(drag_speed(4, false), 4);
}

#[test]
fn clicks_select_a_cell_a_word_or_a_line() {
    let at = GridPos { line: 5, col: 8 };
    let s = start_selection(at, 1, (6, 9), 79);
    assert_eq!((s.anchor, s.end, s.mode), (at, at, SelectionMode::Normal));
    assert!(clears_selection(s));
    let s = start_selection(at, 2, (6, 9), 79);
    assert_eq!((s.anchor.col, s.end.col, s.mode), (6, 9, SelectionMode::Word));
    assert!(!clears_selection(s));
    let line = start_selection(at, 3, (6, 9), 79);
    assert_eq!((line.anchor.col, line.end.col, line.mode), (0, 79, SelectionMode::Line));
    // Dragging up and back selects the line again.
    let up = drag_selection(line, GridPos { line: 2, col: 4 }, (0, 0), 79, 79);
    assert_eq!((up.anchor.col, up.end), (79, GridPos { line: 2, col: 0 }));
    let back = drag_selection(up, at, (6, 9), 79, 79);
    assert_eq!(back, line);
    let moved = drag_selection(start_selection(at, 1, (6, 9), 79), GridPos { line: 6, col: 1 }, (0, 0), 79, 79);
    assert_eq!(moved.end, GridPos { line: 6, col: 1 });
}

#[test]
fn a_cell_is_found_under_the_pointer() {
    let g = GridView { cols: 80, rows: 24, blank_rows: 2, scrollback: 100, offset: 10 };
    assert_eq!(visible_cell(g, 5, 2), Some((0, 5)));
    assert_eq!(visible_cell(g, 5, 1), None);
    assert_eq!(visible_cell(g, -1, 5), None);
    assert_eq!(visible_cell(g, 500, 25), Some((23, 79)));
    assert_eq!(visible_cell(g, 0, 26), None);
    assert_eq!(grid_pos_at(g, 5, 4), Some(GridPos { line: 92, col: 5 }));
    assert_eq!(grid_pos_at(g, 5, 26), None);
    assert_eq!(report_cell(g, 0, 2), Some((1, 1)));
    assert_eq!(report_cell(g, 99, 99), Some((80, 24)));
    assert_eq!(report_cell(g, 0, 1), None);
}

fn link() -> HoveredUrl {
    HoveredUrl { pane_id: 1, segments: vec![(3, 4, 9)], url: "https://x".to_string() }
}

#[test]
fn a_link_shows_while_the_command_key_is_held() {
    let mut v = window(vec![tab(1, &[(1, 0)])]);
    v.update_hovered_url(false, Some(link()));
    assert!(v.pointer.hovered_url.is_none());
    v.effects.clear();
    v.update_hovered_url(true, Some(link()));
    assert_eq!(v.effects, vec![Effect::LinkCursor, Effect::MarkDirty]);
    v.effects.clear();
    v.update_hovered_url(true, Some(link()));
    assert!(v.effects.is_empty());
    assert!(v.open_hovered_url());
    assert_eq!(v.effects, vec![Effect::OpenUrl("https://x".to_string())]);
    v.flags_changed(false);
    assert!(v.pointer.hovered_url.is_none());
    assert!(!v.open_hovered_url());
    v.flags_changed(true);
    assert!(v.pointer.cmd_held);
}

#[test]
fn a_link_stays_as_it_was_without_a_tab() {
    let mut v = window(vec![]);
    v.pointer.hovered_url = Some(link());
    v.update_hovered_url(true, None);
    assert!(v.pointer.cmd_held && v.effects.is_empty());
    assert_eq!(v.pointer.hovered_url, Some(link()));
    v.update_hovered_url(false, None);
    assert_eq!(v.effects, vec![Effect::ArrowCursor, Effect::MarkDirty]);
    assert!(v.pointer.hovered_url.is_none() && !v.pointer.cmd_held);
    // With a tab, a pointer off every link lets go of it.
    let mut v = window(vec![tab(1, &[(1, 0)])]);
    v.pointer.hovered_url = Some(link());
    v.update_hovered_url(true, None);
    assert!(v.pointer.hovered_url.is_none());
}

#[test]
fn a_click_focuses_a_pane_and_unfolds_a_folded_one() {
    let mut v = window(vec![tab(1, &[(1, 0), (2, 1), (3, 2)])]);
    v.tabs[0].panes[1].bell = true;
    assert!(v.click_pane(2));
    assert_eq!(v.tabs[0].focused_pane, 2);
    assert!(!v.click_pane(9));
    v.tabs[0].panes[2].minimized = true;
    v.tabs[0].minimized_stack = vec![3];
    assert!(!v.click_pane(3));
    assert!(!v.tabs[0].panes[2].minimized);
}

#[test]
fn a_dragged_tab_changes_places() {
    let mut v = window(vec![tab(1, &[(1, 0)]), tab(2, &[(2, 0)]), tab(3, &[(3, 0)])]);
    v.press_tab(2);
    assert_eq!((v.active_tab, v.pointer.drag_tab), (2, Some(2)));
    v.drag_tab_to(None);
    v.drag_tab_to(Some(0));
    assert_eq!(v.tabs.iter().map(|t| t.id).collect::<Vec<_>>(), vec![3, 2, 1]);
    assert_eq!((v.active_tab, v.pointer.drag_tab), (0, Some(0)));
    assert_eq!(v.mouse_up(true), Release::EndTabDrag);
    assert_eq!(v.mouse_up(true), Release::EndSeparatorDrag);
    assert_eq!(v.mouse_up(false), Release::Pass);
    v.pointer.color_menu_tab = 1;
    v.tab_color_selected(4);
    assert_eq!(v.tabs[1].color, Some(4));
    v.tab_color_selected(-1);
    assert_eq!(v.tabs[1].color, None);
}
