use kova::pane::{AgentFacts, Pane, Tab, TermFacts, WaitFacts};
use kova::resize::{MAX_BAND_REPAIRS, RESTORE_FRAMES};
use kova::tick::drag_selection_end;
use kova::view::{Effect, KovaView, PaneTimer, ResizeFeedback, ResizeMode};

fn pane(id: u32, column: usize) -> Pane {
    Pane {
        id,
        column,
        minimized: false,
        custom_title: None,
        osc1_title: None,
        pending_command: None,
        bell: false,
        completed: false,
        completion_seen: false,
        marked_unread: false,
        term: TermFacts {
            display_title: format!("pane {id}"),
            title: None,
            cwd: None,
            git_branch: None,
            process: None,
            last_command: None,
            pid: 1000 + id,
            children: vec![],
            cols: 80,
            rows: 24,
            focus_reporting: false,
            ready: true,
            live: true,
            exited: false,
            bare_shell: false,
            has_selection: false,
            in_alt_screen: false,
        },
        agent: AgentFacts {
            kind: None,
            session_id: None,
            session_name: None,
            claude_session_id: None,
            claude_session_name: None,
            restored: None,
            working: false,
            starting: false,
            idle: false,
            permission_prompt: false,
            prompt_unseen: false,
            turn_end_unseen: false,
            waits: WaitFacts { since: None, seen: false, preview: None },
        },
    }
}

/// A tab of panes given as (id, column), the first focused.
fn tab(id: u32, panes: &[(u32, usize)]) -> Tab {
    Tab {
        id,
        panes: panes.iter().map(|&(p, c)| pane(p, c)).collect(),
        focused_pane: panes[0].0,
        custom_title: None,
        auto_title: format!("tab {id}"),
        color: None,
        collapsed: false,
        has_bell: false,
        has_completion: false,
        has_running: false,
        minimized_stack: vec![],
    }
}

fn window(tabs: Vec<Tab>) -> KovaView {
    let mut v = KovaView::new(60);
    v.tabs = tabs;
    v
}

fn ids(t: &Tab) -> Vec<(u32, usize)> {
    t.panes.iter().map(|p| (p.id, p.column)).collect()
}

#[test]
fn exited_panes_are_reaped_and_an_empty_window_ends() {
    let mut v = window(vec![tab(1, &[(1, 0), (2, 1)]), tab(2, &[(3, 0)])]);
    v.active_tab = 1;
    v.tabs[0].panes[0].term.exited = true;
    v.tabs[1].panes[0].term.exited = true;
    assert!(v.reap_exited());
    assert_eq!(v.tabs.len(), 1);
    assert_eq!(ids(&v.tabs[0]), vec![(2, 0)]);
    assert_eq!((v.active_tab, v.tabs[0].focused_pane), (0, 2));
    v.tabs[0].panes[0].term.exited = true;
    assert!(!v.reap_exited());
    assert!(v.tabs.is_empty());
}

#[test]
fn a_frame_marks_the_tabs_and_takes_sticky_titles() {
    let mut v = window(vec![tab(1, &[(1, 0), (2, 1)]), tab(2, &[(3, 0)])]);
    v.frame.git_poll_interval = 120;
    v.tabs[0].panes[0].bell = true;
    v.tabs[0].panes[1].completed = true;
    v.tabs[0].panes[1].osc1_title = Some("sticky".to_string());
    v.tabs[1].panes[0].bell = true;
    assert!(v.tick(true, &vec![2]));
    // The focused pane's bell is acknowledged, the other tab's is marked.
    assert!(!v.tabs[0].panes[0].bell && !v.tabs[0].has_bell);
    assert!(v.tabs[1].has_bell && v.tabs[1].has_running && !v.tabs[0].has_running);
    assert!(v.tabs[0].has_completion);
    assert_eq!(v.tabs[0].panes[1].custom_title.as_deref(), Some("sticky"));
    assert_eq!(v.tabs[0].panes[1].osc1_title, None);
    v.closing = true;
    v.effects.clear();
    assert!(!v.tick(true, &vec![]));
    assert!(v.effects.is_empty());
}

#[test]
fn a_window_without_tabs_does_not_live_on() {
    let mut v = KovaView::new(60);
    assert!(!v.reap_exited());
    assert!(!v.tick(true, &vec![]));
    assert!(v.tabs.is_empty());
    assert_eq!((v.effects, v.frame.git_poll_counter), (vec![Effect::InjectPending], 1));
    let mut v = window(vec![tab(1, &[(1, 0)])]);
    v.tabs[0].panes[0].term.exited = true;
    assert!(!v.tick(true, &vec![]));
    assert!(v.tabs.is_empty());
    assert!(!v.tick(true, &vec![]));
}

#[test]
fn a_program_is_told_of_the_focus_once_per_change() {
    let mut v = window(vec![tab(1, &[(1, 0)])]);
    v.frame.git_poll_interval = 120;
    v.tabs[0].panes[0].term.focus_reporting = true;
    v.frame.last_focused = false;
    v.report_focus(true);
    assert_eq!(v.effects, vec![Effect::Write(1, "\x1b[I".to_string())]);
    v.report_focus(true);
    assert_eq!(v.effects.len(), 1);
    v.report_focus(false);
    assert_eq!(v.effects[1], Effect::Write(1, "\x1b[O".to_string()));
}

#[test]
fn the_window_title_follows_the_focused_pane() {
    let mut v = window(vec![tab(1, &[(1, 0)])]);
    v.update_window_title();
    assert!(v.effects.is_empty());
    v.tabs[0].panes[0].term.title = Some("vim".to_string());
    v.update_window_title();
    assert_eq!(v.effects, vec![Effect::SetTitle("Kova \u{2014} vim".to_string())]);
    v.tabs[0].panes[0].term.title = None;
    v.update_window_title();
    assert_eq!(v.effects[1], Effect::SetTitle("Kova".to_string()));
}

#[test]
fn branches_are_polled_and_noted() {
    let mut v = window(vec![tab(1, &[(1, 0)])]);
    v.frame.git_poll_interval = 2;
    v.count_git_poll();
    assert!(v.effects.is_empty());
    v.count_git_poll();
    assert_eq!(v.effects, vec![Effect::PollBranches]);
    assert_eq!(v.frame.git_poll_counter, 0);
    v.effects.clear();
    v.note_git_branch(1, Some("main".to_string()));
    assert!(v.effects.is_empty());
    v.tabs[0].panes[0].term.cwd = Some("/w".to_string());
    v.note_git_branch(1, Some("main".to_string()));
    assert_eq!(v.effects, vec![Effect::DirtyPane(1)]);
    v.note_git_branch(1, Some("main".to_string()));
    assert_eq!(v.effects.len(), 1);
    for _ in 0..30 {
        v.count_fg_poll();
    }
    assert_eq!(v.effects[1], Effect::PollProcesses);
}

#[test]
fn a_drag_scrolls_the_selection_to_the_edge() {
    assert_eq!(drag_selection_end(-3, 100, 10, 24, 80), (90, 0));
    assert_eq!(drag_selection_end(3, 100, 10, 24, 80), (113, 79));
    let mut v = window(vec![tab(1, &[(1, 0)])]);
    v.pointer.auto_scroll_speed = -2;
    v.auto_scroll();
    assert!(v.effects.is_empty());
    v.tabs[0].panes[0].term.has_selection = true;
    v.auto_scroll();
    assert_eq!(v.effects.len(), 1);
}

#[test]
fn a_repaint_nudges_the_size_and_puts_it_back() {
    let mut v = window(vec![tab(1, &[(1, 0)])]);
    v.do_repaint_pane();
    assert_eq!(
        v.resizes.pty_restore,
        vec![PaneTimer { pane_id: 1, remaining_frames: RESTORE_FRAMES }]
    );
    assert!(v.effects.iter().any(|e| matches!(e, Effect::PtyResize(1, c, r) if (*c, *r) != (80, 24))));
    v.effects.clear();
    for _ in 0..RESTORE_FRAMES {
        v.restore_winsizes();
    }
    assert_eq!(v.effects, vec![Effect::PtyResize(1, 80, 24)]);
    assert!(v.resizes.pty_restore.is_empty());
}

#[test]
fn panes_take_new_sizes_once() {
    let mut v = window(vec![tab(1, &[(1, 0), (2, 1)])]);
    v.resize_all_panes(&vec![(40, 24), (80, 24)], 10);
    assert_eq!((v.tabs[0].panes[0].term.cols, v.tabs[0].panes[1].term.cols), (40, 80));
    assert!(v.resizes.resize_settle.contains_key(&1));
    assert!(!v.resizes.resize_settle.contains_key(&2));
    v.effects.clear();
    v.resize_all_panes(&vec![(40, 24), (80, 24)], 20);
    assert!(v.effects.is_empty());
    // A burst that ended repaints the panes that did not repaint themselves.
    let frames = v.resizes.resize_settle[&1];
    for _ in 0..frames {
        v.fire_resize_settle_repaints(&vec![]);
    }
    assert!(v.effects.iter().any(|e| matches!(e, Effect::PtyResize(1, _, _))));
}

#[test]
fn repairs_of_a_band_stay_bounded() {
    let mut v = window(vec![tab(1, &[(1, 0)])]);
    v.tabs[0].panes[0].term.in_alt_screen = true;
    for _ in 0..5 {
        v.resizes.post_restore_checks = vec![PaneTimer { pane_id: 1, remaining_frames: 1 }];
        v.fire_post_restore_band_checks(&vec![1]);
    }
    assert_eq!(v.resizes.band_repair_attempts[&1], MAX_BAND_REPAIRS);
}

#[test]
fn counters_run_down_and_clear() {
    let mut v = window(vec![tab(1, &[(1, 0)])]);
    v.frame.transient_status = Some(("x".to_string(), 1));
    v.frame.help_hint_frames = 1;
    v.set_resize_feedback("Virtual", 100, 200);
    assert_eq!(
        v.frame.resize_feedback,
        Some(ResizeFeedback {
            mode: ResizeMode::Virtual,
            screen_w: 100,
            virtual_w: 200,
            remaining_frames: 120
        })
    );
    assert_eq!(
        v.resize_feedback_text().as_deref(),
        Some("Virtual \u{2014} screen 100px \u{2014} virtual 200px")
    );
    v.set_pane_flash(1, 2, None);
    v.count_down();
    assert_eq!(v.frame.help_hint_frames, 0);
    assert_eq!(v.frame.resize_feedback.unwrap().remaining_frames, 119);
    for _ in 0..200 {
        v.count_down();
    }
    assert!(v.frame.resize_feedback.is_none() && v.frame.pane_flash.is_none());
    assert!(v.frame.transient_status.is_none());
}

#[test]
fn a_resized_window_keeps_its_panes_as_wide() {
    let mut v = window(vec![tab(1, &[(1, 0)]), tab(2, &[(2, 0)])]);
    v.handle_resize(false, false);
    assert_eq!(
        v.effects,
        vec![Effect::ClampScroll(1), Effect::ClampScroll(2), Effect::ResizePanes]
    );
    v.effects.clear();
    v.handle_resize(true, true);
    assert_eq!(
        v.effects,
        vec![
            Effect::RebuildAtlas,
            Effect::AdoptScale(1),
            Effect::AdoptScale(2),
            Effect::PinWidth(1),
            Effect::PinWidth(2),
            Effect::ClampScroll(1),
            Effect::ClampScroll(2),
            Effect::ResizePanes,
        ]
    );
}

#[test]
fn a_pane_that_repainted_itself_is_not_nudged() {
    let mut v = window(vec![tab(1, &[(1, 0)])]);
    v.repaint_pane_settle(1, true);
    assert!(v.effects.is_empty());
    v.repaint_pane_settle(1, false);
    assert!(!v.effects.is_empty());
}
