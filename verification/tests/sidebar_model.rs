use kova::sidebar::{CollapsedSummary, NextPill, PaneFlags, SidebarSort, TileState};
use kova::sidebar_model::{
    header_title, pane_order, project_name, subtitle, tile_title, PaneFacts, PromptPreview,
    SidebarModel, TabFacts, TileVm,
};

fn pane(id: u32, flags: PaneFlags) -> PaneFacts {
    PaneFacts {
        pane_id: id,
        session_name: Some(format!("pane {id}")),
        agent: Some("codex".into()),
        cwd: "/Users/me/link".into(),
        flags,
        ..PaneFacts::default()
    }
}

fn tab(idx: usize, panes: Vec<PaneFacts>) -> TabFacts {
    TabFacts {
        tab_idx: idx,
        tab_id: 100 + idx as u32,
        title: format!("tab {idx}"),
        panes,
        ..TabFacts::default()
    }
}

#[test]
fn a_tile_carries_the_secondary_line_and_the_preview_of_its_state() {
    let mut f = pane(1, PaneFlags { permission_prompt: true, ..PaneFlags::default() });
    f.preview = Some(PromptPreview::Permission {
        header: "Bash command".into(),
        question: "Run it?".into(),
        detail: None,
        since: 1000,
        seen: false,
    });
    let t = TileVm::from_facts(&f, 1000 + 700);
    assert_eq!(t.state, TileState::Awaiting);
    assert!(t.awaiting());
    assert_eq!(t.title, "pane 1");
    assert_eq!(t.secondary, "link \u{b7} codex");
    assert_eq!(t.question.as_deref(), Some("Run it?"));
    // No detail: the header stands in.
    assert_eq!(t.detail.as_deref(), Some("Bash command"));
    assert_eq!(t.age, Some(("11m".into(), true)));
    assert_eq!(t.summary, None);

    // The turn-end summary only shows on an unread tile.
    let mut f = pane(2, PaneFlags { turn_end_unseen: true, ..PaneFlags::default() });
    f.preview = Some(PromptPreview::TurnEnd { summary: "Pushed the copy".into(), seen: false });
    let t = TileVm::from_facts(&f, 0);
    assert_eq!(t.state, TileState::Unread { bell: false });
    assert_eq!(t.summary.as_deref(), Some("Pushed the copy"));
    assert_eq!(t.age, None);
    let mut f = pane(
        3,
        PaneFlags { turn_end_unseen: true, seen: true, idle_agent: true, ..PaneFlags::default() },
    );
    f.preview = Some(PromptPreview::TurnEnd { summary: "Pushed the copy".into(), seen: true });
    let t = TileVm::from_facts(&f, 0);
    assert_eq!(t.state, TileState::Idle);
    assert_eq!(t.summary, None);
}

#[test]
fn the_session_name_wins_and_a_directory_never_titles_a_tile() {
    let cwd = "/Users/me/Projects/Acme";
    // A renamed session beats everything, the sticky title included.
    assert_eq!(
        tile_title(
            Some("Fix the login"),
            Some("codex"),
            Some("Codex CLI"),
            Some("codex"),
            None,
            cwd
        ),
        "Fix the login"
    );
    assert_eq!(
        tile_title(Some("  "), Some("my pane"), None, Some("codex"), None, cwd),
        "my pane"
    );
    // The shell's titles, head-cut cwd and prompt alike, are not names.
    assert_eq!(
        tile_title(
            None,
            Some("..jects/Acme"),
            Some("me@mac:~/Projects/Acme"),
            Some("codex"),
            None,
            cwd
        ),
        "codex"
    );
    assert_eq!(tile_title(None, Some("~/link"), None, None, None, "/Users/me/link"), "Shell");
    assert_eq!(tile_title(None, Some("~"), None, None, None, "/Users/me"), "Shell");
    assert_eq!(tile_title(None, Some("Acme"), None, None, None, cwd), "Shell");
    assert_eq!(tile_title(None, None, Some("me@mac:~"), None, None, "/Users/me"), "Shell");
    assert_eq!(tile_title(None, None, Some(cwd), None, None, cwd), "Shell");
    // The app's own title, then the process, then the fallback.
    assert_eq!(
        tile_title(None, None, Some("Codex CLI"), Some("codex"), None, cwd),
        "Codex CLI"
    );
    assert_eq!(
        tile_title(None, Some("codex"), Some("Codex CLI"), Some("codex"), None, cwd),
        "codex"
    );
    assert_eq!(tile_title(None, None, None, None, Some("nvim"), cwd), "nvim");
    assert_eq!(tile_title(None, None, None, None, None, cwd), "Shell");
    assert_eq!(tile_title(None, None, None, None, None, ""), "Shell");
}

#[test]
fn a_header_without_a_tab_name_takes_the_pane_name_then_its_project() {
    let mut p = PaneFacts {
        cwd: "/Users/me/Projects/Home".into(),
        custom_title: Some("..jects/Home".into()),
        ..PaneFacts::default()
    };
    assert_eq!(header_title(&p), "Home");
    p.session_name = Some("Taxes".into());
    assert_eq!(header_title(&p), "Taxes");
    let empty = PaneFacts::default();
    assert_eq!(header_title(&empty), "shell");
}

#[test]
fn the_subtitle_is_the_project_then_the_agent_unless_it_is_the_title() {
    assert_eq!(project_name("/Users/me/Projects/Acme"), "Acme");
    assert_eq!(project_name("/Users/me/link/"), "link");
    assert_eq!(project_name("/"), "/");
    assert_eq!(project_name(""), "");
    assert_eq!(subtitle("Acme", Some("codex"), "Fix the login"), "Acme \u{b7} codex");
    assert_eq!(subtitle("Acme", Some("codex"), "codex"), "Acme");
    assert_eq!(subtitle("Acme", None, "Shell"), "Acme");
    assert_eq!(subtitle("", Some("codex"), "Shell"), "codex");
    assert_eq!(subtitle("", None, "Shell"), "");
}

#[test]
fn a_restored_session_resumes_and_a_bare_shell_starts_claude() {
    // Restored: the resume line waits at the prompt, no agent yet.
    let restored = PaneFacts {
        pane_id: 1,
        bare_shell: true,
        resumable: true,
        agent: Some("codex".into()),
        custom_title: Some("..jects/Acme".into()),
        osc_title: Some("me@mac:~/Projects/Acme".into()),
        cwd: "/Users/me/Projects/Acme".into(),
        ..PaneFacts::default()
    };
    let t = TileVm::from_facts(&restored, 0);
    assert_eq!(t.state, TileState::Shell);
    assert!(t.resumable);
    assert!(!t.bare_shell);
    assert_eq!(t.chip(), "codex");
    assert_eq!(t.title, "codex");
    assert_eq!(t.secondary, "Acme");

    // A plain shell: `shell` chip and the start link.
    let bare = PaneFacts {
        pane_id: 2,
        bare_shell: true,
        cwd: "/Users/me/link".into(),
        ..PaneFacts::default()
    };
    let t = TileVm::from_facts(&bare, 0);
    assert!(t.bare_shell);
    assert!(!t.resumable);
    assert_eq!(t.chip(), "shell");
    assert_eq!(t.title, "Shell");
    assert_eq!(t.secondary, "link");

    // A live idle session keeps its state chip.
    let live = PaneFacts {
        pane_id: 3,
        flags: PaneFlags { idle_agent: true, ..PaneFlags::default() },
        session_name: Some("Sidebar identity".into()),
        agent: Some("codex".into()),
        cwd: "/Users/me/kova".into(),
        ..PaneFacts::default()
    };
    let t = TileVm::from_facts(&live, 0);
    assert_eq!(t.chip(), "idle");
    assert_eq!(t.title, "Sidebar identity");
    assert_eq!(t.secondary, "kova \u{b7} codex");
    assert!(!t.bare_shell && !t.resumable);

    // Renaming: the edit buffer is the title.
    let mut renaming = live.clone();
    renaming.edit = Some("Side\u{258f}".into());
    let t = TileVm::from_facts(&renaming, 0);
    assert_eq!(t.title, "Side\u{258f}");
    assert!(t.renaming);
}

#[test]
fn the_model_counts_the_window_and_folds_collapsed_groups() {
    let mut folded =
        tab(1, vec![pane(3, PaneFlags { working: true, ..PaneFlags::default() })]);
    folded.collapsed = true;
    let tabs = vec![
        tab(
            0,
            vec![
                pane(1, PaneFlags { permission_prompt: true, ..PaneFlags::default() }),
                pane(2, PaneFlags { idle_agent: true, ..PaneFlags::default() }),
            ],
        ),
        folded,
    ];
    let m = SidebarModel::build(&tabs, SidebarSort::Kova, 2, 0);
    let text: String = m.summary.iter().map(|(t, _)| t.as_str()).collect();
    assert_eq!(text, "1 waiting \u{b7} 1 working \u{b7} 1 idle");
    assert_eq!(m.pill, NextPill::Next(2));
    assert_eq!(m.groups.len(), 2);
    assert_eq!(m.groups[0].tiles.len(), 2);
    assert!(m.groups[1].tiles.is_empty());
    assert_eq!(m.groups[1].summary, CollapsedSummary { awaiting: 0, working: 1, count: 1 });
    assert_eq!(m.groups[1].tab_id, 101);
    // Three panes: no hint.
    assert!(!m.show_hint);
    assert_eq!(m.groups[0].tiles[1].state, TileState::Idle);
}

#[test]
fn folding_a_group_changes_that_group_alone() {
    let tabs = |folded: bool| {
        let mut t = vec![
            tab(0, vec![pane(1, PaneFlags::default())]),
            tab(1, vec![pane(2, PaneFlags { permission_prompt: true, ..PaneFlags::default() })]),
        ];
        t[1].collapsed = folded;
        t
    };
    for sort in [SidebarSort::Kova, SidebarSort::Activity] {
        let open = SidebarModel::build(&tabs(false), sort, 1, 0);
        let mut shut = SidebarModel::build(&tabs(true), sort, 1, 0);
        assert_ne!(open, shut);
        let at = shut.groups.iter().position(|g| g.tab_idx == 1).unwrap();
        assert!(shut.groups[at].collapsed && shut.groups[at].tiles.is_empty());
        shut.groups[at].collapsed = false;
        shut.groups[at].tiles = open.groups[at].tiles.clone();
        assert_eq!(open, shut);
    }
}

#[test]
fn activity_sort_reorders_the_groups_and_keeps_tab_indices() {
    let tabs = vec![
        tab(0, vec![pane(1, PaneFlags::default())]),
        tab(1, vec![pane(2, PaneFlags { permission_prompt: true, ..PaneFlags::default() })]),
    ];
    let m = SidebarModel::build(&tabs, SidebarSort::Activity, 0, 0);
    assert_eq!(m.groups.iter().map(|g| g.tab_idx).collect::<Vec<_>>(), vec![1, 0]);
    assert_eq!(m.pill, NextPill::Nothing);
    assert!(m.show_hint);
    let same = SidebarModel::build(&tabs, SidebarSort::Activity, 0, 0);
    assert_eq!(m, same);
}

#[test]
fn the_unread_walk_follows_the_display_order_and_skips_minimized_panes() {
    let unread = PaneFlags { completion: true, ..PaneFlags::default() };
    let mut folded_away = pane(4, unread);
    folded_away.minimized = true;
    let tabs = vec![
        tab(0, vec![pane(1, PaneFlags::default()), pane(2, unread), folded_away]),
        tab(
            1,
            vec![
                pane(
                    5,
                    PaneFlags {
                        permission_prompt: true,
                        prompt_unseen: true,
                        ..PaneFlags::default()
                    },
                ),
                pane(6, PaneFlags { manual: true, seen: true, ..PaneFlags::default() }),
            ],
        ),
        tab(2, vec![pane(7, PaneFlags { idle_agent: true, ..PaneFlags::default() })]),
    ];
    // Tab order: every pane but the minimized one, unread where something is
    // new or marked; the idle one is read.
    let unread = |order: Vec<(u32, bool)>| {
        order.into_iter().filter(|&(_, u)| u).map(|(id, _)| id).collect::<Vec<_>>()
    };
    let kova = pane_order(&tabs, SidebarSort::Kova);
    assert_eq!(kova.iter().map(|&(id, _)| id).collect::<Vec<_>>(), vec![1, 2, 5, 6, 7]);
    assert_eq!(unread(kova), vec![2, 5, 6]);
    // Activity order: the awaiting tab first.
    assert_eq!(unread(pane_order(&tabs, SidebarSort::Activity)), vec![5, 6, 2]);
    let m = SidebarModel::build(&tabs, SidebarSort::Kova, 3, 0);
    assert!(m.groups[0].tiles[1].unread && !m.groups[0].tiles[0].unread);
    assert!(m.groups[1].tiles[1].unread);
}

#[test]
fn the_model_takes_the_pill_it_is_given() {
    let m = SidebarModel::assemble(&[], SidebarSort::Kova, NextPill::CaughtUp, 0);
    assert_eq!(m.pill, NextPill::CaughtUp);
    assert!(m.show_hint);
    assert!(m.groups.is_empty());
}
