use kova::feather::Icon;
use kova::sidebar::{
    clamp_sidebar_width, display_order, drop_index, format_age, init, layout_mode, mode_to_u8,
    next_unread, persist, set_layout_mode, set_width_pt, start_label, summary_runs, swap_chain,
    width_pt, CollapsedSummary, LayoutConfig, LayoutMode, LayoutPrefs, LayoutSetting, NextPill,
    PaneFlags, SidebarSort, SummaryRun, TileButton, TileState, RESUME_LABEL, STOP_LABEL,
};

fn text(runs: &[(String, SummaryRun)]) -> String {
    runs.iter().map(|(t, _)| t.as_str()).collect::<String>()
}

#[test]
fn a_drop_replays_as_adjacent_swaps() {
    assert_eq!(swap_chain(4, 0, 2), vec![(0, 1), (1, 2)]);
    assert_eq!(swap_chain(4, 3, 1), vec![(3, 2), (2, 1)]);
    assert_eq!(swap_chain(4, 2, 2), Vec::<(usize, usize)>::new());
    assert_eq!(swap_chain(2, 5, 0), Vec::<(usize, usize)>::new());
    // Slot arithmetic: dropping below itself shifts by one.
    assert_eq!(drop_index(0, 2), 1);
    assert_eq!(drop_index(0, 1), 0);
    assert_eq!(drop_index(2, 0), 0);
    assert_eq!(drop_index(1, 3), 2);
}

#[test]
fn replaying_a_chain_moves_one_item() {
    for from in 0..5usize {
        for to in 0..5usize {
            let mut moved: Vec<usize> = (0..5).collect();
            let item = moved.remove(from);
            moved.insert(to, item);
            let mut replayed: Vec<usize> = (0..5).collect();
            for (a, b) in swap_chain(5, from, to) {
                replayed.swap(a, b);
            }
            assert_eq!(replayed, moved);
        }
    }
}

#[test]
fn summary_runs_only_mention_what_is_there() {
    assert_eq!(text(&summary_runs(0, 0, 0)), "nothing running");
    assert_eq!(text(&summary_runs(1, 0, 0)), "1 waiting");
    assert_eq!(text(&summary_runs(0, 2, 4)), "2 working \u{b7} 4 idle");
    let runs = summary_runs(1, 2, 3);
    assert_eq!(text(&runs), "1 waiting \u{b7} 2 working \u{b7} 3 idle");
    assert_eq!(runs[0].1, SummaryRun::Waiting);
    assert_eq!(runs[1].1, SummaryRun::Dot);
    assert_eq!(runs[2].1, SummaryRun::Working);
    assert_eq!(runs[4].1, SummaryRun::Idle);
}

#[test]
fn the_next_pill_prefers_unread_then_idle_then_the_flash() {
    assert_eq!(NextPill::of(3, 2, false), NextPill::Next(3));
    assert_eq!(NextPill::of(0, 2, true), NextPill::Idle(2));
    assert_eq!(NextPill::of(0, 0, true), NextPill::CaughtUp);
    assert_eq!(NextPill::of(0, 0, false), NextPill::Nothing);
    assert_eq!(NextPill::Next(3).badge(), Some(3));
    assert_eq!(NextPill::CaughtUp.badge(), None);
    assert!(NextPill::Idle(1).clickable());
    assert!(!NextPill::Nothing.clickable());
    assert_eq!(NextPill::Next(1).label(), "Next unread");
    assert_eq!(NextPill::Next(1).icon(), Some(Icon::Play));
    assert_eq!(NextPill::Nothing.icon(), None);
}

#[test]
fn ages_read_as_seconds_minutes_or_hours() {
    assert_eq!(format_age(4), "4s");
    assert_eq!(format_age(59), "59s");
    assert_eq!(format_age(60), "1m");
    assert_eq!(format_age(4 * 60 + 12), "4m");
    assert_eq!(format_age(3 * 3600 + 5), "3h");
}

#[test]
fn tile_state_follows_the_priority_order() {
    let all = PaneFlags {
        permission_prompt: true,
        bell: true,
        completion: true,
        hook_unseen: true,
        turn_end_unseen: true,
        working: true,
        starting: true,
        idle_agent: true,
        seen: false,
        ..PaneFlags::default()
    };
    // A prompt on screen loses to the spinner: the agent went back to work.
    assert_eq!(TileState::from_flags(all), TileState::Unread { bell: false });
    assert_eq!(
        TileState::from_flags(PaneFlags { working: false, ..all }),
        TileState::Awaiting
    );
    assert_eq!(
        TileState::from_flags(PaneFlags { permission_prompt: false, completion: false, ..all }),
        TileState::Unread { bell: true }
    );
    // The hook flag alone paints done, never waiting.
    assert_eq!(
        TileState::from_flags(PaneFlags { hook_unseen: true, ..PaneFlags::default() }),
        TileState::Unread { bell: false }
    );
    assert_eq!(
        TileState::from_flags(PaneFlags { turn_end_unseen: true, ..PaneFlags::default() }),
        TileState::Unread { bell: false }
    );
    // The pane being looked at never shows unread.
    assert_eq!(
        TileState::from_flags(PaneFlags { permission_prompt: false, seen: true, ..all }),
        TileState::Working
    );
    assert_eq!(
        TileState::from_flags(PaneFlags {
            starting: true,
            idle_agent: true,
            ..PaneFlags::default()
        }),
        TileState::Starting
    );
    assert_eq!(
        TileState::from_flags(PaneFlags { idle_agent: true, ..PaneFlags::default() }),
        TileState::Idle
    );
    assert_eq!(TileState::from_flags(PaneFlags::default()), TileState::Shell);
    assert!(
        TileState::Idle.neutral() && TileState::Shell.neutral() && !TileState::Working.neutral()
    );
    assert_eq!(TileState::Unread { bell: true }.chip(), "bell");
}

#[test]
fn buttons_and_links_carry_feather_icons() {
    assert_eq!(TileButton::Close.icon(), Icon::X);
    assert_eq!(TileButton::Minimize.icon(), Icon::Minimize);
    assert_eq!(TileButton::Restore.icon(), Icon::Maximize);
    assert_eq!(TileButton::Stop.icon(), Icon::Square);
    assert_eq!(TileButton::StartClaude.icon(), Icon::Play);
    assert_eq!(TileButton::Resume.icon(), Icon::Play);
    assert_eq!(STOP_LABEL, "Stop");
    assert_eq!(RESUME_LABEL, "Resume");
}

#[test]
fn the_start_link_names_the_agent() {
    assert_eq!(start_label("Codex"), "Start Codex");
    assert_eq!(TileButton::StartClaude.tooltip("Codex"), "Start Codex here");
    assert_ne!(TileButton::Close.tooltip("Codex"), TileButton::Stop.tooltip("Codex"));
}

#[test]
fn hover_glyphs_follow_the_tile() {
    assert_eq!(
        TileButton::hover_glyphs(TileState::Working, false, false, false),
        vec![TileButton::Close, TileButton::Minimize, TileButton::Stop]
    );
    assert_eq!(
        TileButton::hover_glyphs(TileState::Awaiting, true, false, false),
        vec![TileButton::Close, TileButton::Restore, TileButton::Stop]
    );
    assert_eq!(
        TileButton::hover_glyphs(TileState::Shell, false, true, false),
        vec![TileButton::Close, TileButton::Minimize, TileButton::StartClaude]
    );
    assert_eq!(
        TileButton::hover_glyphs(TileState::Shell, false, false, true),
        vec![TileButton::Close, TileButton::Minimize, TileButton::Resume]
    );
    assert_eq!(
        TileButton::hover_glyphs(TileState::Idle, false, false, false),
        vec![TileButton::Close, TileButton::Minimize]
    );
}

#[test]
fn a_collapsed_group_counts_waiting_and_working_panes() {
    let s = CollapsedSummary::of(&[
        TileState::Working,
        TileState::Awaiting,
        TileState::Shell,
        TileState::Working,
    ]);
    assert_eq!(s, CollapsedSummary { awaiting: 1, working: 2, count: 4 });
    assert_eq!(s.count_label(), "4 panes");
    let one = CollapsedSummary::of(&[TileState::Idle]);
    assert_eq!(one.count_label(), "1 pane");
    assert_eq!(
        TileState::most_urgent(&[TileState::Working, TileState::Awaiting, TileState::Shell]),
        TileState::Awaiting
    );
    assert_eq!(TileState::most_urgent(&[]), TileState::Shell);
}

#[test]
fn activity_sort_puts_urgent_tabs_first_and_keeps_ties_in_tab_order() {
    let states = [
        TileState::Shell,
        TileState::Working,
        TileState::Awaiting,
        TileState::Working,
        TileState::Idle,
    ];
    assert_eq!(display_order(SidebarSort::Kova, &states), vec![0, 1, 2, 3, 4]);
    assert_eq!(display_order(SidebarSort::Activity, &states), vec![2, 1, 3, 4, 0]);
    assert_eq!(SidebarSort::Kova.toggled(), SidebarSort::Activity);
    assert_eq!(SidebarSort::Activity.label(), "\u{21c5} activity");
}

#[test]
fn a_drop_lands_in_the_slot_it_was_let_go_at() {
    // The item at 0 dropped before the one at 2 ends up right before it.
    let mut items = vec!['a', 'b', 'c', 'd'];
    let to = drop_index(0, 2);
    let item = items.remove(0);
    items.insert(to, item);
    assert_eq!(items, vec!['b', 'a', 'c', 'd']);
}

#[test]
fn the_next_unread_wraps_and_falls_back() {
    let order = vec![(1, true), (2, false), (3, true)];
    assert_eq!(next_unread(&order, Some(1)), Some(3));
    assert_eq!(next_unread(&order, Some(3)), Some(1));
    assert_eq!(next_unread(&order, Some(2)), Some(3));
    assert_eq!(next_unread(&order, None), Some(1));
    assert_eq!(next_unread(&vec![(1, false)], Some(1)), None);
}

#[test]
fn the_layout_is_kept_within_its_range_and_reads_back() {
    let mut s = LayoutSetting { mode: 0, width_pt: 0, min_width: 0, max_width: 0 };
    init(
        &mut s,
        &LayoutConfig { mode: LayoutMode::Sidebar, sidebar_width: 900, min_width: 180, max_width: 400 },
    );
    assert_eq!(layout_mode(&s), LayoutMode::Sidebar);
    assert_eq!(width_pt(&s), 400);
    assert!(set_width_pt(&mut s, 100));
    assert_eq!(width_pt(&s), 180);
    assert!(!set_width_pt(&mut s, 10));
    let prefs = set_layout_mode(&mut s, LayoutMode::Tabs);
    assert_eq!(prefs, LayoutPrefs { mode: Some(LayoutMode::Tabs), sidebar_width: Some(180) });
    assert_eq!(persist(&s), prefs);
    assert_eq!(mode_to_u8(LayoutMode::Sidebar), 1);
    assert_eq!(clamp_sidebar_width(250, 180, 400), 250);
}

#[test]
fn an_unread_pane_is_one_with_something_new_or_marked() {
    assert!(!PaneFlags::default().is_unread());
    assert!(PaneFlags { completion: true, ..PaneFlags::default() }.is_unread());
    assert!(!PaneFlags { completion: true, seen: true, ..PaneFlags::default() }.is_unread());
    assert!(PaneFlags { manual: true, seen: true, ..PaneFlags::default() }.is_unread());
    assert!(TileState::Awaiting.rank() < TileState::Shell.rank());
}
