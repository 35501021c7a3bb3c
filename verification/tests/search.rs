use kova::overlays::is_typed_char;
use kova::search::{
    content_snippet, drop_recall_rows, recent_search_rows, run_search_worker, split_terms,
    ArchivedHit, ArchivedHits, SearchAnswer, SearchHit, SearchPaletteState, SearchPaneSnapshot, SearchRow,
    SearchTabSnapshot, SearchTarget, SEARCH_DEBOUNCE,
};
use kova::view::{Effect, KeyPress, KovaView, KEY_BACKSPACE, KEY_DOWN, KEY_ENTER, KEY_ESCAPE};

/// Call `content_snippet` the way the worker does: the dump and its
/// lowercased twin.
fn snippet_of(text: &str, term: &str) -> Option<String> {
    content_snippet(text, &text.to_ascii_lowercase(), term)
}

fn palette_state(query: &str, submitted: &str, rows: Vec<SearchRow>) -> SearchPaletteState {
    SearchPaletteState {
        cursor: query.chars().count(),
        query: query.to_string(),
        query_id: 0,
        rx: None,
        searching: false,
        submitted_query: submitted.to_string(),
        selected: rows.iter().position(SearchRow::is_hit).unwrap_or(0),
        rows,
        scroll: 0,
        needs_search: false,
        last_edit: None,
    }
}

fn key(code: u16, ch: char) -> KeyPress {
    KeyPress { code, ch, cmd: false, ctrl: false, option: false }
}

#[test]
fn typing_drops_the_recall_list_before_it_can_be_opened_by_mistake() {
    // Opened, nothing searched yet: the rows are the recall list.
    let recall = vec![
        SearchRow::Header("Recent searches".to_string()),
        SearchRow::Hit(SearchHit {
            label: "old query".to_string(),
            target: SearchTarget::Recall { query: "old query".to_string() },
        }),
    ];
    let mut state = palette_state("d", "", recall.clone());
    drop_recall_rows(&mut state);
    // Gone: Enter during the debounce searches what was typed instead of
    // recalling an unrelated query.
    assert!(state.rows.is_empty());
    assert_eq!(state.selected, 0);

    // Still empty input (the user only moved the caret): the list stays.
    let mut state = palette_state("", "", recall);
    drop_recall_rows(&mut state);
    assert_eq!(state.rows.len(), 2);

    // Real results are never dropped by an edit.
    let results = vec![SearchRow::Hit(SearchHit {
        label: "a pane".to_string(),
        target: SearchTarget::Archived { session_id: "x".into(), cwd: "/tmp".into() },
    })];
    let mut state = palette_state("de", "d", results);
    drop_recall_rows(&mut state);
    assert_eq!(state.rows.len(), 1);
}

#[test]
fn function_keys_are_not_typed_into_an_input() {
    // What a person types.
    assert!(is_typed_char('a'));
    assert!(is_typed_char(' '));
    assert!(is_typed_char('é'));
    assert!(is_typed_char('▲'));
    // The private-use block of the keyboard: arrows, F-keys, Home/End, Page
    // Up/Down.
    assert!(!is_typed_char('\u{F700}')); // up arrow
    assert!(!is_typed_char('\u{F701}')); // down arrow
    assert!(!is_typed_char('\u{F729}')); // home
    assert!(!is_typed_char('\u{F747}')); // mode switch, the last of them
    // Above that range the private-use block carries characters people do
    // type: the Apple logo, and the Nerd Font glyphs in a shell prompt.
    assert!(is_typed_char('\u{F8FF}'));
    assert!(is_typed_char('\u{F748}'));
    // Control chars stay out, as before.
    assert!(!is_typed_char('\u{1B}'));
    assert!(!is_typed_char('\r'));
}

#[test]
fn a_content_hit_shows_the_line_that_matched() {
    let text = "first line\n  the deploy failed on staging\nlast line";
    assert_eq!(snippet_of(text, "deploy").as_deref(), Some("the deploy failed on staging"));
    // Case-insensitive, and the row shows the original case.
    assert_eq!(snippet_of("Deploy Failed", "deploy").as_deref(), Some("Deploy Failed"));
    // A term nowhere in the text has no line to show.
    assert_eq!(snippet_of(text, "absent"), None);
}

#[test]
fn a_long_line_is_cut_around_the_match() {
    let line = format!("{}needle{}", "a".repeat(200), "b".repeat(200));
    let snippet = snippet_of(&line, "needle").expect("the line matches");
    // Ellipsis on both sides, the match kept in view, and the row stays short.
    assert!(snippet.starts_with('…'), "{snippet}");
    assert!(snippet.ends_with('…'), "{snippet}");
    assert!(snippet.contains("needle"), "{snippet}");
    assert!(snippet.chars().count() <= 92, "{}", snippet.chars().count());
}

#[test]
fn a_snippet_never_splits_a_multibyte_char() {
    // Box-drawing and emoji are everywhere in a terminal: cutting by bytes
    // would panic here.
    let line = format!("{}échec du déploiement", "é".repeat(50));
    let snippet = snippet_of(&line, "déploiement").expect("the line matches");
    assert!(snippet.contains("déploiement"), "{snippet}");
}

#[test]
fn a_query_splits_into_lowercased_words() {
    assert_eq!(split_terms("  Foo, BAR,baz "), vec!["foo", "bar", "baz"]);
    assert!(split_terms(" , ").is_empty());
}

#[test]
fn every_pane_is_listed_once_and_ties_titles_before_contents() {
    let tabs = vec![
        SearchTabSnapshot { tab_id: 1, title: "deploy".to_string() },
        SearchTabSnapshot { tab_id: 2, title: "notes".to_string() },
    ];
    let pane = |tab_id: u32, pane_id: u32, title: &str| SearchPaneSnapshot {
        tab_id,
        tab_title: if tab_id == 1 { "deploy" } else { "notes" }.to_string(),
        pane_id,
        pane_title: title.to_string(),
    };
    let panes = vec![pane(1, 10, "server"), pane(2, 20, "deploy log"), pane(2, 21, "vim")];
    let dumps = vec!["nothing here".to_string(), "deploy".to_string(), "the deploy ran".to_string()];
    let archived = ArchivedHits {
        hits: vec![ArchivedHit {
            session_id: "s".to_string(),
            cwd: "/w".to_string(),
            label: "an old deploy".to_string(),
        }],
        total: 1,
    };
    let rows = run_search_worker("deploy", &tabs, &panes, &dumps, "Codex", archived);
    let mut seen: Vec<u32> = Vec::new();
    let mut past = 0;
    for r in &rows {
        if let SearchRow::Hit(h) = r {
            match &h.target {
                SearchTarget::Open { pane_id: Some(p), .. } => {
                    assert!(!seen.contains(p));
                    seen.push(*p);
                }
                SearchTarget::Archived { session_id, cwd } => {
                    assert_eq!((session_id.as_str(), cwd.as_str()), ("s", "/w"));
                    past += 1;
                }
                _ => {}
            }
        }
    }
    assert!(seen.contains(&20) && seen.contains(&21));
    assert_eq!(past, 1);
    // Nothing asked, nothing found.
    let none = ArchivedHits { hits: vec![], total: 0 };
    let rows = run_search_worker("absent", &tabs, &panes, &dumps, "Codex", none);
    assert!(rows.iter().all(|r| !r.is_hit()));
}

#[test]
fn the_palette_recalls_debounces_and_submits() {
    let history = vec!["old".to_string()];
    assert!(recent_search_rows(&vec![]).is_empty());
    let rows = recent_search_rows(&history);
    assert_eq!(rows.len(), 2);
    assert!(!rows[0].is_hit() && rows[1].is_hit());

    let mut v = KovaView::new(60);
    v.do_open_search_palette(&history);
    assert_eq!(v.effects, vec![Effect::WarmHistory, Effect::MarkDirty]);
    assert_eq!(v.overlays.search_palette.as_ref().unwrap().selected, 1);
    v.effects.clear();

    // Typing a character: the recall list goes, the search waits.
    v.handle_search_palette_key(key(0, 'd'), 1000);
    let s = v.overlays.search_palette.as_ref().unwrap();
    assert_eq!((s.query.as_str(), s.cursor), ("d", 1));
    assert!(s.rows.is_empty() && s.needs_search);
    v.effects.clear();
    v.poll_search_palette(vec![], 1000 + SEARCH_DEBOUNCE - 1, &history);
    assert!(v.overlays.search_palette.as_ref().unwrap().needs_search);
    v.poll_search_palette(vec![], 1000 + SEARCH_DEBOUNCE, &history);
    let s = v.overlays.search_palette.as_ref().unwrap();
    assert!(s.searching && !s.needs_search);
    assert_eq!(s.submitted_query, "d");
    let id = s.query_id;
    let channel = s.rx.unwrap();
    let answer =
        |channel: u64, query_id: u64, rows: Vec<SearchRow>| SearchAnswer { channel, query_id, rows };
    assert!(v.effects.contains(&Effect::StartSearch("d".to_string(), id, channel)));
    // A stale answer is dropped; the awaited one lands.
    let hit = SearchRow::Hit(SearchHit {
        label: "x".to_string(),
        target: SearchTarget::Open { tab_id: 1, pane_id: Some(2) },
    });
    v.poll_search_palette(vec![answer(channel, id + 7, vec![hit.clone()])], 2000, &history);
    v.poll_search_palette(vec![answer(channel + 7, id, vec![hit.clone()])], 2000, &history);
    assert!(v.overlays.search_palette.as_ref().unwrap().rows.is_empty());
    v.poll_search_palette(vec![answer(channel, id, vec![hit])], 2000, &history);
    let s = v.overlays.search_palette.as_ref().unwrap();
    assert!(!s.searching && s.rx.is_none());
    assert_eq!(s.rows.len(), 1);
    // The hit is opened, and the query remembered.
    v.effects.clear();
    v.handle_search_palette_key(key(KEY_ENTER, '\r'), 2000);
    assert!(v.overlays.search_palette.is_none());
    assert!(v
        .effects
        .contains(&Effect::JumpToHit(SearchTarget::Open { tab_id: 1, pane_id: Some(2) })));
}

#[test]
fn escape_closes_the_palette_and_erasing_edits_it() {
    let mut v = KovaView::new(60);
    v.do_open_search_palette(&vec![]);
    v.handle_search_palette_key(key(0, 'a'), 0);
    v.handle_search_palette_key(key(0, 'b'), 0);
    v.handle_search_palette_key(key(KEY_BACKSPACE, '\u{7f}'), 0);
    assert_eq!(v.overlays.search_palette.as_ref().unwrap().query, "a");
    v.handle_search_palette_key(key(KEY_DOWN, '\u{f701}'), 0);
    assert_eq!(v.overlays.search_palette.as_ref().unwrap().selected, 0);
    v.handle_search_palette_key(key(KEY_ESCAPE, '\u{1b}'), 0);
    assert!(v.overlays.search_palette.is_none());
}

#[test]
fn an_answer_to_an_earlier_palette_is_dropped() {
    let history = vec![];
    let late = || SearchRow::Header("late".to_string());
    let mut v = KovaView::new(60);
    v.do_open_search_palette(&history);
    v.handle_search_palette_key(key(0, 'a'), 0);
    v.submit_search_palette();
    let s = v.overlays.search_palette.as_ref().unwrap();
    let first = (s.rx.unwrap(), s.query_id);
    v.handle_search_palette_key(key(KEY_ESCAPE, '\u{1b}'), 0);

    // A palette counts its searches from the start, each on its own channel.
    v.do_open_search_palette(&history);
    let s = v.overlays.search_palette.as_ref().unwrap();
    assert_eq!((s.query_id, s.rx), (0, None));
    let answer = |(channel, query_id): (u64, u64)| {
        vec![SearchAnswer { channel, query_id, rows: vec![late()] }]
    };
    v.poll_search_palette(answer(first), 0, &history);
    assert!(v.overlays.search_palette.as_ref().unwrap().rows.is_empty());
    v.handle_search_palette_key(key(0, 'b'), 0);
    v.submit_search_palette();
    let s = v.overlays.search_palette.as_ref().unwrap();
    let second = (s.rx.unwrap(), s.query_id);
    assert_eq!(first.1, second.1);
    assert!(second.0 > first.0);
    v.poll_search_palette(answer(first), 0, &history);
    let s = v.overlays.search_palette.as_ref().unwrap();
    assert!(s.searching && s.rows.is_empty());
    v.poll_search_palette(answer(second), 0, &history);
    let s = v.overlays.search_palette.as_ref().unwrap();
    assert!(!s.searching && s.rows == vec![late()]);
}
