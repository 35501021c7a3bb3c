//! The inline text overlays: the scrollback filter, and the tab and pane
//! rename editors. Each one owns a query or a draft, a caret, and the keys it
//! answers while it holds the keyboard.
use crate::pane;
use crate::pane::{Pane, Tab};
use crate::text;
use crate::view;
use crate::view::{Effect, KeyPress, KovaView, Overlays, KEY_DOWN, KEY_LEFT, KEY_RIGHT, KEY_UP};
use vstd::prelude::*;

verus! {

/// A line of the scrollback that holds the filter's query.
#[derive(Debug, PartialEq)]
pub struct FilterMatch {
    pub abs_line: usize,
    pub text: String,
}

/// The scrollback filter.
#[derive(Debug, PartialEq)]
pub struct FilterState {
    pub query: String,
    pub matches: Vec<FilterMatch>,
    /// Where the arrows sit in the filter history; `None` while the query on
    /// screen is the one being typed rather than a recalled one.
    pub history_pos: Option<usize>,
    /// The typed query set aside while browsing history, put back on the way
    /// past the most recent entry.
    pub draft: String,
}

/// A rename editor: its text and the caret in it, counted in characters.
#[derive(Debug, PartialEq)]
pub struct RenameState {
    pub input: String,
    pub cursor: usize,
}

impl RenameState {
    /// The caret stands in the text.
    pub open spec fn wf(self) -> bool {
        self.cursor <= self.input@.len()
    }
}

// ---------------------------------------------------------------
// Typing
// ---------------------------------------------------------------

/// A key press's character is something to type into a text input: printable,
/// and not one of the private-use characters that stand for arrows and
/// function keys.
pub open spec fn typed_char(c: char) -> bool {
    c >= ' ' && !text::control(c) && !('\u{F700}' <= c <= '\u{F747}')
}

/// Whether a key press's character is something to type into a text input.
///
/// The arrows, the function keys, Home, End and the like come as characters
/// U+F700 to U+F747. Those are neither control characters nor below a space,
/// so the plain printable test would let them through. The private-use
/// characters above are real typing.
pub fn is_typed_char(c: char) -> (r: bool)
    ensures
        r == typed_char(c),
{
    c >= ' ' && !text::is_control(c) && !('\u{F700}' <= c && c <= '\u{F747}')
}

/// What a key does in a rename editor.
#[derive(Clone, Copy, Debug, PartialEq, Eq, Structural)]
pub enum Edit {
    Left,
    Right,
    Cancel,
    Apply,
    Erase,
    Type,
    Ignore,
}

pub open spec fn edit_of(key: KeyPress) -> Edit {
    if key.code == KEY_LEFT {
        Edit::Left
    } else if key.code == KEY_RIGHT {
        Edit::Right
    } else if key.ch == '\u{1B}' {
        Edit::Cancel
    } else if key.ch == '\r' {
        Edit::Apply
    } else if key.ch == '\u{7F}' || key.ch == '\u{08}' {
        Edit::Erase
    } else if typed_char(key.ch) {
        Edit::Type
    } else {
        Edit::Ignore
    }
}

fn edit_for(key: KeyPress) -> (e: Edit)
    ensures
        e == edit_of(key),
{
    if key.code == KEY_LEFT {
        Edit::Left
    } else if key.code == KEY_RIGHT {
        Edit::Right
    } else if key.ch == '\u{1B}' {
        Edit::Cancel
    } else if key.ch == '\r' {
        Edit::Apply
    } else if key.ch == '\u{7F}' || key.ch == '\u{08}' {
        Edit::Erase
    } else if is_typed_char(key.ch) {
        Edit::Type
    } else {
        Edit::Ignore
    }
}

/// The text and caret after an edit.
pub open spec fn edited(e: Edit, s: Seq<char>, cursor: int, c: char) -> (Seq<char>, int) {
    match e {
        Edit::Left => (s, if cursor > 0 {
            cursor - 1
        } else {
            cursor
        }),
        Edit::Right => (s, if cursor < s.len() {
            cursor + 1
        } else {
            cursor
        }),
        Edit::Erase => if cursor > 0 {
            (s.remove(cursor - 1), cursor - 1)
        } else {
            (s, cursor)
        },
        Edit::Type => (s.insert(cursor, c), cursor + 1),
        _ => (s, cursor),
    }
}

/// Edit a text at its caret.
pub fn apply_edit(input: &mut String, cursor: &mut usize, e: Edit, c: char)
    requires
        *old(cursor) <= old(input)@.len(),
    ensures
        (final(input)@, *final(cursor) as int) == edited(e, old(input)@, *old(cursor) as int, c),
        *final(cursor) <= final(input)@.len(),
        !(e == Edit::Type || e == Edit::Erase) ==> *final(input) == *old(input),
{
    match e {
        Edit::Left => {
            if *cursor > 0 {
                *cursor = *cursor - 1;
            }
        },
        Edit::Right => {
            let len = text::char_count(input.as_str());
            if *cursor < len {
                *cursor = *cursor + 1;
            }
        },
        Edit::Erase => {
            if *cursor > 0 {
                let at: usize = *cursor - 1;
                text::remove_char(input, at);
                *cursor = at;
            }
        },
        Edit::Type => {
            text::insert_char(input, *cursor, c);
            *cursor = *cursor + 1;
        },
        _ => {},
    }
}

/// Typing a character and erasing it leaves the text and the caret as they
/// were.
pub proof fn erase_undoes_type(s: Seq<char>, cursor: int, c: char)
    requires
        0 <= cursor <= s.len(),
    ensures
        ({
            let t = edited(Edit::Type, s, cursor, c);
            edited(Edit::Erase, t.0, t.1, c) == (s, cursor)
        }),
{
    assert(s.insert(cursor, c).remove(cursor) =~= s);
}

/// Every edit leaves the caret in the text.
pub proof fn edits_keep_the_caret(e: Edit, s: Seq<char>, cursor: int, c: char)
    requires
        0 <= cursor <= s.len(),
    ensures
        0 <= edited(e, s, cursor, c).1 <= edited(e, s, cursor, c).0.len(),
{
}

// ---------------------------------------------------------------
// Renaming
// ---------------------------------------------------------------

/// The title a rename applies: the text, or none when it is blank.
pub open spec fn applied_title(input: String) -> Option<String> {
    if text::trimmed(input@).len() == 0 {
        None
    } else {
        Some(input)
    }
}

fn title_to_apply(input: String) -> (t: Option<String>)
    ensures
        t == applied_title(input),
{
    if text::is_blank(input.as_str()) {
        None
    } else {
        Some(input)
    }
}

/// The editor after an edit that keeps it open.
pub open spec fn is_edited(after: RenameState, before: RenameState, key: KeyPress) -> bool {
    (after.input@, after.cursor as int) == edited(
        edit_of(key),
        before.input@,
        before.cursor as int,
        key.ch,
    )
}

/// The editor opened on a text, the caret at its end.
pub open spec fn is_editing(r: RenameState, s: Seq<char>) -> bool {
    r.input@ == s && r.cursor == s.len()
}

/// The title a pane rename starts from: its sticky title, else the
/// application's, else nothing.
pub open spec fn pane_title_to_edit(p: Option<Pane>) -> Seq<char> {
    match p {
        Some(p) => match p.custom_title {
            Some(t) => t@,
            None => match p.term.title {
                Some(t) => t@,
                None => Seq::empty(),
            },
        },
        None => Seq::empty(),
    }
}

/// `after` is `before` with the focused pane's sticky title set, if there is a
/// focused pane.
pub open spec fn focused_title_set(
    after: Seq<Tab>,
    before: KovaView,
    title: Option<String>,
) -> bool {
    match before.focused() {
        Some(p) => view::pane_replaced(
            after,
            before.tabs@,
            before.active_tab as int,
            pane::pos(before.active().panes@, before.active().focused_pane),
            Pane { custom_title: title, ..p },
        ),
        None => after == before.tabs@,
    }
}

/// The text with `more` put in at the caret.
pub open spec fn pasted(s: Seq<char>, cursor: int, more: Seq<char>) -> Seq<char> {
    s.take(cursor) + more + s.skip(cursor)
}

fn paste_at(r: &mut RenameState, more: &str)
    requires
        old(r).wf(),
        old(r).input@.len() + more@.len() <= usize::MAX,
    ensures
        final(r).input@ == pasted(old(r).input@, old(r).cursor as int, more@),
        final(r).cursor == old(r).cursor + more@.len(),
        final(r).wf(),
{
    let v = text::chars_of(r.input.as_str());
    let mut s = text::text_between(&v, 0, r.cursor);
    s.append(more);
    text::push_between(&mut s, &v, r.cursor, v.len());
    assert(s@ =~= pasted(r.input@, r.cursor as int, more@));
    let n = text::char_count(more);
    r.cursor = r.cursor + n;
    r.input = s;
}

/// `after` is `before` with the tab rename editor open on the active tab's
/// title.
pub open spec fn is_tab_rename_open(after: KovaView, before: KovaView) -> bool {
    &&& after.overlays.rename_tab matches Some(r) && is_editing(
        r,
        if before.has_active() {
            before.active().shown_title()@
        } else {
            Seq::empty()
        },
    )
    &&& after.effects@ == before.effects@.push(Effect::MarkDirty)
    &&& after == (KovaView {
        overlays: Overlays { rename_tab: after.overlays.rename_tab, ..before.overlays },
        effects: after.effects,
        ..before
    })
}

/// `after` is `before` with the pane rename editor open on the focused pane's
/// title.
pub open spec fn is_pane_rename_open(after: KovaView, before: KovaView) -> bool {
    &&& after.overlays.rename_pane matches Some(r) && is_editing(
        r,
        pane_title_to_edit(before.focused()),
    )
    &&& after.effects@ == before.effects@.push(Effect::MarkDirty)
    &&& after == (KovaView {
        overlays: Overlays { rename_pane: after.overlays.rename_pane, ..before.overlays },
        effects: after.effects,
        ..before
    })
}

/// What a key does in the tab rename editor.
pub open spec fn is_tab_rename_keyed(
    after: KovaView,
    before: KovaView,
    key: KeyPress,
) -> bool {
    &&& (before.overlays.rename_tab is None || edit_of(key) == Edit::Ignore ==> after == before)
    &&& (before.overlays.rename_tab is Some && edit_of(key) != Edit::Ignore ==> after.effects@
        == before.effects@.push(Effect::MarkDirty))
    &&& (before.overlays.rename_tab is Some && edit_of(key) == Edit::Cancel ==> after == (
    KovaView { overlays: Overlays { rename_tab: None, ..before.overlays }, effects: after.effects, ..before }))
    &&& (edit_of(key) == Edit::Apply ==> (before.overlays.rename_tab matches Some(r) ==> {
        &&& after.tabs@ == (if before.has_active() {
            before.tabs@.update(
                before.active_tab as int,
                Tab { custom_title: applied_title(r.input), ..before.active() },
            )
        } else {
            before.tabs@
        })
        &&& after == (KovaView { overlays: Overlays { rename_tab: None, ..before.overlays }, tabs: after.tabs, effects: after.effects, ..before })
    }))
    &&& (edit_of(key) != Edit::Ignore && edit_of(key) != Edit::Cancel && edit_of(key)
        != Edit::Apply ==> (before.overlays.rename_tab matches Some(r) ==> {
        &&& after.overlays.rename_tab matches Some(q) && is_edited(q, r, key)
        &&& after == (KovaView { overlays: Overlays { rename_tab: after.overlays.rename_tab, ..before.overlays }, effects: after.effects, ..before })
    }))
}

/// What a key does in the pane rename editor.
pub open spec fn is_pane_rename_keyed(
    after: KovaView,
    before: KovaView,
    key: KeyPress,
) -> bool {
    &&& (before.overlays.rename_pane is None || edit_of(key) == Edit::Ignore ==> after == before)
    &&& (before.overlays.rename_pane is Some && edit_of(key) != Edit::Ignore ==> after.effects@
        == before.effects@.push(Effect::MarkDirty))
    &&& (before.overlays.rename_pane is Some && edit_of(key) == Edit::Cancel ==> after == (
    KovaView { overlays: Overlays { rename_pane: None, ..before.overlays }, effects: after.effects, ..before }))
    &&& (edit_of(key) == Edit::Apply ==> (before.overlays.rename_pane matches Some(r) ==> {
        &&& focused_title_set(after.tabs@, before, applied_title(r.input))
        &&& after == (KovaView { overlays: Overlays { rename_pane: None, ..before.overlays }, tabs: after.tabs, effects: after.effects, ..before })
    }))
    &&& (edit_of(key) != Edit::Ignore && edit_of(key) != Edit::Cancel && edit_of(key)
        != Edit::Apply ==> (before.overlays.rename_pane matches Some(r) ==> {
        &&& after.overlays.rename_pane matches Some(q) && is_edited(q, r, key)
        &&& after == (KovaView { overlays: Overlays { rename_pane: after.overlays.rename_pane, ..before.overlays }, effects: after.effects, ..before })
    }))
}

/// `after` is `before` with text pasted into the rename editor.
pub open spec fn is_rename_pasted(
    after: KovaView,
    before: KovaView,
    more: Seq<char>,
) -> bool {
    &&& (more.len() == 0 ==> after == before)
    &&& (more.len() > 0 ==> {
        &&& after.effects@ == before.effects@.push(Effect::MarkDirty)
        &&& after == (KovaView { overlays: Overlays { rename_tab: after.overlays.rename_tab, rename_pane: after.overlays.rename_pane, ..before.overlays }, effects: after.effects, ..before })
        &&& match before.overlays.rename_tab {
            Some(r) => {
                &&& after.overlays.rename_pane == before.overlays.rename_pane
                &&& after.overlays.rename_tab matches Some(q) && q.input@ == pasted(
                    r.input@,
                    r.cursor as int,
                    more,
                ) && q.cursor == r.cursor + more.len()
            },
            None => {
                &&& after.overlays.rename_tab is None
                &&& match before.overlays.rename_pane {
                    Some(r) => after.overlays.rename_pane matches Some(q) && q.input@
                        == pasted(r.input@, r.cursor as int, more) && q.cursor == r.cursor
                        + more.len(),
                    None => after.overlays.rename_pane is None,
                }
            },
        }
    })
}

impl KovaView {
    /// Open the tab rename editor on the active tab's title.
    pub fn start_rename_tab(&mut self)
        ensures
            is_tab_rename_open(*final(self), *old(self)),
    {
        let input = if self.active_tab < self.tabs.len() {
            self.tabs[self.active_tab].title()
        } else {
            String::new()
        };
        let cursor = text::char_count(input.as_str());
        self.overlays.rename_tab = Some(RenameState { input, cursor });
        self.mark_dirty();
    }

    /// A key in the tab rename editor: a blank name resets the tab to its
    /// derived title.
    pub fn handle_rename_tab_key(&mut self, key: KeyPress)
        requires
            old(self).overlays.rename_tab matches Some(r) ==> r.wf(),
        ensures
            is_tab_rename_keyed(*final(self), *old(self), key),
            final(self).overlays.rename_tab matches Some(r) ==> r.wf(),
            old(self).wf() ==> final(self).wf(),
    {
        let e = edit_for(key);
        if self.overlays.rename_tab.is_none() || e == Edit::Ignore {
            return;
        }
        match self.overlays.rename_tab.take() {
            None => {},
            Some(r) => {
                if e == Edit::Cancel {
                } else if e == Edit::Apply {
                    let title = title_to_apply(r.input);
                    if self.active_tab < self.tabs.len() {
                        let idx: usize = self.active_tab;
                        self.tabs[idx].custom_title = title;
                        proof {
                            let t = self.tabs@[idx as int];
                            assert(self.tabs@ =~= old(self).tabs@.update(idx as int, t));
                            if old(self).wf() {
                                assert(old(self).active().wf());
                                crate::tabs::lemma_tabs_update(old(self).tabs@, idx as int, t);
                            }
                        }
                    }
                } else {
                    let mut r = r;
                    apply_edit(&mut r.input, &mut r.cursor, e, key.ch);
                    self.overlays.rename_tab = Some(r);
                }
                self.mark_dirty();
            },
        }
    }

    /// Open the pane rename editor on the focused pane's title.
    pub fn start_rename_pane(&mut self)
        ensures
            is_pane_rename_open(*final(self), *old(self)),
    {
        let input = match self.focused_pane() {
            Some(p) => match &p.custom_title {
                Some(t) => t.clone(),
                None => match &p.term.title {
                    Some(t) => t.clone(),
                    None => String::new(),
                },
            },
            None => String::new(),
        };
        let cursor = text::char_count(input.as_str());
        self.overlays.rename_pane = Some(RenameState { input, cursor });
        self.mark_dirty();
    }

    /// Set the focused pane's sticky title.
    fn set_focused_title(&mut self, title: Option<String>)
        ensures
            focused_title_set(final(self).tabs@, *old(self), title),
            *final(self) == (KovaView { tabs: final(self).tabs, ..*old(self) }),
            old(self).wf() ==> final(self).wf(),
    {
        let idx: usize = self.active_tab;
        if idx < self.tabs.len() {
            let at = self.tabs[idx].find(self.tabs[idx].focused_pane);
            if at < self.tabs[idx].panes.len() {
                self.tabs[idx].panes[at].custom_title = title;
                proof {
                    let p = Pane {
                        custom_title: title,
                        ..old(self).active().panes@[at as int]
                    };
                    assert(view::pane_replaced(
                        self.tabs@,
                        old(self).tabs@,
                        idx as int,
                        at as int,
                        p,
                    ));
                    if old(self).wf() {
                        view::lemma_pane_replaced(
                            self.tabs@,
                            old(self).tabs@,
                            idx as int,
                            at as int,
                            p,
                        );
                    }
                }
            }
        }
    }

    /// A key in the pane rename editor: a blank name drops the sticky title.
    pub fn handle_rename_pane_key(&mut self, key: KeyPress)
        requires
            old(self).overlays.rename_pane matches Some(r) ==> r.wf(),
        ensures
            is_pane_rename_keyed(*final(self), *old(self), key),
            final(self).overlays.rename_pane matches Some(r) ==> r.wf(),
            old(self).wf() ==> final(self).wf(),
    {
        let e = edit_for(key);
        if self.overlays.rename_pane.is_none() || e == Edit::Ignore {
            return;
        }
        match self.overlays.rename_pane.take() {
            None => {},
            Some(r) => {
                if e == Edit::Cancel {
                } else if e == Edit::Apply {
                    let title = title_to_apply(r.input);
                    self.set_focused_title(title);
                } else {
                    let mut r = r;
                    apply_edit(&mut r.input, &mut r.cursor, e, key.ch);
                    self.overlays.rename_pane = Some(r);
                }
                self.mark_dirty();
            },
        }
    }

    /// Paste into the rename editor that is open, the tab's first.
    pub fn paste_into_rename(&mut self, more: &str)
        requires
            old(self).overlays.rename_tab matches Some(r) ==> r.wf() && r.input@.len() + more@.len()
                <= usize::MAX,
            old(self).overlays.rename_pane matches Some(r) ==> r.wf() && r.input@.len() + more@.len()
                <= usize::MAX,
        ensures
            is_rename_pasted(*final(self), *old(self), more@),
    {
        if more.is_empty() {
            return;
        }
        match self.overlays.rename_tab.take() {
            Some(r) => {
                let mut r = r;
                paste_at(&mut r, more);
                self.overlays.rename_tab = Some(r);
            },
            None => {
                match self.overlays.rename_pane.take() {
                    Some(r) => {
                        let mut r = r;
                        paste_at(&mut r, more);
                        self.overlays.rename_pane = Some(r);
                    },
                    None => {},
                }
            },
        }
        self.mark_dirty();
    }
}

// ---------------------------------------------------------------
// The scrollback filter
// ---------------------------------------------------------------

/// The place in the history an arrow leads to: `None` when it leads nowhere,
/// `Some(None)` back to what was typed.
pub open spec fn recall_place(at: Option<usize>, len: int, older: bool) -> Option<Option<usize>> {
    if len == 0 {
        None
    } else {
        match at {
            None => if older {
                Some(Some(0))
            } else {
                None
            },
            Some(i) => if older {
                if i + 1 >= len {
                    None
                } else {
                    Some(Some((i + 1) as usize))
                }
            } else if i == 0 {
                Some(None)
            } else {
                Some(Some((i - 1) as usize))
            },
        }
    }
}

/// The place one step more recent lies in a history of `len`, unless that is
/// empty.
pub open spec fn recall_in_range(at: Option<usize>, len: int) -> bool {
    len > 0 ==> (at matches Some(i) ==> i <= len)
}

/// The query on screen, the place in the history and the draft after an arrow.
pub open spec fn recalled(
    query: String,
    at: Option<usize>,
    draft: String,
    history: Seq<String>,
    older: bool,
) -> (String, Option<usize>, String) {
    match recall_place(at, history.len() as int, older) {
        None => (query, at, draft),
        Some(next) => {
            let kept = if at is None {
                query
            } else {
                draft
            };
            (match next {
                Some(i) => history[i as int],
                None => kept,
            }, next, kept)
        },
    }
}

/// The state after `n` steps up.
pub open spec fn recalled_up(
    query: String,
    at: Option<usize>,
    draft: String,
    history: Seq<String>,
    n: nat,
) -> (String, Option<usize>, String)
    decreases n,
{
    if n == 0 {
        (query, at, draft)
    } else {
        let s = recalled_up(query, at, draft, history, (n - 1) as nat);
        recalled(s.0, s.1, s.2, history, true)
    }
}

/// The state after `n` steps down.
pub open spec fn recalled_down(
    query: String,
    at: Option<usize>,
    draft: String,
    history: Seq<String>,
    n: nat,
) -> (String, Option<usize>, String)
    decreases n,
{
    if n == 0 {
        (query, at, draft)
    } else {
        let s = recalled_down(query, at, draft, history, (n - 1) as nat);
        recalled(s.0, s.1, s.2, history, false)
    }
}

proof fn lemma_recalled_up(
    query: String,
    draft: String,
    history: Seq<String>,
    n: nat,
)
    requires
        0 < n <= history.len() <= usize::MAX,
    ensures
        recalled_up(query, None, draft, history, n) == (
            history[n - 1],
            Some((n - 1) as usize),
            query,
        ),
    decreases n,
{
    if n > 1 {
        lemma_recalled_up(query, draft, history, (n - 1) as nat);
    } else {
        assert(recalled_up(query, None, draft, history, 0) == (query, None::<usize>, draft));
    }
}

proof fn lemma_recalled_down(q: String, k: nat, draft: String, history: Seq<String>, n: nat)
    requires
        n <= k < history.len() <= usize::MAX,
        q == history[k as int],
    ensures
        recalled_down(q, Some(k as usize), draft, history, n) == (
            history[k - n],
            Some((k - n) as usize),
            draft,
        ),
    decreases n,
{
    if n > 0 {
        lemma_recalled_down(q, k, draft, history, (n - 1) as nat);
    }
}

/// Walking up the history and as far down again brings back what was typed.
pub proof fn recall_restores_the_draft(
    query: String,
    draft: String,
    history: Seq<String>,
    n: nat,
)
    requires
        0 < n <= history.len() <= usize::MAX,
    ensures
        ({
            let up = recalled_up(query, None, draft, history, n);
            let back = recalled_down(up.0, up.1, up.2, history, n);
            back.0 == query && back.1 is None
        }),
{
    lemma_recalled_up(query, draft, history, n);
    lemma_recalled_down(history[n - 1], (n - 1) as nat, query, history, (n - 1) as nat);
}

/// Walk the filter's recall list. `older` goes further back. Returns whether
/// the query changed and the matches need running again.
pub fn recall_filter_query(state: &mut FilterState, history: &Vec<String>, older: bool) -> (changed:
    bool)
    requires
        !older ==> recall_in_range(old(state).history_pos, history@.len() as int),
    ensures
        recall_in_range(old(state).history_pos, history@.len() as int) ==> recall_in_range(
            final(state).history_pos,
            history@.len() as int,
        ),
        changed == recall_place(old(state).history_pos, history@.len() as int, older) is Some,
        (final(state).query, final(state).history_pos, final(state).draft) == recalled(
            old(state).query,
            old(state).history_pos,
            old(state).draft,
            history@,
            older,
        ),
        *final(state) == (FilterState {
            query: final(state).query,
            history_pos: final(state).history_pos,
            draft: final(state).draft,
            ..*old(state)
        }),
{
    let len: usize = history.len();
    if len == 0 {
        return false;
    }
    let next: Option<usize> = match state.history_pos {
        None => {
            if !older {
                return false;
            }
            Some(0)
        },
        Some(i) => {
            if older {
                if i >= len - 1 {
                    return false;
                }
                Some(i + 1)
            } else if i == 0 {
                None
            } else {
                Some(i - 1)
            }
        },
    };
    if state.history_pos.is_none() {
        state.draft = state.query.clone();
    }
    state.query =
    match next {
        Some(i) => history[i].clone(),
        None => state.draft.clone(),
    };
    state.history_pos = next;
    true
}

/// What a key does in the filter.
#[derive(Clone, Copy, Debug, PartialEq, Eq, Structural)]
pub enum FilterKey {
    Older,
    Newer,
    Close,
    Open,
    Erase,
    Type,
    Ignore,
}

pub open spec fn filter_key_of(key: KeyPress) -> FilterKey {
    if key.code == KEY_UP {
        FilterKey::Older
    } else if key.code == KEY_DOWN {
        FilterKey::Newer
    } else if key.ch == '\u{1B}' {
        FilterKey::Close
    } else if key.ch == '\r' {
        FilterKey::Open
    } else if key.ch == '\u{7F}' || key.ch == '\u{08}' {
        FilterKey::Erase
    } else if typed_char(key.ch) {
        FilterKey::Type
    } else {
        FilterKey::Ignore
    }
}

fn filter_key_for(key: KeyPress) -> (k: FilterKey)
    ensures
        k == filter_key_of(key),
{
    if key.code == KEY_UP {
        FilterKey::Older
    } else if key.code == KEY_DOWN {
        FilterKey::Newer
    } else if key.ch == '\u{1B}' {
        FilterKey::Close
    } else if key.ch == '\r' {
        FilterKey::Open
    } else if key.ch == '\u{7F}' || key.ch == '\u{08}' {
        FilterKey::Erase
    } else if is_typed_char(key.ch) {
        FilterKey::Type
    } else {
        FilterKey::Ignore
    }
}

/// `after` is `before` with the filter closed, its query remembered.
pub open spec fn is_filter_closed(after: KovaView, before: KovaView) -> bool {
    &&& after.effects@ == before.effects@ + (match before.overlays.filter {
        Some(s) => seq![Effect::RecordFilter(s.query)],
        None => seq![],
    }) + seq![Effect::MarkDirty]
    &&& after == (KovaView { overlays: Overlays { filter: None, ..before.overlays }, effects: after.effects, ..before })
}

/// `after` is `before` with the filter closed, its query remembered, and the
/// focused pane scrolled to `line` if there is one.
pub open spec fn is_filter_left(after: KovaView, before: KovaView, line: Option<usize>) -> bool {
    &&& after.effects@ == before.effects@ + (match before.overlays.filter {
        Some(s) => seq![Effect::RecordFilter(s.query)],
        None => seq![],
    }) + seq![Effect::MarkDirty] + (match line {
        Some(l) => seq![Effect::ScrollToLine(l)],
        None => seq![],
    })
    &&& after == (KovaView { overlays: Overlays { filter: None, ..before.overlays }, effects: after.effects, ..before })
}

/// The line of the match at `row`.
pub open spec fn line_of_match(s: FilterState, row: int) -> Option<usize> {
    if row < s.matches@.len() {
        Some(s.matches@[row].abs_line)
    } else {
        None
    }
}

/// `after` is `before` with the filter's query changed to what `s` says and a
/// search of it asked for.
pub open spec fn is_filter_searching(after: KovaView, before: KovaView) -> bool {
    &&& after.overlays.filter is Some
    &&& after.effects@ == before.effects@.push(Effect::FilterSearch)
    &&& after == (KovaView { overlays: Overlays { filter: after.overlays.filter, ..before.overlays }, effects: after.effects, ..before })
}

/// What a key does in the filter.
pub open spec fn is_filter_keyed(
    after: KovaView,
    before: KovaView,
    key: KeyPress,
    history: Seq<String>,
) -> bool {
    &&& (before.overlays.filter is None ==> after == before)
    &&& (before.overlays.filter matches Some(s) ==> match filter_key_of(key) {
        FilterKey::Older | FilterKey::Newer => {
            let older = filter_key_of(key) == FilterKey::Older;
            if recall_place(s.history_pos, history.len() as int, older) is None {
                after == before
            } else {
                let r = recalled(s.query, s.history_pos, s.draft, history, older);
                &&& is_filter_searching(after, before)
                &&& after.overlays.filter == Some(
                    FilterState { query: r.0, history_pos: r.1, draft: r.2, ..s },
                )
            }
        },
        FilterKey::Close => is_filter_closed(after, before),
        FilterKey::Open => is_filter_left(after, before, line_of_match(s, 0)),
        FilterKey::Erase => {
            &&& is_filter_searching(after, before)
            &&& after.overlays.filter->0.query@ == (if s.query@.len() > 0 {
                s.query@.drop_last()
            } else {
                s.query@
            })
            &&& after.overlays.filter->0 == (FilterState {
                query: after.overlays.filter->0.query,
                history_pos: None,
                ..s
            })
        },
        FilterKey::Type => {
            &&& is_filter_searching(after, before)
            &&& after.overlays.filter->0.query@ == s.query@.push(key.ch)
            &&& after.overlays.filter->0 == (FilterState {
                query: after.overlays.filter->0.query,
                history_pos: None,
                ..s
            })
        },
        FilterKey::Ignore => after == before,
    })
    &&& ((before.overlays.filter matches Some(s) ==> recall_in_range(
        s.history_pos,
        history.len() as int,
    )) ==> (after.overlays.filter matches Some(s) ==> recall_in_range(
        s.history_pos,
        history.len() as int,
    )))
}

/// `after` is `before` with the filter closed, or opened when it was closed.
pub open spec fn is_filter_toggled(
    after: KovaView,
    before: KovaView,
) -> bool {
    &&& (before.overlays.filter is Some ==> is_filter_closed(after, before))
    &&& (before.overlays.filter is None ==> {
        &&& after.overlays.filter matches Some(s) && s.query@.len() == 0 && s.matches@.len()
            == 0 && s.history_pos is None && s.draft@.len() == 0
        &&& after.effects@ == before.effects@.push(Effect::MarkDirty)
        &&& after == (KovaView { overlays: Overlays { filter: after.overlays.filter, ..before.overlays }, effects: after.effects, ..before })
    })
}

impl KovaView {
    /// Open the filter, or close it when it is open.
    pub fn toggle_filter(&mut self)
        ensures
            is_filter_toggled(*final(self), *old(self)),
    {
        if self.overlays.filter.is_some() {
            let closed = self.close_filter();
            return;
        }
        self.overlays.filter = Some(
            FilterState {
                query: String::new(),
                matches: Vec::new(),
                history_pos: None,
                draft: String::new(),
            },
        );
        self.mark_dirty();
    }

    /// Close the filter, remembering its query. Returns what was closed. The
    /// one way out, so that no query is dropped unrecorded.
    pub fn close_filter(&mut self) -> (closed: Option<FilterState>)
        ensures
            closed == old(self).overlays.filter,
            is_filter_closed(*final(self), *old(self)),
    {
        let state = self.overlays.filter.take();
        match &state {
            Some(s) => {
                let query = s.query.clone();
                self.emit(Effect::RecordFilter(query));
            },
            None => {},
        }
        self.mark_dirty();
        assert(self.effects@ =~= old(self).effects@ + (match old(self).overlays.filter {
            Some(s) => seq![Effect::RecordFilter(s.query)],
            None => seq![],
        }) + seq![Effect::MarkDirty]);
        state
    }

    /// Close the filter and scroll the focused pane to the match at `row`.
    fn leave_filter(&mut self, row: usize)
        requires
            old(self).overlays.filter is Some,
        ensures
            is_filter_left(
                *final(self),
                *old(self),
                line_of_match(old(self).overlays.filter->0, row as int),
            ),
    {
        let closed = self.close_filter();
        match closed {
            Some(s) => {
                if row < s.matches.len() {
                    let line: usize = s.matches[row].abs_line;
                    self.emit(Effect::ScrollToLine(line));
                }
            },
            None => {},
        }
        assert(self.effects@ =~= old(self).effects@ + (match old(self).overlays.filter {
            Some(s) => seq![Effect::RecordFilter(s.query)],
            None => seq![],
        }) + seq![Effect::MarkDirty] + (match line_of_match(old(self).overlays.filter->0, row as int) {
            Some(l) => seq![Effect::ScrollToLine(l)],
            None => seq![],
        }));
    }

    /// A key in the filter; `history` lists the queries filtered earlier, the
    /// most recent first.
    pub fn handle_filter_key(&mut self, key: KeyPress, history: &Vec<String>)
        requires
            filter_key_of(key) == FilterKey::Newer ==> (old(self).overlays.filter matches Some(s)
                ==> recall_in_range(s.history_pos, history@.len() as int)),
        ensures
            is_filter_keyed(*final(self), *old(self), key, history@),
    {
        if self.overlays.filter.is_none() {
            return;
        }
        let k = filter_key_for(key);
        match k {
            FilterKey::Ignore => {
                return;
            },
            FilterKey::Close => {
                let closed = self.close_filter();
                return;
            },
            FilterKey::Open => {
                self.leave_filter(0);
                return;
            },
            _ => {},
        }
        match self.overlays.filter.take() {
            None => {},
            Some(s) => {
                let mut s = s;
                let mut search = true;
                match k {
                    FilterKey::Older => {
                        search = recall_filter_query(&mut s, history, true);
                    },
                    FilterKey::Newer => {
                        search = recall_filter_query(&mut s, history, false);
                    },
                    FilterKey::Erase => {
                        let gone = s.query.pop();
                        s.history_pos = None;
                    },
                    _ => {
                        s.query.push(key.ch);
                        s.history_pos = None;
                    },
                }
                self.overlays.filter = Some(s);
                if search {
                    self.emit(Effect::FilterSearch);
                }
            },
        }
    }

    /// The matches a search of the filter's query found.
    pub fn set_filter_matches(&mut self, matches: Vec<FilterMatch>)
        ensures
            *final(self) == (KovaView { overlays: Overlays { filter: match old(self).overlays.filter {
                    Some(s) => Some(FilterState { matches, ..s }),
                    None => None,
                }, ..old(self).overlays }, ..*old(self) }),
    {
        match self.overlays.filter.take() {
            Some(s) => {
                let mut s = s;
                s.matches = matches;
                self.overlays.filter = Some(s);
            },
            None => {},
        }
    }

    /// A click in the filter on the row of matches, `None` above them.
    pub fn handle_filter_click(&mut self, row: Option<usize>)
        ensures
            row is None || old(self).overlays.filter is None ==> *final(self) == *old(self),
            row matches Some(r) ==> (old(self).overlays.filter matches Some(s) ==> is_filter_left(
                *final(self),
                *old(self),
                line_of_match(s, r as int),
            )),
    {
        match row {
            Some(r) => {
                if self.overlays.filter.is_some() {
                    self.leave_filter(r);
                }
            },
            None => {},
        }
    }
}

/// The keys of an editor: the arrows move the caret by one character, a
/// printable character goes in where the caret is, and erasing takes the one
/// before it.
pub proof fn keys_edit_at_the_caret(after: RenameState, before: RenameState, key: KeyPress)
    requires
        before.wf(),
        is_edited(after, before, key),
    ensures
        key.code == 0x7B ==> after.input@ == before.input@ && after.cursor == (if before.cursor
            > 0 {
            before.cursor - 1
        } else {
            0
        }),
        key.code == 0x7C ==> after.input@ == before.input@ && after.cursor == (if before.cursor
            < before.input@.len() {
            before.cursor + 1
        } else {
            before.cursor as int
        }),
        key.code != 0x7B && key.code != 0x7C && 'a' <= key.ch <= 'z' ==> {
            &&& after.input@.len() == before.input@.len() + 1
            &&& after.input@[before.cursor as int] == key.ch
            &&& after.input@.remove(before.cursor as int) == before.input@
            &&& after.cursor == before.cursor + 1
        },
        key.code != 0x7B && key.code != 0x7C && key.ch == '\u{7F}' && before.cursor > 0 ==> {
            &&& after.input@ == before.input@.remove(before.cursor - 1)
            &&& after.cursor == before.cursor - 1
        },
{
    if 'a' <= key.ch <= 'z' {
        assert(before.input@.insert(before.cursor as int, key.ch).remove(before.cursor as int)
            =~= before.input@);
    }
}

/// Return names the active tab by what was typed, blanks alone dropping the
/// name; escape leaves the name as it was. Both close the editor.
pub proof fn a_rename_names_the_active_tab(
    after: KovaView,
    before: KovaView,
    key: KeyPress,
    r: RenameState,
)
    requires
        before.has_active(),
        before.overlays.rename_tab == Some(r),
        key.code != 0x7B,
        key.code != 0x7C,
        key.ch == '\r' || key.ch == '\u{1B}',
        is_tab_rename_keyed(after, before, key),
    ensures
        after.overlays.rename_tab is None,
        after.active_tab == before.active_tab,
        after.tabs@.len() == before.tabs@.len(),
        key.ch == '\u{1B}' ==> after.tabs == before.tabs,
        key.ch == '\r' ==> {
            &&& after.active().custom_title == (if text::trimmed(r.input@).len() == 0 {
                None
            } else {
                Some(r.input)
            })
            &&& after.active().panes == before.active().panes
            &&& forall|k: int|
                0 <= k < before.tabs@.len() && k != before.active_tab ==> after.tabs@[k]
                    == before.tabs@[k]
        },
{
}

/// The keys of the filter: up recalls an older query, down a newer one, a
/// character goes to the end of the query, erasing takes the last one, return
/// leads to the first match, and escape closes it.
pub proof fn keys_of_the_filter(
    after: KovaView,
    before: KovaView,
    key: KeyPress,
    history: Seq<String>,
    s: FilterState,
)
    requires
        before.overlays.filter == Some(s),
        history.len() <= usize::MAX,
        recall_in_range(s.history_pos, history.len() as int),
        is_filter_keyed(after, before, key, history),
    ensures
        key.code == 0x7E && s.history_pos is None && history.len() > 0 ==> {
            &&& after.overlays.filter matches Some(f) && f.query == history[0] && f.history_pos
                == Some(0usize) && f.draft == s.query
        },
        key.code == 0x7E && s.history_pos is Some && s.history_pos->0 + 1 < history.len() ==> {
            &&& after.overlays.filter matches Some(f) && f.query == history[s.history_pos->0 + 1]
                && f.draft == s.draft
        },
        key.code == 0x7D && s.history_pos is Some && s.history_pos->0 > 0 && history.len() > 0
            ==> {
            &&& after.overlays.filter matches Some(f) && f.query == history[s.history_pos->0 - 1]
                && f.draft == s.draft
        },
        key.code == 0x7D && s.history_pos == Some(0usize) && history.len() > 0 ==> {
            &&& after.overlays.filter matches Some(f) && f.query == s.draft && f.history_pos is None
        },
        key.code != 0x7E && key.code != 0x7D && 'a' <= key.ch <= 'z' ==> {
            &&& after.overlays.filter matches Some(f) && f.query@ == s.query@ + seq![key.ch]
            &&& after.effects@.contains(Effect::FilterSearch)
        },
        key.code != 0x7E && key.code != 0x7D && key.ch == '\u{7F}' && s.query@.len() > 0 ==> {
            &&& after.overlays.filter matches Some(f) && f.query@ == s.query@.take(
                s.query@.len() - 1,
            )
        },
        key.code != 0x7E && key.code != 0x7D && key.ch == '\r' ==> {
            &&& after.overlays.filter is None
            &&& s.matches@.len() > 0 ==> after.effects@.last() == Effect::ScrollToLine(
                s.matches@[0].abs_line,
            )
        },
        key.code != 0x7E && key.code != 0x7D && key.ch == '\u{1B}' ==> {
            &&& after.overlays.filter is None
            &&& forall|i: int|
                before.effects@.len() <= i < after.effects@.len() ==> !(
                #[trigger] after.effects@[i] is ScrollToLine)
        },
{
    if key.code != 0x7E && key.code != 0x7D && 'a' <= key.ch <= 'z' {
        assert(s.query@.push(key.ch) =~= s.query@ + seq![key.ch]);
        let n = before.effects@.len() as int;
        assert(after.effects@[n] == Effect::FilterSearch);
    }
    if s.query@.len() > 0 {
        assert(s.query@.drop_last() =~= s.query@.take(s.query@.len() - 1));
    }
}

} // verus!
