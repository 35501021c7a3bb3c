//! The global search palette.
use crate::overlays;
use crate::overlays::{apply_edit, is_typed_char, Edit};
use crate::pane::{PaneId, TabId};
use crate::text;
use crate::view::{Effect, KeyPress, KovaView, Overlays, KEY_DOWN, KEY_LEFT, KEY_RIGHT, KEY_UP};
use vstd::prelude::*;

verus! {

/// What a hit points at.
#[derive(Clone, Debug, PartialEq)]
pub enum SearchTarget {
    /// A pane, or a whole tab without one.
    Open { tab_id: TabId, pane_id: Option<PaneId> },
    /// A closed conversation and the directory it ran in.
    Archived { session_id: String, cwd: String },
    /// A query searched earlier: opening it types it again.
    Recall { query: String },
}

#[derive(Clone, Debug, PartialEq)]
pub struct SearchHit {
    pub target: SearchTarget,
    pub label: String,
}

/// A row of the result list: a group title, or a hit.
#[derive(Clone, Debug, PartialEq)]
pub enum SearchRow {
    Header(String),
    Hit(SearchHit),
}

/// The search palette.
#[derive(Debug, PartialEq)]
pub struct SearchPaletteState {
    pub query: String,
    /// The caret in `query`, in characters.
    pub cursor: usize,
    /// Bumped on each search, so that the answer to an earlier one is told
    /// apart.
    pub query_id: u64,
    /// The channel the running search answers on; no other one is heard.
    pub rx: Option<u64>,
    pub searching: bool,
    /// The query the rows answer.
    pub submitted_query: String,
    pub rows: Vec<SearchRow>,
    /// The selected row; a hit whenever there is one.
    pub selected: usize,
    /// Index of the first row shown.
    pub scroll: usize,
    /// The query changed and a search is owed.
    pub needs_search: bool,
    /// When the query was last edited, in milliseconds.
    pub last_edit: Option<u64>,
}

/// What a search found: the channel it came on, the number of its query, and
/// the rows.
#[derive(Debug, PartialEq)]
pub struct SearchAnswer {
    pub channel: u64,
    pub query_id: u64,
    pub rows: Vec<SearchRow>,
}

/// A tab as the search sees it.
#[derive(Debug, PartialEq)]
pub struct SearchTabSnapshot {
    pub tab_id: TabId,
    pub title: String,
}

/// A pane as the search sees it.
#[derive(Debug, PartialEq)]
pub struct SearchPaneSnapshot {
    pub tab_id: TabId,
    pub tab_title: String,
    pub pane_id: PaneId,
    pub pane_title: String,
}

/// A closed conversation that matches, ready to list.
#[derive(Debug, PartialEq)]
pub struct ArchivedHit {
    pub session_id: String,
    pub cwd: String,
    pub label: String,
}

/// The closed conversations to list, out of `total` that match.
#[derive(Debug, PartialEq)]
pub struct ArchivedHits {
    pub hits: Vec<ArchivedHit>,
    pub total: usize,
}

/// A row of the result list with its text.
pub enum RowText {
    Header(Seq<char>),
    Hit(SearchTarget, Seq<char>),
}

impl SearchRow {
    pub fn is_hit(&self) -> (r: bool)
        ensures
            r == (self is Hit),
    {
        matches!(self, SearchRow::Hit(_))
    }
}

pub open spec fn row_text(r: SearchRow) -> RowText {
    match r {
        SearchRow::Header(s) => RowText::Header(s@),
        SearchRow::Hit(h) => RowText::Hit(h.target, h.label@),
    }
}

/// The rows with their texts.
pub open spec fn row_texts(rows: Seq<SearchRow>) -> Seq<RowText> {
    rows.map_values(|r: SearchRow| row_text(r))
}

proof fn lemma_row_pushed(rows: Seq<SearchRow>, r: SearchRow)
    ensures
        row_texts(rows.push(r)) == row_texts(rows).push(row_text(r)),
{
    assert(row_texts(rows.push(r)) =~= row_texts(rows).push(row_text(r)));
}

// ---------------------------------------------------------------
// Terms
// ---------------------------------------------------------------

/// What separates the terms of a query.
pub open spec fn separates(c: char) -> bool {
    c == ' ' || c == ','
}

/// The list with `t` at its end, unless it is empty.
pub open spec fn with_term(terms: Seq<Seq<char>>, t: Seq<char>) -> Seq<Seq<char>> {
    if t.len() == 0 {
        terms
    } else {
        terms.push(t)
    }
}

/// The terms a text ends, and the one it leaves open.
pub open spec fn cut(q: Seq<char>) -> (Seq<Seq<char>>, Seq<char>)
    decreases q.len(),
{
    if q.len() == 0 {
        (seq![], seq![])
    } else {
        let (done, open) = cut(q.drop_last());
        if separates(q.last()) {
            (with_term(done, open), seq![])
        } else {
            (done, open.push(q.last()))
        }
    }
}

/// The terms of a query, in lower case.
pub open spec fn terms_of(query: Seq<char>) -> Seq<Seq<char>> {
    let (done, open) = cut(text::lowered(query));
    with_term(done, open)
}

/// A text without a separator.
pub open spec fn unbroken(t: Seq<char>) -> bool {
    forall|k: int| 0 <= k < t.len() ==> !separates(#[trigger] t[k])
}

/// No term is empty, and none holds a separator.
pub proof fn terms_are_words(query: Seq<char>)
    ensures
        forall|i: int|
            0 <= i < terms_of(query).len() ==> (#[trigger] terms_of(query)[i]).len() > 0
                && unbroken(terms_of(query)[i]),
{
    lemma_cut(text::lowered(query));
}

proof fn lemma_cut(q: Seq<char>)
    ensures
        forall|i: int|
            0 <= i < cut(q).0.len() ==> (#[trigger] cut(q).0[i]).len() > 0 && unbroken(cut(q).0[i]),
        unbroken(cut(q).1),
    decreases q.len(),
{
    if q.len() > 0 {
        let (done, open) = cut(q.drop_last());
        lemma_cut(q.drop_last());
        if separates(q.last()) {
            assert forall|i: int| 0 <= i < cut(q).0.len() implies (#[trigger] cut(q).0[i]).len() > 0
                && unbroken(cut(q).0[i]) by {
                if i < done.len() {
                    assert(cut(q).0[i] == done[i]);
                }
            }
        } else {
            assert(cut(q).1 == open.push(q.last()));
        }
    }
}

/// A word of the text: a longest run without a space or a comma, from `from`
/// up to `to`.
pub open spec fn is_word(s: Seq<char>, from: int, to: int) -> bool {
    &&& 0 <= from < to <= s.len()
    &&& forall|k: int| from <= k < to ==> #[trigger] s[k] != ' ' && s[k] != ','
    &&& from > 0 ==> s[from - 1] == ' ' || s[from - 1] == ','
    &&& to < s.len() ==> s[to] == ' ' || s[to] == ','
}

proof fn lemma_cut_words(q: Seq<char>)
    ensures
        cut(q).1.len() <= q.len(),
        cut(q).1 == q.skip(q.len() - cut(q).1.len()),
        cut(q).1.len() < q.len() ==> separates(q[q.len() - cut(q).1.len() - 1]),
        unbroken(cut(q).1),
        forall|i: int|
            0 <= i < cut(q).0.len() ==> exists|from: int, to: int| #[trigger]
                is_word(q, from, to) && to < q.len() && q.subrange(from, to) == #[trigger] cut(
                    q,
                ).0[i],
        forall|from: int, to: int| #[trigger]
            is_word(q, from, to) && to < q.len() ==> cut(q).0.contains(q.subrange(from, to)),
    decreases q.len(),
{
    lemma_cut(q);
    if q.len() > 0 {
        let prev = q.drop_last();
        let n = prev.len() as int;
        lemma_cut_words(prev);
        let (done, open) = cut(prev);
        let start = n - open.len();
        if separates(q.last()) {
            assert(q.skip(q.len() as int) =~= seq![]);
            if open.len() > 0 {
                assert(is_word(q, start, n)) by {
                    assert forall|k: int| start <= k < n implies #[trigger] q[k] != ' ' && q[k]
                        != ',' by {
                        assert(open[k - start] == prev[k]);
                        assert(!separates(open[k - start]));
                    }
                }
                assert(q.subrange(start, n) =~= open);
            }
        } else {
            assert(open.push(q.last()) =~= q.skip(start));
        }
        let next = cut(q).0;
        assert forall|i: int| 0 <= i < next.len() implies exists|from: int, to: int| #[trigger]
            is_word(q, from, to) && to < q.len() && q.subrange(from, to) == #[trigger] next[i] by {
            if i < done.len() {
                assert(next[i] == done[i]);
                let (from, to) = choose|from: int, to: int| #[trigger]
                    is_word(prev, from, to) && to < prev.len() && prev.subrange(from, to) == done[i];
                assert(is_word(q, from, to)) by {
                    assert forall|k: int| from <= k < to implies #[trigger] q[k] != ' ' && q[k]
                        != ',' by {
                        assert(prev[k] == q[k]);
                    }
                    assert(prev[to] == q[to]);
                }
                assert(q.subrange(from, to) =~= prev.subrange(from, to));
            } else {
                assert(next[i] == open);
                assert(is_word(q, start, n));
            }
        }
        assert forall|from: int, to: int| #[trigger] is_word(q, from, to) && to < q.len() implies next.contains(
            q.subrange(from, to),
        ) by {
            if to < n {
                assert(is_word(prev, from, to)) by {
                    assert forall|k: int| from <= k < to implies #[trigger] prev[k] != ' '
                        && prev[k] != ',' by {
                        assert(prev[k] == q[k]);
                    }
                }
                assert(q.subrange(from, to) =~= prev.subrange(from, to));
                assert(done.contains(prev.subrange(from, to)));
                let j = choose|j: int| 0 <= j < done.len() && done[j] == prev.subrange(from, to);
                assert(next[j] == done[j]);
            } else {
                assert(q[n] == q.last());
                assert(from == start) by {
                    if from < start {
                        assert(q[start - 1] == prev[start - 1]);
                    }
                    if from > start {
                        assert(open[from - 1 - start] == prev[from - 1]);
                        assert(!separates(open[from - 1 - start]));
                    }
                }
                assert(q.subrange(from, to) =~= open);
                assert(next[next.len() - 1] == open);
            }
        }
    }
}

/// The terms of a query are its words in lower case: every run between spaces
/// and commas is a term, and there is no other.
pub proof fn the_terms_are_the_words(query: Seq<char>, t: Seq<char>)
    ensures
        terms_of(query).contains(t) <==> exists|from: int, to: int| #[trigger]
            is_word(text::lowered(query), from, to) && text::lowered(query).subrange(from, to) == t,
{
    let q = text::lowered(query);
    lemma_cut_words(q);
    let (done, open) = cut(q);
    let all = with_term(done, open);
    let start = q.len() - open.len();
    if open.len() > 0 {
        assert(is_word(q, start, q.len() as int)) by {
            assert forall|k: int| start <= k < q.len() implies #[trigger] q[k] != ' ' && q[k]
                != ',' by {
                assert(open[k - start] == q[k]);
                assert(!separates(open[k - start]));
            }
        }
        assert(q.subrange(start, q.len() as int) =~= open);
    }
    if all.contains(t) {
        let i = choose|i: int| 0 <= i < all.len() && all[i] == t;
        if i < done.len() {
            assert(all[i] == done[i]);
            let (from, to) = choose|from: int, to: int| #[trigger]
                is_word(q, from, to) && to < q.len() && q.subrange(from, to) == done[i];
            assert(is_word(q, from, to));
        } else {
            assert(is_word(q, start, q.len() as int));
        }
    }
    if exists|from: int, to: int| #[trigger] is_word(q, from, to) && q.subrange(from, to) == t {
        let (from, to) = choose|from: int, to: int| #[trigger]
            is_word(q, from, to) && q.subrange(from, to) == t;
        if to < q.len() {
            assert(done.contains(t));
            let j = choose|j: int| 0 <= j < done.len() && done[j] == t;
            assert(all[j] == t);
        } else {
            assert(from == start) by {
                if from < start {
                    assert(separates(q[start - 1]));
                }
                if from > start {
                    assert(open[from - 1 - start] == q[from - 1]);
                    assert(!separates(open[from - 1 - start]));
                }
            }
            assert(q.subrange(from, to) =~= open);
            assert(all[all.len() - 1] == t);
        }
    }
}

fn end_term(terms: &mut Vec<String>, open: String)
    ensures
        text::texts(final(terms)@) == with_term(text::texts(old(terms)@), open@),
{
    if !open.as_str().is_empty() {
        let ghost before = terms@;
        terms.push(open);
        assert(text::texts(terms@) =~= text::texts(before).push(open@));
    }
}

/// Cut a query into its terms, on spaces and commas.
pub fn split_terms(query: &str) -> (terms: Vec<String>)
    ensures
        text::texts(terms@) == terms_of(query@),
{
    let low = text::lower_text(query);
    let v = text::chars_of(low.as_str());
    let mut terms: Vec<String> = Vec::new();
    let mut open = String::new();
    assert(v@.take(0) =~= seq![]);
    assert(text::texts(terms@) =~= seq![]);
    for i in 0..v.len()
        invariant
            text::texts(terms@) == cut(v@.take(i as int)).0,
            open@ == cut(v@.take(i as int)).1,
    {
        assert(v@.take(i + 1).drop_last() =~= v@.take(i as int));
        if v[i] == ' ' || v[i] == ',' {
            end_term(&mut terms, open);
            open = String::new();
        } else {
            open.push(v[i]);
        }
    }
    assert(v@.take(v@.len() as int) =~= v@);
    end_term(&mut terms, open);
    terms
}

/// The terms that do not stand in `low`.
pub open spec fn missing_terms(terms: Seq<Seq<char>>, low: Seq<char>) -> Seq<Seq<char>>
    decreases terms.len(),
{
    if terms.len() == 0 {
        seq![]
    } else if text::holds_text(low, terms.last()) {
        missing_terms(terms.drop_last(), low)
    } else {
        missing_terms(terms.drop_last(), low).push(terms.last())
    }
}

/// A term is missing if and only if it stands nowhere.
pub proof fn nothing_is_missing_from_a_match(terms: Seq<Seq<char>>, low: Seq<char>)
    ensures
        missing_terms(terms, low).len() == 0 <==> forall|i: int|
            0 <= i < terms.len() ==> text::holds_text(low, #[trigger] terms[i]),
    decreases terms.len(),
{
    if terms.len() > 0 {
        let prev = terms.drop_last();
        nothing_is_missing_from_a_match(prev, low);
        if missing_terms(terms, low).len() == 0 {
            assert forall|i: int| 0 <= i < terms.len() implies text::holds_text(
                low,
                #[trigger] terms[i],
            ) by {
                if i < prev.len() {
                    assert(text::holds_text(low, prev[i]));
                }
            }
        }
        if forall|i: int| 0 <= i < terms.len() ==> text::holds_text(low, #[trigger] terms[i]) {
            assert forall|i: int| 0 <= i < prev.len() implies text::holds_text(
                low,
                #[trigger] prev[i],
            ) by {
                assert(text::holds_text(low, terms[i]));
            }
            assert(text::holds_text(low, terms[terms.len() - 1]));
        }
    }
}

fn find_missing(terms: &Vec<String>, low: &str) -> (missing: Vec<String>)
    ensures
        text::texts(missing@) == missing_terms(text::texts(terms@), low@),
{
    let ghost all = text::texts(terms@);
    let mut missing: Vec<String> = Vec::new();
    assert(all.take(0) =~= seq![]);
    assert(text::texts(missing@) =~= seq![]);
    for i in 0..terms.len()
        invariant
            all == text::texts(terms@),
            text::texts(missing@) == missing_terms(all.take(i as int), low@),
    {
        proof {
            assert(all.take(i + 1).drop_last() =~= all.take(i as int));
            assert(all.take(i + 1).last() == terms@[i as int]@);
        }
        if !text::text_in(low, terms[i].as_str()) {
            let ghost before = missing@;
            missing.push(terms[i].clone());
            assert(text::texts(missing@) =~= text::texts(before).push(terms@[i as int]@));
        }
    }
    assert(all.take(all.len() as int) =~= all);
    missing
}

// ---------------------------------------------------------------
// Snippets
// ---------------------------------------------------------------

/// Characters of a snippet.
pub const MAX_SNIPPET_CHARS: usize = 90;

/// Characters of context kept before the match, so that it does not sit on the
/// edge.
pub const LEAD_CHARS: usize = 20;

/// A line cut to fit one row around the match at `at`.
pub open spec fn cut_line(line: Seq<char>, at: int) -> Seq<char> {
    let start = if at > LEAD_CHARS {
        at - LEAD_CHARS
    } else {
        0
    };
    let end = if start + MAX_SNIPPET_CHARS < line.len() {
        start + MAX_SNIPPET_CHARS
    } else {
        line.len() as int
    };
    (if start > 0 {
        seq!['…']
    } else {
        seq![]
    }) + line.subrange(start, end) + (if end < line.len() {
        seq!['…']
    } else {
        seq![]
    })
}

/// The line of `dump` around the character at `pos`.
pub open spec fn line_around(dump: Seq<char>, pos: int) -> Seq<char> {
    dump.subrange(
        text::last_pos(dump.take(pos), '\n') + 1,
        text::next_pos(dump, '\n', pos),
    )
}

/// Where the character at `pos` sits in its line once the line is trimmed.
pub open spec fn place_in_line(dump: Seq<char>, pos: int) -> int {
    let raw = line_around(dump, pos);
    let margin = raw.len() - text::trim_start(raw).len();
    let at = pos - (text::last_pos(dump.take(pos), '\n') + 1) - margin;
    if at < 0 {
        0
    } else if at > text::trimmed(raw).len() {
        text::trimmed(raw).len() as int
    } else {
        at
    }
}

/// The line of a pane's text that holds `term`, cut to fit one row.
pub open spec fn snippet(dump: Seq<char>, term: Seq<char>) -> Option<Seq<char>> {
    let pos = text::first_match(text::lowered(dump), term, 0);
    if pos < 0 || text::trimmed(line_around(dump, pos)).len() == 0 {
        None
    } else {
        Some(cut_line(text::trimmed(line_around(dump, pos)), place_in_line(dump, pos)))
    }
}

/// A snippet never takes more than its characters and the two marks.
pub proof fn snippets_fit_one_row(line: Seq<char>, at: int)
    requires
        0 <= at <= line.len(),
    ensures
        cut_line(line, at).len() <= MAX_SNIPPET_CHARS + 2,
        line.len() <= MAX_SNIPPET_CHARS && at <= LEAD_CHARS ==> cut_line(line, at) == line,
{
    if line.len() <= MAX_SNIPPET_CHARS && at <= LEAD_CHARS {
        assert(cut_line(line, at) =~= line);
    }
}

fn cut_to_row(line: &Vec<char>, from: usize, to: usize, at: usize) -> (r: String)
    requires
        from <= to <= line@.len(),
        at <= to - from,
    ensures
        r@ == cut_line(line@.subrange(from as int, to as int), at as int),
{
    let ghost l = line@.subrange(from as int, to as int);
    let len: usize = to - from;
    let start: usize = if at > LEAD_CHARS {
        at - LEAD_CHARS
    } else {
        0
    };
    let end: usize = if len - start > MAX_SNIPPET_CHARS {
        start + MAX_SNIPPET_CHARS
    } else {
        len
    };
    let mut out = String::new();
    if start > 0 {
        out.push('…');
    }
    text::push_between(&mut out, line, from + start, from + end);
    if end < len {
        out.push('…');
    }
    proof {
        assert(line@.subrange(from + start, from + end) =~= l.subrange(start as int, end as int));
        assert(out@ =~= cut_line(l, at as int));
    }
    out
}

/// The line of a pane's text that explains why it matched `term`, cut to fit
/// one row; `lower` is the text in lower case.
pub fn content_snippet(text: &str, lower: &str, term: &str) -> (r: Option<String>)
    requires
        lower@ == text::lowered(text@),
    ensures
        match r {
            Some(s) => snippet(text@, term@) == Some(s@),
            None => snippet(text@, term@) is None,
        },
{
    let v = text::chars_of(text);
    let low = text::chars_of(lower);
    let t = text::chars_of(term);
    let pos: usize = match text::find_text(&low, &t, 0) {
        Some(p) => p,
        None => {
            return None;
        },
    };
    let line_start = text::find_after_last(&v, pos, '\n');
    let line_end = text::find_next(&v, '\n', pos);
    let raw = text::text_between(&v, line_start, line_end);
    let raw = text::chars_of(raw.as_str());
    assert(raw@ =~= line_around(text@, pos as int));
    let from = text::find_start(&raw);
    let to = text::find_end(&raw, from);
    if from == to {
        return None;
    }
    let inside: usize = pos - line_start;
    let at: usize = if inside < from {
        0
    } else if inside - from > to - from {
        to - from
    } else {
        inside - from
    };
    Some(cut_to_row(&raw, from, to, at))
}

// ---------------------------------------------------------------
// The search
// ---------------------------------------------------------------

/// The terms a pane's title leaves to its text.
pub open spec fn left_to_text(terms: Seq<Seq<char>>, p: SearchPaneSnapshot) -> Seq<Seq<char>> {
    missing_terms(terms, text::lowered(p.pane_title@))
}

/// Every term stands in the pane's title or in its text.
pub open spec fn pane_matches(
    terms: Seq<Seq<char>>,
    p: SearchPaneSnapshot,
    dump: Seq<char>,
) -> bool {
    missing_terms(left_to_text(terms, p), text::lowered(dump)).len() == 0
}

/// A pane's title, and the line that explains the match where the title alone
/// does not.
pub open spec fn pane_label(
    terms: Seq<Seq<char>>,
    p: SearchPaneSnapshot,
    dump: Seq<char>,
) -> Seq<char> {
    let left = left_to_text(terms, p);
    if left.len() == 0 {
        p.pane_title@
    } else {
        match snippet(dump, left[0]) {
            Some(s) => p.pane_title@ + "  ·  "@ + s,
            None => p.pane_title@,
        }
    }
}

/// The tab of the last pane that matches.
pub open spec fn last_tab(
    terms: Seq<Seq<char>>,
    panes: Seq<SearchPaneSnapshot>,
    dumps: Seq<Seq<char>>,
    n: int,
) -> Option<TabId>
    decreases n,
{
    if n <= 0 {
        None
    } else if pane_matches(terms, panes[n - 1], dumps[n - 1]) {
        Some(panes[n - 1].tab_id)
    } else {
        last_tab(terms, panes, dumps, n - 1)
    }
}

/// The rows of the first `n` panes: those that match, under a header each time
/// the tab changes.
pub open spec fn pane_rows(
    terms: Seq<Seq<char>>,
    panes: Seq<SearchPaneSnapshot>,
    dumps: Seq<Seq<char>>,
    n: int,
) -> Seq<RowText>
    decreases n,
{
    if n <= 0 {
        seq![]
    } else {
        let p = panes[n - 1];
        let before = pane_rows(terms, panes, dumps, n - 1);
        if pane_matches(terms, p, dumps[n - 1]) {
            (if last_tab(terms, panes, dumps, n - 1) == Some(p.tab_id) {
                before
            } else {
                before.push(RowText::Header(p.tab_title@))
            }).push(
                RowText::Hit(
                    SearchTarget::Open { tab_id: p.tab_id, pane_id: Some(p.pane_id) },
                    pane_label(terms, p, dumps[n - 1]),
                ),
            )
        } else {
            before
        }
    }
}

/// Every term stands in the tab's title.
pub open spec fn tab_matches(terms: Seq<Seq<char>>, t: SearchTabSnapshot) -> bool {
    missing_terms(terms, text::lowered(t.title@)).len() == 0
}

/// The rows of the first `n` tabs: a header, then those that match; nothing
/// when none does.
pub open spec fn tab_rows(terms: Seq<Seq<char>>, tabs: Seq<SearchTabSnapshot>, n: int) -> Seq<
    RowText,
>
    decreases n,
{
    if n <= 0 {
        seq![]
    } else {
        let before = tab_rows(terms, tabs, n - 1);
        if tab_matches(terms, tabs[n - 1]) {
            (if before.len() == 0 {
                before.push(RowText::Header("Tabs"@))
            } else {
                before
            }).push(
                RowText::Hit(
                    SearchTarget::Open { tab_id: tabs[n - 1].tab_id, pane_id: None },
                    tabs[n - 1].title@,
                ),
            )
        } else {
            before
        }
    }
}

/// The header over the closed conversations: it says how many were cut.
pub open spec fn archived_header(agent: Seq<char>, shown: nat, total: nat) -> Seq<char> {
    agent + " sessions (closed)"@ + (if total > shown {
        " — best "@ + text::decimal(shown) + " of "@ + text::decimal(total)
    } else {
        seq![]
    })
}

/// The rows of the closed conversations.
pub open spec fn archived_rows(agent: Seq<char>, a: ArchivedHits) -> Seq<RowText> {
    if a.hits@.len() == 0 {
        seq![]
    } else {
        seq![
            RowText::Header(archived_header(agent, a.hits@.len(), a.total as nat)),
        ] + a.hits@.map_values(
            |h: ArchivedHit|
                RowText::Hit(
                    SearchTarget::Archived { session_id: h.session_id, cwd: h.cwd },
                    h.label@,
                ),
        )
    }
}

/// What a search answers: nothing without a term, else the panes grouped by
/// tab, the tabs, and the closed conversations.
pub open spec fn search_rows(
    query: Seq<char>,
    tabs: Seq<SearchTabSnapshot>,
    panes: Seq<SearchPaneSnapshot>,
    dumps: Seq<Seq<char>>,
    agent: Seq<char>,
    archived: ArchivedHits,
) -> Seq<RowText> {
    let terms = terms_of(query);
    if terms.len() == 0 {
        seq![]
    } else {
        pane_rows(terms, panes, dumps, panes.len() as int) + tab_rows(
            terms,
            tabs,
            tabs.len() as int,
        ) + archived_rows(agent, archived)
    }
}

/// How many of the first `n` panes match.
pub open spec fn panes_found(
    terms: Seq<Seq<char>>,
    panes: Seq<SearchPaneSnapshot>,
    dumps: Seq<Seq<char>>,
    n: int,
) -> int
    decreases n,
{
    if n <= 0 {
        0
    } else {
        panes_found(terms, panes, dumps, n - 1) + if pane_matches(terms, panes[n - 1], dumps[n - 1]) {
            1int
        } else {
            0
        }
    }
}

/// The hits among the rows.
pub open spec fn hits_in(rows: Seq<RowText>) -> int
    decreases rows.len(),
{
    if rows.len() == 0 {
        0
    } else {
        hits_in(rows.drop_last()) + if rows.last() is Hit {
            1int
        } else {
            0
        }
    }
}

proof fn lemma_hits_pushed(rows: Seq<RowText>, r: RowText)
    ensures
        hits_in(rows.push(r)) == hits_in(rows) + if r is Hit {
            1int
        } else {
            0
        },
{
    assert(rows.push(r).drop_last() =~= rows);
}

/// A pane is listed once however often it matches: the pane section holds as
/// many hits as there are panes that match.
pub proof fn each_pane_is_listed_once(
    terms: Seq<Seq<char>>,
    panes: Seq<SearchPaneSnapshot>,
    dumps: Seq<Seq<char>>,
    n: int,
)
    requires
        0 <= n <= panes.len(),
    ensures
        hits_in(pane_rows(terms, panes, dumps, n)) == panes_found(terms, panes, dumps, n),
    decreases n,
{
    if n > 0 {
        each_pane_is_listed_once(terms, panes, dumps, n - 1);
        let p = panes[n - 1];
        let before = pane_rows(terms, panes, dumps, n - 1);
        if pane_matches(terms, p, dumps[n - 1]) {
            let header = before.push(RowText::Header(p.tab_title@));
            let hit = RowText::Hit(
                SearchTarget::Open { tab_id: p.tab_id, pane_id: Some(p.pane_id) },
                pane_label(terms, p, dumps[n - 1]),
            );
            lemma_hits_pushed(before, RowText::Header(p.tab_title@));
            lemma_hits_pushed(header, hit);
            lemma_hits_pushed(before, hit);
        }
    }
}

/// `t` is a piece of `s`: the characters of `s` from some place on are those of
/// `t`.
pub open spec fn is_piece(s: Seq<char>, t: Seq<char>) -> bool {
    exists|from: int, to: int|
        0 <= from <= to <= s.len() && to - from == t.len() && #[trigger] s.subrange(from, to) == t
}

proof fn lemma_piece(s: Seq<char>, t: Seq<char>)
    ensures
        text::holds_text(s, t) <==> is_piece(s, t),
{
    text::lemma_first_match(s, t, 0);
    if text::holds_text(s, t) {
        let at = text::first_match(s, t, 0);
        assert(s.subrange(at, at + t.len()) =~= t);
    }
    if is_piece(s, t) {
        let (from, to) = choose|from: int, to: int|
            0 <= from <= to <= s.len() && to - from == t.len() && #[trigger] s.subrange(from, to)
                == t;
        assert(text::stands_at(s, t, from)) by {
            assert forall|k: int| 0 <= k < t.len() implies s[from + k] == t[k] by {
                assert(s.subrange(from, to)[k] == t[k]);
            }
            assert(s.subrange(from, from + t.len()) =~= t);
        }
    }
}

proof fn lemma_missing(terms: Seq<Seq<char>>, low: Seq<char>)
    ensures
        forall|i: int|
            0 <= i < terms.len() && !text::holds_text(low, #[trigger] terms[i]) ==> missing_terms(
                terms,
                low,
            ).contains(terms[i]),
        forall|j: int|
            0 <= j < missing_terms(terms, low).len() ==> terms.contains(
                #[trigger] missing_terms(terms, low)[j],
            ) && !text::holds_text(low, missing_terms(terms, low)[j]),
    decreases terms.len(),
{
    if terms.len() > 0 {
        let prev = terms.drop_last();
        lemma_missing(prev, low);
        let m = missing_terms(terms, low);
        let mp = missing_terms(prev, low);
        assert forall|i: int|
            0 <= i < terms.len() && !text::holds_text(low, #[trigger] terms[i]) implies m.contains(
            terms[i],
        ) by {
            if i < prev.len() {
                assert(prev[i] == terms[i]);
                assert(mp.contains(terms[i]));
                let j = choose|j: int| 0 <= j < mp.len() && mp[j] == terms[i];
                assert(m[j] == terms[i]);
            } else {
                assert(m[m.len() - 1] == terms[i]);
            }
        }
        assert forall|j: int| 0 <= j < m.len() implies terms.contains(#[trigger] m[j])
            && !text::holds_text(low, m[j]) by {
            if j < mp.len() {
                assert(m[j] == mp[j]);
                let i = choose|i: int| 0 <= i < prev.len() && prev[i] == mp[j];
                assert(terms[i] == m[j]);
            } else {
                assert(m[j] == terms[terms.len() - 1]);
            }
        }
    }
}

/// Each of the terms is a piece of one of the two texts.
pub open spec fn all_stand_in(terms: Seq<Seq<char>>, a: Seq<char>, b: Seq<char>) -> bool {
    forall|i: int|
        0 <= i < terms.len() ==> is_piece(a, #[trigger] terms[i]) || is_piece(b, terms[i])
}

/// A pane matches if and only if each term is a piece of its title or of its
/// text, whatever their case.
proof fn lemma_pane_matches(terms: Seq<Seq<char>>, p: SearchPaneSnapshot, dump: Seq<char>)
    ensures
        pane_matches(terms, p, dump) <==> all_stand_in(
            terms,
            text::lowered(p.pane_title@),
            text::lowered(dump),
        ),
{
    let title = text::lowered(p.pane_title@);
    let low = text::lowered(dump);
    let left = missing_terms(terms, title);
    lemma_missing(terms, title);
    lemma_missing(left, low);
    if pane_matches(terms, p, dump) {
        assert forall|i: int| 0 <= i < terms.len() implies is_piece(title, #[trigger] terms[i])
            || is_piece(low, terms[i]) by {
            lemma_piece(title, terms[i]);
            lemma_piece(low, terms[i]);
            if !text::holds_text(title, terms[i]) {
                assert(left.contains(terms[i]));
                let j = choose|j: int| 0 <= j < left.len() && left[j] == terms[i];
                if !text::holds_text(low, left[j]) {
                    assert(missing_terms(left, low).contains(left[j]));
                }
            }
        }
    } else {
        let u = missing_terms(left, low)[0];
        assert(left.contains(u) && !text::holds_text(low, u));
        let j = choose|j: int| 0 <= j < left.len() && left[j] == u;
        assert(terms.contains(left[j]) && !text::holds_text(title, left[j]));
        let i = choose|i: int| 0 <= i < terms.len() && terms[i] == u;
        lemma_piece(title, u);
        lemma_piece(low, u);
        assert(!(is_piece(title, terms[i]) || is_piece(low, terms[i])));
    }
}

/// The rows hold a hit that leads to the target.
pub open spec fn leads_to(rows: Seq<RowText>, target: SearchTarget) -> bool {
    exists|r: int|
        0 <= r < rows.len() && (#[trigger] rows[r] matches RowText::Hit(t, _) && t == target)
}

/// Among the first `n` panes is one with these ids whose title or text holds
/// each of the terms.
pub open spec fn some_pane_holds(
    terms: Seq<Seq<char>>,
    panes: Seq<SearchPaneSnapshot>,
    dumps: Seq<Seq<char>>,
    n: int,
    tab_id: TabId,
    pane_id: PaneId,
) -> bool {
    exists|k: int|
        0 <= k < n && (#[trigger] panes[k]).tab_id == tab_id && panes[k].pane_id == pane_id
            && all_stand_in(terms, text::lowered(panes[k].pane_title@), text::lowered(dumps[k]))
}

proof fn lemma_pane_rows(
    terms: Seq<Seq<char>>,
    panes: Seq<SearchPaneSnapshot>,
    dumps: Seq<Seq<char>>,
    n: int,
    tab_id: TabId,
    pane_id: PaneId,
)
    requires
        0 <= n <= panes.len(),
    ensures
        leads_to(
            pane_rows(terms, panes, dumps, n),
            SearchTarget::Open { tab_id, pane_id: Some(pane_id) },
        ) <==> some_pane_holds(terms, panes, dumps, n, tab_id, pane_id),
        forall|r: int|
            0 <= r < pane_rows(terms, panes, dumps, n).len() ==> (#[trigger] pane_rows(
                terms,
                panes,
                dumps,
                n,
            )[r] matches RowText::Hit(t, _) ==> t is Open && t->pane_id is Some),
    decreases n,
{
    if n > 0 {
        lemma_pane_rows(terms, panes, dumps, n - 1, tab_id, pane_id);
        let target = SearchTarget::Open { tab_id, pane_id: Some(pane_id) };
        let p = panes[n - 1];
        let before = pane_rows(terms, panes, dumps, n - 1);
        let rows = pane_rows(terms, panes, dumps, n);
        lemma_pane_matches(terms, p, dumps[n - 1]);
        assert forall|r: int| 0 <= r < before.len() implies rows[r] == before[r] by {}
        if leads_to(before, target) {
            let r = choose|r: int|
                0 <= r < before.len() && (#[trigger] before[r] matches RowText::Hit(t, _) && t
                    == target);
            assert(rows[r] == before[r]);
        }
        if some_pane_holds(terms, panes, dumps, n - 1, tab_id, pane_id) {
            let k = choose|k: int|
                0 <= k < n - 1 && (#[trigger] panes[k]).tab_id == tab_id && panes[k].pane_id
                    == pane_id && all_stand_in(
                    terms,
                    text::lowered(panes[k].pane_title@),
                    text::lowered(dumps[k]),
                );
            assert(panes[k].tab_id == tab_id);
        }
        if pane_matches(terms, p, dumps[n - 1]) {
            let last = rows.len() - 1;
            assert(rows[last] is Hit);
            if p.tab_id == tab_id && p.pane_id == pane_id {
                assert(rows[last] matches RowText::Hit(t, _) && t == target);
                assert(leads_to(rows, target));
                assert(panes[n - 1].tab_id == tab_id);
                assert(some_pane_holds(terms, panes, dumps, n, tab_id, pane_id));
            } else if leads_to(rows, target) {
                let r = choose|r: int|
                    0 <= r < rows.len() && (#[trigger] rows[r] matches RowText::Hit(t, _) && t
                        == target);
                assert(r < before.len());
                assert(before[r] == rows[r]);
            }
        }
    }
}

proof fn lemma_tab_rows(terms: Seq<Seq<char>>, tabs: Seq<SearchTabSnapshot>, n: int, tab_id: TabId)
    requires
        0 <= n <= tabs.len(),
    ensures
        leads_to(tab_rows(terms, tabs, n), SearchTarget::Open { tab_id, pane_id: None }) <==> (
        exists|k: int|
            0 <= k < n && (#[trigger] tabs[k]).tab_id == tab_id && all_stand_in(
                terms,
                text::lowered(tabs[k].title@),
                text::lowered(tabs[k].title@),
            )),
        forall|r: int|
            0 <= r < tab_rows(terms, tabs, n).len() ==> (#[trigger] tab_rows(terms, tabs, n)[r] matches RowText::Hit(
                t,
                _,
            ) ==> t is Open && t->pane_id is None),
    decreases n,
{
    if n > 0 {
        lemma_tab_rows(terms, tabs, n - 1, tab_id);
        let target = SearchTarget::Open { tab_id, pane_id: None };
        let before = tab_rows(terms, tabs, n - 1);
        let rows = tab_rows(terms, tabs, n);
        let low = text::lowered(tabs[n - 1].title@);
        nothing_is_missing_from_a_match(terms, low);
        assert(tab_matches(terms, tabs[n - 1]) <==> all_stand_in(terms, low, low)) by {
            assert forall|i: int| 0 <= i < terms.len() implies (text::holds_text(
                low,
                #[trigger] terms[i],
            ) <==> is_piece(low, terms[i])) by {
                lemma_piece(low, terms[i]);
            }
        }
        assert forall|r: int| 0 <= r < before.len() implies rows[r] == before[r] by {}
        if leads_to(before, target) {
            let r = choose|r: int|
                0 <= r < before.len() && (#[trigger] before[r] matches RowText::Hit(t, _) && t
                    == target);
            assert(rows[r] == before[r]);
        }
        if tab_matches(terms, tabs[n - 1]) {
            let last = rows.len() - 1;
            assert(rows[last] is Hit);
            if tabs[n - 1].tab_id == tab_id {
                assert(rows[last] matches RowText::Hit(t, _) && t == target);
            } else if leads_to(rows, target) {
                let r = choose|r: int|
                    0 <= r < rows.len() && (#[trigger] rows[r] matches RowText::Hit(t, _) && t
                        == target);
                assert(r < before.len());
                assert(before[r] == rows[r]);
            }
        }
    }
}

proof fn lemma_leads_concat(a: Seq<RowText>, b: Seq<RowText>, target: SearchTarget)
    ensures
        leads_to(a + b, target) <==> leads_to(a, target) || leads_to(b, target),
{
    let s = a + b;
    if leads_to(a, target) {
        let r = choose|r: int|
            0 <= r < a.len() && (#[trigger] a[r] matches RowText::Hit(t, _) && t == target);
        assert(s[r] == a[r]);
    }
    if leads_to(b, target) {
        let r = choose|r: int|
            0 <= r < b.len() && (#[trigger] b[r] matches RowText::Hit(t, _) && t == target);
        assert(s[a.len() + r] == b[r]);
    }
    if leads_to(s, target) {
        let r = choose|r: int|
            0 <= r < s.len() && (#[trigger] s[r] matches RowText::Hit(t, _) && t == target);
        if r < a.len() {
            assert(a[r] == s[r]);
        } else {
            assert(b[r - a.len()] == s[r]);
        }
    }
}

/// A search lists a pane if and only if each term of the query is a piece of
/// its title or of its text, whatever their case; and a tab if and only if each
/// is a piece of its title. A query without a term lists nothing.
pub proof fn a_search_lists_what_holds_every_term(
    query: Seq<char>,
    tabs: Seq<SearchTabSnapshot>,
    panes: Seq<SearchPaneSnapshot>,
    dumps: Seq<Seq<char>>,
    agent: Seq<char>,
    archived: ArchivedHits,
    tab_id: TabId,
    pane_id: PaneId,
)
    requires
        dumps.len() == panes.len(),
    ensures
        leads_to(
            search_rows(query, tabs, panes, dumps, agent, archived),
            SearchTarget::Open { tab_id, pane_id: Some(pane_id) },
        ) <==> terms_of(query).len() > 0 && some_pane_holds(
            terms_of(query),
            panes,
            dumps,
            panes.len() as int,
            tab_id,
            pane_id,
        ),
        leads_to(
            search_rows(query, tabs, panes, dumps, agent, archived),
            SearchTarget::Open { tab_id, pane_id: None },
        ) <==> terms_of(query).len() > 0 && exists|k: int|
            0 <= k < tabs.len() && (#[trigger] tabs[k]).tab_id == tab_id && all_stand_in(
                terms_of(query),
                text::lowered(tabs[k].title@),
                text::lowered(tabs[k].title@),
            ),
        terms_of(query).len() == 0 ==> search_rows(query, tabs, panes, dumps, agent, archived).len()
            == 0,
{
    let terms = terms_of(query);
    if terms.len() > 0 {
        let a = pane_rows(terms, panes, dumps, panes.len() as int);
        let b = tab_rows(terms, tabs, tabs.len() as int);
        let c = archived_rows(agent, archived);
        lemma_pane_rows(terms, panes, dumps, panes.len() as int, tab_id, pane_id);
        lemma_tab_rows(terms, tabs, tabs.len() as int, tab_id);
        let pane = SearchTarget::Open { tab_id, pane_id: Some(pane_id) };
        let tab = SearchTarget::Open { tab_id, pane_id: None };
        assert forall|r: int| 0 <= r < c.len() implies (#[trigger] c[r] matches RowText::Hit(t, _)
            ==> t is Archived) by {
            if r > 0 {
                assert(c[r] == RowText::Hit(
                    SearchTarget::Archived {
                        session_id: archived.hits@[r - 1].session_id,
                        cwd: archived.hits@[r - 1].cwd,
                    },
                    archived.hits@[r - 1].label@,
                ));
            }
        }
        lemma_leads_concat(a, b, pane);
        lemma_leads_concat(a + b, c, pane);
        lemma_leads_concat(a, b, tab);
        lemma_leads_concat(a + b, c, tab);
    }
}

/// The hit of a pane is named by the pane's title, and the row over it, but
/// for the hits of the same tab, by the title of its tab.
pub proof fn a_hit_is_named_by_its_pane(
    terms: Seq<Seq<char>>,
    panes: Seq<SearchPaneSnapshot>,
    dumps: Seq<Seq<char>>,
    n: int,
    r: int,
)
    requires
        0 <= n <= panes.len(),
        0 <= r < pane_rows(terms, panes, dumps, n).len(),
        pane_rows(terms, panes, dumps, n)[r] is Hit,
    ensures
        exists|k: int|
            0 <= k < n && is_hit_of(
                pane_rows(terms, panes, dumps, n),
                r,
                #[trigger] panes[k],
                last_tab(terms, panes, dumps, k),
            ),
    decreases n,
{
    let rows = pane_rows(terms, panes, dumps, n);
    let before = pane_rows(terms, panes, dumps, n - 1);
    let p = panes[n - 1];
    assert forall|q: int| 0 <= q < before.len() implies rows[q] == before[q] by {}
    if r < before.len() {
        a_hit_is_named_by_its_pane(terms, panes, dumps, n - 1, r);
        let k = choose|k: int|
            0 <= k < n - 1 && is_hit_of(before, r, #[trigger] panes[k], last_tab(terms, panes, dumps, k));
        assert(is_hit_of(rows, r, panes[k], last_tab(terms, panes, dumps, k)));
    } else {
        let label = pane_label(terms, p, dumps[n - 1]);
        assert(label.take(p.pane_title@.len() as int) =~= p.pane_title@);
        assert(is_hit_of(rows, r, panes[n - 1], last_tab(terms, panes, dumps, n - 1)));
    }
}

/// The row `r` leads to the pane and starts with its title; the row before it
/// is the title of its tab, unless the hit before was of that tab too.
pub open spec fn is_hit_of(
    rows: Seq<RowText>,
    r: int,
    p: SearchPaneSnapshot,
    above: Option<TabId>,
) -> bool {
    &&& rows[r] matches RowText::Hit(t, label) && t == (SearchTarget::Open {
        tab_id: p.tab_id,
        pane_id: Some(p.pane_id),
    }) && label.len() >= p.pane_title@.len() && label.take(p.pane_title@.len() as int)
        == p.pane_title@
    &&& above != Some(p.tab_id) ==> r > 0 && rows[r - 1] == RowText::Header(p.tab_title@)
}

fn find_pane_label(left: &Vec<String>, p: &SearchPaneSnapshot, dump: &str, low: &str) -> (label:
    String)
    requires
        low@ == text::lowered(dump@),
    ensures
        label@ == (if left@.len() == 0 {
            p.pane_title@
        } else {
            match snippet(dump@, left@[0]@) {
                Some(s) => p.pane_title@ + "  ·  "@ + s,
                None => p.pane_title@,
            }
        }),
{
    let mut label = p.pane_title.clone();
    if left.len() > 0 {
        match content_snippet(dump, low, left[0].as_str()) {
            Some(s) => {
                label.append("  ·  ");
                label.append(s.as_str());
                assert(label@ =~= p.pane_title@ + "  ·  "@ + s@);
            },
            None => {},
        }
    }
    label
}

fn push_row(rows: &mut Vec<SearchRow>, r: SearchRow)
    ensures
        row_texts(final(rows)@) == row_texts(old(rows)@).push(row_text(r)),
{
    proof {
        lemma_row_pushed(rows@, r);
    }
    rows.push(r);
}

fn list_panes(terms: &Vec<String>, panes: &Vec<SearchPaneSnapshot>, dumps: &Vec<String>) -> (rows:
    Vec<SearchRow>)
    requires
        dumps@.len() == panes@.len(),
    ensures
        row_texts(rows@) == pane_rows(
            text::texts(terms@),
            panes@,
            text::texts(dumps@),
            panes@.len() as int,
        ),
{
    let ghost ts = text::texts(terms@);
    let ghost ds = text::texts(dumps@);
    let mut rows: Vec<SearchRow> = Vec::new();
    let mut current: Option<TabId> = None;
    assert(row_texts(rows@) =~= seq![]);
    for i in 0..panes.len()
        invariant
            ts == text::texts(terms@),
            ds == text::texts(dumps@),
            dumps@.len() == panes@.len(),
            row_texts(rows@) == pane_rows(ts, panes@, ds, i as int),
            current == last_tab(ts, panes@, ds, i as int),
    {
        let p = &panes[i];
        let title = text::lower_text(p.pane_title.as_str());
        let left = find_missing(terms, title.as_str());
        let low = text::lower_text(dumps[i].as_str());
        let unfound = find_missing(&left, low.as_str());
        assert(ds[i as int] == dumps@[i as int]@);
        assert(unfound@.len() == text::texts(unfound@).len());
        assert(left@.len() == text::texts(left@).len());
        if unfound.len() == 0 {
            let same: bool = match current {
                Some(t) => t == p.tab_id,
                None => false,
            };
            if !same {
                push_row(&mut rows, SearchRow::Header(p.tab_title.clone()));
                current = Some(p.tab_id);
            }
            let label = find_pane_label(&left, p, dumps[i].as_str(), low.as_str());
            assert(left@.len() > 0 ==> text::texts(left@)[0] == left@[0]@);
            push_row(
                &mut rows,
                SearchRow::Hit(
                    SearchHit {
                        target: SearchTarget::Open { tab_id: p.tab_id, pane_id: Some(p.pane_id) },
                        label,
                    },
                ),
            );
        }
    }
    rows
}

fn list_tabs(terms: &Vec<String>, tabs: &Vec<SearchTabSnapshot>, rows: &mut Vec<SearchRow>)
    ensures
        row_texts(final(rows)@) == row_texts(old(rows)@) + tab_rows(
            text::texts(terms@),
            tabs@,
            tabs@.len() as int,
        ),
{
    let ghost ts = text::texts(terms@);
    let ghost before = row_texts(rows@);
    let mut open = false;
    assert(before =~= before + tab_rows(ts, tabs@, 0));
    for i in 0..tabs.len()
        invariant
            ts == text::texts(terms@),
            row_texts(rows@) == before + tab_rows(ts, tabs@, i as int),
            open == (tab_rows(ts, tabs@, i as int).len() > 0),
    {
        let t = &tabs[i];
        let title = text::lower_text(t.title.as_str());
        let missing = find_missing(terms, title.as_str());
        assert(missing@.len() == text::texts(missing@).len());
        if missing.len() == 0 {
            let ghost r = tab_rows(ts, tabs@, i as int);
            if !open {
                push_row(rows, SearchRow::Header("Tabs".to_string()));
                open = true;
                assert(row_texts(rows@) =~= before + r.push(RowText::Header("Tabs"@)));
            }
            push_row(
                rows,
                SearchRow::Hit(
                    SearchHit {
                        target: SearchTarget::Open { tab_id: t.tab_id, pane_id: None },
                        label: t.title.clone(),
                    },
                ),
            );
            assert(row_texts(rows@) =~= before + tab_rows(ts, tabs@, i + 1));
        }
    }
}

fn list_archived(agent: &str, archived: ArchivedHits, rows: &mut Vec<SearchRow>)
    ensures
        row_texts(final(rows)@) == row_texts(old(rows)@) + archived_rows(agent@, archived),
{
    let ghost before = row_texts(rows@);
    let n: usize = archived.hits.len();
    if n == 0 {
        assert(before =~= before + archived_rows(agent@, archived));
        return;
    }
    let mut header = String::new();
    header.append(agent);
    header.append(" sessions (closed)");
    if archived.total > n {
        header.append(" — best ");
        text::push_decimal(&mut header, n as u64);
        header.append(" of ");
        text::push_decimal(&mut header, archived.total as u64);
    }
    assert(header@ =~= archived_header(agent@, archived.hits@.len(), archived.total as nat));
    push_row(rows, SearchRow::Header(header));
    let ghost want = archived_rows(agent@, archived);
    let ghost all = archived.hits@;
    assert(row_texts(rows@) =~= before + want.take(1));
    let mut rest = archived.hits;
    while rest.len() > 0
        invariant
            rest@.len() <= all.len(),
            rest@ == all.skip(all.len() - rest@.len()),
            want == archived_rows(agent@, archived),
            all == archived.hits@,
            all.len() > 0,
            row_texts(rows@) == before + want.take(1 + all.len() - rest@.len()),
        decreases rest@.len(),
    {
        let ghost k = all.len() - rest@.len();
        let h = rest.remove(0);
        assert(rest@ =~= all.skip(k + 1));
        assert(h == all[k]);
        push_row(
            rows,
            SearchRow::Hit(
                SearchHit {
                    label: h.label,
                    target: SearchTarget::Archived { session_id: h.session_id, cwd: h.cwd },
                },
            ),
        );
        assert(row_texts(rows@) =~= before + want.take(2 + k));
    }
    assert(want.take(want.len() as int) =~= want);
}

/// Search every pane and tab for a query. `dumps` holds each pane's text,
/// `archived` the closed conversations that match, and `agent` is what they
/// are called. The panes come ordered by tab.
pub fn run_search_worker(
    query: &str,
    tabs: &Vec<SearchTabSnapshot>,
    panes: &Vec<SearchPaneSnapshot>,
    dumps: &Vec<String>,
    agent: &str,
    archived: ArchivedHits,
) -> (rows: Vec<SearchRow>)
    requires
        dumps@.len() == panes@.len(),
    ensures
        row_texts(rows@) == search_rows(
            query@,
            tabs@,
            panes@,
            text::texts(dumps@),
            agent@,
            archived,
        ),
{
    let terms = split_terms(query);
    assert(terms@.len() == text::texts(terms@).len());
    if terms.len() == 0 {
        let rows: Vec<SearchRow> = Vec::new();
        assert(row_texts(rows@) =~= seq![]);
        return rows;
    }
    let mut rows = list_panes(&terms, panes, dumps);
    list_tabs(&terms, tabs, &mut rows);
    list_archived(agent, archived, &mut rows);
    rows
}

/// The queries searched earlier, the most recent first, under a header;
/// nothing without any.
pub open spec fn recall_rows(history: Seq<String>) -> Seq<RowText> {
    if history.len() == 0 {
        seq![]
    } else {
        seq![RowText::Header("Recent searches"@)] + history.map_values(
            |q: String| RowText::Hit(SearchTarget::Recall { query: q }, q@),
        )
    }
}

/// The rows shown while the query is empty.
pub fn recent_search_rows(history: &Vec<String>) -> (rows: Vec<SearchRow>)
    ensures
        row_texts(rows@) == recall_rows(history@),
{
    let mut rows: Vec<SearchRow> = Vec::new();
    assert(row_texts(rows@) =~= seq![]);
    if history.len() == 0 {
        return rows;
    }
    push_row(&mut rows, SearchRow::Header("Recent searches".to_string()));
    let ghost want = recall_rows(history@);
    assert(row_texts(rows@) =~= want.take(1));
    for i in 0..history.len()
        invariant
            history@.len() > 0,
            want == recall_rows(history@),
            row_texts(rows@) == want.take(1 + i),
    {
        let label = history[i].clone();
        let query = history[i].clone();
        push_row(
            &mut rows,
            SearchRow::Hit(SearchHit { label, target: SearchTarget::Recall { query } }),
        );
        assert(row_texts(rows@) =~= want.take(2 + i));
    }
    assert(want.take(want.len() as int) =~= want);
    rows
}

// ---------------------------------------------------------------
// The palette
// ---------------------------------------------------------------

/// How long typing has to pause before a search starts, in milliseconds.
pub const SEARCH_DEBOUNCE: u64 = 140;

/// The first hit from `from` on, the length without one.
pub open spec fn hit_from(rows: Seq<SearchRow>, from: int) -> int
    decreases rows.len() - from,
{
    if from >= rows.len() {
        rows.len() as int
    } else if rows[from] is Hit {
        from
    } else {
        hit_from(rows, from + 1)
    }
}

/// The last hit before `upto`, -1 without one.
pub open spec fn hit_before(rows: Seq<SearchRow>, upto: int) -> int
    decreases upto,
{
    if upto <= 0 {
        -1
    } else if rows[upto - 1] is Hit {
        upto - 1
    } else {
        hit_before(rows, upto - 1)
    }
}

/// The row selected at first: the first hit, the top without one.
pub open spec fn landing(rows: Seq<SearchRow>) -> int {
    if hit_from(rows, 0) < rows.len() {
        hit_from(rows, 0)
    } else {
        0
    }
}

proof fn lemma_hit_from(rows: Seq<SearchRow>, from: int)
    requires
        0 <= from <= rows.len(),
    ensures
        from <= hit_from(rows, from) <= rows.len(),
        hit_from(rows, from) < rows.len() ==> rows[hit_from(rows, from)] is Hit,
    decreases rows.len() - from,
{
    if from < rows.len() && !(rows[from] is Hit) {
        lemma_hit_from(rows, from + 1);
    }
}

fn find_hit(rows: &Vec<SearchRow>, from: usize) -> (r: usize)
    requires
        from <= rows@.len(),
    ensures
        r == hit_from(rows@, from as int),
        from <= r <= rows@.len(),
        r < rows@.len() ==> rows@[r as int] is Hit,
{
    let mut i: usize = from;
    while i < rows.len() && !rows[i].is_hit()
        invariant
            from <= i <= rows@.len(),
            hit_from(rows@, i as int) == hit_from(rows@, from as int),
        decreases rows@.len() - i,
    {
        i = i + 1;
    }
    i
}

fn find_hit_before(rows: &Vec<SearchRow>, upto: usize) -> (r: Option<usize>)
    requires
        upto <= rows@.len(),
    ensures
        match r {
            Some(i) => i == hit_before(rows@, upto as int) && i < upto && rows@[i as int] is Hit,
            None => hit_before(rows@, upto as int) < 0,
        },
{
    let mut i: usize = upto;
    while i > 0 && !rows[i - 1].is_hit()
        invariant
            i <= upto <= rows@.len(),
            hit_before(rows@, i as int) == hit_before(rows@, upto as int),
        decreases i,
    {
        i = i - 1;
    }
    if i == 0 {
        None
    } else {
        Some(i - 1)
    }
}

fn find_landing(rows: &Vec<SearchRow>) -> (r: usize)
    ensures
        r == landing(rows@),
        r == 0 || r < rows@.len(),
        hit_from(rows@, 0) < rows@.len() ==> rows@[r as int] is Hit,
{
    let r = find_hit(rows, 0);
    if r < rows.len() {
        r
    } else {
        0
    }
}

impl SearchPaletteState {
    /// The caret stands in the query, and the selection on a hit whenever there
    /// is one.
    pub open spec fn wf(self) -> bool {
        &&& self.cursor <= self.query@.len()
        &&& self.selected == 0 || self.selected < self.rows@.len()
        &&& hit_from(self.rows@, 0) < self.rows@.len() ==> self.rows@[self.selected as int] is Hit
    }
}

/// The recall list goes once something is typed: only while nothing has been
/// searched yet are the rows the recall list.
pub open spec fn recall_goes(submitted: Seq<char>, query: Seq<char>) -> bool {
    submitted.len() == 0 && query.len() > 0
}

/// Drop the recall list once a query is typed. Left in place it would have
/// nothing to do with what is being typed, and enter before the first answer
/// would recall an old query instead of searching the new one.
pub fn drop_recall_rows(state: &mut SearchPaletteState)
    ensures
        if recall_goes(old(state).submitted_query@, old(state).query@) {
            &&& final(state).rows@.len() == 0
            &&& *final(state) == (SearchPaletteState {
                rows: final(state).rows,
                selected: 0,
                scroll: 0,
                ..*old(state)
            })
        } else {
            *final(state) == *old(state)
        },
{
    if state.submitted_query.as_str().is_empty() && !state.query.as_str().is_empty() {
        state.rows = Vec::new();
        state.selected = 0;
        state.scroll = 0;
    }
}

/// What a key does in the palette.
#[derive(Clone, Copy, Debug, PartialEq, Eq, Structural)]
pub enum PaletteKey {
    Up,
    Down,
    Left,
    Right,
    Close,
    Open,
    Erase,
    Type,
    Ignore,
}

pub open spec fn palette_key_of(key: KeyPress) -> PaletteKey {
    if key.code == KEY_UP {
        PaletteKey::Up
    } else if key.code == KEY_DOWN {
        PaletteKey::Down
    } else if key.code == KEY_LEFT {
        PaletteKey::Left
    } else if key.code == KEY_RIGHT {
        PaletteKey::Right
    } else if key.ch == '\u{1B}' {
        PaletteKey::Close
    } else if key.ch == '\r' {
        PaletteKey::Open
    } else if key.ch == '\u{7F}' || key.ch == '\u{08}' {
        PaletteKey::Erase
    } else if overlays::typed_char(key.ch) {
        PaletteKey::Type
    } else {
        PaletteKey::Ignore
    }
}

fn palette_key_for(key: KeyPress) -> (k: PaletteKey)
    ensures
        k == palette_key_of(key),
{
    if key.code == KEY_UP {
        PaletteKey::Up
    } else if key.code == KEY_DOWN {
        PaletteKey::Down
    } else if key.code == KEY_LEFT {
        PaletteKey::Left
    } else if key.code == KEY_RIGHT {
        PaletteKey::Right
    } else if key.ch == '\u{1B}' {
        PaletteKey::Close
    } else if key.ch == '\r' {
        PaletteKey::Open
    } else if key.ch == '\u{7F}' || key.ch == '\u{08}' {
        PaletteKey::Erase
    } else if is_typed_char(key.ch) {
        PaletteKey::Type
    } else {
        PaletteKey::Ignore
    }
}

/// The selection one hit up, its header scrolled in with it.
pub open spec fn moved_up(s: SearchPaletteState) -> SearchPaletteState {
    let prev = hit_before(s.rows@, s.selected as int);
    let top = if prev > 0 {
        prev - 1
    } else {
        0
    };
    if prev < 0 {
        s
    } else {
        SearchPaletteState {
            selected: prev as usize,
            scroll: if top < s.scroll {
                top as usize
            } else {
                s.scroll
            },
            ..s
        }
    }
}

/// The selection one hit down.
pub open spec fn moved_down(s: SearchPaletteState) -> SearchPaletteState {
    let next = hit_from(s.rows@, s.selected + 1);
    if next < s.rows@.len() {
        SearchPaletteState { selected: next as usize, ..s }
    } else {
        s
    }
}

/// The query is edited at its caret, and a search of it is owed.
pub open spec fn is_query_edited(
    after: SearchPaletteState,
    s: SearchPaletteState,
    e: Edit,
    c: char,
    now: u64,
) -> bool {
    &&& (after.query@, after.cursor as int) == overlays::edited(e, s.query@, s.cursor as int, c)
    &&& if recall_goes(s.submitted_query@, after.query@) {
        after.rows@.len() == 0 && after.selected == 0 && after.scroll == 0
    } else {
        after.rows == s.rows && after.selected == s.selected && after.scroll == s.scroll
    }
    &&& after == (SearchPaletteState {
        query: after.query,
        cursor: after.cursor,
        rows: after.rows,
        selected: after.selected,
        scroll: after.scroll,
        needs_search: true,
        last_edit: Some(now),
        ..s
    })
}

/// A key that moves the selection or the caret, or edits the query.
pub open spec fn is_keyed(
    after: SearchPaletteState,
    s: SearchPaletteState,
    key: KeyPress,
    now: u64,
) -> bool {
    match palette_key_of(key) {
        PaletteKey::Up => after == moved_up(s),
        PaletteKey::Down => after == moved_down(s),
        PaletteKey::Left => after == (SearchPaletteState {
            cursor: if s.cursor > 0 {
                (s.cursor - 1) as usize
            } else {
                s.cursor
            },
            ..s
        }),
        PaletteKey::Right => after == (SearchPaletteState {
            cursor: if s.cursor < s.query@.len() {
                (s.cursor + 1) as usize
            } else {
                s.cursor
            },
            ..s
        }),
        PaletteKey::Erase => if s.cursor > 0 {
            is_query_edited(after, s, Edit::Erase, key.ch, now)
        } else {
            after == s
        },
        PaletteKey::Type => is_query_edited(after, s, Edit::Type, key.ch, now),
        _ => after == s,
    }
}

impl SearchPaletteState {
    fn edit_query(&mut self, e: Edit, c: char, now: u64)
        requires
            old(self).wf(),
            e == Edit::Type || (e == Edit::Erase && old(self).cursor > 0),
        ensures
            is_query_edited(*final(self), *old(self), e, c, now),
            final(self).wf(),
    {
        apply_edit(&mut self.query, &mut self.cursor, e, c);
        self.needs_search = true;
        self.last_edit = Some(now);
        drop_recall_rows(self);
    }

    fn press(&mut self, key: KeyPress, now: u64)
        requires
            old(self).wf(),
        ensures
            is_keyed(*final(self), *old(self), key, now),
            final(self).wf(),
    {
        proof {
            lemma_hit_from(self.rows@, 0);
        }
        assert(self.rows.len() == self.rows@.len());
        match palette_key_for(key) {
            PaletteKey::Up => {
                match find_hit_before(&self.rows, self.selected) {
                    Some(prev) => {
                        self.selected = prev;
                        let top: usize = if prev > 0 {
                            prev - 1
                        } else {
                            0
                        };
                        if top < self.scroll {
                            self.scroll = top;
                        }
                    },
                    None => {},
                }
            },
            PaletteKey::Down => {
                if self.selected < self.rows.len() {
                    let next = find_hit(&self.rows, self.selected + 1);
                    if next < self.rows.len() {
                        self.selected = next;
                    }
                }
            },
            PaletteKey::Left => {
                if self.cursor > 0 {
                    self.cursor = self.cursor - 1;
                }
            },
            PaletteKey::Right => {
                if self.cursor < text::char_count(self.query.as_str()) {
                    self.cursor = self.cursor + 1;
                }
            },
            PaletteKey::Erase => {
                if self.cursor > 0 {
                    self.edit_query(Edit::Erase, key.ch, now);
                }
            },
            PaletteKey::Type => {
                self.edit_query(Edit::Type, key.ch, now);
            },
            _ => {},
        }
    }
}

/// The number after `n`, around to 0.
pub open spec fn next_id(n: u64) -> u64 {
    if n == u64::MAX {
        0
    } else {
        (n + 1) as u64
    }
}

fn number_after(n: u64) -> (r: u64)
    ensures
        r == next_id(n),
{
    if n == u64::MAX {
        0
    } else {
        n + 1
    }
}

/// `after` is `before` with its palette replaced and `extra` asked for.
pub open spec fn is_palette(
    after: KovaView,
    before: KovaView,
    palette: Option<SearchPaletteState>,
    extra: Seq<Effect>,
) -> bool {
    &&& after.effects@ == before.effects@ + extra
    &&& after == (KovaView {
        overlays: Overlays { search_palette: palette, ..before.overlays },
        effects: after.effects,
        ..before
    })
}

/// Submitting starts a search: not of an empty query, nor while one runs.
pub open spec fn starts_search(s: SearchPaletteState) -> bool {
    s.query@.len() > 0 && !s.searching
}

/// The palette once its query is submitted, and given `channel` if that starts
/// a search; else only none is owed any more.
pub open spec fn submitted(s: SearchPaletteState, channel: u64) -> SearchPaletteState {
    if starts_search(s) {
        SearchPaletteState {
            needs_search: false,
            query_id: next_id(s.query_id),
            rx: Some(channel),
            searching: true,
            submitted_query: s.query,
            ..s
        }
    } else {
        SearchPaletteState { needs_search: false, ..s }
    }
}

/// What submitting asks for.
pub open spec fn submit_effects(s: SearchPaletteState, channel: u64) -> Seq<Effect> {
    if starts_search(s) {
        seq![Effect::StartSearch(s.query, next_id(s.query_id), channel), Effect::MarkDirty]
    } else {
        seq![]
    }
}

/// `after` is `before` with the query of the palette `s` submitted, and `more`
/// asked for: a search that starts gets the channel after the last one.
pub open spec fn is_submitted(
    after: KovaView,
    before: KovaView,
    s: SearchPaletteState,
    more: Seq<Effect>,
) -> bool {
    let channel = next_id(before.overlays.last_channel);
    &&& after.effects@ == before.effects@ + submit_effects(s, channel) + more
    &&& after == (KovaView {
        overlays: Overlays {
            search_palette: Some(submitted(s, channel)),
            last_channel: if starts_search(s) {
                channel
            } else {
                before.overlays.last_channel
            },
            ..before.overlays
        },
        effects: after.effects,
        ..before
    })
}

/// The last of the answers on `channel` tagged with `id`, -1 without one.
pub open spec fn last_answer(results: Seq<SearchAnswer>, channel: u64, id: u64) -> int
    decreases results.len(),
{
    if results.len() == 0 {
        -1
    } else if results.last().channel == channel && results.last().query_id == id {
        results.len() - 1
    } else {
        last_answer(results.drop_last(), channel, id)
    }
}

/// The answer the palette takes, -1 for none.
pub open spec fn heard(s: SearchPaletteState, results: Seq<SearchAnswer>) -> int {
    match s.rx {
        Some(channel) => last_answer(results, channel, s.query_id),
        None => -1,
    }
}

/// The palette once the answers have landed: those on another channel or to
/// another query are dropped, and the channel is let go of once no search
/// runs.
pub open spec fn answered(s: SearchPaletteState, results: Seq<SearchAnswer>) -> SearchPaletteState {
    let i = heard(s, results);
    if i < 0 {
        SearchPaletteState {
            rx: if s.searching {
                s.rx
            } else {
                None
            },
            ..s
        }
    } else {
        SearchPaletteState {
            rows: results[i].rows,
            rx: None,
            searching: false,
            selected: landing(results[i].rows@) as usize,
            scroll: 0,
            ..s
        }
    }
}

/// A search is owed and typing has paused.
pub open spec fn search_due(s: SearchPaletteState, now: u64) -> bool {
    s.needs_search && !s.searching && (s.last_edit matches Some(t) ==> t + SEARCH_DEBOUNCE <= now)
}

/// The palette as an emptied query leaves it: the list it opened with.
pub open spec fn is_emptied(
    after: SearchPaletteState,
    s: SearchPaletteState,
    history: Seq<String>,
) -> bool {
    &&& row_texts(after.rows@) == recall_rows(history)
    &&& after.selected == landing(after.rows@)
    &&& after.submitted_query@.len() == 0
    &&& after == (SearchPaletteState {
        needs_search: false,
        submitted_query: after.submitted_query,
        rows: after.rows,
        selected: after.selected,
        scroll: 0,
        ..s
    })
}

/// The palette as it opens.
pub open spec fn is_opened(s: SearchPaletteState, history: Seq<String>) -> bool {
    &&& s.query@.len() == 0
    &&& s.cursor == 0
    &&& s.query_id == 0
    &&& s.rx is None
    &&& !s.searching
    &&& s.submitted_query@.len() == 0
    &&& row_texts(s.rows@) == recall_rows(history)
    &&& s.selected == landing(s.rows@)
    &&& s.scroll == 0
    &&& !s.needs_search
    &&& s.last_edit is None
}

/// What closing the palette asks for.
pub open spec fn close_effects(palette: Option<SearchPaletteState>) -> Seq<Effect> {
    (match palette {
        Some(s) => seq![Effect::RecordSearch(s.query)],
        None => seq![],
    }) + seq![Effect::MarkDirty]
}

/// Enter on the palette: a recalled query is typed again, a hit is opened, and
/// without a hit the query is submitted.
pub open spec fn is_entered(after: KovaView, before: KovaView, s: SearchPaletteState) -> bool {
    if s.selected < s.rows@.len() && s.rows@[s.selected as int] is Hit {
        match s.rows@[s.selected as int]->Hit_0.target {
            SearchTarget::Recall { query } => is_palette(
                after,
                before,
                Some(
                    SearchPaletteState {
                        query,
                        cursor: query@.len() as usize,
                        needs_search: true,
                        last_edit: None,
                        ..s
                    },
                ),
                seq![Effect::MarkDirty],
            ),
            SearchTarget::Open { tab_id, pane_id } => is_palette(
                after,
                before,
                None,
                close_effects(Some(s)).push(
                    Effect::JumpToHit(SearchTarget::Open { tab_id, pane_id }),
                ),
            ),
            SearchTarget::Archived { session_id, cwd } => is_palette(
                after,
                before,
                None,
                close_effects(Some(s)).push(Effect::OpenArchived(session_id, cwd)),
            ),
        }
    } else {
        is_submitted(after, before, s, seq![])
    }
}

/// A palette that opens drops every answer: those under way are to searches
/// of the palettes before it.
pub proof fn an_opened_palette_hears_nothing(
    s: SearchPaletteState,
    history: Seq<String>,
    results: Seq<SearchAnswer>,
)
    requires
        is_opened(s, history),
    ensures
        answered(s, results) == s,
{
}

/// Until the numbers run out, a search is given a channel above every one
/// given before it in the window, and the palette drops the answers on those.
pub proof fn answers_to_earlier_searches_are_dropped(
    after: KovaView,
    before: KovaView,
    s: SearchPaletteState,
    more: Seq<Effect>,
    results: Seq<SearchAnswer>,
)
    requires
        is_submitted(after, before, s, more),
        starts_search(s),
        before.overlays.last_channel < u64::MAX,
        forall|i: int|
            0 <= i < results.len() ==> (#[trigger] results[i]).channel
                <= before.overlays.last_channel,
    ensures
        after.overlays.last_channel > before.overlays.last_channel,
        after.overlays.search_palette matches Some(t) && t.rx == Some(after.overlays.last_channel)
            && answered(t, results) == t,
{
    lemma_unanswered(results, after.overlays.last_channel, next_id(s.query_id));
}

proof fn lemma_unanswered(results: Seq<SearchAnswer>, channel: u64, id: u64)
    requires
        forall|i: int| 0 <= i < results.len() ==> (#[trigger] results[i]).channel != channel,
    ensures
        last_answer(results, channel, id) < 0,
    decreases results.len(),
{
    if results.len() > 0 {
        assert(results.last() == results[results.len() - 1]);
        lemma_unanswered(results.drop_last(), channel, id);
    }
}

fn find_last_answer(results: &Vec<SearchAnswer>, channel: u64, id: u64) -> (r: Option<usize>)
    ensures
        match r {
            Some(i) => i == last_answer(results@, channel, id) && i < results@.len(),
            None => last_answer(results@, channel, id) < 0,
        },
{
    let mut n: usize = results.len();
    assert(results@.take(n as int) =~= results@);
    while n > 0
        invariant
            n <= results@.len(),
            last_answer(results@.take(n as int), channel, id) == last_answer(
                results@,
                channel,
                id,
            ),
        decreases n,
    {
        assert(results@.take(n as int).drop_last() =~= results@.take(n - 1));
        if results[n - 1].channel == channel && results[n - 1].query_id == id {
            return Some(n - 1);
        }
        n = n - 1;
    }
    None
}

impl SearchPaletteState {
    /// Take in the answers of the searches. Returns whether the rows changed.
    fn take_answers(&mut self, results: Vec<SearchAnswer>) -> (changed: bool)
        requires
            old(self).wf(),
        ensures
            *final(self) == answered(*old(self), results@),
            changed == (heard(*old(self), results@) >= 0),
            final(self).wf(),
    {
        let found = match self.rx {
            Some(channel) => find_last_answer(&results, channel, self.query_id),
            None => None,
        };
        match found {
            None => {
                if !self.searching {
                    self.rx = None;
                }
                false
            },
            Some(i) => {
                let mut results = results;
                let answer = results.swap_remove(i);
                self.rows = answer.rows;
                self.rx = None;
                self.searching = false;
                self.selected = find_landing(&self.rows);
                self.scroll = 0;
                true
            },
        }
    }

    fn is_due(&self, now: u64) -> (r: bool)
        ensures
            r == search_due(*self, now),
    {
        if !self.needs_search || self.searching {
            return false;
        }
        match self.last_edit {
            Some(t) => t <= now && now - t >= SEARCH_DEBOUNCE,
            None => true,
        }
    }

    fn show_recall(&mut self, history: &Vec<String>)
        requires
            old(self).wf(),
        ensures
            is_emptied(*final(self), *old(self), history@),
            final(self).wf(),
    {
        let rows = recent_search_rows(history);
        self.needs_search = false;
        self.submitted_query = String::new();
        self.selected = find_landing(&rows);
        self.rows = rows;
        self.scroll = 0;
    }
}

/// What a key does in the search palette.
pub open spec fn is_palette_keyed(
    after: KovaView,
    before: KovaView,
    key: KeyPress,
    now: u64,
) -> bool {
    match (palette_key_of(key), before.overlays.search_palette) {
        (PaletteKey::Ignore, _) => after == before,
        (PaletteKey::Close, p) => is_palette(
            after,
            before,
            None,
            close_effects(p),
        ),
        (PaletteKey::Open, None) => after == before,
        (PaletteKey::Open, Some(s)) => is_entered(after, before, s),
        (_, None) => is_palette(after, before, None, seq![Effect::MarkDirty]),
        (_, Some(s)) => {
            &&& after.overlays.search_palette is Some
            &&& is_keyed(after.overlays.search_palette->0, s, key, now)
            &&& is_palette(
                after,
                before,
                after.overlays.search_palette,
                seq![Effect::MarkDirty],
            )
        },
    }
}

/// `after` is `before` with the search palette open.
pub open spec fn is_palette_open(
    after: KovaView,
    before: KovaView,
    history: Seq<String>,
) -> bool {
    &&& after.overlays.search_palette matches Some(s) && s.wf() && is_opened(s, history)
    &&& is_palette(
        after,
        before,
        after.overlays.search_palette,
        seq![Effect::WarmHistory, Effect::MarkDirty],
    )
}

impl KovaView {
    /// Open the palette; `history` lists the queries searched earlier, the most
    /// recent first.
    pub fn do_open_search_palette(&mut self, history: &Vec<String>)
        ensures
            is_palette_open(*final(self), *old(self), history@),
    {
        self.emit(Effect::WarmHistory);
        let rows = recent_search_rows(history);
        let selected = find_landing(&rows);
        self.overlays.search_palette = Some(
            SearchPaletteState {
                query: String::new(),
                cursor: 0,
                query_id: 0,
                rx: None,
                searching: false,
                submitted_query: String::new(),
                rows,
                selected,
                scroll: 0,
                needs_search: false,
                last_edit: None,
            },
        );
        self.mark_dirty();
        assert(self.effects@ =~= old(self).effects@ + seq![Effect::WarmHistory, Effect::MarkDirty]);
    }

    /// Submit the query. The rows stay until the answer lands.
    pub fn submit_search_palette(&mut self)
        requires
            old(self).overlays.search_palette matches Some(s) ==> s.wf(),
        ensures
            final(self).overlays.search_palette matches Some(s) ==> s.wf(),
            match old(self).overlays.search_palette {
                None => *final(self) == *old(self),
                Some(s) => is_submitted(*final(self), *old(self), s, seq![]),
            },
    {
        match self.overlays.search_palette.take() {
            None => {},
            Some(state) => {
                let mut state = state;
                state.needs_search = false;
                if state.query.as_str().is_empty() || state.searching {
                    self.overlays.search_palette = Some(state);
                    assert(self.effects@ =~= old(self).effects@ + seq![] + seq![]);
                    return;
                }
                let id: u64 = number_after(state.query_id);
                let channel: u64 = number_after(self.overlays.last_channel);
                state.query_id = id;
                state.rx = Some(channel);
                state.searching = true;
                state.submitted_query = state.query.clone();
                let query = state.query.clone();
                self.overlays.search_palette = Some(state);
                self.overlays.last_channel = channel;
                self.emit(Effect::StartSearch(query, id, channel));
                self.mark_dirty();
                assert(self.effects@ =~= old(self).effects@ + seq![
                    Effect::StartSearch(query, id, channel),
                    Effect::MarkDirty,
                ] + seq![]);
            },
        }
    }

    /// One frame of the palette: take in the answers that came, then start a
    /// search that is owed once typing has paused; an emptied query brings the
    /// recall list back.
    pub fn poll_search_palette(
        &mut self,
        results: Vec<SearchAnswer>,
        now: u64,
        history: &Vec<String>,
    )
        requires
            old(self).overlays.search_palette matches Some(s) ==> s.wf(),
        ensures
            final(self).overlays.search_palette matches Some(s) ==> s.wf(),
            match old(self).overlays.search_palette {
                None => *final(self) == *old(self),
                Some(s) => {
                    let t = answered(s, results@);
                    if search_due(t, now) && t.query@.len() == 0 {
                        &&& final(self).overlays.search_palette is Some
                        &&& is_emptied(final(self).overlays.search_palette->0, t, history@)
                        &&& is_palette(
                            *final(self),
                            *old(self),
                            final(self).overlays.search_palette,
                            seq![Effect::MarkDirty],
                        )
                    } else if search_due(t, now) {
                        is_submitted(*final(self), *old(self), t, seq![Effect::MarkDirty])
                    } else {
                        is_palette(
                            *final(self),
                            *old(self),
                            Some(t),
                            if heard(s, results@) >= 0 {
                                seq![Effect::MarkDirty]
                            } else {
                                seq![]
                            },
                        )
                    }
                },
            },
    {
        match self.overlays.search_palette.take() {
            None => {},
            Some(state) => {
                let mut state = state;
                let mut updated = state.take_answers(results);
                let due = state.is_due(now);
                let empty = state.query.as_str().is_empty();
                if due && empty {
                    state.show_recall(history);
                    updated = true;
                }
                self.overlays.search_palette = Some(state);
                if due && !empty {
                    self.submit_search_palette();
                    updated = true;
                }
                let ghost before = self.effects@;
                if updated {
                    self.mark_dirty();
                }
                proof {
                    let t = answered(old(self).overlays.search_palette->0, results@);
                    assert(!updated ==> self.effects@ =~= old(self).effects@ + seq![]);
                    assert(due && !empty ==> self.effects@ =~= old(self).effects@ + submit_effects(
                        t,
                        next_id(old(self).overlays.last_channel),
                    ) + seq![Effect::MarkDirty]);
                    assert(updated && !(due && !empty) ==> self.effects@ =~= old(self).effects@
                        + seq![Effect::MarkDirty]);
                }
            },
        }
    }

    /// Close the palette, remembering its query. The one way out, so that no
    /// query is dropped unrecorded.
    pub fn close_search_palette(&mut self)
        ensures
            is_palette(
                *final(self),
                *old(self),
                None,
                close_effects(old(self).overlays.search_palette),
            ),
    {
        match self.overlays.search_palette.take() {
            Some(s) => {
                self.emit(Effect::RecordSearch(s.query));
            },
            None => {},
        }
        self.mark_dirty();
        assert(self.effects@ =~= old(self).effects@ + close_effects(
            old(self).overlays.search_palette,
        ));
    }

    /// Open the selected row of the palette.
    fn enter_search_palette(&mut self)
        requires
            old(self).overlays.search_palette matches Some(s) && s.wf(),
        ensures
            is_entered(*final(self), *old(self), old(self).overlays.search_palette->0),
            final(self).overlays.search_palette matches Some(s) ==> s.wf(),
    {
        let ghost was = self.overlays.search_palette->0;
        let mut recall: Option<String> = None;
        let mut open: Option<(TabId, Option<PaneId>)> = None;
        let mut archived: Option<(String, String)> = None;
        match &self.overlays.search_palette {
            Some(s) => {
                if s.selected < s.rows.len() {
                    match &s.rows[s.selected] {
                        SearchRow::Hit(h) => {
                            match &h.target {
                                SearchTarget::Recall { query } => {
                                    recall = Some(query.clone());
                                },
                                SearchTarget::Open { tab_id, pane_id } => {
                                    open = Some((*tab_id, *pane_id));
                                },
                                SearchTarget::Archived { session_id, cwd } => {
                                    archived = Some((session_id.clone(), cwd.clone()));
                                },
                            }
                        },
                        SearchRow::Header(_) => {},
                    }
                }
            },
            None => {},
        }
        match recall {
            Some(query) => {
                self.retype(query);
                return;
            },
            None => {},
        }
        match open {
            Some((tab_id, pane_id)) => {
                self.close_search_palette();
                self.emit(Effect::JumpToHit(SearchTarget::Open { tab_id, pane_id }));
                assert(self.effects@ =~= old(self).effects@ + close_effects(Some(was)).push(
                    Effect::JumpToHit(SearchTarget::Open { tab_id, pane_id }),
                ));
                return;
            },
            None => {},
        }
        match archived {
            Some((session_id, cwd)) => {
                self.close_search_palette();
                self.emit(Effect::OpenArchived(session_id, cwd));
                assert(self.effects@ =~= old(self).effects@ + close_effects(Some(was)).push(
                    Effect::OpenArchived(session_id, cwd),
                ));
                return;
            },
            None => {},
        }
        self.submit_search_palette();
    }

    /// Type a query again; it is complete, so its search does not wait.
    fn retype(&mut self, query: String)
        requires
            old(self).overlays.search_palette matches Some(s) && s.wf(),
        ensures
            is_palette(
                *final(self),
                *old(self),
                Some(
                    SearchPaletteState {
                        query,
                        cursor: query@.len() as usize,
                        needs_search: true,
                        last_edit: None,
                        ..old(self).overlays.search_palette->0
                    },
                ),
                seq![Effect::MarkDirty],
            ),
            final(self).overlays.search_palette matches Some(s) && s.wf(),
    {
        match self.overlays.search_palette.take() {
            Some(state) => {
                let mut state = state;
                state.cursor = text::char_count(query.as_str());
                state.query = query;
                state.needs_search = true;
                state.last_edit = None;
                self.overlays.search_palette = Some(state);
            },
            None => {},
        }
        self.mark_dirty();
        assert(self.effects@ =~= old(self).effects@ + seq![Effect::MarkDirty]);
    }

    /// A key in the palette, pressed at `now`.
    pub fn handle_search_palette_key(&mut self, key: KeyPress, now: u64)
        requires
            old(self).overlays.search_palette matches Some(s) ==> s.wf(),
        ensures
            is_palette_keyed(*final(self), *old(self), key, now),
            final(self).overlays.search_palette matches Some(s) ==> s.wf(),
    {
        let k = palette_key_for(key);
        match k {
            PaletteKey::Ignore => {
                return;
            },
            PaletteKey::Close => {
                self.close_search_palette();
                return;
            },
            PaletteKey::Open => {
                if self.overlays.search_palette.is_some() {
                    self.enter_search_palette();
                }
                return;
            },
            _ => {},
        }
        match self.overlays.search_palette.take() {
            Some(state) => {
                let mut state = state;
                state.press(key, now);
                self.overlays.search_palette = Some(state);
            },
            None => {},
        }
        self.mark_dirty();
        assert(self.effects@ =~= old(self).effects@ + seq![Effect::MarkDirty]);
    }
}

/// Up and down select the nearest hit above and below, passing over the
/// headers; with none the selection stays.
pub proof fn arrows_select_the_nearest_hit(
    after: SearchPaletteState,
    s: SearchPaletteState,
    key: KeyPress,
    now: u64,
)
    requires
        s.wf(),
        s.selected < s.rows@.len(),
        is_keyed(after, s, key, now),
    ensures
        key.code == 0x7E || key.code == 0x7D ==> after.rows == s.rows && after.query == s.query,
        key.code == 0x7E && after.selected != s.selected ==> {
            &&& after.selected < s.selected
            &&& s.rows@[after.selected as int] is Hit
            &&& forall|k: int|
                after.selected < k < s.selected ==> !(#[trigger] s.rows@[k] is Hit)
        },
        key.code == 0x7E && after.selected == s.selected ==> forall|k: int|
            0 <= k < s.selected ==> !(#[trigger] s.rows@[k] is Hit),
        key.code == 0x7D && after.selected != s.selected ==> {
            &&& s.selected < after.selected < s.rows@.len()
            &&& s.rows@[after.selected as int] is Hit
            &&& forall|k: int|
                s.selected < k < after.selected ==> !(#[trigger] s.rows@[k] is Hit)
        },
        key.code == 0x7D && after.selected == s.selected ==> forall|k: int|
            s.selected < k < s.rows@.len() ==> !(#[trigger] s.rows@[k] is Hit),
{
    assert(s.rows@.len() == s.rows.len());
    lemma_nearest_below(s.rows@, s.selected + 1);
    lemma_nearest_above(s.rows@, s.selected as int);
}

proof fn lemma_nearest_below(rows: Seq<SearchRow>, from: int)
    requires
        0 <= from <= rows.len(),
    ensures
        from <= hit_from(rows, from) <= rows.len(),
        hit_from(rows, from) < rows.len() ==> rows[hit_from(rows, from)] is Hit,
        forall|k: int| from <= k < hit_from(rows, from) ==> !(#[trigger] rows[k] is Hit),
    decreases rows.len() - from,
{
    if from < rows.len() && !(rows[from] is Hit) {
        lemma_nearest_below(rows, from + 1);
    }
}

proof fn lemma_nearest_above(rows: Seq<SearchRow>, upto: int)
    requires
        0 <= upto <= rows.len(),
    ensures
        -1 <= hit_before(rows, upto) < upto || upto == 0,
        hit_before(rows, upto) >= 0 ==> rows[hit_before(rows, upto)] is Hit,
        forall|k: int| hit_before(rows, upto) < k < upto ==> !(#[trigger] rows[k] is Hit),
    decreases upto,
{
    if upto > 0 && !(rows[upto - 1] is Hit) {
        lemma_nearest_above(rows, upto - 1);
    }
}

/// Typing puts the character into the query at the caret and owes a search.
/// The palette lands on the first hit of its rows.
pub proof fn typing_edits_the_query(
    after: SearchPaletteState,
    s: SearchPaletteState,
    key: KeyPress,
    now: u64,
)
    requires
        s.wf(),
        'a' <= key.ch <= 'z',
        key.code == 0,
        is_keyed(after, s, key, now),
    ensures
        after.query@.len() == s.query@.len() + 1,
        after.query@[s.cursor as int] == key.ch,
        after.query@.remove(s.cursor as int) == s.query@,
        after.cursor == s.cursor + 1,
        after.needs_search,
        after.last_edit == Some(now),
{
    assert(s.query@.insert(s.cursor as int, key.ch).remove(s.cursor as int) =~= s.query@);
}

/// The rows land on their first hit.
pub proof fn rows_land_on_the_first_hit(rows: Seq<SearchRow>, k: int)
    requires
        0 <= k < rows.len(),
        rows[k] is Hit,
    ensures
        0 <= landing(rows) <= k,
        rows[landing(rows)] is Hit,
        forall|j: int| 0 <= j < landing(rows) ==> !(#[trigger] rows[j] is Hit),
{
    lemma_nearest_below(rows, 0);
}

/// A line cut to fit one row still shows the match, however far along the line
/// it is: a piece of up to seventy characters at `at` stays whole.
pub proof fn a_cut_line_shows_the_match(line: Seq<char>, at: int, len: int)
    requires
        0 <= at,
        0 <= len <= 70,
        at + len <= line.len(),
    ensures
        is_piece(cut_line(line, at), line.subrange(at, at + len)),
{
    let start = if at > 20 {
        at - 20
    } else {
        0
    };
    let mark: int = if start > 0 {
        1
    } else {
        0
    };
    let c = cut_line(line, at);
    let from = mark + at - start;
    assert(c.subrange(from, from + len) =~= line.subrange(at, at + len));
}

/// The line around a character runs from the line break before it to the one
/// after it, and holds none.
pub proof fn a_line_runs_between_breaks(dump: Seq<char>, pos: int)
    requires
        0 <= pos < dump.len(),
        dump[pos] != '\n',
    ensures
        exists|from: int, to: int|
            {
                &&& 0 <= from <= pos < to <= dump.len()
                &&& #[trigger] dump.subrange(from, to) == line_around(dump, pos)
                &&& from > 0 ==> dump[from - 1] == '\n'
                &&& to < dump.len() ==> dump[to] == '\n'
            },
        !line_around(dump, pos).contains('\n'),
{
    let from = text::last_pos(dump.take(pos), '\n') + 1;
    let to = text::next_pos(dump, '\n', pos);
    text::lemma_last_pos(dump.take(pos), '\n');
    lemma_next_break(dump, pos);
    assert(to > pos);
    let l = dump.subrange(from, to);
    assert(l == line_around(dump, pos));
    assert forall|k: int| 0 <= k < l.len() implies l[k] != '\n' by {
        if from + k < pos {
            assert(dump.take(pos)[from + k] != '\n');
        } else {
            assert(dump[from + k] != '\n');
        }
    }
}

proof fn lemma_next_break(s: Seq<char>, from: int)
    requires
        0 <= from <= s.len(),
    ensures
        from <= text::next_pos(s, '\n', from) <= s.len(),
        text::next_pos(s, '\n', from) < s.len() ==> s[text::next_pos(s, '\n', from)] == '\n',
        forall|k: int| from <= k < text::next_pos(s, '\n', from) ==> s[k] != '\n',
    decreases s.len() - from,
{
    if from < s.len() && s[from] != '\n' {
        lemma_next_break(s, from + 1);
    }
}

} // verus!
