//! The tabs of a window: opening, switching, splitting, closing, sending
//! elsewhere, breaking apart and merging.
use crate::ipc;
use crate::pane;
use crate::pane::{Pane, PaneId, SplitDirection, Tab, TabId};
use crate::view;
use crate::view::{Effect, KeyPress, KovaView, Overlays, KEY_DOWN, KEY_ENTER, KEY_ESCAPE, KEY_UP};
use vstd::prelude::*;

verus! {

/// A window a tab can be sent to; `None` stands for a new one.
#[derive(Debug, PartialEq)]
pub struct SendToWindowEntry {
    pub label: String,
    pub window_index: Option<usize>,
}

/// The window picker.
#[derive(Debug, PartialEq)]
pub struct SendToWindowState {
    pub entries: Vec<SendToWindowEntry>,
    pub selected: usize,
    /// The whole window is sent rather than its active tab.
    pub merge_all: bool,
}

/// A tab the active one can be merged into.
#[derive(Debug, PartialEq)]
pub struct MergeTabEntry {
    pub label: String,
    pub tab_index: usize,
}

/// The tab picker.
#[derive(Debug, PartialEq)]
pub struct MergeTabState {
    pub entries: Vec<MergeTabEntry>,
    pub selected: usize,
}

/// Another window of the application.
#[derive(Debug, PartialEq)]
pub struct OtherWindow {
    pub index: usize,
    pub label: String,
}

// ---------------------------------------------------------------
// What keeps a window whole
// ---------------------------------------------------------------

/// A whole tab that shares no id and no pane with `tabs`.
pub open spec fn fresh_tab(tabs: Seq<Tab>, t: Tab) -> bool {
    &&& t.wf()
    &&& forall|i: int| 0 <= i < tabs.len() ==> (#[trigger] tabs[i]).id != t.id
    &&& forall|i: int, id: PaneId|
        0 <= i < tabs.len() && #[trigger] pane::has_pane(t.panes@, id) ==> !#[trigger] pane::has_pane(
            tabs[i].panes@,
            id,
        )
}

pub proof fn lemma_tabs_insert(tabs: Seq<Tab>, i: int, t: Tab)
    requires
        view::tabs_ok(tabs),
        fresh_tab(tabs, t),
        0 <= i <= tabs.len(),
    ensures
        view::tabs_ok(tabs.insert(i, t)),
{
    let w = tabs.insert(i, t);
    assert forall|a: int, b: int| 0 <= a < b < w.len() implies (#[trigger] w[a]).id != (#[trigger] w[b]).id by {
        let pa = if a < i {
            a
        } else {
            a - 1
        };
        let pb = if b < i {
            b
        } else {
            b - 1
        };
        if a == i {
            assert(tabs[pb].id != t.id);
        } else if b == i {
            assert(tabs[pa].id != t.id);
        } else {
            assert(tabs[pa].id != tabs[pb].id);
        }
    }
    assert forall|a: int, b: int, id: PaneId|
        0 <= a < b < w.len() && #[trigger] pane::has_pane(w[a].panes@, id) implies !#[trigger] pane::has_pane(w[b].panes@, id) by {
        let pa = if a < i {
            a
        } else {
            a - 1
        };
        let pb = if b < i {
            b
        } else {
            b - 1
        };
        if a == i {
            assert(w[b] == tabs[pb]);
        } else if b == i {
            assert(w[a] == tabs[pa]);
            assert(pane::has_pane(tabs[pa].panes@, id));
        } else {
            assert(w[a] == tabs[pa] && w[b] == tabs[pb]);
        }
    }
    assert forall|a: int| 0 <= a < w.len() implies (#[trigger] w[a]).wf() by {
        if a < i {
            assert(tabs[a].wf());
        } else if a > i {
            assert(tabs[a - 1].wf());
        }
    }
}

pub proof fn lemma_tabs_remove(tabs: Seq<Tab>, i: int)
    requires
        view::tabs_ok(tabs),
        0 <= i < tabs.len(),
    ensures
        view::tabs_ok(tabs.remove(i)),
        fresh_tab(tabs.remove(i), tabs[i]),
{
    let w = tabs.remove(i);
    assert forall|a: int| 0 <= a < w.len() implies (#[trigger] w[a]).wf() by {
        assert(tabs[if a < i {
            a
        } else {
            a + 1
        }].wf());
    }
    assert forall|a: int, b: int| 0 <= a < b < w.len() implies (#[trigger] w[a]).id != (#[trigger] w[b]).id by {
        assert(tabs[if a < i {
            a
        } else {
            a + 1
        }].id != tabs[if b < i {
            b
        } else {
            b + 1
        }].id);
    }
    assert forall|a: int, b: int, id: PaneId|
        0 <= a < b < w.len() && #[trigger] pane::has_pane(w[a].panes@, id) implies !#[trigger] pane::has_pane(w[b].panes@, id) by {
        let pa = if a < i {
            a
        } else {
            a + 1
        };
        let pb = if b < i {
            b
        } else {
            b + 1
        };
        assert(w[a] == tabs[pa] && w[b] == tabs[pb]);
    }
    assert forall|a: int| 0 <= a < w.len() implies (#[trigger] w[a]).id != tabs[i].id by {
        if a < i {
            assert(tabs[a].id != tabs[i].id);
        } else {
            assert(tabs[i].id != tabs[a + 1].id);
        }
    }
    assert forall|a: int, id: PaneId|
        0 <= a < w.len() && #[trigger] pane::has_pane(tabs[i].panes@, id) implies !#[trigger] pane::has_pane(
        w[a].panes@,
        id,
    ) by {
        if a < i {
            assert(w[a] == tabs[a]);
        } else {
            assert(w[a] == tabs[a + 1]);
        }
    }
}

/// A tab replaced by a whole one with the same id, whose panes are its own or
/// new to the window.
pub proof fn lemma_tabs_update(tabs: Seq<Tab>, i: int, t: Tab)
    requires
        view::tabs_ok(tabs),
        0 <= i < tabs.len(),
        t.wf(),
        t.id == tabs[i].id,
        forall|id: PaneId| #[trigger]
            pane::has_pane(t.panes@, id) ==> pane::has_pane(tabs[i].panes@, id)
                || !view::some_tab_has(tabs, id),
    ensures
        view::tabs_ok(tabs.update(i, t)),
{
    let w = tabs.update(i, t);
    assert forall|a: int, b: int, id: PaneId|
        0 <= a < b < w.len() && #[trigger] pane::has_pane(w[a].panes@, id) implies !#[trigger] pane::has_pane(w[b].panes@, id) by {
        if a == i {
            assert(w[b] == tabs[b]);
            if pane::has_pane(tabs[b].panes@, id) {
                assert(view::some_tab_has(tabs, id));
                assert(pane::has_pane(tabs[i].panes@, id));
            }
        } else if b == i {
            assert(w[a] == tabs[a]);
            assert(pane::has_pane(tabs[a].panes@, id));
            if pane::has_pane(t.panes@, id) {
                assert(view::some_tab_has(tabs, id));
                assert(pane::has_pane(tabs[i].panes@, id));
            }
        } else {
            assert(w[a] == tabs[a] && w[b] == tabs[b]);
        }
    }
    assert forall|a: int| 0 <= a < w.len() implies (#[trigger] w[a]).wf() by {
        assert(tabs[a].wf());
    }
    assert forall|a: int, b: int| 0 <= a < b < w.len() implies (#[trigger] w[a]).id != (#[trigger] w[b]).id by {
        assert(tabs[a].id != tabs[b].id);
    }
}

// ---------------------------------------------------------------
// Opening and switching
// ---------------------------------------------------------------

/// `after` is `before` with the tab put in at `idx` and made the active one.
pub open spec fn is_tab_inserted(after: KovaView, before: KovaView, idx: int, t: Tab) -> bool {
    &&& after.tabs@ == before.tabs@.insert(idx, t)
    &&& after.active_tab == idx
    &&& after.effects@ == before.effects@.push(Effect::ResizePanes)
    &&& after == (KovaView {
        tabs: after.tabs,
        active_tab: after.active_tab,
        effects: after.effects,
        ..before
    })
}

/// `after` is `before` with tab `idx` made the active one, its marks cleared;
/// unchanged when it is not there or active already.
pub open spec fn is_switched(after: KovaView, before: KovaView, idx: int) -> bool {
    if 0 <= idx < before.tabs@.len() && idx != before.active_tab {
        &&& after.tabs@ == before.tabs@.update(
            idx,
            Tab { has_bell: false, has_completion: false, ..before.tabs@[idx] },
        )
        &&& after.active_tab == idx
        &&& after.effects@ == before.effects@ + seq![
            Effect::DirtyTab(before.tabs@[idx].id),
            Effect::ResizePanes,
        ]
        &&& after == (KovaView {
            tabs: after.tabs,
            active_tab: after.active_tab,
            effects: after.effects,
            ..before
        })
    } else {
        after == before
    }
}

/// `after` is `before` with the tab `delta` away, around the ends, made the
/// active one.
pub open spec fn is_switched_relative(after: KovaView, before: KovaView, delta: int) -> bool {
    if before.tabs@.len() <= 1 {
        after == before
    } else {
        is_switched(
            after,
            before,
            tab_away(before.active_tab as int, delta, before.tabs@.len() as int),
        )
    }
}

/// `after` is `before` without tab `idx`, which goes to the recent projects;
/// the tab that takes its place becomes the active one. The last tab ends the
/// application.
pub open spec fn is_tab_removed(after: KovaView, before: KovaView, idx: int) -> bool {
    if 0 <= idx < before.tabs@.len() {
        let last = before.tabs@.len() == 1;
        &&& after.tabs@ == before.tabs@.remove(idx)
        &&& after.active_tab == (if last {
            before.active_tab as int
        } else if idx >= before.tabs@.len() - 1 {
            before.tabs@.len() - 2
        } else {
            idx
        })
        &&& after.effects@ == before.effects@ + seq![
            Effect::Remember(before.tabs@[idx]),
            if last {
                Effect::Terminate
            } else {
                Effect::ResizePanes
            },
        ]
        &&& after == (KovaView {
            tabs: after.tabs,
            active_tab: after.active_tab,
            effects: after.effects,
            ..before
        })
    } else {
        after == before
    }
}

/// The tab `delta` away from `current` among `count`, around the ends.
pub open spec fn tab_away(current: int, delta: int, count: int) -> int {
    (current + delta) % count
}

fn wrap_index(current: usize, delta: i32, count: usize) -> (idx: usize)
    requires
        count > 0,
    ensures
        idx == tab_away(current as int, delta as int, count as int),
        idx < count,
{
    let c: usize = current % count;
    let mag: u64 = if delta >= 0 {
        delta as u64
    } else {
        (-(delta as i64)) as u64
    };
    let d: usize = (mag % count as u64) as usize;
    let ghost n = count as int;
    proof {
        vstd::arithmetic::div_mod::lemma_mod_bound(current as int, n);
        vstd::arithmetic::div_mod::lemma_mod_bound(mag as int, n);
        assert(d == mag as int % n);
    }
    if delta >= 0 {
        proof {
            vstd::arithmetic::div_mod::lemma_add_mod_noop(current as int, mag as int, n);
        }
        if c >= count - d {
            let r: usize = c - (count - d);
            proof {
                assert(c + d == n + r);
                vstd::arithmetic::div_mod::lemma_mod_add_multiples_vanish(r as int, n);
                vstd::arithmetic::div_mod::lemma_small_mod(r as nat, n as nat);
            }
            r
        } else {
            proof {
                vstd::arithmetic::div_mod::lemma_small_mod((c + d) as nat, n as nat);
            }
            c + d
        }
    } else {
        proof {
            vstd::arithmetic::div_mod::lemma_sub_mod_noop(current as int, mag as int, n);
        }
        if c >= d {
            proof {
                vstd::arithmetic::div_mod::lemma_small_mod((c - d) as nat, n as nat);
            }
            c - d
        } else {
            let r: usize = count - (d - c);
            proof {
                vstd::arithmetic::div_mod::lemma_mod_add_multiples_vanish(c - d, n);
                vstd::arithmetic::div_mod::lemma_small_mod(r as nat, n as nat);
                assert(r == (c - d) + n);
            }
            r
        }
    }
}

/// Going one tab forward and then one back, or the other way round, comes
/// back to the tab one started from.
pub proof fn next_and_previous_undo_each_other(current: int, count: int)
    requires
        0 <= current < count,
    ensures
        tab_away(tab_away(current, 1, count), -1, count) == current,
        tab_away(tab_away(current, -1, count), 1, count) == current,
{
    if current == count - 1 {
        vstd::arithmetic::div_mod::lemma_mod_self_0(count);
        vstd::arithmetic::div_mod::lemma_mod_add_multiples_vanish(-1, count);
        vstd::arithmetic::div_mod::lemma_small_mod((count - 1) as nat, count as nat);
        if count > 1 {
            vstd::arithmetic::div_mod::lemma_small_mod((count - 2) as nat, count as nat);
        } else {
            assert(tab_away(current, -1, count) == 0);
        }
    } else {
        vstd::arithmetic::div_mod::lemma_small_mod((current + 1) as nat, count as nat);
        vstd::arithmetic::div_mod::lemma_small_mod(current as nat, count as nat);
        if current == 0 {
            vstd::arithmetic::div_mod::lemma_mod_add_multiples_vanish(-1, count);
            vstd::arithmetic::div_mod::lemma_small_mod((count - 1) as nat, count as nat);
            vstd::arithmetic::div_mod::lemma_mod_self_0(count);
        } else {
            vstd::arithmetic::div_mod::lemma_small_mod((current - 1) as nat, count as nat);
        }
    }
}

/// The panes of a tab whose first one starts in `cwd` and is asked to type
/// `command`.
pub open spec fn first_asked(
    panes: Seq<Pane>,
    cwd: Option<String>,
    command: Option<String>,
) -> Seq<Pane> {
    if panes.len() > 0 {
        panes.update(0, ipc::asked_of(panes[0], cwd, command))
    } else {
        panes
    }
}

/// `after` is `before` with the tab `t` open right of the active one. It
/// starts in the given directory, else in the focused pane's.
pub open spec fn is_tab_opened(
    after: KovaView,
    before: KovaView,
    t: Tab,
    cwd: Option<String>,
    command: Option<String>,
) -> bool {
    let idx = before.active_tab + 1;
    let n = after.tabs@[idx];
    &&& n.panes@ == first_asked(t.panes@, before.cwd_for(cwd), command)
    &&& n == (Tab { panes: n.panes, ..t })
    &&& is_tab_inserted(after, before, idx, n)
}

/// What making a new tab does; `tab` is what spawning it gave.
pub open spec fn is_new_tab_done(
    after: KovaView,
    before: KovaView,
    tab: Option<Tab>,
) -> bool {
    match tab {
        Some(t) => is_tab_opened(after, before, t, None, None),
        None => after == before,
    }
}

impl KovaView {
    /// Put a tab in at `idx` and make it the active one.
    pub(crate) fn insert_tab(&mut self, idx: usize, tab: Tab)
        requires
            idx <= old(self).tabs@.len(),
        ensures
            is_tab_inserted(*final(self), *old(self), idx as int, tab),
            view::tabs_ok(old(self).tabs@) && fresh_tab(old(self).tabs@, tab) ==> final(self).wf(),
    {
        proof {
            if view::tabs_ok(self.tabs@) && fresh_tab(self.tabs@, tab) {
                lemma_tabs_insert(self.tabs@, idx as int, tab);
            }
        }
        self.tabs.insert(idx, tab);
        self.active_tab = idx;
        self.emit(Effect::ResizePanes);
    }

    /// Open a tab right of the active one, started in the directory `cwd` or
    /// else in the focused pane's.
    pub(crate) fn open_tab(&mut self, t: Tab, cwd: Option<String>, command: Option<String>)
        requires
            old(self).has_active(),
        ensures
            is_tab_opened(*final(self), *old(self), t, cwd, command),
            old(self).wf() && fresh_tab(old(self).tabs@, t) ==> final(self).wf(),
    {
        let start = self.new_pane_cwd(cwd);
        let ghost given = start;
        let mut n = t;
        if n.panes.len() > 0 {
            n.panes[0].start_in(start);
            assert(n.panes@ =~= t.panes@.update(0, pane::started_in(t.panes@[0], given)));
            if command.is_some() {
                n.panes[0].pending_command = command;
            }
        }
        proof {
            let w = first_asked(t.panes@, given, command);
            assert(n.panes@ =~= w);
            if fresh_tab(old(self).tabs@, t) {
                assert(t.wf());
                pane::lemma_update_flags(t.panes@, 0, w[0]);
                assert(fresh_tab(old(self).tabs@, n));
            }
        }
        assert(self.tabs.len() == self.tabs@.len());
        let idx: usize = self.active_tab + 1;
        self.insert_tab(idx, n);
        assert(self.tabs@[idx as int] == n);
    }

    /// Open a tab right of the active one; `tab` is what creating it gave, in
    /// the focused pane's directory.
    pub fn do_new_tab(&mut self, tab: Option<Tab>)
        requires
            tab is Some ==> old(self).has_active(),
        ensures
            is_new_tab_done(*final(self), *old(self), tab),
            old(self).wf() && (tab matches Some(t) ==> fresh_tab(old(self).tabs@, t))
                ==> final(self).wf(),
    {
        match tab {
            Some(t) => {
                self.open_tab(t, None, None);
            },
            None => {},
        }
    }

    /// Switch to the tab at `idx`.
    pub fn do_switch_tab(&mut self, idx: usize)
        ensures
            is_switched(*final(self), *old(self), idx as int),
            old(self).wf() ==> final(self).wf(),
    {
        if idx >= self.tabs.len() || idx == self.active_tab {
            return;
        }
        let id: TabId = self.tabs[idx].id;
        self.emit(Effect::DirtyTab(id));
        self.active_tab = idx;
        self.tabs[idx].has_bell = false;
        self.tabs[idx].has_completion = false;
        self.emit(Effect::ResizePanes);
        assert(self.effects@ =~= old(self).effects@ + seq![
            Effect::DirtyTab(old(self).tabs@[idx as int].id),
            Effect::ResizePanes,
        ]);
        proof {
            let t = Tab { has_bell: false, has_completion: false, ..old(self).tabs@[idx as int] };
            assert(self.tabs@ =~= old(self).tabs@.update(idx as int, t));
            if old(self).wf() {
                assert(old(self).tabs@[idx as int].wf());
                lemma_tabs_update(old(self).tabs@, idx as int, t);
            }
        }
    }

    /// Switch to the tab `delta` away, around the ends.
    pub fn do_switch_tab_relative(&mut self, delta: i32)
        ensures
            is_switched_relative(*final(self), *old(self), delta as int),
            old(self).wf() ==> final(self).wf(),
    {
        let count: usize = self.tabs.len();
        if count <= 1 {
            return;
        }
        let idx = wrap_index(self.active_tab, delta, count);
        self.do_switch_tab(idx);
    }
}

// ---------------------------------------------------------------
// Splitting
// ---------------------------------------------------------------

/// The panes of a tab with `new` put in next to the focused pane: in a column
/// of its own to the right, or below it.
pub open spec fn split_panes(t: Tab, direction: SplitDirection, new: Pane) -> Seq<Pane> {
    let i = pane::pos(t.panes@, t.focused_pane);
    match direction {
        SplitDirection::Horizontal => pane::with_column(t.panes@, t.panes@[i].column as int, new),
        SplitDirection::Vertical => pane::with_below(t.panes@, i, new),
    }
}

/// The panes of a tab with `new` put in at the root: in a last column of its
/// own, or at the bottom of the focused pane's column (the last column when
/// the focus is nowhere).
pub open spec fn root_split_panes(t: Tab, direction: SplitDirection, new: Pane) -> Seq<Pane> {
    match direction {
        SplitDirection::Horizontal => pane::with_column(
            t.panes@,
            t.panes@.last().column as int,
            new,
        ),
        SplitDirection::Vertical => pane::with_below(t.panes@, root_row(t), new),
    }
}

/// The bottom pane of the focused pane's column, of the last column when the
/// focus is nowhere.
pub open spec fn root_row(t: Tab) -> int {
    let i = pane::pos(t.panes@, t.focused_pane);
    if i < t.panes@.len() {
        pane::right_of(t.panes@, t.panes@[i].column as int, 0) - 1
    } else {
        t.panes@.len() - 1
    }
}

/// `after` is `before` with the active tab holding `panes`, `new` focused
/// among them, and `extra` asked for before the redraw.
pub open spec fn is_pane_put_in(
    after: KovaView,
    before: KovaView,
    panes: Seq<Pane>,
    new: Pane,
    extra: Seq<Effect>,
) -> bool {
    let i = before.active_tab as int;
    &&& after.tabs@.len() == before.tabs@.len()
    &&& after.tabs@[i].panes@ == panes
    &&& after.tabs@[i] == (Tab {
        panes: after.tabs@[i].panes,
        focused_pane: new.id,
        ..before.tabs@[i]
    })
    &&& forall|k: int| 0 <= k < before.tabs@.len() && k != i ==> after.tabs@[k] == before.tabs@[k]
    &&& after.effects@ == before.effects@ + extra + seq![
        Effect::PaneInserted(new.id),
        Effect::ResizePanes,
    ]
    &&& after == (KovaView { tabs: after.tabs, effects: after.effects, ..before })
}

/// The split can take place: the active tab is there and holds its focus.
pub open spec fn can_split(v: KovaView) -> bool {
    v.has_active() && pane::has_pane(v.active().panes@, v.active().focused_pane)
}

/// The new pane is new to the window.
pub open spec fn fresh_pane(v: KovaView, new: Pane) -> bool {
    !view::some_tab_has(v.tabs@, new.id)
}

proof fn lemma_put_in_keeps_wf(
    after: KovaView,
    before: KovaView,
    panes: Seq<Pane>,
    new: Pane,
    extra: Seq<Effect>,
)
    requires
        before.wf(),
        before.has_active(),
        is_pane_put_in(after, before, panes, new, extra),
        fresh_pane(before, new),
        pane::columns_ok(panes),
        pane::distinct_ids(panes),
        forall|id: PaneId| #[trigger]
            pane::has_pane(panes, id) <==> pane::has_pane(before.active().panes@, id) || id
                == new.id,
    ensures
        after.wf(),
{
    let i = before.active_tab as int;
    let t = after.tabs@[i];
    assert(pane::has_pane(panes, new.id));
    assert(panes.len() > 0);
    assert(t.wf());
    assert forall|id: PaneId| #[trigger] pane::has_pane(t.panes@, id) implies pane::has_pane(
        before.tabs@[i].panes@,
        id,
    ) || !view::some_tab_has(before.tabs@, id) by {}
    lemma_tabs_update(before.tabs@, i, t);
    assert(after.tabs@ =~= before.tabs@.update(i, t));
}

/// A pane new to the window is new to each of its tabs.
proof fn lemma_fresh_in_active(v: KovaView, new: Pane)
    requires
        v.has_active(),
        fresh_pane(v, new),
    ensures
        !pane::has_pane(v.active().panes@, new.id),
{
    if pane::has_pane(v.active().panes@, new.id) {
        assert(view::some_tab_has(v.tabs@, new.id));
    }
}

/// What splitting the focused pane does; `new` is what spawning the pane in
/// the focused pane's directory gave.
pub open spec fn is_split_done(
    after: KovaView,
    before: KovaView,
    direction: SplitDirection,
    new: Option<Pane>,
) -> bool {
    match new {
        Some(p) if can_split(before) => {
            let q = pane::started_in(p, before.cwd_for(None));
            is_pane_put_in(
                after,
                before,
                split_panes(before.active(), direction, q),
                q,
                seq![Effect::Reveal(before.active().id, q.id)],
            )
        },
        _ => after == before,
    }
}

/// What splitting at the root does; `new` is what spawning the pane in the
/// focused pane's directory gave.
pub open spec fn is_root_split_done(
    after: KovaView,
    before: KovaView,
    direction: SplitDirection,
    new: Option<Pane>,
) -> bool {
    match new {
        Some(p) if before.has_active() => {
            let q = pane::started_in(p, before.cwd_for(None));
            is_pane_put_in(
                after,
                before,
                root_split_panes(before.active(), direction, q),
                q,
                (if direction == SplitDirection::Horizontal {
                    seq![Effect::ScrollToEnd(before.active().id)]
                } else {
                    seq![]
                }),
            )
        },
        _ => after == before,
    }
}

/// A tab opened in a directory, given or the focused pane's, starts there.
pub proof fn a_new_tab_starts_in_the_directory(
    after: KovaView,
    before: KovaView,
    t: Tab,
    given: Option<String>,
    command: Option<String>,
    dir: String,
)
    requires
        before.has_active(),
        t.panes@.len() > 0,
        is_tab_opened(after, before, t, given, command),
        before.cwd_for(given) == Some(dir),
    ensures
        after.has_active(),
        after.active().id == t.id,
        after.active().panes@[0].id == t.panes@[0].id,
        after.active().panes@[0].term.cwd == Some(dir),
{
}

/// A split, of the focused pane or at the root, starts where the focused pane
/// is, and takes the focus.
pub proof fn a_split_starts_where_the_focus_is(
    after: KovaView,
    before: KovaView,
    direction: SplitDirection,
    p: Pane,
    dir: String,
)
    requires
        before.wf(),
        can_split(before),
        fresh_pane(before, p),
        is_split_done(after, before, direction, Some(p)) || is_root_split_done(
            after,
            before,
            direction,
            Some(p),
        ),
        before.cwd_for(None) == Some(dir),
    ensures
        after.focused() matches Some(q) && q.id == p.id && q.term.cwd == Some(dir),
{
    let t = before.active();
    let q = pane::started_in(p, Some(dir));
    let panes = after.active().panes@;
    assert(t.wf());
    pane::lemma_pos(t.panes@, t.focused_pane);
    let i = pane::pos(t.panes@, t.focused_pane);
    assert(!pane::has_pane(t.panes@, p.id));
    let at = match direction {
        SplitDirection::Horizontal => if panes == split_panes(t, direction, q) {
            pane::right_of(t.panes@, t.panes@[i].column as int, 0)
        } else {
            pane::right_of(t.panes@, t.panes@.last().column as int, 0)
        },
        SplitDirection::Vertical => if panes == split_panes(t, direction, q) {
            i + 1
        } else {
            root_row(t) + 1
        },
    };
    pane::lemma_right_of(t.panes@, t.panes@[i].column as int, 0);
    pane::lemma_right_of(t.panes@, t.panes@.last().column as int, 0);
    assert(panes[at].id == p.id && panes[at].term.cwd == Some(dir));
    assert forall|k: int| 0 <= k < panes.len() && k != at implies (#[trigger] panes[k]).id
        != p.id by {
        if k < at {
            assert(panes[k].id == t.panes@[k].id);
        } else {
            assert(panes[k].id == t.panes@[k - 1].id);
        }
    }
    assert(pane::has_pane(panes, p.id));
    pane::lemma_pos(panes, p.id);
}

impl KovaView {
    /// Put `new` in next to the focused pane.
    pub(crate) fn put_in_split(&mut self, direction: SplitDirection, new: Pane)
        requires
            can_split(*old(self)),
            old(self).active_columns_ok(),
        ensures
            final(self).tabs@.len() == old(self).tabs@.len(),
            final(self).active().panes@ == split_panes(old(self).active(), direction, new),
            final(self).active() == (Tab {
                panes: final(self).active().panes,
                focused_pane: new.id,
                ..old(self).active()
            }),
            forall|k: int|
                0 <= k < old(self).tabs@.len() && k != old(self).active_tab ==> final(self).tabs@[k]
                    == old(self).tabs@[k],
            *final(self) == (KovaView { tabs: final(self).tabs, ..*old(self) }),
    {
        let idx: usize = self.active_tab;
        let new_id: PaneId = new.id;
        let i = self.tabs[idx].find(self.tabs[idx].focused_pane);
        match direction {
            SplitDirection::Horizontal => {
                self.tabs[idx].insert_column_after(i, new);
            },
            SplitDirection::Vertical => {
                self.tabs[idx].insert_below(i, new);
            },
        }
        self.tabs[idx].focused_pane = new_id;
    }

    /// Split the focused pane; `new` is what spawning the pane in its directory
    /// gave.
    pub fn do_split(&mut self, direction: SplitDirection, new: Option<Pane>)
        requires
            old(self).active_columns_ok(),
        ensures
            is_split_done(*final(self), *old(self), direction, new),
            old(self).wf() && (new matches Some(p) ==> fresh_pane(*old(self), p))
                ==> final(self).wf(),
    {
        if self.active_tab >= self.tabs.len() {
            return;
        }
        if !self.tabs[self.active_tab].contains(self.tabs[self.active_tab].focused_pane) {
            return;
        }
        match new {
            Some(p) => {
                let start = self.new_pane_cwd(None);
                let mut p = p;
                p.start_in(start);
                let id: PaneId = p.id;
                let tab_id: TabId = self.tabs[self.active_tab].id;
                self.put_in_split(direction, p);
                self.emit(Effect::Reveal(tab_id, id));
                self.emit(Effect::PaneInserted(id));
                self.emit(Effect::ResizePanes);
                proof {
                    let extra = seq![Effect::Reveal(old(self).active().id, p.id)];
                    let panes = split_panes(old(self).active(), direction, p);
                    assert(self.effects@ =~= old(self).effects@ + extra + seq![
                        Effect::PaneInserted(p.id),
                        Effect::ResizePanes,
                    ]);
                    assert(is_pane_put_in(*self, *old(self), panes, p, extra));
                    if old(self).wf() && fresh_pane(*old(self), p) {
                        lemma_split_keeps_wf(*self, *old(self), direction, p, extra);
                    }
                }
            },
            None => {},
        }
    }

    /// Split at the root: the new pane takes a whole column at the right, or
    /// the bottom of the column; `new` is what spawning the pane in the focused
    /// pane's directory gave.
    pub fn do_split_root(&mut self, direction: SplitDirection, new: Option<Pane>)
        requires
            old(self).active_columns_ok(),
            old(self).has_active() ==> old(self).active().panes@.len() > 0,
        ensures
            is_root_split_done(*final(self), *old(self), direction, new),
            old(self).wf() && (new matches Some(p) ==> fresh_pane(*old(self), p))
                ==> final(self).wf(),
    {
        if self.active_tab >= self.tabs.len() {
            return;
        }
        match new {
            Some(p) => {
                let start = self.new_pane_cwd(None);
                let mut p = p;
                p.start_in(start);
                let idx: usize = self.active_tab;
                let id: PaneId = p.id;
                let tab_id: TabId = self.tabs[idx].id;
                let n: usize = self.tabs[idx].panes.len();
                let i = self.tabs[idx].find(self.tabs[idx].focused_pane);
                let ghost t = self.active();
                match direction {
                    SplitDirection::Horizontal => {
                        self.tabs[idx].insert_column_after(n - 1, p);
                    },
                    SplitDirection::Vertical => {
                        let row = self.tabs[idx].root_row_index(i);
                        self.tabs[idx].insert_below(row, p);
                    },
                }
                self.tabs[idx].focused_pane = id;
                if direction == SplitDirection::Horizontal {
                    self.emit(Effect::ScrollToEnd(tab_id));
                }
                self.emit(Effect::PaneInserted(id));
                self.emit(Effect::ResizePanes);
                proof {
                    let extra: Seq<Effect> = if direction == SplitDirection::Horizontal {
                        seq![Effect::ScrollToEnd(old(self).active().id)]
                    } else {
                        seq![]
                    };
                    let panes = root_split_panes(old(self).active(), direction, p);
                    assert(self.effects@ =~= old(self).effects@ + extra + seq![
                        Effect::PaneInserted(p.id),
                        Effect::ResizePanes,
                    ]);
                    assert(is_pane_put_in(*self, *old(self), panes, p, extra));
                    if old(self).wf() && fresh_pane(*old(self), p) {
                        lemma_fresh_in_active(*old(self), p);
                        assert(old(self).active().wf());
                        assert(old(self).active().panes.len() == old(self).active().panes@.len());
                        match direction {
                            SplitDirection::Horizontal => {
                                pane::lemma_with_column(t.panes@, n - 1, p);
                            },
                            SplitDirection::Vertical => {
                                pane::lemma_with_below(t.panes@, root_row(t), p);
                            },
                        }
                        lemma_put_in_keeps_wf(*self, *old(self), panes, p, extra);
                    }
                }
            },
            None => {},
        }
    }
}

pub proof fn lemma_split_keeps_wf(
    after: KovaView,
    before: KovaView,
    direction: SplitDirection,
    new: Pane,
    extra: Seq<Effect>,
)
    requires
        before.wf(),
        can_split(before),
        fresh_pane(before, new),
        is_pane_put_in(
            after,
            before,
            split_panes(before.active(), direction, new),
            new,
            extra,
        ),
    ensures
        after.wf(),
{
    let t = before.active();
    assert(t.wf());
    assert(t.panes.len() == t.panes@.len());
    pane::lemma_pos(t.panes@, t.focused_pane);
    lemma_fresh_in_active(before, new);
    let i = pane::pos(t.panes@, t.focused_pane);
    match direction {
        SplitDirection::Horizontal => {
            pane::lemma_with_column(t.panes@, i, new);
        },
        SplitDirection::Vertical => {
            pane::lemma_with_below(t.panes@, i, new);
        },
    }
    lemma_put_in_keeps_wf(
        after,
        before,
        split_panes(before.active(), direction, new),
        new,
        extra,
    );
}

impl Tab {
    /// The bottom pane of the column of the pane at `i`, the last pane when
    /// there is none at `i`.
    fn root_row_index(&self, i: usize) -> (row: usize)
        requires
            pane::columns_ok(self.panes@),
            self.panes@.len() > 0,
            i == pane::pos(self.panes@, self.focused_pane),
        ensures
            row == root_row(*self),
            row < self.panes@.len(),
    {
        if i >= self.panes.len() {
            return self.panes.len() - 1;
        }
        let c: usize = self.panes[i].column;
        let mut q: usize = 0;
        while q < self.panes.len() && self.panes[q].column <= c
            invariant
                q <= self.panes@.len(),
                pane::right_of(self.panes@, c as int, q as int) == pane::right_of(
                    self.panes@,
                    c as int,
                    0,
                ),
            decreases self.panes@.len() - q,
        {
            q = q + 1;
        }
        proof {
            pane::lemma_right_of(self.panes@, c as int, 0);
            assert(q > 0) by {
                if q == 0 {
                    assert(self.panes@[i as int].column > c);
                }
            }
        }
        q - 1
    }
}

// ---------------------------------------------------------------
// Closing
// ---------------------------------------------------------------

/// The panes found around a pane, side by side.
#[derive(Clone, Copy, Debug, PartialEq, Eq, Structural)]
pub struct Neighbors {
    pub right: Option<PaneId>,
    pub left: Option<PaneId>,
    pub down: Option<PaneId>,
    pub up: Option<PaneId>,
}

impl Neighbors {
    /// The neighbour the focus goes to: right, else left, else down, else up.
    pub open spec fn preferred(self) -> Option<PaneId> {
        if self.right is Some {
            self.right
        } else if self.left is Some {
            self.left
        } else if self.down is Some {
            self.down
        } else {
            self.up
        }
    }

    pub fn first(self) -> (id: Option<PaneId>)
        ensures
            id == self.preferred(),
    {
        if self.right.is_some() {
            self.right
        } else if self.left.is_some() {
            self.left
        } else if self.down.is_some() {
            self.down
        } else {
            self.up
        }
    }
}

/// The pane that takes the focus when one leaves: the neighbour when it is
/// still there, else the first pane.
pub open spec fn focus_after(panes: Seq<Pane>, next: Option<PaneId>) -> PaneId {
    match next {
        Some(id) => if pane::has_pane(panes, id) {
            id
        } else {
            panes[0].id
        },
        None => panes[0].id,
    }
}

/// `t` is `before` without the pane at `i`, the focus on `focus`.
pub open spec fn is_pane_closed(t: Tab, before: Tab, i: int, focus: PaneId) -> bool {
    &&& t.panes@ == pane::without(before.panes@, i)
    &&& t.minimized_stack@ == pane::stack_without(before.minimized_stack@, before.panes@[i].id)
    &&& t == (Tab {
        panes: t.panes,
        minimized_stack: t.minimized_stack,
        focused_pane: focus,
        ..before
    })
}

/// What a tab asks for after a pane left it.
pub open spec fn after_pane_left(id: TabId, old_cols: int, new_cols: int, focus: PaneId) -> Seq<
    Effect,
> {
    seq![
        Effect::ScaleWidth(id, old_cols as usize, new_cols as usize),
        Effect::ClampScroll(id),
        Effect::Reveal(id, focus),
        Effect::ResizePanes,
    ]
}

/// `after` is `before` with tab `idx` replaced by `t` and `effects` asked for.
pub open spec fn is_tab_changed(
    after: KovaView,
    before: KovaView,
    idx: int,
    t: Tab,
    effects: Seq<Effect>,
) -> bool {
    &&& after.tabs@ == before.tabs@.update(idx, t)
    &&& after.effects@ == before.effects@ + effects
    &&& after == (KovaView { tabs: after.tabs, effects: after.effects, ..before })
}

/// A whole tab that loses one of several panes and focuses another is whole.
pub proof fn lemma_pane_closed_keeps_wf(t: Tab, before: Tab, i: int, focus: PaneId)
    requires
        before.wf(),
        before.panes@.len() > 1,
        0 <= i < before.panes@.len(),
        is_pane_closed(t, before, i, focus),
        pane::has_pane(t.panes@, focus),
    ensures
        t.wf(),
        forall|id: PaneId| #[trigger]
            pane::has_pane(t.panes@, id) ==> pane::has_pane(before.panes@, id),
{
    pane::lemma_without(before.panes@, i);
}

proof fn lemma_focus_after(panes: Seq<Pane>, next: Option<PaneId>)
    requires
        panes.len() > 0,
    ensures
        pane::has_pane(panes, focus_after(panes, next)),
{
    assert(pane::has_pane(panes, panes[0].id));
}

/// The running process the user is asked about before the focused pane
/// closes: the tab's title and the process.
pub open spec fn close_question(v: KovaView) -> Option<(String, String)> {
    match v.focused() {
        Some(p) => match p.term.process {
            Some(name) => Some((v.active().shown_title(), name)),
            None => None,
        },
        None => None,
    }
}

/// The processes running in a list of panes, under a title.
pub open spec fn processes_in(title: String, panes: Seq<Pane>) -> Seq<(String, String)>
    decreases panes.len(),
{
    if panes.len() == 0 {
        Seq::empty()
    } else {
        let before = processes_in(title, panes.drop_last());
        match panes.last().term.process {
            Some(name) => before.push((title, name)),
            None => before,
        }
    }
}

/// The processes running in the tabs, tab by tab.
pub open spec fn processes_of(tabs: Seq<Tab>) -> Seq<(String, String)>
    decreases tabs.len(),
{
    if tabs.len() == 0 {
        Seq::empty()
    } else {
        processes_of(tabs.drop_last()) + processes_in(
            tabs.last().shown_title(),
            tabs.last().panes@,
        )
    }
}

/// The lines of the question, one per process.
pub open spec fn process_lines(procs: Seq<(String, String)>) -> Seq<char>
    decreases procs.len(),
{
    if procs.len() == 0 {
        "The following processes are running:"@
    } else {
        process_lines(procs.drop_last()) + "\n\u{2022} Tab \u{ab}"@ + procs.last().0@ + "\u{bb}: "@
            + procs.last().1@
    }
}

/// The question put to the user before running processes end, or `None` when
/// nothing runs and there is nothing to ask.
pub fn confirm_running_processes(procs: &Vec<(String, String)>) -> (question: Option<String>)
    ensures
        question is None <==> procs@.len() == 0,
        question matches Some(q) ==> q@ == process_lines(procs@),
{
    if procs.len() == 0 {
        return None;
    }
    let mut lines = "The following processes are running:".to_string();
    assert(procs@.take(0) =~= Seq::empty());
    for i in 0..procs.len()
        invariant
            lines@ == process_lines(procs@.take(i as int)),
    {
        assert(procs@.take(i + 1).drop_last() =~= procs@.take(i as int));
        lines.append("\n\u{2022} Tab \u{ab}");
        lines.append(procs[i].0.as_str());
        lines.append("\u{bb}: ");
        lines.append(procs[i].1.as_str());
    }
    assert(procs@.take(procs@.len() as int) =~= procs@);
    Some(lines)
}

impl Tab {
    /// Append the tab's title and process for each pane that runs one.
    fn push_processes(&self, out: &mut Vec<(String, String)>)
        ensures
            final(out)@ == old(out)@ + processes_in(self.shown_title(), self.panes@),
    {
        let ghost before = out@;
        assert(self.panes@.take(0) =~= Seq::empty());
        assert(before + processes_in(self.shown_title(), self.panes@.take(0)) =~= before);
        for i in 0..self.panes.len()
            invariant
                out@ == before + processes_in(self.shown_title(), self.panes@.take(i as int)),
        {
            assert(self.panes@.take(i + 1).drop_last() =~= self.panes@.take(i as int));
            match &self.panes[i].term.process {
                Some(name) => {
                    out.push((self.title(), name.clone()));
                },
                None => {},
            }
            assert(out@ =~= before + processes_in(self.shown_title(), self.panes@.take(i + 1)));
        }
        assert(self.panes@.take(self.panes@.len() as int) =~= self.panes@);
    }

    /// Close the pane at `i`; the focus goes to `next` when it is still
    /// there. Returns the counts of columns before and after, and the focus.
    fn close_pane(&mut self, i: usize, next: Option<PaneId>) -> (r: (usize, usize, PaneId))
        requires
            i < old(self).panes@.len(),
            old(self).panes@.len() > 1,
            pane::columns_ok(old(self).panes@),
            pane::distinct_ids(old(self).panes@),
        ensures
            is_pane_closed(*final(self), *old(self), i as int, r.2),
            r.0 == Tab::column_count(old(self).panes@),
            r.1 == Tab::column_count(final(self).panes@),
            r.2 == focus_after(final(self).panes@, next),
    {
        let id: PaneId = self.panes[i].id;
        let old_cols = self.num_columns();
        proof {
            pane::lemma_without(self.panes@, i as int);
        }
        let gone = self.take_out(i);
        let focus: PaneId = match next {
            Some(n) => if self.contains(n) {
                n
            } else {
                self.first_pane_id()
            },
            None => self.first_pane_id(),
        };
        self.focused_pane = focus;
        let new_cols = self.num_columns();
        pane::retain_other(&mut self.minimized_stack, id);
        (old_cols, new_cols, focus)
    }
}

/// `after` is `before` with the focused pane of the active tab closed.
pub open spec fn is_focused_closed(
    after: KovaView,
    before: KovaView,
    next: Option<PaneId>,
) -> bool {
    let i = before.active_tab as int;
    let at = pane::pos(before.active().panes@, before.active().focused_pane);
    let t = after.tabs@[i];
    let focus = focus_after(pane::without(before.active().panes@, at), next);
    &&& is_pane_closed(t, before.active(), at, focus)
    &&& is_tab_changed(
        after,
        before,
        i,
        t,
        after_pane_left(
            t.id,
            Tab::column_count(before.active().panes@),
            Tab::column_count(t.panes@),
            focus,
        ),
    )
}

/// What closing the focused pane does: nothing when a process runs in it and
/// the user does not confirm; the only pane of a tab takes the tab with it.
pub open spec fn is_pane_close_done(
    after: KovaView,
    before: KovaView,
    confirmed: bool,
    next: Option<PaneId>,
) -> bool {
    if !before.has_active() || (close_question(before) is Some && !confirmed) {
        after == before
    } else if before.active().panes@.len() > 1 && can_split(before) {
        is_focused_closed(after, before, next)
    } else {
        is_tab_removed(after, before, before.active_tab as int)
    }
}

/// What closing the active tab does: nothing when processes run in it and the
/// user does not confirm.
pub open spec fn is_tab_close_done(after: KovaView, before: KovaView, confirmed: bool) -> bool {
    if before.has_active() && (confirmed || processes_in(
        before.active().shown_title(),
        before.active().panes@,
    ).len() == 0) {
        is_tab_removed(after, before, before.active_tab as int)
    } else {
        after == before
    }
}

/// What closing the window does: nothing when processes run in it and the user
/// does not confirm.
pub open spec fn is_window_close_done(
    after: KovaView,
    before: KovaView,
    confirmed: bool,
) -> bool {
    &&& (processes_of(before.tabs@).len() > 0 && !confirmed ==> after == before)
    &&& (processes_of(before.tabs@).len() == 0 || confirmed ==> {
        &&& after.effects@ == before.effects@.push(Effect::RememberAll)
        &&& after == (KovaView {
            effects: after.effects,
            closing: true,
            ..before
        })
    })
}

impl KovaView {
    /// The process to ask about before the focused pane closes.
    pub fn pane_close_question(&self) -> (q: Option<(String, String)>)
        ensures
            q == close_question(*self),
    {
        match self.focused_pane() {
            Some(p) => match &p.term.process {
                Some(name) => Some((self.tabs[self.active_tab].title(), name.clone())),
                None => None,
            },
            None => None,
        }
    }

    /// Close the focused pane, or its tab when it is the only one. `confirmed`
    /// is the answer to the question about a process running in it, `next`
    /// the neighbour to focus.
    pub fn do_close_pane_or_tab(&mut self, confirmed: bool, next: Option<PaneId>)
        requires
            old(self).active_columns_ok(),
            old(self).has_active() ==> pane::distinct_ids(old(self).active().panes@),
        ensures
            is_pane_close_done(*final(self), *old(self), confirmed, next),
            old(self).wf() ==> final(self).wf(),
    {
        if self.active_tab >= self.tabs.len() {
            return;
        }
        if self.pane_close_question().is_some() && !confirmed {
            return;
        }
        let idx: usize = self.active_tab;
        let focused_id: PaneId = self.tabs[idx].focused_pane;
        let at = self.tabs[idx].find(focused_id);
        if self.tabs[idx].panes.len() <= 1 || at >= self.tabs[idx].panes.len() {
            self.remove_tab(idx);
            return;
        }
        let tab_id: TabId = self.tabs[idx].id;
        proof {
            pane::lemma_pos(self.tabs@[idx as int].panes@, focused_id);
            pane::lemma_without(self.tabs@[idx as int].panes@, at as int);
        }
        let (old_cols, new_cols, focus) = self.tabs[idx].close_pane(at, next);
        self.emit(Effect::ScaleWidth(tab_id, old_cols, new_cols));
        self.emit(Effect::ClampScroll(tab_id));
        self.emit(Effect::Reveal(tab_id, focus));
        self.emit(Effect::ResizePanes);
        proof {
            let t = self.tabs@[idx as int];
            assert(self.effects@ =~= old(self).effects@ + after_pane_left(
                t.id,
                Tab::column_count(old(self).active().panes@),
                Tab::column_count(t.panes@),
                focus,
            ));
            assert(self.tabs@ =~= old(self).tabs@.update(idx as int, t));
            if old(self).wf() {
                let b = old(self).active();
                assert(b.wf());
                lemma_focus_after(t.panes@, next);
                lemma_pane_closed_keeps_wf(t, b, at as int, focus);
                lemma_tabs_update(old(self).tabs@, idx as int, t);
            }
        }
    }

    /// Remove the tab at `idx`: record it among the recent projects, take it
    /// out, make the one that takes its place active; the last one ends the
    /// application.
    pub fn remove_tab(&mut self, idx: usize)
        ensures
            is_tab_removed(*final(self), *old(self), idx as int),
            old(self).wf() ==> final(self).wf(),
    {
        if idx >= self.tabs.len() {
            return;
        }
        proof {
            if view::tabs_ok(self.tabs@) {
                lemma_tabs_remove(self.tabs@, idx as int);
            }
        }
        let tab = self.tabs.remove(idx);
        self.emit(Effect::Remember(tab));
        let left: usize = self.tabs.len();
        if left == 0 {
            self.emit(Effect::Terminate);
        } else {
            self.active_tab = if idx >= left {
                left - 1
            } else {
                idx
            };
            self.emit(Effect::ResizePanes);
        }
        assert(self.effects@ =~= old(self).effects@ + seq![
            Effect::Remember(old(self).tabs@[idx as int]),
            if left == 0 {
                Effect::Terminate
            } else {
                Effect::ResizePanes
            },
        ]);
    }

    /// The processes running in the active tab.
    pub fn tab_processes(&self) -> (procs: Vec<(String, String)>)
        ensures
            procs@ == (if self.has_active() {
                processes_in(self.active().shown_title(), self.active().panes@)
            } else {
                Seq::empty()
            }),
    {
        let mut procs: Vec<(String, String)> = Vec::new();
        if self.active_tab < self.tabs.len() {
            self.tabs[self.active_tab].push_processes(&mut procs);
            assert(procs@ =~= processes_in(self.active().shown_title(), self.active().panes@));
        }
        procs
    }

    /// Close the active tab with all its panes. `confirmed` is the answer to
    /// the question about the processes running in it.
    pub fn do_close_tab(&mut self, confirmed: bool)
        ensures
            is_tab_close_done(*final(self), *old(self), confirmed),
            old(self).wf() ==> final(self).wf(),
    {
        let idx: usize = self.active_tab;
        if idx >= self.tabs.len() {
            return;
        }
        let procs = self.tab_processes();
        if procs.len() > 0 && !confirmed {
            return;
        }
        self.remove_tab(idx);
    }

    /// The title of the tab and the process for each pane of the window with
    /// a running foreground process.
    pub fn running_processes(&self) -> (procs: Vec<(String, String)>)
        ensures
            procs@ == processes_of(self.tabs@),
    {
        let mut procs: Vec<(String, String)> = Vec::new();
        assert(self.tabs@.take(0) =~= Seq::empty());
        for i in 0..self.tabs.len()
            invariant
                procs@ == processes_of(self.tabs@.take(i as int)),
        {
            assert(self.tabs@.take(i + 1).drop_last() =~= self.tabs@.take(i as int));
            self.tabs[i].push_processes(&mut procs);
        }
        assert(self.tabs@.take(self.tabs@.len() as int) =~= self.tabs@);
        procs
    }

    /// Close the window with all its tabs. `confirmed` is the answer to the
    /// question about the running processes.
    pub fn do_close_window(&mut self, confirmed: bool)
        ensures
            is_window_close_done(*final(self), *old(self), confirmed),
    {
        let procs = self.running_processes();
        if procs.len() > 0 && !confirmed {
            return;
        }
        self.emit(Effect::RememberAll);
        self.closing = true;
    }

    /// Close the window at once, leaving it out of the saved session.
    pub fn do_kill_window(&mut self)
        ensures
            *final(self) == (KovaView { skip_session_save: true, closing: true, ..*old(self) }),
    {
        self.skip_session_save = true;
        self.closing = true;
    }
}

// ---------------------------------------------------------------
// Sending tabs to other windows
// ---------------------------------------------------------------

/// The index that is active once the tab at `idx` left a list of `len`.
pub open spec fn active_after_leaving(idx: int, len: int) -> int {
    if idx >= len - 1 {
        len - 2
    } else {
        idx
    }
}

/// `after` is `before` with the active tab sent to the window with the index,
/// or to a window of its own; a window left without tabs closes unsaved.
pub open spec fn is_tab_sent(after: KovaView, before: KovaView, to: Option<usize>) -> bool {
    let idx = before.active_tab as int;
    let last = before.tabs@.len() == 1;
    if !before.has_active() {
        after == before
    } else {
        &&& after.tabs@ == before.tabs@.remove(idx)
        &&& after.active_tab == (if last {
            before.active_tab as int
        } else {
            active_after_leaving(idx, before.tabs@.len() as int)
        })
        &&& after.effects@ == before.effects@ + seq![
            match to {
                Some(w) => Effect::SendTab(before.active(), w),
                None => Effect::DetachTab(before.active()),
            },
        ] + (if last {
            seq![]
        } else {
            seq![Effect::ResizePanes]
        })
        &&& after == (KovaView {
            tabs: after.tabs,
            active_tab: after.active_tab,
            effects: after.effects,
            skip_session_save: before.skip_session_save || last,
            closing: before.closing || last,
            ..before
        })
    }
}

/// `after` is `before` with the active tab moved to a window of its own;
/// refused for the only tab.
pub open spec fn is_tab_detached(after: KovaView, before: KovaView) -> bool {
    let idx = before.active_tab as int;
    if !before.has_active() || before.tabs@.len() <= 1 {
        after == before
    } else {
        &&& after.tabs@ == before.tabs@.remove(idx)
        &&& after.active_tab == active_after_leaving(idx, before.tabs@.len() as int)
        &&& after.effects@ == before.effects@ + seq![
            Effect::ResizePanes,
            Effect::DetachTab(before.active()),
        ]
        &&& after == (KovaView {
            tabs: after.tabs,
            active_tab: after.active_tab,
            effects: after.effects,
            ..before
        })
    }
}

/// `after` is `before` with every tab sent to the window with the index; the
/// window, left without tabs, closes unsaved.
pub open spec fn is_window_merged(after: KovaView, before: KovaView, target: usize) -> bool {
    if before.tabs@.len() == 0 {
        after == before
    } else {
        &&& after.tabs@.len() == 0
        &&& after.effects@ == before.effects@.push(Effect::SendTabs(before.tabs, target))
        &&& after == (KovaView {
            tabs: after.tabs,
            effects: after.effects,
            skip_session_save: true,
            closing: true,
            ..before
        })
    }
}

/// The picker rows of the other windows, then one for a new window when
/// `offer_new`.
pub open spec fn lists_windows(
    entries: Seq<SendToWindowEntry>,
    others: Seq<OtherWindow>,
    offer_new: bool,
) -> bool {
    &&& entries.len() == others.len() + if offer_new {
        1int
    } else {
        0int
    }
    &&& forall|i: int|
        0 <= i < others.len() ==> (#[trigger] entries[i]) == (SendToWindowEntry {
            label: others[i].label,
            window_index: Some(others[i].index),
        })
    &&& offer_new ==> entries.last().label@ == "New Window"@ && entries.last().window_index is None
}

/// `after` is `before` with the window picker open on `others`.
pub open spec fn is_picker_open(
    after: KovaView,
    before: KovaView,
    others: Seq<OtherWindow>,
    offer_new: bool,
    merge_all: bool,
) -> bool {
    &&& after.overlays.send_to_window matches Some(s) && {
        &&& lists_windows(s.entries@, others, offer_new)
        &&& s.selected == 0
        &&& s.merge_all == merge_all
    }
    &&& after.effects@ == before.effects@.push(Effect::MarkDirty)
    &&& after == (KovaView { overlays: Overlays { send_to_window: after.overlays.send_to_window, ..before.overlays }, effects: after.effects, ..before })
}

fn window_entries(others: Vec<OtherWindow>) -> (entries: Vec<SendToWindowEntry>)
    ensures
        lists_windows(entries@, others@, false),
{
    let mut entries: Vec<SendToWindowEntry> = Vec::new();
    let mut rest = others;
    while rest.len() > 0
        invariant
            entries@.len() + rest@.len() == others@.len(),
            rest@ == others@.skip(entries@.len() as int),
            forall|i: int|
                0 <= i < entries@.len() ==> (#[trigger] entries@[i]) == (SendToWindowEntry {
                    label: others@[i].label,
                    window_index: Some(others@[i].index),
                }),
        decreases rest@.len(),
    {
        let o = rest.remove(0);
        entries.push(SendToWindowEntry { label: o.label, window_index: Some(o.index) });
        assert(rest@ =~= others@.skip(entries@.len() as int));
    }
    entries
}

/// The row an arrow key moves the selection to.
pub open spec fn picked_row(code: u16, selected: usize, len: int) -> usize {
    if code == KEY_UP && selected > 0 {
        (selected - 1) as usize
    } else if code == KEY_DOWN && selected + 1 < len {
        (selected + 1) as usize
    } else {
        selected
    }
}

fn arrow_row(code: u16, selected: usize, len: usize) -> (row: usize)
    requires
        selected < len || len == 0,
    ensures
        row == picked_row(code, selected, len as int),
{
    if code == KEY_UP {
        if selected > 0 {
            return selected - 1;
        }
    } else if code == KEY_DOWN {
        if len > 0 && selected < len - 1 {
            return selected + 1;
        }
    }
    selected
}

/// What a key does in the window picker.
pub open spec fn is_send_keyed(
    after: KovaView,
    before: KovaView,
    key: KeyPress,
) -> bool {
    &&& (key.code == KEY_ESCAPE ==> {
        &&& after.effects@ == before.effects@.push(Effect::MarkDirty)
        &&& after == (KovaView { overlays: Overlays { send_to_window: None, ..before.overlays }, effects: after.effects, ..before })
    })
    &&& (key.code != KEY_ESCAPE && before.overlays.send_to_window is None ==> after == before)
    &&& (key.code == KEY_ENTER ==> (before.overlays.send_to_window matches Some(s) ==> {
        let closed = KovaView { overlays: Overlays { send_to_window: None, ..before.overlays }, ..before };
        let to = s.entries@[s.selected as int].window_index;
        if !s.merge_all {
            is_tab_sent(after, closed, to)
        } else {
            match to {
                Some(w) => is_window_merged(after, closed, w),
                None => after == closed,
            }
        }
    }))
    &&& (key.code != KEY_ESCAPE && key.code != KEY_ENTER ==> (before.overlays.send_to_window matches Some(s) ==> {
        &&& after.overlays.send_to_window == Some(
            SendToWindowState {
                selected: picked_row(key.code, s.selected, s.entries@.len() as int),
                ..s
            },
        )
        &&& after.effects@ == before.effects@.push(Effect::MarkDirty)
        &&& after == (KovaView { overlays: Overlays { send_to_window: after.overlays.send_to_window, ..before.overlays }, effects: after.effects, ..before })
    }))
}

/// What sending the active tab elsewhere does, `others` being the other windows.
pub open spec fn is_detach_done(
    after: KovaView,
    before: KovaView,
    others: Seq<OtherWindow>,
) -> bool {
    ({
        let last = before.tabs@.len() <= 1;
        if others.len() == 0 {
            if last {
                after == before
            } else {
                is_tab_detached(after, before)
            }
        } else if others.len() == 1 && last {
            is_tab_sent(after, before, Some(others[0].index))
        } else {
            is_picker_open(after, before, others, !last, false)
        }
    })
}

/// What merging the window away does, `others` being the other windows.
pub open spec fn is_window_merge_done(
    after: KovaView,
    before: KovaView,
    others: Seq<OtherWindow>,
) -> bool {
    if others.len() == 0 {
        after == before
    } else if others.len() == 1 {
        is_window_merged(after, before, others[0].index)
    } else {
        is_picker_open(after, before, others, false, true)
    }
}

impl KovaView {
    /// Send the active tab elsewhere, `others` being the other windows: no
    /// tab would be left anywhere else, nothing happens; without another
    /// window it gets one of its own; the last tab goes straight to the only
    /// other window; else the user picks.
    pub fn do_detach_tab(&mut self, others: Vec<OtherWindow>)
        ensures
            is_detach_done(*final(self), *old(self), others@),
            old(self).wf() ==> final(self).wf(),
    {
        let last = self.tabs.len() <= 1;
        if others.len() == 0 {
            if !last {
                self.detach_active_tab_to_new_window();
            }
        } else if others.len() == 1 && last {
            self.send_active_tab_to(Some(others[0].index));
        } else {
            let ghost os = others@;
            let mut entries = window_entries(others);
            if !last {
                entries.push(
                    SendToWindowEntry { label: "New Window".to_string(), window_index: None },
                );
            }
            assert(lists_windows(entries@, os, !last));
            self.overlays.send_to_window = Some(
                SendToWindowState { entries, selected: 0, merge_all: false },
            );
            self.mark_dirty();
        }
    }

    /// Merge this whole window into another, `others` being the other
    /// windows: straight away with one, picked by the user with several.
    pub fn do_merge_window(&mut self, others: Vec<OtherWindow>)
        ensures
            is_window_merge_done(*final(self), *old(self), others@),
            old(self).wf() ==> final(self).wf(),
    {
        if others.len() == 0 {
            return;
        }
        if others.len() == 1 {
            self.merge_window_into(others[0].index);
        } else {
            let entries = window_entries(others);
            self.overlays.send_to_window = Some(SendToWindowState { entries, selected: 0, merge_all: true });
            self.mark_dirty();
        }
    }

    /// Move every tab into the window with the index, then close this one.
    pub fn merge_window_into(&mut self, target_index: usize)
        ensures
            is_window_merged(*final(self), *old(self), target_index),
            old(self).wf() ==> final(self).wf(),
    {
        if self.tabs.len() == 0 {
            return;
        }
        let mut tabs: Vec<Tab> = Vec::new();
        std::mem::swap(&mut tabs, &mut self.tabs);
        self.emit(Effect::SendTabs(tabs, target_index));
        self.skip_session_save = true;
        self.closing = true;
    }

    /// Move the active tab to a window of its own.
    fn detach_active_tab_to_new_window(&mut self)
        ensures
            is_tab_detached(*final(self), *old(self)),
            old(self).wf() ==> final(self).wf(),
    {
        let idx: usize = self.active_tab;
        if idx >= self.tabs.len() || self.tabs.len() <= 1 {
            return;
        }
        proof {
            if view::tabs_ok(self.tabs@) {
                lemma_tabs_remove(self.tabs@, idx as int);
            }
        }
        let tab = self.tabs.remove(idx);
        let left: usize = self.tabs.len();
        self.active_tab = if idx >= left {
            left - 1
        } else {
            idx
        };
        self.emit(Effect::ResizePanes);
        self.emit(Effect::DetachTab(tab));
        assert(self.effects@ =~= old(self).effects@ + seq![
            Effect::ResizePanes,
            Effect::DetachTab(old(self).active()),
        ]);
    }

    /// Send the active tab to the window with the index, or to a new one.
    pub fn send_active_tab_to(&mut self, window_index: Option<usize>)
        ensures
            is_tab_sent(*final(self), *old(self), window_index),
            old(self).wf() ==> final(self).wf(),
    {
        let idx: usize = self.active_tab;
        if idx >= self.tabs.len() {
            return;
        }
        proof {
            if view::tabs_ok(self.tabs@) {
                lemma_tabs_remove(self.tabs@, idx as int);
            }
        }
        let last = self.tabs.len() == 1;
        let tab = self.tabs.remove(idx);
        if !last {
            let left: usize = self.tabs.len();
            self.active_tab = if idx >= left {
                left - 1
            } else {
                idx
            };
        }
        match window_index {
            Some(w) => {
                self.emit(Effect::SendTab(tab, w));
            },
            None => {
                self.emit(Effect::DetachTab(tab));
            },
        }
        if last {
            self.skip_session_save = true;
            self.closing = true;
        } else {
            self.emit(Effect::ResizePanes);
        }
        assert(self.effects@ =~= old(self).effects@ + seq![
            match window_index {
                Some(w) => Effect::SendTab(old(self).active(), w),
                None => Effect::DetachTab(old(self).active()),
            },
        ] + (if last {
            seq![]
        } else {
            seq![Effect::ResizePanes]
        }));
    }

    /// A key in the window picker.
    pub fn handle_send_to_window_key(&mut self, key: KeyPress)
        requires
            old(self).overlays.send_to_window matches Some(s) ==> s.selected < s.entries@.len(),
        ensures
            is_send_keyed(*final(self), *old(self), key),
            old(self).wf() ==> final(self).wf(),
            final(self).overlays.send_to_window matches Some(s) ==> s.selected < s.entries@.len(),
    {
        if key.code == KEY_ESCAPE {
            self.overlays.send_to_window = None;
            self.mark_dirty();
            return;
        }
        match self.overlays.send_to_window.take() {
            None => {},
            Some(s) => {
                if key.code == KEY_ENTER {
                    let to: Option<usize> = s.entries[s.selected].window_index;
                    if s.merge_all {
                        match to {
                            Some(w) => {
                                self.merge_window_into(w);
                            },
                            None => {},
                        }
                    } else {
                        self.send_active_tab_to(to);
                    }
                } else {
                    let mut s = s;
                    s.selected = arrow_row(key.code, s.selected, s.entries.len());
                    self.overlays.send_to_window = Some(s);
                    self.mark_dirty();
                }
            },
        }
    }
}

// ---------------------------------------------------------------
// Breaking apart and merging
// ---------------------------------------------------------------

/// The tab a pane broken out of another gets.
pub open spec fn is_tab_of(t: Tab, id: TabId, p: Pane) -> bool {
    &&& t.panes@ == seq![Pane { column: 0, ..p }]
    &&& t.minimized_stack@ == Seq::<PaneId>::empty()
    &&& t == (Tab {
        id,
        panes: t.panes,
        focused_pane: p.id,
        custom_title: None,
        auto_title: p.term.display_title,
        color: None,
        collapsed: false,
        has_bell: false,
        has_completion: false,
        has_running: false,
        minimized_stack: t.minimized_stack,
    })
}

/// `after` is `before` with the focused pane of the active tab in a tab of its
/// own right of it, which is the active one.
pub open spec fn is_pane_broken_out(
    after: KovaView,
    before: KovaView,
    new_id: TabId,
    next: Option<PaneId>,
) -> bool {
    let i = before.active_tab as int;
    let at = pane::pos(before.active().panes@, before.active().focused_pane);
    let rest = after.tabs@[i];
    let own = after.tabs@[i + 1];
    let focus = focus_after(pane::without(before.active().panes@, at), next);
    &&& is_pane_closed(rest, before.active(), at, focus)
    &&& is_tab_of(own, new_id, before.active().panes@[at])
    &&& after.tabs@ == before.tabs@.update(i, rest).insert(i + 1, own)
    &&& after.active_tab == i + 1
    &&& after.effects@ == before.effects@ + after_pane_left(
        rest.id,
        Tab::column_count(before.active().panes@),
        Tab::column_count(rest.panes@),
        focus,
    ) + seq![Effect::ResizePanes]
    &&& after == (KovaView {
        tabs: after.tabs,
        active_tab: after.active_tab,
        effects: after.effects,
        ..before
    })
}

/// The rows of the tab picker: every tab but the active one.
pub open spec fn merge_rows(tabs: Seq<Tab>, active: int) -> Seq<MergeTabEntry>
    decreases tabs.len(),
{
    if tabs.len() == 0 {
        Seq::empty()
    } else {
        let before = merge_rows(tabs.drop_last(), active);
        if tabs.len() - 1 == active {
            before
        } else {
            before.push(
                MergeTabEntry {
                    label: tabs.last().shown_title(),
                    tab_index: (tabs.len() - 1) as usize,
                },
            )
        }
    }
}

/// The tab picker has a row for every tab but the active one.
pub proof fn lemma_merge_rows(tabs: Seq<Tab>, active: int)
    requires
        0 <= active,
    ensures
        merge_rows(tabs, active).len() == tabs.len() - if active < tabs.len() {
            1int
        } else {
            0
        },
    decreases tabs.len(),
{
    if tabs.len() > 0 {
        lemma_merge_rows(tabs.drop_last(), active);
    }
}

/// The tab the active one is merged into, once it holds both their panes.
pub open spec fn is_merged_tab(t: Tab, target: Tab, source: Tab) -> bool {
    &&& t.panes@ == pane::appended(target.panes@, source.panes@)
    &&& t.minimized_stack@ == target.minimized_stack@ + source.minimized_stack@
    &&& t == (Tab {
        panes: t.panes,
        minimized_stack: t.minimized_stack,
        focused_pane: if source.panes@.len() > 0 {
            source.panes@[0].id
        } else {
            source.focused_pane
        },
        ..target
    })
}

/// `after` is `before` with the active tab's panes put right of those of the
/// tab at `target`, which is the active one; unchanged when one of them is
/// not there or they are the same.
pub open spec fn is_merged_into(after: KovaView, before: KovaView, target: int) -> bool {
    let a = before.active_tab as int;
    if !before.has_active() || target >= before.tabs@.len() || a == target {
        after == before
    } else {
        let k = if target > a {
            target - 1
        } else {
            target
        };
        &&& after.tabs@.len() == before.tabs@.len() - 1
        &&& is_merged_tab(after.tabs@[k], before.tabs@[target], before.tabs@[a])
        &&& after.tabs@ == before.tabs@.remove(a).update(k, after.tabs@[k])
        &&& after.active_tab == k
        &&& after.effects@ == before.effects@.push(Effect::ResizePanes)
        &&& after == (KovaView {
            tabs: after.tabs,
            active_tab: after.active_tab,
            effects: after.effects,
            ..before
        })
    }
}

/// Every tab keeps its columns numbered.
pub open spec fn all_columns_ok(tabs: Seq<Tab>) -> bool {
    forall|i: int| 0 <= i < tabs.len() ==> pane::columns_ok((#[trigger] tabs[i]).panes@)
}

proof fn lemma_merged_keeps_wf(after: KovaView, before: KovaView, target: int)
    requires
        before.wf(),
        0 <= target < before.tabs@.len(),
        target != before.active_tab,
        is_merged_into(after, before, target),
    ensures
        after.wf(),
{
    let a = before.active_tab as int;
    let k = if target > a {
        target - 1
    } else {
        target
    };
    let rest = before.tabs@.remove(a);
    let t = after.tabs@[k];
    let tgt = before.tabs@[target];
    let src = before.tabs@[a];
    assert(tgt.wf() && src.wf());
    lemma_tabs_remove(before.tabs@, a);
    assert(rest[k] == tgt);
    assert(t.panes.len() == t.panes@.len());
    assert forall|id: PaneId| pane::has_pane(tgt.panes@, id) implies !pane::has_pane(
        src.panes@,
        id,
    ) by {
        if pane::has_pane(src.panes@, id) {
            assert(!pane::has_pane(rest[k].panes@, id));
        }
    }
    pane::lemma_appended(tgt.panes@, src.panes@);
    assert(pane::has_pane(src.panes@, src.panes@[0].id));
    assert(pane::has_pane(t.panes@, t.focused_pane));
    assert(t.wf());
    assert forall|id: PaneId| #[trigger] pane::has_pane(t.panes@, id) implies pane::has_pane(
        rest[k].panes@,
        id,
    ) || !view::some_tab_has(rest, id) by {
        if pane::has_pane(src.panes@, id) && view::some_tab_has(rest, id) {
            let j = choose|j: int| 0 <= j < rest.len() && pane::has_pane((#[trigger] rest[j]).panes@, id);
            assert(!pane::has_pane(rest[j].panes@, id));
        }
    }
    lemma_tabs_update(rest, k, t);
}

proof fn lemma_broken_out_keeps_wf(
    after: KovaView,
    before: KovaView,
    new_id: TabId,
    next: Option<PaneId>,
)
    requires
        before.wf(),
        can_split(before),
        before.active().panes@.len() > 1,
        is_pane_broken_out(after, before, new_id, next),
        forall|k: int| 0 <= k < before.tabs@.len() ==> (#[trigger] before.tabs@[k]).id != new_id,
    ensures
        after.wf(),
{
    let i = before.active_tab as int;
    let b = before.active();
    let at = pane::pos(b.panes@, b.focused_pane);
    let rest = after.tabs@[i];
    let own = after.tabs@[i + 1];
    let mid = before.tabs@.update(i, rest);
    assert(b.wf());
    pane::lemma_pos(b.panes@, b.focused_pane);
    pane::lemma_without(b.panes@, at);
    lemma_focus_after(rest.panes@, next);
    lemma_pane_closed_keeps_wf(rest, b, at, rest.focused_pane);
    lemma_tabs_update(before.tabs@, i, rest);
    assert(own.panes@[0].id == b.panes@[at].id);
    assert(own.wf());
    assert forall|k: int, id: PaneId|
        0 <= k < mid.len() && #[trigger] pane::has_pane(own.panes@, id) implies !#[trigger] pane::has_pane(
        mid[k].panes@,
        id,
    ) by {
        assert(id == b.panes@[at].id);
        assert(pane::has_pane(b.panes@, id));
        if k == i {
            assert(!pane::has_pane(rest.panes@, id));
        } else {
            assert(mid[k] == before.tabs@[k]);
            if k < i {
                if pane::has_pane(before.tabs@[k].panes@, id) {
                    assert(!pane::has_pane(before.tabs@[i].panes@, id));
                }
            } else {
                assert(!pane::has_pane(before.tabs@[k].panes@, id));
            }
        }
    }
    assert(fresh_tab(mid, own));
    lemma_tabs_insert(mid, i + 1, own);
}

/// What a key does in the tab picker.
pub open spec fn is_merge_keyed(
    after: KovaView,
    before: KovaView,
    key: KeyPress,
) -> bool {
    &&& (key.code == KEY_ESCAPE ==> {
        &&& after.effects@ == before.effects@.push(Effect::MarkDirty)
        &&& after == (KovaView { overlays: Overlays { merge_tab: None, ..before.overlays }, effects: after.effects, ..before })
    })
    &&& (key.code != KEY_ESCAPE && before.overlays.merge_tab is None ==> after == before)
    &&& (key.code == KEY_ENTER ==> (before.overlays.merge_tab matches Some(s) ==> is_merged_into(
        after,
        KovaView { overlays: Overlays { merge_tab: None, ..before.overlays }, ..before },
        s.entries@[s.selected as int].tab_index as int,
    )))
    &&& (key.code != KEY_ESCAPE && key.code != KEY_ENTER ==> (before.overlays.merge_tab matches Some(s) ==> {
        &&& after.overlays.merge_tab == Some(
            MergeTabState {
                selected: picked_row(key.code, s.selected, s.entries@.len() as int),
                ..s
            },
        )
        &&& after.effects@ == before.effects@.push(Effect::MarkDirty)
        &&& after == (KovaView { overlays: Overlays { merge_tab: after.overlays.merge_tab, ..before.overlays }, effects: after.effects, ..before })
    }))
}

/// What breaking the focused pane out does.
pub open spec fn is_break_done(
    after: KovaView,
    before: KovaView,
    new_tab_id: TabId,
    next: Option<PaneId>,
) -> bool {
    if can_split(before) && before.active().panes@.len() > 1 {
        is_pane_broken_out(after, before, new_tab_id, next)
    } else {
        after == before
    }
}

/// What merging the active tab away does.
pub open spec fn is_merge_done(
    after: KovaView,
    before: KovaView,
) -> bool {
    ({
        let rows = merge_rows(before.tabs@, before.active_tab as int);
        if before.tabs@.len() <= 1 {
            after == before
        } else if rows.len() == 1 {
            is_merged_into(after, before, rows[0].tab_index as int)
        } else {
            &&& after.overlays.merge_tab matches Some(s) && s.entries@ == rows && s.selected == 0
            &&& after.effects@ == before.effects@.push(Effect::MarkDirty)
            &&& after == (KovaView { overlays: Overlays { merge_tab: after.overlays.merge_tab, ..before.overlays }, effects: after.effects, ..before })
        }
    })
}

impl KovaView {
    /// Break the focused pane out into a tab of its own, with the id; `next`
    /// is the neighbour to focus in the tab it leaves. Nothing happens when
    /// it is alone.
    pub fn do_break_pane(&mut self, new_tab_id: TabId, next: Option<PaneId>)
        requires
            old(self).active_columns_ok(),
            old(self).has_active() ==> pane::distinct_ids(old(self).active().panes@),
        ensures
            is_break_done(*final(self), *old(self), new_tab_id, next),
            old(self).wf() && (forall|k: int|
                0 <= k < old(self).tabs@.len() ==> (#[trigger] old(self).tabs@[k]).id != new_tab_id)
                ==> final(self).wf(),
    {
        let idx: usize = self.active_tab;
        if idx >= self.tabs.len() {
            return;
        }
        assert(self.tabs.len() == self.tabs@.len());
        let at = self.tabs[idx].find(self.tabs[idx].focused_pane);
        if self.tabs[idx].panes.len() <= 1 || at >= self.tabs[idx].panes.len() {
            proof {
                pane::lemma_pos(self.active().panes@, self.active().focused_pane);
            }
            return;
        }
        let id: TabId = self.tabs[idx].id;
        let pane_id: PaneId = self.tabs[idx].panes[at].id;
        proof {
            pane::lemma_without(self.active().panes@, at as int);
        }
        let old_cols = self.tabs[idx].num_columns();
        let mut extracted = self.tabs[idx].take_out(at);
        let focus: PaneId = match next {
            Some(n) => if self.tabs[idx].contains(n) {
                n
            } else {
                self.tabs[idx].first_pane_id()
            },
            None => self.tabs[idx].first_pane_id(),
        };
        self.tabs[idx].focused_pane = focus;
        let new_cols = self.tabs[idx].num_columns();
        pane::retain_other(&mut self.tabs[idx].minimized_stack, pane_id);
        let ghost rest = self.tabs@[idx as int];
        self.emit(Effect::ScaleWidth(id, old_cols, new_cols));
        self.emit(Effect::ClampScroll(id));
        self.emit(Effect::Reveal(id, focus));
        self.emit(Effect::ResizePanes);
        extracted.column = 0;
        let title = extracted.term.display_title.clone();
        let mut panes: Vec<Pane> = Vec::new();
        panes.push(extracted);
        let own = Tab {
            id: new_tab_id,
            panes,
            focused_pane: pane_id,
            custom_title: None,
            auto_title: title,
            color: None,
            collapsed: false,
            has_bell: false,
            has_completion: false,
            has_running: false,
            minimized_stack: Vec::new(),
        };
        self.tabs.insert(idx + 1, own);
        self.active_tab = idx + 1;
        self.emit(Effect::ResizePanes);
        proof {
            assert(self.tabs@[idx as int] == rest);
            assert(self.tabs@[idx + 1] == own);
            assert(self.tabs@ =~= old(self).tabs@.update(idx as int, rest).insert(idx + 1, own));
            assert(self.effects@ =~= old(self).effects@ + after_pane_left(
                rest.id,
                Tab::column_count(old(self).active().panes@),
                Tab::column_count(rest.panes@),
                focus,
            ) + seq![Effect::ResizePanes]);
            assert(own.panes@ =~= seq![Pane { column: 0, ..old(self).active().panes@[at as int] }]);
            assert(is_pane_broken_out(*self, *old(self), new_tab_id, next));
            if old(self).wf() && (forall|k: int|
                0 <= k < old(self).tabs@.len() ==> (#[trigger] old(self).tabs@[k]).id != new_tab_id) {
                lemma_broken_out_keeps_wf(*self, *old(self), new_tab_id, next);
            }
        }
    }

    /// Merge the active tab into another: straight away when there is only
    /// one other, picked by the user with several.
    pub fn do_merge_tab(&mut self)
        requires
            all_columns_ok(old(self).tabs@),
        ensures
            is_merge_done(*final(self), *old(self)),
            old(self).wf() ==> final(self).wf(),
    {
        if self.tabs.len() <= 1 {
            return;
        }
        let mut entries: Vec<MergeTabEntry> = Vec::new();
        assert(self.tabs@.take(0) =~= Seq::empty());
        for i in 0..self.tabs.len()
            invariant
                entries@ == merge_rows(self.tabs@.take(i as int), self.active_tab as int),
        {
            assert(self.tabs@.take(i + 1).drop_last() =~= self.tabs@.take(i as int));
            if i != self.active_tab {
                entries.push(MergeTabEntry { label: self.tabs[i].title(), tab_index: i });
            }
        }
        assert(self.tabs@.take(self.tabs@.len() as int) =~= self.tabs@);
        if entries.len() == 1 {
            let target: usize = entries[0].tab_index;
            self.merge_active_tab_into(target);
        } else {
            self.overlays.merge_tab = Some(MergeTabState { entries, selected: 0 });
            self.mark_dirty();
        }
    }

    /// A key in the tab picker.
    pub fn handle_merge_tab_key(&mut self, key: KeyPress)
        requires
            all_columns_ok(old(self).tabs@),
            old(self).overlays.merge_tab matches Some(s) ==> s.selected < s.entries@.len(),
        ensures
            is_merge_keyed(*final(self), *old(self), key),
            old(self).wf() ==> final(self).wf(),
            final(self).overlays.merge_tab matches Some(s) ==> s.selected < s.entries@.len(),
    {
        if key.code == KEY_ESCAPE {
            self.overlays.merge_tab = None;
            self.mark_dirty();
            return;
        }
        match self.overlays.merge_tab.take() {
            None => {},
            Some(s) => {
                if key.code == KEY_ENTER {
                    let target: usize = s.entries[s.selected].tab_index;
                    self.merge_active_tab_into(target);
                } else {
                    let mut s = s;
                    s.selected = arrow_row(key.code, s.selected, s.entries.len());
                    self.overlays.merge_tab = Some(s);
                    self.mark_dirty();
                }
            },
        }
    }

    /// Put the active tab's panes right of those of the tab at `target_idx`
    /// and switch to it; the focus goes to the leftmost pane that came.
    pub fn merge_active_tab_into(&mut self, target_idx: usize)
        requires
            all_columns_ok(old(self).tabs@),
        ensures
            is_merged_into(*final(self), *old(self), target_idx as int),
            old(self).wf() ==> final(self).wf(),
    {
        let active: usize = self.active_tab;
        if active >= self.tabs.len() || target_idx >= self.tabs.len() || active == target_idx {
            return;
        }
        assert(pane::columns_ok(self.tabs@[active as int].panes@));
        assert(pane::columns_ok(self.tabs@[target_idx as int].panes@));
        let mut source = self.tabs.remove(active);
        let target: usize = if target_idx > active {
            target_idx - 1
        } else {
            target_idx
        };
        let new_focus: PaneId = if source.panes.len() > 0 {
            source.panes[0].id
        } else {
            source.focused_pane
        };
        assert(self.tabs@[target as int] == old(self).tabs@[target_idx as int]);
        self.tabs[target].append_columns(&mut source.panes);
        self.tabs[target].minimized_stack.append(&mut source.minimized_stack);
        self.tabs[target].focused_pane = new_focus;
        self.active_tab = target;
        self.emit(Effect::ResizePanes);
        proof {
            assert(self.tabs@ =~= old(self).tabs@.remove(active as int).update(
                target as int,
                self.tabs@[target as int],
            ));
            assert(is_merged_into(*self, *old(self), target_idx as int));
            if old(self).wf() {
                lemma_merged_keeps_wf(*self, *old(self), target_idx as int);
            }
        }
    }

    /// The titles of the tabs.
    pub fn tab_titles(&self) -> (titles: Vec<String>)
        ensures
            titles@ == self.tabs@.map_values(|t: Tab| t.shown_title()),
    {
        let mut titles: Vec<String> = Vec::new();
        for i in 0..self.tabs.len()
            invariant
                titles@.len() == i,
                forall|k: int| 0 <= k < i ==> #[trigger] titles@[k] == self.tabs@[k].shown_title(),
        {
            titles.push(self.tabs[i].title());
        }
        assert(titles@ =~= self.tabs@.map_values(|t: Tab| t.shown_title()));
        titles
    }

    /// Take in tabs sent from elsewhere, the first of them active.
    pub fn append_tabs(&mut self, new_tabs: Vec<Tab>)
        ensures
            final(self).tabs@ == old(self).tabs@ + new_tabs@,
            final(self).active_tab == old(self).tabs@.len(),
            final(self).effects@ == old(self).effects@.push(Effect::ResizePanes),
            *final(self) == (KovaView {
                tabs: final(self).tabs,
                active_tab: final(self).active_tab,
                effects: final(self).effects,
                ..*old(self)
            }),
            new_tabs@.len() > 0 && view::tabs_ok(old(self).tabs@ + new_tabs@) ==> final(self).wf(),
    {
        let first_new: usize = self.tabs.len();
        let mut more = new_tabs;
        self.tabs.append(&mut more);
        self.active_tab = first_new;
        self.emit(Effect::ResizePanes);
    }
}

/// In a picker up selects the row above and down the row below, as far as
/// there is one; no other key moves the selection.
pub proof fn arrows_pick_the_next_row(code: u16, selected: usize, len: int)
    requires
        selected < len <= usize::MAX,
    ensures
        code == 0x7E ==> picked_row(code, selected, len) == (if selected > 0 {
            selected - 1
        } else {
            0
        }),
        code == 0x7D ==> picked_row(code, selected, len) == (if selected + 1 < len {
            selected + 1
        } else {
            selected as int
        }),
        code != 0x7E && code != 0x7D ==> picked_row(code, selected, len) == selected,
{
}

/// The merge picker lists every other tab, by its title and index, and never
/// the active one.
pub proof fn the_picker_lists_the_other_tabs(tabs: Seq<Tab>, active: int, k: int)
    requires
        0 <= k < tabs.len() <= usize::MAX,
    ensures
        k != active ==> exists|r: int|
            0 <= r < merge_rows(tabs, active).len() && (
            #[trigger] merge_rows(tabs, active)[r]).tab_index == k && merge_rows(
                tabs,
                active,
            )[r].label == tabs[k].shown_title(),
        forall|r: int|
            0 <= r < merge_rows(tabs, active).len() ==> (
            #[trigger] merge_rows(tabs, active)[r]).tab_index != active,
    decreases tabs.len(),
{
    let prev = tabs.drop_last();
    let rows = merge_rows(tabs, active);
    let before = merge_rows(prev, active);
    if prev.len() > 0 {
        let j = if k < prev.len() {
            k
        } else {
            0
        };
        the_picker_lists_the_other_tabs(prev, active, j);
        if k < prev.len() && k != active {
            let r = choose|r: int|
                0 <= r < before.len() && (#[trigger] before[r]).tab_index == k && before[r].label
                    == prev[k].shown_title();
            assert(rows[r] == before[r]);
        }
    }
    assert forall|r: int| 0 <= r < rows.len() implies (#[trigger] rows[r]).tab_index != active by {
        if r < before.len() {
            assert(rows[r] == before[r]);
        }
    }
    if k == prev.len() && k != active {
        assert(rows[rows.len() - 1].tab_index == k);
    }
}

/// A window whose programs run closes only once that is confirmed; closing
/// keeps its tabs for the next time.
pub proof fn a_window_closes_once_confirmed(after: KovaView, before: KovaView, confirmed: bool)
    requires
        is_window_close_done(after, before, confirmed),
    ensures
        after.tabs == before.tabs,
        confirmed ==> after.closing && after.skip_session_save == before.skip_session_save
            && after.effects@.last() == Effect::RememberAll,
        !confirmed && processes_of(before.tabs@).len() > 0 ==> after == before,
{
}

/// Sending the active tab takes it out of the window and hands it to the one
/// asked for, or to a new one; the last tab takes the window with it.
pub proof fn sending_hands_the_tab_over(after: KovaView, before: KovaView, to: Option<usize>)
    requires
        before.wf(),
        before.has_active(),
        is_tab_sent(after, before, to),
    ensures
        after.tabs@ == before.tabs@.remove(before.active_tab as int),
        to matches Some(w) ==> after.effects@[before.effects@.len() as int] == Effect::SendTab(
            before.active(),
            w,
        ),
        to is None ==> after.effects@[before.effects@.len() as int] == Effect::DetachTab(
            before.active(),
        ),
        before.tabs@.len() == 1 ==> after.closing,
        before.tabs@.len() > 1 ==> after.closing == before.closing && after.active_tab
            < after.tabs@.len(),
{
}

} // verus!
