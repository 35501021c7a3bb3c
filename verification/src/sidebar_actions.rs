//! What the sidebar's headers, tiles and menus do.
use crate::attention;
use crate::ipc;
use crate::nav;
use crate::overlays;
use crate::pane;
use crate::pane::{NavDirection, Pane, PaneId, SplitDirection, Tab, TabId};
use crate::sidebar;
use crate::sidebar::{LayoutMode, LayoutPrefs, LayoutSetting, NextPill};
use crate::sidebar_ui;
use crate::sidebar_ui::{is_key, PaneAction, PaneSnapshot, SidebarState, TabAction};
use crate::tabs;
use crate::view;
use crate::view::{Effect, KovaView};
use vstd::prelude::*;

verus! {

// ---------------------------------------------------------------
// Layout
// ---------------------------------------------------------------

/// The other layout mode.
pub open spec fn other_mode(mode: LayoutMode) -> LayoutMode {
    match mode {
        LayoutMode::Tabs => LayoutMode::Sidebar,
        LayoutMode::Sidebar => LayoutMode::Tabs,
    }
}

/// What changing the layout mode does; `prefs` is to be remembered for the
/// next launch.
pub open spec fn is_mode_set(
    after: (KovaView, LayoutSetting),
    before: (KovaView, LayoutSetting),
    mode: LayoutMode,
    prefs: Option<LayoutPrefs>,
) -> bool {
    if sidebar::byte_mode(before.1.mode) == mode {
        after == before && prefs is None
    } else {
        &&& after.1 == (LayoutSetting { mode: sidebar::mode_byte(mode), ..before.1 })
        &&& prefs == Some(
            LayoutPrefs { mode: Some(mode), sidebar_width: Some(before.1.width_pt) },
        )
        &&& after.0.effects@ == before.0.effects@.push(Effect::Relayout)
        &&& after.0 == (KovaView { effects: after.0.effects, ..before.0 })
    }
}

/// Toggling the layout mode twice ends where it began.
pub proof fn toggling_twice_changes_nothing(mode: LayoutMode)
    ensures
        other_mode(other_mode(mode)) == mode,
        other_mode(mode) != mode,
{
}

impl KovaView {
    /// Change where every window shows its tabs.
    pub fn set_layout_mode(&mut self, setting: &mut LayoutSetting, mode: LayoutMode) -> (prefs:
        Option<LayoutPrefs>)
        ensures
            is_mode_set(
                (*final(self), *final(setting)),
                (*old(self), *old(setting)),
                mode,
                prefs,
            ),
    {
        if sidebar::layout_mode(setting) == mode {
            return None;
        }
        let prefs = sidebar::set_layout_mode(setting, mode);
        self.emit(Effect::Relayout);
        Some(prefs)
    }

    /// Switch between the tab strip and the sidebar.
    pub fn toggle_layout_mode(&mut self, setting: &mut LayoutSetting) -> (prefs: Option<
        LayoutPrefs,
    >)
        ensures
            is_mode_set(
                (*final(self), *final(setting)),
                (*old(self), *old(setting)),
                other_mode(sidebar::byte_mode(old(setting).mode)),
                prefs,
            ),
    {
        let next = match sidebar::layout_mode(setting) {
            LayoutMode::Tabs => LayoutMode::Sidebar,
            LayoutMode::Sidebar => LayoutMode::Tabs,
        };
        self.set_layout_mode(setting, next)
    }
}

// ---------------------------------------------------------------
// Headers
// ---------------------------------------------------------------

/// `after` is `before` with tab `i` folded, or unfolded when it was folded.
pub open spec fn is_fold_toggled(after: KovaView, before: KovaView, i: int) -> bool {
    if i < before.tabs@.len() {
        let t = before.tabs@[i];
        &&& after.tabs@ == before.tabs@.update(i, Tab { collapsed: !t.collapsed, ..t })
        &&& after == (KovaView { tabs: after.tabs, ..before })
    } else {
        after == before
    }
}

/// The place of the item at `i` once the one at `from` moved to `to`.
pub open spec fn place_after_move(i: int, from: int, to: int) -> int {
    if i == from {
        to
    } else if from < i <= to {
        i - 1
    } else if to <= i < from {
        i + 1
    } else {
        i
    }
}

/// The item that was at `i` is found at its place after the move.
pub proof fn a_move_keeps_every_item<A>(s: Seq<A>, i: int, from: int, to: int)
    requires
        0 <= i < s.len(),
        0 <= from < s.len(),
        0 <= to < s.len(),
    ensures
        0 <= place_after_move(i, from, to) < s.len(),
        sidebar::moved(s, from, to)[place_after_move(i, from, to)] == s[i],
        sidebar::moved(s, from, to).len() == s.len(),
{
}

/// `after` is `before` with the tab at `from` moved to `to`; the active tab
/// stays active.
pub open spec fn is_tab_moved(after: KovaView, before: KovaView, from: int, to: int) -> bool {
    &&& after.tabs@ == sidebar::moved(before.tabs@, from, to)
    &&& after.active_tab == place_after_move(before.active_tab as int, from, to)
    &&& after.effects@ == before.effects@.push(Effect::MarkDirty)
    &&& after == (KovaView {
        tabs: after.tabs,
        active_tab: after.active_tab,
        effects: after.effects,
        ..before
    })
}

/// Where the tab at `from` goes when dropped before the group `k`.
pub open spec fn reorder_target(from: usize, k: usize) -> int {
    if k > from {
        k - 1
    } else {
        k as int
    }
}

/// How many panes of the walk are unread.
pub open spec fn unread_count(order: Seq<(PaneId, bool)>) -> nat
    decreases order.len(),
{
    if order.len() == 0 {
        0
    } else {
        unread_count(order.drop_last()) + if order.last().1 {
            1nat
        } else {
            0
        }
    }
}

/// The pill over the panes of every window.
pub open spec fn pill_for(order: Seq<(PaneId, bool)>, idle: Seq<PaneId>) -> NextPill {
    NextPill::shows(unread_count(order) as usize, idle.len() as usize, false)
}

proof fn lemma_unread_count(order: Seq<(PaneId, bool)>)
    ensures
        unread_count(order) <= order.len(),
        unread_count(order) > 0 <==> exists|k: int| 0 <= k < order.len() && (#[trigger] order[k]).1,
    decreases order.len(),
{
    if order.len() > 0 {
        let prev = order.drop_last();
        lemma_unread_count(prev);
        if order.last().1 {
            assert(order[order.len() - 1].1);
        }
        if unread_count(prev) > 0 {
            let k = choose|k: int| 0 <= k < prev.len() && (#[trigger] prev[k]).1;
            assert(order[k].1);
        }
        if exists|k: int| 0 <= k < order.len() && (#[trigger] order[k]).1 {
            let k = choose|k: int| 0 <= k < order.len() && (#[trigger] order[k]).1;
            if k < prev.len() {
                assert(prev[k].1);
            }
        }
    }
}

/// A pill with a badge leads somewhere, and one without would lead nowhere.
pub proof fn the_pill_leads_where_it_says(
    order: Seq<(PaneId, bool)>,
    idle: Seq<PaneId>,
    current: Option<PaneId>,
)
    requires
        order.len() <= usize::MAX,
        idle.len() <= usize::MAX,
    ensures
        pill_for(order, idle).has_count() <==> attention::jump_target(order, idle, current) is Some,
{
    lemma_unread_count(order);
    attention::a_jump_prefers_what_is_unread(order, idle, current);
}

fn count_unread(order: &Vec<(PaneId, bool)>) -> (n: usize)
    ensures
        n == unread_count(order@),
{
    let mut n: usize = 0;
    assert(order@.take(0) =~= Seq::empty());
    for i in 0..order.len()
        invariant
            n == unread_count(order@.take(i as int)),
            n <= i,
    {
        assert(order@.take(i + 1).drop_last() =~= order@.take(i as int));
        if order[i].1 {
            n = n + 1;
        }
    }
    assert(order@.take(order@.len() as int) =~= order@);
    n
}

impl KovaView {
    /// Fold a group of the sidebar, or unfold it.
    pub fn sidebar_toggle_collapsed(&mut self, tab_idx: usize)
        ensures
            is_fold_toggled(*final(self), *old(self), tab_idx as int),
            old(self).wf() ==> final(self).wf(),
    {
        if tab_idx < self.tabs.len() {
            let folded = self.tabs[tab_idx].collapsed;
            self.tabs[tab_idx].collapsed = !folded;
            proof {
                let t = self.tabs@[tab_idx as int];
                assert(self.tabs@ =~= old(self).tabs@.update(tab_idx as int, t));
                if old(self).wf() {
                    assert(old(self).tabs@[tab_idx as int].wf());
                    tabs::lemma_tabs_update(old(self).tabs@, tab_idx as int, t);
                }
            }
        }
    }

    /// A click on a header body: switch to the tab, or fold the active one.
    pub fn sidebar_header_clicked(&mut self, tab_idx: usize)
        ensures
            if tab_idx == old(self).active_tab {
                is_fold_toggled(*final(self), *old(self), tab_idx as int)
            } else {
                tabs::is_switched(*final(self), *old(self), tab_idx as int)
            },
            old(self).wf() ==> final(self).wf(),
    {
        if tab_idx == self.active_tab {
            self.sidebar_toggle_collapsed(tab_idx);
        } else {
            self.do_switch_tab(tab_idx);
        }
    }

    /// A click on the Next pill, which jumps only when it shows a badge:
    /// `order` lists the panes of every window, `idle` those of them with an
    /// idle agent.
    pub fn sidebar_next_pill_clicked(&mut self, order: &Vec<(PaneId, bool)>, idle: &Vec<PaneId>)
        requires
            attention::fps_ok(*old(self)),
        ensures
            if pill_for(order@, idle@).has_count() {
                attention::is_jump_asked(*final(self), *old(self), order@, idle@)
            } else {
                *final(self) == *old(self)
            },
    {
        let unread = count_unread(order);
        if NextPill::of(unread, idle.len(), false).clickable() {
            self.do_focus_next_attention(order, idle);
        }
    }

    /// Drop a dragged header before the group `k`, or at the end.
    pub fn sidebar_reorder_tab(&mut self, from: usize, k: usize)
        requires
            k <= old(self).tabs@.len(),
        ensures
            ({
                let to = reorder_target(from, k);
                if to == from || from >= old(self).tabs@.len() {
                    *final(self) == *old(self)
                } else {
                    is_tab_moved(*final(self), *old(self), from as int, to)
                }
            }),
            old(self).wf() ==> final(self).wf(),
    {
        let to: usize = if k > from {
            k - 1
        } else {
            k
        };
        if to == from || from >= self.tabs.len() {
            return;
        }
        let tab = self.tabs.remove(from);
        self.tabs.insert(to, tab);
        let a: usize = self.active_tab;
        self.active_tab = if a == from {
            to
        } else if from < a && a <= to {
            a - 1
        } else if to <= a && a < from {
            a + 1
        } else {
            a
        };
        self.mark_dirty();
        proof {
            assert(self.tabs@ =~= sidebar::moved(old(self).tabs@, from as int, to as int));
            if old(self).wf() {
                tabs::lemma_tabs_remove(old(self).tabs@, from as int);
                tabs::lemma_tabs_insert(
                    old(self).tabs@.remove(from as int),
                    to as int,
                    old(self).tabs@[from as int],
                );
            }
        }
    }
}

// ---------------------------------------------------------------
// Dropping a tile
// ---------------------------------------------------------------

/// The panes with two of one column trading places; as they were when the two
/// are not in one column.
pub open spec fn swapped_down(panes: Seq<Pane>, a: PaneId, b: PaneId) -> Seq<Pane> {
    if pane::can_swap(panes, a, b, NavDirection::Down) {
        pane::swapped(panes, pane::pos(panes, a), pane::pos(panes, b))
    } else {
        panes
    }
}

/// The panes after the swaps of `chain`, first to last, whose numbers are
/// places in the run `ids`.
pub open spec fn dropped(panes: Seq<Pane>, ids: Seq<PaneId>, chain: Seq<(usize, usize)>) -> Seq<Pane>
    decreases chain.len(),
{
    if chain.len() == 0 {
        panes
    } else {
        let order = sidebar::replayed(ids, chain.drop_last());
        swapped_down(
            dropped(panes, ids, chain.drop_last()),
            order[chain.last().0 as int],
            order[chain.last().1 as int],
        )
    }
}

/// The run `ids` is the block of `panes` from `k` on, in one column.
pub open spec fn is_run(panes: Seq<Pane>, ids: Seq<PaneId>, k: int) -> bool {
    &&& 0 <= k
    &&& k + ids.len() <= panes.len()
    &&& forall|x: int|
        0 <= x < ids.len() ==> (#[trigger] panes[k + x]).id == ids[x] && panes[k + x].column
            == panes[k].column
}

/// Every swap of the chain is of two places of a list of `n`.
pub open spec fn is_chain(chain: Seq<(usize, usize)>, n: int) -> bool {
    forall|x: int|
        0 <= x < chain.len() ==> (#[trigger] chain[x]).0 < n && chain[x].1 < n && chain[x].0
            != chain[x].1
}

proof fn lemma_pos_at(panes: Seq<Pane>, i: int)
    requires
        pane::distinct_ids(panes),
        0 <= i < panes.len(),
    ensures
        pane::has_pane(panes, panes[i].id),
        pane::pos(panes, panes[i].id) == i,
{
    pane::lemma_pos(panes, panes[i].id);
    assert(pane::has_pane(panes, panes[i].id));
    let p = pane::pos(panes, panes[i].id);
    if p < i {
        assert(panes[p].id != panes[i].id);
    } else if i < p {
        assert(panes[i].id != panes[i].id);
    }
}

proof fn lemma_dropped(panes: Seq<Pane>, ids: Seq<PaneId>, chain: Seq<(usize, usize)>, k: int)
    requires
        pane::columns_ok(panes),
        pane::distinct_ids(panes),
        is_run(panes, ids, k),
        is_chain(chain, ids.len() as int),
    ensures
        ({
            let after = dropped(panes, ids, chain);
            let order = sidebar::replayed(ids, chain);
            &&& after.len() == panes.len()
            &&& pane::columns_ok(after)
            &&& pane::distinct_ids(after)
            &&& is_run(after, order, k)
            &&& order.len() == ids.len()
            &&& after == panes.take(k) + sidebar::replayed(
                panes.subrange(k, k + ids.len()),
                chain,
            ) + panes.skip(k + ids.len())
        }),
    decreases chain.len(),
{
    let n = ids.len() as int;
    let block = panes.subrange(k, k + n);
    if chain.len() == 0 {
        assert(panes =~= panes.take(k) + block + panes.skip(k + n));
    } else {
        let c = chain.drop_last();
        assert(is_chain(c, n)) by {
            assert forall|x: int| 0 <= x < c.len() implies (#[trigger] c[x]).0 < n && c[x].1 < n && c[x].0
                != c[x].1 by {
                assert(c[x] == chain[x]);
            }
        }
        lemma_dropped(panes, ids, c, k);
        assert(chain.last() == chain[chain.len() - 1]);
        let a = chain.last().0 as int;
        let b = chain.last().1 as int;
        let before = dropped(panes, ids, c);
        let order = sidebar::replayed(ids, c);
        let mid = sidebar::replayed(block, c);
        let after = dropped(panes, ids, chain);
        assert(before[k + a].id == order[a]);
        assert(before[k + b].id == order[b]);
        lemma_pos_at(before, k + a);
        lemma_pos_at(before, k + b);
        assert(order[a] != order[b]);
        assert(after == pane::swapped(before, k + a, k + b));
        pane::lemma_swapped(before, k + a, k + b);
        assert(after == before.update(k + a, before[k + b]).update(k + b, before[k + a]));
        assert(mid.len() == n);
        assert(before[k + a] == mid[a]);
        assert(before[k + b] == mid[b]);
        assert(after =~= panes.take(k) + sidebar::exchanged(mid, a, b) + panes.skip(k + n));
        let w = sidebar::replayed(ids, chain);
        assert(w == sidebar::exchanged(order, a, b));
        assert forall|x: int| 0 <= x < w.len() implies (#[trigger] after[k + x]).id == w[x] && after[k + x].column
            == after[k].column by {
            assert(before[k + x].id == order[x]);
            assert(before[k + a].column == before[k].column);
            assert(before[k + b].column == before[k].column);
            assert(before[k + 0].column == before[k].column);
        }
    }
}

/// A dropped tile moves from its place in its column to the other, and every
/// other pane keeps its order.
pub proof fn a_drop_moves_one_pane(panes: Seq<Pane>, ids: Seq<PaneId>, k: int, from: usize, to: usize)
    requires
        pane::columns_ok(panes),
        pane::distinct_ids(panes),
        panes.len() <= usize::MAX,
        is_run(panes, ids, k),
        from < ids.len(),
        to < ids.len(),
    ensures
        dropped(
            panes,
            ids,
            sidebar::adjacent_swaps(ids.len() as int, from as int, to as int),
        ) == panes.take(k) + sidebar::moved(
            panes.subrange(k, k + ids.len()),
            from as int,
            to as int,
        ) + panes.skip(k + ids.len()),
{
    let chain = sidebar::adjacent_swaps(ids.len() as int, from as int, to as int);
    lemma_dropped(panes, ids, chain, k);
    sidebar::swap_chain_moves_one_item(panes.subrange(k, k + ids.len()), from, to);
}

impl KovaView {
    /// Drop a dragged tile: `ids` are the panes of its column, the tile moves
    /// from `from` to `to`, one swap of neighbours at a time.
    pub fn sidebar_drop_pane(&mut self, tab_idx: usize, ids: &Vec<PaneId>, from: usize, to: usize)
        requires
            old(self).wf(),
        ensures
            ({
                let chain = sidebar::adjacent_swaps(ids@.len() as int, from as int, to as int);
                if chain.len() == 0 || tab_idx >= old(self).tabs@.len() {
                    *final(self) == *old(self)
                } else {
                    let b = old(self).tabs@[tab_idx as int];
                    let t = final(self).tabs@[tab_idx as int];
                    &&& t.panes@ == dropped(b.panes@, ids@, chain)
                    &&& t == (Tab { panes: t.panes, ..b })
                    &&& tabs::is_tab_changed(
                        *final(self),
                        *old(self),
                        tab_idx as int,
                        t,
                        seq![Effect::DirtyTab(b.id), Effect::ResizePanes, Effect::MarkDirty],
                    )
                }
            }),
            final(self).wf(),
    {
        let chain = sidebar::swap_chain(ids.len(), from, to);
        if chain.len() == 0 || tab_idx >= self.tabs.len() {
            return;
        }
        let ghost b = self.tabs@[tab_idx as int];
        let mut order: Vec<PaneId> = Vec::new();
        for i in 0..ids.len()
            invariant
                order@ == ids@.take(i as int),
        {
            order.push(ids[i]);
            assert(order@ =~= ids@.take(i + 1));
        }
        assert(order@ =~= ids@);
        assert(chain@.take(0) =~= Seq::empty());
        assert(self.tabs@ =~= old(self).tabs@.update(tab_idx as int, b));
        for i in 0..chain.len()
            invariant
                old(self).wf(),
                tab_idx < old(self).tabs@.len(),
                b == old(self).tabs@[tab_idx as int],
                chain@ == sidebar::adjacent_swaps(ids@.len() as int, from as int, to as int),
                order@.len() == ids@.len(),
                order@ == sidebar::replayed(ids@, chain@.take(i as int)),
                self.tabs@.len() == old(self).tabs@.len(),
                self.tabs@[tab_idx as int].panes@ == dropped(b.panes@, ids@, chain@.take(i as int)),
                self.tabs@[tab_idx as int] == (Tab {
                    panes: self.tabs@[tab_idx as int].panes,
                    ..b
                }),
                self.tabs@ == old(self).tabs@.update(tab_idx as int, self.tabs@[tab_idx as int]),
                view::tabs_ok(self.tabs@),
                *self == (KovaView { tabs: self.tabs, ..*old(self) }),
        {
            let ghost before = self.tabs@;
            let ghost t = before[tab_idx as int];
            assert(t.wf());
            let (x, y): (usize, usize) = chain[i];
            assert(chain@.take(i + 1).drop_last() =~= chain@.take(i as int));
            let (p, q): (PaneId, PaneId) = (order[x], order[y]);
            let done = self.tabs[tab_idx].swap_panes(p, q, NavDirection::Down);
            order.set(x, q);
            order.set(y, p);
            proof {
                let n = self.tabs@[tab_idx as int];
                assert(order@ =~= sidebar::exchanged(
                    sidebar::replayed(ids@, chain@.take(i as int)),
                    x as int,
                    y as int,
                ));
                assert(n.panes@ == swapped_down(t.panes@, p, q));
                pane::lemma_pos(t.panes@, p);
                pane::lemma_pos(t.panes@, q);
                if done {
                    pane::lemma_swapped(t.panes@, pane::pos(t.panes@, p), pane::pos(t.panes@, q));
                }
                assert(n.wf());
                assert(self.tabs@ =~= before.update(tab_idx as int, n));
                assert(self.tabs@ =~= old(self).tabs@.update(tab_idx as int, n));
                tabs::lemma_tabs_update(before, tab_idx as int, n);
            }
        }
        assert(chain@.take(chain@.len() as int) =~= chain@);
        let tab_id: TabId = self.tabs[tab_idx].id;
        self.emit(Effect::DirtyTab(tab_id));
        self.emit(Effect::ResizePanes);
        self.mark_dirty();
        assert(self.effects@ =~= old(self).effects@ + seq![
            Effect::DirtyTab(b.id),
            Effect::ResizePanes,
            Effect::MarkDirty,
        ]);
    }
}

// ---------------------------------------------------------------
// Menus
// ---------------------------------------------------------------

/// What the menus and actions read of a pane.
pub open spec fn snapshot_of(p: Pane, keys: Seq<String>) -> PaneSnapshot {
    PaneSnapshot {
        title: p.term.display_title,
        working: p.agent.working,
        awaiting: p.agent.permission_prompt,
        bare: p.term.bare_shell,
        resumable: p.agent.restored is Some,
        minimized: p.minimized,
        bookmarked: match p.agent.session_id {
            Some(id) => sidebar_ui::holds_key(keys, id@),
            None => p.term.cwd matches Some(c) && sidebar_ui::holds_key(keys, c@),
        },
    }
}

impl KovaView {
    /// The pane with the id, with the reads the menus and actions need.
    pub fn pane_snapshot(&self, pane_id: PaneId) -> (s: Option<PaneSnapshot>)
        ensures
            s == (match ipc::pane_with_id(self.tabs@, pane_id) {
                Some(p) => Some(snapshot_of(p, self.bookmark_keys@)),
                None => None,
            }),
    {
        match self.find_pane(pane_id) {
            Some(p) => {
                let bookmarked = match &p.agent.session_id {
                    Some(id) => is_key(&self.bookmark_keys, id.as_str()),
                    None => match &p.term.cwd {
                        Some(c) => is_key(&self.bookmark_keys, c.as_str()),
                        None => false,
                    },
                };
                Some(
                    PaneSnapshot {
                        title: p.term.display_title.clone(),
                        working: p.agent.working,
                        awaiting: p.agent.permission_prompt,
                        bare: p.term.bare_shell,
                        resumable: p.agent.restored.is_some(),
                        minimized: p.minimized,
                        bookmarked,
                    },
                )
            },
            None => None,
        }
    }

    /// A tile's menu opens: its items act on the pane. Returns what the menu
    /// is made of, nothing when the pane is gone.
    pub fn open_pane_menu(&mut self, pane_id: PaneId) -> (s: Option<PaneSnapshot>)
        ensures
            s == (match ipc::pane_with_id(old(self).tabs@, pane_id) {
                Some(p) => Some(snapshot_of(p, old(self).bookmark_keys@)),
                None => None,
            }),
            *final(self) == (if s is Some {
                KovaView {
                    sidebar: SidebarState { menu_pane: pane_id, ..old(self).sidebar },
                    ..*old(self)
                }
            } else {
                *old(self)
            }),
    {
        let s = self.pane_snapshot(pane_id);
        if s.is_some() {
            self.sidebar.menu_pane = pane_id;
        }
        s
    }

    /// A header's menu opens: its items act on the tab.
    pub fn open_tab_menu(&mut self, tab_idx: usize)
        ensures
            *final(self) == (KovaView {
                sidebar: SidebarState { menu_tab: tab_idx, ..old(self).sidebar },
                ..*old(self)
            }),
    {
        self.sidebar.menu_tab = tab_idx;
    }
}

// ---------------------------------------------------------------
// Tile actions
// ---------------------------------------------------------------

/// What a tile action has from outside the window.
#[derive(Debug)]
pub struct PaneActionFacts {
    /// The command that starts an agent.
    pub agent_command: String,
    /// The line that resumes the pane's session, when there is a safe one.
    pub resume: Option<String>,
    /// The answer to the question about a working agent.
    pub confirmed: bool,
    /// The neighbour to focus when the pane closes.
    pub next: Option<PaneId>,
}

/// What interrupting a pane does.
pub open spec fn is_interrupted(after: KovaView, before: KovaView, id: PaneId) -> bool {
    if view::some_tab_has(before.tabs@, id) {
        exists|mid: KovaView|
            #[trigger] ipc::are_keys_sent(mid, before, id, "\x03"@) && attention::is_status(
                after,
                mid,
                "Stopped"@,
            )
    } else {
        after == before
    }
}

/// What starting an agent in a pane does: something else running there
/// refuses it.
pub open spec fn is_agent_started(
    after: KovaView,
    before: KovaView,
    id: PaneId,
    command: Seq<char>,
) -> bool {
    match ipc::pane_with_id(before.tabs@, id) {
        None => after == before,
        Some(p) => if p.term.bare_shell {
            &&& view::is_typed(after.effects@, before.effects@, id, command + "\r"@)
            &&& after == (KovaView { effects: after.effects, ..before })
        } else {
            attention::is_status(after, before, "Something already runs in this pane"@)
        },
    }
}

/// What resuming a pane's session does: the line is retyped after whatever
/// stood at the prompt is cleared. Refused when something already runs there.
pub open spec fn is_resumed(
    after: KovaView,
    before: KovaView,
    id: PaneId,
    line: Option<String>,
) -> bool {
    match ipc::pane_with_id(before.tabs@, id) {
        None => after == before,
        Some(p) => match line {
            Some(l) if p.agent.restored is Some => if p.term.bare_shell {
                &&& view::is_typed(
                    after.effects@,
                    before.effects@,
                    id,
                    "\x15"@ + l@ + "\r"@,
                )
                &&& after == (KovaView { effects: after.effects, ..before })
            } else {
                attention::is_status(after, before, "Something already runs in this pane"@)
            },
            _ => attention::is_status(after, before, "Nothing to resume in this pane"@),
        },
    }
}

/// What closing a pane from its tile does: nothing when its agent works and
/// the user does not confirm; the last pane of the window stays.
pub open spec fn is_closed_from_tile(
    after: KovaView,
    before: KovaView,
    id: PaneId,
    confirmed: bool,
    next: Option<PaneId>,
) -> bool {
    match ipc::pane_with_id(before.tabs@, id) {
        None => after == before,
        Some(p) => if p.agent.working && !confirmed {
            after == before
        } else if ipc::is_last_pane(before) {
            attention::is_status(after, before, "Cannot close the last pane"@)
        } else {
            ipc::is_pane_gone(after, before, id, next)
        },
    }
}

/// What the sidebar asks before it closes a pane whose agent works.
pub open spec fn tile_close_question(v: KovaView, id: PaneId) -> Option<Seq<char>> {
    match ipc::pane_with_id(v.tabs@, id) {
        Some(p) if p.agent.working => Some("Close "@ + p.term.display_title@ + "?"@),
        _ => None,
    }
}

/// What a tile action does before the redraw it asks for.
pub open spec fn is_pane_action_run(
    after: KovaView,
    before: KovaView,
    id: PaneId,
    action: PaneAction,
    facts: PaneActionFacts,
) -> bool {
    match action {
        PaneAction::Open | PaneAction::Restore => if view::some_tab_has(before.tabs@, id) {
            ipc::is_pane_focused(after, before, id)
        } else {
            after == before
        },
        PaneAction::Stop => is_interrupted(after, before, id),
        PaneAction::StartClaude => is_agent_started(after, before, id, facts.agent_command@),
        PaneAction::Resume => is_resumed(after, before, id, facts.resume),
        PaneAction::Rename => if view::some_tab_has(before.tabs@, id) {
            exists|mid: KovaView|
                #[trigger] ipc::is_pane_focused(mid, before, id) && overlays::is_pane_rename_open(
                    after,
                    mid,
                )
        } else {
            after == before
        },
        PaneAction::ToggleBookmark => if view::some_tab_has(before.tabs@, id) {
            exists|mid: KovaView|
                #[trigger] ipc::is_pane_focused(mid, before, id) && attention::is_bookmark_asked(
                    after,
                    mid,
                )
        } else {
            after == before
        },
        PaneAction::Minimize => if view::some_tab_has(before.tabs@, id) {
            exists|mid: KovaView|
                #[trigger] ipc::is_pane_focused(mid, before, id) && nav::is_minimize_done(
                    after,
                    mid,
                )
        } else {
            after == before
        },
        PaneAction::Close => is_closed_from_tile(after, before, id, facts.confirmed, facts.next),
    }
}

/// A tile action, with the redraw it asks for.
pub open spec fn is_pane_action_done(
    after: KovaView,
    before: KovaView,
    id: PaneId,
    action: PaneAction,
    facts: PaneActionFacts,
) -> bool {
    exists|mid: KovaView|
        #[trigger] is_pane_action_run(mid, before, id, action, facts) && view::is_marked_dirty(after, mid)
}

impl KovaView {
    /// Ctrl+C into the pane. The waiting flag and the prompt preview go with
    /// it.
    pub fn interrupt_pane(&mut self, pane_id: PaneId)
        requires
            attention::fps_ok(*old(self)),
        ensures
            is_interrupted(*final(self), *old(self), pane_id),
            old(self).wf() ==> final(self).wf(),
    {
        let found = self.ipc_send_keys(pane_id, "\x03".to_string());
        if found {
            self.set_transient_status("Stopped");
        }
    }

    /// Start an agent in a bare shell. Refused when something already runs
    /// there.
    pub fn start_claude_in_pane(&mut self, pane_id: PaneId, command: &str)
        requires
            attention::fps_ok(*old(self)),
        ensures
            is_agent_started(*final(self), *old(self), pane_id, command@),
            old(self).wf() ==> final(self).wf(),
    {
        let bare = match self.find_pane(pane_id) {
            Some(p) => p.term.bare_shell,
            None => {
                return;
            },
        };
        if !bare {
            self.set_transient_status("Something already runs in this pane");
            return;
        }
        let mut line = command.to_string();
        line.append("\r");
        self.emit(Effect::Write(pane_id, line));
        assert(self.effects@.drop_last() =~= old(self).effects@);
    }

    /// Run the resume line a restored pane holds. It is retyped after a
    /// Ctrl+U: the one typed before may still sit at the prompt or have been
    /// cleared. Refused, like a start, when something already runs there.
    pub fn resume_in_pane(&mut self, pane_id: PaneId, resume: &Option<String>)
        requires
            attention::fps_ok(*old(self)),
        ensures
            is_resumed(*final(self), *old(self), pane_id, *resume),
            old(self).wf() ==> final(self).wf(),
    {
        let (restored, bare) = match self.find_pane(pane_id) {
            Some(p) => (p.agent.restored.is_some(), p.term.bare_shell),
            None => {
                return;
            },
        };
        match resume {
            Some(l) if restored => {
                if !bare {
                    self.set_transient_status("Something already runs in this pane");
                    return;
                }
                let mut line = "\x15".to_string();
                line.append(l.as_str());
                line.append("\r");
                self.emit(Effect::Write(pane_id, line));
                assert(self.effects@.drop_last() =~= old(self).effects@);
            },
            _ => {
                self.set_transient_status("Nothing to resume in this pane");
            },
        }
    }

    /// What to ask before the pane closes from its tile: a working agent would
    /// be interrupted.
    pub fn close_pane_question(&self, pane_id: PaneId) -> (q: Option<String>)
        ensures
            q is Some == tile_close_question(*self, pane_id) is Some,
            q matches Some(s) ==> s@ == tile_close_question(*self, pane_id)->0,
    {
        match self.pane_snapshot(pane_id) {
            Some(s) if s.working => {
                let mut q = "Close ".to_string();
                q.append(s.title.as_str());
                q.append("?");
                Some(q)
            },
            _ => None,
        }
    }

    /// Close a pane from its tile: a working agent first gets a question,
    /// `confirmed` is the answer; `next` is the neighbour to focus.
    pub fn close_pane_from_sidebar(
        &mut self,
        pane_id: PaneId,
        confirmed: bool,
        next: Option<PaneId>,
    )
        requires
            attention::fps_ok(*old(self)),
            view::tabs_ok(old(self).tabs@),
        ensures
            is_closed_from_tile(*final(self), *old(self), pane_id, confirmed, next),
            old(self).wf() ==> final(self).wf(),
    {
        proof {
            view::lemma_tab_of(self.tabs@, pane_id);
        }
        match self.pane_snapshot(pane_id) {
            Some(s) => {
                if s.working && !confirmed {
                    return;
                }
            },
            None => {
                return;
            },
        }
        let closed = self.ipc_close_pane(pane_id, next);
        if let Some(false) = closed {
            self.set_transient_status("Cannot close the last pane");
        }
    }

    /// Run a tile action.
    pub fn dispatch_pane_action(
        &mut self,
        pane_id: PaneId,
        action: PaneAction,
        facts: PaneActionFacts,
    )
        requires
            old(self).wf(),
            attention::fps_ok(*old(self)),
        ensures
            is_pane_action_done(*final(self), *old(self), pane_id, action, facts),
            final(self).wf(),
    {
        match action {
            PaneAction::Open | PaneAction::Restore => {
                self.ipc_focus_pane(pane_id);
            },
            PaneAction::Stop => {
                self.interrupt_pane(pane_id);
            },
            PaneAction::StartClaude => {
                self.start_claude_in_pane(pane_id, facts.agent_command.as_str());
            },
            PaneAction::Resume => {
                self.resume_in_pane(pane_id, &facts.resume);
            },
            PaneAction::Rename => {
                if self.ipc_focus_pane(pane_id) {
                    self.start_rename_pane();
                }
            },
            PaneAction::ToggleBookmark => {
                if self.ipc_focus_pane(pane_id) {
                    self.do_toggle_bookmark();
                }
            },
            PaneAction::Minimize => {
                if self.ipc_focus_pane(pane_id) {
                    self.do_minimize_pane();
                }
            },
            PaneAction::Close => {
                self.close_pane_from_sidebar(pane_id, facts.confirmed, facts.next);
            },
        }
        assert(is_pane_action_run(*self, *old(self), pane_id, action, facts));
        let ghost mid = *self;
        self.mark_dirty();
        assert(view::is_marked_dirty(*self, mid));
    }

    /// An item of the tile menu was picked.
    pub fn sidebar_pane_menu_picked(&mut self, tag: isize, facts: PaneActionFacts)
        requires
            old(self).wf(),
            attention::fps_ok(*old(self)),
        ensures
            forall|a: PaneAction| #[trigger]
                a.number() == tag ==> is_pane_action_done(
                    *final(self),
                    *old(self),
                    old(self).sidebar.menu_pane,
                    a,
                    facts,
                ),
            tag < 0 || tag > 8 ==> *final(self) == *old(self),
            final(self).wf(),
    {
        let pane_id: PaneId = self.sidebar.menu_pane;
        if let Some(action) = PaneAction::from_tag(tag) {
            self.dispatch_pane_action(pane_id, action, facts);
            assert forall|a: PaneAction| #[trigger] a.number() == tag implies a == action by {
                sidebar_ui::pane_action_tags_read_back(a, action);
            }
        }
    }
}

// ---------------------------------------------------------------
// Header actions
// ---------------------------------------------------------------

/// What a header action has from outside the window.
#[derive(Debug)]
pub struct TabActionFacts {
    /// What spawning a pane gave.
    pub new: Option<Pane>,
    /// The answer to the question about the processes running in the tab.
    pub confirmed: bool,
}

/// `after` is `before` with the colour of tab `i` set.
pub open spec fn is_color_set(
    after: KovaView,
    before: KovaView,
    i: int,
    color: Option<usize>,
) -> bool {
    if i < before.tabs@.len() {
        &&& after.tabs@ == before.tabs@.update(i, Tab { color, ..before.tabs@[i] })
        &&& after == (KovaView { tabs: after.tabs, ..before })
    } else {
        after == before
    }
}

/// The tabs with all but `i` folded.
pub open spec fn others_folded(tabs: Seq<Tab>, i: int) -> Seq<Tab> {
    Seq::new(tabs.len(), |k: int| Tab { collapsed: k != i, ..tabs[k] })
}

/// What a header action does before the redraw it asks for.
pub open spec fn is_tab_action_run(
    after: KovaView,
    before: KovaView,
    i: int,
    action: TabAction,
    facts: TabActionFacts,
) -> bool {
    match action {
        TabAction::Color(c) => is_color_set(after, before, i, Some(c)),
        TabAction::NoColor => is_color_set(after, before, i, None),
        TabAction::Rename => exists|mid: KovaView|
            #[trigger] tabs::is_switched(mid, before, i) && overlays::is_tab_rename_open(
                after,
                mid,
            ),
        TabAction::AddPane => exists|mid: KovaView|
            #[trigger] tabs::is_switched(mid, before, i) && tabs::is_split_done(
                after,
                mid,
                SplitDirection::Horizontal,
                facts.new,
            ),
        TabAction::CollapseOthers => {
            &&& after.tabs@ == others_folded(before.tabs@, i)
            &&& after == (KovaView { tabs: after.tabs, ..before })
        },
        TabAction::Close => exists|mid: KovaView|
            #[trigger] tabs::is_switched(mid, before, i) && tabs::is_tab_close_done(
                after,
                mid,
                facts.confirmed,
            ),
    }
}

/// A header action, with the redraw it asks for.
pub open spec fn is_tab_action_done(
    after: KovaView,
    before: KovaView,
    i: int,
    action: TabAction,
    facts: TabActionFacts,
) -> bool {
    exists|mid: KovaView|
        #[trigger] is_tab_action_run(mid, before, i, action, facts) && view::is_marked_dirty(after, mid)
}

/// The pane an action puts in is new to the window.
pub open spec fn adds_fresh_pane(v: KovaView, facts: TabActionFacts) -> bool {
    facts.new matches Some(p) ==> tabs::fresh_pane(v, p)
}

proof fn lemma_switched_panes(after: KovaView, before: KovaView, i: int)
    requires
        tabs::is_switched(after, before, i),
    ensures
        forall|id: PaneId| #[trigger]
            view::some_tab_has(after.tabs@, id) ==> view::some_tab_has(before.tabs@, id),
{
    assert forall|id: PaneId| #[trigger]
        view::some_tab_has(after.tabs@, id) implies view::some_tab_has(before.tabs@, id) by {
        let k = choose|k: int|
            0 <= k < after.tabs@.len() && pane::has_pane((#[trigger] after.tabs@[k]).panes@, id);
        assert(pane::has_pane(before.tabs@[k].panes@, id));
    }
}

impl KovaView {
    fn set_tab_color(&mut self, tab_idx: usize, color: Option<usize>)
        ensures
            is_color_set(*final(self), *old(self), tab_idx as int, color),
            old(self).wf() ==> final(self).wf(),
    {
        if tab_idx < self.tabs.len() {
            self.tabs[tab_idx].color = color;
            proof {
                let t = self.tabs@[tab_idx as int];
                assert(self.tabs@ =~= old(self).tabs@.update(tab_idx as int, t));
                if old(self).wf() {
                    assert(old(self).tabs@[tab_idx as int].wf());
                    tabs::lemma_tabs_update(old(self).tabs@, tab_idx as int, t);
                }
            }
        }
    }

    fn fold_others(&mut self, tab_idx: usize)
        ensures
            final(self).tabs@ == others_folded(old(self).tabs@, tab_idx as int),
            *final(self) == (KovaView { tabs: final(self).tabs, ..*old(self) }),
            old(self).wf() ==> final(self).wf(),
    {
        let n: usize = self.tabs.len();
        for i in 0..n
            invariant
                self.tabs@.len() == old(self).tabs@.len() == n,
                forall|k: int|
                    0 <= k < i ==> #[trigger] self.tabs@[k] == (Tab {
                        collapsed: k != tab_idx,
                        ..old(self).tabs@[k]
                    }),
                forall|k: int| i <= k < self.tabs@.len() ==> self.tabs@[k] == old(self).tabs@[k],
                *self == (KovaView { tabs: self.tabs, ..*old(self) }),
        {
            self.tabs[i].collapsed = i != tab_idx;
        }
        assert(self.tabs@ =~= others_folded(old(self).tabs@, tab_idx as int));
        proof {
            if old(self).wf() {
                let s = old(self).tabs@;
                let w = self.tabs@;
                assert forall|a: int| 0 <= a < w.len() implies (#[trigger] w[a]).wf() by {
                    assert(s[a].wf());
                }
                assert forall|a: int, b: int| 0 <= a < b < w.len() implies (#[trigger] w[a]).id != (
                #[trigger] w[b]).id by {
                    assert(s[a].id != s[b].id);
                }
                assert forall|a: int, b: int, id: PaneId|
                    0 <= a < b < w.len() && #[trigger] pane::has_pane(
                        w[a].panes@,
                        id,
                    ) implies !#[trigger] pane::has_pane(w[b].panes@, id) by {
                    assert(pane::has_pane(s[a].panes@, id));
                    assert(!pane::has_pane(s[b].panes@, id));
                }
            }
        }
    }

    /// Run a header action.
    pub fn run_tab_action(&mut self, tab_idx: usize, action: TabAction, facts: TabActionFacts)
        requires
            old(self).wf(),
        ensures
            is_tab_action_done(*final(self), *old(self), tab_idx as int, action, facts),
            adds_fresh_pane(*old(self), facts) ==> final(self).wf(),
    {
        match action {
            TabAction::Color(c) => {
                self.set_tab_color(tab_idx, Some(c));
            },
            TabAction::NoColor => {
                self.set_tab_color(tab_idx, None);
            },
            TabAction::Rename => {
                self.do_switch_tab(tab_idx);
                self.start_rename_tab();
            },
            TabAction::AddPane => {
                self.do_switch_tab(tab_idx);
                proof {
                    if self.has_active() {
                        assert(self.active().wf());
                    }
                    lemma_switched_panes(*self, *old(self), tab_idx as int);
                }
                self.do_split(SplitDirection::Horizontal, facts.new);
            },
            TabAction::CollapseOthers => {
                self.fold_others(tab_idx);
            },
            TabAction::Close => {
                self.do_switch_tab(tab_idx);
                self.do_close_tab(facts.confirmed);
            },
        }
        assert(is_tab_action_run(*self, *old(self), tab_idx as int, action, facts));
        let ghost mid = *self;
        self.mark_dirty();
        assert(view::is_marked_dirty(*self, mid));
    }

    /// An item of the header menu was picked.
    pub fn sidebar_tab_menu_picked(&mut self, tag: isize, facts: TabActionFacts)
        requires
            old(self).wf(),
        ensures
            forall|a: TabAction|
                a.wf() && #[trigger] a.number() == tag ==> is_tab_action_done(
                    *final(self),
                    *old(self),
                    old(self).sidebar.menu_tab as int,
                    a,
                    facts,
                ),
            !(0 <= tag <= 6 || 10 <= tag <= 13) ==> *final(self) == *old(self),
            adds_fresh_pane(*old(self), facts) ==> final(self).wf(),
    {
        let tab_idx: usize = self.sidebar.menu_tab;
        if let Some(action) = TabAction::from_tag(tag) {
            self.run_tab_action(tab_idx, action, facts);
            assert forall|a: TabAction| a.wf() && #[trigger] a.number() == tag implies a == action by {
                sidebar_ui::tab_action_tags_read_back(a, action);
            }
        }
    }
}

/// The header menu acts on the tab it was opened for: a colour is set or
/// dropped, the other groups fold, a rename or a close makes the tab the active
/// one.
pub proof fn header_actions_act_on_their_tab(
    after: KovaView,
    before: KovaView,
    i: int,
    action: TabAction,
    facts: TabActionFacts,
)
    requires
        before.wf(),
        0 <= i < before.tabs@.len(),
        is_tab_action_done(after, before, i, action, facts),
    ensures
        action matches TabAction::Color(c) ==> after.tabs@[i].color == Some(c) && forall|k: int|
            0 <= k < before.tabs@.len() && k != i ==> after.tabs@[k] == before.tabs@[k],
        action == TabAction::NoColor ==> after.tabs@[i].color is None && forall|k: int|
            0 <= k < before.tabs@.len() && k != i ==> after.tabs@[k] == before.tabs@[k],
        action == TabAction::CollapseOthers ==> !after.tabs@[i].collapsed && forall|k: int|
            0 <= k < before.tabs@.len() && k != i ==> (#[trigger] after.tabs@[k]).collapsed,
        action == TabAction::Rename ==> after.active_tab == i && after.overlays.rename_tab is Some,
        action == TabAction::AddPane ==> after.active_tab == i,
{
    let mid = choose|mid: KovaView|
        #[trigger] is_tab_action_run(mid, before, i, action, facts) && view::is_marked_dirty(
            after,
            mid,
        );
    assert(after.tabs == mid.tabs && after.active_tab == mid.active_tab);
}

/// The tile menu acts on the pane it was opened for: opening, restoring and
/// renaming focus it, minimizing folds it where another pane shows, and starting
/// types the command into it if its shell is idle.
pub proof fn tile_actions_act_on_their_pane(
    after: KovaView,
    before: KovaView,
    action: PaneAction,
    facts: PaneActionFacts,
    ti: int,
    i: int,
)
    requires
        before.wf(),
        0 <= ti < before.tabs@.len(),
        0 <= i < before.tabs@[ti].panes@.len(),
        is_pane_action_done(after, before, before.tabs@[ti].panes@[i].id, action, facts),
    ensures
        action == PaneAction::Open || action == PaneAction::Restore ==> {
            &&& after.active_tab == ti
            &&& after.tabs@[ti].focused_pane == before.tabs@[ti].panes@[i].id
            &&& !after.tabs@[ti].panes@[i].minimized
        },
        action == PaneAction::Rename ==> {
            &&& after.active_tab == ti
            &&& after.tabs@[ti].focused_pane == before.tabs@[ti].panes@[i].id
            &&& after.overlays.rename_pane is Some
        },
        action == PaneAction::Close && before.tabs@[ti].panes@[i].agent.working && !facts.confirmed
            ==> after.tabs == before.tabs,
        action == PaneAction::StartClaude && !before.tabs@[ti].panes@[i].term.bare_shell
            ==> forall|k: int|
            before.effects@.len() <= k < after.effects@.len() ==> !(
            #[trigger] after.effects@[k] is Write),
        action == PaneAction::StartClaude && before.tabs@[ti].panes@[i].term.bare_shell ==> (
        after.effects@[before.effects@.len() as int] matches Effect::Write(id, s) && id
            == before.tabs@[ti].panes@[i].id && s@ == facts.agent_command@ + "\r"@),
{
    let id = before.tabs@[ti].panes@[i].id;
    ipc::lemma_here(before, id, ti, i);
    let mid = choose|mid: KovaView|
        #[trigger] is_pane_action_run(mid, before, id, action, facts) && view::is_marked_dirty(
            after,
            mid,
        );
    let n = before.effects@.len() as int;
    if action == PaneAction::Open || action == PaneAction::Restore {
        ipc::focusing_leads_to_the_pane(mid, before, id, ti, i);
    } else if action == PaneAction::Rename {
        let first = choose|first: KovaView|
            #[trigger] ipc::is_pane_focused(first, before, id) && overlays::is_pane_rename_open(
                mid,
                first,
            );
        ipc::focusing_leads_to_the_pane(first, before, id, ti, i);
    } else if action == PaneAction::StartClaude {
        assert(ipc::pane_with_id(before.tabs@, id) == Some(before.tabs@[ti].panes@[i]));
        if before.tabs@[ti].panes@[i].term.bare_shell {
            assert(mid.effects@.last() == mid.effects@[n]);
            assert(after.effects@[n] == mid.effects@[n]);
        }
    } else if action == PaneAction::Close {
        assert(ipc::pane_with_id(before.tabs@, id) == Some(before.tabs@[ti].panes@[i]));
    }
}

/// A moved tab goes to its place, the others keep their order, and the tab
/// that was active stays so.
pub proof fn moving_keeps_the_active_tab(after: KovaView, before: KovaView, from: int, to: int)
    requires
        before.has_active(),
        0 <= from < before.tabs@.len(),
        0 <= to < before.tabs@.len(),
        is_tab_moved(after, before, from, to),
    ensures
        after.tabs@.len() == before.tabs@.len(),
        after.tabs@[to] == before.tabs@[from],
        after.tabs@.remove(to) == before.tabs@.remove(from),
        after.active() == before.active(),
{
    assert(after.tabs@.remove(to) =~= before.tabs@.remove(from));
}

} // verus!
