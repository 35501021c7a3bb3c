//! Panes whose program has exited leave the window.
use crate::pane;
use crate::pane::{retain_other, Pane, PaneId, Tab, TabId};
use crate::view;
use crate::view::{Effect, KovaView};
use vstd::prelude::*;

verus! {

/// The panes whose program has exited, in order.
pub open spec fn exited_ids(panes: Seq<Pane>) -> Seq<PaneId>
    decreases panes.len(),
{
    if panes.len() == 0 {
        seq![]
    } else if panes.last().term.exited {
        exited_ids(panes.drop_last()).push(panes.last().id)
    } else {
        exited_ids(panes.drop_last())
    }
}

proof fn lemma_exited_ids(panes: Seq<Pane>)
    requires
        pane::distinct_ids(panes),
    ensures
        exited_ids(panes).len() <= panes.len(),
        exited_ids(panes).no_duplicates(),
        forall|id: PaneId| #[trigger]
            exited_ids(panes).contains(id) ==> pane::has_pane(panes, id),
    decreases panes.len(),
{
    if panes.len() > 0 {
        let prev = panes.drop_last();
        assert(pane::distinct_ids(prev)) by {
            assert forall|i: int, j: int| 0 <= i < j < prev.len() implies (#[trigger] prev[i]).id
                != (#[trigger] prev[j]).id by {
                assert(panes[i].id != panes[j].id);
            }
        }
        lemma_exited_ids(prev);
        let e = exited_ids(prev);
        assert forall|id: PaneId| e.contains(id) implies pane::has_pane(panes, id) && id
            != panes.last().id by {
            let k = choose|k: int| 0 <= k < prev.len() && (#[trigger] prev[k]).id == id;
            assert(panes[k].id == id);
        }
        assert(!e.contains(panes.last().id));
        assert(panes[panes.len() - 1].id == panes.last().id);
        assert forall|id: PaneId| #[trigger] exited_ids(panes).contains(id) implies pane::has_pane(
            panes,
            id,
        ) by {
            if panes.last().term.exited {
                let w = exited_ids(panes).index_of(id);
                if w < e.len() {
                    assert(e[w] == id);
                    assert(e.contains(id));
                } else {
                    assert(id == panes.last().id);
                }
            } else {
                assert(e.contains(id));
            }
        }
        if panes.last().term.exited {
            let f = exited_ids(panes);
            assert forall|i: int, j: int| 0 <= i < f.len() && 0 <= j < f.len() && i != j implies f[i]
                != f[j] by {
                if i < e.len() && j < e.len() {
                    assert(e[i] != e[j]);
                } else if i < e.len() {
                    assert(e.contains(e[i]));
                } else if j < e.len() {
                    assert(e.contains(e[j]));
                }
            }
        }
    }
}

/// The panes once those with the ids are taken out, one after the other.
pub open spec fn reaped(panes: Seq<Pane>, ids: Seq<PaneId>) -> Seq<Pane>
    decreases ids.len(),
{
    if ids.len() == 0 {
        panes
    } else {
        let p = reaped(panes, ids.drop_last());
        pane::without(p, pane::pos(p, ids.last()))
    }
}

/// Taking panes out keeps the columns numbered, the ids distinct, and every
/// other pane.
pub proof fn lemma_reaped(panes: Seq<Pane>, ids: Seq<PaneId>)
    requires
        pane::columns_ok(panes),
        pane::distinct_ids(panes),
        ids.no_duplicates(),
        forall|id: PaneId| #[trigger] ids.contains(id) ==> pane::has_pane(panes, id),
    ensures
        reaped(panes, ids).len() == panes.len() - ids.len(),
        pane::columns_ok(reaped(panes, ids)),
        pane::distinct_ids(reaped(panes, ids)),
        forall|id: PaneId| #[trigger]
            pane::has_pane(reaped(panes, ids), id) <==> pane::has_pane(panes, id)
                && !ids.contains(id),
    decreases ids.len(),
{
    if ids.len() > 0 {
        let prev = ids.drop_last();
        assert forall|id: PaneId| #[trigger] prev.contains(id) implies pane::has_pane(
            panes,
            id,
        ) by {
            let w = prev.index_of(id);
            assert(ids[w] == id);
            assert(ids.contains(id));
        }
        assert(prev.no_duplicates()) by {
            assert forall|i: int, j: int| 0 <= i < prev.len() && 0 <= j < prev.len() && i
                != j implies prev[i] != prev[j] by {
                assert(ids[i] != ids[j]);
            }
        }
        lemma_reaped(panes, prev);
        let p = reaped(panes, prev);
        let last = ids.last();
        assert(ids[ids.len() - 1] == last);
        assert(ids.contains(last));
        assert(!prev.contains(last)) by {
            if prev.contains(last) {
                let w = prev.index_of(last);
                assert(ids[w] == ids[ids.len() - 1]);
            }
        }
        assert(pane::has_pane(p, last));
        pane::lemma_pos(p, last);
        pane::lemma_without(p, pane::pos(p, last));
        assert forall|id: PaneId| #[trigger] pane::has_pane(
            reaped(panes, ids),
            id,
        ) <==> pane::has_pane(panes, id) && !ids.contains(id) by {
            if ids.contains(id) {
                let w = ids.index_of(id);
                if w < prev.len() {
                    assert(prev[w] == id);
                    assert(prev.contains(id));
                }
            }
            if prev.contains(id) {
                let w = prev.index_of(id);
                assert(ids[w] == id);
                assert(ids.contains(id));
            }
        }
    }
}

/// The stack once the ids are taken out.
pub open spec fn stack_reaped(stack: Seq<PaneId>, ids: Seq<PaneId>) -> Seq<PaneId>
    decreases ids.len(),
{
    if ids.len() == 0 {
        stack
    } else {
        pane::stack_without(stack_reaped(stack, ids.drop_last()), ids.last())
    }
}

/// The number of columns before and after each pane is taken out.
pub open spec fn widths_reaped(panes: Seq<Pane>, ids: Seq<PaneId>) -> Seq<(int, int)>
    decreases ids.len(),
{
    if ids.len() == 0 {
        seq![]
    } else {
        widths_reaped(panes, ids.drop_last()).push(
            (
                Tab::column_count(reaped(panes, ids.drop_last())),
                Tab::column_count(reaped(panes, ids)),
            ),
        )
    }
}

/// Every pane of the tab has exited.
pub open spec fn is_gone(t: Tab) -> bool {
    exited_ids(t.panes@).len() == t.panes@.len()
}

/// The tab once its exited panes are gone, some being left.
pub open spec fn is_tab_reaped(t: Tab, before: Tab) -> bool {
    let ids = exited_ids(before.panes@);
    if ids.len() == 0 {
        t == before
    } else {
        &&& t.panes@ == reaped(before.panes@, ids)
        &&& t.minimized_stack@ == stack_reaped(before.minimized_stack@, ids)
        &&& t == (Tab {
            panes: t.panes,
            minimized_stack: t.minimized_stack,
            focused_pane: if ids.contains(before.focused_pane) {
                t.panes@[0].id
            } else {
                before.focused_pane
            },
            ..before
        })
    }
}

/// A tab whose exited panes are gone is whole, and holds no pane it did not
/// hold.
pub proof fn lemma_tab_reaped(t: Tab, before: Tab)
    requires
        before.wf(),
        !is_gone(before),
        is_tab_reaped(t, before),
    ensures
        t.wf(),
        t.id == before.id,
        forall|id: PaneId| #[trigger]
            pane::has_pane(t.panes@, id) <==> pane::has_pane(before.panes@, id)
                && !exited_ids(before.panes@).contains(id),
{
    lemma_exited_ids(before.panes@);
    lemma_reaped(before.panes@, exited_ids(before.panes@));
    if exited_ids(before.panes@).len() > 0 {
        assert(t.panes@[0].id == t.panes@[0].id);
        assert(pane::has_pane(t.panes@, t.panes@[0].id));
    }
}

fn find_exited(panes: &Vec<Pane>) -> (ids: Vec<PaneId>)
    ensures
        ids@ == exited_ids(panes@),
{
    let mut ids: Vec<PaneId> = Vec::new();
    assert(panes@.take(0) =~= seq![]);
    for i in 0..panes.len()
        invariant
            ids@ == exited_ids(panes@.take(i as int)),
    {
        assert(panes@.take(i + 1).drop_last() =~= panes@.take(i as int));
        if panes[i].term.exited {
            ids.push(panes[i].id);
        }
    }
    assert(panes@.take(panes@.len() as int) =~= panes@);
    ids
}

/// The pairs as numbers.
pub open spec fn pairs(v: Seq<(usize, usize)>) -> Seq<(int, int)> {
    v.map_values(|w: (usize, usize)| (w.0 as int, w.1 as int))
}

impl Tab {
    /// Take the exited panes out, one after the other; `None` when no pane
    /// would be left. Returns the number of columns before and after each.
    pub fn reap(&mut self) -> (widths: Option<Vec<(usize, usize)>>)
        requires
            old(self).wf(),
        ensures
            widths is None <==> is_gone(*old(self)),
            widths matches Some(w) ==> is_tab_reaped(*final(self), *old(self)) && pairs(w@)
                == widths_reaped(old(self).panes@, exited_ids(old(self).panes@)),
    {
        let ids = find_exited(&self.panes);
        let ghost all = self.panes@;
        let ghost stack = self.minimized_stack@;
        proof {
            lemma_exited_ids(all);
        }
        let mut widths: Vec<(usize, usize)> = Vec::new();
        assert(ids@.take(0) =~= seq![]);
        assert(pairs(widths@) =~= seq![]);
        for i in 0..ids.len()
            invariant
                all == old(self).panes@,
                stack == old(self).minimized_stack@,
                pane::columns_ok(all),
                pane::distinct_ids(all),
                ids@ == exited_ids(all),
                ids@.no_duplicates(),
                forall|id: PaneId| #[trigger] ids@.contains(id) ==> pane::has_pane(all, id),
                ids@.len() <= all.len(),
                self.panes@ == reaped(all, ids@.take(i as int)),
                self.panes@.len() == all.len() - i,
                self.panes@.len() > 0,
                self.minimized_stack@ == stack_reaped(stack, ids@.take(i as int)),
                i == 0 ==> *self == *old(self),
                *self == (Tab {
                    panes: self.panes,
                    minimized_stack: self.minimized_stack,
                    ..*old(self)
                }),
                pairs(widths@) == widths_reaped(all, ids@.take(i as int)),
        {
            let ghost upto = ids@.take(i + 1);
            let ghost prev = ids@.take(i as int);
            proof {
                assert(upto.drop_last() =~= prev);
                lemma_taken(all, ids@, i as int);
                lemma_reaped(all, prev);
                lemma_taken(all, ids@, i + 1);
                lemma_reaped(all, upto);
                assert(ids@.contains(ids@[i as int]));
                assert(!prev.contains(ids@[i as int])) by {
                    if prev.contains(ids@[i as int]) {
                        let w = prev.index_of(ids@[i as int]);
                        assert(ids@[w] == ids@[i as int]);
                    }
                }
            }
            let before: usize = self.num_columns();
            if !self.remove_pane(ids[i]) {
                return None;
            }
            let after: usize = self.num_columns();
            retain_other(&mut self.minimized_stack, ids[i]);
            let ghost w = widths@;
            widths.push((before, after));
            assert(pairs(widths@) =~= pairs(w).push((before as int, after as int)));
        }
        assert(ids@.take(ids@.len() as int) =~= ids@);
        if ids.len() > 0 && pane::lists_id(&ids, self.focused_pane) {
            self.focused_pane = self.panes[0].id;
        }
        Some(widths)
    }
}

proof fn lemma_taken(all: Seq<Pane>, ids: Seq<PaneId>, n: int)
    requires
        0 <= n <= ids.len(),
        ids.no_duplicates(),
        forall|id: PaneId| #[trigger] ids.contains(id) ==> pane::has_pane(all, id),
    ensures
        ids.take(n).no_duplicates(),
        forall|id: PaneId| #[trigger] ids.take(n).contains(id) ==> pane::has_pane(all, id),
{
    assert forall|id: PaneId| #[trigger] ids.take(n).contains(id) implies pane::has_pane(
        all,
        id,
    ) by {
        let w = ids.take(n).index_of(id);
        assert(ids[w] == id);
        assert(ids.contains(id));
    }
    assert forall|i: int, j: int| 0 <= i < n && 0 <= j < n && i != j implies ids.take(n)[i]
        != ids.take(n)[j] by {
        assert(ids[i] != ids[j]);
    }
}

/// The tabs, among the first `n`, that keep a pane.
pub open spec fn kept(tabs: Seq<Tab>, n: int) -> Seq<int>
    decreases n,
{
    if n <= 0 {
        seq![]
    } else if is_gone(tabs[n - 1]) {
        kept(tabs, n - 1)
    } else {
        kept(tabs, n - 1).push(n - 1)
    }
}

proof fn lemma_kept(tabs: Seq<Tab>, n: int)
    requires
        0 <= n <= tabs.len(),
    ensures
        kept(tabs, n).len() <= n,
        forall|k: int|
            0 <= k < kept(tabs, n).len() ==> 0 <= #[trigger] kept(tabs, n)[k] < n && !is_gone(
                tabs[kept(tabs, n)[k]],
            ),
        forall|a: int, b: int|
            0 <= a < b < kept(tabs, n).len() ==> #[trigger] kept(tabs, n)[a] < #[trigger] kept(
                tabs,
                n,
            )[b],
    decreases n,
{
    if n > 0 {
        lemma_kept(tabs, n - 1);
    }
}

/// The tabs once their exited panes are gone: those left without a pane are
/// gone too.
pub open spec fn are_tabs_reaped(after: Seq<Tab>, before: Seq<Tab>, n: int) -> bool {
    &&& after.len() == kept(before, n).len()
    &&& forall|k: int|
        0 <= k < after.len() ==> is_tab_reaped(#[trigger] after[k], before[kept(before, n)[k]])
}

/// What taking out the exited panes of the first `n` tabs asks for.
pub open spec fn reap_effects(tabs: Seq<Tab>, n: int) -> Seq<Effect>
    decreases n,
{
    if n <= 0 {
        seq![]
    } else if is_gone(tabs[n - 1]) {
        reap_effects(tabs, n - 1)
    } else {
        reap_effects(tabs, n - 1) + width_effects(
            tabs[n - 1].id,
            widths_reaped(tabs[n - 1].panes@, exited_ids(tabs[n - 1].panes@)),
        )
    }
}

/// The tab's width follows each change of its columns.
pub open spec fn width_effects(id: TabId, widths: Seq<(int, int)>) -> Seq<Effect> {
    widths.map_values(|w: (int, int)| Effect::ScaleWidth(id, w.0 as usize, w.1 as usize))
}

/// Some pane of the tabs has exited.
pub open spec fn any_exited(tabs: Seq<Tab>) -> bool {
    exists|i: int| 0 <= i < tabs.len() && exited_ids((#[trigger] tabs[i]).panes@).len() > 0
}

/// `after` is `before` with its exited panes gone.
pub open spec fn is_reaped(after: KovaView, before: KovaView) -> bool {
    let n = before.tabs@.len() as int;
    &&& are_tabs_reaped(after.tabs@, before.tabs@, n)
    &&& after.active_tab == (if any_exited(before.tabs@) && after.tabs@.len() > 0
        && before.active_tab >= after.tabs@.len() {
        after.tabs@.len() - 1
    } else {
        before.active_tab as int
    })
    &&& after.effects@ == before.effects@ + reap_effects(before.tabs@, n)
    &&& after == (KovaView {
        tabs: after.tabs,
        active_tab: after.active_tab,
        effects: after.effects,
        ..before
    })
}

proof fn lemma_tabs_reaped(after: Seq<Tab>, before: Seq<Tab>)
    requires
        view::tabs_ok(before),
        are_tabs_reaped(after, before, before.len() as int),
    ensures
        view::tabs_ok(after),
{
    let n = before.len() as int;
    let ks = kept(before, n);
    lemma_kept(before, n);
    assert forall|k: int| 0 <= k < after.len() implies (#[trigger] after[k]).wf() && after[k].id
        == before[ks[k]].id && forall|id: PaneId| #[trigger]
        pane::has_pane(after[k].panes@, id) ==> pane::has_pane(before[ks[k]].panes@, id) by {
        assert(before[ks[k]].wf());
        lemma_tab_reaped(after[k], before[ks[k]]);
    }
    assert forall|i: int, j: int| 0 <= i < j < after.len() implies (#[trigger] after[i]).id != (
    #[trigger] after[j]).id by {
        assert(ks[i] < ks[j]);
        assert(before[ks[i]].id != before[ks[j]].id);
    }
    assert forall|i: int, j: int, id: PaneId|
        0 <= i < j < after.len() && #[trigger] pane::has_pane(
            after[i].panes@,
            id,
        ) implies !#[trigger] pane::has_pane(after[j].panes@, id) by {
        assert(ks[i] < ks[j]);
        assert(after[i].wf() && after[j].wf());
        assert(pane::has_pane(before[ks[i]].panes@, id));
    }
}

/// Every pane still running survives, and no exited one does.
pub proof fn reaping_spares_the_running(after: KovaView, before: KovaView, id: PaneId)
    requires
        before.wf(),
        is_reaped(after, before),
    ensures
        view::some_tab_has(after.tabs@, id) <==> exists|i: int|
            0 <= i < before.tabs@.len() && pane::has_pane((#[trigger] before.tabs@[i]).panes@, id)
                && !exited_ids(before.tabs@[i].panes@).contains(id),
{
    let n = before.tabs@.len() as int;
    let ks = kept(before.tabs@, n);
    lemma_kept(before.tabs@, n);
    if view::some_tab_has(after.tabs@, id) {
        let k = choose|k: int|
            0 <= k < after.tabs@.len() && pane::has_pane((#[trigger] after.tabs@[k]).panes@, id);
        assert(before.tabs@[ks[k]].wf());
        lemma_tab_reaped(after.tabs@[k], before.tabs@[ks[k]]);
        assert(pane::has_pane(before.tabs@[ks[k]].panes@, id));
    }
    if exists|i: int|
        0 <= i < before.tabs@.len() && pane::has_pane((#[trigger] before.tabs@[i]).panes@, id)
            && !exited_ids(before.tabs@[i].panes@).contains(id) {
        let i = choose|i: int|
            0 <= i < before.tabs@.len() && pane::has_pane((#[trigger] before.tabs@[i]).panes@, id)
                && !exited_ids(before.tabs@[i].panes@).contains(id);
        let t = before.tabs@[i];
        assert(t.wf());
        lemma_exited_ids(t.panes@);
        lemma_reaped(t.panes@, exited_ids(t.panes@));
        assert(pane::has_pane(reaped(t.panes@, exited_ids(t.panes@)), id));
        assert(!is_gone(t));
        lemma_kept_covers(before.tabs@, n, i);
        let k = choose|k: int| 0 <= k < ks.len() && #[trigger] ks[k] == i;
        lemma_tab_reaped(after.tabs@[k], t);
        assert(pane::has_pane(after.tabs@[k].panes@, id));
    }
}

proof fn lemma_kept_covers(tabs: Seq<Tab>, n: int, i: int)
    requires
        0 <= i < n <= tabs.len(),
        !is_gone(tabs[i]),
    ensures
        exists|k: int| 0 <= k < kept(tabs, n).len() && #[trigger] kept(tabs, n)[k] == i,
    decreases n,
{
    if i == n - 1 {
        assert(kept(tabs, n)[kept(tabs, n - 1).len() as int] == i);
    } else {
        lemma_kept_covers(tabs, n - 1, i);
        let k = choose|k: int|
            0 <= k < kept(tabs, n - 1).len() && #[trigger] kept(tabs, n - 1)[k] == i;
        assert(kept(tabs, n)[k] == i);
    }
}

impl KovaView {
    /// Ask for the changes of a tab's width.
    fn emit_widths(&mut self, id: TabId, widths: Vec<(usize, usize)>)
        ensures
            final(self).effects@ == old(self).effects@ + width_effects(id, pairs(widths@)),
            *final(self) == (KovaView { effects: final(self).effects, ..*old(self) }),
    {
        let ghost want = width_effects(id, pairs(widths@));
        assert(self.effects@ =~= old(self).effects@ + want.take(0));
        for i in 0..widths.len()
            invariant
                want == width_effects(id, pairs(widths@)),
                self.effects@ == old(self).effects@ + want.take(i as int),
                *self == (KovaView { effects: self.effects, ..*old(self) }),
        {
            self.emit(Effect::ScaleWidth(id, widths[i].0, widths[i].1));
            assert(self.effects@ =~= old(self).effects@ + want.take(i + 1));
        }
        assert(want.take(want.len() as int) =~= want);
    }

    /// Take the exited panes of every tab out, and the tabs left without one.
    /// Returns whether a tab is left.
    pub fn reap_exited(&mut self) -> (alive: bool)
        requires
            view::tabs_ok(old(self).tabs@),
        ensures
            is_reaped(*final(self), *old(self)),
            alive == (final(self).tabs@.len() > 0),
            view::tabs_ok(final(self).tabs@),
            old(self).wf() ==> final(self).wf(),
            old(self).tabs@.len() == 0 ==> *final(self) == *old(self),
    {
        let ghost all = self.tabs@;
        let mut i: usize = 0;
        let mut any = false;
        let mut seen: usize = 0;
        let total: usize = self.tabs.len();
        if total == 0 {
            assert(self.effects@ =~= old(self).effects@ + reap_effects(all, 0));
            return false;
        }
        assert(self.effects@ =~= old(self).effects@ + reap_effects(all, 0));
        while seen < total
            invariant
                all == old(self).tabs@,
                total == all.len(),
                view::tabs_ok(all),
                seen <= total,
                i == kept(all, seen as int).len(),
                self.tabs@.len() == i + (total - seen),
                forall|k: int|
                    0 <= k < i ==> is_tab_reaped(
                        #[trigger] self.tabs@[k],
                        all[kept(all, seen as int)[k]],
                    ),
                forall|k: int|
                    i <= k < self.tabs@.len() ==> #[trigger] self.tabs@[k] == all[k - i + seen],
                any == exists|k: int| 0 <= k < seen && exited_ids((#[trigger] all[k]).panes@).len()
                    > 0,
                self.effects@ == old(self).effects@ + reap_effects(all, seen as int),
                *self == (KovaView { tabs: self.tabs, effects: self.effects, ..*old(self) }),
            decreases total - seen,
        {
            let ghost before = self.tabs@;
            let ghost t = all[seen as int];
            let ghost ks = kept(all, seen as int);
            proof {
                lemma_kept(all, seen as int);
            }
            assert(self.tabs@[i as int] == t);
            assert(t.wf());
            let id: TabId = self.tabs[i].id;
            let exited = find_exited(&self.tabs[i].panes);
            if exited.len() > 0 {
                any = true;
                assert(exited_ids(all[seen as int].panes@).len() > 0);
            }
            let widths = self.tabs[i].reap();
            match widths {
                Some(w) => {
                    self.emit_widths(id, w);
                    proof {
                        assert(self.tabs@[i as int] == self.tabs@[i as int]);
                        assert(kept(all, seen + 1) == ks.push(seen as int));
                        assert(self.effects@ =~= old(self).effects@ + reap_effects(all, seen + 1));
                        assert forall|k: int| 0 <= k < i + 1 implies is_tab_reaped(
                            #[trigger] self.tabs@[k],
                            all[kept(all, seen + 1)[k]],
                        ) by {
                            if k < i {
                                assert(self.tabs@[k] == before[k]);
                                assert(kept(all, seen + 1)[k] == ks[k]);
                            }
                        }
                        assert forall|k: int| i + 1 <= k < self.tabs@.len() implies #[trigger] self.tabs@[k]
                            == all[k - (i + 1) + (seen + 1)] by {
                            assert(self.tabs@[k] == before[k]);
                        }
                    }
                    i = i + 1;
                },
                None => {
                    let ghost mid = self.tabs@;
                    self.tabs.remove(i);
                    proof {
                        assert(kept(all, seen + 1) == ks);
                        assert forall|k: int| 0 <= k < i implies is_tab_reaped(
                            #[trigger] self.tabs@[k],
                            all[kept(all, seen + 1)[k]],
                        ) by {
                            assert(self.tabs@[k] == mid[k]);
                            assert(mid[k] == before[k]);
                        }
                        assert forall|k: int| i <= k < self.tabs@.len() implies #[trigger] self.tabs@[k]
                            == all[k - i + (seen + 1)] by {
                            assert(self.tabs@[k] == mid[k + 1]);
                            assert(mid[k + 1] == before[k + 1]);
                        }
                    }
                },
            }
            seen = seen + 1;
        }
        proof {
            lemma_tabs_reaped(self.tabs@, all);
        }
        if any {
            let n: usize = self.tabs.len();
            if n == 0 {
                return false;
            }
            if self.active_tab >= n {
                self.active_tab = n - 1;
            }
        } else {
            proof {
                lemma_none_gone(all, all.len() as int);
            }
        }
        self.tabs.len() > 0
    }
}

proof fn lemma_none_gone(tabs: Seq<Tab>, n: int)
    requires
        0 <= n <= tabs.len(),
        view::tabs_ok(tabs),
        forall|k: int| 0 <= k < n ==> exited_ids((#[trigger] tabs[k]).panes@).len() == 0,
    ensures
        kept(tabs, n).len() == n,
    decreases n,
{
    if n > 0 {
        assert(tabs[n - 1].wf());
        lemma_none_gone(tabs, n - 1);
    }
}

} // verus!
