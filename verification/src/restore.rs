//! Restoring the tabs of the last session little by little, and saving them
//! again.
use crate::pane::{Pane, Tab, TabId};
use crate::sidebar::SidebarSort;
use crate::tabs;
use crate::view;
use crate::view::{DeferredTab, Effect, FrameState, KovaView, RestoreState, SavedTab};
use std::collections::HashMap;
use vstd::prelude::*;

verus! {

/// Shells that may start at the same time.
pub const MAX_CONCURRENT_SHELLS: u32 = 4;

/// The saved form of a window.
#[derive(Debug, PartialEq)]
pub struct WindowSession {
    pub tabs: Vec<SavedTab>,
    pub active_tab: usize,
    pub sidebar_sort: SidebarSort,
}

// ---------------------------------------------------------------
// Counting
// ---------------------------------------------------------------

/// The panes of a tab whose shell is starting.
pub open spec fn starting_in(panes: Seq<Pane>) -> nat
    decreases panes.len(),
{
    if panes.len() == 0 {
        0
    } else {
        let p = panes.last();
        starting_in(panes.drop_last()) + if !p.term.ready && p.term.live {
            1nat
        } else {
            0
        }
    }
}

/// The panes of a tab whose shell has started.
pub open spec fn ready_in(panes: Seq<Pane>) -> nat
    decreases panes.len(),
{
    if panes.len() == 0 {
        0
    } else {
        let p = panes.last();
        ready_in(panes.drop_last()) + if p.term.ready && p.term.live {
            1nat
        } else {
            0
        }
    }
}

/// The panes with a shell, started or not.
pub open spec fn live_in(panes: Seq<Pane>) -> nat {
    starting_in(panes) + ready_in(panes)
}

/// The shells that are starting.
pub open spec fn starting(tabs: Seq<Tab>) -> nat
    decreases tabs.len(),
{
    if tabs.len() == 0 {
        0
    } else {
        starting(tabs.drop_last()) + starting_in(tabs.last().panes@)
    }
}

/// The shells that have started.
pub open spec fn ready(tabs: Seq<Tab>) -> nat
    decreases tabs.len(),
{
    if tabs.len() == 0 {
        0
    } else {
        ready(tabs.drop_last()) + ready_in(tabs.last().panes@)
    }
}

/// Every shell of the window.
pub open spec fn live(tabs: Seq<Tab>) -> nat {
    starting(tabs) + ready(tabs)
}

proof fn lemma_counts_grow(tabs: Seq<Tab>, n: int)
    requires
        0 <= n <= tabs.len(),
    ensures
        starting(tabs.take(n)) <= starting(tabs),
        ready(tabs.take(n)) <= ready(tabs),
    decreases tabs.len() - n,
{
    if n < tabs.len() {
        lemma_counts_grow(tabs, n + 1);
        assert(tabs.take(n + 1).drop_last() =~= tabs.take(n));
    } else {
        assert(tabs.take(n) =~= tabs);
    }
}

proof fn lemma_counts_in_grow(panes: Seq<Pane>, n: int)
    requires
        0 <= n <= panes.len(),
    ensures
        starting_in(panes.take(n)) <= starting_in(panes),
        ready_in(panes.take(n)) <= ready_in(panes),
    decreases panes.len() - n,
{
    if n < panes.len() {
        lemma_counts_in_grow(panes, n + 1);
        assert(panes.take(n + 1).drop_last() =~= panes.take(n));
    } else {
        assert(panes.take(n) =~= panes);
    }
}

fn count_in(panes: &Vec<Pane>) -> (r: (u32, u32))
    requires
        live_in(panes@) <= u32::MAX,
    ensures
        r.0 == starting_in(panes@),
        r.1 == ready_in(panes@),
{
    let mut s: u32 = 0;
    let mut r: u32 = 0;
    assert(panes@.take(0) =~= seq![]);
    for i in 0..panes.len()
        invariant
            live_in(panes@) <= u32::MAX,
            s == starting_in(panes@.take(i as int)),
            r == ready_in(panes@.take(i as int)),
    {
        proof {
            assert(panes@.take(i + 1).drop_last() =~= panes@.take(i as int));
            lemma_counts_in_grow(panes@, i + 1);
        }
        let p = &panes[i];
        if p.term.live {
            if p.term.ready {
                r = r + 1;
            } else {
                s = s + 1;
            }
        }
    }
    assert(panes@.take(panes@.len() as int) =~= panes@);
    (s, r)
}

impl KovaView {
    /// The shells that are starting, and those that have started.
    pub fn count_shells(&self) -> (r: (u32, u32))
        requires
            live(self.tabs@) <= u32::MAX,
        ensures
            r.0 == starting(self.tabs@),
            r.1 == ready(self.tabs@),
    {
        let mut s: u32 = 0;
        let mut r: u32 = 0;
        assert(self.tabs@.take(0) =~= seq![]);
        for i in 0..self.tabs.len()
            invariant
                live(self.tabs@) <= u32::MAX,
                s == starting(self.tabs@.take(i as int)),
                r == ready(self.tabs@.take(i as int)),
        {
            proof {
                assert(self.tabs@.take(i + 1).drop_last() =~= self.tabs@.take(i as int));
                lemma_counts_grow(self.tabs@, i + 1);
            }
            let c = count_in(&self.tabs[i].panes);
            s = s + c.0;
            r = r + c.1;
        }
        assert(self.tabs@.take(self.tabs@.len() as int) =~= self.tabs@);
        (s, r)
    }

    /// The loading counter: the shells that have started and how many there
    /// will be, until all have and nothing waits.
    pub fn loading_progress(&mut self) -> (progress: Option<(u32, u32)>)
        requires
            live(old(self).tabs@) <= u32::MAX,
        ensures
            ({
                let total = old(self).restore.loading_total_panes;
                let more = ready(old(self).tabs@) < total || old(self).restore.deferred_tabs@.len()
                    > 0;
                if total > 0 && more {
                    progress == Some((ready(old(self).tabs@) as u32, total)) && *final(self)
                        == *old(self)
                } else {
                    progress is None && *final(self) == (KovaView {
                        restore: RestoreState { loading_total_panes: 0, ..old(self).restore },
                        ..*old(self)
                    })
                }
            }),
    {
        let total: u32 = self.restore.loading_total_panes;
        if total == 0 {
            return None;
        }
        let counts = self.count_shells();
        if counts.1 < total || self.restore.deferred_tabs.len() > 0 {
            Some((counts.1, total))
        } else {
            self.restore.loading_total_panes = 0;
            None
        }
    }
}

// ---------------------------------------------------------------
// Deferring
// ---------------------------------------------------------------

/// The tabs to restore later, by the id of the placeholder at each index;
/// those without a placeholder are left out.
pub open spec fn by_id(tabs: Seq<Tab>, deferred: Seq<(usize, SavedTab)>) -> Seq<DeferredTab>
    decreases deferred.len(),
{
    if deferred.len() == 0 {
        seq![]
    } else {
        let (at, saved) = deferred.last();
        let before = by_id(tabs, deferred.drop_last());
        if at < tabs.len() {
            before.push(DeferredTab { tab_id: tabs[at as int].id, saved })
        } else {
            before
        }
    }
}

/// The panes the saved tabs hold.
pub open spec fn saved_panes(deferred: Seq<DeferredTab>) -> nat
    decreases deferred.len(),
{
    if deferred.len() == 0 {
        0
    } else {
        saved_panes(deferred.drop_last()) + deferred.last().saved.panes as nat
    }
}

/// The backups with those of the tabs to restore later.
pub open spec fn backed_up(backup: Map<TabId, SavedTab>, deferred: Seq<DeferredTab>) -> Map<
    TabId,
    SavedTab,
>
    decreases deferred.len(),
{
    if deferred.len() == 0 {
        backup
    } else {
        backed_up(backup, deferred.drop_last()).insert(
            deferred.last().tab_id,
            deferred.last().saved,
        )
    }
}

proof fn lemma_saved_panes_grow(deferred: Seq<DeferredTab>, n: int)
    requires
        0 <= n <= deferred.len(),
    ensures
        saved_panes(deferred.take(n)) <= saved_panes(deferred),
    decreases deferred.len() - n,
{
    if n < deferred.len() {
        lemma_saved_panes_grow(deferred, n + 1);
        assert(deferred.take(n + 1).drop_last() =~= deferred.take(n));
    } else {
        assert(deferred.take(n) =~= deferred);
    }
}

/// Every tab that waits has a backup.
pub open spec fn all_backed_up(deferred: Seq<DeferredTab>, backup: Map<TabId, SavedTab>) -> bool {
    forall|i: int|
        0 <= i < deferred.len() ==> backup.contains_key((#[trigger] deferred[i]).tab_id)
}

/// Deferring a tab backs it up.
pub proof fn deferred_tabs_are_backed_up(backup: Map<TabId, SavedTab>, deferred: Seq<DeferredTab>)
    ensures
        all_backed_up(deferred, backed_up(backup, deferred)),
    decreases deferred.len(),
{
    if deferred.len() > 0 {
        let prev = deferred.drop_last();
        deferred_tabs_are_backed_up(backup, prev);
        assert forall|i: int| 0 <= i < deferred.len() implies backed_up(
            backup,
            deferred,
        ).contains_key((#[trigger] deferred[i]).tab_id) by {
            if i < prev.len() {
                assert(prev[i] == deferred[i]);
            }
        }
    }
}

fn key_by_id(tabs: &Vec<Tab>, deferred: Vec<(usize, SavedTab)>) -> (keyed: Vec<DeferredTab>)
    ensures
        keyed@ == by_id(tabs@, deferred@),
{
    let ghost all = deferred@;
    let mut rest = deferred;
    let mut keyed: Vec<DeferredTab> = Vec::new();
    assert(all.take(0) =~= seq![]);
    while rest.len() > 0
        invariant
            rest@.len() <= all.len(),
            rest@ == all.skip(all.len() - rest@.len()),
            keyed@ == by_id(tabs@, all.take(all.len() - rest@.len())),
        decreases rest@.len(),
    {
        let ghost k = all.len() - rest@.len();
        let (at, saved) = rest.remove(0);
        proof {
            assert(rest@ =~= all.skip(k + 1));
            assert((at, saved) == all[k]);
            assert(all.take(k + 1).drop_last() =~= all.take(k));
        }
        if at < tabs.len() {
            keyed.push(DeferredTab { tab_id: tabs[at].id, saved });
        }
    }
    assert(all.take(all.len() as int) =~= all);
    keyed
}

fn back_up(backup: &mut HashMap<TabId, SavedTab>, deferred: &Vec<DeferredTab>)
    ensures
        final(backup)@ == backed_up(old(backup)@, deferred@),
{
    broadcast use vstd::std_specs::hash::group_hash_axioms;

    assert(deferred@.take(0) =~= seq![]);
    for i in 0..deferred.len()
        invariant
            backup@ == backed_up(old(backup)@, deferred@.take(i as int)),
    {
        broadcast use vstd::std_specs::hash::group_hash_axioms;

        assert(deferred@.take(i + 1).drop_last() =~= deferred@.take(i as int));
        let saved = deferred[i].saved.clone();
        backup.insert(deferred[i].tab_id, saved);
    }
    assert(deferred@.take(deferred@.len() as int) =~= deferred@);
}

fn count_saved(deferred: &Vec<DeferredTab>) -> (n: u32)
    requires
        saved_panes(deferred@) <= u32::MAX,
    ensures
        n == saved_panes(deferred@),
{
    let mut n: u32 = 0;
    assert(deferred@.take(0) =~= seq![]);
    for i in 0..deferred.len()
        invariant
            saved_panes(deferred@) <= u32::MAX,
            n == saved_panes(deferred@.take(i as int)),
    {
        proof {
            assert(deferred@.take(i + 1).drop_last() =~= deferred@.take(i as int));
            lemma_saved_panes_grow(deferred@, i + 1);
        }
        n = n + deferred[i].saved.panes;
    }
    assert(deferred@.take(deferred@.len() as int) =~= deferred@);
    n
}

impl KovaView {
    /// Fill a new window: its tabs, and the counters that follow the frame
    /// rate.
    pub fn setup(&mut self, tabs: Vec<Tab>, active_tab: usize)
        requires
            active_tab < tabs@.len(),
            old(self).frame.fps * 3 <= u32::MAX,
        ensures
            *final(self) == (KovaView {
                tabs,
                active_tab,
                frame: FrameState {
                    git_poll_interval: (old(self).frame.fps * 2) as u32,
                    help_hint_frames: (old(self).frame.fps * 3) as u32,
                    ..old(self).frame
                },
                ..*old(self)
            }),
            view::tabs_ok(tabs@) ==> final(self).wf(),
    {
        self.frame.git_poll_interval = self.frame.fps * 2;
        self.frame.help_hint_frames = self.frame.fps * 3;
        self.tabs = tabs;
        self.active_tab = active_tab;
    }

    /// Leave saved tabs to be restored later: `deferred` names each by the
    /// index of its placeholder. Ids are kept instead, as indices go stale
    /// once the tabs change. Each saved tab is backed up until it is restored.
    pub fn defer_tabs(&mut self, deferred: Vec<(usize, SavedTab)>)
        requires
            live(old(self).tabs@) + saved_panes(by_id(old(self).tabs@, deferred@)) <= u32::MAX,
        ensures
            deferred@.len() == 0 ==> *final(self) == *old(self),
            deferred@.len() > 0 ==> {
                let keyed = by_id(old(self).tabs@, deferred@);
                &&& final(self).restore.deferred_tabs@ == keyed
                &&& final(self).restore.loading_total_panes == live(old(self).tabs@) + saved_panes(
                    keyed,
                )
                &&& final(self).restore.tab_backup@ == backed_up(
                    old(self).restore.tab_backup@,
                    keyed,
                )
                &&& all_backed_up(
                    final(self).restore.deferred_tabs@,
                    final(self).restore.tab_backup@,
                )
                &&& *final(self) == (KovaView { restore: final(self).restore, ..*old(self) })
            },
    {
        if deferred.len() == 0 {
            return;
        }
        let keyed = key_by_id(&self.tabs, deferred);
        let counts = self.count_shells();
        let saved = count_saved(&keyed);
        self.restore.loading_total_panes = counts.0 + counts.1 + saved;
        back_up(&mut self.restore.tab_backup, &keyed);
        self.restore.deferred_tabs = keyed;
        proof {
            deferred_tabs_are_backed_up(
                old(self).restore.tab_backup@,
                self.restore.deferred_tabs@,
            );
        }
    }
}

// ---------------------------------------------------------------
// Restoring
// ---------------------------------------------------------------

/// Fewer panes to wait for.
pub open spec fn less(total: u32, panes: u32) -> u32 {
    if total >= panes {
        (total - panes) as u32
    } else {
        0
    }
}

/// How many of the tabs that wait, from the end, lost their placeholder.
pub open spec fn closed_at_end(tabs: Seq<Tab>, deferred: Seq<DeferredTab>) -> nat
    decreases deferred.len(),
{
    if deferred.len() == 0 || view::tab_with_id(tabs, deferred.last().tab_id) < tabs.len() {
        0
    } else {
        1 + closed_at_end(tabs, deferred.drop_last())
    }
}

/// The backups without those of the last `n` tabs that wait.
pub open spec fn backups_dropped(
    backup: Map<TabId, SavedTab>,
    deferred: Seq<DeferredTab>,
    n: nat,
) -> Map<TabId, SavedTab>
    decreases n,
{
    if n == 0 || deferred.len() == 0 {
        backup
    } else {
        backups_dropped(
            backup.remove(deferred.last().tab_id),
            deferred.drop_last(),
            (n - 1) as nat,
        )
    }
}

/// The panes to wait for without those of the last `n` tabs that wait.
pub open spec fn panes_dropped(total: u32, deferred: Seq<DeferredTab>, n: nat) -> u32
    decreases n,
{
    if n == 0 || deferred.len() == 0 {
        total
    } else {
        panes_dropped(
            less(total, deferred.last().saved.panes),
            deferred.drop_last(),
            (n - 1) as nat,
        )
    }
}

/// `after` is `before` once the next tab to restore has been picked: the tabs
/// whose placeholder was closed are dropped on the way.
pub open spec fn is_next_picked(
    after: KovaView,
    before: KovaView,
    next: Option<DeferredTab>,
) -> bool {
    let d = before.restore.deferred_tabs@;
    let n = closed_at_end(before.tabs@, d);
    let rest = d.take(d.len() - n);
    &&& next == (if rest.len() > 0 {
        Some(rest.last())
    } else {
        None
    })
    &&& after.restore.deferred_tabs@ == (if rest.len() > 0 {
        rest.drop_last()
    } else {
        rest
    })
    &&& after.restore.tab_backup@ == backups_dropped(before.restore.tab_backup@, d, n)
    &&& after.restore.loading_total_panes == panes_dropped(
        before.restore.loading_total_panes,
        d,
        n,
    )
    &&& after == (KovaView { restore: after.restore, ..before })
}

proof fn lemma_closed_at_end(tabs: Seq<Tab>, deferred: Seq<DeferredTab>)
    ensures
        closed_at_end(tabs, deferred) <= deferred.len(),
    decreases deferred.len(),
{
    if deferred.len() > 0 {
        lemma_closed_at_end(tabs, deferred.drop_last());
    }
}

impl KovaView {
    /// The next tab to restore, unless enough shells are starting already:
    /// `loading` counts them. Tabs whose placeholder was closed meanwhile are
    /// dropped.
    pub fn next_deferred(&mut self, loading: u32) -> (next: Option<DeferredTab>)
        ensures
            loading >= MAX_CONCURRENT_SHELLS ==> next is None && *final(self) == *old(self),
            loading < MAX_CONCURRENT_SHELLS ==> is_next_picked(*final(self), *old(self), next),
            next matches Some(d) ==> view::tab_with_id(old(self).tabs@, d.tab_id) < old(
                self,
            ).tabs@.len(),
    {
        broadcast use vstd::std_specs::hash::group_hash_axioms;

        if loading >= MAX_CONCURRENT_SHELLS {
            return None;
        }
        let ghost all = self.restore.deferred_tabs@;
        let ghost n = closed_at_end(self.tabs@, all);
        let ghost mut k: nat = 0;
        proof {
            lemma_closed_at_end(self.tabs@, all);
            assert(all.take(all.len() as int) =~= all);
        }
        while self.restore.deferred_tabs.len() > 0
            invariant
                loading < MAX_CONCURRENT_SHELLS,
                all == old(self).restore.deferred_tabs@,
                n == closed_at_end(old(self).tabs@, all),
                n <= all.len(),
                k <= n,
                self.restore.deferred_tabs@ == all.take(all.len() - k),
                closed_at_end(self.tabs@, self.restore.deferred_tabs@) == n - k,
                backups_dropped(
                    self.restore.tab_backup@,
                    self.restore.deferred_tabs@,
                    (n - k) as nat,
                ) == backups_dropped(old(self).restore.tab_backup@, all, n),
                panes_dropped(
                    self.restore.loading_total_panes,
                    self.restore.deferred_tabs@,
                    (n - k) as nat,
                ) == panes_dropped(old(self).restore.loading_total_panes, all, n),
                *self == (KovaView { restore: self.restore, ..*old(self) }),
            decreases self.restore.deferred_tabs@.len(),
        {
            broadcast use vstd::std_specs::hash::group_hash_axioms;

            let ghost before = self.restore.deferred_tabs@;
            match self.restore.deferred_tabs.pop() {
                Some(d) => {
                    assert(self.restore.deferred_tabs@ =~= before.drop_last());
                    if self.find_tab(d.tab_id) < self.tabs.len() {
                        assert(before =~= all.take(all.len() - n));
                        return Some(d);
                    }
                    self.restore.tab_backup.remove(&d.tab_id);
                    let cur: u32 = self.restore.loading_total_panes;
                    self.restore.loading_total_panes = if cur >= d.saved.panes {
                        cur - d.saved.panes
                    } else {
                        0
                    };
                    proof {
                        k = k + 1;
                        assert(self.restore.deferred_tabs@ =~= all.take(all.len() - k));
                    }
                },
                None => {},
            }
        }
        None
    }

    /// A deferred tab's restore ended; `tab` is what it gave, and `loading`
    /// counts the shells that are starting. The tab takes its placeholder's
    /// place; a failed one leaves it, and its backup, in place. Returns the
    /// count with the tab's shells.
    pub fn finish_deferred(&mut self, d: DeferredTab, tab: Option<Tab>, loading: u32) -> (now: u32)
        requires
            loading + d.saved.panes <= u32::MAX,
        ensures
            ({
                let at = view::tab_with_id(old(self).tabs@, d.tab_id);
                let there = at < old(self).tabs@.len();
                let total = old(self).restore.loading_total_panes;
                match tab {
                    None => now == loading && *final(self) == (KovaView {
                        restore: RestoreState {
                            loading_total_panes: less(total, d.saved.panes),
                            ..old(self).restore
                        },
                        ..*old(self)
                    }),
                    Some(t) => {
                        &&& now == loading + d.saved.panes
                        &&& final(self).tabs@ == (if there {
                            old(self).tabs@.update(at, t)
                        } else {
                            old(self).tabs@
                        })
                        &&& final(self).restore.tab_backup@ == (if there {
                            old(self).restore.tab_backup@.remove(d.tab_id)
                        } else {
                            old(self).restore.tab_backup@
                        })
                        &&& final(self).restore.loading_total_panes == (if there {
                            total
                        } else {
                            less(total, d.saved.panes)
                        })
                        &&& final(self).effects@ == old(self).effects@.push(Effect::ResizePanes)
                        &&& *final(self) == (KovaView {
                            tabs: final(self).tabs,
                            restore: RestoreState {
                                tab_backup: final(self).restore.tab_backup,
                                loading_total_panes: final(self).restore.loading_total_panes,
                                ..old(self).restore
                            },
                            effects: final(self).effects,
                            ..*old(self)
                        })
                    },
                }
            }),
            old(self).wf() && (tab matches Some(t) ==> {
                let at = view::tab_with_id(old(self).tabs@, d.tab_id);
                at < old(self).tabs@.len() ==> tabs::fresh_tab(old(self).tabs@.remove(at), t)
            }) ==> final(self).wf(),
    {
        broadcast use vstd::std_specs::hash::group_hash_axioms;

        let panes: u32 = d.saved.panes;
        let cur: u32 = self.restore.loading_total_panes;
        let fewer: u32 = if cur >= panes {
            cur - panes
        } else {
            0
        };
        match tab {
            None => {
                self.restore.loading_total_panes = fewer;
                loading
            },
            Some(t) => {
                let at = self.find_tab(d.tab_id);
                if at < self.tabs.len() {
                    proof {
                        if self.wf() && tabs::fresh_tab(self.tabs@.remove(at as int), t) {
                            lemma_tab_replaced(self.tabs@, at as int, t);
                        }
                    }
                    self.tabs.set(at, t);
                    self.restore.tab_backup.remove(&d.tab_id);
                } else {
                    self.restore.loading_total_panes = fewer;
                }
                self.emit(Effect::ResizePanes);
                loading + panes
            },
        }
    }
}

proof fn lemma_tab_replaced(all: Seq<Tab>, at: int, t: Tab)
    requires
        view::tabs_ok(all),
        0 <= at < all.len(),
        tabs::fresh_tab(all.remove(at), t),
    ensures
        view::tabs_ok(all.update(at, t)),
{
    tabs::lemma_tabs_remove(all, at);
    tabs::lemma_tabs_insert(all.remove(at), at, t);
    assert(all.update(at, t) =~= all.remove(at).insert(at, t));
}

// ---------------------------------------------------------------
// Saving
// ---------------------------------------------------------------

/// What is saved of the tabs: the backup of a tab that has one, its snapshot
/// else.
pub open spec fn saved_tabs(
    tabs: Seq<Tab>,
    backup: Map<TabId, SavedTab>,
    snapshots: Seq<SavedTab>,
) -> Seq<SavedTab> {
    Seq::new(
        tabs.len(),
        |i: int|
            if backup.contains_key(tabs[i].id) {
                backup[tabs[i].id]
            } else {
                snapshots[i]
            },
    )
}

/// A placeholder is saved as the tab it stands for, however often the session
/// is saved before it is restored.
pub proof fn a_placeholder_saves_what_it_stands_for(
    tabs: Seq<Tab>,
    backup: Map<TabId, SavedTab>,
    snapshots: Seq<SavedTab>,
    i: int,
)
    requires
        0 <= i < tabs.len(),
        backup.contains_key(tabs[i].id),
    ensures
        saved_tabs(tabs, backup, snapshots)[i] == backup[tabs[i].id],
{
}

impl KovaView {
    /// Append the saved form of the window; `snapshots` holds that of each tab
    /// as it is now.
    pub fn append_session_data(&self, snapshots: &Vec<SavedTab>, out: &mut Vec<WindowSession>)
        requires
            snapshots@.len() == self.tabs@.len(),
        ensures
            final(out)@.len() == old(out)@.len() + 1,
            final(out)@.drop_last() == old(out)@,
            final(out)@.last().tabs@ == saved_tabs(
                self.tabs@,
                self.restore.tab_backup@,
                snapshots@,
            ),
            final(out)@.last().active_tab == self.active_tab,
            final(out)@.last().sidebar_sort == self.sidebar.sort,
    {
        broadcast use vstd::std_specs::hash::group_hash_axioms;

        let mut saved: Vec<SavedTab> = Vec::new();
        let ghost want = saved_tabs(self.tabs@, self.restore.tab_backup@, snapshots@);
        for i in 0..self.tabs.len()
            invariant
                snapshots@.len() == self.tabs@.len(),
                want == saved_tabs(self.tabs@, self.restore.tab_backup@, snapshots@),
                saved@ == want.take(i as int),
        {
            broadcast use vstd::std_specs::hash::group_hash_axioms;

            let s = match self.restore.tab_backup.get(&self.tabs[i].id) {
                Some(b) => b.clone(),
                None => snapshots[i].clone(),
            };
            saved.push(s);
            assert(saved@ =~= want.take(i + 1));
        }
        assert(want.take(want.len() as int) =~= want);
        let ghost before = out@;
        out.push(
            WindowSession {
                tabs: saved,
                active_tab: self.active_tab,
                sidebar_sort: self.sidebar.sort,
            },
        );
        assert(out@.drop_last() =~= before);
    }
}

} // verus!
