//! What follows a resize: the sizes handed to the programs, the repaints that
//! clean up what a burst of resizes leaves behind, and the checks that those
//! repaints worked.
use crate::pane;
use crate::pane::{Pane, PaneId, Tab, TabId};
use crate::text;
use crate::view;
use crate::view::{
    Effect, FrameState, KovaView, PaneTimer, ResizeFeedback, ResizeMode, ResizeState, SizeHistory,
};
use std::collections::HashMap;
use vstd::prelude::*;

verus! {

/// Rows a blank band needs to count as a hole in the screen.
pub const BAND_MIN_ROWS: usize = 8;

/// Frames between putting a window size back and checking the screen.
pub const POST_RESTORE_CHECK_FRAMES: u32 = 30;

/// Repaints a hole may force between two real resizes.
pub const MAX_BAND_REPAIRS: u32 = 2;

/// Frames a nudged window size lasts, so that the program sees two sizes.
pub const RESTORE_FRAMES: u32 = 3;

/// Milliseconds a size is remembered.
pub const SIZE_MEMORY_MS: u64 = 500;

/// Sizes remembered of a pane.
pub const MAX_SIZES: usize = 8;

// ---------------------------------------------------------------
// Countdowns
// ---------------------------------------------------------------

/// The keys of a map, each once.
fn keys_of<V>(m: &HashMap<PaneId, V>) -> (keys: Vec<PaneId>)
    ensures
        keys@.no_duplicates(),
        forall|id: PaneId| keys@.contains(id) <==> m@.contains_key(id),
{
    broadcast use vstd::std_specs::hash::group_hash_axioms;

    let mut keys: Vec<PaneId> = Vec::new();
    for k in it: m.keys()
        invariant
            it.seq() == vstd::std_specs::iter::IteratorSpec::remaining(&m.keys()),
            keys@ == it.seq().unref().take(it.index() as int),
    {
        keys.push(*k);
        assert(keys@ =~= it.seq().unref().take(it.index() + 1));
    }
    proof {
        let all = vstd::std_specs::iter::IteratorSpec::remaining(&m.keys());
        assert(keys@ =~= all.unref());
        assert(all.unref().to_set() == m@.dom());
        assert forall|id: PaneId| keys@.contains(id) <==> m@.contains_key(id) by {
            assert(keys@.to_set().contains(id) <==> keys@.contains(id));
        }
        assert forall|i: int, j: int| 0 <= i < keys@.len() && 0 <= j < keys@.len() && i != j
            implies keys@[i] != keys@[j] by {
            assert(all[i] != all[j]);
        }
    }
    keys
}

/// The countdowns one frame on: those that end leave.
pub open spec fn stepped(m: Map<PaneId, u32>) -> Map<PaneId, u32> {
    Map::new(
        |id: PaneId| m.contains_key(id) && m[id] > 1,
        |id: PaneId| (m[id] - 1) as u32,
    )
}

/// The panes whose countdown ends, each once; the order is open.
pub open spec fn is_firing(fire: Seq<PaneId>, m: Map<PaneId, u32>) -> bool {
    &&& fire.no_duplicates()
    &&& forall|id: PaneId| fire.contains(id) <==> m.contains_key(id) && m[id] <= 1
}

/// One frame of the countdowns: count each down and return the panes whose
/// countdown ended. A new resize arms a pane again, so that a burst fires
/// once, after it stops.
pub fn step_resize_settle(map: &mut HashMap<PaneId, u32>) -> (fire: Vec<PaneId>)
    ensures
        final(map)@ == stepped(old(map)@),
        is_firing(fire@, old(map)@),
{
    broadcast use vstd::std_specs::hash::group_hash_axioms;

    let ghost before = map@;
    let keys = keys_of(map);
    let mut fire: Vec<PaneId> = Vec::new();
    assert forall|k: int| 0 <= k < keys@.len() implies before.contains_key(#[trigger] keys@[k]) by {
        assert(keys@.contains(keys@[k]));
    }
    for i in 0..keys.len()
        invariant
            keys@.no_duplicates(),
            forall|id: PaneId| keys@.contains(id) <==> before.contains_key(id),
            forall|k: int| i <= k < keys@.len() ==> map@.contains_key(#[trigger] keys@[k])
                && map@[keys@[k]] == before[keys@[k]],
            forall|k: int|
                0 <= k < i ==> (map@.contains_key(#[trigger] keys@[k]) <==> before[keys@[k]] > 1),
            forall|k: int|
                0 <= k < i && before[#[trigger] keys@[k]] > 1 ==> map@[keys@[k]] == before[keys@[k]]
                    - 1,
            forall|id: PaneId| map@.contains_key(id) ==> before.contains_key(id),
            fire@.no_duplicates(),
            forall|k: int| 0 <= k < i && before[#[trigger] keys@[k]] <= 1 ==> fire@.contains(keys@[k]),
            forall|j: int|
                0 <= j < fire@.len() ==> before.contains_key(#[trigger] fire@[j])
                    && before[fire@[j]] <= 1 && keys@.take(i as int).contains(fire@[j]),
    {
        broadcast use vstd::std_specs::hash::group_hash_axioms;

        let id: PaneId = keys[i];
        assert(keys@.contains(id));
        let ghost fired = fire@;
        let frames: u32 = match map.get(&id) {
            Some(f) => *f,
            None => 0,
        };
        assert(keys@.take(i + 1) =~= keys@.take(i as int).push(id));
        assert forall|x: PaneId| keys@.take(i as int).contains(x) implies keys@.take(
            i + 1,
        ).contains(x) by {
            let w = keys@.take(i as int).index_of(x);
            assert(keys@.take(i + 1)[w] == x);
        }
        assert(!keys@.take(i as int).contains(id));
        if frames <= 1 {
            map.remove(&id);
            fire.push(id);
            proof {
                assert(keys@.take(i + 1)[i as int] == id);
                assert(keys@.take(i + 1).contains(id));
                assert(fire@[fired.len() as int] == id);
                assert forall|k: int| 0 <= k < i + 1 && before[#[trigger] keys@[k]] <= 1 implies fire@.contains(
                    keys@[k],
                ) by {
                    if k < i {
                        let w = fired.index_of(keys@[k]);
                        assert(fire@[w] == keys@[k]);
                    }
                }
            }
        } else {
            map.insert(id, frames - 1);
        }
    }
    proof {
        assert(keys@.take(keys@.len() as int) =~= keys@);
        assert forall|id: PaneId| map@.contains_key(id) <==> stepped(before).contains_key(id) by {
            if before.contains_key(id) {
                let w = keys@.index_of(id);
                assert(keys@[w] == id);
            }
        }
        assert forall|id: PaneId| stepped(before).contains_key(id) implies map@[id] == stepped(
            before,
        )[id] by {
            let w = keys@.index_of(id);
            assert(keys@[w] == id);
        }
        assert(map@ =~= stepped(before));
        assert forall|id: PaneId| fire@.contains(id) <==> before.contains_key(id) && before[id]
            <= 1 by {
            if before.contains_key(id) && before[id] <= 1 {
                let w = keys@.index_of(id);
                assert(keys@[w] == id);
            }
            if fire@.contains(id) {
                let w = fire@.index_of(id);
                assert(fire@[w] == id);
            }
        }
    }
    fire
}

/// The countdowns `k` frames on.
pub open spec fn stepped_by(m: Map<PaneId, u32>, k: nat) -> Map<PaneId, u32>
    decreases k,
{
    if k == 0 {
        m
    } else {
        stepped(stepped_by(m, (k - 1) as nat))
    }
}

/// A countdown of `n` frames runs while fewer than `n` have passed, fires on
/// the frame that makes `n`, and is gone from then on: it fires once. Arming
/// the pane again starts over from the new count.
pub proof fn a_burst_fires_once_after_it_ends(m: Map<PaneId, u32>, id: PaneId, n: u32, k: nat)
    requires
        n >= 1,
    ensures
        k < n ==> stepped_by(m.insert(id, n), k).contains_key(id) && stepped_by(
            m.insert(id, n),
            k,
        )[id] == n - k,
        k >= n ==> !stepped_by(m.insert(id, n), k).contains_key(id),
        (stepped_by(m.insert(id, n), k).contains_key(id) && stepped_by(m.insert(id, n), k)[id] <= 1)
            <==> k == n - 1,
    decreases k,
{
    if k > 0 {
        a_burst_fires_once_after_it_ends(m, id, n, (k - 1) as nat);
    }
}

/// Countdowns of different panes do not touch each other.
pub proof fn panes_settle_independently(m: Map<PaneId, u32>, id: PaneId, other: PaneId, n: u32)
    requires
        id != other,
    ensures
        stepped(m.insert(id, n)).contains_key(other) == stepped(m).contains_key(other),
        stepped(m).contains_key(other) ==> stepped(m.insert(id, n))[other] == stepped(m)[other],
{
}

// ---------------------------------------------------------------
// Nudges
// ---------------------------------------------------------------

/// A window size one row off, so that setting it is seen.
pub open spec fn nudged(rows: u16) -> u16 {
    if rows > 1 {
        (rows - 1) as u16
    } else {
        (rows + 1) as u16
    }
}

/// A nudge always changes the size.
pub proof fn a_nudge_is_seen(rows: u16)
    ensures
        nudged(rows) != rows,
        nudged(rows) >= 1,
{
}

fn nudge(rows: u16) -> (r: u16)
    ensures
        r == nudged(rows),
{
    if rows > 1 {
        rows - 1
    } else {
        rows + 1
    }
}

/// The timers without those of the pane.
pub open spec fn timers_without(timers: Seq<PaneTimer>, id: PaneId) -> Seq<PaneTimer>
    decreases timers.len(),
{
    if timers.len() == 0 {
        seq![]
    } else if timers.last().pane_id == id {
        timers_without(timers.drop_last(), id)
    } else {
        timers_without(timers.drop_last(), id).push(timers.last())
    }
}

/// The timers with the one of the pane started over.
pub open spec fn timer_armed(timers: Seq<PaneTimer>, id: PaneId, frames: u32) -> Seq<PaneTimer> {
    timers_without(timers, id).push(PaneTimer { pane_id: id, remaining_frames: frames })
}

/// One timer per pane: arming one again drops nobody else's.
pub proof fn arming_keeps_the_other_timers(timers: Seq<PaneTimer>, id: PaneId, frames: u32, i: int)
    requires
        0 <= i < timers.len(),
        timers[i].pane_id != id,
    ensures
        timer_armed(timers, id, frames).contains(timers[i]),
{
    lemma_timers_without(timers, id, i);
    let rest = timers_without(timers, id);
    let w = rest.index_of(timers[i]);
    assert(timer_armed(timers, id, frames)[w] == timers[i]);
}

proof fn lemma_timers_without(timers: Seq<PaneTimer>, id: PaneId, i: int)
    requires
        0 <= i < timers.len(),
        timers[i].pane_id != id,
    ensures
        timers_without(timers, id).contains(timers[i]),
    decreases timers.len(),
{
    let prev = timers.drop_last();
    if i < prev.len() {
        lemma_timers_without(prev, id, i);
        assert(prev[i] == timers[i]);
        let rest = timers_without(prev, id);
        let w = rest.index_of(timers[i]);
        if timers.last().pane_id != id {
            assert(rest.push(timers.last())[w] == timers[i]);
        }
    } else {
        let rest = timers_without(prev, id);
        assert(rest.push(timers.last())[rest.len() as int] == timers[i]);
    }
}

/// Start the timer of a pane over.
pub fn arm_timer(timers: &mut Vec<PaneTimer>, pane_id: PaneId, frames: u32)
    ensures
        final(timers)@ == timer_armed(old(timers)@, pane_id, frames),
{
    let ghost before = timers@;
    let mut kept: Vec<PaneTimer> = Vec::new();
    assert(before.take(0) =~= seq![]);
    for i in 0..timers.len()
        invariant
            before == timers@,
            kept@ == timers_without(before.take(i as int), pane_id),
    {
        assert(before.take(i + 1).drop_last() =~= before.take(i as int));
        if timers[i].pane_id != pane_id {
            kept.push(timers[i]);
        }
    }
    assert(before.take(before.len() as int) =~= before);
    kept.push(PaneTimer { pane_id, remaining_frames: frames });
    *timers = kept;
}

/// What nudging a pane asks for.
pub open spec fn nudge_effects(p: Pane) -> Seq<Effect> {
    seq![Effect::SoftReset(p.id), Effect::PtyResize(p.id, p.term.cols, nudged(p.term.rows))]
}

/// `after` is `before` with the pane nudged.
pub open spec fn is_nudged(after: KovaView, before: KovaView, p: Pane) -> bool {
    &&& after.resizes.pty_restore@ == timer_armed(
        before.resizes.pty_restore@,
        p.id,
        RESTORE_FRAMES,
    )
    &&& after.effects@ == before.effects@ + nudge_effects(p)
    &&& after == (KovaView {
        resizes: ResizeState { pty_restore: after.resizes.pty_restore, ..before.resizes },
        effects: after.effects,
        ..before
    })
}

/// The settle repaint reaches the pane: it is here, shown, and did not repaint
/// by itself.
pub open spec fn settles(tabs: Seq<Tab>, id: PaneId, repainted: bool) -> bool {
    view::some_tab_has(tabs, id) && !pane_of(tabs, id).minimized && !repainted
}

/// The pane with the id.
pub open spec fn pane_of(tabs: Seq<Tab>, id: PaneId) -> Pane {
    let t = tabs[view::tab_of(tabs, id)];
    t.panes@[pane::pos(t.panes@, id)]
}

/// What forcing a repaint of the focused pane does.
pub open spec fn is_repaint_done(
    after: KovaView,
    before: KovaView,
) -> bool {
    match before.focused() {
        Some(p) if !p.minimized => {
            &&& after.resizes.pty_restore@ == timer_armed(
                before.resizes.pty_restore@,
                p.id,
                RESTORE_FRAMES,
            )
            &&& after.effects@ == before.effects@ + nudge_effects(p) + seq![
                Effect::MarkDirty,
            ]
            &&& after == (KovaView {
                resizes: ResizeState {
                    pty_restore: after.resizes.pty_restore,
                    ..before.resizes
                },
                frame: FrameState {
                    pane_flash: Some(
                        view::PaneFlash {
                            pane_id: p.id,
                            remaining_frames: 20,
                            label: None,
                        },
                    ),
                    ..before.frame
                },
                effects: after.effects,
                ..before
            })
        },
        _ => after == before,
    }
}

impl KovaView {
    fn nudge_pane(&mut self, pane_id: PaneId, cols: u16, rows: u16)
        ensures
            final(self).resizes.pty_restore@ == timer_armed(
                old(self).resizes.pty_restore@,
                pane_id,
                RESTORE_FRAMES,
            ),
            final(self).effects@ == old(self).effects@ + seq![
                Effect::SoftReset(pane_id),
                Effect::PtyResize(pane_id, cols, nudged(rows)),
            ],
            *final(self) == (KovaView {
                resizes: ResizeState {
                    pty_restore: final(self).resizes.pty_restore,
                    ..old(self).resizes
                },
                effects: final(self).effects,
                ..*old(self)
            }),
    {
        self.emit(Effect::SoftReset(pane_id));
        self.emit(Effect::PtyResize(pane_id, cols, nudge(rows)));
        arm_timer(&mut self.resizes.pty_restore, pane_id, RESTORE_FRAMES);
        assert(self.effects@ =~= old(self).effects@ + seq![
            Effect::SoftReset(pane_id),
            Effect::PtyResize(pane_id, cols, nudged(rows)),
        ]);
    }

    /// Repaint a pane once a burst of resizes has settled; `repainted` says
    /// that the program repainted most rows since and left no hole.
    pub fn repaint_pane_settle(&mut self, pane_id: PaneId, repainted: bool)
        ensures
            if settles(old(self).tabs@, pane_id, repainted) {
                is_nudged(*final(self), *old(self), pane_of(old(self).tabs@, pane_id))
            } else {
                *final(self) == *old(self)
            },
    {
        proof {
            view::lemma_tab_of(self.tabs@, pane_id);
        }
        let ti = self.find_tab_of(pane_id);
        if ti >= self.tabs.len() {
            return;
        }
        let at = self.tabs[ti].find(pane_id);
        proof {
            pane::lemma_pos(self.tabs@[ti as int].panes@, pane_id);
            assert(pane_of(self.tabs@, pane_id).id == pane_id);
        }
        if self.tabs[ti].panes[at].minimized || repainted {
            return;
        }
        let cols: u16 = self.tabs[ti].panes[at].term.cols;
        let rows: u16 = self.tabs[ti].panes[at].term.rows;
        self.nudge_pane(pane_id, cols, rows);
    }

    /// Force a repaint of the focused pane, its border pulsing to confirm it.
    pub fn do_repaint_pane(&mut self)
        ensures
            is_repaint_done(*final(self), *old(self)),
    {
        let (id, cols, rows) = match self.focused_pane() {
            Some(p) => {
                if p.minimized {
                    return;
                }
                (p.id, p.term.cols, p.term.rows)
            },
            None => {
                return;
            },
        };
        self.nudge_pane(id, cols, rows);
        self.set_pane_flash(id, 20, None);
        assert(self.effects@ =~= old(self).effects@ + nudge_effects(old(self).focused()->0) + seq![
            Effect::MarkDirty,
        ]);
    }
}

// ---------------------------------------------------------------
// Settle repaints
// ---------------------------------------------------------------

/// What the settle repaints of the panes ask for.
pub open spec fn settle_effects(tabs: Seq<Tab>, fire: Seq<PaneId>, repainted: Seq<PaneId>) -> Seq<
    Effect,
>
    decreases fire.len(),
{
    if fire.len() == 0 {
        seq![]
    } else {
        let id = fire.last();
        let before = settle_effects(tabs, fire.drop_last(), repainted);
        if settles(tabs, id, repainted.contains(id)) {
            before + nudge_effects(pane_of(tabs, id))
        } else {
            before
        }
    }
}

/// The window sizes to put back after the settle repaints of the panes.
pub open spec fn settle_restores(
    restores: Seq<PaneTimer>,
    tabs: Seq<Tab>,
    fire: Seq<PaneId>,
    repainted: Seq<PaneId>,
) -> Seq<PaneTimer>
    decreases fire.len(),
{
    if fire.len() == 0 {
        restores
    } else {
        let id = fire.last();
        let before = settle_restores(restores, tabs, fire.drop_last(), repainted);
        if settles(tabs, id, repainted.contains(id)) {
            timer_armed(before, pane_of(tabs, id).id, RESTORE_FRAMES)
        } else {
            before
        }
    }
}

/// `after` is `before` with the countdowns one frame on and the panes whose
/// countdown ended, in the order `fire`, repainted.
pub open spec fn is_settled(
    after: KovaView,
    before: KovaView,
    fire: Seq<PaneId>,
    repainted: Seq<PaneId>,
) -> bool {
    &&& is_firing(fire, before.resizes.resize_settle@)
    &&& after.resizes.resize_settle@ == stepped(before.resizes.resize_settle@)
    &&& after.resizes.pty_restore@ == settle_restores(
        before.resizes.pty_restore@,
        before.tabs@,
        fire,
        repainted,
    )
    &&& after.effects@ == before.effects@ + settle_effects(before.tabs@, fire, repainted)
    &&& after == (KovaView {
        resizes: ResizeState {
            resize_settle: after.resizes.resize_settle,
            pty_restore: after.resizes.pty_restore,
            ..before.resizes
        },
        effects: after.effects,
        ..before
    })
}

impl KovaView {
    /// One frame of the countdowns: the panes whose countdown ended are
    /// repainted, unless they are among those that repainted by themselves.
    pub fn fire_resize_settle_repaints(&mut self, repainted: &Vec<PaneId>)
        ensures
            exists|fire: Seq<PaneId>| is_settled(*final(self), *old(self), fire, repainted@),
    {
        let fire = step_resize_settle(&mut self.resizes.resize_settle);
        let ghost mid = *self;
        assert(fire@.take(0) =~= seq![]);
        assert(self.effects@ =~= mid.effects@ + settle_effects(mid.tabs@, seq![], repainted@));
        for i in 0..fire.len()
            invariant
                self.resizes.pty_restore@ == settle_restores(
                    mid.resizes.pty_restore@,
                    mid.tabs@,
                    fire@.take(i as int),
                    repainted@,
                ),
                self.effects@ == mid.effects@ + settle_effects(
                    mid.tabs@,
                    fire@.take(i as int),
                    repainted@,
                ),
                *self == (KovaView {
                    resizes: ResizeState { pty_restore: self.resizes.pty_restore, ..mid.resizes },
                    effects: self.effects,
                    ..mid
                }),
        {
            let ghost before = self.effects@;
            let id: PaneId = fire[i];
            assert(fire@.take(i + 1).drop_last() =~= fire@.take(i as int));
            assert(fire@.take(i + 1).last() == id);
            self.repaint_pane_settle(id, pane::lists_id(repainted, id));
            assert(self.effects@ =~= mid.effects@ + settle_effects(
                mid.tabs@,
                fire@.take(i + 1),
                repainted@,
            ));
        }
        assert(fire@.take(fire@.len() as int) =~= fire@);
        assert(is_settled(*self, *old(self), fire@, repainted@));
    }
}

// ---------------------------------------------------------------
// Checks after a window size was put back
// ---------------------------------------------------------------

/// Frames left after one more.
pub open spec fn one_less(frames: u32) -> u32 {
    if frames > 0 {
        (frames - 1) as u32
    } else {
        0
    }
}

/// The timers still running one frame on.
pub open spec fn running(timers: Seq<PaneTimer>) -> Seq<PaneTimer>
    decreases timers.len(),
{
    if timers.len() == 0 {
        seq![]
    } else {
        let t = timers.last();
        let before = running(timers.drop_last());
        if one_less(t.remaining_frames) > 0 {
            before.push(
                PaneTimer { pane_id: t.pane_id, remaining_frames: one_less(t.remaining_frames) },
            )
        } else {
            before
        }
    }
}

/// The panes whose timer ends one frame on, in order.
pub open spec fn due(timers: Seq<PaneTimer>) -> Seq<PaneId>
    decreases timers.len(),
{
    if timers.len() == 0 {
        seq![]
    } else {
        let t = timers.last();
        let before = due(timers.drop_last());
        if one_less(t.remaining_frames) == 0 {
            before.push(t.pane_id)
        } else {
            before
        }
    }
}

/// One frame of the timers: return the panes whose timer ended.
pub fn step_timers(timers: &mut Vec<PaneTimer>) -> (ended: Vec<PaneId>)
    ensures
        final(timers)@ == running(old(timers)@),
        ended@ == due(old(timers)@),
{
    let ghost before = timers@;
    let mut kept: Vec<PaneTimer> = Vec::new();
    let mut ended: Vec<PaneId> = Vec::new();
    assert(before.take(0) =~= seq![]);
    for i in 0..timers.len()
        invariant
            before == timers@,
            kept@ == running(before.take(i as int)),
            ended@ == due(before.take(i as int)),
    {
        assert(before.take(i + 1).drop_last() =~= before.take(i as int));
        let t: PaneTimer = timers[i];
        if t.remaining_frames > 1 {
            kept.push(PaneTimer { pane_id: t.pane_id, remaining_frames: t.remaining_frames - 1 });
        } else {
            ended.push(t.pane_id);
        }
    }
    assert(before.take(before.len() as int) =~= before);
    *timers = kept;
    ended
}

/// The pane is here and shown, a full-screen program runs in it, and its
/// screen shows a blank band.
pub open spec fn holed(tabs: Seq<Tab>, id: PaneId, bands: Seq<PaneId>) -> bool {
    view::some_tab_has(tabs, id) && !pane_of(tabs, id).minimized && pane_of(
        tabs,
        id,
    ).term.in_alt_screen && bands.contains(id)
}

/// The repaints forced on the pane so far.
pub open spec fn repairs(attempts: Map<PaneId, u32>, id: PaneId) -> u32 {
    if attempts.contains_key(id) {
        attempts[id]
    } else {
        0
    }
}

/// The repaints counted once the panes have been checked: one more for a pane
/// with a hole, none for a clean one.
pub open spec fn counted(
    attempts: Map<PaneId, u32>,
    tabs: Seq<Tab>,
    bands: Seq<PaneId>,
    ids: Seq<PaneId>,
) -> Map<PaneId, u32>
    decreases ids.len(),
{
    if ids.len() == 0 {
        attempts
    } else {
        let id = ids.last();
        let m = counted(attempts, tabs, bands, ids.drop_last());
        if !holed(tabs, id, bands) {
            m.remove(id)
        } else if repairs(m, id) < MAX_BAND_REPAIRS {
            m.insert(id, (repairs(m, id) + 1) as u32)
        } else {
            m
        }
    }
}

/// The check of `id`, the panes of `ids` having been checked, forces a
/// repaint.
pub open spec fn repairs_now(
    attempts: Map<PaneId, u32>,
    tabs: Seq<Tab>,
    bands: Seq<PaneId>,
    ids: Seq<PaneId>,
    id: PaneId,
) -> bool {
    holed(tabs, id, bands) && repairs(counted(attempts, tabs, bands, ids), id) < MAX_BAND_REPAIRS
}

/// What the checks of the panes ask for.
pub open spec fn check_effects(
    attempts: Map<PaneId, u32>,
    tabs: Seq<Tab>,
    bands: Seq<PaneId>,
    ids: Seq<PaneId>,
) -> Seq<Effect>
    decreases ids.len(),
{
    if ids.len() == 0 {
        seq![]
    } else {
        let prev = ids.drop_last();
        let before = check_effects(attempts, tabs, bands, prev);
        if repairs_now(attempts, tabs, bands, prev, ids.last()) {
            before + nudge_effects(pane_of(tabs, ids.last()))
        } else {
            before
        }
    }
}

/// The window sizes to put back after the checks of the panes.
pub open spec fn check_restores(
    restores: Seq<PaneTimer>,
    attempts: Map<PaneId, u32>,
    tabs: Seq<Tab>,
    bands: Seq<PaneId>,
    ids: Seq<PaneId>,
) -> Seq<PaneTimer>
    decreases ids.len(),
{
    if ids.len() == 0 {
        restores
    } else {
        let prev = ids.drop_last();
        let before = check_restores(restores, attempts, tabs, bands, prev);
        if repairs_now(attempts, tabs, bands, prev, ids.last()) {
            timer_armed(before, pane_of(tabs, ids.last()).id, RESTORE_FRAMES)
        } else {
            before
        }
    }
}

/// No pane has had more repaints than a hole may force.
pub open spec fn repairs_bounded(attempts: Map<PaneId, u32>) -> bool {
    forall|id: PaneId| attempts.contains_key(id) ==> #[trigger] attempts[id] <= MAX_BAND_REPAIRS
}

/// However often a program answers with a hole, it is repainted no more than
/// the bound between two real resizes.
pub proof fn repairs_stay_bounded(
    attempts: Map<PaneId, u32>,
    tabs: Seq<Tab>,
    bands: Seq<PaneId>,
    ids: Seq<PaneId>,
)
    requires
        repairs_bounded(attempts),
    ensures
        repairs_bounded(counted(attempts, tabs, bands, ids)),
    decreases ids.len(),
{
    if ids.len() > 0 {
        repairs_stay_bounded(attempts, tabs, bands, ids.drop_last());
    }
}

/// `after` is `before` with the checks that were due made.
pub open spec fn is_checked(after: KovaView, before: KovaView, bands: Seq<PaneId>) -> bool {
    let ids = due(before.resizes.post_restore_checks@);
    let attempts = before.resizes.band_repair_attempts@;
    &&& after.resizes.post_restore_checks@ == running(before.resizes.post_restore_checks@)
    &&& after.resizes.band_repair_attempts@ == counted(attempts, before.tabs@, bands, ids)
    &&& after.resizes.pty_restore@ == check_restores(
        before.resizes.pty_restore@,
        attempts,
        before.tabs@,
        bands,
        ids,
    )
    &&& after.effects@ == before.effects@ + check_effects(attempts, before.tabs@, bands, ids)
    &&& after == (KovaView {
        resizes: ResizeState {
            post_restore_checks: after.resizes.post_restore_checks,
            band_repair_attempts: after.resizes.band_repair_attempts,
            pty_restore: after.resizes.pty_restore,
            ..before.resizes
        },
        effects: after.effects,
        ..before
    })
}

impl KovaView {
    /// Whether the pane's screen has a hole a repaint should mend.
    fn is_holed(&self, pane_id: PaneId, bands: &Vec<PaneId>) -> (r: bool)
        ensures
            r == holed(self.tabs@, pane_id, bands@),
    {
        proof {
            view::lemma_tab_of(self.tabs@, pane_id);
        }
        let ti = self.find_tab_of(pane_id);
        if ti >= self.tabs.len() {
            return false;
        }
        let at = self.tabs[ti].find(pane_id);
        proof {
            pane::lemma_pos(self.tabs@[ti as int].panes@, pane_id);
        }
        let p = &self.tabs[ti].panes[at];
        !p.minimized && p.term.in_alt_screen && pane::lists_id(bands, pane_id)
    }

    /// Check one pane's screen.
    fn check_pane(&mut self, pane_id: PaneId, bands: &Vec<PaneId>)
        ensures
            ({
                let m = old(self).resizes.band_repair_attempts@;
                let hole = holed(old(self).tabs@, pane_id, bands@);
                let p = pane_of(old(self).tabs@, pane_id);
                let repair = hole && repairs(m, pane_id) < MAX_BAND_REPAIRS;
                &&& final(self).resizes.band_repair_attempts@ == (if !hole {
                    m.remove(pane_id)
                } else if repair {
                    m.insert(pane_id, (repairs(m, pane_id) + 1) as u32)
                } else {
                    m
                })
                &&& final(self).resizes.pty_restore@ == (if repair {
                    timer_armed(old(self).resizes.pty_restore@, p.id, RESTORE_FRAMES)
                } else {
                    old(self).resizes.pty_restore@
                })
                &&& final(self).effects@ == (if repair {
                    old(self).effects@ + nudge_effects(p)
                } else {
                    old(self).effects@
                })
            }),
            *final(self) == (KovaView {
                resizes: ResizeState {
                    band_repair_attempts: final(self).resizes.band_repair_attempts,
                    pty_restore: final(self).resizes.pty_restore,
                    ..old(self).resizes
                },
                effects: final(self).effects,
                ..*old(self)
            }),
    {
        broadcast use vstd::std_specs::hash::group_hash_axioms;

        if !self.is_holed(pane_id, bands) {
            self.resizes.band_repair_attempts.remove(&pane_id);
            return;
        }
        let n: u32 = match self.resizes.band_repair_attempts.get(&pane_id) {
            Some(n) => *n,
            None => 0,
        };
        if n < MAX_BAND_REPAIRS {
            self.resizes.band_repair_attempts.insert(pane_id, n + 1);
            self.repaint_pane_settle(pane_id, false);
        }
    }

    /// One frame of the checks owed after window sizes were put back. `bands`
    /// lists the panes whose screen shows a blank band of at least
    /// `BAND_MIN_ROWS` rows.
    pub fn fire_post_restore_band_checks(&mut self, bands: &Vec<PaneId>)
        ensures
            is_checked(*final(self), *old(self), bands@),
            repairs_bounded(old(self).resizes.band_repair_attempts@) ==> repairs_bounded(
                final(self).resizes.band_repair_attempts@,
            ),
    {
        let ids = step_timers(&mut self.resizes.post_restore_checks);
        let ghost mid = *self;
        let ghost attempts = mid.resizes.band_repair_attempts@;
        assert(ids@.take(0) =~= seq![]);
        assert(self.effects@ =~= mid.effects@ + check_effects(
            attempts,
            mid.tabs@,
            bands@,
            seq![],
        ));
        for i in 0..ids.len()
            invariant
                attempts == mid.resizes.band_repair_attempts@,
                self.resizes.band_repair_attempts@ == counted(
                    attempts,
                    mid.tabs@,
                    bands@,
                    ids@.take(i as int),
                ),
                self.resizes.pty_restore@ == check_restores(
                    mid.resizes.pty_restore@,
                    attempts,
                    mid.tabs@,
                    bands@,
                    ids@.take(i as int),
                ),
                self.effects@ == mid.effects@ + check_effects(
                    attempts,
                    mid.tabs@,
                    bands@,
                    ids@.take(i as int),
                ),
                *self == (KovaView {
                    resizes: ResizeState {
                        band_repair_attempts: self.resizes.band_repair_attempts,
                        pty_restore: self.resizes.pty_restore,
                        ..mid.resizes
                    },
                    effects: self.effects,
                    ..mid
                }),
        {
            assert(ids@.take(i + 1).drop_last() =~= ids@.take(i as int));
            assert(ids@.take(i + 1).last() == ids@[i as int]);
            self.check_pane(ids[i], bands);
            assert(self.effects@ =~= mid.effects@ + check_effects(
                attempts,
                mid.tabs@,
                bands@,
                ids@.take(i + 1),
            ));
        }
        assert(ids@.take(ids@.len() as int) =~= ids@);
        proof {
            if repairs_bounded(attempts) {
                repairs_stay_bounded(attempts, mid.tabs@, bands@, ids@);
            }
        }
    }
}

// ---------------------------------------------------------------
// Resizing
// ---------------------------------------------------------------

/// A size seen at `t` is still remembered.
pub open spec fn remembered(t: u64, now: u64) -> bool {
    now < t + SIZE_MEMORY_MS
}

/// The sizes of a history that are still remembered.
pub open spec fn fresh_sizes(h: Seq<((u16, u16), u64)>, now: u64) -> Seq<((u16, u16), u64)>
    decreases h.len(),
{
    if h.len() == 0 {
        seq![]
    } else if remembered(h.last().1, now) {
        fresh_sizes(h.drop_last(), now).push(h.last())
    } else {
        fresh_sizes(h.drop_last(), now)
    }
}

/// The history holds the size.
pub open spec fn had_size(h: Seq<((u16, u16), u64)>, size: (u16, u16)) -> bool {
    exists|i: int| 0 <= i < h.len() && (#[trigger] h[i]).0 == size
}

/// The history with one more size, the oldest dropped over the limit.
pub open spec fn with_size(h: Seq<((u16, u16), u64)>, size: (u16, u16), now: u64) -> Seq<
    ((u16, u16), u64),
> {
    let longer = h.push((size, now));
    if longer.len() > MAX_SIZES {
        longer.remove(0)
    } else {
        longer
    }
}

/// What is remembered of a pane.
pub open spec fn history_of(m: Map<PaneId, SizeHistory>, id: PaneId) -> Seq<((u16, u16), u64)> {
    if m.contains_key(id) {
        m[id]@
    } else {
        seq![]
    }
}

/// Back to a size it had a moment ago: the program may take the two changes
/// for none and not repaint.
pub open spec fn is_round_trip(
    m: Map<PaneId, SizeHistory>,
    id: PaneId,
    size: (u16, u16),
    now: u64,
) -> bool {
    had_size(fresh_sizes(history_of(m, id), now), size)
}

/// Frames after the last resize of a burst until the repaint.
pub open spec fn settle_frames(fps: u32) -> u32 {
    if fps / 6 > 4 {
        fps / 6
    } else {
        4
    }
}

/// The pane with a new size.
pub open spec fn sized(p: Pane, cols: u16, rows: u16) -> Pane {
    Pane { term: pane::TermFacts { cols, rows, ..p.term }, ..p }
}

/// `after` is `before` with the pane at `at` of tab `ti` given a new size.
pub open spec fn is_pane_sized(
    after: KovaView,
    before: KovaView,
    ti: int,
    at: int,
    size: (u16, u16),
    now: u64,
) -> bool {
    let p = before.tabs@[ti].panes@[at];
    let trip = is_round_trip(before.resizes.recent_resizes@, p.id, size, now);
    &&& view::pane_replaced(after.tabs@, before.tabs@, ti, at, sized(p, size.0, size.1))
    &&& after.resizes.band_repair_attempts@ == before.resizes.band_repair_attempts@.remove(p.id)
    &&& after.resizes.recent_resizes@.contains_key(p.id)
    &&& after.resizes.recent_resizes@ == before.resizes.recent_resizes@.insert(
        p.id,
        after.resizes.recent_resizes@[p.id],
    )
    &&& after.resizes.recent_resizes@[p.id]@ == (if trip {
        seq![]
    } else {
        with_size(
            fresh_sizes(history_of(before.resizes.recent_resizes@, p.id), now),
            (p.term.cols, p.term.rows),
            now,
        )
    })
    &&& after.resizes.pty_restore@ == (if trip {
        timer_armed(before.resizes.pty_restore@, p.id, RESTORE_FRAMES)
    } else {
        before.resizes.pty_restore@
    })
    &&& after.resizes.resize_settle@ == before.resizes.resize_settle@.insert(
        p.id,
        settle_frames(before.frame.fps),
    )
    &&& after.effects@ == before.effects@ + seq![Effect::PtyResize(p.id, size.0, size.1)] + (
    if trip {
        seq![Effect::PtyResize(p.id, size.0, nudged(size.1))]
    } else {
        seq![]
    })
    &&& after == (KovaView {
        tabs: after.tabs,
        resizes: ResizeState {
            band_repair_attempts: after.resizes.band_repair_attempts,
            recent_resizes: after.resizes.recent_resizes,
            pty_restore: after.resizes.pty_restore,
            resize_settle: after.resizes.resize_settle,
            ..before.resizes
        },
        effects: after.effects,
        ..before
    })
}

/// The pane takes a new size: it is shown, and the size differs from its own.
pub open spec fn takes_size(p: Pane, size: (u16, u16)) -> bool {
    !p.minimized && (size.0 != p.term.cols || size.1 != p.term.rows)
}

impl Pane {
    fn resize(&mut self, cols: u16, rows: u16)
        ensures
            *final(self) == sized(*old(self), cols, rows),
    {
        self.term.cols = cols;
        self.term.rows = rows;
    }
}

fn keep_fresh(h: &SizeHistory, now: u64) -> (kept: SizeHistory)
    ensures
        kept@ == fresh_sizes(h@, now),
{
    let mut kept: SizeHistory = Vec::new();
    assert(h@.take(0) =~= seq![]);
    for i in 0..h.len()
        invariant
            kept@ == fresh_sizes(h@.take(i as int), now),
    {
        assert(h@.take(i + 1).drop_last() =~= h@.take(i as int));
        let e: ((u16, u16), u64) = h[i];
        if e.1 > now || now - e.1 < SIZE_MEMORY_MS {
            kept.push(e);
        }
    }
    assert(h@.take(h@.len() as int) =~= h@);
    kept
}

fn holds_size(h: &SizeHistory, cols: u16, rows: u16) -> (r: bool)
    ensures
        r == had_size(h@, (cols, rows)),
{
    for i in 0..h.len()
        invariant
            forall|k: int| 0 <= k < i ==> (#[trigger] h@[k]).0 != (cols, rows),
    {
        let e: ((u16, u16), u64) = h[i];
        if e.0.0 == cols && e.0.1 == rows {
            assert(h@[i as int].0 == (cols, rows));
            return true;
        }
    }
    false
}

/// Remember a size the pane leaves.
fn push_size(h: &mut SizeHistory, cols: u16, rows: u16, now: u64)
    ensures
        final(h)@ == with_size(old(h)@, (cols, rows), now),
{
    h.push(((cols, rows), now));
    if h.len() > MAX_SIZES {
        let oldest = h.remove(0);
    }
}

impl KovaView {
    /// What is still remembered of a pane's sizes.
    fn fresh_history(&self, pane_id: PaneId, now: u64) -> (h: SizeHistory)
        ensures
            h@ == fresh_sizes(history_of(self.resizes.recent_resizes@, pane_id), now),
    {
        broadcast use vstd::std_specs::hash::group_hash_axioms;

        match self.resizes.recent_resizes.get(&pane_id) {
            Some(h) => keep_fresh(h, now),
            None => {
                let none: SizeHistory = Vec::new();
                assert(none@ =~= fresh_sizes(seq![], now));
                none
            },
        }
    }

    /// Note a pane's new size.
    fn set_size(&mut self, ti: usize, at: usize, cols: u16, rows: u16)
        requires
            ti < old(self).tabs@.len(),
            at < old(self).tabs@[ti as int].panes@.len(),
        ensures
            view::pane_replaced(
                final(self).tabs@,
                old(self).tabs@,
                ti as int,
                at as int,
                sized(old(self).tabs@[ti as int].panes@[at as int], cols, rows),
            ),
            view::tabs_ok(old(self).tabs@) ==> view::tabs_ok(final(self).tabs@),
            *final(self) == (KovaView { tabs: final(self).tabs, ..*old(self) }),
    {
        let ghost p = self.tabs@[ti as int].panes@[at as int];
        self.tabs[ti].panes[at].resize(cols, rows);
        proof {
            assert(self.tabs@[ti as int].panes@ =~= old(self).tabs@[ti as int].panes@.update(
                at as int,
                sized(p, cols, rows),
            ));
            if view::tabs_ok(old(self).tabs@) {
                view::lemma_pane_replaced(
                    self.tabs@,
                    old(self).tabs@,
                    ti as int,
                    at as int,
                    sized(p, cols, rows),
                );
            }
        }
    }

    /// Hand a program the new size of its pane: nudge it on a round trip, else
    /// remember the size left behind.
    fn hand_size(&mut self, id: PaneId, left: (u16, u16), size: (u16, u16), now: u64)
        ensures
            ({
                let trip = is_round_trip(old(self).resizes.recent_resizes@, id, size, now);
                &&& final(self).resizes.recent_resizes@.contains_key(id)
                &&& final(self).resizes.recent_resizes@ == old(self).resizes.recent_resizes@.insert(
                    id,
                    final(self).resizes.recent_resizes@[id],
                )
                &&& final(self).resizes.recent_resizes@[id]@ == (if trip {
                    seq![]
                } else {
                    with_size(
                        fresh_sizes(history_of(old(self).resizes.recent_resizes@, id), now),
                        left,
                        now,
                    )
                })
                &&& final(self).resizes.pty_restore@ == (if trip {
                    timer_armed(old(self).resizes.pty_restore@, id, RESTORE_FRAMES)
                } else {
                    old(self).resizes.pty_restore@
                })
                &&& final(self).effects@ == old(self).effects@ + seq![
                    Effect::PtyResize(id, size.0, size.1),
                ] + (if trip {
                    seq![Effect::PtyResize(id, size.0, nudged(size.1))]
                } else {
                    seq![]
                })
            }),
            *final(self) == (KovaView {
                resizes: ResizeState {
                    recent_resizes: final(self).resizes.recent_resizes,
                    pty_restore: final(self).resizes.pty_restore,
                    ..old(self).resizes
                },
                effects: final(self).effects,
                ..*old(self)
            }),
    {
        broadcast use vstd::std_specs::hash::group_hash_axioms;

        self.emit(Effect::PtyResize(id, size.0, size.1));
        let mut history = self.fresh_history(id, now);
        if holds_size(&history, size.0, size.1) {
            history = Vec::new();
            self.emit(Effect::PtyResize(id, size.0, nudge(size.1)));
            arm_timer(&mut self.resizes.pty_restore, id, RESTORE_FRAMES);
        } else {
            push_size(&mut history, left.0, left.1, now);
        }
        self.resizes.recent_resizes.insert(id, history);
        assert(self.effects@ =~= old(self).effects@ + seq![
            Effect::PtyResize(id, size.0, size.1),
        ] + (if is_round_trip(old(self).resizes.recent_resizes@, id, size, now) {
            seq![Effect::PtyResize(id, size.0, nudged(size.1))]
        } else {
            seq![]
        }));
    }

    /// Give a pane a new size.
    fn size_pane(&mut self, ti: usize, at: usize, cols: u16, rows: u16, now: u64)
        requires
            ti < old(self).tabs@.len(),
            at < old(self).tabs@[ti as int].panes@.len(),
        ensures
            is_pane_sized(
                *final(self),
                *old(self),
                ti as int,
                at as int,
                (cols, rows),
                now,
            ),
            view::tabs_ok(old(self).tabs@) ==> view::tabs_ok(final(self).tabs@),
    {
        broadcast use vstd::std_specs::hash::group_hash_axioms;

        let id: PaneId = self.tabs[ti].panes[at].id;
        let left: (u16, u16) = (
            self.tabs[ti].panes[at].term.cols,
            self.tabs[ti].panes[at].term.rows,
        );
        self.set_size(ti, at, cols, rows);
        self.resizes.band_repair_attempts.remove(&id);
        self.hand_size(id, left, (cols, rows), now);
        let settle: u32 = if self.frame.fps / 6 > 4 {
            self.frame.fps / 6
        } else {
            4
        };
        self.resizes.resize_settle.insert(id, settle);
    }
}

/// The histories that still hold a remembered size.
pub open spec fn lively(m: Map<PaneId, SizeHistory>, now: u64) -> Map<PaneId, SizeHistory> {
    Map::new(
        |id: PaneId| m.contains_key(id) && fresh_sizes(m[id]@, now).len() > 0,
        |id: PaneId| m[id],
    )
}

/// Drop the histories nothing is remembered of.
fn drop_stale(m: &mut HashMap<PaneId, SizeHistory>, now: u64)
    ensures
        final(m)@ == lively(old(m)@, now),
{
    broadcast use vstd::std_specs::hash::group_hash_axioms;

    let ghost before = m@;
    let keys = keys_of(m);
    assert forall|k: int| 0 <= k < keys@.len() implies before.contains_key(#[trigger] keys@[k]) by {
        assert(keys@.contains(keys@[k]));
    }
    for i in 0..keys.len()
        invariant
            keys@.no_duplicates(),
            forall|id: PaneId| keys@.contains(id) <==> before.contains_key(id),
            forall|k: int| i <= k < keys@.len() ==> m@.contains_key(#[trigger] keys@[k]),
            forall|k: int|
                0 <= k < i ==> (m@.contains_key(#[trigger] keys@[k]) <==> fresh_sizes(
                    before[keys@[k]]@,
                    now,
                ).len() > 0),
            forall|id: PaneId| #[trigger]
                m@.contains_key(id) ==> before.contains_key(id) && m@[id] == before[id],
    {
        broadcast use vstd::std_specs::hash::group_hash_axioms;

        let id: PaneId = keys[i];
        let stale: bool = match m.get(&id) {
            Some(h) => {
                let kept = keep_fresh(h, now);
                kept.len() == 0
            },
            None => false,
        };
        assert(m@[id] == before[id]);
        if stale {
            m.remove(&id);
        }
    }
    proof {
        assert forall|id: PaneId| m@.contains_key(id) <==> lively(before, now).contains_key(id) by {
            if before.contains_key(id) {
                let w = keys@.index_of(id);
                assert(keys@[w] == id);
            }
        }
        assert(m@ =~= lively(before, now));
    }
}

/// `after` is `before` without the histories nothing is remembered of.
pub open spec fn is_swept(after: KovaView, before: KovaView, now: u64) -> bool {
    &&& after.resizes.recent_resizes@ == lively(before.resizes.recent_resizes@, now)
    &&& after == (KovaView {
        resizes: ResizeState {
            recent_resizes: after.resizes.recent_resizes,
            ..before.resizes
        },
        ..before
    })
}

/// `after` is `before` with the first `n` panes of the active tab given their
/// sizes, one after the other.
pub open spec fn are_sized(
    after: KovaView,
    before: KovaView,
    sizes: Seq<(u16, u16)>,
    n: int,
    now: u64,
) -> bool
    decreases n,
{
    if n <= 0 {
        after == before
    } else {
        exists|mid: KovaView|
            are_sized(mid, before, sizes, n - 1, now) && #[trigger] is_offered(
                after,
                mid,
                sizes[n - 1],
                n - 1,
                now,
            )
    }
}

/// `after` is `before` with the pane at `k` of the active tab given the size, if
/// it takes it.
pub open spec fn is_offered(
    after: KovaView,
    before: KovaView,
    size: (u16, u16),
    k: int,
    now: u64,
) -> bool {
    if takes_size(before.active().panes@[k], size) {
        is_pane_sized(after, before, before.active_tab as int, k, size, now)
    } else {
        after == before
    }
}

proof fn lemma_sized_further(
    after: KovaView,
    mid: KovaView,
    before: KovaView,
    sizes: Seq<(u16, u16)>,
    n: int,
    now: u64,
)
    requires
        n > 0,
        are_sized(mid, before, sizes, n - 1, now),
        is_offered(after, mid, sizes[n - 1], n - 1, now),
    ensures
        are_sized(after, before, sizes, n, now),
{
}

/// The first `n` panes with their sizes.
pub open spec fn sized_panes(panes: Seq<Pane>, sizes: Seq<(u16, u16)>, n: int) -> Seq<Pane> {
    Seq::new(
        panes.len(),
        |k: int|
            if k < n && takes_size(panes[k], sizes[k]) {
                sized(panes[k], sizes[k].0, sizes[k].1)
            } else {
                panes[k]
            },
    )
}

/// A pane sized once keeps the size it was given.
pub proof fn sizing_twice_changes_nothing(panes: Seq<Pane>, sizes: Seq<(u16, u16)>, k: int)
    requires
        0 <= k < panes.len(),
        sizes.len() == panes.len(),
    ensures
        !takes_size(sized_panes(panes, sizes, panes.len() as int)[k], sizes[k]),
{
}

/// `after` is `before` telling what the last change of width did.
pub open spec fn is_feedback_set(
    after: KovaView,
    before: KovaView,
    mode: Seq<char>,
    screen_w: u32,
    virtual_w: u32,
) -> bool {
    after == (KovaView {
        frame: FrameState {
            resize_feedback: Some(
                ResizeFeedback {
                    mode: mode_named(mode),
                    screen_w,
                    virtual_w,
                    remaining_frames: (before.frame.fps * 2) as u32,
                },
            ),
            ..before.frame
        },
        ..before
    })
}

impl KovaView {
    /// Size the panes of the active tab: `sizes` holds the columns and rows
    /// each has room for.
    pub fn resize_all_panes(&mut self, sizes: &Vec<(u16, u16)>, now: u64)
        requires
            old(self).has_active() ==> sizes@.len() == old(self).active().panes@.len(),
        ensures
            old(self).has_active() ==> exists|mid: KovaView|
                is_swept(mid, *old(self), now) && #[trigger] are_sized(
                    *final(self),
                    mid,
                    sizes@,
                    sizes@.len() as int,
                    now,
                ),
            !old(self).has_active() ==> is_swept(*final(self), *old(self), now),
            old(self).has_active() ==> final(self).has_active() && final(self).active().panes@
                == sized_panes(old(self).active().panes@, sizes@, sizes@.len() as int),
            old(self).wf() ==> final(self).wf(),
    {
        drop_stale(&mut self.resizes.recent_resizes, now);
        let ghost mid = *self;
        assert(are_sized(*self, mid, sizes@, 0, now));
        if self.active_tab >= self.tabs.len() {
            return;
        }
        let ti: usize = self.active_tab;
        let ghost panes = self.active().panes@;
        assert(panes =~= sized_panes(panes, sizes@, 0));
        for k in 0..sizes.len()
            invariant
                are_sized(*self, mid, sizes@, k as int, now),
                mid.tabs@ == old(self).tabs@,
                self.active_tab == ti,
                ti < self.tabs@.len(),
                panes.len() == sizes@.len(),
                self.tabs@[ti as int].panes@ == sized_panes(panes, sizes@, k as int),
                view::tabs_ok(old(self).tabs@) ==> view::tabs_ok(self.tabs@),
        {
            let ghost before = *self;
            let cols: u16 = sizes[k].0;
            let rows: u16 = sizes[k].1;
            let take: bool = {
                let p = &self.tabs[ti].panes[k];
                !p.minimized && (cols != p.term.cols || rows != p.term.rows)
            };
            if take {
                self.size_pane(ti, k, cols, rows, now);
            }
            assert(self.tabs@[ti as int].panes@ =~= sized_panes(panes, sizes@, k + 1));
            assert(sizes@[k as int] == (cols, rows));
            assert(before.active() == before.tabs@[ti as int]);
            assert(is_offered(*self, before, sizes@[k as int], k as int, now));
            proof {
                lemma_sized_further(*self, before, mid, sizes@, k + 1, now);
            }
        }
    }

    /// Tell in the status bar what the last change of width did.
    pub fn set_resize_feedback(&mut self, mode: &str, screen_w: u32, virtual_w: u32)
        requires
            old(self).frame.fps * 2 <= u32::MAX,
        ensures
            is_feedback_set(*final(self), *old(self), mode@, screen_w, virtual_w),
    {
        let m = if text::same_text(mode, "Virtual") {
            ResizeMode::Virtual
        } else if text::same_text(mode, "Right Edge") {
            ResizeMode::Edge
        } else {
            ResizeMode::Ratio
        };
        self.frame.resize_feedback = Some(
            ResizeFeedback {
                mode: m,
                screen_w,
                virtual_w,
                remaining_frames: self.frame.fps * 2,
            },
        );
    }
}

/// The resize mode with the name.
pub open spec fn mode_named(name: Seq<char>) -> ResizeMode {
    if name == "Virtual"@ {
        ResizeMode::Virtual
    } else if name == "Right Edge"@ {
        ResizeMode::Edge
    } else {
        ResizeMode::Ratio
    }
}

/// What a change of the window's size asks for. On a screen of another scale
/// the glyphs are rebuilt and the tabs adopt the scale; on another screen the
/// tabs keep the width they had. Panes are not capped to the new screen: the
/// scroll of each tab is clamped, and the panes on screen take their sizes.
pub open spec fn reflow_effects(tabs: Seq<Tab>, rescaled: bool, moved: bool) -> Seq<Effect> {
    (if rescaled {
        seq![Effect::RebuildAtlas] + tabs.map_values(|t: Tab| Effect::AdoptScale(t.id))
    } else {
        seq![]
    }) + (if moved {
        tabs.map_values(|t: Tab| Effect::PinWidth(t.id))
    } else {
        seq![]
    }) + tabs.map_values(|t: Tab| Effect::ClampScroll(t.id)) + seq![Effect::ResizePanes]
}

/// Resizing a window never narrows a pane: no tab is asked to cap its panes
/// or scale its width, whatever screen the window is on.
pub proof fn a_resize_keeps_the_panes_as_wide(
    tabs: Seq<Tab>,
    rescaled: bool,
    moved: bool,
    id: TabId,
    from: usize,
    to: usize,
)
    ensures
        !reflow_effects(tabs, rescaled, moved).contains(Effect::CapWidth(id)),
        !reflow_effects(tabs, rescaled, moved).contains(Effect::ScaleWidth(id, from, to)),
{
}

impl KovaView {
    fn adopt_scales(&mut self)
        ensures
            final(self).effects@ == old(self).effects@ + old(self).tabs@.map_values(
                |t: Tab| Effect::AdoptScale(t.id),
            ),
            *final(self) == (KovaView { effects: final(self).effects, ..*old(self) }),
    {
        let n: usize = self.tabs.len();
        let ghost asked = self.tabs@.map_values(|t: Tab| Effect::AdoptScale(t.id));
        assert(self.effects@ =~= old(self).effects@ + asked.take(0));
        for i in 0..n
            invariant
                n == self.tabs@.len(),
                asked == old(self).tabs@.map_values(|t: Tab| Effect::AdoptScale(t.id)),
                self.effects@ == old(self).effects@ + asked.take(i as int),
                *self == (KovaView { effects: self.effects, ..*old(self) }),
        {
            let id: TabId = self.tabs[i].id;
            self.emit(Effect::AdoptScale(id));
            assert(self.effects@ =~= old(self).effects@ + asked.take(i + 1));
        }
        assert(asked.take(asked.len() as int) =~= asked);
    }

    fn pin_widths(&mut self)
        ensures
            final(self).effects@ == old(self).effects@ + old(self).tabs@.map_values(
                |t: Tab| Effect::PinWidth(t.id),
            ),
            *final(self) == (KovaView { effects: final(self).effects, ..*old(self) }),
    {
        let n: usize = self.tabs.len();
        let ghost asked = self.tabs@.map_values(|t: Tab| Effect::PinWidth(t.id));
        assert(self.effects@ =~= old(self).effects@ + asked.take(0));
        for i in 0..n
            invariant
                n == self.tabs@.len(),
                asked == old(self).tabs@.map_values(|t: Tab| Effect::PinWidth(t.id)),
                self.effects@ == old(self).effects@ + asked.take(i as int),
                *self == (KovaView { effects: self.effects, ..*old(self) }),
        {
            let id: TabId = self.tabs[i].id;
            self.emit(Effect::PinWidth(id));
            assert(self.effects@ =~= old(self).effects@ + asked.take(i + 1));
        }
        assert(asked.take(asked.len() as int) =~= asked);
    }

    fn clamp_scrolls(&mut self)
        ensures
            final(self).effects@ == old(self).effects@ + old(self).tabs@.map_values(
                |t: Tab| Effect::ClampScroll(t.id),
            ),
            *final(self) == (KovaView { effects: final(self).effects, ..*old(self) }),
    {
        let n: usize = self.tabs.len();
        let ghost asked = self.tabs@.map_values(|t: Tab| Effect::ClampScroll(t.id));
        assert(self.effects@ =~= old(self).effects@ + asked.take(0));
        for i in 0..n
            invariant
                n == self.tabs@.len(),
                asked == old(self).tabs@.map_values(|t: Tab| Effect::ClampScroll(t.id)),
                self.effects@ == old(self).effects@ + asked.take(i as int),
                *self == (KovaView { effects: self.effects, ..*old(self) }),
        {
            let id: TabId = self.tabs[i].id;
            self.emit(Effect::ClampScroll(id));
            assert(self.effects@ =~= old(self).effects@ + asked.take(i + 1));
        }
        assert(asked.take(asked.len() as int) =~= asked);
    }

    /// The window changed its size. `rescaled` says that its screen has
    /// another scale than before, `moved` that it is on another screen.
    pub fn handle_resize(&mut self, rescaled: bool, moved: bool)
        ensures
            final(self).effects@ == old(self).effects@ + reflow_effects(
                old(self).tabs@,
                rescaled,
                moved,
            ),
            *final(self) == (KovaView { effects: final(self).effects, ..*old(self) }),
    {
        if rescaled {
            self.emit(Effect::RebuildAtlas);
            self.adopt_scales();
        }
        if moved {
            self.pin_widths();
        }
        self.clamp_scrolls();
        self.emit(Effect::ResizePanes);
        assert(self.effects@ =~= old(self).effects@ + reflow_effects(
            old(self).tabs@,
            rescaled,
            moved,
        ));
    }
}

} // verus!
