//! Where the eye goes next: the unread panes, the visit history, bookmarks,
//! and the messages of the status bar.
use crate::ipc;
use crate::pane;
use crate::pane::PaneId;
use crate::paths;
use crate::sidebar;
use crate::sidebar::next_unread;
use crate::view;
use crate::view::{Effect, FrameState, KovaView};
use vstd::prelude::*;

verus! {

/// Frames a pane's border pulses, under its label, after a far jump.
pub const FAR_JUMP_FRAMES: u32 = 54;

// ---------------------------------------------------------------
// Messages
// ---------------------------------------------------------------

/// `after` is `before` with a message in the status bar for two seconds.
pub open spec fn is_status(after: KovaView, before: KovaView, msg: Seq<char>) -> bool {
    &&& after.frame.transient_status matches Some(t) && t.0@ == msg && t.1 == before.frame.fps * 2
    &&& after.effects@ == before.effects@.push(Effect::MarkDirty)
    &&& after == (KovaView {
        frame: FrameState { transient_status: after.frame.transient_status, ..before.frame },
        effects: after.effects,
        ..before
    })
}

/// A message's frames can be counted.
pub open spec fn fps_ok(v: KovaView) -> bool {
    v.frame.fps * 2 <= u32::MAX
}

impl KovaView {
    /// Show a message in the status bar for two seconds: why an action did
    /// nothing, or what it did.
    pub fn set_transient_status(&mut self, msg: &str)
        requires
            fps_ok(*old(self)),
        ensures
            is_status(*final(self), *old(self), msg@),
    {
        let mut s = String::new();
        s.append(msg);
        assert(s@ =~= msg@);
        self.frame.transient_status = Some((s, self.frame.fps * 2));
        self.mark_dirty();
    }
}

// ---------------------------------------------------------------
// Bookmarks
// ---------------------------------------------------------------

/// The focused pane has something to bookmark: a directory or a conversation.
pub open spec fn can_bookmark(p: pane::Pane) -> bool {
    p.agent.session_id is Some || (p.term.cwd matches Some(c) && c@.len() > 0)
}

/// What toggling the focused pane's bookmark does.
pub open spec fn is_bookmark_asked(after: KovaView, before: KovaView) -> bool {
    match before.focused() {
        None => after == before,
        Some(p) => if can_bookmark(p) {
            &&& after.effects@ == before.effects@.push(Effect::ToggleBookmark(p.id))
            &&& after == (KovaView { effects: after.effects, ..before })
        } else {
            is_status(after, before, "Nothing to bookmark in this pane"@)
        },
    }
}

impl KovaView {
    /// Keep the focused pane's conversation among the bookmarks, or drop it
    /// when it is there already.
    pub fn do_toggle_bookmark(&mut self)
        requires
            fps_ok(*old(self)),
        ensures
            is_bookmark_asked(*final(self), *old(self)),
    {
        let (id, can): (PaneId, bool) = match self.focused_pane() {
            None => {
                return;
            },
            Some(p) => {
                let has_cwd = match &p.term.cwd {
                    Some(c) => !c.as_str().is_empty(),
                    None => false,
                };
                (p.id, has_cwd || p.agent.session_id.is_some())
            },
        };
        if can {
            self.emit(Effect::ToggleBookmark(id));
        } else {
            self.set_transient_status("Nothing to bookmark in this pane");
        }
    }

    /// The bookmarks were toggled: `kept` says whether the one labelled
    /// `label` is there now, `keys` tells every bookmark apart.
    pub fn bookmark_toggled(&mut self, kept: bool, label: &str, keys: Vec<String>)
        requires
            fps_ok(*old(self)),
        ensures
            final(self).bookmark_keys == keys,
            is_status(
                *final(self),
                (KovaView { bookmark_keys: keys, ..*old(self) }),
                (if kept {
                    "Bookmarked "@
                } else {
                    "Removed bookmark "@
                }) + label@,
            ),
    {
        self.bookmark_keys = keys;
        let mut msg = String::new();
        msg.append(
            if kept {
                "Bookmarked "
            } else {
                "Removed bookmark "
            },
        );
        msg.append(label);
        assert(msg@ =~= (if kept {
            "Bookmarked "@
        } else {
            "Removed bookmark "@
        }) + label@);
        self.set_transient_status(msg.as_str());
    }
}

// ---------------------------------------------------------------
// Jumps
// ---------------------------------------------------------------

/// Where a pane of the visit history stands now.
#[derive(Clone, Copy, Debug, PartialEq, Eq, Structural)]
pub enum PaneState {
    /// It can be gone back to.
    Focusable,
    /// It is minimized: walked over.
    Hidden,
    /// It is not in this window.
    Gone,
}

/// The panes of every window, in the order a jump walks them.
pub open spec fn walked(own: Seq<(PaneId, bool)>, others: Seq<Vec<(PaneId, bool)>>) -> Seq<
    (PaneId, bool),
>
    decreases others.len(),
{
    if others.len() == 0 {
        own
    } else {
        walked(own, others.drop_last()) + others.last()@
    }
}

/// The panes a jump can land on, each with whether it is unread: this
/// window's in its sidebar's order, then those of the other windows.
pub fn collect_unread(own: Vec<(PaneId, bool)>, others: &Vec<Vec<(PaneId, bool)>>) -> (r: Vec<
    (PaneId, bool),
>)
    ensures
        r@ == walked(own@, others@),
{
    let ghost first = own@;
    let mut out = own;
    assert(others@.take(0) =~= seq![]);
    for i in 0..others.len()
        invariant
            out@ == walked(first, others@.take(i as int)),
    {
        assert(others@.take(i + 1).drop_last() =~= others@.take(i as int));
        let ghost before = out@;
        let v = &others[i];
        assert(before =~= before + v@.take(0));
        for k in 0..v.len()
            invariant
                out@ == before + v@.take(k as int),
        {
            out.push(v[k]);
            assert(out@ =~= before + v@.take(k + 1));
        }
        assert(v@.take(v@.len() as int) =~= v@);
    }
    assert(others@.take(others@.len() as int) =~= others@);
    out
}

/// The idle panes as a walk.
pub open spec fn idle_walk(idle: Seq<PaneId>) -> Seq<(PaneId, bool)> {
    idle.map_values(|id: PaneId| (id, true))
}

/// Where a jump leads, and the pill that says so: the next unread pane, else
/// the next idle one.
pub open spec fn jump_target(
    order: Seq<(PaneId, bool)>,
    idle: Seq<PaneId>,
    current: Option<PaneId>,
) -> Option<(PaneId, Seq<char>)> {
    match sidebar::unread_after(order, current) {
        Some(id) => Some((id, "Next unread"@)),
        None => match sidebar::unread_after(idle_walk(idle), current) {
            Some(id) => Some((id, "Next idle"@)),
            None => None,
        },
    }
}

/// The pane a jump starts from.
pub open spec fn jump_start(v: KovaView) -> Option<PaneId> {
    if v.has_active() {
        Some(v.active().focused_pane)
    } else {
        None
    }
}

/// `after` is `before` with a pane asked for, and a message saying what it was
/// picked for.
pub open spec fn is_sent_to(
    after: KovaView,
    before: KovaView,
    id: PaneId,
    picked_for: Seq<char>,
) -> bool {
    exists|mid: KovaView|
        {
            &&& mid.effects@ == before.effects@.push(Effect::FocusElsewhere(id))
            &&& mid == (KovaView { effects: mid.effects, ..before })
            &&& #[trigger] is_status(after, mid, picked_for)
        }
}

/// What jumping to the next pane with something to read does: the pane is
/// asked for, and a message names what it was picked for.
pub open spec fn is_jump_asked(
    after: KovaView,
    before: KovaView,
    order: Seq<(PaneId, bool)>,
    idle: Seq<PaneId>,
) -> bool {
    match jump_target(order, idle, jump_start(before)) {
        Some(t) => is_sent_to(after, before, t.0, t.1),
        None => is_status(after, before, "Nothing to read"@),
    }
}

/// A jump leads somewhere exactly when some pane is unread or idle, and to an
/// unread one while there is one.
pub proof fn a_jump_prefers_what_is_unread(
    order: Seq<(PaneId, bool)>,
    idle: Seq<PaneId>,
    current: Option<PaneId>,
)
    ensures
        jump_target(order, idle, current) is Some <==> idle.len() > 0 || exists|k: int|
            0 <= k < order.len() && (#[trigger] order[k]).1,
        (exists|k: int| 0 <= k < order.len() && (#[trigger] order[k]).1) ==> {
            let target = jump_target(order, idle, current)->0;
            exists|k: int|
                0 <= k < order.len() && (#[trigger] order[k]).1 && order[k].0 == target.0
        },
{
    sidebar::next_unread_lands_on_unread(order, current);
    sidebar::next_unread_lands_on_unread(idle_walk(idle), current);
    if idle.len() > 0 {
        assert(idle_walk(idle)[0].1);
    }
}

/// `after` is `before` with a pane of it focused, pulsing under the name of
/// its directory.
pub open spec fn is_landed(after: KovaView, before: KovaView, id: PaneId, home: Seq<char>) -> bool {
    let ti = view::tab_of(before.tabs@, id);
    let p = ipc::pane_with_id(before.tabs@, id)->0;
    &&& ipc::is_focus_taken(after.tabs@[ti], before.tabs@[ti], id)
    &&& after.tabs@ == before.tabs@.update(ti, after.tabs@[ti])
    &&& after.active_tab == ti
    &&& after.effects@ == before.effects@ + ipc::focus_effects(before.tabs@[ti], id) + seq![
        Effect::MarkDirty,
    ]
    &&& after.frame.pane_flash matches Some(f) && f.pane_id == id && f.remaining_frames
        == FAR_JUMP_FRAMES && match p.term.cwd {
        Some(cwd) => f.label matches Some(l) && (l.name@, l.parent@) == paths::label_parts(
            cwd@,
            home,
        ),
        None => f.label is None,
    }
    &&& after == (KovaView {
        tabs: after.tabs,
        active_tab: after.active_tab,
        frame: FrameState { pane_flash: after.frame.pane_flash, ..before.frame },
        effects: after.effects,
        ..before
    })
}

/// What a step through the visit history does.
pub open spec fn is_history_stepped(
    after: KovaView,
    before: KovaView,
    target: Option<PaneId>,
) -> bool {
    match target {
        Some(id) => {
            &&& after.effects@ == before.effects@.push(Effect::FocusElsewhere(id))
            &&& after == (KovaView { effects: after.effects, ..before })
        },
        None => after == before,
    }
}

impl KovaView {
    /// Jump to the next unread pane after the focused one, else to the next
    /// idle agent; `order` lists the panes of every window, `idle` those of
    /// them with an idle agent.
    pub fn do_focus_next_attention(&mut self, order: &Vec<(PaneId, bool)>, idle: &Vec<PaneId>)
        requires
            fps_ok(*old(self)),
        ensures
            is_jump_asked(*final(self), *old(self), order@, idle@),
    {
        let current: Option<PaneId> = if self.active_tab < self.tabs.len() {
            Some(self.tabs[self.active_tab].focused_pane)
        } else {
            None
        };
        if let Some(id) = next_unread(order, current) {
            self.jump_to(id, "Next unread");
            return;
        }
        let mut walk: Vec<(PaneId, bool)> = Vec::new();
        for i in 0..idle.len()
            invariant
                walk@ == idle_walk(idle@).take(i as int),
        {
            walk.push((idle[i], true));
            assert(walk@ =~= idle_walk(idle@).take(i + 1));
        }
        assert(walk@ =~= idle_walk(idle@));
        match next_unread(&walk, current) {
            Some(id) => {
                self.jump_to(id, "Next idle");
            },
            None => {
                self.set_transient_status("Nothing to read");
            },
        }
    }

    /// Ask for a pane, saying what it was picked for.
    fn jump_to(&mut self, id: PaneId, picked_for: &str)
        requires
            fps_ok(*old(self)),
        ensures
            is_sent_to(*final(self), *old(self), id, picked_for@),
    {
        self.emit(Effect::FocusElsewhere(id));
        let ghost mid = *self;
        self.set_transient_status(picked_for);
        assert(is_status(*self, mid, picked_for@));
    }

    /// Focus a pane of this window after a jump, naming its directory over
    /// it. Returns whether the pane is here.
    pub fn focus_pane_here(&mut self, pane_id: PaneId, home: &str) -> (found: bool)
        ensures
            found == view::some_tab_has(old(self).tabs@, pane_id),
            !found ==> *final(self) == *old(self),
            found ==> is_landed(*final(self), *old(self), pane_id, home@),
            old(self).wf() ==> final(self).wf(),
    {
        let cwd = self.pane_cwd(pane_id);
        proof {
            view::lemma_tab_of(self.tabs@, pane_id);
        }
        if !self.ipc_focus_pane(pane_id) {
            return false;
        }
        let ghost mid = *self;
        let label = match &cwd {
            Some(c) => Some(paths::flash_label(c.as_str(), home)),
            None => None,
        };
        self.set_pane_flash(pane_id, FAR_JUMP_FRAMES, label);
        assert(self.effects@ =~= old(self).effects@ + ipc::focus_effects(
            old(self).tabs@[view::tab_of(old(self).tabs@, pane_id)],
            pane_id,
        ) + seq![Effect::MarkDirty]);
        true
    }

    /// Where a pane of the visit history stands in this window.
    pub fn pane_history_state(&self, pane_id: PaneId) -> (s: PaneState)
        ensures
            s == (match ipc::pane_with_id(self.tabs@, pane_id) {
                Some(p) => if p.minimized {
                    PaneState::Hidden
                } else {
                    PaneState::Focusable
                },
                None => PaneState::Gone,
            }),
    {
        match self.find_pane(pane_id) {
            Some(p) => if p.minimized {
                PaneState::Hidden
            } else {
                PaneState::Focusable
            },
            None => PaneState::Gone,
        }
    }

    /// Go where a step through the visit history leads, if anywhere.
    pub fn do_history_step(&mut self, target: Option<PaneId>)
        ensures
            is_history_stepped(*final(self), *old(self), target),
    {
        match target {
            Some(id) => {
                self.emit(Effect::FocusElsewhere(id));
            },
            None => {},
        }
    }
}

/// A jump goes to the first unread pane after the focused one in the walk,
/// around its end, and says that it is unread; without an unread pane to the
/// first idle one, and says so.
pub proof fn a_jump_goes_to_the_next(
    after: KovaView,
    before: KovaView,
    order: Seq<(PaneId, bool)>,
    idle: Seq<PaneId>,
    at: int,
    k: int,
)
    requires
        before.has_active(),
        0 <= at < order.len(),
        order[at].0 == before.active().focused_pane,
        forall|j: int| 0 <= j < at ==> (#[trigger] order[j]).0 != before.active().focused_pane,
        is_jump_asked(after, before, order, idle),
    ensures
        at < k < order.len() && order[k].1 && (forall|j: int|
            at < j < k ==> !(#[trigger] order[j]).1) ==> after.effects@.contains(
            Effect::FocusElsewhere(order[k].0),
        ) && (after.frame.transient_status matches Some(m) && m.0@ == "Next unread"@),
        0 <= k <= at && order[k].1 && (forall|j: int|
            at < j < order.len() ==> !(#[trigger] order[j]).1) && (forall|j: int|
            0 <= j < k ==> !(#[trigger] order[j]).1) ==> after.effects@.contains(
            Effect::FocusElsewhere(order[k].0),
        ) && (after.frame.transient_status matches Some(m) && m.0@ == "Next unread"@),
        idle.len() == 0 && (forall|j: int| 0 <= j < order.len() ==> !(#[trigger] order[j]).1)
            ==> after.effects@.len() <= before.effects@.len() + 1 && (
        after.frame.transient_status matches Some(m) && m.0@ == "Nothing to read"@),
{
    let id = before.active().focused_pane;
    sidebar::lemma_next_unread(order, id, at);
    sidebar::next_unread_lands_on_unread(order, Some(id));
    sidebar::next_unread_lands_on_unread(idle_walk(idle), Some(id));
    match jump_target(order, idle, jump_start(before)) {
        Some(t) => {
            let mid = choose|mid: KovaView|
                {
                    &&& mid.effects@ == before.effects@.push(Effect::FocusElsewhere(t.0))
                    &&& mid == (KovaView { effects: mid.effects, ..before })
                    &&& #[trigger] is_status(after, mid, t.1)
                };
            let n = before.effects@.len() as int;
            assert(mid.effects@[n] == Effect::FocusElsewhere(t.0));
            assert(after.effects@[n] == mid.effects@[n]);
        },
        None => {},
    }
}

} // verus!
