//! The closed-tabs overlay.
use crate::pane::{Tab, TabId};
use crate::sidebar_model::copy_text;
use crate::tabs;
use crate::text;
use crate::view::{
    Effect, KeyPress, KovaView, Overlays, SavedTab, KEY_BACKSPACE, KEY_DOWN, KEY_ENTER, KEY_ESCAPE,
    KEY_UP,
};
use vstd::prelude::*;

verus! {

/// A closed tab that can be opened again.
#[derive(Debug, PartialEq)]
pub struct RecentProject {
    /// What tells it apart from the others.
    pub key: String,
    pub path: String,
    pub last_opened: u64,
    pub title: Option<String>,
    pub color: Option<usize>,
    /// The directories its panes were in.
    pub cwds: Vec<String>,
    pub tab: SavedTab,
}

/// What a row of the overlay shows.
#[derive(Debug, PartialEq)]
pub struct RecentProjectEntry {
    pub title: Option<String>,
    pub color: Option<usize>,
    pub path: String,
    pub time_ago: String,
    pub pane_count: u32,
    /// Its directory is gone.
    pub invalid: bool,
}

#[derive(Debug, PartialEq)]
pub struct RecentProjectItem {
    pub entry: RecentProject,
    pub render: RecentProjectEntry,
}

#[derive(Debug, PartialEq)]
pub struct RecentProjectsState {
    pub items: Vec<RecentProjectItem>,
    pub selected: usize,
    /// Index of the first row shown.
    pub scroll: usize,
}

/// What the file system and the clock say of a closed tab's directory.
#[derive(Debug, PartialEq)]
pub struct RecentLook {
    /// The directory as it is shown.
    pub path: String,
    /// How long ago it was open.
    pub time_ago: String,
    pub is_dir: bool,
}

impl RecentProjectsState {
    /// The selection is a row, unless there is none.
    pub open spec fn wf(self) -> bool {
        self.selected == 0 || self.selected < self.items@.len()
    }
}

/// What the row of a closed tab shows.
pub open spec fn shown_entry(e: RecentProject, look: RecentLook) -> RecentProjectEntry {
    RecentProjectEntry {
        title: e.title,
        color: e.color,
        path: look.path,
        time_ago: look.time_ago,
        pane_count: e.tab.panes,
        invalid: !look.is_dir,
    }
}

/// The rows of the closed tabs.
pub open spec fn items_of(entries: Seq<(RecentProject, RecentLook)>) -> Seq<RecentProjectItem> {
    entries.map_values(
        |e: (RecentProject, RecentLook)|
            RecentProjectItem { entry: e.0, render: shown_entry(e.0, e.1) },
    )
}

/// The rows of the closed tabs, each with what its directory looks like now.
pub fn build_items(entries: Vec<(RecentProject, RecentLook)>) -> (items: Vec<RecentProjectItem>)
    ensures
        items@ == items_of(entries@),
{
    let ghost all = entries@;
    let mut rest = entries;
    let mut items: Vec<RecentProjectItem> = Vec::new();
    while rest.len() > 0
        invariant
            rest@.len() <= all.len(),
            rest@ == all.skip(all.len() - rest@.len()),
            items@ == items_of(all).take(all.len() - rest@.len()),
        decreases rest@.len(),
    {
        let ghost k = all.len() - rest@.len();
        let (entry, look) = rest.remove(0);
        assert(rest@ =~= all.skip(k + 1));
        assert((entry, look) == all[k]);
        let title = copy_text(&entry.title);
        let render = RecentProjectEntry {
            title,
            color: entry.color,
            path: look.path,
            time_ago: look.time_ago,
            pane_count: entry.tab.panes,
            invalid: !look.is_dir,
        };
        items.push(RecentProjectItem { entry, render });
        assert(items@ =~= items_of(all).take(k + 1));
    }
    assert(items_of(all).take(all.len() as int) =~= items_of(all));
    items
}

/// The key is that of an open tab.
pub open spec fn key_open(key: Seq<char>, open: Seq<String>) -> bool {
    exists|i: int| 0 <= i < open.len() && (#[trigger] open[i])@ == key
}

/// The closed tabs that are not open again.
pub open spec fn still_closed(
    entries: Seq<(RecentProject, RecentLook)>,
    open: Seq<String>,
) -> Seq<(RecentProject, RecentLook)>
    decreases entries.len(),
{
    if entries.len() == 0 {
        seq![]
    } else if key_open(entries.last().0.key@, open) {
        still_closed(entries.drop_last(), open)
    } else {
        still_closed(entries.drop_last(), open).push(entries.last())
    }
}

fn is_key_open(key: &String, open: &Vec<String>) -> (r: bool)
    ensures
        r == key_open(key@, open@),
{
    for i in 0..open.len()
        invariant
            forall|k: int| 0 <= k < i ==> (#[trigger] open@[k])@ != key@,
    {
        if text::same_text(open[i].as_str(), key.as_str()) {
            return true;
        }
    }
    false
}

fn keep_closed(entries: Vec<(RecentProject, RecentLook)>, open: &Vec<String>) -> (kept: Vec<
    (RecentProject, RecentLook),
>)
    ensures
        kept@ == still_closed(entries@, open@),
{
    let ghost all = entries@;
    let mut rest = entries;
    let mut kept: Vec<(RecentProject, RecentLook)> = Vec::new();
    assert(all.take(0) =~= seq![]);
    while rest.len() > 0
        invariant
            rest@.len() <= all.len(),
            rest@ == all.skip(all.len() - rest@.len()),
            kept@ == still_closed(all.take(all.len() - rest@.len()), open@),
        decreases rest@.len(),
    {
        let ghost k = all.len() - rest@.len();
        let e = rest.remove(0);
        proof {
            assert(rest@ =~= all.skip(k + 1));
            assert(e == all[k]);
            assert(all.take(k + 1).drop_last() =~= all.take(k));
        }
        if !is_key_open(&e.0.key, open) {
            kept.push(e);
        }
    }
    assert(all.take(all.len() as int) =~= all);
    kept
}

/// `after` is `before` with its closed-tabs overlay replaced and `extra` asked
/// for.
pub open spec fn is_recent(
    after: KovaView,
    before: KovaView,
    recent: Option<RecentProjectsState>,
    extra: Seq<Effect>,
) -> bool {
    &&& after.effects@ == before.effects@ + extra
    &&& after == (KovaView {
        overlays: Overlays { recent_projects: recent, ..before.overlays },
        effects: after.effects,
        ..before
    })
}

/// The overlay without its selected row; none when it was the only one.
pub open spec fn is_row_removed(after: Option<RecentProjectsState>, s: RecentProjectsState) -> bool {
    let items = s.items@.remove(s.selected as int);
    if items.len() == 0 {
        after is None
    } else {
        &&& after is Some
        &&& after->0.items@ == items
        &&& after->0 == (RecentProjectsState {
            items: after->0.items,
            selected: if s.selected >= items.len() {
                (items.len() - 1) as usize
            } else {
                s.selected
            },
            ..s
        })
    }
}

/// The selection moved with an arrow.
pub open spec fn arrowed(s: RecentProjectsState, code: u16) -> RecentProjectsState {
    if code == KEY_UP && s.selected > 0 {
        RecentProjectsState {
            selected: (s.selected - 1) as usize,
            scroll: if s.selected - 1 < s.scroll {
                (s.selected - 1) as usize
            } else {
                s.scroll
            },
            ..s
        }
    } else if code == KEY_DOWN && s.selected + 1 < s.items@.len() {
        RecentProjectsState { selected: (s.selected + 1) as usize, ..s }
    } else {
        s
    }
}

/// What the keys of the overlay do.
pub open spec fn is_recent_keyed(after: KovaView, before: KovaView, key: KeyPress) -> bool {
    if key.code == KEY_ESCAPE {
        is_recent(after, before, None, seq![Effect::MarkDirty])
    } else if before.overlays.recent_projects is None {
        after == before
    } else {
        let s = before.overlays.recent_projects->0;
        if key.code == KEY_ENTER {
            if s.selected < s.items@.len() && !s.items@[s.selected as int].render.invalid {
                is_recent(
                    after,
                    before,
                    None,
                    seq![Effect::RestoreProject(s.items@[s.selected as int].entry)],
                )
            } else {
                after == before
            }
        } else if key.code == KEY_BACKSPACE && key.cmd {
            if s.selected < s.items@.len() {
                &&& is_row_removed(after.overlays.recent_projects, s)
                &&& is_recent(
                    after,
                    before,
                    after.overlays.recent_projects,
                    seq![
                        Effect::ForgetProject(s.items@[s.selected as int].entry.key),
                        Effect::MarkDirty,
                    ],
                )
            } else {
                after == before
            }
        } else {
            is_recent(after, before, Some(arrowed(s, key.code)), seq![Effect::MarkDirty])
        }
    }
}

/// `after` is `before` with a closed tab back right of the active one.
pub open spec fn is_project_restored(after: KovaView, before: KovaView, t: Tab) -> bool {
    let idx = before.active_tab + 1;
    &&& after.tabs@ == before.tabs@.insert(idx, t)
    &&& after.active_tab == idx
    &&& after.effects@ == before.effects@ + seq![Effect::AdoptScale(t.id), Effect::ResizePanes]
    &&& after == (KovaView {
        tabs: after.tabs,
        active_tab: after.active_tab,
        effects: after.effects,
        ..before
    })
}

/// `after` is `before` with the closed projects offered.
pub open spec fn is_recents_open(
    after: KovaView,
    before: KovaView,
    entries: Seq<(RecentProject, RecentLook)>,
    open_keys: Seq<String>,
) -> bool {
    &&& after.overlays.recent_projects matches Some(s) && s.wf() && s.items@ == items_of(
        still_closed(entries, open_keys),
    ) && s.selected == 0 && s.scroll == 0
    &&& is_recent(
        after,
        before,
        after.overlays.recent_projects,
        seq![Effect::MarkDirty],
    )
}

impl KovaView {
    /// Open the overlay on the closed tabs, without those open again in any
    /// window.
    pub fn do_open_recent_projects(
        &mut self,
        entries: Vec<(RecentProject, RecentLook)>,
        open_keys: &Vec<String>,
    )
        ensures
            is_recents_open(*final(self), *old(self), entries@, open_keys@),
    {
        let kept = keep_closed(entries, open_keys);
        let items = build_items(kept);
        self.overlays.recent_projects = Some(RecentProjectsState { items, selected: 0, scroll: 0 });
        self.mark_dirty();
        assert(self.effects@ =~= old(self).effects@ + seq![Effect::MarkDirty]);
    }

    /// Open the selected closed tab again, if its directory is still there.
    fn enter_recent(&mut self)
        requires
            old(self).overlays.recent_projects is Some,
        ensures
            ({
                let s = old(self).overlays.recent_projects->0;
                if s.selected < s.items@.len() && !s.items@[s.selected as int].render.invalid {
                    is_recent(
                        *final(self),
                        *old(self),
                        None,
                        seq![Effect::RestoreProject(s.items@[s.selected as int].entry)],
                    )
                } else {
                    *final(self) == *old(self)
                }
            }),
    {
        match self.overlays.recent_projects.take() {
            None => {},
            Some(s) => {
                if s.selected < s.items.len() && !s.items[s.selected].render.invalid {
                    let at: usize = s.selected;
                    let mut items = s.items;
                    let item = items.swap_remove(at);
                    self.emit(Effect::RestoreProject(item.entry));
                    assert(self.effects@ =~= old(self).effects@ + seq![
                        Effect::RestoreProject(item.entry),
                    ]);
                } else {
                    self.overlays.recent_projects = Some(s);
                }
            },
        }
    }

    /// Take the selected closed tab off the list.
    fn forget_recent(&mut self)
        requires
            old(self).overlays.recent_projects is Some,
        ensures
            ({
                let s = old(self).overlays.recent_projects->0;
                if s.selected < s.items@.len() {
                    &&& is_row_removed(final(self).overlays.recent_projects, s)
                    &&& is_recent(
                        *final(self),
                        *old(self),
                        final(self).overlays.recent_projects,
                        seq![
                            Effect::ForgetProject(s.items@[s.selected as int].entry.key),
                            Effect::MarkDirty,
                        ],
                    )
                } else {
                    *final(self) == *old(self)
                }
            }),
    {
        match self.overlays.recent_projects.take() {
            None => {},
            Some(s) => {
                let mut s = s;
                if s.selected >= s.items.len() {
                    self.overlays.recent_projects = Some(s);
                    return;
                }
                let item = s.items.remove(s.selected);
                if s.items.len() > 0 {
                    if s.selected >= s.items.len() {
                        s.selected = s.items.len() - 1;
                    }
                    self.overlays.recent_projects = Some(s);
                }
                self.emit(Effect::ForgetProject(item.entry.key));
                self.mark_dirty();
                assert(self.effects@ =~= old(self).effects@ + seq![
                    Effect::ForgetProject(item.entry.key),
                    Effect::MarkDirty,
                ]);
            },
        }
    }

    /// The keys of the closed-tabs overlay: escape closes it, enter opens the
    /// selected tab again, command with backspace forgets it, and the arrows
    /// move the selection.
    pub fn handle_recent_projects_key(&mut self, key: KeyPress)
        requires
            old(self).overlays.recent_projects matches Some(s) ==> s.wf(),
        ensures
            is_recent_keyed(*final(self), *old(self), key),
            final(self).overlays.recent_projects matches Some(s) ==> s.wf(),
    {
        if key.code == KEY_ESCAPE {
            self.overlays.recent_projects = None;
            self.mark_dirty();
            assert(self.effects@ =~= old(self).effects@ + seq![Effect::MarkDirty]);
            return;
        }
        if self.overlays.recent_projects.is_none() {
            return;
        }
        if key.code == KEY_ENTER {
            self.enter_recent();
            return;
        }
        if key.code == KEY_BACKSPACE && key.cmd {
            self.forget_recent();
            return;
        }
        match self.overlays.recent_projects.take() {
            None => {},
            Some(s) => {
                let mut s = s;
                assert(s.items.len() == s.items@.len());
                if key.code == KEY_UP {
                    if s.selected > 0 {
                        s.selected = s.selected - 1;
                        if s.selected < s.scroll {
                            s.scroll = s.selected;
                        }
                    }
                } else if key.code == KEY_DOWN {
                    if s.selected < s.items.len() && s.selected + 1 < s.items.len() {
                        s.selected = s.selected + 1;
                    }
                }
                self.overlays.recent_projects = Some(s);
            },
        }
        self.mark_dirty();
        assert(self.effects@ =~= old(self).effects@ + seq![Effect::MarkDirty]);
    }

    /// Put a closed tab back right of the active one, on the scale of the
    /// window's screen; `tab` is what restoring it gave.
    pub fn restore_recent_project(&mut self, tab: Option<Tab>)
        requires
            tab is Some ==> old(self).has_active(),
        ensures
            tab is None ==> *final(self) == *old(self),
            tab matches Some(t) ==> is_project_restored(*final(self), *old(self), t),
            old(self).wf() && (tab matches Some(t) ==> tabs::fresh_tab(old(self).tabs@, t))
                ==> final(self).wf(),
    {
        match tab {
            Some(t) => {
                assert(self.tabs.len() == self.tabs@.len());
                let idx: usize = self.active_tab + 1;
                let id: TabId = t.id;
                self.emit(Effect::AdoptScale(id));
                self.insert_tab(idx, t);
                assert(self.effects@ =~= old(self).effects@ + seq![
                    Effect::AdoptScale(id),
                    Effect::ResizePanes,
                ]);
            },
            None => {},
        }
    }
}

/// The keys of the closed projects: the arrows select the row above or below,
/// return brings the selected one back unless its directory is gone, erasing
/// with command forgets it, and escape closes the list.
pub proof fn keys_of_the_closed_projects(
    after: KovaView,
    before: KovaView,
    key: KeyPress,
    s: RecentProjectsState,
)
    requires
        before.overlays.recent_projects == Some(s),
        s.wf(),
        is_recent_keyed(after, before, key),
    ensures
        after.tabs == before.tabs,
        key.code == 0x35 ==> after.overlays.recent_projects is None,
        key.code == 0x24 && s.selected < s.items@.len() ==> {
            let item = s.items@[s.selected as int];
            if item.render.invalid {
                after == before
            } else {
                after.overlays.recent_projects is None && after.effects@ == before.effects@.push(
                    Effect::RestoreProject(item.entry),
                )
            }
        },
        key.code == 0x7E && s.selected > 0 ==> (after.overlays.recent_projects matches Some(t)
            && t.selected == s.selected - 1 && t.items == s.items),
        key.code == 0x7D && s.selected + 1 < s.items@.len() ==> (
        after.overlays.recent_projects matches Some(t) && t.selected == s.selected + 1 && t.items
            == s.items),
        key.code == 0x33 && key.cmd && s.selected < s.items@.len() ==> after.effects@.contains(
            Effect::ForgetProject(s.items@[s.selected as int].entry.key),
        ),
{
    assert(s.items@.len() == s.items.len());
    if key.code == 0x24 && s.selected < s.items@.len() && !s.items@[s.selected as int].render.invalid {
        assert(after.effects@ =~= before.effects@.push(
            Effect::RestoreProject(s.items@[s.selected as int].entry),
        ));
    }
    if key.code == 0x33 && key.cmd && s.selected < s.items@.len() {
        assert(after.effects@[before.effects@.len() as int] == Effect::ForgetProject(
            s.items@[s.selected as int].entry.key,
        ));
    }
}

} // verus!
