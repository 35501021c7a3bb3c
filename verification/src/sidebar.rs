//! The sidebar layout: the tabs of a window as collapsible groups down the
//! left edge, one tile per pane, instead of the strip across the top.
//!
//! This module holds the parts that need no window: the layout setting, the
//! state vocabulary (`TileState`), the activity sort, the collapsed summary,
//! the Next pill, the unread walk, the pane drag arithmetic and the text
//! rules.
use crate::feather::Icon;
use crate::text;
use crate::text::push_decimal;
use vstd::prelude::*;

verus! {

// ---------------------------------------------------------------
// Layout setting
// ---------------------------------------------------------------

/// How a window shows its tabs.
#[derive(Clone, Copy, Debug, PartialEq, Eq, Structural)]
pub enum LayoutMode {
    Tabs,
    Sidebar,
}

/// The layout a configuration resolves to, with the range the sidebar width
/// is snapped into.
#[derive(Clone, Copy, Debug, PartialEq, Eq, Structural)]
pub struct LayoutConfig {
    pub mode: LayoutMode,
    pub sidebar_width: u16,
    pub min_width: u16,
    pub max_width: u16,
}

/// The layout overrides remembered for the next launch.
#[derive(Clone, Copy, Debug, PartialEq, Eq, Structural)]
pub struct LayoutPrefs {
    pub mode: Option<LayoutMode>,
    pub sidebar_width: Option<u16>,
}

/// The process-wide layout setting: one for the whole application, read by
/// every window on each frame. The mode is held as a byte.
#[derive(Clone, Copy, Debug, PartialEq, Eq, Structural)]
pub struct LayoutSetting {
    pub mode: u8,
    pub width_pt: u16,
    pub min_width: u16,
    pub max_width: u16,
}

impl LayoutSetting {
    /// The range of widths is a range, and the width lies in it.
    pub open spec fn wf(self) -> bool {
        self.min_width <= self.width_pt <= self.max_width
    }
}

/// A width snapped into `lo ..= hi`.
pub open spec fn clamped(pts: u16, lo: u16, hi: u16) -> u16 {
    if pts < lo {
        lo
    } else if pts > hi {
        hi
    } else {
        pts
    }
}

pub fn clamp_sidebar_width(pts: u16, lo: u16, hi: u16) -> (r: u16)
    requires
        lo <= hi,
    ensures
        r == clamped(pts, lo, hi),
        lo <= r <= hi,
{
    if pts < lo {
        lo
    } else if pts > hi {
        hi
    } else {
        pts
    }
}

/// Adopt the layout the configuration resolved to.
pub fn init(setting: &mut LayoutSetting, layout: &LayoutConfig)
    requires
        layout.min_width <= layout.max_width,
    ensures
        final(setting).mode == mode_byte(layout.mode),
        final(setting).width_pt == clamped(
            layout.sidebar_width,
            layout.min_width,
            layout.max_width,
        ),
        final(setting).min_width == layout.min_width,
        final(setting).max_width == layout.max_width,
        final(setting).wf(),
{
    setting.mode = mode_to_u8(layout.mode);
    setting.width_pt =
        clamp_sidebar_width(layout.sidebar_width, layout.min_width, layout.max_width);
    setting.min_width = layout.min_width;
    setting.max_width = layout.max_width;
}

/// The byte a mode is held as.
pub open spec fn mode_byte(mode: LayoutMode) -> u8 {
    match mode {
        LayoutMode::Tabs => 0,
        LayoutMode::Sidebar => 1,
    }
}

/// The mode a byte stands for: anything but the sidebar's byte is the strip.
pub open spec fn byte_mode(b: u8) -> LayoutMode {
    if b == 1 {
        LayoutMode::Sidebar
    } else {
        LayoutMode::Tabs
    }
}

pub fn mode_to_u8(mode: LayoutMode) -> (b: u8)
    ensures
        b == mode_byte(mode),
{
    match mode {
        LayoutMode::Tabs => 0,
        LayoutMode::Sidebar => 1,
    }
}

pub fn layout_mode(setting: &LayoutSetting) -> (mode: LayoutMode)
    ensures
        mode == byte_mode(setting.mode),
{
    if setting.mode == 1 {
        LayoutMode::Sidebar
    } else {
        LayoutMode::Tabs
    }
}

/// Change the mode; what is returned is to be remembered for the next launch.
pub fn set_layout_mode(setting: &mut LayoutSetting, mode: LayoutMode) -> (prefs: LayoutPrefs)
    ensures
        *final(setting) == (LayoutSetting { mode: mode_byte(mode), ..*old(setting) }),
        prefs == (LayoutPrefs {
            mode: Some(mode),
            sidebar_width: Some(old(setting).width_pt),
        }),
{
    setting.mode = mode_to_u8(mode);
    persist(setting)
}

/// Sidebar width in points, separator included.
pub fn width_pt(setting: &LayoutSetting) -> (pts: u16)
    ensures
        pts == setting.width_pt,
{
    setting.width_pt
}

/// Set the width, snapped into range. Returns whether it changed. An edge
/// drag calls this on every event and `persist` once, on mouse up.
pub fn set_width_pt(setting: &mut LayoutSetting, pts: u16) -> (changed: bool)
    requires
        old(setting).min_width <= old(setting).max_width,
    ensures
        *final(setting) == (LayoutSetting {
            width_pt: clamped(pts, old(setting).min_width, old(setting).max_width),
            ..*old(setting)
        }),
        changed == (final(setting).width_pt != old(setting).width_pt),
        final(setting).wf(),
{
    let before: u16 = setting.width_pt;
    setting.width_pt = clamp_sidebar_width(pts, setting.min_width, setting.max_width);
    setting.width_pt != before
}

/// The runtime layout state, as it is remembered for the next launch.
pub fn persist(setting: &LayoutSetting) -> (prefs: LayoutPrefs)
    ensures
        prefs == (LayoutPrefs {
            mode: Some(byte_mode(setting.mode)),
            sidebar_width: Some(setting.width_pt),
        }),
{
    LayoutPrefs { mode: Some(layout_mode(setting)), sidebar_width: Some(width_pt(setting)) }
}

/// A mode that was stored reads back as itself.
pub proof fn layout_mode_reads_back(mode: LayoutMode)
    ensures
        byte_mode(mode_byte(mode)) == mode,
{
}

// ---------------------------------------------------------------
// Sort order
// ---------------------------------------------------------------

/// How the sidebar orders a window's tabs: the tab order, or the tabs asking
/// for something first.
#[derive(Clone, Copy, Debug, PartialEq, Eq, Structural)]
pub enum SidebarSort {
    Kova,
    Activity,
}

impl Default for SidebarSort {
    fn default() -> (s: Self)
        ensures
            s == SidebarSort::Kova,
    {
        SidebarSort::Kova
    }
}

impl SidebarSort {
    pub open spec fn other(self) -> SidebarSort {
        match self {
            SidebarSort::Kova => SidebarSort::Activity,
            SidebarSort::Activity => SidebarSort::Kova,
        }
    }

    pub fn toggled(self) -> (s: Self)
        ensures
            s == self.other(),
            s != self,
            s.other() == self,
    {
        match self {
            SidebarSort::Kova => SidebarSort::Activity,
            SidebarSort::Activity => SidebarSort::Kova,
        }
    }

    /// Copy of the sort toggle in the summary row.
    pub fn label(self) -> (s: &'static str)
        ensures
            s@ == (match self {
                SidebarSort::Kova => "\u{21c5} kova"@,
                SidebarSort::Activity => "\u{21c5} activity"@,
            }),
    {
        match self {
            SidebarSort::Kova => "\u{21c5} kova",
            SidebarSort::Activity => "\u{21c5} activity",
        }
    }
}

/// Tab `a` is listed before tab `b` in the activity sort: it is more urgent,
/// or as urgent and earlier in the tab order.
pub open spec fn listed_before(states: Seq<TileState>, a: int, b: int) -> bool {
    ||| states[a].urgency() < states[b].urgency()
    ||| states[a].urgency() == states[b].urgency() && a < b
}

/// `order` lists each of `0 .. n` exactly once.
pub open spec fn lists_each_once(order: Seq<usize>, n: int) -> bool {
    &&& order.len() == n
    &&& order.no_duplicates()
    &&& forall|k: int| 0 <= k < order.len() ==> 0 <= #[trigger] order[k] < n
    &&& forall|i: usize| 0 <= i < n ==> #[trigger] order.contains(i)
}

/// The order tabs are listed in under `sort`.
pub open spec fn is_display_order(
    order: Seq<usize>,
    sort: SidebarSort,
    states: Seq<TileState>,
) -> bool {
    &&& lists_each_once(order, states.len() as int)
    &&& sort == SidebarSort::Kova ==> forall|k: int| 0 <= k < order.len() ==> #[trigger] order[k] == k
    &&& sort == SidebarSort::Activity ==> forall|j: int, k: int|
        0 <= j < k < order.len() ==> listed_before(states, #[trigger] order[j] as int, #[trigger] order[k] as int)
}

proof fn lemma_lists_each_once(order: Seq<usize>, n: usize)
    requires
        order.no_duplicates(),
        forall|k: int| 0 <= k < order.len() ==> 0 <= #[trigger] order[k] < n,
        forall|i: usize| 0 <= i < n ==> #[trigger] order.contains(i),
    ensures
        order.len() == n,
{
    let ints = order.map_values(|u: usize| u as int);
    assert(ints.no_duplicates()) by {
        assert forall|a: int, b: int| 0 <= a < ints.len() && 0 <= b < ints.len() && a != b implies ints[a] != ints[b] by {
            assert(order[a] != order[b]);
        }
    }
    ints.unique_seq_to_set();
    vstd::set_lib::lemma_int_range(0, n as int);
    assert(ints.to_set() =~= vstd::set_lib::set_int_range(0, n as int)) by {
        assert forall|x: int| ints.to_set().contains(x) <==> vstd::set_lib::set_int_range(0, n as int).contains(x) by {
            if 0 <= x < n {
                assert(order.contains(x as usize));
                let k = choose|k: int| 0 <= k < order.len() && order[k] == x as usize;
                assert(ints[k] == x);
            }
            if ints.contains(x) {
                let k = choose|k: int| 0 <= k < ints.len() && ints[k] == x;
                assert(0 <= order[k] < n);
            }
        }
    }
}

/// The order tabs are listed in: their own order, or by the most urgent state
/// of any of their panes (`tab_states[i]` is that state for tab `i`), ties
/// keeping the tab order so nothing jumps around while states are equal.
pub fn display_order(sort: SidebarSort, tab_states: &[TileState]) -> (order: Vec<usize>)
    ensures
        is_display_order(order@, sort, tab_states@),
{
    let n: usize = tab_states.len();
    let mut order: Vec<usize> = Vec::new();
    if sort == SidebarSort::Kova {
        for i in 0..n
            invariant
                order@.len() == i,
                forall|k: int| 0 <= k < i ==> #[trigger] order@[k] == k,
        {
            order.push(i);
        }
        assert forall|i: usize| 0 <= i < n implies #[trigger] order@.contains(i) by {
            assert(order@[i as int] == i);
        }
        return order;
    }
    let states = tab_states;
    for r in 0..6u8
        invariant
            n == tab_states@.len(),
            states@ == tab_states@,
            forall|k: int| 0 <= k < order@.len() ==> 0 <= #[trigger] order@[k] < n,
            forall|j: int, k: int|
                0 <= j < k < order@.len() ==> listed_before(states@, #[trigger] order@[j] as int, #[trigger] order@[k] as int),
            forall|i: usize| #![trigger order@.contains(i)]
                0 <= i < n ==> (order@.contains(i) <==> states@[i as int].urgency() < r),
    {
        for i in 0..n
            invariant
                n == tab_states@.len(),
                states@ == tab_states@,
                r < 6,
                forall|k: int| 0 <= k < order@.len() ==> 0 <= #[trigger] order@[k] < n,
                forall|j: int, k: int|
                    0 <= j < k < order@.len() ==> listed_before(states@, #[trigger] order@[j] as int, #[trigger] order@[k] as int),
                forall|m: usize| #![trigger order@.contains(m)]
                    0 <= m < n ==> (order@.contains(m) <==> (states@[m as int].urgency() < r || (
                    states@[m as int].urgency() == r && m < i))),
        {
            if states[i].rank() == r {
                let ghost before = order@;
                order.push(i);
                assert forall|m: usize| #![trigger order@.contains(m)] 0 <= m < n implies (order@.contains(m) <==> (
                    states@[m as int].urgency() < r || (states@[m as int].urgency() == r && m < i + 1))) by {
                    if before.contains(m) {
                        let k = choose|k: int| 0 <= k < before.len() && before[k] == m;
                        assert(order@[k] == m);
                    }
                    if m == i {
                        assert(order@[before.len() as int] == m);
                    }
                    if order@.contains(m) {
                        let k = choose|k: int| 0 <= k < order@.len() && order@[k] == m;
                        if k < before.len() {
                            assert(before[k] == m);
                        }
                    }
                }
                assert forall|j: int, k: int|
                    0 <= j < k < order@.len() implies listed_before(states@, #[trigger] order@[j] as int, #[trigger] order@[k] as int) by {
                    if k == before.len() {
                        assert(before.contains(before[j]));
                    }
                }
            }
        }
    }
    proof {
        assert forall|i: usize| 0 <= i < n implies #[trigger] order@.contains(i) by {
            assert(states@[i as int].urgency() < 6);
        }
        lemma_lists_each_once(order@, n);
    }
    order
}

/// There is one display order: two listings that qualify are the same.
pub proof fn display_order_is_unique(
    a: Seq<usize>,
    b: Seq<usize>,
    sort: SidebarSort,
    states: Seq<TileState>,
)
    requires
        is_display_order(a, sort, states),
        is_display_order(b, sort, states),
    ensures
        a == b,
{
    lemma_orders_agree(a, b, sort, states, a.len() as int);
    assert(a =~= b);
}

proof fn lemma_orders_agree(
    a: Seq<usize>,
    b: Seq<usize>,
    sort: SidebarSort,
    states: Seq<TileState>,
    n: int,
)
    requires
        is_display_order(a, sort, states),
        is_display_order(b, sort, states),
        0 <= n <= a.len(),
    ensures
        forall|k: int| 0 <= k < n ==> a[k] == b[k],
    decreases n,
{
    if n > 0 {
        lemma_orders_agree(a, b, sort, states, n - 1);
        let k = n - 1;
        if sort == SidebarSort::Activity && a[k] != b[k] {
            assert(b.contains(a[k]));
            let j = choose|j: int| 0 <= j < b.len() && b[j] == a[k];
            assert(a.contains(b[k]));
            let m = choose|m: int| 0 <= m < a.len() && a[m] == b[k];
            if j < k {
                assert(a[j] == b[j]);
            }
            if m < k {
                assert(a[m] == b[m]);
            }
            assert(listed_before(states, b[k] as int, b[j] as int));
            assert(listed_before(states, a[k] as int, a[m] as int));
        } else {
            assert(a[k] == b[k]);
        }
    }
}

// ---------------------------------------------------------------
// Tile states
// ---------------------------------------------------------------

/// What a pane tile says, in priority order: the first variant that applies
/// wins, and the order doubles as urgency for the activity sort and the
/// collapsed chips.
#[derive(Clone, Copy, Debug, PartialEq, Eq, Structural)]
pub enum TileState {
    /// A permission prompt is on screen (detected, never the hook flag alone).
    Awaiting,
    /// Output nobody looked at: a finished turn, a completion, or a bell.
    Unread { bell: bool },
    Working,
    /// An agent launched, its session not resolved yet.
    Starting,
    /// An agent session sitting open and quiet.
    Idle,
    /// A plain shell.
    Shell,
}

/// The reads of a pane that a tile state is derived from. `seen` is true for
/// the focused pane of the active tab.
#[derive(Clone, Copy, Debug, PartialEq, Eq, Structural)]
pub struct PaneFlags {
    pub permission_prompt: bool,
    /// The permission prompt on screen has not been looked at.
    pub prompt_unseen: bool,
    pub bell: bool,
    pub completion: bool,
    /// The hook's waiting flag, unseen. Paints `done`, not `waiting`: the
    /// `Stop` hook raises it at every turn end.
    pub hook_unseen: bool,
    pub turn_end_unseen: bool,
    pub working: bool,
    pub starting: bool,
    pub idle_agent: bool,
    pub seen: bool,
    /// The user marked the pane unread.
    pub manual: bool,
}

impl Default for PaneFlags {
    fn default() -> (f: Self)
        ensures
            f == PaneFlags::none(),
    {
        PaneFlags {
            permission_prompt: false,
            prompt_unseen: false,
            bell: false,
            completion: false,
            hook_unseen: false,
            turn_end_unseen: false,
            working: false,
            starting: false,
            idle_agent: false,
            seen: false,
            manual: false,
        }
    }
}

impl PaneFlags {
    pub open spec fn none() -> PaneFlags {
        PaneFlags {
            permission_prompt: false,
            prompt_unseen: false,
            bell: false,
            completion: false,
            hook_unseen: false,
            turn_end_unseen: false,
            working: false,
            starting: false,
            idle_agent: false,
            seen: false,
            manual: false,
        }
    }

    /// Something happened in the pane that was not looked at, or the user
    /// marked it so.
    pub open spec fn unread(self) -> bool {
        self.manual || (!self.seen && (self.completion || self.bell || self.hook_unseen
            || self.turn_end_unseen || self.prompt_unseen))
    }

    pub fn is_unread(self) -> (r: bool)
        ensures
            r == self.unread(),
    {
        self.manual || (!self.seen && (self.completion || self.bell || self.hook_unseen
            || self.turn_end_unseen || self.prompt_unseen))
    }
}

impl TileState {
    /// The state the flags call for: a prompt on screen unless the agent went
    /// back to work, then what nobody looked at, then what runs.
    pub open spec fn of_flags(f: PaneFlags) -> TileState {
        if f.permission_prompt && !f.working {
            TileState::Awaiting
        } else if !f.seen && (f.completion || f.bell || f.hook_unseen || f.turn_end_unseen) {
            TileState::Unread { bell: f.bell && !f.completion }
        } else if f.working {
            TileState::Working
        } else if f.starting {
            TileState::Starting
        } else if f.idle_agent {
            TileState::Idle
        } else {
            TileState::Shell
        }
    }

    pub fn from_flags(f: PaneFlags) -> (s: Self)
        ensures
            s == TileState::of_flags(f),
            f.seen ==> !(s is Unread),
    {
        if f.permission_prompt && !f.working {
            TileState::Awaiting
        } else if !f.seen && (f.completion || f.bell || f.hook_unseen || f.turn_end_unseen) {
            TileState::Unread { bell: f.bell && !f.completion }
        } else if f.working {
            TileState::Working
        } else if f.starting {
            TileState::Starting
        } else if f.idle_agent {
            TileState::Idle
        } else {
            TileState::Shell
        }
    }

    /// Urgency, lowest first: the place of the variant in the priority order.
    pub open spec fn urgency(self) -> u8 {
        match self {
            TileState::Awaiting => 0,
            TileState::Unread { .. } => 1,
            TileState::Working => 2,
            TileState::Starting => 3,
            TileState::Idle => 4,
            TileState::Shell => 5,
        }
    }

    pub fn rank(self) -> (r: u8)
        ensures
            r == self.urgency(),
            r < 6,
    {
        match self {
            TileState::Awaiting => 0,
            TileState::Unread { .. } => 1,
            TileState::Working => 2,
            TileState::Starting => 3,
            TileState::Idle => 4,
            TileState::Shell => 5,
        }
    }

    /// The first of the most urgent states, `Shell` for an empty group.
    pub open spec fn first_most_urgent(states: Seq<TileState>) -> TileState
        decreases states.len(),
    {
        if states.len() == 0 {
            TileState::Shell
        } else {
            let before = TileState::first_most_urgent(states.drop_last());
            if states.len() == 1 || states.last().urgency() < before.urgency() {
                states.last()
            } else {
                before
            }
        }
    }

    /// The most urgent of a group's states, `Shell` for an empty group.
    pub fn most_urgent(states: &[TileState]) -> (s: TileState)
        ensures
            s == TileState::first_most_urgent(states@),
            states@.len() == 0 ==> s == TileState::Shell,
            states@.len() > 0 ==> states@.contains(s),
            forall|k: int| 0 <= k < states@.len() ==> s.urgency() <= #[trigger] states@[k].urgency(),
    {
        if states.len() == 0 {
            return TileState::Shell;
        }
        let mut best: TileState = states[0];
        assert(states@.take(1).drop_last() =~= Seq::<TileState>::empty());
        assert(states@.take(1).last() == states@[0]);
        for i in 1..states.len()
            invariant
                1 <= i <= states@.len(),
                best == TileState::first_most_urgent(states@.take(i as int)),
                exists|k: int| 0 <= k < i && states@[k] == best,
                forall|k: int| 0 <= k < i ==> best.urgency() <= #[trigger] states@[k].urgency(),
        {
            assert(states@.take(i + 1).drop_last() =~= states@.take(i as int));
            assert(states@.take(i + 1).last() == states@[i as int]);
            if states[i].rank() < best.rank() {
                best = states[i];
            }
        }
        assert(states@.take(states@.len() as int) =~= states@);
        best
    }

    /// Chip copy. The awaiting tile shows its age instead of a chip.
    pub open spec fn chip_text(self) -> Seq<char> {
        match self {
            TileState::Awaiting => "waiting"@,
            TileState::Unread { bell } => if bell {
                "bell"@
            } else {
                "done"@
            },
            TileState::Working => "working"@,
            TileState::Starting => "starting"@,
            TileState::Idle => "idle"@,
            TileState::Shell => "shell"@,
        }
    }

    pub fn chip(self) -> (s: &'static str)
        ensures
            s@ == self.chip_text(),
    {
        match self {
            TileState::Awaiting => "waiting",
            TileState::Unread { bell: true } => "bell",
            TileState::Unread { bell: false } => "done",
            TileState::Working => "working",
            TileState::Starting => "starting",
            TileState::Idle => "idle",
            TileState::Shell => "shell",
        }
    }

    /// Neutral chips (idle, shell) are grey, and their glyph is a hollow ring.
    pub fn neutral(self) -> (r: bool)
        ensures
            r == (self == TileState::Idle || self == TileState::Shell),
    {
        matches!(self, TileState::Idle | TileState::Shell)
    }
}

/// How many of `states` equal `s`.
pub open spec fn count_of(states: Seq<TileState>, s: TileState) -> nat
    decreases states.len(),
{
    if states.len() == 0 {
        0
    } else {
        count_of(states.drop_last(), s) + if states.last() == s {
            1nat
        } else {
            0nat
        }
    }
}

/// What a collapsed header says about its panes: dots for the awaiting and
/// working panes, then the pane count.
#[derive(Clone, Copy, Debug, PartialEq, Eq, Structural)]
pub struct CollapsedSummary {
    pub awaiting: usize,
    pub working: usize,
    pub count: usize,
}

impl Default for CollapsedSummary {
    fn default() -> (s: Self)
        ensures
            s == (CollapsedSummary { awaiting: 0, working: 0, count: 0 }),
    {
        CollapsedSummary { awaiting: 0, working: 0, count: 0 }
    }
}

impl CollapsedSummary {
    pub open spec fn summarizes(self, states: Seq<TileState>) -> bool {
        &&& self.awaiting == count_of(states, TileState::Awaiting)
        &&& self.working == count_of(states, TileState::Working)
        &&& self.count == states.len()
    }

    pub fn of(states: &[TileState]) -> (s: Self)
        ensures
            s.summarizes(states@),
            s.awaiting + s.working <= s.count,
    {
        let mut s = CollapsedSummary::default();
        for i in 0..states.len()
            invariant
                s.summarizes(states@.take(i as int)),
                s.awaiting + s.working <= s.count,
        {
            assert(states@.take(i + 1).drop_last() =~= states@.take(i as int));
            assert(states@.take(i + 1).last() == states@[i as int]);
            s.count = s.count + 1;
            match states[i] {
                TileState::Awaiting => {
                    s.awaiting = s.awaiting + 1;
                },
                TileState::Working => {
                    s.working = s.working + 1;
                },
                _ => {},
            }
        }
        assert(states@.take(states@.len() as int) =~= states@);
        s
    }

    /// `k panes` / `1 pane`.
    pub fn count_label(&self) -> (s: String)
        ensures
            s@ == (if self.count == 1 {
                "1 pane"@
            } else {
                text::decimal(self.count as nat) + " panes"@
            }),
    {
        if self.count == 1 {
            "1 pane".to_string()
        } else {
            counted(self.count, " panes")
        }
    }
}

/// A number, then `tail`.
fn counted(n: usize, tail: &str) -> (s: String)
    ensures
        s@ == text::decimal(n as nat) + tail@,
{
    let mut s = String::new();
    push_decimal(&mut s, n as u64);
    s.append(tail);
    assert(s@ =~= text::decimal(n as nat) + tail@);
    s
}

// ---------------------------------------------------------------
// Tile actions
// ---------------------------------------------------------------

/// The click targets a tile carries besides its body.
#[derive(Clone, Copy, Debug, PartialEq, Eq, Structural)]
pub enum TileButton {
    Close,
    Minimize,
    Restore,
    /// Interrupt: the hover glyph, and the awaiting tile's Stop link.
    Stop,
    /// The hover glyph, and the bare shell tile's link that starts the agent.
    StartClaude,
    /// The hover glyph, and the Resume link of a shell holding an agent's
    /// resume line.
    Resume,
    /// The awaiting tile's Open button.
    Open,
}

impl TileButton {
    /// The Feather icon of the hover button and of the link.
    pub fn icon(self) -> (i: Icon)
        ensures
            i == (match self {
                TileButton::Close => Icon::X,
                TileButton::Minimize => Icon::Minimize,
                TileButton::Restore => Icon::Maximize,
                TileButton::Stop => Icon::Square,
                TileButton::StartClaude => Icon::Play,
                TileButton::Resume => Icon::Play,
                TileButton::Open => Icon::Play,
            }),
    {
        match self {
            TileButton::Close => Icon::X,
            TileButton::Minimize => Icon::Minimize,
            TileButton::Restore => Icon::Maximize,
            TileButton::Stop => Icon::Square,
            TileButton::StartClaude | TileButton::Resume | TileButton::Open => Icon::Play,
        }
    }

    /// The tooltip of the hover button; `agent` is the agent's display name.
    pub fn tooltip(self, agent: &str) -> (s: String)
        ensures
            s@ == (match self {
                TileButton::Close => "Close"@,
                TileButton::Minimize => "Minimize"@,
                TileButton::Restore => "Restore"@,
                TileButton::Stop => "Stop"@,
                TileButton::StartClaude => "Start "@ + agent@ + " here"@,
                TileButton::Resume => "Resume the session"@,
                TileButton::Open => "Open"@,
            }),
    {
        match self {
            TileButton::Close => "Close".to_string(),
            TileButton::Minimize => "Minimize".to_string(),
            TileButton::Restore => "Restore".to_string(),
            TileButton::Stop => "Stop".to_string(),
            TileButton::StartClaude => {
                let mut s = start_label(agent);
                s.append(" here");
                s
            },
            TileButton::Resume => "Resume the session".to_string(),
            TileButton::Open => "Open".to_string(),
        }
    }

    /// The hover glyphs of a tile, right to left: close, minimize / restore,
    /// stop when something can be interrupted, start the agent on a bare shell,
    /// resume on a shell holding a resume line.
    pub open spec fn glyphs(
        state: TileState,
        minimized: bool,
        bare_shell: bool,
        resumable: bool,
    ) -> Seq<TileButton> {
        seq![
            TileButton::Close,
            if minimized {
                TileButton::Restore
            } else {
                TileButton::Minimize
            },
        ] + (if state == TileState::Working || state == TileState::Awaiting {
            seq![TileButton::Stop]
        } else {
            seq![]
        }) + (if bare_shell {
            seq![TileButton::StartClaude]
        } else if resumable {
            seq![TileButton::Resume]
        } else {
            seq![]
        })
    }

    pub fn hover_glyphs(
        state: TileState,
        minimized: bool,
        bare_shell: bool,
        resumable: bool,
    ) -> (out: Vec<TileButton>)
        ensures
            out@ == TileButton::glyphs(state, minimized, bare_shell, resumable),
    {
        let mut out: Vec<TileButton> = Vec::new();
        out.push(TileButton::Close);
        out.push(
            if minimized {
                TileButton::Restore
            } else {
                TileButton::Minimize
            },
        );
        if matches!(state, TileState::Working | TileState::Awaiting) {
            out.push(TileButton::Stop);
        }
        if bare_shell {
            out.push(TileButton::StartClaude);
        } else if resumable {
            out.push(TileButton::Resume);
        }
        assert(out@ =~= TileButton::glyphs(state, minimized, bare_shell, resumable));
        out
    }
}

/// Copy of the awaiting tile's action line and the shell tile's call.
pub const OPEN_LABEL: &'static str = "Open";

pub const STOP_LABEL: &'static str = "Stop";

pub const RESUME_LABEL: &'static str = "Resume";

/// Copy of the bare shell tile's link; `agent` is the agent's display name.
pub fn start_label(agent: &str) -> (s: String)
    ensures
        s@ == "Start "@ + agent@,
{
    let mut s = "Start ".to_string();
    s.append(agent);
    s
}

// ---------------------------------------------------------------
// Pane drag arithmetic
// ---------------------------------------------------------------

/// The adjacent swaps that move the item at `from` to `to`.
pub open spec fn adjacent_swaps(len: int, from: int, to: int) -> Seq<(usize, usize)> {
    if from >= len || to >= len {
        Seq::empty()
    } else if from < to {
        Seq::new((to - from) as nat, |k: int| ((from + k) as usize, (from + k + 1) as usize))
    } else {
        Seq::new((from - to) as nat, |k: int| ((from - k) as usize, (from - k - 1) as usize))
    }
}

/// The adjacent swaps that move the item at `from` to `to` in a list of
/// `len`, keeping every other item in order: what a pane drop replays. Each
/// pair is (index, index) before that swap.
pub fn swap_chain(len: usize, from: usize, to: usize) -> (chain: Vec<(usize, usize)>)
    ensures
        chain@ == adjacent_swaps(len as int, from as int, to as int),
{
    let mut chain: Vec<(usize, usize)> = Vec::new();
    if from >= len || to >= len {
        assert(chain@ =~= adjacent_swaps(len as int, from as int, to as int));
        return chain;
    }
    if from < to {
        for i in from..to
            invariant
                from <= i <= to < len,
                chain@.len() == i - from,
                forall|k: int| 0 <= k < chain@.len() ==> #[trigger] chain@[k] == (
                    (from + k) as usize,
                    (from + k + 1) as usize,
                ),
        {
            chain.push((i, i + 1));
        }
    } else {
        let mut i: usize = from;
        while i > to
            invariant
                to <= i <= from < len,
                chain@.len() == from - i,
                forall|k: int| 0 <= k < chain@.len() ==> #[trigger] chain@[k] == (
                    (from - k) as usize,
                    (from - k - 1) as usize,
                ),
            decreases i,
        {
            chain.push((i, i - 1));
            i = i - 1;
        }
    }
    assert(chain@ =~= adjacent_swaps(len as int, from as int, to as int));
    chain
}

/// `s` with the items at `i` and `j` exchanged.
pub open spec fn exchanged<A>(s: Seq<A>, i: int, j: int) -> Seq<A> {
    s.update(i, s[j]).update(j, s[i])
}

/// `s` after the exchanges of `chain`, first to last.
pub open spec fn replayed<A>(s: Seq<A>, chain: Seq<(usize, usize)>) -> Seq<A>
    decreases chain.len(),
{
    if chain.len() == 0 {
        s
    } else {
        let before = replayed(s, chain.drop_last());
        exchanged(before, chain.last().0 as int, chain.last().1 as int)
    }
}

/// `s` with the item at `from` taken out and put back at `to`.
pub open spec fn moved<A>(s: Seq<A>, from: int, to: int) -> Seq<A> {
    s.remove(from).insert(to, s[from])
}

/// Replaying the chain of adjacent swaps moves the item at `from` to `to` and
/// keeps every other item in order.
pub proof fn swap_chain_moves_one_item<A>(s: Seq<A>, from: usize, to: usize)
    requires
        from < s.len() <= usize::MAX,
        to < s.len(),
    ensures
        replayed(s, adjacent_swaps(s.len() as int, from as int, to as int)) == moved(
            s,
            from as int,
            to as int,
        ),
    decreases
            (if from < to {
                to - from
            } else {
                from - to
            }),
{
    let chain = adjacent_swaps(s.len() as int, from as int, to as int);
    if from == to {
        assert(chain.len() == 0);
        assert(moved(s, from as int, to as int) =~= s);
    } else if from < to {
        let prev = (to - 1) as usize;
        swap_chain_moves_one_item(s, from, prev);
        assert(chain.drop_last() =~= adjacent_swaps(s.len() as int, from as int, prev as int));
        assert(chain.last() == (prev, to));
        assert(exchanged(moved(s, from as int, prev as int), prev as int, to as int) =~= moved(
            s,
            from as int,
            to as int,
        ));
    } else {
        let prev = (to + 1) as usize;
        swap_chain_moves_one_item(s, from, prev);
        assert(chain.drop_last() =~= adjacent_swaps(s.len() as int, from as int, prev as int));
        assert(chain.last() == (prev, to));
        assert(exchanged(moved(s, from as int, prev as int), prev as int, to as int) =~= moved(
            s,
            from as int,
            to as int,
        ));
    }
}

/// The index a dragged item ends at when dropped in `slot` of a list it
/// already belongs to at `from`.
pub open spec fn dropped_at(from: int, slot: int) -> int {
    if slot > from {
        slot - 1
    } else {
        slot
    }
}

pub fn drop_index(from: usize, slot: usize) -> (to: usize)
    ensures
        to == dropped_at(from as int, slot as int),
{
    if slot > from {
        slot - 1
    } else {
        slot
    }
}

/// Dropping an item of a list in one of its slots (0 up to the length) ends
/// at an index of the list, with exactly the items that were before the slot,
/// the dragged one left out, before it.
pub proof fn drop_index_lands_in_its_slot<A>(s: Seq<A>, from: int, slot: int)
    requires
        0 <= from < s.len(),
        0 <= slot <= s.len(),
    ensures
        0 <= dropped_at(from, slot) < s.len(),
        moved(s, from, dropped_at(from, slot)) == (if slot > from {
            s.subrange(0, from) + s.subrange(from + 1, slot) + seq![s[from]] + s.skip(slot)
        } else {
            s.take(slot) + seq![s[from]] + s.subrange(slot, from) + s.skip(from + 1)
        }),
{
    if slot > from {
        assert(moved(s, from, dropped_at(from, slot)) =~= s.subrange(0, from) + s.subrange(
            from + 1,
            slot,
        ) + seq![s[from]] + s.skip(slot));
    } else {
        assert(moved(s, from, dropped_at(from, slot)) =~= s.take(slot) + seq![s[from]]
            + s.subrange(slot, from) + s.skip(from + 1));
    }
}

// ---------------------------------------------------------------
// Summary and Next pill
// ---------------------------------------------------------------

/// One coloured run of the summary line.
#[derive(Clone, Copy, Debug, PartialEq, Eq, Structural)]
pub enum SummaryRun {
    Waiting,
    Working,
    Idle,
    Dot,
}

/// The text and colour of each run.
pub open spec fn run_texts(runs: Seq<(String, SummaryRun)>) -> Seq<(Seq<char>, SummaryRun)> {
    runs.map_values(|r: (String, SummaryRun)| (r.0@, r.1))
}

/// The runs so far, then a dot when there are any, then `n` and its `word`;
/// unchanged when `n` is zero.
pub open spec fn with_run(
    runs: Seq<(Seq<char>, SummaryRun)>,
    n: nat,
    word: Seq<char>,
    run: SummaryRun,
) -> Seq<(Seq<char>, SummaryRun)> {
    if n == 0 {
        runs
    } else {
        (if runs.len() > 0 {
            runs.push((" \u{b7} "@, SummaryRun::Dot))
        } else {
            runs
        }).push((text::decimal(n) + word, run))
    }
}

/// The summary line: the counts that are not zero, dots between them, or
/// `nothing running`.
pub open spec fn summary_line(waiting: nat, working: nat, idle: nat) -> Seq<(
    Seq<char>,
    SummaryRun,
)> {
    let runs = with_run(
        with_run(
            with_run(Seq::empty(), waiting, " waiting"@, SummaryRun::Waiting),
            working,
            " working"@,
            SummaryRun::Working,
        ),
        idle,
        " idle"@,
        SummaryRun::Idle,
    );
    if runs.len() == 0 {
        seq![("nothing running"@, SummaryRun::Idle)]
    } else {
        runs
    }
}

fn push_run(runs: &mut Vec<(String, SummaryRun)>, n: usize, word: &str, run: SummaryRun)
    ensures
        run_texts(final(runs)@) == with_run(run_texts(old(runs)@), n as nat, word@, run),
{
    let ghost before = run_texts(runs@);
    if n > 0 {
        if runs.len() > 0 {
            runs.push((" \u{b7} ".to_string(), SummaryRun::Dot));
        }
        runs.push((counted(n, word), run));
    }
    assert(run_texts(runs@) =~= with_run(before, n as nat, word@, run));
}

/// `2 waiting · 3 working · 4 idle`, each count its own run so the view
/// colours them apart; zero counts are left out; `nothing running` when all
/// three are zero.
pub fn summary_runs(waiting: usize, working: usize, idle: usize) -> (runs: Vec<
    (String, SummaryRun),
>)
    ensures
        run_texts(runs@) == summary_line(waiting as nat, working as nat, idle as nat),
{
    let mut runs: Vec<(String, SummaryRun)> = Vec::new();
    assert(run_texts(runs@) =~= Seq::empty());
    push_run(&mut runs, waiting, " waiting", SummaryRun::Waiting);
    push_run(&mut runs, working, " working", SummaryRun::Working);
    push_run(&mut runs, idle, " idle", SummaryRun::Idle);
    if runs.len() == 0 {
        runs.push(("nothing running".to_string(), SummaryRun::Idle));
        assert(run_texts(runs@) =~= seq![("nothing running"@, SummaryRun::Idle)]);
    }
    runs
}

/// What the Next pill shows.
#[derive(Clone, Copy, Debug, PartialEq, Eq, Structural)]
pub enum NextPill {
    /// Unread panes left: accent pill, count badge.
    Next(usize),
    /// Nothing unread, idle sessions left: neutral pill, count badge.
    Idle(usize),
    /// The last unread was just read: a short green flash.
    CaughtUp,
    /// Nothing to read at all: dim, not clickable.
    Nothing,
}

impl NextPill {
    pub open spec fn shows(unread: usize, idle: usize, flashing: bool) -> NextPill {
        if unread > 0 {
            NextPill::Next(unread)
        } else if idle > 0 {
            NextPill::Idle(idle)
        } else if flashing {
            NextPill::CaughtUp
        } else {
            NextPill::Nothing
        }
    }

    pub fn of(unread: usize, idle: usize, flashing: bool) -> (p: Self)
        ensures
            p == NextPill::shows(unread, idle, flashing),
    {
        if unread > 0 {
            NextPill::Next(unread)
        } else if idle > 0 {
            NextPill::Idle(idle)
        } else if flashing {
            NextPill::CaughtUp
        } else {
            NextPill::Nothing
        }
    }

    pub fn label(self) -> (s: &'static str)
        ensures
            s@ == (match self {
                NextPill::Next(_) => "Next unread"@,
                NextPill::Idle(_) => "Next idle"@,
                NextPill::CaughtUp => "\u{2713} All caught up"@,
                NextPill::Nothing => "\u{2713} Nothing to read"@,
            }),
    {
        match self {
            NextPill::Next(_) => "Next unread",
            NextPill::Idle(_) => "Next idle",
            NextPill::CaughtUp => "\u{2713} All caught up",
            NextPill::Nothing => "\u{2713} Nothing to read",
        }
    }

    /// The filled play before the label of the clickable states.
    pub fn icon(self) -> (i: Option<Icon>)
        ensures
            i == (if self.has_count() {
                Some(Icon::Play)
            } else {
                None
            }),
    {
        if self.clickable() {
            Some(Icon::Play)
        } else {
            None
        }
    }

    pub open spec fn has_count(self) -> bool {
        self is Next || self is Idle
    }

    pub fn badge(self) -> (n: Option<usize>)
        ensures
            n == (match self {
                NextPill::Next(k) => Some(k),
                NextPill::Idle(k) => Some(k),
                _ => None,
            }),
    {
        match self {
            NextPill::Next(n) | NextPill::Idle(n) => Some(n),
            _ => None,
        }
    }

    pub fn clickable(self) -> (r: bool)
        ensures
            r == self.has_count(),
    {
        matches!(self, NextPill::Next(_) | NextPill::Idle(_))
    }
}

/// The pill is clickable exactly when something is unread or idle, and then
/// counts it; unread panes win over idle sessions.
pub proof fn next_pill_counts_what_it_leads_to(unread: usize, idle: usize, flashing: bool)
    ensures
        NextPill::shows(unread, idle, flashing).has_count() <==> unread > 0 || idle > 0,
        unread > 0 ==> NextPill::shows(unread, idle, flashing) == NextPill::Next(unread),
{
}

// ---------------------------------------------------------------
// The unread walk
// ---------------------------------------------------------------

/// The first index from `from` on whose pane is unread, the length without
/// one.
pub open spec fn unread_from(order: Seq<(u32, bool)>, from: int) -> int
    decreases order.len() - from,
{
    if from >= order.len() {
        order.len() as int
    } else if order[from].1 {
        from
    } else {
        unread_from(order, from + 1)
    }
}

/// The first index holding the pane `id`, -1 without one.
pub open spec fn index_of_pane(order: Seq<(u32, bool)>, id: u32, from: int) -> int
    decreases order.len() - from,
{
    if from >= order.len() {
        -1
    } else if order[from].0 == id {
        from
    } else {
        index_of_pane(order, id, from + 1)
    }
}

/// The unread pane after `current` in `order`, wrapping around to the panes
/// up to `current`; from the start without a current pane.
pub open spec fn unread_after(order: Seq<(u32, bool)>, current: Option<u32>) -> Option<u32> {
    let start = match current {
        Some(id) => index_of_pane(order, id, 0) + 1,
        None => 0,
    };
    let ahead = unread_from(order, start);
    let first = unread_from(order, 0);
    if ahead < order.len() {
        Some(order[ahead].0)
    } else if first < order.len() {
        Some(order[first].0)
    } else {
        None
    }
}

proof fn lemma_unread_from(order: Seq<(u32, bool)>, from: int)
    requires
        0 <= from <= order.len(),
    ensures
        from <= unread_from(order, from) <= order.len(),
        unread_from(order, from) < order.len() ==> order[unread_from(order, from)].1,
        forall|k: int| from <= k < unread_from(order, from) ==> !(#[trigger] order[k]).1,
    decreases order.len() - from,
{
    if from < order.len() && !order[from].1 {
        lemma_unread_from(order, from + 1);
    }
}

fn find_unread(order: &Vec<(u32, bool)>, from: usize) -> (i: usize)
    requires
        from <= order@.len(),
    ensures
        i == unread_from(order@, from as int),
        i <= order@.len(),
{
    let mut i: usize = from;
    while i < order.len() && !order[i].1
        invariant
            from <= i <= order@.len(),
            unread_from(order@, i as int) == unread_from(order@, from as int),
        decreases order@.len() - i,
    {
        i = i + 1;
    }
    i
}

/// The pane a jump to the next unread lands on: the unread pane after
/// `current` in the walk, wrapping; `None` when nothing is unread.
pub fn next_unread(order: &Vec<(u32, bool)>, current: Option<u32>) -> (target: Option<u32>)
    ensures
        target == unread_after(order@, current),
{
    let mut start: usize = 0;
    match current {
        Some(id) => {
            let mut i: usize = 0;
            while i < order.len() && order[i].0 != id
                invariant
                    i <= order@.len(),
                    index_of_pane(order@, id, i as int) == index_of_pane(order@, id, 0),
                decreases order@.len() - i,
            {
                i = i + 1;
            }
            if i < order.len() {
                start = i + 1;
            }
        },
        None => {},
    }
    let ahead = find_unread(order, start);
    if ahead < order.len() {
        return Some(order[ahead].0);
    }
    let first = find_unread(order, 0);
    if first < order.len() {
        Some(order[first].0)
    } else {
        None
    }
}

/// The walk lands on the first unread pane past the one at `at`, else on the
/// first of all.
pub proof fn lemma_next_unread(order: Seq<(u32, bool)>, id: u32, at: int)
    requires
        0 <= at < order.len(),
        order[at].0 == id,
        forall|j: int| 0 <= j < at ==> (#[trigger] order[j]).0 != id,
    ensures
        forall|k: int|
            at < k < order.len() && (#[trigger] order[k]).1 && (forall|j: int|
                at < j < k ==> !(#[trigger] order[j]).1) ==> unread_after(order, Some(id)) == Some(
                order[k].0,
            ),
        forall|k: int|
            0 <= k <= at && (#[trigger] order[k]).1 && (forall|j: int|
                at < j < order.len() ==> !(#[trigger] order[j]).1) && (forall|j: int|
                0 <= j < k ==> !(#[trigger] order[j]).1) ==> unread_after(order, Some(id)) == Some(
                order[k].0,
            ),
{
    lemma_first_index(order, id, 0, at);
    lemma_unread_from(order, at + 1);
    lemma_unread_from(order, 0);
    lemma_unread_first(order, at + 1);
    lemma_unread_first(order, 0);
}

proof fn lemma_first_index(order: Seq<(u32, bool)>, id: u32, from: int, at: int)
    requires
        0 <= from <= at < order.len(),
        order[at].0 == id,
        forall|j: int| from <= j < at ==> (#[trigger] order[j]).0 != id,
    ensures
        index_of_pane(order, id, from) == at,
    decreases at - from,
{
    if from < at {
        lemma_first_index(order, id, from + 1, at);
    }
}

proof fn lemma_unread_first(order: Seq<(u32, bool)>, from: int)
    requires
        0 <= from <= order.len(),
    ensures
        from <= unread_from(order, from) <= order.len(),
        unread_from(order, from) < order.len() ==> order[unread_from(order, from)].1,
        forall|k: int| from <= k < unread_from(order, from) ==> !(#[trigger] order[k]).1,
    decreases order.len() - from,
{
    if from < order.len() && !order[from].1 {
        lemma_unread_first(order, from + 1);
    }
}

/// The walk lands somewhere exactly when some pane is unread, and lands on an
/// unread pane.
pub proof fn next_unread_lands_on_unread(order: Seq<(u32, bool)>, current: Option<u32>)
    ensures
        unread_after(order, current) is Some <==> exists|k: int|
            0 <= k < order.len() && (#[trigger] order[k]).1,
        unread_after(order, current) matches Some(id) ==> exists|k: int|
            0 <= k < order.len() && (#[trigger] order[k]).1 && order[k].0 == id,
{
    lemma_unread_from(order, 0);
    if let Some(id) = current {
        lemma_index_of_pane(order, id, 0);
        lemma_unread_from(order, index_of_pane(order, id, 0) + 1);
    }
}

proof fn lemma_index_of_pane(order: Seq<(u32, bool)>, id: u32, from: int)
    requires
        0 <= from <= order.len(),
    ensures
        -1 <= index_of_pane(order, id, from) < order.len(),
        index_of_pane(order, id, from) >= 0 ==> order[index_of_pane(order, id, from)].0 == id,
    decreases order.len() - from,
{
    if from < order.len() && order[from].0 != id {
        lemma_index_of_pane(order, id, from + 1);
    }
}

// ---------------------------------------------------------------
// Ages
// ---------------------------------------------------------------

/// An age in its largest whole unit of seconds, minutes or hours.
pub open spec fn age_text(secs: u64) -> Seq<char> {
    if secs < 60 {
        text::decimal(secs as nat) + "s"@
    } else if secs < 3600 {
        text::decimal((secs / 60) as nat) + "m"@
    } else {
        text::decimal((secs / 3600) as nat) + "h"@
    }
}

/// `4s`, `12m`, `3h`: how long a pane has been waiting.
pub fn format_age(secs: u64) -> (s: String)
    ensures
        s@ == age_text(secs),
{
    let mut s = String::new();
    if secs < 60 {
        push_decimal(&mut s, secs);
        s.append("s");
    } else if secs < 3600 {
        push_decimal(&mut s, secs / 60);
        s.append("m");
    } else {
        push_decimal(&mut s, secs / 3600);
        s.append("h");
    }
    assert(s@ =~= age_text(secs));
    s
}

/// Seconds after which a waiting pane's age turns red.
pub const AGING_SECS: u64 = 600;

/// A pane that waits for an answer outranks every other state, what is unread
/// comes next, then what works, what starts, and an idle agent; a bare shell
/// comes last.
pub proof fn states_rank_by_urgency(f: PaneFlags, a: TileState, b: TileState)
    ensures
        f.permission_prompt && !f.working <==> TileState::of_flags(f) == TileState::Awaiting,
        !(f.permission_prompt && !f.working) && !f.seen && (f.completion || f.bell
            || f.hook_unseen || f.turn_end_unseen) ==> TileState::of_flags(f) is Unread,
        TileState::of_flags(f) is Unread ==> !f.seen,
        f.working && f.seen ==> TileState::of_flags(f) == TileState::Working,
        TileState::of_flags(f) == TileState::Working ==> f.working,
        TileState::of_flags(f) == TileState::Idle ==> f.idle_agent && !f.working && !f.starting,
        a is Awaiting && !(b is Awaiting) ==> a.urgency() < b.urgency(),
        a is Unread && b is Unread ==> a.urgency() == b.urgency(),
        a is Unread && b is Working ==> a.urgency() < b.urgency(),
        a is Working && b is Starting ==> a.urgency() < b.urgency(),
        a is Starting && b is Idle ==> a.urgency() < b.urgency(),
        a is Idle && b is Shell ==> a.urgency() < b.urgency(),
{
}

} // verus!
