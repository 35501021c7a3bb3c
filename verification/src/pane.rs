//! Panes and tabs: what a window holds.
//!
//! A tab lists its panes column by column, top to bottom within a column,
//! each pane naming the column it sits in.
use crate::sidebar_model::PromptPreview;
use vstd::prelude::*;

verus! {

pub type PaneId = u32;

pub type TabId = u32;

/// Whether a list holds an id.
pub(crate) fn lists_id(ids: &Vec<u32>, id: u32) -> (r: bool)
    ensures
        r == ids@.contains(id),
{
    for i in 0..ids.len()
        invariant
            forall|k: int| 0 <= k < i ==> ids@[k] != id,
    {
        if ids[i] == id {
            assert(ids@[i as int] == id);
            return true;
        }
    }
    false
}

#[derive(Clone, Copy, Debug, PartialEq, Eq, Structural)]
pub enum NavDirection {
    Left,
    Right,
    Up,
    Down,
}

/// `Horizontal` puts the new pane in a column of its own to the right,
/// `Vertical` puts it below in the same column.
#[derive(Clone, Copy, Debug, PartialEq, Eq, Structural)]
pub enum SplitDirection {
    Horizontal,
    Vertical,
}

#[derive(Clone, Copy, Debug, PartialEq, Eq, Structural)]
pub enum SplitAxis {
    Horizontal,
    Vertical,
}

/// A child process of a pane's shell.
#[derive(Debug, PartialEq)]
pub struct ChildProcess {
    pub pid: u32,
    pub name: String,
    pub version: Option<String>,
}

impl Clone for ChildProcess {
    fn clone(&self) -> (c: Self)
        ensures
            c == *self,
    {
        ChildProcess {
            pid: self.pid,
            name: self.name.clone(),
            version: crate::sidebar_model::copy_text(&self.version),
        }
    }
}

/// What is known of the agent running, or resumable, in a pane.
#[derive(Debug, PartialEq)]
pub struct AgentFacts {
    /// The live agent's command name.
    pub kind: Option<String>,
    pub session_id: Option<String>,
    pub session_name: Option<String>,
    /// The session id and name when the agent is the one whose sessions a
    /// client can resume by id.
    pub claude_session_id: Option<String>,
    pub claude_session_name: Option<String>,
    /// The agent and session id of the resume line waiting at the prompt.
    pub restored: Option<(String, String)>,
    pub working: bool,
    pub starting: bool,
    pub idle: bool,
    pub permission_prompt: bool,
    pub prompt_unseen: bool,
    pub turn_end_unseen: bool,
    pub waits: WaitFacts,
}

/// What a pane waits for the user with.
#[derive(Debug, PartialEq)]
pub struct WaitFacts {
    /// Seconds since the epoch at which the pane started waiting for the
    /// user, while it waits.
    pub since: Option<u64>,
    /// The waiting pane has been looked at since it started waiting.
    pub seen: bool,
    pub preview: Option<PromptPreview>,
}

/// What a pane's terminal and shell report.
#[derive(Debug, PartialEq)]
pub struct TermFacts {
    /// The title shown for the pane.
    pub display_title: String,
    /// The title the running application set.
    pub title: Option<String>,
    /// The directory the shell reports, the one it was started in until it
    /// does.
    pub cwd: Option<String>,
    pub git_branch: Option<String>,
    /// The foreground process, when it is not the shell.
    pub process: Option<String>,
    /// The last command typed at the prompt.
    pub last_command: Option<String>,
    pub pid: u32,
    pub children: Vec<ChildProcess>,
    pub cols: u16,
    pub rows: u16,
    pub focus_reporting: bool,
    /// The shell has shown its prompt.
    pub ready: bool,
    /// A process is attached.
    pub live: bool,
    pub exited: bool,
    pub bare_shell: bool,
    pub has_selection: bool,
    pub in_alt_screen: bool,
}

/// One pane.
#[derive(Debug, PartialEq)]
pub struct Pane {
    pub id: PaneId,
    /// The column the pane sits in, counted from the left.
    pub column: usize,
    pub minimized: bool,
    /// The sticky title.
    pub custom_title: Option<String>,
    /// A sticky title the shell asked for, not taken yet.
    pub osc1_title: Option<String>,
    /// A command to type once the shell is ready.
    pub pending_command: Option<String>,
    pub bell: bool,
    /// A command finished since the last one started.
    pub completed: bool,
    /// The pane has been looked at since that command finished.
    pub completion_seen: bool,
    /// The user marked the pane unread.
    pub marked_unread: bool,
    pub term: TermFacts,
    pub agent: AgentFacts,
}

/// One tab.
#[derive(Debug, PartialEq)]
pub struct Tab {
    pub id: TabId,
    /// The panes, column by column.
    pub panes: Vec<Pane>,
    pub focused_pane: PaneId,
    pub custom_title: Option<String>,
    /// The title shown without a custom one.
    pub auto_title: String,
    pub color: Option<usize>,
    /// Folded in the sidebar.
    pub collapsed: bool,
    pub has_bell: bool,
    pub has_completion: bool,
    pub has_running: bool,
    /// The minimized panes, the last minimized one last.
    pub minimized_stack: Vec<PaneId>,
}

impl WaitFacts {
    /// The pane waits no more: its flag and what it showed go.
    pub open spec fn answered() -> WaitFacts {
        WaitFacts { since: None, seen: false, preview: None }
    }

    /// The pane waits from `now` on, unless it did already; nobody looked yet.
    pub open spec fn waiting(self, now: u64) -> WaitFacts {
        WaitFacts {
            since: if self.since is Some {
                self.since
            } else {
                Some(now)
            },
            seen: false,
            ..self
        }
    }

    pub fn clear_awaiting(&mut self)
        ensures
            *final(self) == WaitFacts::answered(),
    {
        self.since = None;
        self.seen = false;
        self.preview = None;
    }

    pub fn set_awaiting(&mut self, now: u64)
        ensures
            *final(self) == old(self).waiting(now),
    {
        if self.since.is_none() {
            self.since = Some(now);
        }
        self.seen = false;
    }
}

/// A pane that waits no more.
pub open spec fn answered(p: Pane) -> Pane {
    Pane { agent: AgentFacts { waits: WaitFacts::answered(), ..p.agent }, ..p }
}

/// A pane that waits from `now` on.
pub open spec fn waiting(p: Pane, now: u64) -> Pane {
    Pane { agent: AgentFacts { waits: p.agent.waits.waiting(now), ..p.agent }, ..p }
}

/// The first pane at or after `from` with the id, the length without one.
pub open spec fn pos_from(panes: Seq<Pane>, id: PaneId, from: int) -> int
    decreases panes.len() - from,
{
    if from >= panes.len() {
        panes.len() as int
    } else if panes[from].id == id {
        from
    } else {
        pos_from(panes, id, from + 1)
    }
}

/// The first pane with the id, the length without one.
pub open spec fn pos(panes: Seq<Pane>, id: PaneId) -> int {
    pos_from(panes, id, 0)
}

/// Some pane has the id.
pub open spec fn has_pane(panes: Seq<Pane>, id: PaneId) -> bool {
    exists|i: int| 0 <= i < panes.len() && (#[trigger] panes[i]).id == id
}

pub proof fn lemma_pos_from(panes: Seq<Pane>, id: PaneId, from: int)
    requires
        0 <= from <= panes.len(),
    ensures
        from <= pos_from(panes, id, from) <= panes.len(),
        pos_from(panes, id, from) < panes.len() ==> panes[pos_from(panes, id, from)].id == id,
        forall|k: int| from <= k < pos_from(panes, id, from) ==> (#[trigger] panes[k]).id != id,
    decreases panes.len() - from,
{
    if from < panes.len() && panes[from].id != id {
        lemma_pos_from(panes, id, from + 1);
    }
}

/// `pos` finds the first pane with the id, if there is one.
pub proof fn lemma_pos(panes: Seq<Pane>, id: PaneId)
    ensures
        0 <= pos(panes, id) <= panes.len(),
        pos(panes, id) < panes.len() <==> has_pane(panes, id),
        pos(panes, id) < panes.len() ==> panes[pos(panes, id)].id == id,
        forall|k: int| 0 <= k < pos(panes, id) ==> (#[trigger] panes[k]).id != id,
{
    lemma_pos_from(panes, id, 0);
    if has_pane(panes, id) {
        let i = choose|i: int| 0 <= i < panes.len() && (#[trigger] panes[i]).id == id;
        assert(panes[i].id == id);
    }
}

/// The first pane that is not minimized, the length without one.
pub open spec fn visible_from(panes: Seq<Pane>, from: int) -> int
    decreases panes.len() - from,
{
    if from >= panes.len() {
        panes.len() as int
    } else if !panes[from].minimized {
        from
    } else {
        visible_from(panes, from + 1)
    }
}

pub proof fn lemma_visible_from(panes: Seq<Pane>, from: int)
    requires
        0 <= from <= panes.len(),
    ensures
        from <= visible_from(panes, from) <= panes.len(),
        visible_from(panes, from) < panes.len() ==> !panes[visible_from(panes, from)].minimized,
        forall|k: int| from <= k < visible_from(panes, from) ==> (#[trigger] panes[k]).minimized,
    decreases panes.len() - from,
{
    if from < panes.len() && panes[from].minimized {
        lemma_visible_from(panes, from + 1);
    }
}

/// The columns are numbered from 0 without a gap, in the order of the list.
pub open spec fn columns_ok(panes: Seq<Pane>) -> bool {
    &&& panes.len() > 0 ==> panes[0].column == 0
    &&& forall|i: int, j: int|
        0 <= i < panes.len() && 0 <= j < panes.len() && j == i + 1 ==> (#[trigger] panes[j]).column
            == (#[trigger] panes[i]).column || panes[j].column == panes[i].column + 1
}

/// The list is in column order, and no column number exceeds the index.
pub proof fn lemma_columns_sorted(panes: Seq<Pane>, i: int, j: int)
    requires
        columns_ok(panes),
        0 <= i <= j < panes.len(),
    ensures
        panes[i].column <= panes[j].column <= panes[i].column + (j - i),
        panes[j].column <= j,
    decreases j,
{
    if i < j {
        lemma_columns_sorted(panes, i, j - 1);
        assert(panes[j].column == panes[j - 1].column || panes[j].column == panes[j - 1].column
            + 1);
    } else if j > 0 {
        lemma_columns_sorted(panes, j - 1, j - 1);
        assert(panes[j].column == panes[j - 1].column || panes[j].column == panes[j - 1].column
            + 1);
    }
}

/// No two panes share an id.
pub open spec fn distinct_ids(panes: Seq<Pane>) -> bool {
    forall|i: int, j: int|
        0 <= i < j < panes.len() ==> (#[trigger] panes[i]).id != (#[trigger] panes[j]).id
}

impl Tab {
    /// A tab as the window keeps it: not empty, each pane once, columns
    /// numbered without gaps, the focus on one of its panes.
    pub open spec fn wf(self) -> bool {
        &&& self.panes@.len() > 0
        &&& distinct_ids(self.panes@)
        &&& columns_ok(self.panes@)
        &&& has_pane(self.panes@, self.focused_pane)
    }

    /// The title shown: the custom one, else the derived one.
    pub open spec fn shown_title(self) -> String {
        match self.custom_title {
            Some(t) => t,
            None => self.auto_title,
        }
    }

    pub fn title(&self) -> (s: String)
        ensures
            s == self.shown_title(),
    {
        match &self.custom_title {
            Some(t) => t.clone(),
            None => self.auto_title.clone(),
        }
    }

    /// The index of the pane with the id.
    pub fn find(&self, id: PaneId) -> (i: usize)
        ensures
            i == pos(self.panes@, id),
            i <= self.panes@.len(),
            i < self.panes@.len() <==> has_pane(self.panes@, id),
    {
        proof {
            lemma_pos(self.panes@, id);
        }
        let mut i: usize = 0;
        while i < self.panes.len() && self.panes[i].id != id
            invariant
                i <= self.panes@.len(),
                pos_from(self.panes@, id, i as int) == pos(self.panes@, id),
            decreases self.panes@.len() - i,
        {
            i = i + 1;
        }
        i
    }

    pub fn contains(&self, id: PaneId) -> (r: bool)
        ensures
            r == has_pane(self.panes@, id),
    {
        self.find(id) < self.panes.len()
    }

    /// The pane with the id.
    pub fn pane(&self, id: PaneId) -> (r: Option<&Pane>)
        ensures
            r == (if has_pane(self.panes@, id) {
                Some(&self.panes@[pos(self.panes@, id)])
            } else {
                None
            }),
    {
        let i = self.find(id);
        if i < self.panes.len() {
            Some(&self.panes[i])
        } else {
            None
        }
    }

    pub fn is_single_pane(&self) -> (r: bool)
        ensures
            r == (self.panes@.len() == 1),
    {
        self.panes.len() == 1
    }

    /// How many columns a list of panes has.
    pub open spec fn column_count(panes: Seq<Pane>) -> int {
        if panes.len() == 0 {
            0
        } else {
            panes.last().column + 1
        }
    }

    pub fn num_columns(&self) -> (n: usize)
        requires
            columns_ok(self.panes@),
        ensures
            n == Tab::column_count(self.panes@),
            n <= self.panes@.len(),
    {
        let n: usize = self.panes.len();
        if n == 0 {
            0
        } else {
            proof {
                lemma_columns_sorted(self.panes@, n - 1, n - 1);
            }
            self.panes[n - 1].column + 1
        }
    }
}

// ---------------------------------------------------------------
// Taking a pane out
// ---------------------------------------------------------------

/// The pane at `i` is the only one of its column.
pub open spec fn alone(panes: Seq<Pane>, i: int) -> bool {
    &&& i == 0 || panes[i - 1].column != panes[i].column
    &&& i + 1 == panes.len() || panes[i + 1].column != panes[i].column
}

/// A pane in the column to the left of its own.
pub open spec fn one_left(p: Pane) -> Pane {
    Pane { column: (p.column - 1) as usize, ..p }
}

/// A pane in the column to the right of its own.
pub open spec fn one_right(p: Pane) -> Pane {
    Pane { column: (p.column + 1) as usize, ..p }
}

/// The panes without the one at `i`; when it was alone in its column the
/// columns to the right close up.
pub open spec fn without(panes: Seq<Pane>, i: int) -> Seq<Pane> {
    if alone(panes, i) {
        Seq::new(
            (panes.len() - 1) as nat,
            |k: int|
                if k < i {
                    panes[k]
                } else {
                    one_left(panes[k + 1])
                },
        )
    } else {
        panes.remove(i)
    }
}

/// Taking a pane out keeps the columns numbered, the ids distinct, and every
/// other pane.
pub proof fn lemma_without(panes: Seq<Pane>, i: int)
    requires
        columns_ok(panes),
        distinct_ids(panes),
        0 <= i < panes.len(),
    ensures
        without(panes, i).len() == panes.len() - 1,
        columns_ok(without(panes, i)),
        distinct_ids(without(panes, i)),
        forall|id: PaneId| #[trigger] has_pane(without(panes, i), id) <==> has_pane(panes, id) && id
            != panes[i].id,
{
    let w = without(panes, i);
    assert forall|k: int| 0 <= k < w.len() implies (#[trigger] w[k]).id == panes[if k < i {
        k
    } else {
        k + 1
    }].id by {}
    if w.len() > 0 {
        lemma_columns_sorted(panes, 0, 0);
        if i == 0 {
            assert(panes[1].column == panes[0].column || panes[1].column == panes[0].column + 1);
        }
    }
    assert forall|a: int, b: int|
        0 <= a < w.len() && 0 <= b < w.len() && b == a + 1 implies (#[trigger] w[b]).column == (
    #[trigger] w[a]).column || w[b].column == w[a].column + 1 by {
        let pa = if a < i {
            a
        } else {
            a + 1
        };
        let pb = if b < i {
            b
        } else {
            b + 1
        };
        if pb == pa + 1 {
            assert(panes[pb].column == panes[pa].column || panes[pb].column == panes[pa].column + 1);
            if pa > i {
                lemma_columns_sorted(panes, i, pa);
                lemma_columns_sorted(panes, i + 1, pa);
                lemma_columns_sorted(panes, i + 1, pb);
                assert(panes[i + 1].column == panes[i].column || panes[i + 1].column == panes[i].column + 1);
            }
        } else {
            assert(pa == i - 1 && pb == i + 1);
            assert(panes[i].column == panes[pa].column || panes[i].column == panes[pa].column + 1);
            assert(panes[pb].column == panes[i].column || panes[pb].column == panes[i].column + 1);
        }
    }
    assert forall|id: PaneId| #[trigger] has_pane(w, id) <==> has_pane(panes, id) && id
        != panes[i].id by {
        if has_pane(panes, id) && id != panes[i].id {
            let j = choose|j: int| 0 <= j < panes.len() && (#[trigger] panes[j]).id == id;
            assert(w[if j < i {
                j
            } else {
                j - 1
            }].id == id);
        }
        if has_pane(w, id) {
            let k = choose|k: int| 0 <= k < w.len() && (#[trigger] w[k]).id == id;
            assert(panes[if k < i {
                k
            } else {
                k + 1
            }].id == id);
        }
    }
}

/// `stack` without the occurrences of `id`.
pub open spec fn stack_without(stack: Seq<PaneId>, id: PaneId) -> Seq<PaneId>
    decreases stack.len(),
{
    if stack.len() == 0 {
        stack
    } else {
        let before = stack_without(stack.drop_last(), id);
        if stack.last() == id {
            before
        } else {
            before.push(stack.last())
        }
    }
}

/// Drop every occurrence of `id` from the stack.
pub fn retain_other(stack: &mut Vec<PaneId>, id: PaneId)
    ensures
        final(stack)@ == stack_without(old(stack)@, id),
{
    let mut kept: Vec<PaneId> = Vec::new();
    assert(stack@.take(0) =~= Seq::empty());
    for i in 0..stack.len()
        invariant
            kept@ == stack_without(stack@.take(i as int), id),
    {
        assert(stack@.take(i + 1).drop_last() =~= stack@.take(i as int));
        if stack[i] != id {
            kept.push(stack[i]);
        }
    }
    assert(stack@.take(stack@.len() as int) =~= stack@);
    *stack = kept;
}

impl Tab {
    /// Take the pane at `i` out.
    pub fn take_out(&mut self, i: usize) -> (p: Pane)
        requires
            i < old(self).panes@.len(),
            columns_ok(old(self).panes@),
        ensures
            p == old(self).panes@[i as int],
            final(self).panes@ == without(old(self).panes@, i as int),
            *final(self) == (Tab { panes: final(self).panes, ..*old(self) }),
    {
        let n: usize = self.panes.len();
        let lone = (i == 0 || self.panes[i - 1].column != self.panes[i].column) && (i + 1 == n
            || self.panes[i + 1].column != self.panes[i].column);
        let ghost all = self.panes@;
        let p = self.panes.remove(i);
        if lone {
            let mut k: usize = i;
            while k < self.panes.len()
                invariant
                    i <= k <= self.panes@.len(),
                    self.panes@.len() == all.len() - 1,
                    alone(all, i as int),
                    columns_ok(all),
                    all == old(self).panes@,
                    forall|m: int| 0 <= m < i ==> self.panes@[m] == all[m],
                    forall|m: int| i <= m < k ==> self.panes@[m] == one_left(all[m + 1]),
                    forall|m: int| k <= m < self.panes@.len() ==> self.panes@[m] == all[m + 1],
                    *self == (Tab { panes: self.panes, ..*old(self) }),
                decreases self.panes@.len() - k,
            {
                proof {
                    lemma_columns_sorted(all, i as int, k + 1);
                    lemma_columns_sorted(all, i as int, i + 1);
                    lemma_columns_sorted(all, i + 1, k + 1);
                }
                let c: usize = self.panes[k].column - 1;
                self.panes[k].column = c;
                k = k + 1;
            }
            assert(self.panes@ =~= without(all, i as int));
        }
        p
    }

    /// Remove the pane with the id and drop it. Refused, returning `false`,
    /// when it is not there or is the last one.
    pub fn remove_pane(&mut self, id: PaneId) -> (removed: bool)
        requires
            columns_ok(old(self).panes@),
        ensures
            removed == (has_pane(old(self).panes@, id) && old(self).panes@.len() > 1),
            !removed ==> *final(self) == *old(self),
            removed ==> final(self).panes@ == without(
                old(self).panes@,
                pos(old(self).panes@, id),
            ),
            *final(self) == (Tab { panes: final(self).panes, ..*old(self) }),
    {
        let i = self.find(id);
        if i >= self.panes.len() || self.panes.len() == 1 {
            return false;
        }
        let gone = self.take_out(i);
        true
    }
}

// ---------------------------------------------------------------
// Putting a pane in
// ---------------------------------------------------------------

/// The first index at or after `from` whose column lies right of `c`, the
/// length without one.
pub open spec fn right_of(panes: Seq<Pane>, c: int, from: int) -> int
    decreases panes.len() - from,
{
    if from >= panes.len() {
        panes.len() as int
    } else if panes[from].column > c {
        from
    } else {
        right_of(panes, c, from + 1)
    }
}

pub proof fn lemma_right_of(panes: Seq<Pane>, c: int, from: int)
    requires
        columns_ok(panes),
        0 <= from <= panes.len(),
    ensures
        from <= right_of(panes, c, from) <= panes.len(),
        forall|k: int| from <= k < right_of(panes, c, from) ==> (#[trigger] panes[k]).column <= c,
        forall|k: int|
            right_of(panes, c, from) <= k < panes.len() ==> (#[trigger] panes[k]).column > c,
    decreases panes.len() - from,
{
    if from < panes.len() {
        if panes[from].column > c {
            assert forall|k: int| from <= k < panes.len() implies (#[trigger] panes[k]).column > c by {
                lemma_columns_sorted(panes, from, k);
            }
        } else {
            lemma_right_of(panes, c, from + 1);
        }
    }
}

/// `new` in a column of its own right of column `c`, the columns from there
/// on moving one to the right.
pub open spec fn with_column(panes: Seq<Pane>, c: int, new: Pane) -> Seq<Pane> {
    let q = right_of(panes, c, 0);
    Seq::new(
        panes.len() + 1,
        |k: int|
            if k < q {
                panes[k]
            } else if k == q {
                Pane { column: (c + 1) as usize, ..new }
            } else {
                one_right(panes[k - 1])
            },
    )
}

/// `new` below the pane at `i`, in its column.
pub open spec fn with_below(panes: Seq<Pane>, i: int, new: Pane) -> Seq<Pane> {
    panes.insert(i + 1, Pane { column: panes[i].column, ..new })
}

/// A column put in right of a column of the list keeps the columns numbered.
pub proof fn lemma_with_column(panes: Seq<Pane>, i: int, new: Pane)
    requires
        columns_ok(panes),
        0 <= i < panes.len() <= usize::MAX,
    ensures
        columns_ok(with_column(panes, panes[i].column as int, new)),
        forall|id: PaneId| #[trigger]
            has_pane(with_column(panes, panes[i].column as int, new), id) <==> has_pane(panes, id)
                || id == new.id,
        distinct_ids(panes) && !has_pane(panes, new.id) ==> distinct_ids(
            with_column(panes, panes[i].column as int, new),
        ),
{
    let c = panes[i].column as int;
    let q = right_of(panes, c, 0);
    let w = with_column(panes, c, new);
    lemma_right_of(panes, c, 0);
    lemma_columns_sorted(panes, i, i);
    if q > 0 {
        lemma_columns_sorted(panes, 0, q - 1);
        if i < q - 1 {
            lemma_columns_sorted(panes, i, q - 1);
        }
    }
    assert(q > i);
    assert(panes[q - 1].column == c);
    assert forall|k: int| 0 <= k < w.len() implies (#[trigger] w[k]).id == (if k == q {
        new.id
    } else if k < q {
        panes[k].id
    } else {
        panes[k - 1].id
    }) by {}
    assert forall|a: int, b: int|
        0 <= a < w.len() && 0 <= b < w.len() && b == a + 1 implies (#[trigger] w[b]).column == (
    #[trigger] w[a]).column || w[b].column == w[a].column + 1 by {
        if b < q {
            assert(panes[b].column == panes[a].column || panes[b].column == panes[a].column + 1);
        } else if b > q {
            lemma_columns_sorted(panes, b - 1, b - 1);
            if a > q {
                lemma_columns_sorted(panes, a - 1, a - 1);
                assert(panes[b - 1].column == panes[a - 1].column || panes[b - 1].column
                    == panes[a - 1].column + 1);
            } else {
                assert(panes[q].column == panes[q - 1].column || panes[q].column == panes[q
                    - 1].column + 1);
            }
        }
    }
    assert forall|id: PaneId| #[trigger] has_pane(w, id) <==> has_pane(panes, id) || id
        == new.id by {
        if has_pane(panes, id) {
            let j = choose|j: int| 0 <= j < panes.len() && (#[trigger] panes[j]).id == id;
            assert(w[if j < q {
                j
            } else {
                j + 1
            }].id == id);
        }
        if id == new.id {
            assert(w[q].id == id);
        }
        if has_pane(w, id) {
            let k = choose|k: int| 0 <= k < w.len() && (#[trigger] w[k]).id == id;
            if k != q {
                assert(panes[if k < q {
                    k
                } else {
                    k - 1
                }].id == id);
            }
        }
    }
}

/// A pane put in below another keeps the columns numbered.
pub proof fn lemma_with_below(panes: Seq<Pane>, i: int, new: Pane)
    requires
        columns_ok(panes),
        0 <= i < panes.len(),
    ensures
        columns_ok(with_below(panes, i, new)),
        forall|id: PaneId| #[trigger]
            has_pane(with_below(panes, i, new), id) <==> has_pane(panes, id) || id == new.id,
        distinct_ids(panes) && !has_pane(panes, new.id) ==> distinct_ids(
            with_below(panes, i, new),
        ),
{
    let w = with_below(panes, i, new);
    assert forall|k: int| 0 <= k < w.len() implies (#[trigger] w[k]).id == (if k == i + 1 {
        new.id
    } else if k <= i {
        panes[k].id
    } else {
        panes[k - 1].id
    }) by {}
    assert forall|a: int, b: int|
        0 <= a < w.len() && 0 <= b < w.len() && b == a + 1 implies (#[trigger] w[b]).column == (
    #[trigger] w[a]).column || w[b].column == w[a].column + 1 by {
        let pa = if a <= i {
            a
        } else {
            a - 1
        };
        let pb = if b <= i {
            b
        } else {
            b - 1
        };
        if pb == pa + 1 {
            assert(panes[pb].column == panes[pa].column || panes[pb].column == panes[pa].column
                + 1);
        }
    }
    assert forall|id: PaneId| #[trigger] has_pane(w, id) <==> has_pane(panes, id) || id
        == new.id by {
        if has_pane(panes, id) {
            let j = choose|j: int| 0 <= j < panes.len() && (#[trigger] panes[j]).id == id;
            assert(w[if j <= i {
                j
            } else {
                j + 1
            }].id == id);
        }
        if id == new.id {
            assert(w[i + 1].id == id);
        }
        if has_pane(w, id) {
            let k = choose|k: int| 0 <= k < w.len() && (#[trigger] w[k]).id == id;
            if k != i + 1 {
                assert(panes[if k <= i {
                    k
                } else {
                    k - 1
                }].id == id);
            }
        }
    }
}

impl Tab {
    /// Put `new` in a column of its own, right of the column of the pane at
    /// `i`.
    pub fn insert_column_after(&mut self, i: usize, new: Pane)
        requires
            i < old(self).panes@.len(),
            columns_ok(old(self).panes@),
        ensures
            final(self).panes@ == with_column(
                old(self).panes@,
                old(self).panes@[i as int].column as int,
                new,
            ),
            *final(self) == (Tab { panes: final(self).panes, ..*old(self) }),
    {
        assert(self.panes.len() == self.panes@.len());
        let ghost all = self.panes@;
        let c: usize = self.panes[i].column;
        let mut q: usize = 0;
        while q < self.panes.len() && self.panes[q].column <= c
            invariant
                q <= self.panes@.len(),
                right_of(self.panes@, c as int, q as int) == right_of(self.panes@, c as int, 0),
            decreases self.panes@.len() - q,
        {
            q = q + 1;
        }
        proof {
            lemma_columns_sorted(all, i as int, i as int);
        }
        let mut p = new;
        p.column = c + 1;
        self.panes.insert(q, p);
        assert(self.panes.len() == self.panes@.len());
        let mut k: usize = q + 1;
        while k < self.panes.len()
            invariant
                q < k <= self.panes@.len(),
                self.panes@.len() == all.len() + 1,
                all.len() <= usize::MAX,
                columns_ok(all),
                all == old(self).panes@,
                q == right_of(all, c as int, 0),
                forall|m: int| 0 <= m < q ==> self.panes@[m] == all[m],
                self.panes@[q as int] == (Pane { column: (c + 1) as usize, ..new }),
                forall|m: int| q < m < k ==> self.panes@[m] == one_right(all[m - 1]),
                forall|m: int| k <= m < self.panes@.len() ==> self.panes@[m] == all[m - 1],
                *self == (Tab { panes: self.panes, ..*old(self) }),
            decreases self.panes@.len() - k,
        {
            proof {
                lemma_columns_sorted(all, k - 1, k - 1);
            }
            let right: usize = self.panes[k].column + 1;
            self.panes[k].column = right;
            k = k + 1;
        }
        assert(self.panes@ =~= with_column(all, c as int, new));
    }

    /// Put `new` below the pane at `i`.
    pub fn insert_below(&mut self, i: usize, new: Pane)
        requires
            i < old(self).panes@.len(),
        ensures
            final(self).panes@ == with_below(old(self).panes@, i as int, new),
            *final(self) == (Tab { panes: final(self).panes, ..*old(self) }),
    {
        assert(self.panes.len() == self.panes@.len());
        let mut p = new;
        p.column = self.panes[i].column;
        self.panes.insert(i + 1, p);
    }
}

// ---------------------------------------------------------------
// Minimizing
// ---------------------------------------------------------------

/// A pane shown again.
pub open spec fn shown(p: Pane) -> Pane {
    Pane { minimized: false, ..p }
}

/// A pane folded away.
pub open spec fn folded(p: Pane) -> Pane {
    Pane { minimized: true, ..p }
}

/// The column of the last pane that is not minimized.
pub open spec fn last_visible_column(panes: Seq<Pane>) -> Option<usize>
    decreases panes.len(),
{
    if panes.len() == 0 {
        None
    } else if !panes.last().minimized {
        Some(panes.last().column)
    } else {
        last_visible_column(panes.drop_last())
    }
}

/// How many columns hold a pane that is not minimized.
pub open spec fn visible_columns(panes: Seq<Pane>) -> nat
    decreases panes.len(),
{
    if panes.len() == 0 {
        0
    } else {
        visible_columns(panes.drop_last()) + if panes.last().minimized || last_visible_column(
            panes.drop_last(),
        ) == Some(panes.last().column) {
            0nat
        } else {
            1nat
        }
    }
}

/// The id of the first pane that is not minimized.
pub open spec fn first_visible(panes: Seq<Pane>) -> Option<PaneId> {
    if visible_from(panes, 0) < panes.len() {
        Some(panes[visible_from(panes, 0)].id)
    } else {
        None
    }
}

/// `t` with the pane `id` shown again and off the stack.
pub open spec fn is_restored(t: Tab, before: Tab, id: PaneId) -> bool {
    &&& t.panes@ == (if has_pane(before.panes@, id) {
        before.panes@.update(
            pos(before.panes@, id),
            shown(before.panes@[pos(before.panes@, id)]),
        )
    } else {
        before.panes@
    })
    &&& t.minimized_stack@ == stack_without(before.minimized_stack@, id)
    &&& t == (Tab { panes: t.panes, minimized_stack: t.minimized_stack, ..before })
}

/// The pane on top of the stack, if the tab holds it.
pub open spec fn last_minimized(t: Tab) -> Option<PaneId> {
    if t.minimized_stack@.len() > 0 && has_pane(t.panes@, t.minimized_stack@.last()) {
        Some(t.minimized_stack@.last())
    } else {
        None
    }
}

/// A change of flags keeps what is needed of a list of panes.
pub proof fn lemma_update_flags(panes: Seq<Pane>, i: int, p: Pane)
    requires
        0 <= i < panes.len(),
        p.id == panes[i].id,
        p.column == panes[i].column,
    ensures
        columns_ok(panes) ==> columns_ok(panes.update(i, p)),
        distinct_ids(panes) ==> distinct_ids(panes.update(i, p)),
        forall|id: PaneId| #[trigger]
            has_pane(panes.update(i, p), id) <==> has_pane(panes, id),
        forall|id: PaneId| #[trigger] pos(panes.update(i, p), id) == pos(panes, id),
{
    let w = panes.update(i, p);
    assert(forall|k: int| 0 <= k < w.len() ==> (#[trigger] w[k]).id == panes[k].id && w[k].column
        == panes[k].column);
    if columns_ok(panes) {
        assert forall|a: int, b: int|
            0 <= a < w.len() && 0 <= b < w.len() && b == a + 1 implies (#[trigger] w[b]).column == (
        #[trigger] w[a]).column || w[b].column == w[a].column + 1 by {
            assert(panes[b].column == panes[a].column || panes[b].column == panes[a].column + 1);
        }
    }
    assert forall|id: PaneId| #[trigger] has_pane(w, id) <==> has_pane(panes, id) by {
        if has_pane(panes, id) {
            let j = choose|j: int| 0 <= j < panes.len() && (#[trigger] panes[j]).id == id;
            assert(w[j].id == id);
        }
        if has_pane(w, id) {
            let j = choose|j: int| 0 <= j < w.len() && (#[trigger] w[j]).id == id;
            assert(panes[j].id == id);
        }
    }
    assert forall|id: PaneId| #[trigger] pos(w, id) == pos(panes, id) by {
        lemma_pos(w, id);
        lemma_pos(panes, id);
        let a = pos(w, id);
        let b = pos(panes, id);
        if a < b {
            assert(w[a].id == panes[a].id);
        }
        if b < a {
            assert(w[b].id == panes[b].id);
        }
    }
}

impl Tab {
    pub fn first_pane_id(&self) -> (id: PaneId)
        requires
            self.panes@.len() > 0,
        ensures
            id == self.panes@[0].id,
    {
        self.panes[0].id
    }

    pub fn last_pane_id(&self) -> (id: PaneId)
        requires
            self.panes@.len() > 0,
        ensures
            id == self.panes@.last().id,
    {
        self.panes[self.panes.len() - 1].id
    }

    pub fn first_visible_pane(&self) -> (id: Option<PaneId>)
        ensures
            id == first_visible(self.panes@),
    {
        let mut i: usize = 0;
        while i < self.panes.len() && self.panes[i].minimized
            invariant
                i <= self.panes@.len(),
                visible_from(self.panes@, i as int) == visible_from(self.panes@, 0),
            decreases self.panes@.len() - i,
        {
            i = i + 1;
        }
        if i < self.panes.len() {
            Some(self.panes[i].id)
        } else {
            None
        }
    }

    pub fn num_visible_columns(&self) -> (n: usize)
        ensures
            n == visible_columns(self.panes@),
            n <= self.panes@.len(),
    {
        let mut n: usize = 0;
        let mut last: Option<usize> = None;
        assert(self.panes@.take(0) =~= Seq::empty());
        for i in 0..self.panes.len()
            invariant
                n == visible_columns(self.panes@.take(i as int)),
                n <= i,
                last == last_visible_column(self.panes@.take(i as int)),
        {
            assert(self.panes@.take(i + 1).drop_last() =~= self.panes@.take(i as int));
            let c: usize = self.panes[i].column;
            if !self.panes[i].minimized {
                let same = match last {
                    Some(l) => l == c,
                    None => false,
                };
                if !same {
                    n = n + 1;
                }
                last = Some(c);
            }
        }
        assert(self.panes@.take(self.panes@.len() as int) =~= self.panes@);
        n
    }

    /// Show the pane again; nothing happens to the focus.
    pub fn restore_pane(&mut self, id: PaneId)
        ensures
            is_restored(*final(self), *old(self), id),
    {
        let i = self.find(id);
        if i < self.panes.len() {
            self.panes[i].minimized = false;
        }
        retain_other(&mut self.minimized_stack, id);
    }

    /// Show the last minimized pane again and focus it.
    pub fn restore_last_minimized(&mut self) -> (restored: bool)
        ensures
            restored == last_minimized(*old(self)) is Some,
            !restored ==> *final(self) == *old(self),
            restored ==> exists|t: Tab| #[trigger]
                is_restored(t, *old(self), last_minimized(*old(self))->0) && *final(self) == (Tab {
                    focused_pane: last_minimized(*old(self))->0,
                    ..t
                }),
    {
        let n: usize = self.minimized_stack.len();
        if n == 0 {
            return false;
        }
        let id: PaneId = self.minimized_stack[n - 1];
        if !self.contains(id) {
            return false;
        }
        self.restore_pane(id);
        let ghost t = *self;
        self.focused_pane = id;
        assert(is_restored(t, *old(self), last_minimized(*old(self))->0));
        true
    }

    /// Fold the pane away. Refused when it is not there, is folded already,
    /// or is the only pane that shows. The focus moves off it to the first
    /// pane that shows.
    pub fn minimize_pane(&mut self, id: PaneId) -> (done: bool)
        ensures
            done == can_minimize(old(self).panes@, id),
            !done ==> *final(self) == *old(self),
            done ==> final(self).panes@ == old(self).panes@.update(
                pos(old(self).panes@, id),
                folded(old(self).panes@[pos(old(self).panes@, id)]),
            ),
            done ==> final(self).minimized_stack@ == old(self).minimized_stack@.push(id),
            done ==> final(self).focused_pane == (if old(self).focused_pane == id {
                first_visible(final(self).panes@)->0
            } else {
                old(self).focused_pane
            }),
            *final(self) == (Tab {
                panes: final(self).panes,
                minimized_stack: final(self).minimized_stack,
                focused_pane: final(self).focused_pane,
                ..*old(self)
            }),
    {
        let i = self.find(id);
        proof {
            lemma_pos(self.panes@, id);
        }
        if i >= self.panes.len() || self.panes[i].minimized {
            return false;
        }
        let mut other = false;
        for k in 0..self.panes.len()
            invariant
                i == pos(self.panes@, id),
                i < self.panes@.len(),
                other == exists|m: int| 0 <= m < k && m != i && !(#[trigger] self.panes@[m]).minimized,
        {
            if k != i && !self.panes[k].minimized {
                other = true;
            }
        }
        if !other {
            return false;
        }
        self.panes[i].minimized = true;
        self.minimized_stack.push(id);
        if self.focused_pane == id {
            proof {
                lemma_visible_from(self.panes@, 0);
                let m = choose|m: int|
                    0 <= m < old(self).panes@.len() && m != i && !(#[trigger] old(
                        self,
                    ).panes@[m]).minimized;
                assert(!self.panes@[m].minimized);
            }
            match self.first_visible_pane() {
                Some(f) => {
                    self.focused_pane = f;
                },
                None => {},
            }
        }
        true
    }

    /// When every pane is folded, show the last minimized one again; returns
    /// the pane shown. The focus is left alone.
    pub fn ensure_visible_pane(&mut self) -> (shown_again: Option<PaneId>)
        ensures
            shown_again == (if first_visible(old(self).panes@) is Some {
                None
            } else {
                last_minimized(*old(self))
            }),
            shown_again is None ==> *final(self) == *old(self),
            shown_again matches Some(id) ==> is_restored(*final(self), *old(self), id),
    {
        if self.first_visible_pane().is_some() {
            return None;
        }
        let n: usize = self.minimized_stack.len();
        if n == 0 {
            return None;
        }
        let id: PaneId = self.minimized_stack[n - 1];
        if !self.contains(id) {
            return None;
        }
        self.restore_pane(id);
        Some(id)
    }
}

/// The pane can be folded away: it is there, shows, and is not the only one
/// that does.
pub open spec fn can_minimize(panes: Seq<Pane>, id: PaneId) -> bool {
    &&& has_pane(panes, id)
    &&& !panes[pos(panes, id)].minimized
    &&& exists|m: int|
        0 <= m < panes.len() && m != pos(panes, id) && !(#[trigger] panes[m]).minimized
}

// ---------------------------------------------------------------
// Moving panes around
// ---------------------------------------------------------------

/// The column `c` becomes when columns `a` and `b` trade places.
pub open spec fn traded(c: usize, a: usize, b: usize) -> usize {
    if c == a {
        b
    } else if c == b {
        a
    } else {
        c
    }
}

/// A pane in the column its own becomes.
pub open spec fn relabelled(p: Pane, a: usize, b: usize) -> Pane {
    Pane { column: traded(p.column, a, b), ..p }
}

/// The panes of what becomes column `col` when columns `a` and `b` trade
/// places, in order.
pub open spec fn new_column(panes: Seq<Pane>, a: usize, b: usize, col: int) -> Seq<Pane>
    decreases panes.len(),
{
    if panes.len() == 0 {
        Seq::empty()
    } else {
        let before = new_column(panes.drop_last(), a, b, col);
        if traded(panes.last().column, a, b) == col {
            before.push(relabelled(panes.last(), a, b))
        } else {
            before
        }
    }
}

/// The first `n` columns after columns `a` and `b` traded places.
pub open spec fn columns_traded(panes: Seq<Pane>, a: usize, b: usize, n: int) -> Seq<Pane>
    decreases n,
{
    if n <= 0 {
        Seq::empty()
    } else {
        columns_traded(panes, a, b, n - 1) + new_column(panes, a, b, n - 1)
    }
}

/// The panes with columns `a` and `b` exchanged as wholes.
pub open spec fn exchanged_columns(panes: Seq<Pane>, a: usize, b: usize) -> Seq<Pane> {
    columns_traded(panes, a, b, Tab::column_count(panes))
}

proof fn lemma_new_column(panes: Seq<Pane>, a: usize, b: usize, col: int)
    ensures
        forall|k: int|
            0 <= k < new_column(panes, a, b, col).len() ==> (#[trigger] new_column(
                panes,
                a,
                b,
                col,
            )[k]).column == col,
        forall|k: int|
            0 <= k < new_column(panes, a, b, col).len() ==> has_pane(
                panes,
                (#[trigger] new_column(panes, a, b, col)[k]).id,
            ),
        forall|j: int|
            0 <= j < panes.len() && traded((#[trigger] panes[j]).column, a, b) == col ==> has_pane(
                new_column(panes, a, b, col),
                panes[j].id,
            ),
        distinct_ids(panes) ==> distinct_ids(new_column(panes, a, b, col)),
    decreases panes.len(),
{
    if panes.len() > 0 {
        let prev = panes.drop_last();
        let before = new_column(prev, a, b, col);
        let after = new_column(panes, a, b, col);
        lemma_new_column(prev, a, b, col);
        assert forall|k: int| 0 <= k < after.len() implies has_pane(panes, (#[trigger] after[k]).id) by {
            if k < before.len() {
                assert(after[k] == before[k]);
                assert(has_pane(prev, before[k].id));
                let j = choose|j: int| 0 <= j < prev.len() && (#[trigger] prev[j]).id == before[k].id;
                assert(panes[j].id == after[k].id);
            } else {
                assert(panes[panes.len() - 1].id == after[k].id);
            }
        }
        assert forall|j: int|
            0 <= j < panes.len() && traded((#[trigger] panes[j]).column, a, b) == col implies has_pane(after, panes[j].id) by {
            if j < prev.len() {
                assert(prev[j] == panes[j]);
                assert(has_pane(before, prev[j].id));
                let k = choose|k: int| 0 <= k < before.len() && (#[trigger] before[k]).id == prev[j].id;
                assert(after[k].id == panes[j].id);
            } else {
                assert(after[after.len() - 1].id == panes[j].id);
            }
        }
        if distinct_ids(panes) {
            assert(distinct_ids(prev)) by {
                assert forall|x: int, y: int| 0 <= x < y < prev.len() implies (#[trigger] prev[x]).id != (#[trigger] prev[y]).id by {
                    assert(panes[x].id != panes[y].id);
                }
            }
            assert forall|x: int, y: int| 0 <= x < y < after.len() implies (#[trigger] after[x]).id != (#[trigger] after[y]).id by {
                if y < before.len() {
                    assert(before[x].id != before[y].id);
                } else {
                    assert(has_pane(prev, before[x].id));
                    let j = choose|j: int| 0 <= j < prev.len() && (#[trigger] prev[j]).id == before[x].id;
                    assert(panes[j].id != panes[panes.len() - 1].id);
                }
            }
        }
    }
}

/// Every column below the count holds a pane.
proof fn lemma_column_holds(panes: Seq<Pane>, col: int) -> (i: int)
    requires
        columns_ok(panes),
        0 <= col < Tab::column_count(panes),
    ensures
        0 <= i < panes.len(),
        panes[i].column == col,
    decreases panes.len(),
{
    let n = panes.len() - 1;
    if panes[n].column == col {
        n
    } else {
        let prev = panes.drop_last();
        lemma_columns_sorted(panes, n, n);
        assert(n > 0);
        assert(panes[n].column == panes[n - 1].column || panes[n].column == panes[n - 1].column + 1);
        assert forall|x: int, y: int|
            0 <= x < prev.len() && 0 <= y < prev.len() && y == x + 1 implies (#[trigger] prev[y]).column == (
        #[trigger] prev[x]).column || prev[y].column == prev[x].column + 1 by {
            assert(panes[y].column == panes[x].column || panes[y].column == panes[x].column + 1);
        }
        lemma_column_holds(prev, col)
    }
}

/// The pane is one of `panes`, in the column its own becomes.
pub open spec fn is_relabelled(panes: Seq<Pane>, p: Pane, a: usize, b: usize) -> bool {
    exists|j: int|
        0 <= j < panes.len() && (#[trigger] panes[j]).id == p.id && traded(panes[j].column, a, b)
            == p.column
}

/// The columns of the traded panes are numbered without gaps.
proof fn lemma_traded_columns(panes: Seq<Pane>, a: usize, b: usize, n: int)
    requires
        columns_ok(panes),
        a < Tab::column_count(panes),
        b < Tab::column_count(panes),
        0 <= n <= Tab::column_count(panes),
    ensures
        columns_ok(columns_traded(panes, a, b, n)),
        Tab::column_count(columns_traded(panes, a, b, n)) == n,
    decreases n,
{
    if n > 0 {
        let before = columns_traded(panes, a, b, n - 1);
        let group = new_column(panes, a, b, n - 1);
        let after = columns_traded(panes, a, b, n);
        lemma_traded_columns(panes, a, b, n - 1);
        lemma_new_column(panes, a, b, n - 1);
        let from = traded((n - 1) as usize, a, b);
        let w = lemma_column_holds(panes, from as int);
        assert(traded(panes[w].column, a, b) == n - 1);
        assert(has_pane(group, panes[w].id));
        assert(group.len() > 0);
        assert(after.last() == group.last());
        assert forall|x: int, y: int|
            0 <= x < after.len() && 0 <= y < after.len() && y == x + 1 implies (#[trigger] after[y]).column == (
        #[trigger] after[x]).column || after[y].column == after[x].column + 1 by {
            if y < before.len() {
                assert(before[y].column == before[x].column || before[y].column == before[x].column + 1);
            } else if x >= before.len() {
                assert(after[x] == group[x - before.len()]);
                assert(after[y] == group[y - before.len()]);
            } else {
                assert(after[x] == before.last());
                assert(after[y] == group[0]);
            }
        }
        if before.len() == 0 {
            assert(after[0] == group[0]);
        } else {
            assert(after[0] == before[0]);
        }
    }
}

/// Every traded pane is one of the panes.
proof fn lemma_traded_origin(panes: Seq<Pane>, a: usize, b: usize, n: int, k: int)
    requires
        0 <= k < columns_traded(panes, a, b, n).len(),
    ensures
        columns_traded(panes, a, b, n)[k].column < n,
        is_relabelled(panes, columns_traded(panes, a, b, n)[k], a, b),
    decreases n,
{
    let before = columns_traded(panes, a, b, n - 1);
    let group = new_column(panes, a, b, n - 1);
    let after = columns_traded(panes, a, b, n);
    if k < before.len() {
        lemma_traded_origin(panes, a, b, n - 1, k);
        assert(after[k] == before[k]);
    } else {
        lemma_new_column(panes, a, b, n - 1);
        lemma_new_column_origin(panes, a, b, n - 1, k - before.len());
        assert(after[k] == group[k - before.len()]);
    }
}

/// No two traded panes share an id.
proof fn lemma_traded_distinct(panes: Seq<Pane>, a: usize, b: usize, n: int)
    requires
        distinct_ids(panes),
    ensures
        distinct_ids(columns_traded(panes, a, b, n)),
    decreases n,
{
    if n > 0 {
        let before = columns_traded(panes, a, b, n - 1);
        let group = new_column(panes, a, b, n - 1);
        let after = columns_traded(panes, a, b, n);
        lemma_traded_distinct(panes, a, b, n - 1);
        lemma_new_column(panes, a, b, n - 1);
        assert forall|x: int, y: int| 0 <= x < y < after.len() implies (#[trigger] after[x]).id != (
        #[trigger] after[y]).id by {
            if y < before.len() {
                assert(before[x].id != before[y].id);
            } else if x >= before.len() {
                assert(group[x - before.len()].id != group[y - before.len()].id);
            } else {
                assert(after[x] == before[x]);
                assert(after[y] == group[y - before.len()]);
                lemma_traded_origin(panes, a, b, n - 1, x);
                lemma_new_column_origin(panes, a, b, n - 1, y - before.len());
                let i = choose|j: int|
                    0 <= j < panes.len() && (#[trigger] panes[j]).id == after[x].id && traded(
                        panes[j].column,
                        a,
                        b,
                    ) == after[x].column;
                let j = choose|j: int|
                    0 <= j < panes.len() && (#[trigger] panes[j]).id == after[y].id && traded(
                        panes[j].column,
                        a,
                        b,
                    ) == after[y].column;
                assert(i != j);
                if i < j {
                    assert(panes[i].id != panes[j].id);
                } else {
                    assert(panes[j].id != panes[i].id);
                }
            }
        }
    }
}

/// Every pane whose column is below `n` once traded is among the traded.
proof fn lemma_traded_holds(panes: Seq<Pane>, a: usize, b: usize, n: int, j: int)
    requires
        0 <= j < panes.len(),
        traded(panes[j].column, a, b) < n,
    ensures
        has_pane(columns_traded(panes, a, b, n), panes[j].id),
    decreases n,
{
    let before = columns_traded(panes, a, b, n - 1);
    let group = new_column(panes, a, b, n - 1);
    let after = columns_traded(panes, a, b, n);
    if traded(panes[j].column, a, b) < n - 1 {
        lemma_traded_holds(panes, a, b, n - 1, j);
        let k = choose|k: int| 0 <= k < before.len() && (#[trigger] before[k]).id == panes[j].id;
        assert(after[k].id == panes[j].id);
    } else {
        lemma_new_column(panes, a, b, n - 1);
        assert(has_pane(group, panes[j].id));
        let k = choose|k: int| 0 <= k < group.len() && (#[trigger] group[k]).id == panes[j].id;
        assert(after[before.len() + k].id == panes[j].id);
    }
}

proof fn lemma_new_column_origin(panes: Seq<Pane>, a: usize, b: usize, col: int, k: int)
    requires
        0 <= k < new_column(panes, a, b, col).len(),
    ensures
        is_relabelled(panes, new_column(panes, a, b, col)[k], a, b),
    decreases panes.len(),
{
    let prev = panes.drop_last();
    let before = new_column(prev, a, b, col);
    let after = new_column(panes, a, b, col);
    if k < before.len() {
        lemma_new_column_origin(prev, a, b, col, k);
        let j = choose|j: int|
            0 <= j < prev.len() && (#[trigger] prev[j]).id == before[k].id && traded(
                prev[j].column,
                a,
                b,
            ) == before[k].column;
        assert(panes[j] == prev[j]);
    } else {
        assert(panes[panes.len() - 1].id == after[k].id);
    }
}

/// Exchanging two columns keeps the columns numbered and every pane, once.
pub proof fn lemma_exchanged_columns(panes: Seq<Pane>, a: usize, b: usize)
    requires
        columns_ok(panes),
        distinct_ids(panes),
        a < Tab::column_count(panes),
        b < Tab::column_count(panes),
    ensures
        columns_ok(exchanged_columns(panes, a, b)),
        distinct_ids(exchanged_columns(panes, a, b)),
        forall|id: PaneId| #[trigger]
            has_pane(exchanged_columns(panes, a, b), id) <==> has_pane(panes, id),
        panes.len() > 0 ==> exchanged_columns(panes, a, b).len() > 0,
{
    let n = Tab::column_count(panes);
    let w = exchanged_columns(panes, a, b);
    lemma_traded_columns(panes, a, b, n);
    lemma_traded_distinct(panes, a, b, n);
    assert forall|id: PaneId| #[trigger] has_pane(w, id) <==> has_pane(panes, id) by {
        if has_pane(panes, id) {
            let j = choose|j: int| 0 <= j < panes.len() && (#[trigger] panes[j]).id == id;
            lemma_columns_sorted(panes, j, panes.len() - 1);
            lemma_traded_holds(panes, a, b, n, j);
        }
        if has_pane(w, id) {
            let k = choose|k: int| 0 <= k < w.len() && (#[trigger] w[k]).id == id;
            lemma_traded_origin(panes, a, b, n, k);
        }
    }
    if panes.len() > 0 {
        assert(has_pane(panes, panes[0].id));
        assert(has_pane(w, panes[0].id));
    }
}

/// Every pane of the exchanged columns is one of the list, in the column its
/// own becomes.
pub proof fn lemma_exchanged_origin(panes: Seq<Pane>, a: usize, b: usize, k: int)
    requires
        columns_ok(panes),
        0 <= k < exchanged_columns(panes, a, b).len(),
    ensures
        is_relabelled(panes, exchanged_columns(panes, a, b)[k], a, b),
{
    lemma_traded_origin(panes, a, b, Tab::column_count(panes), k);
}

/// What is left of `all` once the columns below `col` and, of column `col`, the
/// panes before `k` were taken, after columns `a` and `b` traded places.
pub open spec fn slot_left(all: Seq<Pane>, a: usize, b: usize, col: int, k: int, m: int) -> Option<
    Pane,
> {
    let c = traded(all[m].column, a, b);
    if c < col || (c == col && m < k) {
        None
    } else {
        Some(all[m])
    }
}

/// Move the panes of what becomes column `col` from `slots` to `out`.
fn take_column(
    all: Ghost<Seq<Pane>>,
    slots: &mut Vec<Option<Pane>>,
    out: &mut Vec<Pane>,
    a: usize,
    b: usize,
    col: usize,
)
    requires
        old(slots)@.len() == all@.len(),
        col < usize::MAX,
        forall|m: int|
            0 <= m < all@.len() ==> #[trigger] old(slots)@[m] == slot_left(
                all@,
                a,
                b,
                col as int,
                0,
                m,
            ),
    ensures
        final(slots)@.len() == all@.len(),
        forall|m: int|
            0 <= m < all@.len() ==> #[trigger] final(slots)@[m] == slot_left(
                all@,
                a,
                b,
                col + 1,
                0,
                m,
            ),
        final(out)@ == old(out)@ + new_column(all@, a, b, col as int),
{
    let ghost before = out@;
    let count: usize = slots.len();
    assert(all@.take(0) =~= Seq::empty());
    assert(before + new_column(all@.take(0), a, b, col as int) =~= before);
    for k in 0..count
        invariant
            slots@.len() == all@.len(),
            count == all@.len(),
            out@ == before + new_column(all@.take(k as int), a, b, col as int),
            forall|m: int|
                0 <= m < all@.len() ==> #[trigger] slots@[m] == slot_left(
                    all@,
                    a,
                    b,
                    col as int,
                    k as int,
                    m,
                ),
    {
        assert(all@.take(k + 1).drop_last() =~= all@.take(k as int));
        assert(all@.take(k + 1).last() == all@[k as int]);
        let goes = match &slots[k] {
            Some(p) => {
                let c: usize = if p.column == a {
                    b
                } else if p.column == b {
                    a
                } else {
                    p.column
                };
                c == col
            },
            None => false,
        };
        if goes {
            match slots[k].take() {
                Some(p) => {
                    let mut q = p;
                    q.column = col;
                    out.push(q);
                },
                None => {},
            }
        }
        assert(out@ =~= before + new_column(all@.take(k + 1), a, b, col as int));
    }
    assert(all@.take(count as int) =~= all@);
}

/// The panes with columns `a` and `b` exchanged as wholes.
fn trade_columns(panes: Vec<Pane>, a: usize, b: usize, n: usize) -> (out: Vec<Pane>)
    requires
        n == Tab::column_count(panes@),
        n <= panes@.len(),
    ensures
        out@ == exchanged_columns(panes@, a, b),
{
    let ghost all = panes@;
    let mut rest = panes;
    let mut slots: Vec<Option<Pane>> = Vec::new();
    while rest.len() > 0
        invariant
            slots@.len() + rest@.len() == all.len(),
            rest@ == all.skip(slots@.len() as int),
            forall|k: int| 0 <= k < slots@.len() ==> slots@[k] == Some(all[k]),
        decreases rest@.len(),
    {
        let p = rest.remove(0);
        slots.push(Some(p));
        assert(rest@ =~= all.skip(slots@.len() as int));
    }
    assert(slots.len() == slots@.len());
    let mut out: Vec<Pane> = Vec::new();
    for col in 0..n
        invariant
            n <= all.len() <= usize::MAX,
            slots@.len() == all.len(),
            forall|m: int|
                0 <= m < all.len() ==> #[trigger] slots@[m] == slot_left(
                    all,
                    a,
                    b,
                    col as int,
                    0,
                    m,
                ),
            out@ == columns_traded(all, a, b, col as int),
    {
        take_column(Ghost(all), &mut slots, &mut out, a, b, col);
    }
    out
}

/// What a swap of two panes does to the list: within a column they trade
/// places, across columns their columns do.
pub open spec fn swapped(panes: Seq<Pane>, i: int, j: int) -> Seq<Pane> {
    if panes[i].column == panes[j].column {
        panes.update(i, panes[j]).update(j, panes[i])
    } else {
        exchanged_columns(panes, panes[i].column, panes[j].column)
    }
}

/// Whether two panes can be swapped along `dir`: both there, apart, and in
/// one column for a vertical swap, in two for a horizontal one.
pub open spec fn can_swap(panes: Seq<Pane>, a: PaneId, b: PaneId, dir: NavDirection) -> bool {
    &&& a != b
    &&& has_pane(panes, a)
    &&& has_pane(panes, b)
    &&& (dir == NavDirection::Up || dir == NavDirection::Down) == (panes[pos(panes, a)].column
        == panes[pos(panes, b)].column)
}

pub proof fn lemma_swapped(panes: Seq<Pane>, i: int, j: int)
    requires
        columns_ok(panes),
        distinct_ids(panes),
        0 <= i < panes.len(),
        0 <= j < panes.len(),
        i != j,
    ensures
        columns_ok(swapped(panes, i, j)),
        distinct_ids(swapped(panes, i, j)),
        forall|id: PaneId| #[trigger] has_pane(swapped(panes, i, j), id) <==> has_pane(panes, id),
        swapped(panes, i, j).len() > 0,
{
    let w = swapped(panes, i, j);
    if panes[i].column == panes[j].column {
        assert forall|x: int, y: int|
            0 <= x < w.len() && 0 <= y < w.len() && y == x + 1 implies (#[trigger] w[y]).column == (
        #[trigger] w[x]).column || w[y].column == w[x].column + 1 by {
            assert(panes[y].column == panes[x].column || panes[y].column == panes[x].column + 1);
        }
        assert forall|x: int, y: int| 0 <= x < y < w.len() implies (#[trigger] w[x]).id != (#[trigger] w[y]).id by {
            let px = if x == i {
                j
            } else if x == j {
                i
            } else {
                x
            };
            let py = if y == i {
                j
            } else if y == j {
                i
            } else {
                y
            };
            assert(panes[px].id != panes[py].id);
        }
        assert forall|id: PaneId| #[trigger] has_pane(w, id) <==> has_pane(panes, id) by {
            if has_pane(panes, id) {
                let k = choose|k: int| 0 <= k < panes.len() && (#[trigger] panes[k]).id == id;
                assert(w[if k == i {
                    j
                } else if k == j {
                    i
                } else {
                    k
                }].id == id);
            }
            if has_pane(w, id) {
                let k = choose|k: int| 0 <= k < w.len() && (#[trigger] w[k]).id == id;
                assert(panes[if k == i {
                    j
                } else if k == j {
                    i
                } else {
                    k
                }].id == id);
            }
        }
    } else {
        lemma_columns_sorted(panes, i, panes.len() - 1);
        lemma_columns_sorted(panes, j, panes.len() - 1);
        lemma_exchanged_columns(panes, panes[i].column, panes[j].column);
    }
}

impl Tab {
    /// Exchange two columns as wholes.
    fn exchange_columns(&mut self, a: usize, b: usize)
        requires
            columns_ok(old(self).panes@),
        ensures
            final(self).panes@ == exchanged_columns(old(self).panes@, a, b),
            *final(self) == (Tab { panes: final(self).panes, ..*old(self) }),
    {
        let n: usize = self.num_columns();
        let mut panes: Vec<Pane> = Vec::new();
        std::mem::swap(&mut panes, &mut self.panes);
        self.panes = trade_columns(panes, a, b, n);
    }

    /// Exchange the panes at `i` and `j`.
    fn exchange(&mut self, i: usize, j: usize)
        requires
            i < old(self).panes@.len(),
            j < old(self).panes@.len(),
            i != j,
        ensures
            final(self).panes@ == old(self).panes@.update(i as int, old(self).panes@[j as int]).update(
                j as int,
                old(self).panes@[i as int],
            ),
            *final(self) == (Tab { panes: final(self).panes, ..*old(self) }),
    {
        let ghost all = self.panes@;
        let lo: usize = if i < j {
            i
        } else {
            j
        };
        let hi: usize = if i < j {
            j
        } else {
            i
        };
        let low = self.panes.remove(lo);
        let high = self.panes.remove(hi - 1);
        self.panes.insert(lo, high);
        self.panes.insert(hi, low);
        assert(self.panes@ =~= all.update(i as int, all[j as int]).update(j as int, all[i as int]));
    }

    /// Swap two panes along `dir`: within their column for a vertical
    /// direction, their whole columns for a horizontal one.
    pub fn swap_panes(&mut self, a: PaneId, b: PaneId, dir: NavDirection) -> (done: bool)
        requires
            columns_ok(old(self).panes@),
        ensures
            done == can_swap(old(self).panes@, a, b, dir),
            !done ==> *final(self) == *old(self),
            done ==> final(self).panes@ == swapped(
                old(self).panes@,
                pos(old(self).panes@, a),
                pos(old(self).panes@, b),
            ),
            *final(self) == (Tab { panes: final(self).panes, ..*old(self) }),
    {
        let i = self.find(a);
        let j = self.find(b);
        proof {
            lemma_pos(self.panes@, a);
            lemma_pos(self.panes@, b);
        }
        if a == b || i >= self.panes.len() || j >= self.panes.len() {
            return false;
        }
        let same = self.panes[i].column == self.panes[j].column;
        let vertical = match dir {
            NavDirection::Up | NavDirection::Down => true,
            NavDirection::Left | NavDirection::Right => false,
        };
        if same != vertical {
            return false;
        }
        if same {
            self.exchange(i, j);
        } else {
            let ca: usize = self.panes[i].column;
            let cb: usize = self.panes[j].column;
            self.exchange_columns(ca, cb);
        }
        true
    }
}

/// The panes at `i` and `j` in each other's place.
pub open spec fn places_traded(panes: Seq<Pane>, i: int, j: int) -> Seq<Pane> {
    panes.update(i, Pane { column: panes[i].column, ..panes[j] }).update(
        j,
        Pane { column: panes[j].column, ..panes[i] },
    )
}

/// Trading places keeps the columns and every pane.
pub proof fn lemma_places_traded(panes: Seq<Pane>, i: int, j: int)
    requires
        columns_ok(panes),
        distinct_ids(panes),
        0 <= i < panes.len(),
        0 <= j < panes.len(),
        i != j,
    ensures
        columns_ok(places_traded(panes, i, j)),
        distinct_ids(places_traded(panes, i, j)),
        forall|id: PaneId| #[trigger]
            has_pane(places_traded(panes, i, j), id) <==> has_pane(panes, id),
{
    let w = places_traded(panes, i, j);
    let from = |k: int|
        if k == i {
            j
        } else if k == j {
            i
        } else {
            k
        };
    assert forall|k: int| 0 <= k < w.len() implies (#[trigger] w[k]).id == panes[from(k)].id
        && w[k].column == panes[k].column by {}
    assert forall|x: int, y: int| 0 <= x < y < w.len() implies (#[trigger] w[x]).id != (
    #[trigger] w[y]).id by {
        let a = from(x);
        let b = from(y);
        assert(a != b);
        if a < b {
            assert(panes[a].id != panes[b].id);
        } else {
            assert(panes[b].id != panes[a].id);
        }
    }
    assert forall|id: PaneId| #[trigger] has_pane(w, id) <==> has_pane(panes, id) by {
        if has_pane(w, id) {
            let k = choose|k: int| 0 <= k < w.len() && (#[trigger] w[k]).id == id;
            assert(panes[from(k)].id == id);
        }
        if has_pane(panes, id) {
            let k = choose|k: int| 0 <= k < panes.len() && (#[trigger] panes[k]).id == id;
            assert(w[from(k)].id == panes[from(from(k))].id);
        }
    }
    assert(columns_ok(w)) by {
        assert(w[0].column == panes[0].column);
        assert forall|x: int, y: int|
            0 <= x < w.len() && 0 <= y < w.len() && y == x + 1 implies (#[trigger] w[y]).column == (
        #[trigger] w[x]).column || w[y].column == w[x].column + 1 by {
            assert(panes[y].column == panes[x].column || panes[y].column == panes[x].column + 1);
        }
    }
}

impl Tab {
    /// Put the panes at `i` and `j` in each other's place.
    pub fn trade_places(&mut self, i: usize, j: usize)
        requires
            i < old(self).panes@.len(),
            j < old(self).panes@.len(),
            i != j,
        ensures
            final(self).panes@ == places_traded(old(self).panes@, i as int, j as int),
            *final(self) == (Tab { panes: final(self).panes, ..*old(self) }),
    {
        let ghost all = self.panes@;
        let a: usize = self.panes[i].column;
        let b: usize = self.panes[j].column;
        self.exchange(i, j);
        let ghost mid = self.panes@;
        self.panes[i].set_column(a);
        assert(self.panes@ =~= mid.update(i as int, Pane { column: a, ..mid[i as int] }));
        self.panes[j].set_column(b);
        assert(self.panes@ =~= places_traded(all, i as int, j as int));
    }
}

/// A pane started in a directory, wherever its shell starts without one.
pub open spec fn started_in(p: Pane, cwd: Option<String>) -> Pane {
    match cwd {
        Some(c) => Pane { term: TermFacts { cwd: Some(c), ..p.term }, ..p },
        None => p,
    }
}

impl Pane {
    /// The pane was started in a directory.
    pub(crate) fn start_in(&mut self, cwd: Option<String>)
        ensures
            *final(self) == started_in(*old(self), cwd),
    {
        if cwd.is_some() {
            self.term.cwd = cwd;
        }
    }

    fn set_column(&mut self, column: usize)
        ensures
            *final(self) == (Pane { column, ..*old(self) }),
    {
        self.column = column;
    }
}

/// The panes of `source` put right of those of `target`.
pub open spec fn appended(target: Seq<Pane>, source: Seq<Pane>) -> Seq<Pane> {
    let c = Tab::column_count(target);
    target + source.map_values(|p: Pane| Pane { column: (p.column + c) as usize, ..p })
}

/// Appending keeps the columns numbered and every pane.
pub proof fn lemma_appended(target: Seq<Pane>, source: Seq<Pane>)
    requires
        columns_ok(target),
        columns_ok(source),
        target.len() + source.len() <= usize::MAX,
    ensures
        columns_ok(appended(target, source)),
        forall|id: PaneId| #[trigger]
            has_pane(appended(target, source), id) <==> has_pane(target, id) || has_pane(
                source,
                id,
            ),
        distinct_ids(target) && distinct_ids(source) && (forall|id: PaneId|
            has_pane(target, id) ==> !has_pane(source, id)) ==> distinct_ids(
            appended(target, source),
        ),
{
    let w = appended(target, source);
    let c = Tab::column_count(target);
    let n = target.len() as int;
    if n > 0 {
        lemma_columns_sorted(target, n - 1, n - 1);
    }
    assert forall|k: int| n <= k < w.len() implies (#[trigger] w[k]).id == source[k - n].id && w[k].column
        == source[k - n].column + c by {
        lemma_columns_sorted(source, k - n, k - n);
    }
    assert forall|a: int, b: int|
        0 <= a < w.len() && 0 <= b < w.len() && b == a + 1 implies (#[trigger] w[b]).column == (
    #[trigger] w[a]).column || w[b].column == w[a].column + 1 by {
        if b < n {
            assert(target[b].column == target[a].column || target[b].column == target[a].column + 1);
        } else if a >= n {
            assert(source[b - n].column == source[a - n].column || source[b - n].column == source[a - n].column + 1);
        }
    }
    assert forall|id: PaneId| #[trigger] has_pane(w, id) <==> has_pane(target, id) || has_pane(
        source,
        id,
    ) by {
        if has_pane(target, id) {
            let k = choose|k: int| 0 <= k < target.len() && (#[trigger] target[k]).id == id;
            assert(w[k].id == id);
        }
        if has_pane(source, id) {
            let k = choose|k: int| 0 <= k < source.len() && (#[trigger] source[k]).id == id;
            assert(w[n + k].id == id);
        }
        if has_pane(w, id) {
            let k = choose|k: int| 0 <= k < w.len() && (#[trigger] w[k]).id == id;
            if k < n {
                assert(target[k].id == id);
            } else {
                assert(source[k - n].id == id);
            }
        }
    }
    if distinct_ids(target) && distinct_ids(source) && (forall|id: PaneId|
        has_pane(target, id) ==> !has_pane(source, id)) {
        assert forall|a: int, b: int| 0 <= a < b < w.len() implies (#[trigger] w[a]).id != (#[trigger] w[b]).id by {
            if b < n {
                assert(target[a].id != target[b].id);
            } else if a >= n {
                assert(source[a - n].id != source[b - n].id);
            } else {
                assert(target[a].id == w[a].id);
                assert(source[b - n].id == w[b].id);
                assert(has_pane(target, w[a].id));
                assert(has_pane(source, w[b].id));
            }
        }
    }
}

impl Tab {
    /// Put the panes of `source` right of this tab's.
    pub fn append_columns(&mut self, source: &mut Vec<Pane>)
        requires
            columns_ok(old(self).panes@),
            columns_ok(old(source)@),
        ensures
            final(self).panes@ == appended(old(self).panes@, old(source)@),
            final(source)@.len() == 0,
            *final(self) == (Tab { panes: final(self).panes, ..*old(self) }),
    {
        let c: usize = self.num_columns();
        let ghost target = self.panes@;
        let ghost all = source@;
        while source.len() > 0
            invariant
                c == Tab::column_count(target),
                c <= target.len(),
                columns_ok(all),
                self.panes@.len() == target.len() + (all.len() - source@.len()),
                source@.len() <= all.len(),
                source@ == all.skip(all.len() - source@.len()),
                self.panes@ == appended(target, all).take(self.panes@.len() as int),
                *self == (Tab { panes: self.panes, ..*old(self) }),
            decreases source@.len(),
        {
            let ghost k = all.len() - source@.len();
            proof {
                lemma_columns_sorted(all, k, k);
            }
            assert(self.panes.len() == self.panes@.len());
            let mut p = source.remove(0);
            p.column = p.column + c;
            self.panes.push(p);
            assert(source@ =~= all.skip(all.len() - source@.len()));
            assert(self.panes@ =~= appended(target, all).take(self.panes@.len() as int));
        }
        assert(self.panes@ =~= appended(target, all));
    }
}

} // verus!
