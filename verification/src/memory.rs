//! What the memory report counts.
use vstd::prelude::*;

verus! {

/// What a terminal reports of its memory.
#[derive(Clone, Copy, Debug, PartialEq, Eq)]
pub struct TermMemory {
    /// Bytes in all.
    pub bytes: usize,
    /// Lines of scrollback.
    pub lines: usize,
    pub cols: u16,
    pub rows: u16,
    /// A full-screen program runs: the grid is held twice.
    pub in_alt_screen: bool,
}

/// How the bytes of a terminal are spent.
#[derive(Clone, Copy, Debug, PartialEq, Eq)]
pub struct MemShares {
    pub grid: usize,
    pub alt: usize,
    pub scrollback: usize,
}

/// The bytes of a grid whose rows take `row` bytes each beside their cells of
/// `cell` bytes.
pub open spec fn grid_bytes(t: TermMemory, row: usize, cell: usize) -> int {
    t.rows * (row + t.cols * cell)
}

/// The bytes of the grid held beside the one on screen.
pub open spec fn alt_bytes(t: TermMemory, row: usize, cell: usize) -> int {
    if t.in_alt_screen {
        grid_bytes(t, row, cell)
    } else {
        0
    }
}

/// A terminal's bytes hold its grids.
pub open spec fn holds_grids(t: TermMemory, row: usize, cell: usize) -> bool {
    grid_bytes(t, row, cell) + alt_bytes(t, row, cell) <= t.bytes
}

/// How a terminal's bytes are spent: what its grids do not take is
/// scrollback.
pub fn mem_shares(t: TermMemory, row: usize, cell: usize) -> (s: MemShares)
    requires
        holds_grids(t, row, cell),
    ensures
        s.grid == grid_bytes(t, row, cell),
        s.alt == alt_bytes(t, row, cell),
        s.scrollback == t.bytes - grid_bytes(t, row, cell) - alt_bytes(t, row, cell),
        s.grid + s.alt + s.scrollback == t.bytes,
{
    if t.rows == 0 {
        assert(grid_bytes(t, row, cell) == 0) by (nonlinear_arith)
            requires
                grid_bytes(t, row, cell) == 0 * (row + t.cols * cell),
        ;
        return MemShares { grid: 0, alt: 0, scrollback: t.bytes };
    }
    proof {
        assert(t.cols * cell >= 0) by (nonlinear_arith);
        assert(t.rows * (row + t.cols * cell) >= row + t.cols * cell) by (nonlinear_arith)
            requires
                t.rows >= 1,
                row + t.cols * cell >= 0,
        ;
    }
    let line: usize = row + t.cols as usize * cell;
    let grid: usize = t.rows as usize * line;
    let alt: usize = if t.in_alt_screen {
        grid
    } else {
        0
    };
    MemShares { grid, alt, scrollback: t.bytes - grid - alt }
}

/// What every terminal adds up to.
#[derive(Clone, Copy, Debug, PartialEq, Eq)]
pub struct MemTotals {
    pub panes: usize,
    pub lines: usize,
    pub grid: usize,
    pub alt: usize,
    pub scrollback: usize,
}

/// The bytes of the terminals.
pub open spec fn sum_bytes(terms: Seq<TermMemory>) -> int
    decreases terms.len(),
{
    if terms.len() == 0 {
        0
    } else {
        sum_bytes(terms.drop_last()) + terms.last().bytes
    }
}

/// The lines of scrollback of the terminals.
pub open spec fn sum_lines(terms: Seq<TermMemory>) -> int
    decreases terms.len(),
{
    if terms.len() == 0 {
        0
    } else {
        sum_lines(terms.drop_last()) + terms.last().lines
    }
}

/// The bytes of the grids on screen.
pub open spec fn sum_grid(terms: Seq<TermMemory>, row: usize, cell: usize) -> int
    decreases terms.len(),
{
    if terms.len() == 0 {
        0
    } else {
        sum_grid(terms.drop_last(), row, cell) + grid_bytes(terms.last(), row, cell)
    }
}

/// The bytes of the grids behind them.
pub open spec fn sum_alt(terms: Seq<TermMemory>, row: usize, cell: usize) -> int
    decreases terms.len(),
{
    if terms.len() == 0 {
        0
    } else {
        sum_alt(terms.drop_last(), row, cell) + alt_bytes(terms.last(), row, cell)
    }
}

proof fn lemma_sums_grow(terms: Seq<TermMemory>, n: int)
    requires
        0 <= n <= terms.len(),
    ensures
        0 <= sum_bytes(terms.take(n)) <= sum_bytes(terms),
        0 <= sum_lines(terms.take(n)) <= sum_lines(terms),
    decreases terms.len(),
{
    if n == terms.len() {
        assert(terms.take(n) =~= terms);
        if n > 0 {
            lemma_sums_grow(terms.drop_last(), n - 1);
            assert(terms.drop_last().take(n - 1) =~= terms.drop_last());
        }
    } else {
        lemma_sums_grow(terms.drop_last(), n);
        assert(terms.drop_last().take(n) =~= terms.take(n));
    }
}

impl MemTotals {
    /// The bytes of every terminal.
    pub fn terminal(&self) -> (n: usize)
        requires
            self.grid + self.scrollback + self.alt <= usize::MAX,
        ensures
            n == self.grid + self.scrollback + self.alt,
    {
        self.grid + self.scrollback + self.alt
    }
}

/// What the terminals add up to: the shares make up every byte.
pub fn mem_totals(terms: &Vec<TermMemory>, row: usize, cell: usize) -> (r: MemTotals)
    requires
        forall|i: int| 0 <= i < terms@.len() ==> holds_grids(#[trigger] terms@[i], row, cell),
        sum_bytes(terms@) <= usize::MAX,
        sum_lines(terms@) <= usize::MAX,
    ensures
        r.panes == terms@.len(),
        r.lines == sum_lines(terms@),
        r.grid == sum_grid(terms@, row, cell),
        r.alt == sum_alt(terms@, row, cell),
        r.grid + r.alt + r.scrollback == sum_bytes(terms@),
{
    let mut r = MemTotals { panes: 0, lines: 0, grid: 0, alt: 0, scrollback: 0 };
    assert(terms@.take(0) =~= Seq::empty());
    for i in 0..terms.len()
        invariant
            forall|k: int| 0 <= k < terms@.len() ==> holds_grids(#[trigger] terms@[k], row, cell),
            sum_bytes(terms@) <= usize::MAX,
            sum_lines(terms@) <= usize::MAX,
            r.panes == i,
            r.lines == sum_lines(terms@.take(i as int)),
            r.grid == sum_grid(terms@.take(i as int), row, cell),
            r.alt == sum_alt(terms@.take(i as int), row, cell),
            r.grid + r.alt + r.scrollback == sum_bytes(terms@.take(i as int)),
    {
        let t = terms[i];
        assert(holds_grids(terms@[i as int], row, cell));
        let s = mem_shares(t, row, cell);
        proof {
            lemma_sums_grow(terms@, i + 1);
            assert(terms@.take(i + 1).drop_last() =~= terms@.take(i as int));
        }
        r.panes = r.panes + 1;
        r.lines = r.lines + t.lines;
        r.grid = r.grid + s.grid;
        r.alt = r.alt + s.alt;
        r.scrollback = r.scrollback + s.scrollback;
    }
    assert(terms@.take(terms@.len() as int) =~= terms@);
    r
}

/// The bytes of the renderers, each given by those of its atlas and those of
/// its vertices.
pub open spec fn sum_renderers(parts: Seq<(usize, usize)>) -> int
    decreases parts.len(),
{
    if parts.len() == 0 {
        0
    } else {
        sum_renderers(parts.drop_last()) + parts.last().0 + parts.last().1
    }
}

proof fn lemma_renderers_grow(parts: Seq<(usize, usize)>, n: int)
    requires
        0 <= n <= parts.len(),
    ensures
        0 <= sum_renderers(parts.take(n)) <= sum_renderers(parts),
    decreases parts.len(),
{
    if n == parts.len() {
        assert(parts.take(n) =~= parts);
        if n > 0 {
            lemma_renderers_grow(parts.drop_last(), n - 1);
            assert(parts.drop_last().take(n - 1) =~= parts.drop_last());
        }
    } else {
        lemma_renderers_grow(parts.drop_last(), n);
        assert(parts.drop_last().take(n) =~= parts.take(n));
    }
}

/// What the renderers hold, each given by the bytes of its atlas and those of
/// its vertices.
pub fn renderer_bytes(parts: &Vec<(usize, usize)>) -> (n: usize)
    requires
        sum_renderers(parts@) <= usize::MAX,
    ensures
        n == sum_renderers(parts@),
{
    let mut n: usize = 0;
    assert(parts@.take(0) =~= Seq::empty());
    for i in 0..parts.len()
        invariant
            sum_renderers(parts@) <= usize::MAX,
            n == sum_renderers(parts@.take(i as int)),
    {
        proof {
            lemma_renderers_grow(parts@, i + 1);
            assert(parts@.take(i + 1).drop_last() =~= parts@.take(i as int));
        }
        n = n + parts[i].0 + parts[i].1;
    }
    assert(parts@.take(parts@.len() as int) =~= parts@);
    n
}

} // verus!
