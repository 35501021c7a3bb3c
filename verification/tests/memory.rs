use kova::memory::{mem_shares, mem_totals, renderer_bytes, TermMemory};

#[test]
fn the_shares_of_a_terminal_make_up_its_bytes() {
    let t = TermMemory { bytes: 10_000, lines: 7, cols: 80, rows: 10, in_alt_screen: false };
    let s = mem_shares(t, 16, 4);
    assert_eq!(s.grid, 10 * (16 + 80 * 4));
    assert_eq!((s.alt, s.scrollback), (0, 10_000 - 3360));
    let s = mem_shares(TermMemory { in_alt_screen: true, ..t }, 16, 4);
    assert_eq!((s.alt, s.scrollback), (3360, 10_000 - 6720));
    let s = mem_shares(TermMemory { rows: 0, ..t }, 16, 4);
    assert_eq!((s.grid, s.scrollback), (0, 10_000));
}

#[test]
fn totals_add_up() {
    let t = TermMemory { bytes: 10_000, lines: 7, cols: 80, rows: 10, in_alt_screen: false };
    let r = mem_totals(&vec![t, TermMemory { in_alt_screen: true, lines: 3, ..t }], 16, 4);
    assert_eq!((r.panes, r.lines, r.grid, r.alt), (2, 10, 6720, 3360));
    assert_eq!(r.terminal(), 20_000);
}

#[test]
fn renderers_add_up() {
    assert_eq!(renderer_bytes(&vec![]), 0);
    assert_eq!(renderer_bytes(&vec![(1, 2), (30, 400)]), 433);
}
