//! Text on its way into a pane or onto the screen: quoted paths, pastes, and
//! the label of a flash.
use crate::pane::PaneId;
use crate::text;
use crate::view::{Effect, KovaView, PaneFlashLabel};
use vstd::prelude::*;

verus! {

// ---------------------------------------------------------------
// Quoting
// ---------------------------------------------------------------

/// A character a shell takes as it is.
pub open spec fn plain_char(c: char) -> bool {
    ||| 'a' <= c <= 'z'
    ||| 'A' <= c <= 'Z'
    ||| '0' <= c <= '9'
    ||| c == '/'
    ||| c == '.'
    ||| c == '_'
    ||| c == '-'
    ||| c == '~'
    ||| c == '+'
    ||| c == '='
    ||| c == ':'
    ||| c == ','
}

fn is_plain(c: char) -> (r: bool)
    ensures
        r == plain_char(c),
{
    ('a' <= c && c <= 'z') || ('A' <= c && c <= 'Z') || ('0' <= c && c <= '9') || c == '/' || c
        == '.' || c == '_' || c == '-' || c == '~' || c == '+' || c == '=' || c == ':' || c == ','
}

/// A path a shell takes as it is.
pub open spec fn plain_path(path: Seq<char>) -> bool {
    path.len() > 0 && forall|i: int| 0 <= i < path.len() ==> plain_char(#[trigger] path[i])
}

/// A text inside single quotes: a quote closes them, is escaped, and opens
/// them again.
pub open spec fn escaped(s: Seq<char>) -> Seq<char>
    decreases s.len(),
{
    if s.len() == 0 {
        seq![]
    } else if s.last() == '\'' {
        escaped(s.drop_last()) + seq!['\'', '\\', '\'', '\'']
    } else {
        escaped(s.drop_last()).push(s.last())
    }
}

/// A path as it is typed at a shell.
pub open spec fn quoted(path: Seq<char>) -> Seq<char> {
    if plain_path(path) {
        path
    } else {
        seq!['\''] + escaped(path) + seq!['\'']
    }
}

/// What a shell reads of a quoted text: it takes single-quoted runs and
/// escaped characters as they are. `inside` says whether the text starts
/// within quotes.
pub open spec fn shell_reads(s: Seq<char>, inside: bool) -> Seq<char>
    decreases s.len(),
{
    if s.len() == 0 {
        seq![]
    } else if s[0] == '\'' {
        shell_reads(s.skip(1), !inside)
    } else if !inside && s[0] == '\\' && s.len() > 1 {
        seq![s[1]] + shell_reads(s.skip(2), inside)
    } else {
        seq![s[0]] + shell_reads(s.skip(1), inside)
    }
}

proof fn lemma_escaped_front(c: char, s: Seq<char>)
    ensures
        escaped(seq![c] + s) == escaped(seq![c]) + escaped(s),
    decreases s.len(),
{
    if s.len() == 0 {
        assert(seq![c] + s =~= seq![c]);
        assert(escaped(seq![c]) + escaped(s) =~= escaped(seq![c]));
    } else {
        lemma_escaped_front(c, s.drop_last());
        assert((seq![c] + s).drop_last() =~= seq![c] + s.drop_last());
        assert(escaped(seq![c] + s) =~= escaped(seq![c]) + escaped(s));
    }
}

proof fn lemma_reads_escaped(s: Seq<char>)
    ensures
        shell_reads(escaped(s) + seq!['\''], true) == s,
    decreases s.len(),
{
    let end = seq!['\''];
    if s.len() == 0 {
        assert(escaped(s) + end =~= end);
        assert(end.skip(1) =~= seq![]);
        assert(shell_reads(end, true) =~= s) by {
            reveal_with_fuel(shell_reads, 3);
        }
    } else {
        let c = s[0];
        let rest = s.skip(1);
        assert(s =~= seq![c] + rest);
        lemma_escaped_front(c, rest);
        lemma_reads_escaped(rest);
        let tail = escaped(rest) + end;
        assert(seq![c].drop_last() =~= seq![]);
        assert(escaped(Seq::<char>::empty()) == Seq::<char>::empty());
        if c == '\'' {
            let q = seq!['\'', '\\', '\'', '\''];
            assert(escaped(seq![c]) =~= q);
            let all = escaped(s) + end;
            assert(all =~= q + tail);
            let a1 = all.skip(1);
            let a3 = a1.skip(2);
            let a4 = a3.skip(1);
            assert(a4 =~= tail);
            assert(a1[0] == '\\' && a1[1] == '\'');
            assert(a3[0] == '\'');
            assert(shell_reads(a3, false) == shell_reads(a4, true));
            assert(shell_reads(a1, false) =~= seq!['\''] + shell_reads(a3, false));
            assert(shell_reads(all, true) == shell_reads(a1, false));
            assert(seq![c] + rest =~= s);
        } else {
            assert(escaped(seq![c]) =~= seq![c]);
            let all = escaped(s) + end;
            assert(all =~= seq![c] + tail);
            assert(all.skip(1) =~= tail);
            assert(shell_reads(all, true) =~= seq![c] + shell_reads(tail, true));
        }
    }
}

proof fn lemma_reads_plain(s: Seq<char>)
    requires
        forall|i: int| 0 <= i < s.len() ==> plain_char(#[trigger] s[i]),
    ensures
        shell_reads(s, false) == s,
    decreases s.len(),
{
    if s.len() > 0 {
        let rest = s.skip(1);
        assert forall|i: int| 0 <= i < rest.len() implies plain_char(#[trigger] rest[i]) by {
            assert(plain_char(s[i + 1]));
        }
        lemma_reads_plain(rest);
        assert(plain_char(s[0]));
        assert(s =~= seq![s[0]] + rest);
    }
}

/// A shell reads a quoted path back as the path.
pub proof fn a_shell_reads_the_path_back(path: Seq<char>)
    ensures
        shell_reads(quoted(path), false) == path,
{
    if plain_path(path) {
        lemma_reads_plain(path);
    } else {
        lemma_reads_escaped(path);
        let q = quoted(path);
        assert(q[0] == '\'');
        assert(q.skip(1) =~= escaped(path) + seq!['\'']);
    }
}

/// A path as it is typed at a shell: left alone when it is made of plain
/// characters, else in single quotes.
pub fn shell_quote(path: &str) -> (r: String)
    ensures
        r@ == quoted(path@),
{
    let v = text::chars_of(path);
    let mut plain: bool = v.len() > 0;
    for i in 0..v.len()
        invariant
            v@ == path@,
            plain == (v@.len() > 0 && forall|k: int|
                0 <= k < i ==> plain_char(#[trigger] v@[k])),
    {
        if !is_plain(v[i]) {
            plain = false;
        }
    }
    if plain {
        let r = text::text_between(&v, 0, v.len());
        assert(v@.subrange(0, v@.len() as int) =~= v@);
        return r;
    }
    let mut r = String::new();
    r.push('\'');
    assert(v@.take(0) =~= seq![]);
    for i in 0..v.len()
        invariant
            v@ == path@,
            r@ == seq!['\''] + escaped(v@.take(i as int)),
    {
        assert(v@.take(i + 1).drop_last() =~= v@.take(i as int));
        if v[i] == '\'' {
            r.push('\'');
            r.push('\\');
            r.push('\'');
            r.push('\'');
        } else {
            r.push(v[i]);
        }
        assert(r@ =~= seq!['\''] + escaped(v@.take(i + 1)));
    }
    assert(v@.take(v@.len() as int) =~= v@);
    r.push('\'');
    assert(r@ =~= quoted(path@));
    r
}

/// The paths as they are typed at a shell, each followed by a space.
pub open spec fn dropped(paths: Seq<String>) -> Seq<char>
    decreases paths.len(),
{
    if paths.len() == 0 {
        seq![]
    } else {
        (dropped(paths.drop_last()) + quoted(paths.last()@)).push(' ')
    }
}

/// What dropping files onto a pane types into it.
pub fn dropped_text(paths: &Vec<String>) -> (s: String)
    ensures
        s@ == dropped(paths@),
{
    let mut s = String::new();
    assert(paths@.take(0) =~= seq![]);
    for i in 0..paths.len()
        invariant
            s@ == dropped(paths@.take(i as int)),
    {
        assert(paths@.take(i + 1).drop_last() =~= paths@.take(i as int));
        let q = shell_quote(paths[i].as_str());
        s.append(q.as_str());
        s.push(' ');
    }
    assert(paths@.take(paths@.len() as int) =~= paths@);
    s
}

impl KovaView {
    /// Files dropped on the window: their paths are typed into the pane under
    /// the pointer, else into the focused one. Returns whether they were.
    pub fn handle_file_drop(&mut self, paths: &Vec<String>, under: Option<PaneId>) -> (done: bool)
        ensures
            ({
                let target = match under {
                    Some(id) => Some(id),
                    None => match old(self).focused() {
                        Some(p) => Some(p.id),
                        None => None,
                    },
                };
                if paths@.len() > 0 && target is Some {
                    &&& done
                    &&& final(self).effects@.len() == old(self).effects@.len() + 2
                    &&& final(self).effects@.take(old(self).effects@.len() as int) == old(
                        self,
                    ).effects@
                    &&& final(self).effects@[old(self).effects@.len() as int]
                        == Effect::ResetScroll(target->0)
                    &&& final(self).effects@.last() matches Effect::Write(id, s) && id == target->0
                        && s@ == dropped(paths@)
                    &&& *final(self) == (KovaView { effects: final(self).effects, ..*old(self) })
                } else {
                    !done && *final(self) == *old(self)
                }
            }),
    {
        if paths.len() == 0 {
            return false;
        }
        let target: Option<PaneId> = match under {
            Some(id) => Some(id),
            None => match self.focused_pane() {
                Some(p) => Some(p.id),
                None => None,
            },
        };
        match target {
            Some(id) => {
                let s = dropped_text(paths);
                self.emit(Effect::ResetScroll(id));
                self.emit(Effect::Write(id, s));
                assert(self.effects@.take(old(self).effects@.len() as int) =~= old(self).effects@);
                true
            },
            None => false,
        }
    }
}

// ---------------------------------------------------------------
// Pasting
// ---------------------------------------------------------------

/// `s` with each `t` taken out, from left to right.
pub open spec fn without_each(s: Seq<char>, t: Seq<char>) -> Seq<char>
    decreases s.len(),
    when t.len() > 0
{
    let at = text::first_match(s, t, 0);
    if at < 0 || at + t.len() > s.len() {
        s
    } else {
        s.take(at) + without_each(s.skip(at + t.len()), t)
    }
}

proof fn lemma_without_each(s: Seq<char>, t: Seq<char>)
    requires
        t.len() > 0,
    ensures
        without_each(s, t).len() <= s.len(),
        text::holds_text(s, t) ==> without_each(s, t).len() < s.len(),
    decreases s.len(),
{
    text::lemma_first_match(s, t, 0);
    let at = text::first_match(s, t, 0);
    if at >= 0 {
        lemma_without_each(s.skip(at + t.len()), t);
    }
}

/// `s` with `t` taken out until none is left: taking one out can bring the
/// halves of another together.
pub open spec fn free_of(s: Seq<char>, t: Seq<char>) -> Seq<char>
    decreases s.len(),
    when t.len() > 0
    via free_of_shrinks
{
    if text::holds_text(s, t) {
        free_of(without_each(s, t), t)
    } else {
        s
    }
}

#[via_fn]
proof fn free_of_shrinks(s: Seq<char>, t: Seq<char>) {
    lemma_without_each(s, t);
}

/// Nothing is left to break out of, and what held no terminator is kept.
pub proof fn a_paste_cannot_break_out(s: Seq<char>, t: Seq<char>)
    requires
        t.len() > 0,
    ensures
        !text::holds_text(free_of(s, t), t),
        !text::holds_text(s, t) ==> free_of(s, t) == s,
    decreases s.len(),
{
    if text::holds_text(s, t) {
        lemma_without_each(s, t);
        a_paste_cannot_break_out(without_each(s, t), t);
    }
}

fn remove_each(v: &Vec<char>, t: &Vec<char>) -> (r: Vec<char>)
    requires
        t@.len() > 0,
    ensures
        r@ == without_each(v@, t@),
{
    let mut out: Vec<char> = Vec::new();
    let mut from: usize = 0;
    assert(v@.skip(0) =~= v@);
    assert(out@ + without_each(v@.skip(0), t@) =~= without_each(v@, t@));
    loop
        invariant
            t@.len() > 0,
            from <= v@.len(),
            out@ + without_each(v@.skip(from as int), t@) == without_each(v@, t@),
        decreases v@.len() - from,
    {
        let ghost rest = v@.skip(from as int);
        proof {
            lemma_match_skipped(v@, t@, from as int);
            text::lemma_first_match(rest, t@, 0);
        }
        match text::find_text(v, t, from) {
            Some(at) => {
                let ghost before = out@;
                push_range(&mut out, v, from, at);
                proof {
                    assert(rest.take(at - from) =~= v@.subrange(from as int, at as int));
                    assert(rest.skip(at - from + t@.len()) =~= v@.skip(at + t@.len()));
                    assert(out@ + without_each(v@.skip(at + t@.len()), t@) =~= before + (rest.take(
                        at - from,
                    ) + without_each(rest.skip(at - from + t@.len()), t@)));
                }
                assert(v.len() == v@.len());
                from = at + t.len();
            },
            None => {
                let ghost before = out@;
                push_range(&mut out, v, from, v.len());
                proof {
                    assert(rest =~= v@.subrange(from as int, v@.len() as int));
                    assert(out@ =~= before + rest);
                }
                return out;
            },
        }
    }
}

/// Searching from `from` is searching the rest.
proof fn lemma_match_skipped(s: Seq<char>, t: Seq<char>, from: int)
    requires
        0 <= from <= s.len(),
    ensures
        text::first_match(s, t, from) < 0 <==> text::first_match(s.skip(from), t, 0) < 0,
        text::first_match(s, t, from) >= 0 ==> text::first_match(s, t, from) == from
            + text::first_match(s.skip(from), t, 0),
{
    let rest = s.skip(from);
    text::lemma_first_match(s, t, from);
    text::lemma_first_match(rest, t, 0);
    let a = text::first_match(s, t, from);
    let b = text::first_match(rest, t, 0);
    if a >= 0 {
        assert(rest.subrange(a - from, a - from + t.len()) =~= s.subrange(a, a + t.len()));
        assert(text::stands_at(rest, t, a - from));
    }
    if b >= 0 {
        assert(s.subrange(from + b, from + b + t.len()) =~= rest.subrange(b, b + t.len()));
        assert(text::stands_at(s, t, from + b));
    }
}

fn push_range(out: &mut Vec<char>, v: &Vec<char>, from: usize, to: usize)
    requires
        from <= to <= v@.len(),
    ensures
        final(out)@ == old(out)@ + v@.subrange(from as int, to as int),
{
    let ghost before = out@;
    assert(before =~= before + v@.subrange(from as int, from as int));
    for i in from..to
        invariant
            from <= i <= to <= v@.len(),
            out@ == before + v@.subrange(from as int, i as int),
    {
        out.push(v[i]);
        assert(out@ =~= before + v@.subrange(from as int, i + 1));
    }
}

/// Take every `t` out of `s`, until none is left.
fn free_text(s: &str, t: &str) -> (r: String)
    requires
        t@.len() > 0,
    ensures
        r@ == free_of(s@, t@),
{
    let tv = text::chars_of(t);
    let mut v = text::chars_of(s);
    while text::find_text(&v, &tv, 0).is_some()
        invariant
            tv@ == t@,
            t@.len() > 0,
            free_of(v@, t@) == free_of(s@, t@),
        decreases v@.len(),
    {
        proof {
            lemma_without_each(v@, t@);
        }
        v = remove_each(&v, &tv);
    }
    let r = text::text_between(&v, 0, v.len());
    assert(v@.subrange(0, v@.len() as int) =~= v@);
    r
}

/// What a paste sends to a program; one that asked for it is told where the
/// paste starts and ends, and the paste cannot hold the end by itself.
pub open spec fn pasted_text(s: Seq<char>, bracketed: bool) -> Seq<char> {
    if bracketed {
        "\x1b[200~"@ + free_of(s, "\x1b[201~"@) + "\x1b[201~"@
    } else {
        s
    }
}

/// What a paste sends to a program.
pub fn paste_text(s: &str, bracketed: bool) -> (r: String)
    ensures
        r@ == pasted_text(s@, bracketed),
{
    let mut r = String::new();
    if bracketed {
        proof {
            reveal_strlit("\x1b[201~");
        }
        r.append("\x1b[200~");
        let clean = free_text(s, "\x1b[201~");
        r.append(clean.as_str());
        r.append("\x1b[201~");
    } else {
        r.append(s);
    }
    assert(r@ =~= pasted_text(s@, bracketed));
    r
}

/// What pasting an image sends: the path it was written to, which holds no
/// terminator to take out.
pub fn paste_image_text(path: &str, bracketed: bool) -> (r: String)
    ensures
        r@ == (if bracketed {
            "\x1b[200~"@ + path@ + "\x1b[201~"@
        } else {
            path@
        }),
{
    let mut r = String::new();
    if bracketed {
        r.append("\x1b[200~");
        r.append(path);
        r.append("\x1b[201~");
    } else {
        r.append(path);
    }
    assert(r@ =~= (if bracketed {
        "\x1b[200~"@ + path@ + "\x1b[201~"@
    } else {
        path@
    }));
    r
}

/// Where an image pasted at `millis` is written to.
pub fn paste_image_path(millis: u64) -> (r: String)
    ensures
        r@ == "/tmp/kova-paste-"@ + text::decimal(millis as nat) + ".png"@,
{
    let mut r = String::new();
    r.append("/tmp/kova-paste-");
    text::push_decimal(&mut r, millis);
    r.append(".png");
    assert(r@ =~= "/tmp/kova-paste-"@ + text::decimal(millis as nat) + ".png"@);
    r
}

// ---------------------------------------------------------------
// Flash labels
// ---------------------------------------------------------------

/// `s` starts with `t`.
pub open spec fn starts_with(s: Seq<char>, t: Seq<char>) -> bool {
    t.len() <= s.len() && s.take(t.len() as int) == t
}

/// A directory with the home directory folded to `~`.
pub open spec fn folded(cwd: Seq<char>, home: Seq<char>) -> Seq<char> {
    if home.len() > 0 && (cwd == home || starts_with(cwd, home.push('/'))) {
        seq!['~'] + cwd.skip(home.len() as int)
    } else {
        cwd
    }
}

/// The two lines of a directory: its own name, and the path above it.
pub open spec fn label_parts(cwd: Seq<char>, home: Seq<char>) -> (Seq<char>, Seq<char>) {
    let shown = text::trim_end_of(folded(cwd, home), '/');
    let at = text::last_pos(shown, '/');
    if shown.len() == 0 {
        (seq!['/'], seq![])
    } else if at < 0 {
        (shown, seq![])
    } else {
        (
            shown.skip(at + 1),
            if at == 0 {
                seq!['/']
            } else {
                shown.take(at)
            },
        )
    }
}

fn is_under(cwd: &Vec<char>, home: &Vec<char>) -> (r: bool)
    ensures
        r == (cwd@ == home@ || starts_with(cwd@, home@.push('/'))),
{
    if cwd.len() < home.len() {
        return false;
    }
    for i in 0..home.len()
        invariant
            home@.len() <= cwd@.len(),
            forall|k: int| 0 <= k < i ==> cwd@[k] == home@[k],
    {
        if cwd[i] != home[i] {
            assert(cwd@[i as int] != home@[i as int]);
            assert(starts_with(cwd@, home@.push('/')) ==> cwd@.take(home@.len() as int + 1)[i as int]
                == home@.push('/')[i as int]);
            return false;
        }
    }
    if cwd.len() == home.len() {
        assert(cwd@ =~= home@);
        return true;
    }
    let r: bool = cwd[home.len()] == '/';
    proof {
        if r {
            assert(cwd@.take(home@.len() as int + 1) =~= home@.push('/'));
        } else {
            assert(starts_with(cwd@, home@.push('/')) ==> cwd@.take(home@.len() as int + 1)[home@.len() as int]
                == home@.push('/')[home@.len() as int]);
        }
    }
    r
}

/// Split a working directory into its own name and the path above it, with
/// the home directory folded to `~`. The root and the home directory are
/// their own name, with nothing above.
pub fn flash_label_parts(cwd: &str, home: &str) -> (r: (String, String))
    ensures
        (r.0@, r.1@) == label_parts(cwd@, home@),
{
    let c = text::chars_of(cwd);
    let h = text::chars_of(home);
    let mut shown: Vec<char> = Vec::new();
    if h.len() > 0 && is_under(&c, &h) {
        shown.push('~');
        push_range(&mut shown, &c, h.len(), c.len());
        assert(shown@ =~= folded(cwd@, home@));
    } else {
        push_range(&mut shown, &c, 0, c.len());
        assert(shown@ =~= folded(cwd@, home@));
    }
    let end = text::find_end_of(&shown, '/');
    let ghost s = text::trim_end_of(shown@, '/');
    assert(s =~= shown@.take(end as int));
    if end == 0 {
        let mut root = String::new();
        root.push('/');
        assert(root@ =~= seq!['/']);
        return (root, String::new());
    }
    let at = text::find_after_last(&shown, end, '/');
    proof {
        text::lemma_last_pos(s, '/');
    }
    let name = text::text_between(&shown, at, end);
    assert(shown@.subrange(at as int, end as int) =~= s.skip(at as int));
    if at == 0 {
        assert(s.skip(0) =~= s);
        return (name, String::new());
    }
    if at == 1 {
        let mut root = String::new();
        root.push('/');
        assert(root@ =~= seq!['/']);
        return (name, root);
    }
    let parent = text::text_between(&shown, 0, at - 1);
    assert(shown@.subrange(0, at - 1) =~= s.take(at - 1));
    (name, parent)
}

/// The flash label of a directory.
pub fn flash_label(cwd: &str, home: &str) -> (l: PaneFlashLabel)
    ensures
        (l.name@, l.parent@) == label_parts(cwd@, home@),
{
    let (name, parent) = flash_label_parts(cwd, home);
    PaneFlashLabel { name, parent }
}

} // verus!
