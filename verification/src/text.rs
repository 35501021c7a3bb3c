//! Text as sequences of characters: the few string operations the window
//! needs, each stated over `Seq<char>`.
use vstd::prelude::*;

verus! {

/// `String::push` appends one character at the end.
pub assume_specification[ String::push ](s: &mut String, c: char)
    ensures
        final(s)@ == old(s)@.push(c),
;

/// `String::pop` removes the last character and returns it, or returns `None`
/// and changes nothing when the string is empty.
pub assume_specification[ String::pop ](s: &mut String) -> (c: Option<char>)
    ensures
        old(s)@.len() == 0 ==> c is None && final(s)@ == old(s)@,
        old(s)@.len() > 0 ==> c == Some(old(s)@.last()) && final(s)@ == old(s)@.drop_last(),
;

/// Characters with the Unicode `White_Space` property.
pub open spec fn white_space(c: char) -> bool {
    ||| '\u{9}' <= c <= '\u{d}'
    ||| c == ' '
    ||| c == '\u{85}'
    ||| c == '\u{a0}'
    ||| c == '\u{1680}'
    ||| '\u{2000}' <= c <= '\u{200a}'
    ||| c == '\u{2028}'
    ||| c == '\u{2029}'
    ||| c == '\u{202f}'
    ||| c == '\u{205f}'
    ||| c == '\u{3000}'
}

pub fn is_white_space(c: char) -> (r: bool)
    ensures
        r == white_space(c),
{
    ('\u{9}' <= c && c <= '\u{d}') || c == ' ' || c == '\u{85}' || c == '\u{a0}' || c == '\u{1680}'
        || ('\u{2000}' <= c && c <= '\u{200a}') || c == '\u{2028}' || c == '\u{2029}' || c
        == '\u{202f}' || c == '\u{205f}' || c == '\u{3000}'
}

/// Characters of the Unicode general category `Cc`.
pub open spec fn control(c: char) -> bool {
    c <= '\u{1f}' || '\u{7f}' <= c <= '\u{9f}'
}

pub fn is_control(c: char) -> (r: bool)
    ensures
        r == control(c),
{
    c <= '\u{1f}' || ('\u{7f}' <= c && c <= '\u{9f}')
}

/// The decimal digit `d`.
pub open spec fn digit(d: int) -> char {
    ('0' as int + d) as char
}

/// A number written in base ten, without leading zeros.
pub open spec fn decimal(n: nat) -> Seq<char>
    decreases n,
{
    if n < 10 {
        seq![digit(n as int)]
    } else {
        decimal(n / 10).push(digit((n % 10) as int))
    }
}

fn digit_char(d: u64) -> (c: char)
    requires
        d < 10,
    ensures
        c == digit(d as int),
{
    (48u8 + d as u8) as char
}

/// Append the decimal digits of `n`.
pub fn push_decimal(s: &mut String, n: u64)
    ensures
        final(s)@ == old(s)@ + decimal(n as nat),
    decreases n,
{
    let ghost before = s@;
    if n < 10 {
        s.push(digit_char(n));
        assert(s@ =~= before + decimal(n as nat));
    } else {
        push_decimal(s, n / 10);
        s.push(digit_char(n % 10));
        assert(s@ =~= before + decimal(n as nat));
    }
}

/// The characters of `s`, in order.
pub fn chars_of(s: &str) -> (r: Vec<char>)
    ensures
        r@ == s@,
{
    let mut out: Vec<char> = Vec::new();
    for c in iter: s.chars()
        invariant
            out@ == iter.seq().take(iter.index() as int),
            iter.seq() == s@,
    {
        out.push(c);
    }
    out
}

/// The characters of `v` from `from` up to `to`, as a string.
pub fn text_between(v: &Vec<char>, from: usize, to: usize) -> (s: String)
    requires
        from <= to <= v@.len(),
    ensures
        s@ == v@.subrange(from as int, to as int),
{
    let mut s = String::new();
    for i in from..to
        invariant
            from <= i <= to <= v@.len(),
            s@ == v@.subrange(from as int, i as int),
    {
        s.push(v[i]);
        assert(s@ =~= v@.subrange(from as int, i + 1));
    }
    s
}

/// Append the characters of `v` from `from` up to `to`.
pub fn push_between(s: &mut String, v: &Vec<char>, from: usize, to: usize)
    requires
        from <= to <= v@.len(),
    ensures
        final(s)@ == old(s)@ + v@.subrange(from as int, to as int),
{
    let ghost before = s@;
    for i in from..to
        invariant
            from <= i <= to <= v@.len(),
            s@ == before + v@.subrange(from as int, i as int),
    {
        s.push(v[i]);
        assert(s@ =~= before + v@.subrange(from as int, i + 1));
    }
}

/// Whether two texts hold the same characters.
pub fn same_text(a: &str, b: &str) -> (r: bool)
    ensures
        r == (a@ == b@),
{
    let x = chars_of(a);
    let y = chars_of(b);
    if x.len() != y.len() {
        return false;
    }
    for i in 0..x.len()
        invariant
            x@ == a@,
            y@ == b@,
            x@.len() == y@.len(),
            forall|k: int| 0 <= k < i ==> x@[k] == y@[k],
    {
        if x[i] != y[i] {
            return false;
        }
    }
    assert(x@ =~= y@);
    true
}

/// `s` without its leading white space.
pub open spec fn trim_start(s: Seq<char>) -> Seq<char>
    decreases s.len(),
{
    if s.len() > 0 && white_space(s[0]) {
        trim_start(s.drop_first())
    } else {
        s
    }
}

/// `s` without its trailing white space.
pub open spec fn trim_end(s: Seq<char>) -> Seq<char>
    decreases s.len(),
{
    if s.len() > 0 && white_space(s.last()) {
        trim_end(s.drop_last())
    } else {
        s
    }
}

/// `s` without the white space around it.
pub open spec fn trimmed(s: Seq<char>) -> Seq<char> {
    trim_end(trim_start(s))
}

/// `s` without the `c` it ends in.
pub open spec fn trim_end_of(s: Seq<char>, c: char) -> Seq<char>
    decreases s.len(),
{
    if s.len() > 0 && s.last() == c {
        trim_end_of(s.drop_last(), c)
    } else {
        s
    }
}

/// The index of the last `c` in `s`, -1 without one.
pub open spec fn last_pos(s: Seq<char>, c: char) -> int
    decreases s.len(),
{
    if s.len() == 0 {
        -1
    } else if s.last() == c {
        s.len() - 1
    } else {
        last_pos(s.drop_last(), c)
    }
}

pub proof fn lemma_last_pos(s: Seq<char>, c: char)
    ensures
        -1 <= last_pos(s, c) < s.len(),
        last_pos(s, c) >= 0 ==> s[last_pos(s, c)] == c,
        forall|k: int| last_pos(s, c) < k < s.len() ==> s[k] != c,
    decreases s.len(),
{
    if s.len() > 0 && s.last() != c {
        lemma_last_pos(s.drop_last(), c);
        assert forall|k: int| last_pos(s, c) < k < s.len() implies s[k] != c by {
            if k < s.len() - 1 {
                assert(s.drop_last()[k] != c);
            }
        }
    }
}

/// What follows the last `c` of `s`, all of `s` without one.
pub open spec fn after_last(s: Seq<char>, c: char) -> Seq<char> {
    s.skip(last_pos(s, c) + 1)
}

/// Where the text without leading white space starts.
pub fn find_start(v: &Vec<char>) -> (i: usize)
    ensures
        i <= v@.len(),
        v@.skip(i as int) == trim_start(v@),
{
    let mut i: usize = 0;
    assert(v@.skip(0) =~= v@);
    while i < v.len() && is_white_space(v[i])
        invariant
            i <= v@.len(),
            trim_start(v@.skip(i as int)) == trim_start(v@),
        decreases v@.len() - i,
    {
        assert(v@.skip(i as int).drop_first() =~= v@.skip(i + 1));
        i = i + 1;
    }
    i
}

/// Where the text without trailing white space ends, not before `from`.
pub fn find_end(v: &Vec<char>, from: usize) -> (j: usize)
    requires
        from <= v@.len(),
    ensures
        from <= j <= v@.len(),
        v@.subrange(from as int, j as int) == trim_end(v@.skip(from as int)),
{
    let mut j: usize = v.len();
    assert(v@.subrange(from as int, j as int) =~= v@.skip(from as int));
    while j > from && is_white_space(v[j - 1])
        invariant
            from <= j <= v@.len(),
            trim_end(v@.subrange(from as int, j as int)) == trim_end(v@.skip(from as int)),
        decreases j,
    {
        assert(v@.subrange(from as int, j as int).drop_last() =~= v@.subrange(from as int, j - 1));
        j = j - 1;
    }
    j
}

/// `s` without the white space around it.
pub fn trim(s: &str) -> (r: String)
    ensures
        r@ == trimmed(s@),
{
    let v = chars_of(s);
    let i = find_start(&v);
    let j = find_end(&v, i);
    text_between(&v, i, j)
}

/// Where the text without the `c` it ends in ends.
pub fn find_end_of(v: &Vec<char>, c: char) -> (j: usize)
    ensures
        j <= v@.len(),
        v@.take(j as int) == trim_end_of(v@, c),
{
    let mut j: usize = v.len();
    assert(v@.take(j as int) =~= v@);
    while j > 0 && v[j - 1] == c
        invariant
            j <= v@.len(),
            trim_end_of(v@.take(j as int), c) == trim_end_of(v@, c),
        decreases j,
    {
        assert(v@.take(j as int).drop_last() =~= v@.take(j - 1));
        j = j - 1;
    }
    j
}

/// One past the index of the last `c` among the first `end` characters, 0
/// without one.
pub fn find_after_last(v: &Vec<char>, end: usize, c: char) -> (i: usize)
    requires
        end <= v@.len(),
    ensures
        i <= end,
        i == last_pos(v@.take(end as int), c) + 1,
{
    let mut i: usize = end;
    while i > 0 && v[i - 1] != c
        invariant
            i <= end <= v@.len(),
            last_pos(v@.take(i as int), c) == last_pos(v@.take(end as int), c),
        decreases i,
    {
        assert(v@.take(i as int).drop_last() =~= v@.take(i - 1));
        i = i - 1;
    }
    i
}

/// Whether `s` holds the character `c`.
pub fn holds_char(v: &Vec<char>, c: char) -> (r: bool)
    ensures
        r == v@.contains(c),
{
    for i in 0..v.len()
        invariant
            forall|k: int| 0 <= k < i ==> v@[k] != c,
    {
        if v[i] == c {
            return true;
        }
    }
    false
}

/// Put `c` in before the character at `at`.
pub fn insert_char(s: &mut String, at: usize, c: char)
    requires
        at <= old(s)@.len(),
    ensures
        final(s)@ == old(s)@.insert(at as int, c),
        final(s)@.len() <= usize::MAX,
{
    let mut v = chars_of(s.as_str());
    v.insert(at, c);
    assert(v.len() == v@.len());
    *s = text_between(&v, 0, v.len());
    assert(v@.subrange(0, v@.len() as int) =~= v@);
}

/// Take the character at `at` out.
pub fn remove_char(s: &mut String, at: usize)
    requires
        at < old(s)@.len(),
    ensures
        final(s)@ == old(s)@.remove(at as int),
{
    let mut v = chars_of(s.as_str());
    let gone = v.remove(at);
    *s = text_between(&v, 0, v.len());
    assert(v@.subrange(0, v@.len() as int) =~= v@);
}

/// How many characters `s` holds.
pub fn char_count(s: &str) -> (n: usize)
    ensures
        n == s@.len(),
{
    let v = chars_of(s);
    v.len()
}

/// Whether `s` holds nothing but white space.
pub fn is_blank(s: &str) -> (r: bool)
    ensures
        r == (trimmed(s@).len() == 0),
{
    let t = trim(s);
    t.as_str().is_empty()
}

/// `c` with `A` to `Z` in lower case.
pub open spec fn lower(c: char) -> char {
    if 'A' <= c <= 'Z' {
        (c as int + 32) as char
    } else {
        c
    }
}

/// A text with `A` to `Z` in lower case.
pub open spec fn lowered(s: Seq<char>) -> Seq<char> {
    s.map_values(|c: char| lower(c))
}

/// Lowering changes the capital letters from `A` to `Z`, each into its small
/// one, and nothing else; a lowered text stays as it is.
pub proof fn lowering_changes_capitals_alone(s: Seq<char>, i: int)
    requires
        0 <= i < s.len(),
    ensures
        lowered(s).len() == s.len(),
        'A' <= s[i] && s[i] <= 'Z' ==> lowered(s)[i] as int == s[i] as int + 32,
        !('A' <= s[i] && s[i] <= 'Z') ==> lowered(s)[i] == s[i],
        lowered(lowered(s)) == lowered(s),
{
    assert(lowered(lowered(s)) =~= lowered(s));
}

fn to_lower(c: char) -> (r: char)
    ensures
        r == lower(c),
{
    if 'A' <= c && c <= 'Z' {
        (c as u8 + 32u8) as char
    } else {
        c
    }
}

/// A copy of `s` with `A` to `Z` in lower case.
pub fn lower_text(s: &str) -> (r: String)
    ensures
        r@ == lowered(s@),
{
    let v = chars_of(s);
    let mut out = String::new();
    for i in 0..v.len()
        invariant
            v@ == s@,
            out@ == lowered(s@).take(i as int),
    {
        out.push(to_lower(v[i]));
        assert(out@ =~= lowered(s@).take(i + 1));
    }
    assert(lowered(s@).take(s@.len() as int) =~= lowered(s@));
    out
}

/// `t` stands in `s` at `i`.
pub open spec fn stands_at(s: Seq<char>, t: Seq<char>, i: int) -> bool {
    0 <= i && i + t.len() <= s.len() && s.subrange(i, i + t.len()) == t
}

/// Where `t` first stands in `s` from `from` on, -1 if nowhere.
pub open spec fn first_match(s: Seq<char>, t: Seq<char>, from: int) -> int
    decreases s.len() + 1 - from,
{
    if from + t.len() > s.len() {
        -1
    } else if stands_at(s, t, from) {
        from
    } else {
        first_match(s, t, from + 1)
    }
}

/// `t` stands somewhere in `s`.
pub open spec fn holds_text(s: Seq<char>, t: Seq<char>) -> bool {
    first_match(s, t, 0) >= 0
}

pub proof fn lemma_first_match(s: Seq<char>, t: Seq<char>, from: int)
    requires
        0 <= from,
    ensures
        -1 <= first_match(s, t, from),
        first_match(s, t, from) >= 0 ==> from <= first_match(s, t, from) && stands_at(
            s,
            t,
            first_match(s, t, from),
        ),
        forall|k: int|
            from <= k && (first_match(s, t, from) < 0 || k < first_match(s, t, from))
                ==> !#[trigger] stands_at(s, t, k),
    decreases s.len() + 1 - from,
{
    if from + t.len() <= s.len() && !stands_at(s, t, from) {
        lemma_first_match(s, t, from + 1);
    }
}

fn is_at(v: &Vec<char>, t: &Vec<char>, at: usize) -> (r: bool)
    requires
        at + t@.len() <= v@.len(),
    ensures
        r == stands_at(v@, t@, at as int),
{
    for k in 0..t.len()
        invariant
            at + t@.len() <= v@.len(),
            forall|j: int| 0 <= j < k ==> v@[at + j] == #[trigger] t@[j],
    {
        assert(v.len() == v@.len());
        if v[at + k] != t[k] {
            assert(v@.subrange(at as int, at + t@.len())[k as int] == v@[at + k]);
            return false;
        }
    }
    assert(v@.subrange(at as int, at + t@.len()) =~= t@);
    true
}

/// Where `t` first stands in `v` from `from` on.
pub fn find_text(v: &Vec<char>, t: &Vec<char>, from: usize) -> (i: Option<usize>)
    requires
        from <= v@.len(),
    ensures
        match i {
            Some(k) => k == first_match(v@, t@, from as int) && from <= k && k + t@.len()
                <= v@.len(),
            None => first_match(v@, t@, from as int) < 0,
        },
{
    let mut i: usize = from;
    while i <= v.len() && t.len() <= v.len() - i
        invariant
            from <= i <= v@.len(),
            first_match(v@, t@, i as int) == first_match(v@, t@, from as int),
        decreases v@.len() - i,
    {
        if is_at(v, t, i) {
            return Some(i);
        }
        if i == v.len() {
            assert(first_match(v@, t@, i + 1) < 0);
            return None;
        }
        i = i + 1;
    }
    None
}

/// Whether `t` stands somewhere in `s`.
pub fn text_in(s: &str, t: &str) -> (r: bool)
    ensures
        r == holds_text(s@, t@),
{
    let v = chars_of(s);
    let w = chars_of(t);
    find_text(&v, &w, 0).is_some()
}

/// The index of the first `c` from `from` on, the length without one.
pub open spec fn next_pos(s: Seq<char>, c: char, from: int) -> int
    decreases s.len() - from,
{
    if from >= s.len() {
        s.len() as int
    } else if s[from] == c {
        from
    } else {
        next_pos(s, c, from + 1)
    }
}

pub fn find_next(v: &Vec<char>, c: char, from: usize) -> (i: usize)
    requires
        from <= v@.len(),
    ensures
        i == next_pos(v@, c, from as int),
        from <= i <= v@.len(),
{
    let mut i: usize = from;
    while i < v.len() && v[i] != c
        invariant
            from <= i <= v@.len(),
            next_pos(v@, c, i as int) == next_pos(v@, c, from as int),
        decreases v@.len() - i,
    {
        i = i + 1;
    }
    i
}

/// The texts of a list of strings.
pub open spec fn texts(v: Seq<String>) -> Seq<Seq<char>> {
    v.map_values(|s: String| s@)
}

} // verus!
