//! Lines, columns and character offsets in robot source code, as the code
//! editor shows them for compiler messages and uses them for completions.

use vstd::prelude::*;

verus! {

/// The lines of a text; each `'\n'` ends a line and stays part of it, and a
/// last line without one counts too. The empty text has no lines.
pub open spec fn split_lines(s: Seq<char>) -> Seq<Seq<char>>
    decreases s.len(),
{
    if s.len() == 0 {
        Seq::empty()
    } else {
        let p = s.drop_last();
        let ls = split_lines(p);
        if p.len() == 0 || p.last() == '\n' {
            ls.push(seq![s.last()])
        } else {
            ls.update(ls.len() - 1, ls.last().push(s.last()))
        }
    }
}

/// The number of characters in a sequence of lines.
pub open spec fn total_len(ls: Seq<Seq<char>>) -> int
    decreases ls.len(),
{
    if ls.len() == 0 {
        0
    } else {
        total_len(ls.drop_last()) + ls.last().len()
    }
}

/// The character offset at which line `l` starts. Past the last line it is
/// the start of the last line (0 for the empty text).
pub open spec fn line_start(s: Seq<char>, l: int) -> int {
    let ls = split_lines(s);
    if l < ls.len() {
        total_len(ls.take(l))
    } else if ls.len() == 0 {
        0
    } else {
        total_len(ls.take(ls.len() - 1))
    }
}

/// The number of characters of line `l`, its `'\n'` included. Past the last
/// line it is the length of the last line (0 for the empty text).
pub open spec fn line_len(s: Seq<char>, l: int) -> int {
    let ls = split_lines(s);
    if l < ls.len() {
        ls[l].len() as int
    } else if ls.len() == 0 {
        0
    } else {
        ls[ls.len() - 1].len() as int
    }
}

/// The line and column reached after reading the characters of `p`.
pub open spec fn line_col_after(p: Seq<char>) -> (int, int)
    decreases p.len(),
{
    if p.len() == 0 {
        (0, 0)
    } else {
        let (l, c) = line_col_after(p.drop_last());
        if p.last() == '\n' {
            (l + 1, 0)
        } else {
            (l, c + 1)
        }
    }
}

/// The line and column of character offset `i`, if `i` is at most the
/// text's length.
pub open spec fn spec_line_and_column(s: Seq<char>, i: int) -> Option<(int, int)> {
    if 0 <= i <= s.len() {
        Some(line_col_after(s.take(i)))
    } else {
        None
    }
}

proof fn lemma_split_push(p: Seq<char>, ch: char)
    ensures
        p.len() > 0 ==> split_lines(p).len() > 0,
        split_lines(p.push(ch)) == (if p.len() == 0 || p.last() == '\n' {
            split_lines(p).push(seq![ch])
        } else {
            split_lines(p).update(split_lines(p).len() - 1, split_lines(p).last().push(ch))
        }),
    decreases p.len(),
{
    assert(p.push(ch).drop_last() =~= p);
    if p.len() > 0 {
        assert(p =~= p.drop_last().push(p.last()));
        lemma_split_push(p.drop_last(), p.last());
    }
}

proof fn lemma_total_len_push(ls: Seq<Seq<char>>, x: Seq<char>)
    ensures
        total_len(ls.push(x)) == total_len(ls) + x.len(),
{
    assert(ls.push(x).drop_last() =~= ls);
}

proof fn lemma_total_len_update_last(ls: Seq<Seq<char>>, y: Seq<char>)
    requires
        ls.len() > 0,
    ensures
        total_len(ls.update(ls.len() - 1, y)) == total_len(ls.take(ls.len() - 1)) + y.len(),
        total_len(ls) == total_len(ls.take(ls.len() - 1)) + ls.last().len(),
{
    assert(ls.update(ls.len() - 1, y).drop_last() =~= ls.take(ls.len() - 1));
    assert(ls.drop_last() =~= ls.take(ls.len() - 1));
}

/// The lines of a text hold all of its characters.
pub proof fn lemma_lines_cover_text(s: Seq<char>)
    ensures
        total_len(split_lines(s)) == s.len(),
    decreases s.len(),
{
    if s.len() > 0 {
        let p = s.drop_last();
        assert(s =~= p.push(s.last()));
        lemma_lines_cover_text(p);
        lemma_split_push(p, s.last());
        if p.len() == 0 || p.last() == '\n' {
            lemma_total_len_push(split_lines(p), seq![s.last()]);
        } else {
            let ls = split_lines(p);
            lemma_total_len_update_last(ls, ls.last().push(s.last()));
        }
    }
}

proof fn lemma_total_len_take_mono(ls: Seq<Seq<char>>, a: int, b: int)
    requires
        0 <= a <= b <= ls.len(),
    ensures
        total_len(ls.take(a)) <= total_len(ls.take(b)),
    decreases b - a,
{
    if a < b {
        lemma_total_len_take_mono(ls, a, b - 1);
        assert(ls.take(b).drop_last() =~= ls.take(b - 1));
    }
}

/// A line's window lies within the text.
pub proof fn lemma_line_window_in_text(s: Seq<char>, l: int)
    requires
        0 <= l,
    ensures
        0 <= line_start(s, l),
        line_start(s, l) + line_len(s, l) <= s.len(),
{
    let ls = split_lines(s);
    lemma_lines_cover_text(s);
    let k = if l < ls.len() { l } else { ls.len() - 1 };
    if ls.len() > 0 {
        lemma_total_len_take_mono(ls, 0, k);
        lemma_total_len_take_mono(ls, k + 1, ls.len() as int);
        assert(ls.take(ls.len() as int) =~= ls);
        assert(ls.take(k + 1).drop_last() =~= ls.take(k));
    }
}

/// Where a requested line lies in a text: offset of its first character,
/// its length, and whether the request is within one past the last line.
pub struct LineWindow {
    pub start: usize,
    pub len: usize,
    pub found: bool,
}

/// Finds the window of line `l` of `code`, as the editor computes it.
pub fn line_window(code: &str, l: usize) -> (w: LineWindow)
    requires
        code@.len() <= isize::MAX,
    ensures
        split_lines(code@).len() <= code@.len(),
        w.found == (l <= split_lines(code@).len()),
        w.start == line_start(code@, l as int),
        w.len == line_len(code@, l as int),
{
    let ghost cs = code@;
    let mut n: usize = 0;
    let mut last_start: usize = 0;
    let mut last_len: usize = 0;
    let mut target_start: usize = 0;
    let mut target_len: usize = 0;
    let mut closed = true;
    let mut k: usize = 0;
    for ch in it: code.chars()
        invariant
            it.seq() == cs,
            cs.len() <= isize::MAX,
            k == it.index(),
            n == split_lines(cs.take(k as int)).len(),
            n <= k,
            closed == (k == 0 || cs.take(k as int).last() == '\n'),
            n > 0 ==> last_start == total_len(split_lines(cs.take(k as int)).take(n - 1)),
            n > 0 ==> last_len == split_lines(cs.take(k as int))[n - 1].len(),
            l < n ==> target_start == total_len(split_lines(cs.take(k as int)).take(l as int)),
            l < n ==> target_len == split_lines(cs.take(k as int))[l as int].len(),
            k > 0 ==> n > 0,
    {
        let ghost p = cs.take(k as int);
        let ghost ls = split_lines(p);
        proof {
            assert(cs.take(k + 1) =~= p.push(ch));
            lemma_split_push(p, ch);
            lemma_lines_cover_text(p);
        }
        if closed {
            proof {
                lemma_total_len_push(ls, seq![ch]);
                assert(ls.push(seq![ch]).take(n as int) =~= ls);
                assert forall|j: int| 0 <= j < n implies ls.push(seq![ch]).take(j) =~= ls.take(j) by {}
            }
            n = n + 1;
            last_start = k;
            last_len = 1;
        } else {
            proof {
                let m = ls.update(ls.len() - 1, ls.last().push(ch));
                assert(m.take(n - 1) =~= ls.take(n - 1));
                assert forall|j: int| 0 <= j < n implies m.take(j) =~= ls.take(j) by {}
            }
            last_len = last_len + 1;
        }
        if l == n - 1 {
            target_start = last_start;
            target_len = last_len;
        }
        closed = ch == '\n';
        k = k + 1;
    }
    proof {
        assert(cs.take(k as int) =~= cs);
    }
    assert(n <= cs.len());
    if l < n {
        LineWindow { start: target_start, len: target_len, found: true }
    } else if n == 0 {
        LineWindow { start: 0, len: 0, found: l == 0 }
    } else {
        LineWindow { start: last_start, len: last_len, found: l == n }
    }
}

/// The line and column (both from 0) of character offset `i` in `s`, or
/// `None` when `i` lies past the end of `s`.
pub fn get_line_and_column(s: &str, i: usize) -> (r: Option<(i64, i64)>)
    requires
        s@.len() <= isize::MAX,
    ensures
        match r {
            Some((line, col)) => spec_line_and_column(s@, i as int) == Some((line as int, col as int)),
            None => spec_line_and_column(s@, i as int) is None,
        },
{
    let ghost cs = s@;
    let mut j: usize = 0;
    let mut line: i64 = 0;
    let mut col: i64 = 0;
    for ch in it: s.chars()
        invariant_except_break
            j < i ==> j == it.index(),
        invariant
            it.seq() == cs,
            cs.len() <= isize::MAX,
            j <= it.index(),
            j <= i,
            (line as int, col as int) == line_col_after(cs.take(j as int)),
            0 <= line <= j,
            0 <= col <= j,
        ensures
            j == i || (j == cs.len() && j < i),
    {
        if j == i {
            break;
        }
        proof {
            assert(cs.take(j + 1).drop_last() =~= cs.take(j as int));
        }
        j = j + 1;
        col = col + 1;
        if ch == '\n' {
            line = line + 1;
            col = 0;
        }
    }
    if j < i {
        None
    } else {
        Some((line, col))
    }
}

/// The character offset of `column` on `line`, both counted from 0; past the
/// last line the last line's start is used.
pub fn get_index(code: &str, line: usize, column: usize) -> (i: usize)
    requires
        code@.len() <= isize::MAX,
        line_start(code@, line as int) + column <= usize::MAX,
    ensures
        i == line_start(code@, line as int) + column,
{
    let w = line_window(code, line);
    w.start + column
}

/// The characters of a sequence of lines, in order.
pub open spec fn flatten(ls: Seq<Seq<char>>) -> Seq<char>
    decreases ls.len(),
{
    if ls.len() == 0 {
        Seq::empty()
    } else {
        flatten(ls.drop_last()) + ls.last()
    }
}

/// A line holds a `'\n'` at most as its last character.
pub open spec fn newline_only_last(line: Seq<char>) -> bool {
    forall|k: int| 0 <= k < line.len() - 1 ==> line[k] != '\n'
}

/// Lines as `split_lines` makes them: none empty, a `'\n'` only at a
/// line's end, and every line but the last ending with one.
pub open spec fn well_split(ls: Seq<Seq<char>>) -> bool {
    forall|j: int|
        0 <= j < ls.len() ==> {
            &&& (#[trigger] ls[j]).len() > 0
            &&& newline_only_last(ls[j])
            &&& (j < ls.len() - 1 ==> ls[j].last() == '\n')
        }
}

proof fn lemma_flatten_push(ls: Seq<Seq<char>>, x: Seq<char>)
    ensures
        flatten(ls.push(x)) == flatten(ls) + x,
{
    assert(ls.push(x).drop_last() =~= ls);
}

proof fn lemma_flatten_len(ls: Seq<Seq<char>>)
    ensures
        flatten(ls).len() == total_len(ls),
    decreases ls.len(),
{
    if ls.len() > 0 {
        lemma_flatten_len(ls.drop_last());
    }
}

proof fn lemma_flatten_concat(a: Seq<Seq<char>>, b: Seq<Seq<char>>)
    ensures
        flatten(a + b) == flatten(a) + flatten(b),
    decreases b.len(),
{
    if b.len() == 0 {
        assert(a + b =~= a);
        assert(flatten(a) + flatten(b) =~= flatten(a));
    } else {
        lemma_flatten_concat(a, b.drop_last());
        assert((a + b).drop_last() =~= a + b.drop_last());
        assert(flatten(a) + flatten(b) =~= flatten(a) + flatten(b.drop_last()) + b.last());
    }
}

/// The lines of a text, put together, give the text; each line ends at its
/// only `'\n'`, if it has one, and only the last line may lack one.
pub proof fn lemma_split_structure(s: Seq<char>)
    ensures
        flatten(split_lines(s)) == s,
        well_split(split_lines(s)),
    decreases s.len(),
{
    if s.len() > 0 {
        let p = s.drop_last();
        let c = s.last();
        assert(s =~= p.push(c));
        lemma_split_structure(p);
        lemma_split_push(p, c);
        let ls = split_lines(p);
        if p.len() == 0 || p.last() == '\n' {
            lemma_flatten_push(ls, seq![c]);
            assert(flatten(ls) + seq![c] =~= s);
            let m = ls.push(seq![c]);
            if ls.len() > 0 {
                assert(flatten(ls) == flatten(ls.drop_last()) + ls.last());
                assert(ls.last().last() == p.last());
            }
            assert forall|j: int| 0 <= j < m.len() implies {
                &&& (#[trigger] m[j]).len() > 0
                &&& newline_only_last(m[j])
                &&& (j < m.len() - 1 ==> m[j].last() == '\n')
            } by {
                if j < ls.len() {
                    assert(m[j] == ls[j]);
                }
            }
        } else {
            let n = ls.len();
            let last = ls.last();
            let m = ls.update(n - 1, last.push(c));
            assert(m.drop_last() =~= ls.drop_last());
            assert(flatten(ls) == flatten(ls.drop_last()) + last);
            assert(flatten(m) =~= s);
            assert(last.last() == p.last());
            assert forall|j: int| 0 <= j < m.len() implies {
                &&& (#[trigger] m[j]).len() > 0
                &&& newline_only_last(m[j])
                &&& (j < m.len() - 1 ==> m[j].last() == '\n')
            } by {
                if j < n - 1 {
                    assert(m[j] == ls[j]);
                } else {
                    assert(m[j] == last.push(c));
                    assert forall|k: int| 0 <= k < m[j].len() - 1 implies m[j][k] != '\n' by {
                        assert(m[j][k] == last[k]);
                    }
                }
            }
        }
    }
}

/// Reading `p` reaches at most line `p.len()` and column `p.len()`.
pub proof fn lemma_line_col_bounded(p: Seq<char>)
    ensures
        0 <= line_col_after(p).0 <= p.len(),
        0 <= line_col_after(p).1 <= p.len(),
    decreases p.len(),
{
    if p.len() > 0 {
        lemma_line_col_bounded(p.drop_last());
    }
}

/// The line reached after reading `p` is the number of line breaks in `p`,
/// and the column is the number of characters read since the last of them
/// (all of `p` when it has none).
pub proof fn lemma_line_col_counts(p: Seq<char>)
    ensures
        line_col_after(p).0 == p.filter(|c: char| c == '\n').len(),
        (forall|k: int| 0 <= k < p.len() ==> p[k] != '\n') ==> line_col_after(p).1 == p.len(),
        forall|k: int|
            0 <= k < p.len() && p[k] == '\n' && (forall|m: int| k < m < p.len() ==> p[m] != '\n')
                ==> line_col_after(p).1 == p.len() - k - 1,
    decreases p.len(),
{
    if p.len() > 0 {
        let q = p.drop_last();
        lemma_line_col_counts(q);
        let nl = |c: char| c == '\n';
        reveal(Seq::filter);
        assert(p.filter(nl) == (if nl(p.last()) {
            q.filter(nl).push(p.last())
        } else {
            q.filter(nl)
        }));
        assert(line_col_after(p).0 == line_col_after(q).0 + (if p.last() == '\n' {
            1int
        } else {
            0int
        }));
        assert forall|k: int|
            0 <= k < p.len() && p[k] == '\n' && (forall|m: int| k < m < p.len() ==> p[m] != '\n')
                implies line_col_after(p).1 == p.len() - k - 1 by {
            if k < p.len() - 1 {
                assert(p[p.len() - 1] != '\n');
                assert(q[k] == p[k]);
                assert forall|m: int| k < m < q.len() implies q[m] != '\n' by {
                    assert(q[m] == p[m]);
                }
            }
        }
        if forall|k: int| 0 <= k < p.len() ==> p[k] != '\n' {
            assert(p[p.len() - 1] != '\n');
            assert forall|k: int| 0 <= k < q.len() implies q[k] != '\n' by {
                assert(q[k] == p[k]);
            }
        }
    }
}

proof fn lemma_line_col_push(p: Seq<char>, c: char)
    ensures
        line_col_after(p.push(c)) == (if c == '\n' {
            (line_col_after(p).0 + 1, 0int)
        } else {
            (line_col_after(p).0, line_col_after(p).1 + 1)
        }),
{
    assert(p.push(c).drop_last() =~= p);
}

/// Reading characters without a `'\n'` only moves the column.
proof fn lemma_line_col_no_newline(a: Seq<char>, r: Seq<char>)
    requires
        forall|k: int| 0 <= k < r.len() ==> r[k] != '\n',
    ensures
        line_col_after(a + r) == (line_col_after(a).0, line_col_after(a).1 + r.len()),
    decreases r.len(),
{
    if r.len() == 0 {
        assert(a + r =~= a);
    } else {
        let q = r.drop_last();
        lemma_line_col_no_newline(a, q);
        assert(a + r =~= (a + q).push(r.last()));
        lemma_line_col_push(a + q, r.last());
    }
}

/// Reading lines that each end with their only `'\n'` counts them, and
/// leaves the column at 0.
proof fn lemma_line_col_lines(ls: Seq<Seq<char>>)
    requires
        forall|j: int|
            0 <= j < ls.len() ==> (#[trigger] ls[j]).len() > 0 && newline_only_last(ls[j]) && ls[j].last()
                == '\n',
    ensures
        line_col_after(flatten(ls)) == (ls.len() as int, 0int),
    decreases ls.len(),
{
    if ls.len() > 0 {
        let m = ls.drop_last();
        assert forall|j: int| 0 <= j < m.len() implies (#[trigger] m[j]).len() > 0 && newline_only_last(m[j])
            && m[j].last() == '\n' by {
            assert(m[j] == ls[j]);
        }
        lemma_line_col_lines(m);
        let line = ls.last();
        assert(ls[ls.len() - 1] == line);
        let r = line.drop_last();
        assert(line =~= r.push('\n'));
        assert forall|k: int| 0 <= k < r.len() implies r[k] != '\n' by {
            assert(r[k] == line[k]);
        }
        lemma_line_col_no_newline(flatten(m), r);
        assert(flatten(m) + line =~= (flatten(m) + r).push('\n'));
        lemma_line_col_push(flatten(m) + r, '\n');
    }
}

/// The number of characters of line `l`, without its ending `'\n'`.
pub open spec fn line_content_len(s: Seq<char>, l: int) -> int {
    let ls = split_lines(s);
    if 0 <= l < ls.len() && ls[l].len() > 0 && ls[l].last() == '\n' {
        ls[l].len() - 1
    } else {
        line_len(s, l)
    }
}

/// Line and column, and character offset, are two names of the same
/// place: column `k` of line `l` (at most the line's length without its
/// `'\n'`, so the end of a last line without one counts too) sits at offset
/// `line_start(s, l) + k`, and that offset has line `l` and column `k`.
pub proof fn lemma_offset_and_position_agree(s: Seq<char>, l: int, k: int)
    requires
        0 <= l < split_lines(s).len(),
        0 <= k <= line_content_len(s, l),
    ensures
        spec_line_and_column(s, line_start(s, l) + k) == Some((l, k)),
{
    let ls = split_lines(s);
    lemma_split_structure(s);
    let before = ls.take(l);
    let rest = ls.skip(l + 1);
    assert(ls =~= before + seq![ls[l]] + rest);
    lemma_flatten_concat(before + seq![ls[l]], rest);
    lemma_flatten_concat(before, seq![ls[l]]);
    assert(flatten(seq![ls[l]]) =~= ls[l]) by {
        lemma_flatten_push(Seq::<Seq<char>>::empty(), ls[l]);
        assert(Seq::<Seq<char>>::empty().push(ls[l]) =~= seq![ls[l]]);
        assert(flatten(Seq::<Seq<char>>::empty()) =~= Seq::<char>::empty());
    }
    lemma_flatten_len(before);
    let i = line_start(s, l) + k;
    assert(line_start(s, l) == total_len(before));
    assert(s == flatten(before) + ls[l] + flatten(rest));
    assert(s.take(i) =~= flatten(before) + ls[l].take(k));
    lemma_lines_cover_text(s);
    lemma_line_window_in_text(s, l);
    assert forall|j: int| 0 <= j < before.len() implies (#[trigger] before[j]).len() > 0 && newline_only_last(
        before[j],
    ) && before[j].last() == '\n' by {
        assert(before[j] == ls[j]);
    }
    lemma_line_col_lines(before);
    assert(well_split(ls));
    assert(ls[l].len() > 0 && newline_only_last(ls[l]));
    assert forall|q: int| 0 <= q < ls[l].take(k).len() implies ls[l].take(k)[q] != '\n' by {
        assert(ls[l].take(k)[q] == ls[l][q]);
        if q == ls[l].len() - 1 {
            assert(ls[l].last() == ls[l][q]);
        }
    }
    lemma_line_col_no_newline(flatten(before), ls[l].take(k));
}

} // verus!
