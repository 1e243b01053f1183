//! The grid file format: one row per line, `1` for a live cell and `0` for a
//! dead one, every line of the same length, the final newline optional.
use crate::grid::{is_matrix, matrix_of, Grid, GridError};
use vstd::prelude::*;
use vstd::std_specs::iter::IteratorSpec;

verus! {

broadcast use vstd::string::group_string_axioms;

/// The pieces of `s` between `'\n'` characters, in order; there is always at
/// least one, and a trailing `'\n'` leaves an empty last piece.
pub open spec fn split_nl(s: Seq<char>) -> Seq<Seq<char>>
    decreases s.len(),
{
    if s.len() == 0 {
        seq![Seq::empty()]
    } else {
        let p = split_nl(s.drop_last());
        if s.last() == '\n' {
            p.push(Seq::empty())
        } else {
            p.update(p.len() - 1, p.last().push(s.last()))
        }
    }
}

/// A line ended by `"\r\n"` loses its `'\r'`.
pub open spec fn strip_cr(l: Seq<char>) -> Seq<char> {
    if l.len() > 0 && l.last() == '\r' {
        l.drop_last()
    } else {
        l
    }
}

/// The lines of `s` as `str::lines` yields them: split at each `'\n'`, a
/// `'\r'` just before a `'\n'` dropped, and no empty line after a final `'\n'`.
pub open spec fn lines(s: Seq<char>) -> Seq<Seq<char>> {
    let p = split_nl(s);
    let ended = Seq::new((p.len() - 1) as nat, |k: int| strip_cr(p[k]));
    if p.last().len() == 0 {
        ended
    } else {
        ended.push(p.last())
    }
}

pub open spec fn lines_of(v: Vec<Vec<char>>) -> Seq<Seq<char>> {
    Seq::new(v@.len(), |i: int| v@[i]@)
}

proof fn lemma_split_nl_nonempty(s: Seq<char>)
    ensures
        split_nl(s).len() >= 1,
    decreases s.len(),
{
    if s.len() > 0 {
        lemma_split_nl_nonempty(s.drop_last());
    }
}

/// `l` without a trailing `'\r'`.
fn strip_cr_vec(l: Vec<char>) -> (r: Vec<char>)
    ensures
        r@ == strip_cr(l@),
{
    let mut l = l;
    let n = l.len();
    if n > 0 && l[n - 1] == '\r' {
        l.pop();
    }
    l
}

/// The lines of `s`, in order.
pub fn split_lines(s: &str) -> (r: Vec<Vec<char>>)
    ensures
        lines_of(r) == lines(s@),
{
    let mut done: Vec<Vec<char>> = Vec::new();
    let mut cur: Vec<char> = Vec::new();
    let mut it = s.chars();
    let ghost mut i: int = 0;
    proof {
        lemma_split_nl_nonempty(s@.take(0));
        assert(s@.take(0) =~= Seq::<char>::empty());
        assert(s@.skip(0) =~= s@);
    }
    loop
        invariant
            0 <= i <= s@.len(),
            it.remaining() == s@.skip(i),
            split_nl(s@.take(i)).len() == done@.len() + 1,
            forall|k: int|
                0 <= k < done@.len() ==> (#[trigger] done@[k])@ == strip_cr(split_nl(s@.take(i))[k]),
            cur@ == split_nl(s@.take(i)).last(),
        ensures
            i == s@.len(),
        decreases s@.len() - i,
    {
        let next = it.next();
        match next {
            None => {
                break;
            },
            Some(c) => {
                proof {
                    assert(s@.take(i + 1).drop_last() =~= s@.take(i));
                    assert(s@.skip(i + 1) =~= s@.skip(i).drop_first());
                    lemma_split_nl_nonempty(s@.take(i));
                }
                if c == '\n' {
                    let line = strip_cr_vec(cur);
                    done.push(line);
                    cur = Vec::new();
                } else {
                    cur.push(c);
                }
                proof {
                    i = i + 1;
                }
            },
        }
    }
    proof {
        assert(s@.take(i) =~= s@);
    }
    if cur.len() > 0 {
        done.push(cur);
    }
    assert(lines_of(done) =~= lines(s@));
    done
}

/// The first character among the first `n` of `l` that is neither `0` nor `1`.
pub open spec fn first_bad_char(l: Seq<char>, n: int) -> Option<char>
    decreases n,
{
    if n <= 0 {
        None
    } else {
        match first_bad_char(l, n - 1) {
            Some(c) => Some(c),
            None => if l[n - 1] == '0' || l[n - 1] == '1' {
                None
            } else {
                Some(l[n - 1])
            },
        }
    }
}

/// What is wrong with line `k` of `ls`: its length differs from the first
/// line's, or else it holds a character other than `0` or `1`.
pub open spec fn line_error(ls: Seq<Seq<char>>, k: int) -> Option<GridError> {
    if k > 0 && ls[k].len() != ls[0].len() {
        Some(GridError::InconsistentWidth)
    } else {
        match first_bad_char(ls[k], ls[k].len() as int) {
            Some(c) => Some(GridError::Parse(c)),
            None => None,
        }
    }
}

/// The error of the first faulty line among the first `n` of `ls`.
pub open spec fn first_line_error(ls: Seq<Seq<char>>, n: int) -> Option<GridError>
    decreases n,
{
    if n <= 0 {
        None
    } else {
        match first_line_error(ls, n - 1) {
            Some(e) => Some(e),
            None => line_error(ls, n - 1),
        }
    }
}

pub open spec fn row_of(l: Seq<char>) -> Seq<bool> {
    l.map_values(|c: char| c == '1')
}

/// The cells that the text `s` describes, or the error of its first faulty line.
pub open spec fn parse_grid(s: Seq<char>) -> Result<Seq<Seq<bool>>, GridError> {
    let ls = lines(s);
    match first_line_error(ls, ls.len() as int) {
        Some(e) => Err(e),
        None => Ok(ls.map_values(|l: Seq<char>| row_of(l))),
    }
}

proof fn lemma_no_line_error(ls: Seq<Seq<char>>, n: int, k: int)
    requires
        0 <= k < n <= ls.len(),
        first_line_error(ls, n) is None,
    ensures
        line_error(ls, k) is None,
    decreases n,
{
    if k < n - 1 {
        lemma_no_line_error(ls, n - 1, k);
    }
}

proof fn lemma_no_bad_char(l: Seq<char>, n: int, k: int)
    requires
        0 <= k < n <= l.len(),
        first_bad_char(l, n) is None,
    ensures
        l[k] == '0' || l[k] == '1',
    decreases n,
{
    if k < n - 1 {
        lemma_no_bad_char(l, n - 1, k);
    }
}

/// The cells of one line, or the first character that is neither `0` nor `1`.
fn parse_row(l: &Vec<char>) -> (r: Result<Vec<bool>, char>)
    ensures
        match r {
            Ok(row) => first_bad_char(l@, l@.len() as int) is None && row@ == row_of(l@),
            Err(c) => first_bad_char(l@, l@.len() as int) == Some(c),
        },
{
    let mut row: Vec<bool> = Vec::new();
    let mut j: usize = 0;
    while j < l.len()
        invariant
            j <= l@.len(),
            first_bad_char(l@, j as int) is None,
            row@ == row_of(l@.take(j as int)),
        decreases l@.len() - j,
    {
        let c = l[j];
        if c == '0' {
            row.push(false);
        } else if c == '1' {
            row.push(true);
        } else {
            proof {
                lemma_first_bad_char_stays(l@, j as int + 1, l@.len() as int);
            }
            return Err(c);
        }
        j = j + 1;
        assert(row@ =~= row_of(l@.take(j as int)));
    }
    assert(l@.take(j as int) =~= l@);
    Ok(row)
}

proof fn lemma_first_bad_char_stays(l: Seq<char>, n: int, m: int)
    requires
        0 <= n <= m,
        first_bad_char(l, n) is Some,
    ensures
        first_bad_char(l, m) == first_bad_char(l, n),
    decreases m - n,
{
    if m > n {
        lemma_first_bad_char_stays(l, n, m - 1);
    }
}

proof fn lemma_first_line_error_stays(ls: Seq<Seq<char>>, n: int, m: int)
    requires
        0 <= n <= m,
        first_line_error(ls, n) is Some,
    ensures
        first_line_error(ls, m) == first_line_error(ls, n),
    decreases m - n,
{
    if m > n {
        lemma_first_line_error_stays(ls, n, m - 1);
    }
}

/// The cells described by `ls`, or the error of the first faulty line.
fn parse_lines(ls: &Vec<Vec<char>>) -> (r: Result<Vec<Vec<bool>>, GridError>)
    ensures
        match r {
            Ok(m) => first_line_error(lines_of(*ls), ls@.len() as int) is None && matrix_of(m)
                == lines_of(*ls).map_values(|l: Seq<char>| row_of(l)),
            Err(e) => first_line_error(lines_of(*ls), ls@.len() as int) == Some(e),
        },
{
    let ghost sl = lines_of(*ls);
    let mut m: Vec<Vec<bool>> = Vec::new();
    let mut k: usize = 0;
    while k < ls.len()
        invariant
            sl == lines_of(*ls),
            k <= ls@.len(),
            first_line_error(sl, k as int) is None,
            m@.len() == k,
            forall|t: int| 0 <= t < k ==> (#[trigger] m@[t])@ == row_of(sl[t]),
        decreases ls@.len() - k,
    {
        assert(sl[k as int] == ls@[k as int]@);
        if k > 0 && ls[k].len() != ls[0].len() {
            assert(sl[0] == ls@[0]@);
            proof {
                lemma_first_line_error_stays(sl, k as int + 1, ls@.len() as int);
            }
            return Err(GridError::InconsistentWidth);
        }
        match parse_row(&ls[k]) {
            Ok(row) => {
                m.push(row);
            },
            Err(c) => {
                proof {
                    lemma_first_line_error_stays(sl, k as int + 1, ls@.len() as int);
                }
                return Err(GridError::Parse(c));
            },
        }
        k = k + 1;
    }
    assert(matrix_of(m) =~= sl.map_values(|l: Seq<char>| row_of(l)));
    Ok(m)
}

/// The characters of one row: `1` for alive, `0` for dead.
pub open spec fn row_text(r: Seq<bool>) -> Seq<char> {
    r.map_values(|b: bool| if b { '1' } else { '0' })
}

/// The text of a matrix: each row followed by a newline.
pub open spec fn render(m: Seq<Seq<bool>>) -> Seq<char>
    decreases m.len(),
{
    if m.len() == 0 {
        Seq::empty()
    } else {
        render(m.drop_last()) + row_text(m.last()) + seq!['\n']
    }
}

/// The characters that show one row: a full block for alive, a space for dead.
pub open spec fn row_glyphs(r: Seq<bool>) -> Seq<char> {
    r.map_values(|b: bool| if b { '\u{2588}' } else { ' ' })
}

/// Relies on String::push: appends one character at the end.
#[verifier::external_body]
fn push_char(s: &mut String, c: char)
    ensures
        final(s)@ == old(s)@.push(c),
{
    s.push(c)
}

proof fn lemma_split_nl_append(a: Seq<char>, t: Seq<char>)
    requires
        forall|i: int| 0 <= i < t.len() ==> t[i] != '\n',
    ensures
        split_nl(a + t) == split_nl(a).update(
            split_nl(a).len() - 1,
            split_nl(a).last() + t,
        ),
    decreases t.len(),
{
    lemma_split_nl_nonempty(a);
    if t.len() == 0 {
        assert(a + t =~= a);
        assert(split_nl(a).last() + t =~= split_nl(a).last());
        assert(split_nl(a).update(split_nl(a).len() - 1, split_nl(a).last()) =~= split_nl(a));
    } else {
        let t0 = t.drop_last();
        lemma_split_nl_append(a, t0);
        assert((a + t).drop_last() =~= a + t0);
        assert(split_nl(a).last() + t =~= (split_nl(a).last() + t0).push(t.last()));
        assert(split_nl(a + t) =~= split_nl(a).update(
            split_nl(a).len() - 1,
            split_nl(a).last() + t,
        ));
    }
}

proof fn lemma_split_render(m: Seq<Seq<bool>>)
    ensures
        split_nl(render(m)) == m.map_values(|r: Seq<bool>| row_text(r)).push(Seq::empty()),
    decreases m.len(),
{
    if m.len() > 0 {
        let m0 = m.drop_last();
        let t = row_text(m.last());
        lemma_split_render(m0);
        lemma_split_nl_append(render(m0), t);
        let a = render(m0) + t;
        assert(render(m) == a.push('\n'));
        assert(a.push('\n').drop_last() =~= a);
        assert(Seq::<char>::empty() + t =~= t);
        assert(split_nl(render(m)) =~= m.map_values(|r: Seq<bool>| row_text(r)).push(Seq::empty()));
    } else {
        assert(split_nl(render(m)) =~= m.map_values(|r: Seq<bool>| row_text(r)).push(Seq::empty()));
    }
}

/// Writing cells as text and reading the text back gives the same cells.
pub proof fn lemma_text_round_trip(m: Seq<Seq<bool>>, rows: nat, cols: nat)
    requires
        is_matrix(m, rows, cols),
    ensures
        parse_grid(render(m)) == Ok::<Seq<Seq<bool>>, GridError>(m),
{
    lemma_split_render(m);
    let ls = lines(render(m));
    let texts = m.map_values(|r: Seq<bool>| row_text(r));
    assert forall|k: int| 0 <= k < m.len() implies strip_cr(#[trigger] texts[k]) == texts[k] by {
        if texts[k].len() > 0 {
            assert(texts[k].last() == texts[k][texts[k].len() - 1]);
        }
    }
    assert(ls =~= texts);
    assert forall|k: int| 0 <= k < ls.len() implies #[trigger] line_error(ls, k) is None by {
        assert forall|j: int| 0 <= j <= ls[k].len() implies #[trigger] first_bad_char(ls[k], j) is None by {
            lemma_all_good_chars(ls[k], j);
        }
    }
    lemma_no_error_prefix(ls, ls.len() as int);
    assert(ls.map_values(|l: Seq<char>| row_of(l)) =~= m) by {
        assert forall|k: int| 0 <= k < m.len() implies row_of(#[trigger] ls[k]) == m[k] by {
            assert(row_of(ls[k]) =~= m[k]);
        }
    }
}

proof fn lemma_all_good_chars(l: Seq<char>, n: int)
    requires
        0 <= n <= l.len(),
        forall|i: int| 0 <= i < l.len() ==> l[i] == '0' || l[i] == '1',
    ensures
        first_bad_char(l, n) is None,
    decreases n,
{
    if n > 0 {
        lemma_all_good_chars(l, n - 1);
    }
}

proof fn lemma_no_error_prefix(ls: Seq<Seq<char>>, n: int)
    requires
        0 <= n <= ls.len(),
        forall|k: int| 0 <= k < ls.len() ==> #[trigger] line_error(ls, k) is None,
    ensures
        first_line_error(ls, n) is None,
    decreases n,
{
    if n > 0 {
        lemma_no_error_prefix(ls, n - 1);
    }
}

impl Grid {
    /// The grid's cells as text: one line per row, `1` alive and `0` dead,
    /// each line ended by a newline.
    pub fn to_text(&self) -> (r: String)
        requires
            self@.wf(),
        ensures
            r@ == render(self@.cells),
    {
        let ghost m = self@.cells;
        let mut out = String::new();
        let mut i: usize = 0;
        while i < self.rows()
            invariant
                self@.wf(),
                m == self@.cells,
                i <= self@.rows,
                out@ == render(m.take(i as int)),
            decreases self@.rows - i,
        {
            let row = self.row(i);
            assert(row@ == m[i as int]);
            let ghost before = out@;
            let mut j: usize = 0;
            while j < row.len()
                invariant
                    j <= row@.len(),
                    out@ == before + row_text(row@.take(j as int)),
                decreases row@.len() - j,
            {
                push_char(&mut out, if row[j] { '1' } else { '0' });
                j = j + 1;
                assert(row_text(row@.take(j as int)) =~= row_text(row@.take(j as int - 1)).push(
                    if row@[j as int - 1] { '1' } else { '0' },
                ));
            }
            push_char(&mut out, '\n');
            i = i + 1;
            assert(m.take(i as int).drop_last() =~= m.take(i as int - 1));
            assert(row@.take(j as int) =~= row@);
        }
        assert(m.take(i as int) =~= m);
        out
    }

    /// Row `i` as it is shown on screen: a full block for a live cell, a
    /// space for a dead one.
    pub fn display_row(&self, i: usize) -> (r: String)
        requires
            self@.wf(),
            i < self@.rows,
        ensures
            r@ == row_glyphs(self@.cells[i as int]),
    {
        let row = self.row(i);
        let mut out = String::new();
        let mut j: usize = 0;
        while j < row.len()
            invariant
                j <= row@.len(),
                out@ == row_glyphs(row@.take(j as int)),
            decreases row@.len() - j,
        {
            push_char(&mut out, if row[j] { '\u{2588}' } else { ' ' });
            j = j + 1;
            assert(row_glyphs(row@.take(j as int)) =~= row_glyphs(row@.take(j as int - 1)).push(
                if row@[j as int - 1] { '\u{2588}' } else { ' ' },
            ));
        }
        assert(row@.take(j as int) =~= row@);
        out
    }

    /// Reads a grid from text: one row per line, `1` alive and `0` dead.
    /// Fails with `Parse` at the first character that is neither, or with
    /// `InconsistentWidth` at the first line whose length differs from the
    /// first line's, whichever comes first. The grid is running and its
    /// snapshot is the parsed state.
    pub fn from_text(content: &str) -> (r: Result<Grid, GridError>)
        ensures
            match r {
                Ok(g) => {
                    &&& parse_grid(content@) == Ok::<Seq<Seq<bool>>, GridError>(g@.cells)
                    &&& g@.wf()
                    &&& g@.saved == g@.cells
                    &&& !g@.paused
                    &&& g@.rows == lines(content@).len()
                    &&& g@.cols == if g@.rows > 0 {
                        lines(content@)[0].len()
                    } else {
                        0
                    }
                },
                Err(e) => parse_grid(content@) == Err::<Seq<Seq<bool>>, GridError>(e),
            },
    {
        let ls = split_lines(content);
        match parse_lines(&ls) {
            Err(e) => Err(e),
            Ok(cells) => {
                let ghost sl = lines_of(ls);
                assert(cells@.len() == ls@.len()) by {
                    assert(matrix_of(cells).len() == sl.len());
                }
                let rows = cells.len();
                let cols = if rows > 0 {
                    ls[0].len()
                } else {
                    0
                };
                assert(is_matrix(matrix_of(cells), rows as nat, cols as nat)) by {
                    assert forall|t: int| 0 <= t < rows implies (#[trigger] matrix_of(cells)[t]).len()
                        == cols by {
                        lemma_no_line_error(sl, sl.len() as int, t);
                        assert(sl[0] == ls@[0]@);
                    }
                }
                Ok(Grid::from_cells(cells, rows, cols))
            },
        }
    }
}

} // verus!
