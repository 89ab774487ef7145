//! Run-length-encoded rectangular patterns: a `Run` is a repeated
//! symbol, a `RleLine` is one row of runs, and an `Rle` is a grid of
//! rows.  Rows may have different lengths; the grid's width is the
//! widest row, and cells past a row's end are implicitly blank.

use vstd::prelude::*;

verus! {

/// The blank symbol, `.` in the text form.
pub const EMPTY_CELL: u8 = 46;

/// A horizontal span of `len` copies of the symbol `item`.
#[derive(Debug, Clone, Copy)]
pub struct Run {
    pub len: usize,
    pub item: u8,
}

/// One row of a pattern: an ordered list of runs.
#[derive(Debug, Clone)]
pub struct RleLine {
    pub runs: Vec<Run>,
}

/// A rectangular pattern: an ordered list of rows.
#[derive(Debug, Clone)]
pub struct Rle {
    lines: Vec<RleLine>,
}

impl View for RleLine {
    type V = Seq<Run>;

    open spec fn view(&self) -> Seq<Run> {
        self.runs@
    }
}

impl View for Rle {
    type V = Seq<Seq<Run>>;

    closed spec fn view(&self) -> Seq<Seq<Run>> {
        self.lines@.map_values(|l: RleLine| l@)
    }
}

/// The cells a single run covers.
pub open spec fn run_cells(r: Run) -> Seq<u8> {
    Seq::new(r.len as nat, |i: int| r.item)
}

/// The cells of a row, in order.
pub open spec fn line_cells(runs: Seq<Run>) -> Seq<u8>
    decreases runs.len(),
{
    if runs.len() == 0 {
        Seq::empty()
    } else {
        line_cells(runs.drop_last()) + run_cells(runs.last())
    }
}

/// The length of a row: the sum of its run lengths.
pub open spec fn line_len(runs: Seq<Run>) -> nat
    decreases runs.len(),
{
    if runs.len() == 0 {
        0
    } else {
        (line_len(runs.drop_last()) + runs.last().len) as nat
    }
}

/// Every run in the row is non-empty.
pub open spec fn line_wf(runs: Seq<Run>) -> bool {
    forall|i: int| 0 <= i < runs.len() ==> (#[trigger] runs[i]).len >= 1
}

/// Every run of every row is non-empty.
pub open spec fn pattern_wf(p: Seq<Seq<Run>>) -> bool {
    forall|i: int| 0 <= i < p.len() ==> line_wf(#[trigger] p[i])
}

/// The width of a pattern: the length of its longest row.
pub open spec fn pattern_width(p: Seq<Seq<Run>>) -> nat
    decreases p.len(),
{
    if p.len() == 0 {
        0
    } else if pattern_width(p.drop_last()) >= line_len(p.last()) {
        pattern_width(p.drop_last())
    } else {
        line_len(p.last())
    }
}

/// The row of blanks used for padding: empty when `len` is zero.
pub open spec fn pad_runs(len: usize) -> Seq<Run> {
    if len == 0 {
        Seq::empty()
    } else {
        seq![Run { len: len, item: EMPTY_CELL }]
    }
}

/// Horizontal join of two rows: the runs of `b` follow the runs of
/// `a`, except that the two runs straddling the seam fuse into one
/// when their symbols match.
pub open spec fn spec_line_join(a: Seq<Run>, b: Seq<Run>) -> Seq<Run> {
    if a.len() == 0 {
        b
    } else if b.len() == 0 {
        a
    } else if a.last().item == b.first().item {
        a.drop_last() + seq![
            Run { len: (a.last().len + b.first().len) as usize, item: b.first().item },
        ] + b.drop_first()
    } else {
        a + b
    }
}

/// Horizontal join of two patterns of equal height, row by row.
pub open spec fn spec_pattern_join(a: Seq<Seq<Run>>, b: Seq<Seq<Run>>) -> Seq<Seq<Run>> {
    Seq::new(a.len(), |i: int| spec_line_join(a[i], b[i]))
}

/// `n` copies of a pattern joined side by side; zero copies is the
/// empty pattern.
pub open spec fn spec_repeat(p: Seq<Seq<Run>>, n: nat) -> Seq<Seq<Run>>
    decreases n,
{
    if n == 0 {
        Seq::<Seq<Run>>::empty()
    } else if n == 1 {
        p
    } else {
        spec_pattern_join(spec_repeat(p, (n - 1) as nat), p)
    }
}

/// A row's cell count equals the sum of its run lengths.
pub proof fn lemma_line_cells_len(runs: Seq<Run>)
    ensures
        line_cells(runs).len() == line_len(runs),
    decreases runs.len(),
{
    if runs.len() > 0 {
        lemma_line_cells_len(runs.drop_last());
    }
}

/// Each individual run is no longer than the whole row.
pub proof fn lemma_run_le_line_len(runs: Seq<Run>, i: int)
    requires
        0 <= i < runs.len(),
    ensures
        runs[i].len <= line_len(runs),
    decreases runs.len(),
{
    if i < runs.len() - 1 {
        assert(runs.drop_last()[i] == runs[i]);
        lemma_run_le_line_len(runs.drop_last(), i);
    }
}

/// Appending one run on the right extends the cells on the right.
pub proof fn lemma_line_cells_push(runs: Seq<Run>, r: Run)
    ensures
        line_cells(runs.push(r)) == line_cells(runs) + run_cells(r),
        line_len(runs.push(r)) == line_len(runs) + r.len,
{
    assert(runs.push(r).drop_last() =~= runs);
    assert(runs.push(r).last() == r);
}

/// Cells distribute over concatenation of run lists.
pub proof fn lemma_line_cells_concat(a: Seq<Run>, b: Seq<Run>)
    ensures
        line_cells(a + b) == line_cells(a) + line_cells(b),
        line_len(a + b) == line_len(a) + line_len(b),
    decreases b.len(),
{
    if b.len() == 0 {
        assert(a + b =~= a);
        assert(line_cells(a) + line_cells(b) =~= line_cells(a));
    } else {
        assert((a + b).drop_last() =~= a + b.drop_last());
        lemma_line_cells_concat(a, b.drop_last());
        assert(line_cells(a + b) =~= line_cells(a) + (line_cells(b.drop_last()) + run_cells(
            b.last(),
        )));
        assert(line_cells(b.drop_last()) + run_cells(b.last()) == line_cells(b));
    }
}

/// Cells of a one-run row are that run's cells.
pub proof fn lemma_line_cells_singleton(r: Run)
    ensures
        line_cells(seq![r]) == run_cells(r),
        line_len(seq![r]) == r.len,
{
    assert(seq![r].drop_last() =~= Seq::<Run>::empty());
    assert(line_cells(seq![r].drop_last()) =~= Seq::<u8>::empty());
    assert(seq![r].last() == r);
    assert(line_cells(seq![r]) =~= run_cells(r));
    assert(line_len(seq![r].drop_last()) == 0);
}

/// The horizontal join of two rows neither drops nor duplicates
/// cells: its cells are exactly the cells of the left row followed by
/// the cells of the right row.
pub proof fn lemma_line_join_cells(a: Seq<Run>, b: Seq<Run>)
    requires
        line_len(a) + line_len(b) <= usize::MAX,
    ensures
        line_cells(spec_line_join(a, b)) == line_cells(a) + line_cells(b),
        line_len(spec_line_join(a, b)) == line_len(a) + line_len(b),
{
    if a.len() == 0 {
        assert(line_cells(a) + line_cells(b) =~= line_cells(b));
    } else if b.len() == 0 {
        assert(line_cells(a) + line_cells(b) =~= line_cells(a));
    } else if a.last().item == b.first().item {
        let m = Run { len: (a.last().len + b.first().len) as usize, item: b.first().item };
        lemma_run_le_line_len(a, a.len() - 1);
        lemma_run_le_line_len(b, 0);
        assert(m.len == a.last().len + b.first().len);
        lemma_line_cells_concat(a.drop_last() + seq![m], b.drop_first());
        lemma_line_cells_concat(a.drop_last(), seq![m]);
        lemma_line_cells_singleton(m);
        assert(run_cells(m) =~= run_cells(a.last()) + run_cells(b.first()));
        assert(line_cells(b) =~= run_cells(b.first()) + line_cells(b.drop_first())) by {
            assert(b =~= seq![b.first()] + b.drop_first());
            lemma_line_cells_concat(seq![b.first()], b.drop_first());
            lemma_line_cells_singleton(b.first());
        }
        assert(line_cells(spec_line_join(a, b)) =~= line_cells(a) + line_cells(b));
        assert(line_len(spec_line_join(a, b)) == line_len(a) + line_len(b)) by {
            lemma_line_cells_len(spec_line_join(a, b));
            lemma_line_cells_len(a);
            lemma_line_cells_len(b);
        }
    } else {
        lemma_line_cells_concat(a, b);
    }
}

/// Stacking one pattern below another never merges runs across the
/// seam, even when the adjacent rows end and begin with the same
/// symbol: every row of the stacked pattern is a row of one of the
/// two patterns, kept verbatim.
pub proof fn lemma_stack_no_seam_merge(a: Seq<Seq<Run>>, b: Seq<Seq<Run>>)
    ensures
        (a + b).len() == a.len() + b.len(),
        forall|i: int| 0 <= i < a.len() ==> (a + b)[i] == a[i],
        forall|i: int| 0 <= i < b.len() ==> (a + b)[a.len() + i] == b[i],
{
}

/// A join of two well-formed rows is well-formed.
pub proof fn lemma_line_join_wf(a: Seq<Run>, b: Seq<Run>)
    requires
        line_wf(a),
        line_wf(b),
        line_len(a) + line_len(b) <= usize::MAX,
    ensures
        line_wf(spec_line_join(a, b)),
{
    if a.len() > 0 && b.len() > 0 && a.last().item == b.first().item {
        lemma_run_le_line_len(a, a.len() - 1);
        lemma_run_le_line_len(b, 0);
        let j = spec_line_join(a, b);
        assert forall|i: int| 0 <= i < j.len() implies (#[trigger] j[i]).len >= 1 by {
            if i < a.len() - 1 {
                assert(j[i] == a[i]);
            } else if i == a.len() - 1 {
                assert(j[i].len == a.last().len + b.first().len);
            } else {
                assert(j[i] == b[i - a.len() + 1]);
            }
        }
    }
}

impl Run {
    /// A blank run of the given length, or nothing for length zero.
    pub fn pad(len: usize) -> (r: Option<Run>)
        ensures
            len == 0 ==> r is None,
            len != 0 ==> r == Some(Run { len: len, item: EMPTY_CELL }),
    {
        if len != 0 {
            Some(Run { len, item: EMPTY_CELL })
        } else {
            None
        }
    }

    /// How many characters this run occupies in the text form: none
    /// for an empty run, just the symbol for length one, and the
    /// decimal count followed by the symbol otherwise.
    pub fn display_len(&self) -> (r: usize)
        ensures
            r == spec_display_len(self.len as nat),
    {
        if self.len == 0 {
            0
        } else if self.len == 1 {
            1
        } else {
            proof {
                lemma_digit_count_usize(self.len);
            }
            let mut m = self.len;
            let mut c: usize = 1;
            while m >= 10
                invariant
                    m >= 1,
                    c >= 1,
                    c + spec_digit_count(m as nat) == 1 + spec_digit_count(self.len as nat),
                    spec_digit_count(m as nat) + c <= 21,
                decreases m,
            {
                m = m / 10;
                c = c + 1;
            }
            c + 1
        }
    }
}

impl Default for Run {
    /// The zero-length run of the zero symbol.
    fn default() -> (r: Self)
        ensures
            r.len == 0,
            r.item == 0,
    {
        Run { len: 0, item: 0 }
    }
}

impl Default for RleLine {
    /// The empty row.
    fn default() -> (r: Self)
        ensures
            r@ == Seq::<Run>::empty(),
    {
        RleLine { runs: Vec::new() }
    }
}

impl Default for Rle {
    /// The empty pattern.
    fn default() -> (r: Self)
        ensures
            r@ == Seq::<Seq<Run>>::empty(),
    {
        let r = Rle { lines: Vec::new() };
        proof {
            assert(r@ =~= Seq::<Seq<Run>>::empty());
        }
        r
    }
}

/// A prefix of a row is no longer than the row.
pub proof fn lemma_line_len_prefix(runs: Seq<Run>, i: int)
    requires
        0 <= i <= runs.len(),
    ensures
        line_len(runs.take(i)) <= line_len(runs),
{
    assert(runs =~= runs.take(i) + runs.skip(i));
    lemma_line_cells_concat(runs.take(i), runs.skip(i));
}

/// Extending a prefix of a row by its next run adds that run's length.
pub proof fn lemma_line_len_take_step(runs: Seq<Run>, i: int)
    requires
        0 <= i < runs.len(),
    ensures
        line_len(runs.take(i + 1)) == line_len(runs.take(i)) + runs[i].len,
        line_cells(runs.take(i + 1)) == line_cells(runs.take(i)) + run_cells(runs[i]),
{
    assert(runs.take(i + 1) =~= runs.take(i).push(runs[i]));
    lemma_line_cells_push(runs.take(i), runs[i]);
}

impl RleLine {
    /// A row holding a single blank run of the given length (no runs
    /// at all when the length is zero).
    pub fn pad(len: usize) -> (r: Self)
        ensures
            r@ == pad_runs(len),
    {
        let mut runs: Vec<Run> = Vec::new();
        if len != 0 {
            runs.push(Run { len, item: EMPTY_CELL });
        }
        proof {
            assert(runs@ =~= pad_runs(len));
        }
        RleLine { runs }
    }

    /// The length of the row: the sum of its run lengths.
    pub fn len(&self) -> (r: usize)
        requires
            line_len(self@) <= usize::MAX,
        ensures
            r == line_len(self@),
    {
        let mut sum: usize = 0;
        let mut i: usize = 0;
        proof {
            assert(self@.take(0) =~= Seq::<Run>::empty());
        }
        while i < self.runs.len()
            invariant
                0 <= i <= self@.len(),
                sum == line_len(self@.take(i as int)),
                line_len(self@) <= usize::MAX,
            decreases self@.len() - i,
        {
            proof {
                lemma_line_len_take_step(self@, i as int);
                lemma_line_len_prefix(self@, i + 1);
            }
            sum = sum + self.runs[i].len;
            i = i + 1;
        }
        proof {
            assert(self@.take(self@.len() as int) =~= self@);
        }
        sum
    }

    /// An identical copy of the row.
    pub fn dup(&self) -> (r: Self)
        ensures
            r@ == self@,
    {
        let mut runs: Vec<Run> = Vec::new();
        let mut i: usize = 0;
        while i < self.runs.len()
            invariant
                0 <= i <= self@.len(),
                runs@ =~= self@.take(i as int),
            decreases self@.len() - i,
        {
            runs.push(self.runs[i]);
            i = i + 1;
        }
        proof {
            assert(runs@ =~= self@);
        }
        RleLine { runs }
    }

    /// The horizontal join of two rows as a fresh row: the runs of
    /// `b` follow the runs of `a`, fusing the two seam runs when
    /// their symbols match.
    pub fn joined(a: &Self, b: &Self) -> (r: Self)
        requires
            line_len(a@) + line_len(b@) <= usize::MAX,
        ensures
            r@ == spec_line_join(a@, b@),
    {
        let mut out = a.dup();
        out.hjoin(b);
        out
    }

    /// Appends `rhs` on the right of this row, fusing the two seam
    /// runs when their symbols match.
    pub fn hjoin(&mut self, rhs: &Self)
        requires
            line_len(old(self)@) + line_len(rhs@) <= usize::MAX,
        ensures
            final(self)@ == spec_line_join(old(self)@, rhs@),
    {
        if rhs.runs.len() == 0 {
            return ;
        }
        let ghost a = self@;
        let ghost b = rhs@;
        let mut bstart: usize = 0;
        if self.runs.len() > 0 {
            let last = self.runs[self.runs.len() - 1];
            let first = rhs.runs[0];
            if last.item == first.item {
                proof {
                    lemma_run_le_line_len(a, a.len() - 1);
                    lemma_run_le_line_len(b, 0);
                }
                self.runs.pop();
                self.runs.push(Run { len: last.len + first.len, item: first.item });
                bstart = 1;
            }
        }
        let ghost core = self@;
        let mut i: usize = bstart;
        while i < rhs.runs.len()
            invariant
                bstart <= i <= b.len(),
                b == rhs@,
                self@ =~= core + b.subrange(bstart as int, i as int),
            decreases b.len() - i,
        {
            proof {
                assert(b.subrange(bstart as int, i + 1) =~= b.subrange(
                    bstart as int,
                    i as int,
                ).push(b[i as int]));
            }
            self.runs.push(rhs.runs[i]);
            i = i + 1;
        }
        proof {
            if a.len() == 0 {
                assert(bstart == 0);
                assert(core =~= a);
                assert(self@ =~= b);
            } else if bstart == 1 {
                let m = Run { len: (a.last().len + b.first().len) as usize, item: b.first().item };
                assert(core =~= a.drop_last().push(m));
                assert(self@ =~= a.drop_last() + seq![m] + b.drop_first());
            } else {
                assert(core =~= a);
                assert(self@ =~= a + b);
            }
        }
    }
}

/// Shape of a repeated pattern: same height, and every row `n` times
/// as long as before.
pub proof fn lemma_repeat_shape(p: Seq<Seq<Run>>, n: nat)
    requires
        n >= 1,
        forall|i: int| 0 <= i < p.len() ==> n * line_len(#[trigger] p[i]) <= usize::MAX,
    ensures
        spec_repeat(p, n).len() == p.len(),
        forall|i: int|
            0 <= i < p.len() ==> line_len(#[trigger] spec_repeat(p, n)[i]) == n * line_len(p[i]),
    decreases n,
{
    if n == 1 {
        assert forall|i: int| 0 <= i < p.len() implies line_len(#[trigger] spec_repeat(p, n)[i])
            == n * line_len(p[i]) by {
            assert(1 * line_len(p[i]) == line_len(p[i])) by (nonlinear_arith);
        }
    } else {
        assert forall|i: int| 0 <= i < p.len() implies (n - 1) * line_len(#[trigger] p[i])
            <= usize::MAX by {
            assert((n - 1) * line_len(p[i]) <= n * line_len(p[i])) by (nonlinear_arith)
                requires
                    n >= 1,
                    line_len(p[i]) >= 0,
            ;
        }
        lemma_repeat_shape(p, (n - 1) as nat);
        assert forall|i: int| 0 <= i < p.len() implies line_len(#[trigger] spec_repeat(p, n)[i])
            == n * line_len(p[i]) by {
            let prev = spec_repeat(p, (n - 1) as nat);
            assert((n - 1) * line_len(p[i]) + line_len(p[i]) == n * line_len(p[i]))
                by (nonlinear_arith);
            lemma_line_join_cells(prev[i], p[i]);
            assert(spec_repeat(p, n)[i] == spec_line_join(prev[i], p[i]));
        }
    }
}

impl Rle {
    /// An all-blank spacer pattern of the given width and height.
    pub fn new_indent(w: usize, h: usize) -> (r: Self)
        ensures
            r@ == Seq::new(h as nat, |i: int| pad_runs(w)),
    {
        let mut lines: Vec<RleLine> = Vec::new();
        let mut i: usize = 0;
        while i < h
            invariant
                0 <= i <= h,
                lines@.len() == i,
                forall|j: int| 0 <= j < i ==> (#[trigger] lines@[j])@ == pad_runs(w),
            decreases h - i,
        {
            lines.push(RleLine::pad(w));
            i = i + 1;
        }
        let r = Rle { lines };
        proof {
            assert(r@ =~= Seq::new(h as nat, |i: int| pad_runs(w)));
        }
        r
    }

    /// An identical copy of the pattern.
    pub fn dup(&self) -> (r: Self)
        ensures
            r@ == self@,
    {
        let mut lines: Vec<RleLine> = Vec::new();
        let mut i: usize = 0;
        while i < self.lines.len()
            invariant
                0 <= i <= self.lines@.len(),
                lines@.len() == i,
                forall|j: int| 0 <= j < i ==> (#[trigger] lines@[j])@ == self@[j],
            decreases self.lines@.len() - i,
        {
            proof {
                assert(self@[i as int] == self.lines@[i as int]@);
            }
            lines.push(self.lines[i].dup());
            i = i + 1;
        }
        let r = Rle { lines };
        proof {
            assert(r@ =~= self@);
        }
        r
    }

    /// Appends the rows of `rhs` below the rows of this pattern,
    /// verbatim: no row and no run is changed by stacking.
    pub fn stack(&mut self, rhs: &Self)
        ensures
            final(self)@ == old(self)@ + rhs@,
    {
        let ghost a = self@;
        let ghost b = rhs@;
        let mut i: usize = 0;
        while i < rhs.lines.len()
            invariant
                0 <= i <= b.len(),
                b == rhs@,
                self@ =~= a + b.take(i as int),
            decreases b.len() - i,
        {
            proof {
                assert(b[i as int] == rhs.lines@[i as int]@);
            }
            let l = rhs.lines[i].dup();
            let ghost prev = self@;
            let ghost prev_lines = self.lines@;
            self.lines.push(l);
            proof {
                assert(self.lines@ == prev_lines.push(l));
                assert(self@.len() == prev.len() + 1);
                assert forall|j: int| 0 <= j < prev.len() implies self@[j] == prev[j] by {
                    assert(self.lines@[j] == prev_lines[j]);
                }
                assert(self@[prev.len() as int] == l@);
                assert(self@ =~= prev.push(l@));
                assert(b.take(i + 1) =~= b.take(i as int).push(b[i as int]));
                assert(a + b.take(i + 1) =~= (a + b.take(i as int)).push(b[i as int]));
                assert(self@ =~= a + b.take(i + 1));
            }
            i = i + 1;
        }
        proof {
            assert(self@ =~= a + b);
        }
    }

    /// Removes every row.
    pub fn clear(&mut self)
        ensures
            final(self)@ == Seq::<Seq<Run>>::empty(),
    {
        self.lines.clear();
        proof {
            assert(self@ =~= Seq::<Seq<Run>>::empty());
        }
    }

    /// The width of the pattern: the length of its longest row.
    pub fn width(&self) -> (r: usize)
        requires
            forall|i: int| 0 <= i < self@.len() ==> line_len(#[trigger] self@[i]) <= usize::MAX,
        ensures
            r == pattern_width(self@),
    {
        let mut w: usize = 0;
        let mut i: usize = 0;
        proof {
            assert(self@.take(0) =~= Seq::<Seq<Run>>::empty());
        }
        while i < self.lines.len()
            invariant
                0 <= i <= self@.len(),
                w == pattern_width(self@.take(i as int)),
                forall|k: int| 0 <= k < self@.len() ==> line_len(#[trigger] self@[k]) <= usize::MAX,
            decreases self@.len() - i,
        {
            proof {
                assert(self@[i as int] == self.lines@[i as int]@);
                assert(self@.take(i + 1).drop_last() =~= self@.take(i as int));
                assert(self@.take(i + 1).last() == self@[i as int]);
            }
            let l = self.lines[i].len();
            if l > w {
                w = l;
            }
            i = i + 1;
        }
        proof {
            assert(self@.take(self@.len() as int) =~= self@);
        }
        w
    }

    /// The height of the pattern: its row count.
    pub fn height(&self) -> (r: usize)
        ensures
            r == self@.len(),
    {
        self.lines.len()
    }

    /// Joins `rhs` onto the right edge of this pattern, row by row;
    /// both patterns must have the same height.
    pub fn hjoin(&mut self, rhs: &Self)
        requires
            old(self)@.len() == rhs@.len(),
            forall|i: int|
                0 <= i < old(self)@.len() ==> line_len(#[trigger] old(self)@[i]) + line_len(
                    rhs@[i],
                ) <= usize::MAX,
        ensures
            final(self)@ == spec_pattern_join(old(self)@, rhs@),
    {
        let ghost a = self@;
        let ghost b = rhs@;
        let mut out: Vec<RleLine> = Vec::new();
        let mut i: usize = 0;
        while i < self.lines.len()
            invariant
                0 <= i <= a.len(),
                a == self@,
                b == rhs@,
                a.len() == b.len(),
                forall|k: int|
                    0 <= k < a.len() ==> line_len(#[trigger] a[k]) + line_len(b[k]) <= usize::MAX,
                out@.len() == i,
                forall|j: int| 0 <= j < i ==> (#[trigger] out@[j])@ == spec_line_join(a[j], b[j]),
            decreases a.len() - i,
        {
            proof {
                assert(a[i as int] == self.lines@[i as int]@);
                assert(b[i as int] == rhs.lines@[i as int]@);
            }
            let l = RleLine::joined(&self.lines[i], &rhs.lines[i]);
            out.push(l);
            i = i + 1;
        }
        self.lines = out;
        proof {
            assert(self@ =~= spec_pattern_join(a, b));
        }
    }

    /// Replaces this pattern by `n` copies of itself joined side by
    /// side; zero copies leaves the empty pattern.
    pub fn repeat(&mut self, n: usize)
        requires
            forall|i: int|
                0 <= i < old(self)@.len() ==> n * line_len(#[trigger] old(self)@[i]) <= usize::MAX,
        ensures
            final(self)@ == spec_repeat(old(self)@, n as nat),
    {
        let ghost p = self@;
        if n == 0 {
            self.clear();
            return ;
        }
        if n == 1 {
            return ;
        }
        let orig = self.dup();
        let mut k: usize = 1;
        while k < n
            invariant
                1 <= k <= n,
                orig@ == p,
                self@ == spec_repeat(p, k as nat),
                forall|i: int|
                    0 <= i < p.len() ==> n * line_len(#[trigger] p[i]) <= usize::MAX,
            decreases n - k,
        {
            proof {
                assert forall|i: int| 0 <= i < p.len() implies (k as nat) * line_len(
                    #[trigger] p[i],
                ) <= usize::MAX by {
                    assert((k as nat) * line_len(p[i]) <= (n as nat) * line_len(p[i]))
                        by (nonlinear_arith)
                        requires
                            0 < k <= n,
                            line_len(p[i]) >= 0,
                    ;
                }
                lemma_repeat_shape(p, k as nat);
                assert forall|i: int| 0 <= i < self@.len() implies line_len(#[trigger] self@[i])
                    + line_len(orig@[i]) <= usize::MAX by {
                    assert((k as nat) * line_len(p[i]) + line_len(p[i]) <= (n as nat) * line_len(
                        p[i],
                    )) by (nonlinear_arith)
                        requires
                            0 < k < n,
                            line_len(p[i]) >= 0,
                    ;
                }
            }
            self.hjoin(&orig);
            k = k + 1;
        }
    }
}

/// Failure kinds of the pattern-text parser.
#[derive(Debug, Clone, Copy, PartialEq, Eq, Structural)]
pub enum RleErr {
    /// The text has no width declaration.
    NoWidth,
    /// The declared width is not a number.
    BadWidth,
    /// The text has no height declaration.
    NoHeight,
    /// The declared height is not a number.
    BadHeight,
}

/// The parser state while reading a pattern body: finished rows, the
/// row being read, the blank space still owed to that row, and the
/// pending decimal count.
pub ghost struct BuildState {
    pub lines: Seq<Seq<Run>>,
    pub cur: Seq<Run>,
    pub pad: usize,
    pub runl: usize,
}

/// One step of the body parser on character `c`, with declared width
/// `w`.  Whitespace is skipped; digits accumulate a count, saturating
/// at the largest machine value; `$` and `!` finish the row, padding
/// it to the declared width with blanks and appending `count - 1`
/// empty rows; any other character appends a run of that symbol.
pub open spec fn spec_build_step(st: BuildState, c: char, w: usize) -> BuildState {
    if crate::helpers::spec_is_space(c) {
        st
    } else if crate::helpers::spec_is_digit(c) {
        let d = crate::helpers::spec_digit_val(c);
        let v = 10 * st.runl + d;
        BuildState {
            runl: if v > usize::MAX {
                usize::MAX
            } else {
                v as usize
            },
            ..st
        }
    } else if c == '$' || c == '!' {
        let done = if st.pad != 0 {
            st.cur.push(Run { len: st.pad, item: EMPTY_CELL })
        } else {
            st.cur
        };
        let extra: nat = if st.runl == 0 {
            0
        } else {
            (st.runl - 1) as nat
        };
        BuildState {
            lines: st.lines.push(done) + Seq::new(extra, |i: int| Seq::<Run>::empty()),
            cur: Seq::empty(),
            pad: w,
            runl: 0,
        }
    } else {
        let len: usize = if st.runl == 0 {
            1
        } else {
            st.runl
        };
        BuildState {
            cur: st.cur.push(Run { len: len, item: c as u8 }),
            pad: if st.pad >= len {
                (st.pad - len) as usize
            } else {
                0
            },
            runl: 0,
            ..st
        }
    }
}

/// The body parser folded over a character sequence.
pub open spec fn spec_build_fold(s: Seq<char>, w: usize, st: BuildState) -> BuildState
    decreases s.len(),
{
    if s.len() == 0 {
        st
    } else {
        spec_build_fold(s.drop_first(), w, spec_build_step(st, s[0], w))
    }
}

/// Blank rows of width `w` appended until the pattern is `h` rows
/// high (nothing removed if it is already higher).
pub open spec fn spec_pad_bottom(lines: Seq<Seq<Run>>, w: usize, h: usize) -> Seq<Seq<Run>> {
    if h > lines.len() {
        lines + Seq::new((h - lines.len()) as nat, |i: int| pad_runs(w))
    } else {
        lines
    }
}

/// The rows a pattern body denotes: the fold over its characters
/// (an unterminated final row is dropped), padded at the bottom to
/// the declared height.
pub open spec fn spec_build_from(s: Seq<char>, w: usize, h: usize) -> Seq<Seq<Run>> {
    let init = BuildState { lines: Seq::empty(), cur: Seq::empty(), pad: w, runl: 0 };
    spec_pad_bottom(spec_build_fold(s, w, init).lines, w, h)
}

/// The width-declaration prefix `x = `.
pub open spec fn spec_x_prefix() -> Seq<char> {
    seq!['x', ' ', '=', ' ']
}

/// The height-declaration prefix `y = `.
pub open spec fn spec_y_prefix() -> Seq<char> {
    seq!['y', ' ', '=', ' ']
}

/// The rule-declaration line `rule = Flow6` with its newline.
pub open spec fn spec_rule_prefix() -> Seq<char> {
    seq!['r', 'u', 'l', 'e', ' ', '=', ' ', 'F', 'l', 'o', 'w', '6', '\n']
}

/// The separator `, ` between declarations.
pub open spec fn spec_comma_sep() -> Seq<char> {
    seq![',', ' ']
}

/// `s` with every copy of the prefix `p` removed from its front.
pub open spec fn spec_strip_all(s: Seq<char>, p: Seq<char>) -> Seq<char>
    decreases s.len(),
{
    if p.len() >= 1 && s.len() >= p.len() && s.subrange(0, p.len() as int) == p {
        spec_strip_all(s.skip(p.len() as int), p)
    } else {
        s
    }
}

/// The first index at which `sep` occurs in `s`.
pub open spec fn spec_find(s: Seq<char>, sep: Seq<char>) -> Option<int>
    decreases s.len(),
{
    if s.len() < sep.len() {
        None
    } else if s.subrange(0, sep.len() as int) == sep {
        Some(0)
    } else if s.len() == sep.len() {
        None
    } else {
        match spec_find(s.drop_first(), sep) {
            Some(i) => Some(i + 1),
            None => None,
        }
    }
}

/// `s` split at the first occurrence of `sep`, which is dropped.
pub open spec fn spec_split_once(s: Seq<char>, sep: Seq<char>) -> Option<(Seq<char>, Seq<char>)> {
    match spec_find(s, sep) {
        Some(i) => Some((s.take(i), s.skip(i + sep.len()))),
        None => None,
    }
}

/// What a pattern text denotes.  The declarations are read first:
/// a missing or malformed width or height is an error; a zero height
/// yields the empty pattern; a zero width yields empty rows; and
/// otherwise the body is read as `spec_build_from` describes.
pub open spec fn spec_rle_parse(s: Seq<char>) -> Result<Seq<Seq<Run>>, RleErr> {
    let s1 = spec_strip_all(s, spec_x_prefix());
    match spec_split_once(s1, spec_comma_sep()) {
        None => Err(RleErr::NoWidth),
        Some((ws, s2)) => match crate::helpers::spec_parse_usize(ws) {
            None => Err(RleErr::BadWidth),
            Some(w) => {
                let s3 = spec_strip_all(s2, spec_y_prefix());
                match spec_split_once(s3, spec_comma_sep()) {
                    None => Err(RleErr::NoHeight),
                    Some((hs, s4)) => match crate::helpers::spec_parse_usize(hs) {
                        None => Err(RleErr::BadHeight),
                        Some(h) => if h == 0 {
                            Ok(Seq::empty())
                        } else {
                            let s5 = spec_strip_all(s4, spec_rule_prefix());
                            if w != 0 {
                                Ok(spec_build_from(s5, w, h))
                            } else {
                                Ok(Seq::new(h as nat, |i: int| Seq::<Run>::empty()))
                            }
                        },
                    },
                }
            },
        },
    }
}

/// Whether `cs[pos..]` starts with `p`.
fn has_prefix_at(cs: &Vec<char>, pos: usize, p: &Vec<char>) -> (r: bool)
    requires
        pos <= cs@.len(),
    ensures
        r == (cs@.len() - pos >= p@.len() && cs@.skip(pos as int).subrange(0, p@.len() as int)
            == p@),
{
    if cs.len() - pos < p.len() {
        return false;
    }
    proof {
        assert(cs@.len() == cs.len());
    }
    let mut i: usize = 0;
    while i < p.len()
        invariant
            0 <= i <= p@.len(),
            pos + p@.len() <= cs@.len(),
            cs@.len() <= usize::MAX,
            forall|j: int| 0 <= j < i ==> cs@[pos + j] == p@[j],
        decreases p@.len() - i,
    {
        proof {
            assert(pos + i < cs@.len());
        }
        if cs[pos + i] != p[i] {
            proof {
                assert(cs@.skip(pos as int).subrange(0, p@.len() as int)[i as int] == cs@[pos
                    + i]);
            }
            return false;
        }
        i = i + 1;
    }
    proof {
        assert(cs@.skip(pos as int).subrange(0, p@.len() as int) =~= p@);
    }
    true
}

/// Advances `pos` past every leading copy of `p`.
fn strip_all_from(cs: &Vec<char>, pos: usize, p: &Vec<char>) -> (r: usize)
    requires
        pos <= cs@.len(),
        p@.len() >= 1,
    ensures
        pos <= r <= cs@.len(),
        cs@.skip(r as int) == spec_strip_all(cs@.skip(pos as int), p@),
{
    let mut cur = pos;
    proof {
        assert(cs@.len() == cs.len());
    }
    while has_prefix_at(cs, cur, p)
        invariant
            pos <= cur <= cs@.len(),
            cs@.len() <= usize::MAX,
            p@.len() >= 1,
            spec_strip_all(cs@.skip(cur as int), p@) == spec_strip_all(cs@.skip(pos as int), p@),
        decreases cs@.len() - cur,
    {
        proof {
            assert(cur + p@.len() <= cs@.len());
            assert(cs@.skip(cur as int).skip(p@.len() as int) =~= cs@.skip(cur + p@.len()));
        }
        cur = cur + p.len();
    }
    cur
}

/// The first index at or after `pos` where `sep` occurs in `cs`.
fn find_from(cs: &Vec<char>, pos: usize, sep: &Vec<char>) -> (r: Option<usize>)
    requires
        pos <= cs@.len(),
        sep@.len() >= 1,
    ensures
        match spec_find(cs@.skip(pos as int), sep@) {
            None => r is None,
            Some(k) => r == Some((pos + k) as usize),
        },
{
    let mut cur = pos;
    while cs.len() - cur >= sep.len()
        invariant
            pos <= cur <= cs@.len(),
            sep@.len() >= 1,
            match spec_find(cs@.skip(cur as int), sep@) {
                None => spec_find(cs@.skip(pos as int), sep@) is None,
                Some(k) => spec_find(cs@.skip(pos as int), sep@) == Some(k + cur - pos),
            },
        decreases cs@.len() - cur,
    {
        if has_prefix_at(cs, cur, sep) {
            return Some(cur);
        }
        proof {
            assert(cs@.skip(cur as int).drop_first() =~= cs@.skip(cur + 1));
        }
        cur = cur + 1;
    }
    proof {
        assert(cs@.skip(cur as int).len() < sep@.len());
    }
    None
}

/// A found separator index lies within the sequence.
pub proof fn lemma_find_valid(s: Seq<char>, sep: Seq<char>, k: int)
    requires
        spec_find(s, sep) == Some(k),
    ensures
        0 <= k,
        k + sep.len() <= s.len(),
        s.subrange(k, k + sep.len() as int) == sep,
    decreases s.len(),
{
    if s.len() < sep.len() {
    } else if s.subrange(0, sep.len() as int) == sep {
    } else if s.len() == sep.len() {
    } else {
        lemma_find_valid(s.drop_first(), sep, k - 1);
        assert(s.drop_first().subrange(k - 1, k - 1 + sep.len()) =~= s.subrange(
            k,
            k + sep.len() as int,
        ));
    }
}

/// The exact characters `x = `.
fn x_prefix() -> (v: Vec<char>)
    ensures
        v@ == spec_x_prefix(),
{
    let mut v: Vec<char> = Vec::new();
    v.push('x');
    v.push(' ');
    v.push('=');
    v.push(' ');
    proof {
        assert(v@ =~= spec_x_prefix());
    }
    v
}

/// The exact characters `y = `.
fn y_prefix() -> (v: Vec<char>)
    ensures
        v@ == spec_y_prefix(),
{
    let mut v: Vec<char> = Vec::new();
    v.push('y');
    v.push(' ');
    v.push('=');
    v.push(' ');
    proof {
        assert(v@ =~= spec_y_prefix());
    }
    v
}

/// The exact characters `rule = Flow6` and a newline.
fn rule_prefix() -> (v: Vec<char>)
    ensures
        v@ == spec_rule_prefix(),
{
    let mut v: Vec<char> = Vec::new();
    v.push('r');
    v.push('u');
    v.push('l');
    v.push('e');
    v.push(' ');
    v.push('=');
    v.push(' ');
    v.push('F');
    v.push('l');
    v.push('o');
    v.push('w');
    v.push('6');
    v.push('\n');
    proof {
        assert(v@ =~= spec_rule_prefix());
    }
    v
}

/// The exact characters `, `.
fn comma_sep() -> (v: Vec<char>)
    ensures
        v@ == spec_comma_sep(),
{
    let mut v: Vec<char> = Vec::new();
    v.push(',');
    v.push(' ');
    proof {
        assert(v@ =~= spec_comma_sep());
    }
    v
}

impl Rle {
    /// Appends one row at the bottom.
    pub fn push_line(&mut self, l: RleLine)
        ensures
            final(self)@ == old(self)@.push(l@),
    {
        let ghost prev = self@;
        let ghost prev_lines = self.lines@;
        let ghost lv = l@;
        self.lines.push(l);
        proof {
            assert(self@.len() == prev.len() + 1);
            assert forall|j: int| 0 <= j < prev.len() implies self@[j] == prev[j] by {
                assert(self.lines@[j] == prev_lines[j]);
            }
            assert(self@[prev.len() as int] == lv);
            assert(self@ =~= prev.push(lv));
        }
    }

    /// Appends blank rows of width `w` until the pattern is `h` rows
    /// high.
    fn pad_bottom_to(&mut self, w: usize, h: usize)
        ensures
            final(self)@ == spec_pad_bottom(old(self)@, w, h),
    {
        let ghost base = self@;
        proof {
            assert(self@ =~= base + Seq::new((self@.len() - base.len()) as nat, |i: int| pad_runs(w)));
        }
        while self.lines.len() < h
            invariant
                self@.len() >= base.len(),
                self@.len() <= if h > base.len() {
                    h as nat
                } else {
                    base.len()
                },
                self@ =~= base + Seq::new((self@.len() - base.len()) as nat, |i: int| pad_runs(w)),
            decreases h - self.lines@.len(),
        {
            let ghost k = (self@.len() - base.len()) as nat;
            self.push_line(RleLine::pad(w));
            proof {
                assert(Seq::new(k + 1, |i: int| pad_runs(w)) =~= Seq::new(
                    k,
                    |i: int| pad_runs(w),
                ).push(pad_runs(w)));
                assert(self@ =~= base + Seq::new(
                    (self@.len() - base.len()) as nat,
                    |i: int| pad_runs(w),
                ));
            }
        }
        proof {
            if h > base.len() {
                assert(self@.len() == h);
            } else {
                assert(self@.len() == base.len());
                assert(self@ =~= base);
            }
        }
    }

    /// Reads a pattern body from `s[from..]`, as `spec_build_from`
    /// describes, into this (empty) pattern.
    fn build_from(&mut self, s: &Vec<char>, from: usize, w: usize, h: usize)
        requires
            old(self)@.len() == 0,
            from <= s@.len(),
        ensures
            final(self)@ == spec_build_from(s@.skip(from as int), w, h),
    {
        let ghost init = BuildState { lines: Seq::empty(), cur: Seq::empty(), pad: w, runl: 0 };
        let ghost total = spec_build_fold(s@.skip(from as int), w, init);
        let mut cur_runs: Vec<Run> = Vec::new();
        let mut pad_len: usize = w;
        let mut run_len: usize = 0;
        let mut i: usize = from;
        proof {
            assert(self@ =~= Seq::<Seq<Run>>::empty());
            assert(init.lines == self@);
            assert(init.cur =~= cur_runs@);
        }
        while i < s.len()
            invariant
                from <= i <= s@.len(),
                s@.len() == s.len(),
                spec_build_fold(
                    s@.skip(i as int),
                    w,
                    BuildState { lines: self@, cur: cur_runs@, pad: pad_len, runl: run_len },
                ) == total,
            decreases s@.len() - i,
        {
            let c = s[i];
            let ghost st = BuildState {
                lines: self@,
                cur: cur_runs@,
                pad: pad_len,
                runl: run_len,
            };
            proof {
                assert(s@.skip(i as int)[0] == s@[i as int]);
                assert(s@.skip(i as int).drop_first() =~= s@.skip(i + 1));
            }
            if crate::helpers::is_space(c) {
            } else if crate::helpers::is_digit(c) {
                let d = crate::helpers::digit_val(c);
                if run_len > (usize::MAX - d) / 10 {
                    run_len = usize::MAX;
                } else {
                    run_len = 10 * run_len + d;
                }
            } else if c == '$' || c == '!' {
                if pad_len != 0 {
                    cur_runs.push(Run { len: pad_len, item: EMPTY_CELL });
                }
                let ghost done = cur_runs@;
                self.push_line(RleLine { runs: cur_runs });
                cur_runs = Vec::new();
                let ghost mid = self@;
                if run_len > 0 {
                    let mut k: usize = 1;
                    while k < run_len
                        invariant
                            1 <= k <= run_len,
                            self@ =~= mid + Seq::new(
                                (k - 1) as nat,
                                |j: int| Seq::<Run>::empty(),
                            ),
                        decreases run_len - k,
                    {
                        let ghost kk = (k - 1) as nat;
                        self.push_line(RleLine { runs: Vec::new() });
                        proof {
                            assert(Seq::new(kk + 1, |j: int| Seq::<Run>::empty()) =~= Seq::new(
                                kk,
                                |j: int| Seq::<Run>::empty(),
                            ).push(Seq::<Run>::empty()));
                            assert(self@ =~= mid + Seq::new(
                                kk + 1,
                                |j: int| Seq::<Run>::empty(),
                            ));
                        }
                        k = k + 1;
                    }
                }
                pad_len = w;
                run_len = 0;
                proof {
                    let stepped = spec_build_step(st, s@[i as int], w);
                    let extra: nat = if st.runl == 0 {
                        0
                    } else {
                        (st.runl - 1) as nat
                    };
                    assert(self@ =~= mid + Seq::new(extra, |j: int| Seq::<Run>::empty()));
                    assert(stepped.lines =~= self@);
                    assert(stepped.cur =~= cur_runs@);
                }
            } else {
                let len: usize = if run_len == 0 {
                    1
                } else {
                    run_len
                };
                if pad_len >= len {
                    pad_len = pad_len - len;
                } else {
                    pad_len = 0;
                }
                cur_runs.push(Run { len, item: c as u8 });
                run_len = 0;
            }
            proof {
                let stepped = spec_build_step(st, s@[i as int], w);
                let now = BuildState { lines: self@, cur: cur_runs@, pad: pad_len, runl: run_len };
                assert(stepped.lines =~= now.lines);
                assert(stepped.cur =~= now.cur);
                assert(stepped == now);
            }
            i = i + 1;
        }
        proof {
            assert(s@.skip(s@.len() as int) =~= Seq::<char>::empty());
            assert(total.lines == self@);
        }
        self.pad_bottom_to(w, h);
    }

    /// Reads a pattern from its text form, exactly as
    /// `spec_rle_parse` describes: width, height and rule
    /// declarations, then a run-length body.
    #[verifier::rlimit(100)]
    #[verifier::spinoff_prover]
    pub fn parse(s: &str) -> (r: Result<Rle, RleErr>)
        ensures
            (match r {
                Ok(p) => spec_rle_parse(s@) == Ok::<Seq<Seq<Run>>, RleErr>(p@),
                Err(e) => spec_rle_parse(s@) == Err::<Seq<Seq<Run>>, RleErr>(e),
            }),
    {
        let cs = crate::helpers::chars_of(s);
        let xp = x_prefix();
        let sep = comma_sep();
        proof {
            assert(cs@.skip(0) =~= cs@);
        }
        let pos0 = strip_all_from(&cs, 0, &xp);
        let ghost s1 = spec_strip_all(cs@, spec_x_prefix());
        let j = match find_from(&cs, pos0, &sep) {
            None => {
                return Err(RleErr::NoWidth);
            },
            Some(j) => j,
        };
        proof {
            assert(cs@.skip(pos0 as int) == s1);
            assert(spec_find(s1, spec_comma_sep()) is Some);
            let k = spec_find(s1, spec_comma_sep())->Some_0;
            lemma_find_valid(s1, spec_comma_sep(), k);
            assert(cs@.len() == cs.len());
            assert(pos0 + k <= usize::MAX);
            assert(k == j - pos0);
            assert(j + 2 <= cs@.len());
            assert(cs@.subrange(pos0 as int, j as int) =~= s1.take(j - pos0));
        }
        let wseg = crate::helpers::copy_range(&cs, pos0, j);
        let w = match crate::helpers::parse_usize(&wseg) {
            None => {
                return Err(RleErr::BadWidth);
            },
            Some(w) => w,
        };
        let pos1 = j + sep.len();
        proof {
            assert(cs@.skip(pos1 as int) =~= s1.skip(j - pos0 + 2));
        }
        let yp = y_prefix();
        let pos2 = strip_all_from(&cs, pos1, &yp);
        let ghost s3 = spec_strip_all(s1.skip(j - pos0 + 2), spec_y_prefix());
        proof {
            assert(cs@.skip(pos2 as int) == s3);
        }
        let j2 = match find_from(&cs, pos2, &sep) {
            None => {
                return Err(RleErr::NoHeight);
            },
            Some(j2) => j2,
        };
        proof {
            assert(spec_find(s3, spec_comma_sep()) is Some);
            let k2 = spec_find(s3, spec_comma_sep())->Some_0;
            lemma_find_valid(s3, spec_comma_sep(), k2);
            assert(cs@.len() == cs.len());
            assert(pos2 + k2 <= usize::MAX);
            assert(k2 == j2 - pos2);
            assert(j2 + 2 <= cs@.len());
            assert(cs@.subrange(pos2 as int, j2 as int) =~= s3.take(j2 - pos2));
        }
        let hseg = crate::helpers::copy_range(&cs, pos2, j2);
        let h = match crate::helpers::parse_usize(&hseg) {
            None => {
                return Err(RleErr::BadHeight);
            },
            Some(h) => h,
        };
        if h == 0 {
            let out = Rle::default();
            return Ok(out);
        }
        let pos3 = j2 + sep.len();
        proof {
            assert(cs@.skip(pos3 as int) =~= s3.skip(j2 - pos2 + 2));
        }
        let rp = rule_prefix();
        let pos4 = strip_all_from(&cs, pos3, &rp);
        let mut out = Rle::default();
        if w != 0 {
            out.build_from(&cs, pos4, w, h);
        } else {
            let mut k: usize = 0;
            while k < h
                invariant
                    0 <= k <= h,
                    out@ =~= Seq::new(k as nat, |i: int| Seq::<Run>::empty()),
                decreases h - k,
            {
                let ghost kk = k as nat;
                out.push_line(RleLine { runs: Vec::new() });
                proof {
                    assert(Seq::new(kk + 1, |i: int| Seq::<Run>::empty()) =~= Seq::new(
                        kk,
                        |i: int| Seq::<Run>::empty(),
                    ).push(Seq::<Run>::empty()));
                }
                k = k + 1;
            }
        }
        Ok(out)
    }
}

/// Number of decimal digits of `n` (one digit for zero).
pub open spec fn spec_digit_count(n: nat) -> nat
    decreases n,
{
    if n < 10 {
        1
    } else {
        1 + spec_digit_count(n / 10)
    }
}

/// Characters a run of length `n` occupies in the text form.
pub open spec fn spec_display_len(n: nat) -> nat {
    if n == 0 {
        0
    } else if n == 1 {
        1
    } else {
        spec_digit_count(n) + 1
    }
}

/// Digit counts of machine integers are small.
pub proof fn lemma_digit_count_le(n: nat, k: nat)
    requires
        k >= 1,
        n < vstd::arithmetic::power::pow(10, k),
    ensures
        spec_digit_count(n) <= k,
    decreases k,
{
    vstd::arithmetic::power::lemma_pow1(10);
    if n < 10 {
    } else {
        assert(k >= 2) by {
            if k == 1 {
                assert(vstd::arithmetic::power::pow(10, 1) == 10);
            }
        }
        let p = vstd::arithmetic::power::pow(10, (k - 1) as nat);
        assert(vstd::arithmetic::power::pow(10, k) == 10 * p) by {
            vstd::arithmetic::power::lemma_pow_adds(10, 1, (k - 1) as nat);
        }
        assert(p >= 1) by {
            vstd::arithmetic::power::lemma_pow_positive(10, (k - 1) as nat);
        }
        assert(n / 10 < p) by (nonlinear_arith)
            requires
                n < 10 * p,
                p >= 1,
        ;
        lemma_digit_count_le(n / 10, (k - 1) as nat);
    }
}

/// Ten to the twentieth power, spelled out.
proof fn lemma_pow10_20()
    ensures
        vstd::arithmetic::power::pow(10, 20) == 100000000000000000000,
{
    vstd::arithmetic::power::lemma_pow1(10);
    vstd::arithmetic::power::lemma_pow_adds(10, 1, 1);
    assert(vstd::arithmetic::power::pow(10, 2) == 100);
    vstd::arithmetic::power::lemma_pow_adds(10, 2, 2);
    assert(vstd::arithmetic::power::pow(10, 4) == 10000);
    vstd::arithmetic::power::lemma_pow_adds(10, 4, 1);
    assert(vstd::arithmetic::power::pow(10, 5) == 100000);
    vstd::arithmetic::power::lemma_pow_adds(10, 5, 5);
    assert(vstd::arithmetic::power::pow(10, 10) == 10000000000);
    vstd::arithmetic::power::lemma_pow_adds(10, 10, 10);
}

/// A usize value has at most 20 decimal digits.
pub proof fn lemma_digit_count_usize(n: usize)
    ensures
        spec_digit_count(n as nat) <= 20,
{
    lemma_pow10_20();
    lemma_digit_count_le(n as nat, 20);
}

/// The number of digit characters equals the digit count.
pub proof fn lemma_digits_chars_len(n: nat)
    ensures
        crate::helpers::spec_digits_chars(n).len() == spec_digit_count(n),
    decreases n,
{
    if n >= 10 {
        lemma_digits_chars_len(n / 10);
    }
}

/// The tokens a row contributes to the text form: all its runs, but
/// with a final blank run left out.
pub open spec fn spec_line_tokens(runs: Seq<Run>) -> Seq<Run> {
    if runs.len() >= 1 && runs.last().item == EMPTY_CELL {
        runs.drop_last()
    } else {
        runs
    }
}

/// The token stream of rows `i` and onward, with `newlines` row
/// terminators pending.  Empty rows only raise the pending count; a
/// non-empty row emits its tokens and then a `$` terminator carrying
/// the pending count, or `!` on the last row.  Pending terminators
/// at the very end are dropped.
pub open spec fn spec_tokens_from(p: Seq<Seq<Run>>, i: int, newlines: usize) -> Seq<Run>
    decreases p.len() - i,
    when 0 <= i <= p.len()
{
    if i >= p.len() {
        Seq::empty()
    } else if p[i].len() == 0 {
        spec_tokens_from(
            p,
            i + 1,
            if newlines < usize::MAX {
                (newlines + 1) as usize
            } else {
                newlines
            },
        )
    } else {
        let term: u8 = if i == p.len() - 1 {
            33
        } else {
            36
        };
        spec_line_tokens(p[i]) + seq![Run { len: newlines, item: term }] + spec_tokens_from(
            p,
            i + 1,
            1,
        )
    }
}

/// The characters one token prints as: nothing for a zero count, the
/// symbol alone for a count of one, else the decimal count and then
/// the symbol.
pub open spec fn spec_token_chars(t: Run) -> Seq<char> {
    if t.len == 0 {
        Seq::empty()
    } else if t.len == 1 {
        seq![t.item as char]
    } else {
        crate::helpers::spec_digits_chars(t.len as nat) + seq![t.item as char]
    }
}

/// The body text from token `i` on, wrapped so that no output line
/// exceeds 70 characters: a token that no longer fits on the `rem`
/// characters left starts a new output line.
pub open spec fn spec_wrap_from(toks: Seq<Run>, i: int, rem: int) -> Seq<char>
    decreases toks.len() - i,
    when 0 <= i <= toks.len()
{
    if i >= toks.len() {
        Seq::empty()
    } else {
        let dl = spec_display_len(toks[i].len as nat) as int;
        if dl >= rem {
            seq!['\n'] + spec_token_chars(toks[i]) + spec_wrap_from(toks, i + 1, 70 - dl)
        } else {
            spec_token_chars(toks[i]) + spec_wrap_from(toks, i + 1, rem - dl)
        }
    }
}

/// The full text form of a pattern: the width, height and rule
/// declarations, the wrapped token stream, and a final newline.
pub open spec fn spec_rle_render(p: Seq<Seq<Run>>) -> Seq<char> {
    spec_x_prefix() + crate::helpers::spec_digits_chars(pattern_width(p)) + spec_comma_sep()
        + spec_y_prefix() + crate::helpers::spec_digits_chars(p.len()) + spec_comma_sep()
        + spec_rule_prefix() + spec_wrap_from(spec_tokens_from(p, 0, 1), 0, 70) + seq!['\n']
}

impl Rle {
    /// The token stream of the whole pattern.
    fn tokens(&self) -> (toks: Vec<Run>)
        requires
            self@.len() < usize::MAX,
        ensures
            toks@ == spec_tokens_from(self@, 0, 1),
    {
        let ghost total = spec_tokens_from(self@, 0, 1);
        let mut toks: Vec<Run> = Vec::new();
        let mut newlines: usize = 1;
        let mut i: usize = 0;
        let n = self.lines.len();
        while i < n
            invariant
                0 <= i <= n,
                n == self@.len(),
                n < usize::MAX,
                newlines <= i + 1,
                total == toks@ + spec_tokens_from(self@, i as int, newlines),
            decreases n - i,
        {
            proof {
                assert(self@[i as int] == self.lines@[i as int]@);
            }
            let runs = &self.lines[i].runs;
            if runs.len() == 0 {
                newlines = newlines + 1;
            } else {
                let ghost before = toks@;
                let mut k: usize = 0;
                while k < runs.len() - 1
                    invariant
                        0 <= k <= runs@.len() - 1,
                        toks@ =~= before + runs@.take(k as int),
                    decreases runs@.len() - k,
                {
                    proof {
                        assert(runs@.take(k + 1) =~= runs@.take(k as int).push(runs@[k as int]));
                    }
                    toks.push(runs[k]);
                    k = k + 1;
                }
                let last = runs[runs.len() - 1];
                if last.item != EMPTY_CELL {
                    toks.push(last);
                }
                proof {
                    if last.item == EMPTY_CELL {
                        assert(runs@.take(runs@.len() - 1) =~= runs@.drop_last());
                        assert(toks@ =~= before + spec_line_tokens(self@[i as int]));
                    } else {
                        assert(runs@.take(runs@.len() - 1).push(last) =~= runs@);
                        assert(toks@ =~= before + spec_line_tokens(self@[i as int]));
                    }
                }
                let term: u8 = if i == n - 1 {
                    33
                } else {
                    36
                };
                toks.push(Run { len: newlines, item: term });
                proof {
                    assert(toks@ =~= before + (spec_line_tokens(self@[i as int]) + seq![
                        Run { len: newlines, item: term },
                    ]));
                    assert(before + (spec_line_tokens(self@[i as int]) + seq![
                        Run { len: newlines, item: term },
                    ]) + spec_tokens_from(self@, i + 1, 1) =~= before + (spec_line_tokens(
                        self@[i as int],
                    ) + seq![Run { len: newlines, item: term }] + spec_tokens_from(
                        self@,
                        i + 1,
                        1,
                    )));
                }
                newlines = 1;
            }
            i = i + 1;
        }
        proof {
            assert(spec_tokens_from(self@, n as int, newlines) =~= Seq::<Run>::empty());
            assert(total =~= toks@);
        }
        toks
    }

    /// Writes the `x = W, y = H, rule = Flow6` header line.
    fn push_header(w: usize, h: usize, out: &mut Vec<char>)
        ensures
            final(out)@ == old(out)@ + spec_x_prefix() + crate::helpers::spec_digits_chars(
                w as nat,
            ) + spec_comma_sep() + spec_y_prefix() + crate::helpers::spec_digits_chars(h as nat)
                + spec_comma_sep() + spec_rule_prefix(),
    {
        let ghost base = out@;
        out.push('x');
        out.push(' ');
        out.push('=');
        out.push(' ');
        proof {
            assert(out@ =~= base + spec_x_prefix());
        }
        crate::helpers::push_digits(w, out);
        let ghost b1 = out@;
        out.push(',');
        out.push(' ');
        out.push('y');
        out.push(' ');
        out.push('=');
        out.push(' ');
        proof {
            assert(out@ =~= b1 + spec_comma_sep() + spec_y_prefix());
        }
        crate::helpers::push_digits(h, out);
        let ghost b2 = out@;
        out.push(',');
        out.push(' ');
        out.push('r');
        out.push('u');
        out.push('l');
        out.push('e');
        out.push(' ');
        out.push('=');
        out.push(' ');
        out.push('F');
        out.push('l');
        out.push('o');
        out.push('w');
        out.push('6');
        out.push('\n');
        proof {
            assert(out@ =~= b2 + spec_comma_sep() + spec_rule_prefix());
            assert(out@ =~= base + spec_x_prefix() + crate::helpers::spec_digits_chars(w as nat)
                + spec_comma_sep() + spec_y_prefix() + crate::helpers::spec_digits_chars(h as nat)
                + spec_comma_sep() + spec_rule_prefix());
        }
    }

    /// Writes the pattern in its text form: a `x = W, y = H, rule =
    /// Flow6` header for the actual content width and height, then
    /// the run-length body, soft-wrapped at 70 characters.
    #[verifier::rlimit(100)]
    #[verifier::spinoff_prover]
    pub fn to_string(&self) -> (r: String)
        requires
            pattern_wf(self@),
            self@.len() < usize::MAX,
            forall|i: int| 0 <= i < self@.len() ==> line_len(#[trigger] self@[i]) <= usize::MAX,
        ensures
            r@ == spec_rle_render(self@),
    {
        let mut out: Vec<char> = Vec::new();
        let w = self.width();
        let h = self.height();
        Self::push_header(w, h, &mut out);
        proof {
            assert(out@ =~= spec_x_prefix() + crate::helpers::spec_digits_chars(
                pattern_width(self@),
            ) + spec_comma_sep() + spec_y_prefix() + crate::helpers::spec_digits_chars(
                self@.len(),
            ) + spec_comma_sep() + spec_rule_prefix());
        }
        let ghost header = out@;
        let toks = self.tokens();
        let ghost body = spec_wrap_from(toks@, 0, 70);
        let mut rem: usize = 70;
        let mut k: usize = 0;
        while k < toks.len()
            invariant
                0 <= k <= toks@.len(),
                1 <= rem <= 70,
                header + body == out@ + spec_wrap_from(toks@, k as int, rem as int),
            decreases toks@.len() - k,
        {
            let t = toks[k];
            let dl = t.display_len();
            proof {
                lemma_digit_count_usize(t.len);
            }
            if dl >= rem {
                out.push('\n');
                rem = 70;
            }
            rem = rem - dl;
            if t.len == 1 {
                out.push(t.item as char);
            } else if t.len >= 2 {
                crate::helpers::push_digits(t.len, &mut out);
                out.push(t.item as char);
            }
            proof {
                if t.len == 1 {
                    assert(out@.last() == t.item as char);
                }
                assert(header + body == out@ + spec_wrap_from(toks@, k + 1, rem as int));
            }
            k = k + 1;
        }
        out.push('\n');
        proof {
            assert(spec_wrap_from(toks@, toks@.len() as int, rem as int) =~= Seq::<char>::empty());
            assert(out@ =~= spec_rle_render(self@));
        }
        crate::helpers::chars_to_string(&out)
    }
}

/// Joining two patterns of equal height neither drops nor
/// duplicates cells: every row of the joined pattern holds exactly
/// the cells of the left row followed by the cells of the right row.
pub proof fn lemma_pattern_join_cells(a: Seq<Seq<Run>>, b: Seq<Seq<Run>>)
    requires
        a.len() == b.len(),
        forall|i: int| 0 <= i < a.len() ==> line_len(#[trigger] a[i]) + line_len(b[i])
            <= usize::MAX,
    ensures
        spec_pattern_join(a, b).len() == a.len(),
        forall|i: int|
            0 <= i < a.len() ==> line_cells(#[trigger] spec_pattern_join(a, b)[i]) == line_cells(
                a[i],
            ) + line_cells(b[i]),
{
    assert forall|i: int| 0 <= i < a.len() implies line_cells(#[trigger] spec_pattern_join(a, b)[i])
        == line_cells(a[i]) + line_cells(b[i]) by {
        lemma_line_join_cells(a[i], b[i]);
    }
}

} // verus!
