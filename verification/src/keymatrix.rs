//! Scanning the switch matrix.
//!
//! The rows of the matrix are driven, the columns are read. A scan selects one
//! row at a time, samples every column while that row alone is selected, and
//! releases the row again. The pins themselves are not touched here:
//! [`Matrix::strobe`] lists the pin operations of one scan in the order in
//! which they must be performed, and [`Matrix::get`] turns the record of what
//! the pins answered into the grid of closed switches.

use vstd::prelude::*;
use crate::grid::cells;

verus! {

/// One operation on a pin of the matrix.
#[derive(Clone, Copy, Debug, PartialEq, Eq, Structural)]
pub enum PinOp {
    /// Drive the given row to its active level.
    Select(usize),
    /// Read the given column: the answer is `true` when the switch between it
    /// and the selected row is closed.
    Sample(usize),
    /// Drive the given row back to its inactive level.
    Release(usize),
}

/// What a pin answered to one operation.
#[derive(Clone, Copy, Debug, PartialEq, Eq, Structural)]
pub enum PinOutcome {
    /// The row was driven.
    Driven,
    /// The column was read, with this level.
    Level(bool),
    /// The pin reported an electrical fault.
    Fault,
}

/// Why a scan gave no grid.
#[derive(Clone, Copy, Debug, PartialEq, Eq, Structural)]
pub enum ScanError {
    /// A pin reported a fault; the scan was abandoned there.
    Fault,
    /// The record is not the record of one whole scan.
    Incomplete,
}

/// The operations on one row: select it, sample every column, release it.
pub open spec fn row_plan(r: usize, cols: usize) -> Seq<PinOp> {
    seq![PinOp::Select(r)] + Seq::new(cols as nat, |c: int| PinOp::Sample(c as usize))
        + seq![PinOp::Release(r)]
}

/// The operations of a scan of the first `rows` rows, one row after the
/// other.
pub open spec fn strobe_plan(rows: nat, cols: usize) -> Seq<PinOp>
    decreases rows,
{
    if rows == 0 {
        Seq::empty()
    } else {
        strobe_plan((rows - 1) as nat, cols) + row_plan((rows - 1) as usize, cols)
    }
}

/// The place, in the record of a scan, of the sample of `(r, c)`.
pub open spec fn sample_slot(r: int, c: int, cols: int) -> int {
    r * (cols + 2) + 1 + c
}

/// `outcome` is what a healthy pin answers to `op`.
pub open spec fn answers(op: PinOp, outcome: PinOutcome) -> bool {
    match op {
        PinOp::Sample(_) => outcome is Level,
        _ => outcome is Driven,
    }
}

/// The first `n` operations of `plan` were all answered as healthy pins
/// answer.
pub open spec fn answered(plan: Seq<PinOp>, record: Seq<PinOutcome>, n: int) -> bool {
    n <= record.len() && forall|i: int| 0 <= i < n ==> answers(plan[i], #[trigger] record[i])
}

/// The grid that the record of a whole, healthy scan holds: at `(r, c)` the
/// level that was sampled there.
pub open spec fn reading(record: Seq<PinOutcome>, rows: nat, cols: nat) -> Seq<Seq<bool>> {
    Seq::new(
        rows,
        |r: int| Seq::new(cols, |c: int| record[sample_slot(r, c, cols as int)]->Level_0),
    )
}

/// `record` is the record of one whole scan by `plan` in which every pin
/// answered.
pub open spec fn whole(plan: Seq<PinOp>, record: Seq<PinOutcome>) -> bool {
    record.len() == plan.len() && answered(plan, record, record.len() as int)
}

/// The number of operations in a scan.
pub proof fn plan_len(rows: nat, cols: usize)
    ensures
        strobe_plan(rows, cols).len() == rows * (cols + 2),
    decreases rows,
{
    if rows > 0 {
        let fewer = (rows - 1) as nat;
        let width = cols + 2;
        plan_len(fewer, cols);
        assert(strobe_plan(rows, cols).len() == fewer * width + width);
        assert(rows * width == fewer * width + width) by (nonlinear_arith)
            requires
                rows == fewer + 1,
        ;
    } else {
        assert(rows * (cols + 2) == 0) by (nonlinear_arith)
            requires
                rows == 0,
        ;
    }
}

/// Where each operation stands in the plan of a scan.
pub proof fn plan_entries(rows: nat, cols: usize, r: int)
    requires
        0 <= r < rows,
        rows <= usize::MAX,
    ensures
        strobe_plan(rows, cols).len() == rows * (cols + 2),
        0 <= r * (cols + 2),
        r * (cols + 2) + cols + 1 < rows * (cols + 2),
        strobe_plan(rows, cols)[r * (cols + 2)] == PinOp::Select(r as usize),
        strobe_plan(rows, cols)[r * (cols + 2) + cols + 1] == PinOp::Release(r as usize),
        forall|c: int|
            0 <= c < cols ==> strobe_plan(rows, cols)[#[trigger] sample_slot(r, c, cols as int)]
                == PinOp::Sample(c as usize),
    decreases rows,
{
    plan_len(rows, cols);
    plan_len((rows - 1) as nat, cols);
    let before = strobe_plan((rows - 1) as nat, cols);
    let last = row_plan((rows - 1) as usize, cols);
    assert(rows * (cols + 2) == (rows - 1) * (cols + 2) + (cols + 2)) by (nonlinear_arith);
    assert(0 <= r * (cols + 2) && (r + 1) * (cols + 2) <= rows * (cols + 2)
        && (r + 1) * (cols + 2) == r * (cols + 2) + cols + 2) by (nonlinear_arith)
        requires
            0 <= r < rows,
    ;
    if r == rows - 1 {
        let base = r * (cols + 2);
        assert(before.len() == base);
        assert(strobe_plan(rows, cols)[base] == last[0]);
        assert(strobe_plan(rows, cols)[base + cols + 1] == last[cols + 1]);
        assert forall|c: int| 0 <= c < cols implies strobe_plan(rows, cols)[#[trigger] sample_slot(
            r,
            c,
            cols as int,
        )] == PinOp::Sample(c as usize) by {
            assert(strobe_plan(rows, cols)[base + 1 + c] == last[1 + c]);
        }
    } else {
        plan_entries((rows - 1) as nat, cols, r);
        assert forall|c: int| 0 <= c < cols implies strobe_plan(rows, cols)[#[trigger] sample_slot(
            r,
            c,
            cols as int,
        )] == PinOp::Sample(c as usize) by {
            assert(before[sample_slot(r, c, cols as int)] == PinOp::Sample(c as usize));
        }
    }
}

/// The rows that are selected once `ops` have been performed, where
/// `before` were selected before.
pub open spec fn selected_after(before: Set<usize>, ops: Seq<PinOp>) -> Set<usize>
    decreases ops.len(),
{
    if ops.len() == 0 {
        before
    } else {
        let earlier = selected_after(before, ops.drop_last());
        match ops.last() {
            PinOp::Select(r) => earlier.insert(r),
            PinOp::Release(r) => earlier.remove(r),
            PinOp::Sample(_) => earlier,
        }
    }
}

/// Performing `first` and then `then` selects what `then` selects after
/// `first`.
proof fn selected_after_both(before: Set<usize>, first: Seq<PinOp>, then: Seq<PinOp>)
    ensures
        selected_after(before, first + then) == selected_after(
            selected_after(before, first),
            then,
        ),
    decreases then.len(),
{
    if then.len() == 0 {
        assert(first + then =~= first);
    } else {
        selected_after_both(before, first, then.drop_last());
        assert((first + then).drop_last() =~= first + then.drop_last());
        assert((first + then).last() == then.last());
    }
}

/// What one operation selects or releases.
proof fn selected_after_one(before: Set<usize>, op: PinOp)
    ensures
        selected_after(before, seq![op]) == (match op {
            PinOp::Select(r) => before.insert(r),
            PinOp::Release(r) => before.remove(r),
            PinOp::Sample(_) => before,
        }),
{
    reveal_with_fuel(selected_after, 2);
    assert(seq![op].drop_last() =~= Seq::<PinOp>::empty());
}

/// Sampling selects and releases nothing.
proof fn samples_select_nothing(before: Set<usize>, n: nat)
    ensures
        selected_after(before, Seq::new(n, |c: int| PinOp::Sample(c as usize))) == before,
    decreases n,
{
    let samples = Seq::new(n, |c: int| PinOp::Sample(c as usize));
    if n > 0 {
        samples_select_nothing(before, (n - 1) as nat);
        assert(samples.drop_last() =~= Seq::new((n - 1) as nat, |c: int| PinOp::Sample(c as usize)));
    }
}

/// The scan of the first `r` rows is the beginning of the scan of all rows.
proof fn plan_begins_with(rows: nat, cols: usize, r: nat)
    requires
        r <= rows,
    ensures
        r * (cols + 2) <= strobe_plan(rows, cols).len(),
        strobe_plan(rows, cols).take(r * (cols + 2)) == strobe_plan(r, cols),
    decreases rows,
{
    plan_len(rows, cols);
    plan_len(r, cols);
    if r == rows {
        assert(strobe_plan(rows, cols).take(r * (cols + 2)) =~= strobe_plan(rows, cols));
    } else {
        let fewer = (rows - 1) as nat;
        plan_begins_with(fewer, cols, r);
        assert(strobe_plan(rows, cols).take(r * (cols + 2)) =~= strobe_plan(fewer, cols).take(
            r * (cols + 2),
        ));
    }
}

/// Throughout a scan one row is selected at a time: when the column `c` is
/// sampled for the row `r`, the row `r` is selected and no other, and when
/// the scan is over no row is selected.
pub proof fn strobes_one_row_at_a_time(rows: nat, cols: usize, r: int, c: int)
    requires
        0 <= r < rows <= usize::MAX,
        0 <= c < cols,
    ensures
        0 <= sample_slot(r, c, cols as int) < strobe_plan(rows, cols).len(),
        strobe_plan(rows, cols)[sample_slot(r, c, cols as int)] == PinOp::Sample(c as usize),
        selected_after(
            Set::empty(),
            strobe_plan(rows, cols).take(sample_slot(r, c, cols as int)),
        ) == Set::<usize>::empty().insert(r as usize),
        selected_after(Set::empty(), strobe_plan(rows, cols)) == Set::<usize>::empty(),
{
    let none = Set::<usize>::empty();
    plan_entries(rows, cols, r);
    scan_leaves_nothing_selected(rows, cols);
    scan_leaves_nothing_selected(r as nat, cols);
    plan_begins_with(rows, cols, (r + 1) as nat);
    plan_len(r as nat, cols);
    assert((r + 1) * (cols + 2) == r * (cols + 2) + cols + 2) by (nonlinear_arith);
    let slot = sample_slot(r, c, cols as int);
    let done = strobe_plan(r as nat, cols);
    let select = seq![PinOp::Select(r as usize)];
    let samples = Seq::new(c as nat, |k: int| PinOp::Sample(k as usize));
    let upto = strobe_plan(rows, cols).take(slot);
    assert(upto =~= strobe_plan((r + 1) as nat, cols).take(slot));
    assert(upto =~= done + select + samples);
    selected_after_both(none, done + select, samples);
    selected_after_both(none, done, select);
    samples_select_nothing(selected_after(none, done + select), c as nat);
    selected_after_one(none, PinOp::Select(r as usize));
}

/// When a scan is over no row is selected.
proof fn scan_leaves_nothing_selected(rows: nat, cols: usize)
    ensures
        selected_after(Set::empty(), strobe_plan(rows, cols)) == Set::<usize>::empty(),
    decreases rows,
{
    let none = Set::<usize>::empty();
    if rows > 0 {
        let fewer = (rows - 1) as nat;
        let r = (rows - 1) as usize;
        scan_leaves_nothing_selected(fewer, cols);
        let select = seq![PinOp::Select(r)];
        let samples = Seq::new(cols as nat, |k: int| PinOp::Sample(k as usize));
        let release = seq![PinOp::Release(r)];
        selected_after_both(none, strobe_plan(fewer, cols), row_plan(r, cols));
        selected_after_both(none, select + samples, release);
        selected_after_both(none, select, samples);
        samples_select_nothing(selected_after(none, select), cols as nat);
        selected_after_one(none, PinOp::Select(r));
        selected_after_one(none.insert(r), PinOp::Release(r));
        assert(none.insert(r).remove(r) =~= none);
    }
}

/// A switch matrix of a given size.
#[derive(Clone, Copy, Debug)]
pub struct Matrix {
    cols: usize,
    rows: usize,
}

impl Matrix {
    /// The number of columns.
    pub closed spec fn spec_cols(&self) -> usize {
        self.cols
    }

    /// The number of rows.
    pub closed spec fn spec_rows(&self) -> usize {
        self.rows
    }

    /// The operations of one scan can be counted in a `usize`.
    pub open spec fn wf(&self) -> bool {
        self.spec_rows() * (self.spec_cols() + 2) <= usize::MAX
    }

    /// The operations of one scan of this matrix.
    pub open spec fn plan(&self) -> Seq<PinOp> {
        strobe_plan(self.spec_rows() as nat, self.spec_cols())
    }

    /// A matrix of `cols` columns and `rows` rows. Before the first scan the
    /// operations of [`Matrix::clear`] must be performed.
    pub fn new(cols: usize, rows: usize) -> (m: Matrix)
        requires
            rows * (cols + 2) <= usize::MAX,
        ensures
            m.wf(),
            m.spec_cols() == cols,
            m.spec_rows() == rows,
    {
        Matrix { cols, rows }
    }

    /// The number of columns.
    #[verifier::when_used_as_spec(spec_cols)]
    pub fn cols(&self) -> (n: usize)
        ensures
            n == self.spec_cols(),
    {
        self.cols
    }

    /// The number of rows.
    #[verifier::when_used_as_spec(spec_rows)]
    pub fn rows(&self) -> (n: usize)
        ensures
            n == self.spec_rows(),
    {
        self.rows
    }

    /// The operations that leave no row selected: every row is released, in
    /// order.
    pub fn clear(&self) -> (ops: Vec<PinOp>)
        ensures
            ops@ == Seq::new(self.spec_rows() as nat, |r: int| PinOp::Release(r as usize)),
    {
        let mut ops: Vec<PinOp> = Vec::new();
        let mut r: usize = 0;
        while r < self.rows
            invariant
                r <= self.rows,
                ops@ == Seq::new(r as nat, |k: int| PinOp::Release(k as usize)),
            decreases self.rows - r,
        {
            ops.push(PinOp::Release(r));
            r += 1;
            assert(ops@ =~= Seq::new(r as nat, |k: int| PinOp::Release(k as usize)));
        }
        ops
    }

    /// The operations of one scan, in the order in which they must be
    /// performed: row after row, and within a row the selection, the sample
    /// of each column, and the release. At every sample exactly one row is
    /// selected.
    pub fn strobe(&self) -> (ops: Vec<PinOp>)
        ensures
            ops@ == self.plan(),
    {
        let mut ops: Vec<PinOp> = Vec::new();
        let mut r: usize = 0;
        while r < self.rows
            invariant
                r <= self.rows,
                ops@ == strobe_plan(r as nat, self.cols),
            decreases self.rows - r,
        {
            let ghost done = ops@;
            ops.push(PinOp::Select(r));
            let mut c: usize = 0;
            while c < self.cols
                invariant
                    c <= self.cols,
                    ops@ == done + seq![PinOp::Select(r)] + Seq::new(
                        c as nat,
                        |k: int| PinOp::Sample(k as usize),
                    ),
                decreases self.cols - c,
            {
                ops.push(PinOp::Sample(c));
                c += 1;
                assert(ops@ =~= done + seq![PinOp::Select(r)] + Seq::new(
                    c as nat,
                    |k: int| PinOp::Sample(k as usize),
                ));
            }
            ops.push(PinOp::Release(r));
            assert(ops@ =~= done + row_plan(r, self.cols));
            r += 1;
        }
        ops
    }

    /// The grid of closed switches that one scan has read.
    ///
    /// `record` holds what the pins answered to the operations of
    /// [`Matrix::strobe`], in order, up to and including the first fault if
    /// there was one. A grid is returned only for the record of a whole scan
    /// in which every pin answered; a fault gives [`ScanError::Fault`], and
    /// no part of a grid.
    pub fn get(&self, record: &Vec<PinOutcome>) -> (scan: Result<Vec<Vec<bool>>, ScanError>)
        requires
            self.wf(),
        ensures
            scan is Ok <==> whole(self.plan(), record@),
            scan matches Ok(keys) ==> cells(keys@) == reading(
                record@,
                self.spec_rows() as nat,
                self.spec_cols() as nat,
            ),
            scan matches Err(e) ==> (e == ScanError::Fault <==> exists|i: int|
                0 <= i < self.plan().len() && answered(self.plan(), record@, i) && i < record@.len()
                    && #[trigger] record@[i] == PinOutcome::Fault),
    {
        let ghost plan = self.plan();
        let cols: usize = self.cols;
        let rows: usize = self.rows;
        proof {
            plan_len(rows as nat, cols);
        }
        let mut keys: Vec<Vec<bool>> = Vec::new();
        let mut k: usize = 0;
        let mut r: usize = 0;
        while r < rows
            invariant
                r <= rows,
                rows == self.spec_rows(),
                cols == self.spec_cols(),
                self.wf(),
                plan == self.plan(),
                plan.len() == rows * (cols + 2),
                k == r * (cols + 2),
                answered(plan, record@, k as int),
                keys@.len() == r,
                forall|i: int| 0 <= i < r ==> (#[trigger] keys@[i])@.len() == cols,
                forall|i: int, c: int|
                    0 <= i < r && 0 <= c < cols ==> PinOutcome::Level(#[trigger] keys@[i]@[c])
                        == record@[sample_slot(i, c, cols as int)],
            decreases rows - r,
        {
            proof {
                plan_entries(rows as nat, cols, r as int);
            }
            if k >= record.len() {
                proof {
                    Self::no_fault_in_answered(plan, record@, k as int);
                }
                return Err(ScanError::Incomplete);
            }
            match record[k] {
                PinOutcome::Driven => {},
                PinOutcome::Fault => {
                    return Err(ScanError::Fault);
                },
                PinOutcome::Level(_) => {
                    proof {
                        Self::no_fault_in_answered(plan, record@, k as int);
                    }
                    return Err(ScanError::Incomplete);
                },
            }
            let ghost base = k as int;
            k += 1;
            let mut row: Vec<bool> = Vec::new();
            let mut c: usize = 0;
            while c < cols
                invariant
                    c <= cols,
                    r < rows,
                    rows == self.spec_rows(),
                    cols == self.spec_cols(),
                    plan == self.plan(),
                    base == r * (cols + 2),
                    k == base + 1 + c,
                    base + cols + 1 < plan.len(),
                    plan.len() <= usize::MAX,
                    answered(plan, record@, k as int),
                    forall|j: int|
                        0 <= j < cols ==> plan[#[trigger] sample_slot(r as int, j, cols as int)]
                            == PinOp::Sample(j as usize),
                    row@.len() == c,
                    forall|j: int|
                        0 <= j < c ==> PinOutcome::Level(#[trigger] row@[j]) == record@[sample_slot(
                            r as int,
                            j,
                            cols as int,
                        )],
                decreases cols - c,
            {
                assert(k == sample_slot(r as int, c as int, cols as int));
                if k >= record.len() {
                    proof {
                        Self::no_fault_in_answered(plan, record@, k as int);
                    }
                    return Err(ScanError::Incomplete);
                }
                match record[k] {
                    PinOutcome::Level(closed) => {
                        row.push(closed);
                    },
                    PinOutcome::Fault => {
                        return Err(ScanError::Fault);
                    },
                    PinOutcome::Driven => {
                        proof {
                            Self::no_fault_in_answered(plan, record@, k as int);
                        }
                        return Err(ScanError::Incomplete);
                    },
                }
                k += 1;
                c += 1;
            }
            if k >= record.len() {
                proof {
                    Self::no_fault_in_answered(plan, record@, k as int);
                }
                return Err(ScanError::Incomplete);
            }
            match record[k] {
                PinOutcome::Driven => {},
                PinOutcome::Fault => {
                    return Err(ScanError::Fault);
                },
                PinOutcome::Level(_) => {
                    proof {
                        Self::no_fault_in_answered(plan, record@, k as int);
                    }
                    return Err(ScanError::Incomplete);
                },
            }
            k += 1;
            keys.push(row);
            assert((r + 1) * (cols + 2) == r * (cols + 2) + cols + 2) by (nonlinear_arith);
            r += 1;
        }
        if record.len() != k {
            proof {
                Self::no_fault_in_answered(plan, record@, k as int);
            }
            return Err(ScanError::Incomplete);
        }
        proof {
            let grid = reading(record@, rows as nat, cols as nat);
            assert forall|i: int| 0 <= i < rows implies cells(keys@)[i] == grid[i] by {
                assert forall|c: int| 0 <= c < cols implies cells(keys@)[i][c] == grid[i][c] by {
                    assert(PinOutcome::Level(keys@[i]@[c]) == record@[sample_slot(
                        i,
                        c,
                        cols as int,
                    )]);
                }
                assert(cells(keys@)[i] =~= grid[i]);
            }
            assert(cells(keys@) =~= grid);
        }
        Ok(keys)
    }

    /// When the first `n` operations were answered and the next one, if the
    /// record has it, is no fault, no fault stands where the answers end.
    proof fn no_fault_in_answered(plan: Seq<PinOp>, record: Seq<PinOutcome>, n: int)
        requires
            0 <= n <= plan.len(),
            answered(plan, record, n),
            n < plan.len() ==> (n >= record.len() || (record[n] != PinOutcome::Fault && !answers(
                plan[n],
                record[n],
            ))),
        ensures
            !(exists|i: int|
                0 <= i < plan.len() && answered(plan, record, i) && i < record.len()
                    && #[trigger] record[i] == PinOutcome::Fault),
            !(record.len() == plan.len() && answered(plan, record, record.len() as int)) || n
                == plan.len() && record.len() == n,
    {
        assert forall|i: int|
            0 <= i < plan.len() && answered(plan, record, i) && i < record.len()
                && #[trigger] record[i] == PinOutcome::Fault implies false by {
            if i < n {
                assert(answers(plan[i], record[i]));
            } else if i > n {
                assert(n < record.len());
                assert(answers(plan[n], record[n]));
            }
        }
        if record.len() == plan.len() && answered(plan, record, record.len() as int) {
            if n < plan.len() {
                assert(answers(plan[n], record[n]));
            }
        }
    }
}

} // verus!
