//! The mathematics the executable code is held to: sequences and matrices of
//! unbounded integers, their dot product and their matrix product.
use vstd::prelude::*;
use crate::error::EngineError;

verus! {

/// The least value an element can hold.
pub open spec fn elem_min() -> int {
    -0x8000_0000
}

/// The greatest value an element can hold.
pub open spec fn elem_max() -> int {
    0x7fff_ffff
}

/// Whether `v` can be stored in one element.
pub open spec fn fits_elem(v: int) -> bool {
    elem_min() <= v <= elem_max()
}

/// The elements of `s` as unbounded integers.
pub open spec fn ints(s: Seq<i32>) -> Seq<int> {
    Seq::new(s.len(), |k: int| s[k] as int)
}

/// `a[0] * b[0] + ... + a[n - 1] * b[n - 1]`.
pub open spec fn dot_prefix(a: Seq<int>, b: Seq<int>, n: nat) -> int
    decreases n,
{
    if n == 0 {
        0
    } else {
        dot_prefix(a, b, (n - 1) as nat) + a[n - 1] * b[n - 1]
    }
}

/// The sum of the pairwise products of `a` and `b`, two sequences of one length.
pub open spec fn dot(a: Seq<int>, b: Seq<int>) -> int {
    dot_prefix(a, b, a.len())
}

/// What the numeric kernel yields for `a` and `b` on this machine: their dot
/// product, or the reason why there is none.
pub open spec fn kernel_outcome(a: Seq<int>, b: Seq<int>) -> Result<int, EngineError> {
    if a.len() != b.len() {
        Err(EngineError::LengthMismatch)
    } else if !fits_elem(dot(a, b)) {
        Err(EngineError::Overflow)
    } else {
        Ok(dot(a, b))
    }
}

/// A matrix of unbounded integers: `cells` holds the rows one after another.
pub struct MatrixView {
    pub rows: nat,
    pub cols: nat,
    pub cells: Seq<int>,
}

impl MatrixView {
    /// There is exactly one cell for every position.
    pub open spec fn wf(self) -> bool {
        self.cells.len() == self.rows * self.cols
    }

    /// The cell in row `i` and column `j`.
    pub open spec fn at(self, i: int, j: int) -> int {
        self.cells[i * self.cols + j]
    }

    /// Row `i`, left to right.
    pub open spec fn row(self, i: int) -> Seq<int> {
        Seq::new(self.cols, |k: int| self.at(i, k))
    }

    /// Column `j`, top to bottom.
    pub open spec fn col(self, j: int) -> Seq<int> {
        Seq::new(self.rows, |k: int| self.at(k, j))
    }

    /// Every cell can be stored in one element.
    pub open spec fn fits(self) -> bool {
        forall|k: int| 0 <= k < self.cells.len() ==> fits_elem(#[trigger] self.cells[k])
    }
}

/// The cell of `a * b` that is stored at position `k` of its cells.
pub open spec fn product_cell(a: MatrixView, b: MatrixView, k: int) -> int {
    dot(a.row(k / b.cols as int), b.col(k % b.cols as int))
}

/// The matrix product `a * b`, for `a.cols == b.rows`.
pub open spec fn product(a: MatrixView, b: MatrixView) -> MatrixView {
    MatrixView {
        rows: a.rows,
        cols: b.cols,
        cells: Seq::new(a.rows * b.cols, |k: int| product_cell(a, b, k)),
    }
}

/// The identity matrix with `n` rows and `n` columns.
pub open spec fn identity(n: nat) -> MatrixView {
    MatrixView {
        rows: n,
        cols: n,
        cells: Seq::new(
            n * n,
            |k: int|
                if k / n as int == k % n as int {
                    1int
                } else {
                    0int
                },
        ),
    }
}

/// What multiplying `a` by `b` yields on this machine: the product, or the
/// reason why there is none.
pub open spec fn multiply_outcome(a: MatrixView, b: MatrixView) -> Result<MatrixView, EngineError> {
    if a.cols != b.rows {
        Err(EngineError::ShapeMismatch)
    } else if a.rows * b.cols > usize::MAX || !product(a, b).fits() {
        Err(EngineError::Overflow)
    } else {
        Ok(product(a, b))
    }
}

/// One unit of work: the row and the column whose dot product is the cell
/// stored at position `idx` of the result.
pub struct TaskView {
    pub idx: nat,
    pub row: Seq<int>,
    pub col: Seq<int>,
}

/// The value that a worker found for the cell at position `idx`.
pub struct ReplyView {
    pub idx: nat,
    pub value: int,
}

/// The task for the cell at position `k` of `a * b`.
pub open spec fn planned_task(a: MatrixView, b: MatrixView, k: int) -> TaskView {
    TaskView { idx: k as nat, row: a.row(k / b.cols as int), col: b.col(k % b.cols as int) }
}

/// The tasks that `a * b` is split into, one per cell and in the order of
/// the cells, or the reason why it cannot be split.
pub open spec fn plan_outcome(a: MatrixView, b: MatrixView) -> Result<Seq<TaskView>, EngineError> {
    if a.cols != b.rows {
        Err(EngineError::ShapeMismatch)
    } else if a.rows * b.cols > usize::MAX {
        Err(EngineError::Overflow)
    } else {
        Ok(Seq::new(a.rows * b.cols, |k: int| planned_task(a, b, k)))
    }
}

/// What a worker answers to `task`.
pub open spec fn reply_outcome(task: TaskView) -> Result<ReplyView, EngineError> {
    match kernel_outcome(task.row, task.col) {
        Ok(value) => Ok(ReplyView { idx: task.idx, value }),
        Err(e) => Err(e),
    }
}

/// `n` cells that hold zero.
pub open spec fn zeros(n: nat) -> Seq<int> {
    Seq::new(n, |k: int| 0int)
}

/// `cells` after each reply, first to last, was written to the position it names.
pub open spec fn placed(cells: Seq<int>, replies: Seq<ReplyView>) -> Seq<int>
    decreases replies.len(),
{
    if replies.len() == 0 {
        cells
    } else {
        placed(cells, replies.drop_last()).update(
            replies.last().idx as int,
            replies.last().value,
        )
    }
}

/// Every reply names a position below `n`.
pub open spec fn in_range(replies: Seq<ReplyView>, n: nat) -> bool {
    forall|t: int| 0 <= t < replies.len() ==> (#[trigger] replies[t]).idx < n
}

/// What the collector makes of `replies` for a result of `rows` by `cols`
/// cells: every cell starts at zero and takes the value of the last reply
/// that names it.
pub open spec fn assemble_outcome(replies: Seq<ReplyView>, rows: nat, cols: nat) -> Result<
    MatrixView,
    EngineError,
> {
    if rows * cols > usize::MAX {
        Err(EngineError::Overflow)
    } else if !in_range(replies, rows * cols) {
        Err(EngineError::WorkerUnavailable)
    } else {
        Ok(MatrixView { rows, cols, cells: placed(zeros(rows * cols), replies) })
    }
}

/// Position `i * cols + j` lies inside a matrix of `rows * cols` cells, and
/// gives `i` and `j` back when divided by `cols`.
pub proof fn lemma_position(rows: int, cols: int, i: int, j: int)
    requires
        0 <= i < rows,
        0 <= j < cols,
    ensures
        0 <= i * cols,
        0 <= i * cols + j < rows * cols,
        (i * cols + j) / cols == i,
        (i * cols + j) % cols == j,
{
    assert(0 <= i * cols && i * cols + j < rows * cols) by (nonlinear_arith)
        requires
            0 <= i < rows,
            0 <= j < cols,
    ;
    vstd::arithmetic::div_mod::lemma_fundamental_div_mod_converse(i * cols + j, cols, i, j);
}

/// Position `k` of a matrix with `cols` columns lies in row `k / cols` and
/// column `k % cols`.
pub proof fn lemma_coordinates(rows: int, cols: int, k: int)
    requires
        0 <= k < rows * cols,
        0 <= rows,
        0 <= cols,
    ensures
        0 < cols,
        0 <= k / cols < rows,
        0 <= k % cols < cols,
        k == (k / cols) * cols + k % cols,
{
    assert(0 < cols) by (nonlinear_arith)
        requires
            0 <= k < rows * cols,
            0 <= rows,
            0 <= cols,
    ;
    vstd::arithmetic::div_mod::lemma_fundamental_div_mod(k, cols);
    vstd::arithmetic::div_mod::lemma_mod_bound(k, cols);
    let q = k / cols;
    let r = k % cols;
    assert(k == cols * q + r);
    assert(0 <= q < rows) by (nonlinear_arith)
        requires
            k == cols * q + r,
            0 <= r < cols,
            0 <= k < rows * cols,
    ;
    assert(cols * q == q * cols) by (nonlinear_arith);
}

} // verus!
