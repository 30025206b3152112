//! The stages of the worker-pool engine: splitting a product into per-cell
//! tasks, answering one task, and assembling the answers.
use vstd::prelude::*;
use crate::algebra::{
    assemble_outcome, in_range, ints, lemma_position, multiply_outcome, placed, plan_outcome,
    planned_task, reply_outcome, zeros, MatrixView, ReplyView, TaskView,
};
use crate::error::EngineError;
use crate::laws::{
    answered_by, has_reply, has_task, lemma_engine_agrees_with_sequential, lemma_failed_task,
};
use crate::matrix::Matrix;
use crate::vector::{dot_product, Vector};

verus! {

/// The number of workers in a pool of the usual size.
pub const NUM_THREADS: usize = 4;

/// One unit of work: everything a worker needs to compute one cell.
#[derive(Debug, Clone, PartialEq, Eq)]
pub struct MsgInput {
    pub idx: usize,
    pub row: Vector,
    pub col: Vector,
}

impl View for MsgInput {
    type V = TaskView;

    open spec fn view(&self) -> TaskView {
        TaskView { idx: self.idx as nat, row: self.row@, col: self.col@ }
    }
}

impl MsgInput {
    pub fn new(idx: usize, row: Vector, col: Vector) -> (input: Self)
        ensures
            input.idx == idx,
            input.row == row,
            input.col == col,
    {
        Self { idx, row, col }
    }
}

/// A worker's answer: the value of the cell at position `idx`.
#[derive(Debug, Clone, Copy, PartialEq, Eq)]
pub struct MsgOutput {
    pub idx: usize,
    pub value: i32,
}

impl View for MsgOutput {
    type V = ReplyView;

    open spec fn view(&self) -> ReplyView {
        ReplyView { idx: self.idx as nat, value: self.value as int }
    }
}

/// The tasks in `s`, each by its view.
pub open spec fn task_views(s: Seq<MsgInput>) -> Seq<TaskView> {
    Seq::new(s.len(), |k: int| s[k]@)
}

/// The replies in `s`, each by its view.
pub open spec fn reply_views(s: Seq<MsgOutput>) -> Seq<ReplyView> {
    Seq::new(s.len(), |k: int| s[k]@)
}

/// The worker that the task for position `idx` goes to, in a pool of `workers`.
pub fn worker_for(idx: usize, workers: usize) -> (w: usize)
    requires
        workers > 0,
    ensures
        w == idx % workers,
{
    idx % workers
}

/// Splits `a * b` into one task per cell of the result, in the order of the cells.
pub fn plan(a: &Matrix, b: &Matrix) -> (r: Result<Vec<MsgInput>, EngineError>)
    requires
        a.wf(),
        b.wf(),
    ensures
        match r {
            Ok(tasks) => plan_outcome(a@, b@) == Ok::<Seq<TaskView>, EngineError>(
                task_views(tasks@),
            ),
            Err(e) => plan_outcome(a@, b@) == Err::<Seq<TaskView>, EngineError>(e),
        },
{
    if a.cols != b.rows {
        return Err(EngineError::ShapeMismatch);
    }
    if a.rows.checked_mul(b.cols).is_none() {
        return Err(EngineError::Overflow);
    }
    let mut tasks: Vec<MsgInput> = Vec::new();
    let mut i: usize = 0;
    while i < a.rows
        invariant
            a.wf(),
            b.wf(),
            a.rows * b.cols <= usize::MAX,
            i <= a.rows,
            tasks@.len() == i * b.cols,
            forall|k: int| 0 <= k < tasks@.len() ==> (#[trigger] tasks@[k])@ == planned_task(a@, b@, k),
        decreases a.rows - i,
    {
        let mut j: usize = 0;
        while j < b.cols
            invariant
                a.wf(),
                b.wf(),
                a.rows * b.cols <= usize::MAX,
                i < a.rows,
                j <= b.cols,
                tasks@.len() == i * b.cols + j,
                forall|k: int| 0 <= k < tasks@.len() ==> (#[trigger] tasks@[k])@ == planned_task(a@, b@, k),
            decreases b.cols - j,
        {
            proof {
                lemma_position(a.rows as int, b.cols as int, i as int, j as int);
            }
            let input = MsgInput::new(i * b.cols + j, a.row(i), b.col(j));
            tasks.push(input);
            j = j + 1;
        }
        proof {
            assert(i * b.cols + b.cols == (i + 1) * b.cols) by (nonlinear_arith);
        }
        i = i + 1;
    }
    proof {
        assert(task_views(tasks@) =~= Seq::new(
            a@.rows * b@.cols,
            |k: int| planned_task(a@, b@, k),
        ));
    }
    Ok(tasks)
}

/// A worker's step: the answer to one task.
pub fn evaluate(input: MsgInput) -> (r: Result<MsgOutput, EngineError>)
    ensures
        match r {
            Ok(output) => reply_outcome(input@) == Ok::<ReplyView, EngineError>(output@),
            Err(e) => reply_outcome(input@) == Err::<ReplyView, EngineError>(e),
        },
{
    let MsgInput { idx, row, col } = input;
    match dot_product(row, col) {
        Ok(value) => Ok(MsgOutput { idx, value }),
        Err(e) => Err(e),
    }
}

/// The collector's step: starting from zeros, writes each reply, first to
/// last, to the position it names.
pub fn assemble(replies: Vec<MsgOutput>, rows: usize, cols: usize) -> (r: Result<
    Matrix,
    EngineError,
>)
    ensures
        match r {
            Ok(m) => assemble_outcome(reply_views(replies@), rows as nat, cols as nat) == Ok::<
                MatrixView,
                EngineError,
            >(m@),
            Err(e) => assemble_outcome(reply_views(replies@), rows as nat, cols as nat) == Err::<
                MatrixView,
                EngineError,
            >(e),
        },
{
    let total: usize = match rows.checked_mul(cols) {
        Some(n) => n,
        None => {
            return Err(EngineError::Overflow);
        },
    };
    let ghost all = reply_views(replies@);
    let mut data: Vec<i32> = vec![0i32; total];
    assert(ints(data@) =~= zeros(total as nat));
    let mut t: usize = 0;
    while t < replies.len()
        invariant
            total == rows * cols,
            all == reply_views(replies@),
            t <= replies.len(),
            data@.len() == total,
            in_range(all.take(t as int), total as nat),
            ints(data@) == placed(zeros(total as nat), all.take(t as int)),
        decreases replies.len() - t,
    {
        let reply = replies[t];
        if reply.idx >= total {
            proof {
                assert(all[t as int].idx >= total);
            }
            return Err(EngineError::WorkerUnavailable);
        }
        let ghost before = ints(data@);
        data.set(reply.idx, reply.value);
        proof {
            let next = all.take(t + 1);
            assert(next.drop_last() =~= all.take(t as int));
            assert(next.last() == reply@);
            assert(ints(data@) =~= before.update(reply.idx as int, reply.value as int));
            assert forall|u: int| 0 <= u < next.len() implies (#[trigger] next[u]).idx < total by {
                if u < t {
                    assert(all.take(t as int)[u] == next[u]);
                }
            }
        }
        t = t + 1;
    }
    proof {
        assert(all.take(t as int) =~= all);
    }
    Ok(Matrix { data, rows, cols })
}

/// The product `a * b`, computed by the engine's stages one after another on
/// the calling thread: the tasks are planned, answered in the order they
/// were created, and the answers assembled.
pub fn multiply_staged(a: Matrix, b: Matrix) -> (r: Result<Matrix, EngineError>)
    requires
        a.wf(),
        b.wf(),
    ensures
        match r {
            Ok(m) => multiply_outcome(a@, b@) == Ok::<MatrixView, EngineError>(m@),
            Err(e) => multiply_outcome(a@, b@) == Err::<MatrixView, EngineError>(e),
        },
{
    let tasks = match plan(&a, &b) {
        Ok(tasks) => tasks,
        Err(e) => {
            return Err(e);
        },
    };
    let ghost planned = task_views(tasks@);
    let mut replies: Vec<MsgOutput> = Vec::new();
    for task in it: tasks
        invariant
            a.wf(),
            b.wf(),
            a@.cols == b@.rows,
            plan_outcome(a@, b@) == Ok::<Seq<TaskView>, EngineError>(planned),
            it.seq().len() == planned.len(),
            forall|k: int| 0 <= k < planned.len() ==> (#[trigger] it.seq()[k])@ == planned[k],
            replies@.len() == it.index(),
            forall|k: int|
                0 <= k < replies@.len() ==> reply_outcome(planned[k]) == Ok::<
                    ReplyView,
                    EngineError,
                >((#[trigger] replies@[k])@),
    {
        let ghost k = replies@.len() as int;
        match evaluate(task) {
            Ok(output) => {
                replies.push(output);
            },
            Err(e) => {
                proof {
                    lemma_failed_task(a@, b@, k, e);
                }
                return Err(e);
            },
        }
    }
    proof {
        let given = reply_views(replies@);
        assert forall|t: int| 0 <= t < given.len() implies has_task(
            planned,
            #[trigger] given[t],
        ) by {
            assert(answered_by(planned[t], given[t]));
        }
        assert forall|k: int| 0 <= k < planned.len() implies has_reply(
            given,
            #[trigger] planned[k],
        ) by {
            assert(answered_by(planned[k], given[k]));
        }
        lemma_engine_agrees_with_sequential(a@, b@, planned, given);
    }
    assemble(replies, a.rows, b.cols)
}

/// `a * b` is the staged multiplication. A product that cannot be had is
/// an `Err`, never a panic.
impl core::ops::Mul for Matrix {
    type Output = Result<Matrix, EngineError>;

    fn mul(self, rhs: Matrix) -> (r: Result<Matrix, EngineError>)
        ensures
            match r {
                Ok(m) => multiply_outcome(self@, rhs@) == Ok::<MatrixView, EngineError>(m@),
                Err(e) => multiply_outcome(self@, rhs@) == Err::<MatrixView, EngineError>(e),
            },
    {
        multiply_staged(self, rhs)
    }
}

impl vstd::std_specs::ops::MulSpecImpl for Matrix {
    /// The operator's contract stands on `mul` itself.
    open spec fn obeys_mul_spec() -> bool {
        false
    }

    open spec fn mul_req(self, rhs: Matrix) -> bool {
        self.wf() && rhs.wf()
    }

    open spec fn mul_spec(self, rhs: Matrix) -> Result<Matrix, EngineError> {
        arbitrary()
    }
}

} // verus!
