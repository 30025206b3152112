//! What holds of the engine whatever the inputs: the laws that relate its
//! stages to each other and to the sequential product.
use vstd::prelude::*;
use crate::algebra::{
    assemble_outcome, dot, dot_prefix, fits_elem, identity, lemma_coordinates, lemma_position,
    multiply_outcome, placed, plan_outcome, planned_task, product, product_cell, reply_outcome,
    zeros, MatrixView, ReplyView, TaskView,
};
use crate::error::EngineError;
use crate::matrix::Matrix;

verus! {

/// Some reply names position `k`.
pub open spec fn names(replies: Seq<ReplyView>, k: int) -> bool {
    exists|t: int| 0 <= t < replies.len() && (#[trigger] replies[t]).idx == k
}

/// Every reply carries the value that `target` holds at the position it names.
pub open spec fn agree_with(replies: Seq<ReplyView>, target: Seq<int>) -> bool {
    forall|t: int|
        0 <= t < replies.len() ==> (#[trigger] replies[t]).idx < target.len()
            && replies[t].value == target[replies[t].idx as int]
}

/// Writing replies that agree with `target` leaves `target`'s value in every
/// position that some reply names, and the old value everywhere else.
pub proof fn lemma_placed_cells(cells: Seq<int>, replies: Seq<ReplyView>, target: Seq<int>)
    requires
        cells.len() == target.len(),
        agree_with(replies, target),
    ensures
        placed(cells, replies).len() == cells.len(),
        forall|k: int|
            0 <= k < cells.len() ==> #[trigger] placed(cells, replies)[k] == (if names(replies, k) {
                target[k]
            } else {
                cells[k]
            }),
    decreases replies.len(),
{
    if replies.len() > 0 {
        let front = replies.drop_last();
        let last = replies.last();
        assert(last == replies[replies.len() - 1]);
        assert forall|t: int| 0 <= t < front.len() implies (#[trigger] front[t]).idx < target.len()
            && front[t].value == target[front[t].idx as int] by {
            assert(front[t] == replies[t]);
        }
        lemma_placed_cells(cells, front, target);
        assert forall|k: int| 0 <= k < cells.len() implies #[trigger] placed(cells, replies)[k] == (
        if names(replies, k) {
            target[k]
        } else {
            cells[k]
        }) by {
            if k == last.idx {
                assert(replies[replies.len() - 1].idx == k);
            } else if names(front, k) {
                let t = choose|t: int| 0 <= t < front.len() && (#[trigger] front[t]).idx == k;
                assert(replies[t] == front[t]);
            } else {
                if names(replies, k) {
                    let t = choose|t: int| 0 <= t < replies.len() && (#[trigger] replies[t]).idx == k;
                    assert(t < front.len());
                    assert(front[t] == replies[t]);
                }
            }
        }
    }
}

/// Order of arrival does not matter: replies that agree with `target` and
/// name every position yield `target`, whatever the order they come in and
/// whatever the cells held before.
pub proof fn lemma_placed_complete(cells: Seq<int>, replies: Seq<ReplyView>, target: Seq<int>)
    requires
        cells.len() == target.len(),
        agree_with(replies, target),
        forall|k: int| 0 <= k < target.len() ==> names(replies, k),
    ensures
        placed(cells, replies) == target,
{
    lemma_placed_cells(cells, replies, target);
    assert(placed(cells, replies) =~= target);
}

/// `reply` is what a worker answers to `task`.
pub open spec fn answered_by(task: TaskView, reply: ReplyView) -> bool {
    reply_outcome(task) == Ok::<ReplyView, EngineError>(reply)
}

/// `reply` is the answer to one of `tasks`.
pub open spec fn has_task(tasks: Seq<TaskView>, reply: ReplyView) -> bool {
    exists|k: int| 0 <= k < tasks.len() && answered_by(#[trigger] tasks[k], reply)
}

/// The answer to `task` is among `replies`.
pub open spec fn has_reply(replies: Seq<ReplyView>, task: TaskView) -> bool {
    exists|t: int| 0 <= t < replies.len() && answered_by(task, #[trigger] replies[t])
}

/// `replies` answers `tasks`: each reply is the answer to one of the tasks,
/// and each task has its answer among the replies. Nothing is said of the
/// order of the replies.
pub open spec fn answers(tasks: Seq<TaskView>, replies: Seq<ReplyView>) -> bool {
    &&& forall|t: int| 0 <= t < replies.len() ==> has_task(tasks, #[trigger] replies[t])
    &&& forall|k: int| 0 <= k < tasks.len() ==> has_reply(replies, #[trigger] tasks[k])
}

/// The engine computes the sequential product: when every task that `a * b`
/// is split into has been answered, assembling the answers, in whatever
/// order they arrived, gives what the sequential multiplication gives.
pub proof fn lemma_engine_agrees_with_sequential(
    a: MatrixView,
    b: MatrixView,
    tasks: Seq<TaskView>,
    replies: Seq<ReplyView>,
)
    requires
        a.wf(),
        b.wf(),
        plan_outcome(a, b) == Ok::<Seq<TaskView>, EngineError>(tasks),
        answers(tasks, replies),
    ensures
        assemble_outcome(replies, a.rows, b.cols) == multiply_outcome(a, b),
{
    let n = a.rows * b.cols;
    let want = product(a, b);
    assert forall|t: int| 0 <= t < replies.len() implies (#[trigger] replies[t]).idx < n
        && replies[t].value == want.cells[replies[t].idx as int] && fits_elem(replies[t].value) by {
        assert(has_task(tasks, replies[t]));
        let k = choose|k: int| 0 <= k < tasks.len() && answered_by(#[trigger] tasks[k], replies[t]);
        assert(tasks[k] == planned_task(a, b, k));
        assert(want.cells[k] == product_cell(a, b, k));
    }
    assert forall|k: int| 0 <= k < n implies #[trigger] names(replies, k) && fits_elem(
        want.cells[k],
    ) by {
        assert(has_reply(replies, tasks[k]));
        let t = choose|t: int| 0 <= t < replies.len() && answered_by(tasks[k], #[trigger] replies[t]);
        assert(tasks[k] == planned_task(a, b, k));
        assert(want.cells[k] == product_cell(a, b, k));
        assert(replies[t].idx == k);
    }
    assert(want.fits()) by {
        assert forall|k: int| 0 <= k < want.cells.len() implies fits_elem(
            #[trigger] want.cells[k],
        ) by {
            assert(names(replies, k));
        }
    }
    lemma_placed_complete(zeros(n as nat), replies, want.cells);
}

/// Every task has an answer.
pub open spec fn answerable(tasks: Seq<TaskView>) -> bool {
    forall|k: int| 0 <= k < tasks.len() ==> reply_outcome(#[trigger] tasks[k]) is Ok
}

/// `order` is a run of a pool of `workers` over `n` tasks: it lists the
/// tasks by their positions in the order in which they were completed.
/// Every task is completed, and two tasks of one worker are completed in
/// the order in which they were created. Nothing else is known of the order.
pub open spec fn is_run(order: Seq<int>, n: nat, workers: nat) -> bool {
    &&& order.len() == n
    &&& forall|p: int| 0 <= p < n ==> 0 <= #[trigger] order[p] < n
    &&& forall|k: int| 0 <= k < n ==> completed(order, k)
    &&& forall|p: int, q: int|
        0 <= p < q < n && (#[trigger] order[p]) % (workers as int) == (#[trigger] order[q]) % (
        workers as int) ==> order[p] < order[q]
}

/// The task at position `k` is completed somewhere in `order`.
pub open spec fn completed(order: Seq<int>, k: int) -> bool {
    exists|p: int| 0 <= p < order.len() && #[trigger] order[p] == k
}

/// The answers to `tasks` in the order in which `order` completes them.
pub open spec fn replies_in(tasks: Seq<TaskView>, order: Seq<int>) -> Seq<ReplyView> {
    Seq::new(
        order.len(),
        |p: int|
            ReplyView {
                idx: tasks[order[p]].idx,
                value: dot(tasks[order[p]].row, tasks[order[p]].col),
            },
    )
}

/// What a pool of `workers` makes of `a * b` when its workers answer every
/// task they are handed and complete the tasks as `order` says: the shape
/// is checked first, a pool without workers and a task without answer fail
/// the call, and otherwise the answers are assembled as they arrive.
pub open spec fn pool_outcome(a: MatrixView, b: MatrixView, workers: nat, order: Seq<int>) -> Result<
    MatrixView,
    EngineError,
> {
    match plan_outcome(a, b) {
        Err(e) => Err(e),
        Ok(tasks) => if workers == 0 || !answerable(tasks) {
            Err(EngineError::WorkerUnavailable)
        } else {
            assemble_outcome(replies_in(tasks, order), a.rows, b.cols)
        },
    }
}

/// The mismatch of shapes is reported whatever the pool: where the inner
/// dimensions differ, the outcome is `ShapeMismatch` for every pool and run.
pub proof fn lemma_pool_shape_mismatch(a: MatrixView, b: MatrixView, workers: nat, order: Seq<int>)
    requires
        a.cols != b.rows,
    ensures
        pool_outcome(a, b, workers, order) == Err::<MatrixView, EngineError>(
            EngineError::ShapeMismatch,
        ),
        multiply_outcome(a, b) == Err::<MatrixView, EngineError>(EngineError::ShapeMismatch),
{
}

/// The pool computes the sequential product: whatever the number of workers
/// and the order of completion, the pool succeeds exactly when the
/// sequential multiplication does, and then with the same matrix.
pub proof fn lemma_pool_agrees_with_sequential(
    a: MatrixView,
    b: MatrixView,
    workers: nat,
    order: Seq<int>,
)
    requires
        a.wf(),
        b.wf(),
        workers > 0,
        is_run(order, a.rows * b.cols, workers),
    ensures
        pool_outcome(a, b, workers, order) is Ok <==> multiply_outcome(a, b) is Ok,
        multiply_outcome(a, b) is Ok ==> pool_outcome(a, b, workers, order) == multiply_outcome(
            a,
            b,
        ),
{
    if plan_outcome(a, b) is Ok {
        let tasks = plan_outcome(a, b)->Ok_0;
        let n = a.rows * b.cols;
        if answerable(tasks) {
            let replies = replies_in(tasks, order);
            assert forall|t: int| 0 <= t < replies.len() implies has_task(
                tasks,
                #[trigger] replies[t],
            ) by {
                let k = order[t];
                assert(reply_outcome(tasks[k]) is Ok);
                assert(answered_by(tasks[k], replies[t]));
            }
            assert forall|k: int| 0 <= k < tasks.len() implies has_reply(
                replies,
                #[trigger] tasks[k],
            ) by {
                assert(completed(order, k));
                let p = choose|p: int| 0 <= p < order.len() && #[trigger] order[p] == k;
                assert(reply_outcome(tasks[k]) is Ok);
                assert(answered_by(tasks[k], replies[p]));
            }
            lemma_engine_agrees_with_sequential(a, b, tasks, replies);
        } else {
            let k = choose|k: int| 0 <= k < tasks.len() && !(reply_outcome(#[trigger] tasks[k]) is Ok);
            assert(tasks[k] == planned_task(a, b, k));
            lemma_failed_task(a, b, k, reply_outcome(tasks[k])->Err_0);
        }
    }
}

/// Determinism: with one pool size, two runs give the same outcome, however
/// differently they completed their tasks.
pub proof fn lemma_pool_deterministic(
    a: MatrixView,
    b: MatrixView,
    workers: nat,
    first: Seq<int>,
    second: Seq<int>,
)
    requires
        a.wf(),
        b.wf(),
        workers > 0,
        is_run(first, a.rows * b.cols, workers),
        is_run(second, a.rows * b.cols, workers),
    ensures
        pool_outcome(a, b, workers, first) == pool_outcome(a, b, workers, second),
{
    lemma_pool_size_invariant(a, b, workers, first, workers, second);
}

/// Invariance to pool size: two pools give the same outcome, whether they
/// have fewer workers than there are cells, as many, or more.
pub proof fn lemma_pool_size_invariant(
    a: MatrixView,
    b: MatrixView,
    workers: nat,
    order: Seq<int>,
    other_workers: nat,
    other_order: Seq<int>,
)
    requires
        a.wf(),
        b.wf(),
        workers > 0,
        other_workers > 0,
        is_run(order, a.rows * b.cols, workers),
        is_run(other_order, a.rows * b.cols, other_workers),
    ensures
        pool_outcome(a, b, workers, order) == pool_outcome(a, b, other_workers, other_order),
{
    lemma_pool_agrees_with_sequential(a, b, workers, order);
    lemma_pool_agrees_with_sequential(a, b, other_workers, other_order);
}

/// A task of `a * b` can only fail because its cell overflows, and then the
/// sequential multiplication fails in the same way.
pub proof fn lemma_failed_task(a: MatrixView, b: MatrixView, k: int, e: EngineError)
    requires
        a.cols == b.rows,
        a.rows * b.cols <= usize::MAX,
        0 <= k < a.rows * b.cols,
        reply_outcome(planned_task(a, b, k)) == Err::<ReplyView, EngineError>(e),
    ensures
        e == EngineError::Overflow,
        multiply_outcome(a, b) == Err::<MatrixView, EngineError>(e),
{
    assert(product(a, b).cells[k] == product_cell(a, b, k));
}

/// The cell of `a * b` in row `i` and column `j` is the dot product of row
/// `i` of `a` and column `j` of `b`.
pub proof fn lemma_product_at(a: MatrixView, b: MatrixView, i: int, j: int)
    requires
        0 <= i < a.rows,
        0 <= j < b.cols,
    ensures
        product(a, b).at(i, j) == dot(a.row(i), b.col(j)),
{
    lemma_position(a.rows as int, b.cols as int, i, j);
    assert(product(a, b).cells[i * b.cols + j] == product_cell(a, b, i * b.cols + j));
}

/// Against a sequence that holds 1 at position `j` and 0 elsewhere, the dot
/// product picks out the element at position `j`.
pub proof fn lemma_dot_unit_right(v: Seq<int>, unit: Seq<int>, j: int, n: nat)
    requires
        n <= v.len(),
        n <= unit.len(),
        forall|k: int| 0 <= k < n ==> unit[k] == (if k == j { 1int } else { 0int }),
    ensures
        dot_prefix(v, unit, n) == (if 0 <= j < n { v[j] } else { 0int }),
    decreases n,
{
    if n > 0 {
        lemma_dot_unit_right(v, unit, j, (n - 1) as nat);
        assert(v[n - 1] * unit[n - 1] == (if n - 1 == j { v[n - 1] } else { 0int })) by (nonlinear_arith)
            requires
                unit[n - 1] == (if n - 1 == j { 1int } else { 0int }),
        ;
    }
}

/// The counterpart of `lemma_dot_unit_right` with the unit sequence on the left.
pub proof fn lemma_dot_unit_left(unit: Seq<int>, v: Seq<int>, j: int, n: nat)
    requires
        n <= v.len(),
        n <= unit.len(),
        forall|k: int| 0 <= k < n ==> unit[k] == (if k == j { 1int } else { 0int }),
    ensures
        dot_prefix(unit, v, n) == (if 0 <= j < n { v[j] } else { 0int }),
    decreases n,
{
    if n > 0 {
        lemma_dot_unit_left(unit, v, j, (n - 1) as nat);
        assert(unit[n - 1] * v[n - 1] == (if n - 1 == j { v[n - 1] } else { 0int })) by (nonlinear_arith)
            requires
                unit[n - 1] == (if n - 1 == j { 1int } else { 0int }),
        ;
    }
}

/// Identity law: a matrix times the identity matrix of its column count is
/// the matrix itself.
pub proof fn lemma_identity_right(a: MatrixView)
    requires
        a.wf(),
    ensures
        product(a, identity(a.cols)) == a,
{
    let n = a.cols;
    let id = identity(n);
    let p = product(a, id);
    assert forall|k: int| 0 <= k < a.rows * n implies #[trigger] p.cells[k] == a.cells[k] by {
        lemma_coordinates(a.rows as int, n as int, k);
        let i = k / n as int;
        let j = k % n as int;
        let unit = id.col(j);
        assert forall|t: int| 0 <= t < n implies unit[t] == (if t == j { 1int } else { 0int }) by {
            lemma_position(n as int, n as int, t, j);
        }
        lemma_dot_unit_right(a.row(i), unit, j, n);
        lemma_position(a.rows as int, n as int, i, j);
    }
    assert(p.cells =~= a.cells);
}

/// Identity law: the identity matrix of a matrix's row count times the
/// matrix is the matrix itself.
pub proof fn lemma_identity_left(a: MatrixView)
    requires
        a.wf(),
    ensures
        product(identity(a.rows), a) == a,
{
    let n = a.rows;
    let id = identity(n);
    let p = product(id, a);
    assert forall|k: int| 0 <= k < n * a.cols implies #[trigger] p.cells[k] == a.cells[k] by {
        lemma_coordinates(n as int, a.cols as int, k);
        let i = k / a.cols as int;
        let j = k % a.cols as int;
        let unit = id.row(i);
        assert forall|t: int| 0 <= t < n implies unit[t] == (if t == i { 1int } else { 0int }) by {
            lemma_position(n as int, n as int, i, t);
        }
        lemma_dot_unit_left(unit, a.col(j), i, n);
        lemma_position(n as int, a.cols as int, i, j);
    }
    assert(p.cells =~= a.cells);
}

/// `a.at(i, 0) * b.at(0, j) + ... + a.at(i, m - 1) * b.at(m - 1, j)`.
pub open spec fn cross(a: MatrixView, b: MatrixView, i: int, j: int, m: nat) -> int
    decreases m,
{
    if m == 0 {
        0
    } else {
        cross(a, b, i, j, (m - 1) as nat) + a.at(i, m - 1) * b.at(m - 1, j)
    }
}

/// The first `m` terms of the dot product of row `i` of `a` and column `j`
/// of `b`, written over the cells.
pub proof fn lemma_dot_is_cross(a: MatrixView, b: MatrixView, i: int, j: int, m: nat)
    requires
        m <= a.cols,
        m <= b.rows,
    ensures
        dot_prefix(a.row(i), b.col(j), m) == cross(a, b, i, j, m),
    decreases m,
{
    if m > 0 {
        lemma_dot_is_cross(a, b, i, j, (m - 1) as nat);
    }
}

/// The sum over `k < kk` of `cross(a, b, i, k, a.cols) * c.at(k, j)`: the
/// first `kk` terms of a cell of `(a * b) * c`.
pub open spec fn left_sum(a: MatrixView, b: MatrixView, c: MatrixView, i: int, j: int, kk: nat) -> int
    decreases kk,
{
    if kk == 0 {
        0
    } else {
        left_sum(a, b, c, i, j, (kk - 1) as nat) + cross(a, b, i, kk - 1, a.cols) * c.at(kk - 1, j)
    }
}

/// The sum over `l < ll` of `a.at(i, l) * cross(b, c, l, j, kk)`: the first
/// `ll` terms of a cell of `a * (b * c)`, each cut off after `kk` terms.
pub open spec fn right_sum(
    a: MatrixView,
    b: MatrixView,
    c: MatrixView,
    i: int,
    j: int,
    ll: nat,
    kk: nat,
) -> int
    decreases ll,
{
    if ll == 0 {
        0
    } else {
        right_sum(a, b, c, i, j, (ll - 1) as nat, kk) + a.at(i, ll - 1) * cross(
            b,
            c,
            ll - 1,
            j,
            kk,
        )
    }
}

/// Cut off before the first term, every term of the right sum is zero.
proof fn lemma_right_sum_empty(a: MatrixView, b: MatrixView, c: MatrixView, i: int, j: int, ll: nat)
    ensures
        right_sum(a, b, c, i, j, ll, 0) == 0,
    decreases ll,
{
    if ll > 0 {
        lemma_right_sum_empty(a, b, c, i, j, (ll - 1) as nat);
        assert(a.at(i, ll - 1) * 0 == 0) by (nonlinear_arith);
    }
}

/// One more term in each inner sum adds one term of the left sum.
proof fn lemma_right_sum_step(
    a: MatrixView,
    b: MatrixView,
    c: MatrixView,
    i: int,
    j: int,
    ll: nat,
    kk: nat,
)
    ensures
        right_sum(a, b, c, i, j, ll, kk + 1) == right_sum(a, b, c, i, j, ll, kk) + cross(
            a,
            b,
            i,
            kk as int,
            ll,
        ) * c.at(kk as int, j),
    decreases ll,
{
    if ll > 0 {
        let l = ll - 1;
        lemma_right_sum_step(a, b, c, i, j, l as nat, kk);
        let x = a.at(i, l);
        let y = b.at(l, kk as int);
        let z = c.at(kk as int, j);
        let s = cross(b, c, l, j, kk);
        let t = cross(a, b, i, kk as int, l as nat);
        assert(cross(b, c, l, j, kk + 1) == s + y * z);
        assert(cross(a, b, i, kk as int, ll) == t + x * y);
        assert(x * (s + y * z) + t * z == x * s + (t + x * y) * z) by (nonlinear_arith);
    }
}

/// The two ways of summing the triple products give the same sum.
proof fn lemma_sums_agree(a: MatrixView, b: MatrixView, c: MatrixView, i: int, j: int, kk: nat)
    ensures
        left_sum(a, b, c, i, j, kk) == right_sum(a, b, c, i, j, a.cols, kk),
    decreases kk,
{
    if kk == 0 {
        lemma_right_sum_empty(a, b, c, i, j, a.cols);
    } else {
        lemma_sums_agree(a, b, c, i, j, (kk - 1) as nat);
        lemma_right_sum_step(a, b, c, i, j, a.cols, (kk - 1) as nat);
    }
}

/// A cell of `(a * b) * c`, cut off after `kk` terms, is the left sum.
proof fn lemma_left_cell(a: MatrixView, b: MatrixView, c: MatrixView, i: int, j: int, kk: nat)
    requires
        a.cols == b.rows,
        0 <= i < a.rows,
        kk <= b.cols,
    ensures
        cross(product(a, b), c, i, j, kk) == left_sum(a, b, c, i, j, kk),
    decreases kk,
{
    if kk > 0 {
        lemma_left_cell(a, b, c, i, j, (kk - 1) as nat);
        lemma_product_at(a, b, i, kk - 1);
        lemma_dot_is_cross(a, b, i, kk - 1, a.cols);
    }
}

/// A cell of `a * (b * c)`, cut off after `ll` terms, is the right sum.
proof fn lemma_right_cell(a: MatrixView, b: MatrixView, c: MatrixView, i: int, j: int, ll: nat)
    requires
        b.cols == c.rows,
        0 <= j < c.cols,
        ll <= b.rows,
    ensures
        cross(a, product(b, c), i, j, ll) == right_sum(a, b, c, i, j, ll, b.cols),
    decreases ll,
{
    if ll > 0 {
        lemma_right_cell(a, b, c, i, j, (ll - 1) as nat);
        lemma_product_at(b, c, ll - 1, j);
        lemma_dot_is_cross(b, c, ll - 1, j, b.cols);
    }
}

/// Associativity: `(a * b) * c` and `a * (b * c)` are the same matrix.
pub proof fn lemma_product_associative(a: MatrixView, b: MatrixView, c: MatrixView)
    requires
        a.cols == b.rows,
        b.cols == c.rows,
    ensures
        product(product(a, b), c) == product(a, product(b, c)),
{
    let ab = product(a, b);
    let bc = product(b, c);
    let left = product(ab, c);
    let right = product(a, bc);
    assert forall|k: int| 0 <= k < a.rows * c.cols implies #[trigger] left.cells[k]
        == right.cells[k] by {
        lemma_coordinates(a.rows as int, c.cols as int, k);
        let i = k / c.cols as int;
        let j = k % c.cols as int;
        assert(left.cells[k] == product_cell(ab, c, k));
        assert(right.cells[k] == product_cell(a, bc, k));
        lemma_dot_is_cross(ab, c, i, j, b.cols);
        lemma_left_cell(a, b, c, i, j, b.cols);
        lemma_sums_agree(a, b, c, i, j, b.cols);
        lemma_right_cell(a, b, c, i, j, b.rows);
        lemma_dot_is_cross(a, bc, i, j, a.cols);
    }
    assert(left.cells =~= right.cells);
}

/// Identity law for the multiplication itself: a matrix of elements times
/// the identity matrix of its column count gives the matrix back.
pub proof fn lemma_multiply_by_identity(a: MatrixView)
    requires
        a.wf(),
        a.fits(),
        a.rows * a.cols <= usize::MAX,
    ensures
        multiply_outcome(a, identity(a.cols)) == Ok::<MatrixView, EngineError>(a),
        multiply_outcome(identity(a.rows), a) == Ok::<MatrixView, EngineError>(a),
{
    lemma_identity_right(a);
    lemma_identity_left(a);
}

/// Identity law for the matrices that the library holds: a well-formed
/// matrix times the identity matrix of matching size, on either side, is
/// multiplied without error and gives the matrix back.
pub proof fn lemma_matrix_times_identity(m: Matrix)
    requires
        m.wf(),
    ensures
        multiply_outcome(m@, identity(m@.cols)) == Ok::<MatrixView, EngineError>(m@),
        multiply_outcome(identity(m@.rows), m@) == Ok::<MatrixView, EngineError>(m@),
{
    assert(m@.cells.len() == m.data@.len());
    assert(m.data@.len() == m.data.len());
    lemma_multiply_by_identity(m@);
}

/// Associativity for the multiplication itself: where the four products can
/// be had, `(a * b) * c` and `a * (b * c)` are the same matrix.
pub proof fn lemma_multiply_associative(
    a: MatrixView,
    b: MatrixView,
    c: MatrixView,
    ab: MatrixView,
    bc: MatrixView,
    left: MatrixView,
    right: MatrixView,
)
    requires
        multiply_outcome(a, b) == Ok::<MatrixView, EngineError>(ab),
        multiply_outcome(ab, c) == Ok::<MatrixView, EngineError>(left),
        multiply_outcome(b, c) == Ok::<MatrixView, EngineError>(bc),
        multiply_outcome(a, bc) == Ok::<MatrixView, EngineError>(right),
    ensures
        left == right,
{
    lemma_product_associative(a, b, c);
}

} // verus!
