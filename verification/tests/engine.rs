use concurrency::engine::{
    assemble, evaluate, plan, worker_for, MsgInput, MsgOutput, NUM_THREADS,
};
use concurrency::error::EngineError;
use concurrency::matrix::{multiply, Matrix};
use concurrency::vector::Vector;

fn a23() -> Matrix {
    Matrix::new(vec![1, 2, 3, 4, 5, 6], 2, 3)
}

fn b32() -> Matrix {
    Matrix::new(vec![1, 2, 3, 4, 5, 6], 3, 2)
}

fn reply(idx: usize, value: i32) -> MsgOutput {
    MsgOutput { idx, value }
}

#[test]
fn pool_has_four_workers() {
    assert_eq!(NUM_THREADS, 4);
}

#[test]
fn worker_for_goes_round_the_pool() {
    assert_eq!(worker_for(0, 4), 0);
    assert_eq!(worker_for(1, 4), 1);
    assert_eq!(worker_for(3, 4), 3);
    assert_eq!(worker_for(4, 4), 0);
    assert_eq!(worker_for(9, 4), 1);
    assert_eq!(worker_for(9, 1), 0);
    assert_eq!(worker_for(2, 7), 2);
    assert_eq!(worker_for(usize::MAX, 2), 1);
}

#[test]
fn plan_makes_one_task_per_cell() {
    let tasks = plan(&a23(), &b32()).unwrap();
    assert_eq!(tasks.len(), 4);
    assert_eq!(tasks[0], MsgInput::new(0, Vector::new(vec![1, 2, 3]), Vector::new(vec![1, 3, 5])));
    assert_eq!(tasks[1], MsgInput::new(1, Vector::new(vec![1, 2, 3]), Vector::new(vec![2, 4, 6])));
    assert_eq!(tasks[2], MsgInput::new(2, Vector::new(vec![4, 5, 6]), Vector::new(vec![1, 3, 5])));
    assert_eq!(tasks[3], MsgInput::new(3, Vector::new(vec![4, 5, 6]), Vector::new(vec![2, 4, 6])));
}

#[test]
fn plan_refuses_mismatched_shapes() {
    let b = Matrix::new(vec![1, 2, 3, 4], 2, 2);
    assert_eq!(plan(&a23(), &b), Err(EngineError::ShapeMismatch));
}

#[test]
fn plan_refuses_a_result_too_large_for_the_machine() {
    let a = Matrix::new(vec![], usize::MAX, 0);
    let b = Matrix::new(vec![], 0, 2);
    assert_eq!(plan(&a, &b), Err(EngineError::Overflow));
}

#[test]
fn plan_of_an_empty_result_is_empty() {
    let a = Matrix::new(vec![], 0, 3);
    let b = Matrix::new(vec![1, 2, 3], 3, 1);
    assert_eq!(plan(&a, &b), Ok(vec![]));
}

#[test]
fn evaluate_answers_with_the_index_of_the_task() {
    let task = MsgInput::new(5, Vector::new(vec![1, 2, 3]), Vector::new(vec![2, 4, 6]));
    assert_eq!(evaluate(task), Ok(reply(5, 28)));
}

#[test]
fn evaluate_passes_the_kernel_errors_on() {
    let task = MsgInput::new(0, Vector::new(vec![1, 2, 3]), Vector::new(vec![2, 4]));
    assert_eq!(evaluate(task), Err(EngineError::LengthMismatch));
    let task = MsgInput::new(0, Vector::new(vec![i32::MAX, 1]), Vector::new(vec![1, 1]));
    assert_eq!(evaluate(task), Err(EngineError::Overflow));
}

#[test]
fn assemble_places_each_reply_at_its_index() {
    let replies = vec![reply(0, 22), reply(1, 28), reply(2, 49), reply(3, 64)];
    assert_eq!(assemble(replies, 2, 2), Ok(Matrix::new(vec![22, 28, 49, 64], 2, 2)));
}

#[test]
fn assemble_does_not_depend_on_the_order_of_arrival() {
    let want = Ok(Matrix::new(vec![22, 28, 49, 64], 2, 2));
    let orders: [[usize; 4]; 5] =
        [[0, 1, 2, 3], [3, 2, 1, 0], [1, 3, 0, 2], [2, 0, 3, 1], [0, 2, 1, 3]];
    let values = [22, 28, 49, 64];
    for order in orders {
        let replies: Vec<MsgOutput> = order.iter().map(|&k| reply(k, values[k])).collect();
        assert_eq!(assemble(replies, 2, 2), want);
    }
}

#[test]
fn assemble_leaves_unnamed_cells_at_zero() {
    let replies = vec![reply(2, 9)];
    assert_eq!(assemble(replies, 2, 2), Ok(Matrix::new(vec![0, 0, 9, 0], 2, 2)));
    assert_eq!(assemble(vec![], 1, 3), Ok(Matrix::new(vec![0, 0, 0], 1, 3)));
}

#[test]
fn assemble_keeps_the_last_reply_for_a_cell() {
    let replies = vec![reply(1, 5), reply(0, 3), reply(1, 8)];
    assert_eq!(assemble(replies, 1, 2), Ok(Matrix::new(vec![3, 8], 1, 2)));
}

#[test]
fn assemble_refuses_a_reply_outside_the_result() {
    let replies = vec![reply(0, 1), reply(4, 2)];
    assert_eq!(assemble(replies, 2, 2), Err(EngineError::WorkerUnavailable));
    assert_eq!(assemble(vec![reply(0, 1)], 0, 5), Err(EngineError::WorkerUnavailable));
}

#[test]
fn assemble_refuses_a_result_too_large_for_the_machine() {
    assert_eq!(assemble(vec![], usize::MAX, 2), Err(EngineError::Overflow));
    assert_eq!(assemble(vec![reply(0, 1)], usize::MAX, 2), Err(EngineError::Overflow));
}

#[test]
fn stages_give_the_sequential_product() {
    let a = Matrix::new(vec![3, -1, 4, 1, -5, 9, 2, 6], 4, 2);
    let b = Matrix::new(vec![5, 3, -5, 8, 9, -7], 2, 3);
    let tasks = plan(&a, &b).unwrap();
    let mut replies = Vec::new();
    // The answers arrive last task first.
    for task in tasks.into_iter().rev() {
        replies.push(evaluate(task).unwrap());
    }
    let assembled = assemble(replies, a.rows, b.cols);
    assert_eq!(assembled, multiply(a, b));
    assert_eq!(assembled.unwrap().data, vec![7, 0, -8, 28, 21, -27, 47, 66, -38, 58, 60, -52]);
}
