use concurrency::engine::{MsgInput, MsgOutput, NUM_THREADS};
use concurrency::error::EngineError;
use concurrency::matrix::{multiply, Matrix};
use concurrency::pool::{collect, dispatch, multiply_v1, serve, Msg};
use concurrency::vector::Vector;
use std::sync::mpsc::{channel, Receiver, Sender};

fn a23() -> Matrix {
    Matrix::new(vec![1, 2, 3, 4, 5, 6], 2, 3)
}

fn b32() -> Matrix {
    Matrix::new(vec![1, 2, 3, 4, 5, 6], 3, 2)
}

fn pool(workers: usize) -> (Vec<Sender<Msg>>, Vec<Receiver<Msg>>) {
    let mut senders = Vec::new();
    let mut queues = Vec::new();
    for _ in 0..workers {
        let (tx, rx) = channel::<Msg>();
        senders.push(tx);
        queues.push(rx);
    }
    (senders, queues)
}

/// Does on the calling thread what the workers do: each queue is served
/// until it is empty, one queue after the other. Returns how many tasks
/// each queue held.
fn run_workers(queues: &[Receiver<Msg>]) -> Vec<usize> {
    let mut served = Vec::new();
    for queue in queues {
        let mut count = 0;
        while let Ok(msg) = queue.try_recv() {
            assert!(serve(msg));
            count += 1;
        }
        served.push(count);
    }
    served
}

fn pooled(a: Matrix, b: Matrix, workers: usize) -> Result<Matrix, EngineError> {
    let (senders, queues) = pool(workers);
    let receivers = dispatch(&a, &b, &senders)?;
    run_workers(&queues);
    collect(receivers, a.rows, b.cols)
}

#[test]
fn test_multiply_v1() -> Result<(), EngineError> {
    let a = Matrix::new(vec![1, 2, 3, 4, 5, 6], 2, 3);
    let b = Matrix::new(vec![1, 2, 3, 4, 5, 6], 3, 2);
    let c = pooled(a, b, NUM_THREADS)?;
    assert_eq!(c.rows, 2);
    assert_eq!(c.cols, 2);
    assert_eq!(c.data, vec![22, 28, 49, 64]);
    Ok(())
}

#[test]
fn test_multiply_should_error() {
    let (senders, _queues) = pool(NUM_THREADS);
    let a = Matrix::new(vec![1, 2, 3, 4, 5, 6], 2, 3);
    let b = Matrix::new(vec![1, 2, 3, 4, 5, 6], 2, 2);
    let c = multiply_v1(a, b, &senders);
    assert!(c.is_err())
}

#[test]
fn shape_mismatch_reaches_no_worker() {
    let (senders, queues) = pool(NUM_THREADS);
    let b = Matrix::new(vec![1, 2, 3, 4], 2, 2);
    assert_eq!(multiply_v1(a23(), b, &senders), Err(EngineError::ShapeMismatch));
    let b = Matrix::new(vec![1, 2, 3, 4], 2, 2);
    assert!(matches!(dispatch(&a23(), &b, &senders), Err(EngineError::ShapeMismatch)));
    for queue in &queues {
        assert!(queue.try_recv().is_err());
    }
}

#[test]
fn shape_mismatch_for_all_small_shapes() {
    let (senders, queues) = pool(2);
    for ra in 0..4usize {
        for ca in 0..4usize {
            for rb in 0..4usize {
                for cb in 0..4usize {
                    if ca != rb {
                        let a = Matrix::new(vec![1; ra * ca], ra, ca);
                        let b = Matrix::new(vec![1; rb * cb], rb, cb);
                        assert_eq!(multiply_v1(a, b, &senders), Err(EngineError::ShapeMismatch));
                    }
                }
            }
        }
    }
    assert!(queues[0].try_recv().is_err());
    assert!(queues[1].try_recv().is_err());
}

#[test]
fn shape_is_checked_before_the_pool() {
    let b = Matrix::new(vec![1, 2, 3, 4], 2, 2);
    assert_eq!(multiply_v1(a23(), b, &Vec::new()), Err(EngineError::ShapeMismatch));
}

#[test]
fn an_empty_pool_serves_nothing() {
    assert_eq!(multiply_v1(a23(), b32(), &Vec::new()), Err(EngineError::WorkerUnavailable));
    assert!(matches!(dispatch(&a23(), &b32(), &Vec::new()), Err(EngineError::WorkerUnavailable)));
}

#[test]
fn workers_that_are_gone_fail_the_call() {
    let (senders, queues) = pool(NUM_THREADS);
    drop(queues);
    assert_eq!(multiply_v1(a23(), b32(), &senders), Err(EngineError::WorkerUnavailable));
}

#[test]
fn one_worker_that_is_gone_fails_the_call() {
    let (senders, mut queues) = pool(NUM_THREADS);
    drop(queues.remove(2));
    let receivers = dispatch(&a23(), &b32(), &senders).unwrap();
    run_workers(&queues);
    assert_eq!(collect(receivers, 2, 2), Err(EngineError::WorkerUnavailable));
}

#[test]
fn a_task_dropped_unanswered_fails_the_call() {
    let (senders, queues) = pool(1);
    let receivers = dispatch(&a23(), &b32(), &senders).unwrap();
    let first = queues[0].try_recv().unwrap();
    drop(first);
    run_workers(&queues);
    assert_eq!(collect(receivers, 2, 2), Err(EngineError::WorkerUnavailable));
}

#[test]
fn dispatch_assigns_round_robin() {
    let (senders, queues) = pool(3);
    let a = Matrix::new(vec![1; 6], 3, 2);
    let b = Matrix::new(vec![1; 6], 2, 3);
    let receivers = dispatch(&a, &b, &senders).unwrap();
    assert_eq!(receivers.len(), 9);
    for (w, queue) in queues.iter().enumerate() {
        let mut expected = w;
        while let Ok(msg) = queue.try_recv() {
            // Each queue holds its tasks in the order they were created.
            assert_eq!(msg.input.idx, expected);
            expected += 3;
        }
        assert_eq!(expected, w + 9);
    }
}

#[test]
fn dispatch_builds_row_and_column_for_each_cell() {
    let (senders, queues) = pool(1);
    let receivers = dispatch(&a23(), &b32(), &senders).unwrap();
    assert_eq!(receivers.len(), 4);
    let msg = queues[0].try_recv().unwrap();
    assert_eq!(msg.input, MsgInput::new(0, Vector::new(vec![1, 2, 3]), Vector::new(vec![1, 3, 5])));
    let msg = queues[0].try_recv().unwrap();
    assert_eq!(msg.input, MsgInput::new(1, Vector::new(vec![1, 2, 3]), Vector::new(vec![2, 4, 6])));
    let msg = queues[0].try_recv().unwrap();
    assert_eq!(msg.input, MsgInput::new(2, Vector::new(vec![4, 5, 6]), Vector::new(vec![1, 3, 5])));
    let msg = queues[0].try_recv().unwrap();
    assert_eq!(msg.input, MsgInput::new(3, Vector::new(vec![4, 5, 6]), Vector::new(vec![2, 4, 6])));
    assert!(queues[0].try_recv().is_err());
}

#[test]
fn serve_sends_the_answer_back() {
    let (tx, rx) = oneshot::channel::<MsgOutput>();
    let input = MsgInput::new(3, Vector::new(vec![4, 5, 6]), Vector::new(vec![2, 4, 6]));
    assert!(serve(Msg::new(input, tx)));
    assert_eq!(rx.recv(), Ok(MsgOutput { idx: 3, value: 64 }));
}

#[test]
fn serve_tells_when_nobody_listens() {
    let (tx, rx) = oneshot::channel::<MsgOutput>();
    drop(rx);
    let input = MsgInput::new(0, Vector::new(vec![1]), Vector::new(vec![1]));
    assert!(!serve(Msg::new(input, tx)));
}

#[test]
fn serve_closes_the_channel_of_a_task_without_answer() {
    let (tx, rx) = oneshot::channel::<MsgOutput>();
    let input = MsgInput::new(0, Vector::new(vec![i32::MAX, 1]), Vector::new(vec![1, 1]));
    assert!(!serve(Msg::new(input, tx)));
    assert!(rx.recv().is_err());
}

#[test]
fn collect_places_answers_by_their_index() {
    let mut receivers = Vec::new();
    // The answers do not sit in the channels of their own tasks.
    for (idx, value) in [(3, 64), (2, 49), (1, 28), (0, 22)] {
        let (tx, rx) = oneshot::channel::<MsgOutput>();
        tx.send(MsgOutput { idx, value }).unwrap();
        receivers.push(rx);
    }
    assert_eq!(collect(receivers, 2, 2), Ok(Matrix::new(vec![22, 28, 49, 64], 2, 2)));
}

#[test]
fn collect_fails_on_a_closed_channel() {
    let (tx, rx) = oneshot::channel::<MsgOutput>();
    drop(tx);
    assert_eq!(collect(vec![rx], 1, 1), Err(EngineError::WorkerUnavailable));
}

#[test]
fn collect_refuses_an_answer_outside_the_result() {
    let (tx, rx) = oneshot::channel::<MsgOutput>();
    tx.send(MsgOutput { idx: 1, value: 5 }).unwrap();
    assert_eq!(collect(vec![rx], 1, 1), Err(EngineError::WorkerUnavailable));
}

#[test]
fn collect_refuses_a_result_too_large_for_the_machine() {
    assert_eq!(collect(Vec::new(), usize::MAX, 2), Err(EngineError::Overflow));
}

#[test]
fn pool_gives_the_sequential_product() {
    let shapes: [(usize, usize, usize); 6] =
        [(1, 1, 1), (2, 3, 2), (3, 2, 4), (4, 4, 4), (1, 5, 1), (5, 1, 5)];
    let mut seed: i32 = 29;
    for (rows, inner, cols) in shapes {
        let mut left = Vec::new();
        for _ in 0..rows * inner {
            seed = (seed * 75 + 74) % 65537;
            left.push(seed % 201 - 100);
        }
        let mut right = Vec::new();
        for _ in 0..inner * cols {
            seed = (seed * 75 + 74) % 65537;
            right.push(seed % 201 - 100);
        }
        let a = Matrix::new(left, rows, inner);
        let b = Matrix::new(right, inner, cols);
        let sequential = multiply(a.clone(), b.clone());
        assert!(sequential.is_ok());
        assert_eq!(pooled(a, b, NUM_THREADS), sequential);
    }
}

#[test]
fn pool_size_does_not_change_the_result() {
    // Four cells: fewer workers than cells, as many, and more.
    for workers in [1, 2, 3, 4, 5, 9] {
        let c = pooled(a23(), b32(), workers).unwrap();
        assert_eq!(c, Matrix::new(vec![22, 28, 49, 64], 2, 2));
    }
}

#[test]
fn pool_gives_the_same_matrix_every_time() {
    let first = pooled(a23(), b32(), NUM_THREADS);
    let second = pooled(a23(), b32(), NUM_THREADS);
    assert_eq!(first, second);
}

#[test]
fn pool_fails_where_a_cell_overflows() {
    let a = Matrix::new(vec![i32::MAX, i32::MAX, 1, 1], 2, 2);
    let b = Matrix::new(vec![1, 1, 1, 1], 2, 2);
    let (senders, queues) = pool(2);
    let receivers = dispatch(&a, &b, &senders).unwrap();
    for queue in &queues {
        while let Ok(msg) = queue.try_recv() {
            serve(msg);
        }
    }
    assert_eq!(collect(receivers, 2, 2), Err(EngineError::WorkerUnavailable));
}

#[test]
fn pool_with_an_empty_result() {
    let a = Matrix::new(vec![], 0, 3);
    let b = Matrix::new(vec![1, 2, 3], 3, 1);
    let (senders, _queues) = pool(NUM_THREADS);
    // No task, so no answer to wait for.
    assert_eq!(multiply_v1(a, b, &senders), Ok(Matrix::new(vec![], 0, 1)));
}
