//! The engine over channels: tasks travel to the workers through their
//! queues, and each answer comes back over a channel of its own.
use vstd::prelude::*;
use crate::algebra::{
    assemble_outcome, plan_outcome, reply_outcome, MatrixView, ReplyView, TaskView,
};
use crate::engine::{
    assemble, evaluate, plan, reply_views, task_views, worker_for, MsgInput, MsgOutput,
};
use crate::error::EngineError;
use crate::matrix::Matrix;

verus! {

/// The sending end of `oneshot`'s channel. Nothing is known of what is inside.
#[verifier::external_type_specification]
#[verifier::external_body]
#[verifier::reject_recursive_types(T)]
pub struct ExReplySender<T>(oneshot::Sender<T>);

/// The receiving end of `oneshot`'s channel. Nothing is known of what is inside.
#[verifier::external_type_specification]
#[verifier::external_body]
#[verifier::reject_recursive_types(T)]
pub struct ExReplyReceiver<T>(oneshot::Receiver<T>);

/// `oneshot`'s error for a message whose receiver is gone; it holds the message.
#[verifier::external_type_specification]
#[verifier::external_body]
#[verifier::reject_recursive_types(T)]
pub struct ExReplySendError<T>(oneshot::SendError<T>);

/// `oneshot`'s error for a channel whose sender is gone.
#[verifier::external_type_specification]
#[verifier::external_body]
pub struct ExReplyRecvError(oneshot::RecvError);

/// The sending end of a queue of `std::sync::mpsc`. Nothing is known of what is inside.
#[verifier::external_type_specification]
#[verifier::external_body]
#[verifier::reject_recursive_types(T)]
pub struct ExQueueSender<T>(std::sync::mpsc::Sender<T>);

/// `std::sync::mpsc`'s error for a message whose receiver is gone; it holds the message.
#[verifier::external_type_specification]
#[verifier::external_body]
#[verifier::reject_recursive_types(T)]
pub struct ExQueueSendError<T>(std::sync::mpsc::SendError<T>);

/// `oneshot::channel` makes a fresh channel and hands out its two ends.
/// Nothing is claimed of them.
pub assume_specification<T>[ oneshot::channel::<T> ]() -> (ends: (
    oneshot::Sender<T>,
    oneshot::Receiver<T>,
));

/// `oneshot::Sender::send` uses up the sender and returns without waiting.
/// Whether the message arrived depends on whether the receiver still
/// exists, so nothing is claimed of the result.
pub assume_specification<T>[ oneshot::Sender::<T>::send ](
    sender: oneshot::Sender<T>,
    message: T,
) -> (r: Result<(), oneshot::SendError<T>>);

/// `oneshot::Receiver::recv` uses up the receiver and waits until the sender
/// has sent its message or is gone. What arrives is the sender's choice, so
/// nothing is claimed of the result.
pub assume_specification<T>[ oneshot::Receiver::<T>::recv ](receiver: oneshot::Receiver<T>) -> (r:
    Result<T, oneshot::RecvError>);

/// `std::sync::mpsc::Sender::send` puts a message into an unbounded queue and
/// returns without waiting. It fails when the receiver is gone, which
/// nothing here can tell, so nothing is claimed of the result.
pub assume_specification<T>[ std::sync::mpsc::Sender::<T>::send ](
    sender: &std::sync::mpsc::Sender<T>,
    t: T,
) -> (r: Result<(), std::sync::mpsc::SendError<T>>);

/// A task on its way to a worker, with the channel for the worker's answer.
pub struct Msg {
    pub input: MsgInput,
    pub sender: oneshot::Sender<MsgOutput>,
}

impl Msg {
    pub fn new(input: MsgInput, sender: oneshot::Sender<MsgOutput>) -> (msg: Self)
        ensures
            msg.input == input,
            msg.sender == sender,
    {
        Self { input, sender }
    }
}

/// A worker's step on one message: answers the task and sends the answer
/// back. Returns whether an answer was handed to the channel and accepted.
///
/// A task that has no answer gets none: its channel is closed instead, which
/// the collector sees as a failed receive.
pub fn serve(msg: Msg) -> (delivered: bool)
    ensures
        delivered ==> reply_outcome(msg.input@) is Ok,
{
    let Msg { input, sender } = msg;
    match evaluate(input) {
        Ok(output) => {
            match sender.send(output) {
                Ok(_) => true,
                Err(_) => false,
            }
        },
        Err(_) => false,
    }
}

/// The dispatcher: splits `a * b` into tasks and hands the task for position
/// `idx` to worker `idx % senders.len()`, each with a fresh channel for the
/// answer. Returns the receiving ends in the order the tasks were created.
///
/// A task that its worker's queue refuses is dropped, and its channel with
/// it: the collector will find that channel closed.
pub fn dispatch(a: &Matrix, b: &Matrix, senders: &Vec<std::sync::mpsc::Sender<Msg>>) -> (r: Result<
    Vec<oneshot::Receiver<MsgOutput>>,
    EngineError,
>)
    requires
        a.wf(),
        b.wf(),
    ensures
        a@.cols != b@.rows ==> (r matches Err(e) && e == EngineError::ShapeMismatch),
        match r {
            Ok(receivers) => {
                &&& plan_outcome(a@, b@) is Ok
                &&& senders@.len() > 0
                &&& receivers@.len() == a@.rows * b@.cols
            },
            Err(e) => {
                ||| plan_outcome(a@, b@) == Err::<Seq<TaskView>, EngineError>(e)
                ||| plan_outcome(a@, b@) is Ok && senders@.len() == 0 && e
                    == EngineError::WorkerUnavailable
            },
        },
{
    let tasks = match plan(a, b) {
        Ok(tasks) => tasks,
        Err(e) => {
            return Err(e);
        },
    };
    let workers: usize = senders.len();
    if workers == 0 {
        return Err(EngineError::WorkerUnavailable);
    }
    let ghost planned = task_views(tasks@);
    let mut receivers: Vec<oneshot::Receiver<MsgOutput>> = Vec::new();
    for task in it: tasks
        invariant
            workers == senders@.len(),
            workers > 0,
            it.seq().len() == planned.len(),
            receivers@.len() == it.index(),
    {
        let (tx, rx) = oneshot::channel::<MsgOutput>();
        let w = worker_for(task.idx, workers);
        let msg = Msg::new(task, tx);
        let _ = senders[w].send(msg);
        receivers.push(rx);
    }
    Ok(receivers)
}

/// The collector: waits for the answers in the order the tasks were
/// created, then assembles them. One closed channel fails the whole call,
/// and what was received until then is dropped.
///
/// There is no timeout: a task that is neither answered nor dropped keeps
/// the call waiting.
pub fn collect(receivers: Vec<oneshot::Receiver<MsgOutput>>, rows: usize, cols: usize) -> (r: Result<
    Matrix,
    EngineError,
>)
    ensures
        rows * cols > usize::MAX <==> r == Err::<Matrix, EngineError>(EngineError::Overflow),
        rows * cols <= usize::MAX && receivers@.len() == 0 ==> r is Ok,
        match r {
            Ok(m) => exists|replies: Seq<ReplyView>|
                replies.len() == receivers@.len() && #[trigger] assemble_outcome(
                    replies,
                    rows as nat,
                    cols as nat,
                ) == Ok::<MatrixView, EngineError>(m@),
            Err(e) => e == EngineError::Overflow || e == EngineError::WorkerUnavailable,
        },
{
    if rows.checked_mul(cols).is_none() {
        return Err(EngineError::Overflow);
    }
    let mut replies: Vec<MsgOutput> = Vec::new();
    for receiver in it: receivers
        invariant
            rows * cols <= usize::MAX,
            replies@.len() == it.index(),
            it.seq().len() == receivers@.len(),
    {
        match receiver.recv() {
            Ok(output) => {
                replies.push(output);
            },
            Err(_) => {
                return Err(EngineError::WorkerUnavailable);
            },
        }
    }
    let r = assemble(replies, rows, cols);
    proof {
        if r is Ok {
            assert(assemble_outcome(reply_views(replies@), rows as nat, cols as nat) is Ok);
        }
    }
    r
}

/// The product `a * b`, computed by the workers behind `senders`.
///
/// The shape is checked before any worker is spoken to. What comes back
/// after that is the workers' doing: the result is what `assemble` makes of
/// their answers. For workers that run `serve` on every message, the laws
/// on `pool_outcome` say what that is: the sequential product, whatever the
/// size of the pool and the order in which the workers finish.
pub fn multiply_v1(a: Matrix, b: Matrix, senders: &Vec<std::sync::mpsc::Sender<Msg>>) -> (r: Result<
    Matrix,
    EngineError,
>)
    requires
        a.wf(),
        b.wf(),
    ensures
        a@.cols != b@.rows ==> r == Err::<Matrix, EngineError>(EngineError::ShapeMismatch),
        plan_outcome(a@, b@) matches Err(e) ==> r == Err::<Matrix, EngineError>(e),
        plan_outcome(a@, b@) is Ok && senders@.len() == 0 ==> r == Err::<Matrix, EngineError>(
            EngineError::WorkerUnavailable,
        ),
        plan_outcome(a@, b@) is Ok && senders@.len() > 0 && a@.rows * b@.cols == 0 ==> r is Ok,
        match r {
            Ok(m) => {
                &&& plan_outcome(a@, b@) is Ok
                &&& senders@.len() > 0
                &&& exists|replies: Seq<ReplyView>|
                    replies.len() == a@.rows * b@.cols && #[trigger] assemble_outcome(
                        replies,
                        a@.rows,
                        b@.cols,
                    ) == Ok::<MatrixView, EngineError>(m@)
            },
            Err(e) => {
                ||| plan_outcome(a@, b@) == Err::<Seq<TaskView>, EngineError>(e)
                ||| plan_outcome(a@, b@) is Ok && e == EngineError::WorkerUnavailable
            },
        },
{
    let receivers = match dispatch(&a, &b, senders) {
        Ok(receivers) => receivers,
        Err(e) => {
            return Err(e);
        },
    };
    collect(receivers, a.rows, b.cols)
}

} // verus!
