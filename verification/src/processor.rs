//! The processor: the event loop that owns the bound worker, consumes
//! orders FIFO, and emits exactly one terminal response per accepted job
//! before it touches the next order.
use vstd::prelude::*;
use crate::job::Job;
use crate::result::{JobResult, JobStatus};
use crate::worker::{MessageEvent, McaiChannel, Feedback};
use crate::message_exchange::{
    LocalExchange, OrderMessage, ResponseMessage, terminals, terminal_matches, is_terminal,
    lemma_terminals_push,
};
use crate::MessageError;

verus! {

/// Job ids of the orders the processor accepts for execution, in FIFO
/// order, up to the first `StopWorker`.
pub open spec fn job_ids_until_stop(orders: Seq<OrderMessage>) -> Seq<int>
    decreases orders.len(),
{
    if orders.len() == 0 {
        Seq::empty()
    } else {
        match orders[0] {
            OrderMessage::StopWorker => Seq::empty(),
            OrderMessage::Job(j) => seq![j@.job_id] + job_ids_until_stop(orders.skip(1)),
            OrderMessage::InitProcess(j) => seq![j@.job_id] + job_ids_until_stop(orders.skip(1)),
            OrderMessage::StartProcess(j) => seq![j@.job_id] + job_ids_until_stop(
                orders.skip(1),
            ),
            _ => job_ids_until_stop(orders.skip(1)),
        }
    }
}

/// The orders the loop leaves untouched: whatever follows the first
/// `StopWorker`.
pub open spec fn rest_after_stop(orders: Seq<OrderMessage>) -> Seq<OrderMessage>
    decreases orders.len(),
{
    if orders.len() == 0 {
        Seq::empty()
    } else {
        match orders[0] {
            OrderMessage::StopWorker => orders.skip(1),
            _ => rest_after_stop(orders.skip(1)),
        }
    }
}

/// A `StopProcess` order for this job is pending in the queue.
pub open spec fn pending_stop(orders: Seq<OrderMessage>, job_id: int) -> bool {
    exists|k: int|
        0 <= k < orders.len() && match #[trigger] orders[k] {
            OrderMessage::StopProcess(j) => j@.job_id == job_id,
            _ => false,
        }
}

/// Does the queue hold a `StopProcess` order for this job? This is how a
/// cancellation sent before completion reaches the worker: the flag is
/// computed when the job starts and handed to it as `should_stop`.
fn scan_stop(orders: &Vec<OrderMessage>, job_id: u64) -> (r: bool)
    ensures
        r == pending_stop(orders@, job_id as int),
{
    let mut k: usize = 0;
    while k < orders.len()
        invariant
            k <= orders@.len(),
            forall|t: int|
                0 <= t < k ==> !match #[trigger] orders@[t] {
                    OrderMessage::StopProcess(j) => j@.job_id == job_id as int,
                    _ => false,
                },
        decreases orders@.len() - k,
    {
        match &orders[k] {
            OrderMessage::StopProcess(j) => {
                if j.job_id == job_id {
                    proof {
                        assert(match orders@[k as int] {
                            OrderMessage::StopProcess(j) => j@.job_id == job_id as int,
                            _ => false,
                        });
                    }
                    return true;
                }
            },
            _ => {
            },
        }
        k += 1;
    }
    false
}

/// A copy of a job result sealed with the job's own id and the given
/// status.
fn seal_result(jr: JobResult, job_id: u64, status: JobStatus) -> (r: JobResult)
    ensures
        r@.job_id == job_id as int,
        r@.status == status,
        r@.parameters == jr@.parameters,
{
    JobResult { job_id, status, parameters: jr.parameters }
}

/// Runs the bound worker on one job: emits its queued feedback, then
/// exactly one terminal response sealed with the job's own id.
fn run_job<W: MessageEvent>(
    worker: &mut W,
    exchange: &mut LocalExchange,
    job: &Job,
    should_stop: bool,
)
    ensures
        final(exchange).orders@ == old(exchange).orders@,
        final(exchange).responses@.len() > old(exchange).responses@.len(),
        final(exchange).responses@.take(old(exchange).responses@.len() as int) == old(
            exchange,
        ).responses@,
        ({
            let fresh = final(exchange).responses@.skip(old(exchange).responses@.len() as int);
            terminals(fresh).len() == 1 && terminal_matches(terminals(fresh)[0], job@.job_id)
        }),
{
    let ghost base = exchange.responses@;
    let jr = JobResult::new(job.job_id);
    let mut channel = McaiChannel::new(should_stop);
    let outcome = worker.process(&mut channel, job, jr);
    let mut fbs = channel.feedback;
    proof {
        assert(exchange.responses@.skip(base.len() as int) =~= Seq::<ResponseMessage>::empty());
        assert(terminals(exchange.responses@.skip(base.len() as int)) =~= Seq::<
            ResponseMessage,
        >::empty());
        assert(exchange.responses@.take(base.len() as int) =~= base);
    }
    while fbs.len() > 0
        invariant
            exchange.orders@ == old(exchange).orders@,
            exchange.responses@.len() >= base.len(),
            exchange.responses@.take(base.len() as int) == base,
            terminals(exchange.responses@.skip(base.len() as int)) =~= Seq::<
                ResponseMessage,
            >::empty(),
        decreases fbs@.len(),
    {
        let fb = fbs.remove(0);
        let ghost pre = exchange.responses@;
        exchange.send_response(ResponseMessage::Feedback(fb));
        proof {
            lemma_terminals_push(pre.skip(base.len() as int), ResponseMessage::Feedback(fb));
            assert(exchange.responses@.skip(base.len() as int) =~= pre.skip(
                base.len() as int,
            ).push(ResponseMessage::Feedback(fb)));
            assert(exchange.responses@.take(base.len() as int) =~= base);
        }
    }
    let terminal = match outcome {
        Result::Ok(jr2) => ResponseMessage::Completed(
            seal_result(jr2, job.job_id, JobStatus::Completed),
        ),
        Result::Err(MessageError::ProcessingError(jr2)) => ResponseMessage::Error(
            MessageError::ProcessingError(seal_result(jr2, job.job_id, JobStatus::Error)),
        ),
        Result::Err(e) => ResponseMessage::Error(e),
    };
    let ghost pre = exchange.responses@;
    proof {
        assert(terminal_matches(terminal, job@.job_id));
    }
    exchange.send_response(terminal);
    proof {
        lemma_terminals_push(pre.skip(base.len() as int), terminal);
        assert(exchange.responses@.skip(base.len() as int) =~= pre.skip(base.len() as int).push(
            terminal,
        ));
        assert(terminals(exchange.responses@.skip(base.len() as int)) =~= Seq::<
            ResponseMessage,
        >::empty().push(terminal));
        assert(exchange.responses@.take(base.len() as int) =~= base);
    }
}

/// The single-threaded event loop owning the bound worker.
pub struct Processor {
}

impl Processor {
    /// Drives the worker over the queued orders until the first
    /// `StopWorker` order, or until the queue is empty.
    ///
    /// Orders are consumed strictly FIFO, and for every accepted job —
    /// each `Job`, `InitProcess` or `StartProcess` order before the first
    /// `StopWorker` — exactly one terminal response is emitted, in the
    /// same order, before the next order is touched; where the terminal
    /// response's kind carries a job id, it is that job's id. `Status`
    /// orders yield non-terminal feedback; a `StopProcess` for a job that
    /// is not running is a no-op.
    pub fn run<W: MessageEvent>(worker: &mut W, exchange: &mut LocalExchange) -> (r: Result<
        (),
        MessageError,
    >)
        ensures
            match r {
                Result::Err(_) => final(exchange).orders@ == old(exchange).orders@
                    && final(exchange).responses@ == old(exchange).responses@,
                Result::Ok(_) => {
                    &&& final(exchange).orders@ == rest_after_stop(old(exchange).orders@)
                    &&& final(exchange).responses@.len() >= old(exchange).responses@.len()
                    &&& final(exchange).responses@.take(old(exchange).responses@.len() as int)
                        == old(exchange).responses@
                    &&& ({
                        let fresh = final(exchange).responses@.skip(
                            old(exchange).responses@.len() as int,
                        );
                        let ids = job_ids_until_stop(old(exchange).orders@);
                        &&& terminals(fresh).len() == ids.len()
                        &&& forall|k: int|
                            0 <= k < ids.len() ==> terminal_matches(
                                #[trigger] terminals(fresh)[k],
                                ids[k],
                            )
                    })
                },
            },
    {
        match worker.init() {
            Result::Ok(()) => {
            },
            Result::Err(e) => {
                return Result::Err(e);
            },
        }
        let ghost orders0 = exchange.orders@;
        let ghost resp0 = exchange.responses@;
        let ghost done: Seq<int> = Seq::empty();
        let mut done_ids: Ghost<Seq<int>> = Ghost(done);
        proof {
            assert(exchange.responses@.skip(resp0.len() as int) =~= Seq::<
                ResponseMessage,
            >::empty());
            assert(terminals(exchange.responses@.skip(resp0.len() as int)) =~= Seq::<
                ResponseMessage,
            >::empty());
            assert(done + job_ids_until_stop(orders0) =~= job_ids_until_stop(orders0));
            assert(exchange.responses@.take(resp0.len() as int) =~= resp0);
        }
        loop
            invariant
                orders0 == old(exchange).orders@,
                resp0 == old(exchange).responses@,
                exchange.responses@.len() >= resp0.len(),
                exchange.responses@.take(resp0.len() as int) == resp0,
                job_ids_until_stop(orders0) == done_ids@ + job_ids_until_stop(exchange.orders@),
                rest_after_stop(orders0) == rest_after_stop(exchange.orders@),
                terminals(exchange.responses@.skip(resp0.len() as int)).len() == done_ids@.len(),
                forall|k: int|
                    0 <= k < done_ids@.len() ==> terminal_matches(
                        #[trigger] terminals(exchange.responses@.skip(resp0.len() as int))[k],
                        done_ids@[k],
                    ),
            decreases exchange.orders@.len(),
        {
            let ghost cur_orders = exchange.orders@;
            let order = match exchange.next_order() {
                Option::Some(o) => o,
                Option::None => {
                    proof {
                        assert(job_ids_until_stop(cur_orders) =~= Seq::<int>::empty());
                        assert(done_ids@ =~= job_ids_until_stop(orders0));
                        assert(rest_after_stop(cur_orders) =~= Seq::<OrderMessage>::empty());
                        assert(exchange.orders@ =~= Seq::<OrderMessage>::empty());
                    }
                    return Result::Ok(());
                },
            };
            proof {
                assert(cur_orders[0] == order);
                assert(exchange.orders@ == cur_orders.skip(1));
            }
            match order {
                OrderMessage::StopWorker => {
                    let ghost pre = exchange.responses@;
                    exchange.send_response(ResponseMessage::WorkerStopped(0));
                    proof {
                        lemma_terminals_push(
                            pre.skip(resp0.len() as int),
                            ResponseMessage::WorkerStopped(0),
                        );
                        assert(exchange.responses@.skip(resp0.len() as int) =~= pre.skip(
                            resp0.len() as int,
                        ).push(ResponseMessage::WorkerStopped(0)));
                        assert(exchange.responses@.take(resp0.len() as int) =~= resp0);
                        assert(job_ids_until_stop(cur_orders) =~= Seq::<int>::empty());
                        assert(done_ids@ =~= job_ids_until_stop(orders0));
                        assert(rest_after_stop(cur_orders) == cur_orders.skip(1));
                    }
                    return Result::Ok(());
                },
                OrderMessage::Job(j) => {
                    let should_stop = scan_stop(&exchange.orders, j.job_id);
                    let ghost pre_resp = exchange.responses@;
                    run_job(worker, exchange, &j, should_stop);
                    proof {
                        done_ids@ = done_ids@.push(j@.job_id);
                        lemma_terminal_extend(resp0, pre_resp, exchange.responses@, j@.job_id);
                        assert(job_ids_until_stop(cur_orders) =~= seq![j@.job_id]
                            + job_ids_until_stop(cur_orders.skip(1)));
                        assert(done_ids@ + job_ids_until_stop(exchange.orders@)
                            =~= job_ids_until_stop(orders0));
                    }
                },
                OrderMessage::InitProcess(j) => {
                    let ghost pre_resp = exchange.responses@;
                    exchange.send_response(
                        ResponseMessage::Error(MessageError::NotImplemented),
                    );
                    proof {
                        done_ids@ = done_ids@.push(j@.job_id);
                        lemma_terminals_push(
                            pre_resp.skip(resp0.len() as int),
                            ResponseMessage::Error(MessageError::NotImplemented),
                        );
                        assert(exchange.responses@.skip(resp0.len() as int) =~= pre_resp.skip(
                            resp0.len() as int,
                        ).push(ResponseMessage::Error(MessageError::NotImplemented)));
                        assert(exchange.responses@.take(resp0.len() as int) =~= resp0);
                        assert(job_ids_until_stop(cur_orders) =~= seq![j@.job_id]
                            + job_ids_until_stop(cur_orders.skip(1)));
                        assert(done_ids@ + job_ids_until_stop(exchange.orders@)
                            =~= job_ids_until_stop(orders0));
                    }
                },
                OrderMessage::StartProcess(j) => {
                    let ghost pre_resp = exchange.responses@;
                    exchange.send_response(
                        ResponseMessage::Error(MessageError::NotImplemented),
                    );
                    proof {
                        done_ids@ = done_ids@.push(j@.job_id);
                        lemma_terminals_push(
                            pre_resp.skip(resp0.len() as int),
                            ResponseMessage::Error(MessageError::NotImplemented),
                        );
                        assert(exchange.responses@.skip(resp0.len() as int) =~= pre_resp.skip(
                            resp0.len() as int,
                        ).push(ResponseMessage::Error(MessageError::NotImplemented)));
                        assert(exchange.responses@.take(resp0.len() as int) =~= resp0);
                        assert(job_ids_until_stop(cur_orders) =~= seq![j@.job_id]
                            + job_ids_until_stop(cur_orders.skip(1)));
                        assert(done_ids@ + job_ids_until_stop(exchange.orders@)
                            =~= job_ids_until_stop(orders0));
                    }
                },
                OrderMessage::Status => {
                    let name = worker.get_name();
                    let short_description = worker.get_short_description();
                    let description = worker.get_description();
                    let version = worker.get_version();
                    let text = crate::worker::worker_descriptor(
                        name.as_str(),
                        short_description.as_str(),
                        description.as_str(),
                        &version,
                    );
                    let ghost pre_resp = exchange.responses@;
                    exchange.send_response(
                        ResponseMessage::Feedback(Feedback::Status { text }),
                    );
                    proof {
                        lemma_terminals_push(
                            pre_resp.skip(resp0.len() as int),
                            exchange.responses@[exchange.responses@.len() - 1],
                        );
                        assert(exchange.responses@.skip(resp0.len() as int) =~= pre_resp.skip(
                            resp0.len() as int,
                        ).push(exchange.responses@[exchange.responses@.len() - 1]));
                        assert(exchange.responses@.take(resp0.len() as int) =~= resp0);
                    }
                },
                OrderMessage::StopProcess(_) => {
                },
            }
        }
    }
}

/// After `run_job` appended its responses, the terminal subsequence of the
/// fresh region grew by exactly the job's terminal response.
proof fn lemma_terminal_extend(
    resp0: Seq<ResponseMessage>,
    pre: Seq<ResponseMessage>,
    post: Seq<ResponseMessage>,
    job_id: int,
)
    requires
        resp0.len() <= pre.len() <= post.len(),
        pre.take(resp0.len() as int) == resp0,
        post.take(pre.len() as int) == pre,
        terminals(post.skip(pre.len() as int)).len() == 1,
        terminal_matches(terminals(post.skip(pre.len() as int))[0], job_id),
    ensures
        post.take(resp0.len() as int) == resp0,
        terminals(post.skip(resp0.len() as int)) == terminals(pre.skip(resp0.len() as int)).push(
            terminals(post.skip(pre.len() as int))[0],
        ),
    decreases post.len() - pre.len(),
{
    assert(post.take(resp0.len() as int) =~= resp0);
    lemma_terminals_concat(pre.skip(resp0.len() as int), post.skip(pre.len() as int));
    assert(post.skip(resp0.len() as int) =~= pre.skip(resp0.len() as int) + post.skip(
        pre.len() as int,
    ));
    assert(terminals(pre.skip(resp0.len() as int)) + terminals(post.skip(pre.len() as int))
        =~= terminals(pre.skip(resp0.len() as int)).push(
        terminals(post.skip(pre.len() as int))[0],
    ));
}

/// The terminal subsequence distributes over concatenation.
proof fn lemma_terminals_concat(a: Seq<ResponseMessage>, b: Seq<ResponseMessage>)
    ensures
        terminals(a + b) == terminals(a) + terminals(b),
    decreases a.len(),
{
    if a.len() == 0 {
        assert(a + b =~= b);
        assert(terminals(a) =~= Seq::<ResponseMessage>::empty());
        assert(terminals(a) + terminals(b) =~= terminals(b));
    } else {
        assert((a + b)[0] == a[0]);
        assert((a + b).skip(1) =~= a.skip(1) + b);
        lemma_terminals_concat(a.skip(1), b);
        let head: Seq<ResponseMessage> = if is_terminal(a[0]) {
            seq![a[0]]
        } else {
            Seq::empty()
        };
        assert(terminals(a + b) == head + terminals(a.skip(1) + b));
        assert(terminals(a) == head + terminals(a.skip(1)));
        assert(terminals(a + b) =~= (head + terminals(a.skip(1))) + terminals(b));
    }
}

} // verus!
