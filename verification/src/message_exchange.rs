//! The order/response channel pair between a supervising caller and the
//! processor: an in-process FIFO exchange.
use vstd::prelude::*;
use crate::job::Job;
use crate::result::JobResult;
use crate::worker::Feedback;
use crate::MessageError;

verus! {

/// A message from the bus asking the processor to do something.
#[derive(Clone, Debug, PartialEq)]
pub enum OrderMessage {
    Job(Job),
    InitProcess(Job),
    StartProcess(Job),
    StopProcess(Job),
    Status,
    StopWorker,
}

/// A message from the processor reporting outcome or progress.
#[derive(Debug, PartialEq)]
pub enum ResponseMessage {
    Completed(JobResult),
    Error(MessageError),
    Feedback(Feedback),
    WorkerStarted(u64),
    WorkerInitialized(u64),
    WorkerStopped(u64),
}

/// Is this a terminal response: the single sealed outcome of one job?
pub open spec fn is_terminal(r: ResponseMessage) -> bool {
    match r {
        ResponseMessage::Completed(_) => true,
        ResponseMessage::Error(_) => true,
        _ => false,
    }
}

/// The job id a terminal response carries, where its kind carries one.
pub open spec fn response_job_id(r: ResponseMessage) -> Option<int> {
    match r {
        ResponseMessage::Completed(jr) => Option::Some(jr@.job_id),
        ResponseMessage::Error(MessageError::ProcessingError(jr)) => Option::Some(jr@.job_id),
        _ => Option::None,
    }
}

/// A terminal response belongs to the job with this id: its kind is
/// terminal, and where it carries a job id, that id matches.
pub open spec fn terminal_matches(r: ResponseMessage, job_id: int) -> bool {
    is_terminal(r) && match response_job_id(r) {
        Option::Some(j) => j == job_id,
        Option::None => true,
    }
}

/// The subsequence of terminal responses, in order.
pub open spec fn terminals(rs: Seq<ResponseMessage>) -> Seq<ResponseMessage>
    decreases rs.len(),
{
    if rs.len() == 0 {
        Seq::empty()
    } else {
        (if is_terminal(rs[0]) {
            seq![rs[0]]
        } else {
            Seq::empty()
        }) + terminals(rs.skip(1))
    }
}

/// Appending one response extends the terminal subsequence by that
/// response exactly when it is terminal.
pub proof fn lemma_terminals_push(rs: Seq<ResponseMessage>, r: ResponseMessage)
    ensures
        terminals(rs.push(r)) == if is_terminal(r) {
            terminals(rs).push(r)
        } else {
            terminals(rs)
        },
    decreases rs.len(),
{
    if rs.len() == 0 {
        assert(rs.push(r)[0] == r);
        assert(rs.push(r).skip(1) =~= Seq::<ResponseMessage>::empty());
        assert(terminals(rs.push(r).skip(1)) =~= Seq::<ResponseMessage>::empty());
        assert(terminals(rs) =~= Seq::<ResponseMessage>::empty());
        if is_terminal(r) {
            assert(terminals(rs.push(r)) =~= terminals(rs).push(r));
        } else {
            assert(terminals(rs.push(r)) =~= terminals(rs));
        }
    } else {
        let head: Seq<ResponseMessage> = if is_terminal(rs[0]) {
            seq![rs[0]]
        } else {
            Seq::empty()
        };
        assert(rs.push(r)[0] == rs[0]);
        assert(rs.push(r).skip(1) =~= rs.skip(1).push(r));
        lemma_terminals_push(rs.skip(1), r);
        assert(terminals(rs.push(r)) == head + terminals(rs.skip(1).push(r)));
        assert(terminals(rs) == head + terminals(rs.skip(1)));
        if is_terminal(r) {
            assert(terminals(rs.push(r)) =~= (head + terminals(rs.skip(1))).push(r));
        } else {
            assert(terminals(rs.push(r)) =~= head + terminals(rs.skip(1)));
        }
    }
}

/// The in-process exchange: two FIFO queues. `send_order` feeds the
/// processor; `send_response` feeds the supervising caller.
pub struct LocalExchange {
    pub orders: Vec<OrderMessage>,
    pub responses: Vec<ResponseMessage>,
}

impl LocalExchange {
    pub fn new() -> (r: LocalExchange)
        ensures
            r.orders@ =~= Seq::<OrderMessage>::empty(),
            r.responses@ =~= Seq::<ResponseMessage>::empty(),
    {
        LocalExchange { orders: Vec::new(), responses: Vec::new() }
    }

    /// Enqueues an order for the processor; FIFO.
    pub fn send_order(&mut self, order: OrderMessage)
        ensures
            final(self).orders@ == old(self).orders@.push(order),
            final(self).responses@ == old(self).responses@,
    {
        self.orders.push(order);
    }

    /// The next order, in arrival order; `None` when the queue is empty.
    pub fn next_order(&mut self) -> (r: Option<OrderMessage>)
        ensures
            final(self).responses@ == old(self).responses@,
            match r {
                Option::Some(o) => old(self).orders@.len() > 0 && o == old(self).orders@[0]
                    && final(self).orders@ == old(self).orders@.skip(1),
                Option::None => old(self).orders@.len() == 0 && final(self).orders@ == old(
                    self,
                ).orders@,
            },
    {
        if self.orders.len() == 0 {
            Option::None
        } else {
            let o = self.orders.remove(0);
            proof {
                assert(self.orders@ =~= old(self).orders@.skip(1));
            }
            Option::Some(o)
        }
    }

    /// Emits a response to the supervising caller; FIFO.
    pub fn send_response(&mut self, response: ResponseMessage)
        ensures
            final(self).orders@ == old(self).orders@,
            final(self).responses@ == old(self).responses@.push(response),
    {
        self.responses.push(response);
    }

    /// The next response, in emission order; `None` when the queue is
    /// empty.
    pub fn next_response(&mut self) -> (r: Option<ResponseMessage>)
        ensures
            final(self).orders@ == old(self).orders@,
            match r {
                Option::Some(o) => old(self).responses@.len() > 0 && o == old(
                    self,
                ).responses@[0] && final(self).responses@ == old(self).responses@.skip(1),
                Option::None => old(self).responses@.len() == 0 && final(self).responses@ == old(
                    self,
                ).responses@,
            },
    {
        if self.responses.len() == 0 {
            Option::None
        } else {
            let r = self.responses.remove(0);
            proof {
                assert(self.responses@ =~= old(self).responses@.skip(1));
            }
            Option::Some(r)
        }
    }
}

} // verus!
