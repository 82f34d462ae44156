//! From a delivered order message to a broker action: parse, dispatch to
//! the bound worker, and map the outcome through the publishing matrix.
use vstd::prelude::*;
use vstd::string::*;
use crate::job::Job;
use crate::result::{JobResult, JobResultView, JobStatus};
use crate::worker::{MessageEvent, McaiChannel};
use crate::ser::{ser_job_result, runtime_error_body, runtime_error_json};
use crate::codec::{sp_envelope, first_missing, EnvParse};
use crate::MessageError;

verus! {

/// The default bound on broker redeliveries of one message.
pub const DEFAULT_DEATH_LIMIT: u64 = 10;

/// Where a response body is published.
#[derive(Clone, Copy, Debug, PartialEq, Eq, Structural)]
pub enum QueueTarget {
    CompletedQueue,
    ErrorQueue,
}

/// What the exchange does with a delivery: publish a body to a queue and
/// then acknowledge, or reject it outright.
#[derive(Debug, PartialEq)]
pub enum PublishAction {
    Publish { queue: QueueTarget, body: String },
    Reject { requeue: bool },
}

/// What finally happens to the delivery once a publish attempt is made.
#[derive(Clone, Copy, Debug, PartialEq, Eq, Structural)]
pub enum DeliveryOutcome {
    Ack,
    Reject { requeue: bool },
}

/// A message redelivered more than `limit` times is rejected at once,
/// without requeue, to break runaway requeue loops.
pub fn exceeds_death_count(count: Option<u64>, limit: u64) -> (r: bool)
    ensures
        r == match count {
            Option::Some(c) => c > limit,
            Option::None => false,
        },
{
    match count {
        Option::Some(c) => c > limit,
        Option::None => false,
    }
}

/// A copy of a job result with the sealing id and status of the processor:
/// the job's own id, and the given status.
fn seal_result(jr: JobResult, job_id: u64, status: JobStatus) -> (r: JobResult)
    ensures
        r@.job_id == job_id as int,
        r@.status == status,
        r@.parameters == jr@.parameters,
{
    JobResult { job_id, status, parameters: jr.parameters }
}

/// The publishing matrix, as a total function from a job outcome to an
/// exchange action:
/// `Ok` publishes the serialized result to the completed queue;
/// `ProcessingError` publishes the error-status result to the error queue;
/// `RuntimeError` publishes a terse error body to the error queue;
/// `RequirementsError` rejects without requeue;
/// `NotImplemented` rejects with requeue.
pub fn response_action(result: Result<JobResult, MessageError>) -> (r: PublishAction)
    ensures
        match result {
            Result::Ok(jr) => r matches PublishAction::Publish { queue, body } && queue
                == QueueTarget::CompletedQueue && body@ == ser_job_result(jr@),
            Result::Err(MessageError::ProcessingError(jr)) => r matches PublishAction::Publish {
                queue,
                body,
            } && queue == QueueTarget::ErrorQueue && body@ == ser_job_result(
                JobResultView {
                    job_id: jr@.job_id,
                    status: JobStatus::Error,
                    parameters: jr@.parameters,
                },
            ),
            Result::Err(MessageError::RuntimeError(m)) => r matches PublishAction::Publish {
                queue,
                body,
            } && queue == QueueTarget::ErrorQueue && body@ == runtime_error_body(m@),
            Result::Err(MessageError::RequirementsError(_)) => r matches PublishAction::Reject {
                requeue,
            } && !requeue,
            Result::Err(MessageError::NotImplemented) => r matches PublishAction::Reject {
                requeue,
            } && requeue,
        },
{
    match result {
        Result::Ok(jr) => {
            let body = jr.to_json();
            PublishAction::Publish { queue: QueueTarget::CompletedQueue, body }
        },
        Result::Err(MessageError::ProcessingError(jr)) => {
            let job_id = jr.get_job_id();
            let sealed = seal_result(jr, job_id, JobStatus::Error);
            let body = sealed.to_json();
            PublishAction::Publish { queue: QueueTarget::ErrorQueue, body }
        },
        Result::Err(MessageError::RuntimeError(m)) => {
            let body = runtime_error_json(m.as_str());
            PublishAction::Publish { queue: QueueTarget::ErrorQueue, body }
        },
        Result::Err(MessageError::RequirementsError(_)) => PublishAction::Reject {
            requeue: false,
        },
        Result::Err(MessageError::NotImplemented) => PublishAction::Reject { requeue: true },
    }
}

/// What happens to the delivery after the exchange acted: a successful
/// publish is acknowledged, a failed one falls back to reject-with-requeue
/// so the broker redelivers, and a reject action stands as it is.
pub fn delivery_outcome(action: &PublishAction, publish_ok: bool) -> (r: DeliveryOutcome)
    ensures
        match action {
            PublishAction::Publish { .. } => r == if publish_ok {
                DeliveryOutcome::Ack
            } else {
                (DeliveryOutcome::Reject { requeue: true })
            },
            PublishAction::Reject { requeue } => r == (DeliveryOutcome::Reject {
                requeue: *requeue,
            }),
        },
{
    match action {
        PublishAction::Publish { .. } => {
            if publish_ok {
                DeliveryOutcome::Ack
            } else {
                DeliveryOutcome::Reject { requeue: true }
            }
        },
        PublishAction::Reject { requeue } => DeliveryOutcome::Reject { requeue: *requeue },
    }
}

/// Handles one delivered order message: parses the job, runs the bound
/// worker, seals the outcome with the job's own id, and maps it through
/// the publishing matrix. A malformed message publishes a runtime-error
/// body; a missing required parameter rejects without requeue.
///
/// The death-count check belongs in front of this call: see
/// `process_delivery`.
pub fn process_message<W: MessageEvent>(worker: &mut W, message: &str) -> (r: PublishAction)
    ensures
        match sp_envelope(message@) {
            EnvParse::EFail => r matches PublishAction::Publish { queue, body } && queue
                == QueueTarget::ErrorQueue && exists|m: Seq<char>|
                body@ == #[trigger] runtime_error_body(m),
            EnvParse::EOk(jid, ps) => match first_missing(ps) {
                Option::Some(_) => r matches PublishAction::Reject { requeue } && !requeue,
                Option::None => match r {
                    PublishAction::Publish { queue, body } => (queue
                        == QueueTarget::CompletedQueue ==> exists|v: JobResultView|
                        body@ == #[trigger] ser_job_result(v) && v.job_id == jid) && (queue
                        == QueueTarget::ErrorQueue ==> (exists|v: JobResultView|
                        body@ == #[trigger] ser_job_result(v) && v.job_id == jid) || exists|
                            m: Seq<char>,
                        |
                        body@ == #[trigger] runtime_error_body(m)),
                    PublishAction::Reject { .. } => true,
                },
            },
        },
{
    let job = match Job::new(message) {
        Result::Ok(job) => job,
        Result::Err(e) => {
            return response_action(Result::Err(e));
        },
    };
    let job_id = job.job_id;
    let job_result = JobResult::new(job_id);
    let mut channel = McaiChannel::new(false);
    let outcome = worker.process(&mut channel, &job, job_result);
    let sealed: Result<JobResult, MessageError> = match outcome {
        Result::Ok(jr) => Result::Ok(seal_result(jr, job_id, JobStatus::Completed)),
        Result::Err(MessageError::ProcessingError(jr)) => Result::Err(
            MessageError::ProcessingError(seal_result(jr, job_id, JobStatus::Error)),
        ),
        Result::Err(e) => Result::Err(e),
    };
    response_action(sealed)
}

/// Handles one delivery with its redelivery count: a count over the limit
/// is rejected at once without requeue and the worker is never consulted;
/// otherwise the message is handled by `process_message`.
pub fn process_delivery<W: MessageEvent>(
    worker: &mut W,
    message: &str,
    death_count: Option<u64>,
    limit: u64,
) -> (r: PublishAction)
    ensures
        match death_count {
            Option::Some(c) => c > limit ==> (r matches PublishAction::Reject { requeue }
                && !requeue),
            Option::None => true,
        },
        (match death_count {
            Option::Some(c) => c <= limit,
            Option::None => true,
        }) ==> match sp_envelope(message@) {
            EnvParse::EFail => r matches PublishAction::Publish { queue, body } && queue
                == QueueTarget::ErrorQueue && exists|m: Seq<char>|
                body@ == #[trigger] runtime_error_body(m),
            EnvParse::EOk(jid, ps) => match first_missing(ps) {
                Option::Some(_) => r matches PublishAction::Reject { requeue } && !requeue,
                Option::None => match r {
                    PublishAction::Publish { queue, body } => (queue
                        == QueueTarget::CompletedQueue ==> exists|v: JobResultView|
                        body@ == #[trigger] ser_job_result(v) && v.job_id == jid) && (queue
                        == QueueTarget::ErrorQueue ==> (exists|v: JobResultView|
                        body@ == #[trigger] ser_job_result(v) && v.job_id == jid) || exists|
                            m: Seq<char>,
                        |
                        body@ == #[trigger] runtime_error_body(m)),
                    PublishAction::Reject { .. } => true,
                },
            },
        },
{
    if exceeds_death_count(death_count, limit) {
        return PublishAction::Reject { requeue: false };
    }
    process_message(worker, message)
}

} // verus!
