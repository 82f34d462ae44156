//! Core of a message-driven worker SDK: a job model with typed parameters,
//! a closed error taxonomy, a JSON envelope codec, an order/response
//! exchange, the processor event loop, and a media pipeline driver.
use vstd::prelude::*;

pub mod codec;
pub mod job;
pub mod laws;
pub mod media;
pub mod message;
pub mod processor;
pub mod message_exchange;
pub mod worker;
pub mod result;
pub mod ser;
pub mod text;
pub mod ttml;

verus! {

/// The closed error taxonomy of the SDK.
///
/// - `RuntimeError`: malformed input or an unexpected internal failure.
/// - `RequirementsError`: declared prerequisites unmet; the job is rejected
///   without requeue.
/// - `NotImplemented`: the worker refuses a capability; the order is requeued.
/// - `ProcessingError`: user code returned failure; carries the partial
///   job result with `status == Error`.
#[derive(Clone, Debug, PartialEq)]
pub enum MessageError {
    RuntimeError(String),
    RequirementsError(String),
    NotImplemented,
    ProcessingError(crate::result::JobResult),
}

} // verus!
