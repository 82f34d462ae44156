use mcai_worker_sdk::job::Job;
use mcai_worker_sdk::message::{
    delivery_outcome, exceeds_death_count, process_delivery, process_message, response_action,
    DeliveryOutcome, PublishAction, QueueTarget, DEFAULT_DEATH_LIMIT,
};
use mcai_worker_sdk::result::{JobResult, JobStatus};
use mcai_worker_sdk::worker::{McaiChannel, MessageEvent, Version};
use mcai_worker_sdk::MessageError;

#[test]
fn test_matrix_completed_goes_to_completed_queue() {
    let job_result = JobResult::new(1).with_status(JobStatus::Completed);
    match response_action(Ok(job_result)) {
        PublishAction::Publish { queue, body } => {
            assert_eq!(queue, QueueTarget::CompletedQueue);
            assert_eq!(body, r#"{"job_id":1,"status":"completed","parameters":[]}"#);
        }
        other => panic!("expected a publish action, got {:?}", other),
    }
}

#[test]
fn test_matrix_processing_error_goes_to_error_queue() {
    let job_result = JobResult::new(2).with_status(JobStatus::Error);
    match response_action(Err(MessageError::ProcessingError(job_result))) {
        PublishAction::Publish { queue, body } => {
            assert_eq!(queue, QueueTarget::ErrorQueue);
            assert_eq!(body, r#"{"job_id":2,"status":"error","parameters":[]}"#);
        }
        other => panic!("expected a publish action, got {:?}", other),
    }
}

#[test]
fn test_matrix_runtime_error_publishes_terse_body() {
    match response_action(Err(MessageError::RuntimeError("oops".to_string()))) {
        PublishAction::Publish { queue, body } => {
            assert_eq!(queue, QueueTarget::ErrorQueue);
            assert_eq!(body, r#"{"status":"error","message":"oops"}"#);
        }
        other => panic!("expected a publish action, got {:?}", other),
    }
}

#[test]
fn test_matrix_requirements_error_rejects_without_requeue() {
    let action = response_action(Err(MessageError::RequirementsError("missing".to_string())));
    assert_eq!(action, PublishAction::Reject { requeue: false });
}

#[test]
fn test_matrix_not_implemented_rejects_with_requeue() {
    let action = response_action(Err(MessageError::NotImplemented));
    assert_eq!(action, PublishAction::Reject { requeue: true });
}

#[test]
fn test_delivery_outcome_publish_failure_requeues() {
    let publish = PublishAction::Publish {
        queue: QueueTarget::CompletedQueue,
        body: "{}".to_string(),
    };
    assert_eq!(delivery_outcome(&publish, true), DeliveryOutcome::Ack);
    assert_eq!(
        delivery_outcome(&publish, false),
        DeliveryOutcome::Reject { requeue: true }
    );
    let reject = PublishAction::Reject { requeue: false };
    assert_eq!(
        delivery_outcome(&reject, false),
        DeliveryOutcome::Reject { requeue: false }
    );
}

#[test]
fn test_death_count_check() {
    assert!(!exceeds_death_count(None, DEFAULT_DEATH_LIMIT));
    assert!(!exceeds_death_count(Some(10), DEFAULT_DEATH_LIMIT));
    assert!(exceeds_death_count(Some(11), DEFAULT_DEATH_LIMIT));
}

struct EchoWorker {}

impl MessageEvent for EchoWorker {
    fn get_name(&self) -> String {
        "echo".to_string()
    }

    fn get_short_description(&self) -> String {
        "echo".to_string()
    }

    fn get_description(&self) -> String {
        "returns its job result unchanged".to_string()
    }

    fn get_version(&self) -> Version {
        Version::new(1, 0, 0)
    }

    fn init(&mut self) -> Result<(), MessageError> {
        Ok(())
    }

    fn process(
        &mut self,
        _channel: &mut McaiChannel,
        _job: &Job,
        job_result: JobResult,
    ) -> Result<JobResult, MessageError> {
        Ok(job_result)
    }
}

#[test]
fn test_process_message_completed() {
    let mut worker = EchoWorker {};
    let action = process_message(&mut worker, r#"{"job_id": 31, "parameters": []}"#);
    match action {
        PublishAction::Publish { queue, body } => {
            assert_eq!(queue, QueueTarget::CompletedQueue);
            assert_eq!(body, r#"{"job_id":31,"status":"completed","parameters":[]}"#);
        }
        other => panic!("expected a publish action, got {:?}", other),
    }
}

#[test]
fn test_process_message_malformed_publishes_error() {
    let mut worker = EchoWorker {};
    let action = process_message(&mut worker, "no json at all");
    match action {
        PublishAction::Publish { queue, body } => {
            assert_eq!(queue, QueueTarget::ErrorQueue);
            assert!(body.starts_with(r#"{"status":"error""#));
        }
        other => panic!("expected a publish action, got {:?}", other),
    }
}

#[test]
fn test_process_delivery_death_count_rejects_without_requeue() {
    let mut worker = EchoWorker {};
    let action = process_delivery(
        &mut worker,
        r#"{"job_id": 31, "parameters": []}"#,
        Some(11),
        DEFAULT_DEATH_LIMIT,
    );
    assert_eq!(action, PublishAction::Reject { requeue: false });
}

#[test]
fn test_process_delivery_below_limit_processes() {
    let mut worker = EchoWorker {};
    let action = process_delivery(
        &mut worker,
        r#"{"job_id": 31, "parameters": []}"#,
        Some(10),
        DEFAULT_DEATH_LIMIT,
    );
    match action {
        PublishAction::Publish { queue, body } => {
            assert_eq!(queue, QueueTarget::CompletedQueue);
            assert_eq!(body, r#"{"job_id":31,"status":"completed","parameters":[]}"#);
        }
        other => panic!("expected a publish action, got {:?}", other),
    }
}

#[test]
fn test_process_message_missing_required_rejects() {
    let mut worker = EchoWorker {};
    let action = process_message(
        &mut worker,
        r#"{"job_id": 3, "parameters": [{"id":"p","type":"string","required": true}]}"#,
    );
    assert_eq!(action, PublishAction::Reject { requeue: false });
}
