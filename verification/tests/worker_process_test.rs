use mcai_worker_sdk::job::Job;
use mcai_worker_sdk::result::{JobResult, JobStatus};
use mcai_worker_sdk::worker::{McaiChannel, MessageEvent, Version};
use mcai_worker_sdk::MessageError;

/// A worker that copies its `path` parameter to a fixed destination, and
/// fails when the parameter is absent.
struct PathWorker {}

impl MessageEvent for PathWorker {
    fn get_name(&self) -> String {
        "path worker".to_string()
    }

    fn get_short_description(&self) -> String {
        "copies a path".to_string()
    }

    fn get_description(&self) -> String {
        "reads the path parameter and records a destination path".to_string()
    }

    fn get_version(&self) -> Version {
        Version::new(0, 1, 0)
    }

    fn init(&mut self) -> Result<(), MessageError> {
        Ok(())
    }

    fn process(
        &mut self,
        _channel: &mut McaiChannel,
        job: &Job,
        job_result: JobResult,
    ) -> Result<JobResult, MessageError> {
        match job.get_string_parameter("path") {
            Some(_path) => Ok(job_result
                .with_status(JobStatus::Completed)
                .with_destination_paths(vec!["/path/out.mxf".to_string()])),
            None => Err(MessageError::ProcessingError(
                job_result.with_status(JobStatus::Error),
            )),
        }
    }
}

#[test]
fn test_process() {
    let message = r#"{
    "job_id": 123,
    "parameters": [
      {
        "id": "path",
        "type": "string",
        "value": "/path/to/file"
      }
    ]
  }"#;

    let job = Job::new(message).unwrap();
    let job_result = JobResult::new(job.job_id);
    let mut channel = McaiChannel::new(false);

    let result = PathWorker {}.process(&mut channel, &job, job_result);
    assert!(result.is_ok());
    let job_result = result.unwrap();
    assert_eq!(job_result.get_job_id(), 123);
    assert_eq!(job_result.get_status(), JobStatus::Completed);
    assert_eq!(
        job_result.get_destination_paths(),
        vec!["/path/out.mxf".to_string()]
    );
}

#[test]
fn test_failing_process() {
    let message = r#"{
    "job_id": 123,
    "parameters": [
      {
        "id": "not_the_expected_path_parameter",
        "type": "string",
        "value": "value"
      }
    ]
  }"#;

    let job = Job::new(message).unwrap();
    let job_result = JobResult::new(job.job_id);
    let mut channel = McaiChannel::new(false);

    let result = PathWorker {}.process(&mut channel, &job, job_result);
    assert!(result.is_err());
    let _message_error = result.unwrap_err();
}

#[test]
fn test_channel_feedback_and_stop_flag() {
    let mut channel = McaiChannel::new(false);
    assert!(!channel.is_stopped());
    channel.publish_progress(42, 50);
    channel.publish_progress(42, 100);
    assert_eq!(channel.feedback.len(), 2);

    let stopped = McaiChannel::new(true);
    assert!(stopped.is_stopped());
}
