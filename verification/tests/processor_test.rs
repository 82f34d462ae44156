use mcai_worker_sdk::job::Job;
use mcai_worker_sdk::message_exchange::{LocalExchange, OrderMessage, ResponseMessage};
use mcai_worker_sdk::processor::Processor;
use mcai_worker_sdk::result::{JobResult, JobStatus};
use mcai_worker_sdk::worker::{McaiChannel, MessageEvent, Version};
use mcai_worker_sdk::MessageError;

struct Worker {
    saw_stop: bool,
}

impl MessageEvent for Worker {
    fn get_name(&self) -> String {
        "Test Worker".to_string()
    }

    fn get_short_description(&self) -> String {
        "The Worker defined in unit tests".to_string()
    }

    fn get_description(&self) -> String {
        "Mock a Worker to realise tests around SDK".to_string()
    }

    fn get_version(&self) -> Version {
        Version::new(1, 2, 3)
    }

    fn init(&mut self) -> Result<(), MessageError> {
        Ok(())
    }

    fn process(
        &mut self,
        channel: &mut McaiChannel,
        _job: &Job,
        job_result: JobResult,
    ) -> Result<JobResult, MessageError> {
        println!("NEW JOB");
        if channel.is_stopped() {
            self.saw_stop = true;
        }
        Ok(job_result)
    }
}

#[test]
fn processor() {
    let mut local_exchange = LocalExchange::new();

    let job = Job::new(r#"{ "job_id": 666, "parameters": [] }"#).unwrap();
    local_exchange.send_order(OrderMessage::Job(job));
    local_exchange.send_order(OrderMessage::StopWorker);

    let mut worker = Worker { saw_stop: false };
    assert!(Processor::run(&mut worker, &mut local_exchange).is_ok());

    let response = local_exchange.next_response().unwrap();
    match response {
        ResponseMessage::Completed(job_result) => {
            assert_eq!(job_result.get_job_id(), 666);
            assert_eq!(job_result.get_status(), JobStatus::Completed);
        }
        other => panic!("expected a completed response, got {:?}", other),
    }
}

#[test]
fn processor_fifo_two_jobs() {
    let mut exchange = LocalExchange::new();
    let job_a = Job::new(r#"{ "job_id": 1, "parameters": [] }"#).unwrap();
    let job_b = Job::new(r#"{ "job_id": 2, "parameters": [] }"#).unwrap();
    exchange.send_order(OrderMessage::Job(job_a));
    exchange.send_order(OrderMessage::Job(job_b));
    exchange.send_order(OrderMessage::StopWorker);

    let mut worker = Worker { saw_stop: false };
    assert!(Processor::run(&mut worker, &mut exchange).is_ok());

    let first = exchange.next_response().unwrap();
    match first {
        ResponseMessage::Completed(jr) => assert_eq!(jr.get_job_id(), 1),
        other => panic!("expected the first job's response first, got {:?}", other),
    }
    let second = exchange.next_response().unwrap();
    match second {
        ResponseMessage::Completed(jr) => assert_eq!(jr.get_job_id(), 2),
        other => panic!("expected the second job's response next, got {:?}", other),
    }
}

#[test]
fn processor_cancellation_sets_should_stop() {
    let mut exchange = LocalExchange::new();
    let job = Job::new(r#"{ "job_id": 7, "parameters": [] }"#).unwrap();
    let stop_target = Job::new(r#"{ "job_id": 7, "parameters": [] }"#).unwrap();
    exchange.send_order(OrderMessage::Job(job));
    exchange.send_order(OrderMessage::StopProcess(stop_target));
    exchange.send_order(OrderMessage::StopWorker);

    let mut worker = Worker { saw_stop: false };
    assert!(Processor::run(&mut worker, &mut exchange).is_ok());
    assert!(worker.saw_stop);

    let response = exchange.next_response().unwrap();
    assert!(matches!(response, ResponseMessage::Completed(_)));
}

#[test]
fn processor_status_order_yields_feedback() {
    let mut exchange = LocalExchange::new();
    exchange.send_order(OrderMessage::Status);
    exchange.send_order(OrderMessage::StopWorker);

    let mut worker = Worker { saw_stop: false };
    assert!(Processor::run(&mut worker, &mut exchange).is_ok());

    let response = exchange.next_response().unwrap();
    match response {
        ResponseMessage::Feedback(mcai_worker_sdk::worker::Feedback::Status { text }) => {
            let expected = "{\"name\":\"Test Worker\",\"short_description\":\"The Worker defined in unit tests\",\"description\":\"Mock a Worker to realise tests around SDK\",\"version\":\"1.2.3\"}";
            assert_eq!(text, expected);
        }
        other => panic!("expected a status feedback, got {:?}", other),
    }
}

#[test]
fn test_init() {
    let mut worker = Worker { saw_stop: false };
    let result = worker.init();
    assert!(result.is_ok());
}

#[test]
fn test_version_text() {
    assert_eq!(Version::new(1, 2, 3).text(), "1.2.3");
    assert_eq!(Version::new(0, 1, 0).text(), "0.1.0");
}
