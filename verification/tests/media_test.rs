use mcai_worker_sdk::job::Job;
use mcai_worker_sdk::media::{
    run_media_process, CodecKind, FormatContext, Frame, MediaWorker, ProcessResult,
    StreamDescriptor, StreamInfo, VideoFilter,
};
use mcai_worker_sdk::result::JobResult;
use mcai_worker_sdk::MessageError;

struct ScalingWorker {
    frame_calls: Vec<(usize, i64)>,
    ending_calls: usize,
}

impl MediaWorker for ScalingWorker {
    fn init_process(
        &mut self,
        _job: &Job,
        _format: &FormatContext,
    ) -> Result<Vec<StreamDescriptor>, MessageError> {
        Ok(vec![StreamDescriptor::VideoStream {
            index: 0,
            filters: vec![VideoFilter::Scale {
                width: 1280,
                height: 720,
            }],
        }])
    }

    fn process_frame(
        &mut self,
        _job_result: &JobResult,
        stream_index: usize,
        frame: &Frame,
    ) -> Result<ProcessResult, MessageError> {
        self.frame_calls.push((stream_index, frame.pts));
        Ok(ProcessResult::Continue)
    }

    fn ending_process(&mut self) -> Result<(), MessageError> {
        self.ending_calls += 1;
        Ok(())
    }
}

fn test_format() -> FormatContext {
    FormatContext {
        streams: vec![
            StreamInfo {
                index: 0,
                kind: CodecKind::Video,
                width: 1920,
                height: 1080,
                sample_rate: 0,
            },
            StreamInfo {
                index: 1,
                kind: CodecKind::Audio,
                width: 0,
                height: 0,
                sample_rate: 48000,
            },
        ],
    }
}

fn decoded_frames() -> Vec<Frame> {
    (0..5)
        .map(|k| Frame {
            stream_index: 0,
            pts: k as i64,
            data: vec![0u8; 4],
        })
        .collect()
}

#[test]
fn test_media_five_frames_then_single_marker() {
    let job = Job::new(r#"{"job_id": 44, "parameters": []}"#).unwrap();
    let mut worker = ScalingWorker {
        frame_calls: Vec::new(),
        ending_calls: 0,
    };
    let (sink, outcome, _log) = run_media_process(&mut worker, &job, &test_format(), &decoded_frames(), false);

    assert_eq!(worker.frame_calls, vec![(0, 0), (0, 1), (0, 2), (0, 3), (0, 4)]);
    assert_eq!(worker.ending_calls, 1);
    assert!(outcome.is_ok());
    let markers = sink
        .iter()
        .filter(|r| matches!(r, ProcessResult::EndOfProcess))
        .count();
    assert_eq!(markers, 1);
    assert!(matches!(sink.last(), Some(ProcessResult::EndOfProcess)));
}

#[test]
fn test_media_unselected_stream_is_skipped() {
    let job = Job::new(r#"{"job_id": 44, "parameters": []}"#).unwrap();
    let mut frames = decoded_frames();
    frames.insert(
        2,
        Frame {
            stream_index: 1,
            pts: 100,
            data: vec![],
        },
    );
    let mut worker = ScalingWorker {
        frame_calls: Vec::new(),
        ending_calls: 0,
    };
    let (_sink, outcome, _log) = run_media_process(&mut worker, &job, &test_format(), &frames, false);
    assert!(outcome.is_ok());
    assert_eq!(worker.frame_calls, vec![(0, 0), (0, 1), (0, 2), (0, 3), (0, 4)]);
}

#[test]
fn test_media_cancellation_still_marks_end_of_process() {
    let job = Job::new(r#"{"job_id": 45, "parameters": []}"#).unwrap();
    let mut worker = ScalingWorker {
        frame_calls: Vec::new(),
        ending_calls: 0,
    };
    let (sink, outcome, _log) = run_media_process(&mut worker, &job, &test_format(), &decoded_frames(), true);

    assert!(worker.frame_calls.is_empty());
    assert_eq!(worker.ending_calls, 1);
    assert!(outcome.is_ok());
    let markers = sink
        .iter()
        .filter(|r| matches!(r, ProcessResult::EndOfProcess))
        .count();
    assert_eq!(markers, 1);
}

struct FailingInitWorker {}

impl MediaWorker for FailingInitWorker {
    fn init_process(
        &mut self,
        _job: &Job,
        _format: &FormatContext,
    ) -> Result<Vec<StreamDescriptor>, MessageError> {
        Err(MessageError::RuntimeError("cannot open input".to_string()))
    }

    fn process_frame(
        &mut self,
        _job_result: &JobResult,
        _stream_index: usize,
        _frame: &Frame,
    ) -> Result<ProcessResult, MessageError> {
        Ok(ProcessResult::Continue)
    }

    fn ending_process(&mut self) -> Result<(), MessageError> {
        Ok(())
    }
}

#[test]
fn test_media_failed_init_emits_no_marker() {
    let job = Job::new(r#"{"job_id": 46, "parameters": []}"#).unwrap();
    let mut worker = FailingInitWorker {};
    let (sink, outcome, _log) = run_media_process(&mut worker, &job, &test_format(), &decoded_frames(), false);
    assert!(sink.is_empty());
    assert!(outcome.is_err());
}

#[test]
fn test_ending_process() {
    let mut worker = ScalingWorker {
        frame_calls: Vec::new(),
        ending_calls: 0,
    };
    let result = worker.ending_process();
    assert!(result.is_ok());
}

#[test]
fn test_end_of_process_constructor() {
    assert!(matches!(
        ProcessResult::end_of_process(),
        ProcessResult::EndOfProcess
    ));
}
