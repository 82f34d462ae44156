//! The media pipeline driver: stream selection, frame delivery in demuxer
//! order, and the end-of-process marker, one per job whose
//! `init_process` succeeded — cancelled jobs included.
use vstd::prelude::*;
use crate::job::Job;
use crate::result::{JobResult, JobStatus};
use crate::MessageError;

verus! {

#[derive(Clone, Copy, Debug, PartialEq, Eq, Structural)]
pub enum CodecKind {
    Video,
    Audio,
}

/// Metadata of one stream of the opened input.
#[derive(Clone, Debug)]
pub struct StreamInfo {
    pub index: usize,
    pub kind: CodecKind,
    pub width: u32,
    pub height: u32,
    pub sample_rate: u32,
}

/// The opened input: its streams, as the demuxer reports them.
#[derive(Clone, Debug)]
pub struct FormatContext {
    pub streams: Vec<StreamInfo>,
}

#[derive(Clone, Debug)]
pub enum VideoFilter {
    Scale { width: u32, height: u32 },
    PixelFormat { format: String },
}

#[derive(Clone, Debug)]
pub enum AudioFilter {
    Resample { rate: u32 },
    SampleFormat { format: String },
    ChannelLayout { layout: String },
}

/// A worker's declaration of one stream it consumes, with its filter
/// graph.
#[derive(Clone, Debug)]
pub enum StreamDescriptor {
    VideoStream { index: usize, filters: Vec<VideoFilter> },
    AudioStream { index: usize, filters: Vec<AudioFilter> },
}

pub open spec fn desc_index(d: StreamDescriptor) -> int {
    match d {
        StreamDescriptor::VideoStream { index, .. } => index as int,
        StreamDescriptor::AudioStream { index, .. } => index as int,
    }
}

/// A decoded, filtered frame, tagged with its stream and presentation
/// timestamp.
#[derive(Clone, Debug)]
pub struct Frame {
    pub stream_index: usize,
    pub pts: i64,
    pub data: Vec<u8>,
}

/// Per-frame outcome from the media worker, and the terminal marker the
/// pipeline sends into the result sink.
#[derive(Clone, Debug, PartialEq)]
pub enum ProcessResult {
    Continue,
    Output(String),
    Stop,
    ProcessError(String),
    EndOfProcess,
}

impl ProcessResult {
    /// The terminal marker: the consumer of the result sink observes it
    /// exactly once per job.
    pub fn end_of_process() -> (r: ProcessResult)
        ensures
            r is EndOfProcess,
    {
        ProcessResult::EndOfProcess
    }
}

/// How many end-of-process markers a sink holds.
pub open spec fn end_count(rs: Seq<ProcessResult>) -> int
    decreases rs.len(),
{
    if rs.len() == 0 {
        0int
    } else {
        (if rs[0] is EndOfProcess {
            1int
        } else {
            0int
        }) + end_count(rs.skip(1))
    }
}

pub proof fn lemma_end_count_push(rs: Seq<ProcessResult>, r: ProcessResult)
    ensures
        end_count(rs.push(r)) == end_count(rs) + (if r is EndOfProcess {
            1int
        } else {
            0int
        }),
    decreases rs.len(),
{
    if rs.len() == 0 {
        assert(rs.push(r)[0] == r);
        assert(rs.push(r).skip(1) =~= Seq::<ProcessResult>::empty());
        assert(end_count(rs.push(r).skip(1)) == 0);
        assert(end_count(rs) == 0);
        assert(end_count(rs.push(r)) == (if rs.push(r)[0] is EndOfProcess {
            1int
        } else {
            0int
        }) + end_count(rs.push(r).skip(1)));
    } else {
        assert(rs.push(r)[0] == rs[0]);
        assert(rs.push(r).skip(1) =~= rs.skip(1).push(r));
        lemma_end_count_push(rs.skip(1), r);
        assert(end_count(rs.push(r)) == (if rs[0] is EndOfProcess {
            1int
        } else {
            0int
        }) + end_count(rs.skip(1).push(r)));
        assert(end_count(rs) == (if rs[0] is EndOfProcess {
            1int
        } else {
            0int
        }) + end_count(rs.skip(1)));
    }
}

/// A sink that holds no marker counts zero.
pub proof fn lemma_end_count_none(rs: Seq<ProcessResult>)
    requires
        forall|k: int| 0 <= k < rs.len() ==> !((#[trigger] rs[k]) is EndOfProcess),
    ensures
        end_count(rs) == 0,
    decreases rs.len(),
{
    if rs.len() > 0 {
        assert(forall|k: int| 0 <= k < rs.skip(1).len() ==> rs.skip(1)[k] == rs[k + 1]);
        lemma_end_count_none(rs.skip(1));
    }
}

/// The streaming half of the worker contract: the SDK defines it for its
/// users to implement, and assumes nothing of the callbacks' outcomes.
pub trait MediaWorker: Sized {
    /// Opens the job: picks the streams to consume from the format
    /// context.
    fn init_process(&mut self, job: &Job, format: &FormatContext) -> Result<
        Vec<StreamDescriptor>,
        MessageError,
    >;

    /// Receives one decoded frame of a selected stream.
    fn process_frame(&mut self, job_result: &JobResult, stream_index: usize, frame: &Frame)
        -> Result<ProcessResult, MessageError>;

    /// Releases resources; called exactly once after the last frame, also
    /// on cancellation.
    fn ending_process(&mut self) -> Result<(), MessageError>;
}

/// The worker selected this stream index.
pub open spec fn selected(descs: Seq<StreamDescriptor>, idx: int) -> bool {
    exists|k: int| 0 <= k < descs.len() && desc_index(#[trigger] descs[k]) == idx
}

fn is_selected(descs: &Vec<StreamDescriptor>, idx: usize) -> (r: bool)
    ensures
        r == selected(descs@, idx as int),
{
    let mut k: usize = 0;
    while k < descs.len()
        invariant
            k <= descs@.len(),
            forall|t: int| 0 <= t < k ==> desc_index(#[trigger] descs@[t]) != idx as int,
        decreases descs@.len() - k,
    {
        let same = match &descs[k] {
            StreamDescriptor::VideoStream { index, .. } => *index == idx,
            StreamDescriptor::AudioStream { index, .. } => *index == idx,
        };
        if same {
            proof {
                assert(desc_index(descs@[k as int]) == idx as int);
            }
            return true;
        }
        k += 1;
    }
    false
}

/// The frames of selected streams, as `(stream_index, pts)`, in demuxer
/// order: the order frames are handed in, which the demuxer keeps in
/// presentation order per stream.
pub open spec fn delivery_log(frames: Seq<Frame>, descs: Seq<StreamDescriptor>) -> Seq<(int, int)>
    decreases frames.len(),
{
    if frames.len() == 0 {
        Seq::empty()
    } else {
        (if selected(descs, frames[0].stream_index as int) {
            seq![(frames[0].stream_index as int, frames[0].pts as int)]
        } else {
            Seq::empty()
        }) + delivery_log(frames.skip(1), descs)
    }
}

/// Why frame delivery ended.
#[derive(Clone, Debug)]
pub enum PipelineEnd {
    Finished,
    Cancelled,
    StoppedByWorker,
    Failed(String),
}

/// Delivers the frames from index `i` on, one `process_frame` call per
/// frame of a selected stream, in order; `Output` payloads go to the
/// sink. Returns why delivery ended and the log of deliveries made.
fn deliver_from<W: MediaWorker>(
    worker: &mut W,
    job_result: &JobResult,
    descs: &Vec<StreamDescriptor>,
    frames: &Vec<Frame>,
    i: usize,
    sink: &mut Vec<ProcessResult>,
) -> (r: (PipelineEnd, Ghost<Seq<(int, int)>>))
    requires
        i <= frames@.len(),
    ensures
        final(sink)@.len() >= old(sink)@.len(),
        final(sink)@.take(old(sink)@.len() as int) == old(sink)@,
        forall|k: int|
            old(sink)@.len() <= k < final(sink)@.len() ==> (#[trigger] final(sink)@[k]) is Output,
        !(r.0 is Cancelled),
        r.0 is Finished ==> r.1@ == delivery_log(frames@.skip(i as int), descs@),
        r.1@.is_prefix_of(delivery_log(frames@.skip(i as int), descs@)),
    decreases frames@.len() - i,
{
    if i >= frames.len() {
        proof {
            assert(final(sink)@.take(old(sink)@.len() as int) =~= old(sink)@);
            assert(frames@.skip(i as int) =~= Seq::<Frame>::empty());
            assert(Seq::<(int, int)>::empty().is_prefix_of(Seq::<(int, int)>::empty()));
        }
        return (PipelineEnd::Finished, Ghost(Seq::empty()));
    }
    let frame = &frames[i];
    let ghost tail = frames@.skip(i as int);
    proof {
        assert(tail[0] == frames@[i as int]);
        assert(tail.skip(1) =~= frames@.skip(i as int + 1));
    }
    if !is_selected(descs, frame.stream_index) {
        let r = deliver_from(worker, job_result, descs, frames, i + 1, sink);
        proof {
            assert(delivery_log(tail, descs@) =~= delivery_log(
                frames@.skip(i as int + 1),
                descs@,
            ));
        }
        return r;
    }
    let ghost step: Seq<(int, int)> = seq![
        (frame.stream_index as int, frame.pts as int),
    ];
    proof {
        assert(delivery_log(tail, descs@) =~= step + delivery_log(
            frames@.skip(i as int + 1),
            descs@,
        ));
    }
    let outcome = worker.process_frame(job_result, frame.stream_index, frame);
    match outcome {
        Result::Ok(ProcessResult::Continue) => {
            let r = deliver_from(worker, job_result, descs, frames, i + 1, sink);
            proof {
                assert(sink@.take(old(sink)@.len() as int) =~= old(sink)@);
                assert forall|k: int|
                    old(sink)@.len() <= k < sink@.len() implies (#[trigger] sink@[k]) is Output by {
                }
                assert((step + r.1@).is_prefix_of(delivery_log(tail, descs@)));
                if r.0 is Finished {
                    assert(step + r.1@ =~= delivery_log(tail, descs@));
                }
            }
            (r.0, Ghost(step + r.1@))
        },
        Result::Ok(ProcessResult::Output(payload)) => {
            let ghost pre = sink@;
            sink.push(ProcessResult::Output(payload));
            let r = deliver_from(worker, job_result, descs, frames, i + 1, sink);
            proof {
                assert(sink@.take(pre.len() as int + 1)[pre.len() as int] is Output);
                assert(sink@.take(old(sink)@.len() as int) =~= old(sink)@);
                assert forall|k: int|
                    old(sink)@.len() <= k < sink@.len() implies (#[trigger] sink@[k]) is Output by {
                    if k > pre.len() {
                    } else {
                        assert(sink@[k] == sink@.take(pre.len() as int + 1)[k]);
                    }
                }
                assert((step + r.1@).is_prefix_of(delivery_log(tail, descs@)));
                if r.0 is Finished {
                    assert(step + r.1@ =~= delivery_log(tail, descs@));
                }
            }
            (r.0, Ghost(step + r.1@))
        },
        Result::Ok(ProcessResult::Stop) => {
            proof {
                assert(final(sink)@.take(old(sink)@.len() as int) =~= old(sink)@);
                assert(step.is_prefix_of(delivery_log(tail, descs@)));
            }
            (PipelineEnd::StoppedByWorker, Ghost(step))
        },
        Result::Ok(ProcessResult::EndOfProcess) => {
            proof {
                assert(final(sink)@.take(old(sink)@.len() as int) =~= old(sink)@);
                assert(step.is_prefix_of(delivery_log(tail, descs@)));
            }
            (PipelineEnd::StoppedByWorker, Ghost(step))
        },
        Result::Ok(ProcessResult::ProcessError(m)) => {
            proof {
                assert(final(sink)@.take(old(sink)@.len() as int) =~= old(sink)@);
                assert(step.is_prefix_of(delivery_log(tail, descs@)));
            }
            (PipelineEnd::Failed(m), Ghost(step))
        },
        Result::Err(_) => {
            proof {
                assert(final(sink)@.take(old(sink)@.len() as int) =~= old(sink)@);
                assert(step.is_prefix_of(delivery_log(tail, descs@)));
            }
            (
                PipelineEnd::Failed(String::from_str("frame processing failed")),
                Ghost(step),
            )
        },
    }
}

/// A worker error sealed with the job it belongs to: a `ProcessingError`
/// from a callback carries the partial result restamped with this job's
/// id and an error status; other kinds pass through unchanged.
fn seal_error(e: MessageError, job_id: u64) -> (r: MessageError)
    ensures
        match r {
            MessageError::ProcessingError(jr) => jr@.job_id == job_id as int && jr@.status
                == JobStatus::Error,
            _ => true,
        },
{
    match e {
        MessageError::ProcessingError(jr) => MessageError::ProcessingError(
            JobResult { job_id, status: JobStatus::Error, parameters: jr.parameters },
        ),
        other => other,
    }
}

/// Ghost record of one pipeline run: the streams the worker selected,
/// the `(stream_index, pts)` log of frames delivered to `process_frame`
/// in order, and whether delivery reached the last frame.
pub struct MediaRunLog {
    pub descriptors: Seq<StreamDescriptor>,
    pub deliveries: Seq<(int, int)>,
    pub ran_to_end: bool,
}

/// Drives one media job: `init_process`, one `process_frame` call per
/// frame of a selected stream in demuxer order, `ending_process` exactly
/// once, then exactly one end-of-process marker into the sink.
///
/// The sink is empty exactly when `init_process` failed: a job whose
/// resource acquisition never completed sees neither `ending_process` nor
/// a marker. A cancelled job (`should_stop`) skips the frames but still
/// gets `ending_process` and the marker. The ghost log records which
/// frames were handed to the worker: always a prefix, in order, of the
/// selected-stream frames, and all of them when delivery ran to the end.
pub fn run_media_process<W: MediaWorker>(
    worker: &mut W,
    job: &Job,
    format: &FormatContext,
    frames: &Vec<Frame>,
    should_stop: bool,
) -> (r: (Vec<ProcessResult>, Result<JobResult, MessageError>, Ghost<MediaRunLog>))
    ensures
        r.0@.len() > 0 ==> {
            &&& end_count(r.0@) == 1
            &&& r.0@[r.0@.len() - 1] is EndOfProcess
            &&& forall|k: int| 0 <= k < r.0@.len() - 1 ==> (#[trigger] r.0@[k]) is Output
        },
        r.0@.len() == 0 ==> r.1 is Err,
        r.1 is Ok ==> r.0@.len() > 0,
        match r.1 {
            Result::Ok(jr) => {
                &&& jr@.job_id == job@.job_id
                &&& jr@.status == JobStatus::Completed
                &&& jr@.parameters == Seq::<crate::job::ParamView>::empty()
            },
            Result::Err(MessageError::ProcessingError(jr)) => jr@.job_id == job@.job_id
                && jr@.status == JobStatus::Error,
            Result::Err(_) => true,
        },
        r.2@.deliveries.is_prefix_of(delivery_log(frames@, r.2@.descriptors)),
        r.2@.ran_to_end ==> r.2@.deliveries == delivery_log(frames@, r.2@.descriptors),
        should_stop ==> r.2@.deliveries == Seq::<(int, int)>::empty(),
{
    let descs = match worker.init_process(job, format) {
        Result::Ok(d) => d,
        Result::Err(e) => {
            proof {
                assert(Seq::<(int, int)>::empty().is_prefix_of(delivery_log(
                    frames@,
                    Seq::<StreamDescriptor>::empty(),
                )));
            }
            return (
                Vec::new(),
                Result::Err(seal_error(e, job.job_id)),
                Ghost(
                    MediaRunLog {
                        descriptors: Seq::empty(),
                        deliveries: Seq::empty(),
                        ran_to_end: false,
                    },
                ),
            );
        },
    };
    let job_result = JobResult::new(job.job_id);
    let mut sink: Vec<ProcessResult> = Vec::new();
    let ghost mut deliveries: Seq<(int, int)> = Seq::empty();
    let ghost mut ran_to_end: bool = false;
    let end: PipelineEnd = if should_stop {
        proof {
            assert(Seq::<(int, int)>::empty().is_prefix_of(delivery_log(frames@, descs@)));
        }
        PipelineEnd::Cancelled
    } else {
        let (end, log) = deliver_from(worker, &job_result, &descs, frames, 0, &mut sink);
        proof {
            deliveries = log@;
            ran_to_end = end is Finished;
            assert(frames@.skip(0) =~= frames@);
        }
        end
    };
    let ending = worker.ending_process();
    proof {
        lemma_end_count_none(sink@);
    }
    let ghost pre = sink@;
    sink.push(ProcessResult::end_of_process());
    proof {
        lemma_end_count_push(pre, ProcessResult::EndOfProcess);
        assert(sink@[sink@.len() - 1] is EndOfProcess);
        assert(forall|k: int| 0 <= k < pre.len() ==> sink@[k] == #[trigger] pre[k]);
    }
    let outcome: Result<JobResult, MessageError> = match (end, ending) {
        (PipelineEnd::Failed(m), _) => {
            let jr = JobResult::new(job.job_id).with_status(JobStatus::Error).with_message(m);
            Result::Err(MessageError::ProcessingError(jr))
        },
        (_, Result::Err(e)) => Result::Err(seal_error(e, job.job_id)),
        (_, Result::Ok(())) => Result::Ok(
            JobResult::new(job.job_id).with_status(JobStatus::Completed),
        ),
    };
    (
        sink,
        outcome,
        Ghost(MediaRunLog { descriptors: descs@, deliveries, ran_to_end }),
    )
}

} // verus!
