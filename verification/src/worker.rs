//! The worker contract: the polymorphic interface a bound implementation
//! satisfies, and the progress channel handed to it.
use vstd::prelude::*;
use vstd::string::*;
use crate::job::Job;
use crate::result::JobResult;
use crate::MessageError;
use crate::ser::{dec_of, push_u64};

verus! {

/// A semantic version triple.
#[derive(Clone, Copy, Debug, PartialEq, Eq, Structural)]
pub struct Version {
    pub major: u64,
    pub minor: u64,
    pub patch: u64,
}

impl Version {
    pub fn new(major: u64, minor: u64, patch: u64) -> (r: Version)
        ensures
            r == (Version { major, minor, patch }),
    {
        Version { major, minor, patch }
    }

    /// The model of `text`.
    pub open spec fn text_view(&self) -> Seq<char> {
        dec_of(self.major as int) + "."@ + dec_of(self.minor as int) + "."@ + dec_of(
            self.patch as int,
        )
    }

    /// The `major.minor.patch` text of this version.
    pub fn text(&self) -> (r: String)
        ensures
            r@ == self.text_view(),
    {
        let mut out = String::new();
        push_u64(&mut out, self.major);
        out.append(".");
        push_u64(&mut out, self.minor);
        out.append(".");
        push_u64(&mut out, self.patch);
        proof {
            assert(out@ =~= dec_of(self.major as int) + "."@ + dec_of(self.minor as int) + "."@
                + dec_of(self.patch as int));
        }
        out
    }
}

/// The descriptor that answers a status order, exposing the worker's
/// metadata to external tooling. It carries the four textual fields; the
/// parameter schema is left out by decision, since generating a JSON
/// Schema for the worker's typed parameters belongs to an outside
/// schema generator.
pub open spec fn descriptor_json(
    name: Seq<char>,
    short_description: Seq<char>,
    description: Seq<char>,
    version: Seq<char>,
) -> Seq<char> {
    "{\"name\":"@ + crate::ser::ser_string(name) + ",\"short_description\":"@
        + crate::ser::ser_string(short_description) + ",\"description\":"@
        + crate::ser::ser_string(description) + ",\"version\":"@ + crate::ser::ser_string(
        version,
    ) + "}"@
}

/// Serializes a worker descriptor.
pub fn worker_descriptor(
    name: &str,
    short_description: &str,
    description: &str,
    version: &Version,
) -> (r: String)
    ensures
        r@ == descriptor_json(
            name@,
            short_description@,
            description@,
            version.text_view(),
        ),
{
    let mut out = String::new();
    out.append("{\"name\":");
    crate::ser::push_quoted(&mut out, name);
    out.append(",\"short_description\":");
    crate::ser::push_quoted(&mut out, short_description);
    out.append(",\"description\":");
    crate::ser::push_quoted(&mut out, description);
    out.append(",\"version\":");
    let vt = version.text();
    crate::ser::push_quoted(&mut out, vt.as_str());
    out.append("}");
    proof {
        assert(out@ =~= descriptor_json(
            name@,
            short_description@,
            description@,
            version.text_view(),
        ));
    }
    out
}

/// Intermediate, non-terminal information about a running job or the worker.
#[derive(Clone, Debug, PartialEq)]
pub enum Feedback {
    Progress { job_id: u64, progress: u8 },
    Status { text: String },
}

/// The progress-publishing handle handed to a worker while it processes a
/// job: it accumulates feedback and exposes the cooperative stop flag.
pub struct McaiChannel {
    pub feedback: Vec<Feedback>,
    pub should_stop: bool,
}

impl McaiChannel {
    pub fn new(should_stop: bool) -> (r: McaiChannel)
        ensures
            r.feedback@ =~= Seq::<Feedback>::empty(),
            r.should_stop == should_stop,
    {
        McaiChannel { feedback: Vec::new(), should_stop }
    }

    /// Queues a progress report for the job; progress is a percentage.
    pub fn publish_progress(&mut self, job_id: u64, progress: u8)
        requires
            progress <= 100,
        ensures
            final(self).feedback@ == old(self).feedback@.push(
                Feedback::Progress { job_id, progress },
            ),
            final(self).should_stop == old(self).should_stop,
    {
        self.feedback.push(Feedback::Progress { job_id, progress });
    }

    /// The cooperative cancellation flag: a worker that honours it stops
    /// processing soon after it turns true.
    pub fn is_stopped(&self) -> (r: bool)
        ensures
            r == self.should_stop,
    {
        self.should_stop
    }
}

/// The contract a worker implementation satisfies: pure metadata, a
/// one-time `init`, and the monolithic `process` callback. The SDK defines
/// this trait for its users to implement; nothing is assumed of `process`
/// beyond its signature, and the processor seals whatever it returns.
pub trait MessageEvent: Sized {
    fn get_name(&self) -> String;

    fn get_short_description(&self) -> String;

    fn get_description(&self) -> String;

    fn get_version(&self) -> Version;

    /// Called once before the first job; a failure is a `RuntimeError`.
    fn init(&mut self) -> Result<(), MessageError>;

    /// Processes one job and returns the sealed result or an error.
    fn process(&mut self, channel: &mut McaiChannel, job: &Job, job_result: JobResult) -> Result<
        JobResult,
        MessageError,
    >;
}

} // verus!
