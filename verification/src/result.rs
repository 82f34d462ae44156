//! Job results: the outcome of a job, mutated through builder operations
//! and sealed when the processor emits a response.
use vstd::prelude::*;
use vstd::string::*;
use crate::job::{
    Parameter, ParamView, ParamValue, ValView, ParameterKind, params_view, effective,
    effective_value,
};
use crate::text::{str_eq, extend_strings, strings_view};

verus! {

/// Status of a job result. It moves only forward: `Unknown` at construction,
/// then `Completed` or `Error`, never back.
#[derive(Clone, Copy, Debug, PartialEq, Eq, Structural)]
pub enum JobStatus {
    Unknown,
    Completed,
    Error,
}

/// The outcome of a job: its id, a status, and the output parameters the
/// worker accumulated.
#[derive(Clone, Debug, PartialEq)]
pub struct JobResult {
    pub job_id: u64,
    pub status: JobStatus,
    pub parameters: Vec<Parameter>,
}

/// Mathematical model of a job result.
pub struct JobResultView {
    pub job_id: int,
    pub status: JobStatus,
    pub parameters: Seq<ParamView>,
}

impl View for JobResult {
    type V = JobResultView;

    open spec fn view(&self) -> JobResultView {
        JobResultView {
            job_id: self.job_id as int,
            status: self.status,
            parameters: params_view(self.parameters@),
        }
    }
}

/// Replaces the first parameter with this id, or appends: later wins.
pub open spec fn upsert(params: Seq<ParamView>, n: ParamView) -> Seq<ParamView>
    decreases params.len(),
{
    if params.len() == 0 {
        seq![n]
    } else if params[0].id == n.id {
        seq![n] + params.skip(1)
    } else {
        seq![params[0]] + upsert(params.skip(1), n)
    }
}

/// Merge by id, later wins, applied left to right.
pub open spec fn merge_params(params: Seq<ParamView>, news: Seq<ParamView>) -> Seq<ParamView>
    decreases news.len(),
{
    if news.len() == 0 {
        params
    } else {
        merge_params(upsert(params, news[0]), news.skip(1))
    }
}

proof fn lemma_upsert_found(params: Seq<ParamView>, n: ParamView, i: int)
    requires
        0 <= i < params.len(),
        params[i].id == n.id,
        forall|j: int| 0 <= j < i ==> params[j].id != n.id,
    ensures
        upsert(params, n) =~= params.update(i, n),
    decreases i,
{
    if i == 0 {
    } else {
        assert(params[0].id != n.id);
        assert(params.skip(1)[i - 1].id == n.id);
        assert(forall|j: int| 0 <= j < i - 1 ==> params.skip(1)[j] == params[j + 1]);
        lemma_upsert_found(params.skip(1), n, i - 1);
        assert(params.skip(1).update(i - 1, n) =~= params.update(i, n).skip(1));
    }
}

proof fn lemma_upsert_absent(params: Seq<ParamView>, n: ParamView)
    requires
        forall|j: int| 0 <= j < params.len() ==> params[j].id != n.id,
    ensures
        upsert(params, n) =~= params.push(n),
    decreases params.len(),
{
    if params.len() == 0 {
    } else {
        assert(forall|j: int|
            0 <= j < params.skip(1).len() ==> params.skip(1)[j] == params[j + 1]);
        lemma_upsert_absent(params.skip(1), n);
    }
}

/// Inserts `n` into `params` with later-wins semantics, in place.
pub fn upsert_param(params: &mut Vec<Parameter>, n: Parameter)
    ensures
        params_view(final(params)@) == upsert(params_view(old(params)@), n@),
{
    let ghost all = params_view(old(params)@);
    let ghost nv = n@;
    let mut i: usize = 0;
    while i < params.len()
        invariant
            i <= params@.len(),
            all == params_view(old(params)@),
            all == params_view(params@),
            all.len() == params@.len(),
            forall|j: int| 0 <= j < all.len() ==> all[j] == #[trigger] params@[j]@,
            nv == n@,
            forall|j: int| 0 <= j < i ==> all[j].id != nv.id,
        decreases params@.len() - i,
    {
        let same = str_eq(params[i].id.as_str(), n.id.as_str());
        if same {
            proof {
                lemma_upsert_found(all, nv, i as int);
            }
            params[i] = n;
            proof {
                assert(params_view(params@) =~= all.update(i as int, nv));
                assert(params_view(params@) == upsert(all, nv));
                assert(all == params_view(old(params)@));
                assert(nv == n@);
            }
            return ;
        }
        i += 1;
    }
    proof {
        lemma_upsert_absent(all, nv);
    }
    params.push(n);
    proof {
        assert(params_view(params@) =~= all.push(nv));
    }
}

/// All destination paths derived from the output parameters: each
/// `destination_path` string, and each element of a `destination_paths`
/// array, in parameter order.
pub open spec fn dest_paths(params: Seq<ParamView>) -> Seq<Seq<char>>
    decreases params.len(),
{
    if params.len() == 0 {
        Seq::empty()
    } else {
        dest_paths_of(params[0]) + dest_paths(params.skip(1))
    }
}

pub open spec fn dest_paths_of(p: ParamView) -> Seq<Seq<char>> {
    if p.id == "destination_path"@ {
        match effective(p) {
            Option::Some(ValView::VStr(s)) => seq![s],
            _ => Seq::empty(),
        }
    } else if p.id == "destination_paths"@ {
        match effective(p) {
            Option::Some(ValView::VArr(a)) => a,
            _ => Seq::empty(),
        }
    } else {
        Seq::empty()
    }
}

impl JobResult {
    /// A fresh result for this job: status `Unknown`, no output parameters.
    pub fn new(job_id: u64) -> (r: JobResult)
        ensures
            r@.job_id == job_id as int,
            r@.status == JobStatus::Unknown,
            r@.parameters =~= Seq::<ParamView>::empty(),
    {
        JobResult { job_id, status: JobStatus::Unknown, parameters: Vec::new() }
    }

    pub fn get_job_id(&self) -> (r: u64)
        ensures
            r as int == self@.job_id,
    {
        self.job_id
    }

    pub fn get_status(&self) -> (r: JobStatus)
        ensures
            r == self@.status,
    {
        self.status
    }

    /// Seals a forward status transition; a result never returns to
    /// `Unknown`.
    pub fn with_status(self, status: JobStatus) -> (r: JobResult)
        requires
            status != JobStatus::Unknown,
        ensures
            r@.job_id == self@.job_id,
            r@.status == status,
            r@.parameters == self@.parameters,
    {
        JobResult { status, ..self }
    }

    /// Records a diagnostic message as the output parameter `message`,
    /// later wins.
    pub fn with_message(self, message: String) -> (r: JobResult)
        ensures
            r@.job_id == self@.job_id,
            r@.status == self@.status,
            r@.parameters == upsert(self@.parameters, message_param_view(message@)),
    {
        let p = Parameter {
            id: String::from_str("message"),
            kind: ParameterKind::Str,
            required: false,
            default: Option::None,
            value: Option::Some(ParamValue::VStr(message)),
        };
        let job_id = self.job_id;
        let status = self.status;
        let mut params = self.parameters;
        upsert_param(&mut params, p);
        JobResult { job_id, status, parameters: params }
    }

    /// Merges output parameters by id, later wins, left to right.
    pub fn with_parameters(self, news: Vec<Parameter>) -> (r: JobResult)
        ensures
            r@.job_id == self@.job_id,
            r@.status == self@.status,
            r@.parameters == merge_params(self@.parameters, params_view(news@)),
    {
        let ghost news_v = params_view(news@);
        let ghost start = params_view(self.parameters@);
        let job_id = self.job_id;
        let status = self.status;
        let mut news = news;
        let mut params = self.parameters;
        while news.len() > 0
            invariant
                merge_params(params_view(params@), params_view(news@)) == merge_params(
                    start,
                    news_v,
                ),
            decreases news@.len(),
        {
            let ghost cur_p = params_view(params@);
            let ghost cur_n = params_view(news@);
            let n = news.remove(0);
            proof {
                assert(params_view(news@) =~= cur_n.skip(1));
                assert(cur_n[0] == n@);
            }
            upsert_param(&mut params, n);
        }
        proof {
            assert(params_view(news@) =~= Seq::<ParamView>::empty());
        }
        JobResult { job_id, status, parameters: params }
    }

    /// Records the destination paths as the output parameter
    /// `destination_paths`, later wins.
    pub fn with_destination_paths(self, paths: Vec<String>) -> (r: JobResult)
        ensures
            r@.job_id == self@.job_id,
            r@.status == self@.status,
            r@.parameters == upsert(self@.parameters, dest_param_view(strings_view(paths@))),
    {
        let p = Parameter {
            id: String::from_str("destination_paths"),
            kind: ParameterKind::ArrayOfStrings,
            required: false,
            default: Option::None,
            value: Option::Some(ParamValue::VArr(paths)),
        };
        let job_id = self.job_id;
        let status = self.status;
        let mut params = self.parameters;
        upsert_param(&mut params, p);
        JobResult { job_id, status, parameters: params }
    }

    /// The derived view over the output parameters named `destination_path`
    /// and `destination_paths`.
    pub fn get_destination_paths(&self) -> (r: Vec<String>)
        ensures
            strings_view(r@) == dest_paths(self@.parameters),
    {
        let ghost all = params_view(self.parameters@);
        let mut r: Vec<String> = Vec::new();
        let mut i: usize = 0;
        proof {
            assert(all.skip(0) =~= all);
            assert(strings_view(r@) + dest_paths(all) =~= dest_paths(all));
        }
        while i < self.parameters.len()
            invariant
                i <= self.parameters@.len(),
                all == params_view(self.parameters@),
                all.len() == self.parameters@.len(),
                forall|j: int| 0 <= j < all.len() ==> all[j] == #[trigger] self.parameters@[j]@,
                strings_view(r@) + dest_paths(all.skip(i as int)) == dest_paths(all),
            decreases self.parameters@.len() - i,
        {
            let p = &self.parameters[i];
            proof {
                assert(all.skip(i as int)[0] == all[i as int]);
                assert(all.skip(i as int).skip(1) =~= all.skip(i as int + 1));
            }
            let ghost before = strings_view(r@);
            if str_eq(p.id.as_str(), "destination_path") {
                match effective_value(p) {
                    Option::Some(ParamValue::VStr(s)) => {
                        r.push(s.clone());
                        proof {
                            assert(strings_view(r@) =~= before + dest_paths_of(all[i as int]));
                        }
                    },
                    _ => {
                        proof {
                            assert(dest_paths_of(all[i as int]) =~= Seq::<Seq<char>>::empty());
                            assert(strings_view(r@) =~= before + dest_paths_of(all[i as int]));
                        }
                    },
                }
            } else if str_eq(p.id.as_str(), "destination_paths") {
                match effective_value(p) {
                    Option::Some(ParamValue::VArr(a)) => {
                        extend_strings(&mut r, a);
                        proof {
                            assert(strings_view(r@) =~= before + dest_paths_of(all[i as int]));
                        }
                    },
                    _ => {
                        proof {
                            assert(dest_paths_of(all[i as int]) =~= Seq::<Seq<char>>::empty());
                            assert(strings_view(r@) =~= before + dest_paths_of(all[i as int]));
                        }
                    },
                }
            } else {
                proof {
                    assert(dest_paths_of(all[i as int]) =~= Seq::<Seq<char>>::empty());
                    assert(strings_view(r@) =~= before + dest_paths_of(all[i as int]));
                }
            }
            proof {
                assert(strings_view(r@) + dest_paths(all.skip(i as int + 1)) =~= dest_paths(all));
            }
            i += 1;
        }
        proof {
            assert(all.skip(all.len() as int) =~= Seq::<ParamView>::empty());
            assert(strings_view(r@) =~= strings_view(r@) + dest_paths(all.skip(all.len() as int)));
        }
        r
    }
}

/// The model of the parameter `with_message` inserts.
pub open spec fn message_param_view(message: Seq<char>) -> ParamView {
    ParamView {
        id: "message"@,
        kind: ParameterKind::Str,
        required: false,
        default: Option::None,
        value: Option::Some(ValView::VStr(message)),
    }
}

/// The model of the parameter `with_destination_paths` inserts.
pub open spec fn dest_param_view(paths: Seq<Seq<char>>) -> ParamView {
    ParamView {
        id: "destination_paths"@,
        kind: ParameterKind::ArrayOfStrings,
        required: false,
        default: Option::None,
        value: Option::Some(ValView::VArr(paths)),
    }
}

} // verus!
