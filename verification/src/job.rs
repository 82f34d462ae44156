//! The job model: typed parameters, jobs, and job results.
use vstd::prelude::*;
use vstd::string::*;
use crate::text::{str_eq, dup_strings, extend_strings, strings_view};
use crate::MessageError;

verus! {

/// The kinds a parameter may carry, matching the `type` tags of the wire
/// envelope: `string`, `integer`, `boolean`, `credential`,
/// `array_of_strings`, `requirements`.
#[derive(Clone, Copy, Debug, PartialEq, Eq, Structural)]
pub enum ParameterKind {
    Str,
    Int,
    Bool,
    Credential,
    ArrayOfStrings,
    Requirements,
}

/// A typed parameter value.
///
/// `Paths` is the payload of a `requirements` parameter: the object
/// `{ "paths": [ ... ] }` reduced to its list of paths.
#[derive(Clone, Debug, PartialEq)]
pub enum ParamValue {
    VStr(String),
    VInt(i64),
    VBool(bool),
    VArr(Vec<String>),
    VPaths(Vec<String>),
}

/// Mathematical model of a parameter value.
pub enum ValView {
    VStr(Seq<char>),
    VInt(int),
    VBool(bool),
    VArr(Seq<Seq<char>>),
    VPaths(Seq<Seq<char>>),
}

impl View for ParamValue {
    type V = ValView;

    open spec fn view(&self) -> ValView {
        match self {
            ParamValue::VStr(s) => ValView::VStr(s@),
            ParamValue::VInt(i) => ValView::VInt(*i as int),
            ParamValue::VBool(b) => ValView::VBool(*b),
            ParamValue::VArr(v) => ValView::VArr(strings_view(v@)),
            ParamValue::VPaths(v) => ValView::VPaths(strings_view(v@)),
        }
    }
}

/// A named input bound to a job. The effective value is `value` if present,
/// else `default`.
#[derive(Clone, Debug, PartialEq)]
pub struct Parameter {
    pub id: String,
    pub kind: ParameterKind,
    pub required: bool,
    pub default: Option<ParamValue>,
    pub value: Option<ParamValue>,
}

/// Mathematical model of a parameter.
pub struct ParamView {
    pub id: Seq<char>,
    pub kind: ParameterKind,
    pub required: bool,
    pub default: Option<ValView>,
    pub value: Option<ValView>,
}

impl View for Parameter {
    type V = ParamView;

    open spec fn view(&self) -> ParamView {
        ParamView {
            id: self.id@,
            kind: self.kind,
            required: self.required,
            default: match self.default {
                Option::Some(v) => Option::Some(v@),
                Option::None => Option::None,
            },
            value: match self.value {
                Option::Some(v) => Option::Some(v@),
                Option::None => Option::None,
            },
        }
    }
}

/// Does a value match the kind it is declared with?
pub open spec fn val_matches(kind: ParameterKind, v: ValView) -> bool {
    match kind {
        ParameterKind::Str => v is VStr,
        ParameterKind::Int => v is VInt,
        ParameterKind::Bool => v is VBool,
        ParameterKind::Credential => v is VStr,
        ParameterKind::ArrayOfStrings => v is VArr,
        ParameterKind::Requirements => v is VPaths,
    }
}

/// Well-formedness of a parameter: its `value` and `default`, where present,
/// carry the declared kind, and an integer value fits `i64`.
pub open spec fn param_wf(p: ParamView) -> bool {
    &&& match p.value {
        Option::Some(v) => val_matches(p.kind, v) && val_in_range(v),
        Option::None => true,
    }
    &&& match p.default {
        Option::Some(v) => val_matches(p.kind, v) && val_in_range(v),
        Option::None => true,
    }
}

/// An integer payload fits the machine representation.
pub open spec fn val_in_range(v: ValView) -> bool {
    match v {
        ValView::VInt(i) => i64::MIN <= i <= i64::MAX,
        _ => true,
    }
}

pub open spec fn params_view(params: Seq<Parameter>) -> Seq<ParamView> {
    params.map_values(|p: Parameter| p@)
}

/// The effective value of a parameter: `value` if present, else `default`.
pub open spec fn effective(p: ParamView) -> Option<ValView> {
    if p.value is Some {
        p.value
    } else {
        p.default
    }
}

/// A parameter with `required = true` and no effective value is missing.
pub open spec fn param_missing(p: ParamView) -> bool {
    p.required && effective(p) is None
}

/// First parameter (by position) whose id and kind both match; lookup is
/// first-match-wins.
pub open spec fn find_kind(params: Seq<ParamView>, id: Seq<char>, kind: ParameterKind) -> Option<
    ParamView,
>
    decreases params.len(),
{
    if params.len() == 0 {
        Option::None
    } else if params[0].id == id && params[0].kind == kind {
        Option::Some(params[0])
    } else {
        find_kind(params.skip(1), id, kind)
    }
}

/// The string read by `get_string_parameter`: the effective value of the
/// first matching parameter, when that value is a string.
pub open spec fn eff_string(params: Seq<ParamView>, id: Seq<char>, kind: ParameterKind) -> Option<
    Seq<char>,
> {
    match find_kind(params, id, kind) {
        Option::Some(p) => match effective(p) {
            Option::Some(ValView::VStr(s)) => Option::Some(s),
            _ => Option::None,
        },
        Option::None => Option::None,
    }
}

pub open spec fn eff_int(params: Seq<ParamView>, id: Seq<char>) -> Option<int> {
    match find_kind(params, id, ParameterKind::Int) {
        Option::Some(p) => match effective(p) {
            Option::Some(ValView::VInt(i)) => Option::Some(i),
            _ => Option::None,
        },
        Option::None => Option::None,
    }
}

pub open spec fn eff_bool(params: Seq<ParamView>, id: Seq<char>) -> Option<bool> {
    match find_kind(params, id, ParameterKind::Bool) {
        Option::Some(p) => match effective(p) {
            Option::Some(ValView::VBool(b)) => Option::Some(b),
            _ => Option::None,
        },
        Option::None => Option::None,
    }
}

pub open spec fn eff_array(params: Seq<ParamView>, id: Seq<char>) -> Option<Seq<Seq<char>>> {
    match find_kind(params, id, ParameterKind::ArrayOfStrings) {
        Option::Some(p) => match effective(p) {
            Option::Some(ValView::VArr(a)) => Option::Some(a),
            _ => Option::None,
        },
        Option::None => Option::None,
    }
}

/// A credential parameter's payload: an opaque key that an external service
/// resolves to a secret value.
#[derive(Clone, Debug, PartialEq)]
pub struct Credential {
    pub key: String,
}

impl Credential {
    /// The resource path under which the credential service resolves this
    /// key: `<base>/credentials/<key>`.
    pub fn endpoint(&self, base: &str) -> (r: String)
        ensures
            r@ == base@ + "/credentials/"@ + self.key@,
    {
        let out = String::from_str(base).concat("/credentials/").concat(self.key.as_str());
        proof {
            assert(out@ =~= base@ + "/credentials/"@ + self.key@);
        }
        out
    }
}

/// The effective value of a parameter: `value` if present, else `default`.
pub fn effective_value<'a>(p: &'a Parameter) -> (r: Option<&'a ParamValue>)
    ensures
        match r {
            Option::Some(v) => effective(p@) == Option::Some(v@),
            Option::None => effective(p@) is None,
        },
{
    match &p.value {
        Option::Some(v) => Option::Some(v),
        Option::None => match &p.default {
            Option::Some(v) => Option::Some(v),
            Option::None => Option::None,
        },
    }
}

/// First parameter whose id and kind both match, scanning front to back.
fn find_param<'a>(params: &'a Vec<Parameter>, key: &str, kind: ParameterKind) -> (r: Option<
    &'a Parameter,
>)
    ensures
        match r {
            Option::Some(p) => find_kind(params_view(params@), key@, kind) == Option::Some(p@),
            Option::None => find_kind(params_view(params@), key@, kind) is None,
        },
{
    let ghost all = params_view(params@);
    let mut i: usize = 0;
    proof {
        assert(all.skip(0) =~= all);
    }
    while i < params.len()
        invariant
            i <= params@.len(),
            all == params_view(params@),
            all.len() == params@.len(),
            forall|j: int| 0 <= j < params@.len() ==> all[j] == #[trigger] params@[j]@,
            find_kind(all.skip(i as int), key@, kind) == find_kind(all, key@, kind),
        decreases params@.len() - i,
    {
        let p = &params[i];
        proof {
            assert(all.skip(i as int)[0] == all[i as int]);
            assert(all.skip(i as int).skip(1) =~= all.skip(i as int + 1));
        }
        if str_eq(p.id.as_str(), key) && p.kind == kind {
            return Option::Some(p);
        }
        i += 1;
    }
    proof {
        assert(all.skip(params@.len() as int) =~= Seq::<ParamView>::empty());
    }
    Option::None
}

/// One unit of work: an id and an ordered sequence of parameters.
#[derive(Clone, Debug, PartialEq)]
pub struct Job {
    pub job_id: u64,
    pub parameters: Vec<Parameter>,
}

/// Mathematical model of a job.
pub struct JobView {
    pub job_id: int,
    pub parameters: Seq<ParamView>,
}

impl View for Job {
    type V = JobView;

    open spec fn view(&self) -> JobView {
        JobView { job_id: self.job_id as int, parameters: params_view(self.parameters@) }
    }
}

/// The paths listed by `requirements` parameters, in parameter order.
pub open spec fn req_paths(params: Seq<ParamView>) -> Seq<Seq<char>>
    decreases params.len(),
{
    if params.len() == 0 {
        Seq::empty()
    } else {
        req_paths_of(params[0]) + req_paths(params.skip(1))
    }
}

pub open spec fn req_paths_of(p: ParamView) -> Seq<Seq<char>> {
    if p.kind == ParameterKind::Requirements {
        match effective(p) {
            Option::Some(ValView::VPaths(paths)) => paths,
            _ => Seq::empty(),
        }
    } else {
        Seq::empty()
    }
}

impl Job {
    /// Typed accessor: effective value of the first `string` parameter with
    /// this id; `None` when absent or of another kind.
    pub fn get_string_parameter(&self, key: &str) -> (r: Option<String>)
        ensures
            match r {
                Option::Some(s) => eff_string(self@.parameters, key@, ParameterKind::Str)
                    == Option::Some(s@),
                Option::None => eff_string(self@.parameters, key@, ParameterKind::Str) is None,
            },
    {
        match find_param(&self.parameters, key, ParameterKind::Str) {
            Option::Some(p) => match effective_value(p) {
                Option::Some(ParamValue::VStr(s)) => Option::Some(s.clone()),
                _ => Option::None,
            },
            Option::None => Option::None,
        }
    }

    /// Typed accessor for `integer` parameters.
    pub fn get_integer_parameter(&self, key: &str) -> (r: Option<i64>)
        ensures
            match r {
                Option::Some(i) => eff_int(self@.parameters, key@) == Option::Some(i as int),
                Option::None => eff_int(self@.parameters, key@) is None,
            },
    {
        match find_param(&self.parameters, key, ParameterKind::Int) {
            Option::Some(p) => match effective_value(p) {
                Option::Some(ParamValue::VInt(i)) => Option::Some(*i),
                _ => Option::None,
            },
            Option::None => Option::None,
        }
    }

    /// Typed accessor for `boolean` parameters.
    pub fn get_boolean_parameter(&self, key: &str) -> (r: Option<bool>)
        ensures
            match r {
                Option::Some(b) => eff_bool(self@.parameters, key@) == Option::Some(b),
                Option::None => eff_bool(self@.parameters, key@) is None,
            },
    {
        match find_param(&self.parameters, key, ParameterKind::Bool) {
            Option::Some(p) => match effective_value(p) {
                Option::Some(ParamValue::VBool(b)) => Option::Some(*b),
                _ => Option::None,
            },
            Option::None => Option::None,
        }
    }

    /// Typed accessor for `credential` parameters: the effective value is the
    /// key under which the secret is resolved.
    pub fn get_credential_parameter(&self, key: &str) -> (r: Option<Credential>)
        ensures
            match r {
                Option::Some(c) => eff_string(self@.parameters, key@, ParameterKind::Credential)
                    == Option::Some(c.key@),
                Option::None => eff_string(
                    self@.parameters,
                    key@,
                    ParameterKind::Credential,
                ) is None,
            },
    {
        match find_param(&self.parameters, key, ParameterKind::Credential) {
            Option::Some(p) => match effective_value(p) {
                Option::Some(ParamValue::VStr(s)) => Option::Some(Credential { key: s.clone() }),
                _ => Option::None,
            },
            Option::None => Option::None,
        }
    }

    /// Typed accessor for `array_of_strings` parameters.
    pub fn get_array_of_strings_parameter(&self, key: &str) -> (r: Option<Vec<String>>)
        ensures
            match r {
                Option::Some(a) => eff_array(self@.parameters, key@) == Option::Some(
                    strings_view(a@),
                ),
                Option::None => eff_array(self@.parameters, key@) is None,
            },
    {
        match find_param(&self.parameters, key, ParameterKind::ArrayOfStrings) {
            Option::Some(p) => match effective_value(p) {
                Option::Some(ParamValue::VArr(a)) => Option::Some(dup_strings(a)),
                _ => Option::None,
            },
            Option::None => Option::None,
        }
    }

    /// Every filesystem path that the job's `requirements` parameters
    /// declare, in order.
    pub fn requirement_paths(&self) -> (r: Vec<String>)
        ensures
            strings_view(r@) == req_paths(self@.parameters),
    {
        let ghost all = params_view(self.parameters@);
        let mut r: Vec<String> = Vec::new();
        let mut i: usize = 0;
        proof {
            assert(all.skip(0) =~= all);
            assert(strings_view(r@) + req_paths(all) =~= req_paths(all));
        }
        while i < self.parameters.len()
            invariant
                i <= self.parameters@.len(),
                all == params_view(self.parameters@),
                all.len() == self.parameters@.len(),
                forall|j: int| 0 <= j < all.len() ==> all[j] == #[trigger] self.parameters@[j]@,
                strings_view(r@) + req_paths(all.skip(i as int)) == req_paths(all),
            decreases self.parameters@.len() - i,
        {
            let p = &self.parameters[i];
            proof {
                assert(all.skip(i as int)[0] == all[i as int]);
                assert(all.skip(i as int).skip(1) =~= all.skip(i as int + 1));
            }
            let ghost before = strings_view(r@);
            if p.kind == ParameterKind::Requirements {
                match effective_value(p) {
                    Option::Some(ParamValue::VPaths(paths)) => {
                        extend_strings(&mut r, paths);
                        proof {
                            assert(strings_view(r@) =~= before + req_paths_of(all[i as int]));
                        }
                    },
                    _ => {
                        proof {
                            assert(req_paths_of(all[i as int]) =~= Seq::<Seq<char>>::empty());
                            assert(strings_view(r@) =~= before + req_paths_of(all[i as int]));
                        }
                    },
                }
            } else {
                proof {
                    assert(req_paths_of(all[i as int]) =~= Seq::<Seq<char>>::empty());
                    assert(strings_view(r@) =~= before + req_paths_of(all[i as int]));
                }
            }
            proof {
                assert(strings_view(r@) + req_paths(all.skip(i as int + 1)) =~= req_paths(all));
            }
            i += 1;
        }
        proof {
            assert(all.skip(all.len() as int) =~= Seq::<ParamView>::empty());
            assert(strings_view(r@) =~= strings_view(r@) + req_paths(all.skip(all.len() as int)));
        }
        r
    }

    /// Requirement check against the caller's report of which declared paths
    /// exist: `exists[k]` answers for `requirement_paths()[k]`. Succeeds
    /// exactly when every declared path exists; otherwise the error names the
    /// first missing path.
    pub fn check_requirements_given(&self, path_exists: &Vec<bool>) -> (r: Result<
        (),
        MessageError,
    >)
        requires
            path_exists@.len() == req_paths(self@.parameters).len(),
        ensures
            match r {
                Result::Ok(()) => forall|k: int| 0 <= k < path_exists@.len() ==> path_exists@[k],
                Result::Err(e) => match e {
                    MessageError::RequirementsError(msg) => {
                        &&& exists|k: int| 0 <= k < path_exists@.len() && !path_exists@[k]
                        &&& msg@ == req_paths(self@.parameters)[first_false(path_exists@)]
                    },
                    _ => false,
                },
            },
    {
        let paths = self.requirement_paths();
        let mut k: usize = 0;
        while k < path_exists.len()
            invariant
                k <= path_exists@.len(),
                strings_view(paths@) == req_paths(self@.parameters),
                path_exists@.len() == req_paths(self@.parameters).len(),
                forall|j: int| 0 <= j < k ==> path_exists@[j],
            decreases path_exists@.len() - k,
        {
            if !path_exists[k] {
                proof {
                    lemma_first_false(path_exists@, k as int);
                }
                return Result::Err(MessageError::RequirementsError(paths[k].clone()));
            }
            k += 1;
        }
        Result::Ok(())
    }
}

/// Index of the first `false` entry.
pub open spec fn first_false(s: Seq<bool>) -> int
    decreases s.len(),
{
    if s.len() == 0 {
        0
    } else if !s[0] {
        0
    } else {
        1 + first_false(s.skip(1))
    }
}

proof fn lemma_first_false(s: Seq<bool>, k: int)
    requires
        0 <= k < s.len(),
        !s[k],
        forall|j: int| 0 <= j < k ==> s[j],
    ensures
        first_false(s) == k,
    decreases k,
{
    if k == 0 {
    } else {
        assert(s[0]);
        assert(s.skip(1).len() == s.len() - 1);
        assert(!s.skip(1)[k - 1]);
        assert(forall|j: int| 0 <= j < k - 1 ==> s.skip(1)[j] == s[j + 1]);
        lemma_first_false(s.skip(1), k - 1);
    }
}

} // verus!
