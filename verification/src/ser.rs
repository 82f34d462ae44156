//! Serialization of job results to the response envelope, and the parse of
//! that envelope.
use vstd::prelude::*;
use vstd::string::*;
use crate::job::{ParamView, ValView, ParameterKind, Parameter, params_view};
use crate::result::{JobResult, JobResultView, JobStatus};
use crate::codec::{
    Parsed, skip_ws, at, sp_string, sp_u64, sp_params, sp_env_close,
};
use crate::MessageError;

verus! {

pub open spec fn digit_char(d: int) -> char {
    ((d + 48) as u8) as char
}

/// Decimal digits of `n`, most significant first; empty for zero.
pub open spec fn dec_digits(n: int) -> Seq<char>
    decreases n,
{
    if n <= 0 {
        Seq::empty()
    } else {
        dec_digits(n / 10).push(digit_char(n % 10))
    }
}

/// Decimal form of a nonnegative number.
pub open spec fn dec_of(n: int) -> Seq<char> {
    if n == 0 {
        "0"@
    } else {
        dec_digits(n)
    }
}

/// Decimal form of a signed number.
pub open spec fn dec_int(i: int) -> Seq<char> {
    if i < 0 {
        "-"@ + dec_of(-i)
    } else {
        dec_of(i)
    }
}

/// A serialized string: quotes around the body, which must hold no quote,
/// backslash or control character to re-parse.
pub open spec fn ser_string(s: Seq<char>) -> Seq<char> {
    "\""@ + s + "\""@
}

/// The `type` tag of a kind; inverse of the parser's tag mapping.
pub open spec fn tag_of_kind(k: ParameterKind) -> Seq<char> {
    match k {
        ParameterKind::Str => "string"@,
        ParameterKind::Int => "integer"@,
        ParameterKind::Bool => "boolean"@,
        ParameterKind::Credential => "credential"@,
        ParameterKind::ArrayOfStrings => "array_of_strings"@,
        ParameterKind::Requirements => "requirements"@,
    }
}

/// Comma-joined serialized strings.
pub open spec fn ser_strings(a: Seq<Seq<char>>) -> Seq<char>
    decreases a.len(),
{
    if a.len() == 0 {
        Seq::empty()
    } else if a.len() == 1 {
        ser_string(a[0])
    } else {
        ser_string(a[0]) + ","@ + ser_strings(a.skip(1))
    }
}

/// A serialized parameter value.
pub open spec fn ser_val(v: ValView) -> Seq<char> {
    match v {
        ValView::VStr(s) => ser_string(s),
        ValView::VInt(i) => dec_int(i),
        ValView::VBool(b) => if b {
            "true"@
        } else {
            "false"@
        },
        ValView::VArr(a) => "["@ + ser_strings(a) + "]"@,
        ValView::VPaths(p) => "{\"paths\":["@ + ser_strings(p) + "]}"@,
    }
}

/// A serialized parameter object, in canonical member order; `required` is
/// written only when set, absent members are omitted.
pub open spec fn ser_param(p: ParamView) -> Seq<char> {
    "{\"id\":"@ + ser_string(p.id) + ",\"type\":"@ + ser_string(tag_of_kind(p.kind)) + (if p.required {
        ",\"required\":true"@
    } else {
        Seq::empty()
    }) + (match p.default {
        Option::Some(v) => ",\"default\":"@ + ser_val(v),
        Option::None => Seq::empty(),
    }) + (match p.value {
        Option::Some(v) => ",\"value\":"@ + ser_val(v),
        Option::None => Seq::empty(),
    }) + "}"@
}

/// Comma-joined serialized parameters.
pub open spec fn ser_params(ps: Seq<ParamView>) -> Seq<char>
    decreases ps.len(),
{
    if ps.len() == 0 {
        Seq::empty()
    } else if ps.len() == 1 {
        ser_param(ps[0])
    } else {
        ser_param(ps[0]) + ","@ + ser_params(ps.skip(1))
    }
}

/// The wire tag of a status.
pub open spec fn status_tag(s: JobStatus) -> Seq<char> {
    match s {
        JobStatus::Unknown => "unknown"@,
        JobStatus::Completed => "completed"@,
        JobStatus::Error => "error"@,
    }
}

/// The serialized response envelope of a job result, in canonical member
/// order.
pub open spec fn ser_job_result(r: JobResultView) -> Seq<char> {
    "{\"job_id\":"@ + dec_of(r.job_id) + ",\"status\":"@ + ser_string(status_tag(r.status))
        + ",\"parameters\":["@ + ser_params(r.parameters) + "]}"@
}

/// The body published for a runtime error.
pub open spec fn runtime_error_body(msg: Seq<char>) -> Seq<char> {
    "{\"status\":\"error\",\"message\":"@ + ser_string(msg) + "}"@
}

fn digit_str(d: u64) -> (r: &'static str)
    requires
        d < 10,
    ensures
        r@ =~= seq![digit_char(d as int)],
{
    proof {
        reveal_strlit("0");
        reveal_strlit("1");
        reveal_strlit("2");
        reveal_strlit("3");
        reveal_strlit("4");
        reveal_strlit("5");
        reveal_strlit("6");
        reveal_strlit("7");
        reveal_strlit("8");
        reveal_strlit("9");
    }
    if d == 0 {
        "0"
    } else if d == 1 {
        "1"
    } else if d == 2 {
        "2"
    } else if d == 3 {
        "3"
    } else if d == 4 {
        "4"
    } else if d == 5 {
        "5"
    } else if d == 6 {
        "6"
    } else if d == 7 {
        "7"
    } else if d == 8 {
        "8"
    } else {
        "9"
    }
}

/// The decimal digits of a positive number, appended to `out`.
fn push_digits(out: &mut String, n: u64)
    ensures
        final(out)@ == old(out)@ + dec_digits(n as int),
    decreases n,
{
    if n == 0 {
        proof {
            assert(old(out)@ + dec_digits(0) =~= old(out)@);
        }
        return ;
    }
    push_digits(out, n / 10);
    let d = digit_str(n % 10);
    out.append(d);
    proof {
        assert(dec_digits(n as int) =~= dec_digits(n as int / 10) + seq![
            digit_char(n as int % 10),
        ]);
        assert(old(out)@ + dec_digits(n as int) =~= (old(out)@ + dec_digits(n as int / 10))
            + seq![digit_char(n as int % 10)]);
    }
}

/// The decimal form of `n`, appended to `out`.
pub fn push_u64(out: &mut String, n: u64)
    ensures
        final(out)@ == old(out)@ + dec_of(n as int),
{
    if n == 0 {
        out.append("0");
    } else {
        push_digits(out, n);
    }
}

/// The decimal form of a signed `n`, appended to `out`.
pub fn push_i64(out: &mut String, n: i64)
    ensures
        final(out)@ == old(out)@ + dec_int(n as int),
{
    if n < 0 {
        out.append("-");
        let mag: u64 = ((-(n as i128)) as u64);
        proof {
            assert(mag as int == -(n as int));
        }
        let ghost mid = out@;
        push_u64(out, mag);
        proof {
            assert(out@ =~= old(out)@ + ("-"@ + dec_of(-(n as int))));
        }
    } else {
        push_u64(out, n as u64);
    }
}

/// A quoted string, appended to `out` with the body written raw: the
/// codec's grammar has no escape sequences, so a body holding a quote,
/// backslash or control character does not re-parse. The round-trip laws
/// carry this as an explicit cleanliness requirement.
pub fn push_quoted(out: &mut String, s: &str)
    ensures
        final(out)@ == old(out)@ + ser_string(s@),
{
    out.append("\"");
    out.append(s);
    out.append("\"");
    proof {
        assert(out@ =~= old(out)@ + ser_string(s@));
    }
}

/// The comma-joined tail of a string list, appended to `out`.
fn push_strings_from(out: &mut String, a: &Vec<String>, i: usize)
    requires
        i <= a@.len(),
    ensures
        final(out)@ == old(out)@ + ser_strings(crate::text::strings_view(a@).skip(i as int)),
    decreases a@.len() - i,
{
    let ghost model = crate::text::strings_view(a@);
    if i >= a.len() {
        proof {
            assert(model.skip(i as int) =~= Seq::<Seq<char>>::empty());
            assert(old(out)@ + ser_strings(model.skip(i as int)) =~= old(out)@);
        }
        return ;
    }
    push_quoted(out, a[i].as_str());
    if i + 1 < a.len() {
        out.append(",");
        let ghost mid = out@;
        push_strings_from(out, a, i + 1);
        proof {
            assert(model.skip(i as int)[0] == model[i as int]);
            assert(model.skip(i as int).skip(1) =~= model.skip(i as int + 1));
            assert(model.skip(i as int).len() >= 2);
            assert(out@ =~= old(out)@ + ser_strings(model.skip(i as int)));
        }
    } else {
        proof {
            assert(model.skip(i as int)[0] == model[i as int]);
            assert(model.skip(i as int).len() == 1);
            assert(out@ =~= old(out)@ + ser_strings(model.skip(i as int)));
        }
    }
}

/// A serialized parameter value, appended to `out`.
fn push_val(out: &mut String, v: &crate::job::ParamValue)
    ensures
        final(out)@ == old(out)@ + ser_val(v@),
{
    match v {
        crate::job::ParamValue::VStr(s) => {
            push_quoted(out, s.as_str());
        },
        crate::job::ParamValue::VInt(i) => {
            push_i64(out, *i);
        },
        crate::job::ParamValue::VBool(b) => {
            if *b {
                out.append("true");
            } else {
                out.append("false");
            }
        },
        crate::job::ParamValue::VArr(a) => {
            out.append("[");
            push_strings_from(out, a, 0);
            out.append("]");
            proof {
                assert(crate::text::strings_view(a@).skip(0) =~= crate::text::strings_view(a@));
                assert(out@ =~= old(out)@ + ser_val(v@));
            }
        },
        crate::job::ParamValue::VPaths(p) => {
            out.append("{\"paths\":[");
            push_strings_from(out, p, 0);
            out.append("]}");
            proof {
                assert(crate::text::strings_view(p@).skip(0) =~= crate::text::strings_view(p@));
                assert(out@ =~= old(out)@ + ser_val(v@));
            }
        },
    }
}

/// The `type` tag of a kind.
fn kind_tag(k: ParameterKind) -> (r: &'static str)
    ensures
        r@ == tag_of_kind(k),
{
    match k {
        ParameterKind::Str => "string",
        ParameterKind::Int => "integer",
        ParameterKind::Bool => "boolean",
        ParameterKind::Credential => "credential",
        ParameterKind::ArrayOfStrings => "array_of_strings",
        ParameterKind::Requirements => "requirements",
    }
}

/// A serialized parameter object, appended to `out`.
#[verifier::rlimit(60)]
fn push_param(out: &mut String, p: &Parameter)
    ensures
        final(out)@ == old(out)@ + ser_param(p@),
{
    out.append("{\"id\":");
    push_quoted(out, p.id.as_str());
    out.append(",\"type\":");
    push_quoted(out, kind_tag(p.kind));
    if p.required {
        out.append(",\"required\":true");
    }
    match &p.default {
        Option::Some(v) => {
            out.append(",\"default\":");
            push_val(out, v);
        },
        Option::None => {
        },
    }
    match &p.value {
        Option::Some(v) => {
            out.append(",\"value\":");
            push_val(out, v);
        },
        Option::None => {
        },
    }
    out.append("}");
    proof {
        assert(out@ =~= old(out)@ + ser_param(p@));
    }
}

/// The comma-joined tail of a parameter list, appended to `out`.
fn push_params_from(out: &mut String, ps: &Vec<Parameter>, i: usize)
    requires
        i <= ps@.len(),
    ensures
        final(out)@ == old(out)@ + ser_params(params_view(ps@).skip(i as int)),
    decreases ps@.len() - i,
{
    let ghost model = params_view(ps@);
    if i >= ps.len() {
        proof {
            assert(model.skip(i as int) =~= Seq::<ParamView>::empty());
            assert(old(out)@ + ser_params(model.skip(i as int)) =~= old(out)@);
        }
        return ;
    }
    push_param(out, &ps[i]);
    if i + 1 < ps.len() {
        out.append(",");
        push_params_from(out, ps, i + 1);
        proof {
            assert(model.skip(i as int)[0] == model[i as int]);
            assert(model.skip(i as int).skip(1) =~= model.skip(i as int + 1));
            assert(model.skip(i as int).len() >= 2);
            assert(out@ =~= old(out)@ + ser_params(model.skip(i as int)));
        }
    } else {
        proof {
            assert(model.skip(i as int)[0] == model[i as int]);
            assert(model.skip(i as int).len() == 1);
            assert(out@ =~= old(out)@ + ser_params(model.skip(i as int)));
        }
    }
}

impl JobResult {
    /// The response envelope of this result, in canonical member order.
    pub fn to_json(&self) -> (r: String)
        ensures
            r@ == ser_job_result(self@),
    {
        let mut out = String::new();
        out.append("{\"job_id\":");
        push_u64(&mut out, self.job_id);
        out.append(",\"status\":");
        match self.status {
            JobStatus::Unknown => out.append("\"unknown\""),
            JobStatus::Completed => out.append("\"completed\""),
            JobStatus::Error => out.append("\"error\""),
        }
        out.append(",\"parameters\":[");
        push_params_from(&mut out, &self.parameters, 0);
        out.append("]}");
        proof {
            reveal_strlit("\"unknown\"");
            reveal_strlit("\"completed\"");
            reveal_strlit("\"error\"");
            reveal_strlit("\"");
            reveal_strlit("unknown");
            reveal_strlit("completed");
            reveal_strlit("error");
            assert(params_view(self.parameters@).skip(0) =~= params_view(self.parameters@));
            assert(("\"unknown\"")@ =~= ser_string(("unknown")@));
            assert(("\"completed\"")@ =~= ser_string(("completed")@));
            assert(("\"error\"")@ =~= ser_string(("error")@));
            assert(out@ =~= ser_job_result(self@));
        }
        out
    }
}

/// The body published to the error queue for a runtime error.
pub fn runtime_error_json(msg: &str) -> (r: String)
    ensures
        r@ == runtime_error_body(msg@),
{
    let mut out = String::new();
    out.append("{\"status\":\"error\",\"message\":");
    push_quoted(&mut out, msg);
    out.append("}");
    proof {
        assert(out@ =~= runtime_error_body(msg@));
    }
    out
}

/// Outcome of parsing a whole response envelope.
pub enum ResParse {
    ROk(int, JobStatus, Seq<ParamView>),
    RFail,
}

/// The status named by a wire tag.
pub open spec fn status_of_tag(t: Seq<char>) -> Option<JobStatus> {
    if t == "unknown"@ {
        Option::Some(JobStatus::Unknown)
    } else if t == "completed"@ {
        Option::Some(JobStatus::Completed)
    } else if t == "error"@ {
        Option::Some(JobStatus::Error)
    } else {
        Option::None
    }
}

/// The response envelope: `job_id`, `status` and `parameters`, in canonical
/// member order, with whitespace allowed between tokens.
pub open spec fn sp_result_envelope(s: Seq<char>) -> ResParse {
    let i = skip_ws(s, 0);
    if at(s, i, '{') {
        let j = skip_ws(s, i + 1);
        match sp_string(s, j) {
            Parsed::POk(k1, a) => if k1 == "job_id"@ {
                let c = skip_ws(s, a);
                if at(s, c, ':') {
                    let v = skip_ws(s, c + 1);
                    match sp_u64(s, v) {
                        Parsed::POk(jid, e) => sp_result_status(s, e, jid),
                        Parsed::PFail => ResParse::RFail,
                    }
                } else {
                    ResParse::RFail
                }
            } else {
                ResParse::RFail
            },
            Parsed::PFail => ResParse::RFail,
        }
    } else {
        ResParse::RFail
    }
}

/// `, "status": "..."` and the rest.
pub open spec fn sp_result_status(s: Seq<char>, i: int, jid: int) -> ResParse {
    let k = skip_ws(s, i);
    if at(s, k, ',') {
        let j = skip_ws(s, k + 1);
        match sp_string(s, j) {
            Parsed::POk(key, a) => if key == "status"@ {
                let c = skip_ws(s, a);
                if at(s, c, ':') {
                    let v = skip_ws(s, c + 1);
                    match sp_string(s, v) {
                        Parsed::POk(tag, e) => match status_of_tag(tag) {
                            Option::Some(st) => sp_result_params(s, e, jid, st),
                            Option::None => ResParse::RFail,
                        },
                        Parsed::PFail => ResParse::RFail,
                    }
                } else {
                    ResParse::RFail
                }
            } else {
                ResParse::RFail
            },
            Parsed::PFail => ResParse::RFail,
        }
    } else {
        ResParse::RFail
    }
}

/// The status named by a wire tag.
fn e_status_of_tag(t: &str) -> (r: Option<JobStatus>)
    ensures
        match r {
            Option::Some(st) => status_of_tag(t@) == Option::Some(st),
            Option::None => status_of_tag(t@) is None,
        },
{
    if crate::text::str_eq(t, "unknown") {
        Option::Some(JobStatus::Unknown)
    } else if crate::text::str_eq(t, "completed") {
        Option::Some(JobStatus::Completed)
    } else if crate::text::str_eq(t, "error") {
        Option::Some(JobStatus::Error)
    } else {
        Option::None
    }
}

impl JobResult {
    /// Parses a response envelope in canonical member order. Succeeds
    /// exactly when the message matches that grammar; a failure is a
    /// `RuntimeError`.
    pub fn from_json(message: &str) -> (r: Result<JobResult, MessageError>)
        ensures
            match sp_result_envelope(message@) {
                ResParse::ROk(jid, st, ps) => match r {
                    Result::Ok(jr) => jr@.job_id == jid && jr@.status == st && jr@.parameters
                        == ps,
                    Result::Err(_) => false,
                },
                ResParse::RFail => r matches Result::Err(MessageError::RuntimeError(_)),
            },
    {
        let fail_msg = "unable to parse the job result message";
        let len = message.unicode_len();
        let i = crate::codec::e_skip_ws(message, 0);
        if !(i < len && message.get_char(i) == '{') {
            return Result::Err(MessageError::RuntimeError(String::from_str(fail_msg)));
        }
        let j = crate::codec::e_skip_ws(message, i + 1);
        let (key1, a) = match crate::codec::e_string(message, j) {
            Option::Some(t) => t,
            Option::None => {
                return Result::Err(MessageError::RuntimeError(String::from_str(fail_msg)));
            },
        };
        if !crate::text::str_eq(key1.as_str(), "job_id") {
            return Result::Err(MessageError::RuntimeError(String::from_str(fail_msg)));
        }
        let c = crate::codec::e_skip_ws(message, a);
        if !(c < len && message.get_char(c) == ':') {
            return Result::Err(MessageError::RuntimeError(String::from_str(fail_msg)));
        }
        let v = crate::codec::e_skip_ws(message, c + 1);
        let (jid, e) = match crate::codec::e_u64(message, v) {
            Option::Some(t) => t,
            Option::None => {
                return Result::Err(MessageError::RuntimeError(String::from_str(fail_msg)));
            },
        };
        let k2 = crate::codec::e_skip_ws(message, e);
        if !(k2 < len && message.get_char(k2) == ',') {
            return Result::Err(MessageError::RuntimeError(String::from_str(fail_msg)));
        }
        let j2 = crate::codec::e_skip_ws(message, k2 + 1);
        let (key2, a2) = match crate::codec::e_string(message, j2) {
            Option::Some(t) => t,
            Option::None => {
                return Result::Err(MessageError::RuntimeError(String::from_str(fail_msg)));
            },
        };
        if !crate::text::str_eq(key2.as_str(), "status") {
            return Result::Err(MessageError::RuntimeError(String::from_str(fail_msg)));
        }
        let c2 = crate::codec::e_skip_ws(message, a2);
        if !(c2 < len && message.get_char(c2) == ':') {
            return Result::Err(MessageError::RuntimeError(String::from_str(fail_msg)));
        }
        let v2 = crate::codec::e_skip_ws(message, c2 + 1);
        let (tag, e2) = match crate::codec::e_string(message, v2) {
            Option::Some(t) => t,
            Option::None => {
                return Result::Err(MessageError::RuntimeError(String::from_str(fail_msg)));
            },
        };
        let st = match e_status_of_tag(tag.as_str()) {
            Option::Some(st) => st,
            Option::None => {
                return Result::Err(MessageError::RuntimeError(String::from_str(fail_msg)));
            },
        };
        let k3 = crate::codec::e_skip_ws(message, e2);
        if !(k3 < len && message.get_char(k3) == ',') {
            return Result::Err(MessageError::RuntimeError(String::from_str(fail_msg)));
        }
        let j3 = crate::codec::e_skip_ws(message, k3 + 1);
        let (key3, a3) = match crate::codec::e_string(message, j3) {
            Option::Some(t) => t,
            Option::None => {
                return Result::Err(MessageError::RuntimeError(String::from_str(fail_msg)));
            },
        };
        if !crate::text::str_eq(key3.as_str(), "parameters") {
            return Result::Err(MessageError::RuntimeError(String::from_str(fail_msg)));
        }
        let c3 = crate::codec::e_skip_ws(message, a3);
        if !(c3 < len && message.get_char(c3) == ':') {
            return Result::Err(MessageError::RuntimeError(String::from_str(fail_msg)));
        }
        let v3 = crate::codec::e_skip_ws(message, c3 + 1);
        let (ps, e3) = match crate::codec::e_params(message, v3) {
            Option::Some(t) => t,
            Option::None => {
                return Result::Err(MessageError::RuntimeError(String::from_str(fail_msg)));
            },
        };
        if !crate::codec::e_env_close(message, e3) {
            return Result::Err(MessageError::RuntimeError(String::from_str(fail_msg)));
        }
        Result::Ok(JobResult { job_id: jid, status: st, parameters: ps })
    }
}

/// `, "parameters": [...] }` and the end of the message.
pub open spec fn sp_result_params(s: Seq<char>, i: int, jid: int, st: JobStatus) -> ResParse {
    let k = skip_ws(s, i);
    if at(s, k, ',') {
        let j = skip_ws(s, k + 1);
        match sp_string(s, j) {
            Parsed::POk(key, a) => if key == "parameters"@ {
                let c = skip_ws(s, a);
                if at(s, c, ':') {
                    let v = skip_ws(s, c + 1);
                    match sp_params(s, v) {
                        Parsed::POk(ps, e) => if sp_env_close(s, e) {
                            ResParse::ROk(jid, st, ps)
                        } else {
                            ResParse::RFail
                        },
                        Parsed::PFail => ResParse::RFail,
                    }
                } else {
                    ResParse::RFail
                }
            } else {
                ResParse::RFail
            },
            Parsed::PFail => ResParse::RFail,
        }
    } else {
        ResParse::RFail
    }
}

} // verus!
