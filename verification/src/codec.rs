//! The wire codec: the job order envelope and the job result envelope,
//! parsed and serialized against a character-level grammar.
//!
//! The grammar is the SDK's own: a top-level object with `job_id` and
//! `parameters`, parameter objects with `id`, `type`, `value`, `default`
//! and `required` members, and values that are strings (without escapes),
//! 64-bit integers, booleans, arrays of strings, `null`, or the
//! requirements object `{ "paths": [ ... ] }`.
use vstd::prelude::*;
use vstd::string::*;
use crate::job::{ParamView, ValView, ParameterKind};
use crate::text::{strings_view, lemma_strings_view_push};
use crate::MessageError;

verus! {

/// Outcome of one production: the parsed value and the position after it.
pub enum Parsed<T> {
    POk(T, int),
    PFail,
}

/// A raw member value, before it is coerced to a parameter kind.
pub enum RawV {
    RStr(Seq<char>),
    RInt(int),
    RBool(bool),
    RArr(Seq<Seq<char>>),
    RPaths(Seq<Seq<char>>),
    RNull,
}

pub open spec fn is_ws(c: char) -> bool {
    c == ' ' || c == '\n' || c == '\t' || c == '\r'
}

pub open spec fn is_digit(c: char) -> bool {
    48 <= c as u32 <= 57
}

pub open spec fn digit_val(c: char) -> int {
    c as u32 - 48
}

/// A character in a string body that the grammar refuses: the quote, the
/// backslash (no escapes), and control characters.
pub open spec fn bad_str_char(c: char) -> bool {
    c == '"' || c == '\\' || (c as u32) < 32
}

pub open spec fn at(s: Seq<char>, i: int, c: char) -> bool {
    0 <= i < s.len() && s[i] == c
}

/// First position at or after `i` that holds no whitespace.
pub open spec fn skip_ws(s: Seq<char>, i: int) -> int
    decreases s.len() - i,
{
    if 0 <= i < s.len() && is_ws(s[i]) {
        skip_ws(s, i + 1)
    } else {
        i
    }
}

/// Position of the closing quote of a string body starting at `i`.
pub open spec fn str_close(s: Seq<char>, i: int) -> Option<int>
    decreases s.len() - i,
{
    if 0 <= i < s.len() {
        if s[i] == '"' {
            Option::Some(i)
        } else if bad_str_char(s[i]) {
            Option::None
        } else {
            str_close(s, i + 1)
        }
    } else {
        Option::None
    }
}

/// A JSON string without escapes: `"` body `"`.
pub open spec fn sp_string(s: Seq<char>, i: int) -> Parsed<Seq<char>> {
    if at(s, i, '"') {
        match str_close(s, i + 1) {
            Option::Some(e) => Parsed::POk(s.subrange(i + 1, e), e + 1),
            Option::None => Parsed::PFail,
        }
    } else {
        Parsed::PFail
    }
}

/// Decimal digits accumulated left to right, refusing values above
/// `u64::MAX`; stops before the first non-digit.
pub open spec fn sp_digits(s: Seq<char>, i: int, acc: int) -> Parsed<int>
    decreases s.len() - i,
{
    if 0 <= i < s.len() && is_digit(s[i]) {
        let acc2 = acc * 10 + digit_val(s[i]);
        if acc2 > u64::MAX as int {
            Parsed::PFail
        } else {
            sp_digits(s, i + 1, acc2)
        }
    } else {
        Parsed::POk(acc, i)
    }
}

/// An unsigned decimal number fitting `u64`.
pub open spec fn sp_u64(s: Seq<char>, i: int) -> Parsed<int> {
    if 0 <= i < s.len() && is_digit(s[i]) {
        sp_digits(s, i, 0)
    } else {
        Parsed::PFail
    }
}

/// A signed decimal number fitting `i64`.
pub open spec fn sp_i64(s: Seq<char>, i: int) -> Parsed<int> {
    if at(s, i, '-') {
        match sp_u64(s, i + 1) {
            Parsed::POk(v, j) => if v <= i64::MAX as int + 1 {
                Parsed::POk(-v, j)
            } else {
                Parsed::PFail
            },
            Parsed::PFail => Parsed::PFail,
        }
    } else {
        match sp_u64(s, i) {
            Parsed::POk(v, j) => if v <= i64::MAX as int {
                Parsed::POk(v, j)
            } else {
                Parsed::PFail
            },
            Parsed::PFail => Parsed::PFail,
        }
    }
}

/// The keyword `lit` stands at `i`.
pub open spec fn at_lit(s: Seq<char>, i: int, lit: Seq<char>) -> bool {
    0 <= i && i + lit.len() <= s.len() && s.subrange(i, i + lit.len()) == lit
}

/// Elements of an array of strings, after the first element's opening quote.
pub open spec fn sp_str_elems(s: Seq<char>, i: int, acc: Seq<Seq<char>>) -> Parsed<Seq<Seq<char>>>
    decreases s.len() - i,
{
    match sp_string(s, i) {
        Parsed::POk(e, j) => {
            let k = skip_ws(s, j);
            if at(s, k, ',') {
                let m = skip_ws(s, k + 1);
                if i < m <= s.len() {
                    sp_str_elems(s, m, acc.push(e))
                } else {
                    Parsed::PFail
                }
            } else if at(s, k, ']') {
                Parsed::POk(acc.push(e), k + 1)
            } else {
                Parsed::PFail
            }
        },
        Parsed::PFail => Parsed::PFail,
    }
}

/// `[ "a", "b" ]`: an array of strings.
pub open spec fn sp_str_array(s: Seq<char>, i: int) -> Parsed<Seq<Seq<char>>> {
    if at(s, i, '[') {
        let j = skip_ws(s, i + 1);
        if at(s, j, ']') {
            Parsed::POk(Seq::empty(), j + 1)
        } else if 0 <= j <= s.len() {
            sp_str_elems(s, j, Seq::empty())
        } else {
            Parsed::PFail
        }
    } else {
        Parsed::PFail
    }
}

/// `{ "paths": [ ... ] }`: the payload of a requirements parameter.
pub open spec fn sp_paths_obj(s: Seq<char>, i: int) -> Parsed<Seq<Seq<char>>> {
    if at(s, i, '{') {
        let j = skip_ws(s, i + 1);
        match sp_string(s, j) {
            Parsed::POk(key, k) => if key == "paths"@ {
                let m = skip_ws(s, k);
                if at(s, m, ':') {
                    let v = skip_ws(s, m + 1);
                    match sp_str_array(s, v) {
                        Parsed::POk(paths, e) => {
                            let c = skip_ws(s, e);
                            if at(s, c, '}') {
                                Parsed::POk(paths, c + 1)
                            } else {
                                Parsed::PFail
                            }
                        },
                        Parsed::PFail => Parsed::PFail,
                    }
                } else {
                    Parsed::PFail
                }
            } else {
                Parsed::PFail
            },
            Parsed::PFail => Parsed::PFail,
        }
    } else {
        Parsed::PFail
    }
}

/// A member value: string, integer, boolean, `null`, array of strings, or
/// the requirements object.
pub open spec fn sp_value(s: Seq<char>, i: int) -> Parsed<RawV> {
    if 0 <= i < s.len() {
        let c = s[i];
        if c == '"' {
            match sp_string(s, i) {
                Parsed::POk(v, j) => Parsed::POk(RawV::RStr(v), j),
                Parsed::PFail => Parsed::PFail,
            }
        } else if c == '-' || is_digit(c) {
            match sp_i64(s, i) {
                Parsed::POk(v, j) => Parsed::POk(RawV::RInt(v), j),
                Parsed::PFail => Parsed::PFail,
            }
        } else if at_lit(s, i, "true"@) {
            Parsed::POk(RawV::RBool(true), i + 4)
        } else if at_lit(s, i, "false"@) {
            Parsed::POk(RawV::RBool(false), i + 5)
        } else if at_lit(s, i, "null"@) {
            Parsed::POk(RawV::RNull, i + 4)
        } else if c == '[' {
            match sp_str_array(s, i) {
                Parsed::POk(v, j) => Parsed::POk(RawV::RArr(v), j),
                Parsed::PFail => Parsed::PFail,
            }
        } else if c == '{' {
            match sp_paths_obj(s, i) {
                Parsed::POk(v, j) => Parsed::POk(RawV::RPaths(v), j),
                Parsed::PFail => Parsed::PFail,
            }
        } else {
            Parsed::PFail
        }
    } else {
        Parsed::PFail
    }
}

/// One object member: `"key" : value`.
pub open spec fn sp_member(s: Seq<char>, i: int) -> Parsed<(Seq<char>, RawV)> {
    match sp_string(s, i) {
        Parsed::POk(key, j) => {
            let k = skip_ws(s, j);
            if at(s, k, ':') {
                let v = skip_ws(s, k + 1);
                match sp_value(s, v) {
                    Parsed::POk(val, e) => Parsed::POk((key, val), e),
                    Parsed::PFail => Parsed::PFail,
                }
            } else {
                Parsed::PFail
            }
        },
        Parsed::PFail => Parsed::PFail,
    }
}

/// Members of a flat object, after the first member's opening quote.
pub open spec fn sp_obj_members(s: Seq<char>, i: int, acc: Seq<(Seq<char>, RawV)>) -> Parsed<
    Seq<(Seq<char>, RawV)>,
>
    decreases s.len() - i,
{
    match sp_member(s, i) {
        Parsed::POk(kv, j) => {
            let k = skip_ws(s, j);
            if at(s, k, ',') {
                let m = skip_ws(s, k + 1);
                if i < m <= s.len() {
                    sp_obj_members(s, m, acc.push(kv))
                } else {
                    Parsed::PFail
                }
            } else if at(s, k, '}') {
                Parsed::POk(acc.push(kv), k + 1)
            } else {
                Parsed::PFail
            }
        },
        Parsed::PFail => Parsed::PFail,
    }
}

/// A flat object: `{}` or `{ "k": v, ... }` without nesting beyond the
/// value grammar.
pub open spec fn sp_obj(s: Seq<char>, i: int) -> Parsed<Seq<(Seq<char>, RawV)>> {
    if at(s, i, '{') {
        let j = skip_ws(s, i + 1);
        if at(s, j, '}') {
            Parsed::POk(Seq::empty(), j + 1)
        } else if 0 <= j <= s.len() {
            sp_obj_members(s, j, Seq::empty())
        } else {
            Parsed::PFail
        }
    } else {
        Parsed::PFail
    }
}

/// First raw value bound to `key`.
pub open spec fn lookup(pairs: Seq<(Seq<char>, RawV)>, key: Seq<char>) -> Option<RawV>
    decreases pairs.len(),
{
    if pairs.len() == 0 {
        Option::None
    } else if pairs[0].0 == key {
        Option::Some(pairs[0].1)
    } else {
        lookup(pairs.skip(1), key)
    }
}

pub open spec fn keys_unique(pairs: Seq<(Seq<char>, RawV)>) -> bool {
    forall|a: int, b: int|
        0 <= a < b < pairs.len() ==> (#[trigger] pairs[a]).0 != (#[trigger] pairs[b]).0
}

pub open spec fn param_key_ok(key: Seq<char>) -> bool {
    key == "id"@ || key == "type"@ || key == "value"@ || key == "default"@ || key == "required"@
}

pub open spec fn keys_allowed(pairs: Seq<(Seq<char>, RawV)>) -> bool {
    forall|a: int| 0 <= a < pairs.len() ==> param_key_ok((#[trigger] pairs[a]).0)
}

/// The parameter kind named by a `type` tag.
pub open spec fn kind_of_tag(t: Seq<char>) -> Option<ParameterKind> {
    if t == "string"@ {
        Option::Some(ParameterKind::Str)
    } else if t == "integer"@ {
        Option::Some(ParameterKind::Int)
    } else if t == "boolean"@ {
        Option::Some(ParameterKind::Bool)
    } else if t == "credential"@ {
        Option::Some(ParameterKind::Credential)
    } else if t == "array_of_strings"@ {
        Option::Some(ParameterKind::ArrayOfStrings)
    } else if t == "requirements"@ {
        Option::Some(ParameterKind::Requirements)
    } else {
        Option::None
    }
}

/// Coerces a raw member value to the declared kind.
pub open spec fn coerce(kind: ParameterKind, v: RawV) -> Option<ValView> {
    match (kind, v) {
        (ParameterKind::Str, RawV::RStr(s)) => Option::Some(ValView::VStr(s)),
        (ParameterKind::Credential, RawV::RStr(s)) => Option::Some(ValView::VStr(s)),
        (ParameterKind::Int, RawV::RInt(i)) => Option::Some(ValView::VInt(i)),
        (ParameterKind::Bool, RawV::RBool(b)) => Option::Some(ValView::VBool(b)),
        (ParameterKind::ArrayOfStrings, RawV::RArr(a)) => Option::Some(ValView::VArr(a)),
        (ParameterKind::Requirements, RawV::RPaths(p)) => Option::Some(ValView::VPaths(p)),
        _ => Option::None,
    }
}

/// An optional member coerced to the declared kind; `null` and absence both
/// mean no value.
pub open spec fn coerce_opt(kind: ParameterKind, v: Option<RawV>) -> Option<Option<ValView>> {
    match v {
        Option::None => Option::Some(Option::None),
        Option::Some(RawV::RNull) => Option::Some(Option::None),
        Option::Some(raw) => match coerce(kind, raw) {
            Option::Some(val) => Option::Some(Option::Some(val)),
            Option::None => Option::None,
        },
    }
}

/// Builds a parameter from the members of its object; `None` on a duplicate
/// or unknown key, a missing or unrecognized `id`/`type`, or a value of the
/// wrong shape.
pub open spec fn finalize_param(pairs: Seq<(Seq<char>, RawV)>) -> Option<ParamView> {
    if !keys_unique(pairs) || !keys_allowed(pairs) {
        Option::None
    } else {
        match (lookup(pairs, "id"@), lookup(pairs, "type"@)) {
            (Option::Some(RawV::RStr(id)), Option::Some(RawV::RStr(tag))) => match kind_of_tag(
                tag,
            ) {
                Option::Some(kind) => {
                    let required = match lookup(pairs, "required"@) {
                        Option::None => Option::Some(false),
                        Option::Some(RawV::RBool(b)) => Option::Some(b),
                        Option::Some(_) => Option::None,
                    };
                    match (
                        required,
                        coerce_opt(kind, lookup(pairs, "value"@)),
                        coerce_opt(kind, lookup(pairs, "default"@)),
                    ) {
                        (Option::Some(req), Option::Some(value), Option::Some(default)) =>
                            Option::Some(
                            ParamView { id, kind, required: req, default, value },
                        ),
                        _ => Option::None,
                    }
                },
                Option::None => Option::None,
            },
            _ => Option::None,
        }
    }
}

/// One parameter: a flat object whose members build a well-formed parameter.
pub open spec fn sp_param(s: Seq<char>, i: int) -> Parsed<ParamView> {
    match sp_obj(s, i) {
        Parsed::POk(pairs, j) => match finalize_param(pairs) {
            Option::Some(p) => Parsed::POk(p, j),
            Option::None => Parsed::PFail,
        },
        Parsed::PFail => Parsed::PFail,
    }
}

/// Elements of the parameters array, after the first element's brace.
pub open spec fn sp_param_elems(s: Seq<char>, i: int, acc: Seq<ParamView>) -> Parsed<Seq<ParamView>>
    decreases s.len() - i,
{
    match sp_param(s, i) {
        Parsed::POk(p, j) => {
            let k = skip_ws(s, j);
            if at(s, k, ',') {
                let m = skip_ws(s, k + 1);
                if i < m <= s.len() {
                    sp_param_elems(s, m, acc.push(p))
                } else {
                    Parsed::PFail
                }
            } else if at(s, k, ']') {
                Parsed::POk(acc.push(p), k + 1)
            } else {
                Parsed::PFail
            }
        },
        Parsed::PFail => Parsed::PFail,
    }
}

/// `[ {...}, ... ]`: the parameters array.
pub open spec fn sp_params(s: Seq<char>, i: int) -> Parsed<Seq<ParamView>> {
    if at(s, i, '[') {
        let j = skip_ws(s, i + 1);
        if at(s, j, ']') {
            Parsed::POk(Seq::empty(), j + 1)
        } else if 0 <= j <= s.len() {
            sp_param_elems(s, j, Seq::empty())
        } else {
            Parsed::PFail
        }
    } else {
        Parsed::PFail
    }
}

/// Outcome of parsing a whole order envelope.
pub enum EnvParse {
    EOk(int, Seq<ParamView>),
    EFail,
}

/// After the envelope's last member: `}` and trailing whitespace to the end.
pub open spec fn sp_env_close(s: Seq<char>, i: int) -> bool {
    let c = skip_ws(s, i);
    at(s, c, '}') && skip_ws(s, c + 1) == s.len()
}

/// The whole order envelope: an object holding exactly `job_id` (a `u64`)
/// and `parameters` (an array of parameter objects), in either order.
pub open spec fn sp_envelope(s: Seq<char>) -> EnvParse {
    let i = skip_ws(s, 0);
    if at(s, i, '{') {
        let j = skip_ws(s, i + 1);
        match sp_string(s, j) {
            Parsed::POk(key1, k1) => {
                let c1 = skip_ws(s, k1);
                if at(s, c1, ':') {
                    let v1 = skip_ws(s, c1 + 1);
                    if key1 == "job_id"@ {
                        match sp_u64(s, v1) {
                            Parsed::POk(jid, e1) => sp_env_params_then_close(s, e1, jid),
                            Parsed::PFail => EnvParse::EFail,
                        }
                    } else if key1 == "parameters"@ {
                        match sp_params(s, v1) {
                            Parsed::POk(ps, e1) => sp_env_job_id_then_close(s, e1, ps),
                            Parsed::PFail => EnvParse::EFail,
                        }
                    } else {
                        EnvParse::EFail
                    }
                } else {
                    EnvParse::EFail
                }
            },
            Parsed::PFail => EnvParse::EFail,
        }
    } else {
        EnvParse::EFail
    }
}

/// `, "parameters": [...] }` after a leading `job_id` member.
pub open spec fn sp_env_params_then_close(s: Seq<char>, i: int, jid: int) -> EnvParse {
    let k = skip_ws(s, i);
    if at(s, k, ',') {
        let j = skip_ws(s, k + 1);
        match sp_string(s, j) {
            Parsed::POk(key, m) => if key == "parameters"@ {
                let c = skip_ws(s, m);
                if at(s, c, ':') {
                    let v = skip_ws(s, c + 1);
                    match sp_params(s, v) {
                        Parsed::POk(ps, e) => if sp_env_close(s, e) {
                            EnvParse::EOk(jid, ps)
                        } else {
                            EnvParse::EFail
                        },
                        Parsed::PFail => EnvParse::EFail,
                    }
                } else {
                    EnvParse::EFail
                }
            } else {
                EnvParse::EFail
            },
            Parsed::PFail => EnvParse::EFail,
        }
    } else {
        EnvParse::EFail
    }
}

/// `, "job_id": N }` after a leading `parameters` member.
pub open spec fn sp_env_job_id_then_close(s: Seq<char>, i: int, ps: Seq<ParamView>) -> EnvParse {
    let k = skip_ws(s, i);
    if at(s, k, ',') {
        let j = skip_ws(s, k + 1);
        match sp_string(s, j) {
            Parsed::POk(key, m) => if key == "job_id"@ {
                let c = skip_ws(s, m);
                if at(s, c, ':') {
                    let v = skip_ws(s, c + 1);
                    match sp_u64(s, v) {
                        Parsed::POk(jid, e) => if sp_env_close(s, e) {
                            EnvParse::EOk(jid, ps)
                        } else {
                            EnvParse::EFail
                        },
                        Parsed::PFail => EnvParse::EFail,
                    }
                } else {
                    EnvParse::EFail
                }
            } else {
                EnvParse::EFail
            },
            Parsed::PFail => EnvParse::EFail,
        }
    } else {
        EnvParse::EFail
    }
}

/// Id of the first parameter that is required but has no effective value.
pub open spec fn first_missing(params: Seq<ParamView>) -> Option<Seq<char>>
    decreases params.len(),
{
    if params.len() == 0 {
        Option::None
    } else if crate::job::param_missing(params[0]) {
        Option::Some(params[0].id)
    } else {
        first_missing(params.skip(1))
    }
}

/// The diagnostic attached to a `RequirementsError` for a parameter that is
/// required yet carries no effective value.
pub open spec fn missing_required_msg(id: Seq<char>) -> Seq<char> {
    "missing required parameter: "@ + id
}

/// A raw member value as the executable parser holds it.
pub enum RawValue {
    EStr(String),
    EInt(i64),
    EBool(bool),
    EArr(Vec<String>),
    EPaths(Vec<String>),
    ENull,
}

impl View for RawValue {
    type V = RawV;

    open spec fn view(&self) -> RawV {
        match self {
            RawValue::EStr(s) => RawV::RStr(s@),
            RawValue::EInt(i) => RawV::RInt(*i as int),
            RawValue::EBool(b) => RawV::RBool(*b),
            RawValue::EArr(v) => RawV::RArr(strings_view(v@)),
            RawValue::EPaths(v) => RawV::RPaths(strings_view(v@)),
            RawValue::ENull => RawV::RNull,
        }
    }
}

/// The model of a vector of object members.
pub open spec fn pairs_view(ps: Seq<(String, RawValue)>) -> Seq<(Seq<char>, RawV)> {
    ps.map_values(|p: (String, RawValue)| (p.0@, p.1@))
}

pub proof fn lemma_pairs_view_push(ps: Seq<(String, RawValue)>, x: (String, RawValue))
    ensures
        pairs_view(ps.push(x)) =~= pairs_view(ps).push((x.0@, x.1@)),
{
    assert forall|k: int| 0 <= k < ps.len() + 1 implies pairs_view(ps.push(x))[k] == pairs_view(
        ps,
    ).push((x.0@, x.1@))[k] by {
        if k < ps.len() {
            assert(ps.push(x)[k] == ps[k]);
        } else {
            assert(ps.push(x)[k] == x);
        }
    }
}

fn is_ws_c(c: char) -> (r: bool)
    ensures
        r == is_ws(c),
{
    c == ' ' || c == '\n' || c == '\t' || c == '\r'
}

fn is_digit_c(c: char) -> (r: bool)
    ensures
        r == is_digit(c),
{
    c >= '0' && c <= '9'
}

/// Advances over whitespace.
pub(crate) fn e_skip_ws(s: &str, i: usize) -> (r: usize)
    requires
        i as int <= s@.len(),
    ensures
        r as int == skip_ws(s@, i as int),
        i <= r,
        r as int <= s@.len(),
{
    let len = s.unicode_len();
    let mut k = i;
    while k < len && is_ws_c(s.get_char(k))
        invariant
            i <= k,
            k as int <= s@.len(),
            len == s@.len(),
            skip_ws(s@, i as int) == skip_ws(s@, k as int),
        decreases len - k,
    {
        k += 1;
    }
    proof {
        assert(skip_ws(s@, k as int) == k as int);
    }
    k
}

/// Does the keyword stand at `i`?
fn e_lit(s: &str, i: usize, lit: &str) -> (r: bool)
    requires
        i as int <= s@.len(),
    ensures
        r == at_lit(s@, i as int, lit@),
{
    let len = s.unicode_len();
    let llen = lit.unicode_len();
    if llen > len - i {
        return false;
    }
    let mut j: usize = 0;
    while j < llen
        invariant
            j <= llen,
            llen == lit@.len(),
            len == s@.len(),
            i + llen <= len,
            forall|t: int| 0 <= t < j ==> s@[i + t] == lit@[t],
        decreases llen - j,
    {
        if s.get_char(i + j) != lit.get_char(j) {
            proof {
                assert(s@.subrange(i as int, i as int + lit@.len())[j as int] != lit@[j as int]);
            }
            return false;
        }
        j += 1;
    }
    proof {
        assert(s@.subrange(i as int, i as int + lit@.len()) =~= lit@);
    }
    true
}

/// A JSON string without escapes.
pub(crate) fn e_string(s: &str, i: usize) -> (r: Option<(String, usize)>)
    requires
        i as int <= s@.len(),
    ensures
        match r {
            Option::Some(t) => {
                &&& sp_string(s@, i as int) == Parsed::POk(t.0@, t.1 as int)
                &&& i + 2 <= t.1
                &&& t.1 as int <= s@.len()
            },
            Option::None => sp_string(s@, i as int) is PFail,
        },
{
    let len = s.unicode_len();
    if i >= len || s.get_char(i) != '"' {
        return Option::None;
    }
    let mut k = i + 1;
    loop
        invariant
            i + 1 <= k,
            k as int <= s@.len(),
            len == s@.len(),
            i < len,
            s@[i as int] == '"',
            str_close(s@, i as int + 1) == str_close(s@, k as int),
        decreases len - k,
    {
        if k >= len {
            proof {
                assert(str_close(s@, k as int) is None);
            }
            return Option::None;
        }
        let c = s.get_char(k);
        if c == '"' {
            proof {
                assert(str_close(s@, k as int) == Option::Some(k as int));
            }
            let body = s.substring_char(i + 1, k);
            let v = String::from_str(body);
            proof {
                assert(v@ == s@.subrange(i as int + 1, k as int));
            }
            return Option::Some((v, k + 1));
        }
        if c == '\\' || (c as u32) < 32 {
            proof {
                assert(bad_str_char(s@[k as int]));
                assert(str_close(s@, k as int) is None);
            }
            return Option::None;
        }
        proof {
            assert(!bad_str_char(s@[k as int]));
            assert(str_close(s@, k as int) == str_close(s@, k as int + 1));
        }
        k += 1;
    }
}

/// An unsigned decimal number fitting `u64`.
pub(crate) fn e_u64(s: &str, i: usize) -> (r: Option<(u64, usize)>)
    requires
        i as int <= s@.len(),
    ensures
        match r {
            Option::Some(t) => {
                &&& sp_u64(s@, i as int) == Parsed::POk(t.0 as int, t.1 as int)
                &&& i < t.1
                &&& t.1 as int <= s@.len()
            },
            Option::None => sp_u64(s@, i as int) is PFail,
        },
{
    let len = s.unicode_len();
    if i >= len || !is_digit_c(s.get_char(i)) {
        return Option::None;
    }
    let mut k = i;
    let mut acc: u64 = 0;
    while k < len && is_digit_c(s.get_char(k))
        invariant
            i <= k,
            k as int <= s@.len(),
            len == s@.len(),
            i < len,
            is_digit(s@[i as int]),
            k > i ==> sp_digits(s@, i as int, 0) == sp_digits(s@, k as int, acc as int),
            k == i ==> acc == 0,
        decreases len - k,
    {
        let c = s.get_char(k);
        let d: u64 = (c as u32 as u64) - 48;
        proof {
            assert(d == digit_val(s@[k as int]));
            assert(d <= 9);
        }
        if acc > (u64::MAX - d) / 10 {
            proof {
                assert(acc as int * 10 + d as int > u64::MAX as int) by (nonlinear_arith)
                    requires
                        acc as int > (u64::MAX as int - d as int) / 10,
                        0 <= d <= 9,
                ;
                assert(sp_digits(s@, k as int, acc as int) is PFail);
            }
            return Option::None;
        }
        proof {
            assert(acc as int * 10 + d as int <= u64::MAX as int) by (nonlinear_arith)
                requires
                    acc as int <= (u64::MAX as int - d as int) / 10,
                    0 <= d <= 9,
            ;
        }
        let acc2: u64 = acc * 10 + d;
        proof {
            assert(sp_digits(s@, k as int, acc as int) == sp_digits(s@, k as int + 1, acc2 as int));
        }
        acc = acc2;
        k += 1;
    }
    proof {
        assert(sp_digits(s@, k as int, acc as int) == Parsed::POk(acc as int, k as int));
    }
    Option::Some((acc, k))
}

/// A signed decimal number fitting `i64`.
fn e_i64(s: &str, i: usize) -> (r: Option<(i64, usize)>)
    requires
        i as int <= s@.len(),
    ensures
        match r {
            Option::Some(t) => {
                &&& sp_i64(s@, i as int) == Parsed::POk(t.0 as int, t.1 as int)
                &&& i < t.1
                &&& t.1 as int <= s@.len()
            },
            Option::None => sp_i64(s@, i as int) is PFail,
        },
{
    let len = s.unicode_len();
    if i < len && s.get_char(i) == '-' {
        match e_u64(s, i + 1) {
            Option::Some((v, j)) => {
                if v <= 9223372036854775807u64 {
                    Option::Some(((0i64 - (v as i64)), j))
                } else if v == 9223372036854775808u64 {
                    Option::Some((i64::MIN, j))
                } else {
                    Option::None
                }
            },
            Option::None => Option::None,
        }
    } else {
        match e_u64(s, i) {
            Option::Some((v, j)) => {
                if v <= 9223372036854775807u64 {
                    Option::Some((v as i64, j))
                } else {
                    Option::None
                }
            },
            Option::None => Option::None,
        }
    }
}

/// `[ "a", "b" ]`: an array of strings.
fn e_str_array(s: &str, i: usize) -> (r: Option<(Vec<String>, usize)>)
    requires
        i as int <= s@.len(),
    ensures
        match r {
            Option::Some(t) => {
                &&& sp_str_array(s@, i as int) == Parsed::POk(strings_view(t.0@), t.1 as int)
                &&& i < t.1
                &&& t.1 as int <= s@.len()
            },
            Option::None => sp_str_array(s@, i as int) is PFail,
        },
{
    let len = s.unicode_len();
    if i >= len || s.get_char(i) != '[' {
        return Option::None;
    }
    let j = e_skip_ws(s, i + 1);
    if j < len && s.get_char(j) == ']' {
        proof {
            assert(strings_view(Seq::<String>::empty()) =~= Seq::<Seq<char>>::empty());
        }
        return Option::Some((Vec::new(), j + 1));
    }
    let mut acc: Vec<String> = Vec::new();
    let mut p = j;
    proof {
        assert(strings_view(acc@) =~= Seq::<Seq<char>>::empty());
    }
    loop
        invariant
            i < j,
            j <= p,
            p as int <= s@.len(),
            len == s@.len(),
            at(s@, i as int, '['),
            j as int == skip_ws(s@, i as int + 1),
            !at(s@, j as int, ']'),
            sp_str_elems(s@, j as int, Seq::empty()) == sp_str_elems(
                s@,
                p as int,
                strings_view(acc@),
            ),
        decreases len - p,
    {
        let ghost acc0 = strings_view(acc@);
        match e_string(s, p) {
            Option::Some((v, q)) => {
                let k = e_skip_ws(s, q);
                if k < len && s.get_char(k) == ',' {
                    let m = e_skip_ws(s, k + 1);
                    proof {
                        lemma_strings_view_push(acc@, v);
                        assert(p < m <= s@.len());
                        assert(sp_str_elems(s@, p as int, acc0) == sp_str_elems(
                            s@,
                            m as int,
                            acc0.push(v@),
                        ));
                    }
                    acc.push(v);
                    p = m;
                } else if k < len && s.get_char(k) == ']' {
                    proof {
                        lemma_strings_view_push(acc@, v);
                        assert(sp_str_elems(s@, p as int, acc0) == Parsed::POk(
                            acc0.push(v@),
                            k as int + 1,
                        ));
                    }
                    acc.push(v);
                    proof {
                        assert(strings_view(acc@) == acc0.push(v@));
                        assert(sp_str_elems(s@, j as int, Seq::empty()) == Parsed::POk(
                            strings_view(acc@),
                            k as int + 1,
                        ));
                        assert(sp_str_array(s@, i as int) == Parsed::POk(
                            strings_view(acc@),
                            k as int + 1,
                        ));
                    }
                    return Option::Some((acc, k + 1));
                } else {
                    proof {
                        assert(sp_str_elems(s@, p as int, acc0) is PFail);
                    }
                    return Option::None;
                }
            },
            Option::None => {
                proof {
                    assert(sp_str_elems(s@, p as int, acc0) is PFail);
                }
                return Option::None;
            },
        }
    }
}

/// `{ "paths": [ ... ] }`.
fn e_paths_obj(s: &str, i: usize) -> (r: Option<(Vec<String>, usize)>)
    requires
        i as int <= s@.len(),
    ensures
        match r {
            Option::Some(t) => {
                &&& sp_paths_obj(s@, i as int) == Parsed::POk(strings_view(t.0@), t.1 as int)
                &&& i < t.1
                &&& t.1 as int <= s@.len()
            },
            Option::None => sp_paths_obj(s@, i as int) is PFail,
        },
{
    let len = s.unicode_len();
    if i >= len || s.get_char(i) != '{' {
        return Option::None;
    }
    let j = e_skip_ws(s, i + 1);
    match e_string(s, j) {
        Option::Some((key, k)) => {
            if !crate::text::str_eq(key.as_str(), "paths") {
                return Option::None;
            }
            let m = e_skip_ws(s, k);
            if !(m < len && s.get_char(m) == ':') {
                return Option::None;
            }
            let v = e_skip_ws(s, m + 1);
            match e_str_array(s, v) {
                Option::Some((paths, e)) => {
                    let c = e_skip_ws(s, e);
                    if c < len && s.get_char(c) == '}' {
                        Option::Some((paths, c + 1))
                    } else {
                        Option::None
                    }
                },
                Option::None => Option::None,
            }
        },
        Option::None => Option::None,
    }
}

/// A member value.
fn e_value(s: &str, i: usize) -> (r: Option<(RawValue, usize)>)
    requires
        i as int <= s@.len(),
    ensures
        match r {
            Option::Some(t) => {
                &&& sp_value(s@, i as int) == Parsed::POk(t.0@, t.1 as int)
                &&& i < t.1
                &&& t.1 as int <= s@.len()
            },
            Option::None => sp_value(s@, i as int) is PFail,
        },
{
    let len = s.unicode_len();
    if i >= len {
        return Option::None;
    }
    let c = s.get_char(i);
    if c == '"' {
        match e_string(s, i) {
            Option::Some((v, j)) => Option::Some((RawValue::EStr(v), j)),
            Option::None => Option::None,
        }
    } else if c == '-' || is_digit_c(c) {
        match e_i64(s, i) {
            Option::Some((v, j)) => Option::Some((RawValue::EInt(v), j)),
            Option::None => Option::None,
        }
    } else if e_lit(s, i, "true") {
        proof {
            reveal_strlit("true");
        }
        Option::Some((RawValue::EBool(true), i + 4))
    } else if e_lit(s, i, "false") {
        proof {
            reveal_strlit("false");
        }
        Option::Some((RawValue::EBool(false), i + 5))
    } else if e_lit(s, i, "null") {
        proof {
            reveal_strlit("null");
        }
        Option::Some((RawValue::ENull, i + 4))
    } else if c == '[' {
        match e_str_array(s, i) {
            Option::Some((v, j)) => Option::Some((RawValue::EArr(v), j)),
            Option::None => Option::None,
        }
    } else if c == '{' {
        match e_paths_obj(s, i) {
            Option::Some((v, j)) => Option::Some((RawValue::EPaths(v), j)),
            Option::None => Option::None,
        }
    } else {
        Option::None
    }
}

/// One member: `"key" : value`.
fn e_member(s: &str, i: usize) -> (r: Option<(String, RawValue, usize)>)
    requires
        i as int <= s@.len(),
    ensures
        match r {
            Option::Some(t) => {
                &&& sp_member(s@, i as int) == Parsed::POk((t.0@, t.1@), t.2 as int)
                &&& i < t.2
                &&& t.2 as int <= s@.len()
            },
            Option::None => sp_member(s@, i as int) is PFail,
        },
{
    let len = s.unicode_len();
    match e_string(s, i) {
        Option::Some((key, j)) => {
            let k = e_skip_ws(s, j);
            if !(k < len && s.get_char(k) == ':') {
                return Option::None;
            }
            let v = e_skip_ws(s, k + 1);
            match e_value(s, v) {
                Option::Some((val, e)) => Option::Some((key, val, e)),
                Option::None => Option::None,
            }
        },
        Option::None => Option::None,
    }
}

/// A flat object, as a vector of members.
fn e_obj(s: &str, i: usize) -> (r: Option<(Vec<(String, RawValue)>, usize)>)
    requires
        i as int <= s@.len(),
    ensures
        match r {
            Option::Some(t) => {
                &&& sp_obj(s@, i as int) == Parsed::POk(pairs_view(t.0@), t.1 as int)
                &&& i < t.1
                &&& t.1 as int <= s@.len()
            },
            Option::None => sp_obj(s@, i as int) is PFail,
        },
{
    let len = s.unicode_len();
    if i >= len || s.get_char(i) != '{' {
        return Option::None;
    }
    let j = e_skip_ws(s, i + 1);
    if j < len && s.get_char(j) == '}' {
        proof {
            assert(pairs_view(Seq::<(String, RawValue)>::empty()) =~= Seq::<
                (Seq<char>, RawV),
            >::empty());
        }
        return Option::Some((Vec::new(), j + 1));
    }
    let mut acc: Vec<(String, RawValue)> = Vec::new();
    let mut p = j;
    proof {
        assert(pairs_view(acc@) =~= Seq::<(Seq<char>, RawV)>::empty());
    }
    loop
        invariant
            i < j,
            j <= p,
            p as int <= s@.len(),
            len == s@.len(),
            at(s@, i as int, '{'),
            j as int == skip_ws(s@, i as int + 1),
            !at(s@, j as int, '}'),
            sp_obj_members(s@, j as int, Seq::empty()) == sp_obj_members(
                s@,
                p as int,
                pairs_view(acc@),
            ),
        decreases len - p,
    {
        let ghost acc0 = pairs_view(acc@);
        match e_member(s, p) {
            Option::Some((key, val, q)) => {
                let k = e_skip_ws(s, q);
                if k < len && s.get_char(k) == ',' {
                    let m = e_skip_ws(s, k + 1);
                    proof {
                        lemma_pairs_view_push(acc@, (key, val));
                        assert(p < m <= s@.len());
                        assert(sp_obj_members(s@, p as int, acc0) == sp_obj_members(
                            s@,
                            m as int,
                            acc0.push((key@, val@)),
                        ));
                    }
                    acc.push((key, val));
                    p = m;
                } else if k < len && s.get_char(k) == '}' {
                    proof {
                        lemma_pairs_view_push(acc@, (key, val));
                        assert(sp_obj_members(s@, p as int, acc0) == Parsed::POk(
                            acc0.push((key@, val@)),
                            k as int + 1,
                        ));
                    }
                    acc.push((key, val));
                    proof {
                        assert(pairs_view(acc@) == acc0.push((key@, val@)));
                        assert(sp_obj_members(s@, j as int, Seq::empty()) == Parsed::POk(
                            pairs_view(acc@),
                            k as int + 1,
                        ));
                        assert(sp_obj(s@, i as int) == Parsed::POk(
                            pairs_view(acc@),
                            k as int + 1,
                        ));
                    }
                    return Option::Some((acc, k + 1));
                } else {
                    proof {
                        assert(sp_obj_members(s@, p as int, acc0) is PFail);
                    }
                    return Option::None;
                }
            },
            Option::None => {
                proof {
                    assert(sp_obj_members(s@, p as int, acc0) is PFail);
                }
                return Option::None;
            },
        }
    }
}

pub proof fn lemma_params_view_push(ps: Seq<crate::job::Parameter>, x: crate::job::Parameter)
    ensures
        crate::job::params_view(ps.push(x)) =~= crate::job::params_view(ps).push(x@),
{
    assert forall|k: int|
        0 <= k < ps.len() + 1 implies crate::job::params_view(ps.push(x))[k] == crate::job::params_view(
        ps,
    ).push(x@)[k] by {
        if k < ps.len() {
            assert(ps.push(x)[k] == ps[k]);
        } else {
            assert(ps.push(x)[k] == x);
        }
    }
}

/// Are all member keys ones a parameter object may carry?
fn e_keys_allowed(pairs: &Vec<(String, RawValue)>) -> (r: bool)
    ensures
        r == keys_allowed(pairs_view(pairs@)),
{
    let mut a: usize = 0;
    while a < pairs.len()
        invariant
            a <= pairs@.len(),
            forall|t: int| 0 <= t < a ==> param_key_ok((#[trigger] pairs_view(pairs@)[t]).0),
        decreases pairs@.len() - a,
    {
        let key = &pairs[a].0;
        let ok = crate::text::str_eq(key.as_str(), "id") || crate::text::str_eq(
            key.as_str(),
            "type",
        ) || crate::text::str_eq(key.as_str(), "value") || crate::text::str_eq(
            key.as_str(),
            "default",
        ) || crate::text::str_eq(key.as_str(), "required");
        if !ok {
            proof {
                assert(!param_key_ok(pairs_view(pairs@)[a as int].0));
            }
            return false;
        }
        a += 1;
    }
    true
}

/// Are the member keys pairwise distinct?
fn e_keys_unique(pairs: &Vec<(String, RawValue)>) -> (r: bool)
    ensures
        r == keys_unique(pairs_view(pairs@)),
{
    let mut a: usize = 0;
    while a < pairs.len()
        invariant
            a <= pairs@.len(),
            forall|x: int, y: int|
                0 <= x < y < pairs@.len() && x < a ==> (#[trigger] pairs_view(pairs@)[x]).0 != (
                #[trigger] pairs_view(pairs@)[y]).0,
        decreases pairs@.len() - a,
    {
        let mut b: usize = a + 1;
        while b < pairs.len()
            invariant
                a < b || b == a + 1,
                a < pairs@.len(),
                b <= pairs@.len(),
                a + 1 <= b,
                forall|y: int|
                    a < y < b ==> (#[trigger] pairs_view(pairs@)[y]).0 != pairs_view(
                        pairs@,
                    )[a as int].0,
            decreases pairs@.len() - b,
        {
            if crate::text::str_eq(pairs[a].0.as_str(), pairs[b].0.as_str()) {
                proof {
                    assert(pairs_view(pairs@)[a as int].0 == pairs_view(pairs@)[b as int].0);
                }
                return false;
            }
            b += 1;
        }
        a += 1;
    }
    true
}

/// First member bound to `key`, scanning front to back.
fn e_lookup<'a>(pairs: &'a Vec<(String, RawValue)>, key: &str) -> (r: Option<&'a RawValue>)
    ensures
        match r {
            Option::Some(v) => lookup(pairs_view(pairs@), key@) == Option::Some(v@),
            Option::None => lookup(pairs_view(pairs@), key@) is None,
        },
{
    let ghost all = pairs_view(pairs@);
    let mut i: usize = 0;
    proof {
        assert(all.skip(0) =~= all);
    }
    while i < pairs.len()
        invariant
            i <= pairs@.len(),
            all == pairs_view(pairs@),
            all.len() == pairs@.len(),
            lookup(all.skip(i as int), key@) == lookup(all, key@),
        decreases pairs@.len() - i,
    {
        proof {
            assert(all.skip(i as int)[0] == all[i as int]);
            assert(all.skip(i as int).skip(1) =~= all.skip(i as int + 1));
        }
        if crate::text::str_eq(pairs[i].0.as_str(), key) {
            return Option::Some(&pairs[i].1);
        }
        i += 1;
    }
    proof {
        assert(all.skip(pairs@.len() as int) =~= Seq::<(Seq<char>, RawV)>::empty());
    }
    Option::None
}

/// The parameter kind named by a `type` tag.
fn e_kind_of_tag(t: &str) -> (r: Option<ParameterKind>)
    ensures
        match r {
            Option::Some(k) => kind_of_tag(t@) == Option::Some(k),
            Option::None => kind_of_tag(t@) is None,
        },
{
    if crate::text::str_eq(t, "string") {
        Option::Some(ParameterKind::Str)
    } else if crate::text::str_eq(t, "integer") {
        Option::Some(ParameterKind::Int)
    } else if crate::text::str_eq(t, "boolean") {
        Option::Some(ParameterKind::Bool)
    } else if crate::text::str_eq(t, "credential") {
        Option::Some(ParameterKind::Credential)
    } else if crate::text::str_eq(t, "array_of_strings") {
        Option::Some(ParameterKind::ArrayOfStrings)
    } else if crate::text::str_eq(t, "requirements") {
        Option::Some(ParameterKind::Requirements)
    } else {
        Option::None
    }
}

/// Coerces a raw member value to the declared kind, copying its payload.
fn e_coerce(kind: ParameterKind, v: &RawValue) -> (r: Option<crate::job::ParamValue>)
    ensures
        match r {
            Option::Some(val) => coerce(kind, v@) == Option::Some(val@),
            Option::None => coerce(kind, v@) is None,
        },
{
    match (kind, v) {
        (ParameterKind::Str, RawValue::EStr(s)) => Option::Some(
            crate::job::ParamValue::VStr(s.clone()),
        ),
        (ParameterKind::Credential, RawValue::EStr(s)) => Option::Some(
            crate::job::ParamValue::VStr(s.clone()),
        ),
        (ParameterKind::Int, RawValue::EInt(i)) => Option::Some(
            crate::job::ParamValue::VInt(*i),
        ),
        (ParameterKind::Bool, RawValue::EBool(b)) => Option::Some(
            crate::job::ParamValue::VBool(*b),
        ),
        (ParameterKind::ArrayOfStrings, RawValue::EArr(a)) => Option::Some(
            crate::job::ParamValue::VArr(crate::text::dup_strings(a)),
        ),
        (ParameterKind::Requirements, RawValue::EPaths(p)) => Option::Some(
            crate::job::ParamValue::VPaths(crate::text::dup_strings(p)),
        ),
        _ => Option::None,
    }
}

/// Builds a parameter from the members of its object.
fn e_finalize_param(pairs: &Vec<(String, RawValue)>) -> (r: Option<crate::job::Parameter>)
    ensures
        match r {
            Option::Some(p) => finalize_param(pairs_view(pairs@)) == Option::Some(p@),
            Option::None => finalize_param(pairs_view(pairs@)) is None,
        },
{
    if !e_keys_unique(pairs) {
        return Option::None;
    }
    if !e_keys_allowed(pairs) {
        return Option::None;
    }
    let id = match e_lookup(pairs, "id") {
        Option::Some(RawValue::EStr(s)) => s.clone(),
        _ => {
            return Option::None;
        },
    };
    let tag = match e_lookup(pairs, "type") {
        Option::Some(RawValue::EStr(s)) => s.clone(),
        _ => {
            return Option::None;
        },
    };
    let kind = match e_kind_of_tag(tag.as_str()) {
        Option::Some(k) => k,
        Option::None => {
            return Option::None;
        },
    };
    let required = match e_lookup(pairs, "required") {
        Option::None => false,
        Option::Some(RawValue::EBool(b)) => *b,
        Option::Some(_) => {
            return Option::None;
        },
    };
    let value = match e_lookup(pairs, "value") {
        Option::None => Option::None,
        Option::Some(RawValue::ENull) => Option::None,
        Option::Some(raw) => match e_coerce(kind, raw) {
            Option::Some(v) => Option::Some(v),
            Option::None => {
                return Option::None;
            },
        },
    };
    let default = match e_lookup(pairs, "default") {
        Option::None => Option::None,
        Option::Some(RawValue::ENull) => Option::None,
        Option::Some(raw) => match e_coerce(kind, raw) {
            Option::Some(v) => Option::Some(v),
            Option::None => {
                return Option::None;
            },
        },
    };
    Option::Some(crate::job::Parameter { id, kind, required, default, value })
}

/// One parameter object.
fn e_param(s: &str, i: usize) -> (r: Option<(crate::job::Parameter, usize)>)
    requires
        i as int <= s@.len(),
    ensures
        match r {
            Option::Some(t) => {
                &&& sp_param(s@, i as int) == Parsed::POk(t.0@, t.1 as int)
                &&& i < t.1
                &&& t.1 as int <= s@.len()
            },
            Option::None => sp_param(s@, i as int) is PFail,
        },
{
    match e_obj(s, i) {
        Option::Some((pairs, j)) => match e_finalize_param(&pairs) {
            Option::Some(p) => Option::Some((p, j)),
            Option::None => Option::None,
        },
        Option::None => Option::None,
    }
}

/// `[ {...}, ... ]`: the parameters array.
pub(crate) fn e_params(s: &str, i: usize) -> (r: Option<(Vec<crate::job::Parameter>, usize)>)
    requires
        i as int <= s@.len(),
    ensures
        match r {
            Option::Some(t) => {
                &&& sp_params(s@, i as int) == Parsed::POk(
                    crate::job::params_view(t.0@),
                    t.1 as int,
                )
                &&& i < t.1
                &&& t.1 as int <= s@.len()
            },
            Option::None => sp_params(s@, i as int) is PFail,
        },
{
    let len = s.unicode_len();
    if i >= len || s.get_char(i) != '[' {
        return Option::None;
    }
    let j = e_skip_ws(s, i + 1);
    if j < len && s.get_char(j) == ']' {
        proof {
            assert(crate::job::params_view(Seq::<crate::job::Parameter>::empty()) =~= Seq::<
                ParamView,
            >::empty());
        }
        return Option::Some((Vec::new(), j + 1));
    }
    let mut acc: Vec<crate::job::Parameter> = Vec::new();
    let mut p = j;
    proof {
        assert(crate::job::params_view(acc@) =~= Seq::<ParamView>::empty());
    }
    loop
        invariant
            i < j,
            j <= p,
            p as int <= s@.len(),
            len == s@.len(),
            at(s@, i as int, '['),
            j as int == skip_ws(s@, i as int + 1),
            !at(s@, j as int, ']'),
            sp_param_elems(s@, j as int, Seq::empty()) == sp_param_elems(
                s@,
                p as int,
                crate::job::params_view(acc@),
            ),
        decreases len - p,
    {
        let ghost acc0 = crate::job::params_view(acc@);
        match e_param(s, p) {
            Option::Some((v, q)) => {
                let k = e_skip_ws(s, q);
                if k < len && s.get_char(k) == ',' {
                    let m = e_skip_ws(s, k + 1);
                    proof {
                        lemma_params_view_push(acc@, v);
                        assert(p < m <= s@.len());
                        assert(sp_param_elems(s@, p as int, acc0) == sp_param_elems(
                            s@,
                            m as int,
                            acc0.push(v@),
                        ));
                    }
                    acc.push(v);
                    p = m;
                } else if k < len && s.get_char(k) == ']' {
                    proof {
                        lemma_params_view_push(acc@, v);
                        assert(sp_param_elems(s@, p as int, acc0) == Parsed::POk(
                            acc0.push(v@),
                            k as int + 1,
                        ));
                    }
                    acc.push(v);
                    proof {
                        assert(crate::job::params_view(acc@) == acc0.push(v@));
                        assert(sp_params(s@, i as int) == Parsed::POk(
                            crate::job::params_view(acc@),
                            k as int + 1,
                        ));
                    }
                    return Option::Some((acc, k + 1));
                } else {
                    proof {
                        assert(sp_param_elems(s@, p as int, acc0) is PFail);
                    }
                    return Option::None;
                }
            },
            Option::None => {
                proof {
                    assert(sp_param_elems(s@, p as int, acc0) is PFail);
                }
                return Option::None;
            },
        }
    }
}

/// `}` and trailing whitespace to the end of the message.
pub(crate) fn e_env_close(s: &str, i: usize) -> (r: bool)
    requires
        i as int <= s@.len(),
    ensures
        r == sp_env_close(s@, i as int),
{
    let len = s.unicode_len();
    let c = e_skip_ws(s, i);
    if c < len && s.get_char(c) == '}' {
        let e = e_skip_ws(s, c + 1);
        e == len
    } else {
        false
    }
}

/// `, "parameters": [...] }` after a leading `job_id` member.
fn e_env_params_then_close(s: &str, i: usize, jid: u64) -> (r: Option<Vec<crate::job::Parameter>>)
    requires
        i as int <= s@.len(),
    ensures
        match r {
            Option::Some(ps) => sp_env_params_then_close(s@, i as int, jid as int)
                == EnvParse::EOk(jid as int, crate::job::params_view(ps@)),
            Option::None => sp_env_params_then_close(s@, i as int, jid as int) is EFail,
        },
{
    let len = s.unicode_len();
    let k = e_skip_ws(s, i);
    if !(k < len && s.get_char(k) == ',') {
        return Option::None;
    }
    let j = e_skip_ws(s, k + 1);
    match e_string(s, j) {
        Option::Some((key, m)) => {
            if !crate::text::str_eq(key.as_str(), "parameters") {
                return Option::None;
            }
            let c = e_skip_ws(s, m);
            if !(c < len && s.get_char(c) == ':') {
                return Option::None;
            }
            let v = e_skip_ws(s, c + 1);
            match e_params(s, v) {
                Option::Some((ps, e)) => {
                    if e_env_close(s, e) {
                        Option::Some(ps)
                    } else {
                        Option::None
                    }
                },
                Option::None => Option::None,
            }
        },
        Option::None => Option::None,
    }
}

/// `, "job_id": N }` after a leading `parameters` member.
fn e_env_job_id_then_close(s: &str, i: usize) -> (r: Option<u64>)
    requires
        i as int <= s@.len(),
    ensures
        forall|ps: Seq<ParamView>|
            match r {
                Option::Some(jid) => #[trigger] sp_env_job_id_then_close(s@, i as int, ps)
                    == EnvParse::EOk(jid as int, ps),
                Option::None => sp_env_job_id_then_close(s@, i as int, ps) is EFail,
            },
{
    let len = s.unicode_len();
    let k = e_skip_ws(s, i);
    if !(k < len && s.get_char(k) == ',') {
        return Option::None;
    }
    let j = e_skip_ws(s, k + 1);
    match e_string(s, j) {
        Option::Some((key, m)) => {
            if !crate::text::str_eq(key.as_str(), "job_id") {
                return Option::None;
            }
            let c = e_skip_ws(s, m);
            if !(c < len && s.get_char(c) == ':') {
                return Option::None;
            }
            let v = e_skip_ws(s, c + 1);
            match e_u64(s, v) {
                Option::Some((jid, e)) => {
                    if e_env_close(s, e) {
                        Option::Some(jid)
                    } else {
                        Option::None
                    }
                },
                Option::None => Option::None,
            }
        },
        Option::None => Option::None,
    }
}

/// The whole order envelope, as the model sees it.
fn e_envelope(s: &str) -> (r: Option<(u64, Vec<crate::job::Parameter>)>)
    ensures
        match r {
            Option::Some(t) => sp_envelope(s@) == EnvParse::EOk(
                t.0 as int,
                crate::job::params_view(t.1@),
            ),
            Option::None => sp_envelope(s@) is EFail,
        },
{
    let len = s.unicode_len();
    let i = e_skip_ws(s, 0);
    if !(i < len && s.get_char(i) == '{') {
        return Option::None;
    }
    let j = e_skip_ws(s, i + 1);
    match e_string(s, j) {
        Option::Some((key1, k1)) => {
            let c1 = e_skip_ws(s, k1);
            if !(c1 < len && s.get_char(c1) == ':') {
                return Option::None;
            }
            let v1 = e_skip_ws(s, c1 + 1);
            if crate::text::str_eq(key1.as_str(), "job_id") {
                match e_u64(s, v1) {
                    Option::Some((jid, e1)) => match e_env_params_then_close(s, e1, jid) {
                        Option::Some(ps) => Option::Some((jid, ps)),
                        Option::None => Option::None,
                    },
                    Option::None => Option::None,
                }
            } else if crate::text::str_eq(key1.as_str(), "parameters") {
                match e_params(s, v1) {
                    Option::Some((ps, e1)) => match e_env_job_id_then_close(s, e1) {
                        Option::Some(jid) => Option::Some((jid, ps)),
                        Option::None => Option::None,
                    },
                    Option::None => Option::None,
                }
            } else {
                Option::None
            }
        },
        Option::None => Option::None,
    }
}

impl crate::job::Job {
    /// Parses a job order envelope.
    ///
    /// Succeeds exactly when the message matches the envelope grammar and no
    /// required parameter lacks an effective value; a grammar failure is a
    /// `RuntimeError`, a missing required parameter a `RequirementsError`
    /// naming that parameter.
    pub fn new(message: &str) -> (r: Result<crate::job::Job, MessageError>)
        ensures
            match sp_envelope(message@) {
                EnvParse::EOk(jid, ps) => match first_missing(ps) {
                    Option::None => {
                        &&& r is Ok
                        &&& match r {
                            Result::Ok(job) => job@.job_id == jid && job@.parameters == ps,
                            Result::Err(_) => false,
                        }
                    },
                    Option::Some(id) => match r {
                        Result::Err(MessageError::RequirementsError(m)) => m@
                            == missing_required_msg(id),
                        _ => false,
                    },
                },
                EnvParse::EFail => r matches Result::Err(MessageError::RuntimeError(_)),
            },
    {
        match e_envelope(message) {
            Option::Some((jid, ps)) => {
                match e_first_missing(&ps) {
                    Option::Some(id) => {
                        let msg = String::from_str("missing required parameter: ").concat(
                            id.as_str(),
                        );
                        Result::Err(MessageError::RequirementsError(msg))
                    },
                    Option::None => Result::Ok(crate::job::Job { job_id: jid, parameters: ps }),
                }
            },
            Option::None => Result::Err(
                MessageError::RuntimeError(
                    String::from_str("unable to parse the job order message"),
                ),
            ),
        }
    }
}

/// Id of the first parameter that is required but has no effective value.
fn e_first_missing(params: &Vec<crate::job::Parameter>) -> (r: Option<String>)
    ensures
        match r {
            Option::Some(id) => first_missing(crate::job::params_view(params@)) == Option::Some(
                id@,
            ),
            Option::None => first_missing(crate::job::params_view(params@)) is None,
        },
{
    let ghost all = crate::job::params_view(params@);
    let mut i: usize = 0;
    proof {
        assert(all.skip(0) =~= all);
    }
    while i < params.len()
        invariant
            i <= params@.len(),
            all == crate::job::params_view(params@),
            all.len() == params@.len(),
            forall|j: int| 0 <= j < all.len() ==> all[j] == #[trigger] params@[j]@,
            first_missing(all.skip(i as int)) == first_missing(all),
        decreases params@.len() - i,
    {
        let p = &params[i];
        proof {
            assert(all.skip(i as int)[0] == all[i as int]);
            assert(all.skip(i as int).skip(1) =~= all.skip(i as int + 1));
        }
        let missing = p.required && match crate::job::effective_value(p) {
            Option::Some(_) => false,
            Option::None => true,
        };
        if missing {
            return Option::Some(p.id.clone());
        }
        i += 1;
    }
    proof {
        assert(all.skip(params@.len() as int) =~= Seq::<ParamView>::empty());
    }
    Option::None
}

} // verus!
