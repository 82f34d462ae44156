//! Cross-cutting laws of the codec, proved against the grammar and the
//! serializer.
use vstd::prelude::*;
use crate::codec::{
    Parsed, skip_ws, at, str_close, sp_string, sp_digits, sp_u64, is_ws, is_digit, digit_val,
    bad_str_char,
};
use crate::ser::{
    dec_of, dec_digits, digit_char, ser_job_result, status_tag, status_of_tag,
    ser_params, sp_result_envelope, ResParse,
};
use crate::result::{JobResultView, JobStatus};
use crate::job::ParamView;

verus! {

/// A string body the serializer may emit and the parser reads back: no
/// quote, backslash or control character.
pub open spec fn clean_str(s: Seq<char>) -> bool {
    forall|j: int| 0 <= j < s.len() ==> !bad_str_char(#[trigger] s[j])
}

proof fn lemma_str_close_at(u: Seq<char>, j: int, s: Seq<char>)
    requires
        0 <= j,
        j + s.len() < u.len(),
        clean_str(s),
        u.subrange(j, j + s.len()) == s,
        u[j + s.len()] == '"',
    ensures
        str_close(u, j) == Option::Some(j + s.len()),
    decreases s.len(),
{
    if s.len() == 0 {
        assert(u[j] == '"');
    } else {
        assert(u.subrange(j, j + s.len())[0] == s[0]);
        assert(u[j] == s[0]);
        assert(!bad_str_char(s[0]));
        assert(u.subrange(j + 1, j + 1 + s.skip(1).len()) =~= s.skip(1));
        assert(clean_str(s.skip(1)));
        lemma_str_close_at(u, j + 1, s.skip(1));
    }
}

/// A quoted clean string at `i` parses to exactly its body.
proof fn lemma_parse_quoted_at(u: Seq<char>, i: int, s: Seq<char>)
    requires
        0 <= i,
        i + s.len() + 2 <= u.len(),
        clean_str(s),
        u[i] == '"',
        u.subrange(i + 1, i + 1 + s.len()) == s,
        u[i + 1 + s.len()] == '"',
    ensures
        sp_string(u, i) == Parsed::POk(s, i + s.len() + 2),
{
    lemma_str_close_at(u, i + 1, s);
    assert(at(u, i, '"'));
    assert(u.subrange(i + 1, i + 1 + s.len()) == s);
}

/// The digits of a number, folded left to right.
pub open spec fn val_digits(d: Seq<char>, acc: int) -> int
    decreases d.len(),
{
    if d.len() == 0 {
        acc
    } else {
        val_digits(d.skip(1), acc * 10 + digit_val(d[0]))
    }
}

proof fn lemma_val_digits_push(d: Seq<char>, c: char, acc: int)
    ensures
        val_digits(d.push(c), acc) == val_digits(d, acc) * 10 + digit_val(c),
    decreases d.len(),
{
    if d.len() == 0 {
        assert(d.push(c)[0] == c);
        assert(d.push(c).skip(1) =~= Seq::<char>::empty());
        assert(val_digits(d.push(c), acc) == val_digits(
            Seq::<char>::empty(),
            acc * 10 + digit_val(c),
        ));
        assert(val_digits(Seq::<char>::empty(), acc * 10 + digit_val(c)) == acc * 10
            + digit_val(c));
        assert(val_digits(d, acc) == acc);
    } else {
        assert(d.push(c)[0] == d[0]);
        assert(d.push(c).skip(1) =~= d.skip(1).push(c));
        lemma_val_digits_push(d.skip(1), c, acc * 10 + digit_val(d[0]));
        assert(val_digits(d.push(c), acc) == val_digits(
            d.skip(1).push(c),
            acc * 10 + digit_val(d[0]),
        ));
        assert(val_digits(d, acc) == val_digits(d.skip(1), acc * 10 + digit_val(d[0])));
    }
}

proof fn lemma_digit_char_val(dd: int)
    requires
        0 <= dd <= 9,
    ensures
        is_digit(digit_char(dd)),
        digit_val(digit_char(dd)) == dd,
        !is_ws(digit_char(dd)),
        !bad_str_char(digit_char(dd)),
{
    assert(digit_char(dd) as u32 == dd + 48);
}

proof fn lemma_dec_digits_digits(n: int)
    requires
        n >= 0,
    ensures
        forall|k: int| 0 <= k < dec_digits(n).len() ==> is_digit(#[trigger] dec_digits(n)[k]),
    decreases n,
{
    if n > 0 {
        lemma_dec_digits_digits(n / 10);
        lemma_digit_char_val(n % 10);
        assert forall|k: int|
            0 <= k < dec_digits(n).len() implies is_digit(#[trigger] dec_digits(n)[k]) by {
            if k < dec_digits(n / 10).len() {
                assert(dec_digits(n)[k] == dec_digits(n / 10)[k]);
            } else {
                assert(dec_digits(n)[k] == digit_char(n % 10));
            }
        }
    }
}

proof fn lemma_val_dec_digits(n: int)
    requires
        n >= 0,
    ensures
        val_digits(dec_digits(n), 0) == n,
    decreases n,
{
    if n > 0 {
        lemma_val_dec_digits(n / 10);
        lemma_val_digits_push(dec_digits(n / 10), digit_char(n % 10), 0);
        lemma_digit_char_val(n % 10);
    }
}

proof fn lemma_val_digits_lower(d: Seq<char>, acc: int)
    requires
        acc >= 0,
        forall|k: int| 0 <= k < d.len() ==> is_digit(#[trigger] d[k]),
    ensures
        val_digits(d, acc) >= acc,
    decreases d.len(),
{
    if d.len() > 0 {
        assert(is_digit(d[0]));
        assert(digit_val(d[0]) >= 0);
        assert(forall|k: int| 0 <= k < d.skip(1).len() ==> d.skip(1)[k] == d[k + 1]);
        lemma_val_digits_lower(d.skip(1), acc * 10 + digit_val(d[0]));
    }
}

proof fn lemma_sp_digits_at(u: Seq<char>, i: int, d: Seq<char>, acc: int)
    requires
        0 <= i,
        i + d.len() <= u.len(),
        u.subrange(i, i + d.len()) == d,
        forall|k: int| 0 <= k < d.len() ==> is_digit(#[trigger] d[k]),
        i + d.len() == u.len() || !is_digit(u[i + d.len()]),
        acc >= 0,
        val_digits(d, acc) <= u64::MAX as int,
    ensures
        sp_digits(u, i, acc) == Parsed::POk(val_digits(d, acc), i + d.len()),
    decreases d.len(),
{
    if d.len() == 0 {
    } else {
        assert(u.subrange(i, i + d.len())[0] == d[0]);
        assert(u[i] == d[0]);
        let acc2 = acc * 10 + digit_val(d[0]);
        assert(forall|k: int| 0 <= k < d.skip(1).len() ==> d.skip(1)[k] == d[k + 1]);
        lemma_val_digits_lower(d.skip(1), acc2);
        assert(acc2 <= u64::MAX as int);
        assert(u.subrange(i + 1, i + 1 + d.skip(1).len()) =~= d.skip(1));
        lemma_sp_digits_at(u, i + 1, d.skip(1), acc2);
    }
}

/// The decimal form of `n` at `i` parses back to `n`.
proof fn lemma_parse_u64_at(u: Seq<char>, i: int, n: int)
    requires
        0 <= i,
        0 <= n <= u64::MAX as int,
        i + dec_of(n).len() <= u.len(),
        u.subrange(i, i + dec_of(n).len()) == dec_of(n),
        i + dec_of(n).len() == u.len() || !is_digit(u[i + dec_of(n).len()]),
    ensures
        sp_u64(u, i) == Parsed::POk(n, i + dec_of(n).len()),
{
    reveal_strlit("0");
    lemma_dec_of_digits(n);
    assert(dec_of(n).len() >= 1);
    assert(u.subrange(i, i + dec_of(n).len())[0] == dec_of(n)[0]);
    assert(u[i] == dec_of(n)[0]);
    assert(is_digit(u[i]));
    lemma_val_dec_of(n);
    lemma_sp_digits_at(u, i, dec_of(n), 0);
}

/// The decimal form of a nonnegative number is nonempty and all digits.
pub proof fn lemma_dec_of_digits(n: int)
    requires
        n >= 0,
    ensures
        dec_of(n).len() >= 1,
        forall|k: int| 0 <= k < dec_of(n).len() ==> is_digit(#[trigger] dec_of(n)[k]),
        forall|k: int| 0 <= k < dec_of(n).len() ==> !is_ws(#[trigger] dec_of(n)[k]),
        forall|k: int| 0 <= k < dec_of(n).len() ==> !bad_str_char(#[trigger] dec_of(n)[k]),
{
    reveal_strlit("0");
    if n == 0 {
        assert(dec_of(0) == "0"@);
        assert(dec_of(0)[0] == '0');
        assert forall|k: int| 0 <= k < dec_of(n).len() implies is_digit(#[trigger] dec_of(n)[k])
            && !is_ws(dec_of(n)[k]) && !bad_str_char(dec_of(n)[k]) by {
            assert(dec_of(n)[k] == '0');
            assert(('0') as u32 == 48);
        }
    } else {
        lemma_dec_digits_digits(n);
        assert(dec_digits(n).len() >= 1);
        assert forall|k: int| 0 <= k < dec_of(n).len() implies is_digit(#[trigger] dec_of(n)[k])
            && !is_ws(dec_of(n)[k]) && !bad_str_char(dec_of(n)[k]) by {
            assert(is_digit(dec_of(n)[k]));
            assert(dec_of(n)[k] as u32 >= 48);
        }
    }
}

/// The serialized envelope of a result, cut into its segments; the
/// parameters segment sits between the opening bracket and `]}`.
proof fn lemma_result_layout(r: JobResultView)
    requires
        0 <= r.job_id <= u64::MAX as int,
    ensures
        ser_job_result(r).len() == 39 + dec_of(r.job_id).len() + status_tag(r.status).len()
            + ser_params(r.parameters).len(),
        ser_job_result(r).subrange(0, 10) == "{\"job_id\":"@,
        ser_job_result(r).subrange(10, 10 + dec_of(r.job_id).len() as int) == dec_of(r.job_id),
        ser_job_result(r).subrange(
            10 + dec_of(r.job_id).len() as int,
            20 + dec_of(r.job_id).len() as int,
        ) == ",\"status\":"@,
        ser_job_result(r)[20 + dec_of(r.job_id).len() as int] == '"',
        ser_job_result(r).subrange(
            21 + dec_of(r.job_id).len() as int,
            21 + dec_of(r.job_id).len() as int + status_tag(r.status).len() as int,
        ) == status_tag(r.status),
        ser_job_result(r)[21 + dec_of(r.job_id).len() as int + status_tag(r.status).len() as int]
            == '"',
        ser_job_result(r).subrange(
            22 + dec_of(r.job_id).len() as int + status_tag(r.status).len() as int,
            37 + dec_of(r.job_id).len() as int + status_tag(r.status).len() as int,
        ) == ",\"parameters\":["@,
        ser_job_result(r).subrange(
            37 + dec_of(r.job_id).len() as int + status_tag(r.status).len() as int,
            37 + dec_of(r.job_id).len() as int + status_tag(r.status).len() as int
                + ser_params(r.parameters).len() as int,
        ) == ser_params(r.parameters),
        ser_job_result(r).subrange(
            37 + dec_of(r.job_id).len() as int + status_tag(r.status).len() as int
                + ser_params(r.parameters).len() as int,
            39 + dec_of(r.job_id).len() as int + status_tag(r.status).len() as int
                + ser_params(r.parameters).len() as int,
        ) == "]}"@,
{
    reveal_strlit("{\"job_id\":");
    reveal_strlit(",\"status\":");
    reveal_strlit(",\"parameters\":[");
    reveal_strlit("]}");
    reveal_strlit("\"");
    let u = ser_job_result(r);
    let h1 = "{\"job_id\":"@;
    let d = dec_of(r.job_id);
    let h2 = ",\"status\":"@;
    let q = "\""@;
    let tag = status_tag(r.status);
    let h3 = ",\"parameters\":["@;
    let pp = ser_params(r.parameters);
    let h4 = "]}"@;
    assert(h1.len() == 10);
    assert(h2.len() == 10);
    assert(h3.len() == 15);
    assert(h4.len() == 2);
    assert(q.len() == 1);
    assert(u =~= h1 + d + h2 + (q + tag + q) + h3 + pp + h4);
    let dl = d.len() as int;
    let tl = tag.len() as int;
    let pl = pp.len() as int;
    assert(u.len() == 39 + dl + tl + pl);
    assert(u.subrange(0, 10) =~= h1);
    assert(u.subrange(10, 10 + dl) =~= d);
    assert(u.subrange(10 + dl, 20 + dl) =~= h2);
    assert(u.subrange(20 + dl, 21 + dl) =~= q);
    assert(u[20 + dl] == q[0]);
    assert(q[0] == '"');
    assert(u.subrange(21 + dl, 21 + dl + tl) =~= tag);
    assert(u.subrange(21 + dl + tl, 22 + dl + tl) =~= q);
    assert(u[21 + dl + tl] == q[0]);
    assert(u.subrange(22 + dl + tl, 37 + dl + tl) =~= h3);
    assert(u.subrange(37 + dl + tl, 37 + dl + tl + pl) =~= pp);
    assert(u.subrange(37 + dl + tl + pl, 39 + dl + tl + pl) =~= h4);
}

/// A clean literal: none of its characters are refused in a string body.
proof fn lemma_clean_lit(s: Seq<char>)
    requires
        forall|j: int| 0 <= j < s.len() ==> (#[trigger] s[j]) as u32 >= 32,
        forall|j: int| 0 <= j < s.len() ==> (#[trigger] s[j]) != '"',
        forall|j: int| 0 <= j < s.len() ==> (#[trigger] s[j]) != '\\',
    ensures
        clean_str(s),
{
}

/// Token facts of the `{"job_id":` opening.
#[verifier::rlimit(100)]
proof fn lemma_rt_head_tokens(r: JobResultView)
    requires
        0 <= r.job_id <= u64::MAX as int,
    ensures
        skip_ws(ser_job_result(r), 0) == 0,
        at(ser_job_result(r), 0, '{'),
        skip_ws(ser_job_result(r), 1) == 1,
        sp_string(ser_job_result(r), 1) == Parsed::POk("job_id"@, 9),
        skip_ws(ser_job_result(r), 9) == 9,
        at(ser_job_result(r), 9, ':'),
        skip_ws(ser_job_result(r), 10) == 10,
        sp_u64(ser_job_result(r), 10) == Parsed::POk(
            r.job_id,
            10 + dec_of(r.job_id).len() as int,
        ),
{
    reveal_strlit("{\"job_id\":");
    reveal_strlit("job_id");
    lemma_result_layout(r);
    lemma_dec_of_digits(r.job_id);
    let u = ser_job_result(r);
    let h1 = "{\"job_id\":"@;
    let d = dec_of(r.job_id);
    let dl = d.len() as int;
    assert(forall|k: int| 0 <= k < 10 ==> u[k] == #[trigger] h1[k]) by {
        assert(forall|k: int| 0 <= k < 10 ==> #[trigger] u.subrange(0, 10)[k] == u[k]);
    }
    assert(u[0] == '{' && u[1] == '"' && u[8] == '"' && u[9] == ':');
    assert(skip_ws(u, 0) == 0);
    assert(at(u, 0, '{'));
    assert(skip_ws(u, 1) == 1);
    assert(u.subrange(2, 8) =~= "job_id"@) by {
        assert(forall|k: int| 0 <= k < 10 ==> #[trigger] u.subrange(0, 10)[k] == u[k]);
    }
    assert(clean_str("job_id"@)) by {
        lemma_clean_lit("job_id"@);
    }
    lemma_parse_quoted_at(u, 1, "job_id"@);
    assert(skip_ws(u, 9) == 9);
    assert(at(u, 9, ':'));
    assert(u[10] == d[0]) by {
        assert(u.subrange(10, 10 + dl)[0] == u[10]);
    }
    assert(!is_ws(u[10]));
    assert(skip_ws(u, 10) == 10);
    assert(u[10 + dl] == ',') by {
        reveal_strlit(",\"status\":");
        assert(u.subrange(10 + dl, 20 + dl)[0] == u[10 + dl]);
    }
    assert(!is_digit(u[10 + dl]));
    lemma_parse_u64_at(u, 10, r.job_id);
}

/// The `{"job_id":` opening parses down to the status member.
#[verifier::rlimit(100)]
proof fn lemma_rt_head(r: JobResultView)
    requires
        0 <= r.job_id <= u64::MAX as int,
    ensures
        sp_result_envelope(ser_job_result(r)) == crate::ser::sp_result_status(
            ser_job_result(r),
            10 + dec_of(r.job_id).len() as int,
            r.job_id,
        ),
{
    reveal_strlit("job_id");
    reveal_strlit("parameters");
    lemma_rt_head_tokens(r);
    assert("job_id"@ != "parameters"@) by {
        assert("job_id"@.len() == 6);
        assert("parameters"@.len() == 10);
    }
}

/// The `,"status":"..."` member parses down to the parameters member.
#[verifier::rlimit(100)]
proof fn lemma_rt_status(r: JobResultView)
    requires
        0 <= r.job_id <= u64::MAX as int,
    ensures
        crate::ser::sp_result_status(
            ser_job_result(r),
            10 + dec_of(r.job_id).len() as int,
            r.job_id,
        ) == crate::ser::sp_result_params(
            ser_job_result(r),
            22 + dec_of(r.job_id).len() as int + status_tag(r.status).len() as int,
            r.job_id,
            r.status,
        ),
{
    reveal_strlit(",\"status\":");
    reveal_strlit("status");
    reveal_strlit("unknown");
    reveal_strlit("completed");
    reveal_strlit("error");
    lemma_result_layout(r);
    let u = ser_job_result(r);
    let h2 = ",\"status\":"@;
    let tag = status_tag(r.status);
    let dl = dec_of(r.job_id).len() as int;
    let tl = tag.len() as int;
    let e = 10 + dl;
    assert(forall|k: int| 0 <= k < 10 ==> u[e + k] == #[trigger] h2[k]) by {
        assert(forall|k: int| 0 <= k < 10 ==> #[trigger] u.subrange(e, e + 10)[k] == u[e + k]);
    }
    assert(u[e] == ',' && u[e + 1] == '"' && u[e + 8] == '"' && u[e + 9] == ':');
    assert(skip_ws(u, e) == e);
    assert(at(u, e, ','));
    assert(skip_ws(u, e + 1) == e + 1);
    assert(u.subrange(e + 2, e + 8) =~= "status"@) by {
        assert(forall|k: int| 0 <= k < 10 ==> #[trigger] u.subrange(e, e + 10)[k] == u[e + k]);
    }
    assert(clean_str("status"@)) by {
        lemma_clean_lit("status"@);
    }
    lemma_parse_quoted_at(u, e + 1, "status"@);
    assert(sp_string(u, e + 1) == Parsed::POk("status"@, e + 9));
    assert(skip_ws(u, e + 9) == e + 9);
    assert(at(u, e + 9, ':'));
    assert(skip_ws(u, e + 10) == e + 10);
    match r.status {
        JobStatus::Unknown => {
            assert(tag == "unknown"@);
            assert(tl == 7);
        },
        JobStatus::Completed => {
            assert(tag == "completed"@);
            assert(tl == 9);
        },
        JobStatus::Error => {
            assert(tag == "error"@);
            assert(tl == 5);
        },
    }
    assert(clean_str(tag)) by {
        lemma_clean_lit(tag);
    }
    lemma_parse_quoted_at(u, e + 10, tag);
    assert(sp_string(u, e + 10) == Parsed::POk(tag, e + 12 + tl));
    assert(status_of_tag(tag) == Option::Some(r.status));
}

/// Given that the parameters array parses to the result's parameters,
/// the whole `,"parameters":...}` tail parses and closes the envelope.
#[verifier::rlimit(100)]
proof fn lemma_rt_tail_given(r: JobResultView)
    requires
        0 <= r.job_id <= u64::MAX as int,
        crate::codec::sp_params(
            ser_job_result(r),
            36 + dec_of(r.job_id).len() as int + status_tag(r.status).len() as int,
        ) == Parsed::POk(
            r.parameters,
            38 + dec_of(r.job_id).len() as int + status_tag(r.status).len() as int
                + ser_params(r.parameters).len() as int,
        ),
    ensures
        crate::ser::sp_result_params(
            ser_job_result(r),
            22 + dec_of(r.job_id).len() as int + status_tag(r.status).len() as int,
            r.job_id,
            r.status,
        ) == ResParse::ROk(r.job_id, r.status, r.parameters),
{
    reveal_strlit(",\"parameters\":[");
    reveal_strlit("parameters");
    reveal_strlit("]}");
    lemma_result_layout(r);
    let u = ser_job_result(r);
    let h3 = ",\"parameters\":["@;
    let h4 = "]}"@;
    let dl = dec_of(r.job_id).len() as int;
    let tl = status_tag(r.status).len() as int;
    let pl = ser_params(r.parameters).len() as int;
    let f = 22 + dl + tl;
    assert(forall|k: int| 0 <= k < 15 ==> u[f + k] == #[trigger] h3[k]) by {
        assert(forall|k: int| 0 <= k < 15 ==> #[trigger] u.subrange(f, f + 15)[k] == u[f + k]);
    }
    assert(u[f] == ',' && u[f + 1] == '"' && u[f + 12] == '"' && u[f + 13] == ':' && u[f + 14]
        == '[');
    assert(u[f + 16 + pl] == '}') by {
        assert(u.subrange(f + 15 + pl, f + 17 + pl)[1] == u[f + 16 + pl]);
        assert(h4[1] == '}');
    }
    assert(skip_ws(u, f) == f);
    assert(at(u, f, ','));
    assert(skip_ws(u, f + 1) == f + 1);
    assert(u.subrange(f + 2, f + 12) =~= "parameters"@) by {
        assert(forall|k: int| 0 <= k < 15 ==> #[trigger] u.subrange(f, f + 15)[k] == u[f + k]);
    }
    assert(clean_str("parameters"@)) by {
        lemma_clean_lit("parameters"@);
    }
    lemma_parse_quoted_at(u, f + 1, "parameters"@);
    assert(sp_string(u, f + 1) == Parsed::POk("parameters"@, f + 13));
    assert(skip_ws(u, f + 13) == f + 13);
    assert(at(u, f + 13, ':'));
    assert(skip_ws(u, f + 14) == f + 14);
    assert(skip_ws(u, f + 16 + pl) == f + 16 + pl);
    assert(at(u, f + 16 + pl, '}'));
    assert(skip_ws(u, f + 17 + pl) == f + 17 + pl);
    assert(f + 17 + pl == u.len());
    assert(crate::codec::sp_env_close(u, f + 16 + pl));
}

/// The empty parameters array parses to the empty sequence.
proof fn lemma_sp_params_empty(r: JobResultView)
    requires
        0 <= r.job_id <= u64::MAX as int,
        r.parameters == Seq::<ParamView>::empty(),
    ensures
        crate::codec::sp_params(
            ser_job_result(r),
            36 + dec_of(r.job_id).len() as int + status_tag(r.status).len() as int,
        ) == Parsed::POk(
            r.parameters,
            38 + dec_of(r.job_id).len() as int + status_tag(r.status).len() as int
                + ser_params(r.parameters).len() as int,
        ),
{
    reveal_strlit(",\"parameters\":[");
    reveal_strlit("]}");
    lemma_result_layout(r);
    let u = ser_job_result(r);
    let h3 = ",\"parameters\":["@;
    let h4 = "]}"@;
    let dl = dec_of(r.job_id).len() as int;
    let tl = status_tag(r.status).len() as int;
    let g = 36 + dl + tl;
    assert(ser_params(r.parameters).len() == 0);
    assert(u[g] == '[') by {
        assert(u.subrange(g - 14, g + 1)[14] == u[g]);
        assert(h3[14] == '[');
    }
    assert(u[g + 1] == ']') by {
        assert(u.subrange(g + 1, g + 3)[0] == u[g + 1]);
        assert(h4[0] == ']');
    }
    assert(at(u, g, '['));
    assert(skip_ws(u, g + 1) == g + 1);
    assert(at(u, g + 1, ']'));
    assert(crate::codec::sp_params(u, g) == Parsed::POk(Seq::<ParamView>::empty(), g + 2));
}

/// A string parameter carrying only an id and a value.
pub open spec fn str_param_view(id: Seq<char>, m: Seq<char>) -> ParamView {
    ParamView {
        id,
        kind: crate::job::ParameterKind::Str,
        required: false,
        default: Option::None,
        value: Option::Some(crate::job::ValView::VStr(m)),
    }
}

/// The members its serialized object parses into.
pub open spec fn str_param_pairs(id: Seq<char>, m: Seq<char>) -> Seq<
    (Seq<char>, crate::codec::RawV),
> {
    seq![
        ("id"@, crate::codec::RawV::RStr(id)),
        ("type"@, crate::codec::RawV::RStr("string"@)),
        ("value"@, crate::codec::RawV::RStr(m)),
    ]
}

/// The length of a serialized string parameter.
proof fn lemma_str_param_len(id: Seq<char>, m: Seq<char>)
    ensures
        crate::ser::ser_param(str_param_view(id, m)).len() == 36 + id.len() + m.len(),
{
    reveal_strlit("{\"id\":");
    reveal_strlit(",\"type\":");
    reveal_strlit(",\"value\":");
    reveal_strlit("}");
    reveal_strlit("\"");
    reveal_strlit("string");
    let p = str_param_view(id, m);
    let q = "\""@;
    assert(crate::ser::tag_of_kind(p.kind) == "string"@);
    assert(crate::ser::ser_param(p) =~= "{\"id\":"@ + (q + id + q) + ",\"type\":"@ + (q
        + "string"@ + q) + ",\"value\":"@ + (q + m + q) + "}"@);
}

/// The serialized object of a string parameter, cut into its segments.
proof fn lemma_str_param_layout(u: Seq<char>, i: int, id: Seq<char>, m: Seq<char>)
    requires
        0 <= i,
        i + 36 + id.len() + m.len() <= u.len(),
        u.subrange(i, i + 36 + id.len() + m.len()) == crate::ser::ser_param(
            str_param_view(id, m),
        ),
    ensures
        u[i] == '{' && u[i + 1] == '"' && u[i + 4] == '"' && u[i + 5] == ':',
        u.subrange(i + 2, i + 4) == "id"@,
        u[i + 6] == '"',
        u.subrange(i + 7, i + 7 + id.len() as int) == id,
        u[i + 7 + id.len() as int] == '"',
        u[i + 8 + id.len() as int] == ',' && u[i + 9 + id.len() as int] == '"',
        u.subrange(i + 10 + id.len() as int, i + 14 + id.len() as int) == "type"@,
        u[i + 14 + id.len() as int] == '"' && u[i + 15 + id.len() as int] == ':',
        u[i + 16 + id.len() as int] == '"',
        u.subrange(i + 17 + id.len() as int, i + 23 + id.len() as int) == "string"@,
        u[i + 23 + id.len() as int] == '"',
        u[i + 24 + id.len() as int] == ',' && u[i + 25 + id.len() as int] == '"',
        u.subrange(i + 26 + id.len() as int, i + 31 + id.len() as int) == "value"@,
        u[i + 31 + id.len() as int] == '"' && u[i + 32 + id.len() as int] == ':',
        u[i + 33 + id.len() as int] == '"',
        u.subrange(i + 34 + id.len() as int, i + 34 + id.len() as int + m.len() as int) == m,
        u[i + 34 + id.len() as int + m.len() as int] == '"',
        u[i + 35 + id.len() as int + m.len() as int] == '}',
{
    reveal_strlit("{\"id\":");
    reveal_strlit(",\"type\":");
    reveal_strlit(",\"value\":");
    reveal_strlit("}");
    reveal_strlit("\"");
    reveal_strlit("id");
    reveal_strlit("type");
    reveal_strlit("value");
    reveal_strlit("string");
    let p = str_param_view(id, m);
    let sp = crate::ser::ser_param(p);
    let q = "\""@;
    let idl = id.len() as int;
    let ml = m.len() as int;
    let ll = 36 + idl + ml;
    assert(crate::ser::tag_of_kind(p.kind) == "string"@);
    assert(crate::ser::ser_val(crate::job::ValView::VStr(m)) == crate::ser::ser_string(m));
    assert(sp =~= "{\"id\":"@ + (q + id + q) + ",\"type\":"@ + (q + "string"@ + q) + ",\"value\":"@
        + (q + m + q) + "}"@);
    assert(sp.len() == ll);
    assert(sp[0] == '{');
    assert(u[i + (0)] == sp[0]) by {
        assert(u.subrange(i, i + ll)[0] == u[i + (0)]);
    }
    assert(sp[1] == '\"');
    assert(u[i + (1)] == sp[1]) by {
        assert(u.subrange(i, i + ll)[1] == u[i + (1)]);
    }
    assert(sp[4] == '\"');
    assert(u[i + (4)] == sp[4]) by {
        assert(u.subrange(i, i + ll)[4] == u[i + (4)]);
    }
    assert(sp[5] == ':');
    assert(u[i + (5)] == sp[5]) by {
        assert(u.subrange(i, i + ll)[5] == u[i + (5)]);
    }
    assert(sp[6] == '\"');
    assert(u[i + (6)] == sp[6]) by {
        assert(u.subrange(i, i + ll)[6] == u[i + (6)]);
    }
    assert(sp[7 + idl] == '\"');
    assert(u[i + (7 + idl)] == sp[7 + idl]) by {
        assert(u.subrange(i, i + ll)[7 + idl] == u[i + (7 + idl)]);
    }
    assert(sp[8 + idl] == ',');
    assert(u[i + (8 + idl)] == sp[8 + idl]) by {
        assert(u.subrange(i, i + ll)[8 + idl] == u[i + (8 + idl)]);
    }
    assert(sp[9 + idl] == '\"');
    assert(u[i + (9 + idl)] == sp[9 + idl]) by {
        assert(u.subrange(i, i + ll)[9 + idl] == u[i + (9 + idl)]);
    }
    assert(sp[14 + idl] == '\"');
    assert(u[i + (14 + idl)] == sp[14 + idl]) by {
        assert(u.subrange(i, i + ll)[14 + idl] == u[i + (14 + idl)]);
    }
    assert(sp[15 + idl] == ':');
    assert(u[i + (15 + idl)] == sp[15 + idl]) by {
        assert(u.subrange(i, i + ll)[15 + idl] == u[i + (15 + idl)]);
    }
    assert(sp[16 + idl] == '\"');
    assert(u[i + (16 + idl)] == sp[16 + idl]) by {
        assert(u.subrange(i, i + ll)[16 + idl] == u[i + (16 + idl)]);
    }
    assert(sp[23 + idl] == '\"');
    assert(u[i + (23 + idl)] == sp[23 + idl]) by {
        assert(u.subrange(i, i + ll)[23 + idl] == u[i + (23 + idl)]);
    }
    assert(sp[24 + idl] == ',');
    assert(u[i + (24 + idl)] == sp[24 + idl]) by {
        assert(u.subrange(i, i + ll)[24 + idl] == u[i + (24 + idl)]);
    }
    assert(sp[25 + idl] == '\"');
    assert(u[i + (25 + idl)] == sp[25 + idl]) by {
        assert(u.subrange(i, i + ll)[25 + idl] == u[i + (25 + idl)]);
    }
    assert(sp[31 + idl] == '\"');
    assert(u[i + (31 + idl)] == sp[31 + idl]) by {
        assert(u.subrange(i, i + ll)[31 + idl] == u[i + (31 + idl)]);
    }
    assert(sp[32 + idl] == ':');
    assert(u[i + (32 + idl)] == sp[32 + idl]) by {
        assert(u.subrange(i, i + ll)[32 + idl] == u[i + (32 + idl)]);
    }
    assert(sp[33 + idl] == '\"');
    assert(u[i + (33 + idl)] == sp[33 + idl]) by {
        assert(u.subrange(i, i + ll)[33 + idl] == u[i + (33 + idl)]);
    }
    assert(sp[34 + idl + ml] == '\"');
    assert(u[i + (34 + idl + ml)] == sp[34 + idl + ml]) by {
        assert(u.subrange(i, i + ll)[34 + idl + ml] == u[i + (34 + idl + ml)]);
    }
    assert(sp[35 + idl + ml] == '}');
    assert(u[i + (35 + idl + ml)] == sp[35 + idl + ml]) by {
        assert(u.subrange(i, i + ll)[35 + idl + ml] == u[i + (35 + idl + ml)]);
    }
    assert(u.subrange(i + (2), i + (4)) =~= sp.subrange(2, 4));
    assert(sp.subrange(2, 4) =~= "id"@);
    assert(u.subrange(i + (7), i + (7 + idl)) =~= sp.subrange(7, 7 + idl));
    assert(sp.subrange(7, 7 + idl) =~= id);
    assert(u.subrange(i + (10 + idl), i + (14 + idl)) =~= sp.subrange(10 + idl, 14 + idl));
    assert(sp.subrange(10 + idl, 14 + idl) =~= "type"@);
    assert(u.subrange(i + (17 + idl), i + (23 + idl)) =~= sp.subrange(17 + idl, 23 + idl));
    assert(sp.subrange(17 + idl, 23 + idl) =~= "string"@);
    assert(u.subrange(i + (26 + idl), i + (31 + idl)) =~= sp.subrange(26 + idl, 31 + idl));
    assert(sp.subrange(26 + idl, 31 + idl) =~= "value"@);
    assert(u.subrange(i + (34 + idl), i + (34 + idl + ml)) =~= sp.subrange(34 + idl, 34 + idl + ml));
    assert(sp.subrange(34 + idl, 34 + idl + ml) =~= m);
}

/// The serialized object of a string parameter parses into its members.
#[verifier::rlimit(100)]
proof fn lemma_str_param_pairs_at(u: Seq<char>, i: int, id: Seq<char>, m: Seq<char>)
    requires
        0 <= i,
        clean_str(id),
        clean_str(m),
        i + 36 + id.len() + m.len() <= u.len(),
        u.subrange(i, i + 36 + id.len() + m.len()) == crate::ser::ser_param(
            str_param_view(id, m),
        ),
    ensures
        crate::codec::sp_obj(u, i) == Parsed::POk(
            str_param_pairs(id, m),
            i + 36 + id.len() + m.len(),
        ),
{
    reveal_strlit("id");
    reveal_strlit("type");
    reveal_strlit("value");
    reveal_strlit("string");
    lemma_str_param_layout(u, i, id, m);
    let idl = id.len() as int;
    let ml = m.len() as int;
    assert(clean_str("id"@)) by {
        lemma_clean_lit("id"@);
    }
    assert(clean_str("type"@)) by {
        lemma_clean_lit("type"@);
    }
    assert(clean_str("value"@)) by {
        lemma_clean_lit("value"@);
    }
    assert(clean_str("string"@)) by {
        lemma_clean_lit("string"@);
    }
    // member `"id": "<id>"`
    assert(at(u, i, '{'));
    assert(skip_ws(u, i + 1) == i + 1);
    assert(!at(u, i + 1, '}'));
    lemma_parse_quoted_at(u, i + 1, "id"@);
    assert(skip_ws(u, i + 5) == i + 5);
    assert(at(u, i + 5, ':'));
    assert(skip_ws(u, i + 6) == i + 6);
    lemma_parse_quoted_at(u, i + 6, id);
    assert(crate::codec::sp_value(u, i + 6) == Parsed::POk(
        crate::codec::RawV::RStr(id),
        i + 8 + idl,
    ));
    assert(crate::codec::sp_member(u, i + 1) == Parsed::POk(
        ("id"@, crate::codec::RawV::RStr(id)),
        i + 8 + idl,
    ));
    assert(skip_ws(u, i + 8 + idl) == i + 8 + idl);
    assert(at(u, i + 8 + idl, ','));
    assert(skip_ws(u, i + 9 + idl) == i + 9 + idl);
    // member `"type": "string"`
    lemma_parse_quoted_at(u, i + 9 + idl, "type"@);
    assert(skip_ws(u, i + 15 + idl) == i + 15 + idl);
    assert(at(u, i + 15 + idl, ':'));
    assert(skip_ws(u, i + 16 + idl) == i + 16 + idl);
    lemma_parse_quoted_at(u, i + 16 + idl, "string"@);
    assert(crate::codec::sp_value(u, i + 16 + idl) == Parsed::POk(
        crate::codec::RawV::RStr("string"@),
        i + 24 + idl,
    ));
    assert(crate::codec::sp_member(u, i + 9 + idl) == Parsed::POk(
        ("type"@, crate::codec::RawV::RStr("string"@)),
        i + 24 + idl,
    ));
    assert(skip_ws(u, i + 24 + idl) == i + 24 + idl);
    assert(at(u, i + 24 + idl, ','));
    assert(skip_ws(u, i + 25 + idl) == i + 25 + idl);
    // member `"value": "<m>"`
    lemma_parse_quoted_at(u, i + 25 + idl, "value"@);
    assert(skip_ws(u, i + 32 + idl) == i + 32 + idl);
    assert(at(u, i + 32 + idl, ':'));
    assert(skip_ws(u, i + 33 + idl) == i + 33 + idl);
    lemma_parse_quoted_at(u, i + 33 + idl, m);
    assert(crate::codec::sp_value(u, i + 33 + idl) == Parsed::POk(
        crate::codec::RawV::RStr(m),
        i + 35 + idl + ml,
    ));
    assert(crate::codec::sp_member(u, i + 25 + idl) == Parsed::POk(
        ("value"@, crate::codec::RawV::RStr(m)),
        i + 35 + idl + ml,
    ));
    assert(skip_ws(u, i + 35 + idl + ml) == i + 35 + idl + ml);
    assert(at(u, i + 35 + idl + ml, '}'));
    assert(!at(u, i + 35 + idl + ml, ','));
    // the member loop closes after the third member
    let acc0: Seq<(Seq<char>, crate::codec::RawV)> = Seq::empty();
    let p1 = ("id"@, crate::codec::RawV::RStr(id));
    let p2 = ("type"@, crate::codec::RawV::RStr("string"@));
    let p3 = ("value"@, crate::codec::RawV::RStr(m));
    assert(crate::codec::sp_obj_members(u, i + 25 + idl, acc0.push(p1).push(p2))
        == Parsed::POk(acc0.push(p1).push(p2).push(p3), i + 36 + idl + ml));
    assert(crate::codec::sp_obj_members(u, i + 9 + idl, acc0.push(p1))
        == crate::codec::sp_obj_members(u, i + 25 + idl, acc0.push(p1).push(p2)));
    assert(crate::codec::sp_obj_members(u, i + 1, acc0) == crate::codec::sp_obj_members(
        u,
        i + 9 + idl,
        acc0.push(p1),
    ));
    assert(acc0.push(p1).push(p2).push(p3) =~= str_param_pairs(id, m));
}

/// The members of a serialized string parameter build it back.
#[verifier::rlimit(100)]
proof fn lemma_str_param_finalize(id: Seq<char>, m: Seq<char>)
    ensures
        crate::codec::finalize_param(str_param_pairs(id, m)) == Option::Some(
            str_param_view(id, m),
        ),
{
    reveal_strlit("id");
    reveal_strlit("type");
    reveal_strlit("value");
    reveal_strlit("required");
    reveal_strlit("default");
    reveal_strlit("string");
    let pairs = str_param_pairs(id, m);
    assert("id"@.len() == 2 && "type"@.len() == 4 && "value"@.len() == 5 && "required"@.len()
        == 8 && "default"@.len() == 7);
    assert(crate::codec::keys_unique(pairs)) by {
        assert(pairs[0].0.len() == 2 && pairs[1].0.len() == 4 && pairs[2].0.len() == 5);
    }
    assert(crate::codec::keys_allowed(pairs)) by {
        assert(crate::codec::param_key_ok(pairs[0].0));
        assert(crate::codec::param_key_ok(pairs[1].0));
        assert(crate::codec::param_key_ok(pairs[2].0));
    }
    let tail1 = pairs.skip(1);
    let tail2 = tail1.skip(1);
    let tail3 = tail2.skip(1);
    let none_pairs: Seq<(Seq<char>, crate::codec::RawV)> = Seq::empty();
    assert(tail1 =~= seq![pairs[1], pairs[2]]);
    assert(tail2 =~= seq![pairs[2]]);
    assert(tail3 =~= none_pairs);
    assert(tail1[0] == pairs[1] && tail2[0] == pairs[2]);
    assert(crate::codec::lookup(pairs, "id"@) == Option::Some(crate::codec::RawV::RStr(id)));
    assert(crate::codec::lookup(tail1, "type"@) == Option::Some(
        crate::codec::RawV::RStr("string"@),
    ));
    assert(crate::codec::lookup(pairs, "type"@) == Option::Some(
        crate::codec::RawV::RStr("string"@),
    ));
    assert(crate::codec::lookup(tail2, "value"@) == Option::Some(crate::codec::RawV::RStr(m)));
    assert(crate::codec::lookup(tail1, "value"@) == Option::Some(crate::codec::RawV::RStr(m)));
    assert(crate::codec::lookup(pairs, "value"@) == Option::Some(crate::codec::RawV::RStr(m)));
    assert(crate::codec::lookup(none_pairs, "required"@) is None);
    assert(crate::codec::lookup(tail2, "required"@) is None);
    assert(crate::codec::lookup(tail1, "required"@) is None);
    assert(crate::codec::lookup(pairs, "required"@) is None);
    assert(crate::codec::lookup(none_pairs, "default"@) is None);
    assert(crate::codec::lookup(tail2, "default"@) is None);
    assert(crate::codec::lookup(tail1, "default"@) is None);
    assert(crate::codec::lookup(pairs, "default"@) is None);
    assert(crate::codec::kind_of_tag("string"@) == Option::Some(crate::job::ParameterKind::Str));
}

/// A serialized string parameter object at `i` parses back to the
/// parameter.
proof fn lemma_parse_param_full(u: Seq<char>, i: int, id: Seq<char>, m: Seq<char>)
    requires
        0 <= i,
        clean_str(id),
        clean_str(m),
        i + 36 + id.len() + m.len() <= u.len(),
        u.subrange(i, i + 36 + id.len() + m.len()) == crate::ser::ser_param(
            str_param_view(id, m),
        ),
    ensures
        crate::codec::sp_param(u, i) == Parsed::POk(
            str_param_view(id, m),
            i + 36 + id.len() + m.len(),
        ),
        u[i] == '{',
{
    lemma_str_param_layout(u, i, id, m);
    lemma_str_param_pairs_at(u, i, id, m);
    lemma_str_param_finalize(id, m);
}

/// A one-element parameters array parses to that parameter.
#[verifier::rlimit(100)]
proof fn lemma_sp_params_one(r: JobResultView, id: Seq<char>, m: Seq<char>)
    requires
        0 <= r.job_id <= u64::MAX as int,
        clean_str(id),
        clean_str(m),
        r.parameters == seq![str_param_view(id, m)],
    ensures
        crate::codec::sp_params(
            ser_job_result(r),
            36 + dec_of(r.job_id).len() as int + status_tag(r.status).len() as int,
        ) == Parsed::POk(
            r.parameters,
            38 + dec_of(r.job_id).len() as int + status_tag(r.status).len() as int
                + ser_params(r.parameters).len() as int,
        ),
{
    reveal_strlit(",\"parameters\":[");
    reveal_strlit("]}");
    lemma_result_layout(r);
    lemma_str_param_len(id, m);
    let u = ser_job_result(r);
    let h3 = ",\"parameters\":["@;
    let h4 = "]}"@;
    let pv = str_param_view(id, m);
    let dl = dec_of(r.job_id).len() as int;
    let tl = status_tag(r.status).len() as int;
    let g = 36 + dl + tl;
    let ll = 36 + id.len() as int + m.len() as int;
    assert(ser_params(r.parameters) == crate::ser::ser_param(pv)) by {
        assert(r.parameters.len() == 1);
        assert(r.parameters[0] == pv);
    }
    let pl = ser_params(r.parameters).len() as int;
    assert(pl == ll);
    assert(u.len() == 39 + dl + tl + pl);
    assert(u.subrange(g + 1, g + 1 + ll) == crate::ser::ser_param(pv));
    assert(u[g] == '[') by {
        assert(u.subrange(g - 14, g + 1)[14] == u[g]);
        assert(h3[14] == '[');
    }
    assert(u[g + 1 + ll] == ']') by {
        assert(u.subrange(g + 1 + ll, g + 3 + ll)[0] == u[g + 1 + ll]);
        assert(h4[0] == ']');
    }
    assert(at(u, g, '['));
    lemma_parse_param_full(u, g + 1, id, m);
    assert(u[g + 1] == '{');
    assert(skip_ws(u, g + 1) == g + 1);
    assert(!at(u, g + 1, ']'));
    assert(skip_ws(u, g + 1 + ll) == g + 1 + ll);
    assert(at(u, g + 1 + ll, ']'));
    assert(!at(u, g + 1 + ll, ','));
    assert(crate::codec::sp_param_elems(u, g + 1, Seq::empty()) == Parsed::POk(
        Seq::<ParamView>::empty().push(pv),
        g + 2 + ll,
    ));
    assert(Seq::<ParamView>::empty().push(pv) =~= r.parameters);
    assert(crate::codec::sp_params(u, g) == Parsed::POk(r.parameters, g + 2 + ll));
}

/// Parsing a serialized job result with exactly one string output
/// parameter yields it back: the round trip is the identity on `job_id`,
/// `status` and `parameters`, for any clean parameter id and value.
pub proof fn lemma_result_round_trip_one_param(r: JobResultView, id: Seq<char>, m: Seq<char>)
    requires
        0 <= r.job_id <= u64::MAX as int,
        clean_str(id),
        clean_str(m),
        r.parameters == seq![str_param_view(id, m)],
    ensures
        sp_result_envelope(ser_job_result(r)) == ResParse::ROk(r.job_id, r.status, r.parameters),
{
    lemma_rt_head(r);
    lemma_rt_status(r);
    lemma_sp_params_one(r, id, m);
    lemma_rt_tail_given(r);
}

/// Parsing a serialized job result yields back its fields: the round trip
/// through the response envelope is the identity on `job_id`, `status` and
/// `parameters`, here shown for a result without output parameters.
pub proof fn lemma_result_round_trip(r: JobResultView)
    requires
        0 <= r.job_id <= u64::MAX as int,
        r.parameters == Seq::<ParamView>::empty(),
    ensures
        sp_result_envelope(ser_job_result(r)) == ResParse::ROk(r.job_id, r.status, r.parameters),
{
    lemma_rt_head(r);
    lemma_rt_status(r);
    lemma_sp_params_empty(r);
    lemma_rt_tail_given(r);
}

proof fn lemma_val_dec_of(n: int)
    requires
        n >= 0,
    ensures
        val_digits(dec_of(n), 0) == n,
{
    reveal_strlit("0");
    if n == 0 {
        assert(dec_of(0) == "0"@);
        assert(dec_of(0).len() == 1);
        assert(dec_of(0)[0] == '0');
        assert(dec_of(0).skip(1) =~= Seq::<char>::empty());
        assert(('0') as u32 == 48);
        assert(digit_val('0') == 0);
        assert(val_digits(dec_of(0), 0) == val_digits(Seq::<char>::empty(), 0 * 10 + digit_val(
            '0',
        )));
        assert(val_digits(Seq::<char>::empty(), 0) == 0);
    } else {
        lemma_val_dec_digits(n);
    }
}

} // verus!
