//! Small verified string helpers shared by the job model and the codec.
use vstd::prelude::*;
use vstd::string::*;

verus! {

/// The model of a vector of strings: the sequence of their views.
pub open spec fn strings_view(s: Seq<String>) -> Seq<Seq<char>> {
    s.map_values(|x: String| x@)
}

/// Character-wise string equality, proved against the views.
pub fn str_eq(a: &str, b: &str) -> (r: bool)
    ensures
        r == (a@ == b@),
{
    let la = a.unicode_len();
    let lb = b.unicode_len();
    if la != lb {
        proof {
            if a@ == b@ {
                assert(a@.len() == b@.len());
            }
        }
        return false;
    }
    let mut i: usize = 0;
    while i < la
        invariant
            i <= la,
            la == a@.len(),
            lb == b@.len(),
            la == lb,
            forall|j: int| 0 <= j < i ==> a@[j] == b@[j],
        decreases la - i,
    {
        if a.get_char(i) != b.get_char(i) {
            proof {
                assert(a@[i as int] != b@[i as int]);
            }
            return false;
        }
        i += 1;
    }
    proof {
        assert(a@ =~= b@);
    }
    true
}

/// Pushing a string commutes with taking views.
pub proof fn lemma_strings_view_push(s: Seq<String>, x: String)
    ensures
        strings_view(s.push(x)) =~= strings_view(s).push(x@),
{
    assert forall|k: int| 0 <= k < s.len() + 1 implies strings_view(s.push(x))[k] == strings_view(
        s,
    ).push(x@)[k] by {
        if k < s.len() {
            assert(s.push(x)[k] == s[k]);
        } else {
            assert(s.push(x)[k] == x);
        }
    }
    assert(strings_view(s.push(x)).len() == strings_view(s).push(x@).len());
}

/// Appends a copy of every string of `v` to `r`, in order.
pub fn extend_strings(r: &mut Vec<String>, v: &Vec<String>)
    ensures
        strings_view(final(r)@) == strings_view(old(r)@) + strings_view(v@),
{
    let mut j: usize = 0;
    proof {
        assert(strings_view(r@) =~= strings_view(old(r)@) + strings_view(v@).take(0));
    }
    while j < v.len()
        invariant
            j <= v@.len(),
            strings_view(r@) == strings_view(old(r)@) + strings_view(v@).take(j as int),
        decreases v@.len() - j,
    {
        let ghost prev = r@;
        r.push(v[j].clone());
        proof {
            assert(r@ == prev.push(v@[j as int]));
            lemma_strings_view_push(prev, v@[j as int]);
            assert(strings_view(v@).take(j as int).push(strings_view(v@)[j as int])
                =~= strings_view(v@).take(j as int + 1));
            assert((strings_view(old(r)@) + strings_view(v@).take(j as int)).push(
                v@[j as int]@,
            ) =~= strings_view(old(r)@) + strings_view(v@).take(j as int).push(v@[j as int]@));
            assert(strings_view(r@) == strings_view(old(r)@) + strings_view(v@).take(
                j as int + 1,
            ));
        }
        j += 1;
    }
    proof {
        assert(strings_view(v@).take(v@.len() as int) =~= strings_view(v@));
    }
}

/// Copies a vector of strings; the model of the copy equals the original's.
pub fn dup_strings(v: &Vec<String>) -> (r: Vec<String>)
    ensures
        strings_view(r@) == strings_view(v@),
{
    let mut r: Vec<String> = Vec::new();
    extend_strings(&mut r, v);
    proof {
        assert(strings_view(r@) =~= strings_view(v@));
    }
    r
}

} // verus!
