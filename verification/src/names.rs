//! Interim interface names.
//!
//! The kernel veth factory needs both endpoint names in one call, in the
//! host namespace, before either end is moved and renamed; the interim names
//! must therefore collide neither with one another nor with any name already
//! taken. Candidates are drawn at random and retried on collision, so across
//! one run no two interim names are equal and none equals an avoided name.

use vstd::prelude::*;

use vstd::string::StringExecFns;

use rand::Rng;

use crate::util::view_seq;

verus! {

/// An ASCII letter or digit.
pub open spec fn is_alnum(c: char) -> bool {
    ('a' <= c && c <= 'z') || ('A' <= c && c <= 'Z') || ('0' <= c && c <= '9')
}

/// The shape of an interim name: the fixed prefix and four alphanumeric
/// characters.
pub open spec fn interim_name_wf(s: Seq<char>) -> bool {
    &&& s.len() == 8
    &&& s.subrange(0, 4) == "eth-"@
    &&& forall|i: int| 4 <= i < 8 ==> is_alnum(#[trigger] s[i])
}

/// Relies on rand::thread_rng and rand::distributions::Alphanumeric: the
/// four sampled characters are ASCII letters or digits. Which ones is
/// chance, so the contract states only what holds of every outcome.
#[verifier::external_body]
fn random_suffix() -> (r: String)
    ensures
        r@.len() == 4,
        forall|i: int| 0 <= i < 4 ==> is_alnum(#[trigger] r@[i]),
{
    rand::thread_rng().sample_iter(&rand::distributions::Alphanumeric).take(4).map(char::from).collect()
}

/// One candidate interim name: the fixed prefix and four random characters.
fn random_interim_name() -> (r: String)
    ensures
        interim_name_wf(r@),
{
    let suffix = random_suffix();
    let mut s = String::from_str("eth-");
    s.append(suffix.as_str());
    proof {
        reveal_strlit("eth-");
        assert(s@.subrange(0, 4) =~= "eth-"@);
        assert forall|i: int| 4 <= i < 8 implies is_alnum(#[trigger] s@[i]) by {
            assert(s@[i] == suffix@[i - 4]);
        }
    }
    s
}

/// Whether `x` occurs in `s`.
pub open spec fn str_seq_contains(s: Seq<Seq<char>>, x: Seq<char>) -> bool {
    exists|i: int| 0 <= i < s.len() && s[i] == x
}

/// Whether the string occurs in the vector.
pub fn vec_contains_string(v: &Vec<String>, s: &String) -> (r: bool)
    ensures
        r == str_seq_contains(view_seq(v@), s@),
{
    let n = v.len();
    let mut i: usize = 0;
    while i < n
        invariant
            n == v@.len(),
            i <= n,
            forall|j: int| 0 <= j < i ==> v@[j]@ != s@,
        decreases n - i,
    {
        if v[i] == *s {
            proof {
                assert(view_seq(v@)[i as int] == v@[i as int]@);
            }
            return true;
        }
        i += 1;
    }
    proof {
        assert forall|j: int| 0 <= j < v@.len() implies view_seq(v@)[j] != s@ by {
            assert(view_seq(v@)[j] == v@[j]@);
        }
    }
    false
}

/// A name stays found when another is appended.
pub proof fn lemma_contains_push(s: Seq<Seq<char>>, x: Seq<char>, y: Seq<char>)
    requires
        str_seq_contains(s, x),
    ensures
        str_seq_contains(s.push(y), x),
{
    let i = choose|i: int| 0 <= i < s.len() && s[i] == x;
    assert(s.push(y)[i] == s[i]);
}

/// The generated names are well formed and pairwise distinct across both
/// vectors.
pub open spec fn interims_distinct(a: Seq<Seq<char>>, b: Seq<Seq<char>>) -> bool {
    &&& forall|i: int| 0 <= i < a.len() ==> interim_name_wf(#[trigger] a[i])
    &&& forall|i: int| 0 <= i < b.len() ==> interim_name_wf(#[trigger] b[i])
    &&& forall|i: int, j: int| 0 <= i < j < a.len() ==> a[i] != a[j]
    &&& forall|i: int, j: int| 0 <= i < j < b.len() ==> b[i] != b[j]
    &&& forall|i: int, j: int| 0 <= i < a.len() && 0 <= j < b.len() ==> a[i] != b[j]
}

/// The generated names are well formed, pairwise distinct across both
/// vectors, and none occurs in `avoid`.
pub open spec fn interims_ok(a: Seq<Seq<char>>, b: Seq<Seq<char>>, avoid: Seq<Seq<char>>) -> bool {
    &&& interims_distinct(a, b)
    &&& forall|i: int, k: int|
        0 <= i < a.len() && 0 <= k < avoid.len() ==> #[trigger] a[i] != #[trigger] avoid[k]
    &&& forall|i: int, k: int|
        0 <= i < b.len() && 0 <= k < avoid.len() ==> #[trigger] b[i] != #[trigger] avoid[k]
}

/// Draws one name that occurs neither in `avoid` nor in `a` nor in `b`,
/// retrying on collision a bounded number of times.
#[verifier::loop_isolation(false)]
fn fresh_name(avoid: &Vec<String>, a: &Vec<String>, b: &Vec<String>) -> (r: Option<String>)
    ensures
        r matches Some(s) ==> interim_name_wf(s@) && !str_seq_contains(view_seq(avoid@), s@)
            && !str_seq_contains(view_seq(a@), s@) && !str_seq_contains(view_seq(b@), s@),
{
    let mut tries: usize = 0;
    while tries < 64
        invariant
            tries <= 64,
        decreases 64 - tries,
    {
        let cand = random_interim_name();
        if !vec_contains_string(avoid, &cand) && !vec_contains_string(a, &cand)
            && !vec_contains_string(b, &cand) {
            return Some(cand);
        }
        tries += 1;
    }
    None
}

/// Draws the interim names for `count` links: one pair per link, all
/// pairwise distinct and none among `avoid`. Returns `None` only when the
/// retry bound is exhausted on a name; with no name to draw, success is
/// certain.
#[verifier::loop_isolation(false)]
pub fn generate_interim_names(count: usize, avoid: &Vec<String>) -> (r: Option<
    (Vec<String>, Vec<String>),
>)
    ensures
        r matches Some(p) ==> p.0@.len() == count && p.1@.len() == count && interims_ok(
            view_seq(p.0@),
            view_seq(p.1@),
            view_seq(avoid@),
        ),
        count == 0 ==> r is Some,
{
    let mut a: Vec<String> = Vec::new();
    let mut b: Vec<String> = Vec::new();
    let mut i: usize = 0;
    proof {
        assert(view_seq(a@) =~= Seq::<Seq<char>>::empty());
        assert(view_seq(b@) =~= Seq::<Seq<char>>::empty());
    }
    while i < count
        invariant
            i <= count,
            a@.len() == i,
            b@.len() == i,
            interims_ok(view_seq(a@), view_seq(b@), view_seq(avoid@)),
        decreases count - i,
    {
        let na = match fresh_name(avoid, &a, &b) {
            Some(s) => s,
            None => {
                return None;
            },
        };
        proof {
            let ghost pa = view_seq(a@);
            assert(view_seq(a@.push(na)) =~= pa.push(na@));
            assert(forall|j: int| 0 <= j < pa.len() ==> pa[j] == #[trigger] pa.push(na@)[j]);
        }
        a.push(na);
        let nb = match fresh_name(avoid, &a, &b) {
            Some(s) => s,
            None => {
                return None;
            },
        };
        proof {
            let ghost pb = view_seq(b@);
            assert(view_seq(b@.push(nb)) =~= pb.push(nb@));
            assert(forall|j: int| 0 <= j < pb.len() ==> pb[j] == #[trigger] pb.push(nb@)[j]);
        }
        b.push(nb);
        i += 1;
    }
    Some((a, b))
}

} // verus!
