//! Character-level primitives shared by the substitution engine and the
//! parsers: token occurrence predicates and conversions between `str` and
//! `Vec<char>`.
use vstd::prelude::*;

verus! {

/// Whether the token `t` occurs in `s` starting at position `i`.
pub open spec fn occurs_at(s: Seq<char>, t: Seq<char>, i: int) -> bool {
    0 <= i && i + t.len() <= s.len() && s.subrange(i, i + t.len() as int) == t
}

/// The position of the first occurrence of `t` in `s` at or after `i`.
pub open spec fn first_occurrence_from(s: Seq<char>, t: Seq<char>, i: int) -> Option<int>
    decreases s.len() - i,
{
    if i < 0 || i > s.len() {
        None
    } else if occurs_at(s, t, i) {
        Some(i)
    } else if i == s.len() {
        None
    } else {
        first_occurrence_from(s, t, i + 1)
    }
}

pub proof fn lemma_first_occurrence_from(s: Seq<char>, t: Seq<char>, i: int)
    requires
        0 <= i,
    ensures
        match first_occurrence_from(s, t, i) {
            Some(p) => i <= p && occurs_at(s, t, p) && (forall|j: int|
                i <= j < p ==> !occurs_at(s, t, j)),
            None => forall|j: int| j >= i ==> !occurs_at(s, t, j),
        },
    decreases s.len() - i,
{
    if i > s.len() {
    } else if occurs_at(s, t, i) {
    } else if i == s.len() {
    } else {
        lemma_first_occurrence_from(s, t, i + 1);
    }
}

/// Relies on std's str::chars: the characters of the string, in order.
#[verifier::external_body]
pub(crate) fn str_to_chars(s: &str) -> (v: Vec<char>)
    ensures
        v@ == s@,
{
    s.chars().collect()
}

/// Relies on std's String FromIterator over chars: the characters joined in order.
#[verifier::external_body]
pub(crate) fn chars_to_string(v: &Vec<char>) -> (s: String)
    ensures
        s@ == v@,
{
    v.iter().collect()
}

/// Whether `p` occurs in `s` at position `i`, decided by comparing characters.
pub(crate) fn is_match_at(s: &Vec<char>, p: &Vec<char>, i: usize) -> (b: bool)
    requires
        i + p@.len() <= s@.len(),
    ensures
        b == occurs_at(s@, p@, i as int),
{
    let slen = s.len();
    let mut j: usize = 0;
    while j < p.len()
        invariant
            slen == s@.len(),
            i + p@.len() <= s@.len(),
            j <= p@.len(),
            forall|k: int| 0 <= k < j ==> s@[i + k] == p@[k],
        decreases p@.len() - j,
    {
        if s[i + j] != p[j] {
            proof {
                assert(s@.subrange(i as int, i + p@.len())[j as int] == s@[i + j]);
            }
            return false;
        }
        j += 1;
    }
    proof {
        assert(s@.subrange(i as int, i + p@.len()) =~= p@);
    }
    true
}

} // verus!

verus! {

/// The position of the first occurrence of `p` in `s` at or after `start`.
pub(crate) fn find_occurrence_from(s: &Vec<char>, p: &Vec<char>, start: usize) -> (r: Option<
    usize,
>)
    ensures
        match r {
            Some(i) => first_occurrence_from(s@, p@, start as int) == Some(i as int),
            None => first_occurrence_from(s@, p@, start as int) is None,
        },
{
    if p.len() > s.len() || start > s.len() - p.len() {
        proof {
            lemma_first_occurrence_from(s@, p@, start as int);
        }
        return None;
    }
    let bound = s.len() - p.len();
    let mut i: usize = start;
    loop
        invariant
            p@.len() <= s@.len(),
            start <= i <= bound,
            bound == s@.len() - p@.len(),
            first_occurrence_from(s@, p@, start as int) == first_occurrence_from(
                s@,
                p@,
                i as int,
            ),
        decreases bound - i,
    {
        if is_match_at(s, p, i) {
            return Some(i);
        }
        if i == bound {
            proof {
                lemma_first_occurrence_from(s@, p@, i + 1);
            }
            return None;
        }
        i += 1;
    }
}

/// A `Vec<char>`'s deep view is its view.
pub proof fn lemma_vec_char_deep(v: Vec<char>)
    ensures
        v.deep_view() == v@,
{
    assert(v.deep_view() =~= v@);
}

/// The characters `s[a..b]` as a fresh vector.
pub(crate) fn subvec(s: &Vec<char>, a: usize, b: usize) -> (out: Vec<char>)
    requires
        a <= b <= s@.len(),
    ensures
        out@ == s@.subrange(a as int, b as int),
{
    let mut out: Vec<char> = Vec::new();
    let mut j: usize = a;
    while j < b
        invariant
            a <= j <= b <= s@.len(),
            out@ == s@.subrange(a as int, j as int),
        decreases b - j,
    {
        out.push(s[j]);
        proof {
            assert(out@ =~= s@.subrange(a as int, j + 1));
        }
        j += 1;
    }
    out
}

} // verus!
