//! The escape-aware token-substitution engine: finding unescaped occurrences
//! of a token, replacing them to a fixed point, and stripping leftover
//! `##NAME##` placeholders.
use vstd::prelude::*;

use crate::text::{chars_to_string, is_match_at, occurs_at, str_to_chars};

verus! {

/// A position is unescaped when it is at the start of the text or the
/// character just before it is not a backslash.
pub open spec fn unescaped_at(s: Seq<char>, i: int) -> bool {
    i == 0 || s[i - 1] != '\\'
}

/// An occurrence of `t` in `s` at `i` whose preceding character is not a
/// backslash (position 0 always counts as unescaped).
pub open spec fn is_unescaped_occurrence(s: Seq<char>, t: Seq<char>, i: int) -> bool {
    occurs_at(s, t, i) && unescaped_at(s, i)
}

pub open spec fn has_unescaped(s: Seq<char>, t: Seq<char>) -> bool {
    exists|i: int| is_unescaped_occurrence(s, t, i)
}

/// The position of the first unescaped occurrence of `t` in `s` at or after `i`.
pub open spec fn first_unescaped_from(s: Seq<char>, t: Seq<char>, i: int) -> Option<int>
    decreases s.len() - i,
{
    if i < 0 || i > s.len() {
        None
    } else if is_unescaped_occurrence(s, t, i) {
        Some(i)
    } else if i == s.len() {
        None
    } else {
        first_unescaped_from(s, t, i + 1)
    }
}

pub proof fn lemma_first_unescaped_from(s: Seq<char>, t: Seq<char>, i: int)
    requires
        0 <= i,
    ensures
        match first_unescaped_from(s, t, i) {
            Some(p) => i <= p && is_unescaped_occurrence(s, t, p) && (forall|j: int|
                i <= j < p ==> !is_unescaped_occurrence(s, t, j)),
            None => forall|j: int| j >= i ==> !is_unescaped_occurrence(s, t, j),
        },
    decreases s.len() - i,
{
    if i > s.len() {
    } else if is_unescaped_occurrence(s, t, i) {
    } else if i == s.len() {
    } else {
        lemma_first_unescaped_from(s, t, i + 1);
    }
}

/// One substitution step: the first unescaped occurrence of `t` is replaced
/// by `r`; a text without one is left unchanged.
pub open spec fn replace_once(s: Seq<char>, t: Seq<char>, r: Seq<char>) -> Seq<char> {
    match first_unescaped_from(s, t, 0) {
        Some(i) => s.subrange(0, i) + r + s.subrange(i + t.len(), s.len() as int),
        None => s,
    }
}

/// `n` substitution steps, each rescanning the whole text from the start.
pub open spec fn replace_n(s: Seq<char>, t: Seq<char>, r: Seq<char>, n: nat) -> Seq<char>
    decreases n,
{
    if n == 0 {
        s
    } else {
        replace_once(replace_n(s, t, r, (n - 1) as nat), t, r)
    }
}

/// Whether the substitution loop terminates: some number of steps reaches a
/// text with no unescaped occurrence of `t` left. A replacement value that
/// reintroduces its own token never reaches such a fixed point.
pub open spec fn reaches_fixpoint(s: Seq<char>, t: Seq<char>, r: Seq<char>) -> bool {
    exists|n: nat| !has_unescaped(#[trigger] replace_n(s, t, r, n), t)
}

/// The fixed point of the substitution loop (meaningful only where
/// `reaches_fixpoint` holds).
pub open spec fn replace_fix(s: Seq<char>, t: Seq<char>, r: Seq<char>) -> Seq<char> {
    replace_n(s, t, r, choose|n: nat| !has_unescaped(#[trigger] replace_n(s, t, r, n), t))
}

pub proof fn lemma_replace_once_clean(s: Seq<char>, t: Seq<char>, r: Seq<char>)
    requires
        !has_unescaped(s, t),
    ensures
        replace_once(s, t, r) == s,
{
    lemma_first_unescaped_from(s, t, 0);
    if first_unescaped_from(s, t, 0) is Some {
        assert(is_unescaped_occurrence(s, t, first_unescaped_from(s, t, 0)->Some_0));
    }
}

/// Once a step count reaches the fixed point, further steps change nothing.
pub proof fn lemma_replace_n_stable(s: Seq<char>, t: Seq<char>, r: Seq<char>, n: nat, m: nat)
    requires
        !has_unescaped(replace_n(s, t, r, n), t),
        n <= m,
    ensures
        replace_n(s, t, r, m) == replace_n(s, t, r, n),
    decreases m,
{
    if m > n {
        lemma_replace_n_stable(s, t, r, n, (m - 1) as nat);
        lemma_replace_once_clean(replace_n(s, t, r, (m - 1) as nat), t, r);
    }
}

/// The fixed point is unique: any step count that reaches a clean text
/// yields the fixed point itself.
pub proof fn lemma_replace_fix(s: Seq<char>, t: Seq<char>, r: Seq<char>, n: nat)
    requires
        !has_unescaped(replace_n(s, t, r, n), t),
    ensures
        replace_fix(s, t, r) == replace_n(s, t, r, n),
        !has_unescaped(replace_fix(s, t, r), t),
        reaches_fixpoint(s, t, r),
{
    let n0 = choose|k: nat| !has_unescaped(#[trigger] replace_n(s, t, r, k), t);
    assert(!has_unescaped(replace_n(s, t, r, n0), t));
    if n <= n0 {
        lemma_replace_n_stable(s, t, r, n, n0);
    } else {
        lemma_replace_n_stable(s, t, r, n0, n);
    }
}

/// The first unescaped occurrence of `p` in `s`, decided by scanning left to
/// right.
pub(crate) fn first_unescaped_match(s: &Vec<char>, p: &Vec<char>) -> (r: Option<usize>)
    ensures
        match r {
            Some(i) => first_unescaped_from(s@, p@, 0) == Some(i as int),
            None => first_unescaped_from(s@, p@, 0) is None,
        },
{
    if p.len() > s.len() {
        proof {
            lemma_first_unescaped_from(s@, p@, 0);
        }
        return None;
    }
    let bound = s.len() - p.len();
    let mut i: usize = 0;
    loop
        invariant
            p@.len() <= s@.len(),
            0 <= i <= bound,
            bound == s@.len() - p@.len(),
            first_unescaped_from(s@, p@, 0) == first_unescaped_from(s@, p@, i as int),
        decreases bound - i,
    {
        if is_match_at(s, p, i) && (i == 0 || s[i - 1] != '\\') {
            assert(is_unescaped_occurrence(s@, p@, i as int));
            return Some(i);
        }
        assert(!is_unescaped_occurrence(s@, p@, i as int));
        if i == bound {
            proof {
                lemma_first_unescaped_from(s@, p@, i + 1);
            }
            return None;
        }
        i += 1;
    }
}

/// Every unescaped occurrence of `pat` in `s`, as positions in ascending
/// order. Every returned position other than 0 has a non-backslash character
/// immediately before it.
pub fn find_all_unescaped(s: &str, pat: &str) -> (r: Vec<usize>)
    ensures
        forall|j: int| 0 <= j < r@.len() ==> is_unescaped_occurrence(s@, pat@, r@[j] as int),
        forall|j: int, k: int| 0 <= j < k < r@.len() ==> r@[j] < r@[k],
        forall|i: int|
            #[trigger] is_unescaped_occurrence(s@, pat@, i) ==> exists|j: int|
                0 <= j < r@.len() && r@[j] as int == i,
{
    let sv = str_to_chars(s);
    let pv = str_to_chars(pat);
    let mut out: Vec<usize> = Vec::new();
    if pv.len() > sv.len() {
        return out;
    }
    let bound = sv.len() - pv.len();
    let mut i: usize = 0;
    loop
        invariant_except_break
            forall|j: int| 0 <= j < out@.len() ==> out@[j] < i,
            forall|q: int|
                0 <= q < i && #[trigger] is_unescaped_occurrence(s@, pat@, q) ==> exists|j: int|
                    0 <= j < out@.len() && out@[j] as int == q,
        invariant
            sv@ == s@,
            pv@ == pat@,
            pv@.len() <= sv@.len(),
            0 <= i <= bound,
            bound == sv@.len() - pv@.len(),
            forall|j: int| 0 <= j < out@.len() ==> is_unescaped_occurrence(s@, pat@, out@[j] as int),
            forall|j: int, k: int| 0 <= j < k < out@.len() ==> out@[j] < out@[k],
        ensures
            forall|j: int| 0 <= j < out@.len() ==> is_unescaped_occurrence(s@, pat@, out@[j] as int),
            forall|j: int, k: int| 0 <= j < k < out@.len() ==> out@[j] < out@[k],
            forall|q: int|
                0 <= q <= bound && #[trigger] is_unescaped_occurrence(s@, pat@, q) ==> exists|j: int|
                    0 <= j < out@.len() && out@[j] as int == q,
        decreases bound - i,
    {
        let ghost out0 = out@;
        let matched = is_match_at(&sv, &pv, i) && (i == 0 || sv[i - 1] != '\\');
        if matched {
            assert(is_unescaped_occurrence(s@, pat@, i as int));
            out.push(i);
        } else {
            assert(!is_unescaped_occurrence(s@, pat@, i as int));
        }
        proof {
            assert forall|q: int|
                0 <= q <= i && #[trigger] is_unescaped_occurrence(s@, pat@, q) implies exists|j: int|
                    0 <= j < out@.len() && out@[j] as int == q by {
                if q == i as int {
                    assert(matched);
                    assert(out@[out@.len() - 1] as int == q);
                } else {
                    assert(exists|j: int| 0 <= j < out0.len() && out0[j] as int == q);
                    let jw = choose|j: int| 0 <= j < out0.len() && out0[j] as int == q;
                    assert(out@[jw] as int == q);
                }
            }
        }
        if i == bound {
            break;
        }
        i += 1;
    }
    out
}

/// The characters `s[..i] + rep + s[i + plen ..]`.
pub(crate) fn splice(s: &Vec<char>, i: usize, plen: usize, rep: &Vec<char>) -> (out: Vec<char>)
    requires
        i + plen <= s@.len(),
    ensures
        out@ == s@.subrange(0, i as int) + rep@ + s@.subrange(i + plen, s@.len() as int),
{
    let mut out: Vec<char> = Vec::new();
    let mut j: usize = 0;
    while j < i
        invariant
            i + plen <= s@.len(),
            j <= i,
            out@ == s@.subrange(0, j as int),
        decreases i - j,
    {
        out.push(s[j]);
        proof {
            assert(out@ =~= s@.subrange(0, j + 1));
        }
        j += 1;
    }
    j = 0;
    while j < rep.len()
        invariant
            i + plen <= s@.len(),
            j <= rep@.len(),
            out@ == s@.subrange(0, i as int) + rep@.subrange(0, j as int),
        decreases rep@.len() - j,
    {
        out.push(rep[j]);
        proof {
            assert(out@ =~= s@.subrange(0, i as int) + rep@.subrange(0, j + 1));
        }
        j += 1;
    }
    proof {
        assert(rep@.subrange(0, rep@.len() as int) =~= rep@);
    }
    let slen = s.len();
    j = i + plen;
    while j < slen
        invariant
            slen == s@.len(),
            i + plen <= j <= s@.len(),
            out@ == s@.subrange(0, i as int) + rep@ + s@.subrange(i + plen, j as int),
        decreases s@.len() - j,
    {
        out.push(s[j]);
        proof {
            assert(out@ =~= s@.subrange(0, i as int) + rep@ + s@.subrange(i + plen, j + 1));
        }
        j += 1;
    }
    out
}

/// Repeatedly replaces the first unescaped occurrence of `pat` with `rep`,
/// rescanning the whole text from the start after every step, until no
/// unescaped occurrence remains. The caller owes that this fixed point is
/// reachable; a replacement that keeps reintroducing the token has none.
pub fn replace_all_unescaped(s: &str, pat: &str, rep: &str) -> (out: String)
    requires
        reaches_fixpoint(s@, pat@, rep@),
    ensures
        out@ == replace_fix(s@, pat@, rep@),
        !has_unescaped(out@, pat@),
        !has_unescaped(s@, pat@) ==> out@ == s@,
{
    let pv = str_to_chars(pat);
    let rv = str_to_chars(rep);
    let mut cur = str_to_chars(s);
    let ghost n0 = choose|n: nat| !has_unescaped(#[trigger] replace_n(s@, pat@, rep@, n), pat@);
    let ghost mut k: nat = 0;
    loop
        invariant
            pv@ == pat@,
            rv@ == rep@,
            cur@ == replace_n(s@, pat@, rep@, k),
            !has_unescaped(replace_n(s@, pat@, rep@, n0), pat@),
            k <= n0,
        ensures
            cur@ == replace_n(s@, pat@, rep@, k),
            !has_unescaped(cur@, pat@),
        decreases n0 - k,
    {
        match first_unescaped_match(&cur, &pv) {
            None => {
                proof {
                    lemma_first_unescaped_from(cur@, pat@, 0);
                }
                break;
            },
            Some(i) => {
                proof {
                    lemma_first_unescaped_from(cur@, pat@, 0);
                    assert(is_unescaped_occurrence(cur@, pat@, i as int));
                }
                let next = splice(&cur, i, pv.len(), &rv);
                proof {
                    assert(next@ == replace_once(cur@, pat@, rep@));
                    assert(next@ == replace_n(s@, pat@, rep@, k + 1));
                    // the loop has not yet reached the fixed point, so k < n0
                    if k >= n0 {
                        lemma_replace_n_stable(s@, pat@, rep@, n0, k);
                        assert(false);
                    }
                    k = k + 1;
                }
                cur = next;
            },
        }
    }
    proof {
        lemma_replace_fix(s@, pat@, rep@, k);
        if !has_unescaped(s@, pat@) {
            lemma_replace_fix(s@, pat@, rep@, 0);
        }
    }
    chars_to_string(&cur)
}

} // verus!

verus! {

/// A well-formed placeholder `##NAME##` spanning `s[i..e)`: two hashes, a
/// nonempty name free of `#` and newline, two hashes.
pub open spec fn is_tag(s: Seq<char>, i: int, e: int) -> bool {
    &&& 0 <= i
    &&& i + 5 <= e <= s.len()
    &&& s[i] == '#'
    &&& s[i + 1] == '#'
    &&& s[e - 2] == '#'
    &&& s[e - 1] == '#'
    &&& forall|k: int| i + 2 <= k < e - 2 ==> s[k] != '#' && s[k] != '\n'
}

pub open spec fn tag_at(s: Seq<char>, i: int) -> bool {
    exists|e: int| is_tag(s, i, e)
}

/// The end of the tag that starts at `i` (unique where one exists).
pub open spec fn tag_end(s: Seq<char>, i: int) -> int {
    choose|e: int| is_tag(s, i, e)
}

pub proof fn lemma_tag_end_unique(s: Seq<char>, i: int, e1: int, e2: int)
    requires
        is_tag(s, i, e1),
        is_tag(s, i, e2),
    ensures
        e1 == e2,
{
    if e1 < e2 {
        assert(s[e1 - 2] == '#');
        assert(i + 2 <= e1 - 2 < e2 - 2);
    }
    if e2 < e1 {
        assert(s[e2 - 2] == '#');
        assert(i + 2 <= e2 - 2 < e1 - 2);
    }
}

/// A tag occurrence that the scanner recognizes: well-formed and not
/// preceded by a backslash.
pub open spec fn label_at(s: Seq<char>, i: int) -> bool {
    tag_at(s, i) && unescaped_at(s, i)
}

/// The name between the hash pairs of the tag at `i`.
pub open spec fn tag_name(s: Seq<char>, i: int) -> Seq<char> {
    s.subrange(i + 2, tag_end(s, i) - 2)
}

/// The position of the first recognized label at or after `i`.
pub open spec fn first_label_from(s: Seq<char>, i: int) -> Option<int>
    decreases s.len() - i,
{
    if i < 0 || i >= s.len() {
        None
    } else if label_at(s, i) {
        Some(i)
    } else {
        first_label_from(s, i + 1)
    }
}

pub proof fn lemma_first_label_from(s: Seq<char>, i: int)
    requires
        0 <= i,
    ensures
        match first_label_from(s, i) {
            Some(p) => i <= p < s.len() && label_at(s, p) && (forall|j: int|
                i <= j < p ==> !label_at(s, j)),
            None => forall|j: int| j >= i ==> !label_at(s, j),
        },
    decreases s.len() - i,
{
    if i >= s.len() {
        assert forall|j: int| j >= i implies !label_at(s, j) by {
            if label_at(s, j) {
                let e = tag_end(s, j);
                assert(is_tag(s, j, e));
            }
        }
    } else if label_at(s, i) {
    } else {
        lemma_first_label_from(s, i + 1);
    }
}

/// The text with every recognized tag removed, scanning left to right from
/// `i` and resuming after each removed tag.
pub open spec fn strip_from(s: Seq<char>, i: int) -> Seq<char>
    decreases s.len() - i
        via strip_from_dec
{
    if i < 0 || i >= s.len() {
        Seq::empty()
    } else if label_at(s, i) {
        strip_from(s, tag_end(s, i))
    } else {
        seq![s[i]] + strip_from(s, i + 1)
    }
}

#[via_fn]
proof fn strip_from_dec(s: Seq<char>, i: int) {
    if 0 <= i < s.len() && label_at(s, i) {
        let e = tag_end(s, i);
        assert(is_tag(s, i, e));
    }
}

/// No tag starts at `i` when the name scan that stopped at `j` cannot be
/// closed by a hash pair.
proof fn lemma_scan_no_tag(s: Seq<char>, i: int, j: int)
    requires
        0 <= i,
        i + 2 <= j <= s.len(),
        forall|k: int| i + 2 <= k < j ==> s[k] != '#' && s[k] != '\n',
        j < s.len() ==> (s[j] == '#' || s[j] == '\n'),
        j == i + 2 || j == s.len() || (j < s.len() && s[j] == '\n') || (j + 1 < s.len() && s[j
            + 1] != '#') || j + 1 == s.len(),
    ensures
        !tag_at(s, i),
{
    assert forall|e: int| !is_tag(s, i, e) by {
        if is_tag(s, i, e) {
            if e - 2 < j {
                assert(i + 2 <= e - 2);
                assert(s[e - 2] != '#');
            } else if e - 2 > j {
                assert(i + 2 <= j < e - 2);
                assert(s[j] != '#' && s[j] != '\n');
                assert(j < s.len());
            } else {
                assert(j == e - 2);
                assert(i + 2 <= e - 2);
                assert(j != i + 2);
                assert(j < s.len());
                assert(s[j] == '#');
                assert(j + 1 == e - 1 < s.len());
                assert(s[j + 1] == '#');
            }
        }
    }
}

/// Where the tag starting at `i` ends, or None when no well-formed tag
/// starts there.
pub(crate) fn find_tag_end(v: &Vec<char>, i: usize) -> (r: Option<usize>)
    requires
        i < v@.len(),
    ensures
        match r {
            Some(e) => is_tag(v@, i as int, e as int) && tag_at(v@, i as int) && tag_end(
                v@,
                i as int,
            ) == e as int,
            None => !tag_at(v@, i as int),
        },
{
    let n = v.len();
    if n - i < 5 {
        proof {
            assert forall|e: int| !is_tag(v@, i as int, e) by {}
        }
        return None;
    }
    if v[i] != '#' || v[i + 1] != '#' {
        proof {
            assert forall|e: int| !is_tag(v@, i as int, e) by {}
        }
        return None;
    }
    let mut j: usize = i + 2;
    while j < n && v[j] != '#' && v[j] != '\n'
        invariant
            n == v@.len(),
            i + 2 <= j <= n,
            forall|k: int| i + 2 <= k < j ==> v@[k] != '#' && v@[k] != '\n',
        decreases n - j,
    {
        j += 1;
    }
    if j == i + 2 || j == n || v[j] == '\n' || j + 1 == n || v[j + 1] != '#' {
        proof {
            lemma_scan_no_tag(v@, i as int, j as int);
        }
        return None;
    }
    // v[j] == '#' and v[j + 1] == '#': the tag closes at j + 2
    let e = j + 2;
    proof {
        assert(is_tag(v@, i as int, e as int));
        let e2 = tag_end(v@, i as int);
        assert(is_tag(v@, i as int, e2));
        lemma_tag_end_unique(v@, i as int, e as int, e2);
    }
    Some(e)
}

/// Removes every recognized `##NAME##` placeholder, leaving all other text
/// (including escaped placeholders) unchanged.
pub fn replace_unused_tags(s: &str) -> (r: String)
    ensures
        r@ == strip_from(s@, 0),
{
    let v = str_to_chars(s);
    let n = v.len();
    let mut out: Vec<char> = Vec::new();
    let mut i: usize = 0;
    while i < n
        invariant
            v@ == s@,
            n == v@.len(),
            i <= n,
            strip_from(s@, 0) == out@ + strip_from(s@, i as int),
        decreases n - i,
    {
        let mut skipped = false;
        match find_tag_end(&v, i) {
            Some(e) => {
                if i == 0 || v[i - 1] != '\\' {
                    proof {
                        assert(label_at(s@, i as int));
                        assert(tag_end(s@, i as int) == e as int);
                        assert(strip_from(s@, i as int) == strip_from(s@, e as int));
                    }
                    i = e;
                    skipped = true;
                }
            },
            None => {},
        }
        if !skipped {
            proof {
                assert(!label_at(s@, i as int));
                assert(strip_from(s@, i as int) == seq![s@[i as int]] + strip_from(
                    s@,
                    i + 1,
                ));
            }
            out.push(v[i]);
            proof {
                assert(strip_from(s@, 0) =~= out@ + strip_from(s@, i + 1));
            }
            i += 1;
        }
    }
    proof {
        assert(strip_from(s@, n as int) =~= Seq::<char>::empty());
        assert(out@ =~= out@ + strip_from(s@, n as int));
    }
    chars_to_string(&out)
}

} // verus!

verus! {

/// The first recognized label at or after `start`, decided by scanning.
pub(crate) fn find_first_label(v: &Vec<char>, start: usize) -> (r: Option<usize>)
    requires
        start <= v@.len(),
    ensures
        match r {
            Some(p) => first_label_from(v@, start as int) == Some(p as int) && start <= p
                < v@.len() && label_at(v@, p as int),
            None => first_label_from(v@, start as int) is None,
        },
{
    let n = v.len();
    let mut i: usize = start;
    while i < n
        invariant
            n == v@.len(),
            start <= i <= n,
            first_label_from(v@, start as int) == first_label_from(v@, i as int),
        decreases n - i,
    {
        match find_tag_end(v, i) {
            Some(_) => {
                if i == 0 || v[i - 1] != '\\' {
                    assert(label_at(v@, i as int));
                    return Some(i);
                }
                assert(!label_at(v@, i as int));
            },
            None => {
                assert(!label_at(v@, i as int));
            },
        }
        i += 1;
    }
    None
}

} // verus!
