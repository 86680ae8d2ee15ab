//! Configuration parsing: single-line `key=value` records, the multi-record
//! block format (records separated by a line holding `----`), ignore lists,
//! and the extension test for markdown files.
use vstd::prelude::*;

use crate::errors::StcError;
use crate::strmap::{upsert, upsert_all, StrMap};
use crate::text::{
    chars_to_string, find_occurrence_from, first_occurrence_from, lemma_first_occurrence_from,
    occurs_at, str_to_chars, subvec,
};

verus! {

/// The whitespace that `key=value` parsing trims from keys and values.
pub open spec fn is_space(c: char) -> bool {
    c == ' ' || c == '\t' || c == '\r' || c == '\n'
}

pub open spec fn trim_start(s: Seq<char>) -> Seq<char>
    decreases s.len(),
{
    if s.len() > 0 && is_space(s[0]) {
        trim_start(s.drop_first())
    } else {
        s
    }
}

pub open spec fn trim_end(s: Seq<char>) -> Seq<char>
    decreases s.len(),
{
    if s.len() > 0 && is_space(s.last()) {
        trim_end(s.drop_last())
    } else {
        s
    }
}

/// The text without its leading and trailing whitespace.
pub open spec fn trim_spec(s: Seq<char>) -> Seq<char> {
    trim_end(trim_start(s))
}

proof fn lemma_trim_start(s: Seq<char>, a: int)
    requires
        0 <= a <= s.len(),
        forall|k: int| 0 <= k < a ==> is_space(s[k]),
        a < s.len() ==> !is_space(s[a]),
    ensures
        trim_start(s) == s.subrange(a, s.len() as int),
    decreases a,
{
    if a == 0 {
        assert(s.subrange(0, s.len() as int) =~= s);
    } else {
        assert(is_space(s[0]));
        lemma_trim_start(s.drop_first(), a - 1);
        assert(s.drop_first().subrange(a - 1, s.drop_first().len() as int) =~= s.subrange(
            a,
            s.len() as int,
        ));
    }
}

proof fn lemma_trim_end(s: Seq<char>, b: int)
    requires
        0 <= b <= s.len(),
        forall|k: int| b <= k < s.len() ==> is_space(s[k]),
        b > 0 ==> !is_space(s[b - 1]),
    ensures
        trim_end(s) == s.subrange(0, b),
    decreases s.len() - b,
{
    if b == s.len() {
        assert(s.subrange(0, s.len() as int) =~= s);
    } else {
        assert(is_space(s.last()));
        lemma_trim_end(s.drop_last(), b);
        assert(s.drop_last().subrange(0, b) =~= s.subrange(0, b));
    }
}

/// The characters of `v` without leading and trailing whitespace.
pub(crate) fn trim_chars(v: &Vec<char>) -> (out: Vec<char>)
    ensures
        out@ == trim_spec(v@),
{
    let n = v.len();
    let mut a: usize = 0;
    while a < n && (v[a] == ' ' || v[a] == '\t' || v[a] == '\r' || v[a] == '\n')
        invariant
            n == v@.len(),
            a <= n,
            forall|k: int| 0 <= k < a ==> is_space(v@[k]),
        decreases n - a,
    {
        a += 1;
    }
    proof {
        lemma_trim_start(v@, a as int);
    }
    let ghost t1 = trim_start(v@);
    assert(t1 == v@.subrange(a as int, n as int));
    let mut b: usize = n;
    while b > a && (v[b - 1] == ' ' || v[b - 1] == '\t' || v[b - 1] == '\r' || v[b - 1] == '\n')
        invariant
            n == v@.len(),
            a <= b <= n,
            forall|k: int| b <= k < n ==> is_space(v@[k]),
        decreases b,
    {
        b -= 1;
    }
    proof {
        assert forall|k: int| (b - a) <= k < t1.len() implies is_space(t1[k]) by {
            assert(t1[k] == v@[a + k]);
        }
        if b > a {
            assert(t1[b - a - 1] == v@[b - 1]);
        }
        lemma_trim_end(t1, b - a);
        assert(t1.subrange(0, b - a) =~= v@.subrange(a as int, b as int));
    }
    subvec(v, a, b)
}

/// A single-line record `key=value`: split at the first `=`, both sides
/// trimmed; a line without `=` is malformed and carried in the error.
pub open spec fn parse_rep_spec(s: Seq<char>) -> Result<(Seq<char>, Seq<char>), Seq<char>> {
    match first_occurrence_from(s, seq!['='], 0) {
        Some(j) => Ok(
            (trim_spec(s.subrange(0, j)), trim_spec(s.subrange(j + 1, s.len() as int))),
        ),
        None => Err(s),
    }
}

/// Core of `parse_rep` over characters.
pub(crate) fn parse_rep_chars(v: &Vec<char>) -> (r: Result<(String, String), StcError>)
    ensures
        match parse_rep_spec(v@) {
            Ok(kv) => r matches Ok(p) && p.0@ == kv.0 && p.1@ == kv.1,
            Err(m) => r matches Err(e) && (e matches StcError::CfgErr(ms) && ms@ == m),
        },
{
    let mut eq: Vec<char> = Vec::new();
    eq.push('=');
    proof {
        assert(eq@ =~= seq!['=']);
    }
    match find_occurrence_from(v, &eq, 0) {
        Some(j) => {
            proof {
                lemma_first_occurrence_from(v@, seq!['='], 0);
                assert(occurs_at(v@, seq!['='], j as int));
                assert(j + 1 <= v@.len());
            }
            let vn = v.len();
            let name = trim_chars(&subvec(v, 0, j));
            let body = trim_chars(&subvec(v, j + 1, vn));
            Ok((chars_to_string(&name), chars_to_string(&body)))
        },
        None => Err(StcError::CfgErr(chars_to_string(v))),
    }
}

/// Splits a single-line record into its trimmed key and value, or reports
/// the malformed line.
pub fn parse_rep(s: &str) -> (r: Result<(String, String), StcError>)
    ensures
        match parse_rep_spec(s@) {
            Ok(kv) => r matches Ok(p) && p.0@ == kv.0 && p.1@ == kv.1,
            Err(m) => r matches Err(e) && (e matches StcError::CfgErr(ms) && ms@ == m),
        },
{
    let v = str_to_chars(s);
    parse_rep_chars(&v)
}

/// The pieces of `s` between non-overlapping occurrences of `sep`, found
/// left to right.
pub open spec fn split_by(s: Seq<char>, sep: Seq<char>) -> Seq<Seq<char>>
    decreases s.len()
        when sep.len() > 0
        via split_by_dec
{
    match first_occurrence_from(s, sep, 0) {
        None => seq![s],
        Some(i) => seq![s.subrange(0, i)] + split_by(
            s.subrange(i + sep.len(), s.len() as int),
            sep,
        ),
    }
}

#[via_fn]
proof fn split_by_dec(s: Seq<char>, sep: Seq<char>) {
    lemma_first_occurrence_from(s, sep, 0);
}

/// The pieces of `v` between occurrences of `sep`, each as a fresh vector.
pub(crate) fn split_all(v: &Vec<char>, sep: &Vec<char>) -> (out: Vec<Vec<char>>)
    requires
        sep@.len() > 0,
    ensures
        out.deep_view() == split_by(v@, sep@),
{
    let mut out: Vec<Vec<char>> = Vec::new();
    let mut rest: Vec<char> = subvec(v, 0, v.len());
    proof {
        assert(rest@ =~= v@);
    }
    loop
        invariant_except_break
            split_by(v@, sep@) =~= out.deep_view() + split_by(rest@, sep@),
        invariant
            sep@.len() > 0,
        ensures
            out.deep_view() =~= split_by(v@, sep@),
        decreases rest@.len(),
    {
        let ghost out0 = out.deep_view();
        let ghost rest0 = rest@;
        match find_occurrence_from(&rest, sep, 0) {
            None => {
                out.push(rest);
                proof {
                    assert(split_by(rest0, sep@) =~= seq![rest0]);
                    assert(out@[out@.len() - 1].deep_view() =~= rest0);
                    assert(out.deep_view() =~= out0 + seq![rest0]);
                }
                break;
            },
            Some(i) => {
                proof {
                    lemma_first_occurrence_from(rest@, sep@, 0);
                    assert(occurs_at(rest@, sep@, i as int));
                    assert(i + sep@.len() <= rest@.len());
                }
                let rn = rest.len();
                let piece = subvec(&rest, 0, i);
                let newrest = subvec(&rest, i + sep.len(), rn);
                out.push(piece);
                rest = newrest;
                proof {
                    assert(split_by(rest0, sep@) =~= seq![rest0.subrange(0, i as int)] + split_by(
                        rest@,
                        sep@,
                    ));
                    assert(out@[out@.len() - 1].deep_view() =~= rest0.subrange(0, i as int));
                    assert(out.deep_view() =~= out0 + seq![rest0.subrange(0, i as int)]);
                    assert(out.deep_view() + split_by(rest@, sep@) =~= out0 + split_by(
                        rest0,
                        sep@,
                    ));
                }
            },
        }
    }
    out
}

/// One block of the multi-record format: with more than one line, the first
/// (trimmed) line is the key and the remaining lines verbatim are the value;
/// a single-line block is a `key=value` record.
pub open spec fn parse_block_spec(b: Seq<char>) -> Result<(Seq<char>, Seq<char>), Seq<char>> {
    match first_occurrence_from(b, seq!['\n'], 0) {
        Some(j) => Ok((trim_spec(b.subrange(0, j)), b.subrange(j + 1, b.len() as int))),
        None => parse_rep_spec(b),
    }
}

/// Every block parsed in order; the first malformed single-line record wins.
pub open spec fn parse_blocks_spec(bs: Seq<Seq<char>>) -> Result<
    Seq<(Seq<char>, Seq<char>)>,
    Seq<char>,
>
    decreases bs.len(),
{
    if bs.len() == 0 {
        Ok(Seq::empty())
    } else {
        match parse_block_spec(bs[0]) {
            Err(m) => Err(m),
            Ok(kv) => match parse_blocks_spec(bs.drop_first()) {
                Err(m) => Err(m),
                Ok(rest) => Ok(seq![kv] + rest),
            },
        }
    }
}

/// The record separator of the block format: a line holding exactly `----`.
pub open spec fn record_sep() -> Seq<char> {
    seq!['\n', '-', '-', '-', '-', '\n']
}

/// The whole multi-record format.
pub open spec fn parse_shit_markup_spec(s: Seq<char>) -> Result<
    Seq<(Seq<char>, Seq<char>)>,
    Seq<char>,
> {
    parse_blocks_spec(split_by(s, record_sep()))
}

fn parse_block(b: &Vec<char>) -> (r: Result<(String, String), StcError>)
    ensures
        match parse_block_spec(b@) {
            Ok(kv) => r matches Ok(p) && p.0@ == kv.0 && p.1@ == kv.1,
            Err(m) => r matches Err(e) && (e matches StcError::CfgErr(ms) && ms@ == m),
        },
{
    let mut nl: Vec<char> = Vec::new();
    nl.push('\n');
    proof {
        assert(nl@ =~= seq!['\n']);
    }
    match find_occurrence_from(b, &nl, 0) {
        Some(j) => {
            proof {
                lemma_first_occurrence_from(b@, seq!['\n'], 0);
                assert(occurs_at(b@, seq!['\n'], j as int));
                assert(j + 1 <= b@.len());
            }
            let bn = b.len();
            let name = trim_chars(&subvec(b, 0, j));
            let body = subvec(b, j + 1, bn);
            Ok((chars_to_string(&name), chars_to_string(&body)))
        },
        None => parse_rep_chars(b),
    }
}

/// Parses the multi-record format: records separated by a line holding
/// exactly `----`; a multi-line record is a trimmed key plus verbatim value,
/// a single-line record is `key=value`.
pub fn parse_shit_markup(s: &str) -> (r: Result<Vec<(String, String)>, StcError>)
    ensures
        match parse_shit_markup_spec(s@) {
            Ok(ps) => r matches Ok(v) && v.deep_view() == ps,
            Err(m) => r matches Err(e) && (e matches StcError::CfgErr(ms) && ms@ == m),
        },
{
    let v = str_to_chars(s);
    let mut sep: Vec<char> = Vec::new();
    sep.push('\n');
    sep.push('-');
    sep.push('-');
    sep.push('-');
    sep.push('-');
    sep.push('\n');
    proof {
        assert(sep@ =~= record_sep());
    }
    let blocks = split_all(&v, &sep);
    let ghost bs = blocks.deep_view();
    let n = blocks.len();
    let mut out: Vec<(String, String)> = Vec::new();
    let mut idx: usize = 0;
    proof {
        assert(bs.skip(0) =~= bs);
        assert(out.deep_view() =~= Seq::<(Seq<char>, Seq<char>)>::empty());
        if parse_blocks_spec(bs) is Ok {
            assert(out.deep_view() + parse_blocks_spec(bs)->Ok_0 =~= parse_blocks_spec(bs)->Ok_0);
        }
    }
    while idx < n
        invariant
            n == bs.len(),
            bs == blocks.deep_view(),
            bs == split_by(s@, record_sep()),
            idx <= n,
            match parse_blocks_spec(bs.skip(idx as int)) {
                Ok(rest) => parse_blocks_spec(bs) == Ok::<_, Seq<char>>(out.deep_view() + rest),
                Err(m) => parse_blocks_spec(bs) == Err::<Seq<(Seq<char>, Seq<char>)>, _>(m),
            },
        decreases n - idx,
    {
        let ghost rem = bs.skip(idx as int);
        proof {
            assert(rem[0] == bs[idx as int]);
            assert(rem.drop_first() =~= bs.skip(idx as int + 1));
            assert(blocks.deep_view()[idx as int] == blocks@[idx as int].deep_view());
            crate::text::lemma_vec_char_deep(blocks@[idx as int]);
            assert(bs[idx as int] == blocks@[idx as int]@);
        }
        let ghost out0 = out.deep_view();
        match parse_block(&blocks[idx]) {
            Err(e) => {
                return Err(e);
            },
            Ok(p) => {
                out.push(p);
                proof {
                    assert(out@[out@.len() - 1].deep_view() == (p.0@, p.1@));
                    assert(out.deep_view() =~= out0.push((p.0@, p.1@)));
                    if parse_blocks_spec(bs.skip(idx as int + 1)) is Ok {
                        let rest2 = parse_blocks_spec(bs.skip(idx as int + 1))->Ok_0;
                        assert(parse_blocks_spec(rem) == Ok::<_, Seq<char>>(
                            seq![(p.0@, p.1@)] + rest2,
                        ));
                        assert(out0 + (seq![(p.0@, p.1@)] + rest2) =~= out.deep_view() + rest2);
                    }
                }
                idx += 1;
            },
        }
    }
    proof {
        assert(bs.skip(n as int) =~= Seq::<Seq<char>>::empty());
        assert(parse_blocks_spec(bs.skip(n as int)) == Ok::<_, Seq<char>>(
            Seq::<(Seq<char>, Seq<char>)>::empty(),
        ));
        assert(out.deep_view() + Seq::<(Seq<char>, Seq<char>)>::empty() =~= out.deep_view());
    }
    Ok(out)
}

/// Every line parsed as a `key=value` record, in order; the first malformed
/// line wins.
pub open spec fn parse_lines_spec(ls: Seq<Seq<char>>) -> Result<
    Seq<(Seq<char>, Seq<char>)>,
    Seq<char>,
>
    decreases ls.len(),
{
    if ls.len() == 0 {
        Ok(Seq::empty())
    } else {
        match parse_rep_spec(ls[0]) {
            Err(m) => Err(m),
            Ok(kv) => match parse_lines_spec(ls.drop_first()) {
                Err(m) => Err(m),
                Ok(rest) => Ok(seq![kv] + rest),
            },
        }
    }
}

/// The single-line configuration format: every newline-separated line is a
/// `key=value` record.
pub open spec fn parse_singleline_scf_spec(s: Seq<char>) -> Result<
    Seq<(Seq<char>, Seq<char>)>,
    Seq<char>,
> {
    parse_lines_spec(split_by(s, seq!['\n']))
}

/// Parses a block of single-line `key=value` records, one per line.
pub fn parse_singleline_scf(s: &str) -> (r: Result<Vec<(String, String)>, StcError>)
    ensures
        match parse_singleline_scf_spec(s@) {
            Ok(ps) => r matches Ok(v) && v.deep_view() == ps,
            Err(m) => r matches Err(e) && (e matches StcError::CfgErr(ms) && ms@ == m),
        },
{
    let v = str_to_chars(s);
    let mut nl: Vec<char> = Vec::new();
    nl.push('\n');
    proof {
        assert(nl@ =~= seq!['\n']);
    }
    let lines = split_all(&v, &nl);
    let ghost ls = lines.deep_view();
    let n = lines.len();
    let mut out: Vec<(String, String)> = Vec::new();
    let mut idx: usize = 0;
    proof {
        assert(ls.skip(0) =~= ls);
        assert(out.deep_view() =~= Seq::<(Seq<char>, Seq<char>)>::empty());
        if parse_lines_spec(ls) is Ok {
            assert(out.deep_view() + parse_lines_spec(ls)->Ok_0 =~= parse_lines_spec(ls)->Ok_0);
        }
    }
    while idx < n
        invariant
            n == ls.len(),
            ls == lines.deep_view(),
            ls == split_by(s@, seq!['\n']),
            idx <= n,
            match parse_lines_spec(ls.skip(idx as int)) {
                Ok(rest) => parse_lines_spec(ls) == Ok::<_, Seq<char>>(out.deep_view() + rest),
                Err(m) => parse_lines_spec(ls) == Err::<Seq<(Seq<char>, Seq<char>)>, _>(m),
            },
        decreases n - idx,
    {
        let ghost rem = ls.skip(idx as int);
        proof {
            assert(rem[0] == ls[idx as int]);
            assert(rem.drop_first() =~= ls.skip(idx as int + 1));
            assert(lines.deep_view()[idx as int] == lines@[idx as int].deep_view());
            crate::text::lemma_vec_char_deep(lines@[idx as int]);
            assert(ls[idx as int] == lines@[idx as int]@);
        }
        let ghost out0 = out.deep_view();
        match parse_rep_chars(&lines[idx]) {
            Err(e) => {
                return Err(e);
            },
            Ok(p) => {
                out.push(p);
                proof {
                    assert(out@[out@.len() - 1].deep_view() == (p.0@, p.1@));
                    assert(out.deep_view() =~= out0.push((p.0@, p.1@)));
                    if parse_lines_spec(ls.skip(idx as int + 1)) is Ok {
                        let rest2 = parse_lines_spec(ls.skip(idx as int + 1))->Ok_0;
                        assert(parse_lines_spec(rem) == Ok::<_, Seq<char>>(
                            seq![(p.0@, p.1@)] + rest2,
                        ));
                        assert(out0 + (seq![(p.0@, p.1@)] + rest2) =~= out.deep_view() + rest2);
                    }
                }
                idx += 1;
            },
        }
    }
    proof {
        assert(ls.skip(n as int) =~= Seq::<Seq<char>>::empty());
        assert(parse_lines_spec(ls.skip(n as int)) == Ok::<_, Seq<char>>(
            Seq::<(Seq<char>, Seq<char>)>::empty(),
        ));
        assert(out.deep_view() + Seq::<(Seq<char>, Seq<char>)>::empty() =~= out.deep_view());
    }
    Ok(out)
}

/// Folds parsed bindings into a map; a later binding of a key wins.
pub fn scf_to_hashmap(cfg: Vec<(String, String)>) -> (m: StrMap)
    ensures
        m.wf(),
        m.view_pairs() == upsert_all(Seq::empty(), cfg.deep_view()),
{
    let ghost ps = cfg.deep_view();
    let n = cfg.len();
    let mut m = StrMap::new();
    let mut i: usize = 0;
    proof {
        assert(m.view_pairs() =~= Seq::<(Seq<char>, Seq<char>)>::empty());
    }
    proof {
        assert(ps.skip(0) =~= ps);
    }
    while i < n
        invariant
            n == ps.len(),
            ps == cfg.deep_view(),
            i <= n,
            m.wf(),
            upsert_all(m.view_pairs(), ps.skip(i as int)) == upsert_all(Seq::empty(), ps),
        decreases n - i,
    {
        let ghost rem = ps.skip(i as int);
        proof {
            assert(rem[0] == ps[i as int]);
            assert(rem.drop_first() =~= ps.skip(i as int + 1));
            assert(cfg.deep_view()[i as int] == cfg@[i as int].deep_view());
            assert(cfg@[i as int].deep_view() == (cfg@[i as int].0@, cfg@[i as int].1@));
        }
        let k = cfg[i].0.clone();
        let v = cfg[i].1.clone();
        proof {
            assert(upsert_all(m.view_pairs(), rem) == upsert_all(
                upsert(m.view_pairs(), k@, v@),
                ps.skip(i as int + 1),
            ));
        }
        m.insert(k, v);
        i += 1;
    }
    proof {
        assert(ps.skip(n as int) =~= Seq::<(Seq<char>, Seq<char>)>::empty());
    }
    m
}

} // verus!

verus! {

/// The ignore list: one relative path per line, kept verbatim.
pub fn parse_ignore_list(s: &str) -> (r: Vec<String>)
    ensures
        r.deep_view() == split_by(s@, seq!['\n']),
{
    let v = str_to_chars(s);
    let mut nl: Vec<char> = Vec::new();
    nl.push('\n');
    proof {
        assert(nl@ =~= seq!['\n']);
    }
    let parts = split_all(&v, &nl);
    let ghost ps = parts.deep_view();
    let n = parts.len();
    let mut out: Vec<String> = Vec::new();
    let mut i: usize = 0;
    while i < n
        invariant
            n == ps.len(),
            ps == parts.deep_view(),
            i <= n,
            out.deep_view() =~= ps.take(i as int),
        decreases n - i,
    {
        proof {
            assert(parts.deep_view()[i as int] == parts@[i as int].deep_view());
            crate::text::lemma_vec_char_deep(parts@[i as int]);
        }
        out.push(chars_to_string(&parts[i]));
        proof {
            assert(out.deep_view() =~= ps.take(i as int).push(ps[i as int]));
            assert(ps.take(i as int).push(ps[i as int]) =~= ps.take(i as int + 1));
        }
        i += 1;
    }
    proof {
        assert(ps.take(n as int) =~= ps);
    }
    out
}

/// The global replacement table: the records of the `md_replace` file (when
/// one exists), then one `key=value` record per command-line argument; later
/// bindings of a key win.
pub open spec fn replacements_spec(file: Option<Seq<char>>, cli: Seq<Seq<char>>) -> Result<
    Seq<(Seq<char>, Seq<char>)>,
    Seq<char>,
> {
    let base = match file {
        None => Ok(Seq::<(Seq<char>, Seq<char>)>::empty()),
        Some(s) => parse_shit_markup_spec(s),
    };
    match base {
        Err(m) => Err(m),
        Ok(ps) => match parse_lines_spec(cli) {
            Err(m) => Err(m),
            Ok(cs) => Ok(ps + cs),
        },
    }
}

/// Assembles the global replacement map from the optional `md_replace` file
/// contents and the command-line replacement arguments.
pub fn build_replacements(file: Option<&String>, cli: &Vec<String>) -> (r: Result<
    StrMap,
    StcError,
>)
    ensures
        match replacements_spec(
            match file {
                Some(f) => Some(f@),
                None => None,
            },
            cli.deep_view(),
        ) {
            Ok(ps) => r matches Ok(m) && m.wf() && m.view_pairs() == upsert_all(Seq::empty(), ps),
            Err(m) => r matches Err(e) && (e matches StcError::CfgErr(ms) && ms@ == m),
        },
{
    let ghost filev: Option<Seq<char>> = match file {
        Some(f) => Some(f@),
        None => None,
    };
    let ghost cliv = cli.deep_view();
    let mut parsed: Vec<(String, String)> = match file {
        Some(f) => {
            match parse_shit_markup(f.as_str()) {
                Ok(v) => v,
                Err(e) => {
                    proof {
                        assert(parse_shit_markup_spec(f@) is Err);
                        assert(replacements_spec(filev, cliv) == Err::<
                            Seq<(Seq<char>, Seq<char>)>,
                            _,
                        >(parse_shit_markup_spec(f@)->Err_0));
                    }
                    return Err(e);
                },
            }
        },
        None => Vec::new(),
    };
    let ghost base = parsed.deep_view();
    proof {
        if file is None {
            assert(parsed.deep_view() =~= Seq::<(Seq<char>, Seq<char>)>::empty());
        }
        assert(cliv.skip(0) =~= cliv);
    }
    let n = cli.len();
    let mut i: usize = 0;
    while i < n
        invariant
            n == cliv.len(),
            cliv == cli.deep_view(),
            filev == (match file {
                Some(f) => Some(f@),
                None => None,
            }),
            i <= n,
            match parse_lines_spec(cliv.skip(i as int)) {
                Ok(rest) => replacements_spec(filev, cliv) == Ok::<_, Seq<char>>(
                    parsed.deep_view() + rest,
                ),
                Err(m) => replacements_spec(filev, cliv) == Err::<
                    Seq<(Seq<char>, Seq<char>)>,
                    _,
                >(m),
            },
        decreases n - i,
    {
        let ghost rem = cliv.skip(i as int);
        proof {
            assert(rem[0] == cliv[i as int]);
            assert(rem.drop_first() =~= cliv.skip(i as int + 1));
            assert(cli.deep_view()[i as int] == cli@[i as int].deep_view());
        }
        let ghost parsed0 = parsed.deep_view();
        let line = str_to_chars(cli[i].as_str());
        match parse_rep_chars(&line) {
            Err(e) => {
                return Err(e);
            },
            Ok(p) => {
                parsed.push(p);
                proof {
                    assert(parsed@[parsed@.len() - 1].deep_view() == (p.0@, p.1@));
                    assert(parsed.deep_view() =~= parsed0.push((p.0@, p.1@)));
                    if parse_lines_spec(cliv.skip(i as int + 1)) is Ok {
                        let rest2 = parse_lines_spec(cliv.skip(i as int + 1))->Ok_0;
                        assert(parse_lines_spec(rem) == Ok::<_, Seq<char>>(
                            seq![(p.0@, p.1@)] + rest2,
                        ));
                        assert(parsed0 + (seq![(p.0@, p.1@)] + rest2) =~= parsed.deep_view()
                            + rest2);
                    }
                }
                i += 1;
            },
        }
    }
    proof {
        assert(cliv.skip(n as int) =~= Seq::<Seq<char>>::empty());
        assert(parse_lines_spec(cliv.skip(n as int)) == Ok::<_, Seq<char>>(
            Seq::<(Seq<char>, Seq<char>)>::empty(),
        ));
        assert(parsed.deep_view() + Seq::<(Seq<char>, Seq<char>)>::empty() =~= parsed.deep_view());
    }
    Ok(scf_to_hashmap(parsed))
}

} // verus!
