//! The document splitter: an optional `---`-delimited front-matter block at
//! the top, then a body scanned into named `##NAME##` sections.
use vstd::prelude::*;

use crate::errors::StcError;
use crate::strmap::{upsert, upsert_all, StrMap};
use crate::tags::{
    find_first_label, find_tag_end, first_label_from, is_tag, lemma_first_label_from, tag_end,
    tag_name,
};
use crate::text::{
    chars_to_string, find_occurrence_from, first_occurrence_from, occurs_at, str_to_chars, subvec,
};
use vstd::pervasive::unreached;

verus! {

/// The sections of a body, scanning labels left to right: each section runs
/// from the end of its label to the start of the next recognized label, or to
/// the end of the text; text before the first label is discarded.
pub open spec fn sections_from(s: Seq<char>, i: int) -> Seq<(Seq<char>, Seq<char>)>
    decreases s.len() - i
        via sections_from_dec
{
    if i < 0 {
        Seq::empty()
    } else {
        match first_label_from(s, i) {
            None => Seq::empty(),
            Some(p) => {
                let e = tag_end(s, p);
                let cend = match first_label_from(s, e) {
                    None => s.len() as int,
                    Some(q) => q,
                };
                seq![(tag_name(s, p), s.subrange(e, cend))] + sections_from(s, e)
            },
        }
    }
}

#[via_fn]
proof fn sections_from_dec(s: Seq<char>, i: int) {
    if 0 <= i {
        lemma_first_label_from(s, i);
        match first_label_from(s, i) {
            Some(p) => {
                let e = tag_end(s, p);
                assert(is_tag(s, p, e));
            },
            None => {},
        }
    }
}

/// The front-matter closing delimiter: a line holding exactly `---`.
pub open spec fn fm_sep() -> Seq<char> {
    seq!['\n', '-', '-', '-', '\n']
}

/// Whether the document opens with the front-matter delimiter line.
pub open spec fn has_fm_open(s: Seq<char>) -> bool {
    s.len() >= 4 && s[0] == '-' && s[1] == '-' && s[2] == '-' && s[3] == '\n'
}

/// Where the closing front-matter delimiter starts, sharing at most its
/// leading newline with the opening line.
pub open spec fn fm_close(s: Seq<char>) -> Option<int> {
    first_occurrence_from(s, fm_sep(), 3)
}

/// A document is well formed unless it opens a front-matter block and never
/// closes it.
pub open spec fn split_doc_ok(s: Seq<char>) -> bool {
    has_fm_open(s) ==> fm_close(s) is Some
}

/// The text strictly between the two delimiter lines (empty without front
/// matter).
pub open spec fn doc_front_matter(s: Seq<char>) -> Seq<char> {
    if has_fm_open(s) && fm_close(s) is Some {
        let i = fm_close(s)->Some_0;
        if i >= 4 {
            s.subrange(4, i)
        } else {
            Seq::empty()
        }
    } else {
        Seq::empty()
    }
}

/// Everything after the closing delimiter line, or the whole document when
/// there is no front matter.
pub open spec fn doc_body(s: Seq<char>) -> Seq<char> {
    if has_fm_open(s) && fm_close(s) is Some {
        let i = fm_close(s)->Some_0;
        s.subrange(i + 5, s.len() as int)
    } else {
        s
    }
}

/// The section map of a document: the scanned sections of its body folded in
/// order, a later occurrence of a name overwriting an earlier one.
pub open spec fn doc_sections(s: Seq<char>) -> Seq<(Seq<char>, Seq<char>)> {
    upsert_all(Seq::empty(), sections_from(doc_body(s), 0))
}

/// Splits a document into its front matter and its named sections.
///
/// Without an opening `---` line the front matter is empty and the whole
/// input is the body; an opening delimiter without a closing one is an
/// error.
pub fn split_doc(doc: &str) -> (r: Result<(String, StrMap), StcError>)
    ensures
        r is Ok <==> split_doc_ok(doc@),
        r is Err ==> (r matches Err(e) && e is BadFrontMatter),
        r matches Ok(v) ==> v.0@ == doc_front_matter(doc@) && v.1.view_pairs() == doc_sections(
            doc@,
        ) && v.1.wf(),
{
    let v = str_to_chars(doc);
    let n = v.len();
    let mut body: Vec<char>;
    let fm: String;
    if n >= 4 && v[0] == '-' && v[1] == '-' && v[2] == '-' && v[3] == '\n' {
        assert(has_fm_open(doc@));
        let mut sep: Vec<char> = Vec::new();
        sep.push('\n');
        sep.push('-');
        sep.push('-');
        sep.push('-');
        sep.push('\n');
        proof {
            assert(sep@ =~= fm_sep());
        }
        match find_occurrence_from(&v, &sep, 3) {
            None => {
                return Err(StcError::BadFrontMatter);
            },
            Some(i) => {
                proof {
                    crate::text::lemma_first_occurrence_from(doc@, fm_sep(), 3);
                }
                assert(occurs_at(doc@, fm_sep(), i as int));
                if i >= 4 {
                    fm = chars_to_string(&subvec(&v, 4, i));
                } else {
                    fm = chars_to_string(&Vec::new());
                }
                body = subvec(&v, i + 5, n);
                proof {
                    assert(fm@ == doc_front_matter(doc@));
                    assert(body@ == doc_body(doc@));
                }
            },
        }
    } else {
        assert(!has_fm_open(doc@));
        fm = chars_to_string(&Vec::new());
        body = v;
        proof {
            assert(fm@ =~= doc_front_matter(doc@));
            assert(body@ == doc_body(doc@));
        }
    }
    let bn = body.len();
    let mut map = StrMap::new();
    let mut cur: usize = 0;
    proof {
        assert(map.view_pairs() =~= Seq::<(Seq<char>, Seq<char>)>::empty());
    }
    loop
        invariant
            body@ == doc_body(doc@),
            bn == body@.len(),
            cur <= bn,
            map.wf(),
            upsert_all(map.view_pairs(), sections_from(body@, cur as int)) == doc_sections(doc@),
        ensures
            map.wf(),
            map.view_pairs() == doc_sections(doc@),
        decreases bn - cur,
    {
        match find_first_label(&body, cur) {
            None => {
                proof {
                    assert(sections_from(body@, cur as int) =~= Seq::<(Seq<char>, Seq<char>)>::empty());
                }
                break;
            },
            Some(p) => {
                let e = match find_tag_end(&body, p) {
                    Some(e) => e,
                    None => unreached(),
                };
                proof {
                    assert(tag_end(body@, p as int) == e as int);
                    assert(is_tag(body@, p as int, e as int));
                }
                let cend = match find_first_label(&body, e) {
                    None => bn,
                    Some(q) => q,
                };
                let name = subvec(&body, p + 2, e - 2);
                let content = subvec(&body, e, cend);
                proof {
                    assert(name@ == tag_name(body@, p as int));
                }
                let ghost acc0 = map.view_pairs();
                let ghost secs = sections_from(body@, cur as int);
                proof {
                    assert(secs == seq![(name@, content@)] + sections_from(body@, e as int));
                    assert(secs[0] == (name@, content@));
                    assert(secs.drop_first() =~= sections_from(body@, e as int));
                    assert(upsert_all(acc0, secs) == upsert_all(
                        upsert(acc0, name@, content@),
                        sections_from(body@, e as int),
                    ));
                }
                map.insert(chars_to_string(&name), chars_to_string(&content));
                cur = e;
            },
        }
    }
    Ok((fm, map))
}

} // verus!
