//! Relative-path reasoning over plain strings: file-name and extension
//! boundaries, the markdown test, the `.html` output path, and path joining.
use vstd::prelude::*;

use crate::text::{chars_to_string, str_to_chars, subvec};
use vstd::string::StringExecFns;

verus! {

/// The last position of `c` in `s`.
pub open spec fn last_index_of(s: Seq<char>, c: char) -> Option<int>
    decreases s.len(),
{
    if s.len() == 0 {
        None
    } else if s.last() == c {
        Some(s.len() - 1)
    } else {
        last_index_of(s.drop_last(), c)
    }
}

pub proof fn lemma_last_index_of(s: Seq<char>, c: char)
    ensures
        match last_index_of(s, c) {
            Some(j) => 0 <= j < s.len() && s[j] == c && (forall|k: int|
                j < k < s.len() ==> s[k] != c),
            None => forall|k: int| 0 <= k < s.len() ==> s[k] != c,
        },
    decreases s.len(),
{
    if s.len() == 0 {
    } else if s.last() == c {
    } else {
        lemma_last_index_of(s.drop_last(), c);
        assert(forall|k: int| 0 <= k < s.len() - 1 ==> s.drop_last()[k] == s[k]);
    }
}

/// The last position of `c`, found by scanning backwards.
pub(crate) fn find_last_char(v: &Vec<char>, c: char) -> (r: Option<usize>)
    ensures
        match r {
            Some(j) => last_index_of(v@, c) == Some(j as int) && j < v@.len(),
            None => last_index_of(v@, c) is None,
        },
{
    let mut j = v.len();
    while j > 0
        invariant
            j <= v@.len(),
            forall|k: int| j <= k < v@.len() ==> v@[k] != c,
        decreases j,
    {
        if v[j - 1] == c {
            proof {
                lemma_last_index_of(v@, c);
            }
            return Some(j - 1);
        }
        j -= 1;
    }
    proof {
        lemma_last_index_of(v@, c);
    }
    None
}

/// Where the file name of a relative path starts: right after the last `/`.
pub open spec fn file_name_start(s: Seq<char>) -> int {
    match last_index_of(s, '/') {
        Some(j) => j + 1,
        None => 0,
    }
}

/// Where the extension starts (after its dot): the last `.`, provided it
/// lies strictly inside the file name.
pub open spec fn ext_start(s: Seq<char>) -> Option<int> {
    match last_index_of(s, '.') {
        Some(d) => if d > file_name_start(s) {
            Some(d + 1)
        } else {
            None
        },
        None => None,
    }
}

/// Whether the path names a markdown file: its extension is exactly `md`.
pub open spec fn is_markdown_spec(s: Seq<char>) -> bool {
    match ext_start(s) {
        Some(x) => s.subrange(x, s.len() as int) == seq!['m', 'd'],
        None => false,
    }
}

/// Whether the path names a markdown file (extension exactly `md`,
/// case-sensitive; a file name opening with its only dot has no extension).
pub fn is_markdown(p: &str) -> (r: bool)
    ensures
        r == is_markdown_spec(p@),
{
    let v = str_to_chars(p);
    proof {
        lemma_last_index_of(v@, '/');
        lemma_last_index_of(v@, '.');
    }
    let n = v.len();
    let ns: usize = match find_last_char(&v, '/') {
        Some(j) => j + 1,
        None => 0,
    };
    assert(ns as int == file_name_start(p@));
    let x: usize;
    match find_last_char(&v, '.') {
        None => {
            assert(ext_start(p@) is None);
            return false;
        },
        Some(d) => {
            if d <= ns {
                assert(ext_start(p@) is None);
                return false;
            }
            x = d + 1;
        },
    }
    assert(ext_start(p@) == Some(x as int));
    if n - x == 2 && v[x] == 'm' && v[x + 1] == 'd' {
        proof {
            assert(v@.subrange(x as int, n as int) =~= seq!['m', 'd']);
        }
        true
    } else {
        proof {
            if n - x == 2 {
                assert(v@.subrange(x as int, n as int)[0] == v@[x as int]);
                assert(v@.subrange(x as int, n as int)[1] == v@[x + 1]);
            } else {
                assert(v@.subrange(x as int, n as int).len() != 2);
            }
        }
        false
    }
}

/// The path with its extension replaced by `html` (or `.html` appended when
/// the file name has none); a path whose file name is empty is unchanged.
pub open spec fn html_path_spec(s: Seq<char>) -> Seq<char> {
    if file_name_start(s) == s.len() {
        s
    } else {
        let stem = match ext_start(s) {
            Some(x) => s.subrange(0, x - 1),
            None => s,
        };
        stem + seq!['.', 'h', 't', 'm', 'l']
    }
}

/// The mirrored output path of a rendered page: the input path with its
/// extension replaced by `html`.
pub fn html_path(p: &str) -> (r: String)
    ensures
        r@ == html_path_spec(p@),
{
    let v = str_to_chars(p);
    proof {
        lemma_last_index_of(v@, '/');
        lemma_last_index_of(v@, '.');
    }
    let n = v.len();
    let ns: usize = match find_last_char(&v, '/') {
        Some(j) => j + 1,
        None => 0,
    };
    if ns == n {
        return p.to_owned();
    }
    let stem_end: usize = match find_last_char(&v, '.') {
        Some(d) => if d > ns {
            d
        } else {
            n
        },
        None => n,
    };
    let mut out = subvec(&v, 0, stem_end);
    let ghost stem = out@;
    out.push('.');
    out.push('h');
    out.push('t');
    out.push('m');
    out.push('l');
    proof {
        assert(out@ =~= stem + seq!['.', 'h', 't', 'm', 'l']);
        assert(out@ =~= html_path_spec(p@));
    }
    chars_to_string(&out)
}

/// Joining a directory's relative path with an entry name; the walk's root
/// has the empty relative path.
pub open spec fn path_join(parent: Seq<char>, name: Seq<char>) -> Seq<char> {
    if parent.len() == 0 {
        name
    } else {
        parent + seq!['/'] + name
    }
}

/// Joins a relative directory path and an entry name with `/`.
pub fn join_rel(parent: &str, name: &str) -> (r: String)
    ensures
        r@ == path_join(parent@, name@),
{
    if parent.unicode_len() == 0 {
        proof {
            assert(parent@.len() == 0);
        }
        name.to_owned()
    } else {
        let mut out = parent.to_owned();
        out.append("/");
        out.append(name);
        proof {
            reveal_strlit("/");
            assert(("/")@ =~= seq!['/']);
            assert(out@ =~= parent@ + seq!['/'] + name@);
        }
        out
    }
}

} // verus!
