use staticcc::tags::{find_all_unescaped, replace_all_unescaped, replace_unused_tags};

#[test]
fn find_all_unescaped_t() {
    let s = "test string ##HEAD## \\##HEAD## test";
    let idxs = find_all_unescaped(s, "##HEAD##");
    assert_eq!(idxs, vec![12])
}

#[test]
fn replace_all_unescaped_t() {
    let s = "test string ##HEAD## \\##HEAD## test ##HEAD## padding";
    let output = replace_all_unescaped(s, "##HEAD##", "aaa");
    assert_eq!(output, String::from("test string aaa \\##HEAD## test aaa padding"))
}

#[test]
fn find_counts_offset_zero_as_unescaped() {
    let idxs = find_all_unescaped("##A## and ##A##", "##A##");
    assert_eq!(idxs, vec![0, 10]);
}

#[test]
fn find_returns_only_unescaped_offsets() {
    // every offset other than 0 must have a non-backslash byte before it
    let s = "\\##T## x ##T## y \\##T##";
    let idxs = find_all_unescaped(s, "##T##");
    assert_eq!(idxs, vec![9]);
    for &i in &idxs {
        if i > 0 {
            assert_ne!(s.as_bytes()[i - 1], b'\\');
        }
    }
}

#[test]
fn replace_leaves_no_unescaped_occurrence() {
    // the replacement value does not contain the token, so the fixed point
    // holds no unescaped occurrence of it
    let out = replace_all_unescaped("x ##A####A## \\##A##", "##A##", "-");
    assert_eq!(out, "x -- \\##A##");
    assert_eq!(find_all_unescaped(&out, "##A##").len(), 0);
}

#[test]
fn replace_rescans_from_start() {
    // a replacement may recreate the token across a boundary; the rescan
    // still removes every unescaped occurrence
    let out = replace_all_unescaped("abb", "ab", "a");
    assert_eq!(out, "a");
}

#[test]
fn replace_without_occurrence_is_identity() {
    let out = replace_all_unescaped("plain text", "##X##", "v");
    assert_eq!(out, "plain text");
}

#[test]
fn strip_unmatched_tags() {
    assert_eq!(replace_unused_tags("a ##UNSET## b"), "a  b");
}

#[test]
fn strip_keeps_escaped_tags() {
    assert_eq!(replace_unused_tags("keep \\##E## here"), "keep \\##E## here");
    assert_eq!(replace_unused_tags("drop ##D## here"), "drop  here");
}

#[test]
fn strip_ignores_malformed_tags() {
    assert_eq!(replace_unused_tags("## no close #single# ####"), "## no close #single# ####");
}
