use staticcc::doc::split_doc;
use staticcc::errors::StcError;

#[test]
fn split_doc_t() {
    let s = "---\ntest\n---\n##MAIN##\naaaa\n\\##TEST##\n        ";
    let (fm, sections) = split_doc(s).unwrap();
    assert_eq!(fm, "test");
    assert!(sections.get("MAIN").is_some());
    assert!(sections.get("TEST").is_none());
}

#[test]
fn split_with_two_sections() {
    let (fm, sections) = split_doc("---\nA\n---\n##X##hello##Y##world").unwrap();
    assert_eq!(fm, "A");
    assert_eq!(sections.get("X").unwrap(), "hello");
    assert_eq!(sections.get("Y").unwrap(), "world");
    assert_eq!(sections.len(), 2);
}

#[test]
fn split_without_front_matter() {
    let (fm, sections) = split_doc("no front matter here").unwrap();
    assert_eq!(fm, "");
    assert_eq!(sections.len(), 0);
}

#[test]
fn split_unclosed_front_matter_is_fatal() {
    let r = split_doc("---\nnever closed");
    assert!(matches!(r, Err(StcError::BadFrontMatter)));
}

#[test]
fn split_empty_front_matter() {
    let (fm, sections) = split_doc("---\n---\nbody only").unwrap();
    assert_eq!(fm, "");
    assert_eq!(sections.len(), 0);
}

#[test]
fn split_duplicate_section_keeps_later() {
    let (_, sections) = split_doc("##S##first##S##second").unwrap();
    assert_eq!(sections.get("S").unwrap(), "second");
    assert_eq!(sections.len(), 1);
}
