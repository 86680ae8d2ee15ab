use staticcc::config::{
    build_replacements, parse_ignore_list, parse_rep, parse_shit_markup, parse_singleline_scf,
    scf_to_hashmap,
};
use staticcc::errors::StcError;

#[test]
fn shit_markup_test() {
    let m = "name\nvalue value\nvalue\n----\nname2\nval2\n----\nname3=val3";
    let p = parse_shit_markup(m);
    assert!(p.is_ok());
    let p = p.unwrap();
    assert_eq!(p[0], ("name".into(), "value value\nvalue".into()));
    assert_eq!(p[1], ("name2".into(), "val2".into()));
    assert_eq!(p[2], ("name3".into(), "val3".into()));
}

#[test]
fn record_block_two_records() {
    let p = parse_shit_markup("name\nline1\nline2\n----\nk=v").unwrap();
    assert_eq!(p.len(), 2);
    assert_eq!(p[0], ("name".into(), "line1\nline2".into()));
    assert_eq!(p[1], ("k".into(), "v".into()));
}

#[test]
fn parse_rep_trims_both_sides() {
    let (k, v) = parse_rep("  key =  value  ").unwrap();
    assert_eq!(k, "key");
    assert_eq!(v, "value");
}

#[test]
fn parse_rep_without_equals_is_malformed() {
    let r = parse_rep("no separator");
    match r {
        Err(StcError::CfgErr(m)) => assert_eq!(m, "no separator"),
        _ => panic!("expected a malformed-config error"),
    }
}

#[test]
fn singleline_scf_parses_each_line() {
    let p = parse_singleline_scf("a=1\nb=2").unwrap();
    assert_eq!(p, vec![("a".into(), "1".into()), ("b".into(), "2".into())]);
}

#[test]
fn singleline_scf_rejects_bad_line() {
    assert!(matches!(parse_singleline_scf("a=1\nbroken"), Err(StcError::CfgErr(_))));
}

#[test]
fn scf_map_later_binding_wins() {
    let m = scf_to_hashmap(vec![
        ("k".into(), "old".into()),
        ("other".into(), "x".into()),
        ("k".into(), "new".into()),
    ]);
    assert_eq!(m.get("k").unwrap(), "new");
    assert_eq!(m.get("other").unwrap(), "x");
    assert_eq!(m.len(), 2);
    assert!(m.get("missing").is_none());
}

#[test]
fn ignore_list_is_split_on_newlines() {
    let v = parse_ignore_list("a.md\nsub/b.md");
    assert_eq!(v, vec!["a.md".to_string(), "sub/b.md".to_string()]);
}

#[test]
fn replacements_cli_overrides_file() {
    let file = String::from("k=from file\n----\nother=kept");
    let cli = vec![String::from("k=from cli")];
    let m = build_replacements(Some(&file), &cli).unwrap();
    assert_eq!(m.get("k").unwrap(), "from cli");
    assert_eq!(m.get("other").unwrap(), "kept");
}

#[test]
fn replacements_none_and_empty() {
    let m = build_replacements(None, &Vec::new()).unwrap();
    assert_eq!(m.len(), 0);
}
