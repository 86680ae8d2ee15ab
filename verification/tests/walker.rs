use staticcc::walk::{EntryRec, WalkDir};

fn e(name: &str, is_dir: bool) -> EntryRec {
    EntryRec { name: name.to_string(), is_dir }
}

#[test]
fn walk_yields_parent_before_children_and_all_once() {
    // the tree {a/, a/b.txt, c.txt}
    let mut w = WalkDir::new(vec![e("a", true), e("c.txt", false)]);
    let mut seen: Vec<(String, bool)> = Vec::new();
    loop {
        match w.next() {
            None => break,
            Some((p, d)) => {
                if d {
                    // the directory is yielded before its children; its
                    // listing is supplied only now
                    w.push_dir(vec![e("b.txt", false)]);
                }
                seen.push((p, d));
            }
        }
    }
    let names: Vec<&str> = seen.iter().map(|p| p.0.as_str()).collect();
    assert_eq!(names, vec!["a", "a/b.txt", "c.txt"]);
    let ia = names.iter().position(|n| *n == "a").unwrap();
    let ib = names.iter().position(|n| *n == "a/b.txt").unwrap();
    assert!(ia < ib);
    // total yielded entries equal total objects reachable from the root
    assert_eq!(seen.len(), 3);
}

#[test]
fn walk_empty_root() {
    let mut w = WalkDir::new(Vec::new());
    assert!(w.next().is_none());
}

#[test]
fn walk_depth_first_order() {
    let mut w = WalkDir::new(vec![e("d1", true), e("z.txt", false)]);
    let mut names: Vec<String> = Vec::new();
    loop {
        match w.next() {
            None => break,
            Some((p, d)) => {
                if d {
                    if p == "d1" {
                        w.push_dir(vec![e("d2", true), e("f1", false)]);
                    } else {
                        w.push_dir(vec![e("deep.txt", false)]);
                    }
                }
                names.push(p);
            }
        }
    }
    assert_eq!(names, vec!["d1", "d1/d2", "d1/d2/deep.txt", "d1/f1", "z.txt"]);
}
