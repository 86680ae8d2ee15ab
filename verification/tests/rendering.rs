use staticcc::config::scf_to_hashmap;
use staticcc::errors::StcError;
use staticcc::paths::{html_path, is_markdown};
use staticcc::render::{classify_entry, render_markdown, should_render, BuildAction, MdOptions};
use staticcc::rss::{get_channels, Channels};
use staticcc::strmap::StrMap;

fn templates() -> StrMap {
    let mut t = StrMap::new();
    t.insert("main".to_string(), "<h1>##TITLE##</h1>\n##MAIN##".to_string());
    t.insert("bare".to_string(), "##MAIN##".to_string());
    t
}

fn opts() -> MdOptions {
    let mut o = MdOptions::default();
    o.raw_html = true;
    o
}

#[test]
fn markdown_is_rendered_to_html() {
    let mut ch = Channels::new();
    let html = render_markdown(
        "# hello",
        "a.md",
        &templates(),
        &StrMap::new(),
        &opts(),
        &mut ch,
    );
    // text before the first label is discarded, so the bare document fills
    // nothing; the unmatched placeholders are stripped before rendering
    assert_eq!(html.unwrap(), "<h1></h1>\n");
}

#[test]
fn sections_and_config_fill_the_template() {
    let doc = "---\nTITLE=Hi\n---\n##MAIN##body here";
    let mut ch = Channels::new();
    let html = render_markdown(doc, "a.md", &templates(), &StrMap::new(), &opts(), &mut ch)
        .unwrap();
    // the substituted text opens with a raw HTML block, which comrak extends
    // over the following non-blank line
    assert_eq!(html, "<h1>Hi</h1>\nbody here\n");
}

#[test]
fn global_replacements_use_rep_tokens() {
    let mut t = StrMap::new();
    t.insert("main".to_string(), "##MAIN## REP=year".to_string());
    let reps = scf_to_hashmap(vec![("year".to_string(), "2024".to_string())]);
    let mut ch = Channels::new();
    let html = render_markdown("##MAIN##x", "a.md", &t, &reps, &opts(), &mut ch).unwrap();
    assert_eq!(html, "<p>x 2024</p>\n");
}

#[test]
fn missing_template_aborts_the_page() {
    let doc = "---\ntemplate=nope\n---\n##MAIN##x";
    let mut ch = Channels::new();
    match render_markdown(doc, "a.md", &templates(), &StrMap::new(), &opts(), &mut ch) {
        Err(StcError::TemplateError(name)) => assert_eq!(name, "nope"),
        _ => panic!("expected a template-not-found error"),
    }
}

#[test]
fn rendering_twice_is_byte_identical() {
    let doc = "---\nTITLE=Same\n---\n##MAIN##stable *text*";
    let t = templates();
    let reps = StrMap::new();
    let o = opts();
    let mut c1 = Channels::new();
    let mut c2 = Channels::new();
    let h1 = render_markdown(doc, "a.md", &t, &reps, &o, &mut c1).unwrap();
    let h2 = render_markdown(doc, "a.md", &t, &reps, &o, &mut c2).unwrap();
    assert_eq!(h1.as_bytes(), h2.as_bytes());
}

#[test]
fn page_with_channel_contributes_an_item() {
    let cfg = scf_to_hashmap(
        staticcc::config::parse_shit_markup(
            "blog\nprepend=p/\ntitle=B\npath=i.html\noutfile=f.xml",
        )
        .unwrap(),
    );
    let mut ch = get_channels(&cfg).unwrap();
    let doc = "---\nrss_chan_id=blog\nrss_title=Post\n---\n##MAIN##x";
    let mut t = StrMap::new();
    t.insert("main".to_string(), "##MAIN##".to_string());
    render_markdown(doc, "posts/p.md", &t, &StrMap::new(), &opts(), &mut ch).unwrap();
    let c = ch.channel_at(0);
    assert_eq!(c.items.len(), 1);
    assert_eq!(c.items[0].page, "posts/p.html");
    assert_eq!(c.items[0].title, "Post");
}

#[test]
fn unknown_channel_id_aborts_the_page() {
    let mut ch = Channels::new();
    let doc = "---\nrss_chan_id=ghost\nrss_title=Post\n---\n##MAIN##x";
    let r = render_markdown(doc, "p.md", &templates(), &StrMap::new(), &opts(), &mut ch);
    assert!(matches!(
        r,
        Err(StcError::RssError(staticcc::errors::RssError::ChannelNotFound(_)))
    ));
}

#[test]
fn escaped_placeholder_survives_substitution() {
    let mut t = StrMap::new();
    t.insert("main".to_string(), "##MAIN## and \\##MAIN##".to_string());
    let mut ch = Channels::new();
    let html = render_markdown("##MAIN##v", "a.md", &t, &StrMap::new(), &opts(), &mut ch)
        .unwrap();
    // the escaped placeholder is neither filled nor stripped; the markdown
    // renderer then consumes the backslash as a character escape
    assert_eq!(html, "<p>v and ##MAIN##</p>\n");
}

#[test]
fn markdown_extension_is_exact() {
    assert!(is_markdown("a/b.md"));
    assert!(is_markdown("b.tar.md"));
    assert!(!is_markdown("a/b.MD"));
    assert!(!is_markdown("a/b.markdown"));
    assert!(!is_markdown("a/md"));
    assert!(!is_markdown(".md"));
    assert!(!is_markdown("dir.md/file.txt"));
}

#[test]
fn html_paths_mirror_markdown_paths() {
    assert_eq!(html_path("a/b.md"), "a/b.html");
    assert_eq!(html_path("noext"), "noext.html");
    assert_eq!(html_path("a.tar.gz"), "a.tar.html");
    assert_eq!(html_path("d/.md"), "d/.md.html");
}

#[test]
fn entries_are_classified() {
    let ignore = vec!["skip.md".to_string()];
    assert_eq!(classify_entry(true, "dir", &ignore), BuildAction::MakeDir);
    assert_eq!(classify_entry(false, "page.md", &ignore), BuildAction::Render);
    assert_eq!(classify_entry(false, "skip.md", &ignore), BuildAction::Copy);
    assert_eq!(classify_entry(false, "style.css", &ignore), BuildAction::Copy);
    assert!(should_render("page.md", &ignore));
    assert!(!should_render("skip.md", &ignore));
}
