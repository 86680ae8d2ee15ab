use staticcc::config::{parse_shit_markup, scf_to_hashmap};
use staticcc::errors::{RssError, StcError};
use staticcc::rss::{get_channels, RssItem};
use staticcc::strmap::StrMap;

fn fm(pairs: &[(&str, &str)]) -> StrMap {
    let mut m = StrMap::new();
    for (k, v) in pairs {
        m.insert(k.to_string(), v.to_string());
    }
    m
}

#[test]
fn item_from_front_matter() {
    let cfg = fm(&[
        ("rss_chan_id", "blog"),
        ("rss_title", "Post"),
        ("rss_description", "About things"),
    ]);
    let (id, item) = RssItem::new(&cfg, "posts/a.md").unwrap();
    assert_eq!(id, "blog");
    assert_eq!(item.page, "posts/a.html");
    assert_eq!(item.title, "Post");
    assert_eq!(item.description, "About things");
    assert!(item.pubdate.is_none());
}

#[test]
fn item_title_falls_back_to_page_title() {
    let cfg = fm(&[("rss_chan_id", "blog"), ("title", "Page title")]);
    let (_, item) = RssItem::new(&cfg, "a.md").unwrap();
    assert_eq!(item.title, "Page title");
}

#[test]
fn item_without_any_title_is_fatal() {
    let cfg = fm(&[("rss_chan_id", "blog")]);
    let r = RssItem::new(&cfg, "a.md");
    assert!(matches!(r, Err(StcError::RssError(RssError::MissingTitle))));
}

#[test]
fn item_pubdate_is_normalized_to_utc() {
    let cfg = fm(&[
        ("rss_chan_id", "blog"),
        ("rss_title", "T"),
        ("rss_pubdate", "Wed, 01 Jan 2020 00:00:00 +0100"),
    ]);
    let (_, item) = RssItem::new(&cfg, "a.md").unwrap();
    assert_eq!(item.pubdate.unwrap(), "Tue, 31 Dec 2019 23:00:00 +0000");
}

#[test]
fn item_malformed_pubdate_is_fatal() {
    let cfg = fm(&[("rss_chan_id", "blog"), ("rss_title", "T"), ("rss_pubdate", "tomorrow")]);
    match RssItem::new(&cfg, "a.md") {
        Err(StcError::RssError(RssError::BadPubdate(m))) => assert_eq!(m, "tomorrow"),
        _ => panic!("expected a bad-pubdate error"),
    }
}

#[test]
fn finalise_builds_link_and_guid() {
    let cfg = fm(&[("rss_chan_id", "blog"), ("rss_title", "T")]);
    let (_, item) = RssItem::new(&cfg, "posts/a.md").unwrap();
    let f = item.finalise("https://e.org/");
    assert_eq!(f.link, "https://e.org/posts/a.html");
    assert_eq!(f.guid, "https://e.org/posts/a.html");
    assert!(f.guid_permalink);
    assert_eq!(f.title, "T");
}

fn channels_cfg(text: &str) -> StrMap {
    scf_to_hashmap(parse_shit_markup(text).unwrap())
}

#[test]
fn channels_are_built_from_config() {
    let cfg = channels_cfg(
        "blog\nprepend=https://e.org/\ntitle=Blog\npath=index.html\noutfile=feed.xml\nimage=logo.png\ndescription=Stuff",
    );
    let ch = get_channels(&cfg).unwrap();
    assert_eq!(ch.len(), 1);
    assert_eq!(ch.id_at(0), "blog");
    let c = ch.channel_at(0);
    assert_eq!(c.title, "Blog");
    assert_eq!(c.description, "Stuff");
    assert_eq!(c.link, "https://e.org/index.html");
    assert_eq!(c.image_url.as_ref().unwrap(), "https://e.org/logo.png");
    assert_eq!(c.out_file, "feed.xml");
    assert_eq!(c.prepend, "https://e.org/");
    assert_eq!(c.items.len(), 0);
}

#[test]
fn channel_without_prepend_is_fatal() {
    let cfg = channels_cfg("blog\ntitle=Blog\npath=i.html\noutfile=f.xml");
    assert!(matches!(
        get_channels(&cfg),
        Err(StcError::RssError(RssError::MissingPrepend))
    ));
}

#[test]
fn channel_without_title_is_fatal() {
    let cfg = channels_cfg("blog\nprepend=p/\npath=i.html\noutfile=f.xml");
    assert!(matches!(get_channels(&cfg), Err(StcError::RssError(RssError::MissingTitle))));
}

#[test]
fn channel_without_path_is_fatal() {
    let cfg = channels_cfg("blog\nprepend=p/\ntitle=B\noutfile=f.xml");
    assert!(matches!(get_channels(&cfg), Err(StcError::RssError(RssError::MissingLink))));
}

#[test]
fn channel_without_outfile_is_fatal() {
    let cfg = channels_cfg("blog\nprepend=p/\ntitle=B\npath=i.html");
    assert!(matches!(get_channels(&cfg), Err(StcError::RssError(RssError::MissingPath))));
}

#[test]
fn add_item_to_unknown_channel_is_fatal() {
    let cfg = channels_cfg("blog\nprepend=p/\ntitle=B\npath=i.html\noutfile=f.xml");
    let mut ch = get_channels(&cfg).unwrap();
    let m = fm(&[("rss_chan_id", "nope"), ("rss_title", "T")]);
    let (id, item) = RssItem::new(&m, "a.md").unwrap();
    match ch.add_item(&id, item) {
        Err(StcError::RssError(RssError::ChannelNotFound(s))) => assert_eq!(s, "nope"),
        _ => panic!("expected a channel-not-found error"),
    }
}
