//! Feed aggregation: items built from page front matter, channel
//! configurations, and the per-channel item accumulators. Serializing the
//! finished channels to a wire format is the caller's business.
use vstd::prelude::*;

use crate::errors::{RssError, StcError};
use crate::paths::{html_path, html_path_spec};
use crate::strmap::{assoc_get, StrMap};
use chrono::Datelike;
use vstd::string::StringExecFns;

verus! {

/// A name for what chrono computes: parsing an RFC 2822 date and rendering
/// it back in RFC 2822 form in UTC; None where parsing fails. The result
/// depends on the characters of the input alone.
pub uninterp spec fn rfc2822_utc_of(s: Seq<char>) -> Option<Seq<char>>;

/// Relies on chrono's DateTime::parse_from_rfc2822, converted to UTC with
/// with_timezone and rendered with to_rfc2822. A date whose UTC year cannot
/// be written with four digits is treated as malformed, because to_rfc2822
/// refuses such years.
#[verifier::external_body]
fn normalize_rfc2822(s: &str) -> (r: Option<String>)
    ensures
        r is Some <==> rfc2822_utc_of(s@) is Some,
        r matches Some(v) ==> rfc2822_utc_of(s@) == Some(v@),
{
    match chrono::DateTime::parse_from_rfc2822(s) {
        Ok(d) => {
            let u = d.with_timezone(&chrono::Utc);
            if 0 <= u.year() && u.year() <= 9999 {
                Some(u.to_rfc2822())
            } else {
                None
            }
        },
        Err(_) => None,
    }
}

/// One feed entry, built from a page's front matter.
#[derive(Debug, Clone)]
pub struct RssItem {
    /// The page's output path relative to the site root.
    pub page: String,
    pub title: String,
    pub description: String,
    /// The publish date, normalized to RFC 2822 in UTC.
    pub pubdate: Option<String>,
}

/// The title an item takes: `rss_title`, or the page's own `title`.
pub open spec fn item_title_spec(cfg: Seq<(Seq<char>, Seq<char>)>) -> Option<Seq<char>> {
    match assoc_get(cfg, "rss_title"@) {
        Some(t) => Some(t),
        None => assoc_get(cfg, "title"@),
    }
}

/// Whether a front-matter map yields an item: a title exists and the
/// publish date, when present, parses.
pub open spec fn item_spec_ok(cfg: Seq<(Seq<char>, Seq<char>)>) -> bool {
    &&& item_title_spec(cfg) is Some
    &&& match assoc_get(cfg, "rss_pubdate"@) {
        None => true,
        Some(d) => rfc2822_utc_of(d) is Some,
    }
}

/// What the built item holds, field by field.
pub open spec fn item_matches(
    it: RssItem,
    cfg: Seq<(Seq<char>, Seq<char>)>,
    path: Seq<char>,
) -> bool {
    &&& it.page@ == html_path_spec(path)
    &&& Some(it.title@) == item_title_spec(cfg)
    &&& match assoc_get(cfg, "rss_pubdate"@) {
        None => it.pubdate is None,
        Some(d) => it.pubdate matches Some(pd) && Some(pd@) == rfc2822_utc_of(d),
    }
    &&& it.description@ == match assoc_get(cfg, "rss_description"@) {
        Some(d) => d,
        None => Seq::<char>::empty(),
    }
}

impl RssItem {
    /// Builds a feed item from a page's front-matter map and its input path.
    ///
    /// The channel id key must be present (the caller tests it first). The
    /// title falls back from `rss_title` to `title` and is owed; a present
    /// but malformed `rss_pubdate` is fatal; the description defaults to
    /// empty. Returns the channel id alongside the item.
    pub fn new(front_matter: &StrMap, path: &str) -> (r: Result<(String, RssItem), StcError>)
        requires
            assoc_get(front_matter.view_pairs(), "rss_chan_id"@) is Some,
        ensures
            r is Ok <==> item_spec_ok(front_matter.view_pairs()),
            r matches Ok(p) ==> Some(p.0@) == assoc_get(front_matter.view_pairs(), "rss_chan_id"@)
                && item_matches(p.1, front_matter.view_pairs(), path@),
            r matches Err(e) ==> {
                let cfg = front_matter.view_pairs();
                ||| (item_title_spec(cfg) is None && e matches StcError::RssError(
                    RssError::MissingTitle,
                ))
                ||| {
                    &&& item_title_spec(cfg) is Some
                    &&& assoc_get(cfg, "rss_pubdate"@) matches Some(d) && rfc2822_utc_of(d) is None
                        && (e matches StcError::RssError(RssError::BadPubdate(m)) && m@ == d)
                }
            },
    {
        let page = html_path(path);
        let channel_id = match front_matter.get("rss_chan_id") {
            Some(v) => v.clone(),
            None => vstd::pervasive::unreached(),
        };
        let title = match front_matter.get("rss_title") {
            Some(v) => v.clone(),
            None => match front_matter.get("title") {
                Some(v) => v.clone(),
                None => {
                    return Err(StcError::RssError(RssError::MissingTitle));
                },
            },
        };
        let pubdate = match front_matter.get("rss_pubdate") {
            None => None,
            Some(v) => match normalize_rfc2822(v.as_str()) {
                Some(norm) => Some(norm),
                None => {
                    return Err(StcError::RssError(RssError::BadPubdate(v.clone())));
                },
            },
        };
        let description = match front_matter.get("rss_description") {
            Some(v) => v.clone(),
            None => String::new(),
        };
        Ok((channel_id, RssItem { page, title, description, pubdate }))
    }

    /// The plain record a feed serializer needs: title, link and permalink
    /// guid (the channel's prepend joined to the page path), description,
    /// and the normalized publish date.
    pub fn finalise(&self, prepend: &str) -> (r: FeedItem)
        ensures
            r.title@ == self.title@,
            r.link@ == prepend@ + self.page@,
            r.guid@ == prepend@ + self.page@,
            r.guid_permalink == true,
            r.description@ == self.description@,
            r.pubdate == self.pubdate,
    {
        let mut link = prepend.to_owned();
        link.append(self.page.as_str());
        let guid = link.clone();
        FeedItem {
            title: self.title.clone(),
            link,
            guid,
            guid_permalink: true,
            description: self.description.clone(),
            pubdate: match &self.pubdate {
                Some(d) => Some(d.clone()),
                None => None,
            },
        }
    }
}

/// A finalized feed entry as plain values, ready for a serializer.
#[derive(Debug, Clone)]
pub struct FeedItem {
    pub title: String,
    pub link: String,
    pub guid: String,
    pub guid_permalink: bool,
    pub description: String,
    pub pubdate: Option<String>,
}

} // verus!

verus! {

/// A feed channel with its configuration and its accumulated items.
#[derive(Debug)]
pub struct FatChannel {
    pub title: String,
    pub description: String,
    /// The channel's own link: its `prepend` joined to its `path`.
    pub link: String,
    /// The channel image's URL (`prepend` joined to `image`), if configured.
    pub image_url: Option<String>,
    /// Where the serialized feed is written, relative to the output root.
    pub out_file: String,
    pub prepend: String,
    pub items: Vec<RssItem>,
}

/// The first missing required field of a channel configuration, in the
/// order the fields are read.
pub open spec fn chan_missing(inner: Seq<(Seq<char>, Seq<char>)>) -> Option<RssError> {
    if assoc_get(inner, "prepend"@) is None {
        Some(RssError::MissingPrepend)
    } else if assoc_get(inner, "title"@) is None {
        Some(RssError::MissingTitle)
    } else if assoc_get(inner, "path"@) is None {
        Some(RssError::MissingLink)
    } else if assoc_get(inner, "outfile"@) is None {
        Some(RssError::MissingPath)
    } else {
        None
    }
}

/// What a built channel holds, field by field, against its configuration map.
pub open spec fn chan_matches(c: FatChannel, inner: Seq<(Seq<char>, Seq<char>)>) -> bool {
    &&& Some(c.prepend@) == assoc_get(inner, "prepend"@)
    &&& Some(c.title@) == assoc_get(inner, "title"@)
    &&& c.description@ == match assoc_get(inner, "description"@) {
        Some(d) => d,
        None => Seq::<char>::empty(),
    }
    &&& c.link@ == assoc_get(inner, "prepend"@)->Some_0 + assoc_get(inner, "path"@)->Some_0
    &&& match assoc_get(inner, "image"@) {
        None => c.image_url is None,
        Some(img) => c.image_url matches Some(u) && u@ == assoc_get(inner, "prepend"@)->Some_0
            + img,
    }
    &&& Some(c.out_file@) == assoc_get(inner, "outfile"@)
    &&& c.items@.len() == 0
}

impl FatChannel {
    /// Builds a channel with no items yet from its configured fields.
    pub fn new(
        title: String,
        description: String,
        link: String,
        image_url: Option<String>,
        out_file: String,
        prepend: String,
    ) -> (c: FatChannel)
        ensures
            c.title == title,
            c.description == description,
            c.link == link,
            c.image_url == image_url,
            c.out_file == out_file,
            c.prepend == prepend,
            c.items@ =~= Seq::<RssItem>::empty(),
    {
        FatChannel { title, description, link, image_url, out_file, prepend, items: Vec::new() }
    }
}

/// A channel unchanged except that one item was appended.
pub open spec fn chan_with_item(c0: FatChannel, c1: FatChannel, it: RssItem) -> bool {
    &&& c1.title == c0.title
    &&& c1.description == c0.description
    &&& c1.link == c0.link
    &&& c1.image_url == c0.image_url
    &&& c1.out_file == c0.out_file
    &&& c1.prepend == c0.prepend
    &&& c1.items@ == c0.items@.push(it)
}

/// A channel list unchanged except that `it` was appended to the first
/// channel whose id is `id`.
pub open spec fn list_with_item(
    l0: Seq<(Seq<char>, FatChannel)>,
    l1: Seq<(Seq<char>, FatChannel)>,
    id: Seq<char>,
    it: RssItem,
) -> bool {
    exists|j: int|
        {
            &&& 0 <= j < l0.len()
            &&& (#[trigger] l0[j]).0 == id
            &&& forall|k: int| 0 <= k < j ==> (#[trigger] l0[k]).0 != id
            &&& l1.len() == l0.len()
            &&& forall|k: int| 0 <= k < l0.len() && k != j ==> l1[k] == l0[k]
            &&& l1[j].0 == id
            &&& chan_with_item(l0[j].1, l1[j].1, it)
        }
}

/// The per-run channel accumulators, keyed by channel id.
pub struct Channels {
    list: Vec<(String, FatChannel)>,
}

impl Channels {
    /// The channels with their ids, in configuration order.
    pub closed spec fn view_list(&self) -> Seq<(Seq<char>, FatChannel)> {
        Seq::new(self.list@.len(), |i: int| (self.list@[i].0@, self.list@[i].1))
    }

    /// Whether some channel has this id.
    pub open spec fn has_id(&self, id: Seq<char>) -> bool {
        exists|j: int| 0 <= j < self.view_list().len() && (#[trigger] self.view_list()[j]).0 == id
    }

    pub fn new() -> (r: Channels)
        ensures
            r.view_list() =~= Seq::<(Seq<char>, FatChannel)>::empty(),
    {
        Channels { list: Vec::new() }
    }

    pub fn len(&self) -> (n: usize)
        ensures
            n == self.view_list().len(),
    {
        self.list.len()
    }

    /// The id of the channel at position `i`.
    pub fn id_at(&self, i: usize) -> (r: &String)
        requires
            i < self.view_list().len(),
        ensures
            r@ == self.view_list()[i as int].0,
    {
        &self.list[i].0
    }

    /// The channel at position `i`.
    pub fn channel_at(&self, i: usize) -> (r: &FatChannel)
        requires
            i < self.view_list().len(),
        ensures
            *r == self.view_list()[i as int].1,
    {
        &self.list[i].1
    }

    pub(crate) fn push(&mut self, id: String, c: FatChannel)
        ensures
            final(self).view_list() == old(self).view_list().push((id@, c)),
    {
        self.list.push((id, c));
        proof {
            assert(final(self).view_list() =~= old(self).view_list().push(
                (self.list@.last().0@, self.list@.last().1),
            ));
        }
    }

    /// Appends an item to the channel named by `id`; an unknown id is fatal
    /// and leaves the accumulators unchanged.
    pub fn add_item(&mut self, id: &str, item: RssItem) -> (r: Result<(), StcError>)
        ensures
            r is Ok <==> old(self).has_id(id@),
            r is Ok ==> list_with_item(old(self).view_list(), final(self).view_list(), id@, item),
            r is Err ==> final(self).view_list() == old(self).view_list() && (r matches Err(e)
                && (e matches StcError::RssError(RssError::ChannelNotFound(m)) && m@ == id@)),
    {
        let ghost l0 = self.view_list();
        let ids: String = id.to_owned();
        let n = self.list.len();
        let mut j: usize = 0;
        while j < n
            invariant
                l0 == old(self).view_list(),
                self.view_list() == l0,
                n == l0.len(),
                j <= n,
                ids@ == id@,
                forall|k: int| 0 <= k < j ==> (#[trigger] l0[k]).0 != id@,
            decreases n - j,
        {
            if self.list[j].0 == ids {
                assert(l0[j as int].0 == id@);
                let chan = &mut self.list[j].1;
                chan.items.push(item);
                proof {
                    assert forall|k: int|
                        0 <= k < l0.len() && k != j implies final(self).view_list()[k] == l0[k]
                    by {}
                    assert(chan_with_item(l0[j as int].1, self.view_list()[j as int].1, item));
                    assert(list_with_item(l0, self.view_list(), id@, item));
                }
                return Ok(());
            }
            assert(l0[j as int].0 != id@);
            j += 1;
        }
        Err(StcError::RssError(RssError::ChannelNotFound(ids)))
    }
}

} // verus!

verus! {

/// The configuration map of one channel record: its single-line `key=value`
/// block folded into a map.
pub open spec fn inner_of(data: Seq<char>) -> Seq<(Seq<char>, Seq<char>)> {
    crate::strmap::upsert_all(
        Seq::empty(),
        crate::config::parse_singleline_scf_spec(data)->Ok_0,
    )
}

/// Whether one channel record parses and has every required field.
pub open spec fn chan_data_ok(data: Seq<char>) -> bool {
    &&& crate::config::parse_singleline_scf_spec(data) is Ok
    &&& chan_missing(inner_of(data)) is None
}

/// Builds the channel accumulators from the `channels` configuration: one
/// channel per record, in configuration order. A record that does not parse,
/// or lacks `prepend`, `title`, `path` or `outfile`, is fatal; `description`
/// defaults to empty and `image` is optional.
pub fn get_channels(cfg: &StrMap) -> (r: Result<Channels, StcError>)
    ensures
        r is Ok <==> (forall|j: int|
            0 <= j < cfg.view_pairs().len() ==> chan_data_ok(#[trigger] cfg.view_pairs()[j].1)),
        r matches Ok(ch) ==> {
            &&& ch.view_list().len() == cfg.view_pairs().len()
            &&& forall|j: int|
                0 <= j < cfg.view_pairs().len() ==> (#[trigger] ch.view_list()[j]).0
                    == cfg.view_pairs()[j].0 && chan_matches(
                    ch.view_list()[j].1,
                    inner_of(cfg.view_pairs()[j].1),
                )
        },
        r matches Err(e) ==> exists|j: int|
            {
                &&& 0 <= j < cfg.view_pairs().len()
                &&& !chan_data_ok(#[trigger] cfg.view_pairs()[j].1)
                &&& forall|k: int| 0 <= k < j ==> chan_data_ok(#[trigger] cfg.view_pairs()[k].1)
                &&& match crate::config::parse_singleline_scf_spec(cfg.view_pairs()[j].1) {
                    Err(m) => e matches StcError::CfgErr(ms) && ms@ == m,
                    Ok(_) => chan_missing(inner_of(cfg.view_pairs()[j].1)) matches Some(re) && (
                    e matches StcError::RssError(re2) && re2 == re),
                }
            },
{
    let ghost cfgp = cfg.view_pairs();
    let n = cfg.len();
    let mut out = Channels::new();
    let mut j: usize = 0;
    while j < n
        invariant
            cfgp == cfg.view_pairs(),
            n == cfgp.len(),
            j <= n,
            out.view_list().len() == j,
            forall|k: int| 0 <= k < j ==> chan_data_ok(#[trigger] cfgp[k].1),
            forall|k: int|
                0 <= k < j ==> (#[trigger] out.view_list()[k]).0 == cfgp[k].0 && chan_matches(
                    out.view_list()[k].1,
                    inner_of(cfgp[k].1),
                ),
        decreases n - j,
    {
        let pair = cfg.pair_at(j);
        let id: String = pair.0.clone();
        let parsed = match crate::config::parse_singleline_scf(pair.1.as_str()) {
            Ok(v) => v,
            Err(e) => {
                return Err(e);
            },
        };
        let inner = crate::config::scf_to_hashmap(parsed);
        proof {
            assert(inner.view_pairs() == inner_of(cfgp[j as int].1));
        }
        let prepend = match inner.get("prepend") {
            Some(v) => v.clone(),
            None => {
                return Err(StcError::RssError(RssError::MissingPrepend));
            },
        };
        let title = match inner.get("title") {
            Some(v) => v.clone(),
            None => {
                return Err(StcError::RssError(RssError::MissingTitle));
            },
        };
        let description = match inner.get("description") {
            Some(v) => v.clone(),
            None => String::new(),
        };
        let path = match inner.get("path") {
            Some(v) => v.clone(),
            None => {
                return Err(StcError::RssError(RssError::MissingLink));
            },
        };
        let mut link = prepend.clone();
        link.append(path.as_str());
        let image_url = match inner.get("image") {
            Some(v) => {
                let mut u = prepend.clone();
                u.append(v.as_str());
                Some(u)
            },
            None => None,
        };
        let out_file = match inner.get("outfile") {
            Some(v) => v.clone(),
            None => {
                return Err(StcError::RssError(RssError::MissingPath));
            },
        };
        let c = FatChannel::new(title, description, link, image_url, out_file, prepend);
        proof {
            assert(chan_matches(c, inner_of(cfgp[j as int].1)));
        }
        out.push(id, c);
        j += 1;
    }
    Ok(out)
}

} // verus!
