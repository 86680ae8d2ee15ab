//! The per-page render pipeline: front matter parsed into a page
//! configuration, feed membership recorded, a template chosen and filled by
//! the substitution passes (sections, then page configuration, then global
//! replacement rules), leftover placeholders stripped, and the result handed
//! to the markdown renderer. Also the build's per-entry classification.
use vstd::prelude::*;

use crate::config::{parse_rep_chars, parse_rep_spec, split_all, split_by, trim_chars, trim_spec};
use crate::doc::{doc_front_matter, doc_sections, split_doc, split_doc_ok};
use crate::errors::{RssError, StcError};
use crate::paths::is_markdown_spec;
use crate::rss::{
    item_matches, item_spec_ok, item_title_spec, list_with_item, rfc2822_utc_of, Channels,
    FatChannel, RssItem,
};
use crate::strmap::{assoc_get, upsert, upsert_all, StrMap};
use crate::tags::{
    reaches_fixpoint, replace_all_unescaped, replace_fix, replace_unused_tags, strip_from,
};
use crate::text::{chars_to_string, str_to_chars};

verus! {

/// Markdown rendering options, handed through to the HTML renderer.
#[derive(Clone, Copy, Debug, PartialEq, Eq, Structural)]
pub struct MdOptions {
    pub strikethrough: bool,
    pub table: bool,
    pub autolink: bool,
    pub tasklist: bool,
    pub superscript: bool,
    pub footnotes: bool,
    pub description_lists: bool,
    /// Pass raw HTML through unescaped; the templates are themselves HTML.
    pub raw_html: bool,
}

impl Default for MdOptions {
    fn default() -> (r: MdOptions)
        ensures
            r == (MdOptions {
                strikethrough: false,
                table: false,
                autolink: false,
                tasklist: false,
                superscript: false,
                footnotes: false,
                description_lists: false,
                raw_html: false,
            }),
    {
        MdOptions {
            strikethrough: false,
            table: false,
            autolink: false,
            tasklist: false,
            superscript: false,
            footnotes: false,
            description_lists: false,
            raw_html: false,
        }
    }
}

/// A name for what comrak computes: the HTML of a markdown text under given
/// options. The result depends on the text and the options alone.
pub uninterp spec fn md_html_of(s: Seq<char>, opts: MdOptions) -> Seq<char>;

/// Relies on comrak's markdown_to_html, with the extension and render
/// options built from the given flags.
#[verifier::external_body]
fn render_html(md: &str, opts: &MdOptions) -> (r: String)
    ensures
        r@ == md_html_of(md@, *opts),
{
    let mut o = comrak::Options::default();
    o.extension.strikethrough = opts.strikethrough;
    o.extension.table = opts.table;
    o.extension.autolink = opts.autolink;
    o.extension.tasklist = opts.tasklist;
    o.extension.superscript = opts.superscript;
    o.extension.footnotes = opts.footnotes;
    o.extension.description_lists = opts.description_lists;
    o.render.unsafe_ = opts.raw_html;
    comrak::markdown_to_html(md, &o)
}

/// The placeholder token of a name: `##NAME##`.
pub open spec fn tag_of(name: Seq<char>) -> Seq<char> {
    seq!['#', '#'] + name + seq!['#', '#']
}

/// The token a global replacement rule named `NAME` replaces: `REP=NAME`.
pub open spec fn rep_token_of(name: Seq<char>) -> Seq<char> {
    seq!['R', 'E', 'P', '='] + name
}

/// One substitution pass: each binding's token replaced to its fixed point,
/// in binding order. Section and configuration passes use `##NAME##` tokens;
/// the global pass uses `REP=NAME` tokens.
pub open spec fn apply_pairs(
    t: Seq<char>,
    ps: Seq<(Seq<char>, Seq<char>)>,
    global: bool,
) -> Seq<char>
    decreases ps.len(),
{
    if ps.len() == 0 {
        t
    } else {
        let tok = if global {
            rep_token_of(ps[0].0)
        } else {
            tag_of(ps[0].0)
        };
        apply_pairs(replace_fix(t, tok, ps[0].1), ps.drop_first(), global)
    }
}

/// Every step of a substitution pass reaches its fixed point.
pub open spec fn pairs_terminate(
    t: Seq<char>,
    ps: Seq<(Seq<char>, Seq<char>)>,
    global: bool,
) -> bool
    decreases ps.len(),
{
    if ps.len() == 0 {
        true
    } else {
        let tok = if global {
            rep_token_of(ps[0].0)
        } else {
            tag_of(ps[0].0)
        };
        reaches_fixpoint(t, tok, ps[0].1) && pairs_terminate(
            replace_fix(t, tok, ps[0].1),
            ps.drop_first(),
            global,
        )
    }
}

/// Front-matter lines as bindings: blank lines are skipped, every other line
/// is a `key=value` record; the first malformed line wins.
pub open spec fn parse_fm_lines(ls: Seq<Seq<char>>) -> Result<
    Seq<(Seq<char>, Seq<char>)>,
    Seq<char>,
>
    decreases ls.len(),
{
    if ls.len() == 0 {
        Ok(Seq::empty())
    } else if trim_spec(ls[0]).len() == 0 {
        parse_fm_lines(ls.drop_first())
    } else {
        match parse_rep_spec(ls[0]) {
            Err(m) => Err(m),
            Ok(kv) => match parse_fm_lines(ls.drop_first()) {
                Err(m) => Err(m),
                Ok(rest) => Ok(seq![kv] + rest),
            },
        }
    }
}

/// A page's configuration map, read line by line from its front matter.
pub open spec fn page_cfg(fm: Seq<char>) -> Result<Seq<(Seq<char>, Seq<char>)>, Seq<char>> {
    match parse_fm_lines(split_by(fm, seq!['\n'])) {
        Err(m) => Err(m),
        Ok(ps) => Ok(upsert_all(Seq::empty(), ps)),
    }
}

/// The template a page asks for: its `template` key, defaulting to `main`.
pub open spec fn template_name_of(cfgp: Seq<(Seq<char>, Seq<char>)>) -> Seq<char> {
    match assoc_get(cfgp, "template"@) {
        Some(t) => t,
        None => "main"@,
    }
}

/// Whether some channel in the list has this id.
pub open spec fn list_has_id(l: Seq<(Seq<char>, FatChannel)>, id: Seq<char>) -> bool {
    exists|j: int| 0 <= j < l.len() && (#[trigger] l[j]).0 == id
}

/// Whether a page reaches the substitution stage: the document splits, its
/// front matter parses, its feed membership (if any) yields an item for a
/// known channel, and its template exists.
pub open spec fn reaches_subst(
    md: Seq<char>,
    templates: Seq<(Seq<char>, Seq<char>)>,
    chans: Seq<(Seq<char>, FatChannel)>,
) -> bool {
    &&& split_doc_ok(md)
    &&& page_cfg(doc_front_matter(md)) is Ok
    &&& {
        let cfgp = page_cfg(doc_front_matter(md))->Ok_0;
        &&& match assoc_get(cfgp, "rss_chan_id"@) {
            None => true,
            Some(id) => item_spec_ok(cfgp) && list_has_id(chans, id),
        }
        &&& assoc_get(templates, template_name_of(cfgp)) is Some
    }
}

/// The substituted template text of a page, before markdown rendering
/// (meaningful where the page reaches the substitution stage and the passes
/// terminate).
pub open spec fn rendered_text(
    md: Seq<char>,
    templates: Seq<(Seq<char>, Seq<char>)>,
    reps: Seq<(Seq<char>, Seq<char>)>,
) -> Seq<char> {
    let cfgp = page_cfg(doc_front_matter(md))->Ok_0;
    let t0 = assoc_get(templates, template_name_of(cfgp))->Some_0;
    let t1 = apply_pairs(t0, doc_sections(md), false);
    let t2 = apply_pairs(t1, cfgp, false);
    let t3 = apply_pairs(t2, reps, true);
    strip_from(t3, 0)
}

/// All three substitution passes of a page reach their fixed points. A
/// section, configuration or replacement value that keeps reintroducing a
/// live token has no fixed point, and the engine provides no guard.
pub open spec fn substs_terminate(
    md: Seq<char>,
    templates: Seq<(Seq<char>, Seq<char>)>,
    reps: Seq<(Seq<char>, Seq<char>)>,
    chans: Seq<(Seq<char>, FatChannel)>,
) -> bool {
    reaches_subst(md, templates, chans) ==> {
        let cfgp = page_cfg(doc_front_matter(md))->Ok_0;
        let t0 = assoc_get(templates, template_name_of(cfgp))->Some_0;
        let t1 = apply_pairs(t0, doc_sections(md), false);
        let t2 = apply_pairs(t1, cfgp, false);
        &&& pairs_terminate(t0, doc_sections(md), false)
        &&& pairs_terminate(t1, cfgp, false)
        &&& pairs_terminate(t2, reps, true)
    }
}

/// Rendering is a function of the page text, the templates, the replacement
/// rules and the options alone: two builds over unchanged input and
/// configuration produce byte-identical pages.
pub proof fn lemma_render_deterministic(
    md: Seq<char>,
    templates: Seq<(Seq<char>, Seq<char>)>,
    reps: Seq<(Seq<char>, Seq<char>)>,
    opts: MdOptions,
    h1: Seq<char>,
    h2: Seq<char>,
)
    requires
        h1 == md_html_of(rendered_text(md, templates, reps), opts),
        h2 == md_html_of(rendered_text(md, templates, reps), opts),
    ensures
        h1 == h2,
{
}

/// The token `##NAME##` of a section or configuration name.
fn make_tag(name: &str) -> (r: String)
    ensures
        r@ == tag_of(name@),
{
    let mut out: Vec<char> = Vec::new();
    out.push('#');
    out.push('#');
    let mut nv = str_to_chars(name);
    out.append(&mut nv);
    out.push('#');
    out.push('#');
    proof {
        assert(out@ =~= tag_of(name@));
    }
    chars_to_string(&out)
}

/// The token `REP=NAME` of a global replacement rule.
fn make_rep_token(name: &str) -> (r: String)
    ensures
        r@ == rep_token_of(name@),
{
    let mut out: Vec<char> = Vec::new();
    out.push('R');
    out.push('E');
    out.push('P');
    out.push('=');
    let mut nv = str_to_chars(name);
    out.append(&mut nv);
    proof {
        assert(out@ =~= rep_token_of(name@));
    }
    chars_to_string(&out)
}

/// Parses a page's front matter into its configuration map.
fn parse_fm_cfg(fm: &str) -> (r: Result<StrMap, StcError>)
    ensures
        match page_cfg(fm@) {
            Ok(ps) => r matches Ok(m) && m.view_pairs() == ps && m.wf(),
            Err(msg) => r matches Err(e) && (e matches StcError::CfgErr(ms) && ms@ == msg),
        },
{
    let v = str_to_chars(fm);
    let mut nl: Vec<char> = Vec::new();
    nl.push('\n');
    proof {
        assert(nl@ =~= seq!['\n']);
    }
    let lines = split_all(&v, &nl);
    let ghost ls = lines.deep_view();
    let n = lines.len();
    let mut map = StrMap::new();
    let mut idx: usize = 0;
    proof {
        assert(ls.skip(0) =~= ls);
        assert(map.view_pairs() =~= Seq::<(Seq<char>, Seq<char>)>::empty());
    }
    while idx < n
        invariant
            n == ls.len(),
            ls == lines.deep_view(),
            ls == split_by(fm@, seq!['\n']),
            idx <= n,
            map.wf(),
            match parse_fm_lines(ls.skip(idx as int)) {
                Ok(rest) => page_cfg(fm@) == Ok::<_, Seq<char>>(
                    upsert_all(map.view_pairs(), rest),
                ),
                Err(m) => page_cfg(fm@) == Err::<Seq<(Seq<char>, Seq<char>)>, _>(m),
            },
        decreases n - idx,
    {
        let ghost rem = ls.skip(idx as int);
        proof {
            assert(rem[0] == ls[idx as int]);
            assert(rem.drop_first() =~= ls.skip(idx as int + 1));
            assert(lines.deep_view()[idx as int] == lines@[idx as int].deep_view());
            crate::text::lemma_vec_char_deep(lines@[idx as int]);
        }
        let line = &lines[idx];
        let trimmed = trim_chars(line);
        if trimmed.len() == 0 {
            proof {
                assert(trim_spec(rem[0]).len() == 0);
            }
            idx += 1;
            continue;
        }
        assert(trim_spec(rem[0]).len() != 0);
        match parse_rep_chars(line) {
            Err(e) => {
                return Err(e);
            },
            Ok(p) => {
                let ghost acc0 = map.view_pairs();
                proof {
                    if parse_fm_lines(ls.skip(idx as int + 1)) is Ok {
                        let rest2 = parse_fm_lines(ls.skip(idx as int + 1))->Ok_0;
                        assert(parse_fm_lines(rem) == Ok::<_, Seq<char>>(
                            seq![(p.0@, p.1@)] + rest2,
                        ));
                        assert((seq![(p.0@, p.1@)] + rest2).drop_first() =~= rest2);
                        assert(upsert_all(acc0, seq![(p.0@, p.1@)] + rest2) == upsert_all(
                            upsert(acc0, p.0@, p.1@),
                            rest2,
                        ));
                    }
                }
                map.insert(p.0, p.1);
                idx += 1;
            },
        }
    }
    proof {
        assert(ls.skip(n as int) =~= Seq::<Seq<char>>::empty());
        assert(parse_fm_lines(ls.skip(n as int)) == Ok::<_, Seq<char>>(
            Seq::<(Seq<char>, Seq<char>)>::empty(),
        ));
        assert(upsert_all(map.view_pairs(), Seq::<(Seq<char>, Seq<char>)>::empty())
            == map.view_pairs());
    }
    Ok(map)
}

/// One substitution pass over every binding of `ps`, in order.
fn apply_pass(t: &str, ps: &StrMap, global: bool) -> (r: String)
    requires
        pairs_terminate(t@, ps.view_pairs(), global),
    ensures
        r@ == apply_pairs(t@, ps.view_pairs(), global),
{
    let ghost pv = ps.view_pairs();
    let n = ps.len();
    let mut cur: String = t.to_owned();
    let mut i: usize = 0;
    proof {
        assert(pv.skip(0) =~= pv);
    }
    while i < n
        invariant
            pv == ps.view_pairs(),
            n == pv.len(),
            i <= n,
            apply_pairs(cur@, pv.skip(i as int), global) == apply_pairs(t@, pv, global),
            pairs_terminate(cur@, pv.skip(i as int), global),
        decreases n - i,
    {
        let ghost rem = pv.skip(i as int);
        proof {
            assert(rem[0] == pv[i as int]);
            assert(rem.drop_first() =~= pv.skip(i as int + 1));
        }
        let pair = ps.pair_at(i);
        let tok = if global {
            make_rep_token(pair.0.as_str())
        } else {
            make_tag(pair.0.as_str())
        };
        proof {
            assert(reaches_fixpoint(cur@, tok@, pair.1@));
        }
        let next = replace_all_unescaped(cur.as_str(), tok.as_str(), pair.1.as_str());
        cur = next;
        i += 1;
    }
    proof {
        assert(pv.skip(n as int) =~= Seq::<(Seq<char>, Seq<char>)>::empty());
    }
    cur
}

/// Renders one markdown page: split, configure, record feed membership,
/// fill the chosen template (sections, then configuration, then global
/// replacement rules), strip leftover placeholders, render to HTML.
///
/// A page naming a template that was never loaded fails with a
/// template-not-found error; every error aborts the page.
pub fn render_markdown(
    md: &str,
    path: &str,
    templates: &StrMap,
    global_reps: &StrMap,
    opts: &MdOptions,
    channels: &mut Channels,
) -> (r: Result<String, StcError>)
    requires
        substs_terminate(
            md@,
            templates.view_pairs(),
            global_reps.view_pairs(),
            old(channels).view_list(),
        ),
    ensures
        r is Ok <==> reaches_subst(md@, templates.view_pairs(), old(channels).view_list()),
        r matches Ok(h) ==> h@ == md_html_of(
            rendered_text(md@, templates.view_pairs(), global_reps.view_pairs()),
            *opts,
        ),
        ({
            let fm = doc_front_matter(md@);
            if split_doc_ok(md@) && page_cfg(fm) is Ok && assoc_get(
                page_cfg(fm)->Ok_0,
                "rss_chan_id"@,
            ) is Some && item_spec_ok(page_cfg(fm)->Ok_0) && list_has_id(
                old(channels).view_list(),
                assoc_get(page_cfg(fm)->Ok_0, "rss_chan_id"@)->Some_0,
            ) {
                exists|it: RssItem|
                    item_matches(it, page_cfg(fm)->Ok_0, path@) && #[trigger] list_with_item(
                        old(channels).view_list(),
                        final(channels).view_list(),
                        assoc_get(page_cfg(fm)->Ok_0, "rss_chan_id"@)->Some_0,
                        it,
                    )
            } else {
                final(channels).view_list() == old(channels).view_list()
            }
        }),
        r matches Err(e) ==> ({
            let fm = doc_front_matter(md@);
            let cfgr = page_cfg(fm);
            ||| (!split_doc_ok(md@) && e is BadFrontMatter)
            ||| {
                &&& split_doc_ok(md@)
                &&& cfgr matches Err(m) && (e matches StcError::CfgErr(ms) && ms@ == m)
            }
            ||| {
                &&& split_doc_ok(md@)
                &&& cfgr is Ok
                &&& {
                    let cfgp = cfgr->Ok_0;
                    ||| {
                        &&& assoc_get(cfgp, "rss_chan_id"@) is Some
                        &&& item_title_spec(cfgp) is None
                        &&& e matches StcError::RssError(RssError::MissingTitle)
                    }
                    ||| {
                        &&& assoc_get(cfgp, "rss_chan_id"@) is Some
                        &&& item_title_spec(cfgp) is Some
                        &&& assoc_get(cfgp, "rss_pubdate"@) matches Some(d) && rfc2822_utc_of(d)
                            is None && (e matches StcError::RssError(RssError::BadPubdate(ms))
                            && ms@ == d)
                    }
                    ||| {
                        &&& assoc_get(cfgp, "rss_chan_id"@) matches Some(id) && item_spec_ok(cfgp)
                            && !list_has_id(old(channels).view_list(), id) && (e matches
                        StcError::RssError(RssError::ChannelNotFound(ms)) && ms@ == id)
                    }
                    ||| {
                        &&& match assoc_get(cfgp, "rss_chan_id"@) {
                            None => true,
                            Some(id) => item_spec_ok(cfgp) && list_has_id(
                                old(channels).view_list(),
                                id,
                            ),
                        }
                        &&& assoc_get(templates.view_pairs(), template_name_of(cfgp)) is None
                        &&& e matches StcError::TemplateError(ms) && ms@ == template_name_of(cfgp)
                    }
                }
            }
        }),
{
    let split = match split_doc(md) {
        Ok(v) => v,
        Err(e) => {
            return Err(e);
        },
    };
    let fm = split.0;
    let secs = split.1;
    let cfg = match parse_fm_cfg(fm.as_str()) {
        Ok(m) => m,
        Err(e) => {
            return Err(e);
        },
    };
    let ghost cfgp = page_cfg(doc_front_matter(md@))->Ok_0;
    let has_chan = match cfg.get("rss_chan_id") {
        Some(_) => true,
        None => false,
    };
    if has_chan {
        let built = match RssItem::new(&cfg, path) {
            Ok(v) => v,
            Err(e) => {
                return Err(e);
            },
        };
        match channels.add_item(built.0.as_str(), built.1) {
            Ok(_) => {},
            Err(e) => {
                return Err(e);
            },
        }
    }
    let temp_name: String = match cfg.get("template") {
        Some(v) => v.clone(),
        None => "main".to_owned(),
    };
    proof {
        assert(temp_name@ == template_name_of(cfgp));
    }
    let template: String = match templates.get(temp_name.as_str()) {
        Some(t) => t.clone(),
        None => {
            return Err(StcError::TemplateError(temp_name));
        },
    };
    proof {
        assert(reaches_subst(md@, templates.view_pairs(), old(channels).view_list()));
    }
    let t1 = apply_pass(template.as_str(), &secs, false);
    let t2 = apply_pass(t1.as_str(), &cfg, false);
    let t3 = apply_pass(t2.as_str(), global_reps, true);
    let stripped = replace_unused_tags(t3.as_str());
    let html = render_html(stripped.as_str(), opts);
    Ok(html)
}

/// Whether a path in the ignore list.
pub open spec fn in_ignore(ignore: Seq<Seq<char>>, p: Seq<char>) -> bool {
    exists|j: int| 0 <= j < ignore.len() && ignore[j] == p
}

/// Whether a file is rendered as markdown: it has the `md` extension and is
/// not on the ignore list (an ignored markdown file is copied verbatim).
pub fn should_render(path: &str, ignore: &Vec<String>) -> (r: bool)
    ensures
        r == (is_markdown_spec(path@) && !in_ignore(ignore.deep_view(), path@)),
{
    if !crate::paths::is_markdown(path) {
        return false;
    }
    let pw: String = path.to_owned();
    let n = ignore.len();
    let mut j: usize = 0;
    while j < n
        invariant
            n == ignore@.len(),
            j <= n,
            pw@ == path@,
            forall|k: int| 0 <= k < j ==> ignore.deep_view()[k] != path@,
        decreases n - j,
    {
        proof {
            assert(ignore.deep_view()[j as int] == ignore@[j as int]@);
        }
        if ignore[j] == pw {
            assert(in_ignore(ignore.deep_view(), path@));
            return false;
        }
        j += 1;
    }
    assert(!in_ignore(ignore.deep_view(), path@));
    true
}

/// What the build does with one walked entry.
#[derive(Debug, Clone, Copy, PartialEq, Eq, Structural)]
pub enum BuildAction {
    /// Mirror the directory in the output tree.
    MakeDir,
    /// Render the markdown file to HTML at the mirrored path.
    Render,
    /// Copy the file byte for byte to the mirrored path.
    Copy,
}

/// Classifies one walked entry: directories are mirrored, markdown files not
/// on the ignore list are rendered, everything else is copied.
pub fn classify_entry(is_dir: bool, path: &str, ignore: &Vec<String>) -> (a: BuildAction)
    ensures
        a == (if is_dir {
            BuildAction::MakeDir
        } else if is_markdown_spec(path@) && !in_ignore(ignore.deep_view(), path@) {
            BuildAction::Render
        } else {
            BuildAction::Copy
        }),
{
    if is_dir {
        BuildAction::MakeDir
    } else if should_render(path, ignore) {
        BuildAction::Render
    } else {
        BuildAction::Copy
    }
}

} // verus!
