//! Atom feed support: the metadata scanned out of an existing feed file,
//! and the plain-value feed document built from the matching posts.

use crate::escape::{esc_html, escape_html};
use crate::html::{render_markdown, rendered_markdown};
use crate::post::{date_cmp, date_cmp_exec, Date, Post};
use crate::strutil::str_eq;
use crate::utils::{last_slash, parent_dir};
use vstd::prelude::*;

verus! {

/// What a pre-existing feed file declares about itself.
#[derive(Debug)]
pub struct Meta {
    /// Path of the feed file.
    pub path: String,
    /// The feed's title.
    pub title: String,
    /// The feed's link.
    pub link: String,
    /// The feed's language, if declared.
    pub lang: Option<String>,
    /// The feed's generator, if declared.
    pub generator: Option<String>,
    /// The generator's URI, if declared.
    pub generator_uri: Option<String>,
}

/// One structural event read out of a feed file: an opening tag with its
/// attributes, a self-closing tag, tag content, the end of the file, or
/// anything else.
#[derive(Debug)]
pub enum XmlEvent {
    Open { name: String, attrs: Vec<(String, String)> },
    SelfClosing { name: String, attrs: Vec<(String, String)> },
    Content(String),
    Done,
    Other,
}

/// Why a feed file is treated as invalid.
#[derive(Debug, PartialEq, Eq, Structural)]
pub enum FeedError {
    MissingTitle,
    MissingLink,
}

/// Which piece of information the scan waits for next.
#[derive(Debug, PartialEq, Eq, Structural)]
pub enum ScanMode {
    WaitFeed,
    WaitInfo,
    WaitTitle,
    WaitGenerator,
}

/// The fields gathered while scanning a feed file.
pub struct ScanState {
    pub mode: ScanMode,
    pub done: bool,
    pub title: Option<Seq<char>>,
    pub link: Option<Seq<char>>,
    pub lang: Option<Seq<char>>,
    pub generator: Option<Seq<char>>,
    pub generator_uri: Option<Seq<char>>,
}

/// The value of the last attribute with the given name, if any.
pub open spec fn last_attr(attrs: Seq<(String, String)>, name: Seq<char>) -> Option<Seq<char>>
    decreases attrs.len(),
{
    if attrs.len() == 0 {
        None
    } else if attrs.last().0@ == name {
        Some(attrs.last().1@)
    } else {
        last_attr(attrs.drop_last(), name)
    }
}

/// Keep the old value unless a new one was found.
pub open spec fn keep_or(old_v: Option<Seq<char>>, new_v: Option<Seq<char>>) -> Option<Seq<char>> {
    match new_v {
        Some(v) => Some(v),
        None => old_v,
    }
}

/// One step of the feed scan: waits for the feed element, then collects the
/// title, the link and the generator, reading each from the element the
/// current mode expects; everything else passes.
pub open spec fn scan_step(st: ScanState, ev: XmlEvent) -> ScanState {
    if st.done {
        st
    } else {
        match st.mode {
            ScanMode::WaitFeed => {
                match ev {
                    XmlEvent::Open { name, attrs } => {
                        if name@ == "feed"@ {
                            ScanState {
                                mode: ScanMode::WaitInfo,
                                lang: keep_or(st.lang, last_attr(attrs@, "xml:lang"@)),
                                ..st
                            }
                        } else {
                            st
                        }
                    },
                    XmlEvent::Done => ScanState { done: true, ..st },
                    _ => st,
                }
            },
            ScanMode::WaitInfo => {
                match ev {
                    XmlEvent::Open { name, attrs } => {
                        if name@ == "title"@ {
                            ScanState { mode: ScanMode::WaitTitle, ..st }
                        } else if name@ == "generator"@ {
                            ScanState {
                                mode: ScanMode::WaitGenerator,
                                generator_uri: keep_or(
                                    st.generator_uri,
                                    last_attr(attrs@, "uri"@),
                                ),
                                ..st
                            }
                        } else if name@ == "link"@ {
                            ScanState { link: keep_or(st.link, last_attr(attrs@, "href"@)), ..st }
                        } else {
                            st
                        }
                    },
                    XmlEvent::SelfClosing { name, attrs } => {
                        if name@ == "link"@ {
                            ScanState { link: keep_or(st.link, last_attr(attrs@, "href"@)), ..st }
                        } else {
                            st
                        }
                    },
                    XmlEvent::Done => ScanState { done: true, ..st },
                    _ => st,
                }
            },
            ScanMode::WaitTitle => {
                match ev {
                    XmlEvent::Content(text) => ScanState {
                        mode: ScanMode::WaitInfo,
                        title: Some(text@),
                        ..st
                    },
                    XmlEvent::Done => ScanState { done: true, ..st },
                    _ => st,
                }
            },
            ScanMode::WaitGenerator => {
                match ev {
                    XmlEvent::Content(text) => ScanState {
                        mode: ScanMode::WaitInfo,
                        generator: Some(text@),
                        ..st
                    },
                    XmlEvent::Done => ScanState { done: true, ..st },
                    _ => st,
                }
            },
        }
    }
}

/// The scan state before any event.
pub open spec fn scan_init() -> ScanState {
    ScanState {
        mode: ScanMode::WaitFeed,
        done: false,
        title: None,
        link: None,
        lang: None,
        generator: None,
        generator_uri: None,
    }
}

/// The scan state after the first `i` events.
pub open spec fn scan_upto(evs: Seq<XmlEvent>, i: int) -> ScanState
    decreases i,
{
    if i <= 0 {
        scan_init()
    } else {
        scan_step(scan_upto(evs, i - 1), evs[i - 1])
    }
}

/// What scanning a whole event sequence yields: the gathered fields, or the
/// reason the feed is invalid. A feed without a title or a link is invalid.
pub open spec fn scan_result(evs: Seq<XmlEvent>, path: Seq<char>) -> Result<ScanState, FeedError> {
    let st = scan_upto(evs, evs.len() as int);
    if st.title is None {
        Err(FeedError::MissingTitle)
    } else if st.link is None {
        Err(FeedError::MissingLink)
    } else {
        Ok(st)
    }
}

/// Whether a feed metadata record carries the fields a scan gathered.
pub open spec fn meta_matches(m: Meta, st: ScanState, path: Seq<char>) -> bool {
    &&& m.path@ == path
    &&& Some(m.title@) == st.title
    &&& Some(m.link@) == st.link
    &&& (match (m.lang, st.lang) {
        (Some(a), Some(b)) => a@ == b,
        (None, None) => true,
        _ => false,
    })
    &&& (match (m.generator, st.generator) {
        (Some(a), Some(b)) => a@ == b,
        (None, None) => true,
        _ => false,
    })
    &&& (match (m.generator_uri, st.generator_uri) {
        (Some(a), Some(b)) => a@ == b,
        (None, None) => true,
        _ => false,
    })
}

/// Find the last attribute with the given name.
fn last_attr_exec(attrs: &Vec<(String, String)>, name: &str) -> (r: Option<String>)
    ensures
        ({
            match r {
                Some(v) => last_attr(attrs@, name@) == Some(v@),
                None => last_attr(attrs@, name@) is None,
            }
        }),
{
    let mut i: usize = attrs.len();
    proof {
        assert(attrs@.subrange(0, attrs@.len() as int) =~= attrs@);
    }
    while i > 0
        invariant
            i <= attrs@.len(),
            last_attr(attrs@, name@) == last_attr(attrs@.subrange(0, i as int), name@),
        decreases i,
    {
        proof {
            assert(attrs@.subrange(0, i as int).drop_last() =~= attrs@.subrange(0, i - 1));
            assert(attrs@.subrange(0, i as int).last() == attrs@[i - 1]);
        }
        if str_eq(attrs[i - 1].0.as_str(), name) {
            return Some(attrs[i - 1].1.clone());
        }
        i = i - 1;
    }
    proof {
        assert(attrs@.subrange(0, 0) =~= Seq::<(String, String)>::empty());
    }
    None
}

/// Scan the events read out of a feed file for the feed's metadata, and
/// build the metadata record for the file at the given path.
pub fn load_feed_meta(events: &Vec<XmlEvent>, path: String) -> (r: Result<Meta, FeedError>)
    ensures
        ({
            match r {
                Ok(m) => scan_result(events@, path@) matches Ok(st) && meta_matches(m, st, path@),
                Err(e) => scan_result(events@, path@) == Err::<ScanState, FeedError>(e),
            }
        }),
{
    let mut mode = ScanMode::WaitFeed;
    let mut done = false;
    let mut title: Option<String> = None;
    let mut link: Option<String> = None;
    let mut lang: Option<String> = None;
    let mut generator: Option<String> = None;
    let mut generator_uri: Option<String> = None;
    let mut i: usize = 0;
    while i < events.len()
        invariant
            i <= events@.len(),
            ({
                let st = scan_upto(events@, i as int);
                &&& st.mode == mode
                &&& st.done == done
                &&& (match (title, st.title) {
                    (Some(a), Some(b)) => a@ == b,
                    (None, None) => true,
                    _ => false,
                })
                &&& (match (link, st.link) {
                    (Some(a), Some(b)) => a@ == b,
                    (None, None) => true,
                    _ => false,
                })
                &&& (match (lang, st.lang) {
                    (Some(a), Some(b)) => a@ == b,
                    (None, None) => true,
                    _ => false,
                })
                &&& (match (generator, st.generator) {
                    (Some(a), Some(b)) => a@ == b,
                    (None, None) => true,
                    _ => false,
                })
                &&& (match (generator_uri, st.generator_uri) {
                    (Some(a), Some(b)) => a@ == b,
                    (None, None) => true,
                    _ => false,
                })
            }),
        decreases events@.len() - i,
    {
        let ev = &events[i];
        if !done {
            match mode {
                ScanMode::WaitFeed => {
                    match ev {
                        XmlEvent::Open { name, attrs } => {
                            if str_eq(name.as_str(), "feed") {
                                mode = ScanMode::WaitInfo;
                                match last_attr_exec(attrs, "xml:lang") {
                                    Some(v) => {
                                        lang = Some(v);
                                    },
                                    None => {},
                                }
                            }
                        },
                        XmlEvent::Done => {
                            done = true;
                        },
                        _ => {},
                    }
                },
                ScanMode::WaitInfo => {
                    match ev {
                        XmlEvent::Open { name, attrs } => {
                            if str_eq(name.as_str(), "title") {
                                mode = ScanMode::WaitTitle;
                            } else if str_eq(name.as_str(), "generator") {
                                mode = ScanMode::WaitGenerator;
                                match last_attr_exec(attrs, "uri") {
                                    Some(v) => {
                                        generator_uri = Some(v);
                                    },
                                    None => {},
                                }
                            } else if str_eq(name.as_str(), "link") {
                                match last_attr_exec(attrs, "href") {
                                    Some(v) => {
                                        link = Some(v);
                                    },
                                    None => {},
                                }
                            }
                        },
                        XmlEvent::SelfClosing { name, attrs } => {
                            if str_eq(name.as_str(), "link") {
                                match last_attr_exec(attrs, "href") {
                                    Some(v) => {
                                        link = Some(v);
                                    },
                                    None => {},
                                }
                            }
                        },
                        XmlEvent::Done => {
                            done = true;
                        },
                        _ => {},
                    }
                },
                ScanMode::WaitTitle => {
                    match ev {
                        XmlEvent::Content(text) => {
                            mode = ScanMode::WaitInfo;
                            title = Some(text.clone());
                        },
                        XmlEvent::Done => {
                            done = true;
                        },
                        _ => {},
                    }
                },
                ScanMode::WaitGenerator => {
                    match ev {
                        XmlEvent::Content(text) => {
                            mode = ScanMode::WaitInfo;
                            generator = Some(text.clone());
                        },
                        XmlEvent::Done => {
                            done = true;
                        },
                        _ => {},
                    }
                },
            }
        }
        i = i + 1;
    }
    let title = match title {
        Some(t) => t,
        None => {
            return Err(FeedError::MissingTitle);
        },
    };
    let link = match link {
        Some(t) => t,
        None => {
            return Err(FeedError::MissingLink);
        },
    };
    Ok(Meta { path, title, link, lang, generator, generator_uri })
}

/// One feed entry as plain values.
#[derive(Debug)]
pub struct FeedEntry {
    /// The post's title.
    pub title: String,
    /// The entry identifier: the feed link followed by the post's URI.
    pub id: String,
    /// The post's last-modified date.
    pub updated: Date,
    /// The post's creation date.
    pub published: Date,
    /// The post's category.
    pub category: String,
    /// The post's body rendered to HTML and escaped once more for embedding.
    pub content: String,
}

/// The spec view of a feed entry.
pub struct FeedEntryView {
    pub title: Seq<char>,
    pub id: Seq<char>,
    pub updated: Date,
    pub published: Date,
    pub category: Seq<char>,
    pub content: Seq<char>,
}

/// The view of a feed entry value.
pub open spec fn entry_view(e: FeedEntry) -> FeedEntryView {
    FeedEntryView {
        title: e.title@,
        id: e.id@,
        updated: e.updated,
        published: e.published,
        category: e.category@,
        content: e.content@,
    }
}

/// The views of a list of feed entries.
pub open spec fn entry_views(s: Seq<FeedEntry>) -> Seq<FeedEntryView> {
    s.map_values(|e: FeedEntry| entry_view(e))
}

/// The entry a post contributes to a feed.
pub open spec fn entry_of(link: Seq<char>, md: Post) -> FeedEntryView {
    FeedEntryView {
        title: md.title@,
        id: link + md.uri@,
        updated: md.updated,
        published: md.date,
        category: md.category@,
        content: esc_html(rendered_markdown(md.markdown@)),
    }
}

/// The entries of the posts from `i` onward that live under the feed's
/// directory, in post-list order.
pub open spec fn feed_entries_from(
    files: Seq<Post>,
    i: int,
    parent: Seq<char>,
    link: Seq<char>,
) -> Seq<FeedEntryView>
    decreases files.len() - i,
{
    if i < 0 || i >= files.len() {
        Seq::empty()
    } else {
        (if crate::template::prefix_of(parent, files[i].path@) {
            seq![entry_of(link, files[i])]
        } else {
            Seq::empty()
        }) + feed_entries_from(files, i + 1, parent, link)
    }
}

/// The latest last-modified date among the posts from `i` onward that live
/// under the feed's directory.
pub open spec fn max_updated_from(files: Seq<Post>, i: int, parent: Seq<char>) -> Option<Date>
    decreases files.len() - i,
{
    if i < 0 || i >= files.len() {
        None
    } else {
        let rest = max_updated_from(files, i + 1, parent);
        if crate::template::prefix_of(parent, files[i].path@) {
            match rest {
                None => Some(files[i].updated),
                Some(d) => if date_cmp(d, files[i].updated) > 0 {
                    Some(d)
                } else {
                    Some(files[i].updated)
                },
            }
        } else {
            rest
        }
    }
}

/// A path with its trailing separators removed.
pub open spec fn trim_trailing_slashes(s: Seq<char>) -> Seq<char>
    decreases s.len(),
{
    if s.len() == 0 {
        s
    } else if s.last() == '/' {
        trim_trailing_slashes(s.drop_last())
    } else {
        s
    }
}

/// The file name of a path: what follows its last separator.
pub open spec fn file_name_of(p: Seq<char>) -> Seq<char> {
    match last_slash(p) {
        Some(k) => p.subrange(k + 1, p.len() as int),
        None => p,
    }
}

/// The feed's link to itself: the feed link, any trailing separators
/// dropped, then one separator and the feed file's name.
pub open spec fn self_link_of(link: Seq<char>, path: Seq<char>) -> Seq<char> {
    trim_trailing_slashes(link) + "/"@ + file_name_of(path)
}

/// A whole feed document as plain values, ready to be serialized.
#[derive(Debug)]
pub struct FeedDoc {
    /// The feed's title.
    pub title: String,
    /// The feed identifier: its link.
    pub id: String,
    /// The latest change among the entries, or nothing without entries.
    pub updated: Option<Date>,
    /// One entry per post under the feed's directory.
    pub entries: Vec<FeedEntry>,
    /// The feed's generator, kept from the scanned feed.
    pub generator: Option<String>,
    /// The generator's URI, kept from the scanned feed.
    pub generator_uri: Option<String>,
    /// The feed's link.
    pub link: String,
    /// The feed's link to itself.
    pub self_link: String,
}

/// Remove a path's trailing separators.
fn trim_trailing_slashes_exec(s: &str) -> (r: String)
    ensures
        r@ == trim_trailing_slashes(s@),
{
    let n = s.unicode_len();
    let mut i: usize = n;
    proof {
        assert(s@.subrange(0, n as int) =~= s@);
    }
    while i > 0
        invariant
            i <= n,
            n == s@.len(),
            trim_trailing_slashes(s@) == trim_trailing_slashes(s@.subrange(0, i as int)),
        decreases i,
    {
        proof {
            assert(s@.subrange(0, i as int).drop_last() =~= s@.subrange(0, i - 1));
            assert(s@.subrange(0, i as int).last() == s@[i - 1]);
        }
        if s.get_char(i - 1) != '/' {
            proof {
                assert(trim_trailing_slashes(s@.subrange(0, i as int)) == s@.subrange(
                    0,
                    i as int,
                ));
            }
            return s.substring_char(0, i).to_owned();
        }
        i = i - 1;
    }
    proof {
        assert(s@.subrange(0, 0) =~= Seq::<char>::empty());
    }
    String::new()
}

/// The file name of a path.
fn file_name_exec(p: &str) -> (r: String)
    ensures
        r@ == file_name_of(p@),
{
    let n = p.unicode_len();
    match crate::utils::last_slash_exec(p) {
        Some(k) => p.substring_char(k + 1, n).to_owned(),
        None => p.to_owned(),
    }
}

/// Build the feed document for a scanned feed file: one entry per post
/// under the feed's directory, in post-list order, and the latest change
/// among them.
pub fn fill_atom_feed(feed: &Meta, md_files: &Vec<Post>) -> (r: FeedDoc)
    ensures
        r.title@ == feed.title@,
        r.id@ == feed.link@,
        r.link@ == feed.link@,
        r.self_link@ == self_link_of(feed.link@, feed.path@),
        entry_views(r.entries@) == feed_entries_from(
            md_files@,
            0,
            parent_dir(feed.path@),
            feed.link@,
        ),
        r.updated == max_updated_from(md_files@, 0, parent_dir(feed.path@)),
        crate::template::opt_view(r.generator) == crate::template::opt_view(feed.generator),
        crate::template::opt_view(r.generator_uri) == crate::template::opt_view(
            feed.generator_uri,
        ),
{
    let parent = crate::utils::parent_dir_exec(feed.path.as_str());
    let ghost pv = parent_dir(feed.path@);
    let mut entries: Vec<FeedEntry> = Vec::new();
    let mut updated: Option<Date> = None;
    let mut i: usize = md_files.len();
    proof {
        assert(entry_views(entries@) =~= feed_entries_from(md_files@, i as int, pv, feed.link@));
    }
    while i > 0
        invariant
            i <= md_files@.len(),
            pv == parent@,
            entry_views(entries@) == feed_entries_from(md_files@, i as int, pv, feed.link@),
            updated == max_updated_from(md_files@, i as int, pv),
        decreases i,
    {
        i = i - 1;
        let md = &md_files[i];
        if crate::template::is_prefix(parent.as_str(), md.path.as_str()) {
            let mut id = feed.link.clone();
            id.append(md.uri.as_str());
            let html = render_markdown(md.markdown.as_str());
            let content = escape_html(html.as_str());
            let entry = FeedEntry {
                title: md.title.clone(),
                id,
                updated: md.updated,
                published: md.date,
                category: md.category.clone(),
                content,
            };
            entries.insert(0, entry);
            updated = match updated {
                None => Some(md.updated),
                Some(d) => {
                    if date_cmp_exec(&d, &md.updated) > 0 {
                        Some(d)
                    } else {
                        Some(md.updated)
                    }
                },
            };
            proof {
                assert(entry_views(entries@) =~= feed_entries_from(
                    md_files@,
                    i as int,
                    pv,
                    feed.link@,
                ));
            }
        }
    }
    let trimmed = trim_trailing_slashes_exec(feed.link.as_str());
    let mut self_link = trimmed;
    self_link.append("/");
    let fname = file_name_exec(feed.path.as_str());
    self_link.append(fname.as_str());
    FeedDoc {
        title: feed.title.clone(),
        id: feed.link.clone(),
        updated,
        entries,
        generator: match &feed.generator {
            Some(g) => Some(g.clone()),
            None => None,
        },
        generator_uri: match &feed.generator_uri {
            Some(g) => Some(g.clone()),
            None => None,
        },
        link: feed.link.clone(),
        self_link,
    }
}

} // verus!
