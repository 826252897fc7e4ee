use pagong::feed::{fill_atom_feed, load_feed_meta, FeedError, Meta, XmlEvent};
use pagong::post::{Date, Post};

fn open(name: &str, attrs: &[(&str, &str)]) -> XmlEvent {
    XmlEvent::Open {
        name: name.to_owned(),
        attrs: attrs.iter().map(|(k, v)| (k.to_string(), v.to_string())).collect(),
    }
}

#[test]
fn feed_scan_collects_fields() {
    let events = vec![
        open("feed", &[("xml:lang", "en")]),
        open("title", &[]),
        XmlEvent::Content("My Feed".to_owned()),
        XmlEvent::SelfClosing {
            name: "link".to_owned(),
            attrs: vec![("href".to_owned(), "https://x".to_owned())],
        },
        open("generator", &[("uri", "https://gen")]),
        XmlEvent::Content("gen".to_owned()),
        XmlEvent::Done,
    ];
    let meta = load_feed_meta(&events, "/site/feed.atom".to_owned()).unwrap();
    assert_eq!(meta.title, "My Feed");
    assert_eq!(meta.link, "https://x");
    assert_eq!(meta.lang.as_deref(), Some("en"));
    assert_eq!(meta.generator.as_deref(), Some("gen"));
    assert_eq!(meta.generator_uri.as_deref(), Some("https://gen"));
}

#[test]
fn feed_without_title_is_invalid() {
    let events = vec![
        open("feed", &[]),
        XmlEvent::SelfClosing {
            name: "link".to_owned(),
            attrs: vec![("href".to_owned(), "https://x".to_owned())],
        },
        XmlEvent::Done,
    ];
    let r = load_feed_meta(&events, "/f.atom".to_owned());
    assert!(matches!(r, Err(FeedError::MissingTitle)));
}

#[test]
fn feed_without_link_is_invalid() {
    let events = vec![
        open("feed", &[]),
        open("title", &[]),
        XmlEvent::Content("T".to_owned()),
        XmlEvent::Done,
    ];
    let r = load_feed_meta(&events, "/f.atom".to_owned());
    assert!(matches!(r, Err(FeedError::MissingLink)));
}

#[test]
fn fill_feed_selects_posts_under_the_feed_directory() {
    let meta = Meta {
        path: "/site/blog/feed.atom".to_owned(),
        title: "T".to_owned(),
        link: "https://x".to_owned(),
        lang: None,
        generator: None,
        generator_uri: None,
    };
    let inside = Post {
        path: "/site/blog/a.md".to_owned(),
        markdown: "# A".to_owned(),
        meta: Vec::new(),
        title: "A".to_owned(),
        date: Date { year: 2021, month: 3, day: 1 },
        updated: Date { year: 2021, month: 3, day: 5 },
        category: "blog".to_owned(),
        tags: Vec::new(),
        template: None,
        uri: "/blog/a.html".to_owned(),
        toc: Vec::new(),
    };
    let outside = Post {
        path: "/site/other/b.md".to_owned(),
        markdown: "# B".to_owned(),
        meta: Vec::new(),
        title: "B".to_owned(),
        date: Date { year: 2022, month: 1, day: 1 },
        updated: Date { year: 2022, month: 1, day: 1 },
        category: "other".to_owned(),
        tags: Vec::new(),
        template: None,
        uri: "/other/b.html".to_owned(),
        toc: Vec::new(),
    };
    let files = vec![inside, outside];
    let doc = fill_atom_feed(&meta, &files);
    assert_eq!(doc.entries.len(), 1);
    assert_eq!(doc.entries[0].title, "A");
    assert_eq!(doc.entries[0].id, "https://x/blog/a.html");
    assert!(doc.entries[0].content.contains("&lt;h1"), "content is escaped html");
    assert_eq!(doc.updated, Some(Date { year: 2021, month: 3, day: 5 }));
    assert_eq!(doc.self_link, "https://x/feed.atom");
}
