use pagong::post::{Date, Post};
use pagong::template::{build_toc, HtmlTemplate, MetaKey};

fn post(path: &str, title: &str, uri: &str) -> Post {
    Post {
        path: path.to_owned(),
        markdown: String::new(),
        meta: Vec::new(),
        title: title.to_owned(),
        date: Date { year: 2021, month: 1, day: 1 },
        updated: Date { year: 2021, month: 1, day: 2 },
        category: "misc".to_owned(),
        tags: Vec::new(),
        template: None,
        uri: uri.to_owned(),
        toc: Vec::new(),
    }
}

#[test]
fn toc_builder_nests_and_closes() {
    let toc = vec![("A".to_owned(), 1u8), ("B".to_owned(), 2u8), ("C".to_owned(), 1u8)];
    let html = build_toc(&toc, 2);
    assert_eq!(html, "<ul><li>A</li><ul><li>B</li></ul><li>C</li></ul>");
}

#[test]
fn toc_builder_skips_deep_entries() {
    let toc = vec![("A".to_owned(), 1u8), ("B".to_owned(), 3u8), ("C".to_owned(), 2u8)];
    let html = build_toc(&toc, 2);
    assert_eq!(html, "<ul><li>A</li><ul><li>C</li></ul></ul>");
}

#[test]
fn contents_directive_renders_markdown() {
    let t = HtmlTemplate::from_string("<body><!--P/ CONTENTS /P--></body>".to_owned());
    let mut p = post("/site/a.md", "A", "/a.html");
    p.markdown = "# Hello World".to_owned();
    let files = vec![];
    let css = vec![];
    let includes = vec![];
    let html = t.apply("/site", &p, &files, &css, &includes);
    assert!(html.starts_with("<body>"), "{}", html);
    assert!(html.ends_with("</body>"), "{}", html);
    assert!(html.contains("id=\"hello_world\""), "{}", html);
}

#[test]
fn substitution_is_repeatable() {
    let t = HtmlTemplate::from_string(
        "<body><!--P/ CONTENTS /P--> and <!--P/ META k /P--></body>".to_owned(),
    );
    let mut p = post("/site/a.md", "A", "/a.html");
    p.markdown = "# One\n\n# One".to_owned();
    p.meta = vec![("k".to_owned(), "v".to_owned())];
    let files = vec![];
    let css = vec![];
    let includes = vec![];
    let first = t.apply("/site", &p, &files, &css, &includes);
    let second = t.apply("/site", &p, &files, &css, &includes);
    assert_eq!(first, second);
}

#[test]
fn listing_sorted_by_title_descending() {
    let t = HtmlTemplate::from_string("<!--P/ LIST / sort title desc /P-->".to_owned());
    let p = post("/site/index.md", "Index", "/index.html");
    let files = vec![
        post("/site/b.md", "B", "/b.html"),
        post("/site/a.md", "A", "/a.html"),
        post("/site/c.md", "C", "/c.html"),
    ];
    let css = vec![];
    let includes = vec![];
    let html = t.apply("/site", &p, &files, &css, &includes);
    let ca = html.find(">A<").unwrap();
    let cb = html.find(">B<").unwrap();
    let cc = html.find(">C<").unwrap();
    assert!(cc < cb && cb < ca, "descending title order: {}", html);
}

#[test]
fn listing_unsorted_keeps_input_order() {
    let t = HtmlTemplate::from_string("<!--P/ LIST / /P-->".to_owned());
    let p = post("/site/index.md", "Index", "/index.html");
    let files = vec![
        post("/site/b.md", "B", "/b.html"),
        post("/other/x.md", "X", "/x.html"),
        post("/site/a.md", "A", "/a.html"),
    ];
    let css = vec![];
    let includes = vec![];
    let html = t.apply("/site", &p, &files, &css, &includes);
    assert!(!html.contains(">X<"), "posts outside the path prefix are filtered: {}", html);
    let cb = html.find(">B<").unwrap();
    let ca = html.find(">A<").unwrap();
    assert!(cb < ca, "input order kept: {}", html);
}

#[test]
fn listing_links_are_relative() {
    let t = HtmlTemplate::from_string("<!--P/ LIST / /P-->".to_owned());
    let p = post("/site/sub/index.md", "Index", "/sub/index.html");
    let files = vec![post("/site/a.md", "A", "/a.html")];
    let css = vec![];
    let includes = vec![];
    let html = t.apply("/site", &p, &files, &css, &includes);
    assert!(html.contains("href=\"../a.html\""), "{}", html);
}

#[test]
fn css_directive_matches_prefix() {
    let t = HtmlTemplate::from_string("<!--P/ CSS /P-->".to_owned());
    let p = post("/site/sub/a.md", "A", "/sub/a.html");
    let files = vec![];
    let css = vec!["/style.css".to_owned(), "/sub/other.css".to_owned(), "/else/no.css"
        .to_owned()];
    let includes = vec![];
    let html = t.apply("/site", &p, &files, &css, &includes);
    assert!(html.contains("href=\"/style.css\""), "{}", html);
    assert!(html.contains("href=\"/sub/other.css\""), "{}", html);
    assert!(!html.contains("href=\"/else/no.css\""), "{}", html);
}

#[test]
fn meta_directive_emits_value_or_empty() {
    let t = HtmlTemplate::from_string("[<!--P/ META author /P-->][<!--P/ META missing /P-->]"
        .to_owned());
    let mut p = post("/site/a.md", "A", "/a.html");
    p.meta = vec![("author".to_owned(), "me".to_owned())];
    let files = vec![];
    let css = vec![];
    let includes = vec![];
    let html = t.apply("/site", &p, &files, &css, &includes);
    assert_eq!(html, "[me][]");
}

#[test]
fn include_of_missing_file_leaves_directive_text() {
    let source = "pre <!--P/ INCLUDE missing.txt /P--> post";
    let t = HtmlTemplate::from_string(source.to_owned());
    let p = post("/site/a.md", "A", "/a.html");
    let files = vec![];
    let css = vec![];
    let includes = vec![("/site/missing.txt".to_owned(), None)];
    let html = t.apply("/site", &p, &files, &css, &includes);
    assert_eq!(html, source, "an unreadable include leaves the directive as literal text");
}

#[test]
fn include_escapes_unless_raw_extension() {
    let t = HtmlTemplate::from_string(
        "<!--P/ INCLUDE a.txt /P-->|<!--P/ INCLUDE b.html /P-->".to_owned(),
    );
    let p = post("/site/a.md", "A", "/a.html");
    let files = vec![];
    let css = vec![];
    let includes = vec![
        ("/site/a.txt".to_owned(), Some("<x>".to_owned())),
        ("/site/b.html".to_owned(), Some("<x>".to_owned())),
    ];
    let html = t.apply("/site", &p, &files, &css, &includes);
    assert_eq!(html, "&lt;x&gt;|<x>");
}

#[test]
fn include_paths_are_resolved() {
    let t = HtmlTemplate::from_string(
        "<!--P/ INCLUDE a.txt /P--><!--P/ INCLUDE /b.txt /P-->".to_owned(),
    );
    let p = post("/site/sub/a.md", "A", "/sub/a.html");
    let paths = t.include_paths("/site", &p);
    assert_eq!(paths, vec!["/site/sub/a.txt".to_owned(), "/site/b.txt".to_owned()]);
}

#[test]
fn unknown_rule_is_left_as_text() {
    let source = "a <!--P/ NOPE /P--> b";
    let t = HtmlTemplate::from_string(source.to_owned());
    let p = post("/site/a.md", "A", "/a.html");
    let files = vec![];
    let css = vec![];
    let includes = vec![];
    let html = t.apply("/site", &p, &files, &css, &includes);
    assert_eq!(html, source);
}

#[test]
fn missing_close_marker_stops_the_scan() {
    let source = "a <!--P/ CONTENTS b";
    let t = HtmlTemplate::from_string(source.to_owned());
    let p = post("/site/a.md", "A", "/a.html");
    let files = vec![];
    let css = vec![];
    let includes = vec![];
    let html = t.apply("/site", &p, &files, &css, &includes);
    assert_eq!(html, source);
}

#[test]
fn quoted_directive_arguments() {
    let t = HtmlTemplate::from_string("<!--P/ META \"spaced key\" /P-->".to_owned());
    let mut p = post("/site/a.md", "A", "/a.html");
    p.meta = vec![("spaced key".to_owned(), "yes".to_owned())];
    let files = vec![];
    let css = vec![];
    let includes = vec![];
    let html = t.apply("/site", &p, &files, &css, &includes);
    assert_eq!(html, "yes");
}

#[test]
fn meta_key_classification() {
    assert!(matches!(MetaKey::new("title".to_owned()), MetaKey::Title));
    assert!(matches!(MetaKey::new("date".to_owned()), MetaKey::CreationDate));
    assert!(matches!(MetaKey::new("updated".to_owned()), MetaKey::ModifiedDate));
    assert!(matches!(MetaKey::new("category".to_owned()), MetaKey::Category));
    assert!(matches!(MetaKey::new("tags".to_owned()), MetaKey::Tags));
    assert!(matches!(MetaKey::new("template".to_owned()), MetaKey::Template));
    assert!(matches!(MetaKey::new("other".to_owned()), MetaKey::Custom(_)));
}

#[test]
fn listing_sorted_by_missing_meta_puts_absent_first() {
    let t = HtmlTemplate::from_string("<!--P/ LIST / sort weight asc /P-->".to_owned());
    let p = post("/site/index.md", "Index", "/index.html");
    let mut a = post("/site/a.md", "A", "/a.html");
    a.meta = vec![("weight".to_owned(), "1".to_owned())];
    let b = post("/site/b.md", "B", "/b.html");
    let files = vec![a, b];
    let css = vec![];
    let includes = vec![];
    let html = t.apply("/site", &p, &files, &css, &includes);
    let ca = html.find(">A<").unwrap();
    let cb = html.find(">B<").unwrap();
    assert!(cb < ca, "a post without the key sorts first: {}", html);
}
