use pagong::classify::classify;
use pagong::events::{markdown_events, MdEvent, MdTag};
use pagong::html::{push_html, render_markdown};

#[test]
fn standalone_images_are_not_paragraphs() {
    let input = "Some text above

![image alt](image_url \"Image Title\")

Some text below.";

    let events = markdown_events(input);
    let filtered_events = classify(events);

    let image_paragraph = &filtered_events[3..(filtered_events.len() - 3)];

    assert!(matches!(
        image_paragraph,
        [
            (MdEvent::Start(MdTag::Image(_, _)), true),
            (MdEvent::Text(_), false),
            (MdEvent::End(MdTag::Image(_, _)), false)
        ]
    ));
}

#[test]
fn check_footnotes() {
    let input = "Some text above

Introducing a footnote[^foot].

Some text below.

[^foot]: Footnote explanation.
";

    let events = markdown_events(input);
    let html = {
        let mut buffer = String::new();
        push_html(&mut buffer, events);
        buffer
    };

    assert!(html.contains("id=\"r.foot"), "missing return id");
    assert!(html.contains("id=\"f.foot"), "missing footnote id");
    assert!(html.contains("#r.foot"), "missing return link");
    assert!(html.contains("#f.foot"), "missing footnote link");

    assert!(
        html.find("id=\"r.foot").unwrap() < html.find("#r.foot").unwrap(),
        "return id should be before return link"
    );
    assert!(
        html.find("id=\"f.foot").unwrap() > html.find("#f.foot").unwrap(),
        "footnote id should be after footnote link"
    );
}

#[test]
fn heading_gets_normalized_anchor() {
    let html = render_markdown("# Hello World");
    assert!(html.contains("id=\"hello_world\""), "anchor should be hello_world: {}", html);
    assert!(html.contains("class=\"title\""), "first heading carries the title class");
    assert!(html.contains("href=\"#hello_world\""), "anchor link should point at the heading");
}

#[test]
fn duplicate_headings_get_suffixed_anchors() {
    let html = render_markdown("# Repeat\n\n# Repeat");
    assert!(html.contains("id=\"repeat\""), "first heading keeps the bare identifier: {}", html);
    assert!(html.contains("id=\"repeat_2\""), "second heading gets the _2 suffix: {}", html);
}

#[test]
fn only_first_heading_is_title() {
    let html = render_markdown("# One\n\n## Two");
    assert_eq!(html.matches("class=\"title\"").count(), 1);
}

#[test]
fn standalone_image_is_wrapped_with_caption() {
    let html = render_markdown("Some text above\n\n![alt](img.png \"Cap\")\n\nSome text below.");
    assert!(html.contains("<div class=\"image-container\">"), "missing container: {}", html);
    assert!(html.contains("<div class=\"image-caption\">Cap</div>"), "missing caption: {}", html);
}

#[test]
fn inline_image_is_not_wrapped() {
    let html = render_markdown("Some text ![alt](img.png \"Cap\") in the middle.");
    assert!(!html.contains("image-container"), "inline image must stay inline: {}", html);
}

#[test]
fn code_and_text_are_escaped() {
    let html = render_markdown("a `<b>` c & d");
    assert!(html.contains("<code>&lt;b&gt;</code>"), "code must be escaped: {}", html);
    assert!(html.contains("&amp;"), "ampersand must be escaped: {}", html);
}

#[test]
fn fenced_code_block_language() {
    let html = render_markdown("```rust ignore\nlet x = 1;\n```");
    assert!(html.contains("<pre><code class=\"language-rust\">"), "language tag: {}", html);
}

#[test]
fn task_list_markers() {
    let html = render_markdown("- [x] done\n- [ ] todo");
    assert!(html.contains("<input disabled=\"\" type=\"checkbox\" checked=\"\"/>"), "{}", html);
    assert!(html.contains("<input disabled=\"\" type=\"checkbox\"/>"), "{}", html);
}

#[test]
fn footnote_numbers_are_stable() {
    let html = render_markdown("a[^x] b[^y] c[^x]\n\n[^x]: one\n\n[^y]: two\n");
    let first = html.find("<a href=\"#f.x\">1</a>");
    assert!(first.is_some(), "first footnote keeps number 1: {}", html);
    assert!(html.contains("<a href=\"#f.y\">2</a>"), "second footnote gets number 2: {}", html);
}
