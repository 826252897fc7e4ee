//! HTML renderer: consumes the classified event sequence and emits an HTML
//! string, adding stable per-heading anchors, standalone-image layout and
//! bidirectional footnote links.

use crate::anchors::{alloc_id, generate_heading_id, normalized, views_of};
use crate::classify::{classified, classify};
use crate::escape::{esc_href, esc_html, escape_href, escape_html};
use crate::events::{
    md_events_of, parse_markdown, CodeBlockStyle, ColumnAlignment, MdEvent, MdLinkKind, MdTag,
};
use crate::strutil::{dec_string, spec_dec, str_eq};
use vstd::prelude::*;

verus! {

/// Spec state of the renderer while it is collecting an image's alt text.
#[verifier::ext_equal]
pub struct RawImageState {
    /// Nesting depth of tags opened inside the alt text.
    pub nest: int,
    /// The image's title, kept for the caption written at the closing tag.
    pub title: Seq<char>,
    /// Whether the image was classified standalone.
    pub standalone: bool,
}

/// Spec state of one render pass.
#[verifier::ext_equal]
pub struct RenderState {
    /// Whether the first heading, which carries the `title` class, was seen.
    pub title_written: bool,
    /// Whether the next text event is a heading's text.
    pub expecting_heading: bool,
    /// Whether rendering is inside a footnote definition.
    pub inside_footnote_def: bool,
    /// Whether the last write ended with a newline.
    pub end_newline: bool,
    /// Whether table rendering is inside the head section.
    pub table_in_head: bool,
    /// Alignment of each column of the current table.
    pub table_aligns: Seq<ColumnAlignment>,
    /// Index of the current table column.
    pub table_cell: int,
    /// Heading identifiers issued so far.
    pub ids: Seq<Seq<char>>,
    /// Footnote label to 1-based number, in first-seen order.
    pub numbers: Seq<(Seq<char>, nat)>,
    /// Raw-text sub-mode for an image's alt text.
    pub raw: Option<RawImageState>,
}

/// An anchor emitted into the output, in output order.
pub enum AnchorMark {
    /// A heading anchor with its identifier.
    HeadingId(Seq<char>),
    /// A numbered footnote reference anchor with its label.
    NoteRef(Seq<char>),
    /// A footnote definition anchor with its label.
    NoteDef(Seq<char>),
}

/// What one step of the renderer produces.
#[verifier::ext_equal]
pub struct StepOut {
    pub st: RenderState,
    pub out: Seq<char>,
    pub marks: Seq<AnchorMark>,
}

/// The renderer's initial state.
pub open spec fn init_state() -> RenderState {
    RenderState {
        title_written: false,
        expecting_heading: false,
        inside_footnote_def: false,
        end_newline: true,
        table_in_head: true,
        table_aligns: Seq::empty(),
        table_cell: 0,
        ids: Seq::empty(),
        numbers: Seq::empty(),
        raw: None,
    }
}

/// Whether a text ends with a newline; empty text does not.
pub open spec fn ends_nl(s: Seq<char>) -> bool {
    s.len() > 0 && s.last() == '\n'
}

/// The footnote number for a label, searched from the front.
pub open spec fn note_lookup_from(numbers: Seq<(Seq<char>, nat)>, name: Seq<char>, i: int) -> Option<
    nat,
>
    decreases numbers.len() - i,
{
    if i < 0 || i >= numbers.len() {
        None
    } else if numbers[i].0 == name {
        Some(numbers[i].1)
    } else {
        note_lookup_from(numbers, name, i + 1)
    }
}

/// The footnote table after asking for a label, and the label's number:
/// a known label keeps its number, a new label gets the next one.
pub open spec fn note_number(numbers: Seq<(Seq<char>, nat)>, name: Seq<char>) -> (
    Seq<(Seq<char>, nat)>,
    nat,
) {
    match note_lookup_from(numbers, name, 0) {
        Some(k) => (numbers, k),
        None => (numbers.push((name, numbers.len() + 1)), numbers.len() + 1),
    }
}

/// The position of the first space at or after `i`, or the length when
/// there is none.
pub open spec fn space_idx_from(s: Seq<char>, i: int) -> int
    decreases s.len() - i,
{
    if i < 0 || i >= s.len() {
        s.len() as int
    } else if s[i] == ' ' {
        i
    } else {
        space_idx_from(s, i + 1)
    }
}

/// The first space-separated token of a code fence info string.
pub open spec fn first_token(s: Seq<char>) -> Seq<char> {
    s.subrange(0, space_idx_from(s, 0))
}

/// A newline before a block-level tag when the previous write did not end
/// with one.
pub open spec fn nl_before(st: RenderState, tag_text: Seq<char>) -> Seq<char> {
    if st.end_newline {
        tag_text
    } else {
        "\n"@ + tag_text
    }
}

/// One renderer step for a start tag, outside the raw alt-text mode.
pub open spec fn start_tag_step(st: RenderState, tag: MdTag, standalone: bool) -> StepOut {
    match tag {
        MdTag::Paragraph => {
            if st.inside_footnote_def {
                StepOut { st, out: Seq::empty(), marks: Seq::empty() }
            } else {
                StepOut {
                    st: RenderState { end_newline: false, ..st },
                    out: nl_before(st, "<p>"@),
                    marks: Seq::empty(),
                }
            }
        },
        MdTag::Heading(level) => {
            let cls = if !st.title_written {
                " class=\"title\""@
            } else {
                Seq::empty()
            };
            StepOut {
                st: RenderState {
                    title_written: true,
                    expecting_heading: true,
                    end_newline: false,
                    ..st
                },
                out: nl_before(st, "<h"@) + spec_dec(level as nat) + cls + " id=\""@,
                marks: Seq::empty(),
            }
        },
        MdTag::Table(aligns) => {
            StepOut {
                st: RenderState { table_aligns: aligns@, end_newline: false, ..st },
                out: "<table>"@,
                marks: Seq::empty(),
            }
        },
        MdTag::TableHead => {
            StepOut {
                st: RenderState { table_in_head: true, table_cell: 0, end_newline: false, ..st },
                out: "<thead><tr>"@,
                marks: Seq::empty(),
            }
        },
        MdTag::TableRow => {
            StepOut {
                st: RenderState { table_cell: 0, end_newline: false, ..st },
                out: "<tr>"@,
                marks: Seq::empty(),
            }
        },
        MdTag::TableCell => {
            let open = if st.table_in_head {
                "<th"@
            } else {
                "<td"@
            };
            let attr = if 0 <= st.table_cell < st.table_aligns.len() {
                match st.table_aligns[st.table_cell] {
                    ColumnAlignment::AlignLeft => " align=\"left\">"@,
                    ColumnAlignment::AlignCenter => " align=\"center\">"@,
                    ColumnAlignment::AlignRight => " align=\"right\">"@,
                    ColumnAlignment::Unaligned => ">"@,
                }
            } else {
                ">"@
            };
            StepOut {
                st: RenderState { end_newline: false, ..st },
                out: open + attr,
                marks: Seq::empty(),
            }
        },
        MdTag::BlockQuote => {
            StepOut {
                st: RenderState { end_newline: true, ..st },
                out: nl_before(st, "<blockquote>\n"@),
                marks: Seq::empty(),
            }
        },
        MdTag::CodeBlock(style) => {
            let pre = if !st.end_newline {
                "\n"@
            } else {
                Seq::empty()
            };
            let open = match style {
                CodeBlockStyle::Indented => "<pre><code>"@,
                CodeBlockStyle::Fenced(info) => {
                    let lang = first_token(info@);
                    if lang.len() == 0 {
                        "<pre><code>"@
                    } else {
                        "<pre><code class=\"language-"@ + esc_html(lang) + "\">"@
                    }
                },
            };
            StepOut {
                st: RenderState { end_newline: false, ..st },
                out: pre + open,
                marks: Seq::empty(),
            }
        },
        MdTag::List(first) => {
            match first {
                Some(start) => {
                    if start == 1 {
                        StepOut {
                            st: RenderState { end_newline: true, ..st },
                            out: nl_before(st, "<ol>\n"@),
                            marks: Seq::empty(),
                        }
                    } else {
                        StepOut {
                            st: RenderState { end_newline: true, ..st },
                            out: nl_before(st, "<ol start=\""@) + spec_dec(start as nat)
                                + "\">\n"@,
                            marks: Seq::empty(),
                        }
                    }
                },
                None => {
                    StepOut {
                        st: RenderState { end_newline: true, ..st },
                        out: nl_before(st, "<ul>\n"@),
                        marks: Seq::empty(),
                    }
                },
            }
        },
        MdTag::Item => {
            StepOut {
                st: RenderState { end_newline: false, ..st },
                out: nl_before(st, "<li>"@),
                marks: Seq::empty(),
            }
        },
        MdTag::Emphasis => {
            StepOut {
                st: RenderState { end_newline: false, ..st },
                out: "<em>"@,
                marks: Seq::empty(),
            }
        },
        MdTag::Strong => {
            StepOut {
                st: RenderState { end_newline: false, ..st },
                out: "<strong>"@,
                marks: Seq::empty(),
            }
        },
        MdTag::Strikethrough => {
            StepOut {
                st: RenderState { end_newline: false, ..st },
                out: "<del>"@,
                marks: Seq::empty(),
            }
        },
        MdTag::Link(kind, dest, title) => {
            let open = if kind == MdLinkKind::Email {
                "<a href=\"mailto:"@
            } else {
                "<a href=\""@
            };
            let title_part = if title@.len() > 0 {
                "\" title=\""@ + esc_html(title@)
            } else {
                Seq::empty()
            };
            StepOut {
                st: RenderState { end_newline: false, ..st },
                out: open + esc_href(dest@) + title_part + "\">"@,
                marks: Seq::empty(),
            }
        },
        MdTag::Image(dest, title) => {
            let open = if standalone {
                "<div class=\"image-container\">\n"@
            } else {
                Seq::empty()
            };
            StepOut {
                st: RenderState {
                    end_newline: false,
                    raw: Some(RawImageState { nest: 0, title: title@, standalone }),
                    ..st
                },
                out: open + "<img src=\""@ + esc_href(dest@) + "\" alt=\""@,
                marks: Seq::empty(),
            }
        },
        MdTag::FootnoteDefinition(name) => {
            let pair = note_number(st.numbers, name@);
            StepOut {
                st: RenderState {
                    inside_footnote_def: true,
                    numbers: pair.0,
                    end_newline: false,
                    ..st
                },
                out: nl_before(st, "<p class=\"footnote\" id=\"f."@) + esc_html(name@)
                    + "\"><sup>"@ + spec_dec(pair.1) + "</sup> "@,
                marks: seq![AnchorMark::NoteDef(name@)],
            }
        },
    }
}

/// One renderer step for an end tag, outside the raw alt-text mode.
pub open spec fn end_tag_step(st: RenderState, tag: MdTag) -> StepOut {
    match tag {
        MdTag::Paragraph => {
            if st.inside_footnote_def {
                StepOut { st, out: Seq::empty(), marks: Seq::empty() }
            } else {
                StepOut {
                    st: RenderState { end_newline: true, ..st },
                    out: "</p>\n"@,
                    marks: Seq::empty(),
                }
            }
        },
        MdTag::Heading(level) => {
            StepOut {
                st: RenderState { end_newline: true, ..st },
                out: "</h"@ + spec_dec(level as nat) + ">\n"@,
                marks: Seq::empty(),
            }
        },
        MdTag::Table(_) => {
            StepOut {
                st: RenderState { end_newline: true, ..st },
                out: "</tbody></table>\n"@,
                marks: Seq::empty(),
            }
        },
        MdTag::TableHead => {
            StepOut {
                st: RenderState { table_in_head: false, end_newline: true, ..st },
                out: "</tr></thead><tbody>\n"@,
                marks: Seq::empty(),
            }
        },
        MdTag::TableRow => {
            StepOut {
                st: RenderState { end_newline: true, ..st },
                out: "</tr>\n"@,
                marks: Seq::empty(),
            }
        },
        MdTag::TableCell => {
            StepOut {
                st: RenderState { table_cell: st.table_cell + 1, end_newline: false, ..st },
                out: if st.table_in_head {
                    "</th>"@
                } else {
                    "</td>"@
                },
                marks: Seq::empty(),
            }
        },
        MdTag::BlockQuote => {
            StepOut {
                st: RenderState { end_newline: true, ..st },
                out: "</blockquote>\n"@,
                marks: Seq::empty(),
            }
        },
        MdTag::CodeBlock(_) => {
            StepOut {
                st: RenderState { end_newline: true, ..st },
                out: "</code></pre>\n"@,
                marks: Seq::empty(),
            }
        },
        MdTag::List(first) => {
            StepOut {
                st: RenderState { end_newline: true, ..st },
                out: if first is Some {
                    "</ol>\n"@
                } else {
                    "</ul>\n"@
                },
                marks: Seq::empty(),
            }
        },
        MdTag::Item => {
            StepOut {
                st: RenderState { end_newline: true, ..st },
                out: "</li>\n"@,
                marks: Seq::empty(),
            }
        },
        MdTag::Emphasis => {
            StepOut {
                st: RenderState { end_newline: false, ..st },
                out: "</em>"@,
                marks: Seq::empty(),
            }
        },
        MdTag::Strong => {
            StepOut {
                st: RenderState { end_newline: false, ..st },
                out: "</strong>"@,
                marks: Seq::empty(),
            }
        },
        MdTag::Strikethrough => {
            StepOut {
                st: RenderState { end_newline: false, ..st },
                out: "</del>"@,
                marks: Seq::empty(),
            }
        },
        MdTag::Link(_, _, _) => {
            StepOut {
                st: RenderState { end_newline: false, ..st },
                out: "</a>"@,
                marks: Seq::empty(),
            }
        },
        MdTag::Image(_, _) => {
            // An image's end tag is consumed by the raw alt-text mode; one
            // arriving here passes without output.
            StepOut { st, out: Seq::empty(), marks: Seq::empty() }
        },
        MdTag::FootnoteDefinition(name) => {
            // The closing return-arrow link goes through the writer directly,
            // so the newline flag keeps its previous value.
            StepOut {
                st: RenderState { inside_footnote_def: false, ..st },
                out: " <a href=\"#r."@ + name@ + "\">\u{21a9}</a></p>\n"@,
                marks: Seq::empty(),
            }
        },
    }
}

/// One renderer step inside the raw alt-text mode: nested tags are stripped
/// to plain text or short fallback markers, and the matching end tag closes
/// the image.
pub open spec fn raw_step(st: RenderState, rm: RawImageState, ev: MdEvent) -> StepOut {
    match ev {
        MdEvent::Start(_) => {
            StepOut {
                st: RenderState { raw: Some(RawImageState { nest: rm.nest + 1, ..rm }), ..st },
                out: Seq::empty(),
                marks: Seq::empty(),
            }
        },
        MdEvent::End(_) => {
            if rm.nest == 0 {
                let title_part = if rm.title.len() > 0 {
                    "\" title=\""@ + esc_html(rm.title)
                } else {
                    Seq::empty()
                };
                let caption = if rm.standalone {
                    "\n<div class=\"image-caption\">"@ + esc_html(rm.title) + "</div>\n"@
                        + "</div>\n"@ + "<p>\n"@
                } else {
                    Seq::empty()
                };
                StepOut {
                    st: RenderState { end_newline: rm.standalone, raw: None, ..st },
                    out: title_part + "\" />"@ + caption,
                    marks: Seq::empty(),
                }
            } else {
                StepOut {
                    st: RenderState { raw: Some(RawImageState { nest: rm.nest - 1, ..rm }), ..st },
                    out: Seq::empty(),
                    marks: Seq::empty(),
                }
            }
        },
        MdEvent::Text(t) => {
            StepOut {
                st: RenderState { end_newline: ends_nl(t@), ..st },
                out: esc_html(t@),
                marks: Seq::empty(),
            }
        },
        MdEvent::Code(t) => {
            StepOut {
                st: RenderState { end_newline: ends_nl(t@), ..st },
                out: esc_html(t@),
                marks: Seq::empty(),
            }
        },
        MdEvent::Html(t) => {
            StepOut {
                st: RenderState { end_newline: ends_nl(t@), ..st },
                out: esc_html(t@),
                marks: Seq::empty(),
            }
        },
        MdEvent::SoftBreak => {
            StepOut {
                st: RenderState { end_newline: false, ..st },
                out: " "@,
                marks: Seq::empty(),
            }
        },
        MdEvent::HardBreak => {
            StepOut {
                st: RenderState { end_newline: false, ..st },
                out: " "@,
                marks: Seq::empty(),
            }
        },
        MdEvent::Rule => {
            StepOut {
                st: RenderState { end_newline: false, ..st },
                out: " "@,
                marks: Seq::empty(),
            }
        },
        MdEvent::FootnoteReference(name) => {
            let pair = note_number(st.numbers, name@);
            StepOut {
                st: RenderState { numbers: pair.0, ..st },
                out: "["@ + spec_dec(pair.1) + "]"@,
                marks: Seq::empty(),
            }
        },
        MdEvent::TaskListMarker(checked) => {
            StepOut {
                st: RenderState { end_newline: false, ..st },
                out: if checked {
                    "[x]"@
                } else {
                    "[ ]"@
                },
                marks: Seq::empty(),
            }
        },
    }
}

/// One renderer step: dispatches on the raw sub-mode and the event.
pub open spec fn step(st: RenderState, ev: MdEvent, standalone: bool) -> StepOut {
    if st.raw is Some {
        raw_step(st, st.raw->0, ev)
    } else {
        match ev {
            MdEvent::Start(tag) => start_tag_step(st, tag, standalone),
            MdEvent::End(tag) => end_tag_step(st, tag),
            MdEvent::Text(t) => {
                if st.expecting_heading {
                    let id = alloc_id(st.ids, normalized(t@));
                    StepOut {
                        st: RenderState {
                            expecting_heading: false,
                            ids: st.ids.push(id),
                            end_newline: ends_nl(t@),
                            ..st
                        },
                        out: id + "\">"@ + "<a class=\"anchor\" href=\"#"@ + id
                            + "\">\u{b6}</a>"@ + esc_html(t@),
                        marks: seq![AnchorMark::HeadingId(id)],
                    }
                } else {
                    StepOut {
                        st: RenderState { end_newline: ends_nl(t@), ..st },
                        out: esc_html(t@),
                        marks: Seq::empty(),
                    }
                }
            },
            MdEvent::Code(t) => {
                StepOut {
                    st: RenderState { end_newline: false, ..st },
                    out: "<code>"@ + esc_html(t@) + "</code>"@,
                    marks: Seq::empty(),
                }
            },
            MdEvent::Html(t) => {
                StepOut {
                    st: RenderState {
                        end_newline: if t@.len() > 0 {
                            ends_nl(t@)
                        } else {
                            st.end_newline
                        },
                        ..st
                    },
                    out: t@,
                    marks: Seq::empty(),
                }
            },
            MdEvent::SoftBreak => {
                StepOut {
                    st: RenderState { end_newline: true, ..st },
                    out: "\n"@,
                    marks: Seq::empty(),
                }
            },
            MdEvent::HardBreak => {
                StepOut {
                    st: RenderState { end_newline: true, ..st },
                    out: "<br />\n"@,
                    marks: Seq::empty(),
                }
            },
            MdEvent::Rule => {
                StepOut {
                    st: RenderState { end_newline: true, ..st },
                    out: nl_before(st, "<hr />\n"@),
                    marks: Seq::empty(),
                }
            },
            MdEvent::FootnoteReference(name) => {
                let pair = note_number(st.numbers, name@);
                StepOut {
                    st: RenderState { numbers: pair.0, end_newline: false, ..st },
                    out: "<sup class=\"footnote-reference\" id=\"r."@ + name@
                        + "\"><a href=\"#f."@ + esc_html(name@) + "\">"@ + spec_dec(pair.1)
                        + "</a></sup>"@,
                    marks: seq![AnchorMark::NoteRef(name@)],
                }
            },
            MdEvent::TaskListMarker(checked) => {
                StepOut {
                    st: RenderState { end_newline: true, ..st },
                    out: if checked {
                        "<input disabled=\"\" type=\"checkbox\" checked=\"\"/>\n"@
                    } else {
                        "<input disabled=\"\" type=\"checkbox\"/>\n"@
                    },
                    marks: Seq::empty(),
                }
            },
        }
    }
}

/// What a render pass has produced after the first `i` classified events.
#[verifier::ext_equal]
pub struct RunOut {
    pub st: RenderState,
    pub out: Seq<char>,
    pub marks: Seq<AnchorMark>,
}

/// The render pass folded over the first `i` classified events.
pub open spec fn run_upto(evs: Seq<(MdEvent, bool)>, i: int) -> RunOut
    decreases i,
{
    if i <= 0 {
        RunOut { st: init_state(), out: Seq::empty(), marks: Seq::empty() }
    } else {
        let prev = run_upto(evs, i - 1);
        let s = step(prev.st, evs[i - 1].0, evs[i - 1].1);
        RunOut { st: s.st, out: prev.out + s.out, marks: prev.marks + s.marks }
    }
}

/// The HTML a classified event sequence renders to.
pub open spec fn rendered(evs: Seq<(MdEvent, bool)>) -> Seq<char> {
    run_upto(evs, evs.len() as int).out
}

/// The HTML a markdown text renders to: parse, classify, render.
pub open spec fn rendered_markdown(text: Seq<char>) -> Seq<char> {
    rendered(classified(md_events_of(text)))
}

/// The view of the footnote table.
pub open spec fn note_views(s: Seq<(String, usize)>) -> Seq<(Seq<char>, nat)> {
    s.map_values(|p: (String, usize)| (p.0@, p.1 as nat))
}

/// An upper bound for the raw-mode nesting depth after one step.
pub open spec fn raw_nest_bound(st: RenderState) -> int {
    match st.raw {
        Some(r) => r.nest + 1,
        None => 0,
    }
}

/// Look a footnote label up, assigning the next number to a new label.
fn note_number_exec(numbers: &mut Vec<(String, usize)>, name: &str) -> (k: usize)
    requires
        old(numbers)@.len() < usize::MAX,
    ensures
        ({
            let pair = note_number(note_views(old(numbers)@), name@);
            note_views(final(numbers)@) == pair.0 && k as nat == pair.1
        }),
{
    let ghost v = note_views(numbers@);
    let mut i: usize = 0;
    while i < numbers.len()
        invariant
            i <= numbers@.len(),
            numbers@ == old(numbers)@,
            v == note_views(numbers@),
            note_lookup_from(v, name@, 0) == note_lookup_from(v, name@, i as int),
        decreases numbers@.len() - i,
    {
        if str_eq(numbers[i].0.as_str(), name) {
            proof {
                assert(v[i as int].0 == name@);
            }
            return numbers[i].1;
        }
        i = i + 1;
    }
    let k = numbers.len() + 1;
    numbers.push((name.to_owned(), k));
    proof {
        assert(note_views(numbers@) =~= v.push((name@, k as nat)));
    }
    k
}

/// Copy a table's column alignments.
fn copy_aligns(a: &Vec<ColumnAlignment>) -> (r: Vec<ColumnAlignment>)
    ensures
        r@ == a@,
{
    let mut r: Vec<ColumnAlignment> = Vec::new();
    let mut i: usize = 0;
    while i < a.len()
        invariant
            i <= a@.len(),
            r@ == a@.subrange(0, i as int),
        decreases a@.len() - i,
    {
        r.push(a[i]);
        i = i + 1;
        proof {
            assert(r@ =~= a@.subrange(0, i as int));
        }
    }
    proof {
        assert(r@ =~= a@);
    }
    r
}

/// The position of the first space of a string, or its length.
fn space_idx(s: &str) -> (r: usize)
    ensures
        r as int == space_idx_from(s@, 0),
        r <= s@.len(),
{
    let n = s.unicode_len();
    let mut i: usize = 0;
    while i < n
        invariant
            i <= n,
            n == s@.len(),
            space_idx_from(s@, 0) == space_idx_from(s@, i as int),
        decreases n - i,
    {
        if s.get_char(i) == ' ' {
            return i;
        }
        i = i + 1;
    }
    i
}

/// The first space-separated token of a code fence info string.
fn fence_lang(info: &str) -> (r: String)
    ensures
        r@ == first_token(info@),
{
    let i = space_idx(info);
    let piece = info.substring_char(0, i);
    piece.to_owned()
}

/// The streaming HTML writer: one instance per render pass.
pub struct HtmlWriter {
    pub out: String,
    pub title_written: bool,
    pub expecting_heading: bool,
    pub inside_footnote_def: bool,
    pub end_newline: bool,
    pub table_in_head: bool,
    pub table_aligns: Vec<ColumnAlignment>,
    pub table_cell: usize,
    pub ids: Vec<String>,
    pub numbers: Vec<(String, usize)>,
    pub raw_active: bool,
    pub raw_nest: usize,
    pub raw_title: String,
    pub raw_standalone: bool,
}

impl HtmlWriter {
    /// The spec state this writer is in.
    pub open spec fn st(self) -> RenderState {
        RenderState {
            title_written: self.title_written,
            expecting_heading: self.expecting_heading,
            inside_footnote_def: self.inside_footnote_def,
            end_newline: self.end_newline,
            table_in_head: self.table_in_head,
            table_aligns: self.table_aligns@,
            table_cell: self.table_cell as int,
            ids: views_of(self.ids@),
            numbers: note_views(self.numbers@),
            raw: if self.raw_active {
                Some(
                    RawImageState {
                        nest: self.raw_nest as int,
                        title: self.raw_title@,
                        standalone: self.raw_standalone,
                    },
                )
            } else {
                None
            },
        }
    }

    /// A fresh writer with an empty output.
    pub fn new() -> (w: HtmlWriter)
        ensures
            w.st() == init_state(),
            w.out@ == Seq::<char>::empty(),
    {
        let w = HtmlWriter {
            out: String::new(),
            title_written: false,
            expecting_heading: false,
            inside_footnote_def: false,
            end_newline: true,
            table_in_head: true,
            table_aligns: Vec::new(),
            table_cell: 0,
            ids: Vec::new(),
            numbers: Vec::new(),
            raw_active: false,
            raw_nest: 0,
            raw_title: String::new(),
            raw_standalone: false,
        };
        proof {
            assert(w.st() =~= init_state());
        }
        w
    }

    /// Process one start tag outside the raw alt-text mode.
    #[verifier::rlimit(100)]
    #[verifier::spinoff_prover]
    fn start_tag(&mut self, tag: &MdTag, standalone: bool)
        requires
            !old(self).raw_active,
            old(self).st().numbers.len() < usize::MAX,
        ensures
            ({
                let s = start_tag_step(old(self).st(), *tag, standalone);
                &&& final(self).st() == s.st
                &&& final(self).out@ == old(self).out@ + s.out
            }),
    {
        let ghost s = start_tag_step(old(self).st(), *tag, standalone);
        match tag {
            MdTag::Paragraph => {
                if !self.inside_footnote_def {
                    if !self.end_newline {
                        self.out.append("\n");
                    }
                    self.out.append("<p>");
                    self.end_newline = false;
                }
                proof {
                    assert(self.st() =~= s.st);
                    assert(self.out@ =~= old(self).out@ + s.out);
                }
            },
            MdTag::Heading(level) => {
                self.heading_start(*level);
            },
            MdTag::Table(aligns) => {
                self.table_aligns = copy_aligns(aligns);
                self.out.append("<table>");
                self.end_newline = false;
                proof {
                    assert(self.st() =~= s.st);
                    assert(self.out@ =~= old(self).out@ + s.out);
                }
            },
            MdTag::TableHead => {
                self.table_in_head = true;
                self.table_cell = 0;
                self.out.append("<thead><tr>");
                self.end_newline = false;
                proof {
                    assert(self.st() =~= s.st);
                    assert(self.out@ =~= old(self).out@ + s.out);
                }
            },
            MdTag::TableRow => {
                self.table_cell = 0;
                self.out.append("<tr>");
                self.end_newline = false;
                proof {
                    assert(self.st() =~= s.st);
                    assert(self.out@ =~= old(self).out@ + s.out);
                }
            },
            MdTag::TableCell => {
                self.table_cell_start();
            },
            MdTag::BlockQuote => {
                if !self.end_newline {
                    self.out.append("\n");
                }
                self.out.append("<blockquote>\n");
                self.end_newline = true;
                proof {
                    assert(self.st() =~= s.st);
                    assert(self.out@ =~= old(self).out@ + s.out);
                }
            },
            _ => {
                self.start_tag_rest(tag, standalone);
            },
        }
    }

    /// Open a heading: the tag, the first heading's title class, and the
    /// still-open identifier attribute.
    #[verifier::spinoff_prover]
    fn heading_start(&mut self, level: u32)
        requires
            !old(self).raw_active,
        ensures
            ({
                let s = start_tag_step(old(self).st(), MdTag::Heading(level), false);
                &&& final(self).st() == s.st
                &&& final(self).out@ == old(self).out@ + s.out
            }),
    {
        let ghost s = start_tag_step(old(self).st(), MdTag::Heading(level), false);
        if !self.end_newline {
            self.out.append("\n");
        }
        self.out.append("<h");
        let d = dec_string(level as u128);
        self.out.append(d.as_str());
        if !self.title_written {
            self.title_written = true;
            self.out.append(" class=\"title\"");
        }
        self.expecting_heading = true;
        self.out.append(" id=\"");
        self.end_newline = false;
        proof {
            assert(self.st() =~= s.st);
            assert(self.out@ =~= old(self).out@ + s.out);
        }
    }

    /// Open a table cell with its column's alignment attribute.
    #[verifier::spinoff_prover]
    fn table_cell_start(&mut self)
        requires
            !old(self).raw_active,
        ensures
            ({
                let s = start_tag_step(old(self).st(), MdTag::TableCell, false);
                &&& final(self).st() == s.st
                &&& final(self).out@ == old(self).out@ + s.out
            }),
    {
        let ghost s = start_tag_step(old(self).st(), MdTag::TableCell, false);
        if self.table_in_head {
            self.out.append("<th");
        } else {
            self.out.append("<td");
        }
        if self.table_cell < self.table_aligns.len() {
            match self.table_aligns[self.table_cell] {
                ColumnAlignment::AlignLeft => self.out.append(" align=\"left\">"),
                ColumnAlignment::AlignCenter => self.out.append(" align=\"center\">"),
                ColumnAlignment::AlignRight => self.out.append(" align=\"right\">"),
                ColumnAlignment::Unaligned => self.out.append(">"),
            }
        } else {
            self.out.append(">");
        }
        self.end_newline = false;
        proof {
            assert(self.st() =~= s.st);
            assert(self.out@ =~= old(self).out@ + s.out);
        }
    }

    /// Process the start tags with escaped or numbered content.
    #[verifier::rlimit(100)]
    #[verifier::spinoff_prover]
    fn start_tag_rest(&mut self, tag: &MdTag, standalone: bool)
        requires
            !old(self).raw_active,
            old(self).st().numbers.len() < usize::MAX,
            !(*tag matches MdTag::Paragraph),
            !(*tag matches MdTag::Heading(_)),
            !(*tag matches MdTag::Table(_)),
            !(*tag matches MdTag::TableHead),
            !(*tag matches MdTag::TableRow),
            !(*tag matches MdTag::TableCell),
            !(*tag matches MdTag::BlockQuote),
        ensures
            ({
                let s = start_tag_step(old(self).st(), *tag, standalone);
                &&& final(self).st() == s.st
                &&& final(self).out@ == old(self).out@ + s.out
            }),
    {
        let ghost s = start_tag_step(old(self).st(), *tag, standalone);
        match tag {
            MdTag::CodeBlock(style) => {
                if !self.end_newline {
                    self.out.append("\n");
                }
                match style {
                    CodeBlockStyle::Indented => {
                        self.out.append("<pre><code>");
                    },
                    CodeBlockStyle::Fenced(info) => {
                        let lang = fence_lang(info.as_str());
                        if lang.as_str().unicode_len() == 0 {
                            self.out.append("<pre><code>");
                        } else {
                            self.out.append("<pre><code class=\"language-");
                            let e = escape_html(lang.as_str());
                            self.out.append(e.as_str());
                            self.out.append("\">");
                        }
                    },
                }
                self.end_newline = false;
                proof {
                    assert(self.st() =~= s.st);
                    assert(self.out@ =~= old(self).out@ + s.out);
                }
            },
            MdTag::List(first) => {
                if !self.end_newline {
                    self.out.append("\n");
                }
                match first {
                    Some(start) => {
                        if *start == 1 {
                            self.out.append("<ol>\n");
                        } else {
                            self.out.append("<ol start=\"");
                            let d = dec_string(*start as u128);
                            self.out.append(d.as_str());
                            self.out.append("\">\n");
                        }
                    },
                    None => {
                        self.out.append("<ul>\n");
                    },
                }
                self.end_newline = true;
                proof {
                    assert(self.st() =~= s.st);
                    assert(self.out@ =~= old(self).out@ + s.out);
                }
            },
            MdTag::Item => {
                if !self.end_newline {
                    self.out.append("\n");
                }
                self.out.append("<li>");
                self.end_newline = false;
                proof {
                    assert(self.st() =~= s.st);
                    assert(self.out@ =~= old(self).out@ + s.out);
                }
            },
            MdTag::Emphasis => {
                self.out.append("<em>");
                self.end_newline = false;
                proof {
                    assert(self.st() =~= s.st);
                    assert(self.out@ =~= old(self).out@ + s.out);
                }
            },
            MdTag::Strong => {
                self.out.append("<strong>");
                self.end_newline = false;
                proof {
                    assert(self.st() =~= s.st);
                    assert(self.out@ =~= old(self).out@ + s.out);
                }
            },
            MdTag::Strikethrough => {
                self.out.append("<del>");
                self.end_newline = false;
                proof {
                    assert(self.st() =~= s.st);
                    assert(self.out@ =~= old(self).out@ + s.out);
                }
            },
            _ => {
                self.start_tag_inline(tag, standalone);
            },
        }
    }

    /// Process the start tags of links, images and footnote definitions.
    #[verifier::rlimit(100)]
    #[verifier::spinoff_prover]
    fn start_tag_inline(&mut self, tag: &MdTag, standalone: bool)
        requires
            !old(self).raw_active,
            old(self).st().numbers.len() < usize::MAX,
            (*tag matches MdTag::Link(_, _, _)) || (*tag matches MdTag::Image(_, _)) || (*tag
                matches MdTag::FootnoteDefinition(_)),
        ensures
            ({
                let s = start_tag_step(old(self).st(), *tag, standalone);
                &&& final(self).st() == s.st
                &&& final(self).out@ == old(self).out@ + s.out
            }),
    {
        let ghost s = start_tag_step(old(self).st(), *tag, standalone);
        match tag {
            MdTag::Link(kind, dest, title) => {
                if matches!(kind, MdLinkKind::Email) {
                    self.out.append("<a href=\"mailto:");
                } else {
                    self.out.append("<a href=\"");
                }
                let h = escape_href(dest.as_str());
                self.out.append(h.as_str());
                if title.as_str().unicode_len() > 0 {
                    self.out.append("\" title=\"");
                    let e = escape_html(title.as_str());
                    self.out.append(e.as_str());
                }
                self.out.append("\">");
                self.end_newline = false;
                proof {
                    assert(self.st() =~= s.st);
                    assert(self.out@ =~= old(self).out@ + s.out);
                }
            },
            MdTag::Image(dest, title) => {
                if standalone {
                    self.out.append("<div class=\"image-container\">\n");
                }
                self.out.append("<img src=\"");
                let h = escape_href(dest.as_str());
                self.out.append(h.as_str());
                self.out.append("\" alt=\"");
                self.raw_active = true;
                self.raw_nest = 0;
                self.raw_title = title.clone();
                self.raw_standalone = standalone;
                self.end_newline = false;
                proof {
                    assert(self.st() =~= s.st);
                    assert(self.out@ =~= old(self).out@ + s.out);
                }
            },
            MdTag::FootnoteDefinition(name) => {
                if !self.end_newline {
                    self.out.append("\n");
                }
                self.out.append("<p class=\"footnote\" id=\"f.");
                let e = escape_html(name.as_str());
                self.out.append(e.as_str());
                self.out.append("\"><sup>");
                let k = note_number_exec(&mut self.numbers, name.as_str());
                let d = dec_string(k as u128);
                self.out.append(d.as_str());
                self.out.append("</sup> ");
                self.inside_footnote_def = true;
                self.end_newline = false;
                proof {
                    assert(self.st() =~= s.st);
                    assert(self.out@ =~= old(self).out@ + s.out);
                }
            },
            _ => {
                proof {
                    assert(false);
                }
            },
        }
    }

    /// Process one end tag outside the raw alt-text mode.
    #[verifier::rlimit(100)]
    #[verifier::spinoff_prover]
    fn end_tag(&mut self, tag: &MdTag)
        requires
            !old(self).raw_active,
            old(self).st().table_cell < usize::MAX,
        ensures
            ({
                let s = end_tag_step(old(self).st(), *tag);
                &&& final(self).st() == s.st
                &&& final(self).out@ == old(self).out@ + s.out
            }),
    {
        let ghost s = end_tag_step(old(self).st(), *tag);
        match tag {
            MdTag::Paragraph => {
                if !self.inside_footnote_def {
                    self.out.append("</p>\n");
                    self.end_newline = true;
                }
                proof {
                    assert(self.st() =~= s.st);
                    assert(self.out@ =~= old(self).out@ + s.out);
                }
            },
            MdTag::Heading(level) => {
                self.out.append("</h");
                let d = dec_string(*level as u128);
                self.out.append(d.as_str());
                self.out.append(">\n");
                self.end_newline = true;
                proof {
                    assert(self.st() =~= s.st);
                    assert(self.out@ =~= old(self).out@ + s.out);
                }
            },
            MdTag::Table(_) => {
                self.out.append("</tbody></table>\n");
                self.end_newline = true;
                proof {
                    assert(self.st() =~= s.st);
                    assert(self.out@ =~= old(self).out@ + s.out);
                }
            },
            MdTag::TableHead => {
                self.out.append("</tr></thead><tbody>\n");
                self.table_in_head = false;
                self.end_newline = true;
                proof {
                    assert(self.st() =~= s.st);
                    assert(self.out@ =~= old(self).out@ + s.out);
                }
            },
            MdTag::TableRow => {
                self.out.append("</tr>\n");
                self.end_newline = true;
                proof {
                    assert(self.st() =~= s.st);
                    assert(self.out@ =~= old(self).out@ + s.out);
                }
            },
            MdTag::TableCell => {
                if self.table_in_head {
                    self.out.append("</th>");
                } else {
                    self.out.append("</td>");
                }
                self.table_cell = self.table_cell + 1;
                self.end_newline = false;
                proof {
                    assert(self.st() =~= s.st);
                    assert(self.out@ =~= old(self).out@ + s.out);
                }
            },
            MdTag::BlockQuote => {
                self.out.append("</blockquote>\n");
                self.end_newline = true;
                proof {
                    assert(self.st() =~= s.st);
                    assert(self.out@ =~= old(self).out@ + s.out);
                }
            },
            MdTag::CodeBlock(_) => {
                self.out.append("</code></pre>\n");
                self.end_newline = true;
                proof {
                    assert(self.st() =~= s.st);
                    assert(self.out@ =~= old(self).out@ + s.out);
                }
            },
            MdTag::List(first) => {
                if first.is_some() {
                    self.out.append("</ol>\n");
                } else {
                    self.out.append("</ul>\n");
                }
                self.end_newline = true;
                proof {
                    assert(self.st() =~= s.st);
                    assert(self.out@ =~= old(self).out@ + s.out);
                }
            },
            MdTag::Item => {
                self.out.append("</li>\n");
                self.end_newline = true;
                proof {
                    assert(self.st() =~= s.st);
                    assert(self.out@ =~= old(self).out@ + s.out);
                }
            },
            MdTag::Emphasis => {
                self.out.append("</em>");
                self.end_newline = false;
                proof {
                    assert(self.st() =~= s.st);
                    assert(self.out@ =~= old(self).out@ + s.out);
                }
            },
            MdTag::Strong => {
                self.out.append("</strong>");
                self.end_newline = false;
                proof {
                    assert(self.st() =~= s.st);
                    assert(self.out@ =~= old(self).out@ + s.out);
                }
            },
            MdTag::Strikethrough => {
                self.out.append("</del>");
                self.end_newline = false;
                proof {
                    assert(self.st() =~= s.st);
                    assert(self.out@ =~= old(self).out@ + s.out);
                }
            },
            MdTag::Link(_, _, _) => {
                self.out.append("</a>");
                self.end_newline = false;
                proof {
                    assert(self.st() =~= s.st);
                    assert(self.out@ =~= old(self).out@ + s.out);
                }
            },
            MdTag::Image(_, _) => {
                proof {
                    assert(self.st() =~= s.st);
                    assert(self.out@ =~= old(self).out@ + s.out);
                }
            },
            MdTag::FootnoteDefinition(name) => {
                self.out.append(" <a href=\"#r.");
                self.out.append(name.as_str());
                self.out.append("\">\u{21a9}</a></p>\n");
                self.inside_footnote_def = false;
                proof {
                    assert(self.st() =~= s.st);
                    assert(self.out@ =~= old(self).out@ + s.out);
                }
            },
        }
    }

    /// Process one event inside the raw alt-text mode.
    #[verifier::rlimit(100)]
    #[verifier::spinoff_prover]
    fn raw_event(&mut self, ev: &MdEvent)
        requires
            old(self).raw_active,
            old(self).raw_nest < usize::MAX,
            old(self).st().numbers.len() < usize::MAX,
        ensures
            ({
                let s = raw_step(old(self).st(), old(self).st().raw->0, *ev);
                &&& final(self).st() == s.st
                &&& final(self).out@ == old(self).out@ + s.out
            }),
    {
        let ghost s = raw_step(old(self).st(), old(self).st().raw->0, *ev);
        match ev {
            MdEvent::Start(_) => {
                self.raw_nest = self.raw_nest + 1;
                proof {
                    assert(self.st() =~= s.st);
                    assert(self.out@ =~= old(self).out@ + s.out);
                }
            },
            MdEvent::End(tag) => {
                self.raw_end(tag);
            },
            MdEvent::Text(t) => {
                let e = escape_html(t.as_str());
                self.out.append(e.as_str());
                self.end_newline = ends_nl_exec(t.as_str());
                proof {
                    assert(self.st() =~= s.st);
                    assert(self.out@ =~= old(self).out@ + s.out);
                }
            },
            MdEvent::Code(t) => {
                let e = escape_html(t.as_str());
                self.out.append(e.as_str());
                self.end_newline = ends_nl_exec(t.as_str());
                proof {
                    assert(self.st() =~= s.st);
                    assert(self.out@ =~= old(self).out@ + s.out);
                }
            },
            MdEvent::Html(t) => {
                let e = escape_html(t.as_str());
                self.out.append(e.as_str());
                self.end_newline = ends_nl_exec(t.as_str());
                proof {
                    assert(self.st() =~= s.st);
                    assert(self.out@ =~= old(self).out@ + s.out);
                }
            },
            MdEvent::SoftBreak => {
                self.out.append(" ");
                self.end_newline = false;
                proof {
                    assert(self.st() =~= s.st);
                    assert(self.out@ =~= old(self).out@ + s.out);
                }
            },
            MdEvent::HardBreak => {
                self.out.append(" ");
                self.end_newline = false;
                proof {
                    assert(self.st() =~= s.st);
                    assert(self.out@ =~= old(self).out@ + s.out);
                }
            },
            MdEvent::Rule => {
                self.out.append(" ");
                self.end_newline = false;
                proof {
                    assert(self.st() =~= s.st);
                    assert(self.out@ =~= old(self).out@ + s.out);
                }
            },
            MdEvent::FootnoteReference(name) => {
                self.out.append("[");
                let k = note_number_exec(&mut self.numbers, name.as_str());
                let d = dec_string(k as u128);
                self.out.append(d.as_str());
                self.out.append("]");
                proof {
                    assert(self.st() =~= s.st);
                    assert(self.out@ =~= old(self).out@ + s.out);
                }
            },
            MdEvent::TaskListMarker(checked) => {
                if *checked {
                    self.out.append("[x]");
                } else {
                    self.out.append("[ ]");
                }
                self.end_newline = false;
                proof {
                    assert(self.st() =~= s.st);
                    assert(self.out@ =~= old(self).out@ + s.out);
                }
            },
        }
    }

    /// Close or unnest inside the raw alt-text mode: the matching end tag
    /// finishes the image, writing its title attribute and, for a standalone
    /// image, its caption block.
    #[verifier::spinoff_prover]
    fn raw_end(&mut self, tag: &MdTag)
        requires
            old(self).raw_active,
        ensures
            ({
                let s = raw_step(old(self).st(), old(self).st().raw->0, MdEvent::End(*tag));
                &&& final(self).st() == s.st
                &&& final(self).out@ == old(self).out@ + s.out
            }),
    {
        let ghost s = raw_step(old(self).st(), old(self).st().raw->0, MdEvent::End(*tag));
        if self.raw_nest == 0 {
            if self.raw_title.as_str().unicode_len() > 0 {
                self.out.append("\" title=\"");
                let e = escape_html(self.raw_title.as_str());
                self.out.append(e.as_str());
            }
            self.out.append("\" />");
            if self.raw_standalone {
                self.out.append("\n<div class=\"image-caption\">");
                let e = escape_html(self.raw_title.as_str());
                self.out.append(e.as_str());
                self.out.append("</div>\n");
                self.out.append("</div>\n");
                self.out.append("<p>\n");
            }
            self.end_newline = self.raw_standalone;
            self.raw_active = false;
        } else {
            self.raw_nest = self.raw_nest - 1;
        }
        proof {
            assert(self.st() =~= s.st);
            assert(self.out@ =~= old(self).out@ + s.out);
        }
    }

    /// Process one classified event.
    #[verifier::rlimit(100)]
    #[verifier::spinoff_prover]
    fn write_event(&mut self, ev: &MdEvent, standalone: bool)
        requires
            old(self).st().table_cell < usize::MAX,
            old(self).st().numbers.len() < usize::MAX,
            (old(self).st().raw matches Some(r) ==> r.nest < usize::MAX),
        ensures
            ({
                let s = step(old(self).st(), *ev, standalone);
                &&& final(self).st() == s.st
                &&& final(self).out@ == old(self).out@ + s.out
            }),
            final(self).st().table_cell <= old(self).st().table_cell + 1,
            final(self).st().numbers.len() <= old(self).st().numbers.len() + 1,
            (final(self).st().raw matches Some(r2) ==> r2.nest <= raw_nest_bound(old(self).st())),
    {
        let ghost s = step(old(self).st(), *ev, standalone);
        if self.raw_active {
            self.raw_event(ev);
        } else {
            match ev {
                MdEvent::Start(tag) => {
                    self.start_tag(tag, standalone);
                },
                MdEvent::End(tag) => {
                    self.end_tag(tag);
                },
                MdEvent::Text(t) => {
                    if self.expecting_heading {
                        self.expecting_heading = false;
                        let id = generate_heading_id(&mut self.ids, t.as_str());
                        self.out.append(id.as_str());
                        self.out.append("\">");
                        self.out.append("<a class=\"anchor\" href=\"#");
                        self.out.append(id.as_str());
                        self.out.append("\">\u{b6}</a>");
                    }
                    let e = escape_html(t.as_str());
                    self.out.append(e.as_str());
                    self.end_newline = ends_nl_exec(t.as_str());
                    proof {
                        assert(self.st() =~= s.st);
                        assert(self.out@ =~= old(self).out@ + s.out);
                    }
                },
                MdEvent::Code(t) => {
                    self.out.append("<code>");
                    let e = escape_html(t.as_str());
                    self.out.append(e.as_str());
                    self.out.append("</code>");
                    self.end_newline = false;
                    proof {
                        assert(self.st() =~= s.st);
                        assert(self.out@ =~= old(self).out@ + s.out);
                    }
                },
                MdEvent::Html(t) => {
                    self.out.append(t.as_str());
                    if t.as_str().unicode_len() > 0 {
                        self.end_newline = ends_nl_exec(t.as_str());
                    }
                    proof {
                        assert(self.st() =~= s.st);
                        assert(self.out@ =~= old(self).out@ + s.out);
                    }
                },
                MdEvent::SoftBreak => {
                    self.out.append("\n");
                    self.end_newline = true;
                    proof {
                        assert(self.st() =~= s.st);
                        assert(self.out@ =~= old(self).out@ + s.out);
                    }
                },
                MdEvent::HardBreak => {
                    self.out.append("<br />\n");
                    self.end_newline = true;
                    proof {
                        assert(self.st() =~= s.st);
                        assert(self.out@ =~= old(self).out@ + s.out);
                    }
                },
                MdEvent::Rule => {
                    if !self.end_newline {
                        self.out.append("\n");
                    }
                    self.out.append("<hr />\n");
                    self.end_newline = true;
                    proof {
                        assert(self.st() =~= s.st);
                        assert(self.out@ =~= old(self).out@ + s.out);
                    }
                },
                MdEvent::FootnoteReference(name) => {
                    self.out.append("<sup class=\"footnote-reference\" id=\"r.");
                    self.out.append(name.as_str());
                    self.out.append("\"><a href=\"#f.");
                    let e = escape_html(name.as_str());
                    self.out.append(e.as_str());
                    self.out.append("\">");
                    let k = note_number_exec(&mut self.numbers, name.as_str());
                    let d = dec_string(k as u128);
                    self.out.append(d.as_str());
                    self.out.append("</a></sup>");
                    self.end_newline = false;
                    proof {
                        assert(self.st() =~= s.st);
                        assert(self.out@ =~= old(self).out@ + s.out);
                    }
                },
                MdEvent::TaskListMarker(checked) => {
                    if *checked {
                        self.out.append("<input disabled=\"\" type=\"checkbox\" checked=\"\"/>\n");
                    } else {
                        self.out.append("<input disabled=\"\" type=\"checkbox\"/>\n");
                    }
                    self.end_newline = true;
                    proof {
                        assert(self.st() =~= s.st);
                        assert(self.out@ =~= old(self).out@ + s.out);
                    }
                },
            }
        }
    }
}

/// Whether a string ends with a newline.
fn ends_nl_exec(s: &str) -> (r: bool)
    ensures
        r == ends_nl(s@),
{
    let n = s.unicode_len();
    if n == 0 {
        false
    } else {
        s.get_char(n - 1) == '\n'
    }
}

/// Render a classified event sequence to HTML.
pub fn run_events(evs: &Vec<(MdEvent, bool)>) -> (r: String)
    ensures
        r@ == rendered(evs@),
{
    let mut w = HtmlWriter::new();
    let n = evs.len();
    let mut i: usize = 0;
    while i < n
        invariant
            i <= n,
            n == evs@.len(),
            w.st() == run_upto(evs@, i as int).st,
            w.out@ == run_upto(evs@, i as int).out,
            w.st().table_cell <= i,
            w.st().numbers.len() <= i,
            (w.st().raw matches Some(rm) ==> rm.nest <= i),
        decreases n - i,
    {
        let pair = &evs[i];
        w.write_event(&pair.0, pair.1);
        i = i + 1;
    }
    w.into_html()
}

impl HtmlWriter {
    /// Hand the accumulated output out.
    pub fn into_html(self) -> (r: String)
        ensures
            r@ == self.out@,
    {
        self.out
    }
}

/// Generate HTML for a sequence of markup events and append it to a string.
/// Standalone image paragraphs are classified first.
pub fn push_html(s: &mut String, evs: Vec<MdEvent>)
    ensures
        final(s)@ == old(s)@ + rendered(classified(evs@)),
{
    let pairs = classify(evs);
    let html = run_events(&pairs);
    s.append(html.as_str());
}

/// Render a markdown text to HTML: parse, classify standalone images, render.
pub fn render_markdown(text: &str) -> (r: String)
    ensures
        r@ == rendered_markdown(text@),
{
    let evs = parse_markdown(text);
    let pairs = classify(evs);
    run_events(&pairs)
}

/// The heading identifiers among a trace of anchors, in output order.
pub open spec fn heading_ids(marks: Seq<AnchorMark>) -> Seq<Seq<char>>
    decreases marks.len(),
{
    if marks.len() == 0 {
        Seq::empty()
    } else {
        heading_ids(marks.drop_last()) + (match marks.last() {
            AnchorMark::HeadingId(id) => seq![id],
            _ => Seq::empty(),
        })
    }
}

/// The footnote anchors among a trace of anchors, in output order.
pub open spec fn note_marks(marks: Seq<AnchorMark>) -> Seq<AnchorMark>
    decreases marks.len(),
{
    if marks.len() == 0 {
        Seq::empty()
    } else {
        note_marks(marks.drop_last()) + (match marks.last() {
            AnchorMark::NoteRef(l) => seq![AnchorMark::NoteRef(l)],
            AnchorMark::NoteDef(l) => seq![AnchorMark::NoteDef(l)],
            _ => Seq::empty(),
        })
    }
}

/// Filtering heading identifiers distributes over concatenation.
proof fn lemma_heading_ids_concat(a: Seq<AnchorMark>, b: Seq<AnchorMark>)
    ensures
        heading_ids(a + b) == heading_ids(a) + heading_ids(b),
    decreases b.len(),
{
    if b.len() == 0 {
        assert(a + b =~= a);
        assert(heading_ids(a) + heading_ids(b) =~= heading_ids(a));
    } else {
        lemma_heading_ids_concat(a, b.drop_last());
        assert((a + b).drop_last() =~= a + b.drop_last());
        assert((a + b).last() == b.last());
        assert(heading_ids(a + b) =~= heading_ids(a) + heading_ids(b));
    }
}

/// Filtering footnote anchors distributes over concatenation.
proof fn lemma_note_marks_concat(a: Seq<AnchorMark>, b: Seq<AnchorMark>)
    ensures
        note_marks(a + b) == note_marks(a) + note_marks(b),
    decreases b.len(),
{
    if b.len() == 0 {
        assert(a + b =~= a);
        assert(note_marks(a) + note_marks(b) =~= note_marks(a));
    } else {
        lemma_note_marks_concat(a, b.drop_last());
        assert((a + b).drop_last() =~= a + b.drop_last());
        assert((a + b).last() == b.last());
        assert(note_marks(a + b) =~= note_marks(a) + note_marks(b));
    }
}

/// The bounded suffix search never hands an already-issued identifier out,
/// as long as the fuel covers every candidate that could be taken.
proof fn lemma_fresh_suffix_free(ids: Seq<Seq<char>>, base: Seq<char>, n0: nat, fuel: nat)
    requires
        2 <= n0,
        fuel >= ids.len() + 3 - n0,
        forall|m: nat|
            2 <= m < n0 ==> ids.contains(#[trigger] crate::anchors::candidate(base, m)),
    ensures
        !ids.contains(crate::anchors::fresh_suffix(ids, base, n0, fuel)),
    decreases fuel,
{
    crate::anchors::lemma_candidates_bound(ids, base, n0);
    if ids.contains(crate::anchors::candidate(base, n0)) {
        lemma_fresh_suffix_free(ids, base, n0 + 1, (fuel - 1) as nat);
    }
}

/// An allocated identifier was never issued before.
proof fn lemma_alloc_id_fresh(ids: Seq<Seq<char>>, base: Seq<char>)
    ensures
        !ids.contains(alloc_id(ids, base)),
{
    if ids.contains(base) {
        lemma_fresh_suffix_free(ids, base, 2, ids.len() + 1);
    }
}

/// The anchor filters on an empty trace and on a trace of one mark.
proof fn lemma_marks_one(m: AnchorMark)
    ensures
        heading_ids(Seq::<AnchorMark>::empty()) == Seq::<Seq<char>>::empty(),
        note_marks(Seq::<AnchorMark>::empty()) == Seq::<AnchorMark>::empty(),
        heading_ids(seq![m]) == (match m {
            AnchorMark::HeadingId(id) => seq![id],
            _ => Seq::<Seq<char>>::empty(),
        }),
        note_marks(seq![m]) == (match m {
            AnchorMark::NoteRef(l) => seq![AnchorMark::NoteRef(l)],
            AnchorMark::NoteDef(l) => seq![AnchorMark::NoteDef(l)],
            _ => Seq::<AnchorMark>::empty(),
        }),
{
    assert(seq![m].drop_last() =~= Seq::<AnchorMark>::empty());
    assert(seq![m].last() == m);
    assert(heading_ids(seq![m]) =~= heading_ids(Seq::<AnchorMark>::empty()) + (match m {
        AnchorMark::HeadingId(id) => seq![id],
        _ => Seq::<Seq<char>>::empty(),
    }));
    assert(note_marks(seq![m]) =~= note_marks(Seq::<AnchorMark>::empty()) + (match m {
        AnchorMark::NoteRef(l) => seq![AnchorMark::NoteRef(l)],
        AnchorMark::NoteDef(l) => seq![AnchorMark::NoteDef(l)],
        _ => Seq::<AnchorMark>::empty(),
    }));
}

/// One step issues at most one heading identifier, always a fresh one, and
/// records exactly the issued identifiers.
proof fn lemma_step_ids(st: RenderState, ev: MdEvent, standalone: bool)
    ensures
        ({
            let s = step(st, ev, standalone);
            &&& s.st.ids == st.ids + heading_ids(s.marks)
            &&& forall|j: int|
                0 <= j < heading_ids(s.marks).len() ==> !st.ids.contains(
                    #[trigger] heading_ids(s.marks)[j],
                )
        }),
{
    let s = step(st, ev, standalone);
    if st.raw is Some {
        lemma_marks_one(AnchorMark::NoteRef(Seq::empty()));
        assert(s.marks == Seq::<AnchorMark>::empty());
        assert(s.st.ids =~= st.ids + heading_ids(s.marks));
    } else {
        match ev {
            MdEvent::Text(t) => {
                if st.expecting_heading {
                    let id = alloc_id(st.ids, normalized(t@));
                    lemma_alloc_id_fresh(st.ids, normalized(t@));
                    lemma_marks_one(AnchorMark::HeadingId(id));
                    assert(s.marks == seq![AnchorMark::HeadingId(id)]);
                    assert(heading_ids(s.marks) == seq![id]);
                    assert(s.st.ids =~= st.ids + heading_ids(s.marks));
                } else {
                    lemma_marks_one(AnchorMark::NoteRef(Seq::empty()));
                    assert(s.marks == Seq::<AnchorMark>::empty());
                    assert(s.st.ids =~= st.ids + heading_ids(s.marks));
                }
            },
            MdEvent::Start(tag) => {
                match tag {
                    MdTag::FootnoteDefinition(n) => {
                        lemma_marks_one(AnchorMark::NoteDef(n@));
                        assert(s.marks == seq![AnchorMark::NoteDef(n@)]);
                        assert(s.st.ids =~= st.ids + heading_ids(s.marks));
                    },
                    _ => {
                        lemma_marks_one(AnchorMark::NoteRef(Seq::empty()));
                        assert(s.marks == Seq::<AnchorMark>::empty());
                        assert(s.st.ids =~= st.ids + heading_ids(s.marks));
                    },
                }
            },
            MdEvent::FootnoteReference(n) => {
                lemma_marks_one(AnchorMark::NoteRef(n@));
                assert(s.marks == seq![AnchorMark::NoteRef(n@)]);
                assert(s.st.ids =~= st.ids + heading_ids(s.marks));
            },
            _ => {
                lemma_marks_one(AnchorMark::NoteRef(Seq::empty()));
                assert(s.marks == Seq::<AnchorMark>::empty());
                assert(s.st.ids =~= st.ids + heading_ids(s.marks));
            },
        }
    }
}

/// After any number of steps, the issued identifiers are exactly the
/// heading anchors of the trace, and they are pairwise distinct.
#[verifier::rlimit(100)]
proof fn lemma_run_ids(evs: Seq<(MdEvent, bool)>, i: int)
    requires
        i <= evs.len(),
    ensures
        run_upto(evs, i).st.ids == heading_ids(run_upto(evs, i).marks),
        run_upto(evs, i).st.ids.no_duplicates(),
    decreases i,
{
    if i <= 0 {
        assert(heading_ids(Seq::<AnchorMark>::empty()) =~= Seq::<Seq<char>>::empty());
    } else {
        lemma_run_ids(evs, i - 1);
        let prev = run_upto(evs, i - 1);
        let s = step(prev.st, evs[i - 1].0, evs[i - 1].1);
        lemma_step_ids(prev.st, evs[i - 1].0, evs[i - 1].1);
        lemma_heading_ids_concat(prev.marks, s.marks);
        let ids2 = prev.st.ids + heading_ids(s.marks);
        assert forall|p: int, q: int|
            0 <= p < ids2.len() && 0 <= q < ids2.len() && p != q implies ids2[p] != ids2[q] by {
            if p < prev.st.ids.len() && q >= prev.st.ids.len() {
                if ids2[p] == ids2[q] {
                    assert(prev.st.ids.contains(heading_ids(s.marks)[q - prev.st.ids.len()]));
                }
            }
            if q < prev.st.ids.len() && p >= prev.st.ids.len() {
                if ids2[p] == ids2[q] {
                    assert(prev.st.ids.contains(heading_ids(s.marks)[p - prev.st.ids.len()]));
                }
            }
            if p >= prev.st.ids.len() && q >= prev.st.ids.len() {
                assert(heading_ids(s.marks).len() <= 1);
                assert(false);
            }
        }
        assert(ids2.no_duplicates());
    }
}

/// Within one render pass, the anchor identifiers issued for headings are
/// pairwise distinct, whatever the heading texts are.
pub proof fn lemma_anchor_ids_distinct(evs: Seq<(MdEvent, bool)>)
    ensures
        heading_ids(run_upto(evs, evs.len() as int).marks).no_duplicates(),
{
    lemma_run_ids(evs, evs.len() as int);
}

/// Rendering is a function of the classified events alone: rendering the
/// same document twice, each time from a fresh allocator, yields identical
/// output and identical anchor identifiers.
pub proof fn lemma_render_deterministic(a: Seq<(MdEvent, bool)>, b: Seq<(MdEvent, bool)>)
    requires
        a == b,
    ensures
        rendered(a) == rendered(b),
        run_upto(a, a.len() as int).marks == run_upto(b, b.len() as int).marks,
{
}

/// A step taken outside the raw alt-text mode emits the footnote anchors
/// its event calls for, and only an image start enters the raw mode.
proof fn lemma_step_notes(st: RenderState, ev: MdEvent, standalone: bool)
    requires
        st.raw is None,
    ensures
        ({
            let s = step(st, ev, standalone);
            &&& note_marks(s.marks) == (match ev {
                MdEvent::FootnoteReference(n) => seq![AnchorMark::NoteRef(n@)],
                MdEvent::Start(MdTag::FootnoteDefinition(n)) => seq![AnchorMark::NoteDef(n@)],
                _ => Seq::<AnchorMark>::empty(),
            })
            &&& (s.st.raw is Some ==> ev matches MdEvent::Start(MdTag::Image(_, _)))
        }),
{
    let s = step(st, ev, standalone);
    match ev {
        MdEvent::FootnoteReference(n) => {
            lemma_marks_one(AnchorMark::NoteRef(n@));
            assert(s.marks == seq![AnchorMark::NoteRef(n@)]);
        },
        MdEvent::Start(tag) => {
            match tag {
                MdTag::FootnoteDefinition(n) => {
                    lemma_marks_one(AnchorMark::NoteDef(n@));
                    assert(s.marks == seq![AnchorMark::NoteDef(n@)]);
                },
                _ => {
                    lemma_marks_one(AnchorMark::NoteRef(Seq::empty()));
                    assert(s.marks == Seq::<AnchorMark>::empty());
                },
            }
        },
        MdEvent::Text(t) => {
            lemma_marks_one(AnchorMark::HeadingId(alloc_id(st.ids, normalized(t@))));
            assert(note_marks(s.marks) == Seq::<AnchorMark>::empty());
        },
        _ => {
            lemma_marks_one(AnchorMark::NoteRef(Seq::empty()));
            assert(s.marks == Seq::<AnchorMark>::empty());
        },
    }
}

/// A document with exactly one footnote reference and one matching
/// definition, the reference first and no images in the way, produces
/// exactly one numbered reference anchor and one definition anchor, the
/// reference anchor before the definition anchor in output order.
pub proof fn lemma_footnote_round_trip(
    evs: Seq<(MdEvent, bool)>,
    ir: int,
    idf: int,
    lbl: Seq<char>,
)
    requires
        0 <= ir < idf < evs.len(),
        evs[ir].0 matches MdEvent::FootnoteReference(n) && n@ == lbl,
        evs[idf].0 matches MdEvent::Start(MdTag::FootnoteDefinition(n)) && n@ == lbl,
        forall|k: int|
            0 <= k < evs.len() ==> !((#[trigger] evs[k]).0 matches MdEvent::Start(
                MdTag::Image(_, _),
            )),
        forall|k: int|
            0 <= k < evs.len() && k != ir ==> !((#[trigger] evs[k]).0
                matches MdEvent::FootnoteReference(_)),
        forall|k: int|
            0 <= k < evs.len() && k != idf ==> !((#[trigger] evs[k]).0 matches MdEvent::Start(
                MdTag::FootnoteDefinition(_),
            )),
    ensures
        note_marks(run_upto(evs, evs.len() as int).marks) == seq![
            AnchorMark::NoteRef(lbl),
            AnchorMark::NoteDef(lbl),
        ],
{
    lemma_footnote_prefix(evs, ir, idf, lbl, evs.len() as int);
}

/// The footnote anchors of the first `i` steps: nothing before the
/// reference, the reference anchor alone up to the definition, both after.
proof fn lemma_footnote_prefix(
    evs: Seq<(MdEvent, bool)>,
    ir: int,
    idf: int,
    lbl: Seq<char>,
    i: int,
)
    requires
        0 <= ir < idf < evs.len(),
        evs[ir].0 matches MdEvent::FootnoteReference(n) && n@ == lbl,
        evs[idf].0 matches MdEvent::Start(MdTag::FootnoteDefinition(n)) && n@ == lbl,
        forall|k: int|
            0 <= k < evs.len() ==> !((#[trigger] evs[k]).0 matches MdEvent::Start(
                MdTag::Image(_, _),
            )),
        forall|k: int|
            0 <= k < evs.len() && k != ir ==> !((#[trigger] evs[k]).0
                matches MdEvent::FootnoteReference(_)),
        forall|k: int|
            0 <= k < evs.len() && k != idf ==> !((#[trigger] evs[k]).0 matches MdEvent::Start(
                MdTag::FootnoteDefinition(_),
            )),
        i <= evs.len(),
    ensures
        run_upto(evs, i).st.raw is None,
        note_marks(run_upto(evs, i).marks) == (if i <= ir {
            Seq::<AnchorMark>::empty()
        } else if i <= idf {
            seq![AnchorMark::NoteRef(lbl)]
        } else {
            seq![AnchorMark::NoteRef(lbl), AnchorMark::NoteDef(lbl)]
        }),
    decreases i,
{
    if i <= 0 {
        assert(note_marks(Seq::<AnchorMark>::empty()) =~= Seq::<AnchorMark>::empty());
    } else {
        lemma_footnote_prefix(evs, ir, idf, lbl, i - 1);
        let prev = run_upto(evs, i - 1);
        let s = step(prev.st, evs[i - 1].0, evs[i - 1].1);
        lemma_step_notes(prev.st, evs[i - 1].0, evs[i - 1].1);
        lemma_note_marks_concat(prev.marks, s.marks);
        if i - 1 == ir {
            assert(note_marks(run_upto(evs, i).marks) =~= seq![AnchorMark::NoteRef(lbl)]);
        } else if i - 1 == idf {
            assert(note_marks(run_upto(evs, i).marks) =~= seq![
                AnchorMark::NoteRef(lbl),
                AnchorMark::NoteDef(lbl),
            ]);
        } else {
            assert(note_marks(run_upto(evs, i).marks) =~= note_marks(prev.marks));
        }
    }
}

} // verus!
