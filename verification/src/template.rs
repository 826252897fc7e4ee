//! Page templates: a marker-delimited directive syntax parsed into an
//! ordered list of byte-range replacements, and the engine that evaluates
//! each directive against a post.

use crate::escape::{esc_html, escape_html};
use crate::html::{render_markdown, rendered_markdown};
use crate::post::{date_cmp, date_cmp_exec, meta_value_of, Post};
use crate::strutil::{push_char, str_eq, to_chars};
use crate::utils::{
    abs_path_of, get_abs_path, get_relative_uri, last_slash, lemma_next_value_bounds, next_value,
    parse_next_value, relative_uri,
};
use vstd::prelude::*;

verus! {

/// The opening marker of a template directive.
pub open spec fn open_marker() -> Seq<char> {
    "<!--P/"@
}

/// The closing marker of a template directive.
pub open spec fn close_marker() -> Seq<char> {
    "/P-->"@
}

/// The metadata field a listing can be sorted by.
#[derive(Debug)]
pub enum MetaKey {
    Title,
    CreationDate,
    ModifiedDate,
    Category,
    Tags,
    Template,
    Custom(String),
}

/// The spec view of a sort key.
pub enum MetaKeyView {
    Title,
    CreationDate,
    ModifiedDate,
    Category,
    Tags,
    Template,
    Custom(Seq<char>),
}

/// The view of a sort key value.
pub open spec fn meta_key_view(k: MetaKey) -> MetaKeyView {
    match k {
        MetaKey::Title => MetaKeyView::Title,
        MetaKey::CreationDate => MetaKeyView::CreationDate,
        MetaKey::ModifiedDate => MetaKeyView::ModifiedDate,
        MetaKey::Category => MetaKeyView::Category,
        MetaKey::Tags => MetaKeyView::Tags,
        MetaKey::Template => MetaKeyView::Template,
        MetaKey::Custom(s) => MetaKeyView::Custom(s@),
    }
}

/// The sort key a metadata key name denotes.
pub open spec fn meta_key_of(s: Seq<char>) -> MetaKeyView {
    if s == "title"@ {
        MetaKeyView::Title
    } else if s == "date"@ {
        MetaKeyView::CreationDate
    } else if s == "updated"@ {
        MetaKeyView::ModifiedDate
    } else if s == "category"@ {
        MetaKeyView::Category
    } else if s == "tags"@ {
        MetaKeyView::Tags
    } else if s == "template"@ {
        MetaKeyView::Template
    } else {
        MetaKeyView::Custom(s)
    }
}

impl MetaKey {
    /// Classify a metadata key name.
    pub fn new(value: String) -> (r: MetaKey)
        ensures
            meta_key_view(r) == meta_key_of(value@),
    {
        if str_eq(value.as_str(), "title") {
            MetaKey::Title
        } else if str_eq(value.as_str(), "date") {
            MetaKey::CreationDate
        } else if str_eq(value.as_str(), "updated") {
            MetaKey::ModifiedDate
        } else if str_eq(value.as_str(), "category") {
            MetaKey::Category
        } else if str_eq(value.as_str(), "tags") {
            MetaKey::Tags
        } else if str_eq(value.as_str(), "template") {
            MetaKey::Template
        } else {
            MetaKey::Custom(value)
        }
    }
}

/// One directive of a template.
#[derive(Debug)]
pub enum PreprocessorRule {
    /// Render this post's markdown body.
    Contents,
    /// Emit link tags for the style sheets that apply to this post.
    Css,
    /// Emit the post's table of contents down to a depth.
    Toc { depth: u8 },
    /// Emit a listing of the posts under a path, optionally sorted.
    Listing { path: String, sort_by: Option<(MetaKey, bool)> },
    /// Emit the value of a metadata key.
    Meta { key: String },
    /// Splice a file in, raw or escaped by extension.
    Include { path: String },
}

/// The spec view of a directive.
pub enum RuleView {
    Contents,
    Css,
    Toc { depth: u8 },
    Listing { path: Seq<char>, sort_by: Option<(MetaKeyView, bool)> },
    Meta { key: Seq<char> },
    Include { path: Seq<char> },
}

/// The view of a directive value.
pub open spec fn rule_view(r: PreprocessorRule) -> RuleView {
    match r {
        PreprocessorRule::Contents => RuleView::Contents,
        PreprocessorRule::Css => RuleView::Css,
        PreprocessorRule::Toc { depth } => RuleView::Toc { depth },
        PreprocessorRule::Listing { path, sort_by } => RuleView::Listing {
            path: path@,
            sort_by: match sort_by {
                Some((k, asc)) => Some((meta_key_view(k), asc)),
                None => None,
            },
        },
        PreprocessorRule::Meta { key } => RuleView::Meta { key: key@ },
        PreprocessorRule::Include { path } => RuleView::Include { path: path@ },
    }
}

/// Whether a character is a decimal digit.
pub open spec fn is_digit(c: char) -> bool {
    '0' <= c && c <= '9'
}

/// The value of a decimal digit.
pub open spec fn digit_val(c: char) -> nat {
    if c == '0' {
        0
    } else if c == '1' {
        1
    } else if c == '2' {
        2
    } else if c == '3' {
        3
    } else if c == '4' {
        4
    } else if c == '5' {
        5
    } else if c == '6' {
        6
    } else if c == '7' {
        7
    } else if c == '8' {
        8
    } else {
        9
    }
}

/// The value of a digit sequence, most significant digit first.
pub open spec fn dec_val(s: Seq<char>) -> nat
    decreases s.len(),
{
    if s.len() == 0 {
        0
    } else {
        dec_val(s.drop_last()) * 10 + digit_val(s.last())
    }
}

/// Whether every character is a decimal digit.
pub open spec fn all_digits(s: Seq<char>) -> bool {
    forall|i: int| 0 <= i < s.len() ==> is_digit(#[trigger] s[i])
}

/// The number a string denotes as an unsigned byte: an optional leading
/// plus sign, then at least one digit, value at most 255.
pub open spec fn parse_u8_of(s: Seq<char>) -> Option<u8> {
    let body = if s.len() > 0 && s[0] == '+' {
        s.drop_first()
    } else {
        s
    };
    if body.len() == 0 || !all_digits(body) || dec_val(body) > 255 {
        None
    } else {
        Some(dec_val(body) as u8)
    }
}

/// Parse an unsigned byte from a string.
pub fn parse_u8(s: &str) -> (r: Option<u8>)
    ensures
        r == parse_u8_of(s@),
{
    let n = s.unicode_len();
    let start: usize = if n > 0 && s.get_char(0) == '+' {
        1
    } else {
        0
    };
    let ghost body = if s@.len() > 0 && s@[0] == '+' {
        s@.drop_first()
    } else {
        s@
    };
    proof {
        assert(body =~= s@.subrange(start as int, n as int));
    }
    if start == n {
        return None;
    }
    let mut acc: u32 = 0;
    let mut over = false;
    let mut j: usize = start;
    while j < n
        invariant
            start <= j <= n,
            n == s@.len(),
            body == s@.subrange(start as int, n as int),
            start as int == (if s@.len() > 0 && s@[0] == '+' {
                1int
            } else {
                0int
            }),
            forall|i: int| start <= i < j ==> is_digit(s@[i]),
            !over ==> acc as nat == dec_val(s@.subrange(start as int, j as int)) && acc <= 255,
            over ==> dec_val(s@.subrange(start as int, j as int)) > 255,
        decreases n - j,
    {
        let c = s.get_char(j);
        let d: u32 = match c {
            '0' => 0,
            '1' => 1,
            '2' => 2,
            '3' => 3,
            '4' => 4,
            '5' => 5,
            '6' => 6,
            '7' => 7,
            '8' => 8,
            '9' => 9,
            _ => {
                proof {
                    assert(!is_digit(s@[j as int]));
                    assert(body[j - start] == s@[j as int]);
                    assert(body =~= (if s@.len() > 0 && s@[0] == '+' {
                        s@.drop_first()
                    } else {
                        s@
                    }));
                    assert(0 <= j - start < body.len() && !is_digit(body[j - start]));
                    assert(!all_digits(body));
                }
                return None;
            },
        };
        proof {
            assert(is_digit(s@[j as int]));
            assert(d as nat == digit_val(s@[j as int]));
        }
        let ghost pre = s@.subrange(start as int, j as int);
        if !over {
            let next = acc * 10 + d;
            if next > 255 {
                over = true;
            } else {
                acc = next;
            }
            proof {
                assert(s@.subrange(start as int, j + 1).drop_last() =~= pre);
                assert(s@.subrange(start as int, j + 1).last() == s@[j as int]);
            }
        } else {
            proof {
                assert(s@.subrange(start as int, j + 1).drop_last() =~= pre);
                assert(s@.subrange(start as int, j + 1).last() == s@[j as int]);
            }
        }
        j = j + 1;
    }
    proof {
        assert(s@.subrange(start as int, n as int) =~= body);
        assert forall|i: int| 0 <= i < body.len() implies is_digit(#[trigger] body[i]) by {
            assert(body[i] == s@[start + i]);
        }
        assert(all_digits(body));
    }
    if over {
        None
    } else {
        Some(acc as u8)
    }
}

/// The extra arguments of a listing directive from position `pos` onward:
/// each `sort key asc|desc` group replaces the sort; anything malformed is
/// noted and skipped.
pub open spec fn list_args(s: Seq<char>, pos: int, cur: Option<(MetaKeyView, bool)>) -> Option<
    (MetaKeyView, bool),
>
    decreases s.len() - pos,
    when 0 <= pos <= s.len()
    via list_args_decreases
{
    let (a, p) = next_value(s, pos);
    match a {
        None => cur,
        Some(arg) => {
            if arg == "sort"@ {
                let (k, pk) = next_value(s, p);
                let (o, po) = next_value(s, pk);
                if k is Some && o is Some && (o->0 == "asc"@ || o->0 == "desc"@) {
                    list_args(s, po, Some((meta_key_of(k->0), o->0 == "asc"@)))
                } else {
                    list_args(s, po, cur)
                }
            } else {
                list_args(s, p, cur)
            }
        },
    }
}

#[via_fn]
proof fn list_args_decreases(s: Seq<char>, pos: int, cur: Option<(MetaKeyView, bool)>) {
    lemma_next_value_bounds(s, pos);
    let (a, p) = next_value(s, pos);
    if a is Some {
        lemma_next_value_bounds(s, p);
        let (k, pk) = next_value(s, p);
        lemma_next_value_bounds(s, pk);
    }
}

/// The directive a marker-delimited rule text denotes, if any.
pub open spec fn rule_of(s: Seq<char>) -> Option<RuleView> {
    let (t0, p1) = next_value(s, 0);
    match t0 {
        None => None,
        Some(tok) => {
            if tok == "CONTENTS"@ {
                Some(RuleView::Contents)
            } else if tok == "CSS"@ {
                Some(RuleView::Css)
            } else if tok == "TOC"@ {
                let (t1, _) = next_value(s, p1);
                let depth = match t1 {
                    Some(v) => match parse_u8_of(v) {
                        Some(d) => d,
                        None => 255u8,
                    },
                    None => 255u8,
                };
                Some(RuleView::Toc { depth })
            } else if tok == "LIST"@ {
                let (t1, p2) = next_value(s, p1);
                match t1 {
                    None => None,
                    Some(path) => Some(
                        RuleView::Listing { path, sort_by: list_args(s, p2, None) },
                    ),
                }
            } else if tok == "META"@ {
                let (t1, _) = next_value(s, p1);
                match t1 {
                    None => None,
                    Some(key) => Some(RuleView::Meta { key }),
                }
            } else if tok == "INCLUDE"@ {
                let (t1, _) = next_value(s, p1);
                match t1 {
                    None => None,
                    Some(path) => Some(RuleView::Include { path }),
                }
            } else {
                None
            }
        },
    }
}

impl PreprocessorRule {
    /// Parse the text between a directive's markers.
    pub fn new(s: &Vec<char>) -> (r: Option<PreprocessorRule>)
        ensures
            ({
                match r {
                    Some(rule) => rule_of(s@) == Some(rule_view(rule)),
                    None => rule_of(s@) is None,
                }
            }),
    {
        let (t0, p1) = parse_next_value(s, 0);
        let tok = match t0 {
            Some(t) => t,
            None => {
                return None;
            },
        };
        if str_eq(tok.as_str(), "CONTENTS") {
            Some(PreprocessorRule::Contents)
        } else if str_eq(tok.as_str(), "CSS") {
            Some(PreprocessorRule::Css)
        } else if str_eq(tok.as_str(), "TOC") {
            let (t1, _) = parse_next_value(s, p1);
            let depth = match t1 {
                Some(v) => match parse_u8(v.as_str()) {
                    Some(d) => d,
                    None => 255u8,
                },
                None => 255u8,
            };
            Some(PreprocessorRule::Toc { depth })
        } else if str_eq(tok.as_str(), "LIST") {
            let (t1, p2) = parse_next_value(s, p1);
            match t1 {
                None => None,
                Some(path) => {
                    let sort_by = parse_list_args(s, p2);
                    Some(PreprocessorRule::Listing { path, sort_by })
                },
            }
        } else if str_eq(tok.as_str(), "META") {
            let (t1, _) = parse_next_value(s, p1);
            match t1 {
                None => None,
                Some(key) => Some(PreprocessorRule::Meta { key }),
            }
        } else if str_eq(tok.as_str(), "INCLUDE") {
            let (t1, _) = parse_next_value(s, p1);
            match t1 {
                None => None,
                Some(path) => Some(PreprocessorRule::Include { path }),
            }
        } else {
            None
        }
    }
}

/// The spec view of an optional sort argument.
pub open spec fn sort_view(s: Option<(MetaKey, bool)>) -> Option<(MetaKeyView, bool)> {
    match s {
        Some((k, asc)) => Some((meta_key_view(k), asc)),
        None => None,
    }
}

/// The first position at or after `from` where the pattern occurs.
pub open spec fn find_sub(text: Seq<char>, pat: Seq<char>, from: int) -> Option<int>
    decreases text.len() - from + 1,
{
    if from < 0 || from + pat.len() > text.len() {
        None
    } else if text.subrange(from, from + pat.len() as int) == pat {
        Some(from)
    } else {
        find_sub(text, pat, from + 1)
    }
}

/// A found pattern lies within the text, at or after the start position.
pub proof fn lemma_find_sub_bounds(text: Seq<char>, pat: Seq<char>, from: int)
    ensures
        find_sub(text, pat, from) matches Some(i) ==> from <= i && i + pat.len() <= text.len(),
    decreases text.len() - from + 1,
{
    if !(from < 0 || from + pat.len() > text.len()) && text.subrange(from, from + pat.len() as int)
        != pat {
        lemma_find_sub_bounds(text, pat, from + 1);
    }
}

/// One parsed replacement: a range of the original template text and the
/// directive that replaces it.
#[derive(Debug)]
pub struct Replacement {
    pub start: usize,
    pub end: usize,
    pub rule: PreprocessorRule,
}

/// The spec view of a replacement.
pub struct ReplacementView {
    pub start: int,
    pub end: int,
    pub rule: RuleView,
}

/// The view of a replacement value.
pub open spec fn repl_view(r: Replacement) -> ReplacementView {
    ReplacementView { start: r.start as int, end: r.end as int, rule: rule_view(r.rule) }
}

/// The views of a list of replacements.
pub open spec fn repl_views(s: Seq<Replacement>) -> Seq<ReplacementView> {
    s.map_values(|r: Replacement| repl_view(r))
}

/// The replacements a template text holds from `off` onward: each directive
/// found between an open and a close marker, left to right; an unknown rule
/// name leaves the directive as literal text, a missing close marker stops
/// the scan.
pub open spec fn scan_repls(text: Seq<char>, off: int) -> Seq<ReplacementView>
    decreases text.len() - off,
    when 0 <= off
    via scan_repls_decreases
{
    match find_sub(text, open_marker(), off) {
        None => Seq::empty(),
        Some(idx) => {
            let rs = idx + open_marker().len() as int;
            match find_sub(text, close_marker(), rs) {
                None => Seq::empty(),
                Some(re) => {
                    let nxt = re + close_marker().len() as int;
                    let rest = scan_repls(text, nxt);
                    match rule_of(text.subrange(rs, re)) {
                        Some(rm) => seq![
                            ReplacementView { start: idx, end: nxt, rule: rm },
                        ] + rest,
                        None => rest,
                    }
                },
            }
        },
    }
}

#[via_fn]
proof fn scan_repls_decreases(text: Seq<char>, off: int) {
    lemma_find_sub_bounds(text, open_marker(), off);
    match find_sub(text, open_marker(), off) {
        Some(idx) => {
            reveal_strlit("<!--P/");
            reveal_strlit("/P-->");
            let rs = idx + open_marker().len() as int;
            lemma_find_sub_bounds(text, close_marker(), rs);
        },
        None => {},
    }
}

/// Every replacement of a scan lies between `off` and the text's end, in
/// order and without overlap.
pub open spec fn repls_wf(rs: Seq<ReplacementView>, lo: int, len: int) -> bool
    decreases rs.len(),
{
    rs.len() == 0 || {
        &&& lo <= rs[0].start
        &&& rs[0].start <= rs[0].end
        &&& rs[0].end <= len
        &&& repls_wf(rs.drop_first(), rs[0].end, len)
    }
}

/// Well-formedness survives loosening the lower bound.
pub proof fn lemma_repls_wf_weaken(rs: Seq<ReplacementView>, lo: int, lo2: int, len: int)
    requires
        repls_wf(rs, lo, len),
        lo2 <= lo,
    ensures
        repls_wf(rs, lo2, len),
    decreases rs.len(),
{
    if rs.len() > 0 {
        lemma_repls_wf_weaken(rs.drop_first(), rs[0].end, rs[0].end, len);
    }
}

/// A scan yields well-formed replacements.
pub proof fn lemma_scan_repls_wf(text: Seq<char>, off: int)
    requires
        0 <= off,
    ensures
        repls_wf(scan_repls(text, off), off, text.len() as int),
    decreases text.len() - off,
{
    lemma_find_sub_bounds(text, open_marker(), off);
    match find_sub(text, open_marker(), off) {
        None => {},
        Some(idx) => {
            reveal_strlit("<!--P/");
            reveal_strlit("/P-->");
            let rs = idx + open_marker().len() as int;
            lemma_find_sub_bounds(text, close_marker(), rs);
            match find_sub(text, close_marker(), rs) {
                None => {},
                Some(re) => {
                    let nxt = re + close_marker().len() as int;
                    lemma_scan_repls_wf(text, nxt);
                    let rest = scan_repls(text, nxt);
                    match rule_of(text.subrange(rs, re)) {
                        Some(rm) => {
                            let me = ReplacementView { start: idx, end: nxt, rule: rm };
                            assert((seq![me] + rest).drop_first() =~= rest);
                        },
                        None => {
                            lemma_repls_wf_weaken(rest, nxt, off, text.len() as int);
                        },
                    }
                },
            }
        },
    }
}

/// A parsed template: the original text plus its ordered replacements.
#[derive(Debug)]
pub struct HtmlTemplate {
    /// The template text, replacements index into it.
    pub text: Vec<char>,
    /// The parsed directives, sorted by start offset, non-overlapping.
    pub replacements: Vec<Replacement>,
}

impl HtmlTemplate {
    /// The replacements a template must satisfy: parsed from its own text.
    pub open spec fn wf(self) -> bool {
        &&& repl_views(self.replacements@) == scan_repls(self.text@, 0)
        &&& repls_wf(repl_views(self.replacements@), 0, self.text@.len() as int)
    }
}

/// Whether the pattern occurs at position `i` of the text.
fn sub_eq_at(text: &Vec<char>, pat: &Vec<char>, i: usize) -> (r: bool)
    requires
        i + pat@.len() <= text@.len(),
    ensures
        r == (text@.subrange(i as int, i + pat@.len()) == pat@),
{
    let m = pat.len();
    let tn = text.len();
    let mut j: usize = 0;
    while j < m
        invariant
            j <= m,
            m == pat@.len(),
            tn == text@.len(),
            i + m <= tn,
            forall|k: int| 0 <= k < j ==> text@[i + k] == pat@[k],
        decreases m - j,
    {
        if text[i + j] != pat[j] {
            proof {
                assert(text@.subrange(i as int, i + pat@.len())[j as int] != pat@[j as int]);
            }
            return false;
        }
        j = j + 1;
    }
    proof {
        assert(text@.subrange(i as int, i + pat@.len()) =~= pat@);
    }
    true
}

/// Find the first occurrence of a pattern at or after `from`.
fn find_sub_exec(text: &Vec<char>, pat: &Vec<char>, from: usize) -> (r: Option<usize>)
    ensures
        ({
            match r {
                Some(i) => find_sub(text@, pat@, from as int) == Some(i as int) && from <= i && i
                    + pat@.len() <= text@.len(),
                None => find_sub(text@, pat@, from as int) is None,
            }
        }),
{
    let n = text.len();
    let m = pat.len();
    if m > n {
        return None;
    }
    if from > n - m {
        return None;
    }
    if m == 0 {
        proof {
            assert(text@.subrange(from as int, from as int) =~= pat@);
        }
        return Some(from);
    }
    let mut i: usize = from;
    while i <= n - m
        invariant
            from <= i,
            1 <= m <= n,
            i <= n - m + 1,
            n == text@.len(),
            m == pat@.len(),
            find_sub(text@, pat@, from as int) == find_sub(text@, pat@, i as int),
        decreases n - m + 1 - i,
    {
        if sub_eq_at(text, pat, i) {
            return Some(i);
        }
        i = i + 1;
    }
    None
}

/// Copy a range of the text into its own vector.
fn slice_chars(text: &Vec<char>, a: usize, b: usize) -> (r: Vec<char>)
    requires
        a <= b <= text@.len(),
    ensures
        r@ == text@.subrange(a as int, b as int),
{
    let mut r: Vec<char> = Vec::new();
    let mut i: usize = a;
    while i < b
        invariant
            a <= i <= b <= text@.len(),
            r@ == text@.subrange(a as int, i as int),
        decreases b - i,
    {
        r.push(text[i]);
        i = i + 1;
        proof {
            assert(r@ =~= text@.subrange(a as int, i as int));
        }
    }
    r
}

impl HtmlTemplate {
    /// Parse template source text into its replacement list. A directive
    /// whose rule name is unknown stays literal text; a missing close
    /// marker ends the scan.
    pub fn from_string(html: String) -> (t: HtmlTemplate)
        ensures
            t.wf(),
            t.text@ == html@,
    {
        let text = to_chars(html.as_str());
        let open: Vec<char> = to_chars("<!--P/");
        let close: Vec<char> = to_chars("/P-->");
        proof {
            reveal_strlit("<!--P/");
            reveal_strlit("/P-->");
        }
        let mut replacements: Vec<Replacement> = Vec::new();
        let mut off: usize = 0;
        proof {
            assert(repl_views(replacements@) + scan_repls(text@, 0) =~= scan_repls(text@, 0));
        }
        while off <= text.len()
            invariant
                open@ == open_marker(),
                close@ == close_marker(),
                off <= text@.len() + 1,
                repl_views(replacements@) + scan_repls(text@, off as int) == scan_repls(text@, 0),
            ensures
                repl_views(replacements@) == scan_repls(text@, 0),
            decreases text@.len() + 1 - off,
        {
            proof {
                reveal_strlit("<!--P/");
                reveal_strlit("/P-->");
            }
            let found = find_sub_exec(&text, &open, off);
            let idx = match found {
                Some(i) => i,
                None => {
                    proof {
                        assert(repl_views(replacements@) + scan_repls(text@, off as int)
                            =~= repl_views(replacements@));
                    }
                    break ;
                },
            };
            let rs = idx + open.len();
            let close_found = find_sub_exec(&text, &close, rs);
            let re = match close_found {
                Some(i) => i,
                None => {
                    proof {
                        assert(repl_views(replacements@) + scan_repls(text@, off as int)
                            =~= repl_views(replacements@));
                    }
                    break ;
                },
            };
            let nxt = re + close.len();
            let inner = slice_chars(&text, rs, re);
            let ghost pre = repl_views(replacements@);
            match PreprocessorRule::new(&inner) {
                Some(rule) => {
                    replacements.push(Replacement { start: idx, end: nxt, rule });
                    proof {
                        assert(repl_views(replacements@) =~= pre + seq![
                            repl_view(Replacement {
                                start: idx,
                                end: nxt,
                                rule: replacements@.last().rule,
                            }),
                        ]);
                        assert(repl_views(replacements@) + scan_repls(text@, nxt as int)
                            =~= scan_repls(text@, 0));
                    }
                },
                None => {
                    proof {
                        assert(repl_views(replacements@) + scan_repls(text@, nxt as int)
                            =~= scan_repls(text@, 0));
                    }
                },
            }
            off = nxt;
        }
        proof {
            lemma_scan_repls_wf(text@, 0);
        }
        HtmlTemplate { text, replacements }
    }
}

/// Parse the trailing arguments of a listing directive.
fn parse_list_args(s: &Vec<char>, pos: usize) -> (r: Option<(MetaKey, bool)>)
    requires
        pos <= s@.len(),
    ensures
        sort_view(r) == list_args(s@, pos as int, None),
{
    let mut cur: Option<(MetaKey, bool)> = None;
    let mut p: usize = pos;
    loop
        invariant
            p <= s@.len(),
            list_args(s@, pos as int, None) == list_args(s@, p as int, sort_view(cur)),
        decreases s@.len() - p,
    {
        proof {
            lemma_next_value_bounds(s@, p as int);
        }
        let (a, p1) = parse_next_value(s, p);
        let arg = match a {
            Some(arg) => arg,
            None => {
                return cur;
            },
        };
        if str_eq(arg.as_str(), "sort") {
            proof {
                lemma_next_value_bounds(s@, p1 as int);
            }
            let (k, pk) = parse_next_value(s, p1);
            proof {
                lemma_next_value_bounds(s@, pk as int);
            }
            let (o, po) = parse_next_value(s, pk);
            match (k, o) {
                (Some(key), Some(order)) => {
                    let is_asc = str_eq(order.as_str(), "asc");
                    let is_desc = str_eq(order.as_str(), "desc");
                    if is_asc || is_desc {
                        cur = Some((MetaKey::new(key), is_asc));
                    }
                },
                _ => {},
            }
            p = po;
        } else {
            p = p1;
        }
    }
}

/// A separator-aware prefix test.
pub open spec fn prefix_of(p: Seq<char>, s: Seq<char>) -> bool {
    p.len() <= s.len() && s.subrange(0, p.len() as int) == p
}

/// Whether the first `k` characters of `p` are a prefix of `s`.
fn is_prefix_upto(p: &str, k: usize, s: &str) -> (r: bool)
    requires
        k <= p@.len(),
    ensures
        r == prefix_of(p@.subrange(0, k as int), s@),
{
    let sn = s.unicode_len();
    if k > sn {
        proof {
            assert(p@.subrange(0, k as int).len() > s@.len());
        }
        return false;
    }
    let mut i: usize = 0;
    while i < k
        invariant
            i <= k <= p@.len(),
            k <= sn,
            sn == s@.len(),
            forall|j: int| 0 <= j < i ==> p@[j] == s@[j],
        decreases k - i,
    {
        if p.get_char(i) != s.get_char(i) {
            proof {
                assert(s@.subrange(0, k as int)[i as int] != p@.subrange(0, k as int)[i as int]);
            }
            return false;
        }
        i = i + 1;
    }
    proof {
        assert(s@.subrange(0, k as int) =~= p@.subrange(0, k as int));
    }
    true
}

/// Whether `p` is a prefix of `s`.
pub fn is_prefix(p: &str, s: &str) -> (r: bool)
    ensures
        r == prefix_of(p@, s@),
{
    let pn = p.unicode_len();
    let r = is_prefix_upto(p, pn, s);
    proof {
        assert(p@.subrange(0, pn as int) =~= p@);
    }
    r
}

/// The link tag for one style sheet.
pub open spec fn css_link(c: Seq<char>) -> Seq<char> {
    "<link rel=\"stylesheet\" type=\"text/css\" href=\""@ + c + "\">"@
}

/// Whether a style sheet applies to a post: the sheet's directory is a
/// prefix of the post's URI.
pub open spec fn css_matches(c: Seq<char>, uri: Seq<char>) -> bool {
    match last_slash(c) {
        Some(k) => prefix_of(c.subrange(0, k), uri),
        None => false,
    }
}

/// The link tags of the style sheets from index `i` onward that apply to
/// the post's URI, in input order.
pub open spec fn css_from(css: Seq<String>, uri: Seq<char>, i: int) -> Seq<char>
    decreases css.len() - i,
{
    if i < 0 || i >= css.len() {
        Seq::empty()
    } else {
        (if css_matches(css[i]@, uri) {
            css_link(css[i]@)
        } else {
            Seq::empty()
        }) + css_from(css, uri, i + 1)
    }
}

/// Emit the link tags of the style sheets that apply to the post's URI.
fn css_links_exec(css: &Vec<String>, uri: &str) -> (r: String)
    requires
        forall|i: int| 0 <= i < css@.len() ==> last_slash(#[trigger] css@[i]@) is Some,
    ensures
        r@ == css_from(css@, uri@, 0),
{
    let mut r = String::new();
    let mut i: usize = 0;
    proof {
        assert(r@ + css_from(css@, uri@, 0) =~= css_from(css@, uri@, 0));
    }
    while i < css.len()
        invariant
            i <= css@.len(),
            forall|j: int| 0 <= j < css@.len() ==> last_slash(#[trigger] css@[j]@) is Some,
            r@ + css_from(css@, uri@, i as int) == css_from(css@, uri@, 0),
        decreases css@.len() - i,
    {
        let c = &css[i];
        let k = match crate::utils::last_slash_exec(c.as_str()) {
            Some(k) => k,
            None => {
                proof {
                    assert(false);
                }
                0
            },
        };
        if is_prefix_upto(c.as_str(), k, uri) {
            r.append("<link rel=\"stylesheet\" type=\"text/css\" href=\"");
            r.append(c.as_str());
            r.append("\">");
        }
        i = i + 1;
        proof {
            assert(r@ + css_from(css@, uri@, i as int) =~= css_from(css@, uri@, 0));
        }
    }
    proof {
        assert(r@ =~= css_from(css@, uri@, 0));
    }
    r
}

/// `n` nested list openings.
pub open spec fn ul_open(n: nat) -> Seq<char>
    decreases n,
{
    if n == 0 {
        Seq::empty()
    } else {
        ul_open((n - 1) as nat) + "<ul>"@
    }
}

/// `n` nested list closings.
pub open spec fn ul_close(n: nat) -> Seq<char>
    decreases n,
{
    if n == 0 {
        Seq::empty()
    } else {
        ul_close((n - 1) as nat) + "</ul>"@
    }
}

/// The nesting depth and markup after the first `i` table-of-contents
/// entries: the depth counter follows each entry not deeper than
/// `max_depth`; deeper entries are skipped entirely.
pub open spec fn toc_upto(toc: Seq<(String, u8)>, max_depth: u8, i: int) -> (int, Seq<char>)
    decreases i,
{
    if i <= 0 {
        (0, Seq::empty())
    } else {
        let prev = toc_upto(toc, max_depth, i - 1);
        let d = prev.0;
        let o = prev.1;
        let dep = toc[i - 1].1 as int;
        if dep > max_depth as int {
            (d, o)
        } else {
            let adj = if d < dep {
                ul_open((dep - d) as nat)
            } else {
                ul_close((d - dep) as nat)
            };
            (dep, o + adj + "<li>"@ + toc[i - 1].0@ + "</li>"@)
        }
    }
}

/// The table-of-contents markup of a heading list, nested down to
/// `max_depth` and closed back to the top at the end.
pub open spec fn toc_html(toc: Seq<(String, u8)>, max_depth: u8) -> Seq<char> {
    let fin = toc_upto(toc, max_depth, toc.len() as int);
    fin.1 + ul_close(fin.0 as nat)
}

/// The depth counter never leaves the byte range.
proof fn lemma_toc_depth_range(toc: Seq<(String, u8)>, max_depth: u8, i: int)
    ensures
        0 <= toc_upto(toc, max_depth, i).0 <= 255,
    decreases i,
{
    if i > 0 {
        lemma_toc_depth_range(toc, max_depth, i - 1);
    }
}

/// Build the table of contents of a heading list.
pub fn build_toc(toc: &Vec<(String, u8)>, max_depth: u8) -> (r: String)
    ensures
        r@ == toc_html(toc@, max_depth),
{
    let mut r = String::new();
    let mut cur: usize = 0;
    let mut i: usize = 0;
    while i < toc.len()
        invariant
            i <= toc@.len(),
            cur <= 255,
            cur as int == toc_upto(toc@, max_depth, i as int).0,
            r@ == toc_upto(toc@, max_depth, i as int).1,
        decreases toc@.len() - i,
    {
        let dep = toc[i].1 as usize;
        if dep <= max_depth as usize {
            let ghost d0 = cur as int;
            let ghost r0 = r@;
            if cur < dep {
                while cur < dep
                    invariant
                        d0 <= cur <= dep <= 255,
                        r@ == r0 + ul_open((cur - d0) as nat),
                    decreases dep - cur,
                {
                    r.append("<ul>");
                    cur = cur + 1;
                }
            } else {
                while cur > dep
                    invariant
                        dep <= cur <= 255,
                        cur <= d0,
                        r@ == r0 + ul_close((d0 - cur) as nat),
                    decreases cur,
                {
                    r.append("</ul>");
                    cur = cur - 1;
                }
            }
            r.append("<li>");
            r.append(toc[i].0.as_str());
            r.append("</li>");
            proof {
                assert(r@ =~= toc_upto(toc@, max_depth, i + 1).1);
            }
        }
        i = i + 1;
    }
    let ghost fin = toc_upto(toc@, max_depth, toc@.len() as int);
    let ghost r1 = r@;
    let ghost c1 = cur as int;
    while cur > 0
        invariant
            cur <= c1,
            r@ == r1 + ul_close((c1 - cur) as nat),
        decreases cur,
    {
        r.append("</ul>");
        cur = cur - 1;
    }
    proof {
        assert(r@ =~= toc_html(toc@, max_depth));
    }
    r
}

/// String order: lexicographic by character, from position `i`.
pub open spec fn str_cmp_from(a: Seq<char>, b: Seq<char>, i: int) -> int
    decreases a.len() + b.len() - i,
{
    if i < 0 {
        0
    } else if i >= a.len() && i >= b.len() {
        0
    } else if i >= a.len() {
        -1
    } else if i >= b.len() {
        1
    } else if a[i] != b[i] {
        if a[i] < b[i] {
            -1
        } else {
            1
        }
    } else {
        str_cmp_from(a, b, i + 1)
    }
}

/// String order: lexicographic by character.
pub open spec fn str_cmp(a: Seq<char>, b: Seq<char>) -> int {
    str_cmp_from(a, b, 0)
}

/// Compare two strings lexicographically.
fn str_cmp_exec(a: &str, b: &str) -> (r: i8)
    ensures
        r as int == str_cmp(a@, b@),
{
    let an = a.unicode_len();
    let bn = b.unicode_len();
    let mut i: usize = 0;
    loop
        invariant
            i <= an + bn,
            an == a@.len(),
            bn == b@.len(),
            i <= an,
            i <= bn,
            str_cmp(a@, b@) == str_cmp_from(a@, b@, i as int),
        decreases an + bn - i,
    {
        if i >= an && i >= bn {
            return 0;
        }
        if i >= an {
            return -1;
        }
        if i >= bn {
            return 1;
        }
        let ca = a.get_char(i);
        let cb = b.get_char(i);
        if ca != cb {
            if ca < cb {
                return -1;
            }
            return 1;
        }
        i = i + 1;
    }
}

/// String-list order: lexicographic by element, from position `i`.
pub open spec fn strs_cmp_from(a: Seq<String>, b: Seq<String>, i: int) -> int
    decreases a.len() + b.len() - i,
{
    if i < 0 {
        0
    } else if i >= a.len() && i >= b.len() {
        0
    } else if i >= a.len() {
        -1
    } else if i >= b.len() {
        1
    } else if str_cmp(a[i]@, b[i]@) != 0 {
        str_cmp(a[i]@, b[i]@)
    } else {
        strs_cmp_from(a, b, i + 1)
    }
}

/// Compare two string lists lexicographically.
fn strs_cmp_exec(a: &Vec<String>, b: &Vec<String>) -> (r: i8)
    ensures
        r as int == strs_cmp_from(a@, b@, 0),
{
    let an = a.len();
    let bn = b.len();
    let mut i: usize = 0;
    loop
        invariant
            an == a@.len(),
            bn == b@.len(),
            i <= an,
            i <= bn,
            strs_cmp_from(a@, b@, 0) == strs_cmp_from(a@, b@, i as int),
        decreases an + bn - i,
    {
        if i >= an && i >= bn {
            return 0;
        }
        if i >= an {
            return -1;
        }
        if i >= bn {
            return 1;
        }
        let c = str_cmp_exec(a[i].as_str(), b[i].as_str());
        if c != 0 {
            return c;
        }
        i = i + 1;
    }
}

/// Option order: absent sorts before present.
pub open spec fn opt_str_cmp(a: Option<Seq<char>>, b: Option<Seq<char>>) -> int {
    match (a, b) {
        (Option::None, Option::None) => 0,
        (Option::None, Option::Some(_)) => -1,
        (Option::Some(_), Option::None) => 1,
        (Option::Some(x), Option::Some(y)) => str_cmp(x, y),
    }
}

/// The view of an optional string.
pub open spec fn opt_view(o: Option<String>) -> Option<Seq<char>> {
    match o {
        Some(s) => Some(s@),
        None => None,
    }
}

/// Post order under a sort key: the chosen field's natural order, with an
/// absent metadata value sorting first.
pub open spec fn post_cmp(a: Post, b: Post, key: MetaKeyView) -> int {
    match key {
        MetaKeyView::Title => str_cmp(a.title@, b.title@),
        MetaKeyView::CreationDate => date_cmp(a.date, b.date),
        MetaKeyView::ModifiedDate => date_cmp(a.updated, b.updated),
        MetaKeyView::Category => str_cmp(a.category@, b.category@),
        MetaKeyView::Tags => strs_cmp_from(a.tags@, b.tags@, 0),
        MetaKeyView::Template => opt_str_cmp(opt_view(a.template), opt_view(b.template)),
        MetaKeyView::Custom(k) => opt_str_cmp(
            meta_value_of(a.meta@, k),
            meta_value_of(b.meta@, k),
        ),
    }
}

/// Compare two posts under a sort key.
fn post_cmp_exec(a: &Post, b: &Post, key: &MetaKey) -> (r: i8)
    ensures
        r as int == post_cmp(*a, *b, meta_key_view(*key)),
{
    match key {
        MetaKey::Title => str_cmp_exec(a.title.as_str(), b.title.as_str()),
        MetaKey::CreationDate => date_cmp_exec(&a.date, &b.date),
        MetaKey::ModifiedDate => date_cmp_exec(&a.updated, &b.updated),
        MetaKey::Category => str_cmp_exec(a.category.as_str(), b.category.as_str()),
        MetaKey::Tags => strs_cmp_exec(&a.tags, &b.tags),
        MetaKey::Template => {
            match (&a.template, &b.template) {
                (Option::None, Option::None) => 0,
                (Option::None, Option::Some(_)) => -1,
                (Option::Some(_), Option::None) => 1,
                (Option::Some(x), Option::Some(y)) => str_cmp_exec(x.as_str(), y.as_str()),
            }
        },
        MetaKey::Custom(k) => {
            let va = a.meta_get(k.as_str());
            let vb = b.meta_get(k.as_str());
            match (va, vb) {
                (Option::None, Option::None) => 0,
                (Option::None, Option::Some(_)) => -1,
                (Option::Some(_), Option::None) => 1,
                (Option::Some(x), Option::Some(y)) => str_cmp_exec(x.as_str(), y.as_str()),
            }
        },
    }
}

/// The sort order between the posts at two indices.
pub open spec fn sort_le(files: Seq<Post>, x: int, y: int, key: MetaKeyView, asc: bool) -> bool {
    if asc {
        post_cmp(files[x], files[y], key) <= 0
    } else {
        post_cmp(files[x], files[y], key) >= 0
    }
}

/// A stable insertion: the new index goes after every index already placed
/// that is not greater under the sort order.
pub open spec fn insert_idx(
    files: Seq<Post>,
    s: Seq<usize>,
    x: usize,
    key: MetaKeyView,
    asc: bool,
) -> Seq<usize>
    decreases s.len(),
{
    if s.len() == 0 {
        seq![x]
    } else if sort_le(files, s.last() as int, x as int, key, asc) {
        s.push(x)
    } else {
        insert_idx(files, s.drop_last(), x, key, asc).push(s.last())
    }
}

/// The stable sort of the first `k` post indices.
pub open spec fn sort_idx_upto(files: Seq<Post>, key: MetaKeyView, asc: bool, k: int) -> Seq<usize>
    decreases k,
{
    if k <= 0 {
        Seq::empty()
    } else {
        insert_idx(files, sort_idx_upto(files, key, asc, k - 1), (k - 1) as usize, key, asc)
    }
}

/// The stable sort of all post indices under a key.
pub open spec fn sorted_indices(files: Seq<Post>, key: MetaKeyView, asc: bool) -> Seq<usize> {
    sort_idx_upto(files, key, asc, files.len() as int)
}

/// Insert one index into a sorted index list, stably.
fn insert_idx_exec(
    files: &Vec<Post>,
    sorted: Vec<usize>,
    x: usize,
    key: &MetaKey,
    asc: bool,
) -> (r: Vec<usize>)
    requires
        x < files@.len(),
        forall|i: int| 0 <= i < sorted@.len() ==> sorted@[i] < files@.len(),
    ensures
        r@ == insert_idx(files@, sorted@, x, meta_key_view(*key), asc),
        forall|i: int| 0 <= i < r@.len() ==> r@[i] < files@.len(),
    decreases sorted@.len(),
{
    let mut sorted = sorted;
    if sorted.len() == 0 {
        sorted.push(x);
        proof {
            assert(sorted@ =~= insert_idx(files@, Seq::empty(), x, meta_key_view(*key), asc));
        }
        return sorted;
    }
    let lastv = sorted[sorted.len() - 1];
    let c = post_cmp_exec(&files[lastv], &files[x], key);
    let le = if asc {
        c <= 0
    } else {
        c >= 0
    };
    if le {
        sorted.push(x);
        return sorted;
    }
    let ghost pre = sorted@;
    let popped = match sorted.pop() {
        Some(v) => v,
        None => {
            proof {
                assert(false);
            }
            0
        },
    };
    proof {
        assert(sorted@ =~= pre.drop_last());
    }
    let mut r = insert_idx_exec(files, sorted, x, key, asc);
    r.push(popped);
    r
}

/// Sort all post indices under a key, stably.
fn sort_indices_exec(files: &Vec<Post>, key: &MetaKey, asc: bool) -> (r: Vec<usize>)
    ensures
        r@ == sorted_indices(files@, meta_key_view(*key), asc),
        forall|i: int| 0 <= i < r@.len() ==> r@[i] < files@.len(),
{
    let mut r: Vec<usize> = Vec::new();
    let mut k: usize = 0;
    while k < files.len()
        invariant
            k <= files@.len(),
            r@ == sort_idx_upto(files@, meta_key_view(*key), asc, k as int),
            forall|i: int| 0 <= i < r@.len() ==> r@[i] < files@.len(),
        decreases files@.len() - k,
    {
        r = insert_idx_exec(files, r, k, key, asc);
        k = k + 1;
    }
    r
}

/// The index order `0, 1, ..., n-1`.
pub open spec fn identity_order(n: nat) -> Seq<usize> {
    Seq::new(n, |i: int| i as usize)
}

/// The listing entries for the ordered post indices from `k` onward,
/// keeping only posts whose source path starts with the prefix.
pub open spec fn listing_items(
    files: Seq<Post>,
    order: Seq<usize>,
    k: int,
    prefix: Seq<char>,
    uri: Seq<char>,
) -> Seq<char>
    decreases order.len() - k,
{
    if k < 0 || k >= order.len() {
        Seq::empty()
    } else {
        let f = files[order[k] as int];
        (if prefix_of(prefix, f.path@) {
            "<li><a href=\""@ + relative_uri(uri, f.uri@) + "\">"@ + f.title@ + "</a></li>"@
        } else {
            Seq::empty()
        }) + listing_items(files, order, k + 1, prefix, uri)
    }
}

/// The listing markup for the posts under a path prefix, in sorted order
/// when a sort key is given, in input order otherwise.
pub open spec fn listing_html(
    files: Seq<Post>,
    sort_by: Option<(MetaKeyView, bool)>,
    prefix: Seq<char>,
    uri: Seq<char>,
) -> Seq<char> {
    let order = match sort_by {
        Some(sk) => sorted_indices(files, sk.0, sk.1),
        None => identity_order(files.len()),
    };
    "<ul>"@ + listing_items(files, order, 0, prefix, uri) + "</ul>"@
}

/// Emit the listing markup for the posts under a path prefix.
fn listing_exec(
    files: &Vec<Post>,
    sort_by: &Option<(MetaKey, bool)>,
    prefix: &str,
    uri: &str,
) -> (r: String)
    requires
        forall|i: int| 0 <= i < files@.len() ==> (#[trigger] files@[i].uri)@.len() > 0,
    ensures
        r@ == listing_html(files@, sort_view(*sort_by), prefix@, uri@),
{
    let order: Vec<usize> = match sort_by {
        Some((k, asc)) => sort_indices_exec(files, k, *asc),
        None => {
            let mut o: Vec<usize> = Vec::new();
            let mut i: usize = 0;
            while i < files.len()
                invariant
                    i <= files@.len(),
                    o@.len() == i,
                    forall|j: int| 0 <= j < i ==> o@[j] == j as usize,
                decreases files@.len() - i,
            {
                o.push(i);
                i = i + 1;
            }
            proof {
                assert(o@ =~= identity_order(files@.len()));
            }
            o
        },
    };
    proof {
        assert(forall|i: int| 0 <= i < order@.len() ==> order@[i] < files@.len()) by {
            if sort_view(*sort_by) is None {
                assert(forall|i: int|
                    0 <= i < order@.len() ==> order@[i] == identity_order(files@.len())[i]);
            }
        }
    }
    let mut r = String::new();
    r.append("<ul>");
    let ghost items0 = listing_items(files@, order@, 0, prefix@, uri@);
    let mut k: usize = 0;
    proof {
        assert(r@ + listing_items(files@, order@, 0, prefix@, uri@) =~= "<ul>"@ + items0);
    }
    while k < order.len()
        invariant
            k <= order@.len(),
            forall|i: int| 0 <= i < order@.len() ==> order@[i] < files@.len(),
            forall|i: int| 0 <= i < files@.len() ==> (#[trigger] files@[i].uri)@.len() > 0,
            r@ + listing_items(files@, order@, k as int, prefix@, uri@) == "<ul>"@ + items0,
            items0 == listing_items(files@, order@, 0, prefix@, uri@),
        decreases order@.len() - k,
    {
        let f = &files[order[k]];
        if is_prefix(prefix, f.path.as_str()) {
            r.append("<li><a href=\"");
            let rel = get_relative_uri(uri, f.uri.as_str());
            r.append(rel.as_str());
            r.append("\">");
            r.append(f.title.as_str());
            r.append("</a></li>");
        }
        k = k + 1;
        proof {
            assert(r@ + listing_items(files@, order@, k as int, prefix@, uri@) =~= "<ul>"@
                + items0);
        }
    }
    r.append("</ul>");
    proof {
        assert(r@ =~= listing_html(files@, sort_view(*sort_by), prefix@, uri@));
    }
    r
}

/// ASCII lowercasing of one character.
pub open spec fn lower_ascii_char(c: char) -> char {
    if 'A' <= c && c <= 'Z' {
        ((c as u32) + 32) as char
    } else {
        c
    }
}

/// ASCII lowercasing of a character sequence.
pub open spec fn ascii_lower(s: Seq<char>) -> Seq<char> {
    Seq::new(s.len(), |i: int| lower_ascii_char(s[i]))
}

/// Lowercase one ASCII character.
fn lower_ascii_char_exec(c: char) -> (r: char)
    ensures
        r == lower_ascii_char(c),
{
    match c {
        'A' => 'a',
        'B' => 'b',
        'C' => 'c',
        'D' => 'd',
        'E' => 'e',
        'F' => 'f',
        'G' => 'g',
        'H' => 'h',
        'I' => 'i',
        'J' => 'j',
        'K' => 'k',
        'L' => 'l',
        'M' => 'm',
        'N' => 'n',
        'O' => 'o',
        'P' => 'p',
        'Q' => 'q',
        'R' => 'r',
        'S' => 's',
        'T' => 't',
        'U' => 'u',
        'V' => 'v',
        'W' => 'w',
        'X' => 'x',
        'Y' => 'y',
        'Z' => 'z',
        _ => {
            proof {
                assert(!('A' <= c && c <= 'Z'));
            }
            c
        },
    }
}

/// The position of the last dot of a name, if any.
pub open spec fn last_dot(s: Seq<char>) -> Option<int>
    decreases s.len(),
{
    if s.len() == 0 {
        None
    } else if s.last() == '.' {
        Some(s.len() - 1)
    } else {
        last_dot(s.drop_last())
    }
}

/// Find the last dot of a name.
fn last_dot_exec(s: &str) -> (r: Option<usize>)
    ensures
        ({
            match r {
                Some(k) => last_dot(s@) == Some(k as int) && k < s@.len(),
                None => last_dot(s@) is None,
            }
        }),
{
    let n = s.unicode_len();
    let mut i: usize = n;
    proof {
        assert(s@.subrange(0, n as int) =~= s@);
    }
    while i > 0
        invariant
            i <= n,
            n == s@.len(),
            last_dot(s@) == last_dot(s@.subrange(0, i as int)),
        decreases i,
    {
        proof {
            assert(s@.subrange(0, i as int).drop_last() =~= s@.subrange(0, i - 1));
        }
        if s.get_char(i - 1) == '.' {
            proof {
                assert(s@.subrange(0, i as int).last() == s@[i - 1]);
            }
            return Some(i - 1);
        }
        i = i - 1;
    }
    proof {
        assert(s@.subrange(0, 0) =~= Seq::<char>::empty());
    }
    None
}

/// The lowercased extension of a path: the part of the file name after its
/// last dot; a name without a dot, or with only a leading one, has none.
pub open spec fn extension_of(p: Seq<char>) -> Option<Seq<char>> {
    let fname = match last_slash(p) {
        Some(k) => p.subrange(k + 1, p.len() as int),
        None => p,
    };
    match last_dot(fname) {
        None => None,
        Some(d) => if d == 0 {
            None
        } else {
            Some(ascii_lower(fname.subrange(d + 1, fname.len() as int)))
        },
    }
}

/// The lowercased extension of a path.
fn extension_exec(p: &str) -> (r: Option<String>)
    ensures
        ({
            match r {
                Some(e) => extension_of(p@) == Some(e@),
                None => extension_of(p@) is None,
            }
        }),
{
    let pn = p.unicode_len();
    let fstart: usize = match crate::utils::last_slash_exec(p) {
        Some(k) => k + 1,
        None => 0,
    };
    let fname = p.substring_char(fstart, pn);
    proof {
        if fstart == 0 && last_slash(p@) is None {
            assert(p@.subrange(0, pn as int) =~= p@);
        }
    }
    let d = match last_dot_exec(fname) {
        Some(d) => d,
        None => {
            return None;
        },
    };
    if d == 0 {
        return None;
    }
    let fn_len = fname.unicode_len();
    let ext = fname.substring_char(d + 1, fn_len);
    let chars = to_chars(ext);
    let mut out = String::new();
    let mut i: usize = 0;
    while i < chars.len()
        invariant
            i <= chars@.len(),
            chars@ == ext@,
            out@ == ascii_lower(ext@).subrange(0, i as int),
        decreases chars@.len() - i,
    {
        push_char(&mut out, lower_ascii_char_exec(chars[i]));
        i = i + 1;
        proof {
            assert(out@ =~= ascii_lower(ext@).subrange(0, i as int));
        }
    }
    proof {
        assert(out@ =~= ascii_lower(ext@));
    }
    Some(out)
}

/// Whether an extension marks a file that is spliced in verbatim.
pub open spec fn is_raw_ext(e: Seq<char>) -> bool {
    e == "html"@ || e == "htm"@ || e == "css"@ || e == "js"@ || e == "svg"@
}

/// Whether a resolved include path is spliced in verbatim: its extension is
/// on the raw allow-list.
pub open spec fn include_is_raw(p: Seq<char>) -> bool {
    match extension_of(p) {
        Some(e) => is_raw_ext(e),
        None => false,
    }
}

/// Whether an include path is spliced in verbatim.
fn include_is_raw_exec(p: &str) -> (r: bool)
    ensures
        r == include_is_raw(p@),
{
    match extension_exec(p) {
        Some(e) => str_eq(e.as_str(), "html") || str_eq(e.as_str(), "htm") || str_eq(
            e.as_str(),
            "css",
        ) || str_eq(e.as_str(), "js") || str_eq(e.as_str(), "svg"),
        None => false,
    }
}

/// First-match lookup of an include path in the provided file contents.
pub open spec fn include_lookup(
    inc: Seq<(String, Option<String>)>,
    p: Seq<char>,
    i: int,
) -> Option<Option<String>>
    decreases inc.len() - i,
{
    if i < 0 || i >= inc.len() {
        None
    } else if inc[i].0@ == p {
        Some(inc[i].1)
    } else {
        include_lookup(inc, p, i + 1)
    }
}

/// What an include directive contributes for a resolved path: the file's
/// content, verbatim for a raw extension and HTML-escaped otherwise; a file
/// that could not be read contributes nothing and the directive is left as
/// literal text.
pub open spec fn include_value(
    inc: Seq<(String, Option<String>)>,
    p: Seq<char>,
) -> Option<Seq<char>> {
    match include_lookup(inc, p, 0) {
        Some(Some(content)) => Some(
            if include_is_raw(p) {
                content@
            } else {
                esc_html(content@)
            },
        ),
        _ => None,
    }
}

/// Evaluate an include directive against the provided file contents.
fn include_value_exec(inc: &Vec<(String, Option<String>)>, p: &str) -> (r: Option<String>)
    ensures
        ({
            match r {
                Some(v) => include_value(inc@, p@) == Some(v@),
                None => include_value(inc@, p@) is None,
            }
        }),
{
    let mut i: usize = 0;
    while i < inc.len()
        invariant
            i <= inc@.len(),
            include_lookup(inc@, p@, 0) == include_lookup(inc@, p@, i as int),
        decreases inc@.len() - i,
    {
        if str_eq(inc[i].0.as_str(), p) {
            match &inc[i].1 {
                Some(content) => {
                    if include_is_raw_exec(p) {
                        return Some(content.clone());
                    }
                    return Some(escape_html(content.as_str()));
                },
                None => {
                    return None;
                },
            }
        }
        i = i + 1;
    }
    None
}

/// What one directive evaluates to, or nothing when the directive is left
/// as literal text.
pub open spec fn rule_value(
    r: RuleView,
    root: Seq<char>,
    post: Post,
    files: Seq<Post>,
    css_files: Seq<String>,
    includes: Seq<(String, Option<String>)>,
) -> Option<Seq<char>> {
    match r {
        RuleView::Contents => Some(rendered_markdown(post.markdown@)),
        RuleView::Css => Some(css_from(css_files, post.uri@, 0)),
        RuleView::Toc { depth } => Some(toc_html(post.toc@, depth)),
        RuleView::Listing { path, sort_by } => Some(
            listing_html(files, sort_by, abs_path_of(root, post.path@, path), post.uri@),
        ),
        RuleView::Meta { key } => Some(
            match meta_value_of(post.meta@, key) {
                Some(v) => v,
                None => Seq::empty(),
            },
        ),
        RuleView::Include { path } => include_value(
            includes,
            abs_path_of(root, post.path@, path),
        ),
    }
}

/// Evaluate one directive.
fn rule_value_exec(
    rule: &PreprocessorRule,
    root: &str,
    post: &Post,
    files: &Vec<Post>,
    css_files: &Vec<String>,
    includes: &Vec<(String, Option<String>)>,
) -> (r: Option<String>)
    requires
        forall|i: int| 0 <= i < css_files@.len() ==> last_slash(#[trigger] css_files@[i]@) is Some,
        forall|i: int| 0 <= i < files@.len() ==> (#[trigger] files@[i].uri)@.len() > 0,
    ensures
        ({
            let v = rule_value(rule_view(*rule), root@, *post, files@, css_files@, includes@);
            match r {
                Some(x) => v == Some(x@),
                None => v is None,
            }
        }),
{
    match rule {
        PreprocessorRule::Contents => Some(render_markdown(post.markdown.as_str())),
        PreprocessorRule::Css => Some(css_links_exec(css_files, post.uri.as_str())),
        PreprocessorRule::Toc { depth } => Some(build_toc(&post.toc, *depth)),
        PreprocessorRule::Listing { path, sort_by } => {
            let abs = get_abs_path(root, post.path.as_str(), path.as_str());
            Some(listing_exec(files, sort_by, abs.as_str(), post.uri.as_str()))
        },
        PreprocessorRule::Meta { key } => {
            match post.meta_get(key.as_str()) {
                Some(v) => Some(v),
                None => Some(String::new()),
            }
        },
        PreprocessorRule::Include { path } => {
            let abs = get_abs_path(root, post.path.as_str(), path.as_str());
            include_value_exec(includes, abs.as_str())
        },
    }
}

/// The template text with the replacements from `k` onward applied, the
/// cursor standing at `cur` of the original text: each directive that
/// evaluates replaces its range, one that does not stays literal text.
pub open spec fn apply_from(
    text: Seq<char>,
    rs: Seq<ReplacementView>,
    k: int,
    cur: int,
    root: Seq<char>,
    post: Post,
    files: Seq<Post>,
    css_files: Seq<String>,
    includes: Seq<(String, Option<String>)>,
) -> Seq<char>
    decreases rs.len() - k,
{
    if k < 0 || k >= rs.len() {
        text.subrange(cur, text.len() as int)
    } else {
        let r = rs[k];
        let piece = match rule_value(r.rule, root, post, files, css_files, includes) {
            Some(v) => text.subrange(cur, r.start) + v,
            None => text.subrange(cur, r.end),
        };
        piece + apply_from(text, rs, k + 1, r.end, root, post, files, css_files, includes)
    }
}

/// The result of applying a whole template to a post.
pub open spec fn applied(
    t: HtmlTemplate,
    root: Seq<char>,
    post: Post,
    files: Seq<Post>,
    css_files: Seq<String>,
    includes: Seq<(String, Option<String>)>,
) -> Seq<char> {
    apply_from(
        t.text@,
        repl_views(t.replacements@),
        0,
        0,
        root,
        post,
        files,
        css_files,
        includes,
    )
}

/// Append a range of the original text to the output.
fn append_range(r: &mut String, text: &Vec<char>, a: usize, b: usize)
    requires
        a <= b <= text@.len(),
    ensures
        final(r)@ == old(r)@ + text@.subrange(a as int, b as int),
{
    let mut i: usize = a;
    while i < b
        invariant
            a <= i <= b <= text@.len(),
            r@ == old(r)@ + text@.subrange(a as int, i as int),
        decreases b - i,
    {
        push_char(r, text[i]);
        i = i + 1;
        proof {
            assert(r@ =~= old(r)@ + text@.subrange(a as int, i as int));
        }
    }
    proof {
        assert(old(r)@ + text@.subrange(a as int, a as int) =~= old(r)@);
    }
}

/// The resolved paths of the include directives from `k` onward, in order.
pub open spec fn include_paths_of(
    rs: Seq<ReplacementView>,
    k: int,
    root: Seq<char>,
    post_path: Seq<char>,
) -> Seq<Seq<char>>
    decreases rs.len() - k,
{
    if k < 0 || k >= rs.len() {
        Seq::empty()
    } else {
        (match rs[k].rule {
            RuleView::Include { path } => seq![abs_path_of(root, post_path, path)],
            _ => Seq::empty(),
        }) + include_paths_of(rs, k + 1, root, post_path)
    }
}

impl HtmlTemplate {
    /// The resolved paths of this template's include directives, in order;
    /// the engine's caller reads these files and hands their contents to
    /// `apply`.
    pub fn include_paths(&self, root: &str, post: &Post) -> (r: Vec<String>)
        ensures
            r@.map_values(|s: String| s@) == include_paths_of(
                repl_views(self.replacements@),
                0,
                root@,
                post.path@,
            ),
    {
        let ghost rs = repl_views(self.replacements@);
        let mut r: Vec<String> = Vec::new();
        let mut k: usize = 0;
        proof {
            assert(r@.map_values(|s: String| s@) + include_paths_of(rs, 0, root@, post.path@)
                =~= include_paths_of(rs, 0, root@, post.path@));
        }
        while k < self.replacements.len()
            invariant
                k <= self.replacements@.len(),
                rs == repl_views(self.replacements@),
                r@.map_values(|s: String| s@) + include_paths_of(rs, k as int, root@, post.path@)
                    == include_paths_of(rs, 0, root@, post.path@),
            decreases self.replacements@.len() - k,
        {
            let ghost pre = r@.map_values(|s: String| s@);
            match &self.replacements[k].rule {
                PreprocessorRule::Include { path } => {
                    let abs = get_abs_path(root, post.path.as_str(), path.as_str());
                    r.push(abs);
                },
                _ => {},
            }
            k = k + 1;
            proof {
                assert(r@.map_values(|s: String| s@) + include_paths_of(
                    rs,
                    k as int,
                    root@,
                    post.path@,
                ) =~= include_paths_of(rs, 0, root@, post.path@));
            }
        }
        proof {
            assert(r@.map_values(|s: String| s@) =~= include_paths_of(rs, 0, root@, post.path@));
        }
        r
    }

    /// Apply this template to a post: every directive is evaluated against
    /// the post, the full post list, the known style sheets and the
    /// provided include file contents, and replaces its range of the
    /// original text; a directive that contributes nothing stays literal
    /// text. Style-sheet URIs must contain a separator and post URIs must
    /// be non-empty.
    pub fn apply(
        &self,
        root: &str,
        post: &Post,
        files: &Vec<Post>,
        css_files: &Vec<String>,
        includes: &Vec<(String, Option<String>)>,
    ) -> (r: String)
        requires
            self.wf(),
            forall|i: int|
                0 <= i < css_files@.len() ==> last_slash(#[trigger] css_files@[i]@) is Some,
            forall|i: int| 0 <= i < files@.len() ==> (#[trigger] files@[i].uri)@.len() > 0,
        ensures
            r@ == applied(*self, root@, *post, files@, css_files@, includes@),
    {
        let ghost rs = repl_views(self.replacements@);
        let mut r = String::new();
        let mut cur: usize = 0;
        let mut k: usize = 0;
        proof {
            assert(r@ + apply_from(
                self.text@,
                rs,
                0,
                0,
                root@,
                *post,
                files@,
                css_files@,
                includes@,
            ) =~= applied(*self, root@, *post, files@, css_files@, includes@));
            assert(rs.skip(0) =~= rs);
        }
        while k < self.replacements.len()
            invariant
                k <= self.replacements@.len(),
                rs == repl_views(self.replacements@),
                repls_wf(rs.skip(k as int), cur as int, self.text@.len() as int),
                cur <= self.text@.len(),
                forall|i: int|
                    0 <= i < css_files@.len() ==> last_slash(#[trigger] css_files@[i]@) is Some,
                forall|i: int| 0 <= i < files@.len() ==> (#[trigger] files@[i].uri)@.len() > 0,
                r@ + apply_from(
                    self.text@,
                    rs,
                    k as int,
                    cur as int,
                    root@,
                    *post,
                    files@,
                    css_files@,
                    includes@,
                ) == applied(*self, root@, *post, files@, css_files@, includes@),
            decreases self.replacements@.len() - k,
        {
            proof {
                assert(rs.skip(k as int)[0] == rs[k as int]);
                assert(rs.skip(k as int).drop_first() =~= rs.skip(k as int + 1));
            }
            let repl = &self.replacements[k];
            let value = rule_value_exec(&repl.rule, root, post, files, css_files, includes);
            match value {
                Some(v) => {
                    append_range(&mut r, &self.text, cur, repl.start);
                    r.append(v.as_str());
                },
                None => {
                    append_range(&mut r, &self.text, cur, repl.end);
                },
            }
            cur = repl.end;
            k = k + 1;
            proof {
                assert(r@ + apply_from(
                    self.text@,
                    rs,
                    k as int,
                    cur as int,
                    root@,
                    *post,
                    files@,
                    css_files@,
                    includes@,
                ) =~= applied(*self, root@, *post, files@, css_files@, includes@));
            }
        }
        append_range(&mut r, &self.text, cur, self.text.len());
        proof {
            assert(r@ =~= applied(*self, root@, *post, files@, css_files@, includes@));
        }
        r
    }
}

/// Template substitution is repeatable: the replacement ranges index the
/// original template text, so applying a parsed template to the same post
/// twice, with the same surroundings, yields byte-identical output.
pub proof fn lemma_apply_repeatable(
    t: HtmlTemplate,
    root: Seq<char>,
    post: Post,
    files: Seq<Post>,
    css_files: Seq<String>,
    includes: Seq<(String, Option<String>)>,
    r1: Seq<char>,
    r2: Seq<char>,
)
    requires
        r1 == applied(t, root, post, files, css_files, includes),
        r2 == applied(t, root, post, files, css_files, includes),
    ensures
        r1 == r2,
{
}

} // verus!
