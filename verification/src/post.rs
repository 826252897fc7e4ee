//! The post record the engine consumes: a markdown body with its metadata
//! already extracted by the loader.

use crate::strutil::str_eq;
use vstd::prelude::*;

verus! {

/// A calendar date as plain values.
#[derive(Debug, Clone, Copy, PartialEq, Eq, Structural)]
pub struct Date {
    pub year: i32,
    pub month: u8,
    pub day: u8,
}

/// Date order: by year, then month, then day.
pub open spec fn date_cmp(a: Date, b: Date) -> int {
    if a.year < b.year {
        -1
    } else if a.year > b.year {
        1
    } else if a.month < b.month {
        -1
    } else if a.month > b.month {
        1
    } else if a.day < b.day {
        -1
    } else if a.day > b.day {
        1
    } else {
        0
    }
}

/// Compare two dates.
pub fn date_cmp_exec(a: &Date, b: &Date) -> (r: i8)
    ensures
        r as int == date_cmp(*a, *b),
{
    if a.year < b.year {
        -1
    } else if a.year > b.year {
        1
    } else if a.month < b.month {
        -1
    } else if a.month > b.month {
        1
    } else if a.day < b.day {
        -1
    } else if a.day > b.day {
        1
    } else {
        0
    }
}

/// A markdown post with its metadata, produced by the loader and consumed
/// by the template engine.
#[derive(Debug)]
pub struct Post {
    /// Source file path.
    pub path: String,
    /// Markdown content with the metadata removed.
    pub markdown: String,
    /// Metadata key-value pairs extracted from the file.
    pub meta: Vec<(String, String)>,
    /// The post's title.
    pub title: String,
    /// The post's creation date.
    pub date: Date,
    /// The post's last-modified date.
    pub updated: Date,
    /// The post's category.
    pub category: String,
    /// The post's tags.
    pub tags: Vec<String>,
    /// The post's template path.
    pub template: Option<String>,
    /// The post's absolute URI within the site root.
    pub uri: String,
    /// Headings that make up the table of contents, with their depths.
    pub toc: Vec<(String, u8)>,
}

/// First-match lookup in a metadata list, from position `i`.
pub open spec fn meta_lookup_from(
    meta: Seq<(String, String)>,
    key: Seq<char>,
    i: int,
) -> Option<Seq<char>>
    decreases meta.len() - i,
{
    if i < 0 || i >= meta.len() {
        None
    } else if meta[i].0@ == key {
        Some(meta[i].1@)
    } else {
        meta_lookup_from(meta, key, i + 1)
    }
}

/// The value stored under a metadata key, if any.
pub open spec fn meta_value_of(meta: Seq<(String, String)>, key: Seq<char>) -> Option<Seq<char>> {
    meta_lookup_from(meta, key, 0)
}

impl Post {
    /// Look a metadata key up.
    pub fn meta_get(&self, key: &str) -> (r: Option<String>)
        ensures
            ({
                match r {
                    Some(v) => meta_value_of(self.meta@, key@) == Some(v@),
                    None => meta_value_of(self.meta@, key@) is None,
                }
            }),
    {
        let mut i: usize = 0;
        while i < self.meta.len()
            invariant
                i <= self.meta@.len(),
                meta_lookup_from(self.meta@, key@, 0) == meta_lookup_from(self.meta@, key@, i as int),
            decreases self.meta@.len() - i,
        {
            if str_eq(self.meta[i].0.as_str(), key) {
                return Some(self.meta[i].1.clone());
            }
            i = i + 1;
        }
        None
    }
}

} // verus!
