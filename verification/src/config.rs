//! Program defaults and the run configuration.

use crate::template::HtmlTemplate;
use vstd::prelude::*;

verus! {

/// Name of the source directory under the root.
pub const SOURCE_PATH: &'static str = "content";

/// Name of the destination directory under the root.
pub const TARGET_PATH: &'static str = "dist";

/// Language label of the fenced code block holding a post's metadata.
pub const SOURCE_META_KEY: &'static str = "meta";

/// Date format of metadata date values, year-month-day.
pub const DATE_FMT: &'static str = "%F";

/// Metadata key of a post's title.
pub const META_KEY_TITLE: &'static str = "title";

/// Metadata key of a post's creation date.
pub const META_KEY_CREATION_DATE: &'static str = "date";

/// Metadata key of a post's last-modified date.
pub const META_KEY_MODIFIED_DATE: &'static str = "updated";

/// Metadata key of a post's category.
pub const META_KEY_CATEGORY: &'static str = "category";

/// Metadata key of a post's tags.
pub const META_KEY_TAGS: &'static str = "tags";

/// Metadata key of a post's template path.
pub const META_KEY_TEMPLATE: &'static str = "template";

/// Separator between a metadata key and its value.
pub const META_VALUE_SEPARATOR: &'static str = "=";

/// Separator between tags in the tags metadata value.
pub const META_TAG_SEPARATOR: &'static str = ",";

/// The opening marker of a template directive.
pub const TEMPLATE_OPEN_MARKER: &'static str = "<!--P/";

/// The closing marker of a template directive.
pub const TEMPLATE_CLOSE_MARKER: &'static str = "/P-->";

/// Extension of markdown source files.
pub const SOURCE_FILE_EXT: &'static str = "md";

/// Extension of generated pages.
pub const DIST_FILE_EXT: &'static str = "html";

/// Extension of style sheets.
pub const STYLE_FILE_EXT: &'static str = "css";

/// Extension of feed files.
pub const FEED_FILE_EXT: &'static str = "atom";

/// Content type of feed entries.
pub const FEED_CONTENT_TYPE: &'static str = "html";

/// Relation name of a feed's self link.
pub const FEED_REL: &'static str = "self";

/// Media type of a feed's self link.
pub const FEED_TYPE: &'static str = "application/atom+xml";

/// The configuration of one generation run.
pub struct Config {
    /// Root directory the run works under.
    pub root: String,
    /// The default page template.
    pub template: HtmlTemplate,
    /// Extension given to generated pages.
    pub dist_ext: String,
    /// Extension of the feed files to fill.
    pub feed_ext: String,
}

} // verus!
