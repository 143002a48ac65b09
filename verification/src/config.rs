//! The configuration record that steers chapter generation.

use vstd::prelude::*;

verus! {

/// Options recognised by the chapter-tree builder. Read once per run and
/// immutable while the tree is built.
pub struct Config {
    /// When true, a chapter's display title is taken from the first line of
    /// its content document if that line is a heading (`"# "` plus text);
    /// otherwise the filename stem is used.
    pub derive_title_from_heading: bool,
    /// Filename stem (without extension) of the document that supplies a
    /// directory chapter's own content.
    pub index_base_name: String,
    /// When the index document of a directory is missing, create a stub
    /// instead of treating the directory as faulty.
    pub create_missing_index: bool,
    /// When the index document is missing and stub creation is off, tolerate
    /// it by producing a content-less directory node instead of failing.
    pub ignore_missing_index: bool,
}

impl Default for Config {
    /// Defaults: strict missing-index policy, titles from filename stems,
    /// index documents named `README`.
    fn default() -> (r: Config)
        ensures
            !r.derive_title_from_heading,
            r.index_base_name@ == "README"@,
            !r.create_missing_index,
            !r.ignore_missing_index,
    {
        Config {
            derive_title_from_heading: false,
            index_base_name: ("README").to_owned(),
            create_missing_index: false,
            ignore_missing_index: false,
        }
    }
}

} // verus!
