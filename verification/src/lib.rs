//! Builds a hierarchical table of contents (a chapter tree) for a
//! documentation book from an in-memory snapshot of a directory tree.
//!
//! The host reads the real filesystem into an [`Entry`] tree, hands it to
//! [`GenerateSummary::build`] together with a [`Config`], and receives back
//! the ordered, numbered chapters plus the list of stub index documents that
//! it should create on disk (only when stub creation is configured).

use vstd::prelude::*;

pub mod config;
pub mod text;
pub mod tree;
pub mod chapter;
pub mod plan;
pub mod builder;
pub mod laws;
pub mod idempotence;

use crate::builder::generate_chapters;
use crate::chapter::{chap_views, BuildError, BuildOutput, ChapterV};
use crate::config::Config;
use crate::plan::{build_dir, PathV};
use crate::tree::{counts_fit, Entry};

verus! {

/// Handle for the chapter-tree builder.
#[derive(Debug, Default)]
pub struct GenerateSummary;

impl GenerateSummary {
    /// Creates a builder.
    pub fn new() -> (r: GenerateSummary) {
        GenerateSummary
    }

    /// The name under which the host knows this preprocessing step.
    pub fn name(&self) -> (r: &'static str)
        ensures
            r@ == "generate-summary"@,
    {
        "generate-summary"
    }

    /// Builds the chapter tree for a scanned root directory: the ordered,
    /// numbered top-level chapters with their subtrees, together with the
    /// stub index documents the host should create — or the first
    /// missing-index failure in traversal order.
    pub fn build(&self, entries: Vec<Entry>, config: &Config) -> (r: Result<
        BuildOutput,
        BuildError,
    >)
        requires
            counts_fit(entries@),
        ensures
            build_dir(entries@, Seq::empty(), Seq::empty(), true, *config) == (match r {
                Ok(out) => Ok::<(Seq<ChapterV>, Seq<PathV>), PathV>(
                    (chap_views(out.chapters@), out.stubs.deep_view()),
                ),
                Err(BuildError::MissingIndexDocument { path }) => Err::<
                    (Seq<ChapterV>, Seq<PathV>),
                    PathV,
                >(path.deep_view()),
            }),
    {
        let dir_path: Vec<String> = Vec::new();
        let prefix: Vec<u32> = Vec::new();
        proof {
            assert(dir_path.deep_view() =~= Seq::<Seq<char>>::empty());
            assert(prefix@ =~= Seq::<u32>::empty());
        }
        match generate_chapters(entries, &dir_path, &prefix, true, config) {
            Ok((chapters, stubs)) => Ok(BuildOutput { chapters, stubs }),
            Err(e) => Err(e),
        }
    }

    /// Every renderer except the one literally called "not-supported" is accepted.
    pub fn supports_renderer(&self, renderer: &str) -> (r: bool)
        ensures
            r == (renderer@ != "not-supported"@),
    {
        let this = renderer.to_owned();
        let that = ("not-supported").to_owned();
        !(this == that)
    }
}

} // verus!
