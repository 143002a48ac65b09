//! The output of the builder: ordered, numbered chapter nodes, their
//! mathematical view, and the error a build can end with.

use vstd::prelude::*;

verus! {

/// One entry of the produced table of contents.
#[derive(Debug, PartialEq)]
pub struct ChapterNode {
    /// Title shown in the table of contents.
    pub display_name: String,
    /// Path (components relative to the scanned root) of the document whose
    /// content backs this chapter; `None` only for a directory chapter whose
    /// missing index document is tolerated.
    pub content_path: Option<Vec<String>>,
    /// Nested chapters, in order; empty for file-backed chapters.
    pub children: Vec<ChapterNode>,
    /// The dotted section number, one 1-based position per tree level.
    pub number: Vec<u32>,
}

/// Mathematical image of a [`ChapterNode`].
pub struct ChapterV {
    pub display_name: Seq<char>,
    pub content_path: Option<Seq<Seq<char>>>,
    pub children: Seq<ChapterV>,
    pub number: Seq<u32>,
}

/// The view of one chapter node.
pub open spec fn chap_view(c: ChapterNode) -> ChapterV
    decreases c,
{
    ChapterV {
        display_name: c.display_name@,
        content_path: match c.content_path {
            Some(p) => Some(p.deep_view()),
            None => None,
        },
        children: chap_views(c.children@),
        number: c.number@,
    }
}

/// The views of a sequence of chapter nodes.
pub open spec fn chap_views(s: Seq<ChapterNode>) -> Seq<ChapterV>
    decreases s,
{
    if s.len() == 0 {
        Seq::empty()
    } else {
        seq![chap_view(s[0])] + chap_views(s.drop_first())
    }
}

/// Appending a node extends the sequence of views by its view.
pub proof fn lemma_chap_views_push(s: Seq<ChapterNode>, c: ChapterNode)
    ensures
        chap_views(s.push(c)) == chap_views(s) + seq![chap_view(c)],
    decreases s,
{
    if s.len() == 0 {
        assert(s.push(c).drop_first() =~= s);
        assert(chap_views(s.push(c)) =~= chap_views(s) + seq![chap_view(c)]);
    } else {
        assert(s.push(c).drop_first() =~= s.drop_first().push(c));
        lemma_chap_views_push(s.drop_first(), c);
        assert(chap_views(s.push(c)) =~= chap_views(s) + seq![chap_view(c)]);
    }
}

/// Why a build failed. A failure aborts the whole build: an incomplete table
/// of contents is worse than none.
#[derive(Debug, PartialEq)]
pub enum BuildError {
    /// A directory chapter has no index document and neither stub creation
    /// nor tolerance is configured; the path names the document that was
    /// expected to exist.
    MissingIndexDocument { path: Vec<String> },
}

/// Everything a successful build produces.
#[derive(Debug, PartialEq)]
pub struct BuildOutput {
    /// The top-level chapters, each with its nested subtree.
    pub chapters: Vec<ChapterNode>,
    /// Paths (components relative to the scanned root) of the stub index
    /// documents the host should create, in traversal order; empty unless
    /// stub creation is configured.
    pub stubs: Vec<Vec<String>>,
}

} // verus!
