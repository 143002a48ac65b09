//! General properties of the build, stated and proved against the model in
//! [`crate::plan`].

use vstd::prelude::*;
use vstd::seq_lib::*;

use crate::chapter::ChapterV;
use crate::config::Config;
use crate::plan::{
    build_dir, build_nodes, keep_pred, node_plan, prepared, relevant_of, relevant_pred,
    sort_entries, PathV,
};
use crate::text::{is_markdown, stem_of};
use crate::tree::{entries_height, entry_height, entry_name, lemma_elem_height, Entry};

verus! {

/// The chapters of a successful build correspond one to one, in order, to
/// the prepared entries: the suffix from position `i` yields one chapter per
/// entry, and the chapter at offset `j` is numbered `prefix + [i+j+1]`.
pub proof fn lemma_build_nodes_shape(kept: Seq<Entry>, i: int, dp: PathV, pf: Seq<u32>, cfg: Config)
    requires
        0 <= i <= kept.len(),
    ensures
        match build_nodes(kept, i, dp, pf, cfg) {
            Ok(out) => out.0.len() == kept.len() - i && forall|j: int|
                0 <= j < out.0.len() ==> (#[trigger] out.0[j]).number == pf.push(
                    (i + j + 1) as u32,
                ),
            Err(_) => true,
        },
    decreases kept.len() - i,
{
    if i < kept.len() {
        lemma_build_nodes_shape(kept, i + 1, dp, pf, cfg);
        let num = pf.push((i + 1) as u32);
        match kept[i] {
            Entry::File { .. } => {},
            Entry::Dir { .. } => {},
        }
        assert(match node_plan(kept[i], dp, num, cfg) {
            Ok(p) => p.0.number == num,
            Err(_) => true,
        });
    }
}

/// Sibling numbering: a successful build yields exactly one chapter per
/// prepared entry, numbered `prefix+[1] .. prefix+[N]` in order — contiguous
/// 1-based positions, no gaps, no repeats.
pub proof fn lemma_sibling_numbers(
    entries: Seq<Entry>,
    dp: PathV,
    pf: Seq<u32>,
    is_root: bool,
    cfg: Config,
)
    ensures
        match build_dir(entries, dp, pf, is_root, cfg) {
            Ok(out) => out.0.len() == prepared(entries, is_root, cfg).len() && forall|j: int|
                0 <= j < out.0.len() ==> (#[trigger] out.0[j]).number == pf.push((j + 1) as u32),
            Err(_) => true,
        },
{
    lemma_build_nodes_shape(prepared(entries, is_root, cfg), 0, dp, pf, cfg);
}

/// A directory that contains only files without the document extension
/// yields an empty chapter sequence and no stubs — not an error.
pub proof fn lemma_nonmatching_yields_empty(
    entries: Seq<Entry>,
    dp: PathV,
    pf: Seq<u32>,
    is_root: bool,
    cfg: Config,
)
    requires
        forall|i: int| 0 <= i < entries.len() ==> (#[trigger] entries[i]) is File && !is_markdown(
            entry_name(entries[i]),
        ),
    ensures
        build_dir(entries, dp, pf, is_root, cfg) == Ok::<(Seq<ChapterV>, Seq<PathV>), PathV>(
            (Seq::empty(), Seq::empty()),
        ),
{
    let rel = relevant_of(entries);
    if rel.len() > 0 {
        entries.lemma_filter_pred(relevant_pred(), 0);
        rel.lemma_index_contains(0);
        entries.lemma_filter_contains_rev(relevant_pred(), rel[0]);
        let k = choose|k: int| 0 <= k < entries.len() && entries[k] == rel[0];
        assert(entries[k] is File && !is_markdown(entry_name(entries[k])));
        assert(false);
    }
    assert(rel =~= Seq::<Entry>::empty());
    assert(sort_entries(rel) =~= Seq::<Entry>::empty());
    assert(prepared(entries, is_root, cfg) =~= Seq::<Entry>::empty());
}

/// A file whose stem is the index base name — a directory's own content
/// document — never appears among the prepared entries of its directory, so
/// (with the numbering correspondence) it is never a sibling chapter.
pub proof fn lemma_index_file_never_sibling(entries: Seq<Entry>, is_root: bool, cfg: Config)
    ensures
        forall|j: int| 0 <= j < prepared(entries, is_root, cfg).len() ==> !(
        (#[trigger] prepared(entries, is_root, cfg)[j]) is File && stem_of(
            entry_name(prepared(entries, is_root, cfg)[j]),
        ) == cfg.index_base_name@),
{
    let sorted = sort_entries(relevant_of(entries));
    assert forall|j: int| 0 <= j < prepared(entries, is_root, cfg).len() implies !(
    (#[trigger] prepared(entries, is_root, cfg)[j]) is File && stem_of(
        entry_name(prepared(entries, is_root, cfg)[j]),
    ) == cfg.index_base_name@) by {
        sorted.lemma_filter_pred(keep_pred(is_root, cfg), j);
    }
}

/// Idempotence against an unchanged snapshot: the planned build is a
/// function of the snapshot and the configuration alone, so two runs over
/// the same snapshot produce structurally identical trees and stub lists.
pub proof fn lemma_build_deterministic(
    entries: Seq<Entry>,
    dp: PathV,
    pf: Seq<u32>,
    is_root: bool,
    cfg: Config,
    r1: Result<(Seq<ChapterV>, Seq<PathV>), PathV>,
    r2: Result<(Seq<ChapterV>, Seq<PathV>), PathV>,
)
    requires
        r1 == build_dir(entries, dp, pf, is_root, cfg),
        r2 == build_dir(entries, dp, pf, is_root, cfg),
    ensures
        r1 == r2,
{
}

proof fn lemma_create_nodes_ok(kept: Seq<Entry>, i: int, dp: PathV, pf: Seq<u32>, cfg: Config)
    requires
        cfg.create_missing_index,
        0 <= i <= kept.len(),
    ensures
        build_nodes(kept, i, dp, pf, cfg) is Ok,
    decreases entries_height(kept), kept.len() - i,
{
    if i < kept.len() {
        let num = pf.push((i + 1) as u32);
        match kept[i] {
            Entry::File { .. } => {},
            Entry::Dir { name, entries } => {
                let sub = prepared(entries@, false, cfg);
                crate::plan::lemma_prepared_bounds(entries@, false, cfg);
                lemma_elem_height(kept, i);
                assert(entry_height(kept[i]) == 1 + entries_height(entries@));
                lemma_create_nodes_ok(sub, 0, dp.push(name@), num, cfg);
            },
        }
        assert(node_plan(kept[i], dp, num, cfg) is Ok);
        lemma_create_nodes_ok(kept, i + 1, dp, pf, cfg);
    }
}

/// With stub creation enabled, a missing index document is never fatal: the
/// build succeeds on every snapshot.
pub proof fn lemma_create_never_fails(
    entries: Seq<Entry>,
    dp: PathV,
    pf: Seq<u32>,
    is_root: bool,
    cfg: Config,
)
    requires
        cfg.create_missing_index,
    ensures
        build_dir(entries, dp, pf, is_root, cfg) is Ok,
{
    lemma_create_nodes_ok(prepared(entries, is_root, cfg), 0, dp, pf, cfg);
}

} // verus!
