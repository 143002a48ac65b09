//! The mathematical model of a build: which entries become chapters, in what
//! order, with which numbers, content paths, titles and stub documents. The
//! executable builder is specified against, and the stated laws proved of,
//! the functions here.

use vstd::prelude::*;
use vstd::seq_lib::*;

use crate::chapter::ChapterV;
use crate::config::Config;
use crate::text::{is_markdown, lex_le, stem_of, title_for};
use crate::tree::{
    entries_height, entry_height, entry_name, lemma_elem_height, lemma_height_all_in, Entry,
};

verus! {

/// A path as a sequence of filename components, relative to the scanned root.
pub type PathV = Seq<Seq<char>>;

/// What a directory scan keeps: subdirectories and documents with the
/// configured extension; everything else is discarded silently.
pub open spec fn relevant(e: Entry) -> bool {
    e is Dir || is_markdown(entry_name(e))
}

/// [`relevant`] as a filter predicate.
pub open spec fn relevant_pred() -> spec_fn(Entry) -> bool {
    |e: Entry| relevant(e)
}

/// The relevant entries of a listing, in their given order.
pub open spec fn relevant_of(s: Seq<Entry>) -> Seq<Entry> {
    s.filter(relevant_pred())
}

/// The per-directory exclusions: at the root, nothing whose stem is the
/// reserved summary name (a previously generated table of contents is never
/// re-ingested); anywhere, no file whose stem is the index base name (such a
/// file is a directory's own content, never a sibling chapter).
pub open spec fn keep(e: Entry, is_root: bool, cfg: Config) -> bool {
    &&& !(is_root && stem_of(entry_name(e)) == "SUMMARY"@)
    &&& (e is Dir || stem_of(entry_name(e)) != cfg.index_base_name@)
}

/// [`keep`] as a filter predicate.
pub open spec fn keep_pred(is_root: bool, cfg: Config) -> spec_fn(Entry) -> bool {
    |e: Entry| keep(e, is_root, cfg)
}

/// The entries of a listing that survive the exclusions.
pub open spec fn kept_of(s: Seq<Entry>, is_root: bool, cfg: Config) -> Seq<Entry> {
    s.filter(keep_pred(is_root, cfg))
}

/// Stable insertion into a name-sorted listing.
pub open spec fn insert_sorted(e: Entry, s: Seq<Entry>) -> Seq<Entry>
    decreases s.len(),
{
    if s.len() == 0 {
        seq![e]
    } else if lex_le(entry_name(e), entry_name(s[0])) {
        seq![e] + s
    } else {
        seq![s[0]] + insert_sorted(e, s.drop_first())
    }
}

/// Stable insertion sort of a listing by filename, the deterministic order
/// chapters are numbered in.
pub open spec fn sort_entries(s: Seq<Entry>) -> Seq<Entry>
    decreases s.len(),
{
    if s.len() == 0 {
        s
    } else {
        insert_sorted(s[0], sort_entries(s.drop_first()))
    }
}

/// The chapter-bearing entries of one directory, in chapter order: scan,
/// sort by filename, then apply the exclusions.
pub open spec fn prepared(s: Seq<Entry>, is_root: bool, cfg: Config) -> Seq<Entry> {
    kept_of(sort_entries(relevant_of(s)), is_root, cfg)
}

pub proof fn lemma_insert_sorted_props(e: Entry, s: Seq<Entry>)
    ensures
        insert_sorted(e, s).len() == s.len() + 1,
        forall|x: Entry| #[trigger] insert_sorted(e, s).contains(x) <==> (x == e || s.contains(
            x,
        )),
    decreases s.len(),
{
    broadcast use vstd::seq_lib::group_seq_properties;

    if s.len() == 0 {
        assert forall|x: Entry| #[trigger] insert_sorted(e, s).contains(x) implies (x == e
            || s.contains(x)) by {
            let i = choose|i: int| 0 <= i < insert_sorted(e, s).len() && insert_sorted(e, s)[i]
                == x;
        }
        assert(insert_sorted(e, s)[0] == e);
    } else if lex_le(entry_name(e), entry_name(s[0])) {
        let r = seq![e] + s;
        assert forall|x: Entry| #[trigger] r.contains(x) implies (x == e || s.contains(x)) by {
            let i = choose|i: int| 0 <= i < r.len() && r[i] == x;
            if i > 0 {
                assert(s[i - 1] == x);
            }
        }
        assert forall|x: Entry| (x == e || s.contains(x)) implies #[trigger] r.contains(x) by {
            if x == e {
                assert(r[0] == x);
            } else {
                let i = choose|i: int| 0 <= i < s.len() && s[i] == x;
                assert(r[i + 1] == x);
            }
        }
    } else {
        lemma_insert_sorted_props(e, s.drop_first());
        let t = insert_sorted(e, s.drop_first());
        let r = seq![s[0]] + t;
        assert forall|x: Entry| #[trigger] r.contains(x) implies (x == e || s.contains(x)) by {
            let i = choose|i: int| 0 <= i < r.len() && r[i] == x;
            if i == 0 {
                assert(s[0] == x);
            } else {
                assert(t[i - 1] == x);
                assert(t.contains(x));
                if x != e {
                    let j = choose|j: int| 0 <= j < s.drop_first().len() && s.drop_first()[j]
                        == x;
                    assert(s[j + 1] == x);
                }
            }
        }
        assert forall|x: Entry| (x == e || s.contains(x)) implies #[trigger] r.contains(x) by {
            if x == e || s.drop_first().contains(x) {
                assert(t.contains(x));
                let i = choose|i: int| 0 <= i < t.len() && t[i] == x;
                assert(r[i + 1] == x);
            } else {
                let i = choose|i: int| 0 <= i < s.len() && s[i] == x;
                if i == 0 {
                    assert(r[0] == x);
                } else {
                    assert(s.drop_first()[i - 1] == x);
                }
            }
        }
    }
}

pub proof fn lemma_sort_entries_props(s: Seq<Entry>)
    ensures
        sort_entries(s).len() == s.len(),
        forall|x: Entry| #[trigger] sort_entries(s).contains(x) <==> s.contains(x),
    decreases s.len(),
{
    broadcast use vstd::seq_lib::group_seq_properties;

    if s.len() > 0 {
        lemma_sort_entries_props(s.drop_first());
        lemma_insert_sorted_props(s[0], sort_entries(s.drop_first()));
        assert forall|x: Entry| s.contains(x) implies #[trigger] sort_entries(s).contains(x) by {
            let i = choose|i: int| 0 <= i < s.len() && s[i] == x;
            if i > 0 {
                assert(s.drop_first()[i - 1] == x);
            }
        }
        assert forall|x: Entry| #[trigger] sort_entries(s).contains(x) implies s.contains(x) by {
            if x != s[0] {
                assert(s.drop_first().contains(x));
                let i = choose|i: int| 0 <= i < s.drop_first().len() && s.drop_first()[i] == x;
                assert(s[i + 1] == x);
            } else {
                assert(s[0] == x);
            }
        }
    }
}

/// Every prepared entry comes from the scanned listing itself.
pub proof fn lemma_prepared_in(s: Seq<Entry>, is_root: bool, cfg: Config)
    ensures
        forall|j: int| 0 <= j < prepared(s, is_root, cfg).len() ==> s.contains(
            #[trigger] prepared(s, is_root, cfg)[j],
        ),
{
    let rel = relevant_of(s);
    let sorted = sort_entries(rel);
    let kept = kept_of(sorted, is_root, cfg);
    lemma_sort_entries_props(rel);
    assert forall|j: int| 0 <= j < kept.len() implies s.contains(#[trigger] kept[j]) by {
        kept.lemma_index_contains(j);
        sorted.lemma_filter_contains_rev(keep_pred(is_root, cfg), kept[j]);
        s.lemma_filter_contains_rev(relevant_pred(), kept[j]);
    }
}

/// Scanning, sorting and excluding never grow a listing and never raise its
/// height: the termination backbone of the build recursion.
pub proof fn lemma_prepared_bounds(s: Seq<Entry>, is_root: bool, cfg: Config)
    ensures
        prepared(s, is_root, cfg).len() <= s.len(),
        entries_height(prepared(s, is_root, cfg)) <= entries_height(s),
{
    broadcast use vstd::seq_lib::group_seq_properties;

    let rel = relevant_of(s);
    let sorted = sort_entries(rel);
    let kept = kept_of(sorted, is_root, cfg);
    s.lemma_filter_len(relevant_pred());
    lemma_sort_entries_props(rel);
    sorted.lemma_filter_len(keep_pred(is_root, cfg));
    lemma_prepared_in(s, is_root, cfg);
    lemma_height_all_in(kept, s);
}

/// The filename of a directory's index document.
pub open spec fn index_file_of(cfg: Config) -> Seq<char> {
    cfg.index_base_name@ + ".md"@
}

/// The single heading line a created stub index document consists of.
pub open spec fn stub_line_of(cfg: Config) -> Seq<char> {
    "# "@ + cfg.index_base_name@ + ".md"@
}

/// The first line of the first file called `name` in a listing, if any.
pub open spec fn find_file_line(s: Seq<Entry>, name: Seq<char>) -> Option<Seq<char>>
    decreases s.len(),
{
    if s.len() == 0 {
        None
    } else {
        match s[0] {
            Entry::File { name: n, first_line } => if n@ == name {
                Some(first_line@)
            } else {
                find_file_line(s.drop_first(), name)
            },
            Entry::Dir { .. } => find_file_line(s.drop_first(), name),
        }
    }
}

/// The chapter a single prepared entry becomes, together with the stub
/// documents its subtree asks for, or the index-document path the build
/// fails over.
///
/// A file is its own content and never has children. A directory resolves
/// its index document first — found, created as a stub, tolerated as absent,
/// or fatal, in that policy order — and then numbers its own entries
/// recursively beneath its section number.
pub open spec fn node_plan(e: Entry, dir_path: PathV, number: Seq<u32>, cfg: Config) -> Result<
    (ChapterV, Seq<PathV>),
    PathV,
>
    decreases entry_height(e), 0nat, 0nat,
    via check_node_plan
{
    match e {
        Entry::File { name, first_line } => Ok(
            (
                ChapterV {
                    display_name: title_for(
                        Some(first_line@),
                        stem_of(name@),
                        cfg.derive_title_from_heading,
                    ),
                    content_path: Some(dir_path.push(name@)),
                    children: Seq::empty(),
                    number,
                },
                Seq::empty(),
            ),
        ),
        Entry::Dir { name, entries } => {
            let ipath = dir_path.push(name@).push(index_file_of(cfg));
            let found = find_file_line(entries@, index_file_of(cfg));
            if found is None && !cfg.create_missing_index && !cfg.ignore_missing_index {
                Err(ipath)
            } else {
                match build_nodes(
                    prepared(entries@, false, cfg),
                    0,
                    dir_path.push(name@),
                    number,
                    cfg,
                ) {
                    Err(p) => Err(p),
                    Ok((children, child_stubs)) => {
                        let line = if found is Some {
                            found
                        } else if cfg.create_missing_index {
                            Some(stub_line_of(cfg))
                        } else {
                            None
                        };
                        let content = if found is Some || cfg.create_missing_index {
                            Some(ipath)
                        } else {
                            None
                        };
                        let own_stubs: Seq<PathV> = if found is None
                            && cfg.create_missing_index {
                            seq![ipath]
                        } else {
                            Seq::empty()
                        };
                        Ok(
                            (
                                ChapterV {
                                    display_name: title_for(
                                        line,
                                        stem_of(name@),
                                        cfg.derive_title_from_heading,
                                    ),
                                    content_path: content,
                                    children,
                                    number,
                                },
                                own_stubs + child_stubs,
                            ),
                        )
                    },
                }
            }
        },
    }
}

/// The chapters and stub requests of the prepared entries from position `i`
/// on, numbered `prefix + [i+1]`, `prefix + [i+2]`, ... — or the first
/// failure, in traversal order.
pub open spec fn build_nodes(
    kept: Seq<Entry>,
    i: int,
    dir_path: PathV,
    prefix: Seq<u32>,
    cfg: Config,
) -> Result<(Seq<ChapterV>, Seq<PathV>), PathV>
    decreases entries_height(kept), 1nat, kept.len() - i,
    via check_build_nodes
{
    if i < 0 || i >= kept.len() {
        Ok((Seq::empty(), Seq::empty()))
    } else {
        match node_plan(kept[i], dir_path, prefix.push((i + 1) as u32), cfg) {
            Err(p) => Err(p),
            Ok((node, stubs)) => match build_nodes(kept, i + 1, dir_path, prefix, cfg) {
                Err(p) => Err(p),
                Ok((nodes, more)) => Ok((seq![node] + nodes, stubs + more)),
            },
        }
    }
}

#[via_fn]
proof fn check_node_plan(e: Entry, dir_path: PathV, number: Seq<u32>, cfg: Config) {
    match e {
        Entry::File { .. } => {},
        Entry::Dir { name, entries } => {
            lemma_prepared_bounds(entries@, false, cfg);
        },
    }
}

#[via_fn]
proof fn check_build_nodes(kept: Seq<Entry>, i: int, dir_path: PathV, prefix: Seq<u32>, cfg: Config) {
    if 0 <= i < kept.len() {
        lemma_elem_height(kept, i);
    }
}

/// The whole plan for one directory: what its listing's chapters are, what
/// stubs they ask for, or why the build fails. The root call uses an empty
/// path, an empty number prefix and `is_root` set.
pub open spec fn build_dir(
    entries: Seq<Entry>,
    dir_path: PathV,
    prefix: Seq<u32>,
    is_root: bool,
    cfg: Config,
) -> Result<(Seq<ChapterV>, Seq<PathV>), PathV> {
    build_nodes(prepared(entries, is_root, cfg), 0, dir_path, prefix, cfg)
}

} // verus!
