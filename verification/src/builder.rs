//! The executable chapter-tree builder, verified against the model in
//! [`crate::plan`].

use vstd::prelude::*;
use vstd::seq_lib::*;

use crate::chapter::{
    chap_view, chap_views, lemma_chap_views_push, BuildError, ChapterNode, ChapterV,
};
use crate::config::Config;
use crate::plan::{
    build_dir, build_nodes, find_file_line, index_file_of, insert_sorted, keep, keep_pred,
    kept_of, lemma_prepared_bounds, lemma_prepared_in, node_plan, prepared, relevant,
    relevant_of, relevant_pred, sort_entries, stub_line_of, PathV,
};
use crate::text::{lex_le, markdown_file, name_for, stem_of_str, str_le};
use crate::tree::{
    counts_fit, entries_height, entry_height, entry_name, lemma_elem_height, Entry,
};

verus! {

/// Keeps the subdirectories and the documents with the configured extension
/// of one scanned listing, in their given order; everything else is
/// discarded silently.
pub fn filter_entries(entries: Vec<Entry>) -> (r: Vec<Entry>)
    ensures
        r@ == relevant_of(entries@),
{
    broadcast use vstd::seq_lib::group_seq_properties;

    let ghost orig = entries@;
    let mut input = entries;
    let mut out: Vec<Entry> = Vec::new();
    let ghost mut i: int = 0;
    proof {
        assert(orig.take(0int).filter(relevant_pred()) =~= Seq::<Entry>::empty());
    }
    while input.len() > 0
        invariant
            0 <= i,
            i + input@.len() == orig.len(),
            input@ =~= orig.skip(i),
            out@ == orig.take(i).filter(relevant_pred()),
        decreases input@.len(),
    {
        let e = input.remove(0);
        proof {
            assert(orig.skip(i)[0] == orig[i]);
            assert(e == orig[i]);
            assert(input@ =~= orig.skip(i + 1));
            orig.lemma_take_succ_push(i);
            orig.take(i).lemma_filter_push(e, relevant_pred());
        }
        let is_rel = e.is_dir() || markdown_file(e.name_ref().as_str());
        proof {
            assert(is_rel == relevant(e));
        }
        if is_rel {
            out.push(e);
        }
        proof {
            i = i + 1;
        }
    }
    proof {
        assert(orig.take(orig.len() as int) =~= orig);
    }
    out
}

/// Applies the per-directory exclusions to a listing, keeping order.
pub fn keep_entries(entries: Vec<Entry>, is_root: bool, config: &Config) -> (r: Vec<Entry>)
    ensures
        r@ == kept_of(entries@, is_root, *config),
{
    broadcast use vstd::seq_lib::group_seq_properties;

    let ghost orig = entries@;
    let ghost cfg = *config;
    let mut input = entries;
    let mut out: Vec<Entry> = Vec::new();
    let ghost mut i: int = 0;
    proof {
        assert(orig.take(0int).filter(keep_pred(is_root, cfg)) =~= Seq::<Entry>::empty());
    }
    while input.len() > 0
        invariant
            0 <= i,
            i + input@.len() == orig.len(),
            input@ =~= orig.skip(i),
            out@ == orig.take(i).filter(keep_pred(is_root, cfg)),
            cfg == *config,
        decreases input@.len(),
    {
        let e = input.remove(0);
        proof {
            assert(orig.skip(i)[0] == orig[i]);
            assert(e == orig[i]);
            assert(input@ =~= orig.skip(i + 1));
            orig.lemma_take_succ_push(i);
            orig.take(i).lemma_filter_push(e, keep_pred(is_root, cfg));
        }
        let st = stem_of_str(e.name_ref().as_str());
        let summary_hit = is_root && st == ("SUMMARY").to_owned();
        let index_hit = !e.is_dir() && st == config.index_base_name;
        let keep_it = !summary_hit && (e.is_dir() || !index_hit);
        proof {
            assert(keep_it == keep(e, is_root, cfg));
        }
        if keep_it {
            out.push(e);
        }
        proof {
            i = i + 1;
        }
    }
    proof {
        assert(orig.take(orig.len() as int) =~= orig);
    }
    out
}

fn insert_pos(e: &Entry, v: &Vec<Entry>) -> (j: usize)
    ensures
        j <= v@.len(),
        forall|k: int| 0 <= k < j ==> !lex_le(entry_name(*e), entry_name(v@[k])),
        j < v@.len() ==> lex_le(entry_name(*e), entry_name(v@[j as int])),
{
    let mut j: usize = 0;
    loop
        invariant
            j <= v@.len(),
            forall|k: int| 0 <= k < j ==> !lex_le(entry_name(*e), entry_name(v@[k])),
        decreases v@.len() - j,
    {
        if j >= v.len() {
            return j;
        }
        if str_le(e.name_ref().as_str(), v[j].name_ref().as_str()) {
            return j;
        }
        j = j + 1;
    }
}

proof fn lemma_insert_sorted_at(e: Entry, s: Seq<Entry>, j: int)
    requires
        0 <= j <= s.len(),
        forall|k: int| 0 <= k < j ==> !lex_le(entry_name(e), entry_name(s[k])),
        j < s.len() ==> lex_le(entry_name(e), entry_name(s[j])),
    ensures
        insert_sorted(e, s) == s.take(j) + seq![e] + s.skip(j),
    decreases j,
{
    if j == 0 {
        if s.len() == 0 {
            assert(insert_sorted(e, s) =~= s.take(0) + seq![e] + s.skip(0));
        } else {
            assert(insert_sorted(e, s) =~= s.take(0) + seq![e] + s.skip(0));
        }
    } else {
        let t = s.drop_first();
        assert forall|k: int| 0 <= k < j - 1 implies !lex_le(entry_name(e), entry_name(t[k])) by {
            assert(t[k] == s[k + 1]);
        }
        lemma_insert_sorted_at(e, t, j - 1);
        assert(!lex_le(entry_name(e), entry_name(s[0])));
        assert(insert_sorted(e, s) == seq![s[0]] + insert_sorted(e, t));
        assert(insert_sorted(e, s) =~= s.take(j) + seq![e] + s.skip(j));
    }
}

/// Sorts a listing by filename: the deterministic, platform-stable order
/// that is the sole control an author has over chapter order.
pub fn sort_entries_exec(entries: Vec<Entry>) -> (r: Vec<Entry>)
    ensures
        r@ == sort_entries(entries@),
{
    let ghost orig = entries@;
    let mut input = entries;
    let mut out: Vec<Entry> = Vec::new();
    proof {
        assert(orig.skip(orig.len() as int) =~= Seq::<Entry>::empty());
    }
    while input.len() > 0
        invariant
            input@.len() <= orig.len(),
            input@ =~= orig.take(input@.len() as int),
            out@ == sort_entries(orig.skip(input@.len() as int)),
        decreases input@.len(),
    {
        let ghost k = input@.len() as int;
        let e = input.pop().unwrap();
        proof {
            assert(orig.take(k)[k - 1] == orig[k - 1]);
            assert(e == orig[k - 1]);
            assert(input@ =~= orig.take(k - 1));
        }
        let ghost before = out@;
        let j = insert_pos(&e, &out);
        out.insert(j, e);
        proof {
            lemma_insert_sorted_at(e, before, j as int);
            assert(out@ =~= before.take(j as int) + seq![e] + before.skip(j as int));
            assert(orig.skip(k - 1).drop_first() =~= orig.skip(k));
            assert(orig.skip(k - 1)[0] == orig[k - 1]);
            assert(out@ == sort_entries(orig.skip(k - 1)));
        }
    }
    proof {
        assert(orig.skip(0int) =~= orig);
    }
    out
}

/// Looks up the first line of the first file called `name` in a listing.
pub fn find_index_line(entries: &Vec<Entry>, name: &String) -> (r: Option<String>)
    ensures
        match r {
            Some(l) => find_file_line(entries@, name@) == Some(l@),
            None => find_file_line(entries@, name@) is None,
        },
{
    let mut i: usize = 0;
    proof {
        assert(entries@.skip(0int) =~= entries@);
    }
    while i < entries.len()
        invariant
            i <= entries@.len(),
            find_file_line(entries@, name@) == find_file_line(entries@.skip(i as int), name@),
        decreases entries@.len() - i,
    {
        proof {
            assert(entries@.skip(i as int)[0] == entries@[i as int]);
            assert(entries@.skip(i as int).drop_first() =~= entries@.skip(i as int + 1));
        }
        let ei = &entries[i];
        proof {
            assert(*ei == entries@[i as int]);
        }
        match ei {
            Entry::File { name: n, first_line } => {
                if *n == *name {
                    let r = first_line.clone();
                    proof {
                        assert(find_file_line(entries@.skip(i as int), name@) == Some(
                            first_line@,
                        ));
                    }
                    return Some(r);
                }
            },
            Entry::Dir { .. } => {},
        }
        i = i + 1;
    }
    None
}

/// Copies a section-number prefix.
fn copy_u32s(v: &Vec<u32>) -> (r: Vec<u32>)
    ensures
        r@ == v@,
{
    let mut out: Vec<u32> = Vec::new();
    let mut i: usize = 0;
    while i < v.len()
        invariant
            i <= v@.len(),
            out@ =~= v@.take(i as int),
        decreases v@.len() - i,
    {
        out.push(v[i]);
        proof {
            v@.lemma_take_succ_push(i as int);
        }
        i = i + 1;
    }
    proof {
        assert(v@.take(v@.len() as int) =~= v@);
    }
    out
}

/// Copies a path, component by component.
fn clone_path(v: &Vec<String>) -> (r: Vec<String>)
    ensures
        r.deep_view() == v.deep_view(),
        r@.len() == v@.len(),
{
    let mut out: Vec<String> = Vec::new();
    let mut i: usize = 0;
    while i < v.len()
        invariant
            i <= v@.len(),
            out@.len() == i,
            forall|k: int| 0 <= k < i ==> out@[k]@ == #[trigger] v@[k]@,
        decreases v@.len() - i,
    {
        out.push(v[i].clone());
        i = i + 1;
    }
    proof {
        assert(out.deep_view() =~= v.deep_view());
    }
    out
}

/// The filename of a directory's index document, `<base>.md`.
pub fn index_file_name(config: &Config) -> (r: String)
    ensures
        r@ == index_file_of(*config),
{
    config.index_base_name.clone().concat(".md")
}

/// Builds the chapters of one directory listing: scan, sort by filename,
/// exclude, then number and name each surviving entry, recursing into
/// subdirectories with the entry's own section number as the new prefix.
///
/// Returns the chapters together with the stub index documents the host
/// should create, or the first missing-index failure in traversal order.
#[verifier::loop_isolation(false)]
pub fn generate_chapters(
    entries: Vec<Entry>,
    dir_path: &Vec<String>,
    prefix: &Vec<u32>,
    is_root: bool,
    config: &Config,
) -> (r: Result<(Vec<ChapterNode>, Vec<Vec<String>>), BuildError>)
    requires
        counts_fit(entries@),
    ensures
        build_dir(entries@, dir_path.deep_view(), prefix@, is_root, *config) == (match r {
            Ok(out) => Ok::<(Seq<ChapterV>, Seq<PathV>), PathV>(
                (chap_views(out.0@), out.1.deep_view()),
            ),
            Err(BuildError::MissingIndexDocument { path }) => Err::<
                (Seq<ChapterV>, Seq<PathV>),
                PathV,
            >(path.deep_view()),
        }),
    decreases entries_height(entries@),
{
    let ghost orig = entries@;
    let ghost cfg = *config;
    let ghost dpv = dir_path.deep_view();
    let ghost pfv = prefix@;

    let filtered = filter_entries(entries);
    let sorted = sort_entries_exec(filtered);
    let mut kept = keep_entries(sorted, is_root, config);
    let ghost keptv = kept@;
    proof {
        assert(keptv == prepared(orig, is_root, cfg));
        lemma_prepared_bounds(orig, is_root, cfg);
        lemma_prepared_in(orig, is_root, cfg);
    }
    let mut chapters: Vec<ChapterNode> = Vec::new();
    let mut stubs: Vec<Vec<String>> = Vec::new();
    let mut pos: u32 = 0;
    let ghost mut i: int = 0;
    proof {
        assert(chap_views(chapters@) =~= Seq::<ChapterV>::empty());
        assert(stubs.deep_view() =~= Seq::<PathV>::empty());
    }
    while kept.len() > 0
        invariant
            0 <= i,
            i + kept@.len() == keptv.len(),
            pos as int == i,
            kept@ =~= keptv.skip(i),
            keptv == prepared(orig, is_root, cfg),
            keptv.len() <= orig.len(),
            counts_fit(orig),
            orig.len() <= u32::MAX,
            entries_height(keptv) <= entries_height(orig),
            forall|j: int| 0 <= j < keptv.len() ==> orig.contains(#[trigger] keptv[j]),
            cfg == *config,
            dpv == dir_path.deep_view(),
            pfv == prefix@,
            (match build_nodes(keptv, i, dpv, pfv, cfg) {
                Ok(rest) => build_nodes(keptv, 0, dpv, pfv, cfg) == Ok::<
                    (Seq<ChapterV>, Seq<PathV>),
                    PathV,
                >((chap_views(chapters@) + rest.0, stubs.deep_view() + rest.1)),
                Err(p) => build_nodes(keptv, 0, dpv, pfv, cfg) == Err::<
                    (Seq<ChapterV>, Seq<PathV>),
                    PathV,
                >(p),
            }),
        decreases kept@.len(),
    {
        let e = kept.remove(0);
        proof {
            assert(keptv.skip(i)[0] == keptv[i]);
            assert(e == keptv[i]);
            assert(kept@ =~= keptv.skip(i + 1));
        }
        let mut number = copy_u32s(prefix);
        number.push(pos + 1);
        let ghost numv = pfv.push((i + 1) as u32);
        proof {
            assert(number@ == numv);
        }
        let ghost prev_chaps = chapters@;
        let ghost prev_stubs = stubs.deep_view();
        match e {
            Entry::File { name, first_line } => {
                let ghost namev = name@;
                let fallback = stem_of_str(name.as_str());
                let title = name_for(Some(first_line.as_str()), fallback, config);
                let mut cpath = clone_path(dir_path);
                cpath.push(name);
                proof {
                    assert(cpath.deep_view() =~= dpv.push(namev));
                }
                let node = ChapterNode {
                    display_name: title,
                    content_path: Some(cpath),
                    children: Vec::new(),
                    number,
                };
                proof {
                    assert(node.children@ =~= Seq::<ChapterNode>::empty());
                    assert(chap_views(node.children@) =~= Seq::<ChapterV>::empty());
                }
                let ghost nv = chap_view(node);
                proof {
                    assert(node_plan(keptv[i], dpv, numv, cfg) == Ok::<
                        (ChapterV, Seq<PathV>),
                        PathV,
                    >((nv, Seq::empty())));
                }
                chapters.push(node);
                proof {
                    lemma_chap_views_push(prev_chaps, node);
                    match build_nodes(keptv, i + 1, dpv, pfv, cfg) {
                        Ok(rest) => {
                            assert(build_nodes(keptv, i, dpv, pfv, cfg) == Ok::<
                                (Seq<ChapterV>, Seq<PathV>),
                                PathV,
                            >((seq![nv] + rest.0, Seq::<PathV>::empty() + rest.1)));
                            assert(chap_views(prev_chaps) + (seq![nv] + rest.0)
                                =~= chap_views(chapters@) + rest.0);
                            assert(prev_stubs + (Seq::<PathV>::empty() + rest.1) =~= stubs.deep_view()
                                + rest.1);
                        },
                        Err(p) => {
                            assert(build_nodes(keptv, i, dpv, pfv, cfg) == Err::<
                                (Seq<ChapterV>, Seq<PathV>),
                                PathV,
                            >(p));
                        },
                    }
                    i = i + 1;
                }
            },
            Entry::Dir { name, entries: sub } => {
                let ghost namev = name@;
                let ghost subv = sub@;
                proof {
                    assert(e == Entry::Dir { name: name, entries: sub });
                    assert(entry_height(e) == 1 + entries_height(subv));
                }
                let iname = index_file_name(config);
                let found = find_index_line(&sub, &iname);
                let missing = found.is_none();
                let fallback = stem_of_str(name.as_str());
                let mut child_path = clone_path(dir_path);
                child_path.push(name);
                proof {
                    assert(child_path.deep_view() =~= dpv.push(namev));
                }
                let mut ipath = clone_path(&child_path);
                ipath.push(iname);
                let ghost ipathv = dpv.push(namev).push(index_file_of(cfg));
                proof {
                    assert(ipath.deep_view() =~= ipathv);
                }
                if missing && !config.create_missing_index && !config.ignore_missing_index {
                    proof {
                        assert(find_file_line(subv, index_file_of(cfg)) is None);
                        assert(node_plan(keptv[i], dpv, numv, cfg) == Err::<
                            (ChapterV, Seq<PathV>),
                            PathV,
                        >(ipathv));
                        assert(build_nodes(keptv, i, dpv, pfv, cfg) == Err::<
                            (Seq<ChapterV>, Seq<PathV>),
                            PathV,
                        >(ipathv));
                        assert(build_dir(orig, dpv, pfv, is_root, cfg) == build_nodes(
                            keptv,
                            0,
                            dpv,
                            pfv,
                            cfg,
                        ));
                    }
                    return Err(BuildError::MissingIndexDocument { path: ipath });
                }
                proof {
                    let k = choose|k: int| 0 <= k < orig.len() && orig[k] == keptv[i];
                    assert(orig.contains(keptv[i]));
                    assert(orig[k] == keptv[i]);
                    assert(counts_fit(subv));
                    lemma_elem_height(orig, k);
                    assert(entry_height(keptv[i]) == 1 + entries_height(subv));
                    assert(entries_height(subv) < entries_height(orig));
                }
                let child_res = generate_chapters(sub, &child_path, &number, false, config);
                let (children, mut child_stubs) = match child_res {
                    Ok(p) => p,
                    Err(err) => {
                        proof {
                            let pv = (match &err {
                                BuildError::MissingIndexDocument { path } => path.deep_view(),
                            });
                            assert(node_plan(keptv[i], dpv, numv, cfg) == Err::<
                                (ChapterV, Seq<PathV>),
                                PathV,
                            >(pv));
                            assert(build_nodes(keptv, i, dpv, pfv, cfg) == Err::<
                                (Seq<ChapterV>, Seq<PathV>),
                                PathV,
                            >(pv));
                            assert(build_dir(orig, dpv, pfv, is_root, cfg) == build_nodes(
                                keptv,
                                0,
                                dpv,
                                pfv,
                                cfg,
                            ));
                        }
                        return Err(err);
                    },
                };
                let created = missing && config.create_missing_index;
                if created {
                    stubs.push(clone_path(&ipath));
                    proof {
                        assert(stubs.deep_view() =~= prev_stubs.push(ipathv));
                    }
                }
                let line_opt: Option<String> = match found {
                    Some(l) => Some(l),
                    None => if config.create_missing_index {
                        Some(stub_line_exec(config))
                    } else {
                        None
                    },
                };
                let title = match &line_opt {
                    Some(l) => name_for(Some(l.as_str()), fallback, config),
                    None => name_for(None, fallback, config),
                };
                let has_content = line_opt.is_some();
                let content_path: Option<Vec<String>> = if has_content {
                    Some(ipath)
                } else {
                    None
                };
                let node = ChapterNode { display_name: title, content_path, children, number };
                let ghost nv = chap_view(node);
                let ghost child_stubsv = child_stubs.deep_view();
                let ghost own_stubs: Seq<PathV> = if created {
                    seq![ipathv]
                } else {
                    Seq::empty()
                };
                proof {
                    assert(node_plan(keptv[i], dpv, numv, cfg) == Ok::<
                        (ChapterV, Seq<PathV>),
                        PathV,
                    >((nv, own_stubs + child_stubsv)));
                }
                chapters.push(node);
                stubs.append(&mut child_stubs);
                proof {
                    lemma_chap_views_push(prev_chaps, node);
                    assert(stubs.deep_view() =~~= prev_stubs + (own_stubs + child_stubsv));
                    match build_nodes(keptv, i + 1, dpv, pfv, cfg) {
                        Ok(rest) => {
                            assert(build_nodes(keptv, i, dpv, pfv, cfg) == Ok::<
                                (Seq<ChapterV>, Seq<PathV>),
                                PathV,
                            >((seq![nv] + rest.0, (own_stubs + child_stubsv) + rest.1)));
                            assert(chap_views(prev_chaps) + (seq![nv] + rest.0)
                                =~= chap_views(chapters@) + rest.0);
                            assert(prev_stubs + ((own_stubs + child_stubsv) + rest.1)
                                =~= stubs.deep_view() + rest.1);
                        },
                        Err(p) => {
                            assert(build_nodes(keptv, i, dpv, pfv, cfg) == Err::<
                                (Seq<ChapterV>, Seq<PathV>),
                                PathV,
                            >(p));
                        },
                    }
                    i = i + 1;
                }
            },
        }
        pos = pos + 1;
    }
    proof {
        assert(build_nodes(keptv, i, dpv, pfv, cfg) == Ok::<(Seq<ChapterV>, Seq<PathV>), PathV>(
            (Seq::empty(), Seq::empty()),
        ));
        assert(chap_views(chapters@) + Seq::<ChapterV>::empty() =~= chap_views(chapters@));
        assert(stubs.deep_view() + Seq::<PathV>::empty() =~= stubs.deep_view());
    }
    Ok((chapters, stubs))
}

/// The single heading line a created stub index document consists of.
pub fn stub_line_exec(config: &Config) -> (r: String)
    ensures
        r@ == stub_line_of(*config),
{
    let r = ("# ").to_owned().concat(config.index_base_name.as_str()).concat(".md");
    proof {
        assert(r@ =~= stub_line_of(*config));
    }
    r
}

} // verus!
