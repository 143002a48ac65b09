//! Stub-creation idempotence: once the stub index documents that a build
//! asked for exist on disk, rebuilding yields the same chapter tree and asks
//! for nothing further.

use vstd::prelude::*;
use vstd::seq_lib::*;

use crate::config::Config;
use crate::plan::{
    build_dir, build_nodes, find_file_line, index_file_of, insert_sorted, keep, keep_pred,
    lemma_prepared_bounds, lemma_prepared_in, node_plan, prepared, relevant, relevant_of,
    relevant_pred, sort_entries, stub_line_of, PathV,
};
use crate::text::{
    is_markdown, last_dot, lemma_lex_lt_asymmetric, lemma_lex_lt_total, lemma_lex_lt_transitive,
    lex_le, lex_lt, stem_of,
};
use crate::tree::{
    entries_height, entry_height, entry_name, file_line, lemma_elem_height, Entry,
};

verus! {

/// The index document's filename has the index base name as its stem and
/// carries the document extension.
pub proof fn lemma_index_file_props(cfg: Config)
    requires
        cfg.index_base_name@.len() > 0,
    ensures
        stem_of(index_file_of(cfg)) == cfg.index_base_name@,
        is_markdown(index_file_of(cfg)),
{
    let base = cfg.index_base_name@;
    let ifn = index_file_of(cfg);
    reveal_strlit(".md");
    assert(ifn.len() == base.len() + 3);
    assert(ifn.last() == 'd');
    let two = base + seq!['.', 'm'];
    let one = base + seq!['.'];
    assert(ifn.drop_last() =~= two);
    assert(two.last() == 'm');
    assert(two.drop_last() =~= one);
    assert(one.last() == '.');
    assert(last_dot(ifn) == last_dot(two));
    assert(last_dot(two) == last_dot(one));
    assert(last_dot(one) == base.len());
    assert(ifn.take(base.len() as int) =~= base);
    assert(ifn[base.len() as int + 1] == 'm');
    assert(ifn[base.len() as int + 2] == 'd');
}

/// How a snapshot looks once the stubs of a build exist: files unchanged
/// (same name, same first line), directories aligned one to one, and a
/// directory that lacked its index document has gained exactly one file —
/// the stub, a single heading line — at the end of its listing.
pub open spec fn stubbed_entry(e: Entry, t: Entry, cfg: Config) -> bool
    decreases t,
{
    match e {
        Entry::File { .. } => {
            &&& t is File
            &&& entry_name(t) == entry_name(e)
            &&& file_line(t) == file_line(e)
        },
        Entry::Dir { name, entries } => match t {
            Entry::File { .. } => false,
            Entry::Dir { name: tname, entries: tentries } => {
                &&& tname@ == name@
                &&& if find_file_line(entries@, index_file_of(cfg)) is Some {
                    stubbed(entries@, tentries@, cfg)
                } else {
                    &&& tentries@.len() == entries@.len() + 1
                    &&& tentries@.last() is File
                    &&& entry_name(tentries@.last()) == index_file_of(cfg)
                    &&& file_line(tentries@.last()) == Some(stub_line_of(cfg))
                    &&& stubbed(entries@, tentries@.drop_last(), cfg)
                }
            },
        },
    }
}

/// [`stubbed_entry`], listing against listing, position by position.
pub open spec fn stubbed(s: Seq<Entry>, t: Seq<Entry>, cfg: Config) -> bool
    decreases t,
{
    &&& t.len() == s.len()
    &&& forall|i: int| 0 <= i < s.len() ==> stubbed_entry(s[i], #[trigger] t[i], cfg)
}

proof fn lemma_stubbed_entry_basics(e: Entry, t: Entry, cfg: Config)
    requires
        stubbed_entry(e, t, cfg),
    ensures
        entry_name(t) == entry_name(e),
        (t is Dir) == (e is Dir),
        e is File ==> file_line(t) == file_line(e),
        relevant(t) == relevant(e),
        forall|is_root: bool| keep(t, is_root, cfg) == keep(e, is_root, cfg),
{
    match e {
        Entry::File { .. } => {},
        Entry::Dir { .. } => {
            match t {
                Entry::File { .. } => {},
                Entry::Dir { .. } => {},
            }
        },
    }
}

proof fn lemma_stubbed_drop_first(s: Seq<Entry>, t: Seq<Entry>, cfg: Config)
    requires
        stubbed(s, t, cfg),
        s.len() > 0,
    ensures
        stubbed(s.drop_first(), t.drop_first(), cfg),
{
    assert forall|i: int| 0 <= i < s.drop_first().len() implies stubbed_entry(
        s.drop_first()[i],
        #[trigger] t.drop_first()[i],
        cfg,
    ) by {
        assert(s.drop_first()[i] == s[i + 1]);
        assert(t.drop_first()[i] == t[i + 1]);
    }
}

proof fn lemma_stubbed_drop_last(s: Seq<Entry>, t: Seq<Entry>, cfg: Config)
    requires
        stubbed(s, t, cfg),
        s.len() > 0,
    ensures
        stubbed(s.drop_last(), t.drop_last(), cfg),
{
    assert forall|i: int| 0 <= i < s.drop_last().len() implies stubbed_entry(
        s.drop_last()[i],
        #[trigger] t.drop_last()[i],
        cfg,
    ) by {
        assert(s.drop_last()[i] == s[i]);
        assert(t.drop_last()[i] == t[i]);
    }
}

/// Aligned listings resolve an index lookup to the same first line.
proof fn lemma_stubbed_find(s: Seq<Entry>, t: Seq<Entry>, cfg: Config, name: Seq<char>)
    requires
        stubbed(s, t, cfg),
    ensures
        find_file_line(s, name) == find_file_line(t, name),
    decreases s.len(),
{
    if s.len() > 0 {
        lemma_stubbed_entry_basics(s[0], t[0], cfg);
        lemma_stubbed_drop_first(s, t, cfg);
        lemma_stubbed_find(s.drop_first(), t.drop_first(), cfg, name);
    }
}

/// Appending a file named `name` to a listing without one makes the lookup
/// find exactly it.
proof fn lemma_find_push(x: Seq<Entry>, f: Entry, name: Seq<char>)
    requires
        find_file_line(x, name) is None,
        f is File,
        entry_name(f) == name,
    ensures
        find_file_line(x.push(f), name) == file_line(f),
    decreases x.len(),
{
    if x.len() == 0 {
        assert(x.push(f)[0] == f);
    } else {
        assert(x.push(f)[0] == x[0]);
        assert(x.push(f).drop_first() =~= x.drop_first().push(f));
        lemma_find_push(x.drop_first(), f, name);
    }
}

/// Insertions of entries with distinct names commute.
proof fn lemma_insert_commutes(a: Entry, f: Entry, l: Seq<Entry>)
    requires
        entry_name(a) != entry_name(f),
    ensures
        insert_sorted(a, insert_sorted(f, l)) == insert_sorted(f, insert_sorted(a, l)),
    decreases l.len(),
{
    let na = entry_name(a);
    let nf = entry_name(f);
    lemma_lex_lt_total(na, nf);
    lemma_lex_lt_asymmetric(na, nf);
    lemma_lex_lt_asymmetric(nf, na);
    if l.len() == 0 {
        assert((seq![f])[0] == f);
        assert((seq![a])[0] == a);
        if lex_lt(na, nf) {
            assert(insert_sorted(a, seq![f]) =~= seq![a] + seq![f]);
            assert((seq![a]).drop_first() =~= Seq::<Entry>::empty());
            assert(insert_sorted(f, (seq![a]).drop_first()) =~= seq![f]);
            assert(insert_sorted(f, seq![a]) =~= seq![a] + seq![f]);
        } else {
            assert(lex_lt(nf, na));
            assert((seq![f]).drop_first() =~= Seq::<Entry>::empty());
            assert(insert_sorted(a, (seq![f]).drop_first()) =~= seq![a]);
            assert(insert_sorted(a, seq![f]) =~= seq![f] + seq![a]);
            assert(insert_sorted(f, seq![a]) =~= seq![f] + seq![a]);
        }
    } else {
        let n0 = entry_name(l[0]);
        lemma_lex_lt_total(na, n0);
        lemma_lex_lt_total(nf, n0);
        let fl = seq![f] + l;
        let al = seq![a] + l;
        assert(fl[0] == f && al[0] == a);
        assert(fl.drop_first() =~= l);
        assert(al.drop_first() =~= l);
        if lex_le(nf, n0) && lex_le(na, n0) {
            assert(insert_sorted(f, l) == fl);
            assert(insert_sorted(a, l) == al);
            if lex_lt(na, nf) {
                assert(insert_sorted(a, fl) == seq![a] + fl);
                assert(insert_sorted(f, al) == seq![a] + insert_sorted(f, l));
                assert(seq![a] + fl =~= seq![a] + insert_sorted(f, l));
            } else {
                assert(lex_lt(nf, na));
                assert(insert_sorted(a, fl) == seq![f] + insert_sorted(a, l));
                assert(insert_sorted(f, al) == seq![f] + al);
                assert(seq![f] + insert_sorted(a, l) =~= seq![f] + al);
            }
        } else if lex_le(nf, n0) && !lex_le(na, n0) {
            // Then n0 < na, so nf <= n0 < na and a never goes first.
            if lex_lt(na, nf) {
                if nf == n0 {
                } else {
                    lemma_lex_lt_transitive(na, nf, n0);
                }
                assert(lex_lt(na, n0) || na == n0);
                assert(false);
            }
            assert(lex_lt(nf, na));
            assert(insert_sorted(f, l) == fl);
            assert(insert_sorted(a, fl) == seq![f] + insert_sorted(a, l));
            assert(insert_sorted(a, l) == seq![l[0]] + insert_sorted(a, l.drop_first()));
            let ral = seq![l[0]] + insert_sorted(a, l.drop_first());
            assert(ral.len() > 0 && ral[0] == l[0]);
            assert(insert_sorted(f, ral) == seq![f] + ral);
            assert(seq![f] + insert_sorted(a, l) =~= seq![f] + ral);
        } else if !lex_le(nf, n0) && lex_le(na, n0) {
            // Then n0 < nf, so na <= n0 < nf and f never goes first.
            if lex_lt(nf, na) {
                if na == n0 {
                } else {
                    lemma_lex_lt_transitive(nf, na, n0);
                }
                assert(lex_lt(nf, n0) || nf == n0);
                assert(false);
            }
            assert(lex_lt(na, nf));
            assert(insert_sorted(a, l) == al);
            assert(insert_sorted(f, al) == seq![a] + insert_sorted(f, l));
            assert(insert_sorted(f, l) == seq![l[0]] + insert_sorted(f, l.drop_first()));
            let rfl = seq![l[0]] + insert_sorted(f, l.drop_first());
            assert(rfl.len() > 0 && rfl[0] == l[0]);
            assert(insert_sorted(a, rfl) == seq![a] + rfl);
            assert(seq![a] + rfl =~= seq![a] + insert_sorted(f, l));
        } else {
            // Both go past the head; commute in the tail.
            lemma_insert_commutes(a, f, l.drop_first());
            let rfl = seq![l[0]] + insert_sorted(f, l.drop_first());
            let ral = seq![l[0]] + insert_sorted(a, l.drop_first());
            assert(insert_sorted(f, l) == rfl);
            assert(insert_sorted(a, l) == ral);
            assert(rfl[0] == l[0] && ral[0] == l[0]);
            assert(rfl.drop_first() =~= insert_sorted(f, l.drop_first()));
            assert(ral.drop_first() =~= insert_sorted(a, l.drop_first()));
            assert(insert_sorted(a, rfl) == seq![l[0]] + insert_sorted(
                a,
                insert_sorted(f, l.drop_first()),
            ));
            assert(insert_sorted(f, ral) == seq![l[0]] + insert_sorted(
                f,
                insert_sorted(a, l.drop_first()),
            ));
        }
    }
}

/// Sorting a listing with one more, uniquely named entry at its end is
/// sorting the listing and inserting that entry.
proof fn lemma_sort_push(x: Seq<Entry>, f: Entry)
    requires
        forall|j: int| 0 <= j < x.len() ==> entry_name(#[trigger] x[j]) != entry_name(f),
    ensures
        sort_entries(x.push(f)) == insert_sorted(f, sort_entries(x)),
    decreases x.len(),
{
    let xf = x.push(f);
    if x.len() == 0 {
        assert(xf[0] == f);
        assert(xf.drop_first() =~= Seq::<Entry>::empty());
        assert(sort_entries(xf) == insert_sorted(f, sort_entries(Seq::<Entry>::empty())));
        assert(x =~= Seq::<Entry>::empty());
    } else {
        assert(xf[0] == x[0]);
        assert(xf.drop_first() =~= x.drop_first().push(f));
        assert forall|j: int| 0 <= j < x.drop_first().len() implies entry_name(
            #[trigger] x.drop_first()[j],
        ) != entry_name(f) by {
            assert(x.drop_first()[j] == x[j + 1]);
        }
        lemma_sort_push(x.drop_first(), f);
        lemma_insert_commutes(x[0], f, sort_entries(x.drop_first()));
        assert(sort_entries(xf) == insert_sorted(x[0], sort_entries(x.drop_first().push(f))));
    }
}

/// A filter that cannot tell aligned entries apart keeps listings aligned.
proof fn lemma_stubbed_filter(s: Seq<Entry>, t: Seq<Entry>, cfg: Config, pred: spec_fn(Entry) -> bool)
    requires
        stubbed(s, t, cfg),
        forall|e: Entry, u: Entry| #[trigger]
            stubbed_entry(e, u, cfg) ==> pred(e) == pred(u),
    ensures
        stubbed(s.filter(pred), t.filter(pred), cfg),
    decreases s.len(),
{
    reveal(Seq::filter);
    if s.len() == 0 {
    } else {
        lemma_stubbed_drop_last(s, t, cfg);
        lemma_stubbed_filter(s.drop_last(), t.drop_last(), cfg, pred);
        let a = s.drop_last().filter(pred);
        let b = t.drop_last().filter(pred);
        assert(stubbed_entry(s.last(), t.last(), cfg));
        if pred(s.last()) {
            assert(s.filter(pred) == a.push(s.last()));
            assert(t.filter(pred) == b.push(t.last()));
            assert forall|i: int| 0 <= i < a.push(s.last()).len() implies stubbed_entry(
                a.push(s.last())[i],
                #[trigger] b.push(t.last())[i],
                cfg,
            ) by {
                if i < a.len() {
                    assert(a.push(s.last())[i] == a[i]);
                    assert(b.push(t.last())[i] == b[i]);
                }
            }
        }
    }
}

/// Aligned entries insert into aligned listings at the same position.
proof fn lemma_stubbed_insert(e: Entry, te: Entry, l: Seq<Entry>, tl: Seq<Entry>, cfg: Config)
    requires
        stubbed_entry(e, te, cfg),
        stubbed(l, tl, cfg),
    ensures
        stubbed(insert_sorted(e, l), insert_sorted(te, tl), cfg),
    decreases l.len(),
{
    lemma_stubbed_entry_basics(e, te, cfg);
    if l.len() == 0 {
        assert((seq![e])[0] == e);
        assert((seq![te])[0] == te);
        assert(stubbed(seq![e], seq![te], cfg));
    } else {
        lemma_stubbed_entry_basics(l[0], tl[0], cfg);
        if lex_le(entry_name(e), entry_name(l[0])) {
            let r = seq![e] + l;
            let tr = seq![te] + tl;
            assert forall|i: int| 0 <= i < r.len() implies stubbed_entry(
                r[i],
                #[trigger] tr[i],
                cfg,
            ) by {
                if i > 0 {
                    assert(r[i] == l[i - 1]);
                    assert(tr[i] == tl[i - 1]);
                }
            }
        } else {
            lemma_stubbed_drop_first(l, tl, cfg);
            lemma_stubbed_insert(e, te, l.drop_first(), tl.drop_first(), cfg);
            let r = seq![l[0]] + insert_sorted(e, l.drop_first());
            let tr = seq![tl[0]] + insert_sorted(te, tl.drop_first());
            assert(insert_sorted(e, l) == r);
            assert(insert_sorted(te, tl) == tr);
            assert forall|i: int| 0 <= i < r.len() implies stubbed_entry(
                r[i],
                #[trigger] tr[i],
                cfg,
            ) by {
                if i > 0 {
                    assert(r[i] == insert_sorted(e, l.drop_first())[i - 1]);
                    assert(tr[i] == insert_sorted(te, tl.drop_first())[i - 1]);
                }
            }
        }
    }
}

/// Sorting keeps aligned listings aligned, position by position.
proof fn lemma_stubbed_sort(s: Seq<Entry>, t: Seq<Entry>, cfg: Config)
    requires
        stubbed(s, t, cfg),
    ensures
        stubbed(sort_entries(s), sort_entries(t), cfg),
    decreases s.len(),
{
    if s.len() > 0 {
        lemma_stubbed_drop_first(s, t, cfg);
        lemma_stubbed_sort(s.drop_first(), t.drop_first(), cfg);
        lemma_stubbed_insert(
            s[0],
            t[0],
            sort_entries(s.drop_first()),
            sort_entries(t.drop_first()),
            cfg,
        );
    }
}

/// Scanning, sorting and excluding keep aligned listings aligned.
proof fn lemma_stubbed_prepared(s: Seq<Entry>, t: Seq<Entry>, is_root: bool, cfg: Config)
    requires
        stubbed(s, t, cfg),
    ensures
        stubbed(prepared(s, is_root, cfg), prepared(t, is_root, cfg), cfg),
{
    assert forall|e: Entry, u: Entry| #[trigger]
        stubbed_entry(e, u, cfg) implies relevant_pred()(e) == relevant_pred()(u) by {
        lemma_stubbed_entry_basics(e, u, cfg);
    }
    lemma_stubbed_filter(s, t, cfg, relevant_pred());
    lemma_stubbed_sort(relevant_of(s), relevant_of(t), cfg);
    assert forall|e: Entry, u: Entry| #[trigger]
        stubbed_entry(e, u, cfg) implies keep_pred(is_root, cfg)(e) == keep_pred(is_root, cfg)(
        u,
    ) by {
        lemma_stubbed_entry_basics(e, u, cfg);
    }
    lemma_stubbed_filter(sort_entries(relevant_of(s)), sort_entries(relevant_of(t)), cfg, keep_pred(is_root, cfg));
}

/// A lookup that finds nothing means no file of that name is in the listing.
proof fn lemma_find_none_no_file(s: Seq<Entry>, name: Seq<char>)
    requires
        find_file_line(s, name) is None,
    ensures
        forall|i: int| 0 <= i < s.len() ==> !((#[trigger] s[i]) is File && entry_name(s[i])
            == name),
    decreases s.len(),
{
    if s.len() > 0 {
        lemma_find_none_no_file(s.drop_first(), name);
        assert forall|i: int| 0 <= i < s.len() implies !((#[trigger] s[i]) is File && entry_name(
            s[i],
        ) == name) by {
            if i > 0 {
                assert(s.drop_first()[i - 1] == s[i]);
            }
        }
    }
}

/// Inserting an entry that the exclusions drop leaves the excluded listing
/// unchanged.
proof fn lemma_filter_insert(f: Entry, s: Seq<Entry>, pred: spec_fn(Entry) -> bool)
    requires
        !pred(f),
    ensures
        insert_sorted(f, s).filter(pred) == s.filter(pred),
    decreases s.len(),
{
    broadcast use Seq::filter_distributes_over_add;

    reveal(Seq::filter);
    let emp = Seq::<Entry>::empty();
    assert(emp.filter(pred) =~= emp);
    assert((seq![f]).drop_last() =~= emp);
    assert((seq![f]).filter(pred) =~= emp);
    if s.len() == 0 {
        assert(insert_sorted(f, s).filter(pred) =~= s.filter(pred));
    } else if lex_le(entry_name(f), entry_name(s[0])) {
        assert(insert_sorted(f, s) == seq![f] + s);
        assert((seq![f] + s).filter(pred) == (seq![f]).filter(pred) + s.filter(pred));
        assert(insert_sorted(f, s).filter(pred) =~= s.filter(pred));
    } else {
        lemma_filter_insert(f, s.drop_first(), pred);
        let r = insert_sorted(f, s.drop_first());
        assert(insert_sorted(f, s) == seq![s[0]] + r);
        assert((seq![s[0]] + r).filter(pred) == (seq![s[0]]).filter(pred) + r.filter(pred));
        assert((seq![s[0]] + s.drop_first()).filter(pred) == (seq![s[0]]).filter(pred)
            + s.drop_first().filter(pred));
        assert(seq![s[0]] + s.drop_first() =~= s);
        assert(insert_sorted(f, s).filter(pred) =~= s.filter(pred));
    }
}

/// No directory anywhere in the listing carries the given filename.
pub open spec fn no_dir_named(s: Seq<Entry>, name: Seq<char>) -> bool
    decreases s,
{
    forall|i: int| 0 <= i < s.len() ==> match #[trigger] s[i] {
        Entry::File { .. } => true,
        Entry::Dir { name: n, entries } => n@ != name && no_dir_named(entries@, name),
    }
}

proof fn lemma_no_dir_named_prepared(s: Seq<Entry>, is_root: bool, cfg: Config, name: Seq<char>)
    requires
        no_dir_named(s, name),
    ensures
        no_dir_named(prepared(s, is_root, cfg), name),
{
    let prep = prepared(s, is_root, cfg);
    lemma_prepared_in(s, is_root, cfg);
    assert forall|j: int| 0 <= j < prep.len() implies match #[trigger] prep[j] {
        Entry::File { .. } => true,
        Entry::Dir { name: n, entries } => n@ != name && no_dir_named(entries@, name),
    } by {
        let k = choose|k: int| 0 <= k < s.len() && s[k] == prep[j];
        assert(s.contains(prep[j]));
        assert(s[k] == prep[j]);
    }
}

/// The induction behind stub idempotence: two aligned prepared listings —
/// the scanned one and the one rescanned after the stubs exist — build the
/// same chapters, and the rescan asks for no stubs.
proof fn lemma_stubbed_nodes(
    ks: Seq<Entry>,
    kt: Seq<Entry>,
    i: int,
    dp: PathV,
    pf: Seq<u32>,
    cfg: Config,
)
    requires
        cfg.create_missing_index,
        cfg.index_base_name@.len() > 0,
        0 <= i <= ks.len(),
        stubbed(ks, kt, cfg),
        no_dir_named(ks, index_file_of(cfg)),
    ensures
        match (build_nodes(ks, i, dp, pf, cfg), build_nodes(kt, i, dp, pf, cfg)) {
            (Ok(a), Ok(b)) => a.0 == b.0 && b.1 == Seq::<PathV>::empty(),
            _ => false,
        },
    decreases entries_height(kt), kt.len() - i,
{
    let ifn = index_file_of(cfg);
    lemma_index_file_props(cfg);
    if i == ks.len() {
        assert(Seq::<PathV>::empty() == Seq::<PathV>::empty());
    } else {
        lemma_stubbed_entry_basics(ks[i], kt[i], cfg);
        let num = pf.push((i + 1) as u32);
        lemma_stubbed_nodes(ks, kt, i + 1, dp, pf, cfg);
        let ghost e_empty = Seq::<PathV>::empty();
        assert(e_empty + e_empty =~= e_empty);
        match ks[i] {
            Entry::File { name, first_line } => {
                assert(node_plan(ks[i], dp, num, cfg) == node_plan(kt[i], dp, num, cfg));
            },
            Entry::Dir { name, entries: es } => {
                match kt[i] {
                    Entry::File { .. } => {
                        assert(false);
                    },
                    Entry::Dir { name: tn, entries: tes } => {
                        assert(tn@ == name@);
                        assert(match ks[i] {
                            Entry::Dir { name: n2, entries } => n2@ != ifn && no_dir_named(
                                entries@,
                                ifn,
                            ),
                            _ => true,
                        });
                        assert(no_dir_named(es@, ifn));
                        lemma_no_dir_named_prepared(es@, false, cfg, ifn);
                        lemma_elem_height(kt, i);
                        assert(entry_height(kt[i]) == 1 + entries_height(tes@));
                        let prep_s = prepared(es@, false, cfg);
                        if find_file_line(es@, ifn) is Some {
                            assert(stubbed(es@, tes@, cfg));
                            lemma_stubbed_find(es@, tes@, cfg, ifn);
                            lemma_stubbed_prepared(es@, tes@, false, cfg);
                            lemma_prepared_bounds(tes@, false, cfg);
                            lemma_stubbed_nodes(
                                prep_s,
                                prepared(tes@, false, cfg),
                                0,
                                dp.push(name@),
                                num,
                                cfg,
                            );
                        } else {
                            let tcore = tes@.drop_last();
                            let f = tes@.last();
                            assert(stubbed(es@, tcore, cfg));
                            lemma_stubbed_find(es@, tcore, cfg, ifn);
                            assert(tes@ =~= tcore.push(f));
                            lemma_find_push(tcore, f, ifn);
                            assert(find_file_line(tes@, ifn) == Some(stub_line_of(cfg)));
                            // The rescan's listing prepares to the same
                            // entries: the stub file itself is excluded.
                            tcore.lemma_filter_push(f, relevant_pred());
                            assert(relevant_pred()(f));
                            assert(relevant_of(tes@) == relevant_of(tcore).push(f));
                            assert forall|j: int|
                                0 <= j < relevant_of(tcore).len() implies entry_name(
                                #[trigger] relevant_of(tcore)[j],
                            ) != entry_name(f) by {
                                relevant_of(tcore).lemma_index_contains(j);
                                tcore.lemma_filter_contains_rev(
                                    relevant_pred(),
                                    relevant_of(tcore)[j],
                                );
                                let k = choose|k: int|
                                    0 <= k < tcore.len() && tcore[k] == relevant_of(tcore)[j];
                                lemma_stubbed_entry_basics(es@[k], tcore[k], cfg);
                                lemma_find_none_no_file(es@, ifn);
                                match es@[k] {
                                    Entry::File { .. } => {},
                                    Entry::Dir { .. } => {},
                                }
                            }
                            lemma_sort_push(relevant_of(tcore), f);
                            assert(!keep_pred(false, cfg)(f));
                            lemma_filter_insert(
                                f,
                                sort_entries(relevant_of(tcore)),
                                keep_pred(false, cfg),
                            );
                            assert(prepared(tes@, false, cfg) == prepared(tcore, false, cfg));
                            lemma_stubbed_prepared(es@, tcore, false, cfg);
                            lemma_prepared_bounds(tcore, false, cfg);
                            assert(entries_height(tcore) <= entries_height(tes@)) by {
                                crate::tree::lemma_height_all_in(tcore, tes@);
                            }
                            lemma_stubbed_nodes(
                                prep_s,
                                prepared(tcore, false, cfg),
                                0,
                                dp.push(name@),
                                num,
                                cfg,
                            );
                        }
                        assert(match (
                            node_plan(ks[i], dp, num, cfg),
                            node_plan(kt[i], dp, num, cfg),
                        ) {
                            (Ok(a), Ok(b)) => a.0 == b.0 && b.1 == Seq::<PathV>::empty(),
                            _ => false,
                        });
                    },
                }
            },
        }
    }
}

/// Stub idempotence. The first run over snapshot `s`, with stub creation
/// enabled, succeeds and names the stubs to create. If `t` is the rescanned
/// snapshot once those stubs exist — files unchanged, each formerly
/// index-less directory now ending in the stub document — then the second
/// run yields structurally the same chapter tree as the first, as if the
/// stubs had pre-existed, and asks for no stubs at all.
pub proof fn lemma_stub_idempotent(
    s: Seq<Entry>,
    t: Seq<Entry>,
    dp: PathV,
    pf: Seq<u32>,
    is_root: bool,
    cfg: Config,
)
    requires
        cfg.create_missing_index,
        cfg.index_base_name@.len() > 0,
        stubbed(s, t, cfg),
        no_dir_named(s, index_file_of(cfg)),
    ensures
        match (build_dir(s, dp, pf, is_root, cfg), build_dir(t, dp, pf, is_root, cfg)) {
            (Ok(first), Ok(second)) => first.0 == second.0 && second.1 == Seq::<PathV>::empty(),
            _ => false,
        },
{
    lemma_stubbed_prepared(s, t, is_root, cfg);
    lemma_no_dir_named_prepared(s, is_root, cfg, index_file_of(cfg));
    lemma_stubbed_nodes(
        prepared(s, is_root, cfg),
        prepared(t, is_root, cfg),
        0,
        dp,
        pf,
        cfg,
    );
}

} // verus!
