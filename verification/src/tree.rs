//! The in-memory model of the scanned directory tree.
//!
//! The host snapshots the real filesystem into this shape before the chapter
//! tree is built: every regular file appears as [`Entry::File`] carrying its
//! name and its raw first line (empty for an empty document), every
//! subdirectory as [`Entry::Dir`] with its own entries in any order. Entries
//! that are neither regular files nor directories are not represented; the
//! builder itself discards files without the document extension.

use vstd::prelude::*;

verus! {

/// One directory entry of the snapshot.
pub enum Entry {
    /// A regular file: its filename and the first line of its content, as
    /// read (a trailing line terminator is tolerated and trimmed during
    /// title derivation).
    File { name: String, first_line: String },
    /// A subdirectory and the entries inside it.
    Dir { name: String, entries: Vec<Entry> },
}

/// The filename of an entry.
pub open spec fn entry_name(e: Entry) -> Seq<char> {
    match e {
        Entry::File { name, .. } => name@,
        Entry::Dir { name, .. } => name@,
    }
}

/// The first line of a file entry; a directory has none.
pub open spec fn file_line(e: Entry) -> Option<Seq<char>> {
    match e {
        Entry::File { first_line, .. } => Some(first_line@),
        Entry::Dir { .. } => None,
    }
}

/// Height of a single entry: files count 1, a directory one more than its
/// contents. Used as the termination measure of the tree recursion.
pub open spec fn entry_height(e: Entry) -> nat
    decreases e,
{
    match e {
        Entry::File { .. } => 1,
        Entry::Dir { entries, .. } => 1 + entries_height(entries@),
    }
}

/// Height of a directory listing: the largest entry height in it.
pub open spec fn entries_height(s: Seq<Entry>) -> nat
    decreases s,
{
    if s.len() == 0 {
        0
    } else {
        let rest = entries_height(s.drop_first());
        if entry_height(s[0]) >= rest {
            entry_height(s[0])
        } else {
            rest
        }
    }
}

/// Every directory of the tree is small enough for its chapters to be
/// numbered with 32-bit section numbers.
pub open spec fn counts_fit(s: Seq<Entry>) -> bool
    decreases s,
{
    s.len() <= u32::MAX && forall|i: int|
        0 <= i < s.len() ==> match #[trigger] s[i] {
            Entry::File { .. } => true,
            Entry::Dir { entries, .. } => counts_fit(entries@),
        }
}

/// An element's height never exceeds its listing's height.
pub proof fn lemma_elem_height(s: Seq<Entry>, i: int)
    requires
        0 <= i < s.len(),
    ensures
        entry_height(s[i]) <= entries_height(s),
    decreases s.len(),
{
    if i > 0 {
        lemma_elem_height(s.drop_first(), i - 1);
    }
}

/// A listing made of elements drawn from `s` is at most as high as `s`.
pub proof fn lemma_height_all_in(t: Seq<Entry>, s: Seq<Entry>)
    requires
        forall|j: int| 0 <= j < t.len() ==> s.contains(#[trigger] t[j]),
    ensures
        entries_height(t) <= entries_height(s),
    decreases t.len(),
{
    if t.len() > 0 {
        let e = t[0];
        let i = choose|i: int| 0 <= i < s.len() && s[i] == e;
        lemma_elem_height(s, i);
        assert(forall|j: int| 0 <= j < t.drop_first().len() ==> s.contains(
            #[trigger] t.drop_first()[j],
        ));
        lemma_height_all_in(t.drop_first(), s);
    }
}

impl Entry {
    /// The filename of this entry.
    pub fn name_ref(&self) -> (r: &String)
        ensures
            r@ == entry_name(*self),
    {
        match self {
            Entry::File { name, .. } => name,
            Entry::Dir { name, .. } => name,
        }
    }

    /// Whether this entry is a subdirectory.
    pub fn is_dir(&self) -> (r: bool)
        ensures
            r == (*self is Dir),
    {
        match self {
            Entry::File { .. } => false,
            Entry::Dir { .. } => true,
        }
    }
}

} // verus!
