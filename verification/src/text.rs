//! Character-level helpers: lexicographic filename ordering, filename stems,
//! the document extension test, and display-title derivation from a leading
//! heading line.

use vstd::prelude::*;

use crate::config::Config;

verus! {

/// Strict byte-wise (code-point-wise) lexicographic order on character
/// sequences; the sole ordering authors control chapter order with.
pub open spec fn lex_lt(a: Seq<char>, b: Seq<char>) -> bool
    decreases a.len(),
{
    if b.len() == 0 {
        false
    } else if a.len() == 0 {
        true
    } else if a[0] < b[0] {
        true
    } else if a[0] == b[0] {
        lex_lt(a.skip(1), b.skip(1))
    } else {
        false
    }
}

/// Reflexive closure of [`lex_lt`].
pub open spec fn lex_le(a: Seq<char>, b: Seq<char>) -> bool {
    lex_lt(a, b) || a == b
}

/// The strict order is asymmetric.
pub proof fn lemma_lex_lt_asymmetric(a: Seq<char>, b: Seq<char>)
    ensures
        lex_lt(a, b) ==> !lex_lt(b, a),
    decreases a.len(),
{
    if a.len() > 0 && b.len() > 0 && a[0] == b[0] {
        lemma_lex_lt_asymmetric(a.skip(1), b.skip(1));
    }
}

/// Any two names are comparable.
pub proof fn lemma_lex_lt_total(a: Seq<char>, b: Seq<char>)
    ensures
        lex_lt(a, b) || lex_lt(b, a) || a == b,
    decreases a.len(),
{
    if a.len() == 0 && b.len() == 0 {
        assert(a =~= b);
    } else if a.len() > 0 && b.len() > 0 && a[0] == b[0] {
        lemma_lex_lt_total(a.skip(1), b.skip(1));
        if a.skip(1) == b.skip(1) {
            assert(a.skip(1).len() == a.len() - 1);
            assert(b.skip(1).len() == b.len() - 1);
            assert forall|i: int| 0 <= i < a.len() implies a[i] == b[i] by {
                if i > 0 {
                    assert(a.skip(1)[i - 1] == a[i]);
                    assert(b.skip(1)[i - 1] == b[i]);
                }
            }
            assert(a =~= b);
        }
    }
}

/// The strict order is transitive.
pub proof fn lemma_lex_lt_transitive(a: Seq<char>, b: Seq<char>, c: Seq<char>)
    requires
        lex_lt(a, b),
        lex_lt(b, c),
    ensures
        lex_lt(a, c),
    decreases a.len(),
{
    if a.len() > 0 && b.len() > 0 && c.len() > 0 && a[0] == b[0] && b[0] == c[0] {
        lemma_lex_lt_transitive(a.skip(1), b.skip(1), c.skip(1));
    }
}

/// Index of the last `'.'` in `name`, or `-1` when there is none.
pub open spec fn last_dot(name: Seq<char>) -> int
    decreases name.len(),
{
    if name.len() == 0 {
        -1
    } else if name.last() == '.' {
        name.len() - 1
    } else {
        last_dot(name.drop_last())
    }
}

pub proof fn lemma_last_dot_range(name: Seq<char>)
    ensures
        -1 <= last_dot(name) < name.len(),
        last_dot(name) >= 0 ==> name[last_dot(name)] == '.',
    decreases name.len(),
{
    if name.len() > 0 && name.last() != '.' {
        lemma_last_dot_range(name.drop_last());
    }
}

/// The filename stem: everything before the final dot, except that a name
/// whose only dot leads (or that has no dot at all) is its own stem.
pub open spec fn stem_of(name: Seq<char>) -> Seq<char> {
    if last_dot(name) > 0 {
        name.take(last_dot(name))
    } else {
        name
    }
}

/// Whether `name` carries the document extension `.md` (a non-leading final
/// dot followed by exactly `md`).
pub open spec fn is_markdown(name: Seq<char>) -> bool {
    let ld = last_dot(name);
    ld > 0 && name.len() == ld + 3 && name[ld + 1] == 'm' && name[ld + 2] == 'd'
}

/// The first line with its terminator (`"\n"` or `"\r\n"`) removed.
pub open spec fn trim_line_end(s: Seq<char>) -> Seq<char> {
    let t = if s.len() > 0 && s.last() == '\n' {
        s.drop_last()
    } else {
        s
    };
    if t.len() > 0 && t.last() == '\r' {
        t.drop_last()
    } else {
        t
    }
}

/// The text after a leading `"# "` heading marker on the (trimmed) first
/// line, if the line has that shape.
pub open spec fn heading_of(line: Seq<char>) -> Option<Seq<char>> {
    let t = trim_line_end(line);
    if t.len() >= 2 && t[0] == '#' && t[1] == ' ' {
        Some(t.skip(2))
    } else {
        None
    }
}

/// The display title of a chapter: the heading text of the content document's
/// first line when title derivation is on and the line is a heading,
/// otherwise the fallback (the filesystem stem).
pub open spec fn title_for(first_line: Option<Seq<char>>, fallback: Seq<char>, derive: bool) -> Seq<
    char,
> {
    if derive {
        match first_line {
            Some(l) => match heading_of(l) {
                Some(t) => t,
                None => fallback,
            },
            None => fallback,
        }
    } else {
        fallback
    }
}

fn lex_lt_from(a: &str, b: &str, i: usize) -> (r: bool)
    requires
        i <= a@.len(),
        i <= b@.len(),
    ensures
        r == lex_lt(a@.skip(i as int), b@.skip(i as int)),
    decreases a@.len() - i,
{
    let alen = a.unicode_len();
    let blen = b.unicode_len();
    if i == blen {
        false
    } else if i == alen {
        true
    } else {
        let ca = a.get_char(i);
        let cb = b.get_char(i);
        if ca < cb {
            true
        } else if ca == cb {
            proof {
                assert(a@.skip(i as int).skip(1) =~= a@.skip(i + 1));
                assert(b@.skip(i as int).skip(1) =~= b@.skip(i + 1));
            }
            lex_lt_from(a, b, i + 1)
        } else {
            false
        }
    }
}

/// Decides the strict lexicographic filename order.
pub fn str_lt(a: &str, b: &str) -> (r: bool)
    ensures
        r == lex_lt(a@, b@),
{
    proof {
        assert(a@.skip(0) =~= a@);
        assert(b@.skip(0) =~= b@);
    }
    lex_lt_from(a, b, 0)
}

/// Decides [`lex_le`].
pub fn str_le(a: &str, b: &str) -> (r: bool)
    ensures
        r == lex_le(a@, b@),
{
    if str_lt(a, b) {
        true
    } else {
        let r = a.to_owned() == b.to_owned();
        proof {
            if a@ =~= b@ {
                assert(a@ == b@);
            }
        }
        r
    }
}

/// Finds the last dot of a filename, mirroring [`last_dot`].
pub fn find_last_dot(s: &str) -> (r: Option<usize>)
    ensures
        match r {
            Some(i) => last_dot(s@) == i as int,
            None => last_dot(s@) == -1,
        },
{
    let len = s.unicode_len();
    let mut i: usize = len;
    proof {
        assert(s@.take(len as int) =~= s@);
    }
    while i > 0
        invariant
            i <= len,
            len == s@.len(),
            last_dot(s@) == last_dot(s@.take(i as int)),
        decreases i,
    {
        let c = s.get_char(i - 1);
        if c == '.' {
            proof {
                assert(s@.take(i as int).last() == s@[i - 1]);
            }
            return Some(i - 1);
        }
        proof {
            assert(s@.take(i as int).drop_last() =~= s@.take(i - 1));
        }
        i = i - 1;
    }
    None
}

/// Decides whether a filename carries the document extension.
pub fn markdown_file(name: &str) -> (r: bool)
    ensures
        r == is_markdown(name@),
{
    match find_last_dot(name) {
        None => false,
        Some(ld) => {
            if ld == 0 {
                false
            } else {
                proof {
                    lemma_last_dot_range(name@);
                }
                let len = name.unicode_len();
                len - ld == 3 && name.get_char(ld + 1) == 'm' && name.get_char(ld + 2) == 'd'
            }
        },
    }
}

/// The filename stem, mirroring [`stem_of`].
pub fn stem_of_str(name: &str) -> (r: String)
    ensures
        r@ == stem_of(name@),
{
    proof {
        lemma_last_dot_range(name@);
    }
    match find_last_dot(name) {
        Some(ld) => {
            if ld > 0 {
                proof {
                    assert(name@.subrange(0, ld as int) =~= name@.take(ld as int));
                }
                name.substring_char(0, ld).to_owned()
            } else {
                name.to_owned()
            }
        },
        None => name.to_owned(),
    }
}

/// Determines a chapter's display title from the content document's first
/// line (when one is available) and the filesystem-stem fallback.
pub fn name_for(first_line: Option<&str>, fallback: String, config: &Config) -> (r: String)
    ensures
        r@ == title_for(
            match first_line {
                Some(l) => Some(l@),
                None => None,
            },
            fallback@,
            config.derive_title_from_heading,
        ),
{
    if !config.derive_title_from_heading {
        return fallback;
    }
    match first_line {
        None => fallback,
        Some(line) => {
            let len = line.unicode_len();
            let mut end = len;
            if end > 0 && line.get_char(end - 1) == '\n' {
                end = end - 1;
            }
            if end > 0 && line.get_char(end - 1) == '\r' {
                end = end - 1;
            }
            proof {
                assert(line@.take(end as int) =~= trim_line_end(line@));
            }
            if end >= 2 && line.get_char(0) == '#' && line.get_char(1) == ' ' {
                proof {
                    assert(line@.subrange(2, end as int) =~= trim_line_end(line@).skip(2));
                }
                line.substring_char(2, end).to_owned()
            } else {
                fallback
            }
        },
    }
}

} // verus!
