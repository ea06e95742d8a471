//! Path-string derivations used by the database registry and the directory
//! listing: the file-name part of a path, the recognized database extension,
//! the display name with that extension stripped, and the path relative to a
//! scan root.
//!
//! Paths are treated as plain strings whose components are separated by
//! '/'; a scan root is given without a trailing separator.

use vstd::prelude::*;
use vstd::string::StrSliceExecFns;
use vstd::string::StringExecFns;
use crate::text::str_eq;

verus! {

/// The suffix of `p` after the last occurrence of `sep`; all of `p` when
/// `sep` does not occur.
pub open spec fn spec_after_last(p: Seq<char>, sep: char) -> Seq<char>
    decreases p,
{
    if p.len() == 0 {
        p
    } else if p.last() == sep {
        Seq::empty()
    } else {
        spec_after_last(p.drop_last(), sep).push(p.last())
    }
}

/// The file-name part of a path: everything after the last separator.
pub open spec fn spec_file_name(p: Seq<char>) -> Seq<char> {
    spec_after_last(p, '/')
}

/// Whether `s` ends with `suffix`.
pub open spec fn spec_ends_with(s: Seq<char>, suffix: Seq<char>) -> bool {
    s.len() >= suffix.len() && s.skip(s.len() - suffix.len()) == suffix
}

/// Whether a path carries the recognized database extension: its file name
/// ends with `.lbdb` and has at least one character before the dot.
pub open spec fn spec_has_db_extension(p: Seq<char>) -> bool {
    let f = spec_file_name(p);
    f.len() > ".lbdb"@.len() && spec_ends_with(f, ".lbdb"@)
}

/// The display name of a database file: its file name with the recognized
/// extension removed.
pub open spec fn spec_db_name(p: Seq<char>) -> Seq<char> {
    let f = spec_file_name(p);
    f.take(f.len() - ".lbdb"@.len())
}

/// `p` relative to the root `base`: `p` without the leading `base` and one
/// separator when `p` lies under `base`, otherwise `p` itself.
pub open spec fn spec_relative_to(p: Seq<char>, base: Seq<char>) -> Seq<char> {
    if p.len() > base.len() + 1 && p.take(base.len() as int) == base && p[base.len() as int]
        == '/' {
        p.skip(base.len() as int + 1)
    } else {
        p
    }
}

proof fn lemma_after_last_skip(p: Seq<char>, sep: char, k: int)
    requires
        0 <= k < p.len(),
        p[k] == sep,
        forall|j: int| k < j < p.len() ==> p[j] != sep,
    ensures
        spec_after_last(p, sep) =~= p.skip(k + 1),
    decreases p,
{
    if k == p.len() - 1 {
    } else {
        lemma_after_last_skip(p.drop_last(), sep, k);
        assert(p.drop_last().skip(k + 1).push(p.last()) =~= p.skip(k + 1));
    }
}

proof fn lemma_after_last_no_sep(p: Seq<char>, sep: char)
    requires
        forall|j: int| 0 <= j < p.len() ==> p[j] != sep,
    ensures
        spec_after_last(p, sep) =~= p,
    decreases p,
{
    if p.len() > 0 {
        lemma_after_last_no_sep(p.drop_last(), sep);
    }
}

/// The file-name part of `p`: everything after its last '/'.
pub fn file_name_part(p: &str) -> (r: String)
    ensures
        r@ == spec_file_name(p@),
{
    let n = p.unicode_len();
    let mut cut: usize = 0;
    let mut i: usize = 0;
    let mut found = false;
    while i < n
        invariant
            n == p@.len(),
            i <= n,
            found ==> cut < i && p@[cut as int] == '/' && forall|j: int|
                cut < j < i ==> p@[j] != '/',
            !found ==> cut == 0 && forall|j: int| 0 <= j < i ==> p@[j] != '/',
        decreases n - i,
    {
        if p.get_char(i) == '/' {
            cut = i;
            found = true;
        }
        i += 1;
    }
    if found {
        let sub = p.substring_char(cut + 1, n);
        proof {
            lemma_after_last_skip(p@, '/', cut as int);
            assert(sub@ =~= p@.skip(cut + 1));
        }
        String::from_str(sub)
    } else {
        proof {
            lemma_after_last_no_sep(p@, '/');
        }
        String::from_str(p)
    }
}

/// Whether `s` ends with the recognized `.lbdb` extension preceded by at
/// least one character.
pub fn has_db_extension(p: &str) -> (r: bool)
    ensures
        r == spec_has_db_extension(p@),
{
    let f = file_name_part(p);
    let fl = f.as_str().unicode_len();
    proof {
        reveal_strlit(".lbdb");
    }
    if fl <= 5 {
        return false;
    }
    let tail = f.as_str().substring_char(fl - 5, fl);
    let r = str_eq(tail, ".lbdb");
    proof {
        assert(tail@ =~= spec_file_name(p@).skip(fl - 5));
    }
    r
}

/// The display name of a database file: its file name with the `.lbdb`
/// extension stripped.
pub fn db_display_name(p: &str) -> (r: String)
    requires
        spec_has_db_extension(p@),
    ensures
        r@ == spec_db_name(p@),
{
    let f = file_name_part(p);
    let fl = f.as_str().unicode_len();
    proof {
        reveal_strlit(".lbdb");
        assert(fl > 5);
    }
    let stem = f.as_str().substring_char(0, fl - 5);
    proof {
        assert(stem@ =~= spec_db_name(p@));
    }
    String::from_str(stem)
}

/// `p` relative to the root `base`, which is given without a trailing
/// separator.
pub fn relative_to(p: &str, base: &str) -> (r: String)
    ensures
        r@ == spec_relative_to(p@, base@),
{
    let pl = p.unicode_len();
    let bl = base.unicode_len();
    if pl > bl && pl - bl > 1 {
        let prefix = p.substring_char(0, bl);
        if str_eq(prefix, base) && p.get_char(bl) == '/' {
            let sub = p.substring_char(bl + 1, pl);
            proof {
                assert(prefix@ =~= p@.take(bl as int));
                assert(sub@ =~= p@.skip(bl + 1));
            }
            return String::from_str(sub);
        }
        proof {
            assert(prefix@ =~= p@.take(bl as int));
        }
    }
    String::from_str(p)
}

} // verus!
