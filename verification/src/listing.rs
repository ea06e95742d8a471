//! Directory-listing rules: dotfiles are hidden, subdirectories are listed
//! unconditionally, and only files carrying the recognized database
//! extension are listed, under their name with that extension stripped.
//! Each group is ordered by name.

use vstd::prelude::*;
use vstd::multiset::Multiset;
use vstd::seq_lib::lemma_multiset_commutative;
use vstd::string::StrSliceExecFns;
use vstd::string::StringExecFns;
use crate::paths::spec_ends_with;
use crate::text::str_eq;

verus! {

broadcast use vstd::seq_lib::group_to_multiset_ensures;

/// Whether a listed entry is a subdirectory or a database file.
#[derive(Clone, Copy, Debug, PartialEq, Eq, Structural)]
pub enum EntryKind {
    Directory,
    File,
}

/// One entry of a directory listing.
#[derive(Debug)]
pub struct DirEntry {
    pub name: String,
    pub path: String,
    pub kind: EntryKind,
}

/// One raw directory entry as read from the filesystem: its plain name,
/// its full path, and whether it is a directory.
#[derive(Debug)]
pub struct RawDirEntry {
    pub name: String,
    pub path: String,
    pub is_dir: bool,
}

/// A directory listing: the current directory, its parent, and the visible
/// subdirectories and database files, each group ordered by name.
#[derive(Debug)]
pub struct DirectoryListing {
    pub current: String,
    pub parent: String,
    pub directories: Vec<DirEntry>,
    pub files: Vec<DirEntry>,
}

/// Mathematical view of a `DirEntry`.
#[verifier::ext_equal]
pub ghost struct SpecDirEntry {
    pub name: Seq<char>,
    pub path: Seq<char>,
    pub kind: EntryKind,
}

/// Mathematical view of a `RawDirEntry`.
#[verifier::ext_equal]
pub ghost struct SpecRawDirEntry {
    pub name: Seq<char>,
    pub path: Seq<char>,
    pub is_dir: bool,
}

/// Mathematical view of a `DirectoryListing`.
#[verifier::ext_equal]
pub ghost struct SpecDirectoryListing {
    pub current: Seq<char>,
    pub parent: Seq<char>,
    pub directories: Seq<SpecDirEntry>,
    pub files: Seq<SpecDirEntry>,
}

impl View for DirEntry {
    type V = SpecDirEntry;

    open spec fn view(&self) -> SpecDirEntry {
        SpecDirEntry { name: self.name@, path: self.path@, kind: self.kind }
    }
}

impl DeepView for DirEntry {
    type V = SpecDirEntry;

    open spec fn deep_view(&self) -> SpecDirEntry {
        self.view()
    }
}

impl View for RawDirEntry {
    type V = SpecRawDirEntry;

    open spec fn view(&self) -> SpecRawDirEntry {
        SpecRawDirEntry { name: self.name@, path: self.path@, is_dir: self.is_dir }
    }
}

impl DeepView for RawDirEntry {
    type V = SpecRawDirEntry;

    open spec fn deep_view(&self) -> SpecRawDirEntry {
        self.view()
    }
}

impl View for DirectoryListing {
    type V = SpecDirectoryListing;

    open spec fn view(&self) -> SpecDirectoryListing {
        SpecDirectoryListing {
            current: self.current@,
            parent: self.parent@,
            directories: self.directories.deep_view(),
            files: self.files.deep_view(),
        }
    }
}

/// Whether an entry name denotes a hidden file: it starts with a dot.
pub open spec fn spec_hidden(name: Seq<char>) -> bool {
    name.len() > 0 && name[0] == '.'
}

/// How one raw entry is listed: hidden entries not at all, directories
/// under their own name, files only when they carry the recognized
/// extension, under their name with the extension stripped.
pub open spec fn spec_classify(e: SpecRawDirEntry) -> Option<SpecDirEntry> {
    if spec_hidden(e.name) {
        None
    } else if e.is_dir {
        Some(SpecDirEntry { name: e.name, path: e.path, kind: EntryKind::Directory })
    } else if spec_ends_with(e.name, ".lbdb"@) {
        Some(
            SpecDirEntry {
                name: e.name.take(e.name.len() - ".lbdb"@.len()),
                path: e.path,
                kind: EntryKind::File,
            },
        )
    } else {
        None
    }
}

/// The listed subdirectories of a raw entry sequence, in input order.
pub open spec fn spec_dir_entries(raw: Seq<SpecRawDirEntry>) -> Seq<SpecDirEntry>
    decreases raw,
{
    if raw.len() == 0 {
        Seq::empty()
    } else {
        let rest = spec_dir_entries(raw.drop_last());
        match spec_classify(raw.last()) {
            Some(d) => if d.kind == EntryKind::Directory {
                rest.push(d)
            } else {
                rest
            },
            None => rest,
        }
    }
}

/// The listed database files of a raw entry sequence, in input order.
pub open spec fn spec_file_entries(raw: Seq<SpecRawDirEntry>) -> Seq<SpecDirEntry>
    decreases raw,
{
    if raw.len() == 0 {
        Seq::empty()
    } else {
        let rest = spec_file_entries(raw.drop_last());
        match spec_classify(raw.last()) {
            Some(d) => if d.kind == EntryKind::File {
                rest.push(d)
            } else {
                rest
            },
            None => rest,
        }
    }
}

/// Lexicographic order on names, by character code.
pub open spec fn spec_lex_le(a: Seq<char>, b: Seq<char>) -> bool
    decreases a,
{
    if a.len() == 0 {
        true
    } else if b.len() == 0 {
        false
    } else if (a[0] as u32) < (b[0] as u32) {
        true
    } else if (a[0] as u32) > (b[0] as u32) {
        false
    } else {
        spec_lex_le(a.drop_first(), b.drop_first())
    }
}

/// `e` inserted into `s` behind every entry whose name does not come after
/// `e`'s, so that insertion into a sorted sequence keeps it sorted and
/// equal names keep their existing order.
pub open spec fn spec_insert_sorted(s: Seq<SpecDirEntry>, e: SpecDirEntry) -> Seq<SpecDirEntry>
    decreases s,
{
    if s.len() > 0 && spec_lex_le(s[0].name, e.name) {
        seq![s[0]] + spec_insert_sorted(s.drop_first(), e)
    } else {
        seq![e] + s
    }
}

/// `s` sorted by name, by inserting its entries one by one in input order.
pub open spec fn spec_sort_by_name(s: Seq<SpecDirEntry>) -> Seq<SpecDirEntry>
    decreases s,
{
    if s.len() == 0 {
        s
    } else {
        spec_insert_sorted(spec_sort_by_name(s.drop_last()), s.last())
    }
}

/// Whether consecutive entries are ordered by name.
pub open spec fn spec_sorted_by_name(s: Seq<SpecDirEntry>) -> bool {
    forall|i: int| #![trigger s[i]] 0 <= i < s.len() - 1 ==> spec_lex_le(s[i].name, s[i + 1].name)
}

/// Either order holds between any two names.
proof fn lemma_lex_total(a: Seq<char>, b: Seq<char>)
    ensures
        spec_lex_le(a, b) || spec_lex_le(b, a),
    decreases a,
{
    if a.len() > 0 && b.len() > 0 && (a[0] as u32) == (b[0] as u32) {
        lemma_lex_total(a.drop_first(), b.drop_first());
    }
}

#[verifier::rlimit(50)]
proof fn lemma_insert_sorted_keeps_sorted(s: Seq<SpecDirEntry>, e: SpecDirEntry)
    requires
        spec_sorted_by_name(s),
    ensures
        spec_sorted_by_name(spec_insert_sorted(s, e)),
    decreases s,
{
    let out = spec_insert_sorted(s, e);
    if s.len() > 0 && spec_lex_le(s[0].name, e.name) {
        assert(spec_sorted_by_name(s.drop_first()));
        lemma_insert_sorted_keeps_sorted(s.drop_first(), e);
        let rest = spec_insert_sorted(s.drop_first(), e);
        assert forall|i: int| #![trigger out[i]] 0 <= i < out.len() - 1 implies spec_lex_le(
            out[i].name,
            out[i + 1].name,
        ) by {
            if i == 0 {
                if s.len() > 1 && spec_lex_le(s[1].name, e.name) {
                    assert(out[1] == rest[0]);
                    assert(rest[0] == s.drop_first()[0]);
                    assert(spec_lex_le(s[0].name, s[1].name));
                } else {
                    assert(out[1] == rest[0]);
                }
            } else {
                assert(out[i] == rest[i - 1]);
                assert(out[i + 1] == rest[i]);
            }
        }
    } else {
        if s.len() > 0 {
            lemma_lex_total(s[0].name, e.name);
        }
        assert forall|i: int| #![trigger out[i]] 0 <= i < out.len() - 1 implies spec_lex_le(
            out[i].name,
            out[i + 1].name,
        ) by {
            if i > 0 {
                assert(out[i] == s[i - 1]);
                assert(out[i + 1] == s[i]);
            }
        }
    }
}

proof fn lemma_insert_sorted_multiset(s: Seq<SpecDirEntry>, e: SpecDirEntry)
    ensures
        spec_insert_sorted(s, e).to_multiset() =~= s.to_multiset().insert(e),
    decreases s,
{
    if s.len() > 0 && spec_lex_le(s[0].name, e.name) {
        lemma_insert_sorted_multiset(s.drop_first(), e);
        let rest = spec_insert_sorted(s.drop_first(), e);
        lemma_multiset_commutative(seq![s[0]], rest);
        lemma_multiset_commutative(seq![s[0]], s.drop_first());
        assert(seq![s[0]] + s.drop_first() =~= s);
        assert(seq![s[0]].to_multiset() =~= Multiset::<SpecDirEntry>::empty().insert(s[0])) by {
            assert(seq![s[0]] =~= Seq::<SpecDirEntry>::empty().push(s[0]));
        }
    } else {
        lemma_multiset_commutative(seq![e], s);
        assert(seq![e].to_multiset() =~= Multiset::<SpecDirEntry>::empty().insert(e)) by {
            assert(seq![e] =~= Seq::<SpecDirEntry>::empty().push(e));
        }
    }
}

/// Law: sorting by name yields a sequence that is ordered by name and holds
/// exactly the same entries, multiplicity included.
pub proof fn lemma_sort_by_name_sorted(s: Seq<SpecDirEntry>)
    ensures
        spec_sorted_by_name(spec_sort_by_name(s)),
        spec_sort_by_name(s).to_multiset() =~= s.to_multiset(),
    decreases s,
{
    if s.len() > 0 {
        lemma_sort_by_name_sorted(s.drop_last());
        lemma_insert_sorted_keeps_sorted(spec_sort_by_name(s.drop_last()), s.last());
        lemma_insert_sorted_multiset(spec_sort_by_name(s.drop_last()), s.last());
        assert(s.drop_last().push(s.last()) =~= s);
    }
}

/// Lexicographic name comparison, by character code.
pub fn lex_le(a: &str, b: &str) -> (r: bool)
    ensures
        r == spec_lex_le(a@, b@),
{
    let la = a.unicode_len();
    let lb = b.unicode_len();
    let min = if la < lb {
        la
    } else {
        lb
    };
    let mut i: usize = 0;
    proof {
        assert(a@.skip(0) =~= a@);
        assert(b@.skip(0) =~= b@);
    }
    while i < min
        invariant
            la == a@.len(),
            lb == b@.len(),
            min == if la < lb {
                la
            } else {
                lb
            },
            i <= min,
            spec_lex_le(a@, b@) == spec_lex_le(a@.skip(i as int), b@.skip(i as int)),
        decreases min - i,
    {
        let ca = a.get_char(i);
        let cb = b.get_char(i);
        proof {
            assert(a@.skip(i as int)[0] == ca);
            assert(b@.skip(i as int)[0] == cb);
        }
        let ca32 = ca as u32;
        let cb32 = cb as u32;
        if ca32 < cb32 {
            return true;
        }
        if ca32 > cb32 {
            return false;
        }
        proof {
            assert(a@.skip(i as int).drop_first() =~= a@.skip(i + 1));
            assert(b@.skip(i as int).drop_first() =~= b@.skip(i + 1));
        }
        i += 1;
    }
    proof {
        if la <= lb {
            assert(a@.skip(i as int).len() == 0);
        } else {
            assert(b@.skip(i as int).len() == 0);
            assert(a@.skip(i as int).len() > 0);
        }
    }
    la <= lb
}

/// How one raw directory entry is listed, if at all.
pub fn classify_entry(e: &RawDirEntry) -> (r: Option<DirEntry>)
    ensures
        match r {
            Some(d) => spec_classify(e@) == Some(d@),
            None => spec_classify(e@) is None,
        },
{
    if !e.name.as_str().is_empty() && e.name.as_str().get_char(0) == '.' {
        return None;
    }
    if e.is_dir {
        return Some(
            DirEntry { name: e.name.clone(), path: e.path.clone(), kind: EntryKind::Directory },
        );
    }
    let nl = e.name.as_str().unicode_len();
    proof {
        reveal_strlit(".lbdb");
    }
    if nl < 5 {
        return None;
    }
    let tail = e.name.as_str().substring_char(nl - 5, nl);
    proof {
        assert(tail@ =~= e.name@.skip(nl - 5));
    }
    if !str_eq(tail, ".lbdb") {
        return None;
    }
    let stem = e.name.as_str().substring_char(0, nl - 5);
    proof {
        assert(stem@ =~= e.name@.take(nl - 5));
    }
    Some(DirEntry { name: String::from_str(stem), path: e.path.clone(), kind: EntryKind::File })
}

fn find_insert_pos(out: &Vec<DirEntry>, e: &DirEntry) -> (pos: usize)
    ensures
        pos <= out@.len(),
        forall|j: int| 0 <= j < pos ==> spec_lex_le(out.deep_view()[j].name, e@.name),
        pos < out@.len() ==> !spec_lex_le(out.deep_view()[pos as int].name, e@.name),
{
    let mut pos: usize = 0;
    while pos < out.len()
        invariant
            pos <= out@.len(),
            forall|j: int| 0 <= j < pos ==> spec_lex_le(out.deep_view()[j].name, e@.name),
        decreases out@.len() - pos,
    {
        if !lex_le(out[pos].name.as_str(), e.name.as_str()) {
            return pos;
        }
        pos += 1;
    }
    pos
}

proof fn lemma_insert_sorted_at(s: Seq<SpecDirEntry>, e: SpecDirEntry, pos: int)
    requires
        0 <= pos <= s.len(),
        forall|j: int| 0 <= j < pos ==> spec_lex_le(s[j].name, e.name),
        pos < s.len() ==> !spec_lex_le(s[pos].name, e.name),
    ensures
        spec_insert_sorted(s, e) =~= s.take(pos) + seq![e] + s.skip(pos),
    decreases pos,
{
    if pos == 0 {
        assert(s.take(0) =~= Seq::<SpecDirEntry>::empty());
        assert(s.skip(0) =~= s);
    } else {
        assert(spec_lex_le(s[0].name, e.name));
        assert forall|j: int| 0 <= j < pos - 1 implies spec_lex_le(
            #[trigger] s.drop_first()[j].name,
            e.name,
        ) by {
            assert(s.drop_first()[j] == s[j + 1]);
        }
        if pos - 1 < s.drop_first().len() {
            assert(s.drop_first()[pos - 1] == s[pos]);
        }
        lemma_insert_sorted_at(s.drop_first(), e, pos - 1);
        assert(seq![s[0]] + (s.drop_first().take(pos - 1) + seq![e] + s.drop_first().skip(
            pos - 1,
        )) =~= s.take(pos) + seq![e] + s.skip(pos));
    }
}

fn insert_sorted(out: &mut Vec<DirEntry>, e: DirEntry)
    ensures
        final(out).deep_view() == spec_insert_sorted(old(out).deep_view(), e@),
{
    let ghost s = old(out).deep_view();
    let pos = find_insert_pos(out, &e);
    proof {
        lemma_insert_sorted_at(s, e@, pos as int);
    }
    out.insert(pos, e);
    proof {
        assert(out.deep_view() =~= s.take(pos as int) + seq![e@] + s.skip(pos as int));
    }
}

/// Builds the listing of one directory from its raw entries: hidden
/// entries are dropped, subdirectories and database files are split into
/// their groups, file names lose the recognized extension, and each group
/// is ordered by name.
pub fn build_listing(current: String, parent: String, entries: &Vec<RawDirEntry>) -> (l:
    DirectoryListing)
    ensures
        l@.current == current@,
        l@.parent == parent@,
        l@.directories == spec_sort_by_name(spec_dir_entries(entries.deep_view())),
        l@.files == spec_sort_by_name(spec_file_entries(entries.deep_view())),
        spec_sorted_by_name(l@.directories),
        spec_sorted_by_name(l@.files),
{
    let ghost raw = entries.deep_view();
    let mut dirs: Vec<DirEntry> = Vec::new();
    let mut files: Vec<DirEntry> = Vec::new();
    proof {
        assert(dirs.deep_view() =~= Seq::<SpecDirEntry>::empty());
        assert(files.deep_view() =~= Seq::<SpecDirEntry>::empty());
        assert(raw.take(0) =~= Seq::<SpecRawDirEntry>::empty());
    }
    let mut i: usize = 0;
    while i < entries.len()
        invariant
            i <= entries@.len(),
            raw == entries.deep_view(),
            dirs.deep_view() == spec_dir_entries(raw.take(i as int)),
            files.deep_view() == spec_file_entries(raw.take(i as int)),
        decreases entries@.len() - i,
    {
        match classify_entry(&entries[i]) {
            Some(d) => {
                if matches!(d.kind, EntryKind::Directory) {
                    dirs.push(d);
                } else {
                    files.push(d);
                }
            },
            None => (),
        }
        proof {
            assert(raw.take(i + 1 as int).drop_last() =~= raw.take(i as int));
            assert(raw.take(i + 1 as int).last() == raw[i as int]);
        }
        i += 1;
    }
    proof {
        assert(raw.take(entries@.len() as int) =~= raw);
    }
    let ghost ds = dirs.deep_view();
    let ghost fs = files.deep_view();
    let mut sorted_dirs: Vec<DirEntry> = Vec::new();
    proof {
        assert(sorted_dirs.deep_view() =~= Seq::<SpecDirEntry>::empty());
        assert(ds.take(0) =~= Seq::<SpecDirEntry>::empty());
    }
    let mut k: usize = 0;
    while k < dirs.len()
        invariant
            k <= dirs@.len(),
            ds == dirs.deep_view(),
            sorted_dirs.deep_view() == spec_sort_by_name(ds.take(k as int)),
        decreases dirs@.len() - k,
    {
        let d = &dirs[k];
        insert_sorted(
            &mut sorted_dirs,
            DirEntry { name: d.name.clone(), path: d.path.clone(), kind: d.kind },
        );
        proof {
            assert(ds.take(k + 1 as int).drop_last() =~= ds.take(k as int));
            assert(ds.take(k + 1 as int).last() == ds[k as int]);
        }
        k += 1;
    }
    proof {
        assert(ds.take(dirs@.len() as int) =~= ds);
    }
    let mut sorted_files: Vec<DirEntry> = Vec::new();
    proof {
        assert(sorted_files.deep_view() =~= Seq::<SpecDirEntry>::empty());
        assert(fs.take(0) =~= Seq::<SpecDirEntry>::empty());
    }
    let mut m: usize = 0;
    while m < files.len()
        invariant
            m <= files@.len(),
            fs == files.deep_view(),
            sorted_files.deep_view() == spec_sort_by_name(fs.take(m as int)),
        decreases files@.len() - m,
    {
        let f = &files[m];
        insert_sorted(
            &mut sorted_files,
            DirEntry { name: f.name.clone(), path: f.path.clone(), kind: f.kind },
        );
        proof {
            assert(fs.take(m + 1 as int).drop_last() =~= fs.take(m as int));
            assert(fs.take(m + 1 as int).last() == fs[m as int]);
        }
        m += 1;
    }
    proof {
        assert(fs.take(files@.len() as int) =~= fs);
        lemma_sort_by_name_sorted(spec_dir_entries(raw));
        lemma_sort_by_name_sorted(spec_file_entries(raw));
    }
    DirectoryListing { current, parent, directories: sorted_dirs, files: sorted_files }
}

} // verus!
