//! The database registry: a merged, id-stable view over databases scanned
//! from a root directory and databases registered explicitly.
//!
//! The registered set is the only mutable state.  Every listing merges one
//! scan result with the registered entries — scanned entries first, each
//! group in its own order — and assigns ids `0..N-1` by position, so ids are
//! recomputed on every listing and never persisted.

use vstd::prelude::*;
use vstd::string::StringExecFns;
use crate::paths::{
    db_display_name, has_db_extension, relative_to, spec_db_name, spec_has_db_extension,
    spec_relative_to,
};
use crate::text::str_eq;

verus! {

/// One database known to the registry, as handed to callers: its position
/// in the current listing, its display name, its absolute path and its path
/// relative to the scan root.
#[derive(Debug)]
pub struct DatabaseInfo {
    pub id: usize,
    pub name: String,
    pub path: String,
    pub relative_path: String,
}

/// Mathematical view of a `DatabaseInfo`.
#[verifier::ext_equal]
pub ghost struct SpecDatabaseInfo {
    pub id: int,
    pub name: Seq<char>,
    pub path: Seq<char>,
    pub relative_path: Seq<char>,
}

impl View for DatabaseInfo {
    type V = SpecDatabaseInfo;

    open spec fn view(&self) -> SpecDatabaseInfo {
        SpecDatabaseInfo {
            id: self.id as int,
            name: self.name@,
            path: self.path@,
            relative_path: self.relative_path@,
        }
    }
}

impl DeepView for DatabaseInfo {
    type V = SpecDatabaseInfo;

    open spec fn deep_view(&self) -> SpecDatabaseInfo {
        self.view()
    }
}

/// Why a registration was rejected.
#[derive(Clone, Copy, Debug, PartialEq, Eq, Structural)]
pub enum RegisterError {
    /// The given path is empty.
    EmptyPath,
    /// The resolved absolute path does not exist.
    NotFound,
    /// The path does not carry the recognized database extension.
    WrongExtension,
    /// An entry with the same absolute path is already registered.
    AlreadyRegistered,
}

impl RegisterError {
    /// The human-readable message for this rejection.
    pub open spec fn spec_message(self) -> Seq<char> {
        match self {
            RegisterError::EmptyPath => "filePath is required"@,
            RegisterError::NotFound => "File not found"@,
            RegisterError::WrongExtension => "Only .lbdb files are supported"@,
            RegisterError::AlreadyRegistered => "Database already added"@,
        }
    }

    /// Renders this rejection as its message.
    pub fn message(&self) -> (m: String)
        ensures
            m@ == self.spec_message(),
    {
        match self {
            RegisterError::EmptyPath => String::from_str("filePath is required"),
            RegisterError::NotFound => String::from_str("File not found"),
            RegisterError::WrongExtension => String::from_str("Only .lbdb files are supported"),
            RegisterError::AlreadyRegistered => String::from_str("Database already added"),
        }
    }
}

/// The registry's mutable state: the explicitly registered databases, in
/// registration order.  The container itself stays private; it is read and
/// changed only through the listing and registration operations.
pub struct Registry {
    custom: Vec<DatabaseInfo>,
}

impl View for Registry {
    type V = Seq<SpecDatabaseInfo>;

    closed spec fn view(&self) -> Seq<SpecDatabaseInfo> {
        self.custom.deep_view()
    }
}

/// The merged listing: scanned entries followed by registered entries, with
/// ids reassigned to match list position.
pub open spec fn spec_merged(
    scanned: Seq<SpecDatabaseInfo>,
    custom: Seq<SpecDatabaseInfo>,
) -> Seq<SpecDatabaseInfo> {
    (scanned + custom).map(
        |i: int, d: SpecDatabaseInfo|
            SpecDatabaseInfo { id: i, name: d.name, path: d.path, relative_path: d.relative_path },
    )
}

/// The scanned entry derived from one file path under the scan root, when
/// the file carries the recognized extension: the name is the file name
/// with the extension stripped, and the relative path is the path without
/// the root prefix.  Ids are assigned later, at listing time.
pub open spec fn spec_scan_entry(path: Seq<char>, base: Seq<char>) -> SpecDatabaseInfo {
    SpecDatabaseInfo {
        id: 0,
        name: spec_db_name(path),
        path: path,
        relative_path: spec_relative_to(path, base),
    }
}

/// The entry stored for one explicitly registered absolute path: named by
/// its file name without the extension, with the absolute path standing in
/// for the relative one.  Ids are assigned later, at listing time.
pub open spec fn spec_registered_entry(abs_path: Seq<char>) -> SpecDatabaseInfo {
    SpecDatabaseInfo {
        id: 0,
        name: spec_db_name(abs_path),
        path: abs_path,
        relative_path: abs_path,
    }
}

/// The rejection, if any, that registering `abs_path` meets against the
/// registered set `custom`: an empty original path, a nonexistent file, a
/// missing extension and a duplicate path are checked in that order.
pub open spec fn spec_register_outcome(
    custom: Seq<SpecDatabaseInfo>,
    file_path: Seq<char>,
    abs_path: Seq<char>,
    path_exists: bool,
) -> Option<RegisterError> {
    if file_path.len() == 0 {
        Some(RegisterError::EmptyPath)
    } else if !path_exists {
        Some(RegisterError::NotFound)
    } else if !spec_has_db_extension(abs_path) {
        Some(RegisterError::WrongExtension)
    } else if exists|j: int| 0 <= j < custom.len() && custom[j].path == abs_path {
        Some(RegisterError::AlreadyRegistered)
    } else {
        None
    }
}

/// The registered set after attempting a registration: extended by one
/// entry on success, unchanged on rejection.
pub open spec fn spec_register_state(
    custom: Seq<SpecDatabaseInfo>,
    file_path: Seq<char>,
    abs_path: Seq<char>,
    path_exists: bool,
) -> Seq<SpecDatabaseInfo> {
    if spec_register_outcome(custom, file_path, abs_path, path_exists) is None {
        custom.push(spec_registered_entry(abs_path))
    } else {
        custom
    }
}

/// The scanned entry for one file path under the scan root, when the file
/// carries the recognized database extension.
pub fn scan_entry(path: &str, base: &str) -> (r: Option<DatabaseInfo>)
    ensures
        match r {
            Some(d) => spec_has_db_extension(path@) && d@ == spec_scan_entry(path@, base@),
            None => !spec_has_db_extension(path@),
        },
{
    if !has_db_extension(path) {
        return None;
    }
    let name = db_display_name(path);
    let relative_path = relative_to(path, base);
    Some(DatabaseInfo { id: 0, name, path: String::from_str(path), relative_path })
}

impl Registry {
    /// A registry with no explicitly registered databases.
    pub fn new() -> (r: Registry)
        ensures
            r@ =~= Seq::<SpecDatabaseInfo>::empty(),
    {
        Registry { custom: Vec::new() }
    }

    /// The number of explicitly registered databases.
    pub fn registered_count(&self) -> (n: usize)
        ensures
            n == self@.len(),
    {
        self.custom.len()
    }

    /// The full, freshly numbered listing: the scanned entries, then the
    /// registered entries, with ids `0..N-1` assigned in that order.
    pub fn get_all_databases(&self, scanned: &Vec<DatabaseInfo>) -> (all: Vec<DatabaseInfo>)
        requires
            scanned@.len() + self@.len() <= usize::MAX,
        ensures
            all.deep_view() == spec_merged(scanned.deep_view(), self@),
    {
        let ghost merged = spec_merged(scanned.deep_view(), self@);
        let mut all: Vec<DatabaseInfo> = Vec::new();
        let mut i: usize = 0;
        while i < scanned.len()
            invariant
                i <= scanned@.len(),
                merged == spec_merged(scanned.deep_view(), self@),
                scanned@.len() + self@.len() <= usize::MAX,
                all.deep_view().len() == i,
                forall|k: int| 0 <= k < i ==> all.deep_view()[k] == merged[k],
            decreases scanned@.len() - i,
        {
            let d = &scanned[i];
            all.push(
                DatabaseInfo {
                    id: i,
                    name: d.name.clone(),
                    path: d.path.clone(),
                    relative_path: d.relative_path.clone(),
                },
            );
            i += 1;
        }
        let mut j: usize = 0;
        while j < self.custom.len()
            invariant
                j <= self@.len(),
                i == scanned@.len(),
                merged == spec_merged(scanned.deep_view(), self@),
                scanned@.len() + self@.len() <= usize::MAX,
                all.deep_view().len() == i + j,
                forall|k: int| 0 <= k < i + j ==> all.deep_view()[k] == merged[k],
            decreases self@.len() - j,
        {
            let d = &self.custom[j];
            all.push(
                DatabaseInfo {
                    id: i + j,
                    name: d.name.clone(),
                    path: d.path.clone(),
                    relative_path: d.relative_path.clone(),
                },
            );
            j += 1;
        }
        proof {
            assert(all.deep_view() =~= merged);
        }
        all
    }

    /// Registers the database at `abs_path`.  `file_path` is the path as
    /// originally given, checked only for emptiness; `abs_path` is its
    /// resolved absolute form; `path_exists` says whether a file exists at
    /// that absolute path.  On success the entry is appended to the
    /// registered set and returned with the id it takes in a listing whose
    /// scan half has `scanned_count` entries.
    pub fn add_database(
        &mut self,
        scanned_count: usize,
        file_path: &str,
        abs_path: &str,
        path_exists: bool,
    ) -> (r: Result<DatabaseInfo, RegisterError>)
        requires
            scanned_count + old(self)@.len() < usize::MAX,
        ensures
            final(self)@ == spec_register_state(old(self)@, file_path@, abs_path@, path_exists),
            match r {
                Ok(info) => spec_register_outcome(
                    old(self)@,
                    file_path@,
                    abs_path@,
                    path_exists,
                ) is None && info@ == (SpecDatabaseInfo {
                    id: scanned_count + old(self)@.len(),
                    name: spec_db_name(abs_path@),
                    path: abs_path@,
                    relative_path: abs_path@,
                }),
                Err(e) => spec_register_outcome(old(self)@, file_path@, abs_path@, path_exists)
                    == Some(e),
            },
    {
        if file_path.is_empty() {
            return Err(RegisterError::EmptyPath);
        }
        if !path_exists {
            return Err(RegisterError::NotFound);
        }
        if !has_db_extension(abs_path) {
            return Err(RegisterError::WrongExtension);
        }
        let mut j: usize = 0;
        while j < self.custom.len()
            invariant
                j <= self@.len(),
                self@ == old(self)@,
                file_path@.len() != 0,
                path_exists,
                spec_has_db_extension(abs_path@),
                forall|k: int| 0 <= k < j ==> self@[k].path != abs_path@,
            decreases self@.len() - j,
        {
            if str_eq(self.custom[j].path.as_str(), abs_path) {
                proof {
                    assert(old(self)@[j as int].path == abs_path@);
                    assert(spec_register_outcome(old(self)@, file_path@, abs_path@, path_exists)
                        == Some(RegisterError::AlreadyRegistered));
                }
                return Err(RegisterError::AlreadyRegistered);
            }
            j += 1;
        }
        let name = db_display_name(abs_path);
        let ap = String::from_str(abs_path);
        let rid = scanned_count + self.custom.len();
        let ghost pre = self@;
        self.custom.push(
            DatabaseInfo {
                id: 0,
                name: name.clone(),
                path: ap.clone(),
                relative_path: ap.clone(),
            },
        );
        proof {
            assert(self@ =~= pre.push(spec_registered_entry(abs_path@)));
        }
        Ok(DatabaseInfo { id: rid, name, path: ap.clone(), relative_path: ap })
    }
}

/// Law: in every listing, ids form the contiguous sequence `0..N-1` in list
/// position order, the scanned entries come first in scan order, and the
/// registered entries follow in registration order.
pub proof fn lemma_listing_ids_sequential(
    scanned: Seq<SpecDatabaseInfo>,
    custom: Seq<SpecDatabaseInfo>,
)
    ensures
        spec_merged(scanned, custom).len() == scanned.len() + custom.len(),
        forall|i: int|
            0 <= i < scanned.len() + custom.len() ==> #[trigger] spec_merged(scanned, custom)[i].id
                == i,
        forall|i: int|
            0 <= i < scanned.len() ==> #[trigger] spec_merged(scanned, custom)[i].name
                == scanned[i].name && spec_merged(scanned, custom)[i].path == scanned[i].path
                && spec_merged(scanned, custom)[i].relative_path == scanned[i].relative_path,
        forall|i: int|
            scanned.len() <= i < scanned.len() + custom.len() ==> #[trigger] spec_merged(
                scanned,
                custom,
            )[i].name == custom[i - scanned.len()].name && spec_merged(scanned, custom)[i].path
                == custom[i - scanned.len()].path && spec_merged(scanned, custom)[i].relative_path
                == custom[i - scanned.len()].relative_path,
{
}

/// Law: a registration that succeeds makes the same absolute path a
/// duplicate, so registering it again is rejected and leaves the registered
/// set unchanged; the set grows by exactly one entry over the two calls.
pub proof fn lemma_register_twice_errors(
    custom: Seq<SpecDatabaseInfo>,
    file_path: Seq<char>,
    abs_path: Seq<char>,
)
    requires
        spec_register_outcome(custom, file_path, abs_path, true) is None,
    ensures
        ({
            let after = spec_register_state(custom, file_path, abs_path, true);
            &&& after.len() == custom.len() + 1
            &&& spec_register_outcome(after, file_path, abs_path, true) == Some(
                RegisterError::AlreadyRegistered,
            )
            &&& spec_register_state(after, file_path, abs_path, true) == after
        }),
{
    let after = spec_register_state(custom, file_path, abs_path, true);
    assert(after[custom.len() as int].path == abs_path);
}

/// Law: with a nonempty original path, a nonexistent file is rejected as
/// not found, and an existing file without the recognized extension is
/// rejected as unsupported; in both cases the registered set is unchanged.
pub proof fn lemma_register_rejects_invalid(
    custom: Seq<SpecDatabaseInfo>,
    file_path: Seq<char>,
    abs_path: Seq<char>,
    path_exists: bool,
)
    requires
        file_path.len() > 0,
    ensures
        !path_exists ==> spec_register_outcome(custom, file_path, abs_path, path_exists) == Some(
            RegisterError::NotFound,
        ) && spec_register_state(custom, file_path, abs_path, path_exists) == custom,
        path_exists && !spec_has_db_extension(abs_path) ==> spec_register_outcome(
            custom,
            file_path,
            abs_path,
            path_exists,
        ) == Some(RegisterError::WrongExtension) && spec_register_state(
            custom,
            file_path,
            abs_path,
            path_exists,
        ) == custom,
{
}

} // verus!
