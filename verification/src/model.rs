//! What a collection is, stated over a snapshot's three maps.
//!
//! Every function here is a definition: the executable functions of
//! [`crate::launchd`] are proved to compute them.

use vstd::prelude::*;
use crate::decode::parsed;
use crate::error::LaunchdError;
use crate::guard::admissible;
use crate::paths::{
    agent_directory, has_extension, ACCOUNTS_ROOT, SYSTEM_AGENTS, SYSTEM_AGENTS_SECONDARY,
    SYSTEM_DAEMONS, SYSTEM_DAEMONS_SECONDARY, USER_AGENTS, USER_DAEMONS,
};
use crate::snapshot::{SnapshotView, UNDESCRIBED};

verus! {

/// The two kinds of service definition.
#[derive(Debug, Clone, Copy, PartialEq, Eq, Structural)]
pub enum Kind {
    /// Background services that belong to no user.
    Daemons,
    /// Background services of a user or a user's session.
    Agents,
}

/// The two groups of directories that are searched for a kind.
#[derive(Debug, Clone, Copy, PartialEq, Eq, Structural)]
pub enum Scope {
    /// The directories that an administrator and the users fill.
    User,
    /// The directories of the operating system.
    System,
}

/// A directory that could not be listed, with the failure's description.
pub struct ScanErrorView {
    pub directory: Seq<char>,
    pub detail: Seq<char>,
}

/// A record: what the decoder made of a file, and the file's path.
pub struct LaunchdPlistView {
    pub launchd_data: plist::Dictionary,
    pub plist_path: Seq<char>,
}

/// Something that a collection passed over.
pub enum WarningView {
    /// A scope contributes nothing, because this directory of it could not
    /// be listed.
    ScopeFailed { scope: Scope, error: ScanErrorView },
    /// The file could not be read.
    Unreadable { path: Seq<char>, detail: Seq<char> },
    /// The file's bytes were not handed to the decoder, because it might not
    /// return on them.
    Refused { path: Seq<char> },
    /// The decoder rejected the file's bytes, with this error.
    Malformed { path: Seq<char>, cause: plist::Error },
}

/// What a collection returns: the records or the error, and the warnings in
/// the order in which they arose.
pub struct CollectionView {
    pub outcome: Result<Seq<LaunchdPlistView>, LaunchdError>,
    pub warnings: Seq<WarningView>,
}

/// The full paths of a directory's direct children, files and
/// subdirectories alike, in the order in which the snapshot holds them. A
/// directory whose listing failed, or of which the snapshot holds no listing,
/// cannot be enumerated.
pub open spec fn enumerate(fs: SnapshotView, directory: Seq<char>) -> Result<
    Seq<Seq<char>>,
    ScanErrorView,
> {
    if fs.listings.contains_key(directory) {
        match fs.listings[directory] {
            Ok(children) => Ok(children),
            Err(detail) => Err(ScanErrorView { directory, detail }),
        }
    } else {
        Err(ScanErrorView { directory, detail: UNDESCRIBED@ })
    }
}

/// The children of several directories, one directory after the other. The
/// first directory that cannot be enumerated fails the whole.
pub open spec fn enumerate_all(fs: SnapshotView, directories: Seq<Seq<char>>) -> Result<
    Seq<Seq<char>>,
    ScanErrorView,
>
    decreases directories.len(),
{
    if directories.len() == 0 {
        Ok(Seq::empty())
    } else {
        match enumerate_all(fs, directories.drop_last()) {
            Err(error) => Err(error),
            Ok(found) => match enumerate(fs, directories.last()) {
                Err(error) => Err(error),
                Ok(children) => Ok(found + children),
            },
        }
    }
}

/// The children of several directories, one directory after the other. A
/// directory that cannot be enumerated adds nothing.
pub open spec fn enumerate_any(fs: SnapshotView, directories: Seq<Seq<char>>) -> Seq<Seq<char>>
    decreases directories.len(),
{
    if directories.len() == 0 {
        Seq::empty()
    } else {
        enumerate_any(fs, directories.drop_last()) + contribution(
            enumerate(fs, directories.last()),
        )
    }
}

/// The snapshot says that the path is a directory.
pub open spec fn is_directory(fs: SnapshotView, path: Seq<char>) -> bool {
    fs.directories.contains_key(path) && fs.directories[path]
}

/// The agent directories of the given home directories, in their order,
/// without those that the snapshot does not know as a directory.
pub open spec fn agent_directories(fs: SnapshotView, homes: Seq<Seq<char>>) -> Seq<Seq<char>>
    decreases homes.len(),
{
    if homes.len() == 0 {
        Seq::empty()
    } else {
        let earlier = agent_directories(fs, homes.drop_last());
        let directory = agent_directory(homes.last());
        if is_directory(fs, directory) {
            earlier.push(directory)
        } else {
            earlier
        }
    }
}

/// The directories that a scope of a kind is made of, in the order in which
/// they are searched. Only the user scope of the agents depends on the
/// snapshot: it holds one directory for each entry under the accounts root
/// that has one, and then the directory shared by all users. It cannot be
/// told where the accounts root cannot be enumerated.
pub open spec fn scope_directories(kind: Kind, scope: Scope, fs: SnapshotView) -> Result<
    Seq<Seq<char>>,
    ScanErrorView,
> {
    match (kind, scope) {
        (Kind::Daemons, Scope::User) => Ok(seq![USER_DAEMONS@]),
        (Kind::Daemons, Scope::System) => Ok(seq![SYSTEM_DAEMONS@, SYSTEM_DAEMONS_SECONDARY@]),
        (Kind::Agents, Scope::System) => Ok(seq![SYSTEM_AGENTS@, SYSTEM_AGENTS_SECONDARY@]),
        (Kind::Agents, Scope::User) => match enumerate(fs, ACCOUNTS_ROOT@) {
            Err(error) => Err(error),
            Ok(homes) => Ok(agent_directories(fs, homes).push(USER_AGENTS@)),
        },
    }
}

/// The directories that a collection tries to list for a scope: the accounts
/// root where the scope starts from it, and the directories that the scope is
/// made of, where they can be told.
pub open spec fn searched(kind: Kind, scope: Scope, fs: SnapshotView) -> Seq<Seq<char>> {
    let root = if kind == Kind::Agents && scope == Scope::User {
        seq![ACCOUNTS_ROOT@]
    } else {
        Seq::empty()
    };
    match scope_directories(kind, scope, fs) {
        Ok(directories) => root + directories,
        Err(_) => root,
    }
}

/// The scope tolerates a directory that cannot be listed: the user scope of
/// the agents does, whose directories come and go with the users.
pub open spec fn is_tolerant(kind: Kind, scope: Scope) -> bool {
    kind == Kind::Agents && scope == Scope::User
}

/// The paths found in a scope: the children of all its directories.
///
/// A scope of fixed directories fails with the first of them that cannot be
/// enumerated. The user scope of the agents fails if and only if the
/// accounts root cannot be enumerated; any other directory of it that cannot
/// be enumerated adds nothing.
pub open spec fn scope_files(kind: Kind, scope: Scope, fs: SnapshotView) -> Result<
    Seq<Seq<char>>,
    ScanErrorView,
> {
    match scope_directories(kind, scope, fs) {
        Err(error) => Err(error),
        Ok(directories) => if is_tolerant(kind, scope) {
            Ok(enumerate_any(fs, directories))
        } else {
            enumerate_all(fs, directories)
        },
    }
}

/// What a scope adds to the source files: its paths, or nothing where it
/// failed.
pub open spec fn contribution(found: Result<Seq<Seq<char>>, ScanErrorView>) -> Seq<Seq<char>> {
    match found {
        Ok(paths) => paths,
        Err(_) => Seq::empty(),
    }
}

/// The source files of a kind: the paths of the user scope, then those of the
/// system scope.
pub open spec fn source_files(kind: Kind, fs: SnapshotView) -> Seq<Seq<char>> {
    contribution(scope_files(kind, Scope::User, fs)) + contribution(
        scope_files(kind, Scope::System, fs),
    )
}

/// What the decoder makes of the file at `path`: nothing where the snapshot
/// holds no bytes for it, where the bytes are not admissible, and where the
/// decoder reports an error.
pub open spec fn decoded(fs: SnapshotView, path: Seq<char>) -> Option<plist::Dictionary> {
    if fs.files.contains_key(path) {
        match fs.files[path] {
            Ok(bytes) => if admissible(bytes) {
                match parsed(bytes) {
                    Ok(launchd_data) => Some(launchd_data),
                    Err(_) => None,
                }
            } else {
                None
            },
            Err(_) => None,
        }
    } else {
        None
    }
}

/// The records of the given paths, in their order: one for each path that has
/// the extension and whose file decodes.
pub open spec fn records_of(fs: SnapshotView, paths: Seq<Seq<char>>) -> Seq<LaunchdPlistView>
    decreases paths.len(),
{
    if paths.len() == 0 {
        Seq::empty()
    } else {
        let earlier = records_of(fs, paths.drop_last());
        let path = paths.last();
        match decoded(fs, path) {
            Some(launchd_data) if has_extension(path) => earlier.push(
                LaunchdPlistView { launchd_data, plist_path: path },
            ),
            _ => earlier,
        }
    }
}

/// Why the file at `path` yields no record, if it yields none.
pub open spec fn file_warning(fs: SnapshotView, path: Seq<char>) -> Option<WarningView> {
    if !fs.files.contains_key(path) {
        Some(WarningView::Unreadable { path, detail: UNDESCRIBED@ })
    } else {
        match fs.files[path] {
            Err(detail) => Some(WarningView::Unreadable { path, detail }),
            Ok(bytes) => if !admissible(bytes) {
                Some(WarningView::Refused { path })
            } else {
                match parsed(bytes) {
                    Ok(_) => None,
                    Err(cause) => Some(WarningView::Malformed { path, cause }),
                }
            },
        }
    }
}

/// The warnings for the given paths, in their order: one for each path that
/// has the extension and yields no record. A path without the extension is
/// passed over in silence.
pub open spec fn file_warnings(fs: SnapshotView, paths: Seq<Seq<char>>) -> Seq<WarningView>
    decreases paths.len(),
{
    if paths.len() == 0 {
        Seq::empty()
    } else {
        let earlier = file_warnings(fs, paths.drop_last());
        let path = paths.last();
        match file_warning(fs, path) {
            Some(warning) if has_extension(path) => earlier.push(warning),
            _ => earlier,
        }
    }
}

/// The warning for a scope: one where it failed, none where it did not.
pub open spec fn scope_warning(kind: Kind, scope: Scope, fs: SnapshotView) -> Seq<WarningView> {
    match scope_files(kind, scope, fs) {
        Ok(_) => Seq::empty(),
        Err(error) => seq![WarningView::ScopeFailed { scope, error }],
    }
}

/// The two thresholds: no source file at all is a path error, source files
/// without a single record are a parse error, and anything else is the
/// records.
pub open spec fn escalate(sources: nat, records: Seq<LaunchdPlistView>) -> Result<
    Seq<LaunchdPlistView>,
    LaunchdError,
> {
    if sources == 0 {
        Err(LaunchdError::PathError)
    } else if records.len() == 0 {
        Err(LaunchdError::PlistParseError)
    } else {
        Ok(records)
    }
}

/// The collection of a kind from a snapshot.
pub open spec fn collection(kind: Kind, fs: SnapshotView) -> CollectionView {
    let sources = source_files(kind, fs);
    let scopes = scope_warning(kind, Scope::User, fs) + scope_warning(kind, Scope::System, fs);
    CollectionView {
        outcome: escalate(sources.len(), records_of(fs, sources)),
        warnings: if sources.len() == 0 {
            scopes
        } else {
            scopes + file_warnings(fs, sources)
        },
    }
}

} // verus!
