//! What holds of every collection, proved from the definitions of
//! [`crate::model`] and [`crate::plan`].

use vstd::prelude::*;
use crate::decode::parsed;
use crate::error::LaunchdError;
use crate::guard::admissible;
use crate::model::{
    agent_directories, collection, decoded, enumerate, enumerate_all, enumerate_any,
    file_warning, file_warnings, is_directory,
    records_of, scope_directories, scope_files, scope_warning, searched, source_files, Kind,
    LaunchdPlistView,
    ScanErrorView, Scope, WarningView,
};
use crate::paths::{
    agent_directory, has_extension, ACCOUNTS_ROOT, AGENTS_SUBPATH, SYSTEM_AGENTS,
    SYSTEM_AGENTS_SECONDARY, USER_AGENTS,
};
use crate::plan::read_requests;
use crate::snapshot::SnapshotView;

verus! {

/// Every record stems from a source file: its path is one of the given
/// paths, it is not empty and has the extension, and the record's contents
/// are what the decoder makes of the file at that path.
pub proof fn lemma_records_stem_from_sources(fs: SnapshotView, paths: Seq<Seq<char>>)
    ensures
        forall|i: int|
            0 <= i < records_of(fs, paths).len() ==> {
                let record = #[trigger] records_of(fs, paths)[i];
                &&& paths.contains(record.plist_path)
                &&& has_extension(record.plist_path)
                &&& record.plist_path.len() > 0
                &&& decoded(fs, record.plist_path) == Some(record.launchd_data)
            },
    decreases paths.len(),
{
    reveal_strlit(".plist");
    if paths.len() > 0 {
        let earlier = paths.drop_last();
        lemma_records_stem_from_sources(fs, earlier);
        assert forall|i: int| 0 <= i < records_of(fs, paths).len() implies {
            let record = #[trigger] records_of(fs, paths)[i];
            &&& paths.contains(record.plist_path)
            &&& has_extension(record.plist_path)
            &&& record.plist_path.len() > 0
            &&& decoded(fs, record.plist_path) == Some(record.launchd_data)
        } by {
            let record = records_of(fs, paths)[i];
            if i < records_of(fs, earlier).len() {
                assert(record == records_of(fs, earlier)[i]);
                let j = choose|j: int| 0 <= j < earlier.len() && earlier[j] == record.plist_path;
                assert(paths[j] == record.plist_path);
            } else {
                assert(paths[paths.len() - 1] == record.plist_path);
            }
        }
    }
}

/// The path of every record that a collection returns is not empty and ends
/// with the extension, and the record holds what the decoder makes of the
/// file at that path, which is one of the source files.
pub proof fn lemma_collected_records_stem_from_sources(kind: Kind, fs: SnapshotView)
    ensures
        collection(kind, fs).outcome matches Ok(records) ==> forall|i: int|
            0 <= i < records.len() ==> {
                let record = #[trigger] records[i];
                &&& source_files(kind, fs).contains(record.plist_path)
                &&& has_extension(record.plist_path)
                &&& record.plist_path.len() > 0
                &&& decoded(fs, record.plist_path) == Some(record.launchd_data)
            },
{
    lemma_records_stem_from_sources(fs, source_files(kind, fs));
}

/// A path that has the extension and whose file decodes has a record, which
/// holds what the decoder made of the file.
pub proof fn lemma_usable_path_has_record(fs: SnapshotView, paths: Seq<Seq<char>>, at: int)
    requires
        0 <= at < paths.len(),
        has_extension(paths[at]),
        decoded(fs, paths[at]).is_some(),
    ensures
        records_of(fs, paths).contains(
            LaunchdPlistView {
                launchd_data: decoded(fs, paths[at]).unwrap(),
                plist_path: paths[at],
            },
        ),
    decreases paths.len(),
{
    let record = LaunchdPlistView {
        launchd_data: decoded(fs, paths[at]).unwrap(),
        plist_path: paths[at],
    };
    if at < paths.len() - 1 {
        lemma_usable_path_has_record(fs, paths.drop_last(), at);
        let earlier = records_of(fs, paths.drop_last());
        let i = choose|i: int| 0 <= i < earlier.len() && earlier[i] == record;
        assert(records_of(fs, paths)[i] == record);
    } else {
        let records = records_of(fs, paths);
        assert(records[records.len() - 1] == record);
    }
}

/// Each path that has the extension is accounted for once: it yields one
/// record or one warning, and a path without the extension yields neither.
pub proof fn lemma_each_candidate_is_accounted_for(fs: SnapshotView, paths: Seq<Seq<char>>)
    ensures
        records_of(fs, paths).len() + file_warnings(fs, paths).len() == read_requests(paths).len(),
    decreases paths.len(),
{
    if paths.len() > 0 {
        lemma_each_candidate_is_accounted_for(fs, paths.drop_last());
    }
}

/// Where one source file has the extension and decodes, the collection
/// succeeds, and the record of that file is among those that it returns.
pub proof fn lemma_usable_source_yields_records(kind: Kind, fs: SnapshotView, at: int)
    requires
        0 <= at < source_files(kind, fs).len(),
        has_extension(source_files(kind, fs)[at]),
        decoded(fs, source_files(kind, fs)[at]).is_some(),
    ensures
        collection(kind, fs).outcome matches Ok(records) && records.len() > 0 && records.contains(
            LaunchdPlistView {
                launchd_data: decoded(fs, source_files(kind, fs)[at]).unwrap(),
                plist_path: source_files(kind, fs)[at],
            },
        ),
{
    lemma_usable_path_has_record(fs, source_files(kind, fs), at);
}

/// A collection that succeeds returns at least one record.
pub proof fn lemma_success_is_never_empty(kind: Kind, fs: SnapshotView)
    ensures
        collection(kind, fs).outcome matches Ok(records) ==> records.len() > 0,
{
}

/// Directories of which none can be enumerated yield a failure, if there is
/// at least one.
proof fn lemma_nothing_listed(fs: SnapshotView, directories: Seq<Seq<char>>)
    requires
        directories.len() > 0,
        forall|i: int| 0 <= i < directories.len() ==> enumerate(fs, #[trigger] directories[i]) is Err,
    ensures
        enumerate_all(fs, directories) is Err,
{
    assert(enumerate(fs, directories[directories.len() - 1]) is Err);
}

/// Where both scopes fail, the collection fails with a path error, and its
/// warnings are the two failures.
pub proof fn lemma_failed_scopes_are_a_path_error(kind: Kind, fs: SnapshotView)
    requires
        scope_files(kind, Scope::User, fs) is Err,
        scope_files(kind, Scope::System, fs) is Err,
    ensures
        collection(kind, fs).outcome == Err::<Seq<LaunchdPlistView>, LaunchdError>(
            LaunchdError::PathError,
        ),
        collection(kind, fs).warnings == seq![
            WarningView::ScopeFailed {
                scope: Scope::User,
                error: scope_files(kind, Scope::User, fs)->Err_0,
            },
            WarningView::ScopeFailed {
                scope: Scope::System,
                error: scope_files(kind, Scope::System, fs)->Err_0,
            },
        ],
{
    assert(source_files(kind, fs) =~= Seq::<Seq<char>>::empty());
    assert(collection(kind, fs).warnings =~= seq![
        WarningView::ScopeFailed {
            scope: Scope::User,
            error: scope_files(kind, Scope::User, fs)->Err_0,
        },
        WarningView::ScopeFailed {
            scope: Scope::System,
            error: scope_files(kind, Scope::System, fs)->Err_0,
        },
    ]);
}

/// A scope of which no directory that is searched can be enumerated fails.
proof fn lemma_unlisted_scope_fails(kind: Kind, scope: Scope, fs: SnapshotView)
    requires
        forall|i: int|
            0 <= i < searched(kind, scope, fs).len() ==> enumerate(
                fs,
                #[trigger] searched(kind, scope, fs)[i],
            ) is Err,
    ensures
        scope_files(kind, scope, fs) is Err,
{
    let all = searched(kind, scope, fs);
    if kind == Kind::Agents && scope == Scope::User {
        assert(all[0] == ACCOUNTS_ROOT@);
    } else {
        let directories = scope_directories(kind, scope, fs)->Ok_0;
        assert(all =~= directories);
        lemma_nothing_listed(fs, directories);
    }
}

/// Where every directory that is searched, in either scope, is absent or
/// cannot be listed, the collection fails with a path error.
pub proof fn lemma_no_directory_is_a_path_error(kind: Kind, fs: SnapshotView)
    requires
        forall|i: int|
            0 <= i < searched(kind, Scope::User, fs).len() ==> enumerate(
                fs,
                #[trigger] searched(kind, Scope::User, fs)[i],
            ) is Err,
        forall|i: int|
            0 <= i < searched(kind, Scope::System, fs).len() ==> enumerate(
                fs,
                #[trigger] searched(kind, Scope::System, fs)[i],
            ) is Err,
    ensures
        collection(kind, fs).outcome == Err::<Seq<LaunchdPlistView>, LaunchdError>(
            LaunchdError::PathError,
        ),
{
    lemma_unlisted_scope_fails(kind, Scope::User, fs);
    lemma_unlisted_scope_fails(kind, Scope::System, fs);
    lemma_failed_scopes_are_a_path_error(kind, fs);
}

/// Paths of which none both has the extension and decodes have no record.
proof fn lemma_no_usable_path(fs: SnapshotView, paths: Seq<Seq<char>>)
    requires
        forall|i: int|
            0 <= i < paths.len() && has_extension(#[trigger] paths[i]) ==> decoded(
                fs,
                paths[i],
            ).is_none(),
    ensures
        records_of(fs, paths).len() == 0,
    decreases paths.len(),
{
    if paths.len() > 0 {
        assert forall|i: int|
            0 <= i < paths.drop_last().len() && has_extension(
                #[trigger] paths.drop_last()[i],
            ) implies decoded(fs, paths.drop_last()[i]).is_none() by {
            assert(paths.drop_last()[i] == paths[i]);
        }
        lemma_no_usable_path(fs, paths.drop_last());
        assert(paths.last() == paths[paths.len() - 1]);
    }
}

/// Where there are source files, and none of those that have the extension
/// decodes, the collection fails with a parse error.
pub proof fn lemma_no_usable_source_is_a_parse_error(kind: Kind, fs: SnapshotView)
    requires
        source_files(kind, fs).len() > 0,
        forall|i: int|
            0 <= i < source_files(kind, fs).len() && has_extension(
                #[trigger] source_files(kind, fs)[i],
            ) ==> decoded(fs, source_files(kind, fs)[i]).is_none(),
    ensures
        collection(kind, fs).outcome == Err::<Seq<LaunchdPlistView>, LaunchdError>(
            LaunchdError::PlistParseError,
        ),
{
    lemma_no_usable_path(fs, source_files(kind, fs));
}

/// A home directory whose agent directory the snapshot does not know as a
/// directory adds nothing: the agent directories are those of the other home
/// directories.
pub proof fn lemma_home_without_agents_is_skipped(fs: SnapshotView, homes: Seq<Seq<char>>, at: int)
    requires
        0 <= at < homes.len(),
        !is_directory(fs, agent_directory(homes[at])),
    ensures
        agent_directories(fs, homes) == agent_directories(fs, homes.remove(at)),
    decreases homes.len(),
{
    if at == homes.len() - 1 {
        assert(homes.remove(at) =~= homes.drop_last());
    } else {
        lemma_home_without_agents_is_skipped(fs, homes.drop_last(), at);
        assert(homes.remove(at).drop_last() =~= homes.drop_last().remove(at));
        assert(homes.remove(at).last() == homes.last());
    }
}

/// Directories that two snapshots enumerate alike, one by one, they
/// enumerate alike together.
proof fn lemma_enumerate_all_alike(
    first: SnapshotView,
    second: SnapshotView,
    directories: Seq<Seq<char>>,
)
    requires
        forall|i: int|
            0 <= i < directories.len() ==> enumerate(first, #[trigger] directories[i])
                == enumerate(second, directories[i]),
    ensures
        enumerate_all(first, directories) == enumerate_all(second, directories),
    decreases directories.len(),
{
    if directories.len() > 0 {
        assert forall|i: int| 0 <= i < directories.drop_last().len() implies enumerate(
            first,
            #[trigger] directories.drop_last()[i],
        ) == enumerate(second, directories.drop_last()[i]) by {
            assert(directories.drop_last()[i] == directories[i]);
        }
        lemma_enumerate_all_alike(first, second, directories.drop_last());
        assert(directories.last() == directories[directories.len() - 1]);
    }
}

/// Directories that two snapshots enumerate alike, one by one, add the same
/// to a scope that tolerates the failure of any of them.
proof fn lemma_enumerate_any_alike(
    first: SnapshotView,
    second: SnapshotView,
    directories: Seq<Seq<char>>,
)
    requires
        forall|i: int|
            0 <= i < directories.len() ==> enumerate(first, #[trigger] directories[i])
                == enumerate(second, directories[i]),
    ensures
        enumerate_any(first, directories) == enumerate_any(second, directories),
    decreases directories.len(),
{
    if directories.len() > 0 {
        assert forall|i: int| 0 <= i < directories.drop_last().len() implies enumerate(
            first,
            #[trigger] directories.drop_last()[i],
        ) == enumerate(second, directories.drop_last()[i]) by {
            assert(directories.drop_last()[i] == directories[i]);
        }
        lemma_enumerate_any_alike(first, second, directories.drop_last());
        assert(directories.last() == directories[directories.len() - 1]);
    }
}

/// The user scope of the agents fails if and only if the accounts root
/// cannot be enumerated, and then with the failure of the accounts root.
/// No other directory can fail it: the agent directory of a user, or the
/// directory shared by all users, adds nothing where it cannot be listed.
pub proof fn lemma_user_agents_fail_with_the_root_only(fs: SnapshotView)
    ensures
        scope_files(Kind::Agents, Scope::User, fs) is Err <==> enumerate(fs, ACCOUNTS_ROOT@) is Err,
        enumerate(fs, ACCOUNTS_ROOT@) matches Err(error) ==> scope_files(
            Kind::Agents,
            Scope::User,
            fs,
        ) == Err::<Seq<Seq<char>>, ScanErrorView>(error),
        enumerate(fs, ACCOUNTS_ROOT@) matches Ok(homes) ==> scope_files(
            Kind::Agents,
            Scope::User,
            fs,
        ) == Ok::<Seq<Seq<char>>, ScanErrorView>(
            enumerate_any(fs, agent_directories(fs, homes).push(USER_AGENTS@)),
        ),
{
}

/// Which agent directories there are depends on what the snapshot holds of
/// probes, and on nothing else. Each of them is at least as long as the
/// subpath that it ends with.
proof fn lemma_agent_directories_depend_on_probes(
    first: SnapshotView,
    second: SnapshotView,
    homes: Seq<Seq<char>>,
)
    requires
        first.directories == second.directories,
    ensures
        agent_directories(first, homes) == agent_directories(second, homes),
        forall|i: int|
            0 <= i < agent_directories(first, homes).len() ==> (#[trigger] agent_directories(
                first,
                homes,
            )[i]).len() >= AGENTS_SUBPATH@.len(),
    decreases homes.len(),
{
    if homes.len() > 0 {
        lemma_agent_directories_depend_on_probes(first, second, homes.drop_last());
    }
}

/// The snapshot in which the accounts root holds the given entries, and
/// everything else is as in `fs`.
pub open spec fn with_homes(fs: SnapshotView, homes: Seq<Seq<char>>) -> SnapshotView {
    SnapshotView {
        listings: fs.listings.insert(
            ACCOUNTS_ROOT@,
            Ok::<Seq<Seq<char>>, Seq<char>>(homes),
        ),
        directories: fs.directories,
        files: fs.files,
    }
}

/// An entry under the accounts root whose agent directory the snapshot does
/// not know as a directory is passed over: the collection of the agents is
/// the one that would be made if the entry were not there, with the same
/// records or error and the same warnings.
pub proof fn lemma_user_without_agents_changes_nothing(
    fs: SnapshotView,
    homes: Seq<Seq<char>>,
    at: int,
)
    requires
        0 <= at < homes.len(),
        !is_directory(fs, agent_directory(homes[at])),
    ensures
        collection(Kind::Agents, with_homes(fs, homes)) == collection(
            Kind::Agents,
            with_homes(fs, homes.remove(at)),
        ),
{
    let first = with_homes(fs, homes);
    let second = with_homes(fs, homes.remove(at));
    reveal_strlit("/Users/");
    reveal_strlit("/Library/LaunchAgents/");
    reveal_strlit("/System/Library/LaunchAgents/");
    reveal_strlit("/Library/Apple/System/Library/LaunchAgents/");
    assert forall|directory: Seq<char>| directory.len() != ACCOUNTS_ROOT@.len() implies enumerate(
        first,
        directory,
    ) == enumerate(second, directory) by {
        assert(directory != ACCOUNTS_ROOT@);
    }
    lemma_home_without_agents_is_skipped(first, homes, at);
    lemma_agent_directories_depend_on_probes(first, second, homes.remove(at));
    lemma_agent_directories_depend_on_probes(first, second, homes);
    let user = agent_directories(first, homes).push(USER_AGENTS@);
    assert(scope_directories(Kind::Agents, Scope::User, first) == Ok::<
        Seq<Seq<char>>,
        ScanErrorView,
    >(user));
    assert(scope_directories(Kind::Agents, Scope::User, second) == Ok::<
        Seq<Seq<char>>,
        ScanErrorView,
    >(user));
    lemma_enumerate_any_alike(first, second, user);
    let system = seq![SYSTEM_AGENTS@, SYSTEM_AGENTS_SECONDARY@];
    lemma_enumerate_all_alike(first, second, system);
    assert(source_files(Kind::Agents, first) == source_files(Kind::Agents, second));
    lemma_records_depend_on_files(first, second, source_files(Kind::Agents, first));
}

/// Which records and warnings the paths yield depends on what the snapshot
/// holds of files, and on nothing else.
proof fn lemma_records_depend_on_files(
    first: SnapshotView,
    second: SnapshotView,
    paths: Seq<Seq<char>>,
)
    requires
        first.files == second.files,
    ensures
        records_of(first, paths) == records_of(second, paths),
        file_warnings(first, paths) == file_warnings(second, paths),
    decreases paths.len(),
{
    if paths.len() > 0 {
        lemma_records_depend_on_files(first, second, paths.drop_last());
    }
}

/// Enumerating a directory looks at the listing of that directory and at
/// nothing else: two snapshots that hold the same of it give the same
/// children, whatever they hold of its subdirectories.
pub proof fn lemma_enumeration_is_flat(
    first: SnapshotView,
    second: SnapshotView,
    directory: Seq<char>,
)
    requires
        first.listings.contains_key(directory) == second.listings.contains_key(directory),
        first.listings.contains_key(directory) ==> first.listings[directory]
            == second.listings[directory],
    ensures
        enumerate(first, directory) == enumerate(second, directory),
        first.listings.contains_key(directory) ==> match first.listings[directory] {
            Ok(children) => enumerate(first, directory) == Ok::<
                Seq<Seq<char>>,
                ScanErrorView,
            >(children),
            Err(_) => enumerate(first, directory) is Err,
        },
{
}

/// A path that has the extension and yields no record is reported: its
/// warning, which names the path and says why, is among the warnings.
pub proof fn lemma_failed_file_is_reported(fs: SnapshotView, paths: Seq<Seq<char>>, at: int)
    requires
        0 <= at < paths.len(),
        has_extension(paths[at]),
        decoded(fs, paths[at]).is_none(),
    ensures
        file_warning(fs, paths[at]).is_some(),
        file_warnings(fs, paths).contains(file_warning(fs, paths[at]).unwrap()),
    decreases paths.len(),
{
    let warning = file_warning(fs, paths[at]).unwrap();
    if at < paths.len() - 1 {
        lemma_failed_file_is_reported(fs, paths.drop_last(), at);
        let earlier = file_warnings(fs, paths.drop_last());
        let i = choose|i: int| 0 <= i < earlier.len() && earlier[i] == warning;
        assert(file_warnings(fs, paths)[i] == warning);
    } else {
        let warnings = file_warnings(fs, paths);
        assert(warnings[warnings.len() - 1] == warning);
    }
}

/// A file that the decoder rejects is reported with the decoder's error:
/// where the bytes of a source file that has the extension are admissible
/// and do not decode, a warning names the path and carries the error.
pub proof fn lemma_decode_failure_is_reported(kind: Kind, fs: SnapshotView, at: int)
    requires
        0 <= at < source_files(kind, fs).len(),
        has_extension(source_files(kind, fs)[at]),
        fs.files.contains_key(source_files(kind, fs)[at]),
        fs.files[source_files(kind, fs)[at]] matches Ok(bytes) && admissible(bytes) && parsed(
            bytes,
        ) is Err,
    ensures
        collection(kind, fs).warnings.contains(
            WarningView::Malformed {
                path: source_files(kind, fs)[at],
                cause: parsed(fs.files[source_files(kind, fs)[at]]->Ok_0)->Err_0,
            },
        ),
{
    let sources = source_files(kind, fs);
    let warning = WarningView::Malformed {
        path: sources[at],
        cause: parsed(fs.files[sources[at]]->Ok_0)->Err_0,
    };
    lemma_failed_file_is_reported(fs, sources, at);
    let files = file_warnings(fs, sources);
    let i = choose|i: int| 0 <= i < files.len() && files[i] == warning;
    let scopes = scope_warning(kind, Scope::User, fs) + scope_warning(kind, Scope::System, fs);
    assert((scopes + files)[scopes.len() + i] == warning);
}

/// A scope that fails reaches the caller as a warning that names the scope
/// and carries the failure, whatever the outcome of the collection is.
pub proof fn lemma_failed_scope_is_reported(kind: Kind, scope: Scope, fs: SnapshotView)
    requires
        scope_files(kind, scope, fs) is Err,
    ensures
        collection(kind, fs).warnings.contains(
            WarningView::ScopeFailed { scope, error: scope_files(kind, scope, fs)->Err_0 },
        ),
{
    let warning = WarningView::ScopeFailed { scope, error: scope_files(kind, scope, fs)->Err_0 };
    let user = scope_warning(kind, Scope::User, fs);
    let system = scope_warning(kind, Scope::System, fs);
    let scopes = user + system;
    let at = if scope == Scope::User {
        0
    } else {
        user.len() as int
    };
    assert(scopes[at] == warning);
    let warnings = collection(kind, fs).warnings;
    assert(warnings[at] == warning);
}

/// A source file that has the extension, whose bytes are admissible and
/// decode to a dictionary, makes the collection succeed, whatever the other
/// files do, and its record holds that dictionary.
pub proof fn lemma_decodable_source_yields_its_record(kind: Kind, fs: SnapshotView, at: int)
    requires
        0 <= at < source_files(kind, fs).len(),
        has_extension(source_files(kind, fs)[at]),
        fs.files.contains_key(source_files(kind, fs)[at]),
        fs.files[source_files(kind, fs)[at]] matches Ok(bytes) && admissible(bytes) && parsed(
            bytes,
        ) is Ok,
    ensures
        collection(kind, fs).outcome matches Ok(records) && records.len() > 0 && records.contains(
            LaunchdPlistView {
                launchd_data: parsed(fs.files[source_files(kind, fs)[at]]->Ok_0)->Ok_0,
                plist_path: source_files(kind, fs)[at],
            },
        ),
{
    lemma_usable_source_yields_records(kind, fs, at);
}

} // verus!
