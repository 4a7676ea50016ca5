//! Collecting the launchd daemons and agents from a snapshot.

use vstd::prelude::*;
use crate::decode::decode;
use crate::error::LaunchdError;
use crate::guard::is_admissible;
use crate::laws::lemma_collected_records_stem_from_sources;
use crate::model::{
    agent_directories, collection, contribution, decoded, enumerate, enumerate_all,
    enumerate_any, escalate,
    file_warning, file_warnings, records_of, scope_directories, scope_files, scope_warning,
    source_files, CollectionView, Kind, LaunchdPlistView, ScanErrorView, Scope, WarningView,
};
use crate::paths::{
    has_extension, is_plist_path, user_agent_directory, ACCOUNTS_ROOT, SYSTEM_AGENTS,
    SYSTEM_AGENTS_SECONDARY, SYSTEM_DAEMONS, SYSTEM_DAEMONS_SECONDARY, USER_AGENTS, USER_DAEMONS,
};
use crate::snapshot::{Snapshot, SnapshotView, UNDESCRIBED};
use crate::views::{lemma_deep_view_append, lemma_deep_view_empty, lemma_deep_view_push};

verus! {

/// A directory that could not be listed.
#[derive(Debug)]
pub struct ScanError {
    /// The directory's path.
    pub directory: String,
    /// The failure's description.
    pub detail: String,
}

impl View for ScanError {
    type V = ScanErrorView;

    open spec fn view(&self) -> ScanErrorView {
        ScanErrorView { directory: self.directory@, detail: self.detail@ }
    }
}

/// A record: the decoded contents of a property list, and the path of the
/// file that they were decoded from.
#[derive(Debug)]
pub struct LaunchdPlist {
    /// What the decoder made of the file.
    pub launchd_data: plist::Dictionary,
    /// The path of the file.
    pub plist_path: String,
}

impl View for LaunchdPlist {
    type V = LaunchdPlistView;

    open spec fn view(&self) -> LaunchdPlistView {
        LaunchdPlistView { launchd_data: self.launchd_data, plist_path: self.plist_path@ }
    }
}

impl DeepView for LaunchdPlist {
    type V = LaunchdPlistView;

    open spec fn deep_view(&self) -> LaunchdPlistView {
        self@
    }
}

/// Something that a collection passed over. The caller decides where to
/// report it.
#[derive(Debug)]
pub enum Warning {
    /// A scope contributes nothing, because a directory of it could not be
    /// listed.
    ScopeFailed { scope: Scope, error: ScanError },
    /// The file could not be read.
    Unreadable { path: String, detail: String },
    /// The file's bytes were not handed to the decoder, because it might not
    /// return on them: they hold too many arrays and dictionaries, or a date
    /// that is not plainly within the years that the decoder can write.
    Refused { path: String },
    /// The decoder rejected the file's bytes, with this error.
    Malformed { path: String, cause: plist::Error },
}

impl View for Warning {
    type V = WarningView;

    open spec fn view(&self) -> WarningView {
        match *self {
            Warning::ScopeFailed { scope, error } => WarningView::ScopeFailed {
                scope,
                error: error@,
            },
            Warning::Unreadable { path, detail } => WarningView::Unreadable {
                path: path@,
                detail: detail@,
            },
            Warning::Refused { path } => WarningView::Refused { path: path@ },
            Warning::Malformed { path, cause } => WarningView::Malformed { path: path@, cause },
        }
    }
}

impl DeepView for Warning {
    type V = WarningView;

    open spec fn deep_view(&self) -> WarningView {
        self@
    }
}

/// What a collection returns.
#[derive(Debug)]
pub struct Collection {
    /// The records in the order in which their files were found, or the
    /// reason why there are none.
    pub outcome: Result<Vec<LaunchdPlist>, LaunchdError>,
    /// What was passed over, in the order in which it arose.
    pub warnings: Vec<Warning>,
}

impl View for Collection {
    type V = CollectionView;

    open spec fn view(&self) -> CollectionView {
        CollectionView {
            outcome: outcome_view(self.outcome),
            warnings: self.warnings.deep_view(),
        }
    }
}

/// The records that a collection returned, or its error, as plain values.
pub open spec fn outcome_view(outcome: Result<Vec<LaunchdPlist>, LaunchdError>) -> Result<
    Seq<LaunchdPlistView>,
    LaunchdError,
> {
    match outcome {
        Ok(records) => Ok(records.deep_view()),
        Err(error) => Err(error),
    }
}

/// The paths that a scan found, or its failure, as plain values.
pub open spec fn scan_view(found: Result<Vec<String>, ScanError>) -> Result<
    Seq<Seq<char>>,
    ScanErrorView,
> {
    match found {
        Ok(paths) => Ok(paths.deep_view()),
        Err(error) => Err(error@),
    }
}

/// Once a directory has failed, listing more directories after it changes
/// nothing.
proof fn lemma_failure_is_final(fs: SnapshotView, directories: Seq<Seq<char>>, n: int)
    requires
        0 <= n <= directories.len(),
        enumerate_all(fs, directories.take(n)) is Err,
    ensures
        enumerate_all(fs, directories) == enumerate_all(fs, directories.take(n)),
    decreases directories.len(),
{
    if n == directories.len() {
        assert(directories.take(n) =~= directories);
    } else {
        assert(directories.drop_last().take(n) =~= directories.take(n));
        lemma_failure_is_final(fs, directories.drop_last(), n);
    }
}

/// A copy of the paths.
fn copy_paths(paths: &Vec<String>) -> (copy: Vec<String>)
    ensures
        copy.deep_view() == paths.deep_view(),
{
    let mut copy: Vec<String> = Vec::new();
    let mut i: usize = 0;
    proof {
        lemma_deep_view_empty(copy);
        assert(paths.deep_view().take(0) =~= Seq::<Seq<char>>::empty());
    }
    while i < paths.len()
        invariant
            i <= paths.len(),
            copy.deep_view() == paths.deep_view().take(i as int),
        decreases paths.len() - i,
    {
        let ghost before = copy;
        let path = paths[i].clone();
        copy.push(path);
        proof {
            lemma_deep_view_push(before, copy, path);
            assert(copy.deep_view() =~= paths.deep_view().take(i + 1));
        }
        i += 1;
    }
    assert(paths.deep_view().take(paths.len() as int) =~= paths.deep_view());
    copy
}

impl LaunchdPlist {
    /// The full paths of the direct children of a directory, files and
    /// subdirectories alike, as the snapshot holds them. Nothing below a
    /// subdirectory is looked at.
    pub fn launchd_data(snapshot: &Snapshot, path: &str) -> (found: Result<
        Vec<String>,
        ScanError,
    >)
        ensures
            scan_view(found) == enumerate(snapshot@, path@),
    {
        match snapshot.listing(path) {
            Some(Ok(children)) => Ok(copy_paths(children)),
            Some(Err(detail)) => Err(
                ScanError { directory: String::from_str(path), detail: detail.clone() },
            ),
            None => Err(
                ScanError {
                    directory: String::from_str(path),
                    detail: String::from_str(UNDESCRIBED),
                },
            ),
        }
    }

    /// The children of each of the directories in turn, up to the first that
    /// cannot be enumerated.
    pub fn launchd_data_each(snapshot: &Snapshot, directories: &Vec<String>) -> (found: Result<
        Vec<String>,
        ScanError,
    >)
        ensures
            scan_view(found) == enumerate_all(snapshot@, directories.deep_view()),
    {
        let ghost all = directories.deep_view();
        let mut files: Vec<String> = Vec::new();
        let mut i: usize = 0;
        proof {
            lemma_deep_view_empty(files);
            assert(all.take(0) =~= Seq::<Seq<char>>::empty());
        }
        while i < directories.len()
            invariant
                i <= directories.len(),
                all == directories.deep_view(),
                enumerate_all(snapshot@, all.take(i as int)) == Ok::<Seq<Seq<char>>, ScanErrorView>(
                    files.deep_view(),
                ),
            decreases directories.len() - i,
        {
            assert(all.take(i + 1).drop_last() =~= all.take(i as int));
            match LaunchdPlist::launchd_data(snapshot, directories[i].as_str()) {
                Err(error) => {
                    proof {
                        lemma_failure_is_final(snapshot@, all, i + 1);
                    }
                    return Err(error);
                },
                Ok(mut children) => {
                    let ghost before = files;
                    let ghost added = children;
                    files.append(&mut children);
                    proof {
                        lemma_deep_view_append(before, files, added);
                    }
                },
            }
            i += 1;
        }
        assert(all.take(directories.len() as int) =~= all);
        Ok(files)
    }

    /// The children of each of the directories in turn. A directory that
    /// cannot be enumerated adds nothing.
    pub fn launchd_data_any(snapshot: &Snapshot, directories: &Vec<String>) -> (found: Vec<String>)
        ensures
            found.deep_view() == enumerate_any(snapshot@, directories.deep_view()),
    {
        let ghost all = directories.deep_view();
        let mut files: Vec<String> = Vec::new();
        let mut i: usize = 0;
        proof {
            lemma_deep_view_empty(files);
            assert(all.take(0) =~= Seq::<Seq<char>>::empty());
        }
        while i < directories.len()
            invariant
                i <= directories.len(),
                all == directories.deep_view(),
                files.deep_view() == enumerate_any(snapshot@, all.take(i as int)),
            decreases directories.len() - i,
        {
            assert(all.take(i + 1).drop_last() =~= all.take(i as int));
            match LaunchdPlist::launchd_data(snapshot, directories[i].as_str()) {
                Err(_) => {
                    assert(files.deep_view() + Seq::<Seq<char>>::empty() =~= files.deep_view());
                },
                Ok(mut children) => {
                    let ghost before = files;
                    let ghost added = children;
                    files.append(&mut children);
                    proof {
                        lemma_deep_view_append(before, files, added);
                    }
                },
            }
            i += 1;
        }
        assert(all.take(directories.len() as int) =~= all);
        files
    }

    /// The directories of one scope of one kind, in the order in which they
    /// are searched. For the user scope of the agents these are the agent
    /// directory of each entry under the accounts root, where the snapshot
    /// knows it as a directory, and then the directory shared by all users;
    /// there the accounts root failing fails the call.
    pub fn directories(kind: Kind, scope: Scope, snapshot: &Snapshot) -> (found: Result<
        Vec<String>,
        ScanError,
    >)
        ensures
            scan_view(found) == scope_directories(kind, scope, snapshot@),
    {
        let mut directories: Vec<String> = Vec::new();
        match (kind, scope) {
            (Kind::Daemons, Scope::User) => {
                directories.push(String::from_str(USER_DAEMONS));
                assert(directories.deep_view() =~= seq![USER_DAEMONS@]);
            },
            (Kind::Daemons, Scope::System) => {
                directories.push(String::from_str(SYSTEM_DAEMONS));
                directories.push(String::from_str(SYSTEM_DAEMONS_SECONDARY));
                assert(directories.deep_view() =~= seq![
                    SYSTEM_DAEMONS@,
                    SYSTEM_DAEMONS_SECONDARY@,
                ]);
            },
            (Kind::Agents, Scope::System) => {
                directories.push(String::from_str(SYSTEM_AGENTS));
                directories.push(String::from_str(SYSTEM_AGENTS_SECONDARY));
                assert(directories.deep_view() =~= seq![SYSTEM_AGENTS@, SYSTEM_AGENTS_SECONDARY@]);
            },
            (Kind::Agents, Scope::User) => {
                let homes = match LaunchdPlist::launchd_data(snapshot, ACCOUNTS_ROOT) {
                    Err(error) => {
                        return Err(error);
                    },
                    Ok(homes) => homes,
                };
                let ghost entries = homes.deep_view();
                let mut i: usize = 0;
                proof {
                    lemma_deep_view_empty(directories);
                    assert(entries.take(0) =~= Seq::<Seq<char>>::empty());
                }
                while i < homes.len()
                    invariant
                        i <= homes.len(),
                        entries == homes.deep_view(),
                        directories.deep_view() == agent_directories(
                            snapshot@,
                            entries.take(i as int),
                        ),
                    decreases homes.len() - i,
                {
                    assert(entries.take(i + 1).drop_last() =~= entries.take(i as int));
                    let directory = user_agent_directory(homes[i].as_str());
                    if let Some(true) = snapshot.probe(directory.as_str()) {
                        let ghost before = directories;
                        directories.push(directory);
                        proof {
                            lemma_deep_view_push(before, directories, directory);
                        }
                    }
                    i += 1;
                }
                assert(entries.take(homes.len() as int) =~= entries);
                let ghost before = directories;
                let shared = String::from_str(USER_AGENTS);
                directories.push(shared);
                proof {
                    lemma_deep_view_push(before, directories, shared);
                }
            },
        }
        Ok(directories)
    }

    /// The paths of one scope of one kind: the children of each of its
    /// directories in turn. In a scope of fixed directories, one that cannot
    /// be listed fails the scope, whatever the directories before it held.
    /// The user scope of the agents fails only with the accounts root; any
    /// other directory of it that cannot be listed adds nothing.
    pub fn scope_paths(kind: Kind, scope: Scope, snapshot: &Snapshot) -> (found: Result<
        Vec<String>,
        ScanError,
    >)
        ensures
            scan_view(found) == scope_files(kind, scope, snapshot@),
    {
        match LaunchdPlist::directories(kind, scope, snapshot) {
            Err(error) => Err(error),
            Ok(directories) => match (kind, scope) {
                (Kind::Agents, Scope::User) => Ok(
                    LaunchdPlist::launchd_data_any(snapshot, &directories),
                ),
                _ => LaunchdPlist::launchd_data_each(snapshot, &directories),
            },
        }
    }

    /// The paths in the one directory of the daemons' user scope.
    pub fn user_launchd_daemons(snapshot: &Snapshot) -> (found: Result<Vec<String>, ScanError>)
        ensures
            scan_view(found) == scope_files(Kind::Daemons, Scope::User, snapshot@),
    {
        LaunchdPlist::scope_paths(Kind::Daemons, Scope::User, snapshot)
    }

    /// The paths in the two directories of the daemons' system scope. Either
    /// directory failing fails the scope.
    pub fn system_launchd_daemons(snapshot: &Snapshot) -> (found: Result<Vec<String>, ScanError>)
        ensures
            scan_view(found) == scope_files(Kind::Daemons, Scope::System, snapshot@),
    {
        LaunchdPlist::scope_paths(Kind::Daemons, Scope::System, snapshot)
    }

    /// The paths in the two directories of the agents' system scope. Either
    /// directory failing fails the scope.
    pub fn system_launchd_agents(snapshot: &Snapshot) -> (found: Result<Vec<String>, ScanError>)
        ensures
            scan_view(found) == scope_files(Kind::Agents, Scope::System, snapshot@),
    {
        LaunchdPlist::scope_paths(Kind::Agents, Scope::System, snapshot)
    }

    /// The paths of the agents' user scope: those in the agent directory of
    /// each entry under the accounts root, then those in the directory shared
    /// by all users. An entry without an agent directory is passed over, and
    /// so is a directory that cannot be listed. The call fails if and only if
    /// the accounts root cannot be listed.
    pub fn user_launchd_agents(snapshot: &Snapshot) -> (found: Result<Vec<String>, ScanError>)
        ensures
            scan_view(found) == scope_files(Kind::Agents, Scope::User, snapshot@),
            found is Err <==> enumerate(snapshot@, ACCOUNTS_ROOT@) is Err,
    {
        LaunchdPlist::scope_paths(Kind::Agents, Scope::User, snapshot)
    }

    /// Pairs what the decoder made of a file with the file's path: a record
    /// where it made a dictionary, and a warning that names the path and
    /// carries the decoder's error where it did not. The dictionary and the
    /// error are taken over as they are.
    pub fn assemble(path: String, decoded: Result<plist::Dictionary, plist::Error>) -> (made:
        Result<LaunchdPlist, Warning>)
        ensures
            match decoded {
                Ok(launchd_data) => made matches Ok(record) && record@ == (LaunchdPlistView {
                    launchd_data,
                    plist_path: path@,
                }),
                Err(cause) => made matches Err(warning) && warning@ == (WarningView::Malformed {
                    path: path@,
                    cause,
                }),
            },
    {
        match decoded {
            Ok(launchd_data) => Ok(LaunchdPlist { launchd_data, plist_path: path }),
            Err(cause) => Err(Warning::Malformed { path, cause }),
        }
    }

    /// Applies the two thresholds to what a collection found: `sources` is the
    /// number of source files, and `records` are the records made of them.
    pub fn escalate(sources: usize, records: Vec<LaunchdPlist>) -> (outcome: Result<
        Vec<LaunchdPlist>,
        LaunchdError,
    >)
        ensures
            outcome_view(outcome) == escalate(sources as nat, records.deep_view()),
    {
        if sources == 0 {
            Err(LaunchdError::PathError)
        } else if records.is_empty() {
            Err(LaunchdError::PlistParseError)
        } else {
            Ok(records)
        }
    }

    /// The record of the file at `path`, or the warning that says why there
    /// is none: the snapshot holds no bytes for it, the bytes are not
    /// admissible, or the decoder rejects them. The decoder is called on
    /// admissible bytes only.
    pub fn parse_file(snapshot: &Snapshot, path: &str) -> (made: Result<LaunchdPlist, Warning>)
        ensures
            match made {
                Ok(record) => {
                    &&& decoded(snapshot@, path@) == Some(record.launchd_data)
                    &&& record.plist_path@ == path@
                },
                Err(warning) => {
                    &&& decoded(snapshot@, path@).is_none()
                    &&& file_warning(snapshot@, path@) == Some(warning@)
                },
            },
    {
        match snapshot.contents(path) {
            None => Err(
                Warning::Unreadable {
                    path: String::from_str(path),
                    detail: String::from_str(UNDESCRIBED),
                },
            ),
            Some(Err(detail)) => Err(
                Warning::Unreadable { path: String::from_str(path), detail: detail.clone() },
            ),
            Some(Ok(bytes)) => if is_admissible(bytes) {
                LaunchdPlist::assemble(String::from_str(path), decode(bytes))
            } else {
                Err(Warning::Refused { path: String::from_str(path) })
            },
        }
    }

    /// Collects the records of a kind from a snapshot.
    ///
    /// The source files are the paths of the user scope followed by those of
    /// the system scope; a scope that fails adds nothing and leaves a warning.
    /// Without any source file the outcome is a path error. Otherwise each
    /// source file that has the extension is decoded, and yields a record or
    /// a warning; without any record the outcome is a parse error.
    pub fn collect(kind: Kind, snapshot: &Snapshot) -> (gathered: Collection)
        ensures
            gathered@ == collection(kind, snapshot@),
            gathered.outcome matches Ok(records) ==> {
                &&& records.len() > 0
                &&& forall|i: int|
                    0 <= i < records.len() ==> has_extension(#[trigger] records[i].plist_path@)
            },
    {
        let ghost fs = snapshot@;
        let mut warnings: Vec<Warning> = Vec::new();
        let mut files: Vec<String> = Vec::new();
        proof {
            lemma_deep_view_empty(warnings);
            lemma_deep_view_empty(files);
        }
        match LaunchdPlist::scope_paths(kind, Scope::User, snapshot) {
            Ok(mut found) => {
                let ghost before = files;
                let ghost added = found;
                files.append(&mut found);
                proof {
                    lemma_deep_view_append(before, files, added);
                }
            },
            Err(error) => {
                let ghost before = warnings;
                let warning = Warning::ScopeFailed { scope: Scope::User, error };
                warnings.push(warning);
                proof {
                    lemma_deep_view_push(before, warnings, warning);
                }
            },
        }
        assert(warnings.deep_view() =~= scope_warning(kind, Scope::User, fs));
        assert(files.deep_view() =~= contribution(scope_files(kind, Scope::User, fs)));
        match LaunchdPlist::scope_paths(kind, Scope::System, snapshot) {
            Ok(mut found) => {
                let ghost before = files;
                let ghost added = found;
                files.append(&mut found);
                proof {
                    lemma_deep_view_append(before, files, added);
                }
            },
            Err(error) => {
                let ghost before = warnings;
                let warning = Warning::ScopeFailed { scope: Scope::System, error };
                warnings.push(warning);
                proof {
                    lemma_deep_view_push(before, warnings, warning);
                }
            },
        }
        let ghost sources = source_files(kind, fs);
        let ghost scopes = scope_warning(kind, Scope::User, fs) + scope_warning(
            kind,
            Scope::System,
            fs,
        );
        assert(files.deep_view() =~= sources);
        assert(warnings.deep_view() =~= scopes);
        let mut records: Vec<LaunchdPlist> = Vec::new();
        proof {
            lemma_deep_view_empty(records);
        }
        if files.is_empty() {
            return Collection { outcome: LaunchdPlist::escalate(0, records), warnings };
        }
        let mut i: usize = 0;
        proof {
            assert(sources.take(0) =~= Seq::<Seq<char>>::empty());
            assert(warnings.deep_view() =~= scopes + file_warnings(fs, sources.take(0)));
        }
        while i < files.len()
            invariant
                i <= files.len(),
                fs == snapshot@,
                sources == files.deep_view(),
                records.deep_view() == records_of(fs, sources.take(i as int)),
                warnings.deep_view() == scopes + file_warnings(fs, sources.take(i as int)),
            decreases files.len() - i,
        {
            assert(sources.take(i + 1).drop_last() =~= sources.take(i as int));
            assert(sources.take(i + 1).last() == files[i as int]@);
            if is_plist_path(files[i].as_str()) {
                match LaunchdPlist::parse_file(snapshot, files[i].as_str()) {
                    Ok(record) => {
                        let ghost before = records;
                        records.push(record);
                        proof {
                            lemma_deep_view_push(before, records, record);
                        }
                    },
                    Err(warning) => {
                        let ghost before = warnings;
                        warnings.push(warning);
                        proof {
                            lemma_deep_view_push(before, warnings, warning);
                            assert(warnings.deep_view() =~= scopes + file_warnings(
                                fs,
                                sources.take(i + 1),
                            ));
                        }
                    },
                }
            }
            i += 1;
        }
        assert(sources.take(files.len() as int) =~= sources);
        let outcome = LaunchdPlist::escalate(files.len(), records);
        proof {
            lemma_collected_records_stem_from_sources(kind, fs);
            if outcome is Ok {
                let kept = outcome->Ok_0;
                assert forall|i: int| 0 <= i < kept.len() implies has_extension(
                    #[trigger] kept[i].plist_path@,
                ) by {
                    assert(kept.deep_view()[i].plist_path == kept[i].plist_path@);
                }
            }
        }
        Collection { outcome, warnings }
    }

    /// Collects the launchd daemons from a snapshot: the records of the files
    /// in the daemon directories of the user and the system scope, or the reason
    /// why there are none, and the warnings for what was passed over.
    pub fn get_launchd_daemons(snapshot: &Snapshot) -> (gathered: Collection)
        ensures
            gathered@ == collection(Kind::Daemons, snapshot@),
            gathered.outcome matches Ok(records) ==> {
                &&& records.len() > 0
                &&& forall|i: int|
                    0 <= i < records.len() ==> has_extension(#[trigger] records[i].plist_path@)
            },
    {
        LaunchdPlist::collect(Kind::Daemons, snapshot)
    }

    /// Collects the launchd agents from a snapshot: the records of the files
    /// in the agent directories of the user and the system scope, or the reason
    /// why there are none, and the warnings for what was passed over.
    pub fn get_launchd_agents(snapshot: &Snapshot) -> (gathered: Collection)
        ensures
            gathered@ == collection(Kind::Agents, snapshot@),
            gathered.outcome matches Ok(records) ==> {
                &&& records.len() > 0
                &&& forall|i: int|
                    0 <= i < records.len() ==> has_extension(#[trigger] records[i].plist_path@)
            },
    {
        LaunchdPlist::collect(Kind::Agents, snapshot)
    }
}

} // verus!
