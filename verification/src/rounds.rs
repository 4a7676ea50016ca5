//! Why asking and recording comes to an end, and what the snapshot is worth
//! then.
//!
//! A caller fills a snapshot in rounds: it asks [`crate::plan::plan`] what
//! is outstanding, records an answer to each question, and asks again. The
//! laws here say that four rounds leave nothing outstanding, and that a
//! snapshot with nothing outstanding decides the collection.

use vstd::prelude::*;
use crate::model::{
    agent_directories, collection, enumerate, enumerate_all, enumerate_any, file_warnings,
    is_directory,
    records_of, scope_directories, scope_files, source_files, Kind, Scope,
};
use crate::paths::{agent_directory, has_extension, ACCOUNTS_ROOT};
use crate::plan::{
    complete, consulted, home_requests, lemma_unanswered_add, list_requests, outstanding,
    read_requests, scope_requests, unanswered,
};
use crate::snapshot::{answered, RequestView, SnapshotView};

verus! {

/// Where the snapshot leaves none of the questions unanswered, it answers
/// each of them.
proof fn lemma_all_answered(fs: SnapshotView, requests: Seq<RequestView>)
    requires
        unanswered(fs, requests).len() == 0,
    ensures
        forall|i: int| 0 <= i < requests.len() ==> answered(fs, #[trigger] requests[i]),
    decreases requests.len(),
{
    if requests.len() > 0 {
        lemma_all_answered(fs, requests.drop_last());
        assert forall|i: int| 0 <= i < requests.len() implies answered(
            fs,
            #[trigger] requests[i],
        ) by {
            if i < requests.len() - 1 {
                assert(requests.drop_last()[i] == requests[i]);
            }
        }
    }
}

/// Every question that is left unanswered is one that the snapshot does not
/// answer.
pub proof fn lemma_unanswered_are_unanswered(fs: SnapshotView, requests: Seq<RequestView>)
    ensures
        forall|i: int|
            0 <= i < unanswered(fs, requests).len() ==> {
                let request = #[trigger] unanswered(fs, requests)[i];
                requests.contains(request) && !answered(fs, request)
            },
    decreases requests.len(),
{
    if requests.len() > 0 {
        let earlier = requests.drop_last();
        lemma_unanswered_are_unanswered(fs, earlier);
        assert forall|i: int| 0 <= i < unanswered(fs, requests).len() implies {
            let request = #[trigger] unanswered(fs, requests)[i];
            requests.contains(request) && !answered(fs, request)
        } by {
            let request = unanswered(fs, requests)[i];
            if i < unanswered(fs, earlier).len() {
                assert(request == unanswered(fs, earlier)[i]);
                let j = choose|j: int| 0 <= j < earlier.len() && earlier[j] == request;
                assert(requests[j] == request);
            } else {
                assert(requests[requests.len() - 1] == request);
            }
        }
    }
}

/// A directory of which a snapshot holds a listing is enumerated in the same
/// way from every snapshot that holds at least as much.
proof fn lemma_enumerate_is_kept(fs: SnapshotView, later: SnapshotView, directory: Seq<char>)
    requires
        fs.within(later),
        fs.listings.contains_key(directory),
    ensures
        enumerate(later, directory) == enumerate(fs, directory),
{
    assert(fs.listings.dom().contains(directory));
}

/// Directories of which a snapshot holds a listing each are enumerated in
/// the same way from every snapshot that holds at least as much.
proof fn lemma_enumerate_all_is_kept(
    fs: SnapshotView,
    later: SnapshotView,
    directories: Seq<Seq<char>>,
)
    requires
        fs.within(later),
        forall|i: int|
            0 <= i < directories.len() ==> fs.listings.contains_key(#[trigger] directories[i]),
    ensures
        enumerate_all(later, directories) == enumerate_all(fs, directories),
    decreases directories.len(),
{
    if directories.len() > 0 {
        assert forall|i: int| 0 <= i < directories.drop_last().len() implies fs.listings.contains_key(
            #[trigger] directories.drop_last()[i],
        ) by {
            assert(directories.drop_last()[i] == directories[i]);
        }
        lemma_enumerate_all_is_kept(fs, later, directories.drop_last());
        assert(directories.last() == directories[directories.len() - 1]);
        lemma_enumerate_is_kept(fs, later, directories.last());
    }
}

/// Directories of which a snapshot holds a listing each add the same to a
/// scope in every snapshot that holds at least as much.
proof fn lemma_enumerate_any_is_kept(
    fs: SnapshotView,
    later: SnapshotView,
    directories: Seq<Seq<char>>,
)
    requires
        fs.within(later),
        forall|i: int|
            0 <= i < directories.len() ==> fs.listings.contains_key(#[trigger] directories[i]),
    ensures
        enumerate_any(later, directories) == enumerate_any(fs, directories),
    decreases directories.len(),
{
    if directories.len() > 0 {
        assert forall|i: int| 0 <= i < directories.drop_last().len() implies fs.listings.contains_key(
            #[trigger] directories.drop_last()[i],
        ) by {
            assert(directories.drop_last()[i] == directories[i]);
        }
        lemma_enumerate_any_is_kept(fs, later, directories.drop_last());
        assert(directories.last() == directories[directories.len() - 1]);
        lemma_enumerate_is_kept(fs, later, directories.last());
    }
}

/// Home directories whose agent directory a snapshot has probed have the
/// same agent directories in every snapshot that holds at least as much.
proof fn lemma_agent_directories_are_kept(
    fs: SnapshotView,
    later: SnapshotView,
    homes: Seq<Seq<char>>,
)
    requires
        fs.within(later),
        forall|i: int|
            0 <= i < homes.len() ==> fs.directories.contains_key(
                agent_directory(#[trigger] homes[i]),
            ),
    ensures
        agent_directories(later, homes) == agent_directories(fs, homes),
    decreases homes.len(),
{
    if homes.len() > 0 {
        assert forall|i: int| 0 <= i < homes.drop_last().len() implies fs.directories.contains_key(
            agent_directory(#[trigger] homes.drop_last()[i]),
        ) by {
            assert(homes.drop_last()[i] == homes[i]);
        }
        lemma_agent_directories_are_kept(fs, later, homes.drop_last());
        let directory = agent_directory(homes.last());
        assert(homes.last() == homes[homes.len() - 1]);
        assert(fs.directories.submap_of(later.directories));
        assert(fs.directories.dom().contains(directory));
        assert(later.directories.dom().contains(directory));
        assert(is_directory(later, directory) == is_directory(fs, directory));
    }
}

/// An answer that a snapshot holds, every snapshot that holds at least as
/// much holds too.
proof fn lemma_answer_is_kept(fs: SnapshotView, later: SnapshotView, request: RequestView)
    requires
        fs.within(later),
        answered(fs, request),
    ensures
        answered(later, request),
{
    match request {
        RequestView::List(directory) => {
            assert(fs.listings.dom().contains(directory));
        },
        RequestView::Probe(path) => {
            assert(fs.directories.dom().contains(path));
        },
        RequestView::Read(path) => {
            assert(fs.files.dom().contains(path));
        },
    }
}

/// Where the snapshot answers each of the questions, it leaves none of them
/// unanswered.
proof fn lemma_none_unanswered(fs: SnapshotView, requests: Seq<RequestView>)
    requires
        forall|i: int| 0 <= i < requests.len() ==> answered(fs, #[trigger] requests[i]),
    ensures
        unanswered(fs, requests).len() == 0,
    decreases requests.len(),
{
    if requests.len() > 0 {
        assert forall|i: int| 0 <= i < requests.drop_last().len() implies answered(
            fs,
            #[trigger] requests.drop_last()[i],
        ) by {
            assert(requests.drop_last()[i] == requests[i]);
        }
        lemma_none_unanswered(fs, requests.drop_last());
        assert(requests.last() == requests[requests.len() - 1]);
    }
}

/// Where the snapshot answers the questions that tell the directories of a
/// scope, every snapshot that holds at least as much raises the same
/// questions for the scope, and finds it made of the same directories.
proof fn lemma_homes_are_kept(kind: Kind, scope: Scope, fs: SnapshotView, later: SnapshotView)
    requires
        fs.within(later),
        unanswered(fs, home_requests(kind, scope, fs)).len() == 0,
    ensures
        home_requests(kind, scope, later) == home_requests(kind, scope, fs),
        scope_directories(kind, scope, later) == scope_directories(kind, scope, fs),
        scope_requests(kind, scope, later) == scope_requests(kind, scope, fs),
{
    let requests = home_requests(kind, scope, fs);
    lemma_all_answered(fs, requests);
    if kind == Kind::Agents && scope == Scope::User {
        assert(requests[0] == RequestView::List(ACCOUNTS_ROOT@));
        assert(answered(fs, requests[0]));
        lemma_enumerate_is_kept(fs, later, ACCOUNTS_ROOT@);
        match enumerate(fs, ACCOUNTS_ROOT@) {
            Ok(entries) => {
                assert forall|i: int| 0 <= i < entries.len() implies fs.directories.contains_key(
                    agent_directory(#[trigger] entries[i]),
                ) by {
                    assert(requests[1 + i] == RequestView::Probe(agent_directory(entries[i])));
                    assert(answered(fs, requests[1 + i]));
                }
                lemma_agent_directories_are_kept(fs, later, entries);
            },
            Err(_) => {},
        }
    }
}

/// A scope whose questions a snapshot answers raises the same questions, is
/// made of the same directories and holds the same paths in every snapshot
/// that holds at least as much.
proof fn lemma_scope_is_kept(kind: Kind, scope: Scope, fs: SnapshotView, later: SnapshotView)
    requires
        fs.within(later),
        unanswered(fs, scope_requests(kind, scope, fs)).len() == 0,
    ensures
        scope_requests(kind, scope, later) == scope_requests(kind, scope, fs),
        scope_directories(kind, scope, later) == scope_directories(kind, scope, fs),
        scope_files(kind, scope, later) == scope_files(kind, scope, fs),
        unanswered(later, scope_requests(kind, scope, later)).len() == 0,
{
    let homes = home_requests(kind, scope, fs);
    let requests = scope_requests(kind, scope, fs);
    let lists = match scope_directories(kind, scope, fs) {
        Ok(directories) => list_requests(directories),
        Err(_) => Seq::empty(),
    };
    lemma_unanswered_add(fs, homes, lists);
    lemma_homes_are_kept(kind, scope, fs, later);
    lemma_all_answered(fs, requests);
    match scope_directories(kind, scope, fs) {
        Ok(directories) => {
            assert forall|i: int| 0 <= i < directories.len() implies fs.listings.contains_key(
                #[trigger] directories[i],
            ) by {
                assert(requests[homes.len() + i] == RequestView::List(directories[i]));
                assert(answered(fs, requests[homes.len() + i]));
            }
            lemma_enumerate_all_is_kept(fs, later, directories);
            lemma_enumerate_any_is_kept(fs, later, directories);
        },
        Err(_) => {},
    }
    assert forall|i: int| 0 <= i < requests.len() implies answered(
        later,
        #[trigger] requests[i],
    ) by {
        lemma_answer_is_kept(fs, later, requests[i]);
    }
    lemma_none_unanswered(later, requests);
}

/// Where no question for the bytes of the paths is left unanswered, the
/// snapshot holds an answer for each path that has the extension.
proof fn lemma_reads_are_answered(fs: SnapshotView, paths: Seq<Seq<char>>)
    requires
        unanswered(fs, read_requests(paths)).len() == 0,
    ensures
        forall|i: int|
            0 <= i < paths.len() && has_extension(#[trigger] paths[i]) ==> fs.files.contains_key(
                paths[i],
            ),
    decreases paths.len(),
{
    if paths.len() > 0 {
        let earlier = paths.drop_last();
        if has_extension(paths.last()) {
            let request = RequestView::Read(paths.last());
            assert(read_requests(paths).drop_last() =~= read_requests(earlier));
            assert(read_requests(paths).last() == request);
        }
        lemma_reads_are_answered(fs, earlier);
        assert forall|i: int| 0 <= i < paths.len() && has_extension(
            #[trigger] paths[i],
        ) implies fs.files.contains_key(paths[i]) by {
            if i < paths.len() - 1 {
                assert(earlier[i] == paths[i]);
            } else {
                assert(paths[i] == paths.last());
            }
        }
    }
}

/// Paths of which a snapshot holds the bytes, as far as they have the
/// extension, yield the same records and the same warnings in every snapshot
/// that holds at least as much.
proof fn lemma_records_are_kept(fs: SnapshotView, later: SnapshotView, paths: Seq<Seq<char>>)
    requires
        fs.within(later),
        forall|i: int|
            0 <= i < paths.len() && has_extension(#[trigger] paths[i]) ==> fs.files.contains_key(
                paths[i],
            ),
    ensures
        records_of(later, paths) == records_of(fs, paths),
        file_warnings(later, paths) == file_warnings(fs, paths),
    decreases paths.len(),
{
    if paths.len() > 0 {
        assert forall|i: int| 0 <= i < paths.drop_last().len() && has_extension(
            #[trigger] paths.drop_last()[i],
        ) implies fs.files.contains_key(paths.drop_last()[i]) by {
            assert(paths.drop_last()[i] == paths[i]);
        }
        lemma_records_are_kept(fs, later, paths.drop_last());
        assert(paths.last() == paths[paths.len() - 1]);
        if has_extension(paths.last()) {
            assert(fs.files.dom().contains(paths.last()));
        }
    }
}

/// A complete snapshot decides the collection: whatever else is recorded, as
/// long as the answers that it holds stay as they are, the records, the error
/// and the warnings stay the same.
pub proof fn lemma_complete_snapshot_is_final(kind: Kind, fs: SnapshotView, later: SnapshotView)
    requires
        complete(kind, fs),
        fs.within(later),
    ensures
        collection(kind, later) == collection(kind, fs),
{
    let user = scope_requests(kind, Scope::User, fs);
    let system = scope_requests(kind, Scope::System, fs);
    let reads = read_requests(source_files(kind, fs));
    lemma_unanswered_add(fs, user, system);
    lemma_unanswered_add(fs, user + system, reads);
    lemma_scope_is_kept(kind, Scope::User, fs, later);
    lemma_scope_is_kept(kind, Scope::System, fs, later);
    assert(source_files(kind, later) == source_files(kind, fs));
    lemma_reads_are_answered(fs, source_files(kind, fs));
    lemma_records_are_kept(fs, later, source_files(kind, fs));
}

/// Two complete snapshots of one filesystem give the same collection: what
/// is collected depends on nothing but the answers of the filesystem to the
/// questions that the collection puts.
pub proof fn lemma_snapshots_of_one_filesystem_agree(
    kind: Kind,
    first: SnapshotView,
    second: SnapshotView,
    filesystem: SnapshotView,
)
    requires
        complete(kind, first),
        complete(kind, second),
        first.within(filesystem),
        second.within(filesystem),
    ensures
        collection(kind, first) == collection(kind, second),
{
    lemma_complete_snapshot_is_final(kind, first, filesystem);
    lemma_complete_snapshot_is_final(kind, second, filesystem);
}

/// Every question that is outstanding is one that the collection puts and
/// that the snapshot does not answer.
pub proof fn lemma_outstanding_are_unanswered(kind: Kind, fs: SnapshotView)
    ensures
        forall|i: int|
            0 <= i < outstanding(kind, fs).len() ==> {
                let request = #[trigger] outstanding(kind, fs)[i];
                consulted(kind, fs).contains(request) && !answered(fs, request)
            },
{
    lemma_unanswered_are_unanswered(fs, consulted(kind, fs));
}

/// One round of asking and recording: `next` holds everything that `fs`
/// holds, unchanged, and an answer to every question that was outstanding.
pub open spec fn follows(kind: Kind, fs: SnapshotView, next: SnapshotView) -> bool {
    &&& fs.within(next)
    &&& forall|i: int|
        0 <= i < outstanding(kind, fs).len() ==> answered(next, #[trigger] outstanding(kind, fs)[i])
}

/// Where a later snapshot answers what an earlier one left unanswered, it
/// answers all of the questions.
proof fn lemma_round_answers(fs: SnapshotView, next: SnapshotView, requests: Seq<RequestView>)
    requires
        fs.within(next),
        forall|i: int|
            0 <= i < unanswered(fs, requests).len() ==> answered(
                next,
                #[trigger] unanswered(fs, requests)[i],
            ),
    ensures
        forall|i: int| 0 <= i < requests.len() ==> answered(next, #[trigger] requests[i]),
    decreases requests.len(),
{
    if requests.len() > 0 {
        let earlier = requests.drop_last();
        let last = requests.last();
        assert forall|i: int| 0 <= i < unanswered(fs, earlier).len() implies answered(
            next,
            #[trigger] unanswered(fs, earlier)[i],
        ) by {
            assert(unanswered(fs, earlier)[i] == unanswered(fs, requests)[i]);
        }
        lemma_round_answers(fs, next, earlier);
        if answered(fs, last) {
            lemma_answer_is_kept(fs, next, last);
        } else {
            let left = unanswered(fs, requests);
            assert(left[left.len() - 1] == last);
        }
        assert forall|i: int| 0 <= i < requests.len() implies answered(
            next,
            #[trigger] requests[i],
        ) by {
            if i < requests.len() - 1 {
                assert(earlier[i] == requests[i]);
            }
        }
    }
}

/// After a round the snapshot answers every question that the collection
/// put to the snapshot before it: those of either scope, and those for the
/// source files.
proof fn lemma_round_answers_consulted(kind: Kind, fs: SnapshotView, next: SnapshotView)
    requires
        follows(kind, fs, next),
    ensures
        forall|i: int|
            0 <= i < scope_requests(kind, Scope::User, fs).len() ==> answered(
                next,
                #[trigger] scope_requests(kind, Scope::User, fs)[i],
            ),
        forall|i: int|
            0 <= i < scope_requests(kind, Scope::System, fs).len() ==> answered(
                next,
                #[trigger] scope_requests(kind, Scope::System, fs)[i],
            ),
        forall|i: int|
            0 <= i < read_requests(source_files(kind, fs)).len() ==> answered(
                next,
                #[trigger] read_requests(source_files(kind, fs))[i],
            ),
{
    let user = scope_requests(kind, Scope::User, fs);
    let system = scope_requests(kind, Scope::System, fs);
    let reads = read_requests(source_files(kind, fs));
    let all = consulted(kind, fs);
    assert forall|i: int| 0 <= i < unanswered(fs, all).len() implies answered(
        next,
        #[trigger] unanswered(fs, all)[i],
    ) by {
        assert(unanswered(fs, all)[i] == outstanding(kind, fs)[i]);
    }
    lemma_round_answers(fs, next, all);
    assert forall|i: int| 0 <= i < user.len() implies answered(next, #[trigger] user[i]) by {
        assert(all[i] == user[i]);
    }
    assert forall|i: int| 0 <= i < system.len() implies answered(next, #[trigger] system[i]) by {
        assert(all[user.len() + i] == system[i]);
    }
    assert forall|i: int| 0 <= i < reads.len() implies answered(next, #[trigger] reads[i]) by {
        assert(all[user.len() + system.len() + i] == reads[i]);
    }
}

/// The snapshot holds a listing of the accounts root, where the scope asks
/// for one.
pub open spec fn root_is_known(kind: Kind, scope: Scope, fs: SnapshotView) -> bool {
    (kind == Kind::Agents && scope == Scope::User) ==> fs.listings.contains_key(ACCOUNTS_ROOT@)
}

/// After one round the accounts root is known.
proof fn lemma_root_becomes_known(kind: Kind, scope: Scope, fs: SnapshotView, next: SnapshotView)
    requires
        follows(kind, fs, next),
    ensures
        root_is_known(kind, scope, next),
{
    lemma_round_answers_consulted(kind, fs, next);
    if kind == Kind::Agents && scope == Scope::User {
        let user = scope_requests(kind, Scope::User, fs);
        assert(user[0] == RequestView::List(ACCOUNTS_ROOT@));
        assert(answered(next, user[0]));
    }
}

/// One round after the accounts root is known, the snapshot answers the
/// questions that tell the directories of the scope.
proof fn lemma_homes_become_known(kind: Kind, scope: Scope, fs: SnapshotView, next: SnapshotView)
    requires
        follows(kind, fs, next),
        root_is_known(kind, scope, fs),
    ensures
        unanswered(next, home_requests(kind, scope, next)).len() == 0,
{
    lemma_round_answers_consulted(kind, fs, next);
    let homes = home_requests(kind, scope, fs);
    let requests = scope_requests(kind, scope, fs);
    if kind == Kind::Agents && scope == Scope::User {
        lemma_enumerate_is_kept(fs, next, ACCOUNTS_ROOT@);
    }
    assert(home_requests(kind, scope, next) == homes);
    assert forall|i: int| 0 <= i < homes.len() implies answered(next, #[trigger] homes[i]) by {
        assert(requests[i] == homes[i]);
        match scope {
            Scope::User => {
                assert(answered(next, scope_requests(kind, Scope::User, fs)[i]));
            },
            Scope::System => {
                assert(answered(next, scope_requests(kind, Scope::System, fs)[i]));
            },
        }
    }
    lemma_none_unanswered(next, homes);
}

/// One round after the snapshot answers the questions that tell the
/// directories of a scope, it answers every question of the scope.
proof fn lemma_scope_becomes_known(kind: Kind, scope: Scope, fs: SnapshotView, next: SnapshotView)
    requires
        follows(kind, fs, next),
        unanswered(fs, home_requests(kind, scope, fs)).len() == 0,
    ensures
        unanswered(next, scope_requests(kind, scope, next)).len() == 0,
{
    lemma_round_answers_consulted(kind, fs, next);
    lemma_homes_are_kept(kind, scope, fs, next);
    let requests = scope_requests(kind, scope, fs);
    assert forall|i: int| 0 <= i < requests.len() implies answered(
        next,
        #[trigger] requests[i],
    ) by {
        match scope {
            Scope::User => {
                assert(answered(next, scope_requests(kind, Scope::User, fs)[i]));
            },
            Scope::System => {
                assert(answered(next, scope_requests(kind, Scope::System, fs)[i]));
            },
        }
    }
    lemma_none_unanswered(next, requests);
}

/// One round after the snapshot answers every question of both scopes, it
/// is complete.
proof fn lemma_snapshot_becomes_complete(kind: Kind, fs: SnapshotView, next: SnapshotView)
    requires
        follows(kind, fs, next),
        unanswered(fs, scope_requests(kind, Scope::User, fs)).len() == 0,
        unanswered(fs, scope_requests(kind, Scope::System, fs)).len() == 0,
    ensures
        complete(kind, next),
{
    lemma_round_answers_consulted(kind, fs, next);
    lemma_scope_is_kept(kind, Scope::User, fs, next);
    lemma_scope_is_kept(kind, Scope::System, fs, next);
    let user = scope_requests(kind, Scope::User, next);
    let system = scope_requests(kind, Scope::System, next);
    let reads = read_requests(source_files(kind, next));
    assert(source_files(kind, next) == source_files(kind, fs));
    lemma_none_unanswered(next, reads);
    lemma_unanswered_add(next, user, system);
    lemma_unanswered_add(next, user + system, reads);
}

/// Asking and recording ends: after four rounds, whatever the answers were,
/// nothing is outstanding.
pub proof fn lemma_four_rounds_complete(
    kind: Kind,
    start: SnapshotView,
    first: SnapshotView,
    second: SnapshotView,
    third: SnapshotView,
    fourth: SnapshotView,
)
    requires
        follows(kind, start, first),
        follows(kind, first, second),
        follows(kind, second, third),
        follows(kind, third, fourth),
    ensures
        complete(kind, fourth),
{
    lemma_root_becomes_known(kind, Scope::User, start, first);
    lemma_root_becomes_known(kind, Scope::System, start, first);
    lemma_homes_become_known(kind, Scope::User, first, second);
    lemma_homes_become_known(kind, Scope::System, first, second);
    lemma_scope_becomes_known(kind, Scope::User, second, third);
    lemma_scope_becomes_known(kind, Scope::System, second, third);
    lemma_snapshot_becomes_complete(kind, third, fourth);
}

/// A complete snapshot stays complete, whatever else is recorded, as long as
/// the answers that it holds stay as they are.
pub proof fn lemma_complete_stays_complete(kind: Kind, fs: SnapshotView, later: SnapshotView)
    requires
        complete(kind, fs),
        fs.within(later),
    ensures
        complete(kind, later),
{
    let user = scope_requests(kind, Scope::User, fs);
    let system = scope_requests(kind, Scope::System, fs);
    let reads = read_requests(source_files(kind, fs));
    lemma_unanswered_add(fs, user, system);
    lemma_unanswered_add(fs, user + system, reads);
    assert forall|i: int| 0 <= i < outstanding(kind, fs).len() implies answered(
        later,
        #[trigger] outstanding(kind, fs)[i],
    ) by {}
    lemma_snapshot_becomes_complete(kind, fs, later);
}

} // verus!
