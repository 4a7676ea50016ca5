//! What a snapshot still lacks before a collection from it is final.
//!
//! A collection treats a path of which the snapshot holds nothing as absent.
//! [`plan`] lists the questions that a collection puts to the snapshot and
//! that it cannot answer. The caller puts them to the filesystem, records
//! the answers and asks again, until the list is empty: the answers to some
//! questions raise others.

use vstd::prelude::*;
use crate::launchd::LaunchdPlist;
use crate::model::{
    contribution, enumerate, scope_directories, scope_files, source_files, Kind, Scope,
};
use crate::paths::{agent_directory, has_extension, is_plist_path, user_agent_directory, ACCOUNTS_ROOT};
use crate::snapshot::{answered, Request, RequestView, Snapshot, SnapshotView};
use crate::views::{lemma_deep_view_append, lemma_deep_view_empty, lemma_deep_view_push};

verus! {

/// The question for the children of each directory, in order.
pub open spec fn list_requests(directories: Seq<Seq<char>>) -> Seq<RequestView> {
    directories.map_values(|directory: Seq<char>| RequestView::List(directory))
}

/// The question whether the agent directory of each home directory is a
/// directory, in order.
pub open spec fn probe_requests(homes: Seq<Seq<char>>) -> Seq<RequestView> {
    homes.map_values(|home: Seq<char>| RequestView::Probe(agent_directory(home)))
}

/// The question for the bytes of each path that has the extension, in order.
pub open spec fn read_requests(paths: Seq<Seq<char>>) -> Seq<RequestView>
    decreases paths.len(),
{
    if paths.len() == 0 {
        Seq::empty()
    } else {
        let earlier = read_requests(paths.drop_last());
        if has_extension(paths.last()) {
            earlier.push(RequestView::Read(paths.last()))
        } else {
            earlier
        }
    }
}

/// The questions that tell which directories a scope is made of. Only the
/// user scope of the agents has any: the children of the accounts root and,
/// where they are known, whether each has an agent directory.
pub open spec fn home_requests(kind: Kind, scope: Scope, fs: SnapshotView) -> Seq<RequestView> {
    match (kind, scope) {
        (Kind::Agents, Scope::User) => seq![RequestView::List(ACCOUNTS_ROOT@)] + (match enumerate(
            fs,
            ACCOUNTS_ROOT@,
        ) {
            Ok(homes) => probe_requests(homes),
            Err(_) => Seq::empty(),
        }),
        _ => Seq::empty(),
    }
}

/// The questions that a scope raises: those that tell its directories, and
/// the children of each directory that is known to belong to it.
pub open spec fn scope_requests(kind: Kind, scope: Scope, fs: SnapshotView) -> Seq<RequestView> {
    home_requests(kind, scope, fs) + (match scope_directories(kind, scope, fs) {
        Ok(directories) => list_requests(directories),
        Err(_) => Seq::empty(),
    })
}

/// Every question that a collection of `kind` puts to the snapshot: those of
/// the user scope, those of the system scope, and the bytes of each source
/// file that has the extension.
pub open spec fn consulted(kind: Kind, fs: SnapshotView) -> Seq<RequestView> {
    scope_requests(kind, Scope::User, fs) + scope_requests(kind, Scope::System, fs)
        + read_requests(source_files(kind, fs))
}

/// Those of the questions that the snapshot does not answer, in order.
pub open spec fn unanswered(fs: SnapshotView, requests: Seq<RequestView>) -> Seq<RequestView>
    decreases requests.len(),
{
    if requests.len() == 0 {
        Seq::empty()
    } else {
        let earlier = unanswered(fs, requests.drop_last());
        if answered(fs, requests.last()) {
            earlier
        } else {
            earlier.push(requests.last())
        }
    }
}

/// The questions that a collection of `kind` puts to the snapshot and that
/// the snapshot does not answer.
pub open spec fn outstanding(kind: Kind, fs: SnapshotView) -> Seq<RequestView> {
    unanswered(fs, consulted(kind, fs))
}

/// The snapshot answers every question that a collection of `kind` puts to
/// it.
pub open spec fn complete(kind: Kind, fs: SnapshotView) -> bool {
    outstanding(kind, fs).len() == 0
}

/// The unanswered questions of two lists, one after the other, are those of
/// the two lists joined.
pub proof fn lemma_unanswered_add(fs: SnapshotView, first: Seq<RequestView>, second: Seq<RequestView>)
    ensures
        unanswered(fs, first + second) == unanswered(fs, first) + unanswered(fs, second),
    decreases second.len(),
{
    if second.len() == 0 {
        assert(first + second =~= first);
        assert(unanswered(fs, first) + unanswered(fs, second) =~= unanswered(fs, first));
    } else {
        assert((first + second).drop_last() =~= first + second.drop_last());
        lemma_unanswered_add(fs, first, second.drop_last());
        assert(unanswered(fs, first + second) =~= unanswered(fs, first) + unanswered(fs, second));
    }
}

/// Adds the question to the list unless the snapshot answers it.
fn ask(snapshot: &Snapshot, request: Request, requests: &mut Vec<Request>)
    ensures
        final(requests).deep_view() == old(requests).deep_view() + unanswered(
            snapshot@,
            seq![request@],
        ),
{
    let ghost before = *requests;
    assert(seq![request@].drop_last() =~= Seq::<RequestView>::empty());
    assert(unanswered(snapshot@, Seq::<RequestView>::empty()) =~= Seq::<RequestView>::empty());
    if !snapshot.answers(&request) {
        requests.push(request);
        proof {
            lemma_deep_view_push(before, *requests, request);
            assert(requests.deep_view() =~= before.deep_view() + unanswered(
                snapshot@,
                seq![request@],
            ));
        }
    } else {
        assert(requests.deep_view() =~= before.deep_view() + unanswered(
            snapshot@,
            seq![request@],
        ));
    }
}

/// Asks for the children of each directory.
fn ask_listings(snapshot: &Snapshot, directories: &Vec<String>, requests: &mut Vec<Request>)
    ensures
        final(requests).deep_view() == old(requests).deep_view() + unanswered(
            snapshot@,
            list_requests(directories.deep_view()),
        ),
{
    let ghost fs = snapshot@;
    let ghost before = requests.deep_view();
    let ghost all = directories.deep_view();
    let mut i: usize = 0;
    proof {
        assert(list_requests(all.take(0)) =~= Seq::<RequestView>::empty());
        assert(requests.deep_view() =~= before + unanswered(fs, list_requests(all.take(0))));
    }
    while i < directories.len()
        invariant
            i <= directories.len(),
            fs == snapshot@,
            all == directories.deep_view(),
            requests.deep_view() == before + unanswered(fs, list_requests(all.take(i as int))),
        decreases directories.len() - i,
    {
        let request = Request::List(directories[i].clone());
        proof {
            assert(list_requests(all.take(i + 1)) =~= list_requests(all.take(i as int)) + seq![
                request@,
            ]);
            lemma_unanswered_add(fs, list_requests(all.take(i as int)), seq![request@]);
        }
        ask(snapshot, request, requests);
        assert(requests.deep_view() =~= before + unanswered(fs, list_requests(all.take(i + 1))));
        i += 1;
    }
    assert(all.take(directories.len() as int) =~= all);
}

/// Asks whether the agent directory of each home directory is a directory.
fn ask_probes(snapshot: &Snapshot, homes: &Vec<String>, requests: &mut Vec<Request>)
    ensures
        final(requests).deep_view() == old(requests).deep_view() + unanswered(
            snapshot@,
            probe_requests(homes.deep_view()),
        ),
{
    let ghost fs = snapshot@;
    let ghost before = requests.deep_view();
    let ghost all = homes.deep_view();
    let mut i: usize = 0;
    proof {
        assert(probe_requests(all.take(0)) =~= Seq::<RequestView>::empty());
        assert(requests.deep_view() =~= before + unanswered(fs, probe_requests(all.take(0))));
    }
    while i < homes.len()
        invariant
            i <= homes.len(),
            fs == snapshot@,
            all == homes.deep_view(),
            requests.deep_view() == before + unanswered(fs, probe_requests(all.take(i as int))),
        decreases homes.len() - i,
    {
        let request = Request::Probe(user_agent_directory(homes[i].as_str()));
        proof {
            assert(probe_requests(all.take(i + 1)) =~= probe_requests(all.take(i as int)) + seq![
                request@,
            ]);
            lemma_unanswered_add(fs, probe_requests(all.take(i as int)), seq![request@]);
        }
        ask(snapshot, request, requests);
        assert(requests.deep_view() =~= before + unanswered(fs, probe_requests(all.take(i + 1))));
        i += 1;
    }
    assert(all.take(homes.len() as int) =~= all);
}

/// Asks for the bytes of each path that has the extension.
fn ask_reads(snapshot: &Snapshot, paths: &Vec<String>, requests: &mut Vec<Request>)
    ensures
        final(requests).deep_view() == old(requests).deep_view() + unanswered(
            snapshot@,
            read_requests(paths.deep_view()),
        ),
{
    let ghost fs = snapshot@;
    let ghost before = requests.deep_view();
    let ghost all = paths.deep_view();
    let mut i: usize = 0;
    proof {
        assert(all.take(0) =~= Seq::<Seq<char>>::empty());
        assert(requests.deep_view() =~= before + unanswered(fs, read_requests(all.take(0))));
    }
    while i < paths.len()
        invariant
            i <= paths.len(),
            fs == snapshot@,
            all == paths.deep_view(),
            requests.deep_view() == before + unanswered(fs, read_requests(all.take(i as int))),
        decreases paths.len() - i,
    {
        assert(all.take(i + 1).drop_last() =~= all.take(i as int));
        if is_plist_path(paths[i].as_str()) {
            let request = Request::Read(paths[i].clone());
            proof {
                assert(read_requests(all.take(i + 1)) =~= read_requests(all.take(i as int)) + seq![
                    request@,
                ]);
                lemma_unanswered_add(fs, read_requests(all.take(i as int)), seq![request@]);
            }
            ask(snapshot, request, requests);
            assert(requests.deep_view() =~= before + unanswered(
                fs,
                read_requests(all.take(i + 1)),
            ));
        }
        i += 1;
    }
    assert(all.take(paths.len() as int) =~= all);
}

/// Asks the questions of one scope, and adds the paths that the scope is
/// known to hold to the source files.
fn ask_scope(
    kind: Kind,
    scope: Scope,
    snapshot: &Snapshot,
    requests: &mut Vec<Request>,
    files: &mut Vec<String>,
)
    ensures
        final(requests).deep_view() == old(requests).deep_view() + unanswered(
            snapshot@,
            scope_requests(kind, scope, snapshot@),
        ),
        final(files).deep_view() == old(files).deep_view() + contribution(
            scope_files(kind, scope, snapshot@),
        ),
{
    let ghost fs = snapshot@;
    let ghost before = requests.deep_view();
    let ghost sources = files.deep_view();
    if let (Kind::Agents, Scope::User) = (kind, scope) {
        ask(snapshot, Request::List(String::from_str(ACCOUNTS_ROOT)), requests);
        match LaunchdPlist::launchd_data(snapshot, ACCOUNTS_ROOT) {
            Ok(homes) => {
                ask_probes(snapshot, &homes, requests);
                proof {
                    lemma_unanswered_add(
                        fs,
                        seq![RequestView::List(ACCOUNTS_ROOT@)],
                        probe_requests(homes.deep_view()),
                    );
                }
            },
            Err(_) => {
                assert(home_requests(kind, scope, fs) =~= seq![RequestView::List(ACCOUNTS_ROOT@)]);
            },
        }
    } else {
        assert(unanswered(fs, home_requests(kind, scope, fs)) =~= Seq::<RequestView>::empty());
    }
    assert(requests.deep_view() =~= before + unanswered(fs, home_requests(kind, scope, fs)));
    match LaunchdPlist::directories(kind, scope, snapshot) {
        Ok(directories) => {
            ask_listings(snapshot, &directories, requests);
            proof {
                lemma_unanswered_add(
                    fs,
                    home_requests(kind, scope, fs),
                    list_requests(directories.deep_view()),
                );
            }
            assert(requests.deep_view() =~= before + unanswered(
                fs,
                scope_requests(kind, scope, fs),
            ));
            match LaunchdPlist::scope_paths(kind, scope, snapshot) {
                Ok(mut found) => {
                    let ghost held = *files;
                    let ghost added = found;
                    files.append(&mut found);
                    proof {
                        lemma_deep_view_append(held, *files, added);
                    }
                },
                Err(_) => {
                    assert(files.deep_view() =~= sources + contribution(
                        scope_files(kind, scope, fs),
                    ));
                },
            }
        },
        Err(_) => {
            assert(scope_requests(kind, scope, fs) =~= home_requests(kind, scope, fs));
            assert(files.deep_view() =~= sources + contribution(scope_files(kind, scope, fs)));
        },
    }
}

/// The questions that a collection of `kind` puts to the snapshot and that
/// the snapshot cannot answer, in the order in which the collection raises
/// them: the user scope, the system scope, the source files.
pub fn plan(kind: Kind, snapshot: &Snapshot) -> (requests: Vec<Request>)
    ensures
        requests.deep_view() == outstanding(kind, snapshot@),
{
    let ghost fs = snapshot@;
    let mut requests: Vec<Request> = Vec::new();
    let mut files: Vec<String> = Vec::new();
    proof {
        lemma_deep_view_empty(requests);
        lemma_deep_view_empty(files);
    }
    ask_scope(kind, Scope::User, snapshot, &mut requests, &mut files);
    ask_scope(kind, Scope::System, snapshot, &mut requests, &mut files);
    assert(files.deep_view() =~= source_files(kind, fs));
    ask_reads(snapshot, &files, &mut requests);
    proof {
        let user = scope_requests(kind, Scope::User, fs);
        let system = scope_requests(kind, Scope::System, fs);
        let reads = read_requests(source_files(kind, fs));
        lemma_unanswered_add(fs, user, system);
        lemma_unanswered_add(fs, user + system, reads);
        assert(requests.deep_view() =~= unanswered(fs, user) + unanswered(fs, system) + unanswered(
            fs,
            reads,
        ));
    }
    requests
}

} // verus!
