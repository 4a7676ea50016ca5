use macos_launchd::error::LaunchdError;
use macos_launchd::launchd::LaunchdPlist;
use macos_launchd::model::Kind;
use macos_launchd::plan::plan;
use macos_launchd::snapshot::{Request, Snapshot};

fn document(label: &str) -> Vec<u8> {
    format!(
        "<?xml version=\"1.0\" encoding=\"UTF-8\"?>\n<plist version=\"1.0\">\n<dict>\n\t<key>Label</key>\n\t<string>{}</string>\n</dict>\n</plist>\n",
        label
    )
    .into_bytes()
}

fn shown(requests: &[Request]) -> Vec<String> {
    requests
        .iter()
        .map(|request| match request {
            Request::List(directory) => format!("list {}", directory),
            Request::Probe(path) => format!("probe {}", path),
            Request::Read(path) => format!("read {}", path),
        })
        .collect()
}

/// A filesystem in memory: directories with their children, and files.
fn disk() -> (Vec<(String, Vec<String>)>, Vec<(String, Vec<u8>)>) {
    let directories = vec![
        (
            "/Users/".to_string(),
            vec!["/Users/alice".to_string(), "/Users/Shared".to_string(), "/Users/bob".to_string()],
        ),
        (
            "/Users/alice/Library/LaunchAgents/".to_string(),
            vec!["/Users/alice/Library/LaunchAgents/com.alice.sync.plist".to_string()],
        ),
        (
            "/Users/bob/Library/LaunchAgents/".to_string(),
            vec![
                "/Users/bob/Library/LaunchAgents/com.bob.backup.plist".to_string(),
                "/Users/bob/Library/LaunchAgents/.DS_Store".to_string(),
            ],
        ),
        (
            "/System/Library/LaunchAgents/".to_string(),
            vec![
                "/System/Library/LaunchAgents/com.apple.dock.plist".to_string(),
                "/System/Library/LaunchAgents/broken.plist".to_string(),
            ],
        ),
        ("/Library/Apple/System/Library/LaunchAgents/".to_string(), vec![]),
        (
            "/Library/LaunchAgents/".to_string(),
            vec!["/Library/LaunchAgents/com.vendor.updater.plist".to_string()],
        ),
    ];
    let files = vec![
        (
            "/Users/alice/Library/LaunchAgents/com.alice.sync.plist".to_string(),
            document("com.alice.sync"),
        ),
        (
            "/Users/bob/Library/LaunchAgents/com.bob.backup.plist".to_string(),
            document("com.bob.backup"),
        ),
        ("/Users/bob/Library/LaunchAgents/.DS_Store".to_string(), vec![0, 1, 2]),
        ("/System/Library/LaunchAgents/com.apple.dock.plist".to_string(), document("com.apple.dock")),
        ("/System/Library/LaunchAgents/broken.plist".to_string(), vec![b'<', b'p']),
        ("/Library/LaunchAgents/com.vendor.updater.plist".to_string(), document("com.vendor.updater")),
    ];
    (directories, files)
}

fn answer(snapshot: &mut Snapshot, request: Request) {
    let (directories, files) = disk();
    match request {
        Request::List(directory) => {
            let outcome = match directories.iter().find(|(path, _)| *path == directory) {
                Some((_, children)) => Ok(children.clone()),
                None => Err("No such file or directory".to_string()),
            };
            snapshot.record_listing(directory, outcome);
        }
        Request::Probe(path) => {
            let found = directories.iter().any(|(directory, _)| *directory == path);
            snapshot.record_probe(path, found);
        }
        Request::Read(path) => {
            let outcome = match files.iter().find(|(name, _)| *name == path) {
                Some((_, bytes)) => Ok(bytes.clone()),
                None => Err("No such file or directory".to_string()),
            };
            snapshot.record_contents(path, outcome);
        }
    }
}

fn take(kind: Kind) -> (Snapshot, Vec<Vec<String>>) {
    let mut snapshot = Snapshot::new();
    let mut rounds = Vec::new();
    loop {
        let requests = plan(kind, &snapshot);
        if requests.is_empty() {
            break;
        }
        rounds.push(shown(&requests));
        assert!(rounds.len() < 10);
        for request in requests {
            assert!(!snapshot.answers(&request));
            answer(&mut snapshot, request);
        }
    }
    (snapshot, rounds)
}

#[test]
fn a_new_snapshot_answers_nothing() {
    let snapshot = Snapshot::new();
    assert!(snapshot.listing("/Users/").is_none());
    assert!(snapshot.probe("/Users/").is_none());
    assert!(snapshot.contents("/Users/").is_none());
    assert!(!snapshot.answers(&Request::List("/Users/".to_string())));
    assert!(!snapshot.answers(&Request::Probe("/Users/".to_string())));
    assert!(!snapshot.answers(&Request::Read("/Users/".to_string())));
}

#[test]
fn a_snapshot_returns_what_was_recorded() {
    let mut snapshot = Snapshot::new();
    snapshot.record_listing("/a".to_string(), Ok(vec!["/a/x".to_string(), "/a/y".to_string()]));
    snapshot.record_listing("/b".to_string(), Err("denied".to_string()));
    snapshot.record_probe("/a".to_string(), true);
    snapshot.record_probe("/a/x".to_string(), false);
    snapshot.record_contents("/a/x".to_string(), Ok(vec![1, 2, 3]));
    snapshot.record_contents("/a/y".to_string(), Err("gone".to_string()));
    assert_eq!(
        snapshot.listing("/a"),
        Some(&Ok(vec!["/a/x".to_string(), "/a/y".to_string()]))
    );
    assert_eq!(snapshot.listing("/b"), Some(&Err("denied".to_string())));
    assert_eq!(snapshot.listing("/c"), None);
    assert_eq!(snapshot.probe("/a"), Some(true));
    assert_eq!(snapshot.probe("/a/x"), Some(false));
    assert_eq!(snapshot.probe("/b"), None);
    assert_eq!(snapshot.contents("/a/x"), Some(&Ok(vec![1, 2, 3])));
    assert_eq!(snapshot.contents("/a/y"), Some(&Err("gone".to_string())));
    assert_eq!(snapshot.contents("/a"), None);
    assert!(snapshot.answers(&Request::List("/b".to_string())));
    assert!(snapshot.answers(&Request::Probe("/a/x".to_string())));
    assert!(snapshot.answers(&Request::Read("/a/y".to_string())));
    assert!(!snapshot.answers(&Request::Read("/a".to_string())));
}

#[test]
fn a_later_record_replaces_an_earlier_one() {
    let mut snapshot = Snapshot::new();
    snapshot.record_listing("/a".to_string(), Err("denied".to_string()));
    snapshot.record_listing("/b".to_string(), Ok(vec![]));
    snapshot.record_listing("/a".to_string(), Ok(vec!["/a/x".to_string()]));
    assert_eq!(snapshot.listing("/a"), Some(&Ok(vec!["/a/x".to_string()])));
    assert_eq!(snapshot.listing("/b"), Some(&Ok(vec![])));
    snapshot.record_probe("/a".to_string(), false);
    snapshot.record_probe("/a".to_string(), true);
    assert_eq!(snapshot.probe("/a"), Some(true));
    snapshot.record_contents("/a/x".to_string(), Ok(vec![1]));
    snapshot.record_contents("/a/x".to_string(), Ok(vec![2]));
    assert_eq!(snapshot.contents("/a/x"), Some(&Ok(vec![2])));
}

#[test]
fn the_first_plan_for_daemons_lists_the_three_directories() {
    let snapshot = Snapshot::new();
    assert_eq!(
        shown(&plan(Kind::Daemons, &snapshot)),
        vec![
            "list /Library/launchdaemons/",
            "list /System/Library/launchdaemons/",
            "list /Library/Apple/System/Library/launchdaemons/",
        ]
    );
}

#[test]
fn the_first_plan_for_agents_lists_the_accounts_root_and_the_system_directories() {
    let snapshot = Snapshot::new();
    assert_eq!(
        shown(&plan(Kind::Agents, &snapshot)),
        vec![
            "list /Users/",
            "list /System/Library/LaunchAgents/",
            "list /Library/Apple/System/Library/LaunchAgents/",
        ]
    );
}

#[test]
fn planning_follows_the_answers_round_by_round() {
    let (snapshot, rounds) = take(Kind::Agents);
    assert_eq!(
        rounds,
        vec![
            vec![
                "list /Users/".to_string(),
                "list /System/Library/LaunchAgents/".to_string(),
                "list /Library/Apple/System/Library/LaunchAgents/".to_string(),
            ],
            vec![
                "probe /Users/alice/Library/LaunchAgents/".to_string(),
                "probe /Users/Shared/Library/LaunchAgents/".to_string(),
                "probe /Users/bob/Library/LaunchAgents/".to_string(),
                "list /Library/LaunchAgents/".to_string(),
                "read /System/Library/LaunchAgents/com.apple.dock.plist".to_string(),
                "read /System/Library/LaunchAgents/broken.plist".to_string(),
            ],
            vec![
                "list /Users/alice/Library/LaunchAgents/".to_string(),
                "list /Users/bob/Library/LaunchAgents/".to_string(),
                "read /Library/LaunchAgents/com.vendor.updater.plist".to_string(),
            ],
            vec![
                "read /Users/alice/Library/LaunchAgents/com.alice.sync.plist".to_string(),
                "read /Users/bob/Library/LaunchAgents/com.bob.backup.plist".to_string(),
            ],
        ]
    );
    assert!(plan(Kind::Agents, &snapshot).is_empty());
    assert!(snapshot.contents("/Users/bob/Library/LaunchAgents/.DS_Store").is_none());
    let gathered = LaunchdPlist::collect(Kind::Agents, &snapshot);
    let records = gathered.outcome.unwrap();
    let paths: Vec<&str> = records.iter().map(|record| record.plist_path.as_str()).collect();
    assert_eq!(
        paths,
        vec![
            "/Users/alice/Library/LaunchAgents/com.alice.sync.plist",
            "/Users/bob/Library/LaunchAgents/com.bob.backup.plist",
            "/Library/LaunchAgents/com.vendor.updater.plist",
            "/System/Library/LaunchAgents/com.apple.dock.plist",
        ]
    );
    assert_eq!(gathered.warnings.len(), 1);
}

#[test]
fn a_complete_snapshot_is_not_changed_by_further_records() {
    let (mut snapshot, _) = take(Kind::Agents);
    let before = LaunchdPlist::get_launchd_agents(&snapshot).outcome.unwrap();
    snapshot.record_listing("/Library/launchdaemons/".to_string(), Ok(vec![]));
    snapshot.record_probe("/Users/carol/Library/LaunchAgents/".to_string(), true);
    snapshot.record_contents(
        "/Users/bob/Library/LaunchAgents/.DS_Store".to_string(),
        Ok(document("com.example.hidden")),
    );
    assert!(plan(Kind::Agents, &snapshot).is_empty());
    let after = LaunchdPlist::get_launchd_agents(&snapshot).outcome.unwrap();
    assert_eq!(before.len(), after.len());
    for (a, b) in before.iter().zip(after.iter()) {
        assert_eq!(a.plist_path, b.plist_path);
        assert_eq!(a.launchd_data, b.launchd_data);
    }
}

#[test]
fn daemons_on_a_disk_without_daemon_directories_are_a_path_error() {
    let (snapshot, rounds) = take(Kind::Daemons);
    assert_eq!(rounds.len(), 1);
    assert_eq!(
        LaunchdPlist::get_launchd_daemons(&snapshot).outcome.unwrap_err(),
        LaunchdError::PathError
    );
}
