use macos_launchd::error::LaunchdError;
use macos_launchd::launchd::{LaunchdPlist, Warning};
use macos_launchd::model::{Kind, Scope};
use macos_launchd::snapshot::Snapshot;

fn xml(label: &str) -> Vec<u8> {
    format!(
        "<?xml version=\"1.0\" encoding=\"UTF-8\"?>\n<plist version=\"1.0\">\n<dict>\n\t<key>Label</key>\n\t<string>{}</string>\n</dict>\n</plist>\n",
        label
    )
    .into_bytes()
}

fn garbage() -> Vec<u8> {
    vec![b'b', b'p', b'l', b'i', b's', b't', b'0', b'0', 0xff, 0x00, 0x13, 0x37]
}

fn names(prefix: &str, count: usize) -> Vec<String> {
    let mut paths = Vec::new();
    for i in 0..count {
        paths.push(format!("{}com.example.{}.plist", prefix, i));
    }
    paths
}

fn populate(snapshot: &mut Snapshot, directory: &str, count: usize) -> Vec<String> {
    let paths = names(directory, count);
    for path in &paths {
        snapshot.record_contents(path.clone(), Ok(xml(path)));
    }
    snapshot.record_listing(directory.to_string(), Ok(paths.clone()));
    paths
}

fn label_of(record: &LaunchdPlist) -> String {
    record.launchd_data.get("Label").unwrap().as_string().unwrap().to_string()
}

fn paths_of(records: &[LaunchdPlist]) -> Vec<String> {
    records.iter().map(|record| record.plist_path.clone()).collect()
}

#[test]
fn test_get_launchd_daemons() {
    let mut snapshot = Snapshot::new();
    populate(&mut snapshot, "/Library/launchdaemons/", 2);
    populate(&mut snapshot, "/System/Library/launchdaemons/", 3);
    populate(&mut snapshot, "/Library/Apple/System/Library/launchdaemons/", 2);
    let results = LaunchdPlist::get_launchd_daemons(&snapshot).outcome.unwrap();
    assert!(results.len() > 5)
}

#[test]
fn test_get_launchd_agents() {
    let mut snapshot = Snapshot::new();
    snapshot.record_listing("/Users/".to_string(), Ok(vec!["/Users/alice".to_string()]));
    snapshot.record_probe("/Users/alice/Library/LaunchAgents/".to_string(), true);
    populate(&mut snapshot, "/Users/alice/Library/LaunchAgents/", 1);
    populate(&mut snapshot, "/Library/LaunchAgents/", 2);
    populate(&mut snapshot, "/System/Library/LaunchAgents/", 3);
    populate(&mut snapshot, "/Library/Apple/System/Library/LaunchAgents/", 1);
    let results = LaunchdPlist::get_launchd_agents(&snapshot).outcome.unwrap();
    assert!(results.len() > 5)
}

#[test]
fn test_user_launchd_daemons() {
    let mut snapshot = Snapshot::new();
    populate(&mut snapshot, "/Library/launchdaemons/", 1);
    let results = LaunchdPlist::user_launchd_daemons(&snapshot).unwrap();
    assert!(results.len() > 0)
}

#[test]
fn test_system_launchd_daemons() {
    let mut snapshot = Snapshot::new();
    populate(&mut snapshot, "/System/Library/launchdaemons/", 4);
    populate(&mut snapshot, "/Library/Apple/System/Library/launchdaemons/", 2);
    let results = LaunchdPlist::system_launchd_daemons(&snapshot).unwrap();
    assert!(results.len() > 5)
}

#[test]
fn test_system_launchd_agents() {
    let mut snapshot = Snapshot::new();
    populate(&mut snapshot, "/System/Library/LaunchAgents/", 5);
    populate(&mut snapshot, "/Library/Apple/System/Library/LaunchAgents/", 1);
    let results = LaunchdPlist::system_launchd_agents(&snapshot).unwrap();
    assert!(results.len() > 5)
}

#[test]
fn test_user_launchd_agents() {
    let mut snapshot = Snapshot::new();
    snapshot.record_listing("/Users/".to_string(), Ok(vec!["/Users/alice".to_string()]));
    snapshot.record_probe("/Users/alice/Library/LaunchAgents/".to_string(), true);
    populate(&mut snapshot, "/Users/alice/Library/LaunchAgents/", 1);
    populate(&mut snapshot, "/Library/LaunchAgents/", 1);
    let results = LaunchdPlist::user_launchd_agents(&snapshot).unwrap();
    assert!(results.len() > 0)
}

#[test]
fn test_launchd_data() {
    const SYSTEM_LAUNCHD_AGENTS: &str = "/System/Library/LaunchAgents/";
    let mut snapshot = Snapshot::new();
    populate(&mut snapshot, SYSTEM_LAUNCHD_AGENTS, 6);
    let results =
        LaunchdPlist::launchd_data(&snapshot, SYSTEM_LAUNCHD_AGENTS).unwrap();
    assert!(results.len() > 5)
}

#[test]
fn enumerator_returns_files_and_subdirectories_without_descending() {
    let mut snapshot = Snapshot::new();
    let children = vec![
        "/d/a.plist".to_string(),
        "/d/b.txt".to_string(),
        "/d/c".to_string(),
        "/d/sub1".to_string(),
        "/d/sub2".to_string(),
    ];
    snapshot.record_listing("/d".to_string(), Ok(children.clone()));
    snapshot.record_probe("/d/sub1".to_string(), true);
    snapshot.record_probe("/d/sub2".to_string(), true);
    snapshot.record_listing("/d/sub1".to_string(), Ok(vec!["/d/sub1/deep.plist".to_string()]));
    snapshot.record_listing("/d/sub2".to_string(), Ok(vec![]));
    let found = LaunchdPlist::launchd_data(&snapshot, "/d").unwrap();
    assert_eq!(found.len(), 3 + 2);
    assert_eq!(found, children);
}

#[test]
fn enumerator_fails_on_unlisted_and_on_failed_directories() {
    let mut snapshot = Snapshot::new();
    snapshot.record_listing("/locked".to_string(), Err("Permission denied".to_string()));
    let unlisted = LaunchdPlist::launchd_data(&snapshot, "/absent").unwrap_err();
    assert_eq!(unlisted.directory, "/absent");
    assert_eq!(unlisted.detail, "not described by the snapshot");
    let locked = LaunchdPlist::launchd_data(&snapshot, "/locked").unwrap_err();
    assert_eq!(locked.directory, "/locked");
    assert_eq!(locked.detail, "Permission denied");
}

#[test]
fn system_scope_fails_when_either_directory_fails() {
    let mut snapshot = Snapshot::new();
    populate(&mut snapshot, "/System/Library/launchdaemons/", 3);
    let first_only = LaunchdPlist::system_launchd_daemons(&snapshot).unwrap_err();
    assert_eq!(first_only.directory, "/Library/Apple/System/Library/launchdaemons/");

    let mut snapshot = Snapshot::new();
    populate(&mut snapshot, "/Library/Apple/System/Library/LaunchAgents/", 3);
    snapshot
        .record_listing("/System/Library/LaunchAgents/".to_string(), Err("denied".to_string()));
    let second_only = LaunchdPlist::system_launchd_agents(&snapshot).unwrap_err();
    assert_eq!(second_only.directory, "/System/Library/LaunchAgents/");
    assert_eq!(second_only.detail, "denied");
}

#[test]
fn system_scope_lists_the_classic_directory_before_the_secondary() {
    let mut snapshot = Snapshot::new();
    let secondary = populate(&mut snapshot, "/Library/Apple/System/Library/launchdaemons/", 2);
    let classic = populate(&mut snapshot, "/System/Library/launchdaemons/", 2);
    let found = LaunchdPlist::system_launchd_daemons(&snapshot).unwrap();
    let mut expected = classic.clone();
    expected.extend(secondary);
    assert_eq!(found, expected);
    let same = LaunchdPlist::scope_paths(Kind::Daemons, Scope::System, &snapshot).unwrap();
    assert_eq!(same, expected);
}

#[test]
fn scope_directories_are_the_fixed_ones() {
    let snapshot = Snapshot::new();
    assert_eq!(
        LaunchdPlist::directories(Kind::Daemons, Scope::User, &snapshot).unwrap(),
        vec!["/Library/launchdaemons/".to_string()]
    );
    assert_eq!(
        LaunchdPlist::directories(Kind::Daemons, Scope::System, &snapshot).unwrap(),
        vec![
            "/System/Library/launchdaemons/".to_string(),
            "/Library/Apple/System/Library/launchdaemons/".to_string()
        ]
    );
    assert_eq!(
        LaunchdPlist::directories(Kind::Agents, Scope::System, &snapshot).unwrap(),
        vec![
            "/System/Library/LaunchAgents/".to_string(),
            "/Library/Apple/System/Library/LaunchAgents/".to_string()
        ]
    );
    let failed = LaunchdPlist::directories(Kind::Agents, Scope::User, &snapshot).unwrap_err();
    assert_eq!(failed.directory, "/Users/");
}

#[test]
fn user_agents_come_per_user_and_then_shared() {
    let mut snapshot = Snapshot::new();
    snapshot.record_listing(
        "/Users/".to_string(),
        Ok(vec![
            "/Users/alice".to_string(),
            "/Users/.localized".to_string(),
            "/Users/bob".to_string(),
            "/Users/Shared".to_string(),
        ]),
    );
    snapshot.record_probe("/Users/alice/Library/LaunchAgents/".to_string(), true);
    snapshot.record_probe("/Users/.localized/Library/LaunchAgents/".to_string(), false);
    snapshot.record_probe("/Users/bob/Library/LaunchAgents/".to_string(), true);
    let alice = populate(&mut snapshot, "/Users/alice/Library/LaunchAgents/", 2);
    let bob = populate(&mut snapshot, "/Users/bob/Library/LaunchAgents/", 1);
    let shared = populate(&mut snapshot, "/Library/LaunchAgents/", 2);
    assert_eq!(
        LaunchdPlist::directories(Kind::Agents, Scope::User, &snapshot).unwrap(),
        vec![
            "/Users/alice/Library/LaunchAgents/".to_string(),
            "/Users/bob/Library/LaunchAgents/".to_string(),
            "/Library/LaunchAgents/".to_string()
        ]
    );
    let found = LaunchdPlist::user_launchd_agents(&snapshot).unwrap();
    let mut expected = alice.clone();
    expected.extend(bob);
    expected.extend(shared);
    assert_eq!(found, expected);
}

#[test]
fn user_without_agent_directory_is_skipped() {
    let mut with_carol = Snapshot::new();
    with_carol.record_listing(
        "/Users/".to_string(),
        Ok(vec!["/Users/alice".to_string(), "/Users/carol".to_string()]),
    );
    with_carol.record_probe("/Users/alice/Library/LaunchAgents/".to_string(), true);
    with_carol.record_probe("/Users/carol/Library/LaunchAgents/".to_string(), false);
    populate(&mut with_carol, "/Users/alice/Library/LaunchAgents/", 2);
    populate(&mut with_carol, "/Library/LaunchAgents/", 1);
    populate(&mut with_carol, "/System/Library/LaunchAgents/", 1);
    populate(&mut with_carol, "/Library/Apple/System/Library/LaunchAgents/", 1);

    let mut without_carol = Snapshot::new();
    without_carol.record_listing("/Users/".to_string(), Ok(vec!["/Users/alice".to_string()]));
    without_carol.record_probe("/Users/alice/Library/LaunchAgents/".to_string(), true);
    populate(&mut without_carol, "/Users/alice/Library/LaunchAgents/", 2);
    populate(&mut without_carol, "/Library/LaunchAgents/", 1);
    populate(&mut without_carol, "/System/Library/LaunchAgents/", 1);
    populate(&mut without_carol, "/Library/Apple/System/Library/LaunchAgents/", 1);

    let first = LaunchdPlist::collect(Kind::Agents, &with_carol);
    let second = LaunchdPlist::collect(Kind::Agents, &without_carol);
    assert!(first.warnings.is_empty());
    assert!(second.warnings.is_empty());
    let first = first.outcome.unwrap();
    let second = second.outcome.unwrap();
    assert_eq!(first.len(), 5);
    assert_eq!(paths_of(&first), paths_of(&second));
}

#[test]
fn user_scope_passes_over_an_agent_directory_that_cannot_be_listed() {
    let mut snapshot = Snapshot::new();
    snapshot.record_listing(
        "/Users/".to_string(),
        Ok(vec!["/Users/alice".to_string(), "/Users/bob".to_string()]),
    );
    snapshot.record_probe("/Users/alice/Library/LaunchAgents/".to_string(), true);
    snapshot.record_probe("/Users/bob/Library/LaunchAgents/".to_string(), true);
    let alice = populate(&mut snapshot, "/Users/alice/Library/LaunchAgents/", 2);
    snapshot.record_listing(
        "/Users/bob/Library/LaunchAgents/".to_string(),
        Err("Permission denied".to_string()),
    );
    let shared = populate(&mut snapshot, "/Library/LaunchAgents/", 1);
    let found = LaunchdPlist::user_launchd_agents(&snapshot).unwrap();
    let mut expected = alice.clone();
    expected.extend(shared);
    assert_eq!(found, expected);
}

#[test]
fn user_scope_passes_over_a_shared_directory_that_cannot_be_listed() {
    let mut snapshot = Snapshot::new();
    snapshot.record_listing("/Users/".to_string(), Ok(vec!["/Users/alice".to_string()]));
    snapshot.record_probe("/Users/alice/Library/LaunchAgents/".to_string(), true);
    snapshot.record_listing(
        "/Users/alice/Library/LaunchAgents/".to_string(),
        Ok(vec!["/Users/alice/Library/LaunchAgents/a.plist".to_string()]),
    );
    snapshot.record_listing(
        "/Library/LaunchAgents/".to_string(),
        Err("No such file or directory".to_string()),
    );
    let found = LaunchdPlist::user_launchd_agents(&snapshot).unwrap();
    assert_eq!(found, vec!["/Users/alice/Library/LaunchAgents/a.plist".to_string()]);
}

#[test]
fn user_scope_of_the_agents_fails_with_the_accounts_root() {
    let mut snapshot = Snapshot::new();
    snapshot.record_listing("/Users/".to_string(), Err("Permission denied".to_string()));
    populate(&mut snapshot, "/Library/LaunchAgents/", 2);
    let failed = LaunchdPlist::user_launchd_agents(&snapshot).unwrap_err();
    assert_eq!(failed.directory, "/Users/");
    assert_eq!(failed.detail, "Permission denied");
}

#[test]
fn no_directory_at_all_is_a_path_error() {
    let snapshot = Snapshot::new();
    assert_eq!(
        LaunchdPlist::get_launchd_daemons(&snapshot).outcome.unwrap_err(),
        LaunchdError::PathError
    );
    assert_eq!(LaunchdPlist::get_launchd_agents(&snapshot).outcome.unwrap_err(), LaunchdError::PathError);

    let mut unreadable = Snapshot::new();
    for directory in [
        "/Library/launchdaemons/",
        "/System/Library/launchdaemons/",
        "/Library/Apple/System/Library/launchdaemons/",
    ] {
        unreadable.record_listing(directory.to_string(), Err("Permission denied".to_string()));
    }
    let gathered = LaunchdPlist::collect(Kind::Daemons, &unreadable);
    assert_eq!(gathered.outcome.unwrap_err(), LaunchdError::PathError);
    assert_eq!(gathered.warnings.len(), 2);
    match &gathered.warnings[0] {
        Warning::ScopeFailed { scope, error } => {
            assert_eq!(*scope, Scope::User);
            assert_eq!(error.directory, "/Library/launchdaemons/");
            assert_eq!(error.detail, "Permission denied");
        }
        other => panic!("unexpected warning {:?}", other),
    }
    match &gathered.warnings[1] {
        Warning::ScopeFailed { scope, error } => {
            assert_eq!(*scope, Scope::System);
            assert_eq!(error.directory, "/System/Library/launchdaemons/");
        }
        other => panic!("unexpected warning {:?}", other),
    }
}

#[test]
fn empty_directories_are_a_path_error() {
    let mut snapshot = Snapshot::new();
    populate(&mut snapshot, "/Library/launchdaemons/", 0);
    populate(&mut snapshot, "/System/Library/launchdaemons/", 0);
    populate(&mut snapshot, "/Library/Apple/System/Library/launchdaemons/", 0);
    let gathered = LaunchdPlist::collect(Kind::Daemons, &snapshot);
    assert_eq!(gathered.outcome.unwrap_err(), LaunchdError::PathError);
    assert!(gathered.warnings.is_empty());
}

#[test]
fn candidates_that_all_fail_to_decode_are_a_parse_error() {
    let mut snapshot = Snapshot::new();
    let paths = vec![
        "/Library/launchdaemons/broken.plist".to_string(),
        "/Library/launchdaemons/unread.plist".to_string(),
        "/Library/launchdaemons/missing.plist".to_string(),
        "/Library/launchdaemons/empty.plist".to_string(),
    ];
    snapshot.record_listing("/Library/launchdaemons/".to_string(), Ok(paths.clone()));
    snapshot.record_contents(paths[0].clone(), Ok(garbage()));
    snapshot.record_contents(paths[1].clone(), Err("Permission denied".to_string()));
    snapshot.record_contents(paths[3].clone(), Ok(Vec::new()));
    let gathered = LaunchdPlist::collect(Kind::Daemons, &snapshot);
    assert_eq!(gathered.outcome.unwrap_err(), LaunchdError::PlistParseError);
    assert_eq!(gathered.warnings.len(), 5);
    assert!(matches!(&gathered.warnings[0], Warning::ScopeFailed { scope: Scope::System, .. }));
    match &gathered.warnings[1] {
        Warning::Malformed { path, .. } => assert_eq!(path, &paths[0]),
        other => panic!("unexpected warning {:?}", other),
    }
    match &gathered.warnings[2] {
        Warning::Unreadable { path, detail } => {
            assert_eq!(path, &paths[1]);
            assert_eq!(detail, "Permission denied");
        }
        other => panic!("unexpected warning {:?}", other),
    }
    match &gathered.warnings[3] {
        Warning::Unreadable { path, detail } => {
            assert_eq!(path, &paths[2]);
            assert_eq!(detail, "not described by the snapshot");
        }
        other => panic!("unexpected warning {:?}", other),
    }
    match &gathered.warnings[4] {
        Warning::Malformed { path, .. } => assert_eq!(path, &paths[3]),
        other => panic!("unexpected warning {:?}", other),
    }
    assert_eq!(
        LaunchdPlist::get_launchd_daemons(&snapshot).outcome.unwrap_err(),
        LaunchdError::PlistParseError
    );
}

#[test]
fn sources_without_the_extension_are_a_parse_error() {
    let mut snapshot = Snapshot::new();
    let paths = vec![
        "/Library/launchdaemons/notes.txt".to_string(),
        "/Library/launchdaemons/readme".to_string(),
    ];
    snapshot.record_listing("/Library/launchdaemons/".to_string(), Ok(paths.clone()));
    snapshot.record_contents(paths[0].clone(), Ok(xml("com.example.notes")));
    populate(&mut snapshot, "/System/Library/launchdaemons/", 0);
    populate(&mut snapshot, "/Library/Apple/System/Library/launchdaemons/", 0);
    let gathered = LaunchdPlist::collect(Kind::Daemons, &snapshot);
    assert_eq!(gathered.outcome.unwrap_err(), LaunchdError::PlistParseError);
    assert!(gathered.warnings.is_empty());
}

#[test]
fn one_good_one_corrupt_and_one_text_file_give_one_record() {
    let mut snapshot = Snapshot::new();
    let good = "/System/Library/LaunchAgents/com.example.test.plist".to_string();
    let corrupt = "/System/Library/LaunchAgents/corrupt.plist".to_string();
    let notes = "/System/Library/LaunchAgents/notes.txt".to_string();
    snapshot.record_listing(
        "/System/Library/LaunchAgents/".to_string(),
        Ok(vec![good.clone(), corrupt.clone(), notes.clone()]),
    );
    snapshot.record_listing("/Library/Apple/System/Library/LaunchAgents/".to_string(), Ok(vec![]));
    snapshot.record_contents(good.clone(), Ok(xml("com.example.test")));
    snapshot.record_contents(corrupt.clone(), Ok(garbage()));
    snapshot.record_contents(notes.clone(), Ok(xml("com.example.notes")));
    let gathered = LaunchdPlist::collect(Kind::Agents, &snapshot);
    let records = gathered.outcome.unwrap();
    assert_eq!(records.len(), 1);
    assert_eq!(records[0].plist_path, good);
    assert_eq!(label_of(&records[0]), "com.example.test");
    assert_eq!(records[0].launchd_data.len(), 1);
    assert_eq!(gathered.warnings.len(), 2);
    match &gathered.warnings[0] {
        Warning::ScopeFailed { scope, error } => {
            assert_eq!(*scope, Scope::User);
            assert_eq!(error.directory, "/Users/");
        }
        other => panic!("unexpected warning {:?}", other),
    }
    match &gathered.warnings[1] {
        Warning::Malformed { path, cause } => {
            assert_eq!(path, &corrupt);
            let direct = plist::from_bytes::<plist::Dictionary>(&garbage()).unwrap_err();
            assert_eq!(format!("{:?}", cause), format!("{:?}", direct));
        }
        other => panic!("unexpected warning {:?}", other),
    }
    let again = LaunchdPlist::get_launchd_agents(&snapshot);
    assert_eq!(again.warnings.len(), 2);
    assert_eq!(paths_of(&again.outcome.unwrap()), vec![good]);
}

#[test]
fn empty_accounts_root_and_absent_shared_directory_leave_the_system_scope() {
    let mut snapshot = Snapshot::new();
    snapshot.record_listing("/Users/".to_string(), Ok(vec![]));
    snapshot.record_listing(
        "/Library/LaunchAgents/".to_string(),
        Err("No such file or directory".to_string()),
    );
    let system = populate(&mut snapshot, "/System/Library/LaunchAgents/", 2);
    populate(&mut snapshot, "/Library/Apple/System/Library/LaunchAgents/", 0);
    let gathered = LaunchdPlist::collect(Kind::Agents, &snapshot);
    let records = gathered.outcome.unwrap();
    assert_eq!(paths_of(&records), system);
    assert!(gathered.warnings.is_empty());
    assert_eq!(LaunchdPlist::user_launchd_agents(&snapshot).unwrap(), Vec::<String>::new());
}

#[test]
fn user_scope_records_precede_system_scope_records() {
    let mut snapshot = Snapshot::new();
    let system = populate(&mut snapshot, "/System/Library/launchdaemons/", 2);
    let secondary = populate(&mut snapshot, "/Library/Apple/System/Library/launchdaemons/", 1);
    let user = populate(&mut snapshot, "/Library/launchdaemons/", 2);
    let records = LaunchdPlist::get_launchd_daemons(&snapshot).outcome.unwrap();
    let mut expected = user.clone();
    expected.extend(system);
    expected.extend(secondary);
    assert_eq!(paths_of(&records), expected);
    for record in &records {
        assert_eq!(label_of(record), record.plist_path);
        assert!(record.plist_path.ends_with(".plist"));
    }
}

#[test]
fn collecting_twice_gives_the_same_records() {
    let mut snapshot = Snapshot::new();
    populate(&mut snapshot, "/Library/launchdaemons/", 2);
    populate(&mut snapshot, "/System/Library/launchdaemons/", 3);
    populate(&mut snapshot, "/Library/Apple/System/Library/launchdaemons/", 1);
    let first = LaunchdPlist::get_launchd_daemons(&snapshot).outcome.unwrap();
    let second = LaunchdPlist::get_launchd_daemons(&snapshot).outcome.unwrap();
    assert_eq!(first.len(), 6);
    assert_eq!(paths_of(&first), paths_of(&second));
    for (a, b) in first.iter().zip(second.iter()) {
        assert_eq!(a.launchd_data, b.launchd_data);
    }
}

#[test]
fn a_binary_property_list_decodes() {
    let mut bytes: Vec<u8> = Vec::new();
    bytes.extend_from_slice(b"bplist00");
    // One dictionary with one entry: "Label" => "x".
    bytes.extend_from_slice(&[0xd1, 0x01, 0x02]);
    bytes.extend_from_slice(&[0x55, b'L', b'a', b'b', b'e', b'l']);
    bytes.extend_from_slice(&[0x51, b'x']);
    // Offset table: the three objects start at 8, 11 and 17.
    bytes.extend_from_slice(&[0x08, 0x0b, 0x11]);
    // Trailer.
    bytes.extend_from_slice(&[0, 0, 0, 0, 0, 0, 1, 1]);
    bytes.extend_from_slice(&[0, 0, 0, 0, 0, 0, 0, 3]);
    bytes.extend_from_slice(&[0, 0, 0, 0, 0, 0, 0, 0]);
    bytes.extend_from_slice(&[0, 0, 0, 0, 0, 0, 0, 19]);
    let mut snapshot = Snapshot::new();
    let path = "/Library/launchdaemons/binary.plist".to_string();
    snapshot.record_contents(path.clone(), Ok(bytes));
    let record = LaunchdPlist::parse_file(&snapshot, &path).unwrap();
    assert_eq!(record.plist_path, path);
    assert_eq!(label_of(&record), "x");
}

#[test]
fn parse_file_reports_why_there_is_no_record() {
    let mut snapshot = Snapshot::new();
    snapshot.record_contents("/a.plist".to_string(), Ok(garbage()));
    snapshot.record_contents("/b.plist".to_string(), Err("Input/output error".to_string()));
    snapshot.record_contents("/d.plist".to_string(), Ok(b"<plist><array/></plist>".to_vec()));
    match LaunchdPlist::parse_file(&snapshot, "/a.plist").unwrap_err() {
        Warning::Malformed { path, .. } => assert_eq!(path, "/a.plist"),
        other => panic!("unexpected warning {:?}", other),
    }
    match LaunchdPlist::parse_file(&snapshot, "/b.plist").unwrap_err() {
        Warning::Unreadable { path, detail } => {
            assert_eq!(path, "/b.plist");
            assert_eq!(detail, "Input/output error");
        }
        other => panic!("unexpected warning {:?}", other),
    }
    match LaunchdPlist::parse_file(&snapshot, "/c.plist").unwrap_err() {
        Warning::Unreadable { path, detail } => {
            assert_eq!(path, "/c.plist");
            assert_eq!(detail, "not described by the snapshot");
        }
        other => panic!("unexpected warning {:?}", other),
    }
    match LaunchdPlist::parse_file(&snapshot, "/d.plist").unwrap_err() {
        Warning::Malformed { path, .. } => assert_eq!(path, "/d.plist"),
        other => panic!("unexpected warning {:?}", other),
    }
}

#[test]
fn assemble_pairs_the_dictionary_with_the_path() {
    let mut dictionary = plist::Dictionary::new();
    dictionary.insert("Label".to_string(), plist::Value::String("com.example.test".to_string()));
    let record =
        LaunchdPlist::assemble("/x/com.example.test.plist".to_string(), Ok(dictionary.clone()))
            .unwrap();
    assert_eq!(record.plist_path, "/x/com.example.test.plist");
    assert_eq!(record.launchd_data, dictionary);

    let failure = plist::from_bytes::<plist::Dictionary>(b"not a property list").unwrap_err();
    let shown = format!("{:?}", failure);
    match LaunchdPlist::assemble("/x/bad.plist".to_string(), Err(failure)).unwrap_err() {
        Warning::Malformed { path, cause } => {
            assert_eq!(path, "/x/bad.plist");
            assert_eq!(format!("{:?}", cause), shown);
        }
        other => panic!("unexpected warning {:?}", other),
    }
}

#[test]
fn escalate_applies_both_thresholds() {
    let record = || LaunchdPlist {
        launchd_data: plist::Dictionary::new(),
        plist_path: "/x/a.plist".to_string(),
    };
    assert_eq!(LaunchdPlist::escalate(0, Vec::new()).unwrap_err(), LaunchdError::PathError);
    assert_eq!(LaunchdPlist::escalate(0, vec![record()]).unwrap_err(), LaunchdError::PathError);
    assert_eq!(LaunchdPlist::escalate(3, Vec::new()).unwrap_err(), LaunchdError::PlistParseError);
    let kept = LaunchdPlist::escalate(3, vec![record(), record()]).unwrap();
    assert_eq!(kept.len(), 2);
    assert_eq!(kept[0].plist_path, "/x/a.plist");
}

#[test]
fn a_name_that_ends_in_plist_without_the_dot_is_passed_over() {
    let mut snapshot = Snapshot::new();
    let dotted = "/Library/launchdaemons/a.plist".to_string();
    let dotless = "/Library/launchdaemons/xplist".to_string();
    snapshot.record_listing(
        "/Library/launchdaemons/".to_string(),
        Ok(vec![dotless.clone(), dotted.clone()]),
    );
    snapshot.record_contents(dotted.clone(), Ok(xml("com.example.a")));
    snapshot.record_contents(dotless.clone(), Ok(xml("com.example.x")));
    let gathered = LaunchdPlist::get_launchd_daemons(&snapshot);
    let records = gathered.outcome.unwrap();
    assert_eq!(paths_of(&records), vec![dotted]);
    assert_eq!(gathered.warnings.len(), 1);
    assert!(matches!(&gathered.warnings[0], Warning::ScopeFailed { scope: Scope::System, .. }));

    let mut alone = Snapshot::new();
    alone.record_listing("/Library/launchdaemons/".to_string(), Ok(vec![dotless.clone()]));
    alone.record_contents(dotless, Ok(xml("com.example.x")));
    assert_eq!(
        LaunchdPlist::get_launchd_daemons(&alone).outcome.unwrap_err(),
        LaunchdError::PlistParseError
    );
}

#[test]
fn a_failed_user_scope_reaches_the_caller_as_a_warning() {
    let mut snapshot = Snapshot::new();
    snapshot
        .record_listing("/Library/launchdaemons/".to_string(), Err("Permission denied".to_string()));
    let system = populate(&mut snapshot, "/System/Library/launchdaemons/", 2);
    populate(&mut snapshot, "/Library/Apple/System/Library/launchdaemons/", 0);
    let gathered = LaunchdPlist::get_launchd_daemons(&snapshot);
    assert_eq!(gathered.warnings.len(), 1);
    match &gathered.warnings[0] {
        Warning::ScopeFailed { scope, error } => {
            assert_eq!(*scope, Scope::User);
            assert_eq!(error.directory, "/Library/launchdaemons/");
            assert_eq!(error.detail, "Permission denied");
        }
        other => panic!("unexpected warning {:?}", other),
    }
    assert_eq!(paths_of(&gathered.outcome.unwrap()), system);
}
