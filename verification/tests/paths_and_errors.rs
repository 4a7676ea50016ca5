use macos_launchd::error::LaunchdError;
use macos_launchd::paths::{
    is_plist_path, text_ends_with, user_agent_directory, ACCOUNTS_ROOT, AGENTS_SUBPATH, EXTENSION,
    SYSTEM_AGENTS, SYSTEM_AGENTS_SECONDARY, SYSTEM_DAEMONS, SYSTEM_DAEMONS_SECONDARY, USER_AGENTS,
    USER_DAEMONS,
};

#[test]
fn error_messages() {
    assert_eq!(LaunchdError::PathError.message(), "failed to get source files");
    assert_eq!(LaunchdError::PlistParseError.message(), "Failed to parse PLIST file");
    assert_ne!(LaunchdError::PathError, LaunchdError::PlistParseError);
}

#[test]
fn fixed_locations() {
    assert_eq!(USER_DAEMONS, "/Library/launchdaemons/");
    assert_eq!(SYSTEM_DAEMONS, "/System/Library/launchdaemons/");
    assert_eq!(SYSTEM_DAEMONS_SECONDARY, "/Library/Apple/System/Library/launchdaemons/");
    assert_eq!(SYSTEM_AGENTS, "/System/Library/LaunchAgents/");
    assert_eq!(SYSTEM_AGENTS_SECONDARY, "/Library/Apple/System/Library/LaunchAgents/");
    assert_eq!(USER_AGENTS, "/Library/LaunchAgents/");
    assert_eq!(ACCOUNTS_ROOT, "/Users/");
    assert_eq!(AGENTS_SUBPATH, "/Library/LaunchAgents/");
    assert_eq!(EXTENSION, ".plist");
}

#[test]
fn extension_is_a_suffix_of_the_text() {
    assert!(is_plist_path("/Library/LaunchAgents/com.example.test.plist"));
    assert!(is_plist_path(".plist"));
    assert!(!is_plist_path("plist"));
    assert!(!is_plist_path("/tmp/myplist"));
    assert!(!is_plist_path("/tmp/xplist"));
    assert!(!is_plist_path(""));
    assert!(!is_plist_path("list"));
    assert!(!is_plist_path("/Library/LaunchAgents/notes.txt"));
    assert!(!is_plist_path("/Library/LaunchAgents/com.example.plist.bak"));
    assert!(!is_plist_path("/Library/LaunchAgents/com.example.PLIST"));
    assert!(!is_plist_path("/Library/LaunchAgents/com.example.plist/"));
    assert!(is_plist_path("/Users/zo\u{eb}/Library/LaunchAgents/\u{fc}ber.plist"));
    assert!(!is_plist_path("/Users/zo\u{eb}/Library/LaunchAgents/\u{fc}ber.plis\u{165}"));
}

#[test]
fn suffix_comparison() {
    assert!(text_ends_with("abc", ""));
    assert!(text_ends_with("", ""));
    assert!(text_ends_with("abc", "abc"));
    assert!(text_ends_with("abc", "bc"));
    assert!(!text_ends_with("abc", "ab"));
    assert!(!text_ends_with("bc", "abc"));
    assert!(text_ends_with("na\u{ef}ve", "\u{ef}ve"));
    assert!(!text_ends_with("naive", "\u{ef}ve"));
}

#[test]
fn agent_directory_is_the_home_followed_by_the_subpath() {
    assert_eq!(user_agent_directory("/Users/alice"), "/Users/alice/Library/LaunchAgents/");
    assert_eq!(user_agent_directory("/Users/alice/"), "/Users/alice//Library/LaunchAgents/");
    assert_eq!(user_agent_directory(""), "/Library/LaunchAgents/");
}
