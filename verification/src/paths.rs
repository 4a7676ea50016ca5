//! The fixed locations of launchd property lists, and what can be told of a
//! path from its text alone.

use vstd::prelude::*;

verus! {

/// Where the daemons installed by an administrator live.
pub const USER_DAEMONS: &'static str = "/Library/launchdaemons/";

/// Where the daemons of the operating system live.
pub const SYSTEM_DAEMONS: &'static str = "/System/Library/launchdaemons/";

/// The second location of the operating system's daemons.
pub const SYSTEM_DAEMONS_SECONDARY: &'static str = "/Library/Apple/System/Library/launchdaemons/";

/// Where the agents of the operating system live.
pub const SYSTEM_AGENTS: &'static str = "/System/Library/LaunchAgents/";

/// The second location of the operating system's agents.
pub const SYSTEM_AGENTS_SECONDARY: &'static str = "/Library/Apple/System/Library/LaunchAgents/";

/// Where the agents offered to every user live.
pub const USER_AGENTS: &'static str = "/Library/LaunchAgents/";

/// The directory whose children are the users' home directories.
pub const ACCOUNTS_ROOT: &'static str = "/Users/";

/// Where, below a home directory, that user's own agents live.
pub const AGENTS_SUBPATH: &'static str = "/Library/LaunchAgents/";

/// The extension of a property list: what the name of one ends with, the
/// dot included.
pub const EXTENSION: &'static str = ".plist";

/// `text` ends with `suffix`.
pub open spec fn ends_with(text: Seq<char>, suffix: Seq<char>) -> bool {
    &&& suffix.len() <= text.len()
    &&& text.subrange(text.len() - suffix.len(), text.len() as int) == suffix
}

/// The path's text ends with [`EXTENSION`], so the file may hold a property list.
pub open spec fn has_extension(path: Seq<char>) -> bool {
    ends_with(path, EXTENSION@)
}

/// The agent directory of the user whose home directory is `home`: the home
/// directory's text followed by [`AGENTS_SUBPATH`], with nothing put between.
pub open spec fn agent_directory(home: Seq<char>) -> Seq<char> {
    home + AGENTS_SUBPATH@
}

/// Whether `text` ends with `suffix`, compared character by character.
pub fn text_ends_with(text: &str, suffix: &str) -> (found: bool)
    ensures
        found == ends_with(text@, suffix@),
{
    let n: usize = text.unicode_len();
    let m: usize = suffix.unicode_len();
    if m > n {
        return false;
    }
    let start: usize = n - m;
    let mut i: usize = 0;
    while i < m
        invariant
            n == text@.len(),
            m == suffix@.len(),
            m <= n,
            start == n - m,
            i <= m,
            forall|j: int| 0 <= j < i ==> text@[start + j] == suffix@[j],
        decreases m - i,
    {
        if text.get_char(start + i) != suffix.get_char(i) {
            assert(text@.subrange(n - m, n as int)[i as int] != suffix@[i as int]);
            return false;
        }
        i += 1;
    }
    assert(text@.subrange(n - m, n as int) =~= suffix@);
    true
}

/// Whether the path names a file that may hold a property list.
pub fn is_plist_path(path: &str) -> (found: bool)
    ensures
        found == has_extension(path@),
{
    text_ends_with(path, EXTENSION)
}

/// The path of a user's own agent directory, built from the home directory.
pub fn user_agent_directory(home: &str) -> (directory: String)
    ensures
        directory@ == agent_directory(home@),
{
    String::from_str(home).concat(AGENTS_SUBPATH)
}

} // verus!
