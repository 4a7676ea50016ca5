//! A snapshot of the filesystem: what is known, as plain values, of the
//! directories and files that a collection consults.
//!
//! A snapshot answers three questions about a path: what listing it as a
//! directory gave, whether it is a directory, and what reading it as a file
//! gave. A question that was never recorded has no answer, and a collection
//! treats the path as absent.

use vstd::prelude::*;

verus! {

/// The description of a failure that a collection reports for a path about
/// which the snapshot holds no answer.
pub const UNDESCRIBED: &'static str = "not described by the snapshot";

/// What a snapshot holds, as three partial maps keyed by a path's text.
pub struct SnapshotView {
    /// For a directory that was listed: the full paths of its direct children
    /// in the order in which they were found, or the failure's description.
    pub listings: Map<Seq<char>, Result<Seq<Seq<char>>, Seq<char>>>,
    /// For a path that was probed: whether it is a directory.
    pub directories: Map<Seq<char>, bool>,
    /// For a file that was read: its bytes, or the failure's description.
    pub files: Map<Seq<char>, Result<Seq<u8>, Seq<char>>>,
}

impl SnapshotView {
    /// Everything that `self` answers, `other` answers in the same way.
    pub open spec fn within(self, other: SnapshotView) -> bool {
        &&& self.listings.submap_of(other.listings)
        &&& self.directories.submap_of(other.directories)
        &&& self.files.submap_of(other.files)
    }
}

/// A question about one path, for the caller to put to the filesystem.
pub enum RequestView {
    /// What are the direct children of this directory?
    List(Seq<char>),
    /// Is this path a directory?
    Probe(Seq<char>),
    /// What are the bytes of this file?
    Read(Seq<char>),
}

/// The snapshot holds an answer to the question.
pub open spec fn answered(fs: SnapshotView, request: RequestView) -> bool {
    match request {
        RequestView::List(directory) => fs.listings.contains_key(directory),
        RequestView::Probe(path) => fs.directories.contains_key(path),
        RequestView::Read(path) => fs.files.contains_key(path),
    }
}

/// A question about one path, for the caller to put to the filesystem and
/// to record the answer to.
#[derive(Debug)]
pub enum Request {
    /// List the direct children of this directory, for
    /// [`Snapshot::record_listing`].
    List(String),
    /// Find out whether this path is a directory, for
    /// [`Snapshot::record_probe`].
    Probe(String),
    /// Read the bytes of this file, for [`Snapshot::record_contents`].
    Read(String),
}

impl View for Request {
    type V = RequestView;

    open spec fn view(&self) -> RequestView {
        match *self {
            Request::List(directory) => RequestView::List(directory@),
            Request::Probe(path) => RequestView::Probe(path@),
            Request::Read(path) => RequestView::Read(path@),
        }
    }
}

impl DeepView for Request {
    type V = RequestView;

    open spec fn deep_view(&self) -> RequestView {
        self@
    }
}

/// The outcome of listing a directory, with each path taken by its text.
pub open spec fn listing_view(outcome: Result<Vec<String>, String>) -> Result<
    Seq<Seq<char>>,
    Seq<char>,
> {
    match outcome {
        Ok(children) => Ok(children.deep_view()),
        Err(detail) => Err(detail@),
    }
}

/// The outcome of reading a file, as plain bytes or the failure's text.
pub open spec fn contents_view(outcome: Result<Vec<u8>, String>) -> Result<Seq<u8>, Seq<char>> {
    match outcome {
        Ok(bytes) => Ok(bytes@),
        Err(detail) => Err(detail@),
    }
}

/// The map that a list of recorded answers stands for: a later entry for a
/// path replaces an earlier one.
pub open spec fn table<V, W>(entries: Seq<(String, V)>, value: spec_fn(V) -> W) -> Map<
    Seq<char>,
    W,
>
    decreases entries.len(),
{
    if entries.len() == 0 {
        Map::empty()
    } else {
        let last = entries.last();
        table(entries.drop_last(), value).insert(last.0@, value(last.1))
    }
}

/// The last entry recorded for a path is the one that the table holds.
proof fn lemma_table_found<V, W>(
    entries: Seq<(String, V)>,
    value: spec_fn(V) -> W,
    key: Seq<char>,
    at: int,
)
    requires
        0 <= at < entries.len(),
        entries[at].0@ == key,
        forall|j: int| at < j < entries.len() ==> entries[j].0@ != key,
    ensures
        table(entries, value).contains_key(key),
        table(entries, value)[key] == value(entries[at].1),
    decreases entries.len(),
{
    if at < entries.len() - 1 {
        lemma_table_found(entries.drop_last(), value, key, at);
    }
}

/// A path that no entry names has no answer in the table.
proof fn lemma_table_absent<V, W>(entries: Seq<(String, V)>, value: spec_fn(V) -> W, key: Seq<char>)
    requires
        forall|j: int| 0 <= j < entries.len() ==> entries[j].0@ != key,
    ensures
        !table(entries, value).contains_key(key),
    decreases entries.len(),
{
    if entries.len() > 0 {
        lemma_table_absent(entries.drop_last(), value, key);
    }
}

/// The position of the last entry recorded for `key`, if there is one.
fn find<V>(entries: &Vec<(String, V)>, key: &String) -> (at: Option<usize>)
    ensures
        match at {
            Some(i) => {
                &&& i < entries.len()
                &&& entries[i as int].0@ == key@
                &&& forall|j: int| i < j < entries.len() ==> entries[j].0@ != key@
            },
            None => forall|j: int| 0 <= j < entries.len() ==> entries[j].0@ != key@,
        },
{
    let mut i: usize = entries.len();
    while i > 0
        invariant
            i <= entries.len(),
            forall|j: int| i <= j < entries.len() ==> entries[j].0@ != key@,
        decreases i,
    {
        i -= 1;
        if entries[i].0 == *key {
            return Some(i);
        }
    }
    None
}

/// What is known of the filesystem.
#[derive(Debug)]
pub struct Snapshot {
    listings: Vec<(String, Result<Vec<String>, String>)>,
    probes: Vec<(String, bool)>,
    files: Vec<(String, Result<Vec<u8>, String>)>,
}

impl View for Snapshot {
    type V = SnapshotView;

    closed spec fn view(&self) -> SnapshotView {
        SnapshotView {
            listings: table(
                self.listings@,
                |outcome: Result<Vec<String>, String>| listing_view(outcome),
            ),
            directories: table(self.probes@, |answer: bool| answer),
            files: table(self.files@, |outcome: Result<Vec<u8>, String>| contents_view(outcome)),
        }
    }
}

impl Snapshot {
    /// A snapshot that answers nothing.
    pub fn new() -> (snapshot: Snapshot)
        ensures
            snapshot@.listings == Map::<Seq<char>, Result<Seq<Seq<char>>, Seq<char>>>::empty(),
            snapshot@.directories == Map::<Seq<char>, bool>::empty(),
            snapshot@.files == Map::<Seq<char>, Result<Seq<u8>, Seq<char>>>::empty(),
    {
        Snapshot { listings: Vec::new(), probes: Vec::new(), files: Vec::new() }
    }

    /// Records what listing `directory` gave: the full paths of its direct
    /// children, or a description of the failure. An earlier record for the
    /// same directory is replaced.
    pub fn record_listing(&mut self, directory: String, outcome: Result<Vec<String>, String>)
        ensures
            final(self)@.listings == old(self)@.listings.insert(directory@, listing_view(outcome)),
            final(self)@.directories == old(self)@.directories,
            final(self)@.files == old(self)@.files,
    {
        proof {
            assert(self.listings@.push((directory, outcome)).drop_last() =~= self.listings@);
        }
        self.listings.push((directory, outcome));
    }

    /// Records whether `path` is a directory. An earlier record for the same
    /// path is replaced.
    pub fn record_probe(&mut self, path: String, is_directory: bool)
        ensures
            final(self)@.listings == old(self)@.listings,
            final(self)@.directories == old(self)@.directories.insert(path@, is_directory),
            final(self)@.files == old(self)@.files,
    {
        proof {
            assert(self.probes@.push((path, is_directory)).drop_last() =~= self.probes@);
        }
        self.probes.push((path, is_directory));
    }

    /// Records what reading the file at `path` gave: its bytes, or a
    /// description of the failure. An earlier record for the same path is
    /// replaced.
    pub fn record_contents(&mut self, path: String, outcome: Result<Vec<u8>, String>)
        ensures
            final(self)@.listings == old(self)@.listings,
            final(self)@.directories == old(self)@.directories,
            final(self)@.files == old(self)@.files.insert(path@, contents_view(outcome)),
    {
        proof {
            assert(self.files@.push((path, outcome)).drop_last() =~= self.files@);
        }
        self.files.push((path, outcome));
    }

    /// Whether the snapshot holds an answer to the question.
    pub fn answers(&self, request: &Request) -> (known: bool)
        ensures
            known == answered(self@, request@),
    {
        match request {
            Request::List(directory) => self.listing(directory.as_str()).is_some(),
            Request::Probe(path) => self.probe(path.as_str()).is_some(),
            Request::Read(path) => self.contents(path.as_str()).is_some(),
        }
    }

    /// What listing `directory` gave, if the snapshot holds it.
    pub fn listing(&self, directory: &str) -> (found: Option<&Result<Vec<String>, String>>)
        ensures
            match found {
                Some(outcome) => {
                    &&& self@.listings.contains_key(directory@)
                    &&& self@.listings[directory@] == listing_view(*outcome)
                },
                None => !self@.listings.contains_key(directory@),
            },
    {
        match find(&self.listings, &String::from_str(directory)) {
            Some(i) => {
                proof {
                    lemma_table_found(
                        self.listings@,
                        |outcome: Result<Vec<String>, String>| listing_view(outcome),
                        directory@,
                        i as int,
                    );
                }
                Some(&self.listings[i].1)
            },
            None => {
                proof {
                    lemma_table_absent(
                        self.listings@,
                        |outcome: Result<Vec<String>, String>| listing_view(outcome),
                        directory@,
                    );
                }
                None
            },
        }
    }

    /// Whether `path` is a directory, if the snapshot holds the answer.
    pub fn probe(&self, path: &str) -> (found: Option<bool>)
        ensures
            match found {
                Some(answer) => {
                    &&& self@.directories.contains_key(path@)
                    &&& self@.directories[path@] == answer
                },
                None => !self@.directories.contains_key(path@),
            },
    {
        match find(&self.probes, &String::from_str(path)) {
            Some(i) => {
                proof {
                    lemma_table_found(self.probes@, |answer: bool| answer, path@, i as int);
                }
                Some(self.probes[i].1)
            },
            None => {
                proof {
                    lemma_table_absent(self.probes@, |answer: bool| answer, path@);
                }
                None
            },
        }
    }

    /// What reading the file at `path` gave, if the snapshot holds it.
    pub fn contents(&self, path: &str) -> (found: Option<&Result<Vec<u8>, String>>)
        ensures
            match found {
                Some(outcome) => {
                    &&& self@.files.contains_key(path@)
                    &&& self@.files[path@] == contents_view(*outcome)
                },
                None => !self@.files.contains_key(path@),
            },
    {
        match find(&self.files, &String::from_str(path)) {
            Some(i) => {
                proof {
                    lemma_table_found(
                        self.files@,
                        |outcome: Result<Vec<u8>, String>| contents_view(outcome),
                        path@,
                        i as int,
                    );
                }
                Some(&self.files[i].1)
            },
            None => {
                proof {
                    lemma_table_absent(
                        self.files@,
                        |outcome: Result<Vec<u8>, String>| contents_view(outcome),
                        path@,
                    );
                }
                None
            },
        }
    }
}

} // verus!
