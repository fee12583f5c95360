//! Recursive expansion of a compressed container into the files it holds.
//!
//! The expansion is a function from the bytes of a container and a
//! destination directory to the list of files to be written there. Entries
//! are taken in the order of the container. A file whose name marks it as a
//! container is listed and then expanded in turn, into the directory named
//! after it, as long as the depth that is left allows it.

use vstd::prelude::*;
use vstd::string::StringExecFns;
use crate::archive::{
    container_entries, entry_count, open_container, opened_entries, read_entry, zip_error_text,
};
use crate::text::{chars_of, lemma_split_at, split, split_text, text_of};

verus! {

/// How many containers deep an expansion goes when the caller has no
/// reason to choose otherwise.
pub const DEFAULT_MAX_DEPTH: usize = 8;

/// One file that the expansion yields: where it belongs and what it holds.
#[derive(Debug, PartialEq, Eq)]
pub struct ExtractedFile {
    /// The path below the destination directory, the directory included.
    pub path: String,
    /// The content, byte for byte as the container holds it.
    pub data: Vec<u8>,
}

impl View for ExtractedFile {
    type V = (Seq<char>, Seq<u8>);

    open spec fn view(&self) -> (Seq<char>, Seq<u8>) {
        (self.path@, self.data@)
    }
}

/// Why an expansion stopped.
#[derive(Debug, PartialEq, Eq)]
pub enum ExtractError {
    /// The bytes meant for `directory` are no container that can be opened.
    MalformedContainer { directory: String, cause: String },
    /// An entry of the container meant for `directory` cannot be read.
    UnreadableEntry { directory: String, index: usize, cause: String },
    /// The name of an entry leads out of `directory`.
    PathTraversal { directory: String, entry: String },
    /// The container at `path` lies deeper than the expansion may go.
    DepthExceeded { path: String },
}

/// The kind and the place of an [`ExtractError`]. The words of the cause
/// are those of the zip crate; they are carried for the reader of a message
/// and no contract speaks of them.
pub enum ExtractErrorKind {
    MalformedContainer { directory: Seq<char> },
    UnreadableEntry { directory: Seq<char>, index: nat },
    PathTraversal { directory: Seq<char>, entry: Seq<char> },
    DepthExceeded { path: Seq<char> },
}

impl ExtractError {
    /// The kind and the place of this error.
    pub open spec fn kind(self) -> ExtractErrorKind {
        match self {
            ExtractError::MalformedContainer { directory, .. } => {
                ExtractErrorKind::MalformedContainer { directory: directory@ }
            },
            ExtractError::UnreadableEntry { directory, index, .. } => {
                ExtractErrorKind::UnreadableEntry { directory: directory@, index: index as nat }
            },
            ExtractError::PathTraversal { directory, entry } => {
                ExtractErrorKind::PathTraversal { directory: directory@, entry: entry@ }
            },
            ExtractError::DepthExceeded { path } => ExtractErrorKind::DepthExceeded { path: path@ },
        }
    }
}

/// What an expansion has to show: the files and directories to create, in
/// the order in which they were met, and the error that stopped it, if one
/// did.
pub struct ExpansionView {
    pub files: Seq<(Seq<char>, Seq<u8>)>,
    pub directories: Seq<Seq<char>>,
    pub error: Option<ExtractErrorKind>,
}

/// The name of a directory entry ends with a slash.
pub open spec fn is_directory_name(name: Seq<char>) -> bool {
    name.len() > 0 && name.last() == '/'
}

/// The name ends with `.zip`, in upper or lower case.
pub open spec fn is_container_name(name: Seq<char>) -> bool {
    let n = name.len() as int;
    &&& n >= 4
    &&& name[n - 4] == '.'
    &&& (name[n - 3] == 'z' || name[n - 3] == 'Z')
    &&& (name[n - 2] == 'i' || name[n - 2] == 'I')
    &&& (name[n - 1] == 'p' || name[n - 1] == 'P')
}

/// The path of a container without its extension; any other path as it is.
pub open spec fn without_extension(path: Seq<char>) -> Seq<char> {
    if is_container_name(path) {
        path.take(path.len() - 4)
    } else {
        path
    }
}

/// The path of `name` below `directory`.
pub open spec fn joined(directory: Seq<char>, name: Seq<char>) -> Seq<char> {
    if directory.len() == 0 {
        name
    } else if directory.last() == '/' {
        directory + name
    } else {
        directory + "/"@ + name
    }
}

/// Where one stands after a step through `part` from `level` directories
/// below the start: `..` leads one up, and out when one stands at the start;
/// an empty part and `.` lead nowhere; any other part leads one down.
pub open spec fn step(level: nat, part: Seq<char>) -> Option<nat> {
    if part == ".."@ {
        if level == 0 {
            None
        } else {
            Some((level - 1) as nat)
        }
    } else if part.len() == 0 || part == "."@ {
        Some(level)
    } else {
        Some(level + 1)
    }
}

/// Where one stands after walking through `parts` from `start` directories
/// below the start; `None` once a `..` has led above the start.
pub open spec fn climb(parts: Seq<Seq<char>>, start: nat) -> Option<nat>
    decreases parts.len(),
{
    if parts.len() == 0 {
        Some(start)
    } else {
        match climb(parts.drop_last(), start) {
            None => None,
            Some(level) => step(level, parts.last()),
        }
    }
}

/// The name leads out of the directory it is joined to: it is absolute, or
/// at some point it has gone up more often than down.
pub open spec fn escapes(name: Seq<char>) -> bool {
    (name.len() > 0 && name[0] == '/') || climb(split(name, '/'), 0) is None
}

/// What is to be done with one entry of a container.
#[derive(Debug, PartialEq, Eq)]
pub enum EntryPlan {
    /// The name leads out of the directory; the expansion stops.
    Refuse,
    /// The directory at `path` is to be created.
    Directory { path: String },
    /// The content is to be written to `path`.
    File { path: String },
    /// The content is to be written to `path` and then expanded into
    /// `directory`.
    Container { path: String, directory: String },
    /// The content is to be written to `path`; it is a container that lies
    /// too deep to be expanded, and the expansion stops.
    TooDeep { path: String },
}

/// The mathematical content of an [`EntryPlan`].
pub enum EntryPlanView {
    Refuse,
    Directory { path: Seq<char> },
    File { path: Seq<char> },
    Container { path: Seq<char>, directory: Seq<char> },
    TooDeep { path: Seq<char> },
}

impl View for EntryPlan {
    type V = EntryPlanView;

    open spec fn view(&self) -> EntryPlanView {
        match self {
            EntryPlan::Refuse => EntryPlanView::Refuse,
            EntryPlan::Directory { path } => EntryPlanView::Directory { path: path@ },
            EntryPlan::File { path } => EntryPlanView::File { path: path@ },
            EntryPlan::Container { path, directory } => EntryPlanView::Container {
                path: path@,
                directory: directory@,
            },
            EntryPlan::TooDeep { path } => EntryPlanView::TooDeep { path: path@ },
        }
    }
}

/// What is to be done with the entry called `name` of a container that is
/// expanded into `directory` and may go `depth` containers deeper. A name
/// that leads outside is refused, and so is the name of a container whose
/// own directory, the name without its extension, would lead outside.
pub open spec fn plan_of(name: Seq<char>, directory: Seq<char>, depth: nat) -> EntryPlanView {
    let path = joined(directory, name);
    if escapes(name) {
        EntryPlanView::Refuse
    } else if is_directory_name(name) {
        EntryPlanView::Directory { path }
    } else if !is_container_name(name) {
        EntryPlanView::File { path }
    } else if escapes(without_extension(name)) {
        EntryPlanView::Refuse
    } else if depth == 0 {
        EntryPlanView::TooDeep { path }
    } else {
        EntryPlanView::Container { path, directory: without_extension(path) }
    }
}

/// What the expansion of the container in `bytes` into `directory` yields
/// when it may still go `depth` containers deeper. No bytes at all count as
/// a container without entries.
pub open spec fn expansion(bytes: Seq<u8>, directory: Seq<char>, depth: nat) -> ExpansionView
    decreases depth, 1nat, 0nat,
{
    if bytes.len() == 0 {
        ExpansionView { files: Seq::empty(), directories: Seq::empty(), error: None }
    } else {
        expansion_of_entries(container_entries(bytes), directory, depth)
    }
}

/// What a container yields, given what reading its directory gave.
pub open spec fn expansion_of_entries(
    entries: Option<Seq<Option<(Seq<char>, Seq<u8>)>>>,
    directory: Seq<char>,
    depth: nat,
) -> ExpansionView
    decreases depth, 0nat, 1nat + (match entries {
        Some(list) => list.len(),
        None => 0nat,
    }),
{
    match entries {
        None => ExpansionView {
            files: Seq::empty(),
            directories: Seq::empty(),
            error: Some(ExtractErrorKind::MalformedContainer { directory }),
        },
        Some(entries) => expanded(entries, directory, depth, entries.len()),
    }
}

/// What the first `n` of `entries` yield. The expansion stops at the first
/// entry that cannot be read, whose name escapes, or that is a container too
/// deep to expand; what was yielded before stays.
pub open spec fn expanded(
    entries: Seq<Option<(Seq<char>, Seq<u8>)>>,
    directory: Seq<char>,
    depth: nat,
    n: nat,
) -> ExpansionView
    decreases depth, 0nat, n,
{
    if n == 0 {
        ExpansionView { files: Seq::empty(), directories: Seq::empty(), error: None }
    } else {
        let before = expanded(entries, directory, depth, (n - 1) as nat);
        if before.error is Some {
            before
        } else {
            match entries[n - 1] {
                None => ExpansionView {
                    error: Some(
                        ExtractErrorKind::UnreadableEntry { directory, index: (n - 1) as nat },
                    ),
                    ..before
                },
                Some((name, data)) => match plan_of(name, directory, depth) {
                    EntryPlanView::Refuse => ExpansionView {
                        error: Some(ExtractErrorKind::PathTraversal { directory, entry: name }),
                        ..before
                    },
                    EntryPlanView::Directory { path } => ExpansionView {
                        directories: before.directories.push(path),
                        ..before
                    },
                    EntryPlanView::File { path } => ExpansionView {
                        files: before.files.push((path, data)),
                        ..before
                    },
                    EntryPlanView::TooDeep { path } => ExpansionView {
                        files: before.files.push((path, data)),
                        directories: before.directories,
                        error: Some(ExtractErrorKind::DepthExceeded { path }),
                    },
                    EntryPlanView::Container { path, directory: inside } => {
                        let inner = expansion(data, inside, (depth - 1) as nat);
                        ExpansionView {
                            files: before.files.push((path, data)) + inner.files,
                            directories: before.directories + inner.directories,
                            error: inner.error,
                        }
                    },
                },
            }
        }
    }
}

/// Once an entry has stopped the expansion, later entries change nothing.
pub proof fn lemma_stopped_stays(
    entries: Seq<Option<(Seq<char>, Seq<u8>)>>,
    directory: Seq<char>,
    depth: nat,
    k: nat,
    n: nat,
)
    requires
        k <= n,
        expanded(entries, directory, depth, k).error is Some,
    ensures
        expanded(entries, directory, depth, n) == expanded(entries, directory, depth, k),
    decreases n,
{
    if k < n {
        lemma_stopped_stays(entries, directory, depth, k, (n - 1) as nat);
    }
}

/// The views of a list of files.
pub open spec fn files_view(files: Seq<ExtractedFile>) -> Seq<(Seq<char>, Seq<u8>)> {
    files.map_values(|f: ExtractedFile| f@)
}

/// The kind of an error that may be there.
pub open spec fn error_kind(error: Option<ExtractError>) -> Option<ExtractErrorKind> {
    match error {
        Some(e) => Some(e.kind()),
        None => None,
    }
}

/// True when the name of an entry marks a directory.
pub fn names_directory(name: &str) -> (r: bool)
    ensures
        r == is_directory_name(name@),
{
    let chars = chars_of(name);
    chars.len() > 0 && chars[chars.len() - 1] == '/'
}

/// True when the name of an entry marks a nested container.
pub fn names_container(name: &str) -> (r: bool)
    ensures
        r == is_container_name(name@),
{
    let chars = chars_of(name);
    let n = chars.len();
    n >= 4 && chars[n - 4] == '.' && (chars[n - 3] == 'z' || chars[n - 3] == 'Z') && (chars[n - 2]
        == 'i' || chars[n - 2] == 'I') && (chars[n - 1] == 'p' || chars[n - 1] == 'P')
}

/// The path of a container without its extension; any other path as it is.
pub fn strip_extension(path: &str) -> (stem: String)
    ensures
        stem@ == without_extension(path@),
{
    if names_container(path) {
        let chars = chars_of(path);
        text_of(&chars, 0, chars.len() - 4)
    } else {
        String::from_str(path)
    }
}

/// The path of `name` below `directory`.
pub fn join_path(directory: &str, name: &str) -> (path: String)
    ensures
        path@ == joined(directory@, name@),
{
    if directory.is_empty() {
        return String::from_str(name);
    }
    let mut path = String::from_str(directory);
    if !names_directory(directory) {
        path.append("/");
    }
    path.append(name);
    path
}

/// True when the name of an entry leads out of the directory it would be
/// joined to.
pub fn leads_outside(name: &str) -> (r: bool)
    ensures
        r == escapes(name@),
{
    let chars = chars_of(name);
    if chars.len() > 0 && chars[0] == '/' {
        return true;
    }
    let parts = split_text(name, '/');
    let up = String::from_str("..");
    let here = String::from_str(".");
    let mut level: usize = 0;
    let mut i: usize = 0;
    while i < parts.len()
        invariant
            i <= parts.len(),
            level <= i,
            up@ == ".."@,
            here@ == "."@,
            parts.deep_view() == split(name@, '/'),
            climb(parts.deep_view().take(i as int), 0) == Some(level as nat),
        decreases parts.len() - i,
    {
        proof {
            assert(parts.deep_view().take(i + 1).drop_last() == parts.deep_view().take(i as int));
        }
        if parts[i] == up {
            if level == 0 {
                proof {
                    lemma_escaped_stays(parts.deep_view(), i + 1);
                }
                return true;
            }
            level -= 1;
        } else if parts[i].as_str().is_empty() || parts[i] == here {
        } else {
            level += 1;
        }
        i += 1;
    }
    proof {
        assert(parts.deep_view().take(parts.len() as int) == parts.deep_view());
    }
    false
}

/// Decides what is to be done with the entry called `name` of a container
/// that is expanded into `directory` and may go `depth` containers deeper.
pub fn plan_entry(name: &str, directory: &str, depth: usize) -> (plan: EntryPlan)
    ensures
        plan@ == plan_of(name@, directory@, depth as nat),
{
    if leads_outside(name) {
        return EntryPlan::Refuse;
    }
    let path = join_path(directory, name);
    if names_directory(name) {
        EntryPlan::Directory { path }
    } else if !names_container(name) {
        EntryPlan::File { path }
    } else if leads_outside(strip_extension(name).as_str()) {
        EntryPlan::Refuse
    } else if depth == 0 {
        EntryPlan::TooDeep { path }
    } else {
        let inside = strip_extension(path.as_str());
        EntryPlan::Container { path, directory: inside }
    }
}

/// The files and directories that an expansion yields.
#[derive(Debug, PartialEq, Eq)]
pub struct Extraction {
    /// The files to write, in the order in which they were met.
    pub files: Vec<ExtractedFile>,
    /// The directories that entries of their own ask for, in the same order.
    pub directories: Vec<String>,
}

/// An expansion that stopped: the error, and what had been yielded before.
#[derive(Debug, PartialEq, Eq)]
pub struct ExtractFailure {
    /// Why the expansion stopped.
    pub error: ExtractError,
    /// What the entries before the failing one had yielded.
    pub completed: Extraction,
}

fn copy_bytes(data: &Vec<u8>) -> (copy: Vec<u8>)
    ensures
        copy@ == data@,
{
    let mut copy: Vec<u8> = Vec::new();
    let mut i: usize = 0;
    while i < data.len()
        invariant
            i <= data.len(),
            copy@ == data@.take(i as int),
        decreases data.len() - i,
    {
        copy.push(data[i]);
        i += 1;
    }
    copy
}

fn expand_into(
    archive: &[u8],
    directory: &str,
    depth: usize,
    files: &mut Vec<ExtractedFile>,
    directories: &mut Vec<String>,
) -> (error: Option<ExtractError>)
    ensures
        files_view(final(files)@) == files_view(old(files)@) + expansion(
            archive@,
            directory@,
            depth as nat,
        ).files,
        final(directories).deep_view() == old(directories).deep_view() + expansion(
            archive@,
            directory@,
            depth as nat,
        ).directories,
        error_kind(error) == expansion(archive@, directory@, depth as nat).error,
    decreases depth,
{
    let ghost files_before = files_view(files@);
    let ghost directories_before = directories.deep_view();
    if archive.len() == 0 {
        return None;
    }
    let mut opened = match open_container(archive) {
        Ok(opened) => opened,
        Err(e) => {
            return Some(
                ExtractError::MalformedContainer {
                    directory: String::from_str(directory),
                    cause: zip_error_text(&e),
                },
            );
        },
    };
    let n = entry_count(&opened);
    let ghost entries = opened_entries(opened);
    let ghost deep = depth as nat;
    let mut i: usize = 0;
    while i < n
        invariant
            i <= n,
            n == entries.len(),
            deep == depth as nat,
            archive@.len() > 0,
            files_before == files_view(old(files)@),
            directories_before == old(directories).deep_view(),
            opened_entries(opened) == entries,
            container_entries(archive@) == Some(entries),
            expanded(entries, directory@, deep, i as nat).error is None,
            files_view(files@) == files_before + expanded(entries, directory@, deep, i as nat).files,
            directories.deep_view() == directories_before + expanded(
                entries,
                directory@,
                deep,
                i as nat,
            ).directories,
        decreases n - i,
    {
        let (name, data) = match read_entry(&mut opened, i) {
            Ok(entry) => entry,
            Err(e) => {
                proof {
                    lemma_stopped_stays(entries, directory@, deep, (i + 1) as nat, n as nat);
                }
                return Some(
                    ExtractError::UnreadableEntry {
                        directory: String::from_str(directory),
                        index: i,
                        cause: zip_error_text(&e),
                    },
                );
            },
        };
        match plan_entry(name.as_str(), directory, depth) {
            EntryPlan::Refuse => {
                proof {
                    lemma_stopped_stays(entries, directory@, deep, (i + 1) as nat, n as nat);
                }
                return Some(
                    ExtractError::PathTraversal {
                        directory: String::from_str(directory),
                        entry: name,
                    },
                );
            },
            EntryPlan::Directory { path } => {
                let ghost earlier = directories.deep_view();
                directories.push(path);
                proof {
                    assert(directories.deep_view() == earlier.push(path@));
                }
            },
            EntryPlan::File { path } => {
                let ghost earlier = files_view(files@);
                files.push(ExtractedFile { path, data });
                proof {
                    assert(files_view(files@) == earlier.push((path@, data@)));
                }
            },
            EntryPlan::TooDeep { path } => {
                let ghost earlier = files_view(files@);
                let place = path.clone();
                files.push(ExtractedFile { path, data });
                proof {
                    assert(files_view(files@) == earlier.push((path@, data@)));
                    lemma_stopped_stays(entries, directory@, deep, (i + 1) as nat, n as nat);
                }
                return Some(ExtractError::DepthExceeded { path: place });
            },
            EntryPlan::Container { path, directory: inside } => {
                let ghost earlier = files_view(files@);
                let content = copy_bytes(&data);
                files.push(ExtractedFile { path, data });
                let ghost listed = files_view(files@);
                proof {
                    assert(listed == earlier.push((path@, data@)));
                }
                let inner = expand_into(
                    content.as_slice(),
                    inside.as_str(),
                    depth - 1,
                    files,
                    directories,
                );
                if inner.is_some() {
                    proof {
                        lemma_stopped_stays(entries, directory@, deep, (i + 1) as nat, n as nat);
                    }
                    return inner;
                }
            },
        }
        i += 1;
    }
    None
}

/// Expands the container held in `archive` into `extract_to`, going at most
/// `max_depth` containers deeper than the one given.
///
/// On success the files and directories come in the order in which the
/// entries were met, each nested container followed by what it holds. The
/// first entry that cannot be read, whose name leads out of its directory,
/// or that is a container lying too deep stops the expansion; what had been
/// yielded before comes with the error.
pub fn streamed_unzip(archive: &[u8], extract_to: &str, max_depth: usize) -> (r: Result<
    Extraction,
    ExtractFailure,
>)
    ensures
        r is Ok <==> expansion(archive@, extract_to@, max_depth as nat).error is None,
        r matches Ok(done) ==> files_view(done.files@) == expansion(
            archive@,
            extract_to@,
            max_depth as nat,
        ).files && done.directories.deep_view() == expansion(
            archive@,
            extract_to@,
            max_depth as nat,
        ).directories,
        r matches Err(failure) ==> Some(failure.error.kind()) == expansion(
            archive@,
            extract_to@,
            max_depth as nat,
        ).error && files_view(failure.completed.files@) == expansion(
            archive@,
            extract_to@,
            max_depth as nat,
        ).files && failure.completed.directories.deep_view() == expansion(
            archive@,
            extract_to@,
            max_depth as nat,
        ).directories,
{
    let mut files: Vec<ExtractedFile> = Vec::new();
    let mut directories: Vec<String> = Vec::new();
    let error = expand_into(archive, extract_to, max_depth, &mut files, &mut directories);
    let done = Extraction { files, directories };
    match error {
        None => Ok(done),
        Some(error) => Err(ExtractFailure { error, completed: done }),
    }
}

/// The entry can be read, is named as a container and has `inner` as its
/// content.
pub open spec fn entry_holds(entry: Option<(Seq<char>, Seq<u8>)>, inner: Seq<u8>) -> bool {
    match entry {
        Some((name, data)) => data == inner && is_container_name(name),
        None => false,
    }
}

/// `outer` is a container that holds `inner` under the name of a container.
pub open spec fn holds_container(outer: Seq<u8>, inner: Seq<u8>) -> bool {
    outer.len() > 0 && match container_entries(outer) {
        Some(entries) => exists|i: int|
            0 <= i < entries.len() && entry_holds(#[trigger] entries[i], inner),
        None => false,
    }
}

/// Each of `containers` holds the next one, and the last holds the first.
/// A single container that holds itself is the shortest such cycle.
pub open spec fn is_cycle(containers: Seq<Seq<u8>>) -> bool {
    containers.len() > 0 && forall|k: int|
        0 <= k < containers.len() ==> holds_container(
            #[trigger] containers[k],
            containers[(k + 1) % (containers.len() as int)],
        )
}

/// Expansion is safe against containers that hold themselves, directly or
/// through others: whatever depth is allowed, the expansion of a container
/// on a cycle ends, and it ends with an error.
pub proof fn lemma_cycle_is_refused(
    containers: Seq<Seq<u8>>,
    k: int,
    directory: Seq<char>,
    depth: nat,
)
    requires
        is_cycle(containers),
        0 <= k < containers.len(),
    ensures
        expansion(containers[k], directory, depth).error is Some,
    decreases depth,
{
    let next = (k + 1) % (containers.len() as int);
    let entries = container_entries(containers[k])->0;
    let i = choose|i: int|
        0 <= i < entries.len() && entry_holds(#[trigger] entries[i], containers[next]);
    let entry = entries[i]->0;
    let name = entry.0;
    let before = expanded(entries, directory, depth, i as nat);
    if before.error is None && plan_of(name, directory, depth) is Container {
        lemma_cycle_is_refused(
            containers,
            next,
            without_extension(joined(directory, name)),
            (depth - 1) as nat,
        );
    }
    lemma_stopped_stays(entries, directory, depth, (i + 1) as nat, entries.len());
}

/// `path` lies below `directory`: it is the directory joined with a name
/// that does not lead outside.
pub open spec fn lies_below(directory: Seq<char>, path: Seq<char>) -> bool {
    exists|name: Seq<char>| path == #[trigger] joined(directory, name) && !escapes(name)
}

/// Everything an expansion yields lies below its directory.
pub open spec fn all_below(directory: Seq<char>, yielded: ExpansionView) -> bool {
    &&& forall|i: int|
        0 <= i < yielded.files.len() ==> lies_below(directory, (#[trigger] yielded.files[i]).0)
    &&& forall|i: int|
        0 <= i < yielded.directories.len() ==> lies_below(
            directory,
            #[trigger] yielded.directories[i],
        )
}

proof fn lemma_climb_in_two(first: Seq<Seq<char>>, second: Seq<Seq<char>>, start: nat)
    ensures
        climb(first + second, start) == (match climb(first, start) {
            None => None,
            Some(level) => climb(second, level),
        }),
    decreases second.len(),
{
    if second.len() > 0 {
        assert((first + second).drop_last() == first + second.drop_last());
        lemma_climb_in_two(first, second.drop_last(), start);
    }
}

proof fn lemma_climb_from_higher(parts: Seq<Seq<char>>, low: nat, high: nat)
    requires
        low <= high,
        climb(parts, low) is Some,
    ensures
        climb(parts, high) == Some((climb(parts, low)->0 + high - low) as nat),
    decreases parts.len(),
{
    if parts.len() > 0 {
        lemma_climb_from_higher(parts.drop_last(), low, high);
    }
}

/// A name that does not lead outside, joined with another such name, does
/// not lead outside.
proof fn lemma_joined_names_stay_inside(a: Seq<char>, b: Seq<char>)
    requires
        !escapes(a),
        !escapes(b),
    ensures
        !escapes(joined(a, b)),
{
    reveal_strlit("/");
    if a.len() > 0 {
        let front = if a.last() == '/' {
            a.drop_last()
        } else {
            a
        };
        assert(joined(a, b) == front + seq!['/'] + b);
        assert(climb(split(front, '/'), 0) is Some) by {
            if a.last() == '/' {
                assert(split(a, '/').drop_last() == split(front, '/'));
            }
        }
        lemma_split_at(front, b, '/');
        lemma_climb_in_two(split(front, '/'), split(b, '/'), 0);
        lemma_climb_from_higher(split(b, '/'), 0, climb(split(front, '/'), 0)->0);
    }
}

/// Joining in two steps is joining with the joined name.
proof fn lemma_joined_twice(directory: Seq<char>, a: Seq<char>, b: Seq<char>)
    ensures
        joined(joined(directory, a), b) == joined(directory, joined(a, b)),
{
    reveal_strlit("/");
}

/// What lies below the directory of a nested container lies below the
/// directory of the container that holds it.
proof fn lemma_below_nested(directory: Seq<char>, name: Seq<char>, path: Seq<char>)
    requires
        is_container_name(name),
        !escapes(without_extension(name)),
        lies_below(without_extension(joined(directory, name)), path),
    ensures
        lies_below(directory, path),
{
    let stem = without_extension(name);
    let whole = joined(directory, name);
    reveal_strlit("/");
    assert(is_container_name(whole) && without_extension(whole) == joined(directory, stem));
    let inner = choose|inner: Seq<char>|
        path == #[trigger] joined(joined(directory, stem), inner) && !escapes(inner);
    lemma_joined_twice(directory, stem, inner);
    lemma_joined_names_stay_inside(stem, inner);
}

proof fn lemma_expanded_below(
    entries: Seq<Option<(Seq<char>, Seq<u8>)>>,
    directory: Seq<char>,
    depth: nat,
    n: nat,
)
    requires
        n <= entries.len(),
    ensures
        all_below(directory, expanded(entries, directory, depth, n)),
    decreases depth, 0nat, n,
{
    if n > 0 {
        let before = expanded(entries, directory, depth, (n - 1) as nat);
        let after = expanded(entries, directory, depth, n);
        lemma_expanded_below(entries, directory, depth, (n - 1) as nat);
        if before.error is None {
            match entries[n - 1] {
                None => {},
                Some((name, data)) => {
                    match plan_of(name, directory, depth) {
                        EntryPlanView::Container { path, directory: inside } => {
                            let inner = expansion(data, inside, (depth - 1) as nat);
                            lemma_expansion_stays_below(data, inside, (depth - 1) as nat);
                            assert forall|i: int| 0 <= i < after.files.len() implies lies_below(
                                directory,
                                (#[trigger] after.files[i]).0,
                            ) by {
                                if i > before.files.len() {
                                    let k = i - before.files.len() - 1;
                                    lemma_below_nested(directory, name, inner.files[k].0);
                                }
                            }
                            assert forall|i: int|
                                0 <= i < after.directories.len() implies lies_below(
                                directory,
                                #[trigger] after.directories[i],
                            ) by {
                                if i >= before.directories.len() {
                                    let k = i - before.directories.len();
                                    lemma_below_nested(directory, name, inner.directories[k]);
                                }
                            }
                        },
                        _ => {},
                    }
                },
            }
        }
    }
}

/// No path that an expansion yields leads out of the directory that the
/// container is expanded into, however the entries are named and however
/// deep the containers are nested.
pub proof fn lemma_expansion_stays_below(bytes: Seq<u8>, directory: Seq<char>, depth: nat)
    ensures
        all_below(directory, expansion(bytes, directory, depth)),
    decreases depth, 1nat, 0nat,
{
    if bytes.len() > 0 {
        match container_entries(bytes) {
            Some(entries) => {
                lemma_expanded_below(entries, directory, depth, entries.len());
            },
            None => {},
        }
    }
}

proof fn lemma_escaped_stays(parts: Seq<Seq<char>>, k: int)
    requires
        0 <= k <= parts.len(),
        climb(parts.take(k), 0) is None,
    ensures
        climb(parts, 0) is None,
    decreases parts.len() - k,
{
    if k < parts.len() {
        assert(parts.take(k + 1).drop_last() == parts.take(k));
        lemma_escaped_stays(parts, k + 1);
    } else {
        assert(parts.take(k) == parts);
    }
}

} // verus!
