//! What the files of a released app must not give away about the machine that built it.

use vstd::prelude::*;
use vstd::utf8::encode_utf8;

use crate::bytes::{byte_strings, contained, contains_bytes, owned, read, same_bytes, split_bytes};
use crate::command::{
    attempt, call, command_output, completed, with, with_text, Call, CommandOutput, Invocation,
    Output,
};
use crate::encoding::{decode, decoded, lossy, lossy_text};
use crate::environment::{home_of, path_outcome, value_of, Environment};
use crate::failure::{failure, outcome, text_outcome, Failure};
use crate::nested::{cannot_be_told, known_entries, lies_among, lies_in, paths_outcome, Entry};
use crate::path::{below, file_name, file_name_of, is_below, parent, parent_of};
use crate::text::{
    chars_of, join2, join5, lemma_kept_is_wanted, lemma_wanted_is_kept, occurs, piece, pieces,
    split, text_of, trim, trimmed,
};

verus! {

/// A byte string that a released file must not hold, with what it is.
#[derive(Debug)]
pub struct Marker {
    pub bytes: Vec<u8>,
    pub description: &'static str,
}

/// The models of markers.
pub open spec fn marks_of(markers: Seq<Marker>) -> Seq<(Seq<u8>, Seq<char>)> {
    Seq::new(markers.len(), |i: int| (markers[i].bytes@, markers[i].description@))
}

/// The models of markers that are borrowed.
pub open spec fn marks(markers: Seq<(&[u8], &str)>) -> Seq<(Seq<u8>, Seq<char>)> {
    Seq::new(markers.len(), |i: int| (markers[i].0@, markers[i].1@))
}

/// The same markers, borrowed.
pub fn borrowed<'a>(markers: &'a Vec<Marker>) -> (result: Vec<(&'a [u8], &'a str)>)
    ensures
        marks(result@) == marks_of(markers@),
{
    let mut result: Vec<(&'a [u8], &'a str)> = Vec::new();
    let mut i: usize = 0;
    while i < markers.len()
        invariant
            i <= markers@.len(),
            result@.len() == i,
            forall|k: int|
                0 <= k < i ==> (#[trigger] result@[k]).0@ == markers@[k].bytes@ && result@[k].1@
                    == markers@[k].description@,
        decreases markers@.len() - i,
    {
        result.push((markers[i].bytes.as_slice(), markers[i].description));
        i += 1;
    }
    assert(marks(result@) == marks_of(markers@));
    result
}

/// The description of the first marker that `bytes` holds.
pub open spec fn first_mark(bytes: Seq<u8>, marks: Seq<(Seq<u8>, Seq<char>)>) -> Option<Seq<char>>
    decreases marks.len(),
{
    if marks.len() == 0 {
        None
    } else if contained(bytes, marks[0].0) {
        Some(marks[0].1)
    } else {
        first_mark(bytes, marks.skip(1))
    }
}

/// What a part of a file is told.
pub open spec fn markers_outcome(
    bytes: Seq<u8>,
    marks: Seq<(Seq<u8>, Seq<char>)>,
    file: Seq<u8>,
    source: Seq<char>,
) -> Result<(), Seq<char>> {
    match first_mark(bytes, marks) {
        Some(description) => Err(
            "bundle file "@ + source + " contain "@ + description + ": "@ + lossy(file),
        ),
        None => Ok(()),
    }
}

/// Refuses a part of the file `file` that holds one of the markers. The empty marker is in nothing.
pub fn reject_file_markers(
    bytes: &[u8],
    markers: &[(&[u8], &str)],
    file: &[u8],
    source: &str,
) -> (result: Result<(), Failure>)
    ensures
        outcome(result) == markers_outcome(bytes@, marks(markers@), file@, source@),
{
    let ghost all = marks(markers@);
    let mut i: usize = 0;
    assert(all.skip(0) == all);
    while i < markers.len()
        invariant
            i <= markers@.len(),
            all == marks(markers@),
            first_mark(bytes@, all) == first_mark(bytes@, all.skip(i as int)),
        decreases markers@.len() - i,
    {
        proof {
            assert(all.skip(i as int)[0] == (markers@[i as int].0@, markers@[i as int].1@));
            assert(all.skip(i as int).skip(1) == all.skip(i + 1));
        }
        if contains_bytes(bytes, markers[i].0) {
            let shown = lossy_text(file);
            let head = join5("bundle file ", source, " contain ", markers[i].1, ": ");
            return Err(Failure { message: join2(head.as_str(), shown.as_str()) });
        }
        i += 1;
    }
    Ok(())
}

/// The name that tells one user's temporary directory from another's.
pub open spec fn temporary_identifier(path: Seq<u8>) -> Option<Seq<u8>> {
    if below(path, encode_utf8("/var/folders"@)) {
        match parent(path) {
            Some(directory) => file_name(directory),
            None => None,
        }
    } else {
        None
    }
}

/// The name that tells one user's temporary directory from another's.
pub fn darwin_temp_identifier<'a>(path: &'a [u8]) -> (identifier: Option<&'a [u8]>)
    ensures
        piece(identifier) == temporary_identifier(path@),
{
    if !is_below(path, "/var/folders".as_bytes()) {
        return None;
    }
    match parent_of(path) {
        Some(directory) => file_name_of(directory),
        None => None,
    }
}

/// The regular files among the entries of a directory and of those below it.
pub open spec fn files_among(entries: Seq<Entry>) -> Result<Seq<Seq<u8>>, Seq<char>>
    decreases entries,
{
    if entries.len() == 0 {
        Ok(Seq::empty())
    } else {
        match files_among(entries.drop_last()) {
            Err(fault) => Err(fault),
            Ok(files) => match files_in(entries.last()) {
                Err(fault) => Err(fault),
                Ok(more) => Ok(files + more),
            },
        }
    }
}

/// The regular files in one entry.
pub open spec fn files_in(entry: Entry) -> Result<Seq<Seq<u8>>, Seq<char>>
    decreases entry,
{
    match entry {
        Entry::Fault(fault) => Err(fault@),
        Entry::Link => Ok(Seq::empty()),
        Entry::Special => Ok(Seq::empty()),
        Entry::File { path, mode } => Ok(seq![path@]),
        Entry::Directory { path, entries: Err(fault) } => Err(fault@),
        Entry::Directory { path, entries: Ok(entries) } => files_among(entries@),
    }
}

proof fn lemma_files_fault_stays(entries: Seq<Entry>, n: int)
    requires
        0 <= n <= entries.len(),
        files_among(entries.take(n)) is Err,
    ensures
        files_among(entries) == files_among(entries.take(n)),
    decreases entries.len(),
{
    if n == entries.len() {
        assert(entries.take(n) == entries);
    } else {
        assert(entries.drop_last().take(n) == entries.take(n));
        lemma_files_fault_stays(entries.drop_last(), n);
    }
}

/// Adds the regular files among `entries` to `files`.
fn collect_files_among(entries: &Vec<Entry>, files: &mut Vec<Vec<u8>>) -> (result: Result<
    (),
    Failure,
>)
    ensures
        match files_among(entries@) {
            Ok(found) => result is Ok && byte_strings(final(files)@) == byte_strings(old(files)@)
                + found,
            Err(fault) => result is Err && result->Err_0@ == fault,
        },
    decreases entries,
{
    let mut i: usize = 0;
    let ghost before = byte_strings(files@);
    assert(entries@.take(0) == Seq::<Entry>::empty());
    assert(byte_strings(files@) == before + Seq::<Seq<u8>>::empty());
    while i < entries.len()
        invariant
            i <= entries@.len(),
            files_among(entries@.take(i as int)) is Ok,
            byte_strings(files@) == before + files_among(entries@.take(i as int))->Ok_0,
        decreases entries@.len() - i,
    {
        proof {
            assert(decreases_to!(entries => entries@));
            assert(decreases_to!(entries@ => entries@[i as int]));
            assert(entries@.take(i + 1).drop_last() == entries@.take(i as int));
        }
        let ghost so_far = files_among(entries@.take(i as int))->Ok_0;
        match collect_regular_files(&entries[i], files) {
            Ok(()) => {},
            Err(refusal) => {
                proof {
                    lemma_files_fault_stays(entries@, i + 1);
                }
                return Err(refusal);
            },
        }
        assert(byte_strings(files@) == before + (so_far + files_in(entries@[i as int])->Ok_0));
        i += 1;
    }
    assert(entries@.take(i as int) == entries@);
    Ok(())
}

/// Adds the regular files in one entry to `files`.
fn collect_regular_files(entry: &Entry, files: &mut Vec<Vec<u8>>) -> (result: Result<(), Failure>)
    ensures
        match files_in(*entry) {
            Ok(found) => result is Ok && byte_strings(final(files)@) == byte_strings(old(files)@)
                + found,
            Err(fault) => result is Err && result->Err_0@ == fault,
        },
    decreases entry,
{
    let ghost before = byte_strings(files@);
    assert(before == before + Seq::<Seq<u8>>::empty());
    match entry {
        Entry::Fault(fault) => Err(failure(fault.as_str())),
        Entry::Link => Ok(()),
        Entry::Special => Ok(()),
        Entry::File { path, mode } => {
            files.push(owned(path.as_slice()));
            assert(byte_strings(files@) == before + seq![path@]);
            Ok(())
        },
        Entry::Directory { path, entries } => match entries {
            Err(fault) => Err(failure(fault.as_str())),
            Ok(entries) => collect_files_among(entries, files),
        },
    }
}

/// The regular files in a directory, by what listing it gave.
pub open spec fn regular_outcome(entries: Result<Seq<Entry>, Seq<char>>) -> Result<
    Seq<Seq<u8>>,
    Seq<char>,
> {
    match entries {
        Err(fault) => Err(fault),
        Ok(entries) => files_among(entries),
    }
}

/// The regular files in a directory, by its entries.
pub fn regular_files(entries: &Result<Vec<Entry>, String>) -> (result: Result<
    Vec<Vec<u8>>,
    Failure,
>)
    ensures
        paths_outcome(result) == regular_outcome(known_entries(*entries)),
{
    let entries = match entries {
        Ok(entries) => entries,
        Err(fault) => return Err(failure(fault.as_str())),
    };
    let mut files: Vec<Vec<u8>> = Vec::new();
    match collect_files_among(entries, &mut files) {
        Ok(()) => {},
        Err(refusal) => return Err(refusal),
    }
    assert(byte_strings(files@) == files_among(entries@)->Ok_0);
    Ok(files)
}

/// The command that lists the extended attributes of a file.
pub open spec fn attributes_call(file: Seq<u8>) -> Call {
    with(call("xattr"@), file)
}

/// The command that lists the extended attributes of a file.
pub fn attributes_command(file: &[u8]) -> (command: Invocation)
    ensures
        command@ == attributes_call(file@),
{
    Invocation::new("xattr").arg(file)
}

/// The command that prints an extended attribute of a file.
pub open spec fn attribute_call(file: Seq<u8>, name: Seq<u8>) -> Call {
    with(with(with_text(call("xattr"@), "-p"@), name), file)
}

/// The command that prints an extended attribute of a file.
pub fn attribute_command(file: &[u8], name: &[u8]) -> (command: Invocation)
    ensures
        command@ == attribute_call(file@, name@),
{
    Invocation::new("xattr").text("-p").arg(name).arg(file)
}

/// The names in a listing of extended attributes.
pub open spec fn listed_attributes(listing: Seq<u8>) -> Seq<Seq<u8>> {
    split(listing, '\n' as u8).filter(|name: Seq<u8>| name.len() > 0)
}

/// The extended attributes of a file, by what the command for them gave.
pub open spec fn attributes_of(file: Seq<u8>, listing: Result<Output, Seq<char>>) -> Result<
    Seq<Seq<u8>>,
    Seq<char>,
> {
    match completed(attributes_call(file), listing) {
        Err(refusal) => Err(refusal),
        Ok(listed) => Ok(listed_attributes(listed)),
    }
}

/// The extended attributes of a file, by what the command for them gave.
pub fn attribute_names(file: &[u8], listing: &Result<CommandOutput, String>) -> (result: Result<
    Vec<Vec<u8>>,
    Failure,
>)
    ensures
        paths_outcome(result) == attributes_of(file@, attempt(*listing)),
{
    let listed = match command_output(&attributes_command(file), listing) {
        Ok(listed) => listed,
        Err(refusal) => return Err(refusal),
    };
    let parts = split_bytes(listed, '\n' as u8);
    let ghost all = pieces(parts@);
    let ghost kept = |name: Seq<u8>| name.len() > 0;
    let mut names: Vec<Vec<u8>> = Vec::new();
    let mut i: usize = 0;
    proof {
        reveal(Seq::filter);
        assert(byte_strings(names@) == all.take(0).filter(kept));
    }
    while i < parts.len()
        invariant
            i <= parts@.len(),
            all == pieces(parts@),
            kept == (|name: Seq<u8>| name.len() > 0),
            byte_strings(names@) == all.take(i as int).filter(kept),
        decreases parts@.len() - i,
    {
        let ghost before = byte_strings(names@);
        proof {
            reveal(Seq::filter);
            assert(all.take(i + 1).drop_last() == all.take(i as int));
            assert(all.take(i + 1).last() == parts@[i as int]@);
        }
        if parts[i].len() > 0 {
            names.push(owned(parts[i]));
            assert(byte_strings(names@) == before.push(parts@[i as int]@));
        }
        i += 1;
    }
    assert(all.take(i as int) == all);
    Ok(names)
}

/// The machine that built the app, as it was found.
#[derive(Debug)]
pub struct MachineFacts {
    pub temporary_directory: Vec<u8>,
    /// What the command `hostname` gave.
    pub hostname: Result<CommandOutput, String>,
    /// What resolving the repository, Cargo's home and Cargo's target directory gave.
    pub root: Result<Vec<u8>, String>,
    pub cargo_home: Result<Vec<u8>, String>,
    pub target: Result<Vec<u8>, String>,
}

/// The name of the machine, by what the command for it gave.
pub open spec fn host_name(hostname: Result<Output, Seq<char>>) -> Result<Seq<char>, Seq<char>> {
    match completed(call("hostname"@), hostname) {
        Err(refusal) => Err(refusal),
        Ok(written) => match decoded(written) {
            Err(fault) => Err(fault),
            Ok(text) => if trim(text).len() == 0 {
                Err("hostname is empty"@)
            } else {
                Ok(trim(text))
            },
        },
    }
}

/// The name of the machine, by what the command for it gave.
fn find_host_name(hostname: &Result<CommandOutput, String>) -> (result: Result<String, Failure>)
    ensures
        text_outcome(result) == host_name(attempt(*hostname)),
{
    let written = match command_output(&Invocation::new("hostname"), hostname) {
        Ok(written) => written,
        Err(refusal) => return Err(refusal),
    };
    let text = match decode(written) {
        Ok(text) => text,
        Err(fault) => return Err(failure(fault.as_str())),
    };
    let chars = chars_of(text.as_str());
    let name = trimmed(chars.as_slice());
    if name.len() == 0 {
        return Err(failure("hostname is empty"));
    }
    Ok(text_of(name))
}

/// The home directory, which must be one that tells something.
pub open spec fn private_home(variables: Seq<(Seq<u8>, Seq<u8>)>) -> Result<Seq<u8>, Seq<char>> {
    match home_of(variables) {
        Err(refusal) => Err(refusal),
        Ok(home) => if home.len() == 0 || home == encode_utf8("/"@) {
            Err("HOME is not a private path prefix"@)
        } else {
            Ok(home)
        },
    }
}

/// The home directory, which must be one that tells something.
fn find_private_home(environment: &Environment) -> (result: Result<Vec<u8>, Failure>)
    ensures
        path_outcome(result) == private_home(environment@),
{
    match environment.home() {
        Err(refusal) => Err(refusal),
        Ok(home) => if home.len() == 0 || same_bytes(home.as_slice(), "/".as_bytes()) {
            Err(failure("HOME is not a private path prefix"))
        } else {
            Ok(home)
        },
    }
}

/// What must not be found in a released file.
pub open spec fn private_marks(
    home: Seq<u8>,
    root: Seq<u8>,
    cargo_home: Seq<u8>,
    target: Seq<u8>,
    identifier: Seq<u8>,
    host: Seq<char>,
) -> Seq<(Seq<u8>, Seq<char>)> {
    seq![
        (home, "private home path"@),
        (root, "repository root"@),
        (cargo_home, "Cargo home path"@),
        (target, "Cargo target path"@),
        (encode_utf8("/var/folders"@), "Darwin temporary directory path"@),
        (encode_utf8("/private/var/folders"@), "private Darwin temporary directory path"@),
        (identifier, "Darwin temporary directory identifier"@),
        (encode_utf8(host), "build host name"@),
    ]
}

/// What the machine gives away that must not be found in a released file.
pub open spec fn machine_marks(variables: Seq<(Seq<u8>, Seq<u8>)>, facts: MachineFacts) -> Result<
    Seq<(Seq<u8>, Seq<char>)>,
    Seq<char>,
> {
    match private_home(variables) {
        Err(refusal) => Err(refusal),
        Ok(home) => match temporary_identifier(facts.temporary_directory@) {
            None => Err(
                "TMPDIR is outside /var/folders; cannot verify its per-user identifier: "@ + lossy(
                    facts.temporary_directory@,
                ),
            ),
            Some(identifier) => match host_name(attempt(facts.hostname)) {
                Err(refusal) => Err(refusal),
                Ok(host) => match read(facts.root) {
                    Err(fault) => Err(fault),
                    Ok(root) => match read(facts.cargo_home) {
                        Err(fault) => Err(fault),
                        Ok(cargo_home) => match read(facts.target) {
                            Err(fault) => Err(fault),
                            Ok(target) => Ok(
                                private_marks(home, root, cargo_home, target, identifier, host),
                            ),
                        },
                    },
                },
            },
        },
    }
}

/// A result with markers replaced by their models, and its refusal by its text.
pub open spec fn marks_outcome(result: Result<Vec<Marker>, Failure>) -> Result<
    Seq<(Seq<u8>, Seq<char>)>,
    Seq<char>,
> {
    match result {
        Ok(markers) => Ok(marks_of(markers@)),
        Err(refusal) => Err(refusal@),
    }
}

/// What the machine gives away that must not be found in a released file.
pub fn machine_markers(environment: &Environment, facts: &MachineFacts) -> (result: Result<
    Vec<Marker>,
    Failure,
>)
    ensures
        marks_outcome(result) == machine_marks(environment@, *facts),
{
    let home = match find_private_home(environment) {
        Ok(home) => home,
        Err(refusal) => return Err(refusal),
    };
    let identifier = match darwin_temp_identifier(facts.temporary_directory.as_slice()) {
        Some(identifier) => identifier,
        None => {
            let shown = lossy_text(facts.temporary_directory.as_slice());
            return Err(
                Failure {
                    message: join2(
                        "TMPDIR is outside /var/folders; cannot verify its per-user identifier: ",
                        shown.as_str(),
                    ),
                },
            );
        },
    };
    let host = match find_host_name(&facts.hostname) {
        Ok(host) => host,
        Err(refusal) => return Err(refusal),
    };
    let root = match &facts.root {
        Ok(root) => owned(root.as_slice()),
        Err(fault) => return Err(failure(fault.as_str())),
    };
    let cargo_home = match &facts.cargo_home {
        Ok(cargo_home) => owned(cargo_home.as_slice()),
        Err(fault) => return Err(failure(fault.as_str())),
    };
    let target = match &facts.target {
        Ok(target) => owned(target.as_slice()),
        Err(fault) => return Err(failure(fault.as_str())),
    };
    let ghost wanted = private_marks(
        home@,
        root@,
        cargo_home@,
        target@,
        identifier@,
        host@,
    );
    let markers = vec![
        Marker { bytes: home, description: "private home path" },
        Marker { bytes: root, description: "repository root" },
        Marker { bytes: cargo_home, description: "Cargo home path" },
        Marker { bytes: target, description: "Cargo target path" },
        Marker {
            bytes: owned("/var/folders".as_bytes()),
            description: "Darwin temporary directory path",
        },
        Marker {
            bytes: owned("/private/var/folders".as_bytes()),
            description: "private Darwin temporary directory path",
        },
        Marker {
            bytes: owned(identifier),
            description: "Darwin temporary directory identifier",
        },
        Marker { bytes: owned(host.as_str().as_bytes()), description: "build host name" },
    ];
    assert(marks_of(markers@) == wanted);
    Ok(markers)
}

/// A byte string with no marker in it holds none of them.
pub proof fn lemma_no_mark(bytes: Seq<u8>, marks: Seq<(Seq<u8>, Seq<char>)>, m: int)
    requires
        first_mark(bytes, marks) is None,
        0 <= m < marks.len(),
    ensures
        !contained(bytes, marks[m].0),
    decreases marks.len(),
{
    if m > 0 {
        assert(marks.skip(1)[m - 1] == marks[m]);
        lemma_no_mark(bytes, marks.skip(1), m - 1);
    }
}

/// A part of a file is accepted where, and only where, no marker that is not empty stands anywhere in it.
pub proof fn law_marked_files_are_refused(
    bytes: Seq<u8>,
    marks: Seq<(Seq<u8>, Seq<char>)>,
    file: Seq<u8>,
    source: Seq<char>,
)
    ensures
        markers_outcome(bytes, marks, file, source) is Ok <==> forall|m: int|
            0 <= m < marks.len() && (#[trigger] marks[m]).0.len() > 0 ==> !occurs(bytes, marks[m].0),
    decreases marks.len(),
{
    if marks.len() > 0 {
        let rest = marks.skip(1);
        law_marked_files_are_refused(bytes, rest, file, source);
        assert forall|m: int| 0 <= m < rest.len() implies #[trigger] rest[m] == marks[m + 1] by {}
        if markers_outcome(bytes, marks, file, source) is Ok {
            assert forall|m: int|
                0 <= m < marks.len() && (#[trigger] marks[m]).0.len() > 0 implies !occurs(
                bytes,
                marks[m].0,
            ) by {
                if m > 0 {
                    assert(rest[m - 1] == marks[m]);
                }
            }
        }
    }
}

/// The first marker that a file holds is named in the refusal.
pub proof fn law_first_marker_is_named(
    bytes: Seq<u8>,
    marks: Seq<(Seq<u8>, Seq<char>)>,
    file: Seq<u8>,
    source: Seq<char>,
    m: int,
)
    requires
        0 <= m < marks.len(),
        marks[m].0.len() > 0,
        occurs(bytes, marks[m].0),
        forall|k: int|
            0 <= k < m ==> (#[trigger] marks[k]).0.len() == 0 || !occurs(bytes, marks[k].0),
    ensures
        markers_outcome(bytes, marks, file, source) == Err::<(), Seq<char>>(
            "bundle file "@ + source + " contain "@ + marks[m].1 + ": "@ + lossy(file),
        ),
    decreases marks.len(),
{
    if m > 0 {
        let rest = marks.skip(1);
        assert forall|k: int| 0 <= k < rest.len() implies #[trigger] rest[k] == marks[k + 1] by {}
        law_first_marker_is_named(bytes, rest, file, source, m - 1);
    }
}

/// The identifier of a temporary directory is the name of the directory that it lies in, and one that
/// is not below `/var/folders` has none.
pub proof fn law_temporary_directories_are_told_by_their_parent(path: Seq<u8>, identifier: Seq<u8>)
    ensures
        temporary_identifier(path) == Some(identifier) <==> below(
            path,
            encode_utf8("/var/folders"@),
        ) && parent(path) is Some && file_name(parent(path)->Some_0) == Some(identifier),
{
}

/// What is found among the entries of a directory is every regular file in it, at whatever depth, and
/// nothing else.
pub proof fn law_regular_files_are_all_that_is_found(entries: Seq<Entry>, path: Seq<u8>)
    requires
        regular_outcome(Ok(entries)) is Ok,
    ensures
        regular_outcome(Ok(entries))->Ok_0.contains(path) <==> exists|entry: Entry|
            #[trigger] lies_among(entries, entry) && is_file_at(entry, path),
{
    lemma_files_found_among(entries, path);
}

/// Whether an entry is a regular file with this path.
pub open spec fn is_file_at(entry: Entry, path: Seq<u8>) -> bool {
    entry matches Entry::File { path: own, mode } && own@ == path
}

proof fn lemma_files_found_among(entries: Seq<Entry>, path: Seq<u8>)
    requires
        files_among(entries) is Ok,
    ensures
        files_among(entries)->Ok_0.contains(path) <==> exists|entry: Entry|
            #[trigger] lies_among(entries, entry) && is_file_at(entry, path),
    decreases entries, 1int,
{
    if entries.len() > 0 {
        let rest = entries.drop_last();
        let last = entries.last();
        assert(decreases_to!(entries => last));
        lemma_files_found_among(rest, path);
        lemma_files_found_in(last, path);
        let before = files_among(rest)->Ok_0;
        let more = files_in(last)->Ok_0;
        let all = before + more;
        assert(all.contains(path) <==> before.contains(path) || more.contains(path)) by {
            if before.contains(path) {
                let i = choose|i: int| 0 <= i < before.len() && before[i] == path;
                assert(all[i] == path);
            }
            if more.contains(path) {
                let i = choose|i: int| 0 <= i < more.len() && more[i] == path;
                assert(all[before.len() + i] == path);
            }
            if all.contains(path) {
                let i = choose|i: int| 0 <= i < all.len() && all[i] == path;
                if i < before.len() {
                    assert(before[i] == path);
                } else {
                    assert(more[i - before.len()] == path);
                }
            }
        }
        assert forall|entry: Entry| #[trigger] lies_among(rest, entry) implies lies_among(
            entries,
            entry,
        ) by {
            let i = choose|i: int| 0 <= i < rest.len() && lies_in(#[trigger] rest[i], entry);
            assert(entries[i] == rest[i]);
        }
        assert forall|entry: Entry| #[trigger] lies_in(last, entry) implies lies_among(
            entries,
            entry,
        ) by {
            assert(entries[entries.len() - 1] == last);
        }
        assert forall|entry: Entry| #[trigger] lies_among(entries, entry) implies lies_among(
            rest,
            entry,
        ) || lies_in(last, entry) by {
            let i = choose|i: int| 0 <= i < entries.len() && lies_in(#[trigger] entries[i], entry);
            if i < rest.len() {
                assert(rest[i] == entries[i]);
            }
        }
    }
}

proof fn lemma_files_found_in(entry: Entry, path: Seq<u8>)
    requires
        files_in(entry) is Ok,
    ensures
        files_in(entry)->Ok_0.contains(path) <==> exists|found: Entry|
            #[trigger] lies_in(entry, found) && is_file_at(found, path),
    decreases entry, 0int,
{
    let files = files_in(entry)->Ok_0;
    if files.contains(path) {
        let found = match entry {
            Entry::Directory { path: own, entries: Ok(entries) } => {
                assert(decreases_to!(entry => entries@));
                lemma_files_found_among(entries@, path);
                choose|found: Entry| #[trigger]
                    lies_among(entries@, found) && is_file_at(found, path)
            },
            _ => entry,
        };
        assert(lies_in(entry, found) && is_file_at(found, path));
    }
    if exists|found: Entry| #[trigger] lies_in(entry, found) && is_file_at(found, path) {
        let found = choose|found: Entry| #[trigger]
            lies_in(entry, found) && is_file_at(found, path);
        match entry {
            Entry::File { path: own, mode } => {
                assert(found == entry);
                assert(files[0] == path);
            },
            Entry::Directory { path: own, entries: Ok(entries) } => {
                assert(decreases_to!(entry => entries@));
                assert(found != entry);
                assert(lies_among(entries@, found));
                lemma_files_found_among(entries@, path);
            },
            _ => {
                assert(found == entry);
            },
        }
    }
}

/// Where one entry, at whatever depth, cannot be looked at, no files are found, but the whole is
/// refused.
pub proof fn law_unknown_files_are_refused(entries: Seq<Entry>, entry: Entry)
    requires
        lies_among(entries, entry),
        cannot_be_told(entry),
    ensures
        regular_outcome(Ok(entries)) is Err,
{
    lemma_unknown_files_among(entries, entry);
}

proof fn lemma_unknown_files_among(entries: Seq<Entry>, entry: Entry)
    requires
        lies_among(entries, entry),
        cannot_be_told(entry),
    ensures
        files_among(entries) is Err,
    decreases entries, 1int,
{
    let i = choose|i: int| 0 <= i < entries.len() && lies_in(#[trigger] entries[i], entry);
    let rest = entries.drop_last();
    if i < rest.len() {
        assert(rest[i] == entries[i]);
        lemma_unknown_files_among(rest, entry);
    } else {
        assert(decreases_to!(entries => entries.last()));
        lemma_unknown_files_in(entries.last(), entry);
    }
}

proof fn lemma_unknown_files_in(entry: Entry, wanted: Entry)
    requires
        lies_in(entry, wanted),
        cannot_be_told(wanted),
    ensures
        files_in(entry) is Err,
    decreases entry, 0int,
{
    match entry {
        Entry::Directory { path, entries: Ok(entries) } => {
            if entry != wanted {
                assert(decreases_to!(entry => entries@));
                lemma_unknown_files_among(entries@, wanted);
            }
        },
        _ => {},
    }
}

/// The attributes of a file are the lines, but the empty ones, of a listing that succeeded.
pub proof fn law_attributes_are_the_lines_of_a_listing(
    file: Seq<u8>,
    listing: Result<Output, Seq<char>>,
    name: Seq<u8>,
)
    ensures
        attributes_of(file, listing) is Ok <==> (listing matches Ok(output) && output.success),
        attributes_of(file, listing) is Ok ==> (attributes_of(file, listing)->Ok_0.contains(name)
            <==> name.len() > 0 && split(listing->Ok_0.stdout, '\n' as u8).contains(name)),
        attributes_call(file).program == "xattr"@,
        attributes_call(file).arguments == seq![file],
        attribute_call(file, name).program == "xattr"@,
        attribute_call(file, name).arguments == seq![encode_utf8("-p"@), name, file],
{
    assert(attributes_call(file).arguments =~= seq![file]);
    assert(attribute_call(file, name).arguments =~= seq![encode_utf8("-p"@), name, file]);
    if attributes_of(file, listing) is Ok {
        let lines = split(listing->Ok_0.stdout, '\n' as u8);
        let kept = |name: Seq<u8>| name.len() > 0;
        let names = attributes_of(file, listing)->Ok_0;
        if names.contains(name) {
            let k = choose|k: int| 0 <= k < names.len() && names[k] == name;
            let i = lemma_kept_is_wanted(lines, kept, k);
            assert(lines[i] == name);
        }
        if name.len() > 0 && lines.contains(name) {
            let i = choose|i: int| 0 <= i < lines.len() && lines[i] == name;
            lemma_wanted_is_kept(lines, kept, i);
        }
    }
}

/// The name of the machine is what `hostname` wrote, without the white space around it, and no other
/// name is taken.
pub proof fn law_machines_are_named(hostname: Result<Output, Seq<char>>)
    ensures
        host_name(hostname) is Ok <==> (hostname matches Ok(output) && output.success && decoded(
            output.stdout,
        ) is Ok && trim(decoded(output.stdout)->Ok_0).len() > 0),
        host_name(hostname) is Ok ==> host_name(hostname)->Ok_0 == trim(
            decoded(hostname->Ok_0.stdout)->Ok_0,
        ),
{
}

/// What is looked for is known only where everything is: the home, the temporary directory, the name
/// of the machine, the repository and Cargo's directories. Each of them is then looked for.
pub proof fn law_every_private_fact_is_looked_for(
    variables: Seq<(Seq<u8>, Seq<u8>)>,
    facts: MachineFacts,
)
    ensures
        machine_marks(variables, facts) is Ok <==> {
            &&& value_of(variables, "HOME"@) is Some
            &&& value_of(variables, "HOME"@) != Some(Seq::<u8>::empty())
            &&& value_of(variables, "HOME"@) != Some(encode_utf8("/"@))
            &&& temporary_identifier(facts.temporary_directory@) is Some
            &&& host_name(attempt(facts.hostname)) is Ok
            &&& facts.root is Ok
            &&& facts.cargo_home is Ok
            &&& facts.target is Ok
        },
        machine_marks(variables, facts) is Ok ==> {
            let marks = machine_marks(variables, facts)->Ok_0;
            &&& is_marked(marks, value_of(variables, "HOME"@)->Some_0)
            &&& is_marked(marks, facts.root->Ok_0@)
            &&& is_marked(marks, facts.cargo_home->Ok_0@)
            &&& is_marked(marks, facts.target->Ok_0@)
            &&& is_marked(marks, encode_utf8("/var/folders"@))
            &&& is_marked(marks, encode_utf8("/private/var/folders"@))
            &&& is_marked(marks, temporary_identifier(facts.temporary_directory@)->Some_0)
            &&& is_marked(marks, encode_utf8(host_name(attempt(facts.hostname))->Ok_0))
            &&& marks.len() == 8
        },
{
    let home = value_of(variables, "HOME"@);
    if home is Some && home->Some_0.len() == 0 {
        assert(home->Some_0 =~= Seq::<u8>::empty());
    }
    if machine_marks(variables, facts) is Ok {
        let marks = machine_marks(variables, facts)->Ok_0;
        assert(marks[0].0 == home->Some_0);
        assert(marks[1].0 == facts.root->Ok_0@);
        assert(marks[2].0 == facts.cargo_home->Ok_0@);
        assert(marks[3].0 == facts.target->Ok_0@);
        assert(marks[4].0 == encode_utf8("/var/folders"@));
        assert(marks[5].0 == encode_utf8("/private/var/folders"@));
        assert(marks[6].0 == temporary_identifier(facts.temporary_directory@)->Some_0);
        assert(marks[7].0 == encode_utf8(host_name(attempt(facts.hostname))->Ok_0));
    }
}

/// Whether these bytes are looked for.
pub open spec fn is_marked(marks: Seq<(Seq<u8>, Seq<char>)>, bytes: Seq<u8>) -> bool {
    exists|m: int| 0 <= m < marks.len() && (#[trigger] marks[m]).0 == bytes
}

} // verus!
