//! What an app bundle must hold.

use vstd::prelude::*;
use vstd::utf8::encode_utf8;

use crate::bytes::{read, same_bytes};
use crate::digest::{sha256_hex, sha256_text};
use crate::encoding::{decode, decoded, lossy, lossy_text, quoted, quoted_text};
use crate::environment::path_outcome;
use crate::failure::{failure, outcome, text_outcome, Failure};
use crate::macho::{
    cpu_name, cpu_type_name, format_uuid, hex_word, hex_word_text, identity, macho_identity,
    uuid_text, Identity, MachOIdentity,
};
use crate::manifest::{ManifestMetadata, Metadata};
use crate::path::{file_name, file_name_of, join, join_text, joined};
use crate::property_list::{
    entries, get_string, has_distinct_names, has_key, holds_nan, law_removed_is_gone,
    law_removing_keeps_other_strings, law_removing_keeps_the_rest, position, read_entries,
    read_property_list, remove_key, string_at, without, write_property_list, written_entries, Item,
};
use crate::text::{
    chars_of, contains_text, join2, join3, join4, join5, law_lines_end_at_newlines,
    law_lines_follow_each_other, lemma_kept_is_wanted, lemma_wanted_is_kept, lines, occurs, pieces,
    same_text, starts_with, text_lines,
};

verus! {

/// Where the packager puts the app.
pub const APP: &'static str = "dist/NEO.app";

/// Where the notices on third-party code are generated.
pub const NOTICES: &'static str = "packaging/generated/THIRD-PARTY-NOTICES.md";

/// Where the app holds those notices.
pub const BUNDLED_NOTICES: &'static str = "Contents/Resources/Legal/THIRD-PARTY-NOTICES.md";

/// Where the app holds its license.
pub const BUNDLED_LICENSE: &'static str = "Contents/Resources/Legal/AGPL-3.0-or-later.txt";

/// Where the app holds its property list.
pub const INFO: &'static str = "Contents/Info.plist";

/// What a file's metadata says.
#[derive(Debug)]
pub struct FileFacts {
    pub is_file: bool,
    pub length: u64,
    /// The permission bits.
    pub mode: u32,
}

/// What looking at a file gave: its metadata, or the text of the reason why there is none.
pub open spec fn looked_at(facts: Result<FileFacts, String>) -> Result<FileFacts, Seq<char>> {
    match facts {
        Ok(facts) => Ok(facts),
        Err(fault) => Err(fault@),
    }
}

/// What a file is told that must be there and not be empty.
pub open spec fn nonempty_outcome(
    path: Seq<u8>,
    description: Seq<char>,
    facts: Result<FileFacts, Seq<char>>,
) -> Result<(), Seq<char>> {
    match facts {
        Err(fault) => Err("missing "@ + description + ": "@ + lossy(path) + ": "@ + fault),
        Ok(facts) => if !facts.is_file || facts.length == 0 {
            Err(description + " is not a non-empty file: "@ + lossy(path))
        } else {
            Ok(())
        },
    }
}

/// Refuses a file that is not there, is no regular file, or is empty.
pub fn require_nonempty(path: &[u8], description: &str, facts: &Result<FileFacts, String>) -> (result:
    Result<(), Failure>)
    ensures
        outcome(result) == nonempty_outcome(path@, description@, looked_at(*facts)),
{
    match facts {
        Err(fault) => {
            let shown = lossy_text(path);
            let head = join4("missing ", description, ": ", shown.as_str());
            Err(Failure { message: join3(head.as_str(), ": ", fault.as_str()) })
        },
        Ok(facts) => if !facts.is_file || facts.length == 0 {
            let shown = lossy_text(path);
            Err(
                Failure {
                    message: join3(description, " is not a non-empty file: ", shown.as_str()),
                },
            )
        } else {
            Ok(())
        },
    }
}

/// What two files are told that must be the same.
pub open spec fn identical_outcome(
    expected: Result<Seq<u8>, Seq<char>>,
    path: Seq<u8>,
    actual: Result<Seq<u8>, Seq<char>>,
    message: Seq<char>,
) -> Result<(), Seq<char>> {
    match expected {
        Err(fault) => Err(fault),
        Ok(expected) => match actual {
            Err(fault) => Err("missing "@ + lossy(path) + ": "@ + fault),
            Ok(actual) => if expected != actual {
                Err(message + ": "@ + lossy(path))
            } else {
                Ok(())
            },
        },
    }
}

/// Refuses the file `path` where it is not there or differs from the expected one.
pub fn require_identical(
    expected: &Result<Vec<u8>, String>,
    path: &[u8],
    actual: &Result<Vec<u8>, String>,
    message: &str,
) -> (result: Result<(), Failure>)
    ensures
        outcome(result) == identical_outcome(read(*expected), path@, read(*actual), message@),
{
    let expected = match expected {
        Ok(expected) => expected,
        Err(fault) => return Err(failure(fault.as_str())),
    };
    match actual {
        Err(fault) => {
            let shown = lossy_text(path);
            Err(Failure { message: join4("missing ", shown.as_str(), ": ", fault.as_str()) })
        },
        Ok(actual) => if !same_bytes(expected.as_slice(), actual.as_slice()) {
            let shown = lossy_text(path);
            Err(Failure { message: join3(message, ": ", shown.as_str()) })
        } else {
            Ok(())
        },
    }
}

/// What one key of the app's property list is told. A key that is not there, or has no string, counts
/// as empty.
pub open spec fn key_outcome(
    info: Seq<(Seq<char>, Item)>,
    key: Seq<char>,
    expected: Seq<char>,
) -> Result<(), Seq<char>> {
    let actual = match string_at(info, key) {
        Some(actual) => actual,
        None => Seq::empty(),
    };
    if actual == expected {
        Ok(())
    } else {
        Err(
            "unexpected "@ + key + ": expected "@ + quoted(expected) + ", found "@ + quoted(actual),
        )
    }
}

/// Refuses a property list whose `key` has another value than the expected one.
fn check_key(dictionary: &plist::Dictionary, key: &str, expected: &str) -> (result: Result<
    (),
    Failure,
>)
    ensures
        outcome(result) == key_outcome(entries(*dictionary), key@, expected@),
{
    let actual = match get_string(dictionary, key) {
        Some(actual) => actual,
        None => String::new(),
    };
    assert(string_at(entries(*dictionary), key@) is None ==> actual@ == Seq::<char>::empty());
    if same_text(actual.as_str(), expected) {
        return Ok(());
    }
    let wanted = quoted_text(expected);
    let found = quoted_text(actual.as_str());
    let head = join5("unexpected ", key, ": expected ", wanted.as_str(), ", found ");
    Err(Failure { message: join2(head.as_str(), found.as_str()) })
}

/// What the app's property list, at `path`, is told.
pub open spec fn info_outcome(
    path: Seq<u8>,
    info: Seq<(Seq<char>, Item)>,
    metadata: Metadata,
) -> Result<(), Seq<char>> {
    match key_outcome(info, "CFBundlePackageType"@, "APPL"@) {
        Err(refusal) => Err(refusal),
        Ok(()) => match key_outcome(info, "CFBundleIdentifier"@, metadata.identifier) {
            Err(refusal) => Err(refusal),
            Ok(()) => match key_outcome(info, "CFBundleShortVersionString"@, metadata.version) {
                Err(refusal) => Err(refusal),
                Ok(()) => match key_outcome(
                    info,
                    "LSMinimumSystemVersion"@,
                    metadata.minimum_system_version,
                ) {
                    Err(refusal) => Err(refusal),
                    Ok(()) => match key_outcome(
                        info,
                        "NSHumanReadableCopyright"@,
                        metadata.copyright,
                    ) {
                        Err(refusal) => Err(refusal),
                        Ok(()) => if position(info, "LSRequiresCarbon"@) is Some {
                            Err(
                                "obsolete LSRequiresCarbon remains in "@ + lossy(path),
                            )
                        } else {
                            Ok(())
                        },
                    },
                },
            },
        },
    }
}

/// Refuses a property list that does not say what the manifest says, or that still has the obsolete
/// key.
pub fn check_info(path: &[u8], dictionary: &plist::Dictionary, metadata: &ManifestMetadata) -> (result:
    Result<(), Failure>)
    ensures
        outcome(result) == info_outcome(path@, entries(*dictionary), metadata@),
{
    match check_key(dictionary, "CFBundlePackageType", "APPL") {
        Ok(()) => {},
        Err(refusal) => return Err(refusal),
    }
    match check_key(dictionary, "CFBundleIdentifier", metadata.identifier.as_str()) {
        Ok(()) => {},
        Err(refusal) => return Err(refusal),
    }
    match check_key(dictionary, "CFBundleShortVersionString", metadata.version.as_str()) {
        Ok(()) => {},
        Err(refusal) => return Err(refusal),
    }
    match check_key(
        dictionary,
        "LSMinimumSystemVersion",
        metadata.minimum_system_version.as_str(),
    ) {
        Ok(()) => {},
        Err(refusal) => return Err(refusal),
    }
    match check_key(dictionary, "NSHumanReadableCopyright", metadata.copyright.as_str()) {
        Ok(()) => {},
        Err(refusal) => return Err(refusal),
    }
    if has_key(dictionary, "LSRequiresCarbon") {
        let shown = lossy_text(path);
        return Err(
            Failure { message: join2("obsolete LSRequiresCarbon remains in ", shown.as_str()) },
        );
    }
    Ok(())
}

/// The dictionary that a property list file holds, or the reason why there is none, in the words of
/// `otherwise` where it holds something else.
pub open spec fn dictionary_in(
    contents: Result<Seq<u8>, Seq<char>>,
    otherwise: Seq<char>,
) -> Result<Seq<(Seq<char>, Item)>, Seq<char>> {
    match contents {
        Err(fault) => Err(fault),
        Ok(bytes) => match read_entries(bytes) {
            Err(fault) => Err(fault),
            Ok(None) => Err(otherwise),
            Ok(Some(info)) => Ok(info),
        },
    }
}

/// A result with a dictionary replaced by its entries, and its refusal by its text.
pub open spec fn entries_outcome(result: Result<plist::Dictionary, Failure>) -> Result<
    Seq<(Seq<char>, Item)>,
    Seq<char>,
> {
    match result {
        Ok(dictionary) => Ok(entries(dictionary)),
        Err(refusal) => Err(refusal@),
    }
}

/// The dictionary that a property list file holds.
pub fn read_dictionary(contents: &Result<Vec<u8>, String>, otherwise: &str) -> (result: Result<
    plist::Dictionary,
    Failure,
>)
    ensures
        entries_outcome(result) == dictionary_in(read(*contents), otherwise@),
        result matches Ok(dictionary) ==> has_distinct_names(entries(dictionary)),
{
    match contents {
        Err(fault) => Err(failure(fault.as_str())),
        Ok(bytes) => match read_property_list(bytes.as_slice()) {
            Err(fault) => Err(failure(fault.as_str())),
            Ok(None) => Err(failure(otherwise)),
            Ok(Some(dictionary)) => Ok(dictionary),
        },
    }
}

/// The contents that a property list gets: what it held, without the obsolete key.
pub open spec fn without_carbon_key(path: Seq<u8>, contents: Result<Seq<u8>, Seq<char>>) -> Result<
    Seq<u8>,
    Seq<char>,
> {
    match dictionary_in(contents, lossy(path) + " is not a plist dictionary"@) {
        Err(refusal) => Err(refusal),
        Ok(info) => written_entries(without(info, "LSRequiresCarbon"@)),
    }
}

/// The contents that the property list `path` gets: what it held, without the obsolete key, which is
/// then not there. Read again, where they can be read and hold no NaN, they hold just that.
pub fn remove_carbon_key(path: &[u8], contents: &Result<Vec<u8>, String>) -> (result: Result<
    Vec<u8>,
    Failure,
>)
    ensures
        path_outcome(result) == without_carbon_key(path@, read(*contents)),
        result is Ok ==> {
            let info = dictionary_in(
                read(*contents),
                lossy(path@) + " is not a plist dictionary"@,
            )->Ok_0;
            let kept = without(info, "LSRequiresCarbon"@);
            &&& position(kept, "LSRequiresCarbon"@) is None
            &&& read_entries(result->Ok_0@) is Ok && !holds_nan(Item::Table(kept))
                ==> read_entries(result->Ok_0@)->Ok_0 == Some(kept)
        },
{
    let shown = lossy_text(path);
    let otherwise = join2(shown.as_str(), " is not a plist dictionary");
    let mut dictionary = match read_dictionary(contents, otherwise.as_str()) {
        Ok(dictionary) => dictionary,
        Err(refusal) => return Err(refusal),
    };
    proof {
        law_removed_is_gone(entries(dictionary), "LSRequiresCarbon"@);
    }
    remove_key(&mut dictionary, "LSRequiresCarbon");
    match write_property_list(dictionary) {
        Ok(bytes) => Ok(bytes),
        Err(fault) => Err(failure(fault.as_str())),
    }
}

/// The executable that the property list of the app names: a plain file name.
pub open spec fn executable_path(
    app: Seq<u8>,
    info: Seq<(Seq<char>, Item)>,
) -> Result<Seq<u8>, Seq<char>> {
    match string_at(info, "CFBundleExecutable"@) {
        Some(name) => if file_name(encode_utf8(name)) == Some(encode_utf8(name)) {
            Ok(joined(joined(app, encode_utf8("Contents/MacOS"@)), encode_utf8(name)))
        } else {
            Err("bundle has no valid CFBundleExecutable"@)
        },
        None => Err("bundle has no valid CFBundleExecutable"@),
    }
}

/// The executable that the property list of the app names.
pub fn bundled_executable(app: &[u8], dictionary: &plist::Dictionary) -> (result: Result<
    Vec<u8>,
    Failure,
>)
    ensures
        path_outcome(result) == executable_path(app@, entries(*dictionary)),
{
    match get_string(dictionary, "CFBundleExecutable") {
        Some(name) => match file_name_of(name.as_str().as_bytes()) {
            Some(last) => if same_bytes(last, name.as_str().as_bytes()) {
                let directory = join_text(app, "Contents/MacOS");
                return Ok(join(directory.as_slice(), name.as_str().as_bytes()));
            },
            None => {},
        },
        None => {},
    }
    Err(failure("bundle has no valid CFBundleExecutable"))
}

/// How closely the executable in the app must match the one that was built.
#[derive(Clone, Copy, Debug, PartialEq, Eq, Structural)]
pub enum ExecutableMatch {
    /// Byte for byte.
    Exact,
    /// By what signing leaves alone: the CPU and the UUID.
    Stable,
}

/// The two executables, as they were found.
#[derive(Debug)]
pub struct ExecutableFacts {
    pub bundled: Result<FileFacts, String>,
    pub bundled_bytes: Result<Vec<u8>, String>,
    pub release: Result<FileFacts, String>,
    pub release_bytes: Result<Vec<u8>, String>,
}

/// The contents and the identity of the executable `path` in the app.
pub open spec fn bundled_file(
    path: Seq<u8>,
    facts: Result<FileFacts, Seq<char>>,
    bytes: Result<Seq<u8>, Seq<char>>,
) -> Result<(Seq<u8>, Identity), Seq<char>> {
    match facts {
        Err(fault) => Err("missing bundled executable: "@ + lossy(path) + ": "@ + fault),
        Ok(facts) => if !facts.is_file {
            Err("bundled executable is not a regular file: "@ + lossy(path))
        } else if facts.length == 0 {
            Err("bundled executable is empty: "@ + lossy(path))
        } else if facts.mode & 0o111u32 == 0 {
            Err("bundled executable has no executable permission bits: "@ + lossy(path))
        } else {
            match bytes {
                Err(fault) => Err(
                    "cannot read bundled executable: "@ + lossy(path) + ": "@ + fault,
                ),
                Ok(bytes) => match identity(bytes) {
                    Err(fault) => Err(
                        "bundled executable is not a valid thin 64-bit Mach-O: "@ + lossy(path)
                            + ": "@ + fault,
                    ),
                    Ok(identity) => Ok((bytes, identity)),
                },
            }
        },
    }
}

/// The contents and the identity of the release artifact `path`.
pub open spec fn release_file(
    path: Seq<u8>,
    facts: Result<FileFacts, Seq<char>>,
    bytes: Result<Seq<u8>, Seq<char>>,
) -> Result<(Seq<u8>, Identity), Seq<char>> {
    match facts {
        Err(fault) => Err(
            "missing release artifact: "@ + lossy(path) + ": "@ + fault
                + "; run `cargo xtask package` first"@,
        ),
        Ok(facts) => if !facts.is_file || facts.length == 0 {
            Err(
                "release artifact is not a non-empty regular file: "@ + lossy(path)
                    + "; run `cargo xtask package` first"@,
            )
        } else {
            match bytes {
                Err(fault) => Err(
                    "cannot read release artifact: "@ + lossy(path) + ": "@ + fault,
                ),
                Ok(bytes) => match identity(bytes) {
                    Err(fault) => Err(
                        "release artifact is not a valid thin 64-bit Mach-O: "@ + lossy(path)
                            + ": "@ + fault + "; run `cargo xtask package` first"@,
                    ),
                    Ok(identity) => Ok((bytes, identity)),
                },
            }
        },
    }
}

/// Two paths, as the two sides of a comparison that failed.
pub open spec fn sides(bundled: Seq<u8>, release: Seq<u8>) -> Seq<char> {
    ": "@ + lossy(bundled) + " != "@ + lossy(release)
}

/// An executable as a report names it.
pub open spec fn described(path: Seq<u8>, bytes: Seq<u8>, identity: Identity) -> Seq<char> {
    lossy(path) + " SHA-256 "@ + sha256_text(bytes) + " UUID "@ + uuid_text(identity.uuid) + " ("@
        + cpu_name(identity.cpu_type as u32) + " subtype "@ + hex_word(identity.cpu_subtype as u32)
        + ")"@
}

/// What two executables are told that must match: the sentence that reports success, or a refusal.
pub open spec fn match_outcome(
    bundled_path: Seq<u8>,
    bundled: (Seq<u8>, Identity),
    release_path: Seq<u8>,
    release: (Seq<u8>, Identity),
    closeness: ExecutableMatch,
) -> Result<Seq<char>, Seq<char>> {
    if bundled.1.cpu_type != release.1.cpu_type {
        Err(
            "bundled executable CPU type "@ + cpu_name(bundled.1.cpu_type as u32)
                + " does not match release artifact CPU type "@ + cpu_name(
                release.1.cpu_type as u32,
            ) + sides(bundled_path, release_path),
        )
    } else if bundled.1.cpu_subtype != release.1.cpu_subtype {
        Err(
            "bundled executable CPU subtype "@ + hex_word(bundled.1.cpu_subtype as u32)
                + " does not match release artifact CPU subtype "@ + hex_word(
                release.1.cpu_subtype as u32,
            ) + sides(bundled_path, release_path),
        )
    } else if closeness == ExecutableMatch::Exact && bundled.0 != release.0 {
        Err(
            "bundled executable SHA-256 "@ + sha256_text(bundled.0)
                + " does not match release artifact SHA-256 "@ + sha256_text(release.0) + sides(
                bundled_path,
                release_path,
            ),
        )
    } else if bundled.1.uuid != release.1.uuid {
        Err(
            "bundled executable LC_UUID "@ + uuid_text(bundled.1.uuid)
                + " does not match release artifact LC_UUID "@ + uuid_text(release.1.uuid) + sides(
                bundled_path,
                release_path,
            ),
        )
    } else {
        Ok(
            "matched executable identity: "@ + described(bundled_path, bundled.0, bundled.1) + "; "@
                + described(release_path, release.0, release.1),
        )
    }
}

/// What the executable in the app and the release artifact are told.
pub open spec fn executables_outcome(
    bundled_path: Seq<u8>,
    release_path: Seq<u8>,
    facts: ExecutableFacts,
    closeness: ExecutableMatch,
) -> Result<Seq<char>, Seq<char>> {
    match bundled_file(bundled_path, looked_at(facts.bundled), read(facts.bundled_bytes)) {
        Err(refusal) => Err(refusal),
        Ok(bundled) => match release_file(
            release_path,
            looked_at(facts.release),
            read(facts.release_bytes),
        ) {
            Err(refusal) => Err(refusal),
            Ok(release) => match_outcome(bundled_path, bundled, release_path, release, closeness),
        },
    }
}

/// The identity of the executable `path` in the app.
fn check_bundled_file<'a>(
    path: &[u8],
    facts: &Result<FileFacts, String>,
    bytes: &'a Result<Vec<u8>, String>,
) -> (result: Result<(&'a Vec<u8>, MachOIdentity), Failure>)
    ensures
        match result {
            Ok((contents, identity)) => bundled_file(path@, looked_at(*facts), read(*bytes)) == Ok::<
                (Seq<u8>, Identity),
                Seq<char>,
            >((contents@, identity@)),
            Err(refusal) => bundled_file(path@, looked_at(*facts), read(*bytes)) == Err::<
                (Seq<u8>, Identity),
                Seq<char>,
            >(refusal@),
        },
{
    let shown = lossy_text(path);
    let facts = match facts {
        Ok(facts) => facts,
        Err(fault) => return Err(
            Failure {
                message: join4(
                    "missing bundled executable: ",
                    shown.as_str(),
                    ": ",
                    fault.as_str(),
                ),
            },
        ),
    };
    if !facts.is_file {
        return Err(
            Failure {
                message: join2("bundled executable is not a regular file: ", shown.as_str()),
            },
        );
    }
    if facts.length == 0 {
        return Err(Failure { message: join2("bundled executable is empty: ", shown.as_str()) });
    }
    if facts.mode & 0o111u32 == 0 {
        return Err(
            Failure {
                message: join2(
                    "bundled executable has no executable permission bits: ",
                    shown.as_str(),
                ),
            },
        );
    }
    let contents = match bytes {
        Ok(contents) => contents,
        Err(fault) => return Err(
            Failure {
                message: join4(
                    "cannot read bundled executable: ",
                    shown.as_str(),
                    ": ",
                    fault.as_str(),
                ),
            },
        ),
    };
    match macho_identity(contents.as_slice()) {
        Ok(identity) => Ok((contents, identity)),
        Err(refusal) => Err(
            Failure {
                message: join4(
                    "bundled executable is not a valid thin 64-bit Mach-O: ",
                    shown.as_str(),
                    ": ",
                    refusal.message(),
                ),
            },
        ),
    }
}

/// The identity of the release artifact `path`.
fn check_release_file<'a>(
    path: &[u8],
    facts: &Result<FileFacts, String>,
    bytes: &'a Result<Vec<u8>, String>,
) -> (result: Result<(&'a Vec<u8>, MachOIdentity), Failure>)
    ensures
        match result {
            Ok((contents, identity)) => release_file(path@, looked_at(*facts), read(*bytes)) == Ok::<
                (Seq<u8>, Identity),
                Seq<char>,
            >((contents@, identity@)),
            Err(refusal) => release_file(path@, looked_at(*facts), read(*bytes)) == Err::<
                (Seq<u8>, Identity),
                Seq<char>,
            >(refusal@),
        },
{
    let shown = lossy_text(path);
    let facts = match facts {
        Ok(facts) => facts,
        Err(fault) => return Err(
            Failure {
                message: join5(
                    "missing release artifact: ",
                    shown.as_str(),
                    ": ",
                    fault.as_str(),
                    "; run `cargo xtask package` first",
                ),
            },
        ),
    };
    if !facts.is_file || facts.length == 0 {
        return Err(
            Failure {
                message: join3(
                    "release artifact is not a non-empty regular file: ",
                    shown.as_str(),
                    "; run `cargo xtask package` first",
                ),
            },
        );
    }
    let contents = match bytes {
        Ok(contents) => contents,
        Err(fault) => return Err(
            Failure {
                message: join4(
                    "cannot read release artifact: ",
                    shown.as_str(),
                    ": ",
                    fault.as_str(),
                ),
            },
        ),
    };
    match macho_identity(contents.as_slice()) {
        Ok(identity) => Ok((contents, identity)),
        Err(refusal) => Err(
            Failure {
                message: join5(
                    "release artifact is not a valid thin 64-bit Mach-O: ",
                    shown.as_str(),
                    ": ",
                    refusal.message(),
                    "; run `cargo xtask package` first",
                ),
            },
        ),
    }
}

/// A comparison that failed, with its two values and its two sides.
fn mismatch(
    first: &str,
    bundled_value: &str,
    second: &str,
    release_value: &str,
    bundled: &[u8],
    release: &[u8],
) -> (refusal: Failure)
    ensures
        refusal@ == first@ + bundled_value@ + second@ + release_value@ + sides(bundled@, release@),
{
    let left = lossy_text(bundled);
    let right = lossy_text(release);
    let tail = join4(": ", left.as_str(), " != ", right.as_str());
    Failure { message: join5(first, bundled_value, second, release_value, tail.as_str()) }
}

/// An executable as a report names it.
fn describe(path: &[u8], bytes: &[u8], identity: &MachOIdentity) -> (text: String)
    ensures
        text@ == described(path@, bytes@, identity@),
{
    let shown = lossy_text(path);
    let digest = sha256_hex(bytes);
    let uuid = format_uuid(&identity.uuid);
    let cpu = cpu_type_name(identity.cpu_type);
    let subtype = hex_word_text(identity.cpu_subtype);
    let head = join5(shown.as_str(), " SHA-256 ", digest.as_str(), " UUID ", uuid.as_str());
    let tail = join5(head.as_str(), " (", cpu.as_str(), " subtype ", subtype.as_str());
    join2(tail.as_str(), ")")
}

/// Refuses an executable in the app that is not that of the release artifact.
pub fn match_executables(
    bundled_path: &[u8],
    release_path: &[u8],
    facts: &ExecutableFacts,
    closeness: ExecutableMatch,
) -> (result: Result<String, Failure>)
    ensures
        text_outcome(result) == executables_outcome(
            bundled_path@,
            release_path@,
            *facts,
            closeness,
        ),
{
    let (bundled_bytes, bundled) = match check_bundled_file(
        bundled_path,
        &facts.bundled,
        &facts.bundled_bytes,
    ) {
        Ok(found) => found,
        Err(refusal) => return Err(refusal),
    };
    let (release_bytes, release) = match check_release_file(
        release_path,
        &facts.release,
        &facts.release_bytes,
    ) {
        Ok(found) => found,
        Err(refusal) => return Err(refusal),
    };
    if bundled.cpu_type != release.cpu_type {
        let left = cpu_type_name(bundled.cpu_type);
        let right = cpu_type_name(release.cpu_type);
        return Err(
            mismatch(
                "bundled executable CPU type ",
                left.as_str(),
                " does not match release artifact CPU type ",
                right.as_str(),
                bundled_path,
                release_path,
            ),
        );
    }
    if bundled.cpu_subtype != release.cpu_subtype {
        let left = hex_word_text(bundled.cpu_subtype);
        let right = hex_word_text(release.cpu_subtype);
        return Err(
            mismatch(
                "bundled executable CPU subtype ",
                left.as_str(),
                " does not match release artifact CPU subtype ",
                right.as_str(),
                bundled_path,
                release_path,
            ),
        );
    }
    if closeness == ExecutableMatch::Exact && !same_bytes(
        bundled_bytes.as_slice(),
        release_bytes.as_slice(),
    ) {
        let left = sha256_hex(bundled_bytes.as_slice());
        let right = sha256_hex(release_bytes.as_slice());
        return Err(
            mismatch(
                "bundled executable SHA-256 ",
                left.as_str(),
                " does not match release artifact SHA-256 ",
                right.as_str(),
                bundled_path,
                release_path,
            ),
        );
    }
    if !same_bytes(bundled.uuid.as_slice(), release.uuid.as_slice()) {
        let left = format_uuid(&bundled.uuid);
        let right = format_uuid(&release.uuid);
        return Err(
            mismatch(
                "bundled executable LC_UUID ",
                left.as_str(),
                " does not match release artifact LC_UUID ",
                right.as_str(),
                bundled_path,
                release_path,
            ),
        );
    }
    let left = describe(bundled_path, bundled_bytes.as_slice(), &bundled);
    let right = describe(release_path, release_bytes.as_slice(), &release);
    Ok(join4("matched executable identity: ", left.as_str(), "; ", right.as_str()))
}

/// The files with the license and the notices, as they were found.
#[derive(Debug)]
pub struct LegalFacts {
    pub license: Result<Vec<u8>, String>,
    pub bundled_license: Result<Vec<u8>, String>,
    pub notices: Result<FileFacts, String>,
    pub notices_bytes: Result<Vec<u8>, String>,
    pub bundled_notices: Result<FileFacts, String>,
    pub bundled_notices_bytes: Result<Vec<u8>, String>,
}

/// The first entity of HTML in `notices` that should have been a character.
pub open spec fn escaped_entity(notices: Seq<char>) -> Option<Seq<char>> {
    if occurs(notices, "&quot;"@) {
        Some("&quot;"@)
    } else if occurs(notices, "&#x27;"@) {
        Some("&#x27;"@)
    } else if occurs(notices, "&amp;"@) {
        Some("&amp;"@)
    } else {
        None
    }
}

/// Whether a line of the notices attributes a crate.
pub open spec fn is_attribution(line: Seq<char>) -> bool {
    "- ["@.is_prefix_of(line)
}

/// The number of crates that the notices attribute.
pub open spec fn attributions(notices: Seq<char>) -> nat {
    text_lines(notices).filter(|line: Seq<char>| is_attribution(line)).len()
}

/// What the notices in the app, at `path`, are told: the number of crates that they attribute, or a
/// refusal.
pub open spec fn notices_outcome(path: Seq<u8>, notices: Seq<char>) -> Result<nat, Seq<char>> {
    match escaped_entity(notices) {
        Some(entity) => Err(
            "bundled notices contain escaped entity "@ + entity + ": "@ + lossy(path),
        ),
        None => if attributions(notices) == 0 {
            Err("third-party notices contain no crate attributions: "@ + lossy(path))
        } else {
            Ok(attributions(notices))
        },
    }
}

/// A result with a count replaced by the number, and its refusal by its text.
pub open spec fn count_outcome(result: Result<u64, Failure>) -> Result<nat, Seq<char>> {
    match result {
        Ok(count) => Ok(count as nat),
        Err(refusal) => Err(refusal@),
    }
}

/// The number of crates that the notices attribute.
fn count_attributions(notices: &[char]) -> (count: u64)
    ensures
        count == attributions(notices@),
{
    let rows = lines(notices);
    let ghost all = pieces(rows@);
    let ghost wanted = |line: Seq<char>| is_attribution(line);
    let length = rows.len();
    let mut count: u64 = 0;
    let mut i: usize = 0;
    proof {
        reveal(Seq::filter);
        assert(all.take(0).filter(wanted).len() == 0);
    }
    while i < length
        invariant
            i <= length == rows@.len(),
            count <= i,
            all == pieces(rows@),
            wanted == (|line: Seq<char>| is_attribution(line)),
            count == all.take(i as int).filter(wanted).len(),
        decreases length - i,
    {
        proof {
            reveal(Seq::filter);
            assert(all.take(i + 1).drop_last() == all.take(i as int));
            assert(all.take(i + 1).last() == rows@[i as int]@);
        }
        if starts_with(rows[i], "- [") {
            count += 1;
        }
        i += 1;
    }
    assert(all.take(i as int) == all);
    count
}

/// That the notices hold an entity that should have been a character.
fn escaped(entity: &str, path: &[u8]) -> (refusal: Failure)
    ensures
        refusal@ == "bundled notices contain escaped entity "@ + entity@ + ": "@ + lossy(path@),
{
    let shown = lossy_text(path);
    Failure {
        message: join4("bundled notices contain escaped entity ", entity, ": ", shown.as_str()),
    }
}

/// Judges the text of the notices in the app.
pub fn check_notices(path: &[u8], notices: &str) -> (result: Result<u64, Failure>)
    ensures
        count_outcome(result) == notices_outcome(path@, notices@),
{
    let chars = chars_of(notices);
    if contains_text(chars.as_slice(), "&quot;") {
        return Err(escaped("&quot;", path));
    }
    if contains_text(chars.as_slice(), "&#x27;") {
        return Err(escaped("&#x27;", path));
    }
    if contains_text(chars.as_slice(), "&amp;") {
        return Err(escaped("&amp;", path));
    }
    let count = count_attributions(chars.as_slice());
    if count == 0 {
        let shown = lossy_text(path);
        return Err(
            Failure {
                message: join2(
                    "third-party notices contain no crate attributions: ",
                    shown.as_str(),
                ),
            },
        );
    }
    Ok(count)
}

/// What the contents of the notices in the app, at `path`, are told. They must be text.
pub open spec fn written_notices_outcome(path: Seq<u8>, written: Seq<u8>) -> Result<
    nat,
    Seq<char>,
> {
    match decoded(written) {
        Err(_) => Err("stream did not contain valid UTF-8"@),
        Ok(notices) => notices_outcome(path, notices),
    }
}

/// What the license and the notices are told.
pub open spec fn legal_outcome(root: Seq<u8>, app: Seq<u8>, facts: LegalFacts) -> Result<
    nat,
    Seq<char>,
> {
    let bundled_license = joined(app, encode_utf8(BUNDLED_LICENSE@));
    let bundled_notices = joined(app, encode_utf8(BUNDLED_NOTICES@));
    match identical_outcome(
        read(facts.license),
        bundled_license,
        read(facts.bundled_license),
        "bundled license differs from LICENSE"@,
    ) {
        Err(refusal) => Err(refusal),
        Ok(()) => match nonempty_outcome(
            joined(root, encode_utf8(NOTICES@)),
            "third-party notices"@,
            looked_at(facts.notices),
        ) {
            Err(refusal) => Err(refusal),
            Ok(()) => match nonempty_outcome(
                bundled_notices,
                "bundled third-party notices"@,
                looked_at(facts.bundled_notices),
            ) {
                Err(refusal) => Err(refusal),
                Ok(()) => match identical_outcome(
                    read(facts.notices_bytes),
                    bundled_notices,
                    read(facts.bundled_notices_bytes),
                    "bundled notices differ from the generated notices"@,
                ) {
                    Err(refusal) => Err(refusal),
                    Ok(()) => written_notices_outcome(
                        bundled_notices,
                        read(facts.bundled_notices_bytes)->Ok_0,
                    ),
                },
            },
        },
    }
}

/// Refuses an app without the license and the notices of the repository. Gives the number of crates
/// that the notices attribute.
pub fn check_legal_files(root: &[u8], app: &[u8], facts: &LegalFacts) -> (result: Result<
    u64,
    Failure,
>)
    ensures
        count_outcome(result) == legal_outcome(root@, app@, *facts),
{
    let bundled_license = join_text(app, BUNDLED_LICENSE);
    match require_identical(
        &facts.license,
        bundled_license.as_slice(),
        &facts.bundled_license,
        "bundled license differs from LICENSE",
    ) {
        Ok(()) => {},
        Err(refusal) => return Err(refusal),
    }
    let notices = join_text(root, NOTICES);
    match require_nonempty(notices.as_slice(), "third-party notices", &facts.notices) {
        Ok(()) => {},
        Err(refusal) => return Err(refusal),
    }
    let bundled_notices = join_text(app, BUNDLED_NOTICES);
    match require_nonempty(
        bundled_notices.as_slice(),
        "bundled third-party notices",
        &facts.bundled_notices,
    ) {
        Ok(()) => {},
        Err(refusal) => return Err(refusal),
    }
    match require_identical(
        &facts.notices_bytes,
        bundled_notices.as_slice(),
        &facts.bundled_notices_bytes,
        "bundled notices differ from the generated notices",
    ) {
        Ok(()) => {},
        Err(refusal) => return Err(refusal),
    }
    let written = match &facts.bundled_notices_bytes {
        Ok(written) => written,
        Err(fault) => return Err(failure(fault.as_str())),
    };
    match decode(written.as_slice()) {
        Ok(text) => check_notices(bundled_notices.as_slice(), text.as_str()),
        Err(_) => Err(failure("stream did not contain valid UTF-8")),
    }
}

/// Two executables that match byte for byte also match by what signing leaves alone.
pub proof fn law_exact_match_is_stable(
    bundled_path: Seq<u8>,
    release_path: Seq<u8>,
    facts: ExecutableFacts,
)
    requires
        executables_outcome(bundled_path, release_path, facts, ExecutableMatch::Exact) is Ok,
    ensures
        executables_outcome(bundled_path, release_path, facts, ExecutableMatch::Stable)
            == executables_outcome(bundled_path, release_path, facts, ExecutableMatch::Exact),
        read(facts.bundled_bytes) == read(facts.release_bytes),
{
}

/// Two executables match where both are well-formed Mach-O files for one CPU with one UUID and, for an
/// exact match, the same bytes.
pub proof fn law_matching_executables(
    bundled_path: Seq<u8>,
    release_path: Seq<u8>,
    facts: ExecutableFacts,
    closeness: ExecutableMatch,
)
    ensures
        executables_outcome(bundled_path, release_path, facts, closeness) is Ok <==> {
            &&& facts.bundled matches Ok(bundled) && bundled.is_file && bundled.length != 0
                && bundled.mode & 0o111u32 != 0
            &&& facts.release matches Ok(release) && release.is_file && release.length != 0
            &&& read(facts.bundled_bytes) is Ok && read(facts.release_bytes) is Ok
            &&& identity(read(facts.bundled_bytes)->Ok_0) is Ok
            &&& identity(read(facts.bundled_bytes)->Ok_0) == identity(
                read(facts.release_bytes)->Ok_0,
            )
            &&& closeness == ExecutableMatch::Exact ==> read(facts.bundled_bytes) == read(
                facts.release_bytes,
            )
        },
{
    if facts.bundled_bytes is Ok && facts.release_bytes is Ok {
        let b = identity(read(facts.bundled_bytes)->Ok_0);
        let r = identity(read(facts.release_bytes)->Ok_0);
        if b is Ok && r is Ok {
            assert(b->Ok_0.cpu_type == r->Ok_0.cpu_type && b->Ok_0.cpu_subtype
                == r->Ok_0.cpu_subtype && b->Ok_0.uuid == r->Ok_0.uuid ==> b->Ok_0 == r->Ok_0);
        }
    }
}

/// A file that must not be empty is accepted where, and only where, it is there, is a regular file and
/// has a byte or more.
pub proof fn law_required_files_are_not_empty(
    path: Seq<u8>,
    description: Seq<char>,
    facts: Result<FileFacts, Seq<char>>,
)
    ensures
        nonempty_outcome(path, description, facts) is Ok <==> (facts matches Ok(file) && file.is_file
            && file.length >= 1),
{
}

/// A file that must be identical is accepted where, and only where, both can be read and every byte is
/// the same.
pub proof fn law_identical_files_have_the_same_bytes(
    expected: Result<Seq<u8>, Seq<char>>,
    path: Seq<u8>,
    actual: Result<Seq<u8>, Seq<char>>,
    message: Seq<char>,
)
    ensures
        identical_outcome(expected, path, actual, message) is Ok <==> expected is Ok && actual is Ok
            && expected->Ok_0.len() == actual->Ok_0.len() && forall|i: int|
            0 <= i < expected->Ok_0.len() ==> expected->Ok_0[i] == actual->Ok_0[i],
{
    if expected is Ok && actual is Ok && expected->Ok_0.len() == actual->Ok_0.len() && (forall|i: int|
        0 <= i < expected->Ok_0.len() ==> expected->Ok_0[i] == actual->Ok_0[i]) {
        assert(expected->Ok_0 =~= actual->Ok_0);
    }
}

/// Whether a property list gives this key this text. One that is not there counts as empty.
pub open spec fn is_given(info: Seq<(Seq<char>, Item)>, key: Seq<char>, text: Seq<char>) -> bool {
    string_at(info, key) == Some(text) || string_at(info, key) is None && text.len() == 0
}

/// A property list is accepted where, and only where, it is that of an application, with the
/// identifier, version, minimum system version and copyright of the manifest, and without the obsolete
/// key.
pub proof fn law_property_lists_that_are_accepted(
    path: Seq<u8>,
    info: Seq<(Seq<char>, Item)>,
    metadata: Metadata,
)
    ensures
        info_outcome(path, info, metadata) is Ok <==> {
            &&& string_at(info, "CFBundlePackageType"@) == Some("APPL"@)
            &&& is_given(info, "CFBundleIdentifier"@, metadata.identifier)
            &&& is_given(info, "CFBundleShortVersionString"@, metadata.version)
            &&& is_given(info, "LSMinimumSystemVersion"@, metadata.minimum_system_version)
            &&& is_given(info, "NSHumanReadableCopyright"@, metadata.copyright)
            &&& position(info, "LSRequiresCarbon"@) is None
        },
{
    reveal_strlit("APPL");
    lemma_is_given(info, "CFBundlePackageType"@, "APPL"@);
    lemma_is_given(info, "CFBundleIdentifier"@, metadata.identifier);
    lemma_is_given(info, "CFBundleShortVersionString"@, metadata.version);
    lemma_is_given(info, "LSMinimumSystemVersion"@, metadata.minimum_system_version);
    lemma_is_given(info, "NSHumanReadableCopyright"@, metadata.copyright);
}

proof fn lemma_is_given(info: Seq<(Seq<char>, Item)>, key: Seq<char>, text: Seq<char>)
    ensures
        key_outcome(info, key, text) is Ok <==> is_given(info, key, text),
{
    if text.len() == 0 {
        assert(text =~= Seq::<char>::empty());
    }
}

/// The obsolete key is taken out of the property list of the app, and nothing else is.
pub proof fn law_only_the_carbon_key_is_taken_out(
    path: Seq<u8>,
    bytes: Seq<u8>,
    info: Seq<(Seq<char>, Item)>,
    key: Seq<char>,
) -> (kept: Seq<(Seq<char>, Item)>)
    requires
        read_entries(bytes) == Ok::<Option<Seq<(Seq<char>, Item)>>, Seq<char>>(Some(info)),
        has_distinct_names(info),
    ensures
        without_carbon_key(path, Ok(bytes)) == written_entries(kept),
        position(kept, "LSRequiresCarbon"@) is None,
        forall|entry: (Seq<char>, Item)|
            entry.0 != "LSRequiresCarbon"@ ==> (kept.contains(entry) <==> #[trigger] info.contains(
                entry,
            )),
        key != "LSRequiresCarbon"@ ==> string_at(kept, key) == string_at(info, key),
{
    let kept = without(info, "LSRequiresCarbon"@);
    law_removed_is_gone(info, "LSRequiresCarbon"@);
    if key != "LSRequiresCarbon"@ {
        law_removing_keeps_other_strings(info, "LSRequiresCarbon"@, key);
    }
    assert forall|entry: (Seq<char>, Item)| entry.0 != "LSRequiresCarbon"@ implies (kept.contains(
        entry,
    ) <==> #[trigger] info.contains(entry)) by {
        law_removing_keeps_the_rest(info, "LSRequiresCarbon"@, entry);
    }
    kept
}

/// The executable of an app is the file that its property list names, right in its directory for
/// executables. What is no plain name names none.
pub proof fn law_executables_are_plain_names(app: Seq<u8>, info: Seq<(Seq<char>, Item)>)
    ensures
        executable_path(app, info) is Ok <==> (string_at(info, "CFBundleExecutable"@) matches Some(
            name,
        ) && file_name(encode_utf8(name)) == Some(encode_utf8(name))),
        executable_path(app, info) is Ok ==> executable_path(app, info)->Ok_0 == joined(
            joined(app, encode_utf8("Contents/MacOS"@)),
            encode_utf8(string_at(info, "CFBundleExecutable"@)->Some_0),
        ),
{
}

/// Notices are accepted where, and only where, no entity is left escaped anywhere in them, and some line
/// attributes a crate.
pub proof fn law_notices_that_are_accepted(path: Seq<u8>, notices: Seq<char>)
    ensures
        notices_outcome(path, notices) is Ok <==> {
            &&& !occurs(notices, "&quot;"@)
            &&& !occurs(notices, "&#x27;"@)
            &&& !occurs(notices, "&amp;"@)
            &&& exists|i: int|
                0 <= i < text_lines(notices).len() && "- ["@.is_prefix_of(
                    #[trigger] text_lines(notices)[i],
                )
        },
        notices_outcome(path, notices) is Ok ==> notices_outcome(path, notices)->Ok_0 == attributions(
            notices,
        ),
{
    let rows = text_lines(notices);
    let kept = |line: Seq<char>| is_attribution(line);
    if attributions(notices) > 0 {
        let i = lemma_kept_is_wanted(rows, kept, 0);
        assert("- ["@.is_prefix_of(rows[i]));
    }
    if exists|i: int| 0 <= i < rows.len() && "- ["@.is_prefix_of(#[trigger] rows[i]) {
        let i = choose|i: int| 0 <= i < rows.len() && "- ["@.is_prefix_of(#[trigger] rows[i]);
        lemma_wanted_is_kept(rows, kept, i);
    }
}

/// The number of attributed crates is that of the lines that attribute one, each of which counts once.
pub proof fn law_attributions_are_counted_by_line(before: Seq<char>, line: Seq<char>)
    requires
        before.len() == 0 || before.last() == '\n',
        line.len() > 0,
        !line.contains('\n'),
    ensures
        attributions(Seq::empty()) == 0,
        "- ["@.is_prefix_of(line) ==> attributions(before + line) == attributions(before) + 1,
        !"- ["@.is_prefix_of(line) ==> attributions(before + line) == attributions(before),
{
    let kept = |row: Seq<char>| is_attribution(row);
    reveal(Seq::filter);
    law_lines_end_at_newlines(line, Seq::empty());
    assert(text_lines(line) == seq![line]);
    if before.len() > 0 {
        law_lines_follow_each_other(before, line);
    } else {
        assert(before =~= Seq::<char>::empty());
        assert(before + line =~= line);
        assert(text_lines(before) + seq![line] =~= seq![line]);
    }
    let rows = text_lines(before) + seq![line];
    assert(rows.drop_last() =~= text_lines(before));
    assert(rows.last() == line);
    assert(text_lines(before + line) == rows);
}

/// The license and the notices of an app are accepted where, and only where, the license is that of the
/// repository byte for byte, both notices are files that are not empty and have the same bytes, and
/// these are accepted notices.
pub proof fn law_legal_files_that_are_accepted(root: Seq<u8>, app: Seq<u8>, facts: LegalFacts)
    ensures
        legal_outcome(root, app, facts) is Ok <==> {
            &&& facts.license is Ok
            &&& facts.bundled_license is Ok
            &&& facts.license->Ok_0@ == facts.bundled_license->Ok_0@
            &&& facts.notices matches Ok(file) && file.is_file && file.length > 0
            &&& facts.bundled_notices matches Ok(file) && file.is_file && file.length > 0
            &&& facts.notices_bytes is Ok
            &&& facts.bundled_notices_bytes is Ok
            &&& facts.notices_bytes->Ok_0@ == facts.bundled_notices_bytes->Ok_0@
            &&& decoded(facts.bundled_notices_bytes->Ok_0@) is Ok
            &&& notices_outcome(
                joined(
                    app,
                    encode_utf8("Contents/Resources/Legal/THIRD-PARTY-NOTICES.md"@),
                ),
                decoded(facts.bundled_notices_bytes->Ok_0@)->Ok_0,
            ) is Ok
        },
        legal_outcome(root, app, facts) is Ok ==> legal_outcome(root, app, facts)->Ok_0
            == attributions(decoded(facts.bundled_notices_bytes->Ok_0@)->Ok_0),
        facts.license is Ok && facts.bundled_license is Ok && facts.license->Ok_0@
            != facts.bundled_license->Ok_0@ ==> legal_outcome(root, app, facts) == Err::<
            nat,
            Seq<char>,
        >(
            "bundled license differs from LICENSE"@ + ": "@ + lossy(
                joined(app, encode_utf8("Contents/Resources/Legal/AGPL-3.0-or-later.txt"@)),
            ),
        ),
{
}

/// A match is reported with the path, the digest, the UUID and the CPU of both executables.
pub proof fn law_matches_are_reported_with_both_identities(
    bundled_path: Seq<u8>,
    release_path: Seq<u8>,
    facts: ExecutableFacts,
    closeness: ExecutableMatch,
)
    requires
        executables_outcome(bundled_path, release_path, facts, closeness) is Ok,
    ensures
        ({
            let bundled = facts.bundled_bytes->Ok_0@;
            let release = facts.release_bytes->Ok_0@;
            let one = identity(bundled)->Ok_0;
            let other = identity(release)->Ok_0;
            executables_outcome(bundled_path, release_path, facts, closeness)->Ok_0
                == "matched executable identity: "@ + (lossy(bundled_path) + " SHA-256 "@
                + sha256_text(bundled) + " UUID "@ + uuid_text(one.uuid) + " ("@ + cpu_name(
                one.cpu_type as u32,
            ) + " subtype "@ + hex_word(one.cpu_subtype as u32) + ")"@) + "; "@ + (lossy(release_path)
                + " SHA-256 "@ + sha256_text(release) + " UUID "@ + uuid_text(other.uuid) + " ("@
                + cpu_name(other.cpu_type as u32) + " subtype "@ + hex_word(
                other.cpu_subtype as u32,
            ) + ")"@)
        }),
{
}

/// A dictionary is taken from a property list that can be read and holds one, and from no other.
pub proof fn law_dictionaries_are_taken_from_property_lists(
    contents: Result<Seq<u8>, Seq<char>>,
    otherwise: Seq<char>,
)
    ensures
        dictionary_in(contents, otherwise) is Ok <==> contents is Ok && read_entries(contents->Ok_0)
            is Ok && read_entries(contents->Ok_0)->Ok_0 is Some,
        dictionary_in(contents, otherwise) is Ok ==> read_entries(contents->Ok_0)->Ok_0 == Some(
            dictionary_in(contents, otherwise)->Ok_0,
        ),
{
}

} // verus!
