//! Who signs the app, and what a signature must say.

use vstd::prelude::*;
use vstd::slice::slice_subrange;
use vstd::utf8::encode_utf8;

use crate::bytes::read;
use crate::command::{
    attempt, call, command_output, completed, with, with_text, Call, CommandOutput, Invocation,
    Output,
};
use crate::encoding::{decode, decoded, lossy, lossy_text};
use crate::failure::{failure, outcome, text_outcome, Failure};
use crate::path::{below, is_below};
use crate::text::{
    any_line_starts, before_suffix, chars_of, contains_text, find_after, find_last, first_after,
    first_index, join2, join3, join4, last_occurrence, law_found_values_stand_in_a_line,
    law_last_occurrence_is_last, lemma_first_index, lemma_first_index_bounds, lines, occurs,
    occurs_at, piece, pieces, same_text, some_line_starts, spells, split_words, starts_with,
    strip_suffix, text_lines, text_of, texts, trim, trim_start, trimmed, trimmed_start, words,
};

verus! {

/// The environment variable that overrides the installed signing identity.
pub const SIGNING_IDENTITY_ENV: &'static str = "NEO_SIGNING_IDENTITY";

/// The environment variable that holds the identifier of the team that must sign.
pub const SIGNING_TEAM_IDENTIFIER_ENV: &'static str = "NEO_SIGNING_TEAM_IDENTIFIER";

/// How the name of an acceptable identity starts.
pub const AUTHORITY: &'static str = "Developer ID Application:";

/// A signing identity, and the sentence that tells where it comes from.
#[derive(Debug)]
pub struct ChosenIdentity {
    pub identity: String,
    pub report: String,
}

/// A result with a chosen identity replaced by its two texts, and a refusal by its text.
pub open spec fn choice(result: Result<ChosenIdentity, Failure>) -> Result<
    (Seq<char>, Seq<char>),
    Seq<char>,
> {
    match result {
        Ok(chosen) => Ok((chosen.identity@, chosen.report@)),
        Err(refusal) => Err(refusal@),
    }
}

/// What an identity is told that the environment names.
pub open spec fn identity_outcome(identity: Seq<char>) -> Result<(), Seq<char>> {
    if AUTHORITY@.is_prefix_of(identity) {
        Ok(())
    } else {
        Err(SIGNING_IDENTITY_ENV@ + " must start with Developer ID Application:"@)
    }
}

/// Refuses an identity of any other kind than Developer ID Application.
pub fn validate_signing_identity(identity: &str) -> (result: Result<(), Failure>)
    ensures
        outcome(result) == identity_outcome(identity@),
{
    if !starts_with(chars_of(identity).as_slice(), AUTHORITY) {
        return Err(
            Failure {
                message: join2(
                    SIGNING_IDENTITY_ENV,
                    " must start with Developer ID Application:",
                ),
            },
        );
    }
    Ok(())
}

/// The identity that the override names.
pub open spec fn override_outcome(value: Seq<u8>) -> Result<(Seq<char>, Seq<char>), Seq<char>> {
    match decoded(value) {
        Err(_) => Err(SIGNING_IDENTITY_ENV@ + " must contain valid Unicode"@),
        Ok(identity) => if trim(identity).len() == 0 {
            Err(SIGNING_IDENTITY_ENV@ + " is empty"@)
        } else {
            match identity_outcome(identity) {
                Err(refusal) => Err(refusal),
                Ok(()) => Ok(
                    (
                        identity,
                        "using signing identity from "@ + SIGNING_IDENTITY_ENV@ + ": "@ + identity,
                    ),
                ),
            }
        },
    }
}

/// The identity that the override names.
pub fn override_identity(value: &[u8]) -> (result: Result<ChosenIdentity, Failure>)
    ensures
        choice(result) == override_outcome(value@),
{
    let identity = match decode(value) {
        Ok(identity) => identity,
        Err(_) => return Err(
            Failure { message: join2(SIGNING_IDENTITY_ENV, " must contain valid Unicode") },
        ),
    };
    if trimmed(chars_of(identity.as_str()).as_slice()).len() == 0 {
        return Err(Failure { message: join2(SIGNING_IDENTITY_ENV, " is empty") });
    }
    match validate_signing_identity(identity.as_str()) {
        Ok(()) => {},
        Err(refusal) => return Err(refusal),
    }
    let report = join4(
        "using signing identity from ",
        SIGNING_IDENTITY_ENV,
        ": ",
        identity.as_str(),
    );
    Ok(ChosenIdentity { identity, report })
}

/// The identity that a line of the keychain's listing names between its first and its last quote.
pub open spec fn listed_identity(line: Seq<char>) -> Option<Seq<char>> {
    let start = first_index(line, '"') + 1;
    let end = last_occurrence(line, seq!['"']);
    if occurs(line, "\"Developer ID Application:"@) && end > start {
        Some(line.subrange(start, end))
    } else {
        None
    }
}

/// The identities that the keychain's listing names.
pub open spec fn listed_identities(listing: Seq<char>) -> Seq<Seq<char>> {
    text_lines(listing).filter_map(|line: Seq<char>| listed_identity(line))
}

/// The command that lists the identities of the keychain.
pub open spec fn listing_call() -> Call {
    with_text(
        with_text(
            with_text(with_text(call("security"@), "find-identity"@), "-v"@),
            "-p"@,
        ),
        "codesigning"@,
    )
}

/// The command that lists the identities of the keychain.
pub fn listing_command() -> (command: Invocation)
    ensures
        command@ == listing_call(),
{
    Invocation::new("security").text("find-identity").text("-v").text("-p").text("codesigning")
}

/// The identity that is chosen of those listed: the only one.
pub open spec fn only_identity(identities: Seq<Seq<char>>) -> Result<
    (Seq<char>, Seq<char>),
    Seq<char>,
> {
    if identities.len() == 1 {
        Ok((identities[0], "selected signing identity: "@ + identities[0]))
    } else if identities.len() == 0 {
        Err(
            "no Developer ID Application identity found; set "@ + SIGNING_IDENTITY_ENV@
                + " to override"@,
        )
    } else {
        Err(
            "multiple Developer ID Application identities found; set "@ + SIGNING_IDENTITY_ENV@
                + " to choose one"@,
        )
    }
}

/// The identity that is installed in the keychain.
pub open spec fn installed_outcome(listing: Result<Output, Seq<char>>) -> Result<
    (Seq<char>, Seq<char>),
    Seq<char>,
> {
    match completed(listing_call(), listing) {
        Err(refusal) => Err(refusal),
        Ok(listed) => match decoded(listed) {
            Err(fault) => Err(fault),
            Ok(text) => only_identity(listed_identities(text)),
        },
    }
}

/// The index of the first quote in `line`, or its length.
fn find_quote(line: &[char]) -> (found: usize)
    ensures
        found == first_index(line@, '"'),
        found <= line@.len(),
{
    let mut i: usize = 0;
    while i < line.len() && line[i] != '"'
        invariant
            i <= line@.len(),
            forall|k: int| 0 <= k < i ==> line@[k] != '"',
        decreases line@.len() - i,
    {
        i += 1;
    }
    proof {
        lemma_first_index(line@, '"', i as int);
    }
    i
}

/// The identity that a line of the keychain's listing names.
fn identity_in_line(line: &[char]) -> (identity: Option<String>)
    ensures
        match identity {
            Some(identity) => listed_identity(line@) == Some(identity@),
            None => listed_identity(line@) is None,
        },
{
    if !contains_text(line, "\"Developer ID Application:") {
        return None;
    }
    let quote = find_quote(line);
    proof {
        reveal_strlit("\"");
        assert("\""@ == seq!['"']);
    }
    match find_last(line, "\"") {
        Some(end) => if end > quote && end - quote > 1 {
            Some(text_of(slice_subrange(line, quote + 1, end)))
        } else {
            None
        },
        None => None,
    }
}

/// The identities that the keychain's listing names.
fn identities_in(listing: &str) -> (identities: Vec<String>)
    ensures
        texts(identities@) == listed_identities(listing@),
{
    let chars = chars_of(listing);
    let rows = lines(chars.as_slice());
    let ghost all = pieces(rows@);
    let ghost named = |line: Seq<char>| listed_identity(line);
    let mut identities: Vec<String> = Vec::new();
    let mut i: usize = 0;
    assert(texts(identities@) == all.take(0).filter_map(named));
    while i < rows.len()
        invariant
            i <= rows@.len(),
            all == pieces(rows@),
            named == (|line: Seq<char>| listed_identity(line)),
            texts(identities@) == all.take(i as int).filter_map(named),
        decreases rows@.len() - i,
    {
        let ghost before = texts(identities@);
        proof {
            assert(all.take(i + 1).drop_last() == all.take(i as int));
            assert(all.take(i + 1).last() == rows@[i as int]@);
        }
        match identity_in_line(rows[i]) {
            Some(identity) => {
                let ghost text = identity@;
                identities.push(identity);
                assert(texts(identities@) == before + seq![text]);
            },
            None => {},
        }
        i += 1;
    }
    assert(all.take(i as int) == all);
    identities
}

/// The identity that is installed in the keychain, where it lists exactly one.
pub fn installed_identity(listing: &Result<CommandOutput, String>) -> (result: Result<
    ChosenIdentity,
    Failure,
>)
    ensures
        choice(result) == installed_outcome(attempt(*listing)),
{
    let command = listing_command();
    let listed = match command_output(&command, listing) {
        Ok(listed) => listed,
        Err(refusal) => return Err(refusal),
    };
    let text = match decode(listed) {
        Ok(text) => text,
        Err(fault) => return Err(failure(fault.as_str())),
    };
    let identities = identities_in(text.as_str());
    assert(texts(identities@).len() == identities@.len());
    if identities.len() == 1 {
        assert(texts(identities@)[0] == identities@[0]@);
        let identity = identities[0].as_str().to_string();
        let report = join2("selected signing identity: ", identity.as_str());
        Ok(ChosenIdentity { identity, report })
    } else if identities.len() == 0 {
        Err(
            Failure {
                message: join3(
                    "no Developer ID Application identity found; set ",
                    SIGNING_IDENTITY_ENV,
                    " to override",
                ),
            },
        )
    } else {
        Err(
            Failure {
                message: join3(
                    "multiple Developer ID Application identities found; set ",
                    SIGNING_IDENTITY_ENV,
                    " to choose one",
                ),
            },
        )
    }
}

/// The identity that signs: that of the override where it is set, whatever is installed, else the only
/// one that is installed.
pub open spec fn chosen_identity(
    value: Option<Seq<u8>>,
    listing: Result<Output, Seq<char>>,
) -> Result<(Seq<char>, Seq<char>), Seq<char>> {
    match value {
        Some(value) => override_outcome(value),
        None => installed_outcome(listing),
    }
}

/// The identity that signs, by the value of the override and, where it is not set, by what the command
/// that lists the keychain gave.
pub fn signing_identity(value: Option<&[u8]>, listing: &Result<CommandOutput, String>) -> (result:
    Result<ChosenIdentity, Failure>)
    ensures
        choice(result) == chosen_identity(piece(value), attempt(*listing)),
{
    match value {
        Some(value) => override_identity(value),
        None => installed_identity(listing),
    }
}

/// The team identifier that an identity ends with, in brackets after a space.
pub open spec fn team_of(identity: Seq<char>) -> Result<Seq<char>, Seq<char>> {
    match before_suffix(identity, ")"@) {
        Some(open) => {
            let at = last_occurrence(open, " ("@);
            if at >= 0 && at + 2 < open.len() {
                Ok(open.skip(at + 2))
            } else {
                Err("Developer ID Application identity has no team identifier"@)
            }
        },
        None => Err("Developer ID Application identity has no team identifier"@),
    }
}

/// The team identifier that an identity ends with.
pub fn signing_team_identifier(identity: &str) -> (result: Result<String, Failure>)
    ensures
        text_outcome(result) == team_of(identity@),
{
    let chars = chars_of(identity);
    proof {
        reveal_strlit(" (");
    }
    match strip_suffix(chars.as_slice(), ")") {
        Some(open) => match find_last(open, " (") {
            Some(at) => {
                let length = open.len();
                let team = slice_subrange(open, at + 2, length);
                assert(team@ == open@.skip(at + 2));
                if team.len() > 0 {
                    return Ok(text_of(team));
                }
            },
            None => {},
        },
        None => {},
    }
    Err(failure("Developer ID Application identity has no team identifier"))
}

/// Whether a character may stand in a team identifier.
pub open spec fn team_char(c: char) -> bool {
    'A' <= c <= 'Z' || '0' <= c <= '9'
}

/// Whether a text has the form of a team identifier.
pub open spec fn is_team_identifier(text: Seq<char>) -> bool {
    text.len() == 10 && forall|i: int| 0 <= i < text.len() ==> team_char(#[trigger] text[i])
}

/// The team identifier that the environment asks for.
pub open spec fn configured_team(value: Option<Seq<u8>>) -> Result<Seq<char>, Seq<char>> {
    match value {
        None => Err(
            SIGNING_TEAM_IDENTIFIER_ENV@
                + " is not set; set it to the 10-character Apple Developer team identifier before signing or notarizing"@,
        ),
        Some(value) => match decoded(value) {
            Err(_) => Err(SIGNING_TEAM_IDENTIFIER_ENV@ + " must contain valid Unicode"@),
            Ok(text) => if is_team_identifier(text) {
                Ok(text)
            } else {
                Err(
                    SIGNING_TEAM_IDENTIFIER_ENV@
                        + " must be a 10-character uppercase ASCII team identifier"@,
                )
            },
        },
    }
}

/// Whether a text has the form of a team identifier.
fn has_team_form(chars: &[char]) -> (r: bool)
    ensures
        r == is_team_identifier(chars@),
{
    if chars.len() != 10 {
        return false;
    }
    let mut i: usize = 0;
    while i < chars.len()
        invariant
            i <= chars@.len(),
            forall|k: int| 0 <= k < i ==> team_char(#[trigger] chars@[k]),
        decreases chars@.len() - i,
    {
        let c = chars[i];
        if !(('A' <= c && c <= 'Z') || ('0' <= c && c <= '9')) {
            assert(!team_char(chars@[i as int]));
            return false;
        }
        i += 1;
    }
    true
}

/// The team identifier that the environment asks for. Without one, and with anything that is none,
/// there is nothing to sign or notarize for.
pub fn configured_signing_team_identifier(value: Option<&[u8]>) -> (result: Result<
    String,
    Failure,
>)
    ensures
        text_outcome(result) == configured_team(crate::text::piece(value)),
{
    let value = match value {
        Some(value) => value,
        None => return Err(
            Failure {
                message: join2(
                    SIGNING_TEAM_IDENTIFIER_ENV,
                    " is not set; set it to the 10-character Apple Developer team identifier before signing or notarizing",
                ),
            },
        ),
    };
    let text = match decode(value) {
        Ok(text) => text,
        Err(_) => return Err(
            Failure { message: join2(SIGNING_TEAM_IDENTIFIER_ENV, " must contain valid Unicode") },
        ),
    };
    if !has_team_form(chars_of(text.as_str()).as_slice()) {
        return Err(
            Failure {
                message: join2(
                    SIGNING_TEAM_IDENTIFIER_ENV,
                    " must be a 10-character uppercase ASCII team identifier",
                ),
            },
        );
    }
    Ok(text)
}

/// What the team of an identity is told.
pub open spec fn team_outcome(actual: Seq<char>, expected: Seq<char>) -> Result<(), Seq<char>> {
    if actual == expected {
        Ok(())
    } else {
        Err(
            "signing identity team "@ + actual + " does not match "@ + SIGNING_TEAM_IDENTIFIER_ENV@,
        )
    }
}

/// Refuses an identity of any other team than the one asked for.
pub fn verify_signing_team_identifier(actual: &str, expected: &str) -> (result: Result<
    (),
    Failure,
>)
    ensures
        outcome(result) == team_outcome(actual@, expected@),
{
    if !same_text(actual, expected) {
        return Err(
            Failure {
                message: join4(
                    "signing identity team ",
                    actual,
                    " does not match ",
                    SIGNING_TEAM_IDENTIFIER_ENV,
                ),
            },
        );
    }
    Ok(())
}

/// Whether a line, its indentation aside, names an authority of the right kind.
pub open spec fn names_authority(line: Seq<char>) -> bool {
    "Authority=Developer ID Application:"@.is_prefix_of(trim_start(line))
}

/// Whether one of the words of a line holds the flag of the hardened runtime.
pub open spec fn has_runtime_flag(line: Seq<char>) -> bool {
    exists|i: int|
        0 <= i < words(line, true).len() && "flags="@.is_prefix_of(
            #[trigger] words(line, true)[i],
        ) && occurs(words(line, true)[i], "runtime"@)
}

/// Whether one of `lines` names an authority of the right kind.
pub open spec fn some_authority(lines: Seq<Seq<char>>) -> bool {
    exists|i: int| 0 <= i < lines.len() && names_authority(#[trigger] lines[i])
}

/// Whether one of `lines` holds the flag of the hardened runtime.
pub open spec fn some_runtime_flag(lines: Seq<Seq<char>>) -> bool {
    exists|i: int| 0 <= i < lines.len() && has_runtime_flag(#[trigger] lines[i])
}

/// What the details of a signature are told.
pub open spec fn signature_outcome(
    details: Seq<char>,
    expected_identifier: Option<Seq<char>>,
    expected_team: Seq<char>,
) -> Result<(), Seq<char>> {
    let rows = text_lines(details);
    if !some_authority(rows) {
        Err("codesign output has no Developer ID Application authority"@)
    } else if !some_runtime_flag(rows) {
        Err("codesign output has no hardened runtime flag"@)
    } else if !some_line_starts(rows, "Timestamp="@) {
        Err("codesign output has no secure Timestamp line"@)
    } else if some_line_starts(rows, "Signed Time="@) {
        Err("codesign output has Signed Time instead of a secure timestamp"@)
    } else {
        match first_after(rows, "TeamIdentifier="@) {
            None => Err("codesign output has no TeamIdentifier"@),
            Some(team) => if team != expected_team {
                Err("signature TeamIdentifier "@ + team + " does not match "@ + expected_team)
            } else {
                match first_after(rows, "Identifier="@) {
                    None => Err("codesign output has no Identifier"@),
                    Some(identifier) => match expected_identifier {
                        Some(expected) => if identifier != expected {
                            Err(
                                "signature Identifier "@ + identifier
                                    + " does not match CFBundleIdentifier "@ + expected,
                            )
                        } else {
                            Ok(())
                        },
                        None => Ok(()),
                    },
                }
            },
        }
    }
}

/// Whether a line names an authority of the right kind.
fn line_names_authority(line: &[char]) -> (r: bool)
    ensures
        r == names_authority(line@),
{
    starts_with(trimmed_start(line), "Authority=Developer ID Application:")
}

/// Whether one of the words of a line holds the flag of the hardened runtime.
fn line_has_runtime_flag(line: &[char]) -> (r: bool)
    ensures
        r == has_runtime_flag(line@),
{
    let fields = split_words(line, true);
    let ghost all = pieces(fields@);
    let mut i: usize = 0;
    while i < fields.len()
        invariant
            i <= fields@.len(),
            all == pieces(fields@),
            all == words(line@, true),
            forall|k: int|
                0 <= k < i ==> !("flags="@.is_prefix_of(#[trigger] all[k]) && occurs(
                    all[k],
                    "runtime"@,
                )),
        decreases fields@.len() - i,
    {
        assert(all[i as int] == fields@[i as int]@);
        if starts_with(fields[i], "flags=") && contains_text(fields[i], "runtime") {
            return true;
        }
        i += 1;
    }
    false
}

/// Whether one of `rows` names an authority of the right kind.
fn any_authority(rows: &Vec<&[char]>) -> (r: bool)
    ensures
        r == some_authority(pieces(rows@)),
{
    let mut i: usize = 0;
    while i < rows.len()
        invariant
            i <= rows@.len(),
            forall|k: int| 0 <= k < i ==> !names_authority(#[trigger] pieces(rows@)[k]),
        decreases rows@.len() - i,
    {
        assert(pieces(rows@)[i as int] == rows@[i as int]@);
        if line_names_authority(rows[i]) {
            return true;
        }
        i += 1;
    }
    false
}

/// Whether one of `rows` holds the flag of the hardened runtime.
fn any_runtime_flag(rows: &Vec<&[char]>) -> (r: bool)
    ensures
        r == some_runtime_flag(pieces(rows@)),
{
    let mut i: usize = 0;
    while i < rows.len()
        invariant
            i <= rows@.len(),
            forall|k: int| 0 <= k < i ==> !has_runtime_flag(#[trigger] pieces(rows@)[k]),
        decreases rows@.len() - i,
    {
        assert(pieces(rows@)[i as int] == rows@[i as int]@);
        if line_has_runtime_flag(rows[i]) {
            return true;
        }
        i += 1;
    }
    false
}

/// A text that may be missing.
pub open spec fn maybe_text(text: Option<&str>) -> Option<Seq<char>> {
    match text {
        Some(text) => Some(text@),
        None => None,
    }
}

/// Refuses a signature without a Developer ID authority, the hardened runtime or a secure timestamp,
/// and one by another team or for another bundle.
pub fn validate_signature_details(
    details: &str,
    expected_identifier: Option<&str>,
    expected_team_identifier: &str,
) -> (result: Result<(), Failure>)
    ensures
        outcome(result) == signature_outcome(
            details@,
            maybe_text(expected_identifier),
            expected_team_identifier@,
        ),
{
    let chars = chars_of(details);
    let rows = lines(chars.as_slice());
    if !any_authority(&rows) {
        return Err(failure("codesign output has no Developer ID Application authority"));
    }
    if !any_runtime_flag(&rows) {
        return Err(failure("codesign output has no hardened runtime flag"));
    }
    if !any_line_starts(&rows, "Timestamp=") {
        return Err(failure("codesign output has no secure Timestamp line"));
    }
    if any_line_starts(&rows, "Signed Time=") {
        return Err(failure("codesign output has Signed Time instead of a secure timestamp"));
    }
    let team = match find_after(&rows, "TeamIdentifier=") {
        Some(team) => team,
        None => return Err(failure("codesign output has no TeamIdentifier")),
    };
    if !spells(team, expected_team_identifier) {
        let shown = text_of(team);
        return Err(
            Failure {
                message: join4(
                    "signature TeamIdentifier ",
                    shown.as_str(),
                    " does not match ",
                    expected_team_identifier,
                ),
            },
        );
    }
    let identifier = match find_after(&rows, "Identifier=") {
        Some(identifier) => identifier,
        None => return Err(failure("codesign output has no Identifier")),
    };
    match expected_identifier {
        Some(expected) => if !spells(identifier, expected) {
            let shown = text_of(identifier);
            return Err(
                Failure {
                    message: join4(
                        "signature Identifier ",
                        shown.as_str(),
                        " does not match CFBundleIdentifier ",
                        expected,
                    ),
                },
            );
        },
        None => {},
    }
    Ok(())
}

/// The executable that the details of a signature name.
pub open spec fn executable_of(details: Seq<char>) -> Result<Seq<char>, Seq<char>> {
    match first_after(text_lines(details), "Executable="@) {
        Some(executable) => Ok(executable),
        None => Err("codesign output has no Executable path"@),
    }
}

/// The executable that the details of a signature name.
pub fn signed_executable(details: &str) -> (result: Result<String, Failure>)
    ensures
        text_outcome(result) == executable_of(details@),
{
    let chars = chars_of(details);
    let rows = lines(chars.as_slice());
    match find_after(&rows, "Executable=") {
        Some(executable) => Ok(text_of(executable)),
        None => Err(failure("codesign output has no Executable path")),
    }
}

/// What a signed executable is told, by its own canonical path and that of the app.
pub open spec fn placement_outcome(
    executable: Result<Seq<u8>, Seq<char>>,
    app: Result<Seq<u8>, Seq<char>>,
) -> Result<(), Seq<char>> {
    match executable {
        Err(fault) => Err(fault),
        Ok(executable) => match app {
            Err(fault) => Err(fault),
            Ok(app) => if below(executable, app) {
                Ok(())
            } else {
                Err(
                    "signed executable resolves outside the app bundle: "@ + lossy(executable),
                )
            },
        },
    }
}

/// Refuses an executable that lies outside the app, by their canonical paths.
pub fn require_placement(executable: &[u8], app: &[u8]) -> (result: Result<(), Failure>)
    ensures
        outcome(result) == placement_outcome(Ok(executable@), Ok(app@)),
{
    if is_below(executable, app) {
        return Ok(());
    }
    let shown = lossy_text(executable);
    Err(
        Failure {
            message: join2("signed executable resolves outside the app bundle: ", shown.as_str()),
        },
    )
}

/// Refuses a signature whose executable lies outside the app. The two paths are what resolving the
/// executable that the details name, and the app, gave.
pub fn validate_signature_executable(
    details: &str,
    executable: &Result<Vec<u8>, String>,
    app: &Result<Vec<u8>, String>,
) -> (result: Result<(), Failure>)
    ensures
        outcome(result) == (match executable_of(details@) {
            Err(refusal) => Err(refusal),
            Ok(_) => placement_outcome(read(*executable), read(*app)),
        }),
{
    match signed_executable(details) {
        Ok(_) => {},
        Err(refusal) => return Err(refusal),
    }
    let executable = match executable {
        Ok(executable) => executable,
        Err(fault) => return Err(failure(fault.as_str())),
    };
    match app {
        Ok(app) => require_placement(executable.as_slice(), app.as_slice()),
        Err(fault) => Err(failure(fault.as_str())),
    }
}

/// The command that signs an item.
pub open spec fn sign_call(identity: Seq<char>, entitlements: Seq<u8>, item: Seq<u8>) -> Call {
    let command = with_text(with_text(call("codesign"@), "--force"@), "--sign"@);
    let command = with_text(with_text(with_text(command, identity), "--options"@), "runtime"@);
    with(
        with(with_text(with_text(command, "--timestamp"@), "--entitlements"@), entitlements),
        item,
    )
}

/// The command that signs an item.
pub fn sign_command(identity: &str, entitlements: &[u8], item: &[u8]) -> (command: Invocation)
    ensures
        command@ == sign_call(identity@, entitlements@, item@),
{
    Invocation::new("codesign").text("--force").text("--sign").text(identity).text(
        "--options",
    ).text("runtime").text("--timestamp").text("--entitlements").arg(entitlements).arg(item)
}

/// The command that tells the details of a signature.
pub open spec fn details_call(item: Seq<u8>) -> Call {
    with(with_text(call("codesign"@), "-dvvv"@), item)
}

/// The command that tells the details of a signature.
pub fn details_command(item: &[u8]) -> (command: Invocation)
    ensures
        command@ == details_call(item@),
{
    Invocation::new("codesign").text("-dvvv").arg(item)
}

/// The command that verifies the signatures of an app.
pub open spec fn verify_call(app: Seq<u8>) -> Call {
    let command = with_text(with_text(call("codesign"@), "--verify"@), "--deep"@);
    with(with_text(with_text(command, "--strict"@), "--verbose=2"@), app)
}

/// The command that verifies the signatures of an app.
pub fn verify_command(app: &[u8]) -> (command: Invocation)
    ensures
        command@ == verify_call(app@),
{
    Invocation::new("codesign").text("--verify").text("--deep").text("--strict").text(
        "--verbose=2",
    ).arg(app)
}

/// The command that has Gatekeeper assess an app.
pub open spec fn assess_call(app: Seq<u8>) -> Call {
    let command = with_text(with_text(call("spctl"@), "-a"@), "-vvv"@);
    with(with_text(with_text(command, "-t"@), "exec"@), app)
}

/// The command that has Gatekeeper assess an app.
pub fn assess_command(app: &[u8]) -> (command: Invocation)
    ensures
        command@ == assess_call(app@),
{
    Invocation::new("spctl").text("-a").text("-vvv").text("-t").text("exec").arg(app)
}

/// The details of a signature, by what the command for them gave: all that it wrote.
pub open spec fn details_of(item: Seq<u8>, signature: Result<Output, Seq<char>>) -> Result<
    Seq<char>,
    Seq<char>,
> {
    match completed(details_call(item), signature) {
        Err(refusal) => Err(refusal),
        Ok(_) => Ok(lossy(signature->Ok_0.stdout) + lossy(signature->Ok_0.stderr)),
    }
}

/// The details of a signature, by what the command for them gave.
pub fn signature_details(item: &[u8], signature: &Result<CommandOutput, String>) -> (result: Result<
    String,
    Failure,
>)
    ensures
        text_outcome(result) == details_of(item@, attempt(*signature)),
{
    match command_output(&details_command(item), signature) {
        Ok(_) => {},
        Err(refusal) => return Err(refusal),
    }
    match signature {
        Ok(output) => {
            let first = lossy_text(output.stdout.as_slice());
            let second = lossy_text(output.stderr.as_slice());
            Ok(join2(first.as_str(), second.as_str()))
        },
        Err(fault) => Err(failure(fault.as_str())),
    }
}

/// What an item is told after it was signed.
pub open spec fn item_outcome(
    item: Seq<u8>,
    signature: Result<Output, Seq<char>>,
    expected_identifier: Option<Seq<char>>,
    team: Seq<char>,
) -> Result<(), Seq<char>> {
    match details_of(item, signature) {
        Err(refusal) => Err(refusal),
        Ok(details) => signature_outcome(details, expected_identifier, team),
    }
}

/// Judges an item after it was signed.
pub fn judge_item(
    item: &[u8],
    signature: &Result<CommandOutput, String>,
    expected_identifier: Option<&str>,
    team: &str,
) -> (result: Result<(), Failure>)
    ensures
        outcome(result) == item_outcome(
            item@,
            attempt(*signature),
            maybe_text(expected_identifier),
            team@,
        ),
{
    match signature_details(item, signature) {
        Ok(details) => validate_signature_details(details.as_str(), expected_identifier, team),
        Err(refusal) => Err(refusal),
    }
}

/// Without a team identifier in the environment, and with one of any other form, none is configured.
pub proof fn law_team_configuration_fails_closed(value: Option<Seq<u8>>)
    ensures
        configured_team(value) is Ok <==> value is Some && decoded(value->Some_0) is Ok
            && is_team_identifier(decoded(value->Some_0)->Ok_0),
        configured_team(value) is Ok ==> configured_team(value)->Ok_0 == decoded(
            value->Some_0,
        )->Ok_0,
{
}

/// An accepted signature names the right authority, has the hardened runtime and a secure timestamp,
/// and is by the expected team for the expected bundle; and such a signature is accepted.
pub proof fn law_accepted_signatures(
    details: Seq<char>,
    expected_identifier: Option<Seq<char>>,
    expected_team: Seq<char>,
)
    ensures
        signature_outcome(details, expected_identifier, expected_team) is Ok <==> {
            let rows = text_lines(details);
            &&& some_authority(rows)
            &&& some_runtime_flag(rows)
            &&& some_line_starts(rows, "Timestamp="@)
            &&& !some_line_starts(rows, "Signed Time="@)
            &&& first_after(rows, "TeamIdentifier="@) == Some(expected_team)
            &&& first_after(rows, "Identifier="@) is Some
            &&& expected_identifier is Some ==> first_after(rows, "Identifier="@)
                == expected_identifier
        },
{
}

/// The team identifier of an identity is what its last brackets hold.
pub proof fn law_team_in_brackets(name: Seq<char>, team: Seq<char>)
    requires
        team.len() > 0,
        !occurs(team, " ("@),
    ensures
        team_of(name + " ("@ + team + ")"@) == Ok::<Seq<char>, Seq<char>>(team),
{
    reveal_strlit(" (");
    reveal_strlit(")");
    let open = name + " ("@ + team;
    let identity = open + ")"@;
    assert(identity.subrange(identity.len() - 1, identity.len() as int) == ")"@);
    assert(identity.take(identity.len() - 1) == open);
    lemma_last_brackets(name, team, team.len() as int);
    assert(open.take(open.len() as int) == open);
    assert(open == name + " ("@ + team.take(team.len() as int)) by {
        assert(team.take(team.len() as int) == team);
    }
    assert(open.skip(name.len() as int + 2) == team);
}

proof fn lemma_last_brackets(name: Seq<char>, team: Seq<char>, n: int)
    requires
        0 <= n <= team.len(),
        !occurs(team, " ("@),
    ensures
        last_occurrence(name + " ("@ + team.take(n), " ("@) == name.len(),
    decreases n,
{
    reveal_strlit(" (");
    let s = name + " ("@ + team.take(n);
    if n == 0 {
        assert(s.subrange(s.len() - 2, s.len() as int) == " ("@);
    } else {
        assert(s.drop_last() == name + " ("@ + team.take(n - 1));
        lemma_last_brackets(name, team, n - 1);
        if " ("@.is_suffix_of(s) {
            let tail = s.subrange(s.len() - 2, s.len() as int);
            assert(tail[0] == ' ' && tail[1] == '(');
            if n == 1 {
                assert(s[s.len() - 2] == " ("@[1]);
            } else {
                assert(team.subrange(n - 2, n) == " ("@) by {
                    assert(team[n - 2] == s[s.len() - 2]);
                    assert(team[n - 1] == s[s.len() - 1]);
                }
                assert(occurs_at(team, " ("@, n - 2));
            }
        }
    }
}

/// Whether a word of a line is of the form `flags=...`, with `runtime` anywhere behind.
pub open spec fn is_runtime_word(line: Seq<char>, word: Seq<char>) -> bool {
    &&& words(line, true).contains(word)
    &&& "flags="@.is_prefix_of(word)
    &&& occurs(word, "runtime"@)
}

/// Whether there is a line that starts so.
pub open spec fn starts_a_line(lines: Seq<Seq<char>>, prefix: Seq<char>) -> bool {
    exists|i: int| 0 <= i < lines.len() && prefix.is_prefix_of(#[trigger] lines[i])
}

/// Whether the first of the lines that start so goes on with `value`.
pub open spec fn first_goes_on(lines: Seq<Seq<char>>, prefix: Seq<char>, value: Seq<char>) -> bool {
    exists|i: int|
        0 <= i < lines.len() && #[trigger] lines[i] == prefix + value && forall|k: int|
            0 <= k < i ==> !prefix.is_prefix_of(#[trigger] lines[k])
}

proof fn lemma_first_goes_on(lines: Seq<Seq<char>>, prefix: Seq<char>, value: Seq<char>)
    ensures
        first_goes_on(lines, prefix, value) <==> first_after(lines, prefix) == Some(value),
        starts_a_line(lines, prefix) <==> first_after(lines, prefix) is Some,
        some_line_starts(lines, prefix) <==> starts_a_line(lines, prefix),
    decreases lines.len(),
{
    law_found_values_stand_in_a_line(lines, prefix);
    if lines.len() > 0 {
        let rest = lines.skip(1);
        lemma_first_goes_on(rest, prefix, value);
        if prefix.is_prefix_of(lines[0]) {
            assert(lines[0] == prefix + lines[0].skip(prefix.len() as int)) by {
                assert(lines[0].subrange(0, prefix.len() as int) == prefix);
                assert(lines[0] =~= lines[0].subrange(0, prefix.len() as int) + lines[0].skip(
                    prefix.len() as int,
                ));
            }
            assert((prefix + value).skip(prefix.len() as int) =~= value);
        } else {
            assert(lines[0] != prefix + value) by {
                assert((prefix + value).subrange(0, prefix.len() as int) =~= prefix);
            }
            if first_goes_on(lines, prefix, value) {
                let i = choose|i: int|
                    0 <= i < lines.len() && #[trigger] lines[i] == prefix + value && forall|k: int|
                        0 <= k < i ==> !prefix.is_prefix_of(#[trigger] lines[k]);
                assert(rest[i - 1] == lines[i]);
                assert forall|k: int| 0 <= k < i - 1 implies !prefix.is_prefix_of(
                    #[trigger] rest[k],
                ) by {
                    assert(rest[k] == lines[k + 1]);
                }
                assert(first_goes_on(rest, prefix, value));
            }
            if first_goes_on(rest, prefix, value) {
                let i = choose|i: int|
                    0 <= i < rest.len() && #[trigger] rest[i] == prefix + value && forall|k: int|
                        0 <= k < i ==> !prefix.is_prefix_of(#[trigger] rest[k]);
                assert(lines[i + 1] == rest[i]);
                assert forall|k: int| 0 <= k < i + 1 implies !prefix.is_prefix_of(
                    #[trigger] lines[k],
                ) by {
                    if k > 0 {
                        assert(lines[k] == rest[k - 1]);
                    }
                }
            }
        }
        if starts_a_line(lines, prefix) {
            let i = choose|i: int| 0 <= i < lines.len() && prefix.is_prefix_of(#[trigger] lines[i]);
            if i > 0 {
                assert(rest[i - 1] == lines[i]);
            }
        }
        if starts_a_line(rest, prefix) {
            let i = choose|i: int| 0 <= i < rest.len() && prefix.is_prefix_of(#[trigger] rest[i]);
            assert(lines[i + 1] == rest[i]);
        }
    }
}

/// A signature is accepted where, and only where, one line names a Developer ID Application authority,
/// one has the flag of the hardened runtime, one a secure timestamp and none a time of signing, and the
/// first team and the first identifier are the expected ones.
pub proof fn law_signatures_that_are_accepted(
    details: Seq<char>,
    expected_identifier: Option<Seq<char>>,
    expected_team: Seq<char>,
)
    ensures
        signature_outcome(details, expected_identifier, expected_team) is Ok <==> {
            let rows = text_lines(details);
            &&& exists|i: int|
                0 <= i < rows.len() && "Authority=Developer ID Application:"@.is_prefix_of(
                    trim_start(#[trigger] rows[i]),
                )
            &&& exists|i: int, word: Seq<char>|
                0 <= i < rows.len() && #[trigger] is_runtime_word(rows[i], word)
            &&& starts_a_line(rows, "Timestamp="@)
            &&& !starts_a_line(rows, "Signed Time="@)
            &&& first_goes_on(rows, "TeamIdentifier="@, expected_team)
            &&& starts_a_line(rows, "Identifier="@)
            &&& expected_identifier is Some ==> first_goes_on(
                rows,
                "Identifier="@,
                expected_identifier->Some_0,
            )
        },
{
    let rows = text_lines(details);
    lemma_first_goes_on(rows, "Timestamp="@, Seq::empty());
    lemma_first_goes_on(rows, "Signed Time="@, Seq::empty());
    lemma_first_goes_on(rows, "TeamIdentifier="@, expected_team);
    if expected_identifier is Some {
        lemma_first_goes_on(rows, "Identifier="@, expected_identifier->Some_0);
    } else {
        lemma_first_goes_on(rows, "Identifier="@, Seq::empty());
    }
    if some_authority(rows) {
        let i = choose|i: int| 0 <= i < rows.len() && names_authority(#[trigger] rows[i]);
        assert("Authority=Developer ID Application:"@.is_prefix_of(trim_start(rows[i])));
    }
    if exists|i: int|
        0 <= i < rows.len() && "Authority=Developer ID Application:"@.is_prefix_of(
            trim_start(#[trigger] rows[i]),
        ) {
        let i = choose|i: int|
            0 <= i < rows.len() && "Authority=Developer ID Application:"@.is_prefix_of(
                trim_start(#[trigger] rows[i]),
            );
        assert(names_authority(rows[i]));
    }
    if some_runtime_flag(rows) {
        let i = choose|i: int| 0 <= i < rows.len() && has_runtime_flag(#[trigger] rows[i]);
        let line = rows[i];
        let w = choose|w: int|
            0 <= w < words(line, true).len() && "flags="@.is_prefix_of(
                #[trigger] words(line, true)[w],
            ) && occurs(words(line, true)[w], "runtime"@);
        assert(is_runtime_word(line, words(line, true)[w]));
    }
    if exists|i: int, word: Seq<char>|
        0 <= i < rows.len() && #[trigger] is_runtime_word(rows[i], word) {
        let (i, word) = choose|i: int, word: Seq<char>|
            0 <= i < rows.len() && #[trigger] is_runtime_word(rows[i], word);
        let all = words(rows[i], true);
        let w = choose|w: int| 0 <= w < all.len() && all[w] == word;
        assert("flags="@.is_prefix_of(all[w]));
        assert(has_runtime_flag(rows[i]));
    }
}

/// The executable that a signature names is what the first such line goes on with.
pub proof fn law_signatures_name_an_executable(details: Seq<char>, executable: Seq<char>)
    ensures
        executable_of(details) == Ok::<Seq<char>, Seq<char>>(executable) <==> first_goes_on(
            text_lines(details),
            "Executable="@,
            executable,
        ),
        executable_of(details) is Err <==> !starts_a_line(text_lines(details), "Executable="@),
{
    lemma_first_goes_on(text_lines(details), "Executable="@, executable);
}

/// The executable of a signature is accepted where, and only where, it is found below the app.
pub proof fn law_executables_lie_in_the_app(
    executable: Result<Seq<u8>, Seq<char>>,
    app: Result<Seq<u8>, Seq<char>>,
)
    ensures
        placement_outcome(executable, app) is Ok <==> executable is Ok && app is Ok && below(
            executable->Ok_0,
            app->Ok_0,
        ),
{
}

/// A team identifier is one of ten characters, each an upper-case letter or a digit.
pub proof fn law_team_identifiers_have_ten_characters(text: Seq<char>)
    ensures
        is_team_identifier(text) <==> text.len() == 10 && forall|i: int|
            0 <= i < 10 ==> ('A' <= #[trigger] text[i] && text[i] <= 'Z' || '0' <= text[i] && text[i]
                <= '9'),
{
    if text.len() == 10 {
        assert forall|i: int| 0 <= i < 10 implies (team_char(#[trigger] text[i]) <==> ('A' <= text[i]
            && text[i] <= 'Z' || '0' <= text[i] && text[i] <= '9')) by {}
    }
}

/// The override of the identity is taken as it is written where it starts with the kind of identity
/// that is asked for. Any other is refused, and the keychain is then not asked.
pub proof fn law_overriding_identities_are_developer_identities(
    value: Seq<u8>,
    listing: Result<Output, Seq<char>>,
)
    ensures
        chosen_identity(Some(value), listing) is Ok <==> decoded(value) is Ok && trim(
            decoded(value)->Ok_0,
        ).len() > 0 && "Developer ID Application:"@.is_prefix_of(decoded(value)->Ok_0),
        chosen_identity(Some(value), listing) is Ok ==> chosen_identity(Some(value), listing)->Ok_0.0
            == decoded(value)->Ok_0,
{
}

/// Whether a line of the keychain's listing names an identity of the right kind: it stands between the
/// first quote of the line and the last.
pub open spec fn names_identity(line: Seq<char>, name: Seq<char>) -> bool {
    exists|start: int, end: int|
        {
            &&& 0 <= start < end < line.len()
            &&& end > start + 1
            &&& line[start] == '"'
            &&& line[end] == '"'
            &&& !line.take(start).contains('"')
            &&& !line.skip(end + 1).contains('"')
            &&& #[trigger] line.subrange(start + 1, end) == name
            &&& occurs(line, "\"Developer ID Application:"@)
        }
}

/// The identity that a line lists stands between its first and its last quote; a line that does not
/// hold the kind of identity that is asked for lists none.
pub proof fn law_identities_stand_in_quotes(line: Seq<char>, name: Seq<char>)
    ensures
        listed_identity(line) == Some(name) <==> names_identity(line, name),
{
    let start = first_index(line, '"');
    let end = last_occurrence(line, seq!['"']);
    lemma_first_index_bounds(line, '"');
    lemma_last_quote(line);
    if occurs(line, "\"Developer ID Application:"@) {
        lemma_kind_starts_with_a_quote(line);
    }
    if listed_identity(line) == Some(name) {
        assert(0 <= start < end < line.len());
        assert(line[start] == '"');
        assert(line.subrange(start + 1, end) == name);
        assert(names_identity(line, name));
    }
    if names_identity(line, name) {
        let (first, last) = choose|first: int, last: int|
            {
                &&& 0 <= first < last < line.len()
                &&& last > first + 1
                &&& line[first] == '"'
                &&& line[last] == '"'
                &&& !line.take(first).contains('"')
                &&& !line.skip(last + 1).contains('"')
                &&& #[trigger] line.subrange(first + 1, last) == name
                &&& occurs(line, "\"Developer ID Application:"@)
            };
        assert(first == start) by {
            if start < first {
                assert(line.take(first)[start] == '"');
            } else if first < start {
                assert(line.take(start)[first] == '"');
            }
        }
        assert(last == end) by {
            if end > last {
                assert(line.skip(last + 1)[end - last - 1] == '"');
            } else if end < last {
                assert(line.skip(end + 1)[last - end - 1] == '"');
            }
        }
    }
}

proof fn lemma_kind_starts_with_a_quote(line: Seq<char>)
    requires
        occurs(line, "\"Developer ID Application:"@),
    ensures
        line.contains('"'),
{
    reveal_strlit("\"Developer ID Application:");
    let kind = "\"Developer ID Application:"@;
    let i = choose|i: int| occurs_at(line, kind, i);
    assert(line.subrange(i, i + kind.len())[0] == line[i]);
    assert(line[i] == '"');
}

proof fn lemma_last_quote(line: Seq<char>)
    ensures
        -1 <= last_occurrence(line, seq!['"']) < line.len() || line.len() == 0,
        last_occurrence(line, seq!['"']) >= 0 ==> last_occurrence(line, seq!['"']) < line.len()
            && line[last_occurrence(line, seq!['"'])] == '"' && !line.skip(
            last_occurrence(line, seq!['"']) + 1,
        ).contains('"'),
        last_occurrence(line, seq!['"']) < 0 ==> !line.contains('"'),
    decreases line.len(),
{
    let quote = seq!['"'];
    if line.len() > 0 {
        let rest = line.drop_last();
        let n = line.len() as int;
        lemma_last_quote(rest);
        if line.last() == '"' {
            assert(line.subrange(n - 1, n) =~= quote);
            assert(line.skip(n) =~= Seq::<char>::empty());
        } else {
            if quote.is_suffix_of(line) {
                assert(line.subrange(n - 1, n)[0] == line.last());
            }
            let at = last_occurrence(rest, quote);
            if at >= 0 {
                assert(line[at] == rest[at]);
                let behind = line.skip(at + 1);
                assert forall|k: int| 0 <= k < behind.len() implies behind[k] != '"' by {
                    if k < behind.len() - 1 {
                        assert(rest.skip(at + 1)[k] == behind[k]);
                        assert(rest.skip(at + 1).contains(behind[k]));
                    }
                }
            } else {
                assert forall|k: int| 0 <= k < line.len() implies line[k] != '"' by {
                    if k < rest.len() {
                        assert(rest[k] == line[k]);
                        assert(rest.contains(line[k]));
                    }
                }
            }
        }
    }
}

/// The identities of the keychain are those that its lines list, in their order: what one more line
/// adds is the identity that it names, or nothing.
pub proof fn law_identities_are_listed_line_by_line(
    before: Seq<Seq<char>>,
    line: Seq<char>,
    name: Seq<char>,
)
    ensures
        before.push(line).filter_map(|row: Seq<char>| listed_identity(row)) == before.filter_map(
            |row: Seq<char>| listed_identity(row),
        ) + (if names_identity(line, name) {
            seq![name]
        } else if listed_identity(line) is Some {
            seq![listed_identity(line)->Some_0]
        } else {
            Seq::empty()
        }),
{
    law_identities_stand_in_quotes(line, name);
    let listed = |row: Seq<char>| listed_identity(row);
    reveal(Seq::filter_map);
    let now = before.push(line);
    assert(now.drop_last() =~= before);
    assert(now.last() == line);
    assert(before.filter_map(listed) + Seq::<Seq<char>>::empty() =~= before.filter_map(listed));
}

/// An identity is taken from the keychain where, and only where, its listing names just one, and then
/// it is that one.
pub proof fn law_only_a_single_identity_is_taken(listing: Result<Output, Seq<char>>)
    ensures
        chosen_identity(None, listing) is Ok <==> (listing matches Ok(output) && output.success
            && decoded(output.stdout) is Ok && text_lines(decoded(output.stdout)->Ok_0).filter_map(
            |row: Seq<char>| listed_identity(row),
        ).len() == 1),
        chosen_identity(None, listing) is Ok ==> chosen_identity(None, listing)->Ok_0.0
            == text_lines(decoded(listing->Ok_0.stdout)->Ok_0).filter_map(
            |row: Seq<char>| listed_identity(row),
        )[0],
{
}

/// An identity without brackets at its end has no team.
pub proof fn law_teams_stand_in_brackets(identity: Seq<char>)
    requires
        team_of(identity) is Ok,
    ensures
        team_of(identity)->Ok_0.len() > 0,
        (" ("@ + team_of(identity)->Ok_0 + ")"@).is_suffix_of(identity),
{
    reveal_strlit(" (");
    reveal_strlit(")");
    let open = before_suffix(identity, ")"@)->Some_0;
    let at = last_occurrence(open, " ("@);
    law_last_occurrence_is_last(open, " ("@, at);
    let end = " ("@ + team_of(identity)->Ok_0 + ")"@;
    let tail = identity.subrange(identity.len() - end.len(), identity.len() as int);
    assert(open.subrange(at, at + 2) == " ("@);
    assert(identity.subrange(identity.len() - 1, identity.len() as int) == ")"@);
    assert forall|i: int| 0 <= i < end.len() implies tail[i] == end[i] by {
        if i < 2 {
            assert(open.subrange(at, at + 2)[i] == open[at + i]);
        } else if i == end.len() - 1 {
            assert(identity.subrange(identity.len() - 1, identity.len() as int)[0] == ')');
        }
    }
    assert(tail =~= end);
}

/// The identity is accepted where, and only where, its team is the expected one.
pub proof fn law_teams_must_agree(actual: Seq<char>, expected: Seq<char>)
    ensures
        team_outcome(actual, expected) is Ok <==> actual == expected,
{
}

/// The commands around signatures: the keychain is asked for valid identities for signing code; an item
/// is signed anew, with the hardened runtime, a timestamp and the entitlements; an app is verified
/// strictly and as a whole; and Gatekeeper assesses it as what is to be run.
pub proof fn law_commands_around_signatures(
    identity: Seq<char>,
    entitlements: Seq<u8>,
    item: Seq<u8>,
)
    ensures
        listing_call().program == "security"@,
        listing_call().arguments == seq![
            encode_utf8("find-identity"@),
            encode_utf8("-v"@),
            encode_utf8("-p"@),
            encode_utf8("codesigning"@),
        ],
        sign_call(identity, entitlements, item).program == "codesign"@,
        sign_call(identity, entitlements, item).arguments == seq![
            encode_utf8("--force"@),
            encode_utf8("--sign"@),
            encode_utf8(identity),
            encode_utf8("--options"@),
            encode_utf8("runtime"@),
            encode_utf8("--timestamp"@),
            encode_utf8("--entitlements"@),
            entitlements,
            item,
        ],
        details_call(item).program == "codesign"@,
        details_call(item).arguments == seq![encode_utf8("-dvvv"@), item],
        verify_call(item).program == "codesign"@,
        verify_call(item).arguments == seq![
            encode_utf8("--verify"@),
            encode_utf8("--deep"@),
            encode_utf8("--strict"@),
            encode_utf8("--verbose=2"@),
            item,
        ],
        assess_call(item).program == "spctl"@,
        assess_call(item).arguments == seq![
            encode_utf8("-a"@),
            encode_utf8("-vvv"@),
            encode_utf8("-t"@),
            encode_utf8("exec"@),
            item,
        ],
{
    assert(listing_call().arguments =~= seq![
        encode_utf8("find-identity"@),
        encode_utf8("-v"@),
        encode_utf8("-p"@),
        encode_utf8("codesigning"@),
    ]);
    assert(sign_call(identity, entitlements, item).arguments =~= seq![
        encode_utf8("--force"@),
        encode_utf8("--sign"@),
        encode_utf8(identity),
        encode_utf8("--options"@),
        encode_utf8("runtime"@),
        encode_utf8("--timestamp"@),
        encode_utf8("--entitlements"@),
        entitlements,
        item,
    ]);
    assert(details_call(item).arguments =~= seq![encode_utf8("-dvvv"@), item]);
    assert(verify_call(item).arguments =~= seq![
        encode_utf8("--verify"@),
        encode_utf8("--deep"@),
        encode_utf8("--strict"@),
        encode_utf8("--verbose=2"@),
        item,
    ]);
    assert(assess_call(item).arguments =~= seq![
        encode_utf8("-a"@),
        encode_utf8("-vvv"@),
        encode_utf8("-t"@),
        encode_utf8("exec"@),
        item,
    ]);
}

/// The details of a signature are what the command wrote to both of its outputs, and it is accepted by
/// them alone, if the command succeeded.
pub proof fn law_signatures_are_judged_by_both_outputs(
    item: Seq<u8>,
    signature: Result<Output, Seq<char>>,
    expected_identifier: Option<Seq<char>>,
    team: Seq<char>,
)
    ensures
        item_outcome(item, signature, expected_identifier, team) is Ok <==> (signature matches Ok(
            output,
        ) && output.success && signature_outcome(
            lossy(output.stdout) + lossy(output.stderr),
            expected_identifier,
            team,
        ) is Ok),
{
}

/// A signature is refused for the first thing that is missing or wrong: the authority, the hardened
/// runtime, the secure timestamp, a time of signing in its place, the team and the identifier.
pub proof fn law_refused_signatures_are_told(
    details: Seq<char>,
    expected_identifier: Option<Seq<char>>,
    expected_team: Seq<char>,
)
    ensures
        ({
            let rows = text_lines(details);
            let outcome = signature_outcome(details, expected_identifier, expected_team);
            let sound = some_authority(rows) && some_runtime_flag(rows) && starts_a_line(
                rows,
                "Timestamp="@,
            ) && !starts_a_line(rows, "Signed Time="@);
            &&& !some_authority(rows) ==> outcome == Err::<(), Seq<char>>(
                "codesign output has no Developer ID Application authority"@,
            )
            &&& some_authority(rows) && !some_runtime_flag(rows) ==> outcome == Err::<(), Seq<char>>(
                "codesign output has no hardened runtime flag"@,
            )
            &&& some_authority(rows) && some_runtime_flag(rows) && !starts_a_line(
                rows,
                "Timestamp="@,
            ) ==> outcome == Err::<(), Seq<char>>("codesign output has no secure Timestamp line"@)
            &&& sound && !starts_a_line(rows, "TeamIdentifier="@) ==> outcome == Err::<
                (),
                Seq<char>,
            >("codesign output has no TeamIdentifier"@)
            &&& sound && first_goes_on(rows, "TeamIdentifier="@, expected_team) && !starts_a_line(
                rows,
                "Identifier="@,
            ) ==> outcome == Err::<(), Seq<char>>("codesign output has no Identifier"@)
        }),
{
    let rows = text_lines(details);
    lemma_first_goes_on(rows, "Timestamp="@, Seq::empty());
    lemma_first_goes_on(rows, "Signed Time="@, Seq::empty());
    lemma_first_goes_on(rows, "TeamIdentifier="@, expected_team);
    lemma_first_goes_on(rows, "Identifier="@, Seq::empty());
}

/// What is asked for in the environment is refused by name where it is missing or has another form.
pub proof fn law_refused_settings_of_signing_are_told(value: Seq<u8>)
    ensures
        configured_team(None) is Err,
        decoded(value) is Err ==> configured_team(Some(value)) == Err::<Seq<char>, Seq<char>>(
            "NEO_SIGNING_TEAM_IDENTIFIER"@ + " must contain valid Unicode"@,
        ),
        decoded(value) is Err ==> override_outcome(value) == Err::<
            (Seq<char>, Seq<char>),
            Seq<char>,
        >("NEO_SIGNING_IDENTITY"@ + " must contain valid Unicode"@),
        decoded(value) is Ok && trim(decoded(value)->Ok_0).len() == 0 ==> override_outcome(value)
            == Err::<(Seq<char>, Seq<char>), Seq<char>>("NEO_SIGNING_IDENTITY"@ + " is empty"@),
        override_outcome(value) is Ok ==> override_outcome(value)->Ok_0.1
            == "using signing identity from "@ + "NEO_SIGNING_IDENTITY"@ + ": "@ + decoded(
            value,
        )->Ok_0,
{
}

} // verus!
