//! The built executable: the profile that it was built with, and what its bytes give away.

use vstd::prelude::*;
use vstd::utf8::{decode_utf8, encode_utf8, valid_utf8};

use crate::bytes::{contained, contains_bytes, owned, split_bytes};
use crate::command::{
    attempt, call, command_output, completed, with, with_text, Call, CommandOutput, Invocation,
    Output,
};
use crate::documents::{json_document, parse_json};
use crate::encoding::{decode, decoded, lossy, lossy_text, quoted, quoted_text};
use crate::environment::path_outcome;
use crate::failure::{failure, outcome, text_outcome, Failure};
use crate::text::{
    after_prefix, before_suffix, chars_of, contains_text, decimal, decimal_text, join2, join3,
    join4, join5, lemma_kept_is_wanted, lemma_one_is_kept, lemma_two_are_kept, lemma_wanted_is_kept,
    lines, occurs, pieces, same_text, spells, split, starts_with, strip_prefix, strip_suffix,
    text_lines, text_of, texts, trim, trimmed,
};
use crate::tree::{
    as_flag, as_list, as_number, as_text, maybe, member, member_at, spelled, Node, Tree,
};

verus! {

/// How the command of the expected Metal tool starts.
pub const EXPECTED_METAL_TOOL_PREFIX: &'static str =
    "/private/var/run/com.apple.security.cryptexd/mnt/com.apple.MobileAsset.MetalToolchain-v17.6.109.0.";

/// How the command of the expected Metal tool ends.
pub const EXPECTED_METAL_TOOL_SUFFIX: &'static str =
    "/Metal.xctoolchain/usr/metal/32023/bin/metallib shaders.air -o shaders.metallib";

/// Whether one of `items` is the text `wanted`.
pub open spec fn has_text(items: Seq<Node>, wanted: Seq<char>) -> bool {
    exists|i: int| 0 <= i < items.len() && #[trigger] items[i] == Node::Text(wanted)
}

/// Whether a message of Cargo is about the executable of the app.
pub open spec fn about_executable(message: Node) -> bool {
    &&& as_text(member(message, "reason"@)) == Some("compiler-artifact"@)
    &&& as_text(member_at(message, seq!["target"@, "name"@])) == Some("neo"@)
    &&& as_list(member_at(message, seq!["target"@, "kind"@])) is Some
    &&& has_text(as_list(member_at(message, seq!["target"@, "kind"@]))->Some_0, "bin"@)
}

/// The profile that an artifact was built with.
pub struct Profile {
    pub opt_level: Seq<char>,
    pub debug_assertions: bool,
    pub overflow_checks: bool,
    pub debuginfo: u64,
}

/// A truth value as it is shown to the operator.
pub open spec fn flag_text(flag: bool) -> Seq<char> {
    if flag {
        "true"@
    } else {
        "false"@
    }
}

/// A profile as it is shown to the operator.
pub open spec fn profile_text(profile: Profile) -> Seq<char> {
    "opt_level="@ + quoted(profile.opt_level) + ", debug_assertions="@ + flag_text(
        profile.debug_assertions,
    ) + ", overflow_checks="@ + flag_text(profile.overflow_checks) + ", debuginfo="@ + decimal(
        profile.debuginfo as nat,
    )
}

/// Whether a profile is that of a release: optimized, without debugging aids.
pub open spec fn is_release(profile: Profile) -> bool {
    &&& profile.opt_level == "2"@ || profile.opt_level == "3"@ || profile.opt_level == "s"@
        || profile.opt_level == "z"@
    &&& !profile.debug_assertions
    &&& !profile.overflow_checks
    &&& profile.debuginfo == 0
}

/// The profile that a message tells.
pub open spec fn profile_of(message: Node) -> Result<Profile, Seq<char>> {
    let opt_level = as_text(member_at(message, seq!["profile"@, "opt_level"@]));
    let debug_assertions = as_flag(member_at(message, seq!["profile"@, "debug_assertions"@]));
    let overflow_checks = as_flag(member_at(message, seq!["profile"@, "overflow_checks"@]));
    let debuginfo = as_number(member_at(message, seq!["profile"@, "debuginfo"@]));
    if opt_level is None {
        Err("neo compiler artifact has no profile.opt_level"@)
    } else if debug_assertions is None {
        Err("neo compiler artifact has no profile.debug_assertions"@)
    } else if overflow_checks is None {
        Err("neo compiler artifact has no profile.overflow_checks"@)
    } else if debuginfo is None {
        Err("neo compiler artifact has no profile.debuginfo"@)
    } else {
        Ok(
            Profile {
                opt_level: opt_level->Some_0,
                debug_assertions: debug_assertions->Some_0,
                overflow_checks: overflow_checks->Some_0,
                debuginfo: debuginfo->Some_0,
            },
        )
    }
}

/// What a message is told: the executable that it names and the sentence that reports it, where it is
/// about the executable of the app and tells a release profile.
pub open spec fn message_outcome(message: Node) -> Result<
    Option<(Seq<char>, Seq<char>)>,
    Seq<char>,
> {
    if !about_executable(message) {
        Ok(None)
    } else {
        match profile_of(message) {
            Err(refusal) => Err(refusal),
            Ok(profile) => if !is_release(profile) {
                Err(
                    "neo compiler artifact has unexpected release profile: "@ + profile_text(
                        profile,
                    ),
                )
            } else {
                match as_text(member(message, "executable"@)) {
                    None => Err("neo compiler artifact has no executable path"@),
                    Some(executable) => Ok(
                        Some(
                            (
                                executable,
                                "verified release compiler artifact profile: "@ + profile_text(
                                    profile,
                                ) + "; executable="@ + executable,
                            ),
                        ),
                    ),
                }
            },
        }
    }
}

/// An executable that a message names, and the sentence that reports it.
#[derive(Debug)]
pub struct ReportedExecutable {
    pub executable: String,
    pub report: String,
}

/// A result with a reported executable replaced by its two texts, and a refusal by its text.
pub open spec fn reported(result: Result<Option<ReportedExecutable>, Failure>) -> Result<
    Option<(Seq<char>, Seq<char>)>,
    Seq<char>,
> {
    match result {
        Ok(Some(found)) => Ok(Some((found.executable@, found.report@))),
        Ok(None) => Ok(None),
        Err(refusal) => Err(refusal@),
    }
}

/// The value at the end of two names.
fn get_pair<'a>(tree: &'a Tree, first: &str, second: &str) -> (value: Option<&'a Tree>)
    ensures
        maybe(value) == member_at(tree@, seq![first@, second@]),
{
    let keys = [first, second];
    assert(spelled(keys@) == seq![first@, second@]);
    tree.get_path(keys.as_slice())
}

/// Whether a value is the text `wanted`.
fn is_text(value: Option<&Tree>, wanted: &str) -> (r: bool)
    ensures
        r == (as_text(maybe(value)) == Some(wanted@)),
{
    match value {
        Some(value) => match value {
            Tree::Text(text) => same_text(text.as_str(), wanted),
            _ => false,
        },
        None => false,
    }
}

/// Whether a value is a list with the text `wanted`.
fn lists_text(found: Option<&Tree>, wanted: &str) -> (r: bool)
    ensures
        r == (as_list(maybe(found)) is Some && has_text(as_list(maybe(found))->Some_0, wanted@)),
{
    let value = match found {
        Some(value) => value,
        None => return false,
    };
    let items = match value {
        Tree::List(items) => items,
        _ => return false,
    };
    let ghost all = value@->List_0;
    let mut i: usize = 0;
    while i < items.len()
        invariant
            i <= items@.len(),
            maybe(found) == Some(value@),
            *value == Tree::List(*items),
            value@ == Node::List(all),
            all.len() == items@.len(),
            forall|k: int| 0 <= k < i ==> #[trigger] all[k] != Node::Text(wanted@),
        decreases items@.len() - i,
    {
        assert(all[i as int] == items@[i as int]@);
        if is_text(Some(&items[i]), wanted) {
            return true;
        }
        i += 1;
    }
    false
}

/// The truth value that a value is.
fn flag_in(value: Option<&Tree>) -> (flag: Option<bool>)
    ensures
        flag == as_flag(maybe(value)),
{
    match value {
        Some(value) => match value {
            Tree::Flag(flag) => Some(*flag),
            _ => None,
        },
        None => None,
    }
}

/// The natural number that a value is.
fn number_in(value: Option<&Tree>) -> (number: Option<u64>)
    ensures
        number == as_number(maybe(value)),
{
    match value {
        Some(value) => match value {
            Tree::Number(number, _) => *number,
            _ => None,
        },
        None => None,
    }
}

/// A truth value as it is shown to the operator.
fn show_flag(flag: bool) -> (text: &'static str)
    ensures
        text@ == flag_text(flag),
{
    if flag {
        "true"
    } else {
        "false"
    }
}

/// Judges one message of Cargo.
pub fn judge_message(message: &Tree) -> (result: Result<Option<ReportedExecutable>, Failure>)
    ensures
        reported(result) == message_outcome(message@),
{
    if !is_text(message.get("reason"), "compiler-artifact") || !is_text(
        get_pair(message, "target", "name"),
        "neo",
    ) || !lists_text(get_pair(message, "target", "kind"), "bin") {
        return Ok(None);
    }
    let opt_level = match get_pair(message, "profile", "opt_level") {
        Some(value) => match value.text() {
            Some(text) => text,
            None => return Err(failure("neo compiler artifact has no profile.opt_level")),
        },
        None => return Err(failure("neo compiler artifact has no profile.opt_level")),
    };
    let debug_assertions = match flag_in(get_pair(message, "profile", "debug_assertions")) {
        Some(flag) => flag,
        None => return Err(failure("neo compiler artifact has no profile.debug_assertions")),
    };
    let overflow_checks = match flag_in(get_pair(message, "profile", "overflow_checks")) {
        Some(flag) => flag,
        None => return Err(failure("neo compiler artifact has no profile.overflow_checks")),
    };
    let debuginfo = match number_in(get_pair(message, "profile", "debuginfo")) {
        Some(number) => number,
        None => return Err(failure("neo compiler artifact has no profile.debuginfo")),
    };
    let ghost profile = Profile {
        opt_level: opt_level@,
        debug_assertions,
        overflow_checks,
        debuginfo,
    };
    let level = quoted_text(opt_level);
    let shown = join5(
        "opt_level=",
        level.as_str(),
        ", debug_assertions=",
        show_flag(debug_assertions),
        ", overflow_checks=",
    );
    let shown = join4(
        shown.as_str(),
        show_flag(overflow_checks),
        ", debuginfo=",
        decimal_text(debuginfo).as_str(),
    );
    assert(shown@ == profile_text(profile));
    let optimized = same_text(opt_level, "2") || same_text(opt_level, "3") || same_text(
        opt_level,
        "s",
    ) || same_text(opt_level, "z");
    if !optimized || debug_assertions || overflow_checks || debuginfo != 0 {
        return Err(
            Failure {
                message: join2(
                    "neo compiler artifact has unexpected release profile: ",
                    shown.as_str(),
                ),
            },
        );
    }
    let executable = match message.get("executable") {
        Some(value) => match value.text() {
            Some(text) => text,
            None => return Err(failure("neo compiler artifact has no executable path")),
        },
        None => return Err(failure("neo compiler artifact has no executable path")),
    };
    let report = join4(
        "verified release compiler artifact profile: ",
        shown.as_str(),
        "; executable=",
        executable,
    );
    Ok(Some(ReportedExecutable { executable: executable.to_string(), report }))
}

/// What the messages of Cargo have told so far.
#[verifier::ext_equal]
pub struct Told {
    pub executable: Option<Seq<char>>,
    pub reports: Seq<Seq<char>>,
    /// Why a message was refused. What follows it is not read.
    pub refusal: Option<Seq<char>>,
}

/// What the messages tell with one more line.
pub open spec fn heard(so_far: Told, row: Seq<u8>) -> Told {
    if so_far.refusal is Some || row.len() == 0 {
        so_far
    } else {
        match json_document(row) {
            Err(fault) => Told {
                refusal: Some("invalid Cargo JSON message: "@ + fault),
                ..so_far
            },
            Ok(message) => match message_outcome(message) {
                Err(refusal) => Told { refusal: Some(refusal), ..so_far },
                Ok(None) => so_far,
                Ok(Some((executable, report))) => Told {
                    executable: Some(executable),
                    reports: so_far.reports.push(report),
                    ..so_far
                },
            },
        }
    }
}

/// What the lines of Cargo's messages tell: the executable that the last message about it names.
pub open spec fn told(rows: Seq<Seq<u8>>) -> Told
    decreases rows.len(),
{
    if rows.len() == 0 {
        Told { executable: None, reports: Seq::empty(), refusal: None }
    } else {
        heard(told(rows.drop_last()), rows.last())
    }
}

proof fn lemma_told_refusal_stays(rows: Seq<Seq<u8>>, n: int)
    requires
        0 <= n <= rows.len(),
        told(rows.take(n)).refusal is Some,
    ensures
        told(rows) == told(rows.take(n)),
    decreases rows.len(),
{
    if n == rows.len() {
        assert(rows.take(n) == rows);
    } else {
        assert(rows.drop_last().take(n) == rows.take(n));
        lemma_told_refusal_stays(rows.drop_last(), n);
    }
}

/// The executable that the messages of a release build name.
pub open spec fn built(messages: Seq<u8>) -> Result<Seq<u8>, Seq<char>> {
    let told = told(split(messages, '\n' as u8));
    match (told.refusal, told.executable) {
        (Some(refusal), _) => Err(refusal),
        (None, None) => Err("Cargo emitted no compiler artifact for the neo bin target"@),
        (None, Some(executable)) => Ok(encode_utf8(executable)),
    }
}

/// The sentences that report the messages of a release build up to the one that is refused.
pub open spec fn build_reports(messages: Seq<u8>) -> Seq<Seq<char>> {
    told(split(messages, '\n' as u8)).reports
}

/// The executable that the messages of a release build name. Every message about it must tell a
/// release profile. What is reported on the way is added to `reports`, also where a later message is
/// refused.
pub fn release_executable_from_messages(messages: &[u8], reports: &mut Vec<String>) -> (result:
    Result<Vec<u8>, Failure>)
    ensures
        path_outcome(result) == built(messages@),
        texts(final(reports)@) == texts(old(reports)@) + build_reports(messages@),
{
    let rows = split_bytes(messages, '\n' as u8);
    let ghost all = pieces(rows@);
    let ghost first = texts(reports@);
    let mut executable: Option<String> = None;
    let mut i: usize = 0;
    assert(all.take(0) == Seq::<Seq<u8>>::empty());
    assert(texts(reports@) == first + Seq::<Seq<char>>::empty());
    while i < rows.len()
        invariant
            i <= rows@.len(),
            all == pieces(rows@),
            all == split(messages@, '\n' as u8),
            first == texts(old(reports)@),
            told(all.take(i as int)).refusal is None,
            told(all.take(i as int)).executable == (match executable {
                Some(executable) => Some(executable@),
                None => None,
            }),
            texts(reports@) == first + told(all.take(i as int)).reports,
        decreases rows@.len() - i,
    {
        let row = rows[i];
        proof {
            assert(all.take(i + 1).drop_last() == all.take(i as int));
            assert(all.take(i + 1).last() == row@);
        }
        if row.len() > 0 {
            let message = match parse_json(row) {
                Ok(message) => message,
                Err(fault) => {
                    proof {
                        lemma_told_refusal_stays(all, i + 1);
                    }
                    return Err(
                        Failure { message: join2("invalid Cargo JSON message: ", fault.as_str()) },
                    );
                },
            };
            match judge_message(&message) {
                Ok(Some(found)) => {
                    let ghost before = texts(reports@);
                    let ghost report = found.report@;
                    executable = Some(found.executable);
                    reports.push(found.report);
                    assert(texts(reports@) == before.push(report));
                    assert(texts(reports@) == first + told(all.take(i + 1)).reports);
                },
                Ok(None) => {},
                Err(refusal) => {
                    proof {
                        lemma_told_refusal_stays(all, i + 1);
                    }
                    return Err(refusal);
                },
            }
        }
        i += 1;
    }
    assert(all.take(i as int) == all);
    match executable {
        Some(executable) => Ok(owned(executable.as_str().as_bytes())),
        None => Err(failure("Cargo emitted no compiler artifact for the neo bin target")),
    }
}

/// Whether a character is a letter or a digit of ASCII.
pub open spec fn ascii_alphanumeric(c: char) -> bool {
    'a' <= c <= 'z' || 'A' <= c <= 'Z' || '0' <= c <= '9'
}

/// Whether a text is the mark that tells one mount of the Metal toolchain from another.
pub open spec fn is_discriminator(text: Seq<char>) -> bool {
    text.len() == 6 && forall|i: int| 0 <= i < text.len() ==> ascii_alphanumeric(#[trigger] text[i])
}

/// What stands between the start and the end of the expected command, where both are there.
pub open spec fn discriminator_of(command: Seq<char>) -> Option<Seq<char>> {
    match after_prefix(command, EXPECTED_METAL_TOOL_PREFIX@) {
        Some(rest) => before_suffix(rest, EXPECTED_METAL_TOOL_SUFFIX@),
        None => None,
    }
}

/// Whether a text is the command of the expected Metal tool, under any of its mounts.
pub open spec fn expected_metal_command(command: Seq<char>) -> bool {
    discriminator_of(command) is Some && is_discriminator(discriminator_of(command)->Some_0)
}

/// Whether a text is the mark that tells one mount from another.
fn has_discriminator_form(chars: &[char]) -> (r: bool)
    ensures
        r == is_discriminator(chars@),
{
    if chars.len() != 6 {
        return false;
    }
    let mut i: usize = 0;
    while i < chars.len()
        invariant
            i <= chars@.len(),
            forall|k: int| 0 <= k < i ==> ascii_alphanumeric(#[trigger] chars@[k]),
        decreases chars@.len() - i,
    {
        let c = chars[i];
        if !(('a' <= c && c <= 'z') || ('A' <= c && c <= 'Z') || ('0' <= c && c <= '9')) {
            assert(!ascii_alphanumeric(chars@[i as int]));
            return false;
        }
        i += 1;
    }
    true
}

/// Whether a text is the command of the expected Metal tool.
pub fn is_expected_metal_tool_command(command: &str) -> (r: bool)
    ensures
        r == expected_metal_command(command@),
{
    let chars = chars_of(command);
    match strip_prefix(chars.as_slice(), EXPECTED_METAL_TOOL_PREFIX) {
        Some(rest) => match strip_suffix(rest, EXPECTED_METAL_TOOL_SUFFIX) {
            Some(discriminator) => has_discriminator_form(discriminator),
            None => false,
        },
        None => false,
    }
}

/// The command that lists the symbols of an executable.
pub open spec fn symbols_call(executable: Seq<u8>) -> Call {
    with(with_text(call("nm"@), "-pa"@), executable)
}

/// The command that lists the symbols of an executable.
pub fn symbols_command(executable: &[u8]) -> (command: Invocation)
    ensures
        command@ == symbols_call(executable@),
{
    Invocation::new("nm").text("-pa").arg(executable)
}

/// The command that lists the strings of an executable.
pub open spec fn strings_call(executable: Seq<u8>) -> Call {
    with(with_text(call("strings"@), "-a"@), executable)
}

/// The command that lists the strings of an executable.
pub fn strings_command(executable: &[u8]) -> (command: Invocation)
    ensures
        command@ == strings_call(executable@),
{
    Invocation::new("strings").text("-a").arg(executable)
}

/// Whether a line of the symbol list is a reference to an object file.
pub open spec fn is_oso(row: Seq<u8>) -> bool {
    contained(row, encode_utf8(" OSO "@))
}

/// The number of references to object files.
pub open spec fn oso_count(symbols: Seq<u8>) -> nat {
    split(symbols, '\n' as u8).filter(|row: Seq<u8>| is_oso(row)).len()
}

/// Whether a string is the message of an overflow check.
pub open spec fn is_overflow_message(line: Seq<char>) -> bool {
    occurs(line, "attempt to "@) && occurs(line, " with overflow"@)
}

/// Whether a string is a path that was remapped.
pub open spec fn is_remapped(line: Seq<char>) -> bool {
    "/cargo/"@.is_prefix_of(line) || "/source/"@.is_prefix_of(line)
}

/// Whether a string names something in a mounted toolchain.
pub open spec fn names_toolchain(line: Seq<char>) -> bool {
    occurs(line, "/private/var/run/com.apple.security.cryptexd/"@)
}

/// Texts in quotes, with commas between them, in square brackets.
pub open spec fn quoted_items(items: Seq<Seq<char>>) -> Seq<char>
    decreases items.len(),
{
    if items.len() == 0 {
        Seq::empty()
    } else if items.len() == 1 {
        quoted(items[0])
    } else {
        quoted_items(items.drop_last()) + ", "@ + quoted(items.last())
    }
}

/// A list of texts as it is shown to the operator.
pub open spec fn quoted_list(items: Seq<Seq<char>>) -> Seq<char> {
    "["@ + quoted_items(items) + "]"@
}

/// A list of texts as it is shown to the operator.
pub fn quoted_list_text(items: &Vec<&[char]>) -> (text: String)
    ensures
        text@ == quoted_list(pieces(items@)),
{
    let ghost all = pieces(items@);
    let mut shown = String::new();
    let mut i: usize = 0;
    assert(shown@ == quoted_items(all.take(0)));
    while i < items.len()
        invariant
            i <= items@.len(),
            all == pieces(items@),
            shown@ == quoted_items(all.take(i as int)),
        decreases items@.len() - i,
    {
        proof {
            assert(all.take(i + 1).drop_last() == all.take(i as int));
            assert(all.take(i + 1).last() == items@[i as int]@);
        }
        let item = quoted_text(text_of(items[i]).as_str());
        if i == 0 {
            assert(all.take(1)[0] == items@[0]@);
            shown = item;
        } else {
            shown = join3(shown.as_str(), ", ", item.as_str());
        }
        i += 1;
    }
    assert(all.take(i as int) == all);
    join3("[", shown.as_str(), "]")
}

/// What the strings of an executable are told: the sentence that reports success, or a refusal.
pub open spec fn strings_outcome(executable: Seq<u8>, rows: Seq<Seq<char>>) -> Result<
    Seq<char>,
    Seq<char>,
> {
    let overflows = rows.filter(|line: Seq<char>| is_overflow_message(line)).len();
    let remapped = rows.filter(|line: Seq<char>| is_remapped(line)).len();
    let commands = rows.filter(|line: Seq<char>| names_toolchain(line));
    if overflows != 0 {
        Err(
            "release artifact contains "@ + decimal(overflows)
                + " overflow-check panic strings: "@ + lossy(executable),
        )
    } else if remapped == 0 {
        Err(
            "release artifact contains no /cargo/ or /source/ paths; path remapping did not run: "@
                + lossy(executable),
        )
    } else if commands.len() != 1 || !expected_metal_command(commands[0]) {
        Err(
            "release artifact has an unexpected Metal toolchain fingerprint: "@ + quoted_list(
                commands,
            ),
        )
    } else {
        Ok(
            "verified effective release artifact: OSO entries=0, overflow panic strings=0, remapped paths="@
                + decimal(remapped) + ", Metal toolchain fingerprint=expected"@,
        )
    }
}

/// What the symbols of an executable are told: they must hold no reference to an object file.
pub open spec fn symbols_outcome(executable: Seq<u8>, symbols: Result<Output, Seq<char>>) -> Result<
    (),
    Seq<char>,
> {
    match completed(symbols_call(executable), symbols) {
        Err(refusal) => Err(refusal),
        Ok(symbols) => if oso_count(symbols) != 0 {
            Err(
                "release artifact contains "@ + decimal(oso_count(symbols)) + " OSO entries: "@
                    + lossy(executable),
            )
        } else {
            Ok(())
        },
    }
}

/// What the strings of an executable are told: the sentence that reports success, or a refusal.
pub open spec fn listed_strings_outcome(
    executable: Seq<u8>,
    strings: Result<Output, Seq<char>>,
) -> Result<Seq<char>, Seq<char>> {
    match completed(strings_call(executable), strings) {
        Err(refusal) => Err(refusal),
        Ok(strings) => strings_outcome(executable, text_lines(lossy(strings))),
    }
}

/// What `verify_effective_release_artifact` returns.
pub open spec fn artifact_outcome(
    executable: Seq<u8>,
    symbols: Result<Output, Seq<char>>,
    strings: Result<Output, Seq<char>>,
) -> Result<Seq<char>, Seq<char>> {
    match symbols_outcome(executable, symbols) {
        Err(refusal) => Err(refusal),
        Ok(()) => listed_strings_outcome(executable, strings),
    }
}

/// The number of references to object files.
fn count_oso(symbols: &[u8]) -> (count: u64)
    ensures
        count == oso_count(symbols@),
{
    let rows = split_bytes(symbols, '\n' as u8);
    let ghost all = pieces(rows@);
    let ghost wanted = |row: Seq<u8>| is_oso(row);
    let length = rows.len();
    let mut count: u64 = 0;
    let mut i: usize = 0;
    proof {
        reveal(Seq::filter);
        assert(all.take(0).filter(wanted).len() == 0);
    }
    while i < length
        invariant
            i <= length == rows@.len(),
            count <= i,
            all == pieces(rows@),
            wanted == (|row: Seq<u8>| is_oso(row)),
            count == all.take(i as int).filter(wanted).len(),
        decreases length - i,
    {
        proof {
            reveal(Seq::filter);
            assert(all.take(i + 1).drop_last() == all.take(i as int));
            assert(all.take(i + 1).last() == rows@[i as int]@);
        }
        if contains_bytes(rows[i], " OSO ".as_bytes()) {
            count += 1;
        }
        i += 1;
    }
    assert(all.take(i as int) == all);
    count
}

/// The number of messages of overflow checks.
fn count_overflow_messages(rows: &Vec<&[char]>) -> (count: u64)
    ensures
        count == pieces(rows@).filter(|line: Seq<char>| is_overflow_message(line)).len(),
{
    let ghost all = pieces(rows@);
    let ghost wanted = |line: Seq<char>| is_overflow_message(line);
    let length = rows.len();
    let mut count: u64 = 0;
    let mut i: usize = 0;
    proof {
        reveal(Seq::filter);
        assert(all.take(0).filter(wanted).len() == 0);
    }
    while i < length
        invariant
            i <= length == rows@.len(),
            count <= i,
            all == pieces(rows@),
            wanted == (|line: Seq<char>| is_overflow_message(line)),
            count == all.take(i as int).filter(wanted).len(),
        decreases length - i,
    {
        proof {
            reveal(Seq::filter);
            assert(all.take(i + 1).drop_last() == all.take(i as int));
            assert(all.take(i + 1).last() == rows@[i as int]@);
        }
        if contains_text(rows[i], "attempt to ") && contains_text(rows[i], " with overflow") {
            count += 1;
        }
        i += 1;
    }
    assert(all.take(i as int) == all);
    count
}

/// The number of remapped paths.
fn count_remapped(rows: &Vec<&[char]>) -> (count: u64)
    ensures
        count == pieces(rows@).filter(|line: Seq<char>| is_remapped(line)).len(),
{
    let ghost all = pieces(rows@);
    let ghost wanted = |line: Seq<char>| is_remapped(line);
    let length = rows.len();
    let mut count: u64 = 0;
    let mut i: usize = 0;
    proof {
        reveal(Seq::filter);
        assert(all.take(0).filter(wanted).len() == 0);
    }
    while i < length
        invariant
            i <= length == rows@.len(),
            count <= i,
            all == pieces(rows@),
            wanted == (|line: Seq<char>| is_remapped(line)),
            count == all.take(i as int).filter(wanted).len(),
        decreases length - i,
    {
        proof {
            reveal(Seq::filter);
            assert(all.take(i + 1).drop_last() == all.take(i as int));
            assert(all.take(i + 1).last() == rows@[i as int]@);
        }
        if starts_with(rows[i], "/cargo/") || starts_with(rows[i], "/source/") {
            count += 1;
        }
        i += 1;
    }
    assert(all.take(i as int) == all);
    count
}

/// The strings that name something in a mounted toolchain.
fn toolchain_strings<'a>(rows: &Vec<&'a [char]>) -> (found: Vec<&'a [char]>)
    ensures
        pieces(found@) == pieces(rows@).filter(|line: Seq<char>| names_toolchain(line)),
{
    let ghost all = pieces(rows@);
    let ghost wanted = |line: Seq<char>| names_toolchain(line);
    let mut found: Vec<&'a [char]> = Vec::new();
    let mut i: usize = 0;
    proof {
        reveal(Seq::filter);
        assert(pieces(found@) == all.take(0).filter(wanted));
    }
    while i < rows.len()
        invariant
            i <= rows@.len(),
            all == pieces(rows@),
            wanted == (|line: Seq<char>| names_toolchain(line)),
            pieces(found@) == all.take(i as int).filter(wanted),
        decreases rows@.len() - i,
    {
        let ghost before = pieces(found@);
        proof {
            reveal(Seq::filter);
            assert(all.take(i + 1).drop_last() == all.take(i as int));
            assert(all.take(i + 1).last() == rows@[i as int]@);
        }
        if contains_text(rows[i], "/private/var/run/com.apple.security.cryptexd/") {
            found.push(rows[i]);
            assert(pieces(found@) == before.push(rows@[i as int]@));
        }
        i += 1;
    }
    assert(all.take(i as int) == all);
    found
}

/// Judges an executable by its strings.
fn judge_strings(executable: &[u8], rows: &Vec<&[char]>) -> (result: Result<String, Failure>)
    ensures
        text_outcome(result) == strings_outcome(executable@, pieces(rows@)),
{
    let overflows = count_overflow_messages(rows);
    if overflows != 0 {
        let shown = lossy_text(executable);
        return Err(
            Failure {
                message: join4(
                    "release artifact contains ",
                    decimal_text(overflows).as_str(),
                    " overflow-check panic strings: ",
                    shown.as_str(),
                ),
            },
        );
    }
    let remapped = count_remapped(rows);
    if remapped == 0 {
        let shown = lossy_text(executable);
        return Err(
            Failure {
                message: join2(
                    "release artifact contains no /cargo/ or /source/ paths; path remapping did not run: ",
                    shown.as_str(),
                ),
            },
        );
    }
    let commands = toolchain_strings(rows);
    assert(pieces(commands@).len() == commands@.len());
    let mut expected = commands.len() == 1;
    if expected {
        assert(pieces(commands@)[0] == commands@[0]@);
        expected = is_expected_metal_tool_command(text_of(commands[0]).as_str());
    }
    if !expected {
        let shown = quoted_list_text(&commands);
        return Err(
            Failure {
                message: join2(
                    "release artifact has an unexpected Metal toolchain fingerprint: ",
                    shown.as_str(),
                ),
            },
        );
    }
    Ok(
        join3(
            "verified effective release artifact: OSO entries=0, overflow panic strings=0, remapped paths=",
            decimal_text(remapped).as_str(),
            ", Metal toolchain fingerprint=expected",
        ),
    )
}

/// Refuses an executable with references to object files, by what the command for its symbols gave.
pub fn check_symbols(executable: &[u8], symbols: &Result<CommandOutput, String>) -> (result: Result<
    (),
    Failure,
>)
    ensures
        outcome(result) == symbols_outcome(executable@, attempt(*symbols)),
{
    let listed = match command_output(&symbols_command(executable), symbols) {
        Ok(listed) => listed,
        Err(refusal) => return Err(refusal),
    };
    let count = count_oso(listed);
    if count != 0 {
        let shown = lossy_text(executable);
        return Err(
            Failure {
                message: join4(
                    "release artifact contains ",
                    decimal_text(count).as_str(),
                    " OSO entries: ",
                    shown.as_str(),
                ),
            },
        );
    }
    Ok(())
}

/// Judges the strings of an executable, by what the command for them gave.
pub fn check_strings(executable: &[u8], strings: &Result<CommandOutput, String>) -> (result: Result<
    String,
    Failure,
>)
    ensures
        text_outcome(result) == listed_strings_outcome(executable@, attempt(*strings)),
{
    let listed = match command_output(&strings_command(executable), strings) {
        Ok(listed) => listed,
        Err(refusal) => return Err(refusal),
    };
    let chars = chars_of(lossy_text(listed).as_str());
    let rows = lines(chars.as_slice());
    judge_strings(executable, &rows)
}

/// Judges an executable by what the commands for its symbols and its strings gave: it may refer to no
/// object file and hold no message of an overflow check, and must hold remapped paths and the command
/// of the expected Metal tool.
pub fn verify_effective_release_artifact(
    executable: &[u8],
    symbols: &Result<CommandOutput, String>,
    strings: &Result<CommandOutput, String>,
) -> (result: Result<String, Failure>)
    ensures
        text_outcome(result) == artifact_outcome(
            executable@,
            attempt(*symbols),
            attempt(*strings),
        ),
{
    match check_symbols(executable, symbols) {
        Ok(()) => check_strings(executable, strings),
        Err(refusal) => Err(refusal),
    }
}

/// The command that lists the load commands of an executable.
pub open spec fn load_commands_call(executable: Seq<u8>) -> Call {
    with(with_text(call("otool"@), "-l"@), executable)
}

/// The command that lists the load commands of an executable.
pub fn load_commands_command(executable: &[u8]) -> (command: Invocation)
    ensures
        command@ == load_commands_call(executable@),
{
    Invocation::new("otool").text("-l").arg(executable)
}

/// The minimum system version that the first build version command among `rows` tells. `inside` is
/// whether the rows before belong to such a command.
pub open spec fn minimum_in(rows: Seq<Seq<char>>, inside: bool) -> Option<Seq<char>>
    decreases rows.len(),
{
    if rows.len() == 0 {
        None
    } else {
        let line = trim(rows[0]);
        if line == "cmd LC_BUILD_VERSION"@ {
            minimum_in(rows.skip(1), true)
        } else if !inside {
            minimum_in(rows.skip(1), false)
        } else {
            match after_prefix(line, "minos "@) {
                Some(value) => Some(trim(value)),
                None => minimum_in(rows.skip(1), !"cmd "@.is_prefix_of(line)),
            }
        }
    }
}

/// The minimum system version that the first build version command among `rows` tells.
fn find_minimum(rows: &Vec<&[char]>) -> (minimum: Option<String>)
    ensures
        match minimum {
            Some(minimum) => minimum_in(pieces(rows@), false) == Some(minimum@),
            None => minimum_in(pieces(rows@), false) is None,
        },
{
    let ghost all = pieces(rows@);
    let mut inside = false;
    let mut i: usize = 0;
    assert(all.skip(0) == all);
    while i < rows.len()
        invariant
            i <= rows@.len(),
            all == pieces(rows@),
            minimum_in(all, false) == minimum_in(all.skip(i as int), inside),
        decreases rows@.len() - i,
    {
        proof {
            assert(all.skip(i as int)[0] == rows@[i as int]@);
            assert(all.skip(i as int).skip(1) == all.skip(i + 1));
        }
        let line = trimmed(rows[i]);
        if spells(line, "cmd LC_BUILD_VERSION") {
            inside = true;
        } else if inside {
            match strip_prefix(line, "minos ") {
                Some(value) => return Some(text_of(trimmed(value))),
                None => {},
            }
            if starts_with(line, "cmd ") {
                inside = false;
            }
        }
        i += 1;
    }
    None
}

/// What `verify_deployment_target` returns.
pub open spec fn deployment_outcome(
    executable: Seq<u8>,
    expected: Seq<char>,
    load_commands: Result<Output, Seq<char>>,
) -> Result<Seq<char>, Seq<char>> {
    match completed(load_commands_call(executable), load_commands) {
        Err(refusal) => Err(refusal),
        Ok(listed) => match decoded(listed) {
            Err(fault) => Err(fault),
            Ok(text) => match minimum_in(text_lines(text), false) {
                None => Err("Mach-O has no LC_BUILD_VERSION minos value"@),
                Some(minimum) => if minimum != expected {
                    Err(
                        "LC_BUILD_VERSION minos "@ + minimum
                            + " does not match LSMinimumSystemVersion "@ + expected,
                    )
                } else {
                    Ok("verified deployment target: LC_BUILD_VERSION minos="@ + minimum)
                },
            },
        },
    }
}

/// Refuses an executable that was built for another minimum system version than the expected one, by
/// what the command for its load commands gave.
pub fn verify_deployment_target(
    executable: &[u8],
    expected: &str,
    load_commands: &Result<CommandOutput, String>,
) -> (result: Result<String, Failure>)
    ensures
        text_outcome(result) == deployment_outcome(
            executable@,
            expected@,
            attempt(*load_commands),
        ),
{
    let listed = match command_output(&load_commands_command(executable), load_commands) {
        Ok(listed) => listed,
        Err(refusal) => return Err(refusal),
    };
    let text = match decode(listed) {
        Ok(text) => text,
        Err(fault) => return Err(failure(fault.as_str())),
    };
    let chars = chars_of(text.as_str());
    let rows = lines(chars.as_slice());
    let minimum = match find_minimum(&rows) {
        Some(minimum) => minimum,
        None => return Err(failure("Mach-O has no LC_BUILD_VERSION minos value")),
    };
    if !same_text(minimum.as_str(), expected) {
        return Err(
            Failure {
                message: join4(
                    "LC_BUILD_VERSION minos ",
                    minimum.as_str(),
                    " does not match LSMinimumSystemVersion ",
                    expected,
                ),
            },
        );
    }
    Ok(join2("verified deployment target: LC_BUILD_VERSION minos=", minimum.as_str()))
}

/// A message about the executable of the app is accepted only with the profile of a release.
pub proof fn law_accepted_messages_tell_a_release(message: Node)
    requires
        about_executable(message),
        message_outcome(message) is Ok,
    ensures
        profile_of(message) is Ok,
        is_release(profile_of(message)->Ok_0),
        as_text(member(message, "executable"@)) is Some,
{
}

/// The command of the expected Metal tool is expected under every mount.
pub proof fn law_any_mount_is_expected(discriminator: Seq<char>)
    requires
        is_discriminator(discriminator),
    ensures
        expected_metal_command(
            EXPECTED_METAL_TOOL_PREFIX@ + discriminator + EXPECTED_METAL_TOOL_SUFFIX@,
        ),
{
    let prefix = EXPECTED_METAL_TOOL_PREFIX@;
    let suffix = EXPECTED_METAL_TOOL_SUFFIX@;
    let command = prefix + discriminator + suffix;
    let rest = discriminator + suffix;
    assert(command.subrange(0, prefix.len() as int) == prefix);
    assert(command.skip(prefix.len() as int) == rest);
    assert(rest.subrange(rest.len() - suffix.len(), rest.len() as int) == suffix);
    assert(rest.take(rest.len() - suffix.len()) == discriminator);
}

/// Whether a string is the command of the Metal tool that a release is built with: the tool of one
/// version, under a mount that six letters or digits tell apart.
pub open spec fn is_metal_command(line: Seq<char>, mount: Seq<char>) -> bool {
    &&& line
        == "/private/var/run/com.apple.security.cryptexd/mnt/com.apple.MobileAsset.MetalToolchain-v17.6.109.0."@
        + mount
        + "/Metal.xctoolchain/usr/metal/32023/bin/metallib shaders.air -o shaders.metallib"@
    &&& mount.len() == 6
    &&& forall|k: int|
        0 <= k < 6 ==> {
            let c = #[trigger] mount[k];
            'a' <= c <= 'z' || 'A' <= c <= 'Z' || '0' <= c <= '9'
        }
}

/// The strings of an executable are accepted where none of them tells of an overflow, by whatever
/// operation, at least one is a path below `/cargo/` or `/source/`, and just one names something in a
/// mounted toolchain: the command of the expected Metal tool. Any others are refused.
pub proof fn law_accepted_strings(executable: Seq<u8>, rows: Seq<Seq<char>>)
    ensures
        strings_outcome(executable, rows) is Ok <==> {
            &&& forall|i: int|
                0 <= i < rows.len() ==> !(occurs(#[trigger] rows[i], "attempt to "@) && occurs(
                    rows[i],
                    " with overflow"@,
                ))
            &&& exists|i: int|
                0 <= i < rows.len() && ("/cargo/"@.is_prefix_of(#[trigger] rows[i])
                    || "/source/"@.is_prefix_of(rows[i]))
            &&& exists|i: int, mount: Seq<char>|
                #![trigger is_metal_command(rows[i], mount)]
                0 <= i < rows.len() && occurs(
                    rows[i],
                    "/private/var/run/com.apple.security.cryptexd/"@,
                ) && is_metal_command(rows[i], mount) && forall|j: int|
                    0 <= j < rows.len() && j != i ==> !occurs(
                        #[trigger] rows[j],
                        "/private/var/run/com.apple.security.cryptexd/"@,
                    )
        },
{
    let overflows = |line: Seq<char>| is_overflow_message(line);
    let remapped = |line: Seq<char>| is_remapped(line);
    let named = |line: Seq<char>| names_toolchain(line);
    let place = "/private/var/run/com.apple.security.cryptexd/"@;
    if strings_outcome(executable, rows) is Ok {
        assert forall|i: int| 0 <= i < rows.len() implies !(occurs(
            #[trigger] rows[i],
            "attempt to "@,
        ) && occurs(rows[i], " with overflow"@)) by {
            if overflows(rows[i]) {
                lemma_wanted_is_kept(rows, overflows, i);
            }
        }
        let r = lemma_kept_is_wanted(rows, remapped, 0);
        assert("/cargo/"@.is_prefix_of(rows[r]) || "/source/"@.is_prefix_of(rows[r]));
        let i = lemma_kept_is_wanted(rows, named, 0);
        assert forall|j: int| 0 <= j < rows.len() && j != i implies !occurs(
            #[trigger] rows[j],
            place,
        ) by {
            if named(rows[j]) {
                if i < j {
                    lemma_two_are_kept(rows, named, i, j);
                } else {
                    lemma_two_are_kept(rows, named, j, i);
                }
            }
        }
        let mount = discriminator_of(rows[i])->Some_0;
        let prefix = EXPECTED_METAL_TOOL_PREFIX@;
        let suffix = EXPECTED_METAL_TOOL_SUFFIX@;
        let rest = rows[i].skip(prefix.len() as int);
        assert(rows[i] == prefix + rest);
        assert(rest == mount + suffix);
        assert(rows[i] =~= prefix + mount + suffix);
        assert forall|k: int| 0 <= k < 6 implies {
            let c = #[trigger] mount[k];
            'a' <= c <= 'z' || 'A' <= c <= 'Z' || '0' <= c <= '9'
        } by {
            assert(ascii_alphanumeric(mount[k]));
        }
        assert(is_metal_command(rows[i], mount));
    } else {
        if rows.filter(overflows).len() != 0 {
            let i = lemma_kept_is_wanted(rows, overflows, 0);
            assert(overflows(rows[i]));
        } else if rows.filter(remapped).len() == 0 {
            if exists|i: int|
                0 <= i < rows.len() && ("/cargo/"@.is_prefix_of(#[trigger] rows[i])
                    || "/source/"@.is_prefix_of(rows[i])) {
                let i = choose|i: int|
                    0 <= i < rows.len() && ("/cargo/"@.is_prefix_of(#[trigger] rows[i])
                        || "/source/"@.is_prefix_of(rows[i]));
                assert(remapped(rows[i]));
                lemma_wanted_is_kept(rows, remapped, i);
            }
        } else if exists|i: int, mount: Seq<char>|
            #![trigger is_metal_command(rows[i], mount)]
            0 <= i < rows.len() && occurs(rows[i], place) && is_metal_command(rows[i], mount)
                && forall|j: int|
                0 <= j < rows.len() && j != i ==> !occurs(#[trigger] rows[j], place) {
            let (i, mount) = choose|i: int, mount: Seq<char>|
                #![trigger is_metal_command(rows[i], mount)]
                0 <= i < rows.len() && occurs(rows[i], place) && is_metal_command(rows[i], mount)
                    && forall|j: int|
                    0 <= j < rows.len() && j != i ==> !occurs(#[trigger] rows[j], place);
            assert forall|j: int| 0 <= j < rows.len() && j != i implies !named(
                #[trigger] rows[j],
            ) by {}
            assert(named(rows[i]));
            lemma_one_is_kept(rows, named, i);
            assert(is_discriminator(mount)) by {
                assert forall|k: int| 0 <= k < mount.len() implies ascii_alphanumeric(
                    #[trigger] mount[k],
                ) by {}
            }
            law_any_mount_is_expected(mount);
        }
    }
}

/// The command that lists the symbols must succeed, and no line that it wrote may hold ` OSO `.
pub proof fn law_accepted_symbols(executable: Seq<u8>, symbols: Result<Output, Seq<char>>)
    ensures
        symbols_outcome(executable, symbols) is Ok <==> (symbols matches Ok(output)
            && output.success && forall|i: int|
            0 <= i < split(output.stdout, '\n' as u8).len() ==> !occurs(
                #[trigger] split(output.stdout, '\n' as u8)[i],
                encode_utf8(" OSO "@),
            )),
{
    lemma_oso_is_not_empty();
    if symbols is Ok && symbols->Ok_0.success {
        let rows = split(symbols->Ok_0.stdout, '\n' as u8);
        let wanted = |row: Seq<u8>| is_oso(row);
        if symbols_outcome(executable, symbols) is Ok {
            assert forall|i: int| 0 <= i < rows.len() implies !occurs(
                #[trigger] rows[i],
                encode_utf8(" OSO "@),
            ) by {
                if wanted(rows[i]) {
                    lemma_wanted_is_kept(rows, wanted, i);
                }
            }
        } else {
            let i = lemma_kept_is_wanted(rows, wanted, 0);
            assert(wanted(rows[i]));
        }
    }
}

proof fn lemma_oso_is_not_empty()
    ensures
        encode_utf8(" OSO "@).len() > 0,
{
    reveal_strlit(" OSO ");
    reveal_with_fuel(encode_utf8, 2);
    assert(encode_utf8(" OSO "@).len() > 0);
}

/// An executable is accepted where both its symbols and its strings are.
pub proof fn law_artifacts_are_judged_by_both(
    executable: Seq<u8>,
    symbols: Result<Output, Seq<char>>,
    strings: Result<Output, Seq<char>>,
)
    ensures
        artifact_outcome(executable, symbols, strings) is Ok <==> symbols_outcome(
            executable,
            symbols,
        ) is Ok && (strings matches Ok(output) && output.success && strings_outcome(
            executable,
            text_lines(lossy(output.stdout)),
        ) is Ok),
{
}

/// The minimum system version is that of the first build version command that tells one: rows before
/// such a command count for nothing, nor do those in it before its `minos`.
pub proof fn law_minimum_stands_in_the_build_version(
    before: Seq<Seq<char>>,
    inside: Seq<Seq<char>>,
    value: Seq<char>,
    behind: Seq<Seq<char>>,
    command: Seq<char>,
    last: Seq<char>,
)
    requires
        forall|i: int| 0 <= i < before.len() ==> trim(#[trigger] before[i]) != "cmd LC_BUILD_VERSION"@,
        trim(command) == "cmd LC_BUILD_VERSION"@,
        forall|i: int|
            0 <= i < inside.len() ==> !"cmd "@.is_prefix_of(trim(#[trigger] inside[i]))
                && !"minos "@.is_prefix_of(trim(inside[i])),
        trim(last) == "minos "@ + value,
    ensures
        minimum_in(before + seq![command] + inside + seq![last] + behind, false) == Some(trim(value)),
        minimum_in(before, false) is None,
    decreases before.len() + inside.len(),
{
    let rows = before + seq![command] + inside + seq![last] + behind;
    if before.len() > 0 {
        assert(rows[0] == before[0]);
        law_minimum_stands_in_the_build_version(
            before.skip(1),
            inside,
            value,
            behind,
            command,
            last,
        );
        assert(rows.skip(1) == before.skip(1) + seq![command] + inside + seq![last] + behind);
    } else {
        assert(rows[0] == command);
        assert(rows.skip(1) == inside + seq![last] + behind);
        lemma_minimum_inside(inside, value, behind, last);
    }
}

proof fn lemma_minimum_inside(
    inside: Seq<Seq<char>>,
    value: Seq<char>,
    behind: Seq<Seq<char>>,
    last: Seq<char>,
)
    requires
        forall|i: int|
            0 <= i < inside.len() ==> !"cmd "@.is_prefix_of(trim(#[trigger] inside[i]))
                && !"minos "@.is_prefix_of(trim(inside[i])),
        trim(last) == "minos "@ + value,
    ensures
        minimum_in(inside + seq![last] + behind, true) == Some(trim(value)),
    decreases inside.len(),
{
    let rows = inside + seq![last] + behind;
    reveal_strlit("cmd LC_BUILD_VERSION");
    reveal_strlit("cmd ");
    reveal_strlit("minos ");
    if inside.len() > 0 {
        assert(rows[0] == inside[0]);
        let line = trim(inside[0]);
        if line == "cmd LC_BUILD_VERSION"@ {
            assert(line.subrange(0, 4) == "cmd "@);
        }
        assert(rows.skip(1) == inside.skip(1) + seq![last] + behind);
        lemma_minimum_inside(inside.skip(1), value, behind, last);
    } else {
        assert(rows[0] == last);
        let line = trim(last);
        assert(line[0] == 'm');
        assert(line.subrange(0, 6) == "minos "@);
        assert(line.skip(6) == value);
    }
}

/// A command that follows a build version command without `minos` ends it.
pub proof fn law_other_commands_tell_no_minimum(
    command: Seq<char>,
    rows: Seq<Seq<char>>,
    inside: bool,
)
    requires
        "cmd "@.is_prefix_of(trim(command)),
        trim(command) != "cmd LC_BUILD_VERSION"@,
    ensures
        minimum_in(seq![command] + rows, inside) == minimum_in(rows, false),
{
    let all = seq![command] + rows;
    assert(all[0] == command);
    assert(all.skip(1) == rows);
    reveal_strlit("cmd ");
    reveal_strlit("minos ");
    let line = trim(command);
    assert(line.subrange(0, 4)[0] == line[0]);
    if "minos "@.is_prefix_of(line) {
        assert(line.subrange(0, 6)[0] == line[0]);
    }
}

/// An executable is accepted only for the very minimum system version that is expected.
pub proof fn law_deployment_targets_match(
    executable: Seq<u8>,
    expected: Seq<char>,
    load_commands: Result<Output, Seq<char>>,
)
    ensures
        deployment_outcome(executable, expected, load_commands) is Ok <==> (
        load_commands matches Ok(output) && output.success && valid_utf8(output.stdout)
            && minimum_in(text_lines(decode_utf8(output.stdout)), false) == Some(expected)),
{
}

/// A message tells of the executable of the app where its reason is that of an artifact, its target is
/// called `neo` and one of the kinds of that is `bin`. It is then accepted with the profile of a release
/// and an executable alone, and names that executable; any other message is passed over.
pub proof fn law_messages_are_judged_by_their_profile(message: Node)
    ensures
        ({
            let about = as_text(member(message, "reason"@)) == Some("compiler-artifact"@)
                && as_text(member_at(message, seq!["target"@, "name"@])) == Some("neo"@) && (
            member_at(message, seq!["target"@, "kind"@]) matches Some(Node::List(kinds))
                && kinds.contains(Node::Text("bin"@)));
            let level = as_text(member_at(message, seq!["profile"@, "opt_level"@]));
            let release = (level == Some("2"@) || level == Some("3"@) || level == Some("s"@)
                || level == Some("z"@)) && as_flag(
                member_at(message, seq!["profile"@, "debug_assertions"@]),
            ) == Some(false) && as_flag(
                member_at(message, seq!["profile"@, "overflow_checks"@]),
            ) == Some(false) && as_number(
                member_at(message, seq!["profile"@, "debuginfo"@]),
            ) == Some(0u64);
            let named = as_text(member(message, "executable"@));
            &&& !about ==> message_outcome(message) == Ok::<
                Option<(Seq<char>, Seq<char>)>,
                Seq<char>,
            >(None)
            &&& about ==> (message_outcome(message) is Ok <==> release && named is Some)
            &&& about && release && named is Some ==> (message_outcome(message) matches Ok(Some(found))
                && found.0 == named->Some_0)
        }),
{
    match as_list(member_at(message, seq!["target"@, "kind"@])) {
        Some(kinds) => {
            if kinds.contains(Node::Text("bin"@)) {
                let i = choose|i: int| 0 <= i < kinds.len() && kinds[i] == Node::Text("bin"@);
                assert(kinds[i] == Node::Text("bin"@));
            }
        },
        None => {},
    }
}

/// Where the messages of a build are accepted, every line of them is empty or a message that is
/// accepted.
pub proof fn law_every_message_is_judged(rows: Seq<Seq<u8>>, i: int)
    requires
        told(rows).refusal is None,
        0 <= i < rows.len(),
        rows[i].len() > 0,
    ensures
        json_document(rows[i]) is Ok,
        message_outcome(json_document(rows[i])->Ok_0) is Ok,
    decreases rows.len(),
{
    if i < rows.len() - 1 {
        assert(rows.drop_last()[i] == rows[i]);
        law_every_message_is_judged(rows.drop_last(), i);
    }
}

/// Whether a line of Cargo's messages names the executable.
pub open spec fn row_names(row: Seq<u8>, executable: Seq<char>) -> bool {
    row.len() > 0 && (json_document(row) matches Ok(message) && (message_outcome(
        message,
    ) matches Ok(Some(found)) && found.0 == executable))
}

/// The executable is the one that the last message names which names one.
pub proof fn law_last_message_names_the_executable(
    rows: Seq<Seq<u8>>,
    i: int,
    executable: Seq<char>,
)
    requires
        told(rows).refusal is None,
        0 <= i < rows.len(),
        row_names(rows[i], executable),
        forall|j: int, other: Seq<char>|
            i < j < rows.len() ==> !#[trigger] row_names(rows[j], other),
    ensures
        told(rows).executable == Some(executable),
    decreases rows.len(),
{
    let rest = rows.drop_last();
    if i < rest.len() {
        assert(rest[i] == rows[i]);
        assert forall|j: int, other: Seq<char>| i < j < rest.len() implies !#[trigger] row_names(
            rest[j],
            other,
        ) by {
            assert(rest[j] == rows[j]);
        }
        law_last_message_names_the_executable(rest, i, executable);
        let last = rows[rows.len() - 1];
        if last.len() > 0 {
            match json_document(last) {
                Ok(message) => match message_outcome(message) {
                    Ok(Some(found)) => {
                        assert(row_names(last, found.0));
                    },
                    _ => {},
                },
                Err(_) => {},
            }
        }
    }
}

/// No executable is found but one that a message names.
pub proof fn law_found_executables_are_named(rows: Seq<Seq<u8>>) -> (i: int)
    requires
        told(rows).executable is Some,
    ensures
        0 <= i < rows.len(),
        row_names(rows[i], told(rows).executable->Some_0),
        told(rows).reports.len() > 0,
    decreases rows.len(),
{
    let last = rows[rows.len() - 1];
    let so_far = told(rows.drop_last());
    if so_far.executable == told(rows).executable && told(rows).reports == so_far.reports {
        let i = law_found_executables_are_named(rows.drop_last());
        assert(rows.drop_last()[i] == rows[i]);
        i
    } else {
        rows.len() - 1
    }
}

/// The symbols, strings and load commands of an executable are listed in full.
pub proof fn law_executables_are_listed_in_full(executable: Seq<u8>)
    ensures
        symbols_call(executable).program == "nm"@,
        symbols_call(executable).arguments == seq![encode_utf8("-pa"@), executable],
        strings_call(executable).program == "strings"@,
        strings_call(executable).arguments == seq![encode_utf8("-a"@), executable],
        load_commands_call(executable).program == "otool"@,
        load_commands_call(executable).arguments == seq![encode_utf8("-l"@), executable],
{
    assert(symbols_call(executable).arguments =~= seq![encode_utf8("-pa"@), executable]);
    assert(strings_call(executable).arguments =~= seq![encode_utf8("-a"@), executable]);
    assert(load_commands_call(executable).arguments =~= seq![encode_utf8("-l"@), executable]);
}

/// A list is shown in brackets, its texts in quotes and with commas between them.
pub proof fn law_lists_are_shown_in_brackets(before: Seq<Seq<char>>, item: Seq<char>)
    ensures
        quoted_list(Seq::empty()) == "["@ + Seq::<char>::empty() + "]"@,
        quoted_list(seq![item]) == "["@ + quoted(item) + "]"@,
        before.len() > 0 ==> quoted_list(before.push(item)) == "["@ + (quoted_items(before) + ", "@
            + quoted(item)) + "]"@,
{
    let one = seq![item];
    assert(one.drop_last() =~= Seq::<Seq<char>>::empty());
    assert(one.last() == item);
    let now = before.push(item);
    assert(now.drop_last() =~= before);
    assert(now.last() == item);
}

/// Lines are heard one after the other: an empty one says nothing, one that is not accepted is a refusal,
/// behind which nothing is heard, and one that names the executable replaces any before it and is
/// reported after all others.
pub proof fn law_messages_are_heard_in_order(rows: Seq<Seq<u8>>, row: Seq<u8>)
    ensures
        ({
            let before = told(rows);
            let now = told(rows.push(row));
            &&& told(Seq::empty()).executable is None && told(Seq::empty()).refusal is None && told(
                Seq::empty(),
            ).reports.len() == 0
            &&& before.refusal is Some || row.len() == 0 ==> now == before
            &&& before.refusal is None && row.len() > 0 && json_document(row) is Err ==> now.refusal
                is Some && now.executable == before.executable && now.reports == before.reports
            &&& before.refusal is None && row.len() > 0 && json_document(row) is Ok ==> {
                let judged = message_outcome(json_document(row)->Ok_0);
                &&& judged is Err ==> now.refusal == Some(judged->Err_0) && now.reports
                    == before.reports
                &&& judged is Ok && judged->Ok_0 is None ==> now == before
                &&& judged is Ok && judged->Ok_0 is Some ==> now.refusal is None && now.executable
                    == Some(judged->Ok_0->Some_0.0) && now.reports == before.reports.push(
                    judged->Ok_0->Some_0.1,
                )
            }
        }),
{
    assert(rows.push(row).drop_last() =~= rows);
}

/// A build has an executable where, and only where, no line of its messages is refused and one names it;
/// the lines end with newlines.
pub proof fn law_builds_have_an_executable(messages: Seq<u8>)
    ensures
        ({
            let heard = told(split(messages, 10u8));
            &&& built(messages) is Ok <==> heard.refusal is None && heard.executable is Some
            &&& built(messages) is Ok ==> built(messages)->Ok_0 == encode_utf8(
                heard.executable->Some_0,
            )
            &&& heard.refusal is Some ==> built(messages) == Err::<Seq<u8>, Seq<char>>(
                heard.refusal->Some_0,
            )
            &&& build_reports(messages) == heard.reports
        }),
{
}

} // verus!
