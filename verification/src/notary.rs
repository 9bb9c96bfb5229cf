//! What the notary service answers, and the archive that it is sent.

use vstd::prelude::*;
use vstd::utf8::{decode_utf8, encode_utf8, valid_utf8};

use crate::artifact::{quoted_list, quoted_list_text};
use crate::command::{
    attempt, call, command_output, completed, with, with_text, Call, CommandOutput, Invocation,
    Output,
};
use crate::documents::{
    json_contents, json_document, json_member, json_text, json_tree, json_value, write_json,
};
use crate::encoding::{decode, decoded};
use crate::failure::{failure, outcome, text_outcome, Failure};
use crate::property_list::{entries, get_string, read_entries, read_property_list, string_at, Item};
use crate::text::{
    chars_of, first_index, join2, join3, law_runs_stand_between_separators,
    law_what_stands_between_separators_is_a_run, lemma_first_index_bounds, lemma_kept_is_wanted,
    lemma_wanted_is_kept, lines, pieces, split, split_chars, starts_with, text_lines,
};
use crate::tree::{member, Node, Tree};

verus! {

/// The keychain profile with the credentials for the notary service.
pub const NOTARY_PROFILE: &'static str = "SUPERNEO_NOTARY";

/// The archive that the notary service is sent.
pub const NOTARY_ARCHIVE: &'static str = "dist/NEO.zip";

/// A string that the answer to a submission has, where the answer is a dictionary.
pub open spec fn field_of(answer: Option<Seq<(Seq<char>, Item)>>, field: Seq<char>) -> Result<
    Seq<char>,
    Seq<char>,
> {
    let value = match answer {
        Some(answer) => string_at(answer, field),
        None => None,
    };
    match value {
        Some(value) => Ok(value),
        None => Err("notarytool response has no string "@ + field + " field"@),
    }
}

/// The entries of a dictionary, where there is one.
pub open spec fn answered(submission: Option<plist::Dictionary>) -> Option<
    Seq<(Seq<char>, Item)>,
> {
    match submission {
        Some(dictionary) => Some(entries(dictionary)),
        None => None,
    }
}

/// A string that the answer to a submission has.
pub fn submission_field(submission: &Option<plist::Dictionary>, field: &str) -> (result: Result<
    String,
    Failure,
>)
    ensures
        text_outcome(result) == field_of(answered(*submission), field@),
{
    match submission {
        Some(dictionary) => match get_string(dictionary, field) {
            Some(value) => return Ok(value),
            None => {},
        },
        None => {},
    }
    Err(
        Failure { message: join3("notarytool response has no string ", field, " field") },
    )
}

/// The answer to a submission.
#[derive(Debug)]
pub struct Submission {
    pub id: String,
    pub status: String,
}

/// The model of a `Submission`.
pub struct Answer {
    pub id: Seq<char>,
    pub status: Seq<char>,
}

impl View for Submission {
    type V = Answer;

    open spec fn view(&self) -> Answer {
        Answer { id: self.id@, status: self.status@ }
    }
}

/// The answer that a dictionary holds.
pub open spec fn answer_of(answer: Option<Seq<(Seq<char>, Item)>>) -> Result<
    Answer,
    Seq<char>,
> {
    match field_of(answer, "id"@) {
        Err(refusal) => Err(refusal),
        Ok(id) => match field_of(answer, "status"@) {
            Err(refusal) => Err(refusal),
            Ok(status) => Ok(Answer { id, status }),
        },
    }
}

/// The answer that the notary tool wrote.
pub open spec fn written_answer(written: Seq<u8>) -> Result<Answer, Seq<char>> {
    match read_entries(written) {
        Err(fault) => Err(fault),
        Ok(answer) => answer_of(answer),
    }
}

/// A result with an answer replaced by its model, and its refusal by its text.
pub open spec fn answer_outcome(result: Result<Submission, Failure>) -> Result<Answer, Seq<char>> {
    match result {
        Ok(submission) => Ok(submission@),
        Err(refusal) => Err(refusal@),
    }
}

/// The answer that a dictionary holds.
pub fn submission_in(submission: &Option<plist::Dictionary>) -> (result: Result<
    Submission,
    Failure,
>)
    ensures
        answer_outcome(result) == answer_of(answered(*submission)),
{
    let id = match submission_field(submission, "id") {
        Ok(id) => id,
        Err(refusal) => return Err(refusal),
    };
    match submission_field(submission, "status") {
        Ok(status) => Ok(Submission { id, status }),
        Err(refusal) => Err(refusal),
    }
}

/// The answer that the notary tool wrote.
pub fn read_submission(written: &[u8]) -> (result: Result<Submission, Failure>)
    ensures
        answer_outcome(result) == written_answer(written@),
{
    match read_property_list(written) {
        Ok(submission) => submission_in(&submission),
        Err(fault) => Err(failure(fault.as_str())),
    }
}

/// Whether the log of a submission names no issues.
pub open spec fn without_issues(log: Node) -> bool {
    match member(log, "issues"@) {
        None => true,
        Some(Node::Null) => true,
        Some(Node::List(issues)) => issues.len() == 0,
        Some(_) => false,
    }
}

/// What the log of a submission is told.
pub open spec fn log_outcome(log: Node) -> Result<(), Seq<char>> {
    if without_issues(log) {
        Ok(())
    } else {
        Err("notary log contains issues: "@ + json_text(member(log, "issues"@)->Some_0))
    }
}

/// Refuses the log of a submission that names issues.
fn judge_notary_log(log: &serde_json::Value) -> (result: Result<(), Failure>)
    ensures
        outcome(result) == log_outcome(json_contents(*log)),
{
    let issues = match json_member(log, "issues") {
        Some(issues) => issues,
        None => return Ok(()),
    };
    let tree = json_tree(issues);
    let none = match &tree {
        Tree::Null => true,
        Tree::List(items) => {
            assert(tree@->List_0.len() == items@.len());
            items.len() == 0
        },
        _ => false,
    };
    if none {
        return Ok(());
    }
    let shown = write_json(issues);
    Err(Failure { message: join2("notary log contains issues: ", shown.as_str()) })
}

/// What the log that the notary tool wrote is told.
pub open spec fn written_log_outcome(log: Seq<u8>) -> Result<(), Seq<char>> {
    match json_document(log) {
        Err(fault) => Err("invalid notary log JSON: "@ + fault),
        Ok(document) => log_outcome(document),
    }
}

/// Refuses a log that is no JSON or that names issues.
pub fn validate_notary_log(log: &[u8]) -> (result: Result<(), Failure>)
    ensures
        outcome(result) == written_log_outcome(log@),
{
    match json_value(log) {
        Ok(document) => judge_notary_log(&document),
        Err(fault) => Err(
            Failure { message: join2("invalid notary log JSON: ", fault.as_str()) },
        ),
    }
}

/// The command that lists the entries of an archive.
pub open spec fn entries_call(archive: Seq<u8>) -> Call {
    with(with_text(call("zipinfo"@), "-1"@), archive)
}

/// The command that lists the entries of an archive.
pub fn entries_command(archive: &[u8]) -> (command: Invocation)
    ensures
        command@ == entries_call(archive@),
{
    Invocation::new("zipinfo").text("-1").arg(archive)
}

/// Whether one of `components` is the name of an AppleDouble file.
pub open spec fn some_apple_double(components: Seq<Seq<char>>) -> bool {
    exists|i: int| 0 <= i < components.len() && "._"@.is_prefix_of(#[trigger] components[i])
}

/// Whether an entry of an archive is an AppleDouble file among the files of the app.
pub open spec fn is_interleaved(entry: Seq<char>) -> bool {
    !"__MACOSX/"@.is_prefix_of(entry) && some_apple_double(split(entry, '/'))
}

/// What an archive is told: the sentence that reports success, or a refusal.
pub open spec fn archive_outcome(archive: Seq<u8>, listing: Result<Output, Seq<char>>) -> Result<
    Seq<char>,
    Seq<char>,
> {
    match completed(entries_call(archive), listing) {
        Err(refusal) => Err(refusal),
        Ok(listed) => match decoded(listed) {
            Err(fault) => Err(fault),
            Ok(text) => {
                let interleaved = text_lines(text).filter(
                    |entry: Seq<char>| is_interleaved(entry),
                );
                if interleaved.len() > 0 {
                    Err(
                        "notary archive contains interleaved AppleDouble entries: "@ + quoted_list(
                            interleaved,
                        ),
                    )
                } else {
                    Ok("verified notary archive has zero interleaved AppleDouble entries"@)
                }
            },
        },
    }
}

/// Whether an entry of an archive is an AppleDouble file among the files of the app.
fn entry_is_interleaved(entry: &[char]) -> (r: bool)
    ensures
        r == is_interleaved(entry@),
{
    if starts_with(entry, "__MACOSX/") {
        return false;
    }
    let components = split_chars(entry, '/');
    let ghost all = pieces(components@);
    let mut i: usize = 0;
    while i < components.len()
        invariant
            i <= components@.len(),
            all == pieces(components@),
            all == split(entry@, '/'),
            !"__MACOSX/"@.is_prefix_of(entry@),
            forall|k: int| 0 <= k < i ==> !"._"@.is_prefix_of(#[trigger] all[k]),
        decreases components@.len() - i,
    {
        assert(all[i as int] == components@[i as int]@);
        if starts_with(components[i], "._") {
            return true;
        }
        i += 1;
    }
    false
}

/// Refuses an archive with AppleDouble files among the files of the app, by what the command for its
/// entries gave.
pub fn verify_notary_archive(archive: &[u8], listing: &Result<CommandOutput, String>) -> (result: Result<
    String,
    Failure,
>)
    ensures
        text_outcome(result) == archive_outcome(archive@, attempt(*listing)),
{
    let listed = match command_output(&entries_command(archive), listing) {
        Ok(listed) => listed,
        Err(refusal) => return Err(refusal),
    };
    let text = match decode(listed) {
        Ok(text) => text,
        Err(fault) => return Err(failure(fault.as_str())),
    };
    let chars = chars_of(text.as_str());
    let rows = lines(chars.as_slice());
    let ghost all = pieces(rows@);
    let ghost wanted = |entry: Seq<char>| is_interleaved(entry);
    let mut found: Vec<&[char]> = Vec::new();
    let mut i: usize = 0;
    proof {
        reveal(Seq::filter);
        assert(pieces(found@) == all.take(0).filter(wanted));
    }
    while i < rows.len()
        invariant
            i <= rows@.len(),
            all == pieces(rows@),
            wanted == (|entry: Seq<char>| is_interleaved(entry)),
            pieces(found@) == all.take(i as int).filter(wanted),
        decreases rows@.len() - i,
    {
        let ghost before = pieces(found@);
        proof {
            reveal(Seq::filter);
            assert(all.take(i + 1).drop_last() == all.take(i as int));
            assert(all.take(i + 1).last() == rows@[i as int]@);
        }
        if entry_is_interleaved(rows[i]) {
            found.push(rows[i]);
            assert(pieces(found@) == before.push(rows@[i as int]@));
        }
        i += 1;
    }
    assert(all.take(i as int) == all);
    assert(pieces(found@).len() == found@.len());
    if found.len() > 0 {
        let shown = quoted_list_text(&found);
        return Err(
            Failure {
                message: join2(
                    "notary archive contains interleaved AppleDouble entries: ",
                    shown.as_str(),
                ),
            },
        );
    }
    Ok("verified notary archive has zero interleaved AppleDouble entries".to_string())
}

/// A log is accepted exactly where it has no issues, a null, or an empty list of them.
pub proof fn law_accepted_logs_have_no_issues(log: Node)
    ensures
        log_outcome(log) is Ok <==> {
            ||| member(log, "issues"@) is None
            ||| member(log, "issues"@) == Some(Node::Null)
            ||| member(log, "issues"@) == Some(Node::List(Seq::empty()))
        },
{
    match member(log, "issues"@) {
        Some(Node::List(issues)) => {
            if issues.len() == 0 {
                assert(issues == Seq::<Node>::empty());
            }
        },
        _ => {},
    }
}

/// An archive is accepted where the command that lists it succeeded and wrote text, and no line of that
/// text, but for those that start with `__MACOSX/`, has at its start or behind a slash, however deep, a
/// name that starts with `._`. Any other is refused.
pub proof fn law_accepted_archives_hold_no_apple_double(
    archive: Seq<u8>,
    listing: Result<Output, Seq<char>>,
)
    ensures
        archive_outcome(archive, listing) is Ok <==> (listing matches Ok(output) && output.success
            && valid_utf8(output.stdout) && forall|i: int, k: int|
            #![trigger is_apple_double_name(text_lines(decode_utf8(output.stdout))[i], k)]
            0 <= i < text_lines(decode_utf8(output.stdout)).len() && !"__MACOSX/"@.is_prefix_of(
                text_lines(decode_utf8(output.stdout))[i],
            ) ==> !is_apple_double_name(text_lines(decode_utf8(output.stdout))[i], k)),
{
    if listing is Ok && listing->Ok_0.success && valid_utf8(listing->Ok_0.stdout) {
        let listed = text_lines(decode_utf8(listing->Ok_0.stdout));
        let wanted = |entry: Seq<char>| is_interleaved(entry);
        if archive_outcome(archive, listing) is Ok {
            assert forall|i: int, k: int|
                #![trigger is_apple_double_name(listed[i], k)]
                0 <= i < listed.len() && !"__MACOSX/"@.is_prefix_of(
                    listed[i],
                ) implies !is_apple_double_name(listed[i], k) by {
                if is_apple_double_name(listed[i], k) {
                    lemma_apple_double_is_interleaved(listed[i], k);
                    lemma_wanted_is_kept(listed, wanted, i);
                }
            }
        } else {
            let i = lemma_kept_is_wanted(listed, wanted, 0);
            let entry = listed[i];
            let n = choose|n: int|
                0 <= n < split(entry, '/').len() && "._"@.is_prefix_of(
                    #[trigger] split(entry, '/')[n],
                );
            let run = split(entry, '/')[n];
            law_runs_stand_between_separators(entry, '/', n);
            let (start, end) = choose|start: int, end: int|
                0 <= start <= end <= entry.len() && #[trigger] entry.subrange(start, end) == run && (
                start == 0 || entry[start - 1] == '/') && (end == entry.len() || entry[end] == '/');
            reveal_strlit("._");
            assert(run.subrange(0, 2)[0] == run[0] && run.subrange(0, 2)[1] == run[1]);
            assert(entry[start] == run[0] && entry[start + 1] == run[1]);
            assert(is_apple_double_name(entry, start));
        }
    }
}

/// Whether a name that starts with `._` stands in `entry` at `k`.
pub open spec fn is_apple_double_name(entry: Seq<char>, k: int) -> bool {
    &&& 0 <= k && k + 1 < entry.len()
    &&& entry[k] == '.' && entry[k + 1] == '_'
    &&& k == 0 || entry[k - 1] == '/'
}

proof fn lemma_apple_double_is_interleaved(entry: Seq<char>, k: int)
    requires
        !"__MACOSX/"@.is_prefix_of(entry),
        is_apple_double_name(entry, k),
    ensures
        is_interleaved(entry),
{
    let rest = entry.skip(k);
    let end = k + first_index(rest, '/');
    lemma_first_index_bounds(rest, '/');
    let run = entry.subrange(k, end);
    assert(!run.contains('/')) by {
        assert forall|j: int| 0 <= j < run.len() implies run[j] != '/' by {
            assert(rest[j] == run[j]);
        }
    }
    if end < entry.len() {
        assert(rest[end - k] == entry[end]);
    }
    assert(rest[0] == entry[k] && rest[1] == entry[k + 1]);
    law_what_stands_between_separators_is_a_run(entry, '/', k, end);
    let n = choose|n: int| 0 <= n < split(entry, '/').len() && split(entry, '/')[n] == run;
    reveal_strlit("._");
    assert(end >= k + 2);
    assert(run.subrange(0, 2) == "._"@);
    assert("._"@.is_prefix_of(split(entry, '/')[n]));
}

/// An answer is taken where, and only where, it is a dictionary with a string for `id` and one for
/// `status`, and then it is these.
pub proof fn law_answers_have_an_id_and_a_status(answer: Option<Seq<(Seq<char>, Item)>>)
    ensures
        answer_of(answer) is Ok <==> answer is Some && string_at(answer->Some_0, "id"@) is Some
            && string_at(answer->Some_0, "status"@) is Some,
        answer_of(answer) is Ok ==> string_at(answer->Some_0, "id"@) == Some(
            answer_of(answer)->Ok_0.id,
        ) && string_at(answer->Some_0, "status"@) == Some(answer_of(answer)->Ok_0.status),
{
}

/// What the notary tool wrote is an answer where it can be read and is one.
pub proof fn law_written_answers_are_read(written: Seq<u8>)
    ensures
        written_answer(written) is Ok <==> read_entries(written) is Ok && answer_of(
            read_entries(written)->Ok_0,
        ) is Ok,
        written_answer(written) is Ok ==> written_answer(written) == answer_of(
            read_entries(written)->Ok_0,
        ),
{
}

/// A log is accepted where, and only where, it is JSON and its issues are missing, null or an empty list.
pub proof fn law_logs_with_issues_are_refused(log: Seq<u8>)
    ensures
        written_log_outcome(log) is Ok <==> json_document(log) is Ok && {
            let issues = member(json_document(log)->Ok_0, "issues"@);
            ||| issues is None
            ||| issues == Some(Node::Null)
            ||| issues == Some(Node::List(Seq::empty()))
        },
{
    if json_document(log) is Ok {
        let issues = member(json_document(log)->Ok_0, "issues"@);
        if issues is Some && issues->Some_0 is List && issues->Some_0->List_0.len() == 0 {
            assert(issues->Some_0->List_0 =~= Seq::<Node>::empty());
        }
    }
}

/// The entries of an archive are listed by their names, one in a line.
pub proof fn law_archives_are_listed_by_name(archive: Seq<u8>)
    ensures
        entries_call(archive).program == "zipinfo"@,
        entries_call(archive).arguments == seq![encode_utf8("-1"@), archive],
        NOTARY_PROFILE@ == "SUPERNEO_NOTARY"@,
        NOTARY_ARCHIVE@ == "dist/NEO.zip"@,
{
    assert(entries_call(archive).arguments =~= seq![encode_utf8("-1"@), archive]);
}

} // verus!
