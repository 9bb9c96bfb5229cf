//! What the release tool is asked to do.

use vstd::prelude::*;
use vstd::utf8::{encode_utf8, is_ascii_chars_encode_utf8};

use crate::bytes::{byte_strings, owned, same_bytes};
use crate::failure::{failure, Failure};
use crate::release_build::PackageProfile;

verus! {

/// How the release tool is used.
pub const USAGE: &'static str =
    "usage: cargo xtask <check-source|check-sdk|package [--debug]|sign|notarize|local-cargo <arguments...>>";

/// A task of the release tool.
#[derive(Debug)]
pub enum Task {
    CheckSource,
    CheckSdk,
    Package(PackageProfile),
    Sign,
    Notarize,
    /// Run Cargo with these arguments on a checkout of libneo.
    LocalCargo(Vec<Vec<u8>>),
}

/// The model of a `Task`.
pub enum Job {
    CheckSource,
    CheckSdk,
    Package(PackageProfile),
    Sign,
    Notarize,
    LocalCargo(Seq<Seq<u8>>),
}

impl View for Task {
    type V = Job;

    open spec fn view(&self) -> Job {
        match self {
            Task::CheckSource => Job::CheckSource,
            Task::CheckSdk => Job::CheckSdk,
            Task::Package(profile) => Job::Package(*profile),
            Task::Sign => Job::Sign,
            Task::Notarize => Job::Notarize,
            Task::LocalCargo(arguments) => Job::LocalCargo(byte_strings(arguments@)),
        }
    }
}

/// The task that the arguments ask for.
pub open spec fn job_of(arguments: Seq<Seq<u8>>) -> Result<Job, Seq<char>> {
    if arguments == seq![encode_utf8("check-source"@)] {
        Ok(Job::CheckSource)
    } else if arguments == seq![encode_utf8("check-sdk"@)] {
        Ok(Job::CheckSdk)
    } else if arguments == seq![encode_utf8("package"@)] {
        Ok(Job::Package(PackageProfile::Release))
    } else if arguments == seq![encode_utf8("package"@), encode_utf8("--debug"@)] {
        Ok(Job::Package(PackageProfile::Debug))
    } else if arguments == seq![encode_utf8("sign"@)] {
        Ok(Job::Sign)
    } else if arguments == seq![encode_utf8("notarize"@)] {
        Ok(Job::Notarize)
    } else if arguments.len() > 1 && arguments[0] == encode_utf8("local-cargo"@) {
        Ok(Job::LocalCargo(arguments.skip(1)))
    } else {
        Err(USAGE@)
    }
}

/// A result with a task replaced by its model, and its refusal by its text.
pub open spec fn job_outcome(result: Result<Task, Failure>) -> Result<Job, Seq<char>> {
    match result {
        Ok(task) => Ok(task@),
        Err(refusal) => Err(refusal@),
    }
}

/// Whether the arguments are one word.
fn is_word(arguments: &Vec<Vec<u8>>, word: &str) -> (r: bool)
    ensures
        r == (byte_strings(arguments@) == seq![encode_utf8(word@)]),
{
    let r = arguments.len() == 1 && same_bytes(arguments[0].as_slice(), word.as_bytes());
    proof {
        let all = byte_strings(arguments@);
        let wanted = seq![encode_utf8(word@)];
        if r {
            assert(all == wanted);
        } else if all == wanted {
            assert(all.len() == 1 && all[0] == wanted[0]);
        }
    }
    r
}

/// Whether the arguments are two words.
fn is_pair(arguments: &Vec<Vec<u8>>, first: &str, second: &str) -> (r: bool)
    ensures
        r == (byte_strings(arguments@) == seq![encode_utf8(first@), encode_utf8(second@)]),
{
    let r = arguments.len() == 2 && same_bytes(arguments[0].as_slice(), first.as_bytes())
        && same_bytes(arguments[1].as_slice(), second.as_bytes());
    proof {
        let all = byte_strings(arguments@);
        let wanted = seq![encode_utf8(first@), encode_utf8(second@)];
        if r {
            assert(all == wanted);
        } else if all == wanted {
            assert(all.len() == 2 && all[0] == wanted[0] && all[1] == wanted[1]);
        }
    }
    r
}

/// The task that the arguments ask for.
pub fn parse_arguments(arguments: &Vec<Vec<u8>>) -> (result: Result<Task, Failure>)
    ensures
        job_outcome(result) == job_of(byte_strings(arguments@)),
{
    if is_word(arguments, "check-source") {
        return Ok(Task::CheckSource);
    }
    if is_word(arguments, "check-sdk") {
        return Ok(Task::CheckSdk);
    }
    if is_word(arguments, "package") {
        return Ok(Task::Package(PackageProfile::Release));
    }
    if is_pair(arguments, "package", "--debug") {
        return Ok(Task::Package(PackageProfile::Debug));
    }
    if is_word(arguments, "sign") {
        return Ok(Task::Sign);
    }
    if is_word(arguments, "notarize") {
        return Ok(Task::Notarize);
    }
    let ghost all = byte_strings(arguments@);
    if arguments.len() > 1 && same_bytes(arguments[0].as_slice(), "local-cargo".as_bytes()) {
        let mut rest: Vec<Vec<u8>> = Vec::new();
        let mut i: usize = 1;
        while i < arguments.len()
            invariant
                1 <= i <= arguments@.len(),
                rest@.len() == i - 1,
                forall|k: int| 0 <= k < rest@.len() ==> (#[trigger] rest@[k])@ == arguments@[k + 1]@,
            decreases arguments@.len() - i,
        {
            rest.push(owned(arguments[i].as_slice()));
            i += 1;
        }
        assert(byte_strings(rest@) == all.skip(1));
        return Ok(Task::LocalCargo(rest));
    }
    Err(failure(USAGE))
}

/// Nothing is done without a task that the usage names, and only the arguments of Cargo are more than
/// an option.
pub proof fn law_only_known_tasks_are_accepted(arguments: Seq<Seq<u8>>)
    ensures
        arguments.len() == 0 ==> job_of(arguments) == Err::<Job, Seq<char>>(USAGE@),
        arguments.len() > 2 && job_of(arguments) is Ok ==> arguments[0] == encode_utf8(
            "local-cargo"@,
        ) && job_of(arguments) == Ok::<Job, Seq<char>>(Job::LocalCargo(arguments.skip(1))),
{
    let n = arguments.len();
    assert(n != 1 ==> forall|word: Seq<char>| arguments != #[trigger] seq![encode_utf8(word)]) by {
        assert forall|word: Seq<char>| n != 1 implies arguments != #[trigger] seq![
            encode_utf8(word),
        ] by {
            assert(seq![encode_utf8(word)].len() == 1);
        }
    }
    assert(seq![encode_utf8("package"@), encode_utf8("--debug"@)].len() == 2);
}

/// Packaging takes the release profile by default, and the debug profile where it is asked for.
pub proof fn law_release_is_the_default(arguments: Seq<Seq<u8>>)
    ensures
        job_of(arguments) == Ok::<Job, Seq<char>>(Job::Package(PackageProfile::Release)) <==> arguments
            == seq![encode_utf8("package"@)],
        job_of(arguments) == Ok::<Job, Seq<char>>(Job::Package(PackageProfile::Debug)) <==> arguments
            == seq![encode_utf8("package"@), encode_utf8("--debug"@)],
{
    reveal_strlit("package");
    reveal_strlit("check-source");
    reveal_strlit("check-sdk");
    is_ascii_chars_encode_utf8("package"@);
    is_ascii_chars_encode_utf8("check-source"@);
    is_ascii_chars_encode_utf8("check-sdk"@);
    let asked = seq![encode_utf8("package"@)];
    assert(asked.len() == 1 && asked[0].len() == 7);
    assert(seq![encode_utf8("check-source"@)][0].len() == 12);
    assert(seq![encode_utf8("check-sdk"@)][0].len() == 9);
    let debug = seq![encode_utf8("package"@), encode_utf8("--debug"@)];
    assert(debug.len() == 2);
    assert forall|word: Seq<char>| debug != #[trigger] seq![encode_utf8(word)] by {
        assert(seq![encode_utf8(word)].len() == 1);
    }
}

/// Each task is asked for by its own word alone, and Cargo is run on a checkout of libneo with all the
/// arguments behind the word for it, of which there is at least one.
pub proof fn law_tasks_are_asked_for_by_their_words(arguments: Seq<Seq<u8>>)
    ensures
        job_of(seq![encode_utf8("check-source"@)]) == Ok::<Job, Seq<char>>(Job::CheckSource),
        job_of(seq![encode_utf8("check-sdk"@)]) == Ok::<Job, Seq<char>>(Job::CheckSdk),
        job_of(seq![encode_utf8("sign"@)]) == Ok::<Job, Seq<char>>(Job::Sign),
        job_of(seq![encode_utf8("notarize"@)]) == Ok::<Job, Seq<char>>(Job::Notarize),
        job_of(arguments) == Ok::<Job, Seq<char>>(Job::CheckSource) ==> arguments == seq![
            encode_utf8("check-source"@),
        ],
        job_of(arguments) == Ok::<Job, Seq<char>>(Job::CheckSdk) ==> arguments == seq![
            encode_utf8("check-sdk"@),
        ],
        job_of(arguments) == Ok::<Job, Seq<char>>(Job::Sign) ==> arguments == seq![
            encode_utf8("sign"@),
        ],
        job_of(arguments) == Ok::<Job, Seq<char>>(Job::Notarize) ==> arguments == seq![
            encode_utf8("notarize"@),
        ],
        job_of(arguments) is Err ==> job_of(arguments)->Err_0
            == "usage: cargo xtask <check-source|check-sdk|package [--debug]|sign|notarize|local-cargo <arguments...>>"@,
{
    reveal_strlit("package");
    reveal_strlit("check-source");
    reveal_strlit("check-sdk");
    reveal_strlit("sign");
    reveal_strlit("notarize");
    is_ascii_chars_encode_utf8("package"@);
    is_ascii_chars_encode_utf8("check-source"@);
    is_ascii_chars_encode_utf8("check-sdk"@);
    is_ascii_chars_encode_utf8("sign"@);
    is_ascii_chars_encode_utf8("notarize"@);
    let source = seq![encode_utf8("check-source"@)];
    let sdk = seq![encode_utf8("check-sdk"@)];
    let package = seq![encode_utf8("package"@)];
    let debug = seq![encode_utf8("package"@), encode_utf8("--debug"@)];
    let sign = seq![encode_utf8("sign"@)];
    let notarize = seq![encode_utf8("notarize"@)];
    assert(source.len() == 1 && source[0].len() == 12);
    assert(sdk.len() == 1 && sdk[0].len() == 9);
    assert(package.len() == 1 && package[0].len() == 7);
    assert(debug.len() == 2);
    assert(sign.len() == 1 && sign[0].len() == 4);
    assert(notarize.len() == 1 && notarize[0].len() == 8);
}

/// Whatever stands behind the word for it is handed to Cargo, in its order.
pub proof fn law_all_arguments_reach_cargo(behind: Seq<Seq<u8>>)
    requires
        behind.len() > 0,
    ensures
        job_of(seq![encode_utf8("local-cargo"@)] + behind) == Ok::<Job, Seq<char>>(
            Job::LocalCargo(behind),
        ),
        job_of(seq![encode_utf8("local-cargo"@)]) is Err,
{
    reveal_strlit("package");
    reveal_strlit("check-source");
    reveal_strlit("check-sdk");
    reveal_strlit("sign");
    reveal_strlit("notarize");
    reveal_strlit("local-cargo");
    is_ascii_chars_encode_utf8("package"@);
    is_ascii_chars_encode_utf8("check-source"@);
    is_ascii_chars_encode_utf8("check-sdk"@);
    is_ascii_chars_encode_utf8("sign"@);
    is_ascii_chars_encode_utf8("notarize"@);
    is_ascii_chars_encode_utf8("local-cargo"@);
    let word = seq![encode_utf8("local-cargo"@)];
    let all = word + behind;
    assert(all[0].len() == 11 && word[0].len() == 11 && word.len() == 1);
    assert(all.len() > 1);
    assert(all.skip(1) =~= behind);
    assert(seq![encode_utf8("package"@), encode_utf8("--debug"@)][0].len() == 7);
    assert(seq![encode_utf8("package"@)][0].len() == 7);
    assert(seq![encode_utf8("check-source"@)][0].len() == 12);
    assert(seq![encode_utf8("check-sdk"@)][0].len() == 9);
    assert(seq![encode_utf8("sign"@)][0].len() == 4);
    assert(seq![encode_utf8("notarize"@)][0].len() == 8);
}

} // verus!
