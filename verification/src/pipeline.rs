//! What the runs share: the actions that they ask for, the events that they wait for, and the
//! sentences that they report.
//!
//! A run asks for one action after the other. Whoever performs the action hands back an event, and the
//! run moves on or refuses. An event that a run does not wait for changes nothing in what it asks for.

use vstd::prelude::*;
use vstd::utf8::encode_utf8;

use crate::bundle::{ExecutableFacts, APP};
use crate::bytes::byte_string;
use crate::command::{attempt, ran, Call, CommandOutput, Invocation};
use crate::encoding::{lossy, lossy_text};
use crate::failure::{failure, outcome, Failure};
use crate::hygiene::MachineFacts;
use crate::manifest::{manifest_in, read_text, root_metadata};
use crate::nested::Entry;
use crate::path::{join_text, joined};
use crate::release::{BundleFacts, SettingsFacts};
use crate::release_build::AliasState;
use crate::signing::{configured_team, SIGNING_TEAM_IDENTIFIER_ENV};
use crate::text::{decimal, decimal_text, join2, join5, maybe_string};

verus! {

/// What is shown of what a command writes.
#[derive(Clone, Copy, Debug, PartialEq, Eq, Structural)]
pub enum Manner {
    /// Nothing.
    Quiet,
    /// All of it, as it was written.
    Aloud,
    /// Its errors, while it runs.
    ErrorsShown,
    /// All of it, as text.
    Printed,
    /// All of it, as text, where the command succeeded.
    PrintedOnSuccess,
}

/// What a run asks for.
#[derive(Debug)]
pub enum Action {
    /// Read a variable of the environment: `Event::Variable`.
    ReadVariable(&'static str),
    /// Make this the working directory: `Event::Done`.
    Enter(Vec<u8>),
    /// Tell whether this is a directory: `Event::Answer`.
    FindDirectory(Vec<u8>),
    /// Tell whether this is a regular file: `Event::Answer`.
    FindFile(Vec<u8>),
    /// Tell whether anything is there: `Event::Answer`.
    FindAny(Vec<u8>),
    /// Read a file: `Event::Contents`.
    Read(Vec<u8>),
    /// Read a file as text: `Event::Text`.
    ReadText(Vec<u8>),
    /// Read a file that need not be there: `Event::Found`.
    ReadIfThere(Vec<u8>),
    /// Read a property list: `Event::Contents`.
    ReadPropertyList(Vec<u8>),
    /// Write these contents to this file: `Event::Done`.
    Write(Vec<u8>, Vec<u8>),
    /// Write these contents to this property list: `Event::Done`.
    WritePropertyList(Vec<u8>, Vec<u8>),
    /// Make a directory and those above it: `Event::Done`.
    MakeDirectory(Vec<u8>),
    /// Remove a file or a link: `Event::Done`.
    Remove(Vec<u8>),
    /// Look at the place of an alias: `Event::Alias`.
    LookAtAlias(Vec<u8>),
    /// Link from the second place to the first: `Event::Done`.
    Link(Vec<u8>, Vec<u8>),
    /// Look at the metadata of a file: `Event::Done`.
    Inspect(Vec<u8>),
    /// Set the permission bits of a file: `Event::Done`.
    SetMode(Vec<u8>, u32),
    /// List a directory at every depth: `Event::Entries`.
    List(Vec<u8>),
    /// Resolve a path: `Event::Resolved`.
    Resolve(Vec<u8>),
    /// Run a command to its end: `Event::Ran`.
    Run(Invocation, Manner),
    /// Run a command to its end in a directory, and show what it wrote: `Event::Ran`.
    RunIn(Vec<u8>, Invocation),
    /// Find the settings of a build of the repository: `Event::Settings`.
    FindSettings(Vec<u8>),
    /// Find the settings of a build of the repository, and its toolchain file: `Event::Build`.
    FindBuild(Vec<u8>),
    /// Find what a bundle holds, by the repository and the app: `Event::Bundle`.
    FindBundle(Vec<u8>, Vec<u8>),
    /// Find the executable of the app and the release executable: `Event::Executables`.
    FindExecutables(Vec<u8>, Vec<u8>),
    /// Find what the machine gives away, by the repository and Cargo's home and target directory:
    /// `Event::Machine`.
    FindMachine(Vec<u8>, Vec<u8>, Vec<u8>),
    /// Nothing: the run has come to its end.
    Finish,
}

/// The model of an `Action`.
pub enum Act {
    ReadVariable(Seq<char>),
    Enter(Seq<u8>),
    FindDirectory(Seq<u8>),
    FindFile(Seq<u8>),
    FindAny(Seq<u8>),
    Read(Seq<u8>),
    ReadText(Seq<u8>),
    ReadIfThere(Seq<u8>),
    ReadPropertyList(Seq<u8>),
    Write(Seq<u8>, Seq<u8>),
    WritePropertyList(Seq<u8>, Seq<u8>),
    MakeDirectory(Seq<u8>),
    Remove(Seq<u8>),
    LookAtAlias(Seq<u8>),
    Link(Seq<u8>, Seq<u8>),
    Inspect(Seq<u8>),
    SetMode(Seq<u8>, u32),
    List(Seq<u8>),
    Resolve(Seq<u8>),
    Run(Call, Manner),
    RunIn(Seq<u8>, Call),
    FindSettings(Seq<u8>),
    FindBuild(Seq<u8>),
    FindBundle(Seq<u8>, Seq<u8>),
    FindExecutables(Seq<u8>, Seq<u8>),
    FindMachine(Seq<u8>, Seq<u8>, Seq<u8>),
    Finish,
}

impl View for Action {
    type V = Act;

    open spec fn view(&self) -> Act {
        match self {
            Action::ReadVariable(name) => Act::ReadVariable(name@),
            Action::Enter(path) => Act::Enter(path@),
            Action::FindDirectory(path) => Act::FindDirectory(path@),
            Action::FindFile(path) => Act::FindFile(path@),
            Action::FindAny(path) => Act::FindAny(path@),
            Action::Read(path) => Act::Read(path@),
            Action::ReadText(path) => Act::ReadText(path@),
            Action::ReadIfThere(path) => Act::ReadIfThere(path@),
            Action::ReadPropertyList(path) => Act::ReadPropertyList(path@),
            Action::Write(path, contents) => Act::Write(path@, contents@),
            Action::WritePropertyList(path, contents) => Act::WritePropertyList(path@, contents@),
            Action::MakeDirectory(path) => Act::MakeDirectory(path@),
            Action::Remove(path) => Act::Remove(path@),
            Action::LookAtAlias(path) => Act::LookAtAlias(path@),
            Action::Link(target, alias) => Act::Link(target@, alias@),
            Action::Inspect(path) => Act::Inspect(path@),
            Action::SetMode(path, mode) => Act::SetMode(path@, *mode),
            Action::List(path) => Act::List(path@),
            Action::Resolve(path) => Act::Resolve(path@),
            Action::Run(command, manner) => Act::Run(command@, *manner),
            Action::RunIn(directory, command) => Act::RunIn(directory@, command@),
            Action::FindSettings(root) => Act::FindSettings(root@),
            Action::FindBuild(root) => Act::FindBuild(root@),
            Action::FindBundle(root, app) => Act::FindBundle(root@, app@),
            Action::FindExecutables(bundled, release) => Act::FindExecutables(
                bundled@,
                release@,
            ),
            Action::FindMachine(root, cargo_home, target) => Act::FindMachine(
                root@,
                cargo_home@,
                target@,
            ),
            Action::Finish => Act::Finish,
        }
    }
}

/// What came of an action.
#[derive(Debug)]
pub enum Event {
    /// The value of an environment variable, where it is set.
    Variable(Option<Vec<u8>>),
    /// The action was done, or the text of the reason why it could not be.
    Done(Result<(), String>),
    /// The answer to a question.
    Answer(bool),
    /// A command was run to its end, or the text of the reason why it could not be.
    Ran(Result<CommandOutput, String>),
    /// The contents of a file, or the text of the reason why it could not be read.
    Contents(Result<Vec<u8>, String>),
    /// The text of a file, or the text of the reason why it could not be read.
    Text(Result<String, String>),
    /// The contents of a file that need not be there, or the text of the reason why it could not be
    /// read.
    Found(Result<Option<Vec<u8>>, String>),
    /// What stands at the place of an alias.
    Alias(AliasState),
    /// The entries of a directory, or the text of the reason why they are not known.
    Entries(Result<Vec<Entry>, String>),
    /// What a path resolves to, or the text of the reason why it cannot be resolved.
    Resolved(Result<Vec<u8>, String>),
    /// The settings of a build.
    Settings(SettingsFacts),
    /// The settings of a build, and the text of the toolchain file or of the reason why it could not be
    /// read.
    Build(SettingsFacts, Result<String, String>),
    /// A bundle, as it was found.
    Bundle(BundleFacts),
    /// The executables, as they were found.
    Executables(ExecutableFacts),
    /// The machine, as it was found.
    Machine(MachineFacts),
}

/// What a run asked for, and what came of it.
pub struct Step {
    pub asked: Act,
    pub came: Event,
}

/// Whether this was asked for, and this came of it.
pub open spec fn answered(trace: Seq<Step>, asked: Act, came: Event) -> bool {
    trace.contains(Step { asked, came })
}

/// One more step takes nothing back.
pub proof fn lemma_answers_stay(trace: Seq<Step>, step: Step)
    ensures
        forall|asked: Act, came: Event| #[trigger]
            answered(trace, asked, came) ==> answered(trace.push(step), asked, came),
        answered(trace.push(step), step.asked, step.came),
{
    let after = trace.push(step);
    assert(after[trace.len() as int] == step);
    assert forall|asked: Act, came: Event| #[trigger] answered(trace, asked, came) implies answered(
        after,
        asked,
        came,
    ) by {
        let i = choose|i: int| 0 <= i < trace.len() && trace[i] == (Step { asked, came });
        assert(after[i] == trace[i]);
    }
}

/// Where the app of the repository at `root` lies.
pub open spec fn app_in(root: Seq<u8>) -> Seq<u8> {
    joined(root, encode_utf8(APP@))
}

/// Where the app of the repository at `root` lies.
pub fn app_path(root: &[u8]) -> (path: Vec<u8>)
    ensures
        path@ == app_in(root@),
{
    join_text(root, APP)
}

/// The sentence that reports a verified bundle.
pub open spec fn verified_text(app: Seq<u8>, attributions: nat) -> Seq<char> {
    "verified "@ + lossy(app) + " with "@ + decimal(attributions) + " crate attributions"@
}

/// The sentence that reports a verified bundle.
pub fn verified_report(app: &[u8], attributions: u64) -> (text: String)
    ensures
        text@ == verified_text(app@, attributions as nat),
{
    let shown = lossy_text(app);
    let count = decimal_text(attributions);
    join5("verified ", shown.as_str(), " with ", count.as_str(), " crate attributions")
}

/// That there is no app.
pub open spec fn missing_app(app: Seq<u8>) -> Seq<char> {
    "missing app bundle: "@ + lossy(app)
}

/// That there is no app.
pub fn missing_app_refusal(app: &[u8]) -> (refusal: Failure)
    ensures
        refusal@ == missing_app(app@),
{
    let shown = lossy_text(app);
    Failure { message: join2("missing app bundle: ", shown.as_str()) }
}

/// A step that was done, or the reason why it could not be.
pub open spec fn done_outcome(done: Result<(), String>) -> Result<(), Seq<char>> {
    match done {
        Ok(()) => Ok(()),
        Err(fault) => Err(fault@),
    }
}

/// Refuses a step that could not be done.
pub fn check_done(done: &Result<(), String>) -> (result: Result<(), Failure>)
    ensures
        outcome(result) == done_outcome(*done),
{
    match done {
        Ok(()) => Ok(()),
        Err(fault) => Err(failure(fault.as_str())),
    }
}

/// What a run comes to that may have been refused.
pub open spec fn refusal_outcome(refusal: Option<Seq<char>>) -> Result<(), Seq<char>> {
    match refusal {
        Some(refusal) => Err(refusal),
        None => Ok(()),
    }
}

/// Refuses a run that was refused.
pub fn check_refusal(refusal: &Option<String>) -> (result: Result<(), Failure>)
    ensures
        outcome(result) == refusal_outcome(maybe_string(*refusal)),
{
    match refusal {
        Some(refusal) => Err(failure(refusal.as_str())),
        None => Ok(()),
    }
}

/// Whether the team that must sign was read from the environment.
#[verifier::opaque]
pub open spec fn team_was_named(trace: Seq<Step>, team: Seq<char>) -> bool {
    exists|came: Event| #[trigger]
        answered(trace, Act::ReadVariable(SIGNING_TEAM_IDENTIFIER_ENV@), came) && (
        came matches Event::Variable(value) && configured_team(byte_string(value)) == Ok::<
            Seq<char>,
            Seq<char>,
        >(team))
}

/// One more step takes nothing back.
pub proof fn lemma_team_stays(trace: Seq<Step>, step: Step, team: Seq<char>)
    requires
        team_was_named(trace, team),
    ensures
        team_was_named(trace.push(step), team),
{
    reveal(team_was_named);
    lemma_answers_stay(trace, step);
}

/// Whether a command was run, with success.
#[verifier::opaque]
pub open spec fn was_run(trace: Seq<Step>, command: Call, manner: Manner) -> bool {
    exists|came: Event| #[trigger]
        answered(trace, Act::Run(command, manner), came) && (came matches Event::Ran(attempted)
            && ran(command, attempt(attempted)) is Ok)
}

/// One more step takes nothing back, and a command that it ran with success was run.
pub proof fn lemma_runs_stay(trace: Seq<Step>, step: Step, command: Call, manner: Manner)
    requires
        was_run(trace, command, manner) || (step.asked == Act::Run(command, manner) && (
        step.came matches Event::Ran(attempted) && ran(command, attempt(attempted)) is Ok)),
    ensures
        was_run(trace.push(step), command, manner),
{
    reveal(was_run);
    lemma_answers_stay(trace, step);
}

/// Whether the manifest was read, and gives the app this identifier.
#[verifier::opaque]
pub open spec fn identifier_was_read(
    trace: Seq<Step>,
    root: Seq<u8>,
    identifier: Seq<char>,
) -> bool {
    exists|came: Event| #[trigger]
        answered(trace, Act::ReadText(manifest_in(root)), came) && (
        came matches Event::Text(manifest) && (root_metadata(
            root,
            read_text(manifest),
        ) matches Ok(metadata) && metadata.identifier == identifier))
}

/// One more step takes nothing back.
pub proof fn lemma_identifier_stays(
    trace: Seq<Step>,
    step: Step,
    root: Seq<u8>,
    identifier: Seq<char>,
)
    requires
        identifier_was_read(trace, root, identifier),
    ensures
        identifier_was_read(trace.push(step), root, identifier),
{
    reveal(identifier_was_read);
    lemma_answers_stay(trace, step);
}

} // verus!
