//! The run that notarizes a signed release.

use vstd::prelude::*;
use vstd::utf8::encode_utf8;

use crate::bundle::ExecutableMatch;
use crate::bytes::{byte_string, owned};
use crate::command::{
    attempt, call, command_output, completed, ran, run_command, with, with_text, Call,
    CommandOutput, Invocation,
};
use crate::environment::{release_executable_of, Environment};
use crate::failure::{failure, Failure};
use crate::manifest::{manifest_in, manifest_metadata, manifest_path, read_text, root_metadata};
use crate::notary::{
    archive_outcome, entries_call, entries_command, read_submission, validate_notary_log,
    verify_notary_archive, written_answer, written_log_outcome, NOTARY_ARCHIVE, NOTARY_PROFILE,
};
use crate::path::{join_text, joined};
use crate::pipeline::{
    answered, app_in, app_path, check_done, done_outcome, identifier_was_read, lemma_answers_stay,
    lemma_runs_stay, lemma_team_stays, missing_app, missing_app_refusal, team_was_named, was_run,
    Act, Action, Event, Manner, Step,
};
use crate::signatures::{
    all_were_accepted, check_action, check_next, check_start, is_sound,
    law_done_checks_accepted_every_item, lemma_sound_keeps, lemma_sound_starts, lemma_sound_stays,
    lemma_sound_step, maybe_check, CheckStage, Checking, SignatureCheck,
};
use crate::signing::{
    assess_call, assess_command, configured_signing_team_identifier, configured_team,
    is_team_identifier, verify_call, verify_command, SIGNING_TEAM_IDENTIFIER_ENV,
};
use crate::text::{join2, join4, same_text, texts};
use crate::verification::{
    is_verified, lemma_verified_keeps, lemma_verified_starts, lemma_verified_stays,
    lemma_verified_step, maybe_verification, release_was_verified, told, verify_action, verify_next,
    verify_start, ReleaseCheck, VerifyStage, Verifying,
};

verus! {

/// How far a notarizing run has come.
#[derive(Clone, Copy, Debug, PartialEq, Eq, Structural)]
pub enum NotarizeStage {
    ReadingTeam,
    Entering,
    FindingApp,
    /// The release is verified, step by step.
    Verifying,
    VerifyingSignatures,
    ReadingManifest,
    /// The signatures of the app are checked, one item after the other.
    CheckingSignatures,
    FindingArchive,
    RemovingArchive,
    Archiving,
    ListingArchive,
    Submitting,
    FetchingLog,
    Stapling,
    ValidatingStaple,
    Assessing,
    Finished,
}

/// A notarizing run.
#[derive(Debug)]
pub struct NotarizeRun {
    root: Vec<u8>,
    /// The release executable that Cargo is configured to build.
    executable: Vec<u8>,
    stage: NotarizeStage,
    /// The team that must have signed.
    team: String,
    /// The identifier of the app.
    identifier: String,
    /// The verification of the release, once it has begun.
    verification: Option<ReleaseCheck>,
    /// The check of the signatures, once it has begun.
    check: Option<SignatureCheck>,
    /// Whether the command that submitted the archive succeeded.
    succeeded: bool,
    /// The number and the status of the submission.
    submission: String,
    status: String,
    /// The sentences that report the last step.
    reports: Vec<String>,
}

/// The model of a `NotarizeRun`.
#[verifier::ext_equal]
pub struct Notarizing {
    pub root: Seq<u8>,
    pub executable: Seq<u8>,
    pub stage: NotarizeStage,
    pub team: Seq<char>,
    pub identifier: Seq<char>,
    pub verification: Option<Verifying>,
    pub check: Option<Checking>,
    pub succeeded: bool,
    pub submission: Seq<char>,
    pub status: Seq<char>,
    pub reports: Seq<Seq<char>>,
}

impl View for NotarizeRun {
    type V = Notarizing;

    closed spec fn view(&self) -> Notarizing {
        Notarizing {
            root: self.root@,
            executable: self.executable@,
            stage: self.stage,
            team: self.team@,
            identifier: self.identifier@,
            verification: maybe_verification(self.verification),
            check: maybe_check(self.check),
            succeeded: self.succeeded,
            submission: self.submission@,
            status: self.status@,
            reports: texts(self.reports@),
        }
    }
}

/// The run before its first event.
pub open spec fn notarize_start(root: Seq<u8>, executable: Seq<u8>) -> Notarizing {
    Notarizing {
        root,
        executable,
        stage: NotarizeStage::ReadingTeam,
        team: Seq::empty(),
        identifier: Seq::empty(),
        verification: None,
        check: None,
        succeeded: false,
        submission: Seq::empty(),
        status: Seq::empty(),
        reports: Seq::empty(),
    }
}

/// Where the archive for the notary service lies.
pub open spec fn archive_in(root: Seq<u8>) -> Seq<u8> {
    joined(root, encode_utf8(NOTARY_ARCHIVE@))
}

/// Where the archive for the notary service lies.
pub fn archive_path(root: &[u8]) -> (path: Vec<u8>)
    ensures
        path@ == archive_in(root@),
{
    join_text(root, NOTARY_ARCHIVE)
}

/// The command that archives the app.
pub open spec fn archive_call(app: Seq<u8>, archive: Seq<u8>) -> Call {
    let command = with_text(with_text(call("ditto"@), "-c"@), "-k"@);
    let command = with_text(with_text(command, "--keepParent"@), "--sequesterRsrc"@);
    with(with(command, app), archive)
}

/// The command that archives the app.
pub fn archive_command(app: &[u8], archive: &[u8]) -> (command: Invocation)
    ensures
        command@ == archive_call(app@, archive@),
{
    Invocation::new("ditto").text("-c").text("-k").text("--keepParent").text(
        "--sequesterRsrc",
    ).arg(app).arg(archive)
}

/// The command that submits the archive and waits for the answer.
pub open spec fn submit_call(archive: Seq<u8>) -> Call {
    let command = with_text(with_text(call("xcrun"@), "notarytool"@), "submit"@);
    let command = with_text(with(command, archive), "--keychain-profile"@);
    let command = with_text(with_text(command, NOTARY_PROFILE@), "--wait"@);
    with_text(with_text(command, "--output-format"@), "plist"@)
}

/// The command that submits the archive and waits for the answer.
pub fn submit_command(archive: &[u8]) -> (command: Invocation)
    ensures
        command@ == submit_call(archive@),
{
    Invocation::new("xcrun").text("notarytool").text("submit").arg(archive).text(
        "--keychain-profile",
    ).text(NOTARY_PROFILE).text("--wait").text("--output-format").text("plist")
}

/// The command that fetches the log of a submission.
pub open spec fn log_call(submission: Seq<char>) -> Call {
    let command = with_text(with_text(call("xcrun"@), "notarytool"@), "log"@);
    with_text(
        with_text(with_text(command, submission), "--keychain-profile"@),
        NOTARY_PROFILE@,
    )
}

/// The command that fetches the log of a submission.
pub fn log_command(submission: &str) -> (command: Invocation)
    ensures
        command@ == log_call(submission@),
{
    Invocation::new("xcrun").text("notarytool").text("log").text(submission).text(
        "--keychain-profile",
    ).text(NOTARY_PROFILE)
}

/// The command that staples the ticket to the app, or validates it there.
pub open spec fn stapler_call(action: Seq<char>, app: Seq<u8>) -> Call {
    with(with_text(with_text(call("xcrun"@), "stapler"@), action), app)
}

/// The command that staples the ticket to the app, or validates it there.
pub fn stapler_command(action: &str, app: &[u8]) -> (command: Invocation)
    ensures
        command@ == stapler_call(action@, app@),
{
    Invocation::new("xcrun").text("stapler").text(action).arg(app)
}

/// The run at another stage, with nothing to report.
pub open spec fn at(run: Notarizing, stage: NotarizeStage) -> Notarizing {
    Notarizing { stage, reports: Seq::empty(), ..run }
}

/// The run after an event.
pub open spec fn notarize_next(run: Notarizing, event: Event) -> Result<Notarizing, Seq<char>> {
    let app = app_in(run.root);
    let archive = archive_in(run.root);
    match (run.stage, event) {
        (NotarizeStage::ReadingTeam, Event::Variable(value)) => match configured_team(
            byte_string(value),
        ) {
            Err(refusal) => Err(refusal),
            Ok(team) => Ok(Notarizing { team, ..at(run, NotarizeStage::Entering) }),
        },
        (NotarizeStage::Entering, Event::Done(done)) => match done_outcome(done) {
            Err(fault) => Err(fault),
            Ok(()) => Ok(at(run, NotarizeStage::FindingApp)),
        },
        (NotarizeStage::FindingApp, Event::Answer(found)) => if found {
            Ok(
                Notarizing {
                    verification: Some(
                        verify_start(run.root, app, run.executable, ExecutableMatch::Stable),
                    ),
                    ..at(run, NotarizeStage::Verifying)
                },
            )
        } else {
            Err(missing_app(app))
        },
        (NotarizeStage::Verifying, event) => match run.verification {
            None => Ok(run),
            Some(verification) => match verify_next(verification, event) {
                Err(refusal) => Err(refusal),
                Ok(next) => Ok(
                    if next.stage == VerifyStage::Done {
                        Notarizing {
                            verification: Some(next),
                            reports: told(next),
                            ..at(run, NotarizeStage::VerifyingSignatures)
                        }
                    } else {
                        Notarizing {
                            verification: Some(next),
                            reports: next.reports,
                            ..at(run, NotarizeStage::Verifying)
                        }
                    },
                ),
            },
        },
        (NotarizeStage::VerifyingSignatures, Event::Ran(attempted)) => match ran(
            verify_call(app),
            attempt(attempted),
        ) {
            Err(refusal) => Err(refusal),
            Ok(()) => Ok(at(run, NotarizeStage::ReadingManifest)),
        },
        (NotarizeStage::ReadingManifest, Event::Text(manifest)) => match root_metadata(
            run.root,
            read_text(manifest),
        ) {
            Err(refusal) => Err(refusal),
            Ok(metadata) => Ok(
                Notarizing {
                    identifier: metadata.identifier,
                    check: Some(check_start(app, metadata.identifier, run.team)),
                    ..at(run, NotarizeStage::CheckingSignatures)
                },
            ),
        },
        (NotarizeStage::CheckingSignatures, event) => match run.check {
            None => Ok(run),
            Some(check) => match check_next(check, event) {
                Err(refusal) => Err(refusal),
                Ok(next) => Ok(
                    Notarizing {
                        check: Some(next),
                        ..at(
                            run,
                            if next.stage == CheckStage::Done {
                                NotarizeStage::FindingArchive
                            } else {
                                NotarizeStage::CheckingSignatures
                            },
                        )
                    },
                ),
            },
        },
        (NotarizeStage::FindingArchive, Event::Answer(found)) => if found {
            Ok(at(run, NotarizeStage::RemovingArchive))
        } else {
            Ok(at(run, NotarizeStage::Archiving))
        },
        (NotarizeStage::RemovingArchive, Event::Done(done)) => match done_outcome(done) {
            Err(fault) => Err(fault),
            Ok(()) => Ok(at(run, NotarizeStage::Archiving)),
        },
        (NotarizeStage::Archiving, Event::Ran(attempted)) => match ran(
            archive_call(app, archive),
            attempt(attempted),
        ) {
            Err(refusal) => Err(refusal),
            Ok(()) => Ok(at(run, NotarizeStage::ListingArchive)),
        },
        (NotarizeStage::ListingArchive, Event::Ran(attempted)) => match archive_outcome(
            archive,
            attempt(attempted),
        ) {
            Err(refusal) => Err(refusal),
            Ok(report) => Ok(
                Notarizing { reports: seq![report], ..at(run, NotarizeStage::Submitting) },
            ),
        },
        (NotarizeStage::Submitting, Event::Ran(attempted)) => match attempt(attempted) {
            Err(fault) => Err(fault),
            Ok(output) => match written_answer(output.stdout) {
                Err(refusal) => Err(refusal),
                Ok(answer) => Ok(
                    Notarizing {
                        succeeded: output.success,
                        submission: answer.id,
                        status: answer.status,
                        reports: seq![
                            "notarization submission "@ + answer.id + ": "@ + answer.status,
                        ],
                        ..at(run, NotarizeStage::FetchingLog)
                    },
                ),
            },
        },
        (NotarizeStage::FetchingLog, Event::Ran(attempted)) => match completed(
            log_call(run.submission),
            attempt(attempted),
        ) {
            Err(refusal) => Err(refusal),
            Ok(log) => match written_log_outcome(log) {
                Err(refusal) => Err(refusal),
                Ok(()) => if run.succeeded && run.status == "Accepted"@ {
                    Ok(at(run, NotarizeStage::Stapling))
                } else {
                    Err(
                        "notarization submission "@ + run.submission + " finished with "@
                            + run.status,
                    )
                },
            },
        },
        (NotarizeStage::Stapling, Event::Ran(attempted)) => match ran(
            stapler_call("staple"@, app),
            attempt(attempted),
        ) {
            Err(refusal) => Err(refusal),
            Ok(()) => Ok(at(run, NotarizeStage::ValidatingStaple)),
        },
        (NotarizeStage::ValidatingStaple, Event::Ran(attempted)) => match ran(
            stapler_call("validate"@, app),
            attempt(attempted),
        ) {
            Err(refusal) => Err(refusal),
            Ok(()) => Ok(at(run, NotarizeStage::Assessing)),
        },
        (NotarizeStage::Assessing, Event::Ran(attempted)) => match attempt(attempted) {
            Err(fault) => Err(fault),
            Ok(output) => if output.success {
                Ok(at(run, NotarizeStage::Finished))
            } else {
                Err("Gatekeeper assessment exited with "@ + output.status)
            },
        },
        _ => Ok(run),
    }
}

/// What a notarizing run asks for.
pub open spec fn notarize_action(run: Notarizing) -> Act {
    let app = app_in(run.root);
    let archive = archive_in(run.root);
    match run.stage {
        NotarizeStage::ReadingTeam => Act::ReadVariable(SIGNING_TEAM_IDENTIFIER_ENV@),
        NotarizeStage::Entering => Act::Enter(run.root),
        NotarizeStage::FindingApp => Act::FindDirectory(app),
        NotarizeStage::Verifying => match run.verification {
            Some(verification) => verify_action(verification),
            None => Act::Finish,
        },
        NotarizeStage::VerifyingSignatures => Act::Run(verify_call(app), Manner::Aloud),
        NotarizeStage::ReadingManifest => Act::ReadText(manifest_in(run.root)),
        NotarizeStage::CheckingSignatures => match run.check {
            Some(check) => check_action(check),
            None => Act::Finish,
        },
        NotarizeStage::FindingArchive => Act::FindAny(archive),
        NotarizeStage::RemovingArchive => Act::Remove(archive),
        NotarizeStage::Archiving => Act::Run(archive_call(app, archive), Manner::Aloud),
        NotarizeStage::ListingArchive => Act::Run(entries_call(archive), Manner::Quiet),
        NotarizeStage::Submitting => Act::Run(submit_call(archive), Manner::Printed),
        NotarizeStage::FetchingLog => Act::Run(
            log_call(run.submission),
            Manner::PrintedOnSuccess,
        ),
        NotarizeStage::Stapling => Act::Run(stapler_call("staple"@, app), Manner::Aloud),
        NotarizeStage::ValidatingStaple => Act::Run(stapler_call("validate"@, app), Manner::Aloud),
        NotarizeStage::Assessing => Act::Run(assess_call(app), Manner::Quiet),
        NotarizeStage::Finished => Act::Finish,
    }
}

/// A result with a run replaced by its model, and its refusal by its text.
pub open spec fn notarize_outcome(result: Result<NotarizeRun, Failure>) -> Result<
    Notarizing,
    Seq<char>,
> {
    match result {
        Ok(run) => Ok(run@),
        Err(refusal) => Err(refusal@),
    }
}

impl NotarizeRun {
    /// The run before its first event.
    pub fn start(root: &[u8], environment: &Environment) -> (run: Self)
        ensures
            run@ == notarize_start(root@, release_executable_of(environment@, root@)),
    {
        let executable = environment.configured_release_executable(root);
        let run = NotarizeRun {
            root: owned(root),
            executable,
            stage: NotarizeStage::ReadingTeam,
            team: String::new(),
            identifier: String::new(),
            verification: None,
            check: None,
            succeeded: false,
            submission: String::new(),
            status: String::new(),
            reports: Vec::new(),
        };
        assert(run@ =~= notarize_start(root@, release_executable_of(environment@, root@)));
        run
    }

    /// How far the run has come.
    pub fn stage(&self) -> (stage: NotarizeStage)
        ensures
            stage == self@.stage,
    {
        self.stage
    }

    /// The sentences that report the last step.
    pub fn reports(&self) -> (reports: &[String])
        ensures
            texts(reports@) == self@.reports,
    {
        self.reports.as_slice()
    }

    /// What the run asks for.
    pub fn action(&self) -> (action: Action)
        ensures
            action@ == notarize_action(self@),
    {
        let app = app_path(self.root.as_slice());
        let archive = archive_path(self.root.as_slice());
        match self.stage {
            NotarizeStage::ReadingTeam => Action::ReadVariable(SIGNING_TEAM_IDENTIFIER_ENV),
            NotarizeStage::Entering => Action::Enter(owned(self.root.as_slice())),
            NotarizeStage::FindingApp => Action::FindDirectory(app),
            NotarizeStage::Verifying => match &self.verification {
                Some(verification) => verification.action(),
                None => Action::Finish,
            },
            NotarizeStage::VerifyingSignatures => Action::Run(
                verify_command(app.as_slice()),
                Manner::Aloud,
            ),
            NotarizeStage::ReadingManifest => Action::ReadText(
                manifest_path(self.root.as_slice()),
            ),
            NotarizeStage::CheckingSignatures => match &self.check {
                Some(check) => check.action(),
                None => Action::Finish,
            },
            NotarizeStage::FindingArchive => Action::FindAny(archive),
            NotarizeStage::RemovingArchive => Action::Remove(archive),
            NotarizeStage::Archiving => Action::Run(
                archive_command(app.as_slice(), archive.as_slice()),
                Manner::Aloud,
            ),
            NotarizeStage::ListingArchive => Action::Run(
                entries_command(archive.as_slice()),
                Manner::Quiet,
            ),
            NotarizeStage::Submitting => Action::Run(
                submit_command(archive.as_slice()),
                Manner::Printed,
            ),
            NotarizeStage::FetchingLog => Action::Run(
                log_command(self.submission.as_str()),
                Manner::PrintedOnSuccess,
            ),
            NotarizeStage::Stapling => Action::Run(
                stapler_command("staple", app.as_slice()),
                Manner::Aloud,
            ),
            NotarizeStage::ValidatingStaple => Action::Run(
                stapler_command("validate", app.as_slice()),
                Manner::Aloud,
            ),
            NotarizeStage::Assessing => Action::Run(
                assess_command(app.as_slice()),
                Manner::Quiet,
            ),
            NotarizeStage::Finished => Action::Finish,
        }
    }

    /// The run at another stage, with nothing to report.
    fn moved(self, stage: NotarizeStage) -> (run: Self)
        ensures
            run@ == at(self@, stage),
    {
        let ghost before = self@;
        let run = NotarizeRun { stage, reports: Vec::new(), ..self };
        assert(run@ =~= at(before, stage));
        run
    }

    /// The run at another stage, with one sentence to report.
    fn moved_with(self, stage: NotarizeStage, report: String) -> (run: Self)
        ensures
            run@ == (Notarizing { reports: seq![report@], ..at(self@, stage) }),
    {
        let ghost wanted = Notarizing { reports: seq![report@], ..at(self@, stage) };
        let run = NotarizeRun { stage, reports: vec![report], ..self };
        assert(run@ =~= wanted);
        run
    }

    /// The run at the stage after a command that must succeed.
    fn after_command(
        self,
        command: &Invocation,
        attempted: &Result<CommandOutput, String>,
        stage: NotarizeStage,
    ) -> (result: Result<Self, Failure>)
        ensures
            notarize_outcome(result) == (match ran(command@, attempt(*attempted)) {
                Err(refusal) => Err(refusal),
                Ok(()) => Ok(at(self@, stage)),
            }),
    {
        match run_command(command, attempted) {
            Ok(()) => Ok(self.moved(stage)),
            Err(refusal) => Err(refusal),
        }
    }

    /// The run after the notary service answered.
    fn with_answer(self, attempted: &Result<CommandOutput, String>) -> (result: Result<
        Self,
        Failure,
    >)
        requires
            self@.stage == NotarizeStage::Submitting,
        ensures
            notarize_outcome(result) == notarize_next(self@, Event::Ran(*attempted)),
    {
        let output = match attempted {
            Ok(output) => output,
            Err(fault) => return Err(failure(fault.as_str())),
        };
        let answer = match read_submission(output.stdout.as_slice()) {
            Ok(answer) => answer,
            Err(refusal) => return Err(refusal),
        };
        let report = join4(
            "notarization submission ",
            answer.id.as_str(),
            ": ",
            answer.status.as_str(),
        );
        let mut run = self.moved_with(NotarizeStage::FetchingLog, report);
        run.succeeded = output.success;
        run.submission = answer.id;
        run.status = answer.status;
        Ok(run)
    }

    /// The run after the log of the submission was fetched.
    fn with_log(self, attempted: &Result<CommandOutput, String>) -> (result: Result<Self, Failure>)
        requires
            self@.stage == NotarizeStage::FetchingLog,
        ensures
            notarize_outcome(result) == notarize_next(self@, Event::Ran(*attempted)),
    {
        let log = match command_output(&log_command(self.submission.as_str()), attempted) {
            Ok(log) => log,
            Err(refusal) => return Err(refusal),
        };
        match validate_notary_log(log) {
            Ok(()) => {},
            Err(refusal) => return Err(refusal),
        }
        if self.succeeded && same_text(self.status.as_str(), "Accepted") {
            Ok(self.moved(NotarizeStage::Stapling))
        } else {
            Err(
                Failure {
                    message: join4(
                        "notarization submission ",
                        self.submission.as_str(),
                        " finished with ",
                        self.status.as_str(),
                    ),
                },
            )
        }
    }

    /// The run after a command was run for it.
    fn with_command(self, attempted: &Result<CommandOutput, String>) -> (result: Result<
        Self,
        Failure,
    >)
        requires
            self.stage != NotarizeStage::Verifying,
            self.stage != NotarizeStage::CheckingSignatures,
        ensures
            notarize_outcome(result) == notarize_next(self@, Event::Ran(*attempted)),
    {
        let app = app_path(self.root.as_slice());
        let archive = archive_path(self.root.as_slice());
        match self.stage {
            NotarizeStage::VerifyingSignatures => self.after_command(
                &verify_command(app.as_slice()),
                attempted,
                NotarizeStage::ReadingManifest,
            ),
            NotarizeStage::Archiving => self.after_command(
                &archive_command(app.as_slice(), archive.as_slice()),
                attempted,
                NotarizeStage::ListingArchive,
            ),
            NotarizeStage::ListingArchive => match verify_notary_archive(
                archive.as_slice(),
                attempted,
            ) {
                Ok(report) => Ok(self.moved_with(NotarizeStage::Submitting, report)),
                Err(refusal) => Err(refusal),
            },
            NotarizeStage::Submitting => self.with_answer(attempted),
            NotarizeStage::FetchingLog => self.with_log(attempted),
            NotarizeStage::Stapling => self.after_command(
                &stapler_command("staple", app.as_slice()),
                attempted,
                NotarizeStage::ValidatingStaple,
            ),
            NotarizeStage::ValidatingStaple => self.after_command(
                &stapler_command("validate", app.as_slice()),
                attempted,
                NotarizeStage::Assessing,
            ),
            NotarizeStage::Assessing => match attempted {
                Err(fault) => Err(failure(fault.as_str())),
                Ok(output) => if output.success {
                    Ok(self.moved(NotarizeStage::Finished))
                } else {
                    Err(
                        Failure {
                            message: join2(
                                "Gatekeeper assessment exited with ",
                                output.status.as_str(),
                            ),
                        },
                    )
                },
            },
            _ => Ok(self),
        }
    }

    /// The run after it learned which team must have signed.
    fn with_team(self, value: &Option<Vec<u8>>) -> (result: Result<Self, Failure>)
        requires
            self@.stage == NotarizeStage::ReadingTeam,
        ensures
            notarize_outcome(result) == notarize_next(self@, Event::Variable(*value)),
    {
        let value = match value {
            Some(value) => Some(value.as_slice()),
            None => None,
        };
        match configured_signing_team_identifier(value) {
            Ok(team) => {
                let mut run = self.moved(NotarizeStage::Entering);
                run.team = team;
                Ok(run)
            },
            Err(refusal) => Err(refusal),
        }
    }

    /// The run after an event for the verification of the release.
    fn with_verification(self, event: &Event) -> (result: Result<Self, Failure>)
        requires
            self@.stage == NotarizeStage::Verifying,
        ensures
            notarize_outcome(result) == notarize_next(self@, *event),
    {
        let ghost before = self@;
        let mut run = self;
        match run.verification {
            None => {
                run.verification = None;
                assert(run@ =~= before);
                Ok(run)
            },
            Some(verification) => match verification.advance(event) {
                Ok(next) => {
                    if next.stage() == VerifyStage::Done {
                        run.stage = NotarizeStage::VerifyingSignatures;
                        run.reports = next.tell();
                    } else {
                        run.reports = next.reports();
                    }
                    run.verification = Some(next);
                    assert(run@ =~= notarize_next(before, *event)->Ok_0);
                    Ok(run)
                },
                Err(refusal) => Err(refusal),
            },
        }
    }

    /// The run after an event for the check of the signatures.
    fn with_check(self, event: &Event) -> (result: Result<Self, Failure>)
        requires
            self@.stage == NotarizeStage::CheckingSignatures,
        ensures
            notarize_outcome(result) == notarize_next(self@, *event),
    {
        let ghost before = self@;
        let mut run = self;
        match run.check {
            None => {
                run.check = None;
                assert(run@ =~= before);
                Ok(run)
            },
            Some(check) => match check.advance(event) {
                Ok(next) => {
                    run.stage = match next.stage() {
                        CheckStage::Done => NotarizeStage::FindingArchive,
                        _ => NotarizeStage::CheckingSignatures,
                    };
                    run.check = Some(next);
                    run.reports = Vec::new();
                    assert(run@ =~= notarize_next(before, *event)->Ok_0);
                    Ok(run)
                },
                Err(refusal) => Err(refusal),
            },
        }
    }

    /// The run after an event.
    pub fn advance(self, event: &Event) -> (result: Result<Self, Failure>)
        ensures
            notarize_outcome(result) == notarize_next(self@, *event),
    {
        match (self.stage, event) {
            (NotarizeStage::ReadingTeam, Event::Variable(value)) => self.with_team(value),
            (NotarizeStage::Entering, Event::Done(done)) => match check_done(done) {
                Ok(()) => Ok(self.moved(NotarizeStage::FindingApp)),
                Err(refusal) => Err(refusal),
            },
            (NotarizeStage::FindingApp, Event::Answer(found)) => if *found {
                let app = app_path(self.root.as_slice());
                let verification = ReleaseCheck::start(
                    self.root.as_slice(),
                    app.as_slice(),
                    self.executable.as_slice(),
                    ExecutableMatch::Stable,
                );
                let mut run = self.moved(NotarizeStage::Verifying);
                run.verification = Some(verification);
                Ok(run)
            } else {
                Err(missing_app_refusal(app_path(self.root.as_slice()).as_slice()))
            },
            (NotarizeStage::Verifying, _) => self.with_verification(event),
            (NotarizeStage::ReadingManifest, Event::Text(manifest)) => match manifest_metadata(
                self.root.as_slice(),
                manifest,
            ) {
                Ok(metadata) => {
                    let app = app_path(self.root.as_slice());
                    let mut run = self.moved(NotarizeStage::CheckingSignatures);
                    run.check = Some(
                        SignatureCheck::start(
                            app.as_slice(),
                            metadata.identifier.as_str(),
                            run.team.as_str(),
                        ),
                    );
                    run.identifier = metadata.identifier;
                    Ok(run)
                },
                Err(refusal) => Err(refusal),
            },
            (NotarizeStage::CheckingSignatures, _) => self.with_check(event),
            (NotarizeStage::FindingArchive, Event::Answer(found)) => if *found {
                Ok(self.moved(NotarizeStage::RemovingArchive))
            } else {
                Ok(self.moved(NotarizeStage::Archiving))
            },
            (NotarizeStage::RemovingArchive, Event::Done(done)) => match check_done(done) {
                Ok(()) => Ok(self.moved(NotarizeStage::Archiving)),
                Err(refusal) => Err(refusal),
            },
            (_, Event::Ran(attempted)) => self.with_command(attempted),
            _ => Ok(self),
        }
    }
}

/// The run after several events.
pub open spec fn notarize_after(
    root: Seq<u8>,
    executable: Seq<u8>,
    events: Seq<Event>,
) -> Result<Notarizing, Seq<char>>
    decreases events.len(),
{
    if events.len() == 0 {
        Ok(notarize_start(root, executable))
    } else {
        match notarize_after(root, executable, events.drop_last()) {
            Err(refusal) => Err(refusal),
            Ok(run) => notarize_next(run, events.last()),
        }
    }
}

/// What the run asked for before each event, and the event.
pub open spec fn notarize_trace(
    root: Seq<u8>,
    executable: Seq<u8>,
    events: Seq<Event>,
) -> Seq<Step>
    decreases events.len(),
{
    if events.len() == 0 {
        Seq::empty()
    } else {
        let before = events.drop_last();
        notarize_trace(root, executable, before).push(
            Step {
                asked: notarize_action(notarize_after(root, executable, before)->Ok_0),
                came: events.last(),
            },
        )
    }
}

/// Whether a stage comes after the signatures were checked.
pub open spec fn past_signatures(stage: NotarizeStage) -> bool {
    ||| stage == NotarizeStage::FindingArchive
    ||| stage == NotarizeStage::RemovingArchive
    ||| stage == NotarizeStage::Archiving
    ||| past_archiving(stage)
}

/// Whether a stage comes after the app was archived.
pub open spec fn past_archiving(stage: NotarizeStage) -> bool {
    stage == NotarizeStage::ListingArchive || past_listing(stage)
}

/// Whether a stage comes after the archive was checked.
pub open spec fn past_listing(stage: NotarizeStage) -> bool {
    stage == NotarizeStage::Submitting || past_submitting(stage)
}

/// Whether a stage comes after the archive was submitted.
pub open spec fn past_submitting(stage: NotarizeStage) -> bool {
    stage == NotarizeStage::FetchingLog || past_acceptance(stage)
}

/// Whether a stage comes after the submission was accepted.
pub open spec fn past_acceptance(stage: NotarizeStage) -> bool {
    ||| stage == NotarizeStage::Stapling
    ||| stage == NotarizeStage::ValidatingStaple
    ||| stage == NotarizeStage::Assessing
    ||| stage == NotarizeStage::Finished
}

/// Whether a stage comes after the release was verified.
pub open spec fn past_verifying(stage: NotarizeStage) -> bool {
    ||| stage == NotarizeStage::VerifyingSignatures
    ||| stage == NotarizeStage::ReadingManifest
    ||| stage == NotarizeStage::CheckingSignatures
    ||| past_signatures(stage)
}

/// Whether the log of a submission was fetched and accepted.
#[verifier::opaque]
pub open spec fn log_was_accepted(trace: Seq<Step>, submission: Seq<char>) -> bool {
    exists|came: Event| #[trigger]
        answered(
            trace,
            Act::Run(log_call(submission), Manner::PrintedOnSuccess),
            came,
        ) && (came matches Event::Ran(attempted) && completed(
            log_call(submission),
            attempt(attempted),
        ) matches Ok(log) && written_log_outcome(log) is Ok)
}

/// Whether the entries of the archive were listed, and none is an interleaved one.
#[verifier::opaque]
pub open spec fn entries_were_checked(trace: Seq<Step>, archive: Seq<u8>) -> bool {
    exists|came: Event| #[trigger]
        answered(trace, Act::Run(entries_call(archive), Manner::Quiet), came) && (
        came matches Event::Ran(attempted) && archive_outcome(archive, attempt(attempted)) is Ok)
}

/// Whether the archive was submitted, and the command ended so and told this of the submission.
#[verifier::opaque]
pub open spec fn was_submitted(
    trace: Seq<Step>,
    archive: Seq<u8>,
    succeeded: bool,
    submission: Seq<char>,
    status: Seq<char>,
) -> bool {
    exists|came: Event| #[trigger]
        answered(trace, Act::Run(submit_call(archive), Manner::Printed), came) && (
        came matches Event::Ran(attempted) && attempt(attempted) matches Ok(output)
            && output.success == succeeded && (written_answer(output.stdout) matches Ok(answer)
            && answer.id == submission && answer.status == status))
}

/// Whether Gatekeeper was asked for the app, and accepted it.
#[verifier::opaque]
pub open spec fn was_assessed(trace: Seq<Step>, app: Seq<u8>) -> bool {
    exists|came: Event| #[trigger]
        answered(trace, Act::Run(assess_call(app), Manner::Quiet), came) && (
        came matches Event::Ran(attempted) && attempt(attempted) matches Ok(output)
            && output.success)
}

/// What holds of the archive and the submission of a run that has come so far by this trace.
pub open spec fn submission_holds(root: Seq<u8>, trace: Seq<Step>, run: Notarizing) -> bool {
    let archive = archive_in(root);
    &&& past_archiving(run.stage) ==> was_run(
        trace,
        archive_call(app_in(root), archive),
        Manner::Aloud,
    )
    &&& past_listing(run.stage) ==> entries_were_checked(trace, archive)
    &&& past_submitting(run.stage) ==> was_submitted(
        trace,
        archive,
        run.succeeded,
        run.submission,
        run.status,
    )
}

/// What holds of the ticket of a run that has come so far by this trace.
pub open spec fn ticket_holds(root: Seq<u8>, trace: Seq<Step>, run: Notarizing) -> bool {
    let app = app_in(root);
    &&& run.stage == NotarizeStage::ReadingManifest || run.stage
        == NotarizeStage::CheckingSignatures || past_signatures(run.stage) ==> was_run(
        trace,
        verify_call(app),
        Manner::Aloud,
    )
    &&& run.stage == NotarizeStage::CheckingSignatures || past_signatures(run.stage)
        ==> identifier_was_read(trace, root, run.identifier)
    &&& past_acceptance(run.stage) && run.stage != NotarizeStage::Stapling ==> was_run(
        trace,
        stapler_call("staple"@, app),
        Manner::Aloud,
    )
    &&& run.stage == NotarizeStage::Assessing || run.stage == NotarizeStage::Finished ==> was_run(
        trace,
        stapler_call("validate"@, app),
        Manner::Aloud,
    )
    &&& run.stage == NotarizeStage::Finished ==> was_assessed(trace, app)
}

/// What holds of a run that has come so far by this trace.
pub open spec fn notarize_holds(
    root: Seq<u8>,
    executable: Seq<u8>,
    trace: Seq<Step>,
    run: Notarizing,
) -> bool {
    &&& run.root == root && run.executable == executable
    &&& run.stage != NotarizeStage::ReadingTeam ==> team_was_named(trace, run.team)
        && is_team_identifier(run.team)
    &&& run.stage == NotarizeStage::Verifying || past_verifying(run.stage) ==> run.verification
        is Some
    &&& run.verification matches Some(verification) ==> {
        &&& is_verified(trace, verification)
        &&& verification.root == root && verification.app == app_in(root)
        &&& verification.release_executable == executable && verification.closeness
            == ExecutableMatch::Stable
        &&& past_verifying(run.stage) ==> verification.stage == VerifyStage::Done
    }
    &&& run.stage == NotarizeStage::CheckingSignatures ==> run.check is Some
    &&& run.check matches Some(check) ==> {
        &&& is_sound(trace, check)
        &&& check.app == app_in(root) && check.identifier == run.identifier && check.team
            == run.team
        &&& run.stage == NotarizeStage::CheckingSignatures || past_signatures(run.stage)
    }
    &&& past_signatures(run.stage) ==> (run.check matches Some(check) && check.stage
        == CheckStage::Done)
    &&& past_acceptance(run.stage) ==> run.succeeded && run.status == "Accepted"@
        && log_was_accepted(trace, run.submission)
}

proof fn lemma_notarize_step(
    root: Seq<u8>,
    executable: Seq<u8>,
    trace: Seq<Step>,
    was: Notarizing,
    event: Event,
)
    requires
        notarize_holds(root, executable, trace, was),
        notarize_next(was, event) is Ok,
    ensures
        notarize_holds(
            root,
            executable,
            trace.push(Step { asked: notarize_action(was), came: event }),
            notarize_next(was, event)->Ok_0,
        ),
{
    let step = Step { asked: notarize_action(was), came: event };
    let after = trace.push(step);
    let run = notarize_next(was, event)->Ok_0;
    assert(answered(after, notarize_action(was), event)) by {
        lemma_answers_stay(trace, step);
    }
    if was.stage != NotarizeStage::ReadingTeam {
        lemma_team_stays(trace, step, was.team);
    } else if run.stage != NotarizeStage::ReadingTeam {
        assert(team_was_named(after, run.team)) by {
            reveal(team_was_named);
        }
    }
    if was.verification is Some {
        let verification = was.verification->Some_0;
        lemma_verified_stays(trace, step, verification);
        if was.stage == NotarizeStage::Verifying {
            lemma_verified_step(trace, step, verification);
            lemma_verified_keeps(verification, event);
        }
    }
    if was.stage == NotarizeStage::FindingApp {
        lemma_verified_starts(
            after,
            root,
            app_in(root),
            executable,
            ExecutableMatch::Stable,
        );
    }
    if was.check is Some {
        let check = was.check->Some_0;
        lemma_sound_stays(trace, step, check);
        if was.stage == NotarizeStage::CheckingSignatures {
            lemma_sound_step(trace, step, check);
            lemma_sound_keeps(check, event);
        }
    } else if run.check is Some {
        lemma_sound_starts(after, app_in(root), run.identifier, run.team);
    }
    if past_acceptance(was.stage) {
        assert(log_was_accepted(after, run.submission)) by {
            reveal(log_was_accepted);
            lemma_answers_stay(trace, step);
        }
    } else if past_acceptance(run.stage) {
        assert(log_was_accepted(after, run.submission)) by {
            reveal(log_was_accepted);
        }
    }
}

/// What holds of the archive and the submission holds after the next step as well.
proof fn lemma_submission_step(root: Seq<u8>, trace: Seq<Step>, was: Notarizing, event: Event)
    requires
        was.root == root,
        submission_holds(root, trace, was),
        notarize_next(was, event) is Ok,
    ensures
        submission_holds(
            root,
            trace.push(Step { asked: notarize_action(was), came: event }),
            notarize_next(was, event)->Ok_0,
        ),
{
    let step = Step { asked: notarize_action(was), came: event };
    let after = trace.push(step);
    let run = notarize_next(was, event)->Ok_0;
    let archive = archive_in(root);
    lemma_answers_stay(trace, step);
    if past_archiving(run.stage) {
        lemma_runs_stay(trace, step, archive_call(app_in(root), archive), Manner::Aloud);
    }
    if past_listing(run.stage) {
        assert(entries_were_checked(after, archive)) by {
            reveal(entries_were_checked);
        }
    }
    if past_submitting(run.stage) {
        assert(was_submitted(after, archive, run.succeeded, run.submission, run.status)) by {
            reveal(was_submitted);
        }
    }
}

/// What holds of the ticket holds after the next step as well.
proof fn lemma_ticket_step(root: Seq<u8>, trace: Seq<Step>, was: Notarizing, event: Event)
    requires
        was.root == root,
        ticket_holds(root, trace, was),
        notarize_next(was, event) is Ok,
    ensures
        ticket_holds(
            root,
            trace.push(Step { asked: notarize_action(was), came: event }),
            notarize_next(was, event)->Ok_0,
        ),
{
    let step = Step { asked: notarize_action(was), came: event };
    let after = trace.push(step);
    let run = notarize_next(was, event)->Ok_0;
    let app = app_in(root);
    lemma_answers_stay(trace, step);
    if run.stage == NotarizeStage::ReadingManifest || run.stage
        == NotarizeStage::CheckingSignatures || past_signatures(run.stage) {
        lemma_runs_stay(trace, step, verify_call(app), Manner::Aloud);
    }
    if run.stage == NotarizeStage::CheckingSignatures || past_signatures(run.stage) {
        assert(identifier_was_read(after, root, run.identifier)) by {
            reveal(identifier_was_read);
        }
    }
    if past_acceptance(run.stage) && run.stage != NotarizeStage::Stapling {
        lemma_runs_stay(trace, step, stapler_call("staple"@, app), Manner::Aloud);
    }
    if run.stage == NotarizeStage::Assessing || run.stage == NotarizeStage::Finished {
        lemma_runs_stay(trace, step, stapler_call("validate"@, app), Manner::Aloud);
    }
    if run.stage == NotarizeStage::Finished {
        assert(was_assessed(after, app)) by {
            reveal(was_assessed);
        }
    }
}

proof fn lemma_notarize_holds(root: Seq<u8>, executable: Seq<u8>, events: Seq<Event>)
    requires
        notarize_after(root, executable, events) is Ok,
    ensures
        notarize_holds(
            root,
            executable,
            notarize_trace(root, executable, events),
            notarize_after(root, executable, events)->Ok_0,
        ),
        submission_holds(
            root,
            notarize_trace(root, executable, events),
            notarize_after(root, executable, events)->Ok_0,
        ),
        ticket_holds(
            root,
            notarize_trace(root, executable, events),
            notarize_after(root, executable, events)->Ok_0,
        ),
    decreases events.len(),
{
    if events.len() > 0 {
        let before = events.drop_last();
        lemma_notarize_holds(root, executable, before);
        let trace = notarize_trace(root, executable, before);
        let was = notarize_after(root, executable, before)->Ok_0;
        lemma_notarize_step(root, executable, trace, was, events.last());
        lemma_submission_step(root, trace, was, events.last());
        lemma_ticket_step(root, trace, was, events.last());
    }
}

/// Notarizing fails closed. A run that has left its first stage was given a valid team identifier. A
/// run that has gone past the verification has accepted the release, against the release executable.
/// A run that archives or submits has accepted, for that team, the signatures of all nested code that
/// a listing of the app gave and that of the app itself. A run that submits has made the archive of the
/// app and checked its entries. A run that staples has an accepted submission, told by the answer to the
/// submission of that archive, of a command that succeeded, with a log that names no issues. A run that
/// is done has stapled the ticket, validated it, and had the app accepted.
pub proof fn law_notarizing_fails_closed(
    root: Seq<u8>,
    executable: Seq<u8>,
    events: Seq<Event>,
)
    requires
        notarize_after(root, executable, events) is Ok,
    ensures
        ({
            let run = notarize_after(root, executable, events)->Ok_0;
            let trace = notarize_trace(root, executable, events);
            &&& run.root == root && run.executable == executable
            &&& run.stage != NotarizeStage::ReadingTeam ==> team_was_named(trace, run.team)
                && is_team_identifier(run.team)
            &&& past_verifying(run.stage) ==> release_was_verified(
                trace,
                root,
                app_in(root),
                executable,
                ExecutableMatch::Stable,
            )
            &&& past_signatures(run.stage) ==> all_were_accepted(
                trace,
                app_in(root),
                run.identifier,
                run.team,
            )
            &&& past_listing(run.stage) ==> was_run(
                trace,
                archive_call(app_in(root), archive_in(root)),
                Manner::Aloud,
            ) && entries_were_checked(trace, archive_in(root))
            &&& past_submitting(run.stage) ==> was_submitted(
                trace,
                archive_in(root),
                run.succeeded,
                run.submission,
                run.status,
            )
            &&& past_acceptance(run.stage) ==> run.succeeded && run.status == "Accepted"@
                && log_was_accepted(trace, run.submission)
            &&& past_signatures(run.stage) ==> was_run(
                trace,
                verify_call(app_in(root)),
                Manner::Aloud,
            ) && identifier_was_read(trace, root, run.identifier)
            &&& run.stage == NotarizeStage::Finished ==> was_run(
                trace,
                stapler_call("staple"@, app_in(root)),
                Manner::Aloud,
            ) && was_run(trace, stapler_call("validate"@, app_in(root)), Manner::Aloud)
                && was_assessed(trace, app_in(root))
        }),
{
    lemma_notarize_holds(root, executable, events);
    let run = notarize_after(root, executable, events)->Ok_0;
    if past_verifying(run.stage) {
        assert(is_verified(
            notarize_trace(root, executable, events),
            run.verification->Some_0,
        ));
    }
    if past_signatures(run.stage) {
        law_done_checks_accepted_every_item(
            notarize_trace(root, executable, events),
            run.check->Some_0,
        );
    }
}

/// A submission that is not accepted is answered with a refusal that names it, and nothing is
/// stapled.
pub proof fn law_refused_submissions_are_not_stapled(run: Notarizing, event: Event)
    requires
        run.stage == NotarizeStage::FetchingLog,
        !run.succeeded || run.status != "Accepted"@,
    ensures
        notarize_next(run, event) matches Ok(next) ==> next == run,
        (event matches Event::Ran(attempted) && completed(
            log_call(run.submission),
            attempt(attempted),
        ) is Ok && written_log_outcome(
            completed(log_call(run.submission), attempt(attempted))->Ok_0,
        ) is Ok) ==> notarize_next(run, event) == Err::<Notarizing, Seq<char>>(
            "notarization submission "@ + run.submission + " finished with "@ + run.status,
        ),
{
}

/// The commands of a notarization: the app is archived with its own directory and its resource forks set
/// apart; the archive is submitted and waited for, with an answer that can be read; the log is that of
/// the submission; and the ticket is stapled and validated.
pub proof fn law_commands_of_a_notarization(
    app: Seq<u8>,
    archive: Seq<u8>,
    submission: Seq<char>,
    action: Seq<char>,
)
    ensures
        archive_call(app, archive).program == "ditto"@,
        archive_call(app, archive).arguments == seq![
            encode_utf8("-c"@),
            encode_utf8("-k"@),
            encode_utf8("--keepParent"@),
            encode_utf8("--sequesterRsrc"@),
            app,
            archive,
        ],
        submit_call(archive).program == "xcrun"@,
        submit_call(archive).arguments == seq![
            encode_utf8("notarytool"@),
            encode_utf8("submit"@),
            archive,
            encode_utf8("--keychain-profile"@),
            encode_utf8("SUPERNEO_NOTARY"@),
            encode_utf8("--wait"@),
            encode_utf8("--output-format"@),
            encode_utf8("plist"@),
        ],
        log_call(submission).program == "xcrun"@,
        log_call(submission).arguments == seq![
            encode_utf8("notarytool"@),
            encode_utf8("log"@),
            encode_utf8(submission),
            encode_utf8("--keychain-profile"@),
            encode_utf8("SUPERNEO_NOTARY"@),
        ],
        stapler_call(action, app).program == "xcrun"@,
        stapler_call(action, app).arguments == seq![
            encode_utf8("stapler"@),
            encode_utf8(action),
            app,
        ],
{
    assert(archive_call(app, archive).arguments =~= seq![
        encode_utf8("-c"@),
        encode_utf8("-k"@),
        encode_utf8("--keepParent"@),
        encode_utf8("--sequesterRsrc"@),
        app,
        archive,
    ]);
    assert(submit_call(archive).arguments =~= seq![
        encode_utf8("notarytool"@),
        encode_utf8("submit"@),
        archive,
        encode_utf8("--keychain-profile"@),
        encode_utf8("SUPERNEO_NOTARY"@),
        encode_utf8("--wait"@),
        encode_utf8("--output-format"@),
        encode_utf8("plist"@),
    ]);
    assert(log_call(submission).arguments =~= seq![
        encode_utf8("notarytool"@),
        encode_utf8("log"@),
        encode_utf8(submission),
        encode_utf8("--keychain-profile"@),
        encode_utf8("SUPERNEO_NOTARY"@),
    ]);
    assert(stapler_call(action, app).arguments =~= seq![
        encode_utf8("stapler"@),
        encode_utf8(action),
        app,
    ]);
}

/// What a notarization asks for at its stages.
pub proof fn law_what_notarizations_ask_for(run: Notarizing)
    ensures
        ({
            let asked = notarize_action(run);
            let app = joined(run.root, encode_utf8("dist/NEO.app"@));
            let archive = joined(run.root, encode_utf8("dist/NEO.zip"@));
            &&& run.stage == NotarizeStage::ReadingTeam ==> asked == Act::ReadVariable(
                "NEO_SIGNING_TEAM_IDENTIFIER"@,
            )
            &&& run.stage == NotarizeStage::Entering ==> asked == Act::Enter(run.root)
            &&& run.stage == NotarizeStage::FindingApp ==> asked == Act::FindDirectory(app)
            &&& run.stage == NotarizeStage::VerifyingSignatures ==> asked == Act::Run(
                verify_call(app),
                Manner::Aloud,
            )
            &&& run.stage == NotarizeStage::ReadingManifest ==> asked == Act::ReadText(
                joined(run.root, encode_utf8("Cargo.toml"@)),
            )
            &&& run.stage == NotarizeStage::FindingArchive ==> asked == Act::FindAny(archive)
            &&& run.stage == NotarizeStage::RemovingArchive ==> asked == Act::Remove(archive)
            &&& run.stage == NotarizeStage::Archiving ==> asked == Act::Run(
                archive_call(app, archive),
                Manner::Aloud,
            )
            &&& run.stage == NotarizeStage::ListingArchive ==> asked == Act::Run(
                entries_call(archive),
                Manner::Quiet,
            )
            &&& run.stage == NotarizeStage::Submitting ==> asked == Act::Run(
                submit_call(archive),
                Manner::Printed,
            )
            &&& run.stage == NotarizeStage::FetchingLog ==> asked == Act::Run(
                log_call(run.submission),
                Manner::PrintedOnSuccess,
            )
            &&& run.stage == NotarizeStage::Stapling ==> asked == Act::Run(
                stapler_call("staple"@, app),
                Manner::Aloud,
            )
            &&& run.stage == NotarizeStage::ValidatingStaple ==> asked == Act::Run(
                stapler_call("validate"@, app),
                Manner::Aloud,
            )
            &&& run.stage == NotarizeStage::Assessing ==> asked == Act::Run(
                assess_call(app),
                Manner::Quiet,
            )
            &&& run.stage == NotarizeStage::Finished ==> asked == Act::Finish
        }),
{
}

/// Before the archive: the team, the directory, the app, the release, its signatures and the manifest are
/// looked at in this order, and each decides on its own whether the run goes on.
pub proof fn law_what_comes_before_the_archive(
    run: Notarizing,
    value: Option<Vec<u8>>,
    done: Result<(), String>,
    found: bool,
    attempted: Result<CommandOutput, String>,
    manifest: Result<String, String>,
)
    ensures
        run.stage == NotarizeStage::ReadingTeam ==> {
            let next = notarize_next(run, Event::Variable(value));
            &&& next is Ok <==> configured_team(byte_string(value)) is Ok
            &&& next is Ok ==> next->Ok_0.stage == NotarizeStage::Entering && configured_team(
                byte_string(value),
            ) == Ok::<Seq<char>, Seq<char>>(next->Ok_0.team)
        },
        run.stage == NotarizeStage::Entering ==> {
            let next = notarize_next(run, Event::Done(done));
            &&& next is Ok <==> done is Ok
            &&& next is Ok ==> next->Ok_0.stage == NotarizeStage::FindingApp
        },
        run.stage == NotarizeStage::FindingApp ==> {
            let next = notarize_next(run, Event::Answer(found));
            &&& next is Ok <==> found
            &&& next is Ok ==> next->Ok_0.stage == NotarizeStage::Verifying
                && next->Ok_0.verification == Some(
                verify_start(
                    run.root,
                    joined(run.root, encode_utf8("dist/NEO.app"@)),
                    run.executable,
                    ExecutableMatch::Stable,
                ),
            )
        },
        run.stage == NotarizeStage::VerifyingSignatures ==> {
            let next = notarize_next(run, Event::Ran(attempted));
            &&& next is Ok <==> (attempted matches Ok(output) && output.success)
            &&& next is Ok ==> next->Ok_0.stage == NotarizeStage::ReadingManifest
        },
        run.stage == NotarizeStage::ReadingManifest ==> {
            let next = notarize_next(run, Event::Text(manifest));
            let metadata = root_metadata(run.root, read_text(manifest));
            &&& next is Ok <==> metadata is Ok
            &&& next is Ok ==> next->Ok_0.stage == NotarizeStage::CheckingSignatures
                && next->Ok_0.identifier == metadata->Ok_0.identifier && next->Ok_0.check == Some(
                check_start(
                    joined(run.root, encode_utf8("dist/NEO.app"@)),
                    metadata->Ok_0.identifier,
                    run.team,
                ),
            )
        },
{
}

/// A verification and a check of signatures end where they are done, and a refusal of theirs is one of
/// the run.
pub proof fn law_parts_of_a_notarization(run: Notarizing, event: Event)
    ensures
        run.stage == NotarizeStage::Verifying && run.verification is Some ==> {
            let next = notarize_next(run, event);
            let part = verify_next(run.verification->Some_0, event);
            &&& next is Ok <==> part is Ok
            &&& next is Ok ==> next->Ok_0.verification == Some(part->Ok_0)
                && (next->Ok_0.stage == NotarizeStage::VerifyingSignatures <==> part->Ok_0.stage
                == VerifyStage::Done) && (next->Ok_0.stage == NotarizeStage::Verifying
                <==> part->Ok_0.stage != VerifyStage::Done)
        },
        run.stage == NotarizeStage::CheckingSignatures && run.check is Some ==> {
            let next = notarize_next(run, event);
            let part = check_next(run.check->Some_0, event);
            &&& next is Ok <==> part is Ok
            &&& next is Ok ==> next->Ok_0.check == Some(part->Ok_0) && (next->Ok_0.stage
                == NotarizeStage::FindingArchive <==> part->Ok_0.stage == CheckStage::Done) && (
            next->Ok_0.stage == NotarizeStage::CheckingSignatures <==> part->Ok_0.stage
                != CheckStage::Done)
        },
{
}

/// From the archive on: an archive that is there is removed, the app is archived and the archive checked,
/// and what the service answers is kept, also where the command failed. Then the log must be without
/// issues and the submission accepted before the ticket is stapled, validated and assessed.
pub proof fn law_what_comes_after_the_archive(
    run: Notarizing,
    found: bool,
    done: Result<(), String>,
    attempted: Result<CommandOutput, String>,
)
    ensures
        run.stage == NotarizeStage::FindingArchive ==> notarize_next(run, Event::Answer(found)) is Ok
            && notarize_next(run, Event::Answer(found))->Ok_0.stage == (if found {
            NotarizeStage::RemovingArchive
        } else {
            NotarizeStage::Archiving
        }),
        run.stage == NotarizeStage::RemovingArchive ==> {
            let next = notarize_next(run, Event::Done(done));
            &&& next is Ok <==> done is Ok
            &&& next is Ok ==> next->Ok_0.stage == NotarizeStage::Archiving
        },
        ({
            let next = notarize_next(run, Event::Ran(attempted));
            let succeeded = attempted matches Ok(output) && output.success;
            &&& run.stage == NotarizeStage::Archiving ==> (next is Ok <==> succeeded) && (next is Ok
                ==> next->Ok_0.stage == NotarizeStage::ListingArchive)
            &&& run.stage == NotarizeStage::ListingArchive ==> (next is Ok <==> archive_outcome(
                joined(run.root, encode_utf8("dist/NEO.zip"@)),
                attempt(attempted),
            ) is Ok) && (next is Ok ==> next->Ok_0.stage == NotarizeStage::Submitting)
            &&& run.stage == NotarizeStage::Submitting ==> (next is Ok <==> (attempted matches Ok(
                output,
            ) && written_answer(output.stdout@) is Ok)) && (next is Ok ==> next->Ok_0.stage
                == NotarizeStage::FetchingLog && next->Ok_0.succeeded == attempted->Ok_0.success
                && next->Ok_0.submission == written_answer(attempted->Ok_0.stdout@)->Ok_0.id
                && next->Ok_0.status == written_answer(attempted->Ok_0.stdout@)->Ok_0.status)
            &&& run.stage == NotarizeStage::FetchingLog ==> (next is Ok <==> succeeded
                && written_log_outcome(attempted->Ok_0.stdout@) is Ok && run.succeeded && run.status
                == "Accepted"@) && (next is Ok ==> next->Ok_0.stage == NotarizeStage::Stapling)
            &&& run.stage == NotarizeStage::Stapling ==> (next is Ok <==> succeeded) && (next is Ok
                ==> next->Ok_0.stage == NotarizeStage::ValidatingStaple)
            &&& run.stage == NotarizeStage::ValidatingStaple ==> (next is Ok <==> succeeded) && (
            next is Ok ==> next->Ok_0.stage == NotarizeStage::Assessing)
            &&& run.stage == NotarizeStage::Assessing ==> (next is Ok <==> succeeded) && (next is Ok
                ==> next->Ok_0.stage == NotarizeStage::Finished)
        }),
{
}

} // verus!
