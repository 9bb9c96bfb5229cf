//! The run that signs a release.

use vstd::prelude::*;
use vstd::utf8::encode_utf8;

use crate::bundle::ExecutableMatch;
use crate::bytes::{byte_string, byte_strings, owned};
use crate::command::{attempt, ran, run_command, CommandOutput, Invocation};
use crate::encoding::{lossy, lossy_text};
use crate::environment::{release_executable_of, Environment};
use crate::failure::{failure, outcome, Failure};
use crate::manifest::{manifest_in, manifest_metadata, manifest_path, read_text, root_metadata};
use crate::nested::{known_entries, nested_code, nested_outcome, Entry};
use crate::path::{join_text, joined};
use crate::pipeline::{
    answered, app_in, app_path, check_done, check_refusal, done_outcome, identifier_was_read,
    lemma_answers_stay, lemma_identifier_stays, lemma_runs_stay, lemma_team_stays, missing_app,
    missing_app_refusal, refusal_outcome, team_was_named, was_run, Act, Action, Event, Manner, Step,
};
use crate::signatures::{
    all_were_accepted, check_action, check_next, check_start, is_sound,
    law_done_checks_accepted_every_item, lemma_sound_keeps, lemma_sound_starts, lemma_sound_stays,
    lemma_sound_step, maybe_check, was_judged, was_listed, CheckStage, Checking, SignatureCheck,
};
use crate::signing::{
    assess_call, assess_command, choice, chosen_identity, configured_signing_team_identifier,
    configured_team, details_call, details_command, is_team_identifier, item_outcome, judge_item,
    listing_call, listing_command, override_identity, override_outcome, sign_call, sign_command,
    signing_identity, signing_team_identifier, team_of, team_outcome, verify_call, verify_command,
    verify_signing_team_identifier, ChosenIdentity, SIGNING_IDENTITY_ENV,
    SIGNING_TEAM_IDENTIFIER_ENV,
};
use crate::text::{decimal, decimal_text, join2, join3, maybe_string, texts};
use crate::verification::{
    is_verified, lemma_verified_keeps, lemma_verified_starts, lemma_verified_stays,
    lemma_verified_step, maybe_verification, release_was_verified, told, verify_action, verify_next,
    verify_start, ReleaseCheck, VerifyStage, Verifying,
};

verus! {

/// The entitlements that the app is signed with.
pub const ENTITLEMENTS: &'static str = "packaging/NEO.entitlements";

/// How far a signing run has come.
#[derive(Clone, Copy, Debug, PartialEq, Eq, Structural)]
pub enum SignStage {
    ReadingTeam,
    Entering,
    FindingApp,
    /// The release is verified, step by step.
    Verifying,
    /// The variable with the identity is read.
    ReadingIdentity,
    /// Without that, the identities that are installed are listed.
    ListingIdentities,
    ReadingManifest,
    FindingEntitlements,
    ListingNested,
    /// The next item is signed.
    Signing,
    /// The signature of the item is looked at.
    Inspecting,
    /// The signed release is verified, step by step.
    VerifyingAgain,
    VerifyingSignatures,
    /// The signatures of the app are checked, one item after the other.
    CheckingSignatures,
    Assessing,
    /// The identity was refused after it had been reported.
    Refused,
    Finished,
}

/// A signing run.
#[derive(Debug)]
pub struct SignRun {
    root: Vec<u8>,
    /// The release executable that Cargo is configured to build.
    executable: Vec<u8>,
    stage: SignStage,
    /// The team that must sign.
    team: String,
    identity: String,
    /// The identifier of the app.
    identifier: String,
    /// What is signed: the nested code, innermost first, and the app last.
    items: Vec<Vec<u8>>,
    /// The number of items whose signatures were accepted.
    accepted: usize,
    /// The verification of the release, once it has begun.
    verification: Option<ReleaseCheck>,
    /// The verification of the signed release, once it has begun.
    again: Option<ReleaseCheck>,
    /// The check of the signatures, once it has begun.
    check: Option<SignatureCheck>,
    /// The sentences that report the last step.
    reports: Vec<String>,
    /// Why a refused run was refused.
    refusal: Option<String>,
}

/// The model of a `SignRun`.
#[verifier::ext_equal]
pub struct Signing {
    pub root: Seq<u8>,
    pub executable: Seq<u8>,
    pub stage: SignStage,
    pub team: Seq<char>,
    pub identity: Seq<char>,
    pub identifier: Seq<char>,
    pub items: Seq<Seq<u8>>,
    pub accepted: nat,
    pub verification: Option<Verifying>,
    pub again: Option<Verifying>,
    pub check: Option<Checking>,
    pub reports: Seq<Seq<char>>,
    pub refusal: Option<Seq<char>>,
}

impl View for SignRun {
    type V = Signing;

    closed spec fn view(&self) -> Signing {
        Signing {
            root: self.root@,
            executable: self.executable@,
            stage: self.stage,
            team: self.team@,
            identity: self.identity@,
            identifier: self.identifier@,
            items: byte_strings(self.items@),
            accepted: self.accepted as nat,
            verification: maybe_verification(self.verification),
            again: maybe_verification(self.again),
            check: maybe_check(self.check),
            reports: texts(self.reports@),
            refusal: maybe_string(self.refusal),
        }
    }
}

/// The run before its first event.
pub open spec fn sign_start(root: Seq<u8>, executable: Seq<u8>) -> Signing {
    Signing {
        root,
        executable,
        stage: SignStage::ReadingTeam,
        team: Seq::empty(),
        identity: Seq::empty(),
        identifier: Seq::empty(),
        items: Seq::empty(),
        accepted: 0,
        verification: None,
        again: None,
        check: None,
        reports: Seq::empty(),
        refusal: None,
    }
}

/// Where the entitlements lie.
pub open spec fn entitlements_in(root: Seq<u8>) -> Seq<u8> {
    joined(root, encode_utf8(ENTITLEMENTS@))
}

/// The run at another stage, with nothing to report.
pub open spec fn at(run: Signing, stage: SignStage) -> Signing {
    Signing { stage, reports: Seq::empty(), ..run }
}

/// The identifier that the signature of an item must name: that of the app, for the app.
pub open spec fn expected_identifier(run: Signing) -> Option<Seq<char>> {
    if run.accepted + 1 == run.items.len() {
        Some(run.identifier)
    } else {
        None
    }
}

/// Why an identity is refused, where it is not one of the team.
pub open spec fn identity_outcome(identity: Seq<char>, team: Seq<char>) -> Result<(), Seq<char>> {
    match team_of(identity) {
        Err(refusal) => Err(refusal),
        Ok(named) => team_outcome(named, team),
    }
}

/// The run after an identity was chosen. It is reported, and must then be one of the team.
pub open spec fn after_identity(
    run: Signing,
    chosen: Result<(Seq<char>, Seq<char>), Seq<char>>,
) -> Result<Signing, Seq<char>> {
    match chosen {
        Err(refusal) => Err(refusal),
        Ok((identity, report)) => Ok(
            match identity_outcome(identity, run.team) {
                Err(refusal) => Signing {
                    reports: seq![report],
                    refusal: Some(refusal),
                    ..at(run, SignStage::Refused)
                },
                Ok(()) => Signing {
                    identity,
                    reports: seq![report],
                    ..at(run, SignStage::ReadingManifest)
                },
            },
        ),
    }
}

/// The run after the signature of its next item was accepted. After the last one, the release is
/// verified again, by what signing leaves alone.
pub open spec fn with_accepted(run: Signing) -> Signing {
    let next = Signing { accepted: run.accepted + 1, ..run };
    if next.accepted < next.items.len() {
        at(next, SignStage::Signing)
    } else {
        Signing {
            again: Some(
                verify_start(
                    run.root,
                    app_in(run.root),
                    run.executable,
                    ExecutableMatch::Stable,
                ),
            ),
            ..at(next, SignStage::VerifyingAgain)
        }
    }
}

/// The run after an event.
pub open spec fn sign_next(run: Signing, event: Event) -> Result<Signing, Seq<char>> {
    let app = app_in(run.root);
    match (run.stage, event) {
        (SignStage::ReadingTeam, Event::Variable(value)) => match configured_team(
            byte_string(value),
        ) {
            Err(refusal) => Err(refusal),
            Ok(team) => Ok(Signing { team, ..at(run, SignStage::Entering) }),
        },
        (SignStage::Entering, Event::Done(done)) => match done_outcome(done) {
            Err(fault) => Err(fault),
            Ok(()) => Ok(at(run, SignStage::FindingApp)),
        },
        (SignStage::FindingApp, Event::Answer(found)) => if found {
            Ok(
                Signing {
                    verification: Some(
                        verify_start(run.root, app, run.executable, ExecutableMatch::Exact),
                    ),
                    ..at(run, SignStage::Verifying)
                },
            )
        } else {
            Err(missing_app(app))
        },
        (SignStage::Verifying, event) => match run.verification {
            None => Ok(run),
            Some(verification) => match verify_next(verification, event) {
                Err(refusal) => Err(refusal),
                Ok(next) => Ok(
                    if next.stage == VerifyStage::Done {
                        Signing {
                            verification: Some(next),
                            reports: told(next),
                            ..at(run, SignStage::ReadingIdentity)
                        }
                    } else {
                        Signing {
                            verification: Some(next),
                            reports: next.reports,
                            ..at(run, SignStage::Verifying)
                        }
                    },
                ),
            },
        },
        (SignStage::ReadingIdentity, Event::Variable(value)) => match byte_string(value) {
            Some(value) => after_identity(run, override_outcome(value)),
            None => Ok(at(run, SignStage::ListingIdentities)),
        },
        (SignStage::ListingIdentities, Event::Ran(attempted)) => after_identity(
            run,
            chosen_identity(None, attempt(attempted)),
        ),
        (SignStage::ReadingManifest, Event::Text(manifest)) => match root_metadata(
            run.root,
            read_text(manifest),
        ) {
            Err(refusal) => Err(refusal),
            Ok(metadata) => Ok(
                Signing {
                    identifier: metadata.identifier,
                    ..at(run, SignStage::FindingEntitlements)
                },
            ),
        },
        (SignStage::FindingEntitlements, Event::Answer(found)) => if found {
            Ok(at(run, SignStage::ListingNested))
        } else {
            Err("missing entitlements file: "@ + lossy(entitlements_in(run.root)))
        },
        (SignStage::ListingNested, Event::Entries(entries)) => match nested_outcome(
            app,
            known_entries(entries),
        ) {
            Err(refusal) => Err(refusal),
            Ok(paths) => Ok(
                Signing {
                    items: paths.push(app),
                    accepted: 0,
                    reports: seq!["found "@ + decimal(paths.len()) + " nested code items"@],
                    ..at(run, SignStage::Signing)
                },
            ),
        },
        (SignStage::Signing, Event::Ran(attempted)) => if run.accepted < run.items.len() {
            match ran(
                sign_call(
                    run.identity,
                    entitlements_in(run.root),
                    run.items[run.accepted as int],
                ),
                attempt(attempted),
            ) {
                Err(refusal) => Err(refusal),
                Ok(()) => Ok(at(run, SignStage::Inspecting)),
            }
        } else {
            Ok(run)
        },
        (SignStage::Inspecting, Event::Ran(attempted)) => if run.accepted < run.items.len() {
            match item_outcome(
                run.items[run.accepted as int],
                attempt(attempted),
                expected_identifier(run),
                run.team,
            ) {
                Err(refusal) => Err(refusal),
                Ok(()) => Ok(with_accepted(run)),
            }
        } else {
            Ok(run)
        },
        (SignStage::VerifyingAgain, event) => match run.again {
            None => Ok(run),
            Some(verification) => match verify_next(verification, event) {
                Err(refusal) => Err(refusal),
                Ok(next) => Ok(
                    Signing {
                        again: Some(next),
                        reports: next.reports,
                        ..at(
                            run,
                            if next.stage == VerifyStage::Done {
                                SignStage::VerifyingSignatures
                            } else {
                                SignStage::VerifyingAgain
                            },
                        )
                    },
                ),
            },
        },
        (SignStage::VerifyingSignatures, Event::Ran(attempted)) => match ran(
            verify_call(app),
            attempt(attempted),
        ) {
            Err(refusal) => Err(refusal),
            Ok(()) => Ok(
                Signing {
                    check: Some(check_start(app, run.identifier, run.team)),
                    ..at(run, SignStage::CheckingSignatures)
                },
            ),
        },
        (SignStage::CheckingSignatures, event) => match run.check {
            None => Ok(run),
            Some(check) => match check_next(check, event) {
                Err(refusal) => Err(refusal),
                Ok(next) => Ok(
                    Signing {
                        check: Some(next),
                        ..at(
                            run,
                            if next.stage == CheckStage::Done {
                                SignStage::Assessing
                            } else {
                                SignStage::CheckingSignatures
                            },
                        )
                    },
                ),
            },
        },
        (SignStage::Assessing, Event::Ran(attempted)) => match attempt(attempted) {
            Err(fault) => Err(fault),
            Ok(output) => Ok(
                Signing {
                    reports: seq![
                        if output.success {
                            "Gatekeeper accepted the signed app before notarization"@
                        } else {
                            "Gatekeeper assessment remains pending notarization: "@ + output.status
                        },
                    ],
                    ..at(run, SignStage::Finished)
                },
            ),
        },
        _ => Ok(run),
    }
}

/// What a signing run asks for.
pub open spec fn sign_action(run: Signing) -> Act {
    let app = app_in(run.root);
    match run.stage {
        SignStage::ReadingTeam => Act::ReadVariable(SIGNING_TEAM_IDENTIFIER_ENV@),
        SignStage::Entering => Act::Enter(run.root),
        SignStage::FindingApp => Act::FindDirectory(app),
        SignStage::Verifying => match run.verification {
            Some(verification) => verify_action(verification),
            None => Act::Finish,
        },
        SignStage::ReadingIdentity => Act::ReadVariable(SIGNING_IDENTITY_ENV@),
        SignStage::ListingIdentities => Act::Run(listing_call(), Manner::Quiet),
        SignStage::ReadingManifest => Act::ReadText(manifest_in(run.root)),
        SignStage::FindingEntitlements => Act::FindFile(entitlements_in(run.root)),
        SignStage::ListingNested => Act::List(app),
        SignStage::Signing => if run.accepted < run.items.len() {
            Act::Run(
                sign_call(
                    run.identity,
                    entitlements_in(run.root),
                    run.items[run.accepted as int],
                ),
                Manner::Aloud,
            )
        } else {
            Act::Finish
        },
        SignStage::Inspecting => if run.accepted < run.items.len() {
            Act::Run(details_call(run.items[run.accepted as int]), Manner::Quiet)
        } else {
            Act::Finish
        },
        SignStage::VerifyingAgain => match run.again {
            Some(verification) => verify_action(verification),
            None => Act::Finish,
        },
        SignStage::VerifyingSignatures => Act::Run(verify_call(app), Manner::Aloud),
        SignStage::CheckingSignatures => match run.check {
            Some(check) => check_action(check),
            None => Act::Finish,
        },
        SignStage::Assessing => Act::Run(assess_call(app), Manner::Quiet),
        SignStage::Refused | SignStage::Finished => Act::Finish,
    }
}

/// The sentence that announces what a signing run asks for, where it signs an item.
pub open spec fn announced(run: Signing) -> Option<Seq<char>> {
    if run.stage == SignStage::Signing && run.accepted < run.items.len() {
        Some("signing "@ + lossy(run.items[run.accepted as int]))
    } else {
        None
    }
}

/// A result with a run replaced by its model, and its refusal by its text.
pub open spec fn sign_outcome(result: Result<SignRun, Failure>) -> Result<Signing, Seq<char>> {
    match result {
        Ok(run) => Ok(run@),
        Err(refusal) => Err(refusal@),
    }
}

impl SignRun {
    /// The run before its first event.
    pub fn start(root: &[u8], environment: &Environment) -> (run: Self)
        ensures
            run@ == sign_start(root@, release_executable_of(environment@, root@)),
    {
        let executable = environment.configured_release_executable(root);
        let run = SignRun {
            root: owned(root),
            executable,
            stage: SignStage::ReadingTeam,
            team: String::new(),
            identity: String::new(),
            identifier: String::new(),
            items: Vec::new(),
            accepted: 0,
            verification: None,
            again: None,
            check: None,
            reports: Vec::new(),
            refusal: None,
        };
        assert(run@ =~= sign_start(root@, release_executable_of(environment@, root@)));
        run
    }

    /// How far the run has come.
    pub fn stage(&self) -> (stage: SignStage)
        ensures
            stage == self@.stage,
    {
        self.stage
    }

    /// The sentences that report the last step.
    pub fn reports(&self) -> (reports: &[String])
        ensures
            texts(reports@) == self@.reports,
    {
        self.reports.as_slice()
    }

    /// Whether the run was refused, and why.
    pub fn result(&self) -> (result: Result<(), Failure>)
        ensures
            outcome(result) == refusal_outcome(self@.refusal),
    {
        check_refusal(&self.refusal)
    }

    /// What the run asks for.
    pub fn action(&self) -> (action: Action)
        ensures
            action@ == sign_action(self@),
    {
        let app = app_path(self.root.as_slice());
        match self.stage {
            SignStage::ReadingTeam => Action::ReadVariable(SIGNING_TEAM_IDENTIFIER_ENV),
            SignStage::Entering => Action::Enter(owned(self.root.as_slice())),
            SignStage::FindingApp => Action::FindDirectory(app),
            SignStage::Verifying => match &self.verification {
                Some(verification) => verification.action(),
                None => Action::Finish,
            },
            SignStage::ReadingIdentity => Action::ReadVariable(SIGNING_IDENTITY_ENV),
            SignStage::ListingIdentities => Action::Run(listing_command(), Manner::Quiet),
            SignStage::ReadingManifest => Action::ReadText(manifest_path(self.root.as_slice())),
            SignStage::FindingEntitlements => Action::FindFile(
                join_text(self.root.as_slice(), ENTITLEMENTS),
            ),
            SignStage::ListingNested => Action::List(app),
            SignStage::Signing => if self.accepted < self.items.len() {
                Action::Run(self.sign_next_item(), Manner::Aloud)
            } else {
                Action::Finish
            },
            SignStage::Inspecting => if self.accepted < self.items.len() {
                assert(self@.items[self.accepted as int] == self.items@[self.accepted as int]@);
                Action::Run(
                    details_command(self.items[self.accepted].as_slice()),
                    Manner::Quiet,
                )
            } else {
                Action::Finish
            },
            SignStage::VerifyingAgain => match &self.again {
                Some(verification) => verification.action(),
                None => Action::Finish,
            },
            SignStage::VerifyingSignatures => Action::Run(
                verify_command(app.as_slice()),
                Manner::Aloud,
            ),
            SignStage::CheckingSignatures => match &self.check {
                Some(check) => check.action(),
                None => Action::Finish,
            },
            SignStage::Assessing => Action::Run(assess_command(app.as_slice()), Manner::Quiet),
            SignStage::Refused | SignStage::Finished => Action::Finish,
        }
    }

    /// The sentence that announces what the run asks for, where it signs an item.
    pub fn announcement(&self) -> (text: Option<String>)
        ensures
            maybe_string(text) == announced(self@),
    {
        if self.stage == SignStage::Signing && self.accepted < self.items.len() {
            assert(self@.items[self.accepted as int] == self.items@[self.accepted as int]@);
            let shown = lossy_text(self.items[self.accepted].as_slice());
            Some(join2("signing ", shown.as_str()))
        } else {
            None
        }
    }

    /// The command that signs the next item.
    fn sign_next_item(&self) -> (command: Invocation)
        requires
            self.accepted < self.items@.len(),
        ensures
            command@ == sign_call(
                self@.identity,
                entitlements_in(self@.root),
                self@.items[self.accepted as int],
            ),
    {
        assert(self@.items[self.accepted as int] == self.items@[self.accepted as int]@);
        let entitlements = join_text(self.root.as_slice(), ENTITLEMENTS);
        sign_command(
            self.identity.as_str(),
            entitlements.as_slice(),
            self.items[self.accepted].as_slice(),
        )
    }

    /// The run at another stage, with nothing to report.
    fn moved(self, stage: SignStage) -> (run: Self)
        ensures
            run@ == at(self@, stage),
    {
        let ghost before = self@;
        let run = SignRun { stage, reports: Vec::new(), ..self };
        assert(run@ =~= at(before, stage));
        run
    }

    /// The run at another stage, with one sentence to report.
    fn moved_with(self, stage: SignStage, report: String) -> (run: Self)
        ensures
            run@ == (Signing { reports: seq![report@], ..at(self@, stage) }),
    {
        let ghost wanted = Signing { reports: seq![report@], ..at(self@, stage) };
        let run = SignRun { stage, reports: vec![report], ..self };
        assert(run@ =~= wanted);
        run
    }

    /// The run after it learned which team must sign.
    fn with_team(self, value: &Option<Vec<u8>>) -> (result: Result<Self, Failure>)
        requires
            self@.stage == SignStage::ReadingTeam,
        ensures
            sign_outcome(result) == sign_next(self@, Event::Variable(*value)),
    {
        let value = match value {
            Some(value) => Some(value.as_slice()),
            None => None,
        };
        match configured_signing_team_identifier(value) {
            Ok(team) => {
                let mut run = self.moved(SignStage::Entering);
                run.team = team;
                Ok(run)
            },
            Err(refusal) => Err(refusal),
        }
    }

    /// The verification of the release, before its first event.
    fn verification(&self, closeness: ExecutableMatch) -> (check: ReleaseCheck)
        ensures
            check@ == verify_start(
                self@.root,
                app_in(self@.root),
                self@.executable,
                closeness,
            ),
    {
        let app = app_path(self.root.as_slice());
        ReleaseCheck::start(
            self.root.as_slice(),
            app.as_slice(),
            self.executable.as_slice(),
            closeness,
        )
    }

    /// The run after an event for the verification of the release.
    fn with_verification(self, event: &Event) -> (result: Result<Self, Failure>)
        requires
            self@.stage == SignStage::Verifying,
        ensures
            sign_outcome(result) == sign_next(self@, *event),
    {
        let ghost before = self@;
        let mut run = self;
        match run.verification {
            None => {
                run.verification = None;
                assert(run@ =~= before);
                Ok(run)
            },
            Some(verification) => match verification.advance(event) {
                Ok(next) => {
                    if next.stage() == VerifyStage::Done {
                        run.stage = SignStage::ReadingIdentity;
                        run.reports = next.tell();
                    } else {
                        run.reports = next.reports();
                    }
                    run.verification = Some(next);
                    assert(run@ =~= sign_next(before, *event)->Ok_0);
                    Ok(run)
                },
                Err(refusal) => Err(refusal),
            },
        }
    }

    /// The run after an event for the verification of the signed release.
    fn with_second_verification(self, event: &Event) -> (result: Result<Self, Failure>)
        requires
            self@.stage == SignStage::VerifyingAgain,
        ensures
            sign_outcome(result) == sign_next(self@, *event),
    {
        let ghost before = self@;
        let mut run = self;
        match run.again {
            None => {
                run.again = None;
                assert(run@ =~= before);
                Ok(run)
            },
            Some(verification) => match verification.advance(event) {
                Ok(next) => {
                    if next.stage() == VerifyStage::Done {
                        run.stage = SignStage::VerifyingSignatures;
                    }
                    run.reports = next.reports();
                    run.again = Some(next);
                    assert(run@ =~= sign_next(before, *event)->Ok_0);
                    Ok(run)
                },
                Err(refusal) => Err(refusal),
            },
        }
    }

    /// The run after an identity was chosen for it.
    fn with_choice(self, chosen: Result<ChosenIdentity, Failure>) -> (result: Result<
        Self,
        Failure,
    >)
        ensures
            sign_outcome(result) == after_identity(self@, choice(chosen)),
    {
        let chosen = match chosen {
            Ok(chosen) => chosen,
            Err(refusal) => return Err(refusal),
        };
        match self.judge_identity(chosen.identity.as_str()) {
            Ok(()) => {
                let mut run = self.moved_with(SignStage::ReadingManifest, chosen.report);
                run.identity = chosen.identity;
                Ok(run)
            },
            Err(refusal) => {
                let mut run = self.moved_with(SignStage::Refused, chosen.report);
                run.refusal = Some(refusal.message);
                Ok(run)
            },
        }
    }

    /// Refuses an identity that is not one of the team.
    fn judge_identity(&self, identity: &str) -> (result: Result<(), Failure>)
        ensures
            outcome(result) == identity_outcome(identity@, self@.team),
    {
        match signing_team_identifier(identity) {
            Ok(team) => verify_signing_team_identifier(team.as_str(), self.team.as_str()),
            Err(refusal) => Err(refusal),
        }
    }

    /// The run after the variable with the identity was read.
    fn with_identity(self, value: &Option<Vec<u8>>) -> (result: Result<Self, Failure>)
        requires
            self@.stage == SignStage::ReadingIdentity,
        ensures
            sign_outcome(result) == sign_next(self@, Event::Variable(*value)),
    {
        match value {
            Some(value) => self.with_choice(override_identity(value.as_slice())),
            None => Ok(self.moved(SignStage::ListingIdentities)),
        }
    }

    /// The run after the app was listed.
    fn with_entries(self, entries: &Result<Vec<Entry>, String>) -> (result: Result<Self, Failure>)
        requires
            self@.stage == SignStage::ListingNested,
        ensures
            sign_outcome(result) == sign_next(self@, Event::Entries(*entries)),
    {
        let app = app_path(self.root.as_slice());
        let paths = match nested_code(app.as_slice(), entries) {
            Ok(paths) => paths,
            Err(refusal) => return Err(refusal),
        };
        let ghost all = byte_strings(paths@);
        let ghost app_bytes = app@;
        let count = decimal_text(paths.len() as u64);
        let mut items = paths;
        items.push(app);
        assert(byte_strings(items@) == all.push(app_bytes));
        let report = join3("found ", count.as_str(), " nested code items");
        let mut run = self.moved_with(SignStage::Signing, report);
        run.items = items;
        run.accepted = 0;
        Ok(run)
    }

    /// The run after an event for the check of the signatures.
    fn with_check(self, event: &Event) -> (result: Result<Self, Failure>)
        requires
            self@.stage == SignStage::CheckingSignatures,
        ensures
            sign_outcome(result) == sign_next(self@, *event),
    {
        let ghost before = self@;
        let mut run = self;
        match run.check {
            None => {
                run.check = None;
                assert(run@ =~= before);
                Ok(run)
            },
            Some(check) => match check.advance(event) {
                Ok(next) => {
                    run.stage = match next.stage() {
                        CheckStage::Done => SignStage::Assessing,
                        _ => SignStage::CheckingSignatures,
                    };
                    run.check = Some(next);
                    run.reports = Vec::new();
                    assert(run@ =~= sign_next(before, *event)->Ok_0);
                    Ok(run)
                },
                Err(refusal) => Err(refusal),
            },
        }
    }

    /// The run after the signature of its next item was looked at.
    fn with_signature(self, attempted: &Result<CommandOutput, String>) -> (result: Result<
        Self,
        Failure,
    >)
        requires
            self@.stage == SignStage::Inspecting,
            self@.accepted < self@.items.len(),
        ensures
            sign_outcome(result) == sign_next(self@, Event::Ran(*attempted)),
    {
        let number = self.accepted;
        let last = self.items.len() - 1 == number;
        assert(self@.items[number as int] == self.items@[number as int]@);
        let expected = if last {
            Some(self.identifier.as_str())
        } else {
            None
        };
        match judge_item(
            self.items[number].as_slice(),
            attempted,
            expected,
            self.team.as_str(),
        ) {
            Ok(()) => {},
            Err(refusal) => return Err(refusal),
        }
        if last {
            let verification = self.verification(ExecutableMatch::Stable);
            let mut run = self.moved(SignStage::VerifyingAgain);
            run.accepted = number + 1;
            run.again = Some(verification);
            Ok(run)
        } else {
            let mut run = self.moved(SignStage::Signing);
            run.accepted = number + 1;
            Ok(run)
        }
    }

    /// The run after a command was run for it.
    fn with_command(self, attempted: &Result<CommandOutput, String>) -> (result: Result<
        Self,
        Failure,
    >)
        requires
            self.stage != SignStage::Verifying,
            self.stage != SignStage::VerifyingAgain,
            self.stage != SignStage::CheckingSignatures,
        ensures
            sign_outcome(result) == sign_next(self@, Event::Ran(*attempted)),
    {
        match self.stage {
            SignStage::ListingIdentities => self.with_choice(signing_identity(None, attempted)),
            SignStage::Signing => {
                if self.accepted >= self.items.len() {
                    return Ok(self);
                }
                match run_command(&self.sign_next_item(), attempted) {
                    Ok(()) => Ok(self.moved(SignStage::Inspecting)),
                    Err(refusal) => Err(refusal),
                }
            },
            SignStage::Inspecting => {
                if self.accepted >= self.items.len() {
                    return Ok(self);
                }
                self.with_signature(attempted)
            },
            SignStage::VerifyingSignatures => {
                let app = app_path(self.root.as_slice());
                match run_command(&verify_command(app.as_slice()), attempted) {
                    Ok(()) => {
                        let mut run = self.moved(SignStage::CheckingSignatures);
                        run.check = Some(
                            SignatureCheck::start(
                                app.as_slice(),
                                run.identifier.as_str(),
                                run.team.as_str(),
                            ),
                        );
                        Ok(run)
                    },
                    Err(refusal) => Err(refusal),
                }
            },
            SignStage::Assessing => match attempted {
                Err(fault) => Err(failure(fault.as_str())),
                Ok(output) => {
                    let report = if output.success {
                        "Gatekeeper accepted the signed app before notarization".to_string()
                    } else {
                        join2(
                            "Gatekeeper assessment remains pending notarization: ",
                            output.status.as_str(),
                        )
                    };
                    Ok(self.moved_with(SignStage::Finished, report))
                },
            },
            _ => Ok(self),
        }
    }

    /// The run after an event.
    pub fn advance(self, event: &Event) -> (result: Result<Self, Failure>)
        ensures
            sign_outcome(result) == sign_next(self@, *event),
    {
        match (self.stage, event) {
            (SignStage::ReadingTeam, Event::Variable(value)) => self.with_team(value),
            (SignStage::Entering, Event::Done(done)) => match check_done(done) {
                Ok(()) => Ok(self.moved(SignStage::FindingApp)),
                Err(refusal) => Err(refusal),
            },
            (SignStage::FindingApp, Event::Answer(found)) => if *found {
                let verification = self.verification(ExecutableMatch::Exact);
                let mut run = self.moved(SignStage::Verifying);
                run.verification = Some(verification);
                Ok(run)
            } else {
                Err(missing_app_refusal(app_path(self.root.as_slice()).as_slice()))
            },
            (SignStage::Verifying, _) => self.with_verification(event),
            (SignStage::ReadingIdentity, Event::Variable(value)) => self.with_identity(value),
            (SignStage::ReadingManifest, Event::Text(manifest)) => match manifest_metadata(
                self.root.as_slice(),
                manifest,
            ) {
                Ok(metadata) => {
                    let mut run = self.moved(SignStage::FindingEntitlements);
                    run.identifier = metadata.identifier;
                    Ok(run)
                },
                Err(refusal) => Err(refusal),
            },
            (SignStage::FindingEntitlements, Event::Answer(found)) => if *found {
                Ok(self.moved(SignStage::ListingNested))
            } else {
                let path = join_text(self.root.as_slice(), ENTITLEMENTS);
                let shown = lossy_text(path.as_slice());
                Err(Failure { message: join2("missing entitlements file: ", shown.as_str()) })
            },
            (SignStage::ListingNested, Event::Entries(entries)) => self.with_entries(entries),
            (SignStage::VerifyingAgain, _) => self.with_second_verification(event),
            (SignStage::CheckingSignatures, _) => self.with_check(event),
            (_, Event::Ran(attempted)) => self.with_command(attempted),
            _ => Ok(self),
        }
    }
}

/// The run after several events.
pub open spec fn sign_after(root: Seq<u8>, executable: Seq<u8>, events: Seq<Event>) -> Result<
    Signing,
    Seq<char>,
>
    decreases events.len(),
{
    if events.len() == 0 {
        Ok(sign_start(root, executable))
    } else {
        match sign_after(root, executable, events.drop_last()) {
            Err(refusal) => Err(refusal),
            Ok(run) => sign_next(run, events.last()),
        }
    }
}

/// What the run asked for before each event, and the event.
pub open spec fn sign_trace(root: Seq<u8>, executable: Seq<u8>, events: Seq<Event>) -> Seq<Step>
    decreases events.len(),
{
    if events.len() == 0 {
        Seq::empty()
    } else {
        let before = events.drop_last();
        sign_trace(root, executable, before).push(
            Step {
                asked: sign_action(sign_after(root, executable, before)->Ok_0),
                came: events.last(),
            },
        )
    }
}

/// Whether the variable with the identity was read, with this value.
#[verifier::opaque]
pub open spec fn identity_was_read(trace: Seq<Step>, value: Option<Seq<u8>>) -> bool {
    exists|came: Event| #[trigger]
        answered(trace, Act::ReadVariable(SIGNING_IDENTITY_ENV@), came) && (
        came matches Event::Variable(read) && byte_string(read) == value)
}

/// Whether the only identity that is installed was found to be this one.
#[verifier::opaque]
pub open spec fn identity_was_listed(trace: Seq<Step>, identity: Seq<char>) -> bool {
    exists|came: Event| #[trigger]
        answered(trace, Act::Run(listing_call(), Manner::Quiet), came) && (
        came matches Event::Ran(attempted) && chosen_identity(
            None,
            attempt(attempted),
        ) matches Ok(chosen) && chosen.0 == identity)
}

/// Whether the variable gave this identity.
pub open spec fn identity_was_set(trace: Seq<Step>, identity: Seq<char>) -> bool {
    exists|value: Seq<u8>| #[trigger]
        identity_was_read(trace, Some(value)) && (override_outcome(value) matches Ok(chosen)
            && chosen.0 == identity)
}

/// Whether an identity was chosen: the one that the variable gives, or, where it is not set, the only
/// one that is installed.
pub open spec fn identity_was_chosen(trace: Seq<Step>, identity: Seq<char>) -> bool {
    ||| identity_was_set(trace, identity)
    ||| identity_was_read(trace, None) && identity_was_listed(trace, identity)
}

/// Whether a stage comes before the release was verified.
pub open spec fn before_release(stage: SignStage) -> bool {
    ||| stage == SignStage::ReadingTeam
    ||| stage == SignStage::Entering
    ||| stage == SignStage::FindingApp
    ||| stage == SignStage::Verifying
}

/// Whether a stage comes before any identity is used.
pub open spec fn before_identity(stage: SignStage) -> bool {
    ||| before_release(stage)
    ||| stage == SignStage::ReadingIdentity
    ||| stage == SignStage::ListingIdentities
    ||| stage == SignStage::Refused
}

/// Whether a stage comes after all items were signed.
pub open spec fn past_signing(stage: SignStage) -> bool {
    ||| stage == SignStage::VerifyingAgain
    ||| past_second_verification(stage)
}

/// Whether a stage comes after the signed release was verified.
pub open spec fn past_second_verification(stage: SignStage) -> bool {
    ||| stage == SignStage::VerifyingSignatures
    ||| stage == SignStage::CheckingSignatures
    ||| past_check(stage)
}

/// Whether a stage comes after the signatures were checked.
pub open spec fn past_check(stage: SignStage) -> bool {
    ||| stage == SignStage::Assessing
    ||| stage == SignStage::Finished
}

/// What holds of the identity of a run that has come so far by this trace.
pub open spec fn identity_holds(trace: Seq<Step>, run: Signing) -> bool {
    &&& run.stage == SignStage::ListingIdentities ==> identity_was_read(trace, None)
    &&& !before_identity(run.stage) ==> team_of(run.identity) == Ok::<Seq<char>, Seq<char>>(
        run.team,
    ) && identity_was_chosen(trace, run.identity)
}

/// What holds of the two verifications of a run that has come so far by this trace.
pub open spec fn verifications_hold(
    root: Seq<u8>,
    executable: Seq<u8>,
    trace: Seq<Step>,
    run: Signing,
) -> bool {
    &&& run.stage == SignStage::Verifying || !before_release(run.stage) ==> run.verification
        is Some
    &&& run.verification matches Some(verification) ==> {
        &&& is_verified(trace, verification)
        &&& verification.root == root && verification.app == app_in(root)
        &&& verification.release_executable == executable && verification.closeness
            == ExecutableMatch::Exact
        &&& !before_release(run.stage) ==> verification.stage == VerifyStage::Done
    }
    &&& past_signing(run.stage) ==> run.again is Some
    &&& run.again matches Some(verification) ==> {
        &&& is_verified(trace, verification)
        &&& verification.root == root && verification.app == app_in(root)
        &&& verification.release_executable == executable && verification.closeness
            == ExecutableMatch::Stable
        &&& past_signing(run.stage)
        &&& past_second_verification(run.stage) ==> verification.stage == VerifyStage::Done
    }
}

/// What holds of the signatures of a run that has come so far by this trace.
pub open spec fn signatures_hold(root: Seq<u8>, trace: Seq<Step>, run: Signing) -> bool {
    &&& run.accepted <= run.items.len()
    &&& run.stage == SignStage::Signing || run.stage == SignStage::Inspecting ==> run.accepted
        < run.items.len()
    &&& run.items.len() > 0 ==> run.items.last() == app_in(root)
    &&& past_signing(run.stage) ==> run.items.len() > 0 && run.accepted == run.items.len()
    &&& run.stage == SignStage::CheckingSignatures ==> run.check is Some
    &&& run.check matches Some(check) ==> {
        &&& is_sound(trace, check)
        &&& check.app == app_in(root) && check.identifier == run.identifier && check.team
            == run.team
        &&& run.stage == SignStage::CheckingSignatures || past_check(run.stage)
    }
    &&& past_check(run.stage) ==> (run.check matches Some(check) && check.stage
        == CheckStage::Done)
}

/// Whether the entitlements were found.
#[verifier::opaque]
pub open spec fn entitlements_were_found(trace: Seq<Step>, root: Seq<u8>) -> bool {
    answered(trace, Act::FindFile(entitlements_in(root)), Event::Answer(true))
}

/// Whether an item of a run was signed by its identity, and its signature accepted.
#[verifier::opaque]
pub open spec fn was_signed(trace: Seq<Step>, run: Signing, number: int) -> bool {
    &&& was_run(
        trace,
        sign_call(run.identity, entitlements_in(run.root), run.items[number]),
        Manner::Aloud,
    )
    &&& was_judged(
        trace,
        run.items[number],
        if number + 1 == run.items.len() {
            Some(run.identifier)
        } else {
            None
        },
        run.team,
    )
}

/// Whether a stage comes after the manifest was read.
pub open spec fn past_manifest(stage: SignStage) -> bool {
    stage == SignStage::FindingEntitlements || stage == SignStage::ListingNested || past_nested(
        stage,
    )
}

/// Whether a stage comes after the nested code was listed.
pub open spec fn past_nested(stage: SignStage) -> bool {
    stage == SignStage::Signing || stage == SignStage::Inspecting || past_signing(stage)
}

/// What holds of what a run with this trace has found to sign.
pub open spec fn findings_hold(trace: Seq<Step>, run: Signing) -> bool {
    &&& past_manifest(run.stage) ==> identifier_was_read(trace, run.root, run.identifier)
    &&& run.stage == SignStage::ListingNested || past_nested(run.stage)
        ==> entitlements_were_found(trace, run.root)
    &&& past_nested(run.stage) ==> was_listed(trace, app_in(run.root), run.items)
    &&& run.stage == SignStage::CheckingSignatures || past_check(run.stage) ==> was_run(
        trace,
        verify_call(app_in(run.root)),
        Manner::Aloud,
    )
}

/// What holds of the items that a run with this trace has signed.
pub open spec fn items_hold(trace: Seq<Step>, run: Signing) -> bool {
    &&& !past_nested(run.stage) ==> run.accepted == 0
    &&& forall|k: int| 0 <= k < run.accepted ==> #[trigger] was_signed(trace, run, k)
    &&& run.stage == SignStage::Inspecting ==> was_run(
        trace,
        sign_call(
            run.identity,
            entitlements_in(run.root),
            run.items[run.accepted as int],
        ),
        Manner::Aloud,
    )
}

/// What holds of a run that has come so far by this trace.
pub open spec fn sign_holds(
    root: Seq<u8>,
    executable: Seq<u8>,
    trace: Seq<Step>,
    run: Signing,
) -> bool {
    &&& run.root == root && run.executable == executable
    &&& run.refusal is Some <==> run.stage == SignStage::Refused
    &&& run.stage != SignStage::ReadingTeam ==> team_was_named(trace, run.team)
        && is_team_identifier(run.team)
    &&& identity_holds(trace, run)
    &&& verifications_hold(root, executable, trace, run)
    &&& signatures_hold(root, trace, run)
}

proof fn lemma_identity_read_stays(trace: Seq<Step>, step: Step, value: Option<Seq<u8>>)
    requires
        identity_was_read(trace, value),
    ensures
        identity_was_read(trace.push(step), value),
{
    reveal(identity_was_read);
    lemma_answers_stay(trace, step);
}

proof fn lemma_identity_stays(trace: Seq<Step>, step: Step, identity: Seq<char>)
    requires
        identity_was_chosen(trace, identity),
    ensures
        identity_was_chosen(trace.push(step), identity),
{
    let after = trace.push(step);
    if identity_was_set(trace, identity) {
        let value = choose|value: Seq<u8>| #[trigger]
            identity_was_read(trace, Some(value)) && (override_outcome(value) matches Ok(chosen)
                && chosen.0 == identity);
        lemma_identity_read_stays(trace, step, Some(value));
        assert(identity_was_read(after, Some(value)));
    } else {
        lemma_identity_read_stays(trace, step, None);
        assert(identity_was_listed(after, identity)) by {
            reveal(identity_was_listed);
            lemma_answers_stay(trace, step);
        }
    }
}

/// What holds of the identity holds after the next step as well.
proof fn lemma_identity_step(
    root: Seq<u8>,
    executable: Seq<u8>,
    trace: Seq<Step>,
    was: Signing,
    event: Event,
)
    requires
        sign_holds(root, executable, trace, was),
        sign_next(was, event) is Ok,
    ensures
        identity_holds(
            trace.push(Step { asked: sign_action(was), came: event }),
            sign_next(was, event)->Ok_0,
        ),
{
    let step = Step { asked: sign_action(was), came: event };
    let after = trace.push(step);
    let run = sign_next(was, event)->Ok_0;
    assert(answered(after, sign_action(was), event)) by {
        lemma_answers_stay(trace, step);
    }
    if was.stage == SignStage::ListingIdentities {
        lemma_identity_read_stays(trace, step, None);
    } else if run.stage == SignStage::ListingIdentities {
        assert(identity_was_read(after, None)) by {
            reveal(identity_was_read);
        }
    }
    if !before_identity(was.stage) {
        lemma_identity_stays(trace, step, was.identity);
    } else if !before_identity(run.stage) {
        if was.stage == SignStage::ReadingIdentity {
            let value = byte_string(event->Variable_0)->Some_0;
            assert(identity_was_read(after, Some(value))) by {
                reveal(identity_was_read);
            }
            assert(identity_was_set(after, run.identity));
        } else {
            assert(identity_was_listed(after, run.identity)) by {
                reveal(identity_was_listed);
            }
        }
    }
}

/// What holds of the two verifications holds after the next step as well.
proof fn lemma_verifications_step(
    root: Seq<u8>,
    executable: Seq<u8>,
    trace: Seq<Step>,
    was: Signing,
    event: Event,
)
    requires
        sign_holds(root, executable, trace, was),
        sign_next(was, event) is Ok,
    ensures
        verifications_hold(
            root,
            executable,
            trace.push(Step { asked: sign_action(was), came: event }),
            sign_next(was, event)->Ok_0,
        ),
{
    let step = Step { asked: sign_action(was), came: event };
    let after = trace.push(step);
    if was.stage == SignStage::FindingApp {
        lemma_verified_starts(after, root, app_in(root), executable, ExecutableMatch::Exact);
    }
    if was.stage == SignStage::Inspecting {
        lemma_verified_starts(after, root, app_in(root), executable, ExecutableMatch::Stable);
    }
    if was.verification is Some {
        let verification = was.verification->Some_0;
        lemma_verified_stays(trace, step, verification);
        if was.stage == SignStage::Verifying {
            lemma_verified_step(trace, step, verification);
            lemma_verified_keeps(verification, event);
        }
    }
    if was.again is Some {
        let verification = was.again->Some_0;
        lemma_verified_stays(trace, step, verification);
        if was.stage == SignStage::VerifyingAgain {
            lemma_verified_step(trace, step, verification);
            lemma_verified_keeps(verification, event);
        }
    }
}

/// What holds of the signatures holds after the next step as well.
proof fn lemma_signatures_step(
    root: Seq<u8>,
    executable: Seq<u8>,
    trace: Seq<Step>,
    was: Signing,
    event: Event,
)
    requires
        sign_holds(root, executable, trace, was),
        sign_next(was, event) is Ok,
    ensures
        signatures_hold(
            root,
            trace.push(Step { asked: sign_action(was), came: event }),
            sign_next(was, event)->Ok_0,
        ),
{
    let step = Step { asked: sign_action(was), came: event };
    let after = trace.push(step);
    let run = sign_next(was, event)->Ok_0;
    if was.check is Some {
        let check = was.check->Some_0;
        lemma_sound_stays(trace, step, check);
        if was.stage == SignStage::CheckingSignatures {
            lemma_sound_step(trace, step, check);
            lemma_sound_keeps(check, event);
        }
    } else if run.check is Some {
        lemma_sound_starts(after, app_in(root), run.identifier, run.team);
    }
}

/// What holds of the team holds after the next step as well.
proof fn lemma_team_step(
    root: Seq<u8>,
    executable: Seq<u8>,
    trace: Seq<Step>,
    was: Signing,
    event: Event,
)
    requires
        sign_holds(root, executable, trace, was),
        sign_next(was, event) is Ok,
    ensures
        ({
            let run = sign_next(was, event)->Ok_0;
            let after = trace.push(Step { asked: sign_action(was), came: event });
            &&& run.root == root && run.executable == executable
            &&& run.refusal is Some <==> run.stage == SignStage::Refused
            &&& run.stage != SignStage::ReadingTeam ==> team_was_named(after, run.team)
                && is_team_identifier(run.team)
        }),
{
    let step = Step { asked: sign_action(was), came: event };
    let after = trace.push(step);
    let run = sign_next(was, event)->Ok_0;
    assert(answered(after, sign_action(was), event)) by {
        lemma_answers_stay(trace, step);
    }
    if was.stage != SignStage::ReadingTeam {
        lemma_team_stays(trace, step, was.team);
    } else if run.stage != SignStage::ReadingTeam {
        assert(team_was_named(after, run.team)) by {
            reveal(team_was_named);
        }
    }
}

proof fn lemma_signed_stays(
    trace: Seq<Step>,
    step: Step,
    was: Signing,
    run: Signing,
    number: int,
)
    requires
        was_signed(trace, was, number),
        run.root == was.root && run.identity == was.identity && run.items == was.items,
        run.identifier == was.identifier && run.team == was.team,
    ensures
        was_signed(trace.push(step), run, number),
{
    reveal(was_signed);
    lemma_runs_stay(
        trace,
        step,
        sign_call(run.identity, entitlements_in(run.root), run.items[number]),
        Manner::Aloud,
    );
    lemma_answers_stay(trace, step);
    reveal(was_judged);
}

/// What holds of what was found holds after the next step as well.
proof fn lemma_findings_step(trace: Seq<Step>, was: Signing, event: Event)
    requires
        findings_hold(trace, was),
        sign_next(was, event) is Ok,
    ensures
        findings_hold(
            trace.push(Step { asked: sign_action(was), came: event }),
            sign_next(was, event)->Ok_0,
        ),
{
    let step = Step { asked: sign_action(was), came: event };
    let after = trace.push(step);
    let run = sign_next(was, event)->Ok_0;
    let root = was.root;
    assert(answered(after, sign_action(was), event)) by {
        lemma_answers_stay(trace, step);
    }
    if past_manifest(was.stage) {
        lemma_identifier_stays(trace, step, root, was.identifier);
    } else if past_manifest(run.stage) {
        assert(identifier_was_read(after, root, run.identifier)) by {
            reveal(identifier_was_read);
        }
    }
    if run.stage == SignStage::ListingNested || past_nested(run.stage) {
        assert(entitlements_were_found(after, root)) by {
            reveal(entitlements_were_found);
            lemma_answers_stay(trace, step);
        }
    }
    if past_nested(was.stage) {
        assert(was_listed(after, app_in(root), run.items)) by {
            reveal(was_listed);
            lemma_answers_stay(trace, step);
        }
    } else if past_nested(run.stage) {
        assert(was_listed(after, app_in(root), run.items)) by {
            assert(run.items.drop_last() =~= nested_outcome(
                app_in(root),
                known_entries(event->Entries_0),
            )->Ok_0);
            reveal(was_listed);
        }
    }
    if run.stage == SignStage::CheckingSignatures || past_check(run.stage) {
        lemma_runs_stay(trace, step, verify_call(app_in(root)), Manner::Aloud);
    }
}

/// An item that was signed, and whose signature is then accepted, was signed for the run.
proof fn lemma_item_is_signed(
    trace: Seq<Step>,
    was: Signing,
    attempted: Result<CommandOutput, String>,
)
    requires
        items_hold(trace, was),
        was.stage == SignStage::Inspecting,
        was.accepted < was.items.len(),
        item_outcome(
            was.items[was.accepted as int],
            attempt(attempted),
            expected_identifier(was),
            was.team,
        ) is Ok,
    ensures
        was_signed(
            trace.push(Step { asked: sign_action(was), came: Event::Ran(attempted) }),
            was,
            was.accepted as int,
        ),
{
    let step = Step { asked: sign_action(was), came: Event::Ran(attempted) };
    let after = trace.push(step);
    let item = was.items[was.accepted as int];
    let command = sign_call(was.identity, entitlements_in(was.root), item);
    lemma_runs_stay(trace, step, command, Manner::Aloud);
    assert(was_judged(after, item, expected_identifier(was), was.team)) by {
        lemma_answers_stay(trace, step);
        assert(answered(after, sign_action(was), Event::Ran(attempted)));
        reveal(was_judged);
    }
    reveal(was_signed);
}

/// What holds of the items that were signed holds after one more step for the same items as well.
proof fn lemma_items_stay(trace: Seq<Step>, step: Step, was: Signing)
    requires
        items_hold(trace, was),
    ensures
        items_hold(trace.push(step), was),
{
    assert forall|k: int| 0 <= k < was.accepted implies #[trigger] was_signed(
        trace.push(step),
        was,
        k,
    ) by {
        assert(was_signed(trace, was, k));
        lemma_signed_stays(trace, step, was, was, k);
    }
    if was.stage == SignStage::Inspecting {
        let item = was.items[was.accepted as int];
        let command = sign_call(was.identity, entitlements_in(was.root), item);
        lemma_runs_stay(trace, step, command, Manner::Aloud);
    }
}

/// What holds of the items that were signed holds with one more of them as well.
proof fn lemma_one_more_is_signed(trace: Seq<Step>, was: Signing, run: Signing)
    requires
        items_hold(trace, was),
        was_signed(trace, was, was.accepted as int),
        run.root == was.root && run.identity == was.identity && run.items == was.items,
        run.identifier == was.identifier && run.team == was.team,
        run.accepted == was.accepted + 1,
        past_nested(run.stage) && run.stage != SignStage::Inspecting,
    ensures
        items_hold(trace, run),
{
    assert forall|k: int| 0 <= k < run.accepted implies #[trigger] was_signed(trace, run, k) by {
        assert(was_signed(trace, was, k));
        reveal(was_signed);
    }
}

/// What holds of the items that were signed holds after a step that looks at a signature as well.
proof fn lemma_inspecting_step(trace: Seq<Step>, was: Signing, event: Event)
    requires
        items_hold(trace, was),
        was.stage == SignStage::Inspecting,
        sign_next(was, event) is Ok,
    ensures
        items_hold(
            trace.push(Step { asked: sign_action(was), came: event }),
            sign_next(was, event)->Ok_0,
        ),
{
    let step = Step { asked: sign_action(was), came: event };
    lemma_items_stay(trace, step, was);
    if event is Ran && was.accepted < was.items.len() {
        lemma_item_is_signed(trace, was, event->Ran_0);
        assert(sign_next(was, event)->Ok_0 == with_accepted(was));
        lemma_one_more_is_signed(trace.push(step), was, with_accepted(was));
    } else {
        assert(sign_next(was, event)->Ok_0 == was);
    }
}

/// What holds of the items that were signed holds after the next step as well.
proof fn lemma_items_step(trace: Seq<Step>, was: Signing, event: Event)
    requires
        items_hold(trace, was),
        sign_next(was, event) is Ok,
    ensures
        items_hold(
            trace.push(Step { asked: sign_action(was), came: event }),
            sign_next(was, event)->Ok_0,
        ),
{
    if was.stage == SignStage::Inspecting {
        lemma_inspecting_step(trace, was, event);
    } else {
        let step = Step { asked: sign_action(was), came: event };
        let after = trace.push(step);
        let run = sign_next(was, event)->Ok_0;
        if past_nested(was.stage) {
            assert forall|k: int| 0 <= k < run.accepted implies #[trigger] was_signed(
                after,
                run,
                k,
            ) by {
                assert(was_signed(trace, was, k));
                lemma_signed_stays(trace, step, was, run, k);
            }
        }
        if run.stage == SignStage::Inspecting {
            let item = run.items[run.accepted as int];
            let command = sign_call(run.identity, entitlements_in(run.root), item);
            lemma_runs_stay(trace, step, command, Manner::Aloud);
        }
    }
}

proof fn lemma_sign_holds(root: Seq<u8>, executable: Seq<u8>, events: Seq<Event>)
    requires
        sign_after(root, executable, events) is Ok,
    ensures
        sign_holds(
            root,
            executable,
            sign_trace(root, executable, events),
            sign_after(root, executable, events)->Ok_0,
        ),
        findings_hold(
            sign_trace(root, executable, events),
            sign_after(root, executable, events)->Ok_0,
        ),
        items_hold(
            sign_trace(root, executable, events),
            sign_after(root, executable, events)->Ok_0,
        ),
    decreases events.len(),
{
    if events.len() > 0 {
        let before = events.drop_last();
        lemma_sign_holds(root, executable, before);
        let trace = sign_trace(root, executable, before);
        let was = sign_after(root, executable, before)->Ok_0;
        lemma_team_step(root, executable, trace, was, events.last());
        lemma_identity_step(root, executable, trace, was, events.last());
        lemma_verifications_step(root, executable, trace, was, events.last());
        lemma_signatures_step(root, executable, trace, was, events.last());
        lemma_findings_step(trace, was, events.last());
        lemma_items_step(trace, was, events.last());
    }
}

/// Signing fails closed. Only a run that stops at the identity is refused on the way, and no run that is
/// done was refused. A run that has left its first stage was given a valid team identifier. A run
/// that has gone past the verification has accepted the release, against the release executable. A
/// run that uses an identity uses the one that the variable gives or else the only one that is
/// installed, and one of that very team. A run that has checked the signatures has accepted, for that
/// team, those of all nested code that a listing of the app gave and that of the app itself.
pub proof fn law_signing_fails_closed(root: Seq<u8>, executable: Seq<u8>, events: Seq<Event>)
    requires
        sign_after(root, executable, events) is Ok,
    ensures
        ({
            let run = sign_after(root, executable, events)->Ok_0;
            let trace = sign_trace(root, executable, events);
            &&& run.root == root && run.executable == executable
            &&& run.refusal is Some <==> run.stage == SignStage::Refused
            &&& run.stage != SignStage::ReadingTeam ==> team_was_named(trace, run.team)
                && is_team_identifier(run.team)
            &&& !before_release(run.stage) ==> release_was_verified(
                trace,
                root,
                app_in(root),
                executable,
                ExecutableMatch::Exact,
            )
            &&& !before_identity(run.stage) ==> team_of(run.identity) == Ok::<
                Seq<char>,
                Seq<char>,
            >(run.team) && identity_was_chosen(trace, run.identity)
            &&& past_second_verification(run.stage) ==> release_was_verified(
                trace,
                root,
                app_in(root),
                executable,
                ExecutableMatch::Stable,
            )
            &&& past_check(run.stage) ==> all_were_accepted(
                trace,
                app_in(root),
                run.identifier,
                run.team,
            )
        }),
{
    lemma_sign_holds(root, executable, events);
    let run = sign_after(root, executable, events)->Ok_0;
    let trace = sign_trace(root, executable, events);
    if !before_release(run.stage) {
        assert(is_verified(trace, run.verification->Some_0));
    }
    if past_second_verification(run.stage) {
        assert(is_verified(trace, run.again->Some_0));
    }
    if past_check(run.stage) {
        law_done_checks_accepted_every_item(trace, run.check->Some_0);
    }
}

/// No command that signs is asked for without a team identifier in the environment that is that of
/// the identity, nor for a release that was not verified.
pub proof fn law_nothing_is_signed_for_another_team(
    root: Seq<u8>,
    executable: Seq<u8>,
    events: Seq<Event>,
)
    requires
        sign_after(root, executable, events) is Ok,
        sign_after(root, executable, events)->Ok_0.stage == SignStage::Signing,
    ensures
        ({
            let run = sign_after(root, executable, events)->Ok_0;
            let trace = sign_trace(root, executable, events);
            &&& team_was_named(trace, run.team)
            &&& team_of(run.identity) == Ok::<Seq<char>, Seq<char>>(run.team)
            &&& release_was_verified(
                trace,
                root,
                app_in(root),
                executable,
                ExecutableMatch::Exact,
            )
        }),
{
    law_signing_fails_closed(root, executable, events);
}

/// An identity of another team, or of none, is refused, however it was chosen, and a run for which it
/// was chosen asks for nothing more.
pub proof fn law_foreign_identities_are_refused(
    run: Signing,
    chosen: Result<(Seq<char>, Seq<char>), Seq<char>>,
)
    requires
        chosen matches Ok(identity) ==> team_of(identity.0) != Ok::<Seq<char>, Seq<char>>(
            run.team,
        ),
    ensures
        after_identity(run, chosen) matches Ok(next) ==> next.refusal is Some && sign_action(next)
            == Act::Finish && forall|event: Event| #[trigger]
            sign_next(next, event) == Ok::<Signing, Seq<char>>(next),
{
}

/// What is signed is the nested code that a listing of the app gave, and the app last. A run that has
/// signed has run the command for every such item, with the identity and the entitlements that were
/// found, and accepted its signature for the team, that of the app with the identifier in the manifest;
/// a run that is done has had the signatures verified as well.
pub proof fn law_finished_runs_signed_every_item(
    root: Seq<u8>,
    executable: Seq<u8>,
    events: Seq<Event>,
)
    requires
        sign_after(root, executable, events) is Ok,
    ensures
        ({
            let run = sign_after(root, executable, events)->Ok_0;
            let trace = sign_trace(root, executable, events);
            &&& past_manifest(run.stage) ==> identifier_was_read(trace, root, run.identifier)
            &&& past_nested(run.stage) ==> {
                &&& entitlements_were_found(trace, root)
                &&& was_listed(trace, app_in(root), run.items)
                &&& run.items.last() == app_in(root)
                &&& run.accepted <= run.items.len()
                &&& forall|k: int| 0 <= k < run.accepted ==> #[trigger] was_signed(trace, run, k)
            }
            &&& past_signing(run.stage) ==> run.accepted == run.items.len() && run.items.len() > 0
            &&& past_check(run.stage) ==> was_run(
                trace,
                verify_call(app_in(root)),
                Manner::Aloud,
            )
        }),
{
    lemma_sign_holds(root, executable, events);
}

/// What a signing run asks for at its stages.
pub proof fn law_what_signing_runs_ask_for(run: Signing)
    ensures
        ({
            let asked = sign_action(run);
            let app = joined(run.root, encode_utf8("dist/NEO.app"@));
            let entitlements = joined(run.root, encode_utf8("packaging/NEO.entitlements"@));
            &&& run.stage == SignStage::ReadingTeam ==> asked == Act::ReadVariable(
                "NEO_SIGNING_TEAM_IDENTIFIER"@,
            )
            &&& run.stage == SignStage::Entering ==> asked == Act::Enter(run.root)
            &&& run.stage == SignStage::FindingApp ==> asked == Act::FindDirectory(app)
            &&& run.stage == SignStage::ReadingIdentity ==> asked == Act::ReadVariable(
                "NEO_SIGNING_IDENTITY"@,
            )
            &&& run.stage == SignStage::ListingIdentities ==> asked == Act::Run(
                listing_call(),
                Manner::Quiet,
            )
            &&& run.stage == SignStage::ReadingManifest ==> asked == Act::ReadText(
                joined(run.root, encode_utf8("Cargo.toml"@)),
            )
            &&& run.stage == SignStage::FindingEntitlements ==> asked == Act::FindFile(entitlements)
            &&& run.stage == SignStage::ListingNested ==> asked == Act::List(app)
            &&& run.stage == SignStage::Signing && run.accepted < run.items.len() ==> asked
                == Act::Run(
                sign_call(run.identity, entitlements, run.items[run.accepted as int]),
                Manner::Aloud,
            ) && announced(run) == Some("signing "@ + lossy(run.items[run.accepted as int]))
            &&& run.stage == SignStage::Inspecting && run.accepted < run.items.len() ==> asked
                == Act::Run(details_call(run.items[run.accepted as int]), Manner::Quiet)
            &&& run.stage == SignStage::VerifyingSignatures ==> asked == Act::Run(
                verify_call(app),
                Manner::Aloud,
            )
            &&& run.stage == SignStage::Assessing ==> asked == Act::Run(
                assess_call(app),
                Manner::Quiet,
            )
            &&& run.stage == SignStage::Refused || run.stage == SignStage::Finished ==> asked
                == Act::Finish
            &&& run.stage != SignStage::Signing ==> announced(run) is None
        }),
{
}

/// Before anything is signed: the team, the directory, the app, the identity, the manifest, the
/// entitlements and the nested code are looked at, and each decides whether the run goes on.
pub proof fn law_what_comes_before_signing(
    run: Signing,
    value: Option<Vec<u8>>,
    done: Result<(), String>,
    found: bool,
    manifest: Result<String, String>,
    entries: Result<Vec<Entry>, String>,
)
    ensures
        run.stage == SignStage::ReadingTeam ==> {
            let next = sign_next(run, Event::Variable(value));
            &&& next is Ok <==> configured_team(byte_string(value)) is Ok
            &&& next is Ok ==> next->Ok_0.stage == SignStage::Entering && configured_team(
                byte_string(value),
            ) == Ok::<Seq<char>, Seq<char>>(next->Ok_0.team)
        },
        run.stage == SignStage::Entering ==> {
            let next = sign_next(run, Event::Done(done));
            &&& next is Ok <==> done is Ok
            &&& next is Ok ==> next->Ok_0.stage == SignStage::FindingApp
        },
        run.stage == SignStage::FindingApp ==> {
            let next = sign_next(run, Event::Answer(found));
            &&& next is Ok <==> found
            &&& next is Ok ==> next->Ok_0.stage == SignStage::Verifying && next->Ok_0.verification
                == Some(
                verify_start(
                    run.root,
                    joined(run.root, encode_utf8("dist/NEO.app"@)),
                    run.executable,
                    ExecutableMatch::Exact,
                ),
            )
        },
        run.stage == SignStage::ReadingManifest ==> {
            let next = sign_next(run, Event::Text(manifest));
            let metadata = root_metadata(run.root, read_text(manifest));
            &&& next is Ok <==> metadata is Ok
            &&& next is Ok ==> next->Ok_0.stage == SignStage::FindingEntitlements
                && next->Ok_0.identifier == metadata->Ok_0.identifier
        },
        run.stage == SignStage::FindingEntitlements ==> {
            let next = sign_next(run, Event::Answer(found));
            &&& next is Ok <==> found
            &&& next is Ok ==> next->Ok_0.stage == SignStage::ListingNested
        },
        run.stage == SignStage::ListingNested ==> {
            let app = joined(run.root, encode_utf8("dist/NEO.app"@));
            let next = sign_next(run, Event::Entries(entries));
            let nested = nested_outcome(app, known_entries(entries));
            &&& next is Ok <==> nested is Ok
            &&& next is Ok ==> next->Ok_0.stage == SignStage::Signing && next->Ok_0.items
                == nested->Ok_0 + seq![app] && next->Ok_0.accepted == 0 && next->Ok_0.reports
                == seq!["found "@ + decimal(nested->Ok_0.len()) + " nested code items"@]
        },
{
    if run.stage == SignStage::ListingNested {
        let app = joined(run.root, encode_utf8("dist/NEO.app"@));
        let nested = nested_outcome(app, known_entries(entries));
        if nested is Ok {
            assert(nested->Ok_0.push(app) =~= nested->Ok_0 + seq![app]);
        }
    }
}

/// The identity is the one that the variable gives, or where it is not set the only one of the keychain.
/// It is reported and used where its team is the expected one, and reported and refused where not.
pub proof fn law_identities_are_used_for_their_team(
    run: Signing,
    value: Option<Vec<u8>>,
    attempted: Result<CommandOutput, String>,
)
    ensures
        run.stage == SignStage::ReadingIdentity && value is None ==> {
            let next = sign_next(run, Event::Variable(value));
            next is Ok && next->Ok_0.stage == SignStage::ListingIdentities
        },
        run.stage == SignStage::ReadingIdentity && value is Some ==> is_settled_by(
            run,
            override_outcome(value->Some_0@),
            sign_next(run, Event::Variable(value)),
        ),
        run.stage == SignStage::ListingIdentities ==> is_settled_by(
            run,
            chosen_identity(None, attempt(attempted)),
            sign_next(run, Event::Ran(attempted)),
        ),
{
}

/// Whether a choice of an identity settles how a run goes on.
pub open spec fn is_settled_by(
    run: Signing,
    chosen: Result<(Seq<char>, Seq<char>), Seq<char>>,
    next: Result<Signing, Seq<char>>,
) -> bool {
    &&& next is Ok <==> chosen is Ok
    &&& next is Ok ==> next->Ok_0.reports == seq![chosen->Ok_0.1]
    &&& next is Ok && team_of(chosen->Ok_0.0) == Ok::<Seq<char>, Seq<char>>(run.team)
        ==> next->Ok_0.stage == SignStage::ReadingManifest && next->Ok_0.identity == chosen->Ok_0.0
        && next->Ok_0.refusal == run.refusal
    &&& next is Ok && team_of(chosen->Ok_0.0) != Ok::<Seq<char>, Seq<char>>(run.team)
        ==> next->Ok_0.stage == SignStage::Refused && next->Ok_0.refusal is Some
}

/// Every item is signed and then judged by its signature, the app, which is the last one, with its own
/// identifier. After the last one the release is verified again by what signing leaves alone.
pub proof fn law_every_item_is_signed_and_judged(
    run: Signing,
    attempted: Result<CommandOutput, String>,
)
    requires
        run.accepted < run.items.len(),
    ensures
        ({
            let item = run.items[run.accepted as int];
            let is_last = run.accepted == run.items.len() - 1;
            let next = sign_next(run, Event::Ran(attempted));
            &&& run.stage == SignStage::Signing ==> (next is Ok <==> (attempted matches Ok(output)
                && output.success)) && (next is Ok ==> next->Ok_0.stage == SignStage::Inspecting
                && next->Ok_0.accepted == run.accepted)
            &&& run.stage == SignStage::Inspecting ==> {
                &&& next is Ok <==> item_outcome(
                    item,
                    attempt(attempted),
                    if is_last {
                        Some(run.identifier)
                    } else {
                        None
                    },
                    run.team,
                ) is Ok
                &&& next is Ok ==> next->Ok_0.accepted == run.accepted + 1 && next->Ok_0.items
                    == run.items
                &&& next is Ok && !is_last ==> next->Ok_0.stage == SignStage::Signing
                &&& next is Ok && is_last ==> next->Ok_0.stage == SignStage::VerifyingAgain
                    && next->Ok_0.again == Some(
                    verify_start(
                        run.root,
                        joined(run.root, encode_utf8("dist/NEO.app"@)),
                        run.executable,
                        ExecutableMatch::Stable,
                    ),
                )
            }
        }),
{
}

/// After the second verification the signatures are verified as a whole and then checked one by one. What
/// Gatekeeper says at the end is only told, since the app is not notarized yet.
pub proof fn law_what_comes_after_signing(run: Signing, attempted: Result<CommandOutput, String>)
    ensures
        run.stage == SignStage::VerifyingSignatures ==> {
            let next = sign_next(run, Event::Ran(attempted));
            &&& next is Ok <==> (attempted matches Ok(output) && output.success)
            &&& next is Ok ==> next->Ok_0.stage == SignStage::CheckingSignatures && next->Ok_0.check
                == Some(
                check_start(
                    joined(run.root, encode_utf8("dist/NEO.app"@)),
                    run.identifier,
                    run.team,
                ),
            )
        },
        run.stage == SignStage::Assessing ==> {
            let next = sign_next(run, Event::Ran(attempted));
            &&& next is Ok <==> attempted is Ok
            &&& next is Ok ==> next->Ok_0.stage == SignStage::Finished
            &&& next is Ok && attempted->Ok_0.success ==> next->Ok_0.reports == seq![
                "Gatekeeper accepted the signed app before notarization"@,
            ]
            &&& next is Ok && !attempted->Ok_0.success ==> next->Ok_0.reports == seq![
                "Gatekeeper assessment remains pending notarization: "@ + attempted->Ok_0.status@,
            ]
        },
{
}

/// The verifications and the check of signatures end where they are done, and a refusal of theirs is one
/// of the run.
pub proof fn law_parts_of_a_signing_run(run: Signing, event: Event)
    ensures
        run.stage == SignStage::Verifying && run.verification is Some ==> {
            let next = sign_next(run, event);
            let part = verify_next(run.verification->Some_0, event);
            &&& next is Ok <==> part is Ok
            &&& next is Ok ==> next->Ok_0.verification == Some(part->Ok_0) && next->Ok_0.stage == (
            if part->Ok_0.stage == VerifyStage::Done {
                SignStage::ReadingIdentity
            } else {
                SignStage::Verifying
            })
        },
        run.stage == SignStage::VerifyingAgain && run.again is Some ==> {
            let next = sign_next(run, event);
            let part = verify_next(run.again->Some_0, event);
            &&& next is Ok <==> part is Ok
            &&& next is Ok ==> next->Ok_0.again == Some(part->Ok_0) && next->Ok_0.stage == (
            if part->Ok_0.stage == VerifyStage::Done {
                SignStage::VerifyingSignatures
            } else {
                SignStage::VerifyingAgain
            })
        },
        run.stage == SignStage::CheckingSignatures && run.check is Some ==> {
            let next = sign_next(run, event);
            let part = check_next(run.check->Some_0, event);
            &&& next is Ok <==> part is Ok
            &&& next is Ok ==> next->Ok_0.check == Some(part->Ok_0) && next->Ok_0.stage == (
            if part->Ok_0.stage == CheckStage::Done {
                SignStage::Assessing
            } else {
                SignStage::CheckingSignatures
            })
        },
{
}

/// Where no item is left, nothing more is signed or looked at.
pub proof fn law_runs_without_items_ask_for_nothing(
    run: Signing,
    attempted: Result<CommandOutput, String>,
)
    requires
        run.accepted >= run.items.len(),
        run.stage == SignStage::Signing || run.stage == SignStage::Inspecting,
    ensures
        sign_action(run) == Act::Finish,
        announced(run) is None,
        sign_next(run, Event::Ran(attempted)) == Ok::<Signing, Seq<char>>(run),
{
}

} // verus!
