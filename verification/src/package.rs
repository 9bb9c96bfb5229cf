//! The run that builds and packages the app.

use vstd::prelude::*;
use vstd::utf8::encode_utf8;

use crate::artifact::{build_reports, built, release_executable_from_messages};
use crate::bundle::{remove_carbon_key, without_carbon_key, ExecutableMatch, INFO};
use crate::bytes::{byte_string, owned, read};
use crate::command::{attempt, ran, run_command, Call, CommandOutput, Invocation};
use crate::digest::{sha256_hex, sha256_text};
use crate::encoding::{lossy, lossy_text};
use crate::failure::{failure, outcome, Failure};
use crate::manifest::{
    manifest_in, manifest_path, packager_outcome, read_text, reject_packager_signing_identity,
    toml_file,
};
use crate::path::{join_text, joined};
use crate::pipeline::{
    answered, app_in, app_path, check_done, check_refusal, done_outcome, lemma_answers_stay,
    refusal_outcome, verified_report, verified_text, was_run, Act, Action, Event, Manner, Step,
};
use crate::preparation::{
    lemma_prepare_keeps, lemma_prepare_starts, lemma_prepare_stays, lemma_prepare_step,
    maybe_preparation, prepare_action, prepare_holds, prepare_next, prepare_start,
    wrapper_was_made_executable, wrapper_was_placed, Preparation, PrepareStage, Preparing,
};
use crate::release::{bundle_outcome, verify_bundle, BundleFacts, SettingsFacts};
use crate::release_build::{
    build_environment, debug_build_call, debug_build_command, generate_notices, notices_call,
    packager_call, packager_command, plan_release, plan_reports, planned, release_build_call,
    release_build_command, require_tool_version, tool_outcome, tool_version_call,
    tool_version_command, BuildEnvironment, PackageProfile, Plan, ReleaseBuildEnvironment,
    ABOUT_VERSION, PACKAGER_VERSION,
};
use crate::signatures::was_resolved;
use crate::text::{decimal, join2, join4, maybe_string, texts};
use crate::verification::{
    is_verified, lemma_verified_keeps, lemma_verified_starts, lemma_verified_stays,
    lemma_verified_step, maybe_verification, release_was_verified, told, verify_action, verify_next,
    verify_start, ReleaseCheck, VerifyStage, Verifying,
};

verus! {

/// The directory for the notices, from the repository on.
pub const GENERATED: &'static str = "packaging/generated";

/// How far a packaging run has come.
#[derive(Clone, Copy, Debug, PartialEq, Eq, Structural)]
pub enum PackageStage {
    Entering,
    /// The settings of a release build are found.
    Planning,
    /// The environment of a release build is prepared, step by step.
    Preparing,
    ReadingManifest,
    CheckingPackager,
    CheckingAbout,
    MakingDirectory,
    GeneratingNotices,
    Building,
    /// The executable that a release build named is read.
    ReadingArtifact,
    Packaging,
    FindingApp,
    /// The property list of the app is read.
    ReadingInfo,
    /// It is written without the obsolete key.
    WritingInfo,
    /// The app is verified: a release step by step.
    Verifying,
    /// Something was refused after a part of the last step had been reported.
    Refused,
    Finished,
}

/// A packaging run.
#[derive(Debug)]
pub struct PackageRun {
    root: Vec<u8>,
    profile: PackageProfile,
    stage: PackageStage,
    /// The preparation of a release build, once it is planned.
    preparation: Option<Preparation>,
    /// The executable that a release build named.
    executable: Option<Vec<u8>>,
    /// What the property list of the app is to hold.
    info: Vec<u8>,
    /// The verification of a release, once it has begun.
    verification: Option<ReleaseCheck>,
    /// The sentences that report the last step.
    reports: Vec<String>,
    /// Why a refused run was refused.
    refusal: Option<String>,
}

/// The model of a `PackageRun`.
#[verifier::ext_equal]
pub struct Packaging {
    pub root: Seq<u8>,
    pub profile: PackageProfile,
    pub stage: PackageStage,
    pub preparation: Option<Preparing>,
    pub executable: Option<Seq<u8>>,
    pub info: Seq<u8>,
    pub verification: Option<Verifying>,
    pub reports: Seq<Seq<char>>,
    pub refusal: Option<Seq<char>>,
}

impl View for PackageRun {
    type V = Packaging;

    closed spec fn view(&self) -> Packaging {
        Packaging {
            root: self.root@,
            profile: self.profile,
            stage: self.stage,
            preparation: maybe_preparation(self.preparation),
            executable: byte_string(self.executable),
            info: self.info@,
            verification: maybe_verification(self.verification),
            reports: texts(self.reports@),
            refusal: maybe_string(self.refusal),
        }
    }
}

/// The run before its first event.
pub open spec fn package_start(root: Seq<u8>, profile: PackageProfile) -> Packaging {
    Packaging {
        root,
        profile,
        stage: PackageStage::Entering,
        preparation: None,
        executable: None,
        info: Seq::empty(),
        verification: None,
        reports: Seq::empty(),
        refusal: None,
    }
}

/// The environment of a release build, once it is ready.
pub open spec fn environment_of(run: Packaging) -> Option<BuildEnvironment> {
    match run.preparation {
        Some(preparation) => preparation.environment,
        None => None,
    }
}

/// Where the property list of the app lies.
pub open spec fn info_in(root: Seq<u8>) -> Seq<u8> {
    joined(app_in(root), encode_utf8(INFO@))
}

/// The run at another stage, with nothing to report.
pub open spec fn at(run: Packaging, stage: PackageStage) -> Packaging {
    Packaging { stage, reports: Seq::empty(), ..run }
}

/// What a refusal makes of a run: a part of the step may have been reported before it, and is then
/// handed out first.
pub open spec fn refused(run: Packaging, reports: Seq<Seq<char>>, refusal: Seq<char>) -> Result<
    Packaging,
    Seq<char>,
> {
    if reports.len() == 0 {
        Err(refusal)
    } else {
        Ok(Packaging { reports, refusal: Some(refusal), ..at(run, PackageStage::Refused) })
    }
}

/// The command of the build: that of a release where its environment is prepared, else that of a
/// debug build.
pub open spec fn build_call(run: Packaging) -> Call {
    match environment_of(run) {
        Some(environment) => release_build_call(environment),
        None => debug_build_call(),
    }
}

/// How the build is run: what Cargo tells of a release build is read.
pub open spec fn build_manner(run: Packaging) -> Manner {
    if environment_of(run) is Some {
        Manner::ErrorsShown
    } else {
        Manner::Aloud
    }
}

/// The run after the build.
pub open spec fn after_build(run: Packaging, attempted: Result<CommandOutput, String>) -> Result<
    Packaging,
    Seq<char>,
> {
    match ran(build_call(run), attempt(attempted)) {
        Err(refusal) => Err(refusal),
        Ok(()) => if environment_of(run) is None {
            Ok(at(run, PackageStage::Packaging))
        } else {
            let messages = attempt(attempted)->Ok_0.stdout;
            match built(messages) {
                Err(refusal) => refused(run, build_reports(messages), refusal),
                Ok(path) => Ok(
                    Packaging {
                        executable: Some(path),
                        reports: build_reports(messages),
                        ..at(run, PackageStage::ReadingArtifact)
                    },
                ),
            }
        },
    }
}

/// The sentence that records the executable of a release build.
pub open spec fn recorded_text(path: Seq<u8>, bytes: Seq<u8>) -> Seq<char> {
    "recorded built release artifact SHA-256 "@ + sha256_text(bytes) + ": "@ + lossy(path)
}

/// The run after the bundle was found.
pub open spec fn after_bundle(run: Packaging, facts: BundleFacts) -> Result<Packaging, Seq<char>> {
    let app = app_in(run.root);
    match bundle_outcome(run.root, app, facts, None) {
        Err(refusal) => Err(refusal),
        Ok(report) => Ok(
            Packaging {
                reports: seq![verified_text(app, report.attributions)],
                ..at(run, PackageStage::Finished)
            },
        ),
    }
}

/// The run after an event. The app is verified against the executable that a release build named, byte
/// for byte; without one, its bundle is.
pub open spec fn package_next(run: Packaging, event: Event) -> Result<Packaging, Seq<char>> {
    let app = app_in(run.root);
    match (run.stage, event) {
        (PackageStage::Entering, Event::Done(done)) => match done_outcome(done) {
            Err(fault) => Err(fault),
            Ok(()) => Ok(
                at(
                    run,
                    if run.profile == PackageProfile::Release {
                        PackageStage::Planning
                    } else {
                        PackageStage::ReadingManifest
                    },
                ),
            ),
        },
        (PackageStage::Planning, Event::Build(facts, toolchain)) => {
            let reports = plan_reports(run.root, facts, read_text(toolchain));
            match planned(run.root, facts, read_text(toolchain)) {
                Err(refusal) => refused(run, reports, refusal),
                Ok(plan) => Ok(
                    Packaging {
                        preparation: Some(prepare_start(run.root, plan, facts.environment@)),
                        reports,
                        ..at(run, PackageStage::Preparing)
                    },
                ),
            }
        },
        (PackageStage::Preparing, event) => match run.preparation {
            None => Ok(run),
            Some(preparation) => match prepare_next(preparation, event) {
                Err(refusal) => Err(refusal),
                Ok(next) => Ok(
                    Packaging {
                        preparation: Some(next),
                        ..at(
                            run,
                            if next.stage == PrepareStage::Ready {
                                PackageStage::ReadingManifest
                            } else {
                                PackageStage::Preparing
                            },
                        )
                    },
                ),
            },
        },
        (PackageStage::ReadingManifest, Event::Text(manifest)) => match toml_file(
            read_text(manifest),
        ) {
            Err(fault) => Err(fault),
            Ok(manifest) => match packager_outcome(
                manifest_in(run.root),
                manifest,
            ) {
                Err(refusal) => Err(refusal),
                Ok(()) => Ok(at(run, PackageStage::CheckingPackager)),
            },
        },
        (PackageStage::CheckingPackager, Event::Ran(attempted)) => match tool_outcome(
            "packager"@,
            PACKAGER_VERSION@,
            attempt(attempted),
        ) {
            Err(refusal) => Err(refusal),
            Ok(()) => Ok(at(run, PackageStage::CheckingAbout)),
        },
        (PackageStage::CheckingAbout, Event::Ran(attempted)) => match tool_outcome(
            "about"@,
            ABOUT_VERSION@,
            attempt(attempted),
        ) {
            Err(refusal) => Err(refusal),
            Ok(()) => Ok(at(run, PackageStage::MakingDirectory)),
        },
        (PackageStage::MakingDirectory, Event::Done(done)) => match done_outcome(done) {
            Err(fault) => Err(fault),
            Ok(()) => Ok(at(run, PackageStage::GeneratingNotices)),
        },
        (PackageStage::GeneratingNotices, Event::Ran(attempted)) => match ran(
            notices_call(),
            attempt(attempted),
        ) {
            Err(refusal) => Err(refusal),
            Ok(()) => Ok(at(run, PackageStage::Building)),
        },
        (PackageStage::Building, Event::Ran(attempted)) => after_build(run, attempted),
        (PackageStage::ReadingArtifact, Event::Contents(contents)) => match run.executable {
            None => Ok(run),
            Some(path) => match read(contents) {
                Err(fault) => Err(fault),
                Ok(bytes) => Ok(
                    Packaging {
                        reports: seq![recorded_text(path, bytes)],
                        ..at(run, PackageStage::Packaging)
                    },
                ),
            },
        },
        (PackageStage::Packaging, Event::Ran(attempted)) => match ran(
            packager_call(environment_of(run), run.profile),
            attempt(attempted),
        ) {
            Err(refusal) => Err(refusal),
            Ok(()) => Ok(at(run, PackageStage::FindingApp)),
        },
        (PackageStage::FindingApp, Event::Answer(found)) => if found {
            Ok(at(run, PackageStage::ReadingInfo))
        } else {
            Err("cargo-packager did not create "@ + lossy(app))
        },
        (PackageStage::ReadingInfo, Event::Contents(contents)) => match without_carbon_key(
            info_in(run.root),
            read(contents),
        ) {
            Err(refusal) => Err(refusal),
            Ok(info) => Ok(Packaging { info, ..at(run, PackageStage::WritingInfo) }),
        },
        (PackageStage::WritingInfo, Event::Done(done)) => match done_outcome(done) {
            Err(fault) => Err(fault),
            Ok(()) => Ok(
                Packaging {
                    verification: match run.executable {
                        Some(executable) => Some(
                            verify_start(run.root, app, executable, ExecutableMatch::Exact),
                        ),
                        None => None,
                    },
                    ..at(run, PackageStage::Verifying)
                },
            ),
        },
        (PackageStage::Verifying, event) => match run.verification {
            Some(verification) => match verify_next(verification, event) {
                Err(refusal) => Err(refusal),
                Ok(next) => Ok(
                    if next.stage == VerifyStage::Done {
                        Packaging {
                            verification: Some(next),
                            reports: told(next),
                            ..at(run, PackageStage::Finished)
                        }
                    } else {
                        Packaging {
                            verification: Some(next),
                            reports: next.reports,
                            ..at(run, PackageStage::Verifying)
                        }
                    },
                ),
            },
            None => match event {
                Event::Bundle(facts) => after_bundle(run, facts),
                _ => Ok(run),
            },
        },
        _ => Ok(run),
    }
}

/// What a packaging run asks for.
pub open spec fn package_action(run: Packaging) -> Act {
    let app = app_in(run.root);
    match run.stage {
        PackageStage::Entering => Act::Enter(run.root),
        PackageStage::Planning => Act::FindBuild(run.root),
        PackageStage::Preparing => match run.preparation {
            Some(preparation) => prepare_action(preparation),
            None => Act::Finish,
        },
        PackageStage::ReadingManifest => Act::ReadText(manifest_in(run.root)),
        PackageStage::CheckingPackager => Act::Run(
            tool_version_call("packager"@),
            Manner::Quiet,
        ),
        PackageStage::CheckingAbout => Act::Run(tool_version_call("about"@), Manner::Quiet),
        PackageStage::MakingDirectory => Act::MakeDirectory(encode_utf8(GENERATED@)),
        PackageStage::GeneratingNotices => Act::Run(notices_call(), Manner::Aloud),
        PackageStage::Building => Act::Run(build_call(run), build_manner(run)),
        PackageStage::ReadingArtifact => match run.executable {
            Some(path) => Act::Read(path),
            None => Act::Finish,
        },
        PackageStage::Packaging => Act::Run(
            packager_call(environment_of(run), run.profile),
            Manner::Aloud,
        ),
        PackageStage::FindingApp => Act::FindDirectory(app),
        PackageStage::ReadingInfo => Act::ReadPropertyList(info_in(run.root)),
        PackageStage::WritingInfo => Act::WritePropertyList(info_in(run.root), run.info),
        PackageStage::Verifying => match run.verification {
            Some(verification) => verify_action(verification),
            None => Act::FindBundle(run.root, app),
        },
        PackageStage::Refused | PackageStage::Finished => Act::Finish,
    }
}

/// A result with a run replaced by its model, and its refusal by its text.
pub open spec fn package_outcome(result: Result<PackageRun, Failure>) -> Result<
    Packaging,
    Seq<char>,
> {
    match result {
        Ok(run) => Ok(run@),
        Err(refusal) => Err(refusal@),
    }
}

impl PackageRun {
    /// The run before its first event.
    pub fn start(root: &[u8], profile: PackageProfile) -> (run: Self)
        ensures
            run@ == package_start(root@, profile),
    {
        let run = PackageRun {
            root: owned(root),
            profile,
            stage: PackageStage::Entering,
            preparation: None,
            executable: None,
            info: Vec::new(),
            verification: None,
            reports: Vec::new(),
            refusal: None,
        };
        assert(run@ =~= package_start(root@, profile));
        run
    }

    /// How far the run has come.
    pub fn stage(&self) -> (stage: PackageStage)
        ensures
            stage == self@.stage,
    {
        self.stage
    }

    /// The sentences that report the last step.
    pub fn reports(&self) -> (reports: &[String])
        ensures
            texts(reports@) == self@.reports,
    {
        self.reports.as_slice()
    }

    /// Whether the run was refused, and why.
    pub fn result(&self) -> (result: Result<(), Failure>)
        ensures
            outcome(result) == refusal_outcome(self@.refusal),
    {
        check_refusal(&self.refusal)
    }

    /// The environment of a release build, once it is ready.
    fn environment(&self) -> (environment: Option<&ReleaseBuildEnvironment>)
        ensures
            environment_of(self@) == (match environment {
                Some(environment) => Some(environment@),
                None => None,
            }),
    {
        match &self.preparation {
            Some(preparation) => preparation.environment(),
            None => None,
        }
    }

    /// The command of the build.
    fn build_command(&self) -> (command: Invocation)
        ensures
            command@ == build_call(self@),
    {
        match self.environment() {
            Some(environment) => release_build_command(environment),
            None => debug_build_command(),
        }
    }

    /// The command of the packager.
    fn package_command(&self) -> (command: Invocation)
        ensures
            command@ == packager_call(environment_of(self@), self@.profile),
    {
        match self.environment() {
            Some(environment) => packager_command(Some(environment), self.profile),
            None => packager_command(None, self.profile),
        }
    }

    /// Where the property list of the app lies.
    fn info_path(&self) -> (path: Vec<u8>)
        ensures
            path@ == info_in(self@.root),
    {
        join_text(app_path(self.root.as_slice()).as_slice(), INFO)
    }

    /// What the run asks for.
    pub fn action(&self) -> (action: Action)
        ensures
            action@ == package_action(self@),
    {
        let app = app_path(self.root.as_slice());
        match self.stage {
            PackageStage::Entering => Action::Enter(owned(self.root.as_slice())),
            PackageStage::Planning => Action::FindBuild(owned(self.root.as_slice())),
            PackageStage::Preparing => match &self.preparation {
                Some(preparation) => preparation.action(),
                None => Action::Finish,
            },
            PackageStage::ReadingManifest => Action::ReadText(
                manifest_path(self.root.as_slice()),
            ),
            PackageStage::CheckingPackager => Action::Run(
                tool_version_command("packager"),
                Manner::Quiet,
            ),
            PackageStage::CheckingAbout => Action::Run(
                tool_version_command("about"),
                Manner::Quiet,
            ),
            PackageStage::MakingDirectory => Action::MakeDirectory(owned(GENERATED.as_bytes())),
            PackageStage::GeneratingNotices => Action::Run(generate_notices(), Manner::Aloud),
            PackageStage::Building => {
                let manner = match self.environment() {
                    Some(_) => Manner::ErrorsShown,
                    None => Manner::Aloud,
                };
                Action::Run(self.build_command(), manner)
            },
            PackageStage::ReadingArtifact => match &self.executable {
                Some(path) => Action::Read(owned(path.as_slice())),
                None => Action::Finish,
            },
            PackageStage::Packaging => Action::Run(self.package_command(), Manner::Aloud),
            PackageStage::FindingApp => Action::FindDirectory(app),
            PackageStage::ReadingInfo => Action::ReadPropertyList(self.info_path()),
            PackageStage::WritingInfo => Action::WritePropertyList(
                self.info_path(),
                owned(self.info.as_slice()),
            ),
            PackageStage::Verifying => match &self.verification {
                Some(verification) => verification.action(),
                None => Action::FindBundle(owned(self.root.as_slice()), app),
            },
            PackageStage::Refused | PackageStage::Finished => Action::Finish,
        }
    }

    /// The run at another stage, with nothing to report.
    fn moved(self, stage: PackageStage) -> (run: Self)
        ensures
            run@ == at(self@, stage),
    {
        let ghost before = self@;
        let run = PackageRun { stage, reports: Vec::new(), ..self };
        assert(run@ =~= at(before, stage));
        run
    }

    /// The run at another stage, with one sentence to report.
    fn moved_with(self, stage: PackageStage, report: String) -> (run: Self)
        ensures
            run@ == (Packaging { reports: seq![report@], ..at(self@, stage) }),
    {
        let ghost before = self@;
        let ghost text = report@;
        let run = PackageRun { stage, reports: vec![report], ..self };
        assert(run@.reports == seq![text]);
        run
    }

    /// What a refusal makes of a run.
    fn refuse(self, reports: Vec<String>, refusal: Failure) -> (result: Result<Self, Failure>)
        ensures
            package_outcome(result) == refused(self@, texts(reports@), refusal@),
    {
        if reports.len() == 0 {
            return Err(refusal);
        }
        let ghost before = self@;
        let ghost told = texts(reports@);
        let ghost text = refusal@;
        let run = PackageRun {
            stage: PackageStage::Refused,
            reports,
            refusal: Some(refusal.message),
            ..self
        };
        assert(run@ =~= refused(before, told, text)->Ok_0);
        Ok(run)
    }

    /// The run after the build.
    fn with_build(self, attempted: &Result<CommandOutput, String>) -> (result: Result<
        Self,
        Failure,
    >)
        requires
            self@.stage == PackageStage::Building,
        ensures
            package_outcome(result) == after_build(self@, *attempted),
    {
        match run_command(&self.build_command(), attempted) {
            Ok(()) => {},
            Err(refusal) => return Err(refusal),
        }
        match self.environment() {
            Some(_) => {},
            None => return Ok(self.moved(PackageStage::Packaging)),
        }
        let messages = match attempted {
            Ok(output) => output.stdout.as_slice(),
            Err(fault) => return Err(failure(fault.as_str())),
        };
        let mut reports: Vec<String> = Vec::new();
        let found = release_executable_from_messages(messages, &mut reports);
        assert(texts(reports@) =~= build_reports(messages@));
        match found {
            Ok(path) => {
                let mut run = self.moved(PackageStage::ReadingArtifact);
                run.executable = Some(path);
                run.reports = reports;
                Ok(run)
            },
            Err(refusal) => self.refuse(reports, refusal),
        }
    }

    /// The run after a command was run for it.
    fn with_command(self, attempted: &Result<CommandOutput, String>) -> (result: Result<
        Self,
        Failure,
    >)
        requires
            self.stage != PackageStage::Preparing,
            self.stage != PackageStage::Verifying,
        ensures
            package_outcome(result) == package_next(self@, Event::Ran(*attempted)),
    {
        match self.stage {
            PackageStage::CheckingPackager => match require_tool_version(
                "packager",
                PACKAGER_VERSION,
                attempted,
            ) {
                Ok(()) => Ok(self.moved(PackageStage::CheckingAbout)),
                Err(refusal) => Err(refusal),
            },
            PackageStage::CheckingAbout => match require_tool_version(
                "about",
                ABOUT_VERSION,
                attempted,
            ) {
                Ok(()) => Ok(self.moved(PackageStage::MakingDirectory)),
                Err(refusal) => Err(refusal),
            },
            PackageStage::GeneratingNotices => match run_command(&generate_notices(), attempted) {
                Ok(()) => Ok(self.moved(PackageStage::Building)),
                Err(refusal) => Err(refusal),
            },
            PackageStage::Building => self.with_build(attempted),
            PackageStage::Packaging => match run_command(&self.package_command(), attempted) {
                Ok(()) => Ok(self.moved(PackageStage::FindingApp)),
                Err(refusal) => Err(refusal),
            },
            _ => Ok(self),
        }
    }

    /// The run after the settings of a release build were found.
    fn with_settings(
        self,
        facts: &SettingsFacts,
        toolchain: &Result<String, String>,
    ) -> (result: Result<Self, Failure>)
        requires
            self@.stage == PackageStage::Planning,
        ensures
            package_outcome(result) == package_next(
                self@,
                Event::Build(*facts, *toolchain),
            ),
    {
        let mut reports: Vec<String> = Vec::new();
        let found = plan_release(self.root.as_slice(), facts, toolchain, &mut reports);
        assert(texts(reports@) =~= plan_reports(self@.root, *facts, read_text(*toolchain)));
        match found {
            Ok(plan) => {
                let preparation = Preparation::start(
                    self.root.as_slice(),
                    plan,
                    &facts.environment,
                );
                let mut run = self.moved(PackageStage::Preparing);
                run.preparation = Some(preparation);
                run.reports = reports;
                Ok(run)
            },
            Err(refusal) => self.refuse(reports, refusal),
        }
    }

    /// The run after an event for the preparation.
    fn with_preparation(self, event: &Event) -> (result: Result<Self, Failure>)
        requires
            self@.stage == PackageStage::Preparing,
        ensures
            package_outcome(result) == package_next(self@, *event),
    {
        let ghost before = self@;
        let mut run = self;
        match run.preparation {
            None => {
                run.preparation = None;
                assert(run@ =~= before);
                Ok(run)
            },
            Some(preparation) => match preparation.advance(event) {
                Ok(next) => {
                    run.stage = match next.stage() {
                        PrepareStage::Ready => PackageStage::ReadingManifest,
                        _ => PackageStage::Preparing,
                    };
                    run.preparation = Some(next);
                    run.reports = Vec::new();
                    assert(run@ =~= package_next(before, *event)->Ok_0);
                    Ok(run)
                },
                Err(refusal) => Err(refusal),
            },
        }
    }

    /// The run after the executable that a release build named was read.
    fn with_artifact(self, contents: &Result<Vec<u8>, String>) -> (result: Result<Self, Failure>)
        requires
            self@.stage == PackageStage::ReadingArtifact,
        ensures
            package_outcome(result) == package_next(self@, Event::Contents(*contents)),
    {
        let report = match &self.executable {
            None => None,
            Some(path) => match contents {
                Err(fault) => return Err(failure(fault.as_str())),
                Ok(bytes) => {
                    let digest = sha256_hex(bytes.as_slice());
                    let shown = lossy_text(path.as_slice());
                    Some(
                        join4(
                            "recorded built release artifact SHA-256 ",
                            digest.as_str(),
                            ": ",
                            shown.as_str(),
                        ),
                    )
                },
            },
        };
        match report {
            None => Ok(self),
            Some(report) => Ok(self.moved_with(PackageStage::Packaging, report)),
        }
    }

    /// The run after the property list of the app was read.
    fn with_info(self, contents: &Result<Vec<u8>, String>) -> (result: Result<Self, Failure>)
        requires
            self@.stage == PackageStage::ReadingInfo,
        ensures
            package_outcome(result) == package_next(self@, Event::Contents(*contents)),
    {
        match remove_carbon_key(self.info_path().as_slice(), contents) {
            Ok(info) => {
                let mut run = self.moved(PackageStage::WritingInfo);
                run.info = info;
                Ok(run)
            },
            Err(refusal) => Err(refusal),
        }
    }

    /// The run after the property list of the app was written.
    fn with_written_info(self, done: &Result<(), String>) -> (result: Result<Self, Failure>)
        requires
            self@.stage == PackageStage::WritingInfo,
        ensures
            package_outcome(result) == package_next(self@, Event::Done(*done)),
    {
        match check_done(done) {
            Ok(()) => {},
            Err(refusal) => return Err(refusal),
        }
        let app = app_path(self.root.as_slice());
        let verification = match &self.executable {
            Some(executable) => Some(
                ReleaseCheck::start(
                    self.root.as_slice(),
                    app.as_slice(),
                    executable.as_slice(),
                    ExecutableMatch::Exact,
                ),
            ),
            None => None,
        };
        let mut run = self.moved(PackageStage::Verifying);
        run.verification = verification;
        Ok(run)
    }

    /// The run after an event for the verification of the app.
    fn with_verification(self, event: &Event) -> (result: Result<Self, Failure>)
        requires
            self@.stage == PackageStage::Verifying,
        ensures
            package_outcome(result) == package_next(self@, *event),
    {
        let ghost before = self@;
        let mut run = self;
        match run.verification {
            None => {
                run.verification = None;
                assert(run@ =~= before);
                match event {
                    Event::Bundle(facts) => run.with_bundle(facts),
                    _ => Ok(run),
                }
            },
            Some(verification) => match verification.advance(event) {
                Ok(next) => {
                    if next.stage() == VerifyStage::Done {
                        run.stage = PackageStage::Finished;
                        run.reports = next.tell();
                    } else {
                        run.reports = next.reports();
                    }
                    run.verification = Some(next);
                    assert(run@ =~= package_next(before, *event)->Ok_0);
                    Ok(run)
                },
                Err(refusal) => Err(refusal),
            },
        }
    }

    /// The run after the bundle was found.
    fn with_bundle(self, facts: &BundleFacts) -> (result: Result<Self, Failure>)
        ensures
            package_outcome(result) == after_bundle(self@, *facts),
    {
        let app = app_path(self.root.as_slice());
        match verify_bundle(self.root.as_slice(), app.as_slice(), facts, None) {
            Ok(report) => {
                let text = verified_report(app.as_slice(), report.attributions);
                Ok(self.moved_with(PackageStage::Finished, text))
            },
            Err(refusal) => Err(refusal),
        }
    }

    /// The run after an event.
    pub fn advance(self, event: &Event) -> (result: Result<Self, Failure>)
        ensures
            package_outcome(result) == package_next(self@, *event),
    {
        match (self.stage, event) {
            (PackageStage::Entering, Event::Done(done)) => match check_done(done) {
                Ok(()) => {
                    let stage = if self.profile == PackageProfile::Release {
                        PackageStage::Planning
                    } else {
                        PackageStage::ReadingManifest
                    };
                    Ok(self.moved(stage))
                },
                Err(refusal) => Err(refusal),
            },
            (PackageStage::Planning, Event::Build(facts, toolchain)) => self.with_settings(
                facts,
                toolchain,
            ),
            (PackageStage::Preparing, _) => self.with_preparation(event),
            (PackageStage::Verifying, _) => self.with_verification(event),
            (PackageStage::ReadingManifest, Event::Text(manifest)) => {
                match reject_packager_signing_identity(self.root.as_slice(), manifest) {
                    Ok(()) => Ok(self.moved(PackageStage::CheckingPackager)),
                    Err(refusal) => Err(refusal),
                }
            },
            (PackageStage::MakingDirectory, Event::Done(done)) => match check_done(done) {
                Ok(()) => Ok(self.moved(PackageStage::GeneratingNotices)),
                Err(refusal) => Err(refusal),
            },
            (_, Event::Ran(attempted)) => self.with_command(attempted),
            (PackageStage::ReadingArtifact, Event::Contents(contents)) => self.with_artifact(
                contents,
            ),
            (PackageStage::FindingApp, Event::Answer(found)) => if *found {
                Ok(self.moved(PackageStage::ReadingInfo))
            } else {
                let app = app_path(self.root.as_slice());
                let shown = lossy_text(app.as_slice());
                Err(
                    Failure {
                        message: join2("cargo-packager did not create ", shown.as_str()),
                    },
                )
            },
            (PackageStage::ReadingInfo, Event::Contents(contents)) => self.with_info(contents),
            (PackageStage::WritingInfo, Event::Done(done)) => self.with_written_info(done),
            _ => Ok(self),
        }
    }
}

/// The run after several events.
pub open spec fn package_after(
    root: Seq<u8>,
    profile: PackageProfile,
    events: Seq<Event>,
) -> Result<Packaging, Seq<char>>
    decreases events.len(),
{
    if events.len() == 0 {
        Ok(package_start(root, profile))
    } else {
        match package_after(root, profile, events.drop_last()) {
            Err(refusal) => Err(refusal),
            Ok(run) => package_next(run, events.last()),
        }
    }
}

/// What the run asked for before each event, and the event.
pub open spec fn package_trace(
    root: Seq<u8>,
    profile: PackageProfile,
    events: Seq<Event>,
) -> Seq<Step>
    decreases events.len(),
{
    if events.len() == 0 {
        Seq::empty()
    } else {
        let before = events.drop_last();
        package_trace(root, profile, before).push(
            Step {
                asked: package_action(package_after(root, profile, before)->Ok_0),
                came: events.last(),
            },
        )
    }
}

/// Whether a stage comes after the environment of a release build was prepared.
pub open spec fn past_preparing(stage: PackageStage) -> bool {
    stage != PackageStage::Entering && stage != PackageStage::Planning && stage
        != PackageStage::Preparing && stage != PackageStage::Refused
}

/// Whether a stage comes after the versions of the tools were accepted.
pub open spec fn past_tools(stage: PackageStage) -> bool {
    stage == PackageStage::MakingDirectory || stage == PackageStage::GeneratingNotices
        || past_notices(stage)
}

/// Whether a stage comes after the notices were generated.
pub open spec fn past_notices(stage: PackageStage) -> bool {
    stage == PackageStage::Building || past_building(stage)
}

/// Whether a stage comes after the packager was run.
pub open spec fn past_packaging(stage: PackageStage) -> bool {
    ||| stage == PackageStage::FindingApp
    ||| stage == PackageStage::ReadingInfo
    ||| stage == PackageStage::WritingInfo
    ||| past_writing(stage)
}

/// Whether a stage comes after the build.
pub open spec fn past_building(stage: PackageStage) -> bool {
    ||| stage == PackageStage::ReadingArtifact
    ||| stage == PackageStage::Packaging
    ||| past_packaging(stage)
}

/// Whether a stage comes after the property list of the app was written.
pub open spec fn past_writing(stage: PackageStage) -> bool {
    stage == PackageStage::Verifying || stage == PackageStage::Finished
}

/// Whether the settings of the build were found, and this is the plan that they give.
#[verifier::opaque]
pub open spec fn was_planned(
    trace: Seq<Step>,
    root: Seq<u8>,
    plan: Plan,
    variables: Seq<(Seq<u8>, Seq<u8>)>,
) -> bool {
    exists|came: Event| #[trigger]
        answered(trace, Act::FindBuild(root), came) && (
        came matches Event::Build(facts, toolchain) && facts.environment@ == variables
            && planned(root, facts, read_text(toolchain)) == Ok::<
            Plan,
            Seq<char>,
        >(plan))
}

/// Whether the release was built in this environment, and named the executable.
#[verifier::opaque]
pub open spec fn was_built(
    trace: Seq<Step>,
    environment: BuildEnvironment,
    executable: Seq<u8>,
) -> bool {
    exists|came: Event| #[trigger]
        answered(
            trace,
            Act::Run(release_build_call(environment), Manner::ErrorsShown),
            came,
        ) && (came matches Event::Ran(attempted) && ran(
            release_build_call(environment),
            attempt(attempted),
        ) is Ok && built(attempt(attempted)->Ok_0.stdout) == Ok::<Seq<u8>, Seq<char>>(executable))
}

/// Whether the property list of the app was read, and this is what it held, without the obsolete key.
#[verifier::opaque]
pub open spec fn info_was_read(trace: Seq<Step>, root: Seq<u8>, info: Seq<u8>) -> bool {
    exists|came: Event| #[trigger]
        answered(trace, Act::ReadPropertyList(info_in(root)), came) && (
        came matches Event::Contents(contents) && without_carbon_key(
            info_in(root),
            read(contents),
        ) == Ok::<Seq<u8>, Seq<char>>(info))
}

/// Whether this was written to the property list of the app.
#[verifier::opaque]
pub open spec fn info_was_written(trace: Seq<Step>, root: Seq<u8>, info: Seq<u8>) -> bool {
    exists|came: Event| #[trigger]
        answered(trace, Act::WritePropertyList(info_in(root), info), came) && (
        came matches Event::Done(Ok(())))
}

/// Whether the bundle was found and accepted.
#[verifier::opaque]
pub open spec fn bundle_was_verified(trace: Seq<Step>, root: Seq<u8>) -> bool {
    exists|came: Event| #[trigger]
        answered(trace, Act::FindBundle(root, app_in(root)), came) && (
        came matches Event::Bundle(facts) && bundle_outcome(
            root,
            app_in(root),
            facts,
            None,
        ) is Ok)
}

/// Whether the app was accepted: against the executable that a release build named, byte for byte, or,
/// without one, by its bundle.
pub open spec fn app_was_verified(
    trace: Seq<Step>,
    root: Seq<u8>,
    executable: Option<Seq<u8>>,
) -> bool {
    match executable {
        Some(executable) => release_was_verified(
            trace,
            root,
            app_in(root),
            executable,
            ExecutableMatch::Exact,
        ),
        None => bundle_was_verified(trace, root),
    }
}

/// Whether the manifest was read, and names no identity for the packager to sign with.
#[verifier::opaque]
pub open spec fn manifest_was_accepted(trace: Seq<Step>, root: Seq<u8>) -> bool {
    exists|came: Event| #[trigger]
        answered(trace, Act::ReadText(manifest_in(root)), came) && (
        came matches Event::Text(manifest) && (toml_file(read_text(manifest)) matches Ok(contents)
            && packager_outcome(manifest_in(root), contents) is Ok))
}

/// Whether a tool was asked for its version, and answered with the one that is required.
#[verifier::opaque]
pub open spec fn tool_was_accepted(
    trace: Seq<Step>,
    name: Seq<char>,
    version: Seq<char>,
) -> bool {
    exists|came: Event| #[trigger]
        answered(trace, Act::Run(tool_version_call(name), Manner::Quiet), came) && (
        came matches Event::Ran(attempted) && tool_outcome(name, version, attempt(attempted))
            is Ok)
}

/// What holds of the manifest and the tools of a run that has come so far by this trace.
pub open spec fn tools_hold(root: Seq<u8>, trace: Seq<Step>, run: Packaging) -> bool {
    &&& run.stage == PackageStage::CheckingPackager || run.stage == PackageStage::CheckingAbout
        || past_tools(run.stage) ==> manifest_was_accepted(trace, root)
    &&& run.stage == PackageStage::CheckingAbout || past_tools(run.stage) ==> tool_was_accepted(
        trace,
        "packager"@,
        PACKAGER_VERSION@,
    )
    &&& past_tools(run.stage) ==> tool_was_accepted(trace, "about"@, ABOUT_VERSION@)
}

/// What holds of the commands of a run that has come so far by this trace.
pub open spec fn commands_hold(trace: Seq<Step>, run: Packaging) -> bool {
    &&& past_notices(run.stage) ==> was_run(trace, notices_call(), Manner::Aloud)
    &&& past_building(run.stage) ==> was_run(trace, build_call(run), build_manner(run))
    &&& past_packaging(run.stage) ==> was_run(
        trace,
        packager_call(environment_of(run), run.profile),
        Manner::Aloud,
    )
}

/// What holds of the build of a run that has come so far by this trace.
pub open spec fn build_holds(
    root: Seq<u8>,
    profile: PackageProfile,
    trace: Seq<Step>,
    run: Packaging,
) -> bool {
    &&& run.root == root && run.profile == profile
    &&& run.refusal is Some <==> run.stage == PackageStage::Refused
    &&& run.preparation matches Some(preparation) ==> {
        &&& prepare_holds(trace, preparation)
        &&& preparation.root == root
        &&& was_planned(trace, root, preparation.plan, preparation.variables)
        &&& preparation.stage == PrepareStage::Ready <==> preparation.environment is Some
        &&& past_preparing(run.stage) ==> preparation.stage == PrepareStage::Ready
        &&& run.stage == PackageStage::Preparing ==> preparation.stage != PrepareStage::Ready
        &&& run.stage == PackageStage::Preparing || past_preparing(run.stage) || run.stage
            == PackageStage::Refused
    }
    &&& profile == PackageProfile::Release && (run.stage == PackageStage::Preparing
        || past_preparing(run.stage)) ==> run.preparation is Some
    &&& profile == PackageProfile::Release && past_building(run.stage) ==> run.executable is Some
    &&& profile == PackageProfile::Debug ==> run.preparation is None && run.executable is None
        && run.stage != PackageStage::Planning && run.stage != PackageStage::Preparing && run.stage
        != PackageStage::ReadingArtifact
    &&& run.executable matches Some(executable) ==> past_building(run.stage) && (environment_of(
        run,
    ) matches Some(environment) && was_built(trace, environment, executable))
}

/// What holds of the property list and the verification of a run that has come so far by this trace.
pub open spec fn app_holds(root: Seq<u8>, trace: Seq<Step>, run: Packaging) -> bool {
    &&& run.stage == PackageStage::WritingInfo || past_writing(run.stage) ==> info_was_read(
        trace,
        root,
        run.info,
    )
    &&& past_writing(run.stage) ==> info_was_written(trace, root, run.info)
    &&& past_writing(run.stage) ==> (run.verification is Some <==> run.executable is Some)
    &&& run.verification matches Some(verification) ==> {
        &&& past_writing(run.stage)
        &&& is_verified(trace, verification)
        &&& verification.root == root && verification.app == app_in(root)
        &&& run.executable == Some(verification.release_executable)
        &&& verification.closeness == ExecutableMatch::Exact
        &&& run.stage == PackageStage::Finished ==> verification.stage == VerifyStage::Done
    }
    &&& run.stage == PackageStage::Finished && run.executable is None ==> bundle_was_verified(
        trace,
        root,
    )
}

/// What was found out for a run stays so.
proof fn lemma_package_facts_stay(trace: Seq<Step>, step: Step, root: Seq<u8>, was: Packaging)
    ensures
        ({
            let after = trace.push(step);
            &&& was.preparation matches Some(preparation) ==> (was_planned(
                trace,
                root,
                preparation.plan,
                preparation.variables,
            ) ==> was_planned(after, root, preparation.plan, preparation.variables))
            &&& (was.executable matches Some(executable) && environment_of(
                was,
            ) matches Some(environment)) ==> (was_built(
                trace,
                environment_of(was)->Some_0,
                was.executable->Some_0,
            ) ==> was_built(after, environment_of(was)->Some_0, was.executable->Some_0))
            &&& info_was_read(trace, root, was.info) ==> info_was_read(after, root, was.info)
            &&& info_was_written(trace, root, was.info) ==> info_was_written(
                after,
                root,
                was.info,
            )
            &&& bundle_was_verified(trace, root) ==> bundle_was_verified(after, root)
        }),
{
    reveal(was_planned);
    reveal(was_built);
    reveal(info_was_read);
    reveal(info_was_written);
    reveal(bundle_was_verified);
    lemma_answers_stay(trace, step);
}

/// A step that plans a release build.
proof fn lemma_planning_step(
    root: Seq<u8>,
    profile: PackageProfile,
    trace: Seq<Step>,
    was: Packaging,
    event: Event,
)
    requires
        build_holds(root, profile, trace, was),
        package_next(was, event) is Ok,
        was.stage == PackageStage::Planning,
    ensures
        build_holds(
            root,
            profile,
            trace.push(Step { asked: package_action(was), came: event }),
            package_next(was, event)->Ok_0,
        ),
{
    let step = Step { asked: package_action(was), came: event };
    let after = trace.push(step);
    let run = package_next(was, event)->Ok_0;
    assert(answered(after, package_action(was), event)) by {
        lemma_answers_stay(trace, step);
    }
    lemma_package_facts_stay(trace, step, root, was);
    if was.preparation is Some {
        lemma_prepare_stays(trace, step, was.preparation->Some_0);
    }
    if was.preparation is None && run.preparation is Some {
        let preparation = run.preparation->Some_0;
        lemma_prepare_starts(after, root, preparation.plan, preparation.variables);
        assert(was_planned(after, root, preparation.plan, preparation.variables)) by {
            reveal(was_planned);
        }
    }
}

/// A step that prepares a release build.
proof fn lemma_preparing_step(
    root: Seq<u8>,
    profile: PackageProfile,
    trace: Seq<Step>,
    was: Packaging,
    event: Event,
)
    requires
        build_holds(root, profile, trace, was),
        package_next(was, event) is Ok,
        was.stage == PackageStage::Preparing,
    ensures
        build_holds(
            root,
            profile,
            trace.push(Step { asked: package_action(was), came: event }),
            package_next(was, event)->Ok_0,
        ),
{
    let step = Step { asked: package_action(was), came: event };
    lemma_package_facts_stay(trace, step, root, was);
    if was.preparation is Some {
        lemma_prepare_stays(trace, step, was.preparation->Some_0);
    }
    if was.preparation is Some {
        let preparation = was.preparation->Some_0;
        lemma_prepare_step(trace, step, preparation);
        lemma_prepare_keeps(trace, preparation, event);
    }
}

/// A step that builds.
proof fn lemma_building_step(
    root: Seq<u8>,
    profile: PackageProfile,
    trace: Seq<Step>,
    was: Packaging,
    event: Event,
)
    requires
        build_holds(root, profile, trace, was),
        package_next(was, event) is Ok,
        was.stage == PackageStage::Building,
    ensures
        build_holds(
            root,
            profile,
            trace.push(Step { asked: package_action(was), came: event }),
            package_next(was, event)->Ok_0,
        ),
{
    let step = Step { asked: package_action(was), came: event };
    let after = trace.push(step);
    let run = package_next(was, event)->Ok_0;
    assert(answered(after, package_action(was), event)) by {
        lemma_answers_stay(trace, step);
    }
    lemma_package_facts_stay(trace, step, root, was);
    if was.preparation is Some {
        lemma_prepare_stays(trace, step, was.preparation->Some_0);
    }
    if was.executable is None && run.executable is Some {
        assert(was_built(after, environment_of(was)->Some_0, run.executable->Some_0)) by {
            reveal(was_built);
        }
    }
}

proof fn lemma_build_step(
    root: Seq<u8>,
    profile: PackageProfile,
    trace: Seq<Step>,
    was: Packaging,
    event: Event,
)
    requires
        build_holds(root, profile, trace, was),
        package_next(was, event) is Ok,
    ensures
        build_holds(
            root,
            profile,
            trace.push(Step { asked: package_action(was), came: event }),
            package_next(was, event)->Ok_0,
        ),
{
    let step = Step { asked: package_action(was), came: event };
    let run = package_next(was, event)->Ok_0;
    if was.stage == PackageStage::Planning {
        lemma_planning_step(root, profile, trace, was, event);
    } else if was.stage == PackageStage::Preparing {
        lemma_preparing_step(root, profile, trace, was, event);
    } else if was.stage == PackageStage::Building {
        lemma_building_step(root, profile, trace, was, event);
    } else {
        lemma_package_facts_stay(trace, step, root, was);
        if was.preparation is Some {
            lemma_prepare_stays(trace, step, was.preparation->Some_0);
        }
        assert(run.preparation == was.preparation && run.executable == was.executable);
    }
}

proof fn lemma_app_step(
    root: Seq<u8>,
    profile: PackageProfile,
    trace: Seq<Step>,
    was: Packaging,
    event: Event,
)
    requires
        build_holds(root, profile, trace, was),
        app_holds(root, trace, was),
        package_next(was, event) is Ok,
    ensures
        app_holds(
            root,
            trace.push(Step { asked: package_action(was), came: event }),
            package_next(was, event)->Ok_0,
        ),
{
    let step = Step { asked: package_action(was), came: event };
    let after = trace.push(step);
    let run = package_next(was, event)->Ok_0;
    assert(answered(after, package_action(was), event)) by {
        lemma_answers_stay(trace, step);
    }
    lemma_package_facts_stay(trace, step, root, was);
    if was.stage == PackageStage::ReadingInfo && run.stage == PackageStage::WritingInfo {
        assert(info_was_read(after, root, run.info)) by {
            reveal(info_was_read);
        }
    }
    if was.stage == PackageStage::WritingInfo && past_writing(run.stage) {
        assert(info_was_written(after, root, run.info)) by {
            reveal(info_was_written);
        }
        if run.executable is Some {
            lemma_verified_starts(
                after,
                root,
                app_in(root),
                run.executable->Some_0,
                ExecutableMatch::Exact,
            );
        }
    }
    if was.verification is Some {
        let verification = was.verification->Some_0;
        lemma_verified_stays(trace, step, verification);
        if was.stage == PackageStage::Verifying {
            lemma_verified_step(trace, step, verification);
            lemma_verified_keeps(verification, event);
        }
    } else if was.stage == PackageStage::Verifying && run.stage == PackageStage::Finished {
        assert(bundle_was_verified(after, root)) by {
            reveal(bundle_was_verified);
        }
    }
}

proof fn lemma_tools_step(root: Seq<u8>, trace: Seq<Step>, was: Packaging, event: Event)
    requires
        was.root == root,
        tools_hold(root, trace, was),
        package_next(was, event) is Ok,
    ensures
        tools_hold(
            root,
            trace.push(Step { asked: package_action(was), came: event }),
            package_next(was, event)->Ok_0,
        ),
{
    let step = Step { asked: package_action(was), came: event };
    let after = trace.push(step);
    let run = package_next(was, event)->Ok_0;
    lemma_answers_stay(trace, step);
    assert(manifest_was_accepted(trace, root) || run.stage == PackageStage::CheckingPackager
        ==> manifest_was_accepted(after, root)) by {
        reveal(manifest_was_accepted);
    }
    assert(tool_was_accepted(trace, "packager"@, PACKAGER_VERSION@) || run.stage
        == PackageStage::CheckingAbout ==> tool_was_accepted(
        after,
        "packager"@,
        PACKAGER_VERSION@,
    )) by {
        reveal(tool_was_accepted);
    }
    assert(tool_was_accepted(trace, "about"@, ABOUT_VERSION@) || run.stage
        == PackageStage::MakingDirectory ==> tool_was_accepted(after, "about"@, ABOUT_VERSION@))
        by {
        reveal(tool_was_accepted);
    }
}

proof fn lemma_commands_step(
    root: Seq<u8>,
    profile: PackageProfile,
    trace: Seq<Step>,
    was: Packaging,
    event: Event,
)
    requires
        build_holds(root, profile, trace, was),
        commands_hold(trace, was),
        package_next(was, event) is Ok,
    ensures
        commands_hold(
            trace.push(Step { asked: package_action(was), came: event }),
            package_next(was, event)->Ok_0,
        ),
{
    let step = Step { asked: package_action(was), came: event };
    let after = trace.push(step);
    let run = package_next(was, event)->Ok_0;
    lemma_answers_stay(trace, step);
    assert(was_run(trace, notices_call(), Manner::Aloud) || run.stage == PackageStage::Building
        ==> was_run(after, notices_call(), Manner::Aloud)) by {
        reveal(was_run);
    }
    if past_notices(was.stage) && past_building(run.stage) {
        assert(run.preparation == was.preparation && run.profile == was.profile);
        assert(was_run(after, build_call(run), build_manner(run))) by {
            reveal(was_run);
        }
        if past_packaging(run.stage) {
            let command = packager_call(environment_of(run), run.profile);
            assert(was_run(after, command, Manner::Aloud)) by {
                reveal(was_run);
            }
        }
    }
}

proof fn lemma_package_holds(root: Seq<u8>, profile: PackageProfile, events: Seq<Event>)
    requires
        package_after(root, profile, events) is Ok,
    ensures
        build_holds(
            root,
            profile,
            package_trace(root, profile, events),
            package_after(root, profile, events)->Ok_0,
        ),
        tools_hold(
            root,
            package_trace(root, profile, events),
            package_after(root, profile, events)->Ok_0,
        ),
        commands_hold(
            package_trace(root, profile, events),
            package_after(root, profile, events)->Ok_0,
        ),
        app_holds(
            root,
            package_trace(root, profile, events),
            package_after(root, profile, events)->Ok_0,
        ),
    decreases events.len(),
{
    if events.len() > 0 {
        let before = events.drop_last();
        lemma_package_holds(root, profile, before);
        let trace = package_trace(root, profile, before);
        let was = package_after(root, profile, before)->Ok_0;
        lemma_build_step(root, profile, trace, was, events.last());
        lemma_tools_step(root, trace, was, events.last());
        lemma_commands_step(root, profile, trace, was, events.last());
        lemma_app_step(root, profile, trace, was, events.last());
    }
}

/// A release is built and packaged in the environment that was planned and prepared for it, with its
/// aliases resolved and its wrapper in place and executable, and verified byte for byte against the
/// executable that this build named; a debug package has neither. Under either profile nothing is
/// generated, built or packaged, nor the directory for the notices made, before the manifest and the
/// versions of both tools were accepted, and no run finishes without having generated the notices, built
/// and packaged the app, written its property list without the obsolete key, and accepted it.
pub proof fn law_releases_are_verified_against_their_build(
    root: Seq<u8>,
    profile: PackageProfile,
    events: Seq<Event>,
)
    requires
        package_after(root, profile, events) is Ok,
    ensures
        ({
            let run = package_after(root, profile, events)->Ok_0;
            let trace = package_trace(root, profile, events);
            &&& run.root == root && run.profile == profile
            &&& run.refusal is Some <==> run.stage == PackageStage::Refused
            &&& profile == PackageProfile::Release && past_preparing(run.stage) ==> (
            run.preparation matches Some(preparation) && preparation.environment matches Some(
                environment,
            ) && {
                &&& was_planned(trace, root, preparation.plan, preparation.variables)
                &&& was_resolved(trace, preparation.plan.cargo_home, preparation.cargo_home)
                &&& was_resolved(trace, preparation.plan.target, preparation.target)
                &&& wrapper_was_placed(trace, root)
                &&& wrapper_was_made_executable(trace, root)
                &&& build_environment(
                    preparation.plan,
                    root,
                    preparation.variables,
                    preparation.cargo_home,
                    preparation.target,
                ) == Ok::<BuildEnvironment, Seq<char>>(environment)
                &&& past_building(run.stage) ==> (run.executable matches Some(executable)
                    && was_built(trace, environment, executable))
            })
            &&& profile == PackageProfile::Debug ==> run.preparation is None && run.executable
                is None
            &&& past_tools(run.stage) ==> manifest_was_accepted(trace, root)
                && tool_was_accepted(trace, "packager"@, PACKAGER_VERSION@) && tool_was_accepted(
                trace,
                "about"@,
                ABOUT_VERSION@,
            )
            &&& past_notices(run.stage) ==> was_run(trace, notices_call(), Manner::Aloud)
            &&& past_building(run.stage) ==> was_run(trace, build_call(run), build_manner(run))
            &&& past_packaging(run.stage) ==> was_run(
                trace,
                packager_call(environment_of(run), profile),
                Manner::Aloud,
            )
            &&& past_writing(run.stage) ==> info_was_read(trace, root, run.info)
                && info_was_written(trace, root, run.info)
            &&& run.stage == PackageStage::Finished ==> app_was_verified(
                trace,
                root,
                run.executable,
            )
        }),
{
    reveal(prepare_holds);
    lemma_package_holds(root, profile, events);
    let run = package_after(root, profile, events)->Ok_0;
    if run.verification is Some {
        assert(is_verified(package_trace(root, profile, events), run.verification->Some_0));
    }
}

/// What a packaging run asks for at its stages.
pub proof fn law_what_packaging_runs_ask_for(run: Packaging)
    ensures
        ({
            let asked = package_action(run);
            let app = joined(run.root, encode_utf8("dist/NEO.app"@));
            let info = joined(app, encode_utf8("Contents/Info.plist"@));
            let environment = match run.preparation {
                Some(preparation) => preparation.environment,
                None => None,
            };
            &&& run.stage == PackageStage::Entering ==> asked == Act::Enter(run.root)
            &&& run.stage == PackageStage::Planning ==> asked == Act::FindBuild(run.root)
            &&& run.stage == PackageStage::ReadingManifest ==> asked == Act::ReadText(
                joined(run.root, encode_utf8("Cargo.toml"@)),
            )
            &&& run.stage == PackageStage::CheckingPackager ==> asked == Act::Run(
                tool_version_call("packager"@),
                Manner::Quiet,
            )
            &&& run.stage == PackageStage::CheckingAbout ==> asked == Act::Run(
                tool_version_call("about"@),
                Manner::Quiet,
            )
            &&& run.stage == PackageStage::MakingDirectory ==> asked == Act::MakeDirectory(
                encode_utf8("packaging/generated"@),
            )
            &&& run.stage == PackageStage::GeneratingNotices ==> asked == Act::Run(
                notices_call(),
                Manner::Aloud,
            )
            &&& run.stage == PackageStage::Building && environment is Some ==> asked == Act::Run(
                release_build_call(environment->Some_0),
                Manner::ErrorsShown,
            )
            &&& run.stage == PackageStage::Building && environment is None ==> asked == Act::Run(
                debug_build_call(),
                Manner::Aloud,
            )
            &&& run.stage == PackageStage::ReadingArtifact && run.executable is Some ==> asked
                == Act::Read(run.executable->Some_0)
            &&& run.stage == PackageStage::Packaging ==> asked == Act::Run(
                packager_call(environment, run.profile),
                Manner::Aloud,
            )
            &&& run.stage == PackageStage::FindingApp ==> asked == Act::FindDirectory(app)
            &&& run.stage == PackageStage::ReadingInfo ==> asked == Act::ReadPropertyList(info)
            &&& run.stage == PackageStage::WritingInfo ==> asked == Act::WritePropertyList(
                info,
                run.info,
            )
            &&& run.stage == PackageStage::Verifying && run.verification is None ==> asked
                == Act::FindBundle(run.root, app)
            &&& run.stage == PackageStage::Refused || run.stage == PackageStage::Finished ==> asked
                == Act::Finish
        }),
{
}

/// A release is planned and prepared before its manifest is read; a debug build is not.
pub proof fn law_releases_are_planned(
    run: Packaging,
    done: Result<(), String>,
    facts: SettingsFacts,
    toolchain: Result<String, String>,
)
    ensures
        run.stage == PackageStage::Entering ==> {
            let next = package_next(run, Event::Done(done));
            &&& next is Ok <==> done is Ok
            &&& next is Ok && run.profile == PackageProfile::Release ==> next->Ok_0.stage
                == PackageStage::Planning
            &&& next is Ok && run.profile == PackageProfile::Debug ==> next->Ok_0.stage
                == PackageStage::ReadingManifest
        },
        run.stage == PackageStage::Planning ==> {
            let next = package_next(run, Event::Build(facts, toolchain));
            let plan = planned(run.root, facts, read_text(toolchain));
            &&& plan is Ok ==> next is Ok && next->Ok_0.stage == PackageStage::Preparing
                && next->Ok_0.preparation == Some(
                prepare_start(run.root, plan->Ok_0, facts.environment@),
            )
            &&& plan is Err ==> next is Err || next->Ok_0.stage == PackageStage::Refused
                && next->Ok_0.refusal is Some
        },
{
}

/// A preparation ends where it is ready, a verification where it is done, and a refusal of theirs is one
/// of the run.
pub proof fn law_parts_of_a_packaging_run(run: Packaging, event: Event)
    ensures
        run.stage == PackageStage::Preparing && run.preparation is Some ==> {
            let next = package_next(run, event);
            let part = prepare_next(run.preparation->Some_0, event);
            &&& next is Ok <==> part is Ok
            &&& next is Ok ==> next->Ok_0.preparation == Some(part->Ok_0) && next->Ok_0.stage == (
            if part->Ok_0.stage == PrepareStage::Ready {
                PackageStage::ReadingManifest
            } else {
                PackageStage::Preparing
            })
        },
        run.stage == PackageStage::Verifying && run.verification is Some ==> {
            let next = package_next(run, event);
            let part = verify_next(run.verification->Some_0, event);
            &&& next is Ok <==> part is Ok
            &&& next is Ok ==> next->Ok_0.verification == Some(part->Ok_0) && next->Ok_0.stage == (
            if part->Ok_0.stage == VerifyStage::Done {
                PackageStage::Finished
            } else {
                PackageStage::Verifying
            })
        },
{
}

/// The manifest must name no identity for the packager, both tools must be of their versions, the
/// directory be made and the notices be generated before anything is built.
pub proof fn law_what_comes_before_the_build(
    run: Packaging,
    manifest: Result<String, String>,
    attempted: Result<CommandOutput, String>,
    done: Result<(), String>,
)
    ensures
        run.stage == PackageStage::ReadingManifest ==> {
            let next = package_next(run, Event::Text(manifest));
            let contents = toml_file(read_text(manifest));
            &&& next is Ok <==> contents is Ok && packager_outcome(
                joined(run.root, encode_utf8("Cargo.toml"@)),
                contents->Ok_0,
            ) is Ok
            &&& next is Ok ==> next->Ok_0.stage == PackageStage::CheckingPackager
        },
        run.stage == PackageStage::CheckingPackager ==> {
            let next = package_next(run, Event::Ran(attempted));
            &&& next is Ok <==> tool_outcome(
                "packager"@,
                "cargo-packager 0.11.8"@,
                attempt(attempted),
            ) is Ok
            &&& next is Ok ==> next->Ok_0.stage == PackageStage::CheckingAbout
        },
        run.stage == PackageStage::CheckingAbout ==> {
            let next = package_next(run, Event::Ran(attempted));
            &&& next is Ok <==> tool_outcome(
                "about"@,
                "cargo-about 0.8.2"@,
                attempt(attempted),
            ) is Ok
            &&& next is Ok ==> next->Ok_0.stage == PackageStage::MakingDirectory
        },
        run.stage == PackageStage::MakingDirectory ==> {
            let next = package_next(run, Event::Done(done));
            &&& next is Ok <==> done is Ok
            &&& next is Ok ==> next->Ok_0.stage == PackageStage::GeneratingNotices
        },
        run.stage == PackageStage::GeneratingNotices ==> {
            let next = package_next(run, Event::Ran(attempted));
            &&& next is Ok <==> (attempted matches Ok(output) && output.success)
            &&& next is Ok ==> next->Ok_0.stage == PackageStage::Building
        },
{
}

/// A build that failed is refused. A debug build is packaged at once; a release build only once it has
/// named its executable, and that was read.
pub proof fn law_what_comes_of_the_build(
    run: Packaging,
    attempted: Result<CommandOutput, String>,
    contents: Result<Vec<u8>, String>,
)
    ensures
        run.stage == PackageStage::Building ==> {
            let next = package_next(run, Event::Ran(attempted));
            let succeeded = attempted matches Ok(output) && output.success;
            let is_release = run.preparation is Some && run.preparation->Some_0.environment is Some;
            &&& !succeeded ==> next is Err
            &&& succeeded && !is_release ==> next is Ok && next->Ok_0.stage == PackageStage::Packaging
            &&& succeeded && is_release && built(attempted->Ok_0.stdout@) is Ok ==> next is Ok
                && next->Ok_0.stage == PackageStage::ReadingArtifact && next->Ok_0.executable == Some(
                built(attempted->Ok_0.stdout@)->Ok_0,
            )
            &&& succeeded && is_release && built(attempted->Ok_0.stdout@) is Err ==> next is Err
                || next->Ok_0.stage == PackageStage::Refused && next->Ok_0.refusal is Some
        },
        run.stage == PackageStage::ReadingArtifact && run.executable is Some ==> {
            let next = package_next(run, Event::Contents(contents));
            &&& next is Ok <==> contents is Ok
            &&& next is Ok ==> next->Ok_0.stage == PackageStage::Packaging && next->Ok_0.executable
                == run.executable && next->Ok_0.reports == seq![
                "recorded built release artifact SHA-256 "@ + sha256_text(contents->Ok_0@) + ": "@
                    + lossy(run.executable->Some_0),
            ]
        },
{
}

/// The packager must have made the app. Its property list then loses the obsolete key, and the app is
/// verified: against the executable of the build, byte for byte, where there is one.
pub proof fn law_what_comes_of_the_packager(
    run: Packaging,
    attempted: Result<CommandOutput, String>,
    found: bool,
    contents: Result<Vec<u8>, String>,
    done: Result<(), String>,
    facts: BundleFacts,
)
    ensures
        ({
            let app = joined(run.root, encode_utf8("dist/NEO.app"@));
            &&& run.stage == PackageStage::Packaging ==> {
                let next = package_next(run, Event::Ran(attempted));
                &&& next is Ok <==> (attempted matches Ok(output) && output.success)
                &&& next is Ok ==> next->Ok_0.stage == PackageStage::FindingApp
            }
            &&& run.stage == PackageStage::FindingApp ==> {
                let next = package_next(run, Event::Answer(found));
                &&& next is Ok <==> found
                &&& next is Ok ==> next->Ok_0.stage == PackageStage::ReadingInfo
                &&& !found ==> next->Err_0 == "cargo-packager did not create "@ + lossy(app)
            }
            &&& run.stage == PackageStage::ReadingInfo ==> {
                let next = package_next(run, Event::Contents(contents));
                let kept = without_carbon_key(
                    joined(app, encode_utf8("Contents/Info.plist"@)),
                    read(contents),
                );
                &&& next is Ok <==> kept is Ok
                &&& next is Ok ==> next->Ok_0.stage == PackageStage::WritingInfo
                    && next->Ok_0.info == kept->Ok_0
            }
            &&& run.stage == PackageStage::WritingInfo ==> {
                let next = package_next(run, Event::Done(done));
                &&& next is Ok <==> done is Ok
                &&& next is Ok ==> next->Ok_0.stage == PackageStage::Verifying
                &&& next is Ok && run.executable is Some ==> next->Ok_0.verification == Some(
                    verify_start(run.root, app, run.executable->Some_0, ExecutableMatch::Exact),
                )
                &&& next is Ok && run.executable is None ==> next->Ok_0.verification is None
            }
            &&& run.stage == PackageStage::Verifying && run.verification is None ==> {
                let next = package_next(run, Event::Bundle(facts));
                let bundle = bundle_outcome(run.root, app, facts, None);
                &&& next is Ok <==> bundle is Ok
                &&& next is Ok ==> next->Ok_0.stage == PackageStage::Finished && next->Ok_0.reports
                    == seq![
                    "verified "@ + lossy(app) + " with "@ + decimal(bundle->Ok_0.attributions)
                        + " crate attributions"@,
                ]
            }
        }),
{
}

} // verus!
