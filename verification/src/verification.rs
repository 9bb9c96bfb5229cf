//! The verification of a release, step by step: its bundle, the settings that it was built with, its
//! executable, and what its files give away of the machine.

use vstd::prelude::*;
use vstd::utf8::encode_utf8;

use crate::artifact::{
    check_strings, check_symbols, deployment_outcome, listed_strings_outcome, load_commands_call,
    load_commands_command, strings_call, strings_command, symbols_call, symbols_command,
    symbols_outcome, verify_deployment_target,
};
use crate::bundle::{
    bundled_executable, executable_path, executables_outcome, match_executables, read_dictionary,
    ExecutableFacts, ExecutableMatch, INFO,
};
use crate::bytes::{byte_strings, contained, owned, read};
use crate::command::{attempt, command_output, completed, CommandOutput};
use crate::encoding::{lossy, lossy_text};
use crate::environment::{cargo_home_of, home_of, path_outcome, target_of, Environment};
use crate::failure::{failure, Failure};
use crate::hygiene::{
    attribute_call, attribute_command, attribute_names, attributes_call, attributes_command,
    attributes_of, borrowed, host_name, law_first_marker_is_named, lemma_no_mark, machine_markers,
    machine_marks, markers_outcome, marks_of, private_home, regular_files, regular_outcome,
    reject_file_markers, temporary_identifier, MachineFacts, Marker,
};
use crate::manifest::{manifest_in, manifest_metadata, manifest_path, read_text, root_metadata};
use crate::nested::{known_entries, Entry};
use crate::path::{join_text, joined};
use crate::pipeline::{
    answered, lemma_answers_stay, verified_report, verified_text, Act, Action, Event, Manner, Step,
};
use crate::release::{
    app_info, bundle_outcome, check_settings, settings_outcome, verify_bundle, BundleFacts,
    SettingsFacts,
};
use crate::text::{decimal, decimal_text, join2, join3, occurs, texts};

verus! {

/// How far a verification has come.
#[derive(Clone, Copy, Debug, PartialEq, Eq, Structural)]
pub enum VerifyStage {
    FindingBundle,
    FindingSettings,
    FindingExecutables,
    ReadingManifest,
    ListingSymbols,
    ListingStrings,
    ListingLoadCommands,
    FindingMachine,
    ListingFiles,
    /// The contents of the next file are read.
    ReadingFile,
    /// Its extended attributes are listed.
    ListingAttributes,
    /// The next of its extended attributes is read.
    ReadingAttribute,
    Done,
}

/// A verification of the release in an app.
#[derive(Debug)]
pub struct ReleaseCheck {
    root: Vec<u8>,
    app: Vec<u8>,
    /// The release executable, and how closely that of the app must match it.
    release_executable: Vec<u8>,
    closeness: ExecutableMatch,
    stage: VerifyStage,
    /// The number of crates that the notices attribute.
    attributions: u64,
    /// The executable that the property list names.
    bundled: Result<Vec<u8>, Failure>,
    executable: Vec<u8>,
    /// The variables that the build started from.
    variables: Environment,
    /// The minimum system version that the manifest gives.
    minimum: String,
    /// What must not be found in a file.
    markers: Vec<Marker>,
    /// The regular files of the app.
    files: Vec<Vec<u8>>,
    /// The number of files in which no marker was found.
    clean: usize,
    /// The extended attributes of the next file.
    attributes: Vec<Vec<u8>>,
    /// The number of those in which no marker was found.
    plain: usize,
    /// The sentences that report the last step.
    reports: Vec<String>,
}

/// The model of a `ReleaseCheck`.
#[verifier::ext_equal]
pub struct Verifying {
    pub root: Seq<u8>,
    pub app: Seq<u8>,
    pub release_executable: Seq<u8>,
    pub closeness: ExecutableMatch,
    pub stage: VerifyStage,
    pub attributions: nat,
    pub bundled: Result<Seq<u8>, Seq<char>>,
    pub executable: Seq<u8>,
    pub variables: Seq<(Seq<u8>, Seq<u8>)>,
    pub minimum: Seq<char>,
    pub marks: Seq<(Seq<u8>, Seq<char>)>,
    pub files: Seq<Seq<u8>>,
    pub clean: nat,
    pub attributes: Seq<Seq<u8>>,
    pub plain: nat,
    pub reports: Seq<Seq<char>>,
}

impl View for ReleaseCheck {
    type V = Verifying;

    closed spec fn view(&self) -> Verifying {
        Verifying {
            root: self.root@,
            app: self.app@,
            release_executable: self.release_executable@,
            closeness: self.closeness,
            stage: self.stage,
            attributions: self.attributions as nat,
            bundled: path_outcome(self.bundled),
            executable: self.executable@,
            variables: self.variables@,
            minimum: self.minimum@,
            marks: marks_of(self.markers@),
            files: byte_strings(self.files@),
            clean: self.clean as nat,
            attributes: byte_strings(self.attributes@),
            plain: self.plain as nat,
            reports: texts(self.reports@),
        }
    }
}

/// The model of a verification that may not have begun.
pub open spec fn maybe_verification(check: Option<ReleaseCheck>) -> Option<Verifying> {
    match check {
        Some(check) => Some(check@),
        None => None,
    }
}

/// The verification before its first event.
pub open spec fn verify_start(
    root: Seq<u8>,
    app: Seq<u8>,
    release_executable: Seq<u8>,
    closeness: ExecutableMatch,
) -> Verifying {
    Verifying {
        root,
        app,
        release_executable,
        closeness,
        stage: VerifyStage::FindingBundle,
        attributions: 0,
        bundled: Ok(Seq::empty()),
        executable: Seq::empty(),
        variables: Seq::empty(),
        minimum: Seq::empty(),
        marks: Seq::empty(),
        files: Seq::empty(),
        clean: 0,
        attributes: Seq::empty(),
        plain: 0,
        reports: Seq::empty(),
    }
}

/// The verification at another stage, with nothing to report.
pub open spec fn at(check: Verifying, stage: VerifyStage) -> Verifying {
    Verifying { stage, reports: Seq::empty(), ..check }
}

/// The verification at another stage, with one sentence to report.
pub open spec fn telling(check: Verifying, stage: VerifyStage, report: Seq<char>) -> Verifying {
    Verifying { reports: seq![report], ..at(check, stage) }
}

/// The sentence that reports how many files give nothing away.
pub open spec fn hygiene_text(count: nat) -> Seq<char> {
    "verified release hygiene across "@ + decimal(count)
        + " regular bundle files and their extended attributes"@
}

/// The verification at its next file, or at its end.
pub open spec fn at_next_file(check: Verifying) -> Verifying {
    if check.clean < check.files.len() {
        at(check, VerifyStage::ReadingFile)
    } else {
        telling(check, VerifyStage::Done, hygiene_text(check.files.len()))
    }
}

/// The verification after its next file was found to give nothing away.
pub open spec fn with_clean_file(check: Verifying) -> Verifying {
    at_next_file(Verifying { clean: check.clean + 1, ..check })
}

/// The verification at the next extended attribute of the file, or past the file.
pub open spec fn at_next_attribute(check: Verifying) -> Verifying {
    if check.plain < check.attributes.len() {
        at(check, VerifyStage::ReadingAttribute)
    } else {
        with_clean_file(check)
    }
}

/// The verification after the bundle was found.
pub open spec fn after_bundle(check: Verifying, facts: BundleFacts) -> Result<
    Verifying,
    Seq<char>,
> {
    match bundle_outcome(check.root, check.app, facts, None) {
        Err(refusal) => Err(refusal),
        Ok(report) => match app_info(check.app, read(facts.info)) {
            Err(refusal) => Err(refusal),
            Ok(info) => Ok(
                Verifying {
                    attributions: report.attributions,
                    bundled: executable_path(check.app, info),
                    ..at(check, VerifyStage::FindingSettings)
                },
            ),
        },
    }
}

/// The verification after the settings of the build were found.
pub open spec fn after_settings(check: Verifying, facts: SettingsFacts) -> Result<
    Verifying,
    Seq<char>,
> {
    match settings_outcome(check.root, facts) {
        Err(refusal) => Err(refusal),
        Ok(()) => match check.bundled {
            Err(refusal) => Err(refusal),
            Ok(executable) => Ok(
                Verifying {
                    executable,
                    variables: facts.environment@,
                    ..at(check, VerifyStage::FindingExecutables)
                },
            ),
        },
    }
}

/// The verification after a command was run for it.
pub open spec fn after_command(
    check: Verifying,
    attempted: Result<CommandOutput, String>,
) -> Result<Verifying, Seq<char>> {
    match check.stage {
        VerifyStage::ListingSymbols => match symbols_outcome(
            check.executable,
            attempt(attempted),
        ) {
            Err(refusal) => Err(refusal),
            Ok(()) => Ok(at(check, VerifyStage::ListingStrings)),
        },
        VerifyStage::ListingStrings => match listed_strings_outcome(
            check.executable,
            attempt(attempted),
        ) {
            Err(refusal) => Err(refusal),
            Ok(report) => Ok(telling(check, VerifyStage::ListingLoadCommands, report)),
        },
        VerifyStage::ListingLoadCommands => match deployment_outcome(
            check.executable,
            check.minimum,
            attempt(attempted),
        ) {
            Err(refusal) => Err(refusal),
            Ok(report) => Ok(telling(check, VerifyStage::FindingMachine, report)),
        },
        VerifyStage::ListingAttributes => if check.clean < check.files.len() {
            match attributes_of(check.files[check.clean as int], attempt(attempted)) {
                Err(refusal) => Err(refusal),
                Ok(attributes) => Ok(
                    at_next_attribute(Verifying { attributes, plain: 0, ..check }),
                ),
            }
        } else {
            Ok(check)
        },
        VerifyStage::ReadingAttribute => if check.clean < check.files.len() && check.plain
            < check.attributes.len() {
            after_attribute(check, attempted)
        } else {
            Ok(check)
        },
        _ => Ok(check),
    }
}

/// The verification after the next extended attribute of its next file was read.
pub open spec fn after_attribute(
    check: Verifying,
    attempted: Result<CommandOutput, String>,
) -> Result<Verifying, Seq<char>> {
    let file = check.files[check.clean as int];
    let name = check.attributes[check.plain as int];
    match completed(attribute_call(file, name), attempt(attempted)) {
        Err(refusal) => Err(refusal),
        Ok(value) => match markers_outcome(value, check.marks, file, "extended attributes"@) {
            Err(refusal) => Err(refusal),
            Ok(()) => Ok(at_next_attribute(Verifying { plain: check.plain + 1, ..check })),
        },
    }
}

/// The verification after an event.
pub open spec fn verify_next(check: Verifying, event: Event) -> Result<Verifying, Seq<char>> {
    match (check.stage, event) {
        (VerifyStage::FindingBundle, Event::Bundle(facts)) => after_bundle(check, facts),
        (VerifyStage::FindingSettings, Event::Settings(facts)) => after_settings(check, facts),
        (VerifyStage::FindingExecutables, Event::Executables(facts)) => match executables_outcome(
            check.executable,
            check.release_executable,
            facts,
            check.closeness,
        ) {
            Err(refusal) => Err(refusal),
            Ok(report) => Ok(telling(check, VerifyStage::ReadingManifest, report)),
        },
        (VerifyStage::ReadingManifest, Event::Text(manifest)) => match root_metadata(
            check.root,
            read_text(manifest),
        ) {
            Err(refusal) => Err(refusal),
            Ok(metadata) => Ok(
                Verifying {
                    minimum: metadata.minimum_system_version,
                    ..at(check, VerifyStage::ListingSymbols)
                },
            ),
        },
        (VerifyStage::FindingMachine, Event::Machine(facts)) => match machine_marks(
            check.variables,
            facts,
        ) {
            Err(refusal) => Err(refusal),
            Ok(marks) => Ok(Verifying { marks, ..at(check, VerifyStage::ListingFiles) }),
        },
        (VerifyStage::ListingFiles, Event::Entries(entries)) => match regular_outcome(
            known_entries(entries),
        ) {
            Err(refusal) => Err(refusal),
            Ok(files) => Ok(at_next_file(Verifying { files, clean: 0, ..check })),
        },
        (VerifyStage::ReadingFile, Event::Contents(contents)) => if check.clean
            < check.files.len() {
            match read(contents) {
                Err(fault) => Err(fault),
                Ok(contents) => match markers_outcome(
                    contents,
                    check.marks,
                    check.files[check.clean as int],
                    "contents"@,
                ) {
                    Err(refusal) => Err(refusal),
                    Ok(()) => Ok(at(check, VerifyStage::ListingAttributes)),
                },
            }
        } else {
            Ok(check)
        },
        (_, Event::Ran(attempted)) => after_command(check, attempted),
        _ => Ok(check),
    }
}

/// What is asked for to tell what the machine gives away.
pub open spec fn machine_act(root: Seq<u8>, variables: Seq<(Seq<u8>, Seq<u8>)>) -> Act {
    match home_of(variables) {
        Ok(home) => Act::FindMachine(
            root,
            cargo_home_of(variables, home),
            target_of(variables, root),
        ),
        Err(_) => Act::Finish,
    }
}

/// What a verification asks for.
pub open spec fn verify_action(check: Verifying) -> Act {
    match check.stage {
        VerifyStage::FindingBundle => Act::FindBundle(check.root, check.app),
        VerifyStage::FindingSettings => Act::FindSettings(check.root),
        VerifyStage::FindingExecutables => Act::FindExecutables(
            check.executable,
            check.release_executable,
        ),
        VerifyStage::ReadingManifest => Act::ReadText(manifest_in(check.root)),
        VerifyStage::ListingSymbols => Act::Run(symbols_call(check.executable), Manner::Quiet),
        VerifyStage::ListingStrings => Act::Run(strings_call(check.executable), Manner::Quiet),
        VerifyStage::ListingLoadCommands => Act::Run(
            load_commands_call(check.executable),
            Manner::Quiet,
        ),
        VerifyStage::FindingMachine => machine_act(check.root, check.variables),
        VerifyStage::ListingFiles => Act::List(check.app),
        VerifyStage::ReadingFile => if check.clean < check.files.len() {
            Act::Read(check.files[check.clean as int])
        } else {
            Act::Finish
        },
        VerifyStage::ListingAttributes => if check.clean < check.files.len() {
            Act::Run(attributes_call(check.files[check.clean as int]), Manner::Quiet)
        } else {
            Act::Finish
        },
        VerifyStage::ReadingAttribute => if check.clean < check.files.len() && check.plain
            < check.attributes.len() {
            Act::Run(
                attribute_call(
                    check.files[check.clean as int],
                    check.attributes[check.plain as int],
                ),
                Manner::Quiet,
            )
        } else {
            Act::Finish
        },
        VerifyStage::Done => Act::Finish,
    }
}

/// The sentences that report the last step of a verification that is done, and the whole of it.
pub open spec fn told(check: Verifying) -> Seq<Seq<char>> {
    check.reports.push(verified_text(check.app, check.attributions))
}

/// A result with a verification replaced by its model, and its refusal by its text.
pub open spec fn verify_outcome(result: Result<ReleaseCheck, Failure>) -> Result<
    Verifying,
    Seq<char>,
> {
    match result {
        Ok(check) => Ok(check@),
        Err(refusal) => Err(refusal@),
    }
}

/// Strings of its own with the same texts.
fn copied(strings: &Vec<String>) -> (copy: Vec<String>)
    ensures
        texts(copy@) == texts(strings@),
{
    let ghost all = texts(strings@);
    let mut copy: Vec<String> = Vec::new();
    let mut i: usize = 0;
    assert(texts(copy@) =~= all.take(0));
    while i < strings.len()
        invariant
            i <= strings@.len(),
            all == texts(strings@),
            texts(copy@) == all.take(i as int),
        decreases strings@.len() - i,
    {
        let ghost before = texts(copy@);
        copy.push(strings[i].as_str().to_string());
        assert(texts(copy@) =~= before.push(all[i as int]));
        assert(all.take(i + 1) =~= all.take(i as int).push(all[i as int]));
        i += 1;
    }
    assert(all.take(i as int) =~= all);
    copy
}

impl ReleaseCheck {
    /// The verification before its first event.
    pub fn start(
        root: &[u8],
        app: &[u8],
        release_executable: &[u8],
        closeness: ExecutableMatch,
    ) -> (check: Self)
        ensures
            check@ == verify_start(root@, app@, release_executable@, closeness),
    {
        let check = ReleaseCheck {
            root: owned(root),
            app: owned(app),
            release_executable: owned(release_executable),
            closeness,
            stage: VerifyStage::FindingBundle,
            attributions: 0,
            bundled: Ok(Vec::new()),
            executable: Vec::new(),
            variables: Environment { variables: Vec::new() },
            minimum: String::new(),
            markers: Vec::new(),
            files: Vec::new(),
            clean: 0,
            attributes: Vec::new(),
            plain: 0,
            reports: Vec::new(),
        };
        assert(check@ =~= verify_start(root@, app@, release_executable@, closeness));
        check
    }

    /// How far the verification has come.
    pub fn stage(&self) -> (stage: VerifyStage)
        ensures
            stage == self@.stage,
    {
        self.stage
    }

    /// The number of crates that the notices attribute.
    pub fn attributions(&self) -> (count: u64)
        ensures
            count == self@.attributions,
    {
        self.attributions
    }

    /// The sentences that report the last step.
    pub fn reports(&self) -> (reports: Vec<String>)
        ensures
            texts(reports@) == self@.reports,
    {
        copied(&self.reports)
    }

    /// The sentences that report the last step, and the whole of the verification.
    pub fn tell(&self) -> (reports: Vec<String>)
        ensures
            texts(reports@) == told(self@),
    {
        let mut reports = copied(&self.reports);
        let ghost before = texts(reports@);
        let last = verified_report(self.app.as_slice(), self.attributions);
        let ghost text = last@;
        reports.push(last);
        assert(texts(reports@) =~= before.push(text));
        reports
    }

    /// What the verification asks for.
    pub fn action(&self) -> (action: Action)
        ensures
            action@ == verify_action(self@),
    {
        let root = self.root.as_slice();
        match self.stage {
            VerifyStage::FindingBundle => Action::FindBundle(
                owned(root),
                owned(self.app.as_slice()),
            ),
            VerifyStage::FindingSettings => Action::FindSettings(owned(root)),
            VerifyStage::FindingExecutables => Action::FindExecutables(
                owned(self.executable.as_slice()),
                owned(self.release_executable.as_slice()),
            ),
            VerifyStage::ReadingManifest => Action::ReadText(manifest_path(root)),
            VerifyStage::ListingSymbols => Action::Run(
                symbols_command(self.executable.as_slice()),
                Manner::Quiet,
            ),
            VerifyStage::ListingStrings => Action::Run(
                strings_command(self.executable.as_slice()),
                Manner::Quiet,
            ),
            VerifyStage::ListingLoadCommands => Action::Run(
                load_commands_command(self.executable.as_slice()),
                Manner::Quiet,
            ),
            VerifyStage::FindingMachine => match self.variables.home() {
                Ok(home) => Action::FindMachine(
                    owned(root),
                    self.variables.cargo_home(home.as_slice()),
                    self.variables.target(root),
                ),
                Err(_) => Action::Finish,
            },
            VerifyStage::ListingFiles => Action::List(owned(self.app.as_slice())),
            VerifyStage::ReadingFile => if self.clean < self.files.len() {
                assert(self@.files[self.clean as int] == self.files@[self.clean as int]@);
                Action::Read(owned(self.files[self.clean].as_slice()))
            } else {
                Action::Finish
            },
            VerifyStage::ListingAttributes => if self.clean < self.files.len() {
                assert(self@.files[self.clean as int] == self.files@[self.clean as int]@);
                Action::Run(
                    attributes_command(self.files[self.clean].as_slice()),
                    Manner::Quiet,
                )
            } else {
                Action::Finish
            },
            VerifyStage::ReadingAttribute => if self.clean < self.files.len() && self.plain
                < self.attributes.len() {
                assert(self@.files[self.clean as int] == self.files@[self.clean as int]@);
                assert(self@.attributes[self.plain as int]
                    == self.attributes@[self.plain as int]@);
                Action::Run(
                    attribute_command(
                        self.files[self.clean].as_slice(),
                        self.attributes[self.plain].as_slice(),
                    ),
                    Manner::Quiet,
                )
            } else {
                Action::Finish
            },
            VerifyStage::Done => Action::Finish,
        }
    }

    /// The verification at another stage, with nothing to report.
    fn moved(self, stage: VerifyStage) -> (check: Self)
        ensures
            check@ == at(self@, stage),
    {
        let ghost before = self@;
        let check = ReleaseCheck { stage, reports: Vec::new(), ..self };
        assert(check@ =~= at(before, stage));
        check
    }

    /// The verification at another stage, with one sentence to report.
    fn moved_with(self, stage: VerifyStage, report: String) -> (check: Self)
        ensures
            check@ == telling(self@, stage, report@),
    {
        let ghost wanted = telling(self@, stage, report@);
        let check = ReleaseCheck { stage, reports: vec![report], ..self };
        assert(check@ =~= wanted);
        check
    }

    /// The verification at its next file, or at its end.
    fn to_next_file(self) -> (check: Self)
        ensures
            check@ == at_next_file(self@),
    {
        if self.clean < self.files.len() {
            return self.moved(VerifyStage::ReadingFile);
        }
        let count = decimal_text(self.files.len() as u64);
        self.moved_with(
            VerifyStage::Done,
            join3(
                "verified release hygiene across ",
                count.as_str(),
                " regular bundle files and their extended attributes",
            ),
        )
    }

    /// The verification at the next extended attribute of the file, or past the file.
    fn to_next_attribute(self) -> (check: Self)
        requires
            self@.clean < self@.files.len(),
        ensures
            check@ == at_next_attribute(self@),
    {
        if self.plain < self.attributes.len() {
            return self.moved(VerifyStage::ReadingAttribute);
        }
        let ghost wanted = Verifying { clean: self@.clean + 1, ..self@ };
        let length = self.files.len();
        assert(self.clean < length);
        let mut check = self;
        check.clean = check.clean + 1;
        assert(check@ =~= wanted);
        check.to_next_file()
    }

    /// The verification after the bundle was found.
    fn with_bundle(self, facts: &BundleFacts) -> (result: Result<Self, Failure>)
        ensures
            verify_outcome(result) == after_bundle(self@, *facts),
    {
        let app = self.app.as_slice();
        let report = match verify_bundle(self.root.as_slice(), app, facts, None) {
            Ok(report) => report,
            Err(refusal) => return Err(refusal),
        };
        let path = join_text(app, INFO);
        let otherwise = join2(lossy_text(path.as_slice()).as_str(), " is not a plist dictionary");
        match read_dictionary(&facts.info, otherwise.as_str()) {
            Ok(dictionary) => {
                let bundled = bundled_executable(app, &dictionary);
                let mut check = self.moved(VerifyStage::FindingSettings);
                check.attributions = report.attributions;
                check.bundled = bundled;
                Ok(check)
            },
            Err(refusal) => Err(refusal),
        }
    }

    /// The verification after the settings of the build were found.
    fn with_settings(self, facts: &SettingsFacts) -> (result: Result<Self, Failure>)
        ensures
            verify_outcome(result) == after_settings(self@, *facts),
    {
        match check_settings(self.root.as_slice(), facts) {
            Ok(()) => {},
            Err(refusal) => return Err(refusal),
        }
        let executable = match &self.bundled {
            Ok(executable) => owned(executable.as_slice()),
            Err(refusal) => return Err(refusal.again()),
        };
        let mut check = self.moved(VerifyStage::FindingExecutables);
        check.executable = executable;
        check.variables = facts.environment.copied();
        Ok(check)
    }

    /// The verification after the executables were found.
    fn with_executables(self, facts: &ExecutableFacts) -> (result: Result<Self, Failure>)
        requires
            self.stage == VerifyStage::FindingExecutables,
        ensures
            verify_outcome(result) == verify_next(self@, Event::Executables(*facts)),
    {
        match match_executables(
            self.executable.as_slice(),
            self.release_executable.as_slice(),
            facts,
            self.closeness,
        ) {
            Ok(report) => Ok(self.moved_with(VerifyStage::ReadingManifest, report)),
            Err(refusal) => Err(refusal),
        }
    }

    /// The verification after the manifest was read.
    fn with_manifest(self, manifest: &Result<String, String>) -> (result: Result<Self, Failure>)
        requires
            self.stage == VerifyStage::ReadingManifest,
        ensures
            verify_outcome(result) == verify_next(self@, Event::Text(*manifest)),
    {
        match manifest_metadata(self.root.as_slice(), manifest) {
            Ok(metadata) => {
                let mut check = self.moved(VerifyStage::ListingSymbols);
                check.minimum = metadata.minimum_system_version;
                Ok(check)
            },
            Err(refusal) => Err(refusal),
        }
    }

    /// The verification after the machine was found.
    fn with_machine(self, facts: &MachineFacts) -> (result: Result<Self, Failure>)
        requires
            self.stage == VerifyStage::FindingMachine,
        ensures
            verify_outcome(result) == verify_next(self@, Event::Machine(*facts)),
    {
        match machine_markers(&self.variables, facts) {
            Ok(markers) => {
                let mut check = self.moved(VerifyStage::ListingFiles);
                check.markers = markers;
                Ok(check)
            },
            Err(refusal) => Err(refusal),
        }
    }

    /// The verification after the app was listed.
    fn with_entries(self, entries: &Result<Vec<Entry>, String>) -> (result: Result<Self, Failure>)
        requires
            self.stage == VerifyStage::ListingFiles,
        ensures
            verify_outcome(result) == verify_next(self@, Event::Entries(*entries)),
    {
        match regular_files(entries) {
            Ok(files) => {
                let ghost wanted = Verifying {
                    files: byte_strings(files@),
                    clean: 0,
                    ..self@
                };
                let mut check = self;
                check.files = files;
                check.clean = 0;
                assert(check@ =~= wanted);
                Ok(check.to_next_file())
            },
            Err(refusal) => Err(refusal),
        }
    }

    /// The verification after the contents of its next file were read.
    fn with_contents(self, contents: &Result<Vec<u8>, String>) -> (result: Result<Self, Failure>)
        requires
            self.stage == VerifyStage::ReadingFile,
        ensures
            verify_outcome(result) == verify_next(self@, Event::Contents(*contents)),
    {
        if self.clean >= self.files.len() {
            return Ok(self);
        }
        assert(self@.files[self.clean as int] == self.files@[self.clean as int]@);
        let contents = match contents {
            Ok(contents) => contents,
            Err(fault) => return Err(failure(fault.as_str())),
        };
        match reject_file_markers(
            contents.as_slice(),
            borrowed(&self.markers).as_slice(),
            self.files[self.clean].as_slice(),
            "contents",
        ) {
            Ok(()) => Ok(self.moved(VerifyStage::ListingAttributes)),
            Err(refusal) => Err(refusal),
        }
    }

    /// The verification after the extended attributes of its next file were listed.
    fn with_attributes(self, attempted: &Result<CommandOutput, String>) -> (result: Result<
        Self,
        Failure,
    >)
        requires
            self.stage == VerifyStage::ListingAttributes,
        ensures
            verify_outcome(result) == after_command(self@, *attempted),
    {
        if self.clean >= self.files.len() {
            return Ok(self);
        }
        assert(self@.files[self.clean as int] == self.files@[self.clean as int]@);
        match attribute_names(self.files[self.clean].as_slice(), attempted) {
            Ok(attributes) => {
                let ghost wanted = Verifying {
                    attributes: byte_strings(attributes@),
                    plain: 0,
                    ..self@
                };
                let mut check = self;
                check.attributes = attributes;
                check.plain = 0;
                assert(check@ =~= wanted);
                Ok(check.to_next_attribute())
            },
            Err(refusal) => Err(refusal),
        }
    }

    /// The verification after the next extended attribute of its next file was read.
    fn with_attribute(self, attempted: &Result<CommandOutput, String>) -> (result: Result<
        Self,
        Failure,
    >)
        requires
            self.stage == VerifyStage::ReadingAttribute,
        ensures
            verify_outcome(result) == after_command(self@, *attempted),
    {
        if self.clean >= self.files.len() || self.plain >= self.attributes.len() {
            return Ok(self);
        }
        assert(self@.files[self.clean as int] == self.files@[self.clean as int]@);
        assert(self@.attributes[self.plain as int] == self.attributes@[self.plain as int]@);
        let file = self.files[self.clean].as_slice();
        let command = attribute_command(file, self.attributes[self.plain].as_slice());
        let value = match command_output(&command, attempted) {
            Ok(value) => value,
            Err(refusal) => return Err(refusal),
        };
        match reject_file_markers(
            value,
            borrowed(&self.markers).as_slice(),
            file,
            "extended attributes",
        ) {
            Ok(()) => {},
            Err(refusal) => return Err(refusal),
        }
        let ghost wanted = Verifying { plain: self@.plain + 1, ..self@ };
        let mut check = self;
        check.plain = check.plain + 1;
        assert(check@ =~= wanted);
        Ok(check.to_next_attribute())
    }

    /// The verification after a command was run for it.
    fn with_command(self, attempted: &Result<CommandOutput, String>) -> (result: Result<
        Self,
        Failure,
    >)
        ensures
            verify_outcome(result) == after_command(self@, *attempted),
    {
        match self.stage {
            VerifyStage::ListingSymbols => match check_symbols(
                self.executable.as_slice(),
                attempted,
            ) {
                Ok(()) => Ok(self.moved(VerifyStage::ListingStrings)),
                Err(refusal) => Err(refusal),
            },
            VerifyStage::ListingStrings => match check_strings(
                self.executable.as_slice(),
                attempted,
            ) {
                Ok(report) => Ok(self.moved_with(VerifyStage::ListingLoadCommands, report)),
                Err(refusal) => Err(refusal),
            },
            VerifyStage::ListingLoadCommands => match verify_deployment_target(
                self.executable.as_slice(),
                self.minimum.as_str(),
                attempted,
            ) {
                Ok(report) => Ok(self.moved_with(VerifyStage::FindingMachine, report)),
                Err(refusal) => Err(refusal),
            },
            VerifyStage::ListingAttributes => self.with_attributes(attempted),
            VerifyStage::ReadingAttribute => self.with_attribute(attempted),
            _ => Ok(self),
        }
    }

    /// The verification after an event.
    pub fn advance(self, event: &Event) -> (result: Result<Self, Failure>)
        ensures
            verify_outcome(result) == verify_next(self@, *event),
    {
        match (self.stage, event) {
            (VerifyStage::FindingBundle, Event::Bundle(facts)) => self.with_bundle(facts),
            (VerifyStage::FindingSettings, Event::Settings(facts)) => self.with_settings(facts),
            (VerifyStage::FindingExecutables, Event::Executables(facts)) => self.with_executables(
                facts,
            ),
            (VerifyStage::ReadingManifest, Event::Text(manifest)) => self.with_manifest(manifest),
            (VerifyStage::FindingMachine, Event::Machine(facts)) => self.with_machine(facts),
            (VerifyStage::ListingFiles, Event::Entries(entries)) => self.with_entries(entries),
            (VerifyStage::ReadingFile, Event::Contents(contents)) => self.with_contents(contents),
            (_, Event::Ran(attempted)) => self.with_command(attempted),
            _ => Ok(self),
        }
    }
}

/// Whether the bundle was found and accepted, with this executable.
#[verifier::opaque]
pub open spec fn bundle_was_accepted(
    trace: Seq<Step>,
    root: Seq<u8>,
    app: Seq<u8>,
    bundled: Result<Seq<u8>, Seq<char>>,
    attributions: nat,
) -> bool {
    exists|came: Event| #[trigger]
        answered(trace, Act::FindBundle(root, app), came) && (came matches Event::Bundle(facts)
            && bundle_outcome(root, app, facts, None) matches Ok(report) && app_info(
            app,
            read(facts.info),
        ) matches Ok(info) && report.attributions == attributions && executable_path(app, info)
            == bundled)
}

/// Whether the settings of the build were found and accepted, with these variables.
#[verifier::opaque]
pub open spec fn settings_were_accepted(
    trace: Seq<Step>,
    root: Seq<u8>,
    variables: Seq<(Seq<u8>, Seq<u8>)>,
) -> bool {
    exists|came: Event| #[trigger]
        answered(trace, Act::FindSettings(root), came) && (came matches Event::Settings(facts)
            && facts.environment@ == variables && settings_outcome(root, facts) is Ok)
}

/// Whether the executable of the app was found to match the release executable.
#[verifier::opaque]
pub open spec fn executables_were_matched(
    trace: Seq<Step>,
    executable: Seq<u8>,
    release_executable: Seq<u8>,
    closeness: ExecutableMatch,
) -> bool {
    exists|came: Event| #[trigger]
        answered(trace, Act::FindExecutables(executable, release_executable), came) && (
        came matches Event::Executables(facts) && executables_outcome(
            executable,
            release_executable,
            facts,
            closeness,
        ) is Ok)
}

/// Whether the manifest was found to give this minimum system version.
#[verifier::opaque]
pub open spec fn minimum_was_read(trace: Seq<Step>, root: Seq<u8>, minimum: Seq<char>) -> bool {
    exists|came: Event| #[trigger]
        answered(trace, Act::ReadText(manifest_in(root)), came) && (
        came matches Event::Text(manifest) && root_metadata(
            root,
            read_text(manifest),
        ) matches Ok(metadata) && metadata.minimum_system_version == minimum)
}

/// Whether the symbols of an executable were listed and accepted.
#[verifier::opaque]
pub open spec fn symbols_were_accepted(trace: Seq<Step>, executable: Seq<u8>) -> bool {
    exists|came: Event| #[trigger]
        answered(trace, Act::Run(symbols_call(executable), Manner::Quiet), came) && (
        came matches Event::Ran(attempted) && symbols_outcome(
            executable,
            attempt(attempted),
        ) is Ok)
}

/// Whether the strings of an executable were listed and accepted.
#[verifier::opaque]
pub open spec fn strings_were_accepted(trace: Seq<Step>, executable: Seq<u8>) -> bool {
    exists|came: Event| #[trigger]
        answered(trace, Act::Run(strings_call(executable), Manner::Quiet), came) && (
        came matches Event::Ran(attempted) && listed_strings_outcome(
            executable,
            attempt(attempted),
        ) is Ok)
}

/// Whether the load commands of an executable were listed and accepted.
#[verifier::opaque]
pub open spec fn load_commands_were_accepted(
    trace: Seq<Step>,
    executable: Seq<u8>,
    minimum: Seq<char>,
) -> bool {
    exists|came: Event| #[trigger]
        answered(trace, Act::Run(load_commands_call(executable), Manner::Quiet), came) && (
        came matches Event::Ran(attempted) && deployment_outcome(
            executable,
            minimum,
            attempt(attempted),
        ) is Ok)
}

/// Whether the machine was found to give away these marks.
#[verifier::opaque]
pub open spec fn machine_was_told(
    trace: Seq<Step>,
    root: Seq<u8>,
    variables: Seq<(Seq<u8>, Seq<u8>)>,
    marks: Seq<(Seq<u8>, Seq<char>)>,
) -> bool {
    exists|came: Event| #[trigger]
        answered(trace, machine_act(root, variables), came) && (came matches Event::Machine(facts)
            && machine_marks(variables, facts) == Ok::<Seq<(Seq<u8>, Seq<char>)>, Seq<char>>(
            marks,
        ))
}

/// Whether the app was listed, and these are its regular files.
#[verifier::opaque]
pub open spec fn files_were_listed(trace: Seq<Step>, app: Seq<u8>, files: Seq<Seq<u8>>) -> bool {
    exists|came: Event| #[trigger]
        answered(trace, Act::List(app), came) && (came matches Event::Entries(entries)
            && regular_outcome(known_entries(entries)) == Ok::<Seq<Seq<u8>>, Seq<char>>(files))
}

/// Whether the contents of a file were read and none of the marks was found in them.
#[verifier::opaque]
pub open spec fn contents_were_clean(
    trace: Seq<Step>,
    marks: Seq<(Seq<u8>, Seq<char>)>,
    file: Seq<u8>,
) -> bool {
    exists|came: Event| #[trigger]
        answered(trace, Act::Read(file), came) && (came matches Event::Contents(Ok(contents))
            && markers_outcome(contents@, marks, file, "contents"@) is Ok)
}

/// Whether the extended attributes of a file were listed, and these are their names.
#[verifier::opaque]
pub open spec fn attributes_were_listed(
    trace: Seq<Step>,
    file: Seq<u8>,
    names: Seq<Seq<u8>>,
) -> bool {
    exists|came: Event| #[trigger]
        answered(trace, Act::Run(attributes_call(file), Manner::Quiet), came) && (
        came matches Event::Ran(attempted) && attributes_of(file, attempt(attempted)) == Ok::<
            Seq<Seq<u8>>,
            Seq<char>,
        >(names))
}

/// Whether an extended attribute of a file was read and none of the marks was found in it.
#[verifier::opaque]
pub open spec fn attribute_was_clean(
    trace: Seq<Step>,
    marks: Seq<(Seq<u8>, Seq<char>)>,
    file: Seq<u8>,
    name: Seq<u8>,
) -> bool {
    exists|came: Event| #[trigger]
        answered(trace, Act::Run(attribute_call(file, name), Manner::Quiet), came) && (
        came matches Event::Ran(attempted) && completed(
            attribute_call(file, name),
            attempt(attempted),
        ) matches Ok(value) && markers_outcome(value, marks, file, "extended attributes"@) is Ok)
}

/// Whether a file was read, with all of its extended attributes, and none of the marks was found.
#[verifier::opaque]
pub open spec fn file_was_clean(
    trace: Seq<Step>,
    marks: Seq<(Seq<u8>, Seq<char>)>,
    file: Seq<u8>,
) -> bool {
    &&& contents_were_clean(trace, marks, file)
    &&& exists|names: Seq<Seq<u8>>| #[trigger]
        attributes_were_listed(trace, file, names) && forall|k: int|
            0 <= k < names.len() ==> attribute_was_clean(trace, marks, file, #[trigger] names[k])
}

/// The number of things that were accepted before a stage.
pub open spec fn rank(stage: VerifyStage) -> nat {
    match stage {
        VerifyStage::FindingBundle => 0,
        VerifyStage::FindingSettings => 1,
        VerifyStage::FindingExecutables => 2,
        VerifyStage::ReadingManifest => 3,
        VerifyStage::ListingSymbols => 4,
        VerifyStage::ListingStrings => 5,
        VerifyStage::ListingLoadCommands => 6,
        VerifyStage::FindingMachine => 7,
        VerifyStage::ListingFiles => 8,
        VerifyStage::ReadingFile => 9,
        VerifyStage::ListingAttributes => 9,
        VerifyStage::ReadingAttribute => 9,
        VerifyStage::Done => 10,
    }
}

/// Whether a verification has accepted what it says.
#[verifier::opaque]
pub open spec fn is_verified(trace: Seq<Step>, check: Verifying) -> bool {
    let past = rank(check.stage);
    &&& past >= 1 ==> bundle_was_accepted(
        trace,
        check.root,
        check.app,
        check.bundled,
        check.attributions,
    )
    &&& past >= 2 ==> check.bundled == Ok::<Seq<u8>, Seq<char>>(check.executable)
    &&& past >= 2 ==> settings_were_accepted(trace, check.root, check.variables)
    &&& past >= 3 ==> executables_were_matched(
        trace,
        check.executable,
        check.release_executable,
        check.closeness,
    )
    &&& past >= 4 ==> minimum_was_read(trace, check.root, check.minimum)
    &&& past >= 5 ==> symbols_were_accepted(trace, check.executable)
    &&& past >= 6 ==> strings_were_accepted(trace, check.executable)
    &&& past >= 7 ==> load_commands_were_accepted(trace, check.executable, check.minimum)
    &&& past >= 8 ==> machine_was_told(trace, check.root, check.variables, check.marks)
    &&& past >= 9 ==> files_were_listed(trace, check.app, check.files)
    &&& past < 9 ==> check.clean == 0
    &&& past == 9 ==> check.clean < check.files.len()
    &&& past == 10 ==> check.clean == check.files.len()
    &&& forall|k: int|
        0 <= k < check.clean ==> file_was_clean(trace, check.marks, #[trigger] check.files[k])
    &&& check.stage == VerifyStage::ListingAttributes || check.stage
        == VerifyStage::ReadingAttribute ==> contents_were_clean(
        trace,
        check.marks,
        check.files[check.clean as int],
    )
    &&& check.stage == VerifyStage::ReadingAttribute ==> {
        let file = check.files[check.clean as int];
        &&& check.plain < check.attributes.len()
        &&& attributes_were_listed(trace, file, check.attributes)
        &&& forall|k: int|
            0 <= k < check.plain ==> attribute_was_clean(
                trace,
                check.marks,
                file,
                #[trigger] check.attributes[k],
            )
    }
}

/// A file that was read without finding a mark stays so.
proof fn lemma_clean_stays(
    trace: Seq<Step>,
    step: Step,
    marks: Seq<(Seq<u8>, Seq<char>)>,
    file: Seq<u8>,
)
    requires
        file_was_clean(trace, marks, file),
    ensures
        file_was_clean(trace.push(step), marks, file),
{
    reveal(file_was_clean);
    reveal(contents_were_clean);
    reveal(attributes_were_listed);
    reveal(attribute_was_clean);
    let after = trace.push(step);
    lemma_answers_stay(trace, step);
    let names = choose|names: Seq<Seq<u8>>| #[trigger]
        attributes_were_listed(trace, file, names) && forall|k: int|
            0 <= k < names.len() ==> attribute_was_clean(trace, marks, file, #[trigger] names[k]);
    assert(attributes_were_listed(after, file, names));
    assert forall|k: int| 0 <= k < names.len() implies attribute_was_clean(
        after,
        marks,
        file,
        #[trigger] names[k],
    ) by {
        assert(attribute_was_clean(trace, marks, file, names[k]));
    }
}

/// What was accepted of the bundle, the build and the executable stays so.
proof fn lemma_facts_stay(trace: Seq<Step>, step: Step, check: Verifying)
    ensures
        ({
            let after = trace.push(step);
            &&& bundle_was_accepted(
                trace,
                check.root,
                check.app,
                check.bundled,
                check.attributions,
            ) ==> bundle_was_accepted(
                after,
                check.root,
                check.app,
                check.bundled,
                check.attributions,
            )
            &&& settings_were_accepted(trace, check.root, check.variables)
                ==> settings_were_accepted(after, check.root, check.variables)
            &&& executables_were_matched(
                trace,
                check.executable,
                check.release_executable,
                check.closeness,
            ) ==> executables_were_matched(
                after,
                check.executable,
                check.release_executable,
                check.closeness,
            )
            &&& minimum_was_read(trace, check.root, check.minimum) ==> minimum_was_read(
                after,
                check.root,
                check.minimum,
            )
            &&& symbols_were_accepted(trace, check.executable) ==> symbols_were_accepted(
                after,
                check.executable,
            )
            &&& strings_were_accepted(trace, check.executable) ==> strings_were_accepted(
                after,
                check.executable,
            )
            &&& load_commands_were_accepted(trace, check.executable, check.minimum)
                ==> load_commands_were_accepted(after, check.executable, check.minimum)
            &&& machine_was_told(trace, check.root, check.variables, check.marks)
                ==> machine_was_told(after, check.root, check.variables, check.marks)
            &&& files_were_listed(trace, check.app, check.files) ==> files_were_listed(
                after,
                check.app,
                check.files,
            )
        }),
{
    reveal(bundle_was_accepted);
    reveal(settings_were_accepted);
    reveal(executables_were_matched);
    reveal(minimum_was_read);
    reveal(symbols_were_accepted);
    reveal(strings_were_accepted);
    reveal(load_commands_were_accepted);
    reveal(machine_was_told);
    reveal(files_were_listed);
    lemma_answers_stay(trace, step);
}

/// One more step takes nothing back.
pub proof fn lemma_verified_stays(trace: Seq<Step>, step: Step, check: Verifying)
    requires
        is_verified(trace, check),
    ensures
        is_verified(trace.push(step), check),
{
    reveal(is_verified);
    let after = trace.push(step);
    lemma_facts_stay(trace, step, check);
    assert forall|k: int| 0 <= k < check.clean implies file_was_clean(
        after,
        check.marks,
        #[trigger] check.files[k],
    ) by {
        lemma_clean_stays(trace, step, check.marks, check.files[k]);
    }
    if rank(check.stage) == 9 {
        let file = check.files[check.clean as int];
        assert(contents_were_clean(trace, check.marks, file) ==> contents_were_clean(
            after,
            check.marks,
            file,
        )) by {
            reveal(contents_were_clean);
            lemma_answers_stay(trace, step);
        }
        assert(attributes_were_listed(trace, file, check.attributes) ==> attributes_were_listed(
            after,
            file,
            check.attributes,
        )) by {
            reveal(attributes_were_listed);
            lemma_answers_stay(trace, step);
        }
        assert forall|k: int|
            0 <= k < check.plain && attribute_was_clean(
                trace,
                check.marks,
                file,
                #[trigger] check.attributes[k],
            ) implies attribute_was_clean(after, check.marks, file, check.attributes[k]) by {
            reveal(attribute_was_clean);
            lemma_answers_stay(trace, step);
        }
    }
}

/// A verification that is past the last extended attribute of its file has read a clean file.
proof fn lemma_past_attributes(trace: Seq<Step>, check: Verifying)
    requires
        check.clean < check.files.len(),
        contents_were_clean(trace, check.marks, check.files[check.clean as int]),
        attributes_were_listed(trace, check.files[check.clean as int], check.attributes),
        check.plain <= check.attributes.len(),
        forall|k: int|
            0 <= k < check.plain ==> attribute_was_clean(
                trace,
                check.marks,
                check.files[check.clean as int],
                #[trigger] check.attributes[k],
            ),
        rank(check.stage) == 9,
        is_verified(trace, Verifying { stage: VerifyStage::ReadingFile, ..check }),
    ensures
        is_verified(trace, at_next_attribute(check)),
{
    reveal(is_verified);
    let file = check.files[check.clean as int];
    if check.plain >= check.attributes.len() {
        assert(file_was_clean(trace, check.marks, file)) by {
            reveal(file_was_clean);
            assert(attributes_were_listed(trace, file, check.attributes));
        }
        let next = at_next_attribute(check);
        assert forall|k: int| 0 <= k < next.clean implies file_was_clean(
            trace,
            next.marks,
            #[trigger] next.files[k],
        ) by {
            if k < check.clean {
                assert(file_was_clean(trace, check.marks, check.files[k]));
            }
        }
    }
}

/// A step that finds the bundle or the settings of the build.
proof fn lemma_bundle_step(trace: Seq<Step>, step: Step, check: Verifying)
    requires
        is_verified(trace, check),
        step.asked == verify_action(check),
        verify_next(check, step.came) is Ok,
        rank(check.stage) < 2,
    ensures
        is_verified(trace.push(step), verify_next(check, step.came)->Ok_0),
{
    reveal(is_verified);
    let after = trace.push(step);
    let next = verify_next(check, step.came)->Ok_0;
    let came = step.came;
    lemma_verified_stays(trace, step, check);
    assert(answered(after, verify_action(check), came)) by {
        lemma_answers_stay(trace, step);
    }
    match (check.stage, came) {
        (VerifyStage::FindingBundle, Event::Bundle(facts)) => {
            assert(bundle_was_accepted(
                after,
                next.root,
                next.app,
                next.bundled,
                next.attributions,
            )) by {
                reveal(bundle_was_accepted);
            }
        },
        (VerifyStage::FindingSettings, Event::Settings(facts)) => {
            assert(settings_were_accepted(after, next.root, next.variables)) by {
                reveal(settings_were_accepted);
            }
        },
        _ => {},
    }
}

/// A step that concerns the executable.
proof fn lemma_executable_step(trace: Seq<Step>, step: Step, check: Verifying)
    requires
        is_verified(trace, check),
        step.asked == verify_action(check),
        verify_next(check, step.came) is Ok,
        2 <= rank(check.stage) < 7,
    ensures
        is_verified(trace.push(step), verify_next(check, step.came)->Ok_0),
{
    reveal(is_verified);
    let after = trace.push(step);
    let next = verify_next(check, step.came)->Ok_0;
    let came = step.came;
    lemma_verified_stays(trace, step, check);
    assert(answered(after, verify_action(check), came)) by {
        lemma_answers_stay(trace, step);
    }
    match (check.stage, came) {
        (VerifyStage::FindingExecutables, Event::Executables(facts)) => {
            assert(executables_were_matched(
                after,
                next.executable,
                next.release_executable,
                next.closeness,
            )) by {
                reveal(executables_were_matched);
            }
        },
        (VerifyStage::ReadingManifest, Event::Text(manifest)) => {
            assert(minimum_was_read(after, next.root, next.minimum)) by {
                reveal(minimum_was_read);
            }
        },
        (VerifyStage::ListingSymbols, Event::Ran(attempted)) => {
            assert(symbols_were_accepted(after, next.executable)) by {
                reveal(symbols_were_accepted);
            }
        },
        (VerifyStage::ListingStrings, Event::Ran(attempted)) => {
            assert(strings_were_accepted(after, next.executable)) by {
                reveal(strings_were_accepted);
            }
        },
        (VerifyStage::ListingLoadCommands, Event::Ran(attempted)) => {
            assert(load_commands_were_accepted(after, next.executable, next.minimum)) by {
                reveal(load_commands_were_accepted);
            }
        },
        _ => {},
    }
}

/// A step that finds the machine or lists the app.
proof fn lemma_listing_step(trace: Seq<Step>, step: Step, check: Verifying)
    requires
        is_verified(trace, check),
        step.asked == verify_action(check),
        verify_next(check, step.came) is Ok,
        7 <= rank(check.stage) < 9,
    ensures
        is_verified(trace.push(step), verify_next(check, step.came)->Ok_0),
{
    reveal(is_verified);
    let after = trace.push(step);
    let next = verify_next(check, step.came)->Ok_0;
    let came = step.came;
    lemma_verified_stays(trace, step, check);
    assert(answered(after, verify_action(check), came)) by {
        lemma_answers_stay(trace, step);
    }
    match (check.stage, came) {
        (VerifyStage::FindingMachine, Event::Machine(facts)) => {
            assert(machine_was_told(after, next.root, next.variables, next.marks)) by {
                reveal(machine_was_told);
            }
        },
        (VerifyStage::ListingFiles, Event::Entries(entries)) => {
            assert(files_were_listed(after, next.app, next.files)) by {
                reveal(files_were_listed);
            }
        },
        _ => {},
    }
}

/// A step that reads the contents of the next file.
proof fn lemma_contents_step(trace: Seq<Step>, step: Step, check: Verifying)
    requires
        is_verified(trace, check),
        step.asked == verify_action(check),
        verify_next(check, step.came) is Ok,
        check.stage == VerifyStage::ReadingFile,
    ensures
        is_verified(trace.push(step), verify_next(check, step.came)->Ok_0),
{
    reveal(is_verified);
    let after = trace.push(step);
    let next = verify_next(check, step.came)->Ok_0;
    let file = check.files[check.clean as int];
    lemma_verified_stays(trace, step, check);
    assert(answered(after, verify_action(check), step.came)) by {
        lemma_answers_stay(trace, step);
    }
    if let Event::Contents(contents) = step.came {
        assert(contents_were_clean(after, check.marks, file)) by {
            reveal(contents_were_clean);
        }
        assert(next == at(check, VerifyStage::ListingAttributes));
    } else {
        assert(next == check);
    }
}

/// A step that lists the extended attributes of the next file.
proof fn lemma_attributes_step(trace: Seq<Step>, step: Step, check: Verifying)
    requires
        is_verified(trace, check),
        step.asked == verify_action(check),
        verify_next(check, step.came) is Ok,
        check.stage == VerifyStage::ListingAttributes,
    ensures
        is_verified(trace.push(step), verify_next(check, step.came)->Ok_0),
{
    reveal(is_verified);
    let after = trace.push(step);
    let next = verify_next(check, step.came)->Ok_0;
    let file = check.files[check.clean as int];
    lemma_verified_stays(trace, step, check);
    assert(answered(after, verify_action(check), step.came)) by {
        lemma_answers_stay(trace, step);
    }
    if let Event::Ran(attempted) = step.came {
        let names = attributes_of(file, attempt(attempted))->Ok_0;
        let with = Verifying { attributes: names, plain: 0, ..check };
        assert(attributes_were_listed(after, file, names)) by {
            reveal(attributes_were_listed);
        }
        assert(next == at_next_attribute(with));
        lemma_past_attributes(after, with);
    } else {
        assert(next == check);
    }
}

/// What a verification has accepted that reads an extended attribute.
proof fn lemma_before_attribute(trace: Seq<Step>, check: Verifying, plain: nat)
    requires
        is_verified(trace, check),
        check.stage == VerifyStage::ReadingAttribute,
    ensures
        check.clean < check.files.len(),
        check.plain < check.attributes.len(),
        contents_were_clean(trace, check.marks, check.files[check.clean as int]),
        attributes_were_listed(trace, check.files[check.clean as int], check.attributes),
        forall|k: int|
            0 <= k < check.plain ==> attribute_was_clean(
                trace,
                check.marks,
                check.files[check.clean as int],
                #[trigger] check.attributes[k],
            ),
        is_verified(trace, Verifying { stage: VerifyStage::ReadingFile, plain, ..check }),
{
    reveal(is_verified);
}

/// An extended attribute that is accepted was read and gives nothing away.
proof fn lemma_attribute_is_clean(
    trace: Seq<Step>,
    check: Verifying,
    attempted: Result<CommandOutput, String>,
)
    requires
        after_attribute(check, attempted) is Ok,
    ensures
        ({
            let file = check.files[check.clean as int];
            let name = check.attributes[check.plain as int];
            let asked = Act::Run(attribute_call(file, name), Manner::Quiet);
            attribute_was_clean(
                trace.push(Step { asked, came: Event::Ran(attempted) }),
                check.marks,
                file,
                name,
            )
        }),
{
    let file = check.files[check.clean as int];
    let name = check.attributes[check.plain as int];
    let asked = Act::Run(attribute_call(file, name), Manner::Quiet);
    let step = Step { asked, came: Event::Ran(attempted) };
    lemma_answers_stay(trace, step);
    assert(answered(trace.push(step), asked, Event::Ran(attempted)));
    reveal(attribute_was_clean);
}

/// A verification that reads an extended attribute has, with that one accepted, accepted what it says.
proof fn lemma_attribute_accepted(trace: Seq<Step>, check: Verifying)
    requires
        is_verified(trace, check),
        check.stage == VerifyStage::ReadingAttribute,
        attribute_was_clean(
            trace,
            check.marks,
            check.files[check.clean as int],
            check.attributes[check.plain as int],
        ),
    ensures
        is_verified(trace, at_next_attribute(Verifying { plain: check.plain + 1, ..check })),
{
    let with = Verifying { plain: check.plain + 1, ..check };
    lemma_before_attribute(trace, check, with.plain);
    lemma_past_attributes(trace, with);
}

/// A step that reads the next extended attribute of the next file.
proof fn lemma_attribute_step(trace: Seq<Step>, step: Step, check: Verifying)
    requires
        is_verified(trace, check),
        step.asked == verify_action(check),
        verify_next(check, step.came) is Ok,
        check.stage == VerifyStage::ReadingAttribute,
    ensures
        is_verified(trace.push(step), verify_next(check, step.came)->Ok_0),
{
    lemma_before_attribute(trace, check, check.plain);
    lemma_verified_stays(trace, step, check);
    if let Event::Ran(attempted) = step.came {
        assert(verify_next(check, step.came) == after_attribute(check, attempted));
        lemma_attribute_is_clean(trace, check, attempted);
        lemma_attribute_accepted(trace.push(step), check);
    } else {
        assert(verify_next(check, step.came)->Ok_0 == check);
    }
}

/// A verification that has accepted what it says has done so after the next step as well.
pub proof fn lemma_verified_step(trace: Seq<Step>, step: Step, check: Verifying)
    requires
        is_verified(trace, check),
        step.asked == verify_action(check),
        verify_next(check, step.came) is Ok,
    ensures
        is_verified(trace.push(step), verify_next(check, step.came)->Ok_0),
{
    if rank(check.stage) < 2 {
        lemma_bundle_step(trace, step, check);
    } else if rank(check.stage) < 7 {
        lemma_executable_step(trace, step, check);
    } else if rank(check.stage) < 9 {
        lemma_listing_step(trace, step, check);
    } else {
        match check.stage {
            VerifyStage::ReadingFile => lemma_contents_step(trace, step, check),
            VerifyStage::ListingAttributes => lemma_attributes_step(trace, step, check),
            VerifyStage::ReadingAttribute => lemma_attribute_step(trace, step, check),
            _ => lemma_verified_stays(trace, step, check),
        }
    }
}

/// A verification that has just begun claims nothing.
pub proof fn lemma_verified_starts(
    trace: Seq<Step>,
    root: Seq<u8>,
    app: Seq<u8>,
    release_executable: Seq<u8>,
    closeness: ExecutableMatch,
)
    ensures
        is_verified(trace, verify_start(root, app, release_executable, closeness)),
{
    reveal(is_verified);
}

/// No event changes what is verified, or against what.
pub proof fn lemma_verified_keeps(check: Verifying, event: Event)
    requires
        verify_next(check, event) is Ok,
    ensures
        ({
            let next = verify_next(check, event)->Ok_0;
            &&& next.root == check.root && next.app == check.app
            &&& next.release_executable == check.release_executable
            &&& next.closeness == check.closeness
        }),
{
}

/// Whether the release in the app was verified against the release executable.
pub open spec fn release_was_verified(
    trace: Seq<Step>,
    root: Seq<u8>,
    app: Seq<u8>,
    release_executable: Seq<u8>,
    closeness: ExecutableMatch,
) -> bool {
    exists|check: Verifying| #[trigger]
        is_verified(trace, check) && check.stage == VerifyStage::Done && check.root == root
            && check.app == app && check.release_executable == release_executable
            && check.closeness == closeness
}

/// A verified release has the property list, the license and the notices of the repository and the
/// executable that the property list names; comes out of a build whose settings leave the release
/// alone; has an executable that matches the release executable, refers to no object file, holds no
/// message of an overflow check, and is built for the minimum system version of the manifest; and each
/// of its regular files was read, with all extended attributes, without finding a mark of the machine.
pub proof fn law_verified_releases(trace: Seq<Step>, check: Verifying)
    requires
        is_verified(trace, check),
        check.stage == VerifyStage::Done,
    ensures
        bundle_was_accepted(
            trace,
            check.root,
            check.app,
            Ok(check.executable),
            check.attributions,
        ),
        settings_were_accepted(trace, check.root, check.variables),
        executables_were_matched(
            trace,
            check.executable,
            check.release_executable,
            check.closeness,
        ),
        minimum_was_read(trace, check.root, check.minimum),
        symbols_were_accepted(trace, check.executable),
        strings_were_accepted(trace, check.executable),
        load_commands_were_accepted(trace, check.executable, check.minimum),
        machine_was_told(trace, check.root, check.variables, check.marks),
        files_were_listed(trace, check.app, check.files),
        forall|k: int|
            0 <= k < check.files.len() ==> file_was_clean(
                trace,
                check.marks,
                #[trigger] check.files[k],
            ),
{
    reveal(is_verified);
}

/// Whether a mark was found neither in the contents of a file nor in any of its extended attributes.
#[verifier::opaque]
pub open spec fn was_hidden(trace: Seq<Step>, file: Seq<u8>, mark: Seq<u8>) -> bool {
    &&& exists|came: Event| #[trigger]
        answered(trace, Act::Read(file), came) && (came matches Event::Contents(Ok(contents))
            && !contained(contents@, mark))
    &&& exists|names: Seq<Seq<u8>>| #[trigger]
        attributes_were_listed(trace, file, names) && forall|k: int|
            0 <= k < names.len() ==> was_hidden_in_attribute(
                trace,
                file,
                #[trigger] names[k],
                mark,
            )
}

/// Whether an extended attribute of a file was read and a mark was not found in it.
#[verifier::opaque]
pub open spec fn was_hidden_in_attribute(
    trace: Seq<Step>,
    file: Seq<u8>,
    name: Seq<u8>,
    mark: Seq<u8>,
) -> bool {
    exists|came: Event| #[trigger]
        answered(trace, Act::Run(attribute_call(file, name), Manner::Quiet), came) && (
        came matches Event::Ran(attempted) && completed(
            attribute_call(file, name),
            attempt(attempted),
        ) matches Ok(value) && !contained(value, mark))
}

proof fn lemma_hidden(
    trace: Seq<Step>,
    marks: Seq<(Seq<u8>, Seq<char>)>,
    file: Seq<u8>,
    m: int,
)
    requires
        file_was_clean(trace, marks, file),
        0 <= m < marks.len(),
    ensures
        was_hidden(trace, file, marks[m].0),
{
    reveal(file_was_clean);
    reveal(contents_were_clean);
    reveal(attribute_was_clean);
    reveal(was_hidden);
    reveal(was_hidden_in_attribute);
    let came = choose|came: Event| #[trigger]
        answered(trace, Act::Read(file), came) && (came matches Event::Contents(Ok(contents))
            && markers_outcome(contents@, marks, file, "contents"@) is Ok);
    lemma_no_mark(came->Contents_0->Ok_0@, marks, m);
    assert(answered(trace, Act::Read(file), came));
    let names = choose|names: Seq<Seq<u8>>| #[trigger]
        attributes_were_listed(trace, file, names) && forall|k: int|
            0 <= k < names.len() ==> attribute_was_clean(trace, marks, file, #[trigger] names[k]);
    assert(attributes_were_listed(trace, file, names));
    assert forall|k: int| 0 <= k < names.len() implies was_hidden_in_attribute(
        trace,
        file,
        #[trigger] names[k],
        marks[m].0,
    ) by {
        let name = names[k];
        assert(attribute_was_clean(trace, marks, file, name));
        let came = choose|came: Event| #[trigger]
            answered(trace, Act::Run(attribute_call(file, name), Manner::Quiet), came) && (
            came matches Event::Ran(attempted) && completed(
                attribute_call(file, name),
                attempt(attempted),
            ) matches Ok(value) && markers_outcome(value, marks, file, "extended attributes"@)
                is Ok);
        let value = completed(attribute_call(file, name), attempt(came->Ran_0))->Ok_0;
        lemma_no_mark(value, marks, m);
        assert(answered(trace, Act::Run(attribute_call(file, name), Manner::Quiet), came));
    }
}

/// No regular file that a listing of a verified app gave, and no extended attribute of one, holds the
/// home directory of the machine that built it, the repository, Cargo's directories, a directory for
/// temporary files or the identifier of the one in use, or the name of the machine.
pub proof fn law_verified_apps_hide_the_machine(trace: Seq<Step>, check: Verifying, k: int)
    requires
        is_verified(trace, check),
        check.stage == VerifyStage::Done,
        0 <= k < check.files.len(),
    ensures
        files_were_listed(trace, check.app, check.files),
        exists|came: Event| #[trigger]
            answered(trace, machine_act(check.root, check.variables), came) && (
            came matches Event::Machine(facts) && {
                let file = check.files[k];
                let variables = check.variables;
                &&& private_home(variables) is Ok
                &&& facts.root is Ok && facts.cargo_home is Ok && facts.target is Ok
                &&& temporary_identifier(facts.temporary_directory@) is Some
                &&& host_name(attempt(facts.hostname)) is Ok
                &&& was_hidden(trace, file, private_home(variables)->Ok_0)
                &&& was_hidden(trace, file, facts.root->Ok_0@)
                &&& was_hidden(trace, file, facts.cargo_home->Ok_0@)
                &&& was_hidden(trace, file, facts.target->Ok_0@)
                &&& was_hidden(trace, file, encode_utf8("/var/folders"@))
                &&& was_hidden(trace, file, encode_utf8("/private/var/folders"@))
                &&& was_hidden(
                    trace,
                    file,
                    temporary_identifier(facts.temporary_directory@)->Some_0,
                )
                &&& was_hidden(
                    trace,
                    file,
                    encode_utf8(host_name(attempt(facts.hostname))->Ok_0),
                )
            }),
{
    reveal(is_verified);
    reveal(machine_was_told);
    let marks = check.marks;
    let file = check.files[k];
    let came = choose|came: Event| #[trigger]
        answered(trace, machine_act(check.root, check.variables), came) && (
        came matches Event::Machine(facts) && machine_marks(check.variables, facts) == Ok::<
            Seq<(Seq<u8>, Seq<char>)>,
            Seq<char>,
        >(marks));
    assert(file_was_clean(trace, marks, file));
    assert(marks.len() == 8);
    lemma_hidden(trace, marks, file, 0);
    lemma_hidden(trace, marks, file, 1);
    lemma_hidden(trace, marks, file, 2);
    lemma_hidden(trace, marks, file, 3);
    lemma_hidden(trace, marks, file, 4);
    lemma_hidden(trace, marks, file, 5);
    lemma_hidden(trace, marks, file, 6);
    lemma_hidden(trace, marks, file, 7);
    assert(answered(trace, machine_act(check.root, check.variables), came));
}

/// What a verification asks for at its stages.
pub proof fn law_what_verifications_ask_for(check: Verifying)
    ensures
        ({
            let asked = verify_action(check);
            &&& check.stage == VerifyStage::FindingBundle ==> asked == Act::FindBundle(
                check.root,
                check.app,
            )
            &&& check.stage == VerifyStage::FindingSettings ==> asked == Act::FindSettings(check.root)
            &&& check.stage == VerifyStage::FindingExecutables ==> asked == Act::FindExecutables(
                check.executable,
                check.release_executable,
            )
            &&& check.stage == VerifyStage::ReadingManifest ==> asked == Act::ReadText(
                joined(check.root, encode_utf8("Cargo.toml"@)),
            )
            &&& check.stage == VerifyStage::ListingSymbols ==> asked == Act::Run(
                symbols_call(check.executable),
                Manner::Quiet,
            )
            &&& check.stage == VerifyStage::ListingStrings ==> asked == Act::Run(
                strings_call(check.executable),
                Manner::Quiet,
            )
            &&& check.stage == VerifyStage::ListingLoadCommands ==> asked == Act::Run(
                load_commands_call(check.executable),
                Manner::Quiet,
            )
            &&& check.stage == VerifyStage::FindingMachine && home_of(check.variables) is Ok ==> asked
                == Act::FindMachine(
                check.root,
                cargo_home_of(check.variables, home_of(check.variables)->Ok_0),
                target_of(check.variables, check.root),
            )
            &&& check.stage == VerifyStage::ListingFiles ==> asked == Act::List(check.app)
            &&& check.stage == VerifyStage::Done ==> asked == Act::Finish
            &&& check.clean < check.files.len() ==> {
                let file = check.files[check.clean as int];
                &&& check.stage == VerifyStage::ReadingFile ==> asked == Act::Read(file)
                &&& check.stage == VerifyStage::ListingAttributes ==> asked == Act::Run(
                    attributes_call(file),
                    Manner::Quiet,
                )
                &&& check.stage == VerifyStage::ReadingAttribute && check.plain
                    < check.attributes.len() ==> asked == Act::Run(
                    attribute_call(file, check.attributes[check.plain as int]),
                    Manner::Quiet,
                )
            }
        }),
{
}

/// The bundle, the settings of the build and the executables are looked at in this order, and each
/// decides on its own whether the verification goes on.
pub proof fn law_what_decides_on_the_bundle(
    check: Verifying,
    bundle: BundleFacts,
    settings: SettingsFacts,
    executables: ExecutableFacts,
    manifest: Result<String, String>,
)
    ensures
        check.stage == VerifyStage::FindingBundle ==> {
            let next = verify_next(check, Event::Bundle(bundle));
            let report = bundle_outcome(check.root, check.app, bundle, None);
            &&& next is Ok <==> report is Ok
            &&& next is Ok ==> next->Ok_0.stage == VerifyStage::FindingSettings
                && next->Ok_0.attributions == report->Ok_0.attributions && next->Ok_0.bundled
                == executable_path(check.app, app_info(check.app, read(bundle.info))->Ok_0)
        },
        check.stage == VerifyStage::FindingSettings ==> {
            let next = verify_next(check, Event::Settings(settings));
            &&& next is Ok <==> settings_outcome(check.root, settings) is Ok && check.bundled is Ok
            &&& next is Ok ==> next->Ok_0.stage == VerifyStage::FindingExecutables
                && check.bundled == Ok::<Seq<u8>, Seq<char>>(next->Ok_0.executable)
                && next->Ok_0.variables == settings.environment@
        },
        check.stage == VerifyStage::FindingExecutables ==> {
            let next = verify_next(check, Event::Executables(executables));
            let report = executables_outcome(
                check.executable,
                check.release_executable,
                executables,
                check.closeness,
            );
            &&& next is Ok <==> report is Ok
            &&& next is Ok ==> next->Ok_0.stage == VerifyStage::ReadingManifest && next->Ok_0.reports
                == seq![report->Ok_0]
        },
        check.stage == VerifyStage::ReadingManifest ==> {
            let next = verify_next(check, Event::Text(manifest));
            let metadata = root_metadata(check.root, read_text(manifest));
            &&& next is Ok <==> metadata is Ok
            &&& next is Ok ==> next->Ok_0.stage == VerifyStage::ListingSymbols && next->Ok_0.minimum
                == metadata->Ok_0.minimum_system_version
        },
{
}

/// The symbols, the strings and the load commands of the executable decide in this order.
pub proof fn law_what_decides_on_the_executable(
    check: Verifying,
    attempted: Result<CommandOutput, String>,
)
    ensures
        ({
            let next = verify_next(check, Event::Ran(attempted));
            let symbols = symbols_outcome(check.executable, attempt(attempted));
            let strings = listed_strings_outcome(check.executable, attempt(attempted));
            let deployment = deployment_outcome(
                check.executable,
                check.minimum,
                attempt(attempted),
            );
            &&& check.stage == VerifyStage::ListingSymbols ==> (next is Ok <==> symbols is Ok) && (
            next is Ok ==> next->Ok_0.stage == VerifyStage::ListingStrings)
            &&& check.stage == VerifyStage::ListingStrings ==> (next is Ok <==> strings is Ok) && (
            next is Ok ==> next->Ok_0.stage == VerifyStage::ListingLoadCommands
                && next->Ok_0.reports == seq![strings->Ok_0])
            &&& check.stage == VerifyStage::ListingLoadCommands ==> (next is Ok <==> deployment is Ok)
                && (next is Ok ==> next->Ok_0.stage == VerifyStage::FindingMachine
                && next->Ok_0.reports == seq![deployment->Ok_0])
        }),
{
}

/// What the machine gives away is told before the files are listed, and each file is read, with all its
/// extended attributes. One that holds a mark is a refusal, and after the last one the verification is
/// done.
pub proof fn law_what_decides_on_the_files(
    check: Verifying,
    facts: MachineFacts,
    entries: Result<Vec<Entry>, String>,
    contents: Result<Vec<u8>, String>,
    attempted: Result<CommandOutput, String>,
)
    ensures
        check.stage == VerifyStage::FindingMachine ==> {
            let next = verify_next(check, Event::Machine(facts));
            let marks = machine_marks(check.variables, facts);
            &&& next is Ok <==> marks is Ok
            &&& next is Ok ==> next->Ok_0.stage == VerifyStage::ListingFiles && next->Ok_0.marks
                == marks->Ok_0
        },
        check.stage == VerifyStage::ListingFiles ==> {
            let next = verify_next(check, Event::Entries(entries));
            let files = regular_outcome(known_entries(entries));
            &&& next is Ok <==> files is Ok
            &&& next is Ok ==> next->Ok_0.files == files->Ok_0 && next->Ok_0.clean == 0
                && next->Ok_0.stage == (if files->Ok_0.len() > 0 {
                VerifyStage::ReadingFile
            } else {
                VerifyStage::Done
            })
        },
        check.stage == VerifyStage::ReadingFile && check.clean < check.files.len() ==> {
            let next = verify_next(check, Event::Contents(contents));
            let file = check.files[check.clean as int];
            &&& next is Ok <==> contents is Ok && markers_outcome(
                contents->Ok_0@,
                check.marks,
                file,
                "contents"@,
            ) is Ok
            &&& next is Ok ==> next->Ok_0.stage == VerifyStage::ListingAttributes
                && next->Ok_0.clean == check.clean
        },
        check.stage == VerifyStage::ListingAttributes && check.clean < check.files.len() ==> {
            let next = verify_next(check, Event::Ran(attempted));
            let names = attributes_of(check.files[check.clean as int], attempt(attempted));
            &&& next is Ok <==> names is Ok
            &&& next is Ok ==> next->Ok_0.attributes == names->Ok_0 && next->Ok_0.plain == 0
            &&& next is Ok && names->Ok_0.len() > 0 ==> next->Ok_0.stage
                == VerifyStage::ReadingAttribute && next->Ok_0.clean == check.clean
            &&& next is Ok && names->Ok_0.len() == 0 ==> is_past_file(check, next->Ok_0)
        },
        check.stage == VerifyStage::ReadingAttribute && check.clean < check.files.len() && check.plain
            < check.attributes.len() ==> {
            let next = verify_next(check, Event::Ran(attempted));
            let file = check.files[check.clean as int];
            &&& next is Ok <==> (attempted matches Ok(output) && output.success && markers_outcome(
                output.stdout@,
                check.marks,
                file,
                "extended attributes"@,
            ) is Ok)
            &&& next is Ok && check.plain + 1 < check.attributes.len() ==> next->Ok_0.stage
                == VerifyStage::ReadingAttribute && next->Ok_0.plain == check.plain + 1
                && next->Ok_0.clean == check.clean
            &&& next is Ok && check.plain + 1 == check.attributes.len() ==> is_past_file(
                check,
                next->Ok_0,
            )
        },
{
}

/// Whether a verification has gone on from its file: to the next one, or, after the last, to its end,
/// where the number of files is reported.
pub open spec fn is_past_file(check: Verifying, next: Verifying) -> bool {
    &&& next.clean == check.clean + 1
    &&& next.files == check.files
    &&& next.clean < check.files.len() ==> next.stage == VerifyStage::ReadingFile
    &&& next.clean >= check.files.len() ==> next.stage == VerifyStage::Done && next.reports == seq![
        "verified release hygiene across "@ + decimal(check.files.len())
            + " regular bundle files and their extended attributes"@,
    ]
}

/// A verification that is done tells of the whole bundle last.
pub proof fn law_done_verifications_tell_of_the_bundle(check: Verifying)
    ensures
        told(check) == check.reports + seq![
            "verified "@ + lossy(check.app) + " with "@ + decimal(check.attributions)
                + " crate attributions"@,
        ],
{
    assert(told(check) =~= check.reports + seq![
        "verified "@ + lossy(check.app) + " with "@ + decimal(check.attributions)
            + " crate attributions"@,
    ]);
}

/// A file that holds a mark is refused with whether it was found in the contents or in the extended
/// attributes of the file.
pub proof fn law_marked_files_are_told(
    check: Verifying,
    contents: Vec<u8>,
    attempted: Result<CommandOutput, String>,
    m: int,
)
    requires
        check.clean < check.files.len(),
        0 <= m < check.marks.len(),
        check.marks[m].0.len() > 0,
        forall|k: int| 0 <= k < m ==> (#[trigger] check.marks[k]).0.len() == 0,
    ensures
        ({
            let file = check.files[check.clean as int];
            &&& check.stage == VerifyStage::ReadingFile && occurs(contents@, check.marks[m].0)
                ==> verify_next(check, Event::Contents(Ok(contents))) == Err::<
                Verifying,
                Seq<char>,
            >(
                "bundle file "@ + "contents"@ + " contain "@ + check.marks[m].1 + ": "@ + lossy(file),
            )
            &&& check.stage == VerifyStage::ReadingAttribute && check.plain < check.attributes.len() && (
            attempted matches Ok(output) && output.success && occurs(
                output.stdout@,
                check.marks[m].0,
            )) ==> verify_next(check, Event::Ran(attempted)) == Err::<Verifying, Seq<char>>(
                "bundle file "@ + "extended attributes"@ + " contain "@ + check.marks[m].1 + ": "@
                    + lossy(file),
            )
        }),
{
    let file = check.files[check.clean as int];
    if occurs(contents@, check.marks[m].0) {
        law_first_marker_is_named(contents@, check.marks, file, "contents"@, m);
    }
    if attempted is Ok && occurs(attempted->Ok_0.stdout@, check.marks[m].0) {
        law_first_marker_is_named(
            attempted->Ok_0.stdout@,
            check.marks,
            file,
            "extended attributes"@,
            m,
        );
    }
}

/// Where no file is left, nothing more is read.
pub proof fn law_verifications_without_files_ask_for_nothing(check: Verifying)
    requires
        check.clean >= check.files.len(),
        check.stage == VerifyStage::ReadingFile || check.stage == VerifyStage::ListingAttributes
            || check.stage == VerifyStage::ReadingAttribute,
    ensures
        verify_action(check) == Act::Finish,
{
}

} // verus!
