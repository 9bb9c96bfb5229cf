//! What a bundle must show before it is signed or notarized.

use vstd::prelude::*;
use vstd::utf8::encode_utf8;

use crate::bundle::{
    bundled_executable, check_info, check_legal_files, dictionary_in, executable_path,
    executables_outcome, info_outcome, legal_outcome, match_executables, read_dictionary,
    ExecutableFacts, ExecutableMatch, LegalFacts, INFO,
};
use crate::bytes::read;
use crate::command::{attempt, CommandOutput};
use crate::configuration::{
    files_outcome, scan_outcome, scan_release_configuration, CargoConfiguration, Configuration,
};
use crate::encoding::{lossy, lossy_text};
use crate::environment::{
    ambient_outcome, cargo_home_of, home_of, parent_environment_value, parent_value,
    reject_ambient_release_environment, value_of, value_outcome, Environment,
};
use crate::failure::{outcome, text_outcome, Failure};
use crate::manifest::{host_outcome, manifest_metadata, read_text, root_metadata, TargetContext};
use crate::path::{join_text, joined};
use crate::property_list::{entries, Item};
use crate::rustflags::{
    ambient_flags, codegen_outcome, reject_profile_codegen_rustflags, release_rustflags,
};
use crate::text::{join2, texts};
use crate::walk::{find_files, found_files, Visit};

verus! {

/// What a build depends on, as it was found.
#[derive(Debug)]
pub struct SettingsFacts {
    /// What reading the manifest gave.
    pub manifest: Result<String, String>,
    pub environment: Environment,
    /// The number of this process.
    pub process: String,
    /// What the commands for the parent of this process, and for the environment of that, gave.
    pub parent: Result<CommandOutput, String>,
    pub parent_environment: Result<CommandOutput, String>,
    /// What the commands for the version and for the configuration of the compiler gave.
    pub version: Result<CommandOutput, String>,
    pub cfg: Result<CommandOutput, String>,
    /// What resolving the repository gave.
    pub root: Result<Vec<u8>, String>,
    /// What visiting the configuration files gave, in the order in which the walk asks for them.
    pub visits: Vec<Visit>,
}

/// The flags that the environment sets.
pub open spec fn environment_flags(variables: Seq<(Seq<u8>, Seq<u8>)>) -> Seq<Seq<u8>> {
    ambient_flags(
        value_of(variables, "CARGO_ENCODED_RUSTFLAGS"@),
        value_of(variables, "RUSTFLAGS"@),
    )
}

/// The flags that the environment sets.
pub fn ambient_release_rustflags(environment: &Environment) -> (flags: Vec<Vec<u8>>)
    ensures
        crate::bytes::byte_strings(flags@) == environment_flags(environment@),
{
    release_rustflags(environment.get("CARGO_ENCODED_RUSTFLAGS"), environment.get("RUSTFLAGS"))
}

/// The deployment target in the environment of the parent process.
pub open spec fn parent_target(facts: SettingsFacts) -> Result<Option<Seq<u8>>, Seq<char>> {
    parent_value(
        facts.process@,
        attempt(facts.parent),
        attempt(facts.parent_environment),
        "MACOSX_DEPLOYMENT_TARGET"@,
    )
}

/// The deployment target in the environment of the parent process.
pub fn find_parent_target(facts: &SettingsFacts) -> (result: Result<Option<Vec<u8>>, Failure>)
    ensures
        value_outcome(result) == parent_target(*facts),
{
    parent_environment_value(
        facts.process.as_str(),
        &facts.parent,
        &facts.parent_environment,
        "MACOSX_DEPLOYMENT_TARGET",
    )
}

/// The configuration files of the repository.
pub open spec fn configuration_files(facts: SettingsFacts, home: Seq<u8>) -> Result<
    Seq<Configuration>,
    Seq<char>,
> {
    found_files(
        read(facts.root),
        cargo_home_of(facts.environment@, home),
        facts.visits@,
    )
}

/// The configuration files of the repository.
pub fn find_configuration_files(facts: &SettingsFacts, home: &[u8]) -> (result: Result<
    Vec<CargoConfiguration>,
    Failure,
>)
    ensures
        files_outcome(result) == configuration_files(*facts, home@),
{
    let cargo_home = facts.environment.cargo_home(home);
    find_files(&facts.root, cargo_home.as_slice(), &facts.visits)
}

/// What the settings of a build are told.
pub open spec fn settings_outcome(root: Seq<u8>, facts: SettingsFacts) -> Result<(), Seq<char>> {
    let variables = facts.environment@;
    match root_metadata(root, read_text(facts.manifest)) {
        Err(refusal) => Err(refusal),
        Ok(metadata) => match ambient_outcome(
            metadata.minimum_system_version,
            variables,
            parent_target(facts),
        ) {
            Err(refusal) => Err(refusal),
            Ok(()) => match home_of(variables) {
                Err(refusal) => Err(refusal),
                Ok(home) => match codegen_outcome(environment_flags(variables)) {
                    Err(refusal) => Err(refusal),
                    Ok(()) => match host_outcome(attempt(facts.version), attempt(facts.cfg)) {
                        Err(refusal) => Err(refusal),
                        Ok(target) => match scan_outcome(
                            variables,
                            configuration_files(facts, home),
                            target,
                        ) {
                            Err(refusal) => Err(refusal),
                            Ok(_) => Ok(()),
                        },
                    },
                },
            },
        },
    }
}

/// Refuses the settings of a build that change what a release is.
pub fn check_settings(root: &[u8], facts: &SettingsFacts) -> (result: Result<(), Failure>)
    ensures
        outcome(result) == settings_outcome(root@, *facts),
{
    let metadata = match manifest_metadata(root, &facts.manifest) {
        Ok(metadata) => metadata,
        Err(refusal) => return Err(refusal),
    };
    match reject_ambient_release_environment(
        metadata.minimum_system_version.as_str(),
        &facts.environment,
        &find_parent_target(facts),
    ) {
        Ok(()) => {},
        Err(refusal) => return Err(refusal),
    }
    let home = match facts.environment.home() {
        Ok(home) => home,
        Err(refusal) => return Err(refusal),
    };
    let flags = ambient_release_rustflags(&facts.environment);
    match reject_profile_codegen_rustflags(&flags) {
        Ok(()) => {},
        Err(refusal) => return Err(refusal),
    }
    let target = match TargetContext::host(&facts.version, &facts.cfg) {
        Ok(target) => target,
        Err(refusal) => return Err(refusal),
    };
    let files = find_configuration_files(facts, home.as_slice());
    match scan_release_configuration(&facts.environment, &files, &target) {
        Ok(_) => Ok(()),
        Err(refusal) => Err(refusal),
    }
}

/// The release artifact that the executable in the app must match, with what that needs.
pub struct ExpectedExecutable<'a> {
    pub path: &'a [u8],
    pub settings: &'a SettingsFacts,
    pub executables: &'a ExecutableFacts,
}

/// What `verify_bundled_executable` returns: the sentence that reports success, or a refusal.
pub open spec fn bundled_outcome(
    root: Seq<u8>,
    app: Seq<u8>,
    info: Seq<(Seq<char>, Item)>,
    release_executable: Seq<u8>,
    settings: SettingsFacts,
    executables: ExecutableFacts,
    closeness: ExecutableMatch,
) -> Result<Seq<char>, Seq<char>> {
    match settings_outcome(root, settings) {
        Err(refusal) => Err(refusal),
        Ok(()) => match executable_path(app, info) {
            Err(refusal) => Err(refusal),
            Ok(path) => executables_outcome(path, release_executable, executables, closeness),
        },
    }
}

/// Refuses an app whose executable is not that of the release artifact, or that comes out of a build
/// whose settings change what a release is.
pub fn verify_bundled_executable(
    root: &[u8],
    app: &[u8],
    dictionary: &plist::Dictionary,
    expected: &ExpectedExecutable,
    closeness: ExecutableMatch,
) -> (result: Result<String, Failure>)
    ensures
        text_outcome(result) == bundled_outcome(
            root@,
            app@,
            entries(*dictionary),
            expected.path@,
            *expected.settings,
            *expected.executables,
            closeness,
        ),
{
    match check_settings(root, expected.settings) {
        Ok(()) => {},
        Err(refusal) => return Err(refusal),
    }
    match bundled_executable(app, dictionary) {
        Ok(path) => match_executables(
            path.as_slice(),
            expected.path,
            expected.executables,
            closeness,
        ),
        Err(refusal) => Err(refusal),
    }
}

/// A bundle, as it was found.
#[derive(Debug)]
pub struct BundleFacts {
    /// What reading the manifest gave.
    pub manifest: Result<String, String>,
    /// What reading the property list of the app gave.
    pub info: Result<Vec<u8>, String>,
    pub legal: LegalFacts,
}

/// What an accepted bundle is reported with.
#[derive(Debug)]
pub struct BundleReport {
    /// The number of crates that its notices attribute.
    pub attributions: u64,
    /// The sentences that report the checks.
    pub reports: Vec<String>,
}

/// The model of a `BundleReport`.
#[verifier::ext_equal]
pub struct Report {
    pub attributions: nat,
    pub reports: Seq<Seq<char>>,
}

impl View for BundleReport {
    type V = Report;

    open spec fn view(&self) -> Report {
        Report { attributions: self.attributions as nat, reports: texts(self.reports@) }
    }
}

/// A result with a report replaced by its model, and its refusal by its text.
pub open spec fn report_outcome(result: Result<BundleReport, Failure>) -> Result<
    Report,
    Seq<char>,
> {
    match result {
        Ok(report) => Ok(report@),
        Err(refusal) => Err(refusal@),
    }
}

/// The property list of the app, by what reading it gave.
pub open spec fn app_info(app: Seq<u8>, info: Result<Seq<u8>, Seq<char>>) -> Result<
    Seq<(Seq<char>, Item)>,
    Seq<char>,
> {
    dictionary_in(
        info,
        lossy(joined(app, encode_utf8(INFO@))) + " is not a plist dictionary"@,
    )
}

/// The sentences that report the match of the executables, where one is expected.
pub open spec fn expected_outcome(
    root: Seq<u8>,
    app: Seq<u8>,
    info: Seq<(Seq<char>, Item)>,
    expected: Option<ExpectedExecutable>,
) -> Result<Seq<Seq<char>>, Seq<char>> {
    match expected {
        None => Ok(Seq::empty()),
        Some(expected) => match bundled_outcome(
            root,
            app,
            info,
            expected.path@,
            *expected.settings,
            *expected.executables,
            ExecutableMatch::Exact,
        ) {
            Err(refusal) => Err(refusal),
            Ok(report) => Ok(seq![report]),
        },
    }
}

/// What `verify_bundle` returns.
pub open spec fn bundle_outcome(
    root: Seq<u8>,
    app: Seq<u8>,
    facts: BundleFacts,
    expected: Option<ExpectedExecutable>,
) -> Result<Report, Seq<char>> {
    match root_metadata(root, read_text(facts.manifest)) {
        Err(refusal) => Err(refusal),
        Ok(metadata) => match app_info(app, read(facts.info)) {
            Err(refusal) => Err(refusal),
            Ok(info) => match info_outcome(joined(app, encode_utf8(INFO@)), info, metadata) {
                Err(refusal) => Err(refusal),
                Ok(()) => match expected_outcome(root, app, info, expected) {
                    Err(refusal) => Err(refusal),
                    Ok(reports) => match legal_outcome(root, app, facts.legal) {
                        Err(refusal) => Err(refusal),
                        Ok(attributions) => Ok(Report { attributions, reports }),
                    },
                },
            },
        },
    }
}

/// Refuses an app whose property list, license or notices are not those of the repository, or, where
/// one is expected, whose executable is not the release artifact byte for byte.
pub fn verify_bundle(
    root: &[u8],
    app: &[u8],
    facts: &BundleFacts,
    expected: Option<&ExpectedExecutable>,
) -> (result: Result<BundleReport, Failure>)
    ensures
        report_outcome(result) == bundle_outcome(
            root@,
            app@,
            *facts,
            match expected {
                Some(expected) => Some(*expected),
                None => None,
            },
        ),
{
    let metadata = match manifest_metadata(root, &facts.manifest) {
        Ok(metadata) => metadata,
        Err(refusal) => return Err(refusal),
    };
    let path = join_text(app, INFO);
    let otherwise = join2(lossy_text(path.as_slice()).as_str(), " is not a plist dictionary");
    let dictionary = match read_dictionary(&facts.info, otherwise.as_str()) {
        Ok(dictionary) => dictionary,
        Err(refusal) => return Err(refusal),
    };
    match check_info(path.as_slice(), &dictionary, &metadata) {
        Ok(()) => {},
        Err(refusal) => return Err(refusal),
    }
    let mut reports: Vec<String> = Vec::new();
    assert(texts(reports@) == Seq::<Seq<char>>::empty());
    match expected {
        Some(expected) => match verify_bundled_executable(
            root,
            app,
            &dictionary,
            expected,
            ExecutableMatch::Exact,
        ) {
            Ok(report) => {
                let ghost text = report@;
                reports.push(report);
                assert(texts(reports@) == seq![text]);
            },
            Err(refusal) => return Err(refusal),
        },
        None => {},
    }
    match check_legal_files(root, app, &facts.legal) {
        Ok(attributions) => Ok(BundleReport { attributions, reports }),
        Err(refusal) => Err(refusal),
    }
}

/// The settings of a build are accepted where, and only where, the manifest, the environment, the home,
/// the flags in the environment, the host and the configuration files are.
pub proof fn law_settings_that_are_accepted(root: Seq<u8>, facts: SettingsFacts)
    ensures
        ({
            let variables = facts.environment@;
            let metadata = root_metadata(root, read_text(facts.manifest));
            let host = host_outcome(attempt(facts.version), attempt(facts.cfg));
            settings_outcome(root, facts) is Ok <==> {
                &&& metadata is Ok
                &&& ambient_outcome(
                    metadata->Ok_0.minimum_system_version,
                    variables,
                    parent_value(
                        facts.process@,
                        attempt(facts.parent),
                        attempt(facts.parent_environment),
                        "MACOSX_DEPLOYMENT_TARGET"@,
                    ),
                ) is Ok
                &&& home_of(variables) is Ok
                &&& codegen_outcome(
                    ambient_flags(
                        value_of(variables, "CARGO_ENCODED_RUSTFLAGS"@),
                        value_of(variables, "RUSTFLAGS"@),
                    ),
                ) is Ok
                &&& host is Ok
                &&& scan_outcome(
                    variables,
                    found_files(
                        read(facts.root),
                        cargo_home_of(variables, home_of(variables)->Ok_0),
                        facts.visits@,
                    ),
                    host->Ok_0,
                ) is Ok
            }
        }),
{
}

/// The executable in an app is accepted where, and only where, the settings are, the property list names
/// one, and it matches the release artifact as closely as is asked for.
pub proof fn law_bundled_executables_that_are_accepted(
    root: Seq<u8>,
    app: Seq<u8>,
    info: Seq<(Seq<char>, Item)>,
    release_executable: Seq<u8>,
    settings: SettingsFacts,
    executables: ExecutableFacts,
    closeness: ExecutableMatch,
)
    ensures
        bundled_outcome(
            root,
            app,
            info,
            release_executable,
            settings,
            executables,
            closeness,
        ) is Ok <==> settings_outcome(root, settings) is Ok && executable_path(app, info) is Ok
            && executables_outcome(
            executable_path(app, info)->Ok_0,
            release_executable,
            executables,
            closeness,
        ) is Ok,
{
}

/// A bundle is accepted where, and only where, its property list can be read and is accepted for the
/// manifest, its license and notices are accepted, and, where an executable is expected, the bundled
/// one is that one byte for byte. Its attributions are then counted.
pub proof fn law_bundles_that_are_accepted(
    root: Seq<u8>,
    app: Seq<u8>,
    facts: BundleFacts,
    expected: Option<ExpectedExecutable>,
)
    ensures
        ({
            let metadata = root_metadata(root, read_text(facts.manifest));
            let place = joined(app, encode_utf8("Contents/Info.plist"@));
            let info = dictionary_in(
                read(facts.info),
                lossy(place) + " is not a plist dictionary"@,
            );
            let bundle = bundle_outcome(root, app, facts, expected);
            &&& bundle is Ok <==> {
                &&& metadata is Ok
                &&& info is Ok
                &&& info_outcome(place, info->Ok_0, metadata->Ok_0) is Ok
                &&& expected is Some ==> bundled_outcome(
                    root,
                    app,
                    info->Ok_0,
                    expected->Some_0.path@,
                    *expected->Some_0.settings,
                    *expected->Some_0.executables,
                    ExecutableMatch::Exact,
                ) is Ok
                &&& legal_outcome(root, app, facts.legal) is Ok
            }
            &&& bundle is Ok ==> legal_outcome(root, app, facts.legal) == Ok::<nat, Seq<char>>(
                bundle->Ok_0.attributions,
            ) && bundle->Ok_0.reports.len() == (if expected is Some {
                1nat
            } else {
                0nat
            })
        }),
{
}

} // verus!
