//! The release build: its environment, its flags, its commands.

use vstd::prelude::*;
use vstd::utf8::encode_utf8;

use crate::bytes::{append, byte_strings, find_byte, owned, read, same_bytes};
use crate::command::{
    attempt, call, command_output, completed, with, with_text, with_variable, Call, CommandOutput,
    Invocation, Output,
};
use crate::configuration::{scan_outcome, scan_release_configuration, Release, ReleaseConfiguration};
use crate::documents::{toml_list, toml_list_text};
use crate::encoding::{decode, decoded, lossy, lossy_text, quoted, quoted_text};
use crate::environment::{
    ambient_outcome, cargo_home_of, home_of, reject_ambient_release_environment, target_of,
    value_of, Environment,
};
use crate::failure::{failure, outcome, text_outcome, Failure};
use crate::manifest::{
    host_outcome, manifest_metadata, read_text, root_metadata, toolchain_outcome, verify_toolchain,
    TargetContext,
};
use crate::path::{components, is_same_place, join_text, joined, same_place};
use crate::pipeline::Event;
use crate::release::{
    ambient_release_rustflags, configuration_files, environment_flags, find_configuration_files,
    find_parent_target, parent_target, SettingsFacts,
};
use crate::rustflags::{codegen_outcome, reject_profile_codegen_rustflags};
use crate::text::{
    chars_of, find_last, join2, join3, join4, join5, last_occurrence, law_last_occurrence_is_last,
    law_splits_at_every_separator, occurs_at, spells, split, text_of, texts, trim, trimmed,
};

verus! {

/// The packager that releases are made with.
pub const PACKAGER_VERSION: &'static str = "cargo-packager 0.11.8";

/// The tool that generates the notices.
pub const ABOUT_VERSION: &'static str = "cargo-about 0.8.2";

/// Which profile is packaged.
#[derive(Clone, Copy, Debug, PartialEq, Eq, Structural)]
pub enum PackageProfile {
    Release,
    Debug,
}

impl PackageProfile {
    /// Adds what selects the profile to a command of the packager.
    pub fn apply(self, command: Invocation) -> (result: Invocation)
        ensures
            result@ == (if self == PackageProfile::Release {
                with_text(command@, "--release"@)
            } else {
                command@
            }),
    {
        if self == PackageProfile::Release {
            command.text("--release")
        } else {
            command
        }
    }
}

/// What a release build starts from, before any directory is made.
#[derive(Debug)]
pub struct ReleasePlan {
    pub home: Vec<u8>,
    /// Cargo's home and target directory, as the environment gives them.
    pub cargo_home: Vec<u8>,
    pub target: Vec<u8>,
    pub configuration: ReleaseConfiguration,
    pub triple: String,
}

/// The model of a `ReleasePlan`.
#[verifier::ext_equal]
pub struct Plan {
    pub home: Seq<u8>,
    pub cargo_home: Seq<u8>,
    pub target: Seq<u8>,
    pub configuration: Release,
    pub triple: Seq<char>,
}

impl View for ReleasePlan {
    type V = Plan;

    open spec fn view(&self) -> Plan {
        Plan {
            home: self.home@,
            cargo_home: self.cargo_home@,
            target: self.target@,
            configuration: self.configuration@,
            triple: self.triple@,
        }
    }
}

/// A result with a plan replaced by its model, and its refusal by its text.
pub open spec fn plan_outcome(result: Result<ReleasePlan, Failure>) -> Result<Plan, Seq<char>> {
    match result {
        Ok(plan) => Ok(plan@),
        Err(refusal) => Err(refusal@),
    }
}

/// The sentence that reports the toolchain of a release build, once the environment is accepted.
pub open spec fn reported_toolchain(
    root: Seq<u8>,
    facts: SettingsFacts,
    toolchain: Result<Seq<char>, Seq<char>>,
) -> Result<Seq<char>, Seq<char>> {
    let variables = facts.environment@;
    match root_metadata(root, read_text(facts.manifest)) {
        Err(refusal) => Err(refusal),
        Ok(metadata) => match ambient_outcome(
            metadata.minimum_system_version,
            variables,
            parent_target(facts),
        ) {
            Err(refusal) => Err(refusal),
            Ok(()) => match home_of(variables) {
                Err(refusal) => Err(refusal),
                Ok(_) => toolchain_outcome(root, toolchain, attempt(facts.version)),
            },
        },
    }
}

/// What a release build starts from: the home directory and Cargo's directories, once the
/// environment, the toolchain and the configuration files are accepted.
pub open spec fn planned(
    root: Seq<u8>,
    facts: SettingsFacts,
    toolchain: Result<Seq<char>, Seq<char>>,
) -> Result<Plan, Seq<char>> {
    let variables = facts.environment@;
    match reported_toolchain(root, facts, toolchain) {
        Err(refusal) => Err(refusal),
        Ok(_) => match host_outcome(attempt(facts.version), attempt(facts.cfg)) {
            Err(refusal) => Err(refusal),
            Ok(target) => {
                let home = home_of(variables)->Ok_0;
                match scan_outcome(variables, configuration_files(facts, home), target) {
                    Err(refusal) => Err(refusal),
                    Ok(configuration) => Ok(
                        Plan {
                            home,
                            cargo_home: cargo_home_of(variables, home),
                            target: target_of(variables, root),
                            configuration,
                            triple: target.triple,
                        },
                    ),
                }
            },
        },
    }
}

/// The sentences that report the planning of a release build: the one on the toolchain, also where
/// what is looked at after it is refused.
pub open spec fn plan_reports(
    root: Seq<u8>,
    facts: SettingsFacts,
    toolchain: Result<Seq<char>, Seq<char>>,
) -> Seq<Seq<char>> {
    match reported_toolchain(root, facts, toolchain) {
        Ok(report) => seq![report],
        Err(_) => Seq::empty(),
    }
}

/// What a release build of the repository at `root` starts from. `toolchain` is what reading the
/// toolchain file gave. What is reported on the way is added to `reports`.
pub fn plan_release(
    root: &[u8],
    facts: &SettingsFacts,
    toolchain: &Result<String, String>,
    reports: &mut Vec<String>,
) -> (result: Result<ReleasePlan, Failure>)
    ensures
        plan_outcome(result) == planned(root@, *facts, read_text(*toolchain)),
        texts(final(reports)@) == texts(old(reports)@) + plan_reports(
            root@,
            *facts,
            read_text(*toolchain),
        ),
{
    let ghost first = texts(reports@);
    assert(first + Seq::<Seq<char>>::empty() == first);
    let metadata = match manifest_metadata(root, &facts.manifest) {
        Ok(metadata) => metadata,
        Err(refusal) => return Err(refusal),
    };
    match reject_ambient_release_environment(
        metadata.minimum_system_version.as_str(),
        &facts.environment,
        &find_parent_target(facts),
    ) {
        Ok(()) => {},
        Err(refusal) => return Err(refusal),
    }
    let home = match facts.environment.home() {
        Ok(home) => home,
        Err(refusal) => return Err(refusal),
    };
    let cargo_home = facts.environment.cargo_home(home.as_slice());
    match verify_toolchain(root, toolchain, &facts.version) {
        Ok(report) => {
            let ghost text = report@;
            reports.push(report);
            assert(texts(reports@) == first + seq![text]);
        },
        Err(refusal) => return Err(refusal),
    }
    let context = match TargetContext::host(&facts.version, &facts.cfg) {
        Ok(context) => context,
        Err(refusal) => return Err(refusal),
    };
    let files = find_configuration_files(facts, home.as_slice());
    let configuration = match scan_release_configuration(&facts.environment, &files, &context) {
        Ok(configuration) => configuration,
        Err(refusal) => return Err(refusal),
    };
    let target = facts.environment.target(root);
    let triple = context.triple().to_string();
    Ok(ReleasePlan { home, cargo_home, target, configuration, triple })
}

/// The directory that holds the aliases and the wrapper of a release build.
pub open spec fn alias_directory_in(root: Seq<u8>) -> Seq<u8> {
    joined(root, encode_utf8(".neo-release"@))
}

/// The directory that holds the aliases and the wrapper of a release build.
pub fn alias_directory(root: &[u8]) -> (path: Vec<u8>)
    ensures
        path@ == alias_directory_in(root@),
{
    join_text(root, ".neo-release")
}

/// The alias of Cargo's home.
pub open spec fn cargo_home_alias_in(root: Seq<u8>) -> Seq<u8> {
    joined(alias_directory_in(root), encode_utf8("cargo"@))
}

/// The alias of Cargo's target directory.
pub open spec fn target_alias_in(root: Seq<u8>) -> Seq<u8> {
    joined(alias_directory_in(root), encode_utf8("target"@))
}

/// The directory that holds the wrapper.
pub open spec fn wrapper_directory_in(root: Seq<u8>) -> Seq<u8> {
    joined(alias_directory_in(root), encode_utf8("bin"@))
}

/// The file that the wrapper is.
pub open spec fn wrapper_in(root: Seq<u8>) -> Seq<u8> {
    joined(wrapper_directory_in(root), encode_utf8("xcrun"@))
}

/// The alias of Cargo's home.
pub fn cargo_home_alias(root: &[u8]) -> (path: Vec<u8>)
    ensures
        path@ == cargo_home_alias_in(root@),
{
    join_text(alias_directory(root).as_slice(), "cargo")
}

/// The alias of Cargo's target directory.
pub fn target_alias(root: &[u8]) -> (path: Vec<u8>)
    ensures
        path@ == target_alias_in(root@),
{
    join_text(alias_directory(root).as_slice(), "target")
}

/// The directory that holds the wrapper.
pub fn wrapper_directory(root: &[u8]) -> (path: Vec<u8>)
    ensures
        path@ == wrapper_directory_in(root@),
{
    join_text(alias_directory(root).as_slice(), "bin")
}

/// What stands at the place of an alias.
#[derive(Debug)]
pub enum AliasState {
    /// A link, with what it links to or the text of the reason why that is not known.
    Link(Result<Vec<u8>, String>),
    /// Something that is no link.
    Other,
    Missing,
    /// Something that could not be looked at, with the text of the reason.
    Fault(String),
}

/// What is done about an alias.
#[derive(Clone, Copy, Debug, PartialEq, Eq, Structural)]
pub enum AliasAction {
    Keep,
    /// Remove the link and make it anew.
    Replace,
    Create,
}

/// What is done about an alias so that it links to `target`.
pub open spec fn alias_outcome(target: Seq<u8>, alias: Seq<u8>, state: AliasState) -> Result<
    AliasAction,
    Seq<char>,
> {
    match state {
        AliasState::Link(Ok(linked)) => if same_place(linked@, target) {
            Ok(AliasAction::Keep)
        } else {
            Ok(AliasAction::Replace)
        },
        AliasState::Link(Err(fault)) => Err(fault@),
        AliasState::Other => Err(
            "release build alias is not a symlink: "@ + lossy(alias),
        ),
        AliasState::Missing => Ok(AliasAction::Create),
        AliasState::Fault(fault) => Err(fault@),
    }
}

/// What is done about an alias so that it links to `target`. Nothing but a link is ever removed.
pub fn ensure_symlink(target: &[u8], alias: &[u8], state: &AliasState) -> (result: Result<
    AliasAction,
    Failure,
>)
    ensures
        outcome(result) == alias_outcome(target@, alias@, *state),
{
    match state {
        AliasState::Link(linked) => match linked {
            Ok(linked) => if is_same_place(linked.as_slice(), target) {
                Ok(AliasAction::Keep)
            } else {
                Ok(AliasAction::Replace)
            },
            Err(fault) => Err(failure(fault.as_str())),
        },
        AliasState::Other => {
            let shown = lossy_text(alias);
            Err(
                Failure {
                    message: join2("release build alias is not a symlink: ", shown.as_str()),
                },
            )
        },
        AliasState::Missing => Ok(AliasAction::Create),
        AliasState::Fault(fault) => Err(failure(fault.as_str())),
    }
}

/// The search path for programs with the wrapper's directory before all others.
pub open spec fn search_path(wrapper: Seq<u8>, existing: Option<Seq<u8>>) -> Result<
    Seq<u8>,
    Seq<char>,
> {
    if wrapper.contains(':' as u8) {
        Err("path segment contains separator `:`"@)
    } else {
        match existing {
            Some(existing) => Ok(wrapper.push(':' as u8) + existing),
            None => Ok(wrapper),
        }
    }
}

/// The search path for programs with the wrapper's directory before all others. A directory with a
/// colon in its path cannot be put there.
pub fn prepend_path(wrapper: &[u8], existing: Option<&[u8]>) -> (result: Result<Vec<u8>, Failure>)
    ensures
        crate::environment::path_outcome(result) == search_path(
            wrapper@,
            crate::text::piece(existing),
        ),
{
    let colon = find_byte(wrapper, 0, ':' as u8);
    proof {
        assert(wrapper@.skip(0) == wrapper@);
        crate::text::lemma_first_index_bounds(wrapper@, ':' as u8);
    }
    if colon < wrapper.len() {
        assert(wrapper@[colon as int] == ':' as u8);
        return Err(failure("path segment contains separator `:`"));
    }
    let mut path = owned(wrapper);
    match existing {
        Some(existing) => {
            path.push(':' as u8);
            append(&mut path, existing);
        },
        None => {},
    }
    Ok(path)
}

/// A flag that has the compiler write one path prefix for another.
pub open spec fn remap_flag(path: Seq<u8>, replacement: Seq<char>) -> Seq<u8> {
    encode_utf8("--remap-path-prefix="@) + path + encode_utf8("="@) + encode_utf8(replacement)
}

/// A flag that has the compiler write one path prefix for another.
fn remap(path: &[u8], replacement: &str) -> (flag: Vec<u8>)
    ensures
        flag@ == remap_flag(path@, replacement@),
{
    let mut flag = owned("--remap-path-prefix=".as_bytes());
    append(&mut flag, path);
    append(&mut flag, "=".as_bytes());
    append(&mut flag, replacement.as_bytes());
    flag
}

/// The flags that a release build is asked for: those of the repository, where flags for the target
/// would hide them, and those of the environment.
pub open spec fn requested_flags(plan: Plan, variables: Seq<(Seq<u8>, Seq<u8>)>) -> Seq<Seq<u8>> {
    if plan.configuration.matching {
        plan.configuration.flags + environment_flags(variables)
    } else {
        environment_flags(variables)
    }
}

/// The flags that keep the paths of this machine out of a release build.
pub open spec fn remap_flags(plan: Plan, root: Seq<u8>) -> Seq<Seq<u8>> {
    seq![
        remap_flag(plan.home, "/build"@),
        remap_flag(root, "/source"@),
        remap_flag(joined(alias_directory_in(root), encode_utf8("cargo"@)), "/cargo"@),
        remap_flag(joined(alias_directory_in(root), encode_utf8("target"@)), "/target"@),
    ]
}

/// Flags as texts, all of which must be valid.
pub open spec fn flag_texts(flags: Seq<Seq<u8>>) -> Option<Seq<Seq<char>>>
    decreases flags.len(),
{
    if flags.len() == 0 {
        Some(Seq::empty())
    } else {
        match flag_texts(flags.drop_last()) {
            None => None,
            Some(texts) => match decoded(flags.last()) {
                Ok(text) => Some(texts.push(text)),
                Err(_) => None,
            },
        }
    }
}

/// The setting that hands the flags of a release build to Cargo.
pub open spec fn flags_setting(
    plan: Plan,
    root: Seq<u8>,
    variables: Seq<(Seq<u8>, Seq<u8>)>,
) -> Result<Seq<char>, Seq<char>> {
    let requested = requested_flags(plan, variables);
    match codegen_outcome(requested) {
        Err(refusal) => Err(refusal),
        Ok(()) => match flag_texts(requested + remap_flags(plan, root)) {
            None => Err("release rustflags must contain valid Unicode"@),
            Some(texts) => Ok(
                (if plan.configuration.matching {
                    "target."@ + quoted(plan.triple) + ".rustflags"@
                } else {
                    "build.rustflags"@
                }) + "="@ + toml_list(texts),
            ),
        },
    }
}

proof fn lemma_flag_texts_stay(flags: Seq<Seq<u8>>, n: int)
    requires
        0 <= n <= flags.len(),
        flag_texts(flags.take(n)) is None,
    ensures
        flag_texts(flags) is None,
    decreases flags.len(),
{
    if n == flags.len() {
        assert(flags.take(n) == flags);
    } else {
        assert(flags.drop_last().take(n) == flags.take(n));
        lemma_flag_texts_stay(flags.drop_last(), n);
    }
}

/// Flags as texts.
fn texts_of_flags(flags: &Vec<Vec<u8>>) -> (result: Option<Vec<String>>)
    ensures
        match result {
            Some(found) => flag_texts(byte_strings(flags@)) == Some(texts(found@)),
            None => flag_texts(byte_strings(flags@)) is None,
        },
{
    let ghost all = byte_strings(flags@);
    let mut found: Vec<String> = Vec::new();
    let mut i: usize = 0;
    assert(all.take(0) == Seq::<Seq<u8>>::empty());
    assert(texts(found@) == Seq::<Seq<char>>::empty());
    while i < flags.len()
        invariant
            i <= flags@.len(),
            all == byte_strings(flags@),
            flag_texts(all.take(i as int)) == Some(texts(found@)),
        decreases flags@.len() - i,
    {
        let ghost before = texts(found@);
        proof {
            assert(all.take(i + 1).drop_last() == all.take(i as int));
            assert(all.take(i + 1).last() == flags@[i as int]@);
        }
        match decode(flags[i].as_slice()) {
            Ok(text) => {
                let ghost chars = text@;
                found.push(text);
                assert(texts(found@) == before.push(chars));
            },
            Err(_) => {
                proof {
                    lemma_flag_texts_stay(all, i + 1);
                }
                return None;
            },
        }
        i += 1;
    }
    assert(all.take(i as int) == all);
    Some(found)
}

/// The flags that a release build is asked for.
fn find_requested_flags(plan: &ReleasePlan, environment: &Environment) -> (flags: Vec<Vec<u8>>)
    ensures
        byte_strings(flags@) == requested_flags(plan@, environment@),
{
    let ambient = ambient_release_rustflags(environment);
    if !plan.configuration.has_matching_target_rustflags {
        return ambient;
    }
    let mut flags: Vec<Vec<u8>> = Vec::new();
    let own = &plan.configuration.in_tree_build_rustflags;
    let ghost first = byte_strings(own@);
    let ghost second = byte_strings(ambient@);
    let mut i: usize = 0;
    assert(byte_strings(flags@) == first.take(0));
    while i < own.len()
        invariant
            i <= own@.len(),
            first == byte_strings(own@),
            byte_strings(flags@) == first.take(i as int),
        decreases own@.len() - i,
    {
        let ghost before = byte_strings(flags@);
        flags.push(owned(own[i].as_slice()));
        assert(byte_strings(flags@) == before.push(first[i as int]));
        assert(first.take(i + 1) == first.take(i as int).push(first[i as int]));
        i += 1;
    }
    assert(first.take(i as int) == first);
    let mut j: usize = 0;
    assert(byte_strings(flags@) == first + second.take(0));
    while j < ambient.len()
        invariant
            j <= ambient@.len(),
            second == byte_strings(ambient@),
            byte_strings(flags@) == first + second.take(j as int),
        decreases ambient@.len() - j,
    {
        let ghost before = byte_strings(flags@);
        flags.push(owned(ambient[j].as_slice()));
        assert(byte_strings(flags@) == before.push(second[j as int]));
        assert(second.take(j + 1) == second.take(j as int).push(second[j as int]));
        j += 1;
    }
    assert(second.take(j as int) == second);
    flags
}

/// The setting that hands the flags of a release build to Cargo.
pub fn rustflags_setting(plan: &ReleasePlan, root: &[u8], environment: &Environment) -> (result: Result<
    String,
    Failure,
>)
    ensures
        text_outcome(result) == flags_setting(plan@, root@, environment@),
{
    let mut flags = find_requested_flags(plan, environment);
    match reject_profile_codegen_rustflags(&flags) {
        Ok(()) => {},
        Err(refusal) => return Err(refusal),
    }
    let ghost requested = byte_strings(flags@);
    flags.push(remap(plan.home.as_slice(), "/build"));
    flags.push(remap(root, "/source"));
    flags.push(remap(cargo_home_alias(root).as_slice(), "/cargo"));
    flags.push(remap(target_alias(root).as_slice(), "/target"));
    assert(byte_strings(flags@) == requested + remap_flags(plan@, root@));
    let found = match texts_of_flags(&flags) {
        Some(found) => found,
        None => return Err(failure("release rustflags must contain valid Unicode")),
    };
    let key = if plan.configuration.has_matching_target_rustflags {
        let triple = quoted_text(plan.triple.as_str());
        join3("target.", triple.as_str(), ".rustflags")
    } else {
        "build.rustflags".to_string()
    };
    let list = toml_list_text(found);
    Ok(join3(key.as_str(), "=", list.as_str()))
}

/// The environment that a release is built in.
#[derive(Debug)]
pub struct ReleaseBuildEnvironment {
    pub home: Vec<u8>,
    pub root: Vec<u8>,
    pub cargo_home: Vec<u8>,
    pub cargo_home_alias: Vec<u8>,
    pub target: Vec<u8>,
    pub target_alias: Vec<u8>,
    /// The search path for programs.
    pub path: Vec<u8>,
    /// The setting that hands the flags to Cargo.
    pub rustflags_config: String,
}

/// The model of a `ReleaseBuildEnvironment`.
#[verifier::ext_equal]
pub struct BuildEnvironment {
    pub home: Seq<u8>,
    pub root: Seq<u8>,
    pub cargo_home: Seq<u8>,
    pub cargo_home_alias: Seq<u8>,
    pub target: Seq<u8>,
    pub target_alias: Seq<u8>,
    pub path: Seq<u8>,
    pub rustflags_config: Seq<char>,
}

impl View for ReleaseBuildEnvironment {
    type V = BuildEnvironment;

    open spec fn view(&self) -> BuildEnvironment {
        BuildEnvironment {
            home: self.home@,
            root: self.root@,
            cargo_home: self.cargo_home@,
            cargo_home_alias: self.cargo_home_alias@,
            target: self.target@,
            target_alias: self.target_alias@,
            path: self.path@,
            rustflags_config: self.rustflags_config@,
        }
    }
}

/// A result with an environment replaced by its model, and its refusal by its text.
pub open spec fn environment_outcome(result: Result<ReleaseBuildEnvironment, Failure>) -> Result<
    BuildEnvironment,
    Seq<char>,
> {
    match result {
        Ok(environment) => Ok(environment@),
        Err(refusal) => Err(refusal@),
    }
}

/// The environment that a planned release is built in, with Cargo's directories resolved.
pub open spec fn build_environment(
    plan: Plan,
    root: Seq<u8>,
    variables: Seq<(Seq<u8>, Seq<u8>)>,
    cargo_home: Seq<u8>,
    target: Seq<u8>,
) -> Result<BuildEnvironment, Seq<char>> {
    let aliases = alias_directory_in(root);
    match search_path(joined(aliases, encode_utf8("bin"@)), value_of(variables, "PATH"@)) {
        Err(refusal) => Err(refusal),
        Ok(path) => match flags_setting(plan, root, variables) {
            Err(refusal) => Err(refusal),
            Ok(rustflags_config) => Ok(
                BuildEnvironment {
                    home: plan.home,
                    root,
                    cargo_home,
                    cargo_home_alias: joined(aliases, encode_utf8("cargo"@)),
                    target,
                    target_alias: joined(aliases, encode_utf8("target"@)),
                    path,
                    rustflags_config,
                },
            ),
        },
    }
}

/// A command with the setting and the variables of a release build.
pub open spec fn applied(environment: BuildEnvironment, command: Call) -> Call {
    let command = with_text(
        with_text(command, "--config"@),
        environment.rustflags_config,
    );
    let command = with_variable(command, "CARGO_HOME"@, Some(environment.cargo_home_alias));
    let command = with_variable(command, "CARGO_TARGET_DIR"@, Some(environment.target_alias));
    let command = with_variable(command, "NEO_RELEASE_HOME"@, Some(environment.home));
    let command = with_variable(command, "NEO_RELEASE_ROOT"@, Some(environment.root));
    let command = with_variable(command, "NEO_RELEASE_CARGO_HOME"@, Some(environment.cargo_home));
    let command = with_variable(
        command,
        "NEO_RELEASE_CARGO_ALIAS"@,
        Some(environment.cargo_home_alias),
    );
    let command = with_variable(command, "NEO_RELEASE_TARGET"@, Some(environment.target));
    let command = with_variable(
        command,
        "NEO_RELEASE_TARGET_ALIAS"@,
        Some(environment.target_alias),
    );
    let command = with_variable(command, "PATH"@, Some(environment.path));
    let command = with_variable(command, "CARGO_BUILD_RUSTFLAGS"@, None);
    let command = with_variable(command, "CARGO_ENCODED_RUSTFLAGS"@, None);
    with_variable(command, "RUSTFLAGS"@, None)
}

impl ReleaseBuildEnvironment {
    /// The environment that a planned release is built in. `cargo_home` and `target` are what the
    /// plan's directories resolve to.
    pub fn new(
        plan: &ReleasePlan,
        root: &[u8],
        environment: &Environment,
        cargo_home: &[u8],
        target: &[u8],
    ) -> (result: Result<Self, Failure>)
        ensures
            environment_outcome(result) == build_environment(
                plan@,
                root@,
                environment@,
                cargo_home@,
                target@,
            ),
    {
        let wrapper = wrapper_directory(root);
        let path = match prepend_path(wrapper.as_slice(), environment.get("PATH")) {
            Ok(path) => path,
            Err(refusal) => return Err(refusal),
        };
        let rustflags_config = match rustflags_setting(plan, root, environment) {
            Ok(setting) => setting,
            Err(refusal) => return Err(refusal),
        };
        Ok(
            ReleaseBuildEnvironment {
                home: owned(plan.home.as_slice()),
                root: owned(root),
                cargo_home: owned(cargo_home),
                cargo_home_alias: cargo_home_alias(root),
                target: owned(target),
                target_alias: target_alias(root),
                path,
                rustflags_config,
            },
        )
    }

    /// Adds the setting and the variables of a release build to a command of Cargo.
    pub fn apply(&self, command: Invocation) -> (result: Invocation)
        ensures
            result@ == applied(self@, command@),
    {
        let command = command.text("--config").text(self.rustflags_config.as_str());
        let command = command.set("CARGO_HOME", self.cargo_home_alias.as_slice());
        let command = command.set("CARGO_TARGET_DIR", self.target_alias.as_slice());
        let command = command.set("NEO_RELEASE_HOME", self.home.as_slice());
        let command = command.set("NEO_RELEASE_ROOT", self.root.as_slice());
        let command = command.set("NEO_RELEASE_CARGO_HOME", self.cargo_home.as_slice());
        let command = command.set("NEO_RELEASE_CARGO_ALIAS", self.cargo_home_alias.as_slice());
        let command = command.set("NEO_RELEASE_TARGET", self.target.as_slice());
        let command = command.set("NEO_RELEASE_TARGET_ALIAS", self.target_alias.as_slice());
        let command = command.set("PATH", self.path.as_slice());
        command.unset("CARGO_BUILD_RUSTFLAGS").unset("CARGO_ENCODED_RUSTFLAGS").unset("RUSTFLAGS")
    }
}

/// The command of a release build.
pub open spec fn release_build_call(environment: BuildEnvironment) -> Call {
    let command = applied(environment, call("cargo"@));
    let command = with_text(with_text(command, "build"@), "--locked"@);
    let command = with_text(with_text(command, "--package"@), "neo"@);
    with_text(
        with_text(command, "--release"@),
        "--message-format=json-render-diagnostics"@,
    )
}

/// The command of a release build.
pub fn release_build_command(environment: &ReleaseBuildEnvironment) -> (command: Invocation)
    ensures
        command@ == release_build_call(environment@),
{
    environment.apply(Invocation::new("cargo")).text("build").text("--locked").text(
        "--package",
    ).text("neo").text("--release").text("--message-format=json-render-diagnostics")
}

/// The command of a debug build.
pub open spec fn debug_build_call() -> Call {
    with_text(
        with_text(with_text(with_text(call("cargo"@), "build"@), "--locked"@), "--package"@),
        "neo"@,
    )
}

/// The command of a debug build.
pub fn debug_build_command() -> (command: Invocation)
    ensures
        command@ == debug_build_call(),
{
    Invocation::new("cargo").text("build").text("--locked").text("--package").text("neo")
}

/// The command of the packager, in the environment of a release build where there is one.
pub open spec fn packager_call(
    environment: Option<BuildEnvironment>,
    profile: PackageProfile,
) -> Call {
    let command = match environment {
        Some(environment) => applied(environment, call("cargo"@)),
        None => call("cargo"@),
    };
    let command = with_text(with_text(with_text(command, "packager"@), "--packages"@), "neo"@);
    if profile == PackageProfile::Release {
        with_text(command, "--release"@)
    } else {
        command
    }
}

/// The command of the packager.
pub fn packager_command(
    environment: Option<&ReleaseBuildEnvironment>,
    profile: PackageProfile,
) -> (command: Invocation)
    ensures
        command@ == packager_call(
            match environment {
                Some(environment) => Some(environment@),
                None => None,
            },
            profile,
        ),
{
    let command = Invocation::new("cargo");
    let command = match environment {
        Some(environment) => environment.apply(command),
        None => command,
    };
    profile.apply(command.text("packager").text("--packages").text("neo"))
}

/// The command that generates the notices.
pub open spec fn notices_call() -> Call {
    let command = with_text(with_text(call("cargo"@), "about"@), "generate"@);
    let command = with_text(with_text(command, "--locked"@), "--fail"@);
    let command = with_text(with_text(command, "-c"@), "packaging/licenses/about.toml"@);
    with_text(
        with_text(with_text(command, "packaging/licenses/notices.md.hbs"@), "-o"@),
        crate::bundle::NOTICES@,
    )
}

/// The command that generates the notices.
pub fn generate_notices() -> (command: Invocation)
    ensures
        command@ == notices_call(),
{
    Invocation::new("cargo").text("about").text("generate").text("--locked").text("--fail").text(
        "-c",
    ).text("packaging/licenses/about.toml").text("packaging/licenses/notices.md.hbs").text(
        "-o",
    ).text(crate::bundle::NOTICES)
}

/// The command that has a tool of Cargo tell its version.
pub open spec fn tool_version_call(subcommand: Seq<char>) -> Call {
    with_text(with_text(call("cargo"@), subcommand), "--version"@)
}

/// The command that has a tool of Cargo tell its version.
pub fn tool_version_command(subcommand: &str) -> (command: Invocation)
    ensures
        command@ == tool_version_call(subcommand@),
{
    Invocation::new("cargo").text(subcommand).text("--version")
}

/// What follows the last space of a text, or the text.
pub open spec fn after_last_space(text: Seq<char>) -> Seq<char> {
    let at = last_occurrence(text, " "@);
    if at >= 0 {
        text.skip(at + 1)
    } else {
        text
    }
}

/// What a tool is told, by what the command for its version gave.
pub open spec fn tool_outcome(
    subcommand: Seq<char>,
    expected: Seq<char>,
    version: Result<Output, Seq<char>>,
) -> Result<(), Seq<char>> {
    match completed(tool_version_call(subcommand), version) {
        Err(refusal) => Err(refusal),
        Ok(written) => match decoded(written) {
            Err(fault) => Err(fault),
            Ok(text) => if trim(text) == expected {
                Ok(())
            } else {
                Err(
                    expected + " is required, found "@ + quoted(trim(text))
                        + "; install it with `cargo install cargo-"@ + subcommand + " --version "@
                        + after_last_space(expected) + " --locked`"@,
                )
            },
        },
    }
}

/// What follows the last space of a text, or the text.
fn version_part(text: &str) -> (part: String)
    ensures
        part@ == after_last_space(text@),
{
    let chars = chars_of(text);
    proof {
        reveal_strlit(" ");
    }
    match find_last(chars.as_slice(), " ") {
        Some(at) => {
            let length = chars.len();
            let rest = vstd::slice::slice_subrange(chars.as_slice(), at + 1, length);
            assert(rest@ == chars@.skip(at + 1));
            text_of(rest)
        },
        None => text.to_string(),
    }
}

/// Refuses a tool of any other version than the expected one.
pub fn require_tool_version(
    subcommand: &str,
    expected: &str,
    version: &Result<CommandOutput, String>,
) -> (result: Result<(), Failure>)
    ensures
        outcome(result) == tool_outcome(subcommand@, expected@, attempt(*version)),
{
    let written = match command_output(&tool_version_command(subcommand), version) {
        Ok(written) => written,
        Err(refusal) => return Err(refusal),
    };
    let text = match decode(written) {
        Ok(text) => text,
        Err(fault) => return Err(failure(fault.as_str())),
    };
    let chars = chars_of(text.as_str());
    let actual = trimmed(chars.as_slice());
    if spells(actual, expected) {
        return Ok(());
    }
    let found = quoted_text(text_of(actual).as_str());
    let part = version_part(expected);
    let head = join5(
        expected,
        " is required, found ",
        found.as_str(),
        "; install it with `cargo install cargo-",
        subcommand,
    );
    Err(
        Failure {
            message: join4(head.as_str(), " --version ", part.as_str(), " --locked`"),
        },
    )
}

/// The wrapper of `xcrun`: it has the Metal compiler remap the paths of this machine, and has the
/// linker of Metal libraries run where its files lie.
pub const WRAPPER: &'static str = r#"#!/bin/sh
if [ "$#" -ge 3 ] && [ "$1" = "-sdk" ] && [ "$3" = "metal" ]; then
    exec /usr/bin/xcrun "$@" \
        "-ffile-prefix-map=$NEO_RELEASE_ROOT=/source" \
        "-fdebug-prefix-map=$NEO_RELEASE_ROOT=/source" \
        "-ffile-prefix-map=$NEO_RELEASE_HOME=/build" \
        "-fdebug-prefix-map=$NEO_RELEASE_HOME=/build" \
        "-ffile-prefix-map=$NEO_RELEASE_CARGO_HOME=/cargo" \
        "-fdebug-prefix-map=$NEO_RELEASE_CARGO_HOME=/cargo" \
        "-ffile-prefix-map=$NEO_RELEASE_CARGO_ALIAS=/cargo" \
        "-fdebug-prefix-map=$NEO_RELEASE_CARGO_ALIAS=/cargo" \
        "-ffile-prefix-map=$NEO_RELEASE_TARGET=/target" \
        "-fdebug-prefix-map=$NEO_RELEASE_TARGET=/target" \
        "-ffile-prefix-map=$NEO_RELEASE_TARGET_ALIAS=/target" \
        "-fdebug-prefix-map=$NEO_RELEASE_TARGET_ALIAS=/target"
fi
if [ "$#" -eq 6 ] && [ "$1" = "-sdk" ] && [ "$3" = "metallib" ] && [ "$5" = "-o" ] && [ "$(dirname "$4")" = "$(dirname "$6")" ]; then
    directory=$(dirname "$6") || exit 1
    input=$(basename "$4") || exit 1
    output=$(basename "$6") || exit 1
    cd "$directory" || exit 1
    exec /usr/bin/xcrun -sdk "$2" metallib "$input" -o "$output"
fi
exec /usr/bin/xcrun "$@"
"#;

/// The permission bits of the wrapper.
pub const WRAPPER_MODE: u32 = 0o755;

/// How far the wrapper has been prepared.
#[derive(Clone, Copy, Debug, PartialEq, Eq, Structural)]
pub enum WrapperState {
    /// Its directory is there; the file is read next.
    Reading,
    /// The file is written next.
    Writing,
    /// The metadata of the file is read next.
    Inspecting,
    /// The permission bits of the file are set next.
    MakingExecutable,
    Ready,
}

/// What a step was to do, as a refusal tells it.
pub open spec fn wrapper_step(state: WrapperState) -> Seq<char> {
    match state {
        WrapperState::Reading => "cannot read xcrun wrapper "@,
        WrapperState::Writing => "cannot write xcrun wrapper "@,
        WrapperState::Inspecting => "cannot inspect xcrun wrapper "@,
        WrapperState::MakingExecutable => "cannot make xcrun wrapper executable "@,
        WrapperState::Ready => ""@,
    }
}

/// The state after an event. The wrapper is written where it is not there or holds anything else, and
/// made executable in any case. An event that the state does not wait for changes nothing.
pub open spec fn wrapper_next(path: Seq<u8>, state: WrapperState, event: Event) -> Result<
    WrapperState,
    Seq<char>,
> {
    match (state, event) {
        (WrapperState::Reading, Event::Found(Err(fault))) => Err(
            wrapper_step(state) + lossy(path) + ": "@ + fault@,
        ),
        (WrapperState::Reading, Event::Found(Ok(None))) => Ok(WrapperState::Writing),
        (WrapperState::Reading, Event::Found(Ok(Some(contents)))) => if contents@
            == encode_utf8(WRAPPER@) {
            Ok(WrapperState::Inspecting)
        } else {
            Ok(WrapperState::Writing)
        },
        (WrapperState::Reading, Event::Done(_)) => Ok(state),
        (WrapperState::Ready, _) => Ok(state),
        (_, Event::Found(_)) => Ok(state),
        (_, Event::Done(Err(fault))) => Err(
            wrapper_step(state) + lossy(path) + ": "@ + fault@,
        ),
        (WrapperState::Writing, Event::Done(Ok(()))) => Ok(WrapperState::Inspecting),
        (WrapperState::Inspecting, Event::Done(Ok(()))) => Ok(
            WrapperState::MakingExecutable,
        ),
        (WrapperState::MakingExecutable, Event::Done(Ok(()))) => Ok(WrapperState::Ready),
        _ => Ok(state),
    }
}

/// The file that the wrapper is.
pub fn wrapper_path(directory: &[u8]) -> (path: Vec<u8>)
    ensures
        path@ == joined(directory@, encode_utf8("xcrun"@)),
{
    join_text(directory, "xcrun")
}

/// That a step failed.
fn wrapper_failure(step: &str, path: &[u8], fault: &str) -> (refusal: Failure)
    ensures
        refusal@ == step@ + lossy(path@) + ": "@ + fault@,
{
    let shown = lossy_text(path);
    Failure { message: join4(step, shown.as_str(), ": ", fault) }
}

/// The state of the wrapper at `path` after an event.
pub fn prepare_xcrun_wrapper(path: &[u8], state: WrapperState, event: &Event) -> (result:
    Result<WrapperState, Failure>)
    ensures
        outcome(result) == wrapper_next(path@, state, *event),
{
    match event {
        Event::Found(contents) => {
            if state != WrapperState::Reading {
                return Ok(state);
            }
            match contents {
                Err(fault) => Err(
                    wrapper_failure("cannot read xcrun wrapper ", path, fault.as_str()),
                ),
                Ok(None) => Ok(WrapperState::Writing),
                Ok(Some(contents)) => if same_bytes(contents.as_slice(), WRAPPER.as_bytes()) {
                    Ok(WrapperState::Inspecting)
                } else {
                    Ok(WrapperState::Writing)
                },
            }
        },
        Event::Done(done) => match state {
            WrapperState::Reading => Ok(state),
            WrapperState::Ready => Ok(state),
            WrapperState::Writing => match done {
                Ok(()) => Ok(WrapperState::Inspecting),
                Err(fault) => Err(
                    wrapper_failure("cannot write xcrun wrapper ", path, fault.as_str()),
                ),
            },
            WrapperState::Inspecting => match done {
                Ok(()) => Ok(WrapperState::MakingExecutable),
                Err(fault) => Err(
                    wrapper_failure("cannot inspect xcrun wrapper ", path, fault.as_str()),
                ),
            },
            WrapperState::MakingExecutable => match done {
                Ok(()) => Ok(WrapperState::Ready),
                Err(fault) => Err(
                    wrapper_failure("cannot make xcrun wrapper executable ", path, fault.as_str()),
                ),
            },
        },
        _ => Ok(state),
    }
}

/// The state after several events.
pub open spec fn wrapper_run(path: Seq<u8>, events: Seq<Event>) -> Result<
    WrapperState,
    Seq<char>,
>
    decreases events.len(),
{
    if events.len() == 0 {
        Ok(WrapperState::Reading)
    } else {
        match wrapper_run(path, events.drop_last()) {
            Err(refusal) => Err(refusal),
            Ok(state) => wrapper_next(path, state, events.last()),
        }
    }
}

/// Whether the file was found to be the wrapper, or was written.
pub open spec fn wrapper_in_place(path: Seq<u8>, events: Seq<Event>) -> bool {
    exists|i: int|
        0 <= i < events.len() && {
            ||| #[trigger] events[i] matches Event::Found(Ok(Some(contents)))
                && contents@ == encode_utf8(WRAPPER@)
            ||| events[i] matches Event::Done(Ok(())) && wrapper_run(path, events.take(i))
                == Ok::<WrapperState, Seq<char>>(WrapperState::Writing)
        }
}

/// A wrapper that is ready holds the script: it was found to hold it, or was written.
pub proof fn law_ready_wrapper_is_in_place(path: Seq<u8>, events: Seq<Event>)
    requires
        wrapper_run(path, events) matches Ok(state) && (state == WrapperState::Inspecting || state
            == WrapperState::MakingExecutable || state == WrapperState::Ready),
    ensures
        wrapper_in_place(path, events),
    decreases events.len(),
{
    let before = events.drop_last();
    let n = before.len() as int;
    let state = wrapper_run(path, before)->Ok_0;
    assert(events.take(n) == before);
    assert(events[n] == events.last());
    if state == WrapperState::Inspecting || state == WrapperState::MakingExecutable || state
        == WrapperState::Ready {
        law_ready_wrapper_is_in_place(path, before);
        let i = choose|i: int|
            0 <= i < before.len() && {
                ||| #[trigger] before[i] matches Event::Found(Ok(Some(contents)))
                    && contents@ == encode_utf8(WRAPPER@)
                ||| before[i] matches Event::Done(Ok(())) && wrapper_run(
                    path,
                    before.take(i),
                ) == Ok::<WrapperState, Seq<char>>(WrapperState::Writing)
            };
        assert(events[i] == before[i]);
        assert(events.take(i) == before.take(i));
    }
}

/// Nothing but a link is ever removed or replaced.
pub proof fn law_only_links_are_replaced(target: Seq<u8>, alias: Seq<u8>, state: AliasState)
    ensures
        alias_outcome(target, alias, state) == Ok::<AliasAction, Seq<char>>(AliasAction::Replace)
            ==> (state matches AliasState::Link(Ok(linked)) && !same_place(linked@, target)),
{
}

/// An accepted build remaps the home directory, the repository and Cargo's directories, and sets no
/// option of the release profile.
pub proof fn law_release_builds_are_remapped(
    plan: Plan,
    root: Seq<u8>,
    variables: Seq<(Seq<u8>, Seq<u8>)>,
)
    requires
        flags_setting(plan, root, variables) is Ok,
    ensures
        codegen_outcome(requested_flags(plan, variables)) is Ok,
        ({
            let flags = requested_flags(plan, variables) + remap_flags(plan, root);
            &&& flags.contains(remap_flag(plan.home, "/build"@))
            &&& flags.contains(remap_flag(root, "/source"@))
            &&& flags.contains(
                remap_flag(joined(alias_directory_in(root), encode_utf8("cargo"@)), "/cargo"@),
            )
            &&& flags.contains(
                remap_flag(joined(alias_directory_in(root), encode_utf8("target"@)), "/target"@),
            )
            &&& flag_texts(flags) is Some
        }),
{
    let requested = requested_flags(plan, variables);
    let flags = requested + remap_flags(plan, root);
    let n = requested.len() as int;
    assert(flags[n] == remap_flag(plan.home, "/build"@));
    assert(flags[n + 1] == remap_flag(root, "/source"@));
    assert(flags[n + 2] == remap_flag(
        joined(alias_directory_in(root), encode_utf8("cargo"@)),
        "/cargo"@,
    ));
    assert(flags[n + 3] == remap_flag(
        joined(alias_directory_in(root), encode_utf8("target"@)),
        "/target"@,
    ));
}

/// An alias is kept where it links to the place that it stands for, replaced where it links elsewhere,
/// and made where nothing is there. Anything else in its place is refused.
pub proof fn law_aliases_link_to_their_place(target: Seq<u8>, alias: Seq<u8>, state: AliasState)
    ensures
        alias_outcome(target, alias, state) == Ok::<AliasAction, Seq<char>>(AliasAction::Keep) <==> (
        state matches AliasState::Link(Ok(linked)) && components(linked@) == components(target)),
        alias_outcome(target, alias, state) == Ok::<AliasAction, Seq<char>>(AliasAction::Replace)
            <==> (state matches AliasState::Link(Ok(linked)) && components(linked@) != components(
            target,
        )),
        alias_outcome(target, alias, state) == Ok::<AliasAction, Seq<char>>(AliasAction::Create)
            <==> state is Missing,
        state is Other || state is Fault ==> alias_outcome(target, alias, state) is Err,
{
}

/// The search path has the directory of the wrapper in front and goes on as it was. With a colon in the
/// directory there is none.
pub proof fn law_the_wrapper_is_found_first(wrapper: Seq<u8>, existing: Seq<u8>)
    ensures
        wrapper.contains(58) ==> search_path(wrapper, Some(existing)) is Err && search_path(
            wrapper,
            None,
        ) is Err,
        !wrapper.contains(58) ==> search_path(wrapper, None) == Ok::<Seq<u8>, Seq<char>>(wrapper),
        !wrapper.contains(58) ==> search_path(wrapper, Some(existing)) == Ok::<Seq<u8>, Seq<char>>(
            wrapper + seq![58u8] + existing,
        ),
        !wrapper.contains(58) ==> split(
            search_path(wrapper, Some(existing))->Ok_0,
            58u8,
        ) == seq![wrapper] + split(existing, 58u8),
{
    if !wrapper.contains(58) {
        assert(wrapper.push(58u8) =~= wrapper + seq![58u8]);
        law_splits_at_every_separator(wrapper, 58u8, existing);
    }
}

/// Flags that are no valid text cannot be handed on; else each is handed on as the text that it is, in
/// its order.
pub proof fn law_every_flag_is_handed_on(flags: Seq<Seq<u8>>, i: int)
    ensures
        flag_texts(flags) is Some <==> forall|k: int|
            0 <= k < flags.len() ==> decoded(#[trigger] flags[k]) is Ok,
        flag_texts(flags) is Some ==> flag_texts(flags)->Some_0.len() == flags.len(),
        flag_texts(flags) is Some && 0 <= i < flags.len() ==> decoded(flags[i]) == Ok::<
            Seq<char>,
            Seq<char>,
        >(flag_texts(flags)->Some_0[i]),
    decreases flags.len(),
{
    if flags.len() > 0 {
        let rest = flags.drop_last();
        law_every_flag_is_handed_on(rest, i);
        assert forall|k: int| 0 <= k < rest.len() implies #[trigger] rest[k] == flags[k] by {}
        if flag_texts(flags) is Some {
            assert forall|k: int| 0 <= k < flags.len() implies decoded(#[trigger] flags[k]) is Ok by {
                if k < rest.len() {
                    assert(decoded(rest[k]) is Ok);
                }
            }
        }
        if forall|k: int| 0 <= k < flags.len() ==> decoded(#[trigger] flags[k]) is Ok {
            assert(decoded(flags[flags.len() - 1]) is Ok);
            assert forall|k: int| 0 <= k < rest.len() implies decoded(#[trigger] rest[k]) is Ok by {
                assert(decoded(flags[k]) is Ok);
            }
        }
    }
}

/// A release is built with the flags that were asked for, and those that write `/build` for the home
/// directory, `/source` for the repository, and `/cargo` and `/target` for the aliases of Cargo's
/// directories, in this order. The flags of the configuration files come first, where the setting is
/// that of the target. Flags that set the profile are refused.
pub proof fn law_flags_of_a_release(
    plan: Plan,
    root: Seq<u8>,
    variables: Seq<(Seq<u8>, Seq<u8>)>,
)
    ensures
        ({
            let from = |path: Seq<u8>, to: Seq<char>|
                encode_utf8("--remap-path-prefix="@) + path + encode_utf8("="@) + encode_utf8(to);
            let aliases = joined(root, encode_utf8(".neo-release"@));
            let requested = if plan.configuration.matching {
                plan.configuration.flags + environment_flags(variables)
            } else {
                environment_flags(variables)
            };
            let flags = requested + seq![
                from(plan.home, "/build"@),
                from(root, "/source"@),
                from(joined(aliases, encode_utf8("cargo"@)), "/cargo"@),
                from(joined(aliases, encode_utf8("target"@)), "/target"@),
            ];
            let setting = flags_setting(plan, root, variables);
            &&& setting is Ok <==> codegen_outcome(requested) is Ok && flag_texts(flags) is Some
            &&& setting is Ok && plan.configuration.matching ==> setting->Ok_0 == "target."@ + quoted(
                plan.triple,
            ) + ".rustflags"@ + "="@ + toml_list(flag_texts(flags)->Some_0)
            &&& setting is Ok && !plan.configuration.matching ==> setting->Ok_0
                == "build.rustflags"@ + "="@ + toml_list(flag_texts(flags)->Some_0)
        }),
{
    let from = |path: Seq<u8>, to: Seq<char>|
        encode_utf8("--remap-path-prefix="@) + path + encode_utf8("="@) + encode_utf8(to);
    let aliases = joined(root, encode_utf8(".neo-release"@));
    assert(remap_flags(plan, root) =~= seq![
        from(plan.home, "/build"@),
        from(root, "/source"@),
        from(joined(aliases, encode_utf8("cargo"@)), "/cargo"@),
        from(joined(aliases, encode_utf8("target"@)), "/target"@),
    ]);
}

/// A release is built in an environment with the home and the directories of its plan, the aliases in
/// the repository, and the search path with the wrapper in front.
pub proof fn law_environment_of_a_release(
    plan: Plan,
    root: Seq<u8>,
    variables: Seq<(Seq<u8>, Seq<u8>)>,
    cargo_home: Seq<u8>,
    target: Seq<u8>,
)
    ensures
        ({
            let aliases = joined(root, encode_utf8(".neo-release"@));
            let built = build_environment(plan, root, variables, cargo_home, target);
            &&& built is Ok <==> !joined(aliases, encode_utf8("bin"@)).contains(58) && flags_setting(
                plan,
                root,
                variables,
            ) is Ok
            &&& built is Ok ==> {
                let built = built->Ok_0;
                &&& built.home == plan.home
                &&& built.root == root
                &&& built.cargo_home == cargo_home
                &&& built.target == target
                &&& built.cargo_home_alias == joined(aliases, encode_utf8("cargo"@))
                &&& built.target_alias == joined(aliases, encode_utf8("target"@))
                &&& search_path(
                    joined(aliases, encode_utf8("bin"@)),
                    value_of(variables, "PATH"@),
                ) == Ok::<Seq<u8>, Seq<char>>(built.path)
                &&& flags_setting(plan, root, variables) == Ok::<Seq<char>, Seq<char>>(
                    built.rustflags_config,
                )
            }
        }),
{
}

/// Where the aliases and the wrapper of a release lie.
pub proof fn law_places_of_a_release(root: Seq<u8>)
    ensures
        cargo_home_alias_in(root) == joined(
            joined(root, encode_utf8(".neo-release"@)),
            encode_utf8("cargo"@),
        ),
        target_alias_in(root) == joined(
            joined(root, encode_utf8(".neo-release"@)),
            encode_utf8("target"@),
        ),
        wrapper_directory_in(root) == joined(
            joined(root, encode_utf8(".neo-release"@)),
            encode_utf8("bin"@),
        ),
        wrapper_in(root) == joined(wrapper_directory_in(root), encode_utf8("xcrun"@)),
{
}

/// A command of a release build is handed the setting of its flags, Cargo's directories by their aliases,
/// what the wrapper maps and the search path, and loses the variables that would add flags.
pub proof fn law_commands_of_a_release(environment: BuildEnvironment, command: Call)
    ensures
        applied(environment, command).program == command.program,
        applied(environment, command).arguments == command.arguments + seq![
            encode_utf8("--config"@),
            encode_utf8(environment.rustflags_config),
        ],
        applied(environment, command).variables == command.variables + seq![
            ("CARGO_HOME"@, Some(environment.cargo_home_alias)),
            ("CARGO_TARGET_DIR"@, Some(environment.target_alias)),
            ("NEO_RELEASE_HOME"@, Some(environment.home)),
            ("NEO_RELEASE_ROOT"@, Some(environment.root)),
            ("NEO_RELEASE_CARGO_HOME"@, Some(environment.cargo_home)),
            ("NEO_RELEASE_CARGO_ALIAS"@, Some(environment.cargo_home_alias)),
            ("NEO_RELEASE_TARGET"@, Some(environment.target)),
            ("NEO_RELEASE_TARGET_ALIAS"@, Some(environment.target_alias)),
            ("PATH"@, Some(environment.path)),
            ("CARGO_BUILD_RUSTFLAGS"@, None),
            ("CARGO_ENCODED_RUSTFLAGS"@, None),
            ("RUSTFLAGS"@, None),
        ],
{
    assert(applied(environment, command).arguments =~= command.arguments + seq![
        encode_utf8("--config"@),
        encode_utf8(environment.rustflags_config),
    ]);
    assert(applied(environment, command).variables =~= command.variables + seq![
        ("CARGO_HOME"@, Some(environment.cargo_home_alias)),
        ("CARGO_TARGET_DIR"@, Some(environment.target_alias)),
        ("NEO_RELEASE_HOME"@, Some(environment.home)),
        ("NEO_RELEASE_ROOT"@, Some(environment.root)),
        ("NEO_RELEASE_CARGO_HOME"@, Some(environment.cargo_home)),
        ("NEO_RELEASE_CARGO_ALIAS"@, Some(environment.cargo_home_alias)),
        ("NEO_RELEASE_TARGET"@, Some(environment.target)),
        ("NEO_RELEASE_TARGET_ALIAS"@, Some(environment.target_alias)),
        ("PATH"@, Some(environment.path)),
        ("CARGO_BUILD_RUSTFLAGS"@, None),
        ("CARGO_ENCODED_RUSTFLAGS"@, None),
        ("RUSTFLAGS"@, None),
    ]);
}

/// What Cargo is asked for: the build of the one package with the lock file as it is, for a release with
/// messages that can be read; its package; and the notices, from the template in the repository.
pub proof fn law_what_cargo_is_asked_for(
    environment: BuildEnvironment,
    profile: PackageProfile,
    subcommand: Seq<char>,
)
    ensures
        release_build_call(environment).arguments == seq![
            encode_utf8("--config"@),
            encode_utf8(environment.rustflags_config),
            encode_utf8("build"@),
            encode_utf8("--locked"@),
            encode_utf8("--package"@),
            encode_utf8("neo"@),
            encode_utf8("--release"@),
            encode_utf8("--message-format=json-render-diagnostics"@),
        ],
        release_build_call(environment).program == "cargo"@,
        release_build_call(environment).variables == applied(environment, call("cargo"@)).variables,
        debug_build_call().arguments == seq![
            encode_utf8("build"@),
            encode_utf8("--locked"@),
            encode_utf8("--package"@),
            encode_utf8("neo"@),
        ],
        debug_build_call().program == "cargo"@,
        packager_call(None, PackageProfile::Debug).arguments == seq![
            encode_utf8("packager"@),
            encode_utf8("--packages"@),
            encode_utf8("neo"@),
        ],
        packager_call(None, PackageProfile::Release).arguments == seq![
            encode_utf8("packager"@),
            encode_utf8("--packages"@),
            encode_utf8("neo"@),
            encode_utf8("--release"@),
        ],
        packager_call(Some(environment), profile).arguments == seq![
            encode_utf8("--config"@),
            encode_utf8(environment.rustflags_config),
        ] + packager_call(None, profile).arguments,
        packager_call(Some(environment), profile).variables == applied(
            environment,
            call("cargo"@),
        ).variables,
        packager_call(Some(environment), profile).program == "cargo"@,
        packager_call(None, profile).program == "cargo"@,
        packager_call(None, profile).variables.len() == 0,
        notices_call().program == "cargo"@,
        notices_call().arguments == seq![
            encode_utf8("about"@),
            encode_utf8("generate"@),
            encode_utf8("--locked"@),
            encode_utf8("--fail"@),
            encode_utf8("-c"@),
            encode_utf8("packaging/licenses/about.toml"@),
            encode_utf8("packaging/licenses/notices.md.hbs"@),
            encode_utf8("-o"@),
            encode_utf8("packaging/generated/THIRD-PARTY-NOTICES.md"@),
        ],
        tool_version_call(subcommand).program == "cargo"@,
        tool_version_call(subcommand).arguments == seq![
            encode_utf8(subcommand),
            encode_utf8("--version"@),
        ],
{
    assert(release_build_call(environment).arguments =~= seq![
        encode_utf8("--config"@),
        encode_utf8(environment.rustflags_config),
        encode_utf8("build"@),
        encode_utf8("--locked"@),
        encode_utf8("--package"@),
        encode_utf8("neo"@),
        encode_utf8("--release"@),
        encode_utf8("--message-format=json-render-diagnostics"@),
    ]);
    assert(debug_build_call().arguments =~= seq![
        encode_utf8("build"@),
        encode_utf8("--locked"@),
        encode_utf8("--package"@),
        encode_utf8("neo"@),
    ]);
    let plain = packager_call(None, PackageProfile::Debug);
    assert(plain.arguments =~= seq![
        encode_utf8("packager"@),
        encode_utf8("--packages"@),
        encode_utf8("neo"@),
    ]);
    assert(packager_call(None, PackageProfile::Release).arguments =~= seq![
        encode_utf8("packager"@),
        encode_utf8("--packages"@),
        encode_utf8("neo"@),
        encode_utf8("--release"@),
    ]);
    assert(packager_call(Some(environment), profile).arguments =~= seq![
        encode_utf8("--config"@),
        encode_utf8(environment.rustflags_config),
    ] + packager_call(None, profile).arguments);
    assert(notices_call().arguments =~= seq![
        encode_utf8("about"@),
        encode_utf8("generate"@),
        encode_utf8("--locked"@),
        encode_utf8("--fail"@),
        encode_utf8("-c"@),
        encode_utf8("packaging/licenses/about.toml"@),
        encode_utf8("packaging/licenses/notices.md.hbs"@),
        encode_utf8("-o"@),
        encode_utf8("packaging/generated/THIRD-PARTY-NOTICES.md"@),
    ]);
    assert(tool_version_call(subcommand).arguments =~= seq![
        encode_utf8(subcommand),
        encode_utf8("--version"@),
    ]);
}

/// A tool is accepted where, and only where, it succeeded and told the version that is asked for, with
/// nothing but white space around it.
pub proof fn law_tools_must_be_of_their_version(
    subcommand: Seq<char>,
    expected: Seq<char>,
    version: Result<Output, Seq<char>>,
)
    ensures
        tool_outcome(subcommand, expected, version) is Ok <==> (version matches Ok(output)
            && output.success && decoded(output.stdout) is Ok && trim(decoded(output.stdout)->Ok_0)
            == expected),
{
}

/// The version that is asked for is what stands behind the last space of a text.
pub proof fn law_versions_stand_behind_the_last_space(before: Seq<char>, version: Seq<char>)
    requires
        !version.contains(' '),
    ensures
        after_last_space(before.push(' ') + version) == version,
        after_last_space(version) == version,
{
    reveal_strlit(" ");
    let space = " "@;
    assert(space =~= seq![' ']);
    let text = before.push(' ') + version;
    let at = last_occurrence(text, space);
    let n = before.len() as int;
    assert(text.subrange(n, n + 1) =~= space);
    assert(occurs_at(text, space, n));
    law_last_occurrence_is_last(text, space, n);
    assert(text.subrange(at, at + 1)[0] == text[at]);
    if at > n {
        assert(text[at] == version[at - n - 1]);
        assert(version.contains(text[at]));
    }
    assert(text.skip(n + 1) =~= version);
    let own = last_occurrence(version, space);
    law_last_occurrence_is_last(version, space, own);
    if own >= 0 {
        assert(version.subrange(own, own + 1)[0] == version[own]);
        assert(version.contains(version[own]));
    }
}

/// The wrapper is written unless it was found with the very script, and made executable in any case. A
/// step that failed ends in a refusal.
pub proof fn law_wrappers_are_prepared_step_by_step(path: Seq<u8>, contents: Vec<u8>, fault: String)
    ensures
        wrapper_next(path, WrapperState::Reading, Event::Found(Ok(None))) == Ok::<
            WrapperState,
            Seq<char>,
        >(WrapperState::Writing),
        contents@ == encode_utf8(WRAPPER@) <==> wrapper_next(
            path,
            WrapperState::Reading,
            Event::Found(Ok(Some(contents))),
        ) == Ok::<WrapperState, Seq<char>>(WrapperState::Inspecting),
        contents@ != encode_utf8(WRAPPER@) <==> wrapper_next(
            path,
            WrapperState::Reading,
            Event::Found(Ok(Some(contents))),
        ) == Ok::<WrapperState, Seq<char>>(WrapperState::Writing),
        wrapper_next(path, WrapperState::Writing, Event::Done(Ok(()))) == Ok::<
            WrapperState,
            Seq<char>,
        >(WrapperState::Inspecting),
        wrapper_next(path, WrapperState::Inspecting, Event::Done(Ok(()))) == Ok::<
            WrapperState,
            Seq<char>,
        >(WrapperState::MakingExecutable),
        wrapper_next(path, WrapperState::MakingExecutable, Event::Done(Ok(()))) == Ok::<
            WrapperState,
            Seq<char>,
        >(WrapperState::Ready),
        wrapper_next(path, WrapperState::Reading, Event::Found(Err(fault))) == Err::<
            WrapperState,
            Seq<char>,
        >("cannot read xcrun wrapper "@ + lossy(path) + ": "@ + fault@),
        wrapper_next(path, WrapperState::Writing, Event::Done(Err(fault))) == Err::<
            WrapperState,
            Seq<char>,
        >("cannot write xcrun wrapper "@ + lossy(path) + ": "@ + fault@),
        wrapper_next(path, WrapperState::Inspecting, Event::Done(Err(fault))) == Err::<
            WrapperState,
            Seq<char>,
        >("cannot inspect xcrun wrapper "@ + lossy(path) + ": "@ + fault@),
        wrapper_next(path, WrapperState::MakingExecutable, Event::Done(Err(fault))) == Err::<
            WrapperState,
            Seq<char>,
        >("cannot make xcrun wrapper executable "@ + lossy(path) + ": "@ + fault@),
        WRAPPER_MODE == 493,
{
    assert(WRAPPER_MODE == 493);
}

/// A build is planned where, and only where, the manifest, the environment, the home, the toolchain, the
/// host and the configuration files are all accepted.
pub proof fn law_builds_that_are_planned(
    root: Seq<u8>,
    facts: SettingsFacts,
    toolchain: Result<Seq<char>, Seq<char>>,
)
    ensures
        ({
            let variables = facts.environment@;
            let metadata = root_metadata(root, read_text(facts.manifest));
            let host = host_outcome(attempt(facts.version), attempt(facts.cfg));
            let plan = planned(root, facts, toolchain);
            &&& plan is Ok <==> {
                &&& metadata is Ok
                &&& ambient_outcome(
                    metadata->Ok_0.minimum_system_version,
                    variables,
                    parent_target(facts),
                ) is Ok
                &&& home_of(variables) is Ok
                &&& toolchain_outcome(root, toolchain, attempt(facts.version)) is Ok
                &&& host is Ok
                &&& scan_outcome(
                    variables,
                    configuration_files(facts, home_of(variables)->Ok_0),
                    host->Ok_0,
                ) is Ok
            }
            &&& plan is Ok ==> {
                &&& home_of(variables) == Ok::<Seq<u8>, Seq<char>>(plan->Ok_0.home)
                &&& plan->Ok_0.cargo_home == cargo_home_of(variables, plan->Ok_0.home)
                &&& plan->Ok_0.target == target_of(variables, root)
                &&& plan->Ok_0.triple == host->Ok_0.triple
                &&& scan_outcome(
                    variables,
                    configuration_files(facts, plan->Ok_0.home),
                    host->Ok_0,
                )->Ok_0 == plan->Ok_0.configuration
            }
        }),
{
}

/// The toolchain is reported once the manifest, the environment, the home and the toolchain itself are
/// accepted, whatever comes of the rest; before that nothing is.
pub proof fn law_accepted_toolchains_are_reported(
    root: Seq<u8>,
    facts: SettingsFacts,
    toolchain: Result<Seq<char>, Seq<char>>,
)
    ensures
        ({
            let metadata = root_metadata(root, read_text(facts.manifest));
            let compiler = toolchain_outcome(root, toolchain, attempt(facts.version));
            let accepted = metadata is Ok && ambient_outcome(
                metadata->Ok_0.minimum_system_version,
                facts.environment@,
                parent_target(facts),
            ) is Ok && home_of(facts.environment@) is Ok && compiler is Ok;
            &&& accepted ==> plan_reports(root, facts, toolchain) == seq![compiler->Ok_0]
            &&& !accepted ==> plan_reports(root, facts, toolchain).len() == 0
            &&& planned(root, facts, toolchain) is Ok ==> accepted
        }),
{
}

} // verus!
