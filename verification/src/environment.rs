//! The environment that a release runs in.

use vstd::prelude::*;
use vstd::utf8::encode_utf8;

use crate::bytes::{byte_string, owned, same_bytes, split_bytes, strip_byte_prefix};
use crate::command::{
    attempt, call, command_output, completed, with_text, Call, CommandOutput, Invocation, Output,
};
use crate::encoding::{decode, decoded, lossy, lossy_text};
use crate::failure::{failure, outcome, text_outcome, Failure};
use crate::order::{before, law_before_is_irreflexive, law_before_is_transitive, precedes};
use crate::path::{join_text, joined};
use crate::text::{
    after_prefix, chars_of, first_index, join2, join3, join4, law_runs_stand_between_separators,
    law_what_stands_between_separators_is_a_run, lemma_first_index_bounds, piece, pieces, split,
    text_of, trim, trimmed,
};

verus! {

/// The environment variables of this process, with their values.
#[derive(Debug)]
pub struct Environment {
    pub variables: Vec<(Vec<u8>, Vec<u8>)>,
}

impl View for Environment {
    type V = Seq<(Seq<u8>, Seq<u8>)>;

    open spec fn view(&self) -> Seq<(Seq<u8>, Seq<u8>)> {
        Seq::new(
            self.variables@.len(),
            |i: int| (self.variables@[i].0@, self.variables@[i].1@),
        )
    }
}

/// The value of a variable.
pub open spec fn value_of(variables: Seq<(Seq<u8>, Seq<u8>)>, name: Seq<char>) -> Option<Seq<u8>>
    decreases variables.len(),
{
    if variables.len() == 0 {
        None
    } else if variables[0].0 == encode_utf8(name) {
        Some(variables[0].1)
    } else {
        value_of(variables.skip(1), name)
    }
}

/// The home directory.
pub open spec fn home_of(variables: Seq<(Seq<u8>, Seq<u8>)>) -> Result<Seq<u8>, Seq<char>> {
    match value_of(variables, "HOME"@) {
        Some(home) => Ok(home),
        None => Err("HOME is not set"@),
    }
}

/// The directory where Cargo keeps its own files.
pub open spec fn cargo_home_of(variables: Seq<(Seq<u8>, Seq<u8>)>, home: Seq<u8>) -> Seq<u8> {
    match value_of(variables, "CARGO_HOME"@) {
        Some(cargo_home) => cargo_home,
        None => joined(home, encode_utf8(".cargo"@)),
    }
}

/// The directory where Cargo builds.
pub open spec fn target_of(variables: Seq<(Seq<u8>, Seq<u8>)>, root: Seq<u8>) -> Seq<u8> {
    match value_of(variables, "CARGO_TARGET_DIR"@) {
        Some(target) => target,
        None => joined(root, encode_utf8("target"@)),
    }
}

/// The release executable that Cargo is configured to build.
pub open spec fn release_executable_of(
    variables: Seq<(Seq<u8>, Seq<u8>)>,
    root: Seq<u8>,
) -> Seq<u8> {
    joined(target_of(variables, root), encode_utf8("release/neo"@))
}

/// A result with a path replaced by its bytes, and its refusal by its text.
pub open spec fn path_outcome(result: Result<Vec<u8>, Failure>) -> Result<Seq<u8>, Seq<char>> {
    match result {
        Ok(path) => Ok(path@),
        Err(refusal) => Err(refusal@),
    }
}

impl Environment {
    /// An environment of its own with the same variables.
    pub fn copied(&self) -> (copy: Self)
        ensures
            copy@ == self@,
    {
        let ghost all = self@;
        let mut copy = Environment { variables: Vec::new() };
        let mut i: usize = 0;
        assert(copy@ =~= all.take(0));
        while i < self.variables.len()
            invariant
                i <= self.variables@.len(),
                all == self@,
                copy@ == all.take(i as int),
            decreases self.variables@.len() - i,
        {
            let ghost before = copy@;
            let name = owned(self.variables[i].0.as_slice());
            let value = owned(self.variables[i].1.as_slice());
            copy.variables.push((name, value));
            assert(copy@ =~= before.push(all[i as int]));
            assert(all.take(i + 1) =~= all.take(i as int).push(all[i as int]));
            i += 1;
        }
        assert(all.take(i as int) =~= all);
        copy
    }

    /// The value of a variable.
    pub fn get(&self, name: &str) -> (value: Option<&[u8]>)
        ensures
            piece(value) == value_of(self@, name@),
    {
        let ghost all = self@;
        let mut i: usize = 0;
        assert(all.skip(0) == all);
        while i < self.variables.len()
            invariant
                i <= self.variables@.len(),
                all == self@,
                value_of(all, name@) == value_of(all.skip(i as int), name@),
            decreases self.variables@.len() - i,
        {
            assert(all.skip(i as int)[0] == (
                self.variables@[i as int].0@,
                self.variables@[i as int].1@,
            ));
            assert(all.skip(i as int).skip(1) == all.skip(i + 1));
            if same_bytes(self.variables[i].0.as_slice(), name.as_bytes()) {
                return Some(self.variables[i].1.as_slice());
            }
            i += 1;
        }
        None
    }

    /// Whether a variable is set.
    pub fn has(&self, name: &str) -> (r: bool)
        ensures
            r == (value_of(self@, name@) is Some),
    {
        self.get(name).is_some()
    }

    /// The home directory.
    pub fn home(&self) -> (result: Result<Vec<u8>, Failure>)
        ensures
            path_outcome(result) == home_of(self@),
    {
        match self.get("HOME") {
            Some(home) => Ok(owned(home)),
            None => Err(failure("HOME is not set")),
        }
    }

    /// The directory where Cargo keeps its own files.
    pub fn cargo_home(&self, home: &[u8]) -> (path: Vec<u8>)
        ensures
            path@ == cargo_home_of(self@, home@),
    {
        match self.get("CARGO_HOME") {
            Some(cargo_home) => owned(cargo_home),
            None => join_text(home, ".cargo"),
        }
    }

    /// The directory where Cargo builds.
    pub fn target(&self, root: &[u8]) -> (path: Vec<u8>)
        ensures
            path@ == target_of(self@, root@),
    {
        match self.get("CARGO_TARGET_DIR") {
            Some(target) => owned(target),
            None => join_text(root, "target"),
        }
    }

    /// The release executable that Cargo is configured to build.
    pub fn configured_release_executable(&self, root: &[u8]) -> (path: Vec<u8>)
        ensures
            path@ == release_executable_of(self@, root@),
    {
        join_text(self.target(root).as_slice(), "release/neo")
    }
}

/// The command that tells the parent of a process.
pub open spec fn parent_call(process: Seq<char>) -> Call {
    with_text(
        with_text(with_text(with_text(call("ps"@), "-o"@), "ppid="@), "-p"@),
        process,
    )
}

/// The command that tells the parent of a process.
pub fn parent_command(process: &str) -> (command: Invocation)
    ensures
        command@ == parent_call(process@),
{
    Invocation::new("ps").text("-o").text("ppid=").text("-p").text(process)
}

/// The command that tells a process's command line and environment.
pub open spec fn environment_call(process: Seq<char>) -> Call {
    with_text(
        with_text(
            with_text(with_text(with_text(call("ps"@), "eww"@), "-o"@), "command="@),
            "-p"@,
        ),
        process,
    )
}

/// The command that tells a process's command line and environment.
pub fn environment_command(process: &str) -> (command: Invocation)
    ensures
        command@ == environment_call(process@),
{
    Invocation::new("ps").text("eww").text("-o").text("command=").text("-p").text(process)
}

/// The parent of a process, by what its command gave.
pub open spec fn parent_of(process: Seq<char>, parent: Result<Output, Seq<char>>) -> Result<
    Seq<char>,
    Seq<char>,
> {
    match completed(parent_call(process), parent) {
        Err(refusal) => Err(refusal),
        Ok(written) => match decoded(written) {
            Err(fault) => Err(fault),
            Ok(text) => if trim(text).len() == 0 {
                Err("cannot determine the parent process"@)
            } else {
                Ok(trim(text))
            },
        },
    }
}

/// The parent of a process, by what its command gave.
pub fn parent_process(process: &str, parent: &Result<CommandOutput, String>) -> (result: Result<
    String,
    Failure,
>)
    ensures
        text_outcome(result) == parent_of(process@, attempt(*parent)),
{
    let written = match command_output(&parent_command(process), parent) {
        Ok(written) => written,
        Err(refusal) => return Err(refusal),
    };
    let text = match decode(written) {
        Ok(text) => text,
        Err(fault) => return Err(failure(fault.as_str())),
    };
    let chars = chars_of(text.as_str());
    let parent = trimmed(chars.as_slice());
    if parent.len() == 0 {
        return Err(failure("cannot determine the parent process"));
    }
    Ok(text_of(parent))
}

/// Whether a byte separates the fields of a listing.
pub open spec fn blank(byte: u8) -> bool {
    byte == ' ' as u8 || byte == '\t' as u8 || byte == '\n' as u8 || byte == '\u{c}' as u8 || byte
        == '\r' as u8
}

/// A listing with a space for every byte that separates its fields.
pub open spec fn spaced_out(listing: Seq<u8>) -> Seq<u8> {
    Seq::new(
        listing.len(),
        |i: int|
            if blank(listing[i]) {
                ' ' as u8
            } else {
                listing[i]
            },
    )
}

/// The fields of a listing.
pub open spec fn fields(listing: Seq<u8>) -> Seq<Seq<u8>> {
    split(spaced_out(listing), ' ' as u8)
}

/// What follows `prefix` in the first of `fields` that starts with it.
pub open spec fn first_field_after(fields: Seq<Seq<u8>>, prefix: Seq<u8>) -> Option<Seq<u8>>
    decreases fields.len(),
{
    if fields.len() == 0 {
        None
    } else if after_prefix(fields[0], prefix) is Some {
        after_prefix(fields[0], prefix)
    } else {
        first_field_after(fields.skip(1), prefix)
    }
}

/// The value that a listing of an environment gives a variable.
pub open spec fn listed_value(listing: Seq<u8>, name: Seq<char>) -> Option<Seq<u8>> {
    first_field_after(fields(listing), encode_utf8(name + "="@))
}

/// A listing with a space for every byte that separates its fields.
fn space_out(listing: &[u8]) -> (result: Vec<u8>)
    ensures
        result@ == spaced_out(listing@),
{
    let mut result: Vec<u8> = Vec::new();
    let mut i: usize = 0;
    while i < listing.len()
        invariant
            i <= listing@.len(),
            result@.len() == i,
            forall|k: int| 0 <= k < i ==> result@[k] == spaced_out(listing@)[k],
        decreases listing@.len() - i,
    {
        let byte = listing[i];
        if byte == ' ' as u8 || byte == '\t' as u8 || byte == '\n' as u8 || byte == '\u{c}' as u8
            || byte == '\r' as u8 {
            result.push(' ' as u8);
        } else {
            result.push(byte);
        }
        i += 1;
    }
    assert(result@ == spaced_out(listing@));
    result
}

/// The value that a listing of an environment gives a variable.
pub fn find_listed_value(listing: &[u8], name: &str) -> (value: Option<Vec<u8>>)
    ensures
        byte_string(value) == listed_value(listing@, name@),
{
    let prefix = join2(name, "=");
    let spaced = space_out(listing);
    let parts = split_bytes(spaced.as_slice(), ' ' as u8);
    let ghost all = pieces(parts@);
    let mut i: usize = 0;
    assert(all.skip(0) == all);
    while i < parts.len()
        invariant
            i <= parts@.len(),
            all == pieces(parts@),
            all == fields(listing@),
            prefix@ == name@ + "="@,
            first_field_after(all, encode_utf8(prefix@)) == first_field_after(
                all.skip(i as int),
                encode_utf8(prefix@),
            ),
        decreases parts@.len() - i,
    {
        assert(all.skip(i as int)[0] == parts@[i as int]@);
        assert(all.skip(i as int).skip(1) == all.skip(i + 1));
        match strip_byte_prefix(parts[i], prefix.as_str().as_bytes()) {
            Some(value) => return Some(owned(value)),
            None => {},
        }
        i += 1;
    }
    None
}

/// The value of a variable in the environment of the parent process.
pub open spec fn parent_value(
    process: Seq<char>,
    parent: Result<Output, Seq<char>>,
    environment: Result<Output, Seq<char>>,
    name: Seq<char>,
) -> Result<Option<Seq<u8>>, Seq<char>> {
    match parent_of(process, parent) {
        Err(refusal) => Err(refusal),
        Ok(parent) => match completed(environment_call(parent), environment) {
            Err(refusal) => Err(refusal),
            Ok(listing) => Ok(listed_value(listing, name)),
        },
    }
}

/// A result with a value replaced by its bytes, and its refusal by its text.
pub open spec fn value_outcome(result: Result<Option<Vec<u8>>, Failure>) -> Result<
    Option<Seq<u8>>,
    Seq<char>,
> {
    match result {
        Ok(value) => Ok(byte_string(value)),
        Err(refusal) => Err(refusal@),
    }
}

/// The value of a variable in the environment of the parent of `process`, by what the commands for
/// the parent and for its environment gave.
pub fn parent_environment_value(
    process: &str,
    parent: &Result<CommandOutput, String>,
    environment: &Result<CommandOutput, String>,
    name: &str,
) -> (result: Result<Option<Vec<u8>>, Failure>)
    ensures
        value_outcome(result) == parent_value(
            process@,
            attempt(*parent),
            attempt(*environment),
            name@,
        ),
{
    let parent = match parent_process(process, parent) {
        Ok(parent) => parent,
        Err(refusal) => return Err(refusal),
    };
    match command_output(&environment_command(parent.as_str()), environment) {
        Ok(listing) => Ok(find_listed_value(listing, name)),
        Err(refusal) => Err(refusal),
    }
}

/// The first of the variables that replace a tool or an SDK, among those that are set.
pub open spec fn replacing_variable(variables: Seq<(Seq<u8>, Seq<u8>)>) -> Option<Seq<char>> {
    if value_of(variables, "RUSTC"@) is Some {
        Some("RUSTC"@)
    } else if value_of(variables, "RUSTC_WRAPPER"@) is Some {
        Some("RUSTC_WRAPPER"@)
    } else if value_of(variables, "RUSTC_WORKSPACE_WRAPPER"@) is Some {
        Some("RUSTC_WORKSPACE_WRAPPER"@)
    } else if value_of(variables, "SDKROOT"@) is Some {
        Some("SDKROOT"@)
    } else if value_of(variables, "DEVELOPER_DIR"@) is Some {
        Some("DEVELOPER_DIR"@)
    } else {
        None
    }
}

/// The first of the variables that replace a tool or an SDK, among those that are set.
fn find_replacing_variable(environment: &Environment) -> (name: Option<&'static str>)
    ensures
        match name {
            Some(name) => replacing_variable(environment@) == Some(name@),
            None => replacing_variable(environment@) is None,
        },
{
    if environment.has("RUSTC") {
        Some("RUSTC")
    } else if environment.has("RUSTC_WRAPPER") {
        Some("RUSTC_WRAPPER")
    } else if environment.has("RUSTC_WORKSPACE_WRAPPER") {
        Some("RUSTC_WORKSPACE_WRAPPER")
    } else if environment.has("SDKROOT") {
        Some("SDKROOT")
    } else if environment.has("DEVELOPER_DIR") {
        Some("DEVELOPER_DIR")
    } else {
        None
    }
}

/// Bytes as the wider numbers that `before` orders.
pub open spec fn widened(bytes: Seq<u8>) -> Seq<u16> {
    Seq::new(bytes.len(), |i: int| bytes[i] as u16)
}

/// Whether a variable overrides the release profile.
pub open spec fn overrides_profile(name: Seq<u8>) -> bool {
    encode_utf8("CARGO_PROFILE_RELEASE_"@).is_prefix_of(name)
}

/// The least name, by its bytes, of the variables that override the release profile.
pub open spec fn least_override(variables: Seq<(Seq<u8>, Seq<u8>)>) -> Option<Seq<u8>>
    decreases variables.len(),
{
    if variables.len() == 0 {
        None
    } else {
        let name = variables.last().0;
        match least_override(variables.drop_last()) {
            Some(least) => if overrides_profile(name) && before(widened(name), widened(least)) {
                Some(name)
            } else {
                Some(least)
            },
            None => if overrides_profile(name) {
                Some(name)
            } else {
                None
            },
        }
    }
}

/// Bytes as the wider numbers that `before` orders.
fn widen(bytes: &[u8]) -> (wide: Vec<u16>)
    ensures
        wide@ == widened(bytes@),
{
    let mut wide: Vec<u16> = Vec::new();
    let mut i: usize = 0;
    while i < bytes.len()
        invariant
            i <= bytes@.len(),
            wide@.len() == i,
            forall|k: int| 0 <= k < i ==> wide@[k] == bytes@[k] as u16,
        decreases bytes@.len() - i,
    {
        wide.push(bytes[i] as u16);
        i += 1;
    }
    assert(wide@ == widened(bytes@));
    wide
}

/// The least name, by its bytes, of the variables that override the release profile.
fn find_least_override(environment: &Environment) -> (least: Option<&[u8]>)
    ensures
        piece(least) == least_override(environment@),
{
    let ghost all = environment@;
    let mut least: Option<&[u8]> = None;
    let mut i: usize = 0;
    assert(all.take(0) == Seq::<(Seq<u8>, Seq<u8>)>::empty());
    while i < environment.variables.len()
        invariant
            i <= environment.variables@.len(),
            all == environment@,
            piece(least) == least_override(all.take(i as int)),
        decreases environment.variables@.len() - i,
    {
        proof {
            assert(all.take(i + 1).drop_last() == all.take(i as int));
            assert(all.take(i + 1).last() == all[i as int]);
        }
        let name = environment.variables[i].0.as_slice();
        assert(all[i as int].0 == name@);
        if strip_byte_prefix(name, "CARGO_PROFILE_RELEASE_".as_bytes()).is_some() {
            match least {
                Some(known) => if precedes(widen(name).as_slice(), widen(known).as_slice()) {
                    least = Some(name);
                },
                None => {
                    least = Some(name);
                },
            }
        }
        i += 1;
    }
    assert(all.take(i as int) == all);
    least
}

/// What the environment of a release is told.
pub open spec fn ambient_outcome(
    minimum: Seq<char>,
    variables: Seq<(Seq<u8>, Seq<u8>)>,
    parent: Result<Option<Seq<u8>>, Seq<char>>,
) -> Result<(), Seq<char>> {
    match replacing_variable(variables) {
        Some(name) => Err(
            "ambient "@ + name + " is unsupported for release packaging"@,
        ),
        None => match parent {
            Err(refusal) => Err(refusal),
            Ok(Some(value)) => Err(
                "ambient MACOSX_DEPLOYMENT_TARGET="@ + lossy(value)
                    + " is unsupported; the in-tree value is "@ + minimum,
            ),
            Ok(None) => {
                let own = value_of(variables, "MACOSX_DEPLOYMENT_TARGET"@);
                if own is Some && own->Some_0 != encode_utf8(minimum) {
                    Err(
                        "MACOSX_DEPLOYMENT_TARGET="@ + lossy(own->Some_0)
                            + " does not match the in-tree value "@ + minimum,
                    )
                } else if value_of(variables, "CARGO_BUILD_RUSTFLAGS"@) is Some {
                    Err(
                        "CARGO_BUILD_RUSTFLAGS conflicts with release rustflags; pass supported flags through RUSTFLAGS or CARGO_ENCODED_RUSTFLAGS"@,
                    )
                } else {
                    match least_override(variables) {
                        Some(name) => Err(
                            "release profile override environment variable "@ + lossy(name)
                                + " is unsupported"@,
                        ),
                        None => Ok(()),
                    }
                }
            },
        },
    }
}

/// Refuses an environment that changes what a release builds: one that replaces a tool or the SDK,
/// sets another deployment target, or overrides flags or the release profile. Cargo sets the
/// deployment target of the repository before it runs this program, so the environment of the parent
/// process, which is Cargo, tells an ambient value from that one.
pub fn reject_ambient_release_environment(
    minimum_system_version: &str,
    environment: &Environment,
    parent: &Result<Option<Vec<u8>>, Failure>,
) -> (result: Result<(), Failure>)
    ensures
        outcome(result) == ambient_outcome(
            minimum_system_version@,
            environment@,
            value_outcome(*parent),
        ),
{
    match find_replacing_variable(environment) {
        Some(name) => return Err(
            Failure {
                message: join3("ambient ", name, " is unsupported for release packaging"),
            },
        ),
        None => {},
    }
    match parent {
        Err(refusal) => return Err(refusal.again()),
        Ok(Some(value)) => {
            let shown = lossy_text(value.as_slice());
            return Err(
                Failure {
                    message: join4(
                        "ambient MACOSX_DEPLOYMENT_TARGET=",
                        shown.as_str(),
                        " is unsupported; the in-tree value is ",
                        minimum_system_version,
                    ),
                },
            );
        },
        Ok(None) => {},
    }
    match environment.get("MACOSX_DEPLOYMENT_TARGET") {
        Some(value) => if !same_bytes(value, minimum_system_version.as_bytes()) {
            let shown = lossy_text(value);
            return Err(
                Failure {
                    message: join4(
                        "MACOSX_DEPLOYMENT_TARGET=",
                        shown.as_str(),
                        " does not match the in-tree value ",
                        minimum_system_version,
                    ),
                },
            );
        },
        None => {},
    }
    if environment.has("CARGO_BUILD_RUSTFLAGS") {
        return Err(
            failure(
                "CARGO_BUILD_RUSTFLAGS conflicts with release rustflags; pass supported flags through RUSTFLAGS or CARGO_ENCODED_RUSTFLAGS",
            ),
        );
    }
    match find_least_override(environment) {
        Some(name) => {
            let shown = lossy_text(name);
            Err(
                Failure {
                    message: join3(
                        "release profile override environment variable ",
                        shown.as_str(),
                        " is unsupported",
                    ),
                },
            )
        },
        None => Ok(()),
    }
}

/// An accepted environment replaces no tool and no SDK, has no deployment target but that of the
/// repository, and overrides neither the flags of the build nor the release profile.
pub proof fn law_accepted_environments(
    minimum: Seq<char>,
    variables: Seq<(Seq<u8>, Seq<u8>)>,
    parent: Result<Option<Seq<u8>>, Seq<char>>,
)
    requires
        ambient_outcome(minimum, variables, parent) is Ok,
    ensures
        replacing_variable(variables) is None,
        parent == Ok::<Option<Seq<u8>>, Seq<char>>(None),
        value_of(variables, "MACOSX_DEPLOYMENT_TARGET"@) is Some ==> value_of(
            variables,
            "MACOSX_DEPLOYMENT_TARGET"@,
        ) == Some(encode_utf8(minimum)),
        value_of(variables, "CARGO_BUILD_RUSTFLAGS"@) is None,
        forall|i: int| 0 <= i < variables.len() ==> !overrides_profile(#[trigger] variables[i].0),
{
    lemma_no_override(variables);
}

proof fn lemma_no_override(variables: Seq<(Seq<u8>, Seq<u8>)>)
    requires
        least_override(variables) is None,
    ensures
        forall|i: int| 0 <= i < variables.len() ==> !overrides_profile(#[trigger] variables[i].0),
    decreases variables.len(),
{
    if variables.len() > 0 {
        lemma_no_override(variables.drop_last());
        assert forall|i: int| 0 <= i < variables.len() implies !overrides_profile(
            #[trigger] variables[i].0,
        ) by {
            if i < variables.len() - 1 {
                assert(variables.drop_last()[i] == variables[i]);
            }
        }
    }
}

/// A variable has a value if it is set at all, and then the value that it is given first.
pub proof fn law_first_setting_of_a_variable_counts(
    variables: Seq<(Seq<u8>, Seq<u8>)>,
    name: Seq<char>,
    i: int,
)
    ensures
        value_of(variables, name) is None <==> forall|k: int|
            0 <= k < variables.len() ==> (#[trigger] variables[k]).0 != encode_utf8(name),
        0 <= i < variables.len() && variables[i].0 == encode_utf8(name) && (forall|k: int|
            0 <= k < i ==> (#[trigger] variables[k]).0 != encode_utf8(name)) ==> value_of(
            variables,
            name,
        ) == Some(variables[i].1),
    decreases variables.len(),
{
    if variables.len() > 0 {
        let rest = variables.skip(1);
        law_first_setting_of_a_variable_counts(rest, name, i - 1);
        assert forall|k: int| 0 <= k < rest.len() implies #[trigger] rest[k] == variables[k + 1] by {}
        if value_of(variables, name) is None {
            assert forall|k: int| 0 <= k < variables.len() implies (#[trigger] variables[k]).0
                != encode_utf8(name) by {
                if k > 0 {
                    assert(rest[k - 1] == variables[k]);
                }
            }
        }
        if 0 < i < variables.len() {
            assert(rest[i - 1] == variables[i]);
        }
    }
}

/// Whether a variable of this name is set.
pub open spec fn is_set(variables: Seq<(Seq<u8>, Seq<u8>)>, name: Seq<char>) -> bool {
    exists|i: int| 0 <= i < variables.len() && (#[trigger] variables[i]).0 == encode_utf8(name)
}

proof fn lemma_is_set(variables: Seq<(Seq<u8>, Seq<u8>)>, name: Seq<char>)
    ensures
        is_set(variables, name) <==> value_of(variables, name) is Some,
{
    law_first_setting_of_a_variable_counts(variables, name, 0);
}

/// The directories of the user and of Cargo are those that the variables name. Where they name none,
/// there is no home, and Cargo's directories are `.cargo` in the home and `target` in the repository.
pub proof fn law_directories_are_named_by_variables(
    variables: Seq<(Seq<u8>, Seq<u8>)>,
    home: Seq<u8>,
    root: Seq<u8>,
)
    ensures
        home_of(variables) is Ok <==> is_set(variables, "HOME"@),
        is_set(variables, "HOME"@) ==> value_of(variables, "HOME"@) == Some(
            home_of(variables)->Ok_0,
        ),
        !is_set(variables, "HOME"@) ==> home_of(variables) == Err::<Seq<u8>, Seq<char>>(
            "HOME is not set"@,
        ),
        is_set(variables, "CARGO_HOME"@) ==> value_of(variables, "CARGO_HOME"@) == Some(
            cargo_home_of(variables, home),
        ),
        !is_set(variables, "CARGO_HOME"@) ==> cargo_home_of(variables, home) == joined(
            home,
            encode_utf8(".cargo"@),
        ),
        is_set(variables, "CARGO_TARGET_DIR"@) ==> value_of(variables, "CARGO_TARGET_DIR"@) == Some(
            target_of(variables, root),
        ),
        !is_set(variables, "CARGO_TARGET_DIR"@) ==> target_of(variables, root) == joined(
            root,
            encode_utf8("target"@),
        ),
        release_executable_of(variables, root) == joined(
            target_of(variables, root),
            encode_utf8("release/neo"@),
        ),
{
    lemma_is_set(variables, "HOME"@);
    lemma_is_set(variables, "CARGO_HOME"@);
    lemma_is_set(variables, "CARGO_TARGET_DIR"@);
}

/// Whether a variable of a name that starts so is set.
pub open spec fn some_name_starts(variables: Seq<(Seq<u8>, Seq<u8>)>, prefix: Seq<char>) -> bool {
    exists|i: int|
        0 <= i < variables.len() && encode_utf8(prefix).is_prefix_of((#[trigger] variables[i]).0)
}

/// An environment is accepted where, and only where, it sets none of the variables that replace a
/// tool or an SDK, the parent process has no deployment target, the own one is that of the
/// repository if it is set, and neither the flags of the build nor the release profile are
/// overridden.
pub proof fn law_environments_that_are_accepted(
    minimum: Seq<char>,
    variables: Seq<(Seq<u8>, Seq<u8>)>,
    parent: Result<Option<Seq<u8>>, Seq<char>>,
)
    ensures
        ambient_outcome(minimum, variables, parent) is Ok <==> {
            &&& !is_set(variables, "RUSTC"@)
            &&& !is_set(variables, "RUSTC_WRAPPER"@)
            &&& !is_set(variables, "RUSTC_WORKSPACE_WRAPPER"@)
            &&& !is_set(variables, "SDKROOT"@)
            &&& !is_set(variables, "DEVELOPER_DIR"@)
            &&& parent == Ok::<Option<Seq<u8>>, Seq<char>>(None)
            &&& is_set(variables, "MACOSX_DEPLOYMENT_TARGET"@) ==> value_of(
                variables,
                "MACOSX_DEPLOYMENT_TARGET"@,
            ) == Some(encode_utf8(minimum))
            &&& !is_set(variables, "CARGO_BUILD_RUSTFLAGS"@)
            &&& !some_name_starts(variables, "CARGO_PROFILE_RELEASE_"@)
        },
{
    lemma_is_set(variables, "RUSTC"@);
    lemma_is_set(variables, "RUSTC_WRAPPER"@);
    lemma_is_set(variables, "RUSTC_WORKSPACE_WRAPPER"@);
    lemma_is_set(variables, "SDKROOT"@);
    lemma_is_set(variables, "DEVELOPER_DIR"@);
    lemma_is_set(variables, "MACOSX_DEPLOYMENT_TARGET"@);
    lemma_is_set(variables, "CARGO_BUILD_RUSTFLAGS"@);
    if least_override(variables) is None {
        lemma_no_override(variables);
    } else {
        let i = lemma_least_is_an_override(variables);
        assert(encode_utf8("CARGO_PROFILE_RELEASE_"@).is_prefix_of(variables[i].0));
    }
}

proof fn lemma_least_is_an_override(variables: Seq<(Seq<u8>, Seq<u8>)>) -> (i: int)
    requires
        least_override(variables) is Some,
    ensures
        0 <= i < variables.len(),
        least_override(variables) == Some(variables[i].0),
        overrides_profile(variables[i].0),
    decreases variables.len(),
{
    let rest = variables.drop_last();
    let last = variables.len() - 1;
    if least_override(rest) is Some {
        let i = lemma_least_is_an_override(rest);
        assert(rest[i] == variables[i]);
        if least_override(variables) == Some(variables[i].0) {
            i
        } else {
            last
        }
    } else {
        last
    }
}

/// Of several variables that override the release profile, the one whose name comes first is named
/// in the refusal.
pub proof fn law_first_override_is_named(variables: Seq<(Seq<u8>, Seq<u8>)>, i: int)
    requires
        0 <= i < variables.len(),
        encode_utf8("CARGO_PROFILE_RELEASE_"@).is_prefix_of(variables[i].0),
    ensures
        least_override(variables) is Some,
        !before(widened(variables[i].0), widened(least_override(variables)->Some_0)),
    decreases variables.len(),
{
    let rest = variables.drop_last();
    let name = variables.last().0;
    if i < rest.len() {
        assert(rest[i] == variables[i]);
        law_first_override_is_named(rest, i);
        let least = least_override(rest)->Some_0;
        if overrides_profile(name) && before(widened(name), widened(least)) && before(
            widened(variables[i].0),
            widened(name),
        ) {
            law_before_is_transitive(widened(variables[i].0), widened(name), widened(least));
        }
    } else {
        law_before_is_irreflexive(widened(name));
    }
}

/// The parent of a process is what its command wrote, without the white space around it. Nothing else
/// names a parent.
pub proof fn law_parents_are_told(process: Seq<char>, parent: Result<Output, Seq<char>>)
    ensures
        parent_of(process, parent) is Ok <==> (parent matches Ok(output) && output.success && decoded(
            output.stdout,
        ) is Ok && trim(decoded(output.stdout)->Ok_0).len() > 0),
        parent_of(process, parent) is Ok ==> parent_of(process, parent) == Ok::<
            Seq<char>,
            Seq<char>,
        >(trim(decoded(parent->Ok_0.stdout)->Ok_0)),
        parent_call(process).program == "ps"@,
        parent_call(process).arguments == seq![
            encode_utf8("-o"@),
            encode_utf8("ppid="@),
            encode_utf8("-p"@),
            encode_utf8(process),
        ],
        environment_call(process).program == "ps"@,
        environment_call(process).arguments == seq![
            encode_utf8("eww"@),
            encode_utf8("-o"@),
            encode_utf8("command="@),
            encode_utf8("-p"@),
            encode_utf8(process),
        ],
{
    assert(parent_call(process).arguments =~= seq![
        encode_utf8("-o"@),
        encode_utf8("ppid="@),
        encode_utf8("-p"@),
        encode_utf8(process),
    ]);
    assert(environment_call(process).arguments =~= seq![
        encode_utf8("eww"@),
        encode_utf8("-o"@),
        encode_utf8("command="@),
        encode_utf8("-p"@),
        encode_utf8(process),
    ]);
}

/// Whether a setting of a variable starts at this place of a listing, which is its start or follows a
/// blank.
pub open spec fn setting_starts(listing: Seq<u8>, name: Seq<char>, i: int) -> bool {
    &&& 0 <= i <= listing.len()
    &&& i == 0 || listing[i - 1] == 9 || listing[i - 1] == 10 || listing[i - 1] == 12 || listing[i
        - 1] == 13 || listing[i - 1] == 32
    &&& encode_utf8(name + "="@).is_prefix_of(listing.skip(i))
}

/// Whether a byte string holds a blank.
pub open spec fn holds_blank(bytes: Seq<u8>) -> bool {
    exists|i: int|
        0 <= i < bytes.len() && (#[trigger] bytes[i] == 9 || bytes[i] == 10 || bytes[i] == 12
            || bytes[i] == 13 || bytes[i] == 32)
}

/// A listing gives a variable a value where, and only where, a setting of it stands at its start or
/// behind a blank.
pub proof fn law_listed_settings_are_found(listing: Seq<u8>, name: Seq<char>)
    requires
        !holds_blank(encode_utf8(name + "="@)),
    ensures
        listed_value(listing, name) is Some <==> exists|i: int| setting_starts(listing, name, i),
{
    let prefix = encode_utf8(name + "="@);
    let even = spaced_out(listing);
    let space = ' ' as u8;
    lemma_field_is_found(fields(listing), prefix);
    if listed_value(listing, name) is Some {
        let k = choose|k: int|
            0 <= k < fields(listing).len() && prefix.is_prefix_of(#[trigger] fields(listing)[k]);
        law_runs_stand_between_separators(even, space, k);
        let (start, end) = choose|start: int, end: int|
            0 <= start <= end <= even.len() && #[trigger] even.subrange(start, end) == split(
                even,
                space,
            )[k] && (start == 0 || even[start - 1] == space) && (end == even.len() || even[end]
                == space);
        let run = even.subrange(start, end);
        assert(run == fields(listing)[k]);
        assert forall|j: int| 0 <= j < prefix.len() implies listing.skip(start)[j] == prefix[j] by {
            assert(run.subrange(0, prefix.len() as int)[j] == run[j]);
            assert(run[j] == even[start + j]);
            assert(prefix[j] != 32);
            assert(even[start + j] != 32);
            assert(!blank(listing[start + j]));
        }
        assert(listing.skip(start).subrange(0, prefix.len() as int) =~= prefix);
        assert(setting_starts(listing, name, start));
    }
    if exists|i: int| setting_starts(listing, name, i) {
        let start = choose|i: int| setting_starts(listing, name, i);
        let behind = even.skip(start);
        let n = first_index(behind, space);
        lemma_first_index_bounds(behind, space);
        let end = start + n;
        let run = even.subrange(start, end);
        assert(run =~= behind.take(n));
        law_what_stands_between_separators_is_a_run(even, space, start, end);
        assert forall|j: int| 0 <= j < prefix.len() implies #[trigger] behind[j] == prefix[j] by {
            assert(listing.skip(start).subrange(0, prefix.len() as int)[j] == listing[start + j]);
            assert(!blank(prefix[j]));
        }
        assert(n >= prefix.len()) by {
            if n < prefix.len() {
                assert(behind[n] == prefix[n]);
                assert(prefix[n] != 32);
            }
        }
        assert(run.subrange(0, prefix.len() as int) =~= prefix);
        let k = choose|k: int| 0 <= k < fields(listing).len() && fields(listing)[k] == run;
        assert(prefix.is_prefix_of(fields(listing)[k]));
    }
}

proof fn lemma_field_is_found(fields: Seq<Seq<u8>>, prefix: Seq<u8>)
    ensures
        first_field_after(fields, prefix) is Some <==> exists|k: int|
            0 <= k < fields.len() && prefix.is_prefix_of(#[trigger] fields[k]),
    decreases fields.len(),
{
    if fields.len() > 0 {
        let rest = fields.skip(1);
        lemma_field_is_found(rest, prefix);
        if first_field_after(rest, prefix) is Some {
            let k = choose|k: int| 0 <= k < rest.len() && prefix.is_prefix_of(#[trigger] rest[k]);
            assert(fields[k + 1] == rest[k]);
        }
        if exists|k: int| 0 <= k < fields.len() && prefix.is_prefix_of(#[trigger] fields[k]) {
            let k = choose|k: int|
                0 <= k < fields.len() && prefix.is_prefix_of(#[trigger] fields[k]);
            if k > 0 {
                assert(rest[k - 1] == fields[k]);
            }
        }
    }
}

/// The first setting of a variable in a listing counts, and its value reaches to the next blank.
pub proof fn law_first_listed_setting_counts(
    before: Seq<Seq<u8>>,
    name: Seq<char>,
    value: Seq<u8>,
    behind: Seq<Seq<u8>>,
)
    requires
        forall|i: int|
            0 <= i < before.len() ==> !encode_utf8(name + "="@).is_prefix_of(#[trigger] before[i]),
    ensures
        first_field_after(
            before.push(encode_utf8(name + "="@) + value) + behind,
            encode_utf8(name + "="@),
        ) == Some(value),
    decreases before.len(),
{
    let prefix = encode_utf8(name + "="@);
    let all = before.push(prefix + value) + behind;
    if before.len() > 0 {
        let rest = before.skip(1);
        assert forall|i: int| 0 <= i < rest.len() implies !prefix.is_prefix_of(#[trigger] rest[i]) by {
            assert(rest[i] == before[i + 1]);
        }
        law_first_listed_setting_counts(rest, name, value, behind);
        assert(all.skip(1) =~= rest.push(prefix + value) + behind);
        assert(all[0] == before[0]);
    } else {
        assert(all[0] == prefix + value);
        assert((prefix + value).subrange(0, prefix.len() as int) =~= prefix);
        assert((prefix + value).skip(prefix.len() as int) =~= value);
    }
}

/// The deployment target of the parent process is what is listed of its environment. It is not known
/// where the parent or its environment is not.
pub proof fn law_parent_values_are_listed(
    process: Seq<char>,
    parent: Result<Output, Seq<char>>,
    environment: Result<Output, Seq<char>>,
    name: Seq<char>,
)
    ensures
        parent_value(process, parent, environment, name) is Ok <==> parent_of(process, parent) is Ok
            && (environment matches Ok(output) && output.success),
        parent_value(process, parent, environment, name) is Ok ==> parent_value(
            process,
            parent,
            environment,
            name,
        ) == Ok::<Option<Seq<u8>>, Seq<char>>(listed_value(environment->Ok_0.stdout, name)),
{
}

/// What is refused of an environment is named: the first of the variables that replace a tool or an SDK,
/// in the order of the compiler, its wrappers and the SDK, before a deployment target, and that before
/// the flags of the build.
pub proof fn law_refused_environments_are_told(
    minimum: Seq<char>,
    variables: Seq<(Seq<u8>, Seq<u8>)>,
    parent: Result<Option<Seq<u8>>, Seq<char>>,
)
    ensures
        ({
            let outcome = ambient_outcome(minimum, variables, parent);
            let replaced = |name: Seq<char>|
                Err::<(), Seq<char>>(
                    "ambient "@ + name + " is unsupported for release packaging"@,
                );
            let rustc = is_set(variables, "RUSTC"@);
            let wrapper = is_set(variables, "RUSTC_WRAPPER"@);
            let workspace = is_set(variables, "RUSTC_WORKSPACE_WRAPPER"@);
            let sdk = is_set(variables, "SDKROOT"@);
            let developer = is_set(variables, "DEVELOPER_DIR"@);
            let replaces = rustc || wrapper || workspace || sdk || developer;
            &&& rustc ==> outcome == replaced("RUSTC"@)
            &&& !rustc && wrapper ==> outcome == replaced("RUSTC_WRAPPER"@)
            &&& !rustc && !wrapper && workspace ==> outcome == replaced("RUSTC_WORKSPACE_WRAPPER"@)
            &&& !rustc && !wrapper && !workspace && sdk ==> outcome == replaced("SDKROOT"@)
            &&& !rustc && !wrapper && !workspace && !sdk && developer ==> outcome == replaced(
                "DEVELOPER_DIR"@,
            )
            &&& !replaces && parent is Err ==> outcome == Err::<(), Seq<char>>(parent->Err_0)
            &&& !replaces && parent is Ok && parent->Ok_0 is Some ==> outcome == Err::<
                (),
                Seq<char>,
            >(
                "ambient MACOSX_DEPLOYMENT_TARGET="@ + lossy(parent->Ok_0->Some_0)
                    + " is unsupported; the in-tree value is "@ + minimum,
            )
            &&& !replaces && parent == Ok::<Option<Seq<u8>>, Seq<char>>(None) && is_set(
                variables,
                "MACOSX_DEPLOYMENT_TARGET"@,
            ) && value_of(variables, "MACOSX_DEPLOYMENT_TARGET"@)->Some_0 != encode_utf8(minimum)
                ==> outcome == Err::<(), Seq<char>>(
                "MACOSX_DEPLOYMENT_TARGET="@ + lossy(
                    value_of(variables, "MACOSX_DEPLOYMENT_TARGET"@)->Some_0,
                ) + " does not match the in-tree value "@ + minimum,
            )
        }),
{
    lemma_is_set(variables, "RUSTC"@);
    lemma_is_set(variables, "RUSTC_WRAPPER"@);
    lemma_is_set(variables, "RUSTC_WORKSPACE_WRAPPER"@);
    lemma_is_set(variables, "SDKROOT"@);
    lemma_is_set(variables, "DEVELOPER_DIR"@);
    lemma_is_set(variables, "MACOSX_DEPLOYMENT_TARGET"@);
}

} // verus!
