//! What the manifest and the toolchain file say, and what the compiler says of itself.

use vstd::prelude::*;
use vstd::utf8::encode_utf8;

use crate::command::{
    attempt, call, command_output, completed, with_text, Call, CommandOutput, Invocation, Output,
};
use crate::documents::{document, parse_toml, toml_document};
use crate::encoding::{decode, decoded, lossy, lossy_text};
use crate::failure::{failure, outcome, text_outcome, Failure};
use crate::path::{join_text, joined};
use crate::platform::{cfg_fault, check_cfg};
use crate::text::{
    chars_of, find_after, first_after, join2, join3, join4, lines, pieces, spells, starts_with,
    text_lines, text_of, texts,
};
use crate::tree::{as_text, dotted, dotted_text, member_at, spelled, Node, Tree};

verus! {

/// What a release takes from the manifest.
#[derive(Debug)]
pub struct ManifestMetadata {
    pub version: String,
    pub copyright: String,
    pub identifier: String,
    pub minimum_system_version: String,
}

/// The model of a `ManifestMetadata`.
pub struct Metadata {
    pub version: Seq<char>,
    pub copyright: Seq<char>,
    pub identifier: Seq<char>,
    pub minimum_system_version: Seq<char>,
}

impl View for ManifestMetadata {
    type V = Metadata;

    open spec fn view(&self) -> Metadata {
        Metadata {
            version: self.version@,
            copyright: self.copyright@,
            identifier: self.identifier@,
            minimum_system_version: self.minimum_system_version@,
        }
    }
}

/// What reading a text file gave: its text, or the text of the reason why it could not be read.
pub open spec fn read_text(result: Result<String, String>) -> Result<Seq<char>, Seq<char>> {
    match result {
        Ok(text) => Ok(text@),
        Err(fault) => Err(fault@),
    }
}

/// The document that a TOML file holds, or the text of the reason why there is none.
pub open spec fn toml_file(text: Result<Seq<char>, Seq<char>>) -> Result<Node, Seq<char>> {
    match text {
        Ok(text) => toml_document(text),
        Err(fault) => Err(fault),
    }
}

/// The document that a TOML file holds.
pub fn read_toml(text: &Result<String, String>) -> (result: Result<Tree, String>)
    ensures
        document(result) == toml_file(read_text(*text)),
{
    match text {
        Ok(text) => parse_toml(text.as_str()),
        Err(fault) => Err(fault.as_str().to_string()),
    }
}

/// The string at the end of `keys` in a manifest.
pub open spec fn required_string(path: Seq<u8>, manifest: Node, keys: Seq<Seq<char>>) -> Result<
    Seq<char>,
    Seq<char>,
> {
    match as_text(member_at(manifest, keys)) {
        Some(text) => Ok(text),
        None => Err(lossy(path) + " has no string "@ + dotted(keys)),
    }
}

/// The string at the end of `keys` in a manifest.
fn require_string(path: &[u8], manifest: &Tree, keys: &[&str]) -> (result: Result<String, Failure>)
    ensures
        text_outcome(result) == required_string(path@, manifest@, spelled(keys@)),
{
    match manifest.get_path(keys) {
        Some(value) => match value.text() {
            Some(text) => return Ok(text.to_string()),
            None => {},
        },
        None => {},
    }
    let shown = lossy_text(path);
    let wanted = dotted_text(keys);
    Err(Failure { message: join3(shown.as_str(), " has no string ", wanted.as_str()) })
}

/// What a release takes from a manifest.
pub open spec fn metadata_of(path: Seq<u8>, manifest: Node) -> Result<Metadata, Seq<char>> {
    match required_string(path, manifest, seq!["package"@, "version"@]) {
        Err(refusal) => Err(refusal),
        Ok(version) => match required_string(
            path,
            manifest,
            seq!["package"@, "metadata"@, "packager"@, "copyright"@],
        ) {
            Err(refusal) => Err(refusal),
            Ok(copyright) => match required_string(
                path,
                manifest,
                seq!["package"@, "metadata"@, "packager"@, "identifier"@],
            ) {
                Err(refusal) => Err(refusal),
                Ok(identifier) => match required_string(
                    path,
                    manifest,
                    seq![
                        "package"@,
                        "metadata"@,
                        "packager"@,
                        "macos"@,
                        "minimum-system-version"@,
                    ],
                ) {
                    Err(refusal) => Err(refusal),
                    Ok(minimum_system_version) => Ok(
                        Metadata { version, copyright, identifier, minimum_system_version },
                    ),
                },
            },
        },
    }
}

/// A result with metadata replaced by its model, and its refusal by its text.
pub open spec fn metadata_outcome(result: Result<ManifestMetadata, Failure>) -> Result<
    Metadata,
    Seq<char>,
> {
    match result {
        Ok(metadata) => Ok(metadata@),
        Err(refusal) => Err(refusal@),
    }
}

/// What a release takes from a manifest.
pub fn metadata_in(path: &[u8], manifest: &Tree) -> (result: Result<ManifestMetadata, Failure>)
    ensures
        metadata_outcome(result) == metadata_of(path@, manifest@),
{
    let keys = ["package", "version"];
    assert(spelled(keys@) == seq!["package"@, "version"@]);
    let version = match require_string(path, manifest, keys.as_slice()) {
        Ok(text) => text,
        Err(refusal) => return Err(refusal),
    };
    let keys = ["package", "metadata", "packager", "copyright"];
    assert(spelled(keys@) == seq!["package"@, "metadata"@, "packager"@, "copyright"@]);
    let copyright = match require_string(path, manifest, keys.as_slice()) {
        Ok(text) => text,
        Err(refusal) => return Err(refusal),
    };
    let keys = ["package", "metadata", "packager", "identifier"];
    assert(spelled(keys@) == seq!["package"@, "metadata"@, "packager"@, "identifier"@]);
    let identifier = match require_string(path, manifest, keys.as_slice()) {
        Ok(text) => text,
        Err(refusal) => return Err(refusal),
    };
    let keys = ["package", "metadata", "packager", "macos", "minimum-system-version"];
    assert(spelled(keys@) == seq![
        "package"@,
        "metadata"@,
        "packager"@,
        "macos"@,
        "minimum-system-version"@,
    ]);
    let minimum_system_version = match require_string(path, manifest, keys.as_slice()) {
        Ok(text) => text,
        Err(refusal) => return Err(refusal),
    };
    Ok(ManifestMetadata { version, copyright, identifier, minimum_system_version })
}

/// Where the manifest of the repository at `root` lies.
pub open spec fn manifest_in(root: Seq<u8>) -> Seq<u8> {
    joined(root, encode_utf8("Cargo.toml"@))
}

/// Where the manifest of the repository at `root` lies.
pub fn manifest_path(root: &[u8]) -> (path: Vec<u8>)
    ensures
        path@ == manifest_in(root@),
{
    join_text(root, "Cargo.toml")
}

/// What a release takes from the manifest of the repository at `root`.
pub open spec fn root_metadata(root: Seq<u8>, manifest: Result<Seq<char>, Seq<char>>) -> Result<
    Metadata,
    Seq<char>,
> {
    match toml_file(manifest) {
        Err(fault) => Err(fault),
        Ok(manifest) => metadata_of(manifest_in(root), manifest),
    }
}

/// What a release takes from the manifest of the repository at `root`.
pub fn manifest_metadata(root: &[u8], manifest: &Result<String, String>) -> (result: Result<
    ManifestMetadata,
    Failure,
>)
    ensures
        metadata_outcome(result) == root_metadata(root@, read_text(*manifest)),
{
    match read_toml(manifest) {
        Ok(tree) => metadata_in(manifest_path(root).as_slice(), &tree),
        Err(fault) => Err(failure(fault.as_str())),
    }
}

/// Where a manifest would hold the signing identity of the packager.
pub open spec fn packager_identity_keys() -> Seq<Seq<char>> {
    seq!["package"@, "metadata"@, "packager"@, "macos"@, "signing-identity"@]
}

/// What a manifest is told about the signing identity of the packager.
pub open spec fn packager_outcome(path: Seq<u8>, manifest: Node) -> Result<(), Seq<char>> {
    if member_at(manifest, packager_identity_keys()) is Some {
        Err(
            "remove package.metadata.packager.macos.signing-identity from "@ + lossy(path),
        )
    } else {
        Ok(())
    }
}

/// Refuses a manifest that has the packager sign.
pub fn reject_identity_in(path: &[u8], manifest: &Tree) -> (result: Result<(), Failure>)
    ensures
        outcome(result) == packager_outcome(path@, manifest@),
{
    let keys = ["package", "metadata", "packager", "macos", "signing-identity"];
    assert(spelled(keys@) == packager_identity_keys());
    if manifest.get_path(keys.as_slice()).is_some() {
        let shown = lossy_text(path);
        return Err(
            Failure {
                message: join2(
                    "remove package.metadata.packager.macos.signing-identity from ",
                    shown.as_str(),
                ),
            },
        );
    }
    Ok(())
}

/// Refuses a repository whose manifest has the packager sign.
pub fn reject_packager_signing_identity(root: &[u8], manifest: &Result<String, String>) -> (result:
    Result<(), Failure>)
    ensures
        outcome(result) == (match toml_file(read_text(*manifest)) {
            Err(fault) => Err(fault),
            Ok(manifest) => packager_outcome(manifest_in(root@), manifest),
        }),
{
    match read_toml(manifest) {
        Ok(tree) => reject_identity_in(manifest_path(root).as_slice(), &tree),
        Err(fault) => Err(failure(fault.as_str())),
    }
}

/// The command that has the compiler tell its version.
pub open spec fn version_call() -> Call {
    with_text(call("rustc"@), "-vV"@)
}

/// The command that has the compiler tell its version.
pub fn version_command() -> (command: Invocation)
    ensures
        command@ == version_call(),
{
    Invocation::new("rustc").text("-vV")
}

/// The command that has the compiler tell the cfg values of its host.
pub open spec fn cfg_call() -> Call {
    with_text(with_text(call("rustc"@), "--print"@), "cfg"@)
}

/// The command that has the compiler tell the cfg values of its host.
pub fn cfg_command() -> (command: Invocation)
    ensures
        command@ == cfg_call(),
{
    Invocation::new("rustc").text("--print").text("cfg")
}

/// The lines that a command wrote, as text.
pub open spec fn written_lines(call: Call, attempt: Result<Output, Seq<char>>) -> Result<
    Seq<Seq<char>>,
    Seq<char>,
> {
    match completed(call, attempt) {
        Err(refusal) => Err(refusal),
        Ok(written) => match decoded(written) {
            Err(fault) => Err(fault),
            Ok(text) => Ok(text_lines(text)),
        },
    }
}

/// The text that a command wrote.
fn written_text(command: &Invocation, attempted: &Result<CommandOutput, String>) -> (result: Result<
    String,
    Failure,
>)
    ensures
        text_outcome(result) == (match completed(command@, attempt(*attempted)) {
            Err(refusal) => Err(refusal),
            Ok(written) => decoded(written),
        }),
{
    match command_output(command, attempted) {
        Ok(written) => match decode(written) {
            Ok(text) => Ok(text),
            Err(fault) => Err(failure(fault.as_str())),
        },
        Err(refusal) => Err(refusal),
    }
}

/// The channel that a toolchain file asks for.
pub open spec fn channel_of(path: Seq<u8>, toolchain: Node) -> Result<Seq<char>, Seq<char>> {
    match as_text(member_at(toolchain, seq!["toolchain"@, "channel"@])) {
        Some(channel) => Ok(channel),
        None => Err(lossy(path) + " has no toolchain.channel"@),
    }
}

/// The channel that a toolchain file asks for.
pub fn channel_in(path: &[u8], toolchain: &Tree) -> (result: Result<String, Failure>)
    ensures
        text_outcome(result) == channel_of(path@, toolchain@),
{
    let keys = ["toolchain", "channel"];
    assert(spelled(keys@) == seq!["toolchain"@, "channel"@]);
    match toolchain.get_path(keys.as_slice()) {
        Some(value) => match value.text() {
            Some(text) => return Ok(text.to_string()),
            None => {},
        },
        None => {},
    }
    let shown = lossy_text(path);
    Err(Failure { message: join2(shown.as_str(), " has no toolchain.channel") })
}

/// Whether a release of the compiler belongs to a channel: it is the channel, or a version in it.
pub open spec fn in_channel(release: Seq<char>, channel: Seq<char>) -> bool {
    release == channel || (channel + "."@).is_prefix_of(release)
}

/// What the release of the compiler is told: the sentence that reports success, or a refusal.
pub open spec fn release_outcome(
    channel: Seq<char>,
    version: Result<Seq<Seq<char>>, Seq<char>>,
) -> Result<Seq<char>, Seq<char>> {
    match version {
        Err(refusal) => Err(refusal),
        Ok(rows) => match first_after(rows, "release: "@) {
            None => Err("rustc -vV output has no release"@),
            Some(release) => if in_channel(release, channel) {
                Ok(
                    "verified Rust toolchain: release="@ + release + ", channel="@ + channel,
                )
            } else {
                Err(
                    "rustc release "@ + release
                        + " does not match rust-toolchain.toml channel "@ + channel,
                )
            },
        },
    }
}

/// Judges the compiler by what `rustc -vV` gave.
pub fn verify_release(channel: &str, version: &Result<CommandOutput, String>) -> (result: Result<
    String,
    Failure,
>)
    ensures
        text_outcome(result) == release_outcome(
            channel@,
            written_lines(version_call(), attempt(*version)),
        ),
{
    let text = match written_text(&version_command(), version) {
        Ok(text) => text,
        Err(refusal) => return Err(refusal),
    };
    let chars = chars_of(text.as_str());
    let rows = lines(chars.as_slice());
    let release = match find_after(&rows, "release: ") {
        Some(release) => release,
        None => return Err(failure("rustc -vV output has no release")),
    };
    let shown = text_of(release);
    if !spells(release, channel) && !starts_with(release, join2(channel, ".").as_str()) {
        return Err(
            Failure {
                message: join4(
                    "rustc release ",
                    shown.as_str(),
                    " does not match rust-toolchain.toml channel ",
                    channel,
                ),
            },
        );
    }
    Ok(join4("verified Rust toolchain: release=", shown.as_str(), ", channel=", channel))
}

/// What `verify_toolchain` returns.
pub open spec fn toolchain_outcome(
    root: Seq<u8>,
    toolchain: Result<Seq<char>, Seq<char>>,
    version: Result<Output, Seq<char>>,
) -> Result<Seq<char>, Seq<char>> {
    match toml_file(toolchain) {
        Err(fault) => Err(fault),
        Ok(toolchain) => match channel_of(
            joined(root, encode_utf8("rust-toolchain.toml"@)),
            toolchain,
        ) {
            Err(refusal) => Err(refusal),
            Ok(channel) => release_outcome(channel, written_lines(version_call(), version)),
        },
    }
}

/// Refuses a compiler that is not of the channel that the repository at `root` asks for.
pub fn verify_toolchain(
    root: &[u8],
    toolchain: &Result<String, String>,
    version: &Result<CommandOutput, String>,
) -> (result: Result<String, Failure>)
    ensures
        text_outcome(result) == toolchain_outcome(
            root@,
            read_text(*toolchain),
            attempt(*version),
        ),
{
    let tree = match read_toml(toolchain) {
        Ok(tree) => tree,
        Err(fault) => return Err(failure(fault.as_str())),
    };
    match channel_in(join_text(root, "rust-toolchain.toml").as_slice(), &tree) {
        Ok(channel) => verify_release(channel.as_str(), version),
        Err(refusal) => Err(refusal),
    }
}

/// The target that is built for: its name, and its cfg values as lines that can be read.
#[derive(Debug)]
pub struct TargetContext {
    triple: String,
    cfg: Vec<String>,
}

/// The model of a `TargetContext`.
pub struct Target {
    pub triple: Seq<char>,
    pub cfg: Seq<Seq<char>>,
}

impl View for TargetContext {
    type V = Target;

    closed spec fn view(&self) -> Target {
        Target { triple: self.triple@, cfg: texts(self.cfg@) }
    }
}

/// The first fault among cfg lines.
pub open spec fn first_cfg_fault(cfg: Seq<Seq<char>>) -> Option<Seq<char>>
    decreases cfg.len(),
{
    if cfg.len() == 0 {
        None
    } else if cfg_fault(cfg[0]) is Some {
        cfg_fault(cfg[0])
    } else {
        first_cfg_fault(cfg.skip(1))
    }
}

/// A target with the given name and cfg lines, where all of them can be read.
pub open spec fn target_of(triple: Seq<char>, cfg: Seq<Seq<char>>) -> Result<Target, Seq<char>> {
    match first_cfg_fault(cfg) {
        Some(fault) => Err(fault),
        None => Ok(Target { triple, cfg }),
    }
}

/// A result with a target replaced by its model, and its refusal by its text.
pub open spec fn target_outcome(result: Result<TargetContext, Failure>) -> Result<
    Target,
    Seq<char>,
> {
    match result {
        Ok(target) => Ok(target@),
        Err(refusal) => Err(refusal@),
    }
}

/// What the compiler says of its host.
pub open spec fn host_outcome(
    version: Result<Output, Seq<char>>,
    cfg: Result<Output, Seq<char>>,
) -> Result<Target, Seq<char>> {
    match written_lines(version_call(), version) {
        Err(refusal) => Err(refusal),
        Ok(rows) => match first_after(rows, "host: "@) {
            None => Err("rustc -vV output has no host triple"@),
            Some(triple) => if triple.len() == 0 {
                Err("rustc -vV output has no host triple"@)
            } else {
                match written_lines(cfg_call(), cfg) {
                    Err(refusal) => Err(refusal),
                    Ok(cfg) => target_of(triple, cfg),
                }
            },
        },
    }
}

impl TargetContext {
    #[verifier::type_invariant]
    spec fn readable(self) -> bool {
        forall|i: int| 0 <= i < self.cfg@.len() ==> cfg_fault(#[trigger] self.cfg@[i]@) is None
    }

    /// A target with the given name and cfg lines. The first line that cannot be read is refused.
    pub fn new(triple: String, cfg: Vec<String>) -> (result: Result<Self, Failure>)
        ensures
            target_outcome(result) == target_of(triple@, texts(cfg@)),
    {
        let ghost all = texts(cfg@);
        let mut i: usize = 0;
        assert(all.skip(0) == all);
        while i < cfg.len()
            invariant
                i <= cfg@.len(),
                all == texts(cfg@),
                first_cfg_fault(all) == first_cfg_fault(all.skip(i as int)),
                forall|k: int| 0 <= k < i ==> cfg_fault(#[trigger] cfg@[k]@) is None,
            decreases cfg@.len() - i,
        {
            assert(all.skip(i as int)[0] == cfg@[i as int]@);
            assert(all.skip(i as int).skip(1) == all.skip(i + 1));
            match check_cfg(cfg[i].as_str()) {
                Ok(()) => {},
                Err(fault) => return Err(failure(fault.as_str())),
            }
            i += 1;
        }
        Ok(TargetContext { triple, cfg })
    }

    /// The host of the compiler, by what `rustc -vV` and `rustc --print cfg` gave.
    pub fn host(
        version: &Result<CommandOutput, String>,
        cfg: &Result<CommandOutput, String>,
    ) -> (result: Result<Self, Failure>)
        ensures
            target_outcome(result) == host_outcome(attempt(*version), attempt(*cfg)),
    {
        let text = match written_text(&version_command(), version) {
            Ok(text) => text,
            Err(refusal) => return Err(refusal),
        };
        let chars = chars_of(text.as_str());
        let rows = lines(chars.as_slice());
        let triple = match find_after(&rows, "host: ") {
            Some(triple) => triple,
            None => return Err(failure("rustc -vV output has no host triple")),
        };
        if triple.len() == 0 {
            return Err(failure("rustc -vV output has no host triple"));
        }
        let listed = match written_text(&cfg_command(), cfg) {
            Ok(text) => text,
            Err(refusal) => return Err(refusal),
        };
        let listed = chars_of(listed.as_str());
        let rows = lines(listed.as_slice());
        let mut values: Vec<String> = Vec::new();
        let mut i: usize = 0;
        while i < rows.len()
            invariant
                i <= rows@.len(),
                values@.len() == i,
                forall|k: int| 0 <= k < i ==> (#[trigger] values@[k])@ == rows@[k]@,
            decreases rows@.len() - i,
        {
            values.push(text_of(rows[i]));
            i += 1;
        }
        assert(texts(values@) == pieces(rows@));
        TargetContext::new(text_of(triple), values)
    }

    /// The name of the target.
    pub fn triple(&self) -> (triple: &str)
        ensures
            triple@ == self@.triple,
    {
        self.triple.as_str()
    }

    /// Whether a selector selects this target.
    pub fn is_selected_by(&self, selector: &str) -> (result: Result<bool, String>)
        ensures
            match result {
                Ok(matches) => crate::platform::selects(selector@, self@.triple, self@.cfg) == Ok::<
                    bool,
                    Seq<char>,
                >(matches),
                Err(fault) => crate::platform::selects(selector@, self@.triple, self@.cfg) == Err::<
                    bool,
                    Seq<char>,
                >(fault@),
            },
            result is Ok && !"cfg("@.is_prefix_of(selector@) ==> result->Ok_0 == (selector@
                == self@.triple),
    {
        proof {
            use_type_invariant(self);
        }
        crate::platform::selector_matches(selector, self.triple.as_str(), &self.cfg)
    }
}

/// What a release takes from a manifest is what stands at four places in it, and all four must be there
/// as strings.
pub proof fn law_metadata_stands_at_its_places(path: Seq<u8>, manifest: Node)
    ensures
        ({
            let version = as_text(member_at(manifest, seq!["package"@, "version"@]));
            let copyright = as_text(
                member_at(manifest, seq!["package"@, "metadata"@, "packager"@, "copyright"@]),
            );
            let identifier = as_text(
                member_at(manifest, seq!["package"@, "metadata"@, "packager"@, "identifier"@]),
            );
            let minimum = as_text(
                member_at(
                    manifest,
                    seq![
                        "package"@,
                        "metadata"@,
                        "packager"@,
                        "macos"@,
                        "minimum-system-version"@,
                    ],
                ),
            );
            let taken = metadata_of(path, manifest);
            &&& taken is Ok <==> version is Some && copyright is Some && identifier is Some
                && minimum is Some
            &&& taken is Ok ==> Some(taken->Ok_0.version) == version && Some(taken->Ok_0.copyright)
                == copyright && Some(taken->Ok_0.identifier) == identifier && Some(
                taken->Ok_0.minimum_system_version,
            ) == minimum
        }),
{
}

/// A string is taken from a manifest as it is written there, and what is no string is none.
pub proof fn law_only_strings_are_taken(path: Seq<u8>, manifest: Node, keys: Seq<Seq<char>>)
    ensures
        required_string(path, manifest, keys) is Ok <==> (member_at(manifest, keys) matches Some(node)
            && node is Text),
        member_at(manifest, keys) matches Some(Node::Text(text)) ==> required_string(
            path,
            manifest,
            keys,
        ) == Ok::<Seq<char>, Seq<char>>(text),
{
}

/// A manifest that names a signing identity for the packager is refused, whatever it is.
pub proof fn law_the_packager_does_not_sign(path: Seq<u8>, manifest: Node)
    ensures
        packager_outcome(path, manifest) is Ok <==> member_at(
            manifest,
            seq!["package"@, "metadata"@, "packager"@, "macos"@, "signing-identity"@],
        ) is None,
{
}

/// A release of the compiler is one of a channel where it is that channel, or goes on with a dot behind
/// it. Nothing else is.
pub proof fn law_releases_of_a_channel(channel: Seq<char>, behind: Seq<char>, release: Seq<char>)
    ensures
        in_channel(channel, channel),
        in_channel(channel.push('.') + behind, channel),
        in_channel(release, channel) ==> release.len() >= channel.len() && release.take(
            channel.len() as int,
        ) == channel && (release.len() == channel.len() || release[channel.len() as int] == '.'),
{
    reveal_strlit(".");
    let dotted = channel + "."@;
    assert(dotted =~= channel.push('.'));
    let longer = channel.push('.') + behind;
    assert(longer.subrange(0, dotted.len() as int) =~= dotted);
    if release == channel {
        assert(release.take(channel.len() as int) =~= channel);
    } else if dotted.is_prefix_of(release) {
        let start = release.subrange(0, dotted.len() as int);
        assert(start == dotted);
        assert(release.take(channel.len() as int) =~= start.take(channel.len() as int));
        assert(dotted.take(channel.len() as int) =~= channel);
        assert(start[channel.len() as int] == release[channel.len() as int]);
    }
}

/// The compiler is accepted where, and only where, the toolchain file names a channel, `rustc -vV`
/// succeeded, and the release that its first such line names is one of the channel.
pub proof fn law_toolchains_that_are_accepted(
    root: Seq<u8>,
    toolchain: Result<Seq<char>, Seq<char>>,
    version: Result<Output, Seq<char>>,
)
    ensures
        toolchain_outcome(root, toolchain, version) is Ok <==> {
            &&& toolchain is Ok
            &&& toml_document(toolchain->Ok_0) is Ok
            &&& member_at(
                toml_document(toolchain->Ok_0)->Ok_0,
                seq!["toolchain"@, "channel"@],
            ) matches Some(channel)
            &&& channel is Text
            &&& version matches Ok(output)
            &&& output.success
            &&& decoded(output.stdout) is Ok
            &&& first_after(text_lines(decoded(output.stdout)->Ok_0), "release: "@) matches Some(
                release,
            )
            &&& in_channel(release, channel->Text_0)
        },
{
}

/// The host is what the first such line of `rustc -vV` names, with the lines of `rustc --print cfg`, all
/// of which must be readable.
pub proof fn law_hosts_are_told_by_the_compiler(
    version: Result<Output, Seq<char>>,
    cfg: Result<Output, Seq<char>>,
)
    ensures
        host_outcome(version, cfg) is Ok ==> {
            &&& version is Ok && version->Ok_0.success && decoded(version->Ok_0.stdout) is Ok
            &&& cfg is Ok && cfg->Ok_0.success && decoded(cfg->Ok_0.stdout) is Ok
            &&& first_after(text_lines(decoded(version->Ok_0.stdout)->Ok_0), "host: "@) == Some(
                host_outcome(version, cfg)->Ok_0.triple,
            )
            &&& host_outcome(version, cfg)->Ok_0.triple.len() > 0
            &&& host_outcome(version, cfg)->Ok_0.cfg == text_lines(decoded(cfg->Ok_0.stdout)->Ok_0)
        },
        version_call().program == "rustc"@,
        version_call().arguments == seq![encode_utf8("-vV"@)],
        cfg_call().program == "rustc"@,
        cfg_call().arguments == seq![encode_utf8("--print"@), encode_utf8("cfg"@)],
{
    assert(version_call().arguments =~= seq![encode_utf8("-vV"@)]);
    assert(cfg_call().arguments =~= seq![encode_utf8("--print"@), encode_utf8("cfg"@)]);
}

/// A target is made of any name and readable cfg lines, and one line that cannot be read is in its way.
pub proof fn law_targets_have_readable_lines(triple: Seq<char>, cfg: Seq<Seq<char>>)
    ensures
        target_of(triple, cfg) is Ok <==> forall|i: int|
            0 <= i < cfg.len() ==> cfg_fault(#[trigger] cfg[i]) is None,
        target_of(triple, cfg) is Ok ==> target_of(
            triple,
            cfg,
        )->Ok_0.triple == triple && target_of(triple, cfg)->Ok_0.cfg == cfg,
    decreases cfg.len(),
{
    if cfg.len() > 0 {
        let rest = cfg.skip(1);
        law_targets_have_readable_lines(triple, rest);
        assert forall|i: int| 0 <= i < rest.len() implies #[trigger] rest[i] == cfg[i + 1] by {}
        if target_of(triple, cfg) is Ok {
            assert forall|i: int| 0 <= i < cfg.len() implies cfg_fault(#[trigger] cfg[i]) is None by {
                if i > 0 {
                    assert(rest[i - 1] == cfg[i]);
                }
            }
        }
    }
}

/// A compiler of another release is refused with both the release and the channel.
pub proof fn law_refused_compilers_are_told(
    channel: Seq<char>,
    rows: Seq<Seq<char>>,
    release: Seq<char>,
)
    requires
        first_after(rows, "release: "@) == Some(release),
    ensures
        in_channel(release, channel) ==> release_outcome(channel, Ok(rows)) == Ok::<
            Seq<char>,
            Seq<char>,
        >("verified Rust toolchain: release="@ + release + ", channel="@ + channel),
        !in_channel(release, channel) ==> release_outcome(channel, Ok(rows)) == Err::<
            Seq<char>,
            Seq<char>,
        >(
            "rustc release "@ + release + " does not match rust-toolchain.toml channel "@ + channel,
        ),
{
}

/// A manifest without one of the strings is refused with its path and the names that lead to the string.
pub proof fn law_missing_strings_are_told(path: Seq<u8>, manifest: Node, keys: Seq<Seq<char>>)
    requires
        as_text(member_at(manifest, keys)) is None,
    ensures
        required_string(path, manifest, keys) == Err::<Seq<char>, Seq<char>>(
            lossy(path) + " has no string "@ + dotted(keys),
        ),
{
}

} // verus!
