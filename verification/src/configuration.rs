//! What Cargo's configuration files may say about a release build.

use vstd::prelude::*;
use vstd::utf8::encode_utf8;

use crate::bytes::{byte_strings, owned};
use crate::encoding::{lossy, lossy_text, quoted, quoted_text};
use crate::environment::{value_of, Environment};
use crate::failure::{outcome, Failure};
use crate::manifest::{Target, TargetContext};
use crate::nested::paths_outcome;
use crate::platform::selects;
use crate::rustflags::{codegen_outcome, reject_profile_codegen_rustflags};
use crate::text::{chars_of, join2, join3, join4, pieces, split_words, text_of, words};
use crate::tree::{as_table, member, member_at, spelled, Node, Tree};

verus! {

/// A configuration file that was read, under its canonical path.
#[derive(Debug)]
pub struct CargoConfiguration {
    pub path: Vec<u8>,
    pub value: Tree,
    /// Whether the file lies in the repository.
    pub in_tree: bool,
}

/// The model of a `CargoConfiguration`.
#[verifier::ext_equal]
pub struct Configuration {
    pub path: Seq<u8>,
    pub value: Node,
    pub in_tree: bool,
}

impl View for CargoConfiguration {
    type V = Configuration;

    open spec fn view(&self) -> Configuration {
        Configuration { path: self.path@, value: self.value@, in_tree: self.in_tree }
    }
}

/// The models of configuration files.
pub open spec fn configurations(files: Seq<CargoConfiguration>) -> Seq<Configuration> {
    Seq::new(files.len(), |i: int| files[i]@)
}

/// What a release build takes from the configuration files.
#[derive(Debug)]
pub struct ReleaseConfiguration {
    /// The flags of `build.rustflags` in the repository.
    pub in_tree_build_rustflags: Vec<Vec<u8>>,
    /// Whether flags for the target of the build were found.
    pub has_matching_target_rustflags: bool,
}

/// The model of a `ReleaseConfiguration`.
#[verifier::ext_equal]
pub struct Release {
    pub flags: Seq<Seq<u8>>,
    pub matching: bool,
}

impl View for ReleaseConfiguration {
    type V = Release;

    open spec fn view(&self) -> Release {
        Release {
            flags: byte_strings(self.in_tree_build_rustflags@),
            matching: self.has_matching_target_rustflags,
        }
    }
}

/// Texts as the bytes that encode them.
pub open spec fn encoded(texts: Seq<Seq<char>>) -> Seq<Seq<u8>> {
    Seq::new(texts.len(), |i: int| encode_utf8(texts[i]))
}

/// The flags that a list holds, all of which must be strings.
pub open spec fn listed_flags(items: Seq<Node>) -> Option<Seq<Seq<u8>>>
    decreases items.len(),
{
    if items.len() == 0 {
        Some(Seq::empty())
    } else {
        match listed_flags(items.drop_last()) {
            Some(flags) => match items.last() {
                Node::Text(flag) => Some(flags.push(encode_utf8(flag))),
                _ => None,
            },
            None => None,
        }
    }
}

/// The flags that a value of the key `key` in the file `path` stands for: the words of a string, or
/// the strings of a list.
pub open spec fn flags_of(value: Node, path: Seq<u8>, key: Seq<char>) -> Result<
    Seq<Seq<u8>>,
    Seq<char>,
> {
    match value {
        Node::Text(flags) => Ok(encoded(words(flags, false))),
        Node::List(items) => match listed_flags(items) {
            Some(flags) => Ok(flags),
            None => Err(key + " in "@ + lossy(path) + " must contain only strings"@),
        },
        _ => Err(key + " in "@ + lossy(path) + " must be a string or an array of strings"@),
    }
}

/// The words of a text as flags.
fn word_flags(text: &str) -> (flags: Vec<Vec<u8>>)
    ensures
        byte_strings(flags@) == encoded(words(text@, false)),
{
    let chars = chars_of(text);
    let parts = split_words(chars.as_slice(), false);
    let mut flags: Vec<Vec<u8>> = Vec::new();
    let mut i: usize = 0;
    while i < parts.len()
        invariant
            i <= parts@.len(),
            flags@.len() == i,
            forall|k: int| 0 <= k < i ==> (#[trigger] flags@[k])@ == encode_utf8(parts@[k]@),
        decreases parts@.len() - i,
    {
        flags.push(owned(text_of(parts[i]).as_str().as_bytes()));
        i += 1;
    }
    assert(byte_strings(flags@) == encoded(pieces(parts@)));
    flags
}

/// The flags that a list holds.
fn list_flags(items: &Vec<Tree>) -> (flags: Option<Vec<Vec<u8>>>)
    ensures
        match flags {
            Some(flags) => listed_flags(nodes(items@)) == Some(byte_strings(flags@)),
            None => listed_flags(nodes(items@)) is None,
        },
{
    let ghost all = nodes(items@);
    let mut flags: Vec<Vec<u8>> = Vec::new();
    let mut i: usize = 0;
    assert(byte_strings(flags@) == Seq::<Seq<u8>>::empty());
    assert(all.take(0) == Seq::<Node>::empty());
    while i < items.len()
        invariant
            i <= items@.len(),
            all == nodes(items@),
            listed_flags(all.take(i as int)) == Some(byte_strings(flags@)),
        decreases items@.len() - i,
    {
        let ghost before = byte_strings(flags@);
        proof {
            assert(all.take(i + 1).drop_last() == all.take(i as int));
            assert(all.take(i + 1).last() == items@[i as int]@);
        }
        match &items[i] {
            Tree::Text(flag) => {
                flags.push(owned(flag.as_str().as_bytes()));
                assert(byte_strings(flags@) == before.push(encode_utf8(flag@)));
            },
            _ => {
                proof {
                    lemma_listed_flags_stay(all, i + 1);
                }
                return None;
            },
        }
        i += 1;
    }
    assert(all.take(i as int) == all);
    Some(flags)
}

/// The models of the items of a list.
pub open spec fn nodes(items: Seq<Tree>) -> Seq<Node> {
    Seq::new(items.len(), |i: int| items[i]@)
}

proof fn lemma_listed_flags_stay(items: Seq<Node>, n: int)
    requires
        0 <= n <= items.len(),
        listed_flags(items.take(n)) is None,
    ensures
        listed_flags(items) is None,
    decreases items.len(),
{
    if n == items.len() {
        assert(items.take(n) == items);
    } else {
        assert(items.drop_last().take(n) == items.take(n));
        lemma_listed_flags_stay(items.drop_last(), n);
    }
}

/// The flags that a value stands for.
pub fn configuration_rustflags(value: &Tree, path: &[u8], key: &str) -> (result: Result<
    Vec<Vec<u8>>,
    Failure,
>)
    ensures
        paths_outcome(result) == flags_of(value@, path@, key@),
{
    match value {
        Tree::Text(flags) => Ok(word_flags(flags.as_str())),
        Tree::List(items) => {
            assert(value@ == Node::List(nodes(items@))) by {
                assert(value@->List_0 =~= nodes(items@));
            }
            match list_flags(items) {
                Some(flags) => Ok(flags),
                None => {
                    let shown = lossy_text(path);
                    Err(
                        Failure {
                            message: join4(
                                key,
                                " in ",
                                shown.as_str(),
                                " must contain only strings",
                            ),
                        },
                    )
                },
            }
        },
        _ => {
            let shown = lossy_text(path);
            Err(
                Failure {
                    message: join4(
                        key,
                        " in ",
                        shown.as_str(),
                        " must be a string or an array of strings",
                    ),
                },
            )
        },
    }
}

/// That a setting is not accepted from a file outside the repository.
pub open spec fn unsupported(setting: Seq<char>, path: Seq<u8>) -> Seq<char> {
    setting + " in out-of-tree Cargo configuration "@ + lossy(path)
        + " is unsupported for release packaging"@
}

/// That a setting is not accepted from a file outside the repository.
fn unsupported_setting(setting: &str, path: &[u8]) -> (refusal: Failure)
    ensures
        refusal@ == unsupported(setting@, path@),
{
    let shown = lossy_text(path);
    Failure {
        message: join4(
            setting,
            " in out-of-tree Cargo configuration ",
            shown.as_str(),
            " is unsupported for release packaging",
        ),
    }
}

/// What a file outside the repository is told about the release profile: it may not set any key.
pub open spec fn profile_outcome(value: Node, path: Seq<u8>) -> Result<(), Seq<char>> {
    match as_table(member_at(value, seq!["profile"@, "release"@])) {
        Some(entries) => if entries.len() > 0 {
            Err(unsupported("profile.release."@ + entries[0].0, path))
        } else {
            Ok(())
        },
        None => Ok(()),
    }
}

/// Refuses a file outside the repository that sets a key of the release profile.
pub fn reject_release_profile_keys(value: &Tree, path: &[u8]) -> (result: Result<(), Failure>)
    ensures
        outcome(result) == profile_outcome(value@, path@),
{
    let keys = ["profile", "release"];
    assert(spelled(keys@) == seq!["profile"@, "release"@]);
    match value.get_path(keys.as_slice()) {
        Some(release) => match release {
            Tree::Table(entries) => if entries.len() > 0 {
                assert(release@->Table_0[0].0 == entries@[0].0@);
                let setting = join2("profile.release.", entries[0].0.as_str());
                return Err(unsupported_setting(setting.as_str(), path));
            },
            _ => {},
        },
        None => {},
    }
    Ok(())
}

/// What a file outside the repository is told about the environment of the build: it may not set the
/// SDK or the deployment target.
pub open spec fn variables_outcome(value: Node, path: Seq<u8>) -> Result<(), Seq<char>> {
    if member_at(value, seq!["env"@, "SDKROOT"@]) is Some {
        Err(unsupported("env.SDKROOT"@, path))
    } else if member_at(value, seq!["env"@, "DEVELOPER_DIR"@]) is Some {
        Err(unsupported("env.DEVELOPER_DIR"@, path))
    } else if member_at(value, seq!["env"@, "MACOSX_DEPLOYMENT_TARGET"@]) is Some {
        Err(unsupported("env.MACOSX_DEPLOYMENT_TARGET"@, path))
    } else {
        Ok(())
    }
}

/// Whether a document has a value at the end of two names.
fn has_pair(value: &Tree, first: &str, second: &str) -> (r: bool)
    ensures
        r == (member_at(value@, seq![first@, second@]) is Some),
{
    let keys = [first, second];
    assert(spelled(keys@) == seq![first@, second@]);
    value.get_path(keys.as_slice()).is_some()
}

/// Refuses a file outside the repository that sets the SDK or the deployment target.
pub fn reject_conflicting_config_environment(value: &Tree, path: &[u8]) -> (result: Result<
    (),
    Failure,
>)
    ensures
        outcome(result) == variables_outcome(value@, path@),
{
    if has_pair(value, "env", "SDKROOT") {
        return Err(unsupported_setting("env.SDKROOT", path));
    }
    if has_pair(value, "env", "DEVELOPER_DIR") {
        return Err(unsupported_setting("env.DEVELOPER_DIR", path));
    }
    if has_pair(value, "env", "MACOSX_DEPLOYMENT_TARGET") {
        return Err(unsupported_setting("env.MACOSX_DEPLOYMENT_TARGET", path));
    }
    Ok(())
}

/// What a file outside the repository is told about `build`: it may set neither flags nor a compiler.
pub open spec fn foreign_build_outcome(value: Node, path: Seq<u8>) -> Result<(), Seq<char>> {
    if member_at(value, seq!["build"@, "rustflags"@]) is Some {
        Err(unsupported("build.rustflags"@, path))
    } else if member_at(value, seq!["build"@, "rustc"@]) is Some {
        Err(unsupported("build.rustc"@, path))
    } else if member_at(value, seq!["build"@, "rustc-wrapper"@]) is Some {
        Err(unsupported("build.rustc-wrapper"@, path))
    } else if member_at(value, seq!["build"@, "rustc-workspace-wrapper"@]) is Some {
        Err(unsupported("build.rustc-workspace-wrapper"@, path))
    } else {
        Ok(())
    }
}

/// Refuses a file outside the repository that sets flags or a compiler.
fn reject_foreign_build(value: &Tree, path: &[u8]) -> (result: Result<(), Failure>)
    ensures
        outcome(result) == foreign_build_outcome(value@, path@),
{
    if has_pair(value, "build", "rustflags") {
        return Err(unsupported_setting("build.rustflags", path));
    }
    if has_pair(value, "build", "rustc") {
        return Err(unsupported_setting("build.rustc", path));
    }
    if has_pair(value, "build", "rustc-wrapper") {
        return Err(unsupported_setting("build.rustc-wrapper", path));
    }
    if has_pair(value, "build", "rustc-workspace-wrapper") {
        return Err(unsupported_setting("build.rustc-workspace-wrapper", path));
    }
    Ok(())
}

/// What a file outside the repository is told, its targets aside.
pub open spec fn foreign_outcome(value: Node, path: Seq<u8>) -> Result<(), Seq<char>> {
    match foreign_build_outcome(value, path) {
        Err(refusal) => Err(refusal),
        Ok(()) => match profile_outcome(value, path) {
            Err(refusal) => Err(refusal),
            Ok(()) => variables_outcome(value, path),
        },
    }
}

/// Flags that are accepted where they set no option of the release profile.
pub open spec fn accepted_flags(value: Node, path: Seq<u8>, key: Seq<char>) -> Result<
    Seq<Seq<u8>>,
    Seq<char>,
> {
    match flags_of(value, path, key) {
        Err(refusal) => Err(refusal),
        Ok(flags) => match codegen_outcome(flags) {
            Err(refusal) => Err(refusal),
            Ok(()) => Ok(flags),
        },
    }
}

/// Flags that are accepted where they set no option of the release profile.
fn accept_flags(value: &Tree, path: &[u8], key: &str) -> (result: Result<Vec<Vec<u8>>, Failure>)
    ensures
        paths_outcome(result) == accepted_flags(value@, path@, key@),
{
    let flags = match configuration_rustflags(value, path, key) {
        Ok(flags) => flags,
        Err(refusal) => return Err(refusal),
    };
    match reject_profile_codegen_rustflags(&flags) {
        Ok(()) => Ok(flags),
        Err(refusal) => Err(refusal),
    }
}

/// What a file gives to `build.rustflags`: flags of its own, or, outside the repository, none.
pub open spec fn build_flags(file: Configuration) -> Result<Seq<Seq<u8>>, Seq<char>> {
    if !file.in_tree {
        match foreign_outcome(file.value, file.path) {
            Err(refusal) => Err(refusal),
            Ok(()) => Ok(Seq::empty()),
        }
    } else {
        match member_at(file.value, seq!["build"@, "rustflags"@]) {
            Some(value) => accepted_flags(value, file.path, "build.rustflags"@),
            None => Ok(Seq::empty()),
        }
    }
}

/// What a file gives to `build.rustflags`.
fn collect_build_flags(file: &CargoConfiguration) -> (result: Result<Vec<Vec<u8>>, Failure>)
    ensures
        paths_outcome(result) == build_flags(file@),
{
    let none: Vec<Vec<u8>> = Vec::new();
    assert(byte_strings(none@) == Seq::<Seq<u8>>::empty());
    let path = file.path.as_slice();
    if !file.in_tree {
        match reject_foreign_build(&file.value, path) {
            Ok(()) => {},
            Err(refusal) => return Err(refusal),
        }
        match reject_release_profile_keys(&file.value, path) {
            Ok(()) => {},
            Err(refusal) => return Err(refusal),
        }
        match reject_conflicting_config_environment(&file.value, path) {
            Ok(()) => {},
            Err(refusal) => return Err(refusal),
        }
        return Ok(none);
    }
    let keys = ["build", "rustflags"];
    assert(spelled(keys@) == seq!["build"@, "rustflags"@]);
    match file.value.get_path(keys.as_slice()) {
        Some(value) => accept_flags(value, path, "build.rustflags"),
        None => Ok(none),
    }
}

/// What the flags of a target selector are told: whether they are for the target of the build. The
/// selection is what reading the selector gave.
pub open spec fn selected_outcome(
    file: Configuration,
    selector: Seq<char>,
    rustflags: Node,
    selected: Result<bool, Seq<char>>,
) -> Result<bool, Seq<char>> {
    match selected {
        Err(fault) => Err(
            "cannot evaluate target selector "@ + quoted(selector) + " in "@ + lossy(file.path)
                + ": "@ + fault,
        ),
        Ok(false) => Ok(false),
        Ok(true) => if !file.in_tree {
            Err(unsupported("target."@ + selector + ".rustflags"@, file.path))
        } else {
            match accepted_flags(
                rustflags,
                file.path,
                "target."@ + selector + ".rustflags"@,
            ) {
                Err(refusal) => Err(refusal),
                Ok(_) => Ok(true),
            }
        },
    }
}

/// The result of reading a selector.
pub open spec fn selection(selected: Result<bool, String>) -> Result<bool, Seq<char>> {
    match selected {
        Ok(selected) => Ok(selected),
        Err(fault) => Err(fault@),
    }
}

/// Judges the flags of a target selector by whether it selects the target of the build.
pub fn judge_target_rustflags(
    file: &CargoConfiguration,
    selector: &str,
    rustflags: &Tree,
    selected: &Result<bool, String>,
) -> (result: Result<bool, Failure>)
    ensures
        outcome(result) == selected_outcome(
            file@,
            selector@,
            rustflags@,
            selection(*selected),
        ),
{
    match selected {
        Err(fault) => {
            let name = quoted_text(selector);
            let shown = lossy_text(file.path.as_slice());
            let head = join4(
                "cannot evaluate target selector ",
                name.as_str(),
                " in ",
                shown.as_str(),
            );
            Err(Failure { message: join3(head.as_str(), ": ", fault.as_str()) })
        },
        Ok(selected) => {
            if !*selected {
                return Ok(false);
            }
            let key = join3("target.", selector, ".rustflags");
            if !file.in_tree {
                return Err(unsupported_setting(key.as_str(), file.path.as_slice()));
            }
            match accept_flags(rustflags, file.path.as_slice(), key.as_str()) {
                Ok(_) => Ok(true),
                Err(refusal) => Err(refusal),
            }
        },
    }
}

/// Whether one of the selectors in `targets` has flags for the target of the build.
pub open spec fn targets_outcome(
    file: Configuration,
    targets: Seq<(Seq<char>, Node)>,
    target: Target,
) -> Result<bool, Seq<char>>
    decreases targets.len(),
{
    if targets.len() == 0 {
        Ok(false)
    } else {
        let (selector, settings) = targets.last();
        match targets_outcome(file, targets.drop_last(), target) {
            Err(refusal) => Err(refusal),
            Ok(found) => match member(settings, "rustflags"@) {
                None => Ok(found),
                Some(rustflags) => match selected_outcome(
                    file,
                    selector,
                    rustflags,
                    selects(selector, target.triple, target.cfg),
                ) {
                    Err(refusal) => Err(refusal),
                    Ok(selected) => Ok(found || selected),
                },
            },
        }
    }
}

/// Whether a file has flags for the target of the build.
pub open spec fn target_flags(file: Configuration, target: Target) -> Result<bool, Seq<char>> {
    match as_table(member(file.value, "target"@)) {
        Some(targets) => targets_outcome(file, targets, target),
        None => Ok(false),
    }
}

proof fn lemma_targets_refusal_stays(
    file: Configuration,
    targets: Seq<(Seq<char>, Node)>,
    target: Target,
    n: int,
)
    requires
        0 <= n <= targets.len(),
        targets_outcome(file, targets.take(n), target) is Err,
    ensures
        targets_outcome(file, targets, target) == targets_outcome(file, targets.take(n), target),
    decreases targets.len(),
{
    if n == targets.len() {
        assert(targets.take(n) == targets);
    } else {
        assert(targets.drop_last().take(n) == targets.take(n));
        lemma_targets_refusal_stays(file, targets.drop_last(), target, n);
    }
}

/// Whether a file has flags for the target of the build.
fn has_target_flags(file: &CargoConfiguration, target: &TargetContext) -> (result: Result<
    bool,
    Failure,
>)
    ensures
        outcome(result) == target_flags(file@, target@),
{
    let table = match file.value.get("target") {
        Some(table) => table,
        None => return Ok(false),
    };
    let entries = match table {
        Tree::Table(entries) => entries,
        _ => return Ok(false),
    };
    let ghost all = table@->Table_0;
    let mut found = false;
    let mut i: usize = 0;
    assert(all.take(0) == Seq::<(Seq<char>, Node)>::empty());
    while i < entries.len()
        invariant
            i <= entries@.len(),
            *table == Tree::Table(*entries),
            table@ == Node::Table(all),
            all.len() == entries@.len(),
            as_table(member(file@.value, "target"@)) == Some(all),
            targets_outcome(file@, all.take(i as int), target@) == Ok::<bool, Seq<char>>(found),
        decreases entries@.len() - i,
    {
        proof {
            assert(all[i as int] == (entries@[i as int].0@, entries@[i as int].1@));
            assert(all.take(i + 1).drop_last() == all.take(i as int));
            assert(all.take(i + 1).last() == all[i as int]);
        }
        match entries[i].1.get("rustflags") {
            Some(rustflags) => {
                let selector = entries[i].0.as_str();
                let selected = target.is_selected_by(selector);
                match judge_target_rustflags(file, selector, rustflags, &selected) {
                    Ok(selected) => {
                        found = found || selected;
                    },
                    Err(refusal) => {
                        proof {
                            lemma_targets_refusal_stays(file@, all, target@, i + 1);
                        }
                        return Err(refusal);
                    },
                }
            },
            None => {},
        }
        i += 1;
    }
    assert(all.take(i as int) == all);
    Ok(found)
}

/// What the configuration files give to a release build, in their order.
pub open spec fn release_of(files: Seq<Configuration>, target: Target) -> Result<
    Release,
    Seq<char>,
>
    decreases files.len(),
{
    if files.len() == 0 {
        Ok(Release { flags: Seq::empty(), matching: false })
    } else {
        match release_of(files.drop_last(), target) {
            Err(refusal) => Err(refusal),
            Ok(release) => match build_flags(files.last()) {
                Err(refusal) => Err(refusal),
                Ok(flags) => match target_flags(files.last(), target) {
                    Err(refusal) => Err(refusal),
                    Ok(matching) => Ok(
                        Release {
                            flags: release.flags + flags,
                            matching: release.matching || matching,
                        },
                    ),
                },
            },
        }
    }
}

proof fn lemma_release_refusal_stays(files: Seq<Configuration>, target: Target, n: int)
    requires
        0 <= n <= files.len(),
        release_of(files.take(n), target) is Err,
    ensures
        release_of(files, target) == release_of(files.take(n), target),
    decreases files.len(),
{
    if n == files.len() {
        assert(files.take(n) == files);
    } else {
        assert(files.drop_last().take(n) == files.take(n));
        lemma_release_refusal_stays(files.drop_last(), target, n);
    }
}

/// A result with what a release takes replaced by its model, and its refusal by its text.
pub open spec fn release_outcome(result: Result<ReleaseConfiguration, Failure>) -> Result<
    Release,
    Seq<char>,
> {
    match result {
        Ok(release) => Ok(release@),
        Err(refusal) => Err(refusal@),
    }
}

/// Appends `more` to `flags`.
fn extend_flags(flags: &mut Vec<Vec<u8>>, more: Vec<Vec<u8>>)
    ensures
        byte_strings(final(flags)@) == byte_strings(old(flags)@) + byte_strings(more@),
{
    let ghost before = byte_strings(flags@);
    let ghost added = byte_strings(more@);
    let mut i: usize = 0;
    assert(byte_strings(flags@) == before + added.take(0));
    while i < more.len()
        invariant
            i <= more@.len(),
            added == byte_strings(more@),
            byte_strings(flags@) == before + added.take(i as int),
        decreases more@.len() - i,
    {
        let ghost so_far = byte_strings(flags@);
        flags.push(owned(more[i].as_slice()));
        assert(byte_strings(flags@) == so_far.push(added[i as int]));
        assert(added.take(i + 1) == added.take(i as int).push(added[i as int]));
        i += 1;
    }
    assert(added.take(i as int) == added);
}

/// What the configuration files give to a release build.
pub fn scan_configurations(files: &Vec<CargoConfiguration>, target: &TargetContext) -> (result:
    Result<ReleaseConfiguration, Failure>)
    ensures
        release_outcome(result) == release_of(configurations(files@), target@),
{
    let ghost all = configurations(files@);
    let mut flags: Vec<Vec<u8>> = Vec::new();
    let mut matching = false;
    let mut i: usize = 0;
    assert(byte_strings(flags@) == Seq::<Seq<u8>>::empty());
    assert(all.take(0) == Seq::<Configuration>::empty());
    while i < files.len()
        invariant
            i <= files@.len(),
            all == configurations(files@),
            release_of(all.take(i as int), target@) == Ok::<Release, Seq<char>>(
                Release { flags: byte_strings(flags@), matching },
            ),
        decreases files@.len() - i,
    {
        proof {
            assert(all.take(i + 1).drop_last() == all.take(i as int));
            assert(all.take(i + 1).last() == files@[i as int]@);
        }
        let more = match collect_build_flags(&files[i]) {
            Ok(more) => more,
            Err(refusal) => {
                proof {
                    lemma_release_refusal_stays(all, target@, i + 1);
                }
                return Err(refusal);
            },
        };
        let found = match has_target_flags(&files[i], target) {
            Ok(found) => found,
            Err(refusal) => {
                proof {
                    lemma_release_refusal_stays(all, target@, i + 1);
                }
                return Err(refusal);
            },
        };
        extend_flags(&mut flags, more);
        matching = matching || found;
        i += 1;
    }
    assert(all.take(i as int) == all);
    Ok(
        ReleaseConfiguration {
            in_tree_build_rustflags: flags,
            has_matching_target_rustflags: matching,
        },
    )
}

/// A character of a target's name as it stands in the name of an environment variable.
pub open spec fn variable_char(c: char) -> char {
    if c == '-' {
        '_'
    } else if 'a' <= c <= 'z' {
        (c as u32 - 32) as char
    } else {
        c
    }
}

/// The environment variable that holds flags for one target.
pub open spec fn target_variable(triple: Seq<char>) -> Seq<char> {
    "CARGO_TARGET_"@ + Seq::new(triple.len(), |i: int| variable_char(triple[i])) + "_RUSTFLAGS"@
}

/// The environment variable that holds flags for one target.
pub fn target_rustflags_variable(triple: &str) -> (name: String)
    ensures
        name@ == target_variable(triple@),
{
    let chars = chars_of(triple);
    let mut name: Vec<char> = Vec::new();
    let mut i: usize = 0;
    while i < chars.len()
        invariant
            i <= chars@.len(),
            name@.len() == i,
            forall|k: int| 0 <= k < i ==> name@[k] == variable_char(chars@[k]),
        decreases chars@.len() - i,
    {
        let c = chars[i];
        if c == '-' {
            name.push('_');
        } else if 'a' <= c && c <= 'z' {
            name.push((c as u8 - 32) as char);
        } else {
            name.push(c);
        }
        i += 1;
    }
    assert(name@ == Seq::new(triple@.len(), |i: int| variable_char(triple@[i])));
    join3("CARGO_TARGET_", text_of(name.as_slice()).as_str(), "_RUSTFLAGS")
}

/// A result with configuration files replaced by their models, and its refusal by its text.
pub open spec fn files_outcome(result: Result<Vec<CargoConfiguration>, Failure>) -> Result<
    Seq<Configuration>,
    Seq<char>,
> {
    match result {
        Ok(files) => Ok(configurations(files@)),
        Err(refusal) => Err(refusal@),
    }
}

/// What `scan_release_configuration` returns.
pub open spec fn scan_outcome(
    variables: Seq<(Seq<u8>, Seq<u8>)>,
    files: Result<Seq<Configuration>, Seq<char>>,
    target: Target,
) -> Result<Release, Seq<char>> {
    let name = target_variable(target.triple);
    if value_of(variables, name) is Some {
        Err(
            "target-specific rustflags environment variable "@ + name
                + " overrides release path remapping; pass those flags through RUSTFLAGS or CARGO_ENCODED_RUSTFLAGS"@,
        )
    } else {
        match files {
            Err(refusal) => Err(refusal),
            Ok(files) => release_of(files, target),
        }
    }
}

/// What the environment and the configuration files, as a walk over them ended, give to a release
/// build.
pub fn scan_release_configuration(
    environment: &Environment,
    files: &Result<Vec<CargoConfiguration>, Failure>,
    target: &TargetContext,
) -> (result: Result<ReleaseConfiguration, Failure>)
    ensures
        release_outcome(result) == scan_outcome(environment@, files_outcome(*files), target@),
{
    let name = target_rustflags_variable(target.triple());
    if environment.has(name.as_str()) {
        return Err(
            Failure {
                message: join3(
                    "target-specific rustflags environment variable ",
                    name.as_str(),
                    " overrides release path remapping; pass those flags through RUSTFLAGS or CARGO_ENCODED_RUSTFLAGS",
                ),
            },
        );
    }
    match files {
        Ok(files) => scan_configurations(files, target),
        Err(refusal) => Err(refusal.again()),
    }
}

/// An accepted file outside the repository contributes no flags, sets no compiler, no SDK, no
/// deployment target and no key of the release profile, and has no flags for the target of the build.
pub proof fn law_foreign_files_change_nothing(file: Configuration, target: Target)
    requires
        !file.in_tree,
        build_flags(file) is Ok,
        target_flags(file, target) is Ok,
    ensures
        build_flags(file)->Ok_0 == Seq::<Seq<u8>>::empty(),
        foreign_build_outcome(file.value, file.path) is Ok,
        profile_outcome(file.value, file.path) is Ok,
        variables_outcome(file.value, file.path) is Ok,
        target_flags(file, target) == Ok::<bool, Seq<char>>(false),
{
    match as_table(member(file.value, "target"@)) {
        Some(targets) => lemma_foreign_targets(file, targets, target),
        None => {},
    }
}

proof fn lemma_foreign_targets(
    file: Configuration,
    targets: Seq<(Seq<char>, Node)>,
    target: Target,
)
    requires
        !file.in_tree,
        targets_outcome(file, targets, target) is Ok,
    ensures
        targets_outcome(file, targets, target) == Ok::<bool, Seq<char>>(false),
    decreases targets.len(),
{
    if targets.len() > 0 {
        lemma_foreign_targets(file, targets.drop_last(), target);
    }
}

/// The flags that a release takes from accepted configuration files set no option of the release
/// profile, file by file.
pub proof fn law_accepted_files_leave_the_profile_alone(
    files: Seq<Configuration>,
    target: Target,
    i: int,
)
    requires
        0 <= i < files.len(),
        release_of(files, target) is Ok,
    ensures
        build_flags(files[i]) is Ok,
        codegen_outcome(build_flags(files[i])->Ok_0) is Ok,
    decreases files.len(),
{
    if i == files.len() - 1 {
        assert(codegen_outcome(Seq::<Seq<u8>>::empty()) is Ok);
    } else {
        law_accepted_files_leave_the_profile_alone(files.drop_last(), target, i);
        assert(files.drop_last()[i] == files[i]);
    }
}

/// Whether the entry of a target table has flags, and its selector selects the target of the build.
pub open spec fn has_flags_for(entry: (Seq<char>, Node), target: Target) -> bool {
    member(entry.1, "rustflags"@) is Some && selects(entry.0, target.triple, target.cfg) == Ok::<
        bool,
        Seq<char>,
    >(true)
}

/// Whether the entry of a target table is accepted: one with flags must have a selector that can be
/// evaluated, and, where that selects the target of the build, stand in the repository and have flags
/// that are accepted.
pub open spec fn is_acceptable(
    file: Configuration,
    entry: (Seq<char>, Node),
    target: Target,
) -> bool {
    match member(entry.1, "rustflags"@) {
        None => true,
        Some(rustflags) => match selects(entry.0, target.triple, target.cfg) {
            Err(_) => false,
            Ok(false) => true,
            Ok(true) => file.in_tree && (flags_of(
                rustflags,
                file.path,
                "target."@ + entry.0 + ".rustflags"@,
            ) matches Ok(flags) && codegen_outcome(flags) is Ok),
        },
    }
}

proof fn lemma_targets(file: Configuration, targets: Seq<(Seq<char>, Node)>, target: Target)
    ensures
        targets_outcome(file, targets, target) is Ok <==> forall|i: int|
            0 <= i < targets.len() ==> is_acceptable(file, #[trigger] targets[i], target),
        targets_outcome(file, targets, target) is Ok ==> (targets_outcome(file, targets, target)
            == Ok::<bool, Seq<char>>(true) <==> exists|i: int|
            0 <= i < targets.len() && has_flags_for(#[trigger] targets[i], target)),
    decreases targets.len(),
{
    if targets.len() > 0 {
        let rest = targets.drop_last();
        let last = targets[targets.len() - 1];
        lemma_targets(file, rest, target);
        assert forall|i: int| 0 <= i < rest.len() implies rest[i] == #[trigger] targets[i] by {}
        if targets_outcome(file, rest, target) is Ok {
            assert forall|i: int| 0 <= i < targets.len() - 1 implies is_acceptable(
                file,
                #[trigger] targets[i],
                target,
            ) by {
                assert(is_acceptable(file, rest[i], target));
            }
            if targets_outcome(file, targets, target) is Ok {
                assert(is_acceptable(file, last, target));
                assert forall|i: int| 0 <= i < targets.len() implies is_acceptable(
                    file,
                    #[trigger] targets[i],
                    target,
                ) by {}
                if exists|i: int| 0 <= i < rest.len() && has_flags_for(#[trigger] rest[i], target) {
                    let i = choose|i: int|
                        0 <= i < rest.len() && has_flags_for(#[trigger] rest[i], target);
                    assert(has_flags_for(targets[i], target));
                }
                if exists|i: int|
                    0 <= i < targets.len() && has_flags_for(#[trigger] targets[i], target) {
                    let i = choose|i: int|
                        0 <= i < targets.len() && has_flags_for(#[trigger] targets[i], target);
                    if i < rest.len() {
                        assert(has_flags_for(rest[i], target));
                    }
                }
            } else {
                assert(!is_acceptable(file, last, target));
            }
        } else {
            let i = choose|i: int|
                0 <= i < rest.len() && !is_acceptable(file, #[trigger] rest[i], target);
            assert(!is_acceptable(file, targets[i], target));
        }
    }
}

/// The entries of the target table of a file.
pub open spec fn targets_in(file: Configuration) -> Seq<(Seq<char>, Node)> {
    match member(file.value, "target"@) {
        Some(Node::Table(targets)) => targets,
        _ => Seq::empty(),
    }
}

/// A file has flags for the target of the build where any of its selectors that has flags selects that
/// target, wherever it stands among the others. It is accepted where every one of them is.
pub proof fn law_any_selector_with_flags_counts(file: Configuration, target: Target)
    ensures
        target_flags(file, target) is Ok <==> forall|i: int|
            0 <= i < targets_in(file).len() ==> is_acceptable(
                file,
                #[trigger] targets_in(file)[i],
                target,
            ),
        target_flags(file, target) is Ok ==> (target_flags(file, target) == Ok::<
            bool,
            Seq<char>,
        >(true) <==> exists|i: int|
            0 <= i < targets_in(file).len() && has_flags_for(
                #[trigger] targets_in(file)[i],
                target,
            )),
{
    lemma_targets(file, targets_in(file), target);
}

/// Whether a file is accepted.
pub open spec fn is_accepted(file: Configuration, target: Target) -> bool {
    build_flags(file) is Ok && target_flags(file, target) is Ok
}

/// Files are accepted where each of them is. A release then has flags for its target where any of them
/// has, wherever it stands among the others, and takes the flags of all of them, in their order.
pub proof fn law_any_file_with_flags_counts(files: Seq<Configuration>, target: Target)
    ensures
        release_of(files, target) is Ok <==> forall|i: int|
            0 <= i < files.len() ==> is_accepted(#[trigger] files[i], target),
        release_of(files, target) is Ok ==> (release_of(files, target)->Ok_0.matching <==> exists|
            i: int,
            k: int,
        |
            #![trigger has_flags_for(targets_in(files[i])[k], target)]
            0 <= i < files.len() && 0 <= k < targets_in(files[i]).len() && has_flags_for(
                targets_in(files[i])[k],
                target,
            )),
    decreases files.len(),
{
    if files.len() > 0 {
        let rest = files.drop_last();
        let last = files[files.len() - 1];
        law_any_file_with_flags_counts(rest, target);
        law_any_selector_with_flags_counts(last, target);
        if release_of(rest, target) is Ok {
            assert forall|i: int| 0 <= i < files.len() - 1 implies is_accepted(
                #[trigger] files[i],
                target,
            ) by {
                assert(is_accepted(rest[i], target));
            }
            if release_of(files, target) is Ok {
                assert(is_accepted(last, target));
                assert forall|i: int| 0 <= i < files.len() implies is_accepted(
                    #[trigger] files[i],
                    target,
                ) by {}
                if release_of(rest, target)->Ok_0.matching {
                    let (i, k) = choose|i: int, k: int|
                        #![trigger has_flags_for(targets_in(rest[i])[k], target)]
                        0 <= i < rest.len() && 0 <= k < targets_in(rest[i]).len() && has_flags_for(
                            targets_in(rest[i])[k],
                            target,
                        );
                    assert(rest[i] == files[i]);
                    assert(has_flags_for(targets_in(files[i])[k], target));
                }
                if target_flags(last, target) == Ok::<bool, Seq<char>>(true) {
                    let k = choose|k: int|
                        0 <= k < targets_in(last).len() && has_flags_for(
                            #[trigger] targets_in(last)[k],
                            target,
                        );
                    assert(has_flags_for(targets_in(files[files.len() - 1])[k], target));
                }
                if exists|i: int, k: int|
                    #![trigger has_flags_for(targets_in(files[i])[k], target)]
                    0 <= i < files.len() && 0 <= k < targets_in(files[i]).len() && has_flags_for(
                        targets_in(files[i])[k],
                        target,
                    ) {
                    let (i, k) = choose|i: int, k: int|
                        #![trigger has_flags_for(targets_in(files[i])[k], target)]
                        0 <= i < files.len() && 0 <= k < targets_in(files[i]).len()
                            && has_flags_for(targets_in(files[i])[k], target);
                    if i < rest.len() {
                        assert(rest[i] == files[i]);
                        assert(has_flags_for(targets_in(rest[i])[k], target));
                    } else {
                        assert(has_flags_for(targets_in(last)[k], target));
                    }
                }
            } else {
                assert(!is_accepted(last, target));
            }
        } else {
            let i = choose|i: int| 0 <= i < rest.len() && !is_accepted(#[trigger] rest[i], target);
            assert(rest[i] == files[i]);
            assert(!is_accepted(files[i], target));
        }
    }
}

/// The flags that a release takes from two runs of files are those of the one and those of the other.
pub proof fn law_flags_are_taken_in_order(
    first: Seq<Configuration>,
    second: Seq<Configuration>,
    target: Target,
)
    requires
        release_of(first + second, target) is Ok,
    ensures
        release_of(first, target) is Ok,
        release_of(second, target) is Ok,
        release_of(first + second, target)->Ok_0.flags == release_of(first, target)->Ok_0.flags
            + release_of(second, target)->Ok_0.flags,
        second.len() == 1 ==> release_of(second, target)->Ok_0.flags == build_flags(
            second[0],
        )->Ok_0,
    decreases second.len(),
{
    if second.len() == 0 {
        assert(first + second == first);
        let flags = release_of(first, target)->Ok_0.flags;
        assert(flags + Seq::<Seq<u8>>::empty() == flags);
    } else {
        let rest = second.drop_last();
        assert((first + second).drop_last() == first + rest);
        assert((first + second).last() == second.last());
        law_flags_are_taken_in_order(first, rest, target);
        let own = build_flags(second.last())->Ok_0;
        let head = release_of(first, target)->Ok_0.flags;
        let middle = release_of(rest, target)->Ok_0.flags;
        assert(head + middle + own == head + (middle + own));
        if second.len() == 1 {
            assert(rest == Seq::<Configuration>::empty());
            assert(Seq::<Seq<u8>>::empty() + own == own);
        }
    }
}

/// A file in the repository gives the flags of its `build.rustflags`, where they set no option of the
/// profile, and without that key none. Nothing else in it is refused here.
pub proof fn law_flags_of_the_repository_are_taken(file: Configuration)
    requires
        file.in_tree,
    ensures
        match member_at(file.value, seq!["build"@, "rustflags"@]) {
            None => build_flags(file) == Ok::<Seq<Seq<u8>>, Seq<char>>(Seq::empty()),
            Some(value) => match flags_of(value, file.path, "build.rustflags"@) {
                Err(refusal) => build_flags(file) == Err::<Seq<Seq<u8>>, Seq<char>>(refusal),
                Ok(flags) => match codegen_outcome(flags) {
                    Err(refusal) => build_flags(file) == Err::<Seq<Seq<u8>>, Seq<char>>(refusal),
                    Ok(()) => build_flags(file) == Ok::<Seq<Seq<u8>>, Seq<char>>(flags),
                },
            },
        },
{
}

/// A file outside the repository is accepted where it sets no flags, no compiler and no wrapper of one,
/// no key of the release profile, no SDK, no developer directory and no deployment target; it then gives
/// no flags. Setting any of these refuses it.
pub proof fn law_foreign_settings_are_refused(file: Configuration)
    requires
        !file.in_tree,
    ensures
        build_flags(file) is Ok <==> {
            &&& member_at(file.value, seq!["build"@, "rustflags"@]) is None
            &&& member_at(file.value, seq!["build"@, "rustc"@]) is None
            &&& member_at(file.value, seq!["build"@, "rustc-wrapper"@]) is None
            &&& member_at(file.value, seq!["build"@, "rustc-workspace-wrapper"@]) is None
            &&& member_at(file.value, seq!["profile"@, "release"@]) matches Some(Node::Table(keys))
                ==> keys.len() == 0
            &&& member_at(file.value, seq!["env"@, "SDKROOT"@]) is None
            &&& member_at(file.value, seq!["env"@, "DEVELOPER_DIR"@]) is None
            &&& member_at(file.value, seq!["env"@, "MACOSX_DEPLOYMENT_TARGET"@]) is None
        },
        build_flags(file) is Ok ==> build_flags(file)->Ok_0.len() == 0,
{
}

/// A list is a list of flags where all of its items are texts, and each flag is the text at its place.
pub proof fn law_lists_of_flags_hold_texts(items: Seq<Node>, path: Seq<u8>, key: Seq<char>)
    ensures
        flags_of(Node::List(items), path, key) is Ok <==> forall|i: int|
            0 <= i < items.len() ==> #[trigger] items[i] is Text,
        flags_of(Node::List(items), path, key) matches Ok(flags) ==> flags.len() == items.len()
            && forall|i: int|
            0 <= i < items.len() ==> #[trigger] items[i] is Text && flags[i] == encode_utf8(
                items[i]->Text_0,
            ),
    decreases items.len(),
{
    if items.len() > 0 {
        let rest = items.drop_last();
        law_lists_of_flags_hold_texts(rest, path, key);
        assert(items[items.len() - 1] == items.last());
        if listed_flags(items) is Some {
            let flags = listed_flags(items)->Some_0;
            let head = listed_flags(rest)->Some_0;
            assert forall|i: int| 0 <= i < items.len() implies #[trigger] items[i] is Text && flags[i]
                == encode_utf8(items[i]->Text_0) by {
                if i < rest.len() {
                    assert(rest[i] == items[i]);
                    assert(flags[i] == head[i]);
                }
            }
        } else if listed_flags(rest) is None {
            let i = choose|i: int| 0 <= i < rest.len() && !(#[trigger] rest[i] is Text);
            assert(!(items[i] is Text));
        }
    }
}

/// A text is the flags that its words are; anything but a text or a list is refused.
pub proof fn law_texts_are_flags_by_their_words(value: Node, path: Seq<u8>, key: Seq<char>, i: int)
    ensures
        value matches Node::Text(text) ==> (flags_of(value, path, key) matches Ok(flags)
            && flags.len() == words(text, false).len() && (0 <= i < flags.len() ==> flags[i]
            == encode_utf8(words(text, false)[i]))),
        !(value is Text) && !(value is List) ==> flags_of(value, path, key) is Err,
{
}

/// The variable with the flags of one target is named after it, in upper case and with underscores for
/// hyphens, and where it is set nothing is accepted, whatever the files hold.
pub proof fn law_target_variables_are_refused(
    variables: Seq<(Seq<u8>, Seq<u8>)>,
    files: Result<Seq<Configuration>, Seq<char>>,
    target: Target,
    k: int,
)
    ensures
        ({
            let name = target_variable(target.triple);
            &&& "CARGO_TARGET_"@.is_prefix_of(name) && "_RUSTFLAGS"@.is_suffix_of(name)
            &&& name.len() == 13 + target.triple.len() + 10
            &&& 0 <= k < target.triple.len() ==> {
                let c = target.triple[k];
                let put = name[13 + k];
                &&& c == '-' ==> put == '_'
                &&& 'a' <= c <= 'z' ==> put as u32 + 32 == c as u32
                &&& c != '-' && !('a' <= c <= 'z') ==> put == c
            }
            &&& value_of(variables, name) is Some ==> scan_outcome(variables, files, target) is Err
            &&& value_of(variables, name) is None ==> scan_outcome(variables, files, target) == (
            match files {
                Err(refusal) => Err(refusal),
                Ok(files) => release_of(files, target),
            })
        }),
{
    reveal_strlit("CARGO_TARGET_");
    reveal_strlit("_RUSTFLAGS");
    let name = target_variable(target.triple);
    let inner = Seq::new(target.triple.len(), |i: int| variable_char(target.triple[i]));
    assert(name.subrange(0, 13) == "CARGO_TARGET_"@);
    assert(name.subrange(name.len() - 10, name.len() as int) == "_RUSTFLAGS"@);
    if 0 <= k < target.triple.len() {
        assert(name[13 + k] == inner[k]);
    }
}

} // verus!
