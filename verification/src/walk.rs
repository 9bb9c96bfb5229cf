//! The walk over Cargo's configuration files: where they may lie, and which others they name.
//!
//! The walk asks for one file after the other. A file's own references come next, before the files
//! that were waiting, and a file that was seen before under any path counts for nothing.

use vstd::prelude::*;
use vstd::utf8::encode_utf8;

use crate::bytes::{byte_strings, owned, read};
use crate::configuration::{configurations, files_outcome, nodes, CargoConfiguration, Configuration};
use crate::documents::{document, parse_toml, toml_document};
use crate::encoding::{lossy, lossy_text};
use crate::failure::{failure, Failure};
use crate::nested::paths_outcome;
use crate::order::{law_orderings_are_unique, sort_and_dedup, sorted_and_distinct};
use crate::path::{
    ancestors, ancestors_of, below, components, is_below, is_same_place, join, join_text, joined,
    parent, parent_of, same_place,
};
use crate::text::{join2, join3, join4, pieces};
use crate::tree::{member, Node, Tree};

verus! {

/// The two files that a directory may hold the configuration in.
pub open spec fn pair_in(directory: Seq<u8>, first: Seq<char>, second: Seq<char>) -> Seq<Seq<u8>> {
    seq![joined(directory, encode_utf8(first)), joined(directory, encode_utf8(second))]
}

/// The files that the directories may hold the configuration in.
pub open spec fn pairs_in(directories: Seq<Seq<u8>>) -> Seq<Seq<u8>>
    decreases directories.len(),
{
    if directories.len() == 0 {
        Seq::empty()
    } else {
        pairs_in(directories.drop_last()) + pair_in(
            directories.last(),
            ".cargo/config.toml"@,
            ".cargo/config"@,
        )
    }
}

/// The files that may hold the configuration for the repository at `root`: those of its directory
/// and of every directory above, and those of Cargo's home.
pub open spec fn candidates(root: Seq<u8>, cargo_home: Seq<u8>) -> Seq<Seq<u8>> {
    pairs_in(ancestors(root)) + pair_in(cargo_home, "config.toml"@, "config"@)
}

/// The files that may hold the configuration for the repository at `root`, in order, each place
/// once.
pub fn candidate_files(root: &[u8], cargo_home: &[u8]) -> (paths: Vec<Vec<u8>>)
    ensures
        sorted_and_distinct(candidates(root@, cargo_home@), byte_strings(paths@)),
{
    let directories = ancestors_of(root);
    let ghost all = pieces(directories@);
    let mut paths: Vec<Vec<u8>> = Vec::new();
    let mut i: usize = 0;
    assert(byte_strings(paths@) == pairs_in(all.take(0)));
    while i < directories.len()
        invariant
            i <= directories@.len(),
            all == pieces(directories@),
            byte_strings(paths@) == pairs_in(all.take(i as int)),
        decreases directories@.len() - i,
    {
        let ghost before = byte_strings(paths@);
        proof {
            assert(all.take(i + 1).drop_last() == all.take(i as int));
            assert(all.take(i + 1).last() == directories@[i as int]@);
        }
        paths.push(join_text(directories[i], ".cargo/config.toml"));
        paths.push(join_text(directories[i], ".cargo/config"));
        assert(byte_strings(paths@) == before + pair_in(
            directories@[i as int]@,
            ".cargo/config.toml"@,
            ".cargo/config"@,
        ));
        i += 1;
    }
    assert(all.take(i as int) == all);
    let ghost before = byte_strings(paths@);
    paths.push(join_text(cargo_home, "config.toml"));
    paths.push(join_text(cargo_home, "config"));
    assert(byte_strings(paths@) == before + pair_in(cargo_home@, "config.toml"@, "config"@));
    sort_and_dedup(&paths)
}

/// The paths that a list holds, all of which must be strings.
pub open spec fn listed_paths(items: Seq<Node>) -> Option<Seq<Seq<u8>>>
    decreases items.len(),
{
    if items.len() == 0 {
        Some(Seq::empty())
    } else {
        match listed_paths(items.drop_last()) {
            Some(paths) => match items.last() {
                Node::Text(path) => Some(paths.push(encode_utf8(path))),
                _ => None,
            },
            None => None,
        }
    }
}

/// The paths that the value of `include` in the file `path` stands for, as they are written.
pub open spec fn written_references(value: Node, path: Seq<u8>) -> Result<
    Seq<Seq<u8>>,
    Seq<char>,
> {
    match value {
        Node::Text(text) => Ok(seq![encode_utf8(text)]),
        Node::List(items) => match listed_paths(items) {
            Some(paths) => Ok(paths),
            None => Err(
                "include entries in "@ + lossy(path) + " must be paths"@,
            ),
        },
        _ => Err(
            "include in "@ + lossy(path) + " must be a path or an array of paths"@,
        ),
    }
}

/// Paths taken relative to a directory.
pub open spec fn all_joined(directory: Seq<u8>, paths: Seq<Seq<u8>>) -> Seq<Seq<u8>> {
    Seq::new(paths.len(), |i: int| joined(directory, paths[i]))
}

/// The files that the file `path` refers to. They are taken relative to its directory.
pub open spec fn references(value: Node, path: Seq<u8>) -> Result<Seq<Seq<u8>>, Seq<char>> {
    match member(value, "include"@) {
        None => Ok(Seq::empty()),
        Some(value) => match written_references(value, path) {
            Err(refusal) => Err(refusal),
            Ok(paths) => match parent(path) {
                None => Err("Cargo configuration has no parent: "@ + lossy(path)),
                Some(directory) => Ok(all_joined(directory, paths)),
            },
        },
    }
}

proof fn lemma_listed_paths_stay(items: Seq<Node>, n: int)
    requires
        0 <= n <= items.len(),
        listed_paths(items.take(n)) is None,
    ensures
        listed_paths(items) is None,
    decreases items.len(),
{
    if n == items.len() {
        assert(items.take(n) == items);
    } else {
        assert(items.drop_last().take(n) == items.take(n));
        lemma_listed_paths_stay(items.drop_last(), n);
    }
}

/// The paths that a list holds.
fn list_paths(items: &Vec<Tree>) -> (paths: Option<Vec<Vec<u8>>>)
    ensures
        match paths {
            Some(paths) => listed_paths(nodes(items@)) == Some(byte_strings(paths@)),
            None => listed_paths(nodes(items@)) is None,
        },
{
    let ghost all = nodes(items@);
    let mut paths: Vec<Vec<u8>> = Vec::new();
    let mut i: usize = 0;
    assert(byte_strings(paths@) == Seq::<Seq<u8>>::empty());
    assert(all.take(0) == Seq::<Node>::empty());
    while i < items.len()
        invariant
            i <= items@.len(),
            all == nodes(items@),
            listed_paths(all.take(i as int)) == Some(byte_strings(paths@)),
        decreases items@.len() - i,
    {
        let ghost before = byte_strings(paths@);
        proof {
            assert(all.take(i + 1).drop_last() == all.take(i as int));
            assert(all.take(i + 1).last() == items@[i as int]@);
        }
        match &items[i] {
            Tree::Text(path) => {
                paths.push(owned(path.as_str().as_bytes()));
                assert(byte_strings(paths@) == before.push(encode_utf8(path@)));
            },
            _ => {
                proof {
                    lemma_listed_paths_stay(all, i + 1);
                }
                return None;
            },
        }
        i += 1;
    }
    assert(all.take(i as int) == all);
    Some(paths)
}

/// The paths that the value of `include` in the file `path` stands for, as they are written.
fn find_written_references(value: &Tree, path: &[u8]) -> (result: Result<Vec<Vec<u8>>, Failure>)
    ensures
        paths_outcome(result) == written_references(value@, path@),
{
    match value {
        Tree::Text(text) => {
            let mut paths: Vec<Vec<u8>> = Vec::new();
            paths.push(owned(text.as_str().as_bytes()));
            assert(byte_strings(paths@) == seq![encode_utf8(text@)]);
            Ok(paths)
        },
        Tree::List(items) => {
            assert(value@ == Node::List(nodes(items@))) by {
                assert(value@->List_0 =~= nodes(items@));
            }
            match list_paths(items) {
                Some(paths) => Ok(paths),
                None => {
                    let shown = lossy_text(path);
                    Err(
                        Failure {
                            message: join3("include entries in ", shown.as_str(), " must be paths"),
                        },
                    )
                },
            }
        },
        _ => {
            let shown = lossy_text(path);
            Err(
                Failure {
                    message: join3(
                        "include in ",
                        shown.as_str(),
                        " must be a path or an array of paths",
                    ),
                },
            )
        },
    }
}

/// The files that the file `path` refers to.
pub fn configuration_includes(value: &Tree, path: &[u8]) -> (result: Result<Vec<Vec<u8>>, Failure>)
    ensures
        paths_outcome(result) == references(value@, path@),
{
    let mut paths: Vec<Vec<u8>> = Vec::new();
    let written = match value.get("include") {
        Some(value) => match find_written_references(value, path) {
            Ok(written) => written,
            Err(refusal) => return Err(refusal),
        },
        None => {
            assert(byte_strings(paths@) == Seq::<Seq<u8>>::empty());
            return Ok(paths);
        },
    };
    let directory = match parent_of(path) {
        Some(directory) => directory,
        None => {
            let shown = lossy_text(path);
            return Err(
                Failure {
                    message: join2("Cargo configuration has no parent: ", shown.as_str()),
                },
            );
        },
    };
    let mut i: usize = 0;
    while i < written.len()
        invariant
            i <= written@.len(),
            paths@.len() == i,
            forall|k: int|
                0 <= k < i ==> (#[trigger] paths@[k])@ == joined(directory@, written@[k]@),
        decreases written@.len() - i,
    {
        paths.push(join(directory, written[i].as_slice()));
        i += 1;
    }
    assert(byte_strings(paths@) == all_joined(directory@, byte_strings(written@)));
    Ok(paths)
}

/// What reading a file gave that need not be there: its text, nothing, or the reason why it could not
/// be read.
pub open spec fn read_if_there(contents: Result<Option<String>, String>) -> Result<
    Option<Seq<char>>,
    Seq<char>,
> {
    match contents {
        Ok(Some(text)) => Ok(Some(text@)),
        Ok(None) => Ok(None),
        Err(fault) => Err(fault@),
    }
}

/// The document in a TOML file that need not be there.
pub open spec fn optional_document(
    path: Seq<u8>,
    description: Seq<char>,
    contents: Result<Option<Seq<char>>, Seq<char>>,
) -> Result<Option<Node>, Seq<char>> {
    match contents {
        Err(fault) => Err(
            "cannot read "@ + description + " "@ + lossy(path) + ": "@ + fault,
        ),
        Ok(None) => Ok(None),
        Ok(Some(text)) => match toml_document(text) {
            Ok(value) => Ok(Some(value)),
            Err(fault) => Err(
                "cannot parse "@ + description + " "@ + lossy(path) + ": "@ + fault,
            ),
        },
    }
}

/// A result with a document replaced by its model, and its refusal by its text.
pub open spec fn tree_outcome(result: Result<Option<Tree>, Failure>) -> Result<
    Option<Node>,
    Seq<char>,
> {
    match result {
        Ok(Some(tree)) => Ok(Some(tree@)),
        Ok(None) => Ok(None),
        Err(refusal) => Err(refusal@),
    }
}

/// The document in the TOML file `path`, by what reading the file gave.
pub fn read_toml_file(
    path: &[u8],
    description: &str,
    contents: &Result<Option<String>, String>,
) -> (result: Result<Option<Tree>, Failure>)
    ensures
        tree_outcome(result) == optional_document(path@, description@, read_if_there(*contents)),
{
    match contents {
        Err(fault) => {
            let shown = lossy_text(path);
            let head = join4("cannot read ", description, " ", shown.as_str());
            Err(Failure { message: join3(head.as_str(), ": ", fault.as_str()) })
        },
        Ok(None) => Ok(None),
        Ok(Some(text)) => match parse_toml(text.as_str()) {
            Ok(tree) => Ok(Some(tree)),
            Err(fault) => {
                let shown = lossy_text(path);
                let head = join4("cannot parse ", description, " ", shown.as_str());
                Err(Failure { message: join3(head.as_str(), ": ", fault.as_str()) })
            },
        },
    }
}

/// How far a walk over configuration files has come.
#[derive(Debug)]
pub struct ConfigurationWalk {
    /// The canonical path of the repository.
    root: Vec<u8>,
    /// The files that wait, the next one last.
    waiting: Vec<Vec<u8>>,
    /// The files that were read.
    collected: Vec<CargoConfiguration>,
}

/// The model of a `ConfigurationWalk`.
#[verifier::ext_equal]
pub struct Walk {
    pub root: Seq<u8>,
    /// The files that wait, the next one first.
    pub waiting: Seq<Seq<u8>>,
    pub collected: Seq<Configuration>,
}

impl View for ConfigurationWalk {
    type V = Walk;

    closed spec fn view(&self) -> Walk {
        Walk {
            root: self.root@,
            waiting: byte_strings(self.waiting@).reverse(),
            collected: configurations(self.collected@),
        }
    }
}

/// Whether a file was read under a canonical path with the components of `path`.
pub open spec fn seen(files: Seq<Configuration>, path: Seq<u8>) -> bool {
    exists|i: int| 0 <= i < files.len() && same_place((#[trigger] files[i]).path, path)
}

/// Whether a walk has read no file twice, and has told those in the repository from the others.
pub open spec fn well_formed(walk: Walk) -> bool {
    &&& forall|i: int, j: int|
        0 <= i < j < walk.collected.len() ==> !same_place(
            (#[trigger] walk.collected[i]).path,
            (#[trigger] walk.collected[j]).path,
        )
    &&& forall|i: int|
        0 <= i < walk.collected.len() ==> (#[trigger] walk.collected[i]).in_tree == below(
            walk.collected[i].path,
            walk.root,
        )
}

/// The walk beyond its next file, where that file holds `value`, or is not there, and resolves to
/// `canonical`.
pub open spec fn visited(
    walk: Walk,
    value: Option<Node>,
    canonical: Result<Seq<u8>, Seq<char>>,
) -> Result<Walk, Seq<char>> {
    let rest = walk.waiting.skip(1);
    match value {
        None => Ok(Walk { waiting: rest, ..walk }),
        Some(value) => match canonical {
            Err(fault) => Err(fault),
            Ok(path) => if seen(walk.collected, path) {
                Ok(Walk { waiting: rest, ..walk })
            } else {
                match references(value, path) {
                    Err(refusal) => Err(refusal),
                    Ok(more) => Ok(
                        Walk {
                            root: walk.root,
                            waiting: more + rest,
                            collected: walk.collected.push(
                                Configuration { path, value, in_tree: below(path, walk.root) },
                            ),
                        },
                    ),
                }
            },
        },
    }
}

/// The walk beyond its next file, by what reading and resolving the file gave.
pub open spec fn advanced(
    walk: Walk,
    contents: Result<Option<Seq<char>>, Seq<char>>,
    canonical: Result<Seq<u8>, Seq<char>>,
) -> Result<Walk, Seq<char>> {
    match optional_document(walk.waiting[0], "Cargo configuration"@, contents) {
        Err(refusal) => Err(refusal),
        Ok(value) => visited(walk, value, canonical),
    }
}

/// A result with a walk replaced by its model, and its refusal by its text.
pub open spec fn walk_outcome(result: Result<ConfigurationWalk, Failure>) -> Result<
    Walk,
    Seq<char>,
> {
    match result {
        Ok(walk) => Ok(walk@),
        Err(refusal) => Err(refusal@),
    }
}

/// Whether a file was read under a canonical path with the components of `path`.
fn has_seen(files: &Vec<CargoConfiguration>, path: &[u8]) -> (r: bool)
    ensures
        r == seen(configurations(files@), path@),
{
    let ghost all = configurations(files@);
    let mut i: usize = 0;
    while i < files.len()
        invariant
            i <= files@.len(),
            all == configurations(files@),
            forall|k: int| 0 <= k < i ==> !same_place((#[trigger] all[k]).path, path@),
        decreases files@.len() - i,
    {
        assert(all[i as int].path == files@[i as int].path@);
        if is_same_place(files[i].path.as_slice(), path) {
            return true;
        }
        i += 1;
    }
    false
}

/// The same paths in the opposite order.
fn reversed(paths: &Vec<Vec<u8>>) -> (result: Vec<Vec<u8>>)
    ensures
        byte_strings(result@) == byte_strings(paths@).reverse(),
{
    let ghost wanted = byte_strings(paths@).reverse();
    let mut result: Vec<Vec<u8>> = Vec::new();
    let mut i: usize = paths.len();
    while i > 0
        invariant
            i <= paths@.len(),
            wanted == byte_strings(paths@).reverse(),
            result@.len() == paths@.len() - i,
            forall|k: int| 0 <= k < result@.len() ==> (#[trigger] result@[k])@ == wanted[k],
        decreases i,
    {
        i -= 1;
        result.push(owned(paths[i].as_slice()));
    }
    assert(byte_strings(result@) == wanted);
    result
}

/// The walk before its first file.
pub open spec fn walk_start(root: Seq<u8>, cargo_home: Seq<u8>) -> Walk {
    Walk {
        root,
        waiting: choose|paths: Seq<Seq<u8>>|
            sorted_and_distinct(candidates(root, cargo_home), paths),
        collected: Seq::empty(),
    }
}

impl ConfigurationWalk {
    /// The walk before its first file, for the repository with the canonical path `root`.
    pub fn start(root: &[u8], cargo_home: &[u8]) -> (walk: Self)
        ensures
            walk@ == walk_start(root@, cargo_home@),
            walk@.root == root@,
            sorted_and_distinct(candidates(root@, cargo_home@), walk@.waiting),
            walk@.collected == Seq::<Configuration>::empty(),
            well_formed(walk@),
    {
        let paths = candidate_files(root, cargo_home);
        let waiting = reversed(&paths);
        let walk = ConfigurationWalk { root: owned(root), waiting, collected: Vec::new() };
        assert(walk@.waiting == byte_strings(paths@));
        assert(walk@.collected == Seq::<Configuration>::empty());
        proof {
            law_orderings_are_unique(
                candidates(root@, cargo_home@),
                walk@.waiting,
                walk_start(root@, cargo_home@).waiting,
            );
        }
        assert(walk@ =~= walk_start(root@, cargo_home@));
        walk
    }

    /// The file that the walk asks for next.
    pub fn next(&self) -> (path: Option<&[u8]>)
        ensures
            crate::text::piece(path) == (if self@.waiting.len() > 0 {
                Some(self@.waiting[0])
            } else {
                None
            }),
    {
        let length = self.waiting.len();
        if length > 0 {
            assert(self@.waiting[0] == self.waiting@[length - 1]@);
            Some(self.waiting[length - 1].as_slice())
        } else {
            None
        }
    }

    /// The walk beyond its next file, where that file holds `value`, or is not there, and resolves to
    /// `canonical`.
    pub fn visit(self, value: Option<Tree>, canonical: &Result<Vec<u8>, String>) -> (result: Result<
        Self,
        Failure,
    >)
        requires
            self@.waiting.len() > 0,
        ensures
            walk_outcome(result) == visited(
                self@,
                match value {
                    Some(value) => Some(value@),
                    None => None,
                },
                read(*canonical),
            ),
            well_formed(self@) && result is Ok ==> well_formed(result->Ok_0@),
    {
        let ghost before = self@;
        let mut walk = self;
        let ghost stack = byte_strings(walk.waiting@);
        walk.waiting.pop();
        assert(byte_strings(walk.waiting@) == stack.drop_last());
        assert(stack.drop_last().reverse() == before.waiting.skip(1));
        assert(walk@ == (Walk { waiting: before.waiting.skip(1), ..before }));
        let value = match value {
            Some(value) => value,
            None => return Ok(walk),
        };
        let path = match canonical {
            Ok(path) => path,
            Err(fault) => return Err(failure(fault.as_str())),
        };
        if has_seen(&walk.collected, path.as_slice()) {
            return Ok(walk);
        }
        let more = match configuration_includes(&value, path.as_slice()) {
            Ok(more) => more,
            Err(refusal) => return Err(refusal),
        };
        let in_tree = is_below(path.as_slice(), walk.root.as_slice());
        let file = CargoConfiguration { path: owned(path.as_slice()), value, in_tree };
        let ghost model = file@;
        walk.collected.push(file);
        assert(walk@.collected == before.collected.push(model));
        let mut i: usize = more.len();
        let ghost rest = before.waiting.skip(1);
        let ghost new = byte_strings(more@);
        assert(new.skip(i as int) + rest == rest);
        while i > 0
            invariant
                i <= more@.len(),
                new == byte_strings(more@),
                byte_strings(walk.waiting@).reverse() == new.skip(i as int) + rest,
                walk.root@ == before.root,
                configurations(walk.collected@) == before.collected.push(model),
            decreases i,
        {
            i -= 1;
            let ghost so_far = byte_strings(walk.waiting@);
            walk.waiting.push(owned(more[i].as_slice()));
            proof {
                assert(byte_strings(walk.waiting@) == so_far.push(new[i as int]));
                assert(so_far.push(new[i as int]).reverse() == seq![new[i as int]]
                    + so_far.reverse());
                assert(new.skip(i as int) == seq![new[i as int]] + new.skip(i + 1));
                assert(seq![new[i as int]] + (new.skip(i + 1) + rest) == new.skip(i as int) + rest);
            }
        }
        assert(new.skip(0) == new);
        proof {
            if well_formed(before) {
                lemma_well_formed_stays(before, model, walk@.waiting);
            }
        }
        Ok(walk)
    }

    /// The walk beyond its next file, by what reading and resolving the file gave.
    pub fn advance(
        self,
        contents: &Result<Option<String>, String>,
        canonical: &Result<Vec<u8>, String>,
    ) -> (result: Result<Self, Failure>)
        requires
            self@.waiting.len() > 0,
        ensures
            walk_outcome(result) == advanced(self@, read_if_there(*contents), read(*canonical)),
            well_formed(self@) && result is Ok ==> well_formed(result->Ok_0@),
    {
        let document = match self.next() {
            Some(path) => read_toml_file(path, "Cargo configuration", contents),
            None => Ok(None),
        };
        match document {
            Ok(value) => self.visit(value, canonical),
            Err(refusal) => Err(refusal),
        }
    }

    /// The files that were read, once no file waits.
    pub fn finish(self) -> (files: Vec<CargoConfiguration>)
        requires
            self@.waiting.len() == 0,
        ensures
            configurations(files@) == self@.collected,
    {
        self.collected
    }
}

/// What reading and resolving a file gave, where a walk asked for it.
#[derive(Debug)]
pub struct Visit {
    /// The text of the file, where it is there.
    pub contents: Result<Option<String>, String>,
    /// What its path resolves to.
    pub canonical: Result<Vec<u8>, String>,
}

/// A walk beyond the files that it asked for, one visit for each.
pub open spec fn walked(first: Walk, visits: Seq<Visit>) -> Result<Walk, Seq<char>>
    decreases visits.len(),
{
    if visits.len() == 0 {
        Ok(first)
    } else {
        match walked(first, visits.drop_last()) {
            Err(refusal) => Err(refusal),
            Ok(walk) => if walk.waiting.len() == 0 {
                Ok(walk)
            } else {
                advanced(walk, read_if_there(visits.last().contents), read(visits.last().canonical))
            },
        }
    }
}

/// The configuration files of the repository: those that the walk over all of them collects, by what
/// resolving the repository and visiting each file gave.
pub open spec fn found_files(
    root: Result<Seq<u8>, Seq<char>>,
    cargo_home: Seq<u8>,
    visits: Seq<Visit>,
) -> Result<Seq<Configuration>, Seq<char>> {
    match root {
        Err(fault) => Err(fault),
        Ok(root) => match walked(walk_start(root, cargo_home), visits) {
            Err(refusal) => Err(refusal),
            Ok(walk) => if walk.waiting.len() > 0 {
                Err("Cargo configuration was not looked at: "@ + lossy(walk.waiting[0]))
            } else {
                Ok(walk.collected)
            },
        },
    }
}

proof fn lemma_walk_refused(first: Walk, visits: Seq<Visit>, n: int)
    requires
        0 <= n <= visits.len(),
        walked(first, visits.take(n)) is Err,
    ensures
        walked(first, visits) == walked(first, visits.take(n)),
    decreases visits.len() - n,
{
    if n < visits.len() {
        assert(visits.take(n + 1).drop_last() == visits.take(n));
        lemma_walk_refused(first, visits, n + 1);
    } else {
        assert(visits.take(n) == visits);
    }
}

/// The walk beyond the files that it asked for.
#[verifier::loop_isolation(false)]
fn walk_on(first: ConfigurationWalk, visits: &Vec<Visit>) -> (result: Result<
    ConfigurationWalk,
    Failure,
>)
    ensures
        walk_outcome(result) == walked(first@, visits@),
{
    let ghost start = first@;
    let mut walk = first;
    let mut i: usize = 0;
    assert(walked(start, visits@.take(0)) == Ok::<Walk, Seq<char>>(start));
    while i < visits.len()
        invariant
            i <= visits@.len(),
            walked(start, visits@.take(i as int)) == Ok::<Walk, Seq<char>>(walk@),
        decreases visits@.len() - i,
    {
        assert(visits@.take(i + 1).drop_last() == visits@.take(i as int));
        assert(visits@.take(i + 1).last() == visits@[i as int]);
        let waits = match walk.next() {
            Some(_) => true,
            None => false,
        };
        if waits {
            match walk.advance(&visits[i].contents, &visits[i].canonical) {
                Ok(next) => {
                    walk = next;
                },
                Err(refusal) => {
                    proof {
                        lemma_walk_refused(start, visits@, i + 1);
                    }
                    return Err(refusal);
                },
            }
        }
        i += 1;
    }
    assert(visits@.take(i as int) == visits@);
    Ok(walk)
}

/// The configuration files of the repository, by what resolving it and visiting each file gave.
pub fn find_files(
    root: &Result<Vec<u8>, String>,
    cargo_home: &[u8],
    visits: &Vec<Visit>,
) -> (result: Result<Vec<CargoConfiguration>, Failure>)
    ensures
        files_outcome(result) == found_files(read(*root), cargo_home@, visits@),
{
    let root = match root {
        Ok(root) => root,
        Err(fault) => return Err(failure(fault.as_str())),
    };
    let walk = match walk_on(ConfigurationWalk::start(root.as_slice(), cargo_home), visits) {
        Ok(walk) => walk,
        Err(refusal) => return Err(refusal),
    };
    match walk.next() {
        Some(path) => {
            let shown = lossy_text(path);
            return Err(
                Failure {
                    message: join2("Cargo configuration was not looked at: ", shown.as_str()),
                },
            );
        },
        None => {},
    }
    Ok(walk.finish())
}

/// A file at a new place keeps a walk well formed.
proof fn lemma_well_formed_stays(walk: Walk, file: Configuration, waiting: Seq<Seq<u8>>)
    requires
        well_formed(walk),
        !seen(walk.collected, file.path),
        file.in_tree == below(file.path, walk.root),
    ensures
        well_formed((Walk { root: walk.root, waiting, collected: walk.collected.push(file) })),
{
    let now = walk.collected.push(file);
    assert forall|i: int, j: int| 0 <= i < j < now.len() implies !same_place(
        (#[trigger] now[i]).path,
        (#[trigger] now[j]).path,
    ) by {
        assert(now[i] == walk.collected[i]);
        if j < walk.collected.len() {
            assert(now[j] == walk.collected[j]);
        }
    }
    assert forall|i: int| 0 <= i < now.len() implies (#[trigger] now[i]).in_tree == below(
        now[i].path,
        walk.root,
    ) by {
        if i < walk.collected.len() {
            assert(now[i] == walk.collected[i]);
        }
    }
}

/// A step of the walk drops no file that was read. A file that is there has been read after its step,
/// under the path that it resolves to, and what it refers to comes next.
pub proof fn law_no_file_is_overlooked(
    walk: Walk,
    value: Option<Node>,
    canonical: Result<Seq<u8>, Seq<char>>,
)
    requires
        walk.waiting.len() > 0,
        visited(walk, value, canonical) is Ok,
    ensures
        walk.collected.is_prefix_of(visited(walk, value, canonical)->Ok_0.collected),
        value is Some ==> canonical is Ok && seen(
            visited(walk, value, canonical)->Ok_0.collected,
            canonical->Ok_0,
        ),
        value is Some && !seen(walk.collected, canonical->Ok_0) ==> references(
            value->Some_0,
            canonical->Ok_0,
        ) is Ok && references(value->Some_0, canonical->Ok_0)->Ok_0.is_prefix_of(
            visited(walk, value, canonical)->Ok_0.waiting,
        ),
        walk.waiting.skip(1).is_suffix_of(visited(walk, value, canonical)->Ok_0.waiting),
{
    let next = visited(walk, value, canonical)->Ok_0;
    let rest = walk.waiting.skip(1);
    if value is Some && !seen(walk.collected, canonical->Ok_0) {
        let more = references(value->Some_0, canonical->Ok_0)->Ok_0;
        assert(next.collected.last().path == canonical->Ok_0);
        assert(same_place(next.collected[next.collected.len() - 1].path, canonical->Ok_0));
        assert(next.waiting.subrange(0, more.len() as int) == more);
        assert(next.waiting.subrange(next.waiting.len() - rest.len(), next.waiting.len() as int)
            == rest);
        assert(next.collected.subrange(0, walk.collected.len() as int) == walk.collected);
    } else {
        assert(next.collected.subrange(0, walk.collected.len() as int) == walk.collected);
        assert(next.waiting.subrange(0, next.waiting.len() as int) == rest);
    }
}

/// Every step either reads a file at a place where none was read before, or leaves one file less to
/// wait for. A walk over finitely many places therefore ends.
pub proof fn law_every_step_is_progress(
    walk: Walk,
    value: Option<Node>,
    canonical: Result<Seq<u8>, Seq<char>>,
)
    requires
        walk.waiting.len() > 0,
        visited(walk, value, canonical) is Ok,
    ensures
        ({
            let next = visited(walk, value, canonical)->Ok_0;
            ||| next.collected == walk.collected && next.waiting.len() == walk.waiting.len() - 1
            ||| next.collected.len() == walk.collected.len() + 1 && !seen(
                walk.collected,
                next.collected.last().path,
            )
        }),
{
}

/// Whether a path is one of the two in a directory that a configuration may have.
pub open spec fn is_one_of(path: Seq<u8>, directory: Seq<u8>, first: Seq<char>, second: Seq<char>) -> bool {
    path == joined(directory, encode_utf8(first)) || path == joined(directory, encode_utf8(second))
}

/// The files that may hold the configuration are, with and without their ending, those in `.cargo` in
/// the repository and in every directory above it, and those in Cargo's home. There are no others.
pub proof fn law_every_configuration_is_looked_for(
    root: Seq<u8>,
    cargo_home: Seq<u8>,
    path: Seq<u8>,
)
    ensures
        candidates(root, cargo_home).contains(path) <==> {
            ||| exists|i: int|
                0 <= i < ancestors(root).len() && is_one_of(
                    path,
                    #[trigger] ancestors(root)[i],
                    ".cargo/config.toml"@,
                    ".cargo/config"@,
                )
            ||| is_one_of(path, cargo_home, "config.toml"@, "config"@)
        },
{
    let above = pairs_in(ancestors(root));
    let own = pair_in(cargo_home, "config.toml"@, "config"@);
    let all = above + own;
    lemma_pairs(ancestors(root), path);
    if all.contains(path) {
        let k = choose|k: int| 0 <= k < all.len() && all[k] == path;
        if k < above.len() {
            assert(above[k] == path);
        } else {
            assert(own[k - above.len()] == path);
        }
    }
    if above.contains(path) {
        let k = choose|k: int| 0 <= k < above.len() && above[k] == path;
        assert(all[k] == path);
    }
    if is_one_of(path, cargo_home, "config.toml"@, "config"@) {
        assert(all[above.len() as int] == own[0]);
        assert(all[above.len() as int + 1] == own[1]);
    }
}

proof fn lemma_pairs(directories: Seq<Seq<u8>>, path: Seq<u8>)
    ensures
        pairs_in(directories).contains(path) <==> exists|i: int|
            0 <= i < directories.len() && is_one_of(
                path,
                #[trigger] directories[i],
                ".cargo/config.toml"@,
                ".cargo/config"@,
            ),
    decreases directories.len(),
{
    if directories.len() > 0 {
        let rest = directories.drop_last();
        let last = directories.len() - 1;
        lemma_pairs(rest, path);
        let before = pairs_in(rest);
        let two = pair_in(directories.last(), ".cargo/config.toml"@, ".cargo/config"@);
        let all = before + two;
        if all.contains(path) {
            let k = choose|k: int| 0 <= k < all.len() && all[k] == path;
            if k < before.len() {
                assert(before[k] == path);
                let i = choose|i: int|
                    0 <= i < rest.len() && is_one_of(
                        path,
                        #[trigger] rest[i],
                        ".cargo/config.toml"@,
                        ".cargo/config"@,
                    );
                assert(directories[i] == rest[i]);
            } else {
                assert(two[k - before.len()] == path);
                assert(is_one_of(
                    path,
                    directories[last],
                    ".cargo/config.toml"@,
                    ".cargo/config"@,
                ));
            }
        }
        if exists|i: int|
            0 <= i < directories.len() && is_one_of(
                path,
                #[trigger] directories[i],
                ".cargo/config.toml"@,
                ".cargo/config"@,
            ) {
            let i = choose|i: int|
                0 <= i < directories.len() && is_one_of(
                    path,
                    #[trigger] directories[i],
                    ".cargo/config.toml"@,
                    ".cargo/config"@,
                );
            if i < last {
                assert(rest[i] == directories[i]);
                let k = choose|k: int| 0 <= k < before.len() && before[k] == path;
                assert(all[k] == path);
            } else {
                assert(all[before.len() as int] == two[0]);
                assert(all[before.len() as int + 1] == two[1]);
            }
        }
    }
}

/// A file refers to the one path that its `include` is, or to all the paths in it, taken from the
/// directory of the file. Without an `include` it refers to none.
pub proof fn law_references_are_taken_from_the_directory(value: Node, path: Seq<u8>, text: Seq<char>)
    ensures
        member(value, "include"@) is None ==> references(value, path) == Ok::<
            Seq<Seq<u8>>,
            Seq<char>,
        >(Seq::empty()),
        member(value, "include"@) == Some(Node::Text(text)) && parent(path) is Some ==> references(
            value,
            path,
        ) == Ok::<Seq<Seq<u8>>, Seq<char>>(
            seq![joined(parent(path)->Some_0, encode_utf8(text))],
        ),
        member(value, "include"@) is Some && !(member(value, "include"@)->Some_0 is Text) && !(member(
            value,
            "include"@,
        )->Some_0 is List) ==> references(value, path) is Err,
{
    if member(value, "include"@) == Some(Node::Text(text)) && parent(path) is Some {
        let one = seq![encode_utf8(text)];
        assert(all_joined(parent(path)->Some_0, one) =~= seq![
            joined(parent(path)->Some_0, encode_utf8(text)),
        ]);
    }
}

/// Of a list, every entry must be a text, and each is a reference, in its order.
pub proof fn law_every_listed_reference_counts(
    value: Node,
    path: Seq<u8>,
    items: Seq<Node>,
    i: int,
)
    requires
        member(value, "include"@) == Some(Node::List(items)),
        parent(path) is Some,
    ensures
        references(value, path) is Ok <==> forall|k: int|
            0 <= k < items.len() ==> #[trigger] items[k] is Text,
        references(value, path) is Ok ==> references(value, path)->Ok_0.len() == items.len(),
        references(value, path) is Ok && 0 <= i < items.len() ==> references(value, path)->Ok_0[i]
            == joined(parent(path)->Some_0, encode_utf8(items[i]->Text_0)),
{
    lemma_listed_paths(items, i);
}

proof fn lemma_listed_paths(items: Seq<Node>, i: int)
    ensures
        listed_paths(items) is Some <==> forall|k: int|
            0 <= k < items.len() ==> #[trigger] items[k] is Text,
        listed_paths(items) is Some ==> listed_paths(items)->Some_0.len() == items.len(),
        listed_paths(items) is Some && 0 <= i < items.len() ==> listed_paths(items)->Some_0[i]
            == encode_utf8(items[i]->Text_0),
    decreases items.len(),
{
    if items.len() > 0 {
        let rest = items.drop_last();
        lemma_listed_paths(rest, i);
        assert forall|k: int| 0 <= k < rest.len() implies #[trigger] rest[k] == items[k] by {}
        if listed_paths(items) is Some {
            assert forall|k: int| 0 <= k < items.len() implies #[trigger] items[k] is Text by {
                if k < rest.len() {
                    assert(rest[k] is Text);
                }
            }
        }
        if forall|k: int| 0 <= k < items.len() ==> #[trigger] items[k] is Text {
            assert(items[items.len() - 1] is Text);
        }
    }
}

/// A file that is there is read once, whatever path it was asked for under: what is at a place where a
/// file was read is passed over, and the rest is taken, with whether it lies in the repository, before
/// all others that wait.
pub proof fn law_each_place_is_read_once(
    walk: Walk,
    contents: Result<Option<Seq<char>>, Seq<char>>,
    canonical: Result<Seq<u8>, Seq<char>>,
)
    requires
        walk.waiting.len() > 0,
        advanced(walk, contents, canonical) is Ok,
    ensures
        contents is Ok,
        ({
            let next = advanced(walk, contents, canonical)->Ok_0;
            let is_new = contents->Ok_0 is Some && forall|i: int|
                0 <= i < walk.collected.len() ==> components((#[trigger] walk.collected[i]).path)
                    != components(canonical->Ok_0);
            &&& contents->Ok_0 is Some ==> toml_document(contents->Ok_0->Some_0) is Ok && canonical is Ok
            &&& is_new ==> next.collected.len() == walk.collected.len() + 1
                && next.collected.last().path == canonical->Ok_0 && toml_document(
                contents->Ok_0->Some_0,
            ) == Ok::<Node, Seq<char>>(next.collected.last().value)
                && next.collected.last().in_tree == below(canonical->Ok_0, walk.root)
                && next.waiting == references(next.collected.last().value, canonical->Ok_0)->Ok_0
                + walk.waiting.skip(1)
            &&& !is_new ==> next.collected == walk.collected && next.waiting == walk.waiting.skip(1)
        }),
{
    if contents is Ok && contents->Ok_0 is Some && canonical is Ok {
        let path = canonical->Ok_0;
        if seen(walk.collected, path) {
            let i = choose|i: int|
                0 <= i < walk.collected.len() && same_place(
                    (#[trigger] walk.collected[i]).path,
                    path,
                );
            assert(components(walk.collected[i].path) == components(path));
        } else {
            assert forall|i: int| 0 <= i < walk.collected.len() implies components(
                (#[trigger] walk.collected[i]).path,
            ) != components(path) by {
                assert(!same_place(walk.collected[i].path, path));
            }
        }
    }
}

/// A configuration file that is there and cannot be read, resolved or understood is refused, and one
/// that is not there is not.
pub proof fn law_unreadable_configurations_are_refused(
    walk: Walk,
    contents: Result<Option<Seq<char>>, Seq<char>>,
    canonical: Result<Seq<u8>, Seq<char>>,
)
    requires
        walk.waiting.len() > 0,
    ensures
        contents is Err ==> advanced(walk, contents, canonical) is Err,
        contents == Ok::<Option<Seq<char>>, Seq<char>>(None) ==> advanced(
            walk,
            contents,
            canonical,
        ) is Ok,
        contents matches Ok(Some(text)) && (toml_document(text) is Err || canonical is Err)
            ==> advanced(walk, contents, canonical) is Err,
{
}

/// Nothing is found before every file that waits was looked at.
pub proof fn law_every_waiting_file_is_looked_at(
    root: Seq<u8>,
    cargo_home: Seq<u8>,
    visits: Seq<Visit>,
)
    ensures
        found_files(Ok(root), cargo_home, visits) is Ok ==> walked(
            walk_start(root, cargo_home),
            visits,
        ) is Ok && walked(walk_start(root, cargo_home), visits)->Ok_0.waiting.len() == 0 && walked(
            walk_start(root, cargo_home),
            visits,
        )->Ok_0.collected == found_files(Ok(root), cargo_home, visits)->Ok_0,
        walk_start(root, cargo_home).collected.len() == 0,
        walk_start(root, cargo_home).root == root,
{
}

/// A walk goes on with each visit from where it was before, and a refusal is final.
pub proof fn law_visits_follow_each_other(first: Walk, visits: Seq<Visit>, visit: Visit)
    ensures
        walked(first, Seq::empty()) == Ok::<Walk, Seq<char>>(first),
        walked(first, visits) is Err ==> walked(first, visits.push(visit)) == walked(first, visits),
        walked(first, visits) is Ok && walked(first, visits)->Ok_0.waiting.len() == 0 ==> walked(
            first,
            visits.push(visit),
        ) == walked(first, visits),
        walked(first, visits) is Ok && walked(first, visits)->Ok_0.waiting.len() > 0 ==> walked(
            first,
            visits.push(visit),
        ) == advanced(
            walked(first, visits)->Ok_0,
            read_if_there(visit.contents),
            read(visit.canonical),
        ),
{
    assert(visits.push(visit).drop_last() =~= visits);
}

/// A configuration that cannot be read or understood is refused with its path.
pub proof fn law_refused_configurations_are_told(
    walk: Walk,
    contents: Result<Option<Seq<char>>, Seq<char>>,
    canonical: Result<Seq<u8>, Seq<char>>,
)
    requires
        walk.waiting.len() > 0,
    ensures
        contents is Err ==> advanced(walk, contents, canonical) == Err::<Walk, Seq<char>>(
            "cannot read "@ + "Cargo configuration"@ + " "@ + lossy(walk.waiting[0]) + ": "@
                + contents->Err_0,
        ),
        contents matches Ok(Some(text)) && toml_document(text) is Err ==> advanced(
            walk,
            contents,
            canonical,
        ) == Err::<Walk, Seq<char>>(
            "cannot parse "@ + "Cargo configuration"@ + " "@ + lossy(walk.waiting[0]) + ": "@
                + toml_document(contents->Ok_0->Some_0)->Err_0,
        ),
{
}

} // verus!
