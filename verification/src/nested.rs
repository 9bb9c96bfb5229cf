//! The code inside an app bundle that is signed on its own, innermost first.

use vstd::prelude::*;
use vstd::utf8::encode_utf8;

use crate::bytes::{byte_strings, owned, same_bytes};
use crate::failure::{failure, outcome, Failure};
use crate::path::{
    below, components, extension, extension_of, is_same_place, path_components, same_components,
    same_place,
};
use crate::text::pieces;

verus! {

/// An entry of a directory, as it was found.
#[derive(Debug)]
pub enum Entry {
    /// An entry that could not be looked at, with the text of the reason.
    Fault(String),
    Link,
    /// Neither a link, nor a directory, nor a regular file.
    Special,
    /// A regular file, with its permission bits or the text of the reason why they are not known.
    File { path: Vec<u8>, mode: Result<u32, String> },
    /// A directory, with its entries or the text of the reason why they are not known.
    Directory { path: Vec<u8>, entries: Result<Vec<Entry>, String> },
}

/// Whether a directory is a bundle of code, by its extension.
pub open spec fn code_bundle(path: Seq<u8>) -> bool {
    ||| extension(path) == Some(encode_utf8("app"@))
    ||| extension(path) == Some(encode_utf8("appex"@))
    ||| extension(path) == Some(encode_utf8("framework"@))
    ||| extension(path) == Some(encode_utf8("plugin"@))
    ||| extension(path) == Some(encode_utf8("xpc"@))
}

/// Whether a directory is a bundle of code.
pub fn is_code_bundle(path: &[u8]) -> (r: bool)
    ensures
        r == code_bundle(path@),
{
    match extension_of(path) {
        Some(extension) => same_bytes(extension, "app".as_bytes()) || same_bytes(
            extension,
            "appex".as_bytes(),
        ) || same_bytes(extension, "framework".as_bytes()) || same_bytes(
            extension,
            "plugin".as_bytes(),
        ) || same_bytes(extension, "xpc".as_bytes()),
        None => false,
    }
}

/// Whether a path, taken by its components inside the app, lies in a directory that holds code.
pub open spec fn in_code_directory(relative: Seq<Seq<u8>>) -> bool {
    ||| components(encode_utf8("Contents/Frameworks"@)).is_prefix_of(relative)
    ||| components(encode_utf8("Contents/Helpers"@)).is_prefix_of(relative)
    ||| components(encode_utf8("Contents/Library/LoginItems"@)).is_prefix_of(relative)
    ||| components(encode_utf8("Contents/PlugIns"@)).is_prefix_of(relative)
    ||| components(encode_utf8("Contents/XPCServices"@)).is_prefix_of(relative)
}

/// Whether a file in the app is code that is signed on its own: a library by its extension, or an
/// executable in a directory that holds code. The app's own executables are not.
pub open spec fn nested_executable(
    app: Seq<u8>,
    path: Seq<u8>,
    mode: Result<u32, Seq<char>>,
) -> Result<bool, Seq<char>> {
    let relative = components(path).skip(components(app).len() as int);
    if !below(path, app) {
        Err("prefix not found"@)
    } else if relative.len() > 0 && relative.drop_last() == components(
        encode_utf8("Contents/MacOS"@),
    ) {
        Ok(false)
    } else if extension(path) == Some(encode_utf8("dylib"@)) || extension(path) == Some(
        encode_utf8("so"@),
    ) {
        Ok(true)
    } else if in_code_directory(relative) {
        match mode {
            Ok(mode) => Ok(mode & 0o111u32 != 0),
            Err(fault) => Err(fault),
        }
    } else {
        Ok(false)
    }
}

/// The permission bits of a file, or the reason why they are not known.
pub open spec fn known_mode(mode: Result<u32, String>) -> Result<u32, Seq<char>> {
    match mode {
        Ok(mode) => Ok(mode),
        Err(fault) => Err(fault@),
    }
}

/// Whether the components of `directory` follow the first `skipped` components in `parts`.
fn follows(parts: &Vec<&[u8]>, skipped: usize, directory: &str) -> (r: bool)
    requires
        skipped <= parts@.len(),
    ensures
        r == components(encode_utf8(directory@)).is_prefix_of(pieces(parts@).skip(skipped as int)),
{
    let wanted = path_components(directory.as_bytes());
    let ghost all = pieces(parts@).skip(skipped as int);
    let ghost names = components(encode_utf8(directory@));
    let total = parts.len();
    if wanted.len() > total - skipped {
        assert(names.len() == wanted@.len());
        return false;
    }
    let mut i: usize = 0;
    while i < wanted.len()
        invariant
            i <= wanted@.len(),
            skipped + wanted@.len() <= total == parts@.len(),
            names == components(encode_utf8(directory@)),
            all == pieces(parts@).skip(skipped as int),
            names == pieces(wanted@),
            forall|k: int| 0 <= k < i ==> #[trigger] names[k] == all[k],
        decreases wanted@.len() - i,
    {
        assert(names[i as int] == wanted@[i as int]@);
        assert(all[i as int] == parts@[skipped + i]@);
        if !same_bytes(wanted[i], parts[skipped + i]) {
            assert(all.subrange(0, names.len() as int)[i as int] == all[i as int]);
            return false;
        }
        i += 1;
    }
    assert(all.subrange(0, names.len() as int) == names);
    true
}

/// Whether a file in the app is code that is signed on its own.
pub fn is_nested_executable(app: &[u8], path: &[u8], mode: &Result<u32, String>) -> (result: Result<
    bool,
    Failure,
>)
    ensures
        outcome(result) == nested_executable(app@, path@, known_mode(*mode)),
{
    let base = path_components(app);
    let parts = path_components(path);
    let skipped = base.len();
    assert(pieces(base@).len() == base@.len() && pieces(parts@).len() == parts@.len());
    if skipped > parts.len() {
        return Err(failure("prefix not found"));
    }
    let inside = same_components(&base, &parts, skipped);
    proof {
        assert(pieces(base@).take(skipped as int) == components(app@));
        assert(components(path@).take(skipped as int) == components(path@).subrange(
            0,
            skipped as int,
        ));
    }
    if !inside {
        return Err(failure("prefix not found"));
    }
    let ghost relative = components(path@).skip(skipped as int);
    let own = path_components("Contents/MacOS".as_bytes());
    let left = parts.len() - skipped;
    if left > 0 && left - 1 == own.len() && follows(&parts, skipped, "Contents/MacOS") {
        assert(relative.drop_last() == relative.subrange(0, own@.len() as int));
        return Ok(false);
    }
    proof {
        let names = components(encode_utf8("Contents/MacOS"@));
        assert(names.len() == own@.len());
        if relative.len() > 0 && relative.drop_last() == names {
            assert(relative.subrange(0, names.len() as int) == relative.drop_last());
        }
    }
    match extension_of(path) {
        Some(extension) => if same_bytes(extension, "dylib".as_bytes()) || same_bytes(
            extension,
            "so".as_bytes(),
        ) {
            return Ok(true);
        },
        None => {},
    }
    if follows(&parts, skipped, "Contents/Frameworks") || follows(
        &parts,
        skipped,
        "Contents/Helpers",
    ) || follows(&parts, skipped, "Contents/Library/LoginItems") || follows(
        &parts,
        skipped,
        "Contents/PlugIns",
    ) || follows(&parts, skipped, "Contents/XPCServices") {
        match mode {
            Ok(mode) => Ok(*mode & 0o111u32 != 0),
            Err(fault) => Err(failure(fault.as_str())),
        }
    } else {
        Ok(false)
    }
}

/// The code among the entries of a directory that is signed on its own, in the order in which a walk
/// that looks at a directory after its entries finds it.
pub open spec fn found_among(app: Seq<u8>, entries: Seq<Entry>) -> Result<Seq<Seq<u8>>, Seq<char>>
    decreases entries,
{
    if entries.len() == 0 {
        Ok(Seq::empty())
    } else {
        match found_among(app, entries.drop_last()) {
            Err(fault) => Err(fault),
            Ok(paths) => match found_in(app, entries.last()) {
                Err(fault) => Err(fault),
                Ok(more) => Ok(paths + more),
            },
        }
    }
}

/// The code in one entry that is signed on its own.
pub open spec fn found_in(app: Seq<u8>, entry: Entry) -> Result<Seq<Seq<u8>>, Seq<char>>
    decreases entry,
{
    match entry {
        Entry::Fault(fault) => Err(fault@),
        Entry::Link => Ok(Seq::empty()),
        Entry::Special => Ok(Seq::empty()),
        Entry::File { path, mode } => match nested_executable(app, path@, known_mode(mode)) {
            Err(fault) => Err(fault),
            Ok(nested) => Ok(
                if nested {
                    seq![path@]
                } else {
                    Seq::empty()
                },
            ),
        },
        Entry::Directory { path, entries: Err(fault) } => Err(fault@),
        Entry::Directory { path, entries: Ok(entries) } => match found_among(app, entries@) {
            Err(fault) => Err(fault),
            Ok(paths) => Ok(
                if !same_place(path@, app) && code_bundle(path@) {
                    paths.push(path@)
                } else {
                    paths
                },
            ),
        },
    }
}

/// Adds the code among `entries` that is signed on its own to `paths`.
fn collect_among(app: &[u8], entries: &Vec<Entry>, paths: &mut Vec<Vec<u8>>) -> (result: Result<
    (),
    Failure,
>)
    ensures
        match found_among(app@, entries@) {
            Ok(found) => result is Ok && byte_strings(final(paths)@) == byte_strings(old(paths)@)
                + found,
            Err(fault) => result is Err && result->Err_0@ == fault,
        },
    decreases entries,
{
    let mut i: usize = 0;
    let ghost before = byte_strings(paths@);
    assert(entries@.take(0) == Seq::<Entry>::empty());
    assert(byte_strings(paths@) == before + Seq::<Seq<u8>>::empty());
    while i < entries.len()
        invariant
            i <= entries@.len(),
            found_among(app@, entries@.take(i as int)) is Ok,
            byte_strings(paths@) == before + found_among(app@, entries@.take(i as int))->Ok_0,
        decreases entries@.len() - i,
    {
        proof {
            assert(decreases_to!(entries => entries@));
            assert(decreases_to!(entries@ => entries@[i as int]));
            assert(entries@.take(i + 1).drop_last() == entries@.take(i as int));
        }
        let ghost so_far = found_among(app@, entries@.take(i as int))->Ok_0;
        match collect_nested_code(app, &entries[i], paths) {
            Ok(()) => {},
            Err(refusal) => {
                proof {
                    lemma_fault_stays(app@, entries@, i + 1);
                }
                return Err(refusal);
            },
        }
        assert(byte_strings(paths@) == before + (so_far + found_in(app@, entries@[i as int])->Ok_0));
        i += 1;
    }
    assert(entries@.take(i as int) == entries@);
    Ok(())
}

/// What goes wrong among the first entries goes wrong among all of them.
proof fn lemma_fault_stays(app: Seq<u8>, entries: Seq<Entry>, n: int)
    requires
        0 <= n <= entries.len(),
        found_among(app, entries.take(n)) is Err,
    ensures
        found_among(app, entries) == found_among(app, entries.take(n)),
    decreases entries.len(),
{
    if n == entries.len() {
        assert(entries.take(n) == entries);
    } else {
        assert(entries.drop_last().take(n) == entries.take(n));
        lemma_fault_stays(app, entries.drop_last(), n);
    }
}

/// Adds the code in one entry that is signed on its own to `paths`.
fn collect_nested_code(app: &[u8], entry: &Entry, paths: &mut Vec<Vec<u8>>) -> (result: Result<
    (),
    Failure,
>)
    ensures
        match found_in(app@, *entry) {
            Ok(found) => result is Ok && byte_strings(final(paths)@) == byte_strings(old(paths)@)
                + found,
            Err(fault) => result is Err && result->Err_0@ == fault,
        },
    decreases entry,
{
    let ghost before = byte_strings(paths@);
    assert(before == before + Seq::<Seq<u8>>::empty());
    match entry {
        Entry::Fault(fault) => Err(failure(fault.as_str())),
        Entry::Link => Ok(()),
        Entry::Special => Ok(()),
        Entry::File { path, mode } => match is_nested_executable(app, path.as_slice(), mode) {
            Err(refusal) => Err(refusal),
            Ok(nested) => {
                if nested {
                    paths.push(owned(path.as_slice()));
                    assert(byte_strings(paths@) == before + seq![path@]);
                }
                Ok(())
            },
        },
        Entry::Directory { path, entries } => match entries {
            Err(fault) => Err(failure(fault.as_str())),
            Ok(entries) => {
                match collect_among(app, entries, paths) {
                    Ok(()) => {},
                    Err(refusal) => return Err(refusal),
                }
                let ghost found = found_among(app@, entries@)->Ok_0;
                if !is_same_place(path.as_slice(), app) && is_code_bundle(path.as_slice()) {
                    let ghost inner = byte_strings(paths@);
                    paths.push(owned(path.as_slice()));
                    assert(byte_strings(paths@) == inner.push(path@));
                    assert((before + found).push(path@) == before + found.push(path@));
                }
                Ok(())
            },
        },
    }
}

/// How deep a path lies: the number of its components.
pub open spec fn depth(path: Seq<u8>) -> nat {
    components(path).len()
}

/// How many paths at the start of `paths` lie at least `at_least` deep.
pub open spec fn deep_ones(paths: Seq<Seq<u8>>, at_least: nat) -> int
    decreases paths.len(),
{
    if paths.len() == 0 || depth(paths[0]) < at_least {
        0
    } else {
        1 + deep_ones(paths.skip(1), at_least)
    }
}

/// `paths` with one more path, behind those that lie at least as deep.
pub open spec fn placed(paths: Seq<Seq<u8>>, path: Seq<u8>) -> Seq<Seq<u8>> {
    paths.insert(deep_ones(paths, depth(path)), path)
}

/// The paths with the deepest first, equally deep ones in the order given.
pub open spec fn deepest_first(paths: Seq<Seq<u8>>) -> Seq<Seq<u8>>
    decreases paths.len(),
{
    if paths.len() == 0 {
        Seq::empty()
    } else {
        placed(deepest_first(paths.drop_last()), paths.last())
    }
}

/// How deep a path lies.
fn depth_of(path: &[u8]) -> (n: usize)
    ensures
        n == depth(path@),
{
    let parts = path_components(path);
    assert(pieces(parts@).len() == parts@.len());
    parts.len()
}

/// The paths with the deepest first, equally deep ones in the order given.
fn sort_by_depth(paths: &Vec<Vec<u8>>) -> (sorted: Vec<Vec<u8>>)
    ensures
        byte_strings(sorted@) == deepest_first(byte_strings(paths@)),
{
    let ghost all = byte_strings(paths@);
    let mut sorted: Vec<Vec<u8>> = Vec::new();
    let mut n: usize = 0;
    assert(byte_strings(sorted@) == deepest_first(all.take(0)));
    while n < paths.len()
        invariant
            n <= paths@.len(),
            all == byte_strings(paths@),
            byte_strings(sorted@) == deepest_first(all.take(n as int)),
        decreases paths@.len() - n,
    {
        let path = paths[n].as_slice();
        let deep = depth_of(path);
        let ghost so_far = byte_strings(sorted@);
        let mut at: usize = 0;
        assert(so_far.skip(0) == so_far);
        while at < sorted.len() && depth_of(sorted[at].as_slice()) >= deep
            invariant
                at <= sorted@.len(),
                so_far == byte_strings(sorted@),
                deep_ones(so_far, deep as nat) == at + deep_ones(so_far.skip(at as int), deep as nat),
            decreases sorted@.len() - at,
        {
            assert(so_far.skip(at as int)[0] == sorted@[at as int]@);
            assert(so_far.skip(at as int).skip(1) == so_far.skip(at + 1));
            at += 1;
        }
        proof {
            if at < sorted@.len() {
                assert(so_far.skip(at as int)[0] == sorted@[at as int]@);
            }
            assert(deep_ones(so_far, deep as nat) == at);
            assert(all.take(n + 1).drop_last() == all.take(n as int));
            assert(all.take(n + 1).last() == path@);
        }
        sorted.insert(at, owned(path));
        assert(byte_strings(sorted@) == placed(so_far, path@));
        n += 1;
    }
    assert(all.take(n as int) == all);
    sorted
}

/// The code in the app that is signed on its own, innermost first.
pub open spec fn nested_outcome(app: Seq<u8>, entries: Result<Seq<Entry>, Seq<char>>) -> Result<
    Seq<Seq<u8>>,
    Seq<char>,
> {
    match entries {
        Err(fault) => Err(fault),
        Ok(entries) => match found_among(app, entries) {
            Err(fault) => Err(fault),
            Ok(paths) => Ok(deepest_first(paths)),
        },
    }
}

/// A result with paths replaced by their bytes, and its refusal by its text.
pub open spec fn paths_outcome(result: Result<Vec<Vec<u8>>, Failure>) -> Result<
    Seq<Seq<u8>>,
    Seq<char>,
> {
    match result {
        Ok(paths) => Ok(byte_strings(paths@)),
        Err(refusal) => Err(refusal@),
    }
}

/// The entries of a directory, or the reason why they are not known.
pub open spec fn known_entries(entries: Result<Vec<Entry>, String>) -> Result<
    Seq<Entry>,
    Seq<char>,
> {
    match entries {
        Ok(entries) => Ok(entries@),
        Err(fault) => Err(fault@),
    }
}

/// The code in the app that is signed on its own, innermost first, from the entries of the app's
/// directory.
pub fn nested_code(app: &[u8], entries: &Result<Vec<Entry>, String>) -> (result: Result<
    Vec<Vec<u8>>,
    Failure,
>)
    ensures
        paths_outcome(result) == nested_outcome(app@, known_entries(*entries)),
{
    let entries = match entries {
        Ok(entries) => entries,
        Err(fault) => return Err(failure(fault.as_str())),
    };
    let mut paths: Vec<Vec<u8>> = Vec::new();
    match collect_among(app, entries, &mut paths) {
        Ok(()) => {},
        Err(refusal) => return Err(refusal),
    }
    assert(byte_strings(paths@) == found_among(app@, entries@)->Ok_0);
    Ok(sort_by_depth(&paths))
}

/// Whether no path lies deeper than one before it.
pub open spec fn never_deeper(paths: Seq<Seq<u8>>) -> bool {
    forall|i: int, j: int|
        0 <= i <= j < paths.len() ==> depth(#[trigger] paths[i]) >= depth(#[trigger] paths[j])
}

/// The paths that lie `d` deep, in the order given.
pub open spec fn at_depth(paths: Seq<Seq<u8>>, d: nat) -> Seq<Seq<u8>> {
    paths.filter(|path: Seq<u8>| depth(path) == d)
}

proof fn lemma_deep_ones(paths: Seq<Seq<u8>>, at_least: nat)
    ensures
        0 <= deep_ones(paths, at_least) <= paths.len(),
        forall|i: int|
            0 <= i < deep_ones(paths, at_least) ==> depth(#[trigger] paths[i]) >= at_least,
        deep_ones(paths, at_least) < paths.len() ==> depth(paths[deep_ones(paths, at_least)])
            < at_least,
    decreases paths.len(),
{
    if paths.len() > 0 && depth(paths[0]) >= at_least {
        lemma_deep_ones(paths.skip(1), at_least);
        assert forall|i: int| 0 <= i < deep_ones(paths, at_least) implies depth(#[trigger] paths[i])
            >= at_least by {
            if i > 0 {
                assert(paths.skip(1)[i - 1] == paths[i]);
            }
        }
    }
}

proof fn lemma_placed(paths: Seq<Seq<u8>>, path: Seq<u8>)
    requires
        never_deeper(paths),
    ensures
        never_deeper(placed(paths, path)),
        forall|d: nat|
            #[trigger] at_depth(placed(paths, path), d) == at_depth(paths.push(path), d),
{
    let k = deep_ones(paths, depth(path));
    lemma_deep_ones(paths, depth(path));
    let now = placed(paths, path);
    assert forall|i: int, j: int| 0 <= i <= j < now.len() implies depth(#[trigger] now[i]) >= depth(
        #[trigger] now[j],
    ) by {
        let a = if i < k {
            i
        } else {
            i - 1
        };
        let b = if j < k {
            j
        } else {
            j - 1
        };
        if i == k && j == k {
        } else if i == k {
            assert(now[j] == paths[b]);
            assert(depth(paths[k]) >= depth(paths[b]));
        } else if j == k {
            assert(now[i] == paths[a]);
        } else {
            assert(now[i] == paths[a] && now[j] == paths[b]);
        }
    }
    assert forall|d: nat|
        #[trigger] at_depth(placed(paths, path), d) == at_depth(paths.push(path), d) by {
        let at = |path: Seq<u8>| depth(path) == d;
        let head = paths.take(k);
        let tail = paths.skip(k);
        assert(now == head.push(path) + tail);
        assert(paths == head + tail);
        Seq::filter_distributes_over_add(head.push(path), tail, at);
        Seq::filter_distributes_over_add(head, tail, at);
        reveal(Seq::filter);
        assert(head.push(path).drop_last() == head);
        assert(paths.push(path).drop_last() == paths);
        if depth(path) == d {
            assert forall|i: int| 0 <= i < tail.len() implies !at(#[trigger] tail[i]) by {
                assert(tail[i] == paths[k + i]);
                assert(depth(paths[k]) >= depth(paths[k + i]));
            }
            lemma_filter_none(tail, at);
            assert(head.filter(at).push(path) + Seq::<Seq<u8>>::empty() == (head.filter(at)
                + Seq::<Seq<u8>>::empty()).push(path));
        }
    }
}

proof fn lemma_filter_none(paths: Seq<Seq<u8>>, kept: spec_fn(Seq<u8>) -> bool)
    requires
        forall|i: int| 0 <= i < paths.len() ==> !kept(#[trigger] paths[i]),
    ensures
        paths.filter(kept) == Seq::<Seq<u8>>::empty(),
    decreases paths.len(),
{
    reveal(Seq::filter);
    if paths.len() > 0 {
        assert forall|i: int| 0 <= i < paths.drop_last().len() implies !kept(
            #[trigger] paths.drop_last()[i],
        ) by {
            assert(paths.drop_last()[i] == paths[i]);
        }
        lemma_filter_none(paths.drop_last(), kept);
    }
}

/// The list for signing is a rearrangement of what was found that never goes deeper and keeps the
/// order of equally deep paths.
pub proof fn law_deepest_first(paths: Seq<Seq<u8>>)
    ensures
        never_deeper(deepest_first(paths)),
        forall|d: nat|
            #[trigger] at_depth(deepest_first(paths), d) == at_depth(paths, d),
    decreases paths.len(),
{
    if paths.len() > 0 {
        let rest = paths.drop_last();
        let sorted = deepest_first(rest);
        law_deepest_first(rest);
        lemma_placed(sorted, paths.last());
        assert forall|d: nat|
            #[trigger] at_depth(deepest_first(paths), d) == at_depth(paths, d) by {
            let at = |path: Seq<u8>| depth(path) == d;
            assert(at_depth(placed(sorted, paths.last()), d) == at_depth(
                sorted.push(paths.last()),
                d,
            ));
            assert(at_depth(sorted, d) == at_depth(rest, d));
            reveal(Seq::filter);
            assert(sorted.push(paths.last()).drop_last() == sorted);
        }
    } else {
        reveal(Seq::filter);
    }
}

/// Code is signed before the code that it lies in.
pub proof fn law_inner_code_comes_first(paths: Seq<Seq<u8>>, inner: int, outer: int)
    requires
        0 <= inner < deepest_first(paths).len(),
        0 <= outer < deepest_first(paths).len(),
        below(deepest_first(paths)[inner], deepest_first(paths)[outer]),
        !same_place(deepest_first(paths)[inner], deepest_first(paths)[outer]),
    ensures
        inner < outer,
{
    law_deepest_first(paths);
    let sorted = deepest_first(paths);
    let i = components(sorted[inner]);
    let o = components(sorted[outer]);
    assert(o.len() < i.len()) by {
        if o.len() == i.len() {
            assert(i.subrange(0, o.len() as int) == i);
        }
    }
}

/// Whether a path lies right in the directory with the app's own executables.
pub open spec fn is_own_executable(app: Seq<u8>, path: Seq<u8>) -> bool {
    exists|name: Seq<u8>|
        components(path) == #[trigger] (components(app) + components(
            encode_utf8("Contents/MacOS"@),
        )).push(name)
}

/// Whether a path lies in a directory of the app.
pub open spec fn lies_in_directory(app: Seq<u8>, path: Seq<u8>, directory: Seq<char>) -> bool {
    (components(app) + components(encode_utf8(directory))).is_prefix_of(components(path))
}

proof fn lemma_own_executable(app: Seq<u8>, path: Seq<u8>)
    requires
        below(path, app),
    ensures
        ({
            let relative = components(path).skip(components(app).len() as int);
            is_own_executable(app, path) <==> relative.len() > 0 && relative.drop_last()
                == components(encode_utf8("Contents/MacOS"@))
        }),
{
    let base = components(app);
    let whole = components(path);
    let own = components(encode_utf8("Contents/MacOS"@));
    let relative = whole.skip(base.len() as int);
    assert(whole.subrange(0, base.len() as int) == base);
    assert(whole == base + relative);
    if is_own_executable(app, path) {
        let name = choose|name: Seq<u8>| whole == #[trigger] (base + own).push(name);
        assert(relative == own.push(name));
        assert(own.push(name).drop_last() == own);
    }
    if relative.len() > 0 && relative.drop_last() == own {
        let name = relative.last();
        assert(relative == own.push(name));
        assert(whole == (base + own).push(name));
    }
}

proof fn lemma_lies_in_directory(app: Seq<u8>, path: Seq<u8>, directory: Seq<char>)
    requires
        below(path, app),
    ensures
        lies_in_directory(app, path, directory) <==> components(
            encode_utf8(directory),
        ).is_prefix_of(components(path).skip(components(app).len() as int)),
{
    let base = components(app);
    let whole = components(path);
    let names = components(encode_utf8(directory));
    let relative = whole.skip(base.len() as int);
    assert(whole.subrange(0, base.len() as int) == base);
    if lies_in_directory(app, path, directory) {
        assert(relative.subrange(0, names.len() as int) == (base + names).skip(base.len() as int));
        assert((base + names).skip(base.len() as int) == names);
    }
    if names.is_prefix_of(relative) {
        let n = (base.len() + names.len()) as int;
        assert(whole.subrange(0, n) == base + relative.subrange(0, names.len() as int));
    }
}

/// A library in the app, by its name, is code that is signed on its own, whatever its mode, unless it
/// lies with the app's own executables.
pub proof fn law_libraries_are_nested_code(
    app: Seq<u8>,
    path: Seq<u8>,
    mode: Result<u32, Seq<char>>,
)
    requires
        below(path, app),
        !is_own_executable(app, path),
        extension(path) == Some(encode_utf8("dylib"@)) || extension(path) == Some(
            encode_utf8("so"@),
        ),
    ensures
        nested_executable(app, path, mode) == Ok::<bool, Seq<char>>(true),
{
    lemma_own_executable(app, path);
}

/// What lies right with the app's own executables is never signed on its own.
pub proof fn law_own_executables_are_not_nested(
    app: Seq<u8>,
    path: Seq<u8>,
    mode: Result<u32, Seq<char>>,
)
    requires
        below(path, app),
        is_own_executable(app, path),
    ensures
        nested_executable(app, path, mode) == Ok::<bool, Seq<char>>(false),
{
    lemma_own_executable(app, path);
}

/// Any other file is code that is signed on its own where it lies in one of the five directories for
/// code, however deep, and someone may execute it. Where its mode is not known it is refused there, and
/// nowhere else.
pub proof fn law_executables_are_nested_code_in_code_directories(
    app: Seq<u8>,
    path: Seq<u8>,
    mode: Result<u32, Seq<char>>,
)
    requires
        below(path, app),
        !is_own_executable(app, path),
        extension(path) != Some(encode_utf8("dylib"@)),
        extension(path) != Some(encode_utf8("so"@)),
    ensures
        ({
            let for_code = lies_in_directory(app, path, "Contents/Frameworks"@)
                || lies_in_directory(app, path, "Contents/Helpers"@) || lies_in_directory(
                app,
                path,
                "Contents/Library/LoginItems"@,
            ) || lies_in_directory(app, path, "Contents/PlugIns"@) || lies_in_directory(
                app,
                path,
                "Contents/XPCServices"@,
            );
            &&& !for_code ==> nested_executable(app, path, mode) == Ok::<bool, Seq<char>>(false)
            &&& for_code && mode is Err ==> nested_executable(app, path, mode) == Err::<
                bool,
                Seq<char>,
            >(mode->Err_0)
            &&& for_code && mode is Ok ==> nested_executable(app, path, mode) == Ok::<
                bool,
                Seq<char>,
            >(mode->Ok_0 & 0o100u32 != 0 || mode->Ok_0 & 0o010u32 != 0 || mode->Ok_0 & 0o001u32 != 0)
        }),
{
    lemma_own_executable(app, path);
    lemma_lies_in_directory(app, path, "Contents/Frameworks"@);
    lemma_lies_in_directory(app, path, "Contents/Helpers"@);
    lemma_lies_in_directory(app, path, "Contents/Library/LoginItems"@);
    lemma_lies_in_directory(app, path, "Contents/PlugIns"@);
    lemma_lies_in_directory(app, path, "Contents/XPCServices"@);
    if mode is Ok {
        let m = mode->Ok_0;
        assert((m & 0o111u32 != 0) == (m & 0o100u32 != 0 || m & 0o010u32 != 0 || m & 0o001u32 != 0))
            by (bit_vector);
    }
}

/// What does not lie in the app is refused.
pub proof fn law_foreign_files_are_no_nested_code(
    app: Seq<u8>,
    path: Seq<u8>,
    mode: Result<u32, Seq<char>>,
)
    requires
        !below(path, app),
    ensures
        nested_executable(app, path, mode) is Err,
{
}

/// Whether an entry is one of `entries`, or lies in one of them, however deep.
pub open spec fn lies_among(entries: Seq<Entry>, wanted: Entry) -> bool
    decreases entries,
{
    exists|i: int| 0 <= i < entries.len() && lies_in(#[trigger] entries[i], wanted)
}

/// Whether an entry is `wanted`, or `wanted` lies in it.
pub open spec fn lies_in(entry: Entry, wanted: Entry) -> bool
    decreases entry,
{
    entry == wanted || match entry {
        Entry::Directory { path, entries: Ok(entries) } => lies_among(entries@, wanted),
        _ => false,
    }
}

/// Whether an entry is signed on its own under this path: a file that is nested code, or a directory,
/// but for the app itself, whose name says that it is a bundle of code.
pub open spec fn is_signed_as(app: Seq<u8>, entry: Entry, path: Seq<u8>) -> bool {
    match entry {
        Entry::File { path: own, mode } => own@ == path && nested_executable(
            app,
            path,
            known_mode(mode),
        ) == Ok::<bool, Seq<char>>(true),
        Entry::Directory { path: own, entries: Ok(_) } => own@ == path && components(path)
            != components(app) && (extension(path) == Some(encode_utf8("app"@)) || extension(path)
            == Some(encode_utf8("appex"@)) || extension(path) == Some(encode_utf8("framework"@))
            || extension(path) == Some(encode_utf8("plugin"@)) || extension(path) == Some(
            encode_utf8("xpc"@),
        )),
        _ => false,
    }
}

proof fn lemma_found_among(app: Seq<u8>, entries: Seq<Entry>, wanted: Entry, path: Seq<u8>)
    requires
        found_among(app, entries) is Ok,
        lies_among(entries, wanted),
        is_signed_as(app, wanted, path),
    ensures
        found_among(app, entries)->Ok_0.contains(path),
    decreases entries, 1int,
{
    let i = choose|i: int| 0 <= i < entries.len() && lies_in(#[trigger] entries[i], wanted);
    let rest = entries.drop_last();
    let found = found_among(app, rest)->Ok_0;
    let more = found_in(app, entries.last())->Ok_0;
    if i < rest.len() {
        assert(rest[i] == entries[i]);
        assert(lies_among(rest, wanted));
        lemma_found_among(app, rest, wanted, path);
        let k = choose|k: int| 0 <= k < found.len() && found[k] == path;
        assert((found + more)[k] == path);
    } else {
        assert(decreases_to!(entries => entries[i]));
        lemma_found_in(app, entries.last(), wanted, path);
        let k = choose|k: int| 0 <= k < more.len() && more[k] == path;
        assert((found + more)[found.len() + k] == path);
    }
}

proof fn lemma_found_in(app: Seq<u8>, entry: Entry, wanted: Entry, path: Seq<u8>)
    requires
        found_in(app, entry) is Ok,
        lies_in(entry, wanted),
        is_signed_as(app, wanted, path),
    ensures
        found_in(app, entry)->Ok_0.contains(path),
    decreases entry, 0int,
{
    let found = found_in(app, entry)->Ok_0;
    match entry {
        Entry::Directory { path: own, entries: Ok(entries) } => {
            let inner = found_among(app, entries@)->Ok_0;
            if entry == wanted {
                assert(found.last() == path);
            } else {
                lemma_found_among(app, entries@, wanted, path);
                let k = choose|k: int| 0 <= k < inner.len() && inner[k] == path;
                assert(found[k] == path);
            }
        },
        Entry::File { path: own, mode } => {
            assert(found[0] == path);
        },
        _ => {},
    }
}

proof fn lemma_only_found_among(app: Seq<u8>, entries: Seq<Entry>, path: Seq<u8>) -> (wanted: Entry)
    requires
        found_among(app, entries) is Ok,
        found_among(app, entries)->Ok_0.contains(path),
    ensures
        lies_among(entries, wanted),
        is_signed_as(app, wanted, path),
    decreases entries, 1int,
{
    let rest = entries.drop_last();
    let found = found_among(app, rest)->Ok_0;
    let more = found_in(app, entries.last())->Ok_0;
    let k = choose|k: int| 0 <= k < (found + more).len() && (found + more)[k] == path;
    if k < found.len() {
        assert(found[k] == path);
        let wanted = lemma_only_found_among(app, rest, path);
        let i = choose|i: int| 0 <= i < rest.len() && lies_in(#[trigger] rest[i], wanted);
        assert(entries[i] == rest[i]);
        wanted
    } else {
        assert(more[k - found.len()] == path);
        assert(decreases_to!(entries => entries[entries.len() - 1]));
        let wanted = lemma_only_found_in(app, entries.last(), path);
        assert(lies_in(entries[entries.len() - 1], wanted));
        wanted
    }
}

proof fn lemma_only_found_in(app: Seq<u8>, entry: Entry, path: Seq<u8>) -> (wanted: Entry)
    requires
        found_in(app, entry) is Ok,
        found_in(app, entry)->Ok_0.contains(path),
    ensures
        lies_in(entry, wanted),
        is_signed_as(app, wanted, path),
    decreases entry, 0int,
{
    match entry {
        Entry::Directory { path: own, entries: Ok(entries) } => {
            let inner = found_among(app, entries@)->Ok_0;
            if inner.contains(path) {
                lemma_only_found_among(app, entries@, path)
            } else {
                let found = found_in(app, entry)->Ok_0;
                let k = choose|k: int| 0 <= k < found.len() && found[k] == path;
                if k < inner.len() {
                    assert(inner[k] == path);
                }
                entry
            }
        },
        _ => entry,
    }
}

proof fn lemma_deepest_first_holds(paths: Seq<Seq<u8>>, path: Seq<u8>)
    ensures
        deepest_first(paths).contains(path) <==> paths.contains(path),
        deepest_first(paths).len() == paths.len(),
    decreases paths.len(),
{
    if paths.len() > 0 {
        let rest = paths.drop_last();
        let sorted = deepest_first(rest);
        let last = paths.last();
        lemma_deepest_first_holds(rest, path);
        lemma_deep_ones(sorted, depth(last));
        let n = deep_ones(sorted, depth(last));
        let now = sorted.insert(n, last);
        if now.contains(path) {
            let k = choose|k: int| 0 <= k < now.len() && now[k] == path;
            if k == n {
                assert(paths[paths.len() - 1] == path);
            } else {
                let j = if k < n {
                    k
                } else {
                    k - 1
                };
                assert(sorted[j] == path);
                let i = choose|i: int| 0 <= i < rest.len() && rest[i] == path;
                assert(paths[i] == path);
            }
        }
        if paths.contains(path) {
            let i = choose|i: int| 0 <= i < paths.len() && paths[i] == path;
            if i == paths.len() - 1 {
                assert(now[n] == path);
            } else {
                assert(rest[i] == path);
                let j = choose|j: int| 0 <= j < sorted.len() && sorted[j] == path;
                assert(now[if j < n {
                    j
                } else {
                    j + 1
                }] == path);
            }
        }
    }
}

/// What is found to be signed on its own is just what is nested code, or a bundle of code, at whatever
/// depth among the entries of the app: nothing of that kind is overlooked, and nothing else is found.
pub proof fn law_nested_code_is_all_that_is_found(app: Seq<u8>, entries: Seq<Entry>, path: Seq<u8>)
    requires
        nested_outcome(app, Ok(entries)) is Ok,
    ensures
        nested_outcome(app, Ok(entries))->Ok_0.contains(path) <==> exists|entry: Entry| #[trigger]
            lies_among(entries, entry) && is_signed_as(app, entry, path),
{
    let paths = found_among(app, entries)->Ok_0;
    lemma_deepest_first_holds(paths, path);
    if paths.contains(path) {
        let entry = lemma_only_found_among(app, entries, path);
        assert(lies_among(entries, entry));
    }
    if exists|entry: Entry| #[trigger]
        lies_among(entries, entry) && is_signed_as(app, entry, path) {
        let entry = choose|entry: Entry| #[trigger]
            lies_among(entries, entry) && is_signed_as(app, entry, path);
        lemma_found_among(app, entries, entry, path);
    }
}

/// Every library among the entries of an app, at whatever depth, is found to be signed on its own,
/// whatever its mode.
pub proof fn law_no_library_is_overlooked(
    app: Seq<u8>,
    entries: Seq<Entry>,
    path: Vec<u8>,
    mode: Result<u32, String>,
)
    requires
        nested_outcome(app, Ok(entries)) is Ok,
        lies_among(entries, (Entry::File { path, mode })),
        below(path@, app),
        !is_own_executable(app, path@),
        extension(path@) == Some(encode_utf8("dylib"@)) || extension(path@) == Some(
            encode_utf8("so"@),
        ),
    ensures
        nested_outcome(app, Ok(entries))->Ok_0.contains(path@),
{
    let entry = Entry::File { path, mode };
    law_libraries_are_nested_code(app, path@, known_mode(mode));
    assert(is_signed_as(app, entry, path@));
    law_nested_code_is_all_that_is_found(app, entries, path@);
}

/// Whether what an entry is cannot be told.
pub open spec fn cannot_be_told(entry: Entry) -> bool {
    match entry {
        Entry::Fault(_) => true,
        Entry::Directory { path, entries } => entries is Err,
        _ => false,
    }
}

/// Where one entry, at whatever depth, cannot be looked at, or a file is not one of the app, nothing is
/// found, but the whole is refused.
pub proof fn law_unknown_entries_are_refused(app: Seq<u8>, entries: Seq<Entry>, entry: Entry)
    requires
        lies_among(entries, entry),
        cannot_be_told(entry) || (entry matches Entry::File { path, mode } && nested_executable(
            app,
            path@,
            known_mode(mode),
        ) is Err),
    ensures
        nested_outcome(app, Ok(entries)) is Err,
{
    lemma_unknown_among(app, entries, entry);
}

proof fn lemma_unknown_among(app: Seq<u8>, entries: Seq<Entry>, entry: Entry)
    requires
        lies_among(entries, entry),
        cannot_be_told(entry) || (entry matches Entry::File { path, mode } && nested_executable(
            app,
            path@,
            known_mode(mode),
        ) is Err),
    ensures
        found_among(app, entries) is Err,
    decreases entries, 1int,
{
    let i = choose|i: int| 0 <= i < entries.len() && lies_in(#[trigger] entries[i], entry);
    let rest = entries.drop_last();
    if i < rest.len() {
        assert(rest[i] == entries[i]);
        assert(lies_among(rest, entry));
        lemma_unknown_among(app, rest, entry);
    } else {
        assert(decreases_to!(entries => entries[i]));
        lemma_unknown_in(app, entries[i], entry);
    }
}

proof fn lemma_unknown_in(app: Seq<u8>, outer: Entry, entry: Entry)
    requires
        lies_in(outer, entry),
        cannot_be_told(entry) || (entry matches Entry::File { path, mode } && nested_executable(
            app,
            path@,
            known_mode(mode),
        ) is Err),
    ensures
        found_in(app, outer) is Err,
    decreases outer, 0int,
{
    if outer != entry {
        match outer {
            Entry::Directory { path, entries: Ok(entries) } => {
                lemma_unknown_among(app, entries@, entry);
            },
            _ => {},
        }
    }
}

} // verus!
