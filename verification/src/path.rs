//! Unix paths as byte strings: components, joining, parents, extensions, and their order.
//!
//! A component is a byte string without a slash, or the slash alone for the root. Empty pieces and
//! `.` pieces are no components, except for a `.` that starts a relative path.

use vstd::prelude::*;
use vstd::slice::slice_subrange;
use vstd::utf8::encode_utf8;

use crate::bytes::{append, owned, same_bytes, split_bytes};
use crate::text::{
    last_occurrence, law_last_occurrence_is_last, law_splits_at_every_separator, piece, pieces,
    split,
};

verus! {

/// The byte that separates components.
pub open spec fn slash() -> u8 {
    '/' as u8
}

/// The component `.`.
pub open spec fn dot() -> Seq<u8> {
    seq!['.' as u8]
}

/// The component `..`.
pub open spec fn dot_dot() -> Seq<u8> {
    seq!['.' as u8, '.' as u8]
}

/// Whether a path starts at the root.
pub open spec fn absolute(path: Seq<u8>) -> bool {
    path.len() > 0 && path[0] == slash()
}

/// Whether a piece between slashes is a component wherever it stands.
pub open spec fn is_name(piece: Seq<u8>) -> bool {
    piece.len() > 0 && piece != dot()
}

/// The root of an absolute path, or the `.` that starts a relative one, if either is there.
pub open spec fn lead(path: Seq<u8>) -> Seq<Seq<u8>> {
    if absolute(path) || starts_here(path) {
        seq![path.take(1)]
    } else {
        Seq::empty()
    }
}

/// Whether the first component is `.`.
pub open spec fn starts_here(path: Seq<u8>) -> bool {
    path.len() > 0 && path[0] == '.' as u8 && (path.len() == 1 || path[1] == slash())
}

/// The components of a path.
pub open spec fn components(path: Seq<u8>) -> Seq<Seq<u8>> {
    lead(path) + split(path, slash()).filter(|piece: Seq<u8>| is_name(piece))
}

/// Whether a path starts at the root.
pub fn is_absolute(path: &[u8]) -> (r: bool)
    ensures
        r == absolute(path@),
{
    path.len() > 0 && path[0] == '/' as u8
}

/// The components of a path.
pub fn path_components<'a>(path: &'a [u8]) -> (parts: Vec<&'a [u8]>)
    ensures
        pieces(parts@) == components(path@),
{
    let mut parts: Vec<&'a [u8]> = Vec::new();
    if path.len() > 0 && (path[0] == '/' as u8 || (path[0] == '.' as u8 && (path.len() == 1
        || path[1] == '/' as u8))) {
        parts.push(slice_subrange(path, 0, 1));
        assert(pieces(parts@) == seq![path@.take(1)]);
    }
    assert(pieces(parts@) == lead(path@));
    let all = split_bytes(path, '/' as u8);
    let mut i: usize = 0;
    let ghost named = |piece: Seq<u8>| is_name(piece);
    proof {
        reveal(Seq::filter);
        assert(pieces(all@).take(0).filter(named) == Seq::<Seq<u8>>::empty());
        assert(lead(path@) + Seq::<Seq<u8>>::empty() == lead(path@));
    }
    while i < all.len()
        invariant
            i <= all@.len(),
            pieces(all@) == split(path@, slash()),
            named == (|piece: Seq<u8>| is_name(piece)),
            pieces(parts@) == lead(path@) + pieces(all@).take(i as int).filter(named),
        decreases all@.len() - i,
    {
        let part = all[i];
        let ghost before = pieces(parts@);
        proof {
            reveal(Seq::filter);
            assert(pieces(all@).take(i + 1).drop_last() == pieces(all@).take(i as int));
            assert(part@.len() == 1 && part@[0] == '.' as u8 ==> part@ == dot());
            assert(pieces(all@)[i as int] == part@);
        }
        if part.len() > 0 && !(part.len() == 1 && part[0] == '.' as u8) {
            parts.push(part);
            assert(pieces(parts@) == before.push(part@));
        }
        i += 1;
    }
    assert(pieces(all@).take(i as int) == pieces(all@));
    parts
}

/// `path` taken relative to `base`, in bytes: an absolute path replaces the base.
pub open spec fn joined(base: Seq<u8>, path: Seq<u8>) -> Seq<u8> {
    if absolute(path) {
        path
    } else if base.len() > 0 && base.last() != slash() {
        base.push(slash()) + path
    } else {
        base + path
    }
}

/// `path` taken relative to `base`.
pub fn join(base: &[u8], path: &[u8]) -> (result: Vec<u8>)
    ensures
        result@ == joined(base@, path@),
{
    if is_absolute(path) {
        return owned(path);
    }
    let mut result = owned(base);
    if base.len() > 0 && base[base.len() - 1] != '/' as u8 {
        result.push('/' as u8);
    }
    append(&mut result, path);
    result
}

/// `path` taken relative to `base`, for a path that is written out.
pub fn join_text(base: &[u8], path: &str) -> (result: Vec<u8>)
    ensures
        result@ == joined(base@, encode_utf8(path@)),
{
    join(base, path.as_bytes())
}

/// Where the part of a path starts that lies behind its root or its leading `.`.
pub open spec fn body_start(path: Seq<u8>) -> int {
    lead(path).len() as int
}

/// Where the last piece of `path` behind `from` starts: behind the last slash there, or at `from`.
pub open spec fn piece_start(path: Seq<u8>, from: int) -> int
    decreases path.len(),
{
    if path.len() == 0 || path.len() <= from || path.last() == slash() {
        path.len() as int
    } else {
        piece_start(path.drop_last(), from)
    }
}

/// Where what precedes the piece at `start` ends, the slash between them left out.
pub open spec fn piece_end(start: int, from: int) -> int {
    if start > from {
        start - 1
    } else {
        start
    }
}

/// `path` without the empty pieces and `.` pieces that end it, as far as they lie behind `from`.
pub open spec fn trim_tail(path: Seq<u8>, from: int) -> Seq<u8>
    decreases path.len(),
{
    let start = piece_start(path, from);
    let end = piece_end(start, from);
    if path.len() <= from || is_name(path.skip(start)) {
        path
    } else if 0 <= end < path.len() {
        trim_tail(path.take(end), from)
    } else {
        path
    }
}

/// The path of the directory that holds what `path` names: `path` without its last component. The
/// root and the empty path have none.
pub open spec fn parent(path: Seq<u8>) -> Option<Seq<u8>> {
    let from = body_start(path);
    let named = trim_tail(path, from);
    if named.len() > from {
        Some(trim_tail(named.take(piece_end(piece_start(named, from), from)), from))
    } else if starts_here(path) {
        Some(Seq::empty())
    } else {
        None
    }
}

/// The last component of a path, where that is a name.
pub open spec fn file_name(path: Seq<u8>) -> Option<Seq<u8>> {
    let from = body_start(path);
    let named = trim_tail(path, from);
    let last = named.skip(piece_start(named, from));
    if named.len() > from && last != dot_dot() {
        Some(last)
    } else {
        None
    }
}

/// Where the part of a path starts that lies behind its root or its leading `.`.
fn find_body_start(path: &[u8]) -> (from: usize)
    ensures
        from == body_start(path@),
        from <= path@.len(),
{
    if path.len() > 0 && (path[0] == '/' as u8 || (path[0] == '.' as u8 && (path.len() == 1
        || path[1] == '/' as u8))) {
        1
    } else {
        0
    }
}

/// Where the last piece of the first `length` bytes of `path` starts.
fn find_piece_start(path: &[u8], length: usize, from: usize) -> (start: usize)
    requires
        from <= length <= path@.len(),
    ensures
        start == piece_start(path@.take(length as int), from as int),
        from <= start <= length,
{
    let mut start: usize = length;
    while start > from && path[start - 1] != '/' as u8
        invariant
            from <= start <= length <= path@.len(),
            piece_start(path@.take(length as int), from as int) == piece_start(
                path@.take(start as int),
                from as int,
            ),
        decreases start,
    {
        assert(path@.take(start as int).drop_last() == path@.take(start - 1));
        start -= 1;
    }
    start
}

/// The length of `path` without the empty pieces and `.` pieces that end it.
fn find_tail(path: &[u8], length: usize, from: usize) -> (end: usize)
    requires
        from <= length <= path@.len(),
    ensures
        path@.take(end as int) == trim_tail(path@.take(length as int), from as int),
        from <= end <= length,
{
    let mut end: usize = length;
    loop
        invariant
            from <= end <= length <= path@.len(),
            trim_tail(path@.take(length as int), from as int) == trim_tail(
                path@.take(end as int),
                from as int,
            ),
        decreases end,
    {
        if end <= from {
            return end;
        }
        let start = find_piece_start(path, end, from);
        let ghost whole = path@.take(end as int);
        let ghost last = whole.skip(start as int);
        assert(last.len() == 1 && last[0] == '.' as u8 ==> last == dot());
        if start < end && !(end - start == 1 && path[start] == '.' as u8) {
            assert(last[0] == path@[start as int]);
            assert(is_name(last));
            return end;
        }
        assert(!is_name(last));
        let next = if start > from {
            start - 1
        } else {
            start
        };
        assert(whole.take(next as int) == path@.take(next as int));
        end = next;
    }
}

/// The path of the directory that holds what `path` names.
pub fn parent_of<'a>(path: &'a [u8]) -> (result: Option<&'a [u8]>)
    ensures
        piece(result) == parent(path@),
{
    let from = find_body_start(path);
    let end = find_tail(path, path.len(), from);
    assert(path@.take(path@.len() as int) == path@);
    let ghost named = path@.take(end as int);
    if end > from {
        let start = find_piece_start(path, end, from);
        let next = if start > from {
            start - 1
        } else {
            start
        };
        assert(named.take(next as int) == path@.take(next as int));
        let last = find_tail(path, next, from);
        Some(slice_subrange(path, 0, last))
    } else if path.len() > 0 && path[0] == '.' as u8 && (path.len() == 1 || path[1] == '/' as u8) {
        let none = slice_subrange(path, 0, 0);
        assert(none@ == Seq::<u8>::empty());
        Some(none)
    } else {
        None
    }
}

/// The last component of a path, where that is a name.
pub fn file_name_of<'a>(path: &'a [u8]) -> (result: Option<&'a [u8]>)
    ensures
        piece(result) == file_name(path@),
{
    let from = find_body_start(path);
    let end = find_tail(path, path.len(), from);
    assert(path@.take(path@.len() as int) == path@);
    if end <= from {
        return None;
    }
    let start = find_piece_start(path, end, from);
    let last = slice_subrange(path, start, end);
    assert(last@ == path@.take(end as int).skip(start as int));
    assert(last@.len() == 2 && last@[0] == '.' as u8 && last@[1] == '.' as u8 ==> last@
        == dot_dot());
    if last.len() == 2 && last[0] == '.' as u8 && last[1] == '.' as u8 {
        None
    } else {
        Some(last)
    }
}

/// The extension of a path: what follows the last dot of its file name, unless that name has no
/// other byte before it.
pub open spec fn extension(path: Seq<u8>) -> Option<Seq<u8>> {
    match file_name(path) {
        Some(name) => if last_occurrence(name, dot()) > 0 {
            Some(name.skip(last_occurrence(name, dot()) + 1))
        } else {
            None
        },
        None => None,
    }
}

/// The extension of a path.
pub fn extension_of<'a>(path: &'a [u8]) -> (result: Option<&'a [u8]>)
    ensures
        piece(result) == extension(path@),
{
    let name = match file_name_of(path) {
        Some(name) => name,
        None => return None,
    };
    let mut end: usize = name.len();
    assert(name@.take(end as int) == name@);
    while end > 0 && name[end - 1] != '.' as u8
        invariant
            end <= name@.len(),
            last_occurrence(name@, dot()) == last_occurrence(name@.take(end as int), dot()),
        decreases end,
    {
        proof {
            let head = name@.take(end as int);
            assert(head.subrange(end - 1, end as int)[0] == head.last());
            assert(head.drop_last() == name@.take(end - 1));
        }
        end -= 1;
    }
    proof {
        let head = name@.take(end as int);
        if end > 0 {
            assert(head.subrange(end - 1, end as int) == dot());
        }
    }
    if end > 1 {
        let rest = slice_subrange(name, end, name.len());
        assert(rest@ == name@.skip(last_occurrence(name@, dot()) + 1));
        Some(rest)
    } else {
        None
    }
}

/// Whether `path` lies at or below `base`: the components of `base` start those of `path`.
pub open spec fn below(path: Seq<u8>, base: Seq<u8>) -> bool {
    components(base).is_prefix_of(components(path))
}

/// Whether the first `count` components of two paths are the same.
pub fn same_components(left: &Vec<&[u8]>, right: &Vec<&[u8]>, count: usize) -> (r: bool)
    requires
        count <= left@.len(),
        count <= right@.len(),
    ensures
        r == (pieces(left@).take(count as int) == pieces(right@).take(count as int)),
{
    let mut i: usize = 0;
    while i < count
        invariant
            i <= count,
            count <= left@.len(),
            count <= right@.len(),
            forall|k: int| 0 <= k < i ==> left@[k]@ == right@[k]@,
        decreases count - i,
    {
        if !same_bytes(left[i], right[i]) {
            assert(pieces(left@).take(count as int)[i as int] != pieces(right@).take(
                count as int,
            )[i as int]);
            return false;
        }
        i += 1;
    }
    assert(pieces(left@).take(count as int) == pieces(right@).take(count as int));
    true
}

/// Whether `path` lies at or below `base`.
pub fn is_below(path: &[u8], base: &[u8]) -> (r: bool)
    ensures
        r == below(path@, base@),
{
    let parts = path_components(path);
    let wanted = path_components(base);
    if wanted.len() > parts.len() {
        return false;
    }
    let r = same_components(&wanted, &parts, wanted.len());
    proof {
        let w = components(base@);
        let p = components(path@);
        assert(pieces(wanted@).take(wanted@.len() as int) == w);
        assert(p.take(w.len() as int) == p.subrange(0, w.len() as int));
    }
    r
}

/// Whether two paths have the same components.
pub open spec fn same_place(left: Seq<u8>, right: Seq<u8>) -> bool {
    components(left) == components(right)
}

/// Whether two paths have the same components.
pub fn is_same_place(left: &[u8], right: &[u8]) -> (r: bool)
    ensures
        r == same_place(left@, right@),
{
    let first = path_components(left);
    let second = path_components(right);
    if first.len() != second.len() {
        assert(pieces(first@).len() != pieces(second@).len());
        return false;
    }
    let r = same_components(&first, &second, first.len());
    proof {
        assert(pieces(first@).take(first@.len() as int) == components(left@));
        assert(pieces(second@).take(first@.len() as int) == components(right@));
    }
    r
}

proof fn lemma_trim_tail_shorter(path: Seq<u8>, from: int)
    ensures
        trim_tail(path, from).len() <= path.len(),
    decreases path.len(),
{
    let end = piece_end(piece_start(path, from), from);
    if path.len() > from && !is_name(path.skip(piece_start(path, from))) && 0 <= end < path.len() {
        lemma_trim_tail_shorter(path.take(end), from);
    }
}

proof fn lemma_piece_start_in_path(path: Seq<u8>, from: int)
    requires
        0 <= from <= path.len(),
    ensures
        from <= piece_start(path, from) <= path.len(),
    decreases path.len(),
{
    if path.len() > from && path.last() != slash() {
        lemma_piece_start_in_path(path.drop_last(), from);
    }
}

/// The parent of a path is shorter than the path.
pub proof fn law_parent_is_shorter(path: Seq<u8>)
    ensures
        parent(path) is Some ==> parent(path)->Some_0.len() < path.len(),
{
    let from = body_start(path);
    let named = trim_tail(path, from);
    lemma_trim_tail_shorter(path, from);
    if named.len() > from {
        lemma_piece_start_in_path(named, from);
        let start = piece_start(named, from);
        let end = piece_end(start, from);
        if end == named.len() {
            lemma_trimmed_has_last_piece(path, from);
        }
        lemma_trim_tail_shorter(named.take(end), from);
    }
}

proof fn lemma_trimmed_has_last_piece(path: Seq<u8>, from: int)
    requires
        0 <= from <= path.len(),
    ensures
        trim_tail(path, from).len() > from ==> piece_start(trim_tail(path, from), from) < trim_tail(
            path,
            from,
        ).len(),
    decreases path.len(),
{
    let start = piece_start(path, from);
    let end = piece_end(start, from);
    lemma_piece_start_in_path(path, from);
    if path.len() > from && !is_name(path.skip(start)) {
        if 0 <= end < path.len() {
            lemma_trimmed_has_last_piece(path.take(end), from);
        }
    }
}

/// A path, its parent, the parent of that, and so on.
pub open spec fn ancestors(path: Seq<u8>) -> Seq<Seq<u8>>
    decreases path.len(),
{
    proof {
        law_parent_is_shorter(path);
    }
    match parent(path) {
        Some(above) => seq![path] + ancestors(above),
        None => seq![path],
    }
}

/// A path, its parent, the parent of that, and so on.
pub fn ancestors_of<'a>(path: &'a [u8]) -> (result: Vec<&'a [u8]>)
    ensures
        pieces(result@) == ancestors(path@),
{
    let mut result: Vec<&'a [u8]> = Vec::new();
    let mut current = path;
    assert(pieces(result@) + ancestors(path@) == ancestors(path@));
    loop
        invariant
            ancestors(path@) == pieces(result@) + ancestors(current@),
        decreases current@.len(),
    {
        let ghost before = pieces(result@);
        result.push(current);
        assert(pieces(result@) == before.push(current@));
        proof {
            law_parent_is_shorter(current@);
        }
        match parent_of(current) {
            Some(above) => {
                assert(before + (seq![current@] + ancestors(above@)) == before.push(current@)
                    + ancestors(above@));
                current = above;
            },
            None => {
                assert(before + seq![current@] == before.push(current@));
                return result;
            },
        }
    }
}

/// The repository of a program whose manifest lies in the directory `manifest_directory`: the
/// directory above it.
pub fn repository_root(manifest_directory: &[u8]) -> (root: Vec<u8>)
    requires
        parent(manifest_directory@) is Some,
    ensures
        Some(root@) == parent(manifest_directory@),
{
    match parent_of(manifest_directory) {
        Some(root) => owned(root),
        None => Vec::new(),
    }
}

/// Whether a byte string is the name of something in a directory: not empty, without a slash, and
/// neither `.` nor `..`.
pub open spec fn is_plain_name(name: Seq<u8>) -> bool {
    name.len() > 0 && !name.contains('/' as u8) && name != seq!['.' as u8] && name != seq![
        '.' as u8,
        '.' as u8,
    ]
}

/// A path is joined to a directory with one slash between them, unless the directory ends with one or
/// is empty; an absolute path is not joined, but stands for itself.
pub proof fn law_paths_are_joined_with_one_slash(base: Seq<u8>, path: Seq<u8>)
    ensures
        path.len() > 0 && path[0] == '/' as u8 ==> joined(base, path) == path,
        (path.len() == 0 || path[0] != '/' as u8) && base.len() > 0 && base.last() != '/' as u8
            ==> joined(base, path) == base + seq!['/' as u8] + path,
        (path.len() == 0 || path[0] != '/' as u8) && (base.len() == 0 || base.last() == '/' as u8)
            ==> joined(base, path) == base + path,
{
    assert(base.push('/' as u8) == base + seq!['/' as u8]);
}

proof fn lemma_named_pieces(before: Seq<u8>, behind: Seq<u8>)
    ensures
        split(before.push(slash()) + behind, slash()).filter(|piece: Seq<u8>| is_name(piece))
            == split(before, slash()).filter(|piece: Seq<u8>| is_name(piece)) + split(
            behind,
            slash(),
        ).filter(|piece: Seq<u8>| is_name(piece)),
{
    law_splits_at_every_separator(before, slash(), behind);
    Seq::filter_distributes_over_add(
        split(before, slash()),
        split(behind, slash()),
        |piece: Seq<u8>| is_name(piece),
    );
}

proof fn lemma_one_piece(name: Seq<u8>)
    requires
        !name.contains(slash()),
    ensures
        split(name, slash()).filter(|piece: Seq<u8>| is_name(piece)) == (if name.len() > 0 && name
            != dot() {
            seq![name]
        } else {
            Seq::empty()
        }),
{
    let named = |piece: Seq<u8>| is_name(piece);
    law_splits_at_every_separator(name, slash(), Seq::empty());
    reveal(Seq::filter);
    let one = seq![name];
    assert(one.drop_last() == Seq::<Seq<u8>>::empty());
    assert(one.drop_last().filter(named) == Seq::<Seq<u8>>::empty());
    assert(one.filter(named) == (if is_name(name) {
        seq![name]
    } else {
        Seq::<Seq<u8>>::empty()
    }));
}

/// The components of a path that do not come from how it starts.
spec fn named_pieces(path: Seq<u8>) -> Seq<Seq<u8>> {
    split(path, slash()).filter(|piece: Seq<u8>| is_name(piece))
}

proof fn lemma_joined_pieces(base: Seq<u8>, name: Seq<u8>)
    requires
        base.len() > 0,
        name.len() > 0,
        !name.contains('/' as u8),
        name != seq!['.' as u8],
    ensures
        named_pieces(joined(base, name)) == named_pieces(base).push(name),
{
    assert(name[0] != slash()) by {
        assert(name.contains(name[0]));
    }
    lemma_one_piece(name);
    lemma_one_piece(Seq::empty());
    let b = if base.last() == slash() {
        base.drop_last()
    } else {
        base
    };
    assert(joined(base, name) == b.push(slash()) + name);
    lemma_named_pieces(b, name);
    if base.last() == slash() {
        lemma_named_pieces(b, Seq::empty());
        assert(b.push(slash()) + Seq::<u8>::empty() == base);
        let head = named_pieces(b);
        assert(head + Seq::<Seq<u8>>::empty() == head);
    }
    let inner = named_pieces(base);
    assert(inner + seq![name] == inner.push(name));
}

proof fn lemma_joined_lead(base: Seq<u8>, name: Seq<u8>)
    requires
        base.len() > 0,
        name.len() > 0,
        !name.contains('/' as u8),
    ensures
        lead(joined(base, name)) == lead(base),
{
    let whole = joined(base, name);
    assert(name[0] != slash()) by {
        assert(name.contains(name[0]));
    }
    assert(whole[0] == base[0]);
    assert(whole.take(1) == base.take(1));
    if base.len() > 1 {
        assert(whole[1] == base[1]);
    } else if base.last() != slash() {
        assert(whole[1] == slash());
    }
}

/// The components of what lies in a directory are those of the directory and its name.
pub proof fn law_components_follow_the_directories(base: Seq<u8>, name: Seq<u8>)
    requires
        base.len() > 0,
        name.len() > 0,
        !name.contains('/' as u8),
        name != seq!['.' as u8],
    ensures
        components(joined(base, name)) == components(base).push(name),
{
    lemma_joined_pieces(base, name);
    lemma_joined_lead(base, name);
    let inner = named_pieces(base);
    assert(lead(base) + inner.push(name) == (lead(base) + inner).push(name));
}

/// A name on its own is its only component.
pub proof fn law_a_name_is_its_only_component(name: Seq<u8>)
    requires
        name.len() > 0,
        !name.contains('/' as u8),
        name != seq!['.' as u8],
    ensures
        components(name) == seq![name],
{
    lemma_one_piece(name);
    lemma_name_leads_nowhere(name);
    assert(Seq::<Seq<u8>>::empty() + seq![name] == seq![name]);
}

proof fn lemma_name_leads_nowhere(name: Seq<u8>)
    requires
        name.len() > 0,
        !name.contains('/' as u8),
        name != seq!['.' as u8],
    ensures
        lead(name) == Seq::<Seq<u8>>::empty(),
{
    assert(name[0] != slash()) by {
        assert(name.contains(name[0]));
    }
    if name.len() > 1 {
        assert(name.contains(name[1]));
    } else if name[0] == '.' as u8 {
        assert(name == seq!['.' as u8]);
    }
}

proof fn lemma_no_pieces(path: Seq<u8>)
    requires
        path.len() == 0 || path == Seq::<u8>::empty().push(slash()) + Seq::<u8>::empty(),
    ensures
        named_pieces(path) == Seq::<Seq<u8>>::empty(),
{
    let none = Seq::<u8>::empty();
    lemma_one_piece(none);
    if path.len() == 0 {
        assert(path == none);
    } else {
        lemma_named_pieces(none, none);
        let pieces = Seq::<Seq<u8>>::empty();
        assert(pieces + pieces == pieces);
    }
}

/// The root is its only component, and nothing has none.
pub proof fn law_the_root_is_its_only_component(root: Seq<u8>, nothing: Seq<u8>)
    requires
        root.len() == 1,
        root[0] == '/' as u8,
        nothing.len() == 0,
    ensures
        components(root) == seq![root],
        components(nothing) == Seq::<Seq<u8>>::empty(),
{
    assert(root == Seq::<u8>::empty().push(slash()) + Seq::<u8>::empty());
    lemma_no_pieces(root);
    lemma_no_pieces(nothing);
    assert(root.take(1) == root);
    assert(lead(root) == seq![root]);
    assert(seq![root] + Seq::<Seq<u8>>::empty() == seq![root]);
    assert(Seq::<Seq<u8>>::empty() + Seq::<Seq<u8>>::empty() == Seq::<Seq<u8>>::empty());
}

/// A slash too many, or a `.` between slashes, makes no difference to the components.
pub proof fn law_redundant_pieces_are_no_components(before: Seq<u8>, behind: Seq<u8>)
    requires
        before.len() > 0,
    ensures
        components(before + seq!['/' as u8, '/' as u8] + behind) == components(
            before + seq!['/' as u8] + behind,
        ),
        components(before + seq!['/' as u8, '.' as u8, '/' as u8] + behind) == components(
            before + seq!['/' as u8] + behind,
        ),
{
    let plain = before + seq![slash()] + behind;
    let twice = before + seq![slash(), slash()] + behind;
    let dotted = before + seq![slash(), '.' as u8, slash()] + behind;
    let one: Seq<u8> = Seq::<u8>::empty().push(slash()) + behind;
    let two: Seq<u8> = dot().push(slash()) + behind;
    assert(plain == before.push(slash()) + behind);
    assert(twice == before.push(slash()) + one);
    assert(dotted == before.push(slash()) + two);
    lemma_named_pieces(before, behind);
    lemma_named_pieces(before, one);
    lemma_named_pieces(before, two);
    lemma_named_pieces(Seq::empty(), behind);
    lemma_named_pieces(dot(), behind);
    assert(!dot().contains(slash()));
    lemma_one_piece(Seq::empty());
    lemma_one_piece(dot());
    let rest = split(behind, slash()).filter(|piece: Seq<u8>| is_name(piece));
    assert(Seq::<Seq<u8>>::empty() + rest == rest);
    assert(lead(plain) == lead(twice)) by {
        assert(plain.take(1) == twice.take(1));
        assert(plain[0] == twice[0]);
        assert(plain[1] == twice[1]);
    }
    assert(lead(plain) == lead(dotted)) by {
        assert(plain.take(1) == dotted.take(1));
        assert(plain[0] == dotted[0]);
        assert(plain[1] == dotted[1]);
    }
}

/// What lies in a directory lies below it, a directory lies below itself, and below is passed on.
pub proof fn law_below_follows_the_directories(
    base: Seq<u8>,
    name: Seq<u8>,
    path: Seq<u8>,
)
    requires
        base.len() > 0,
        is_plain_name(name),
    ensures
        below(joined(base, name), base),
        !below(base, joined(base, name)),
        below(base, base),
        below(path, joined(base, name)) ==> below(path, base),
{
    law_components_follow_the_directories(base, name);
    let names = components(base);
    assert(names.push(name).subrange(0, names.len() as int) == names);
    assert(names.subrange(0, names.len() as int) == names);
    if below(path, joined(base, name)) {
        let all = components(path);
        assert(all.subrange(0, names.len() as int) == all.subrange(
            0,
            names.len() as int + 1,
        ).subrange(0, names.len() as int));
    }
}

proof fn lemma_piece_start(head: Seq<u8>, name: Seq<u8>, from: int)
    requires
        !name.contains(slash()),
        0 <= from <= head.len(),
        head.len() == from || head.last() == slash(),
    ensures
        piece_start(head + name, from) == head.len(),
    decreases name.len(),
{
    if name.len() == 0 {
        assert(head + name == head);
    } else {
        let rest = name.drop_last();
        assert((head + name).drop_last() == head + rest);
        assert(name.contains(name.last()));
        assert((head + name).last() == name.last());
        assert forall|k: int| 0 <= k < rest.len() implies rest[k] != slash() by {
            assert(name.contains(name[k]));
        }
        lemma_piece_start(head, rest, from);
    }
}

/// The name of what lies in a directory is its file name, and what a path with a name at its end lies in
/// is its parent.
pub proof fn law_names_and_parents_of_joined_paths(base: Seq<u8>, name: Seq<u8>, directory: Seq<u8>)
    requires
        is_plain_name(name),
        base.len() > 0,
        is_plain_name(directory),
    ensures
        file_name(joined(base, name)) == Some(name),
        file_name(name) == Some(name),
        parent(joined(joined(base, directory), name)) == Some(joined(base, directory)),
        parent(joined(seq!['/' as u8], name)) == Some(seq!['/' as u8]),
        parent(name) == Some(Seq::<u8>::empty()),
        parent(seq!['/' as u8]) is None,
{
    lemma_last_piece(base, name);
    lemma_plain_name(name);
    let outer = joined(base, directory);
    lemma_last_piece(base, directory);
    lemma_last_piece(outer, name);
    assert(outer.last() != slash()) by {
        assert(directory.contains(directory.last()));
        assert(outer.last() == directory.last());
    }
    let root = seq![slash()];
    lemma_last_piece(root, name);
    let from_root = joined(root, name);
    assert(from_root.take(1) == root);
    assert(trim_tail(root, 1) == root);
    assert(name.take(0) == Seq::<u8>::empty());
    assert(trim_tail(Seq::<u8>::empty(), 0) == Seq::<u8>::empty());
    let whole = joined(outer, name);
    assert(whole == outer.push(slash()) + name);
    assert(whole.take(outer.len() as int) == outer);
    assert(lead(whole).len() == lead(outer).len()) by {
        lemma_lead(outer, name);
    }
    assert(lead(outer).len() == lead(base).len()) by {
        lemma_lead(base, directory);
    }
    assert(lead(root).len() == 1);
    assert(parent(root) is None);
}

proof fn lemma_lead(base: Seq<u8>, name: Seq<u8>)
    requires
        base.len() > 0,
        is_plain_name(name),
    ensures
        lead(joined(base, name)).len() == lead(base).len(),
        lead(base).len() <= base.len(),
{
    let whole = joined(base, name);
    assert(name[0] != slash()) by {
        assert(name.contains(name[0]));
    }
    assert(whole[0] == base[0]);
    if base.len() > 1 {
        assert(whole[1] == base[1]);
    } else if base.last() != slash() {
        assert(whole[1] == slash());
    }
}

proof fn lemma_plain_name(name: Seq<u8>)
    requires
        is_plain_name(name),
    ensures
        lead(name).len() == 0,
        piece_start(name, 0) == 0,
        trim_tail(name, 0) == name,
        name.skip(0) == name,
{
    assert(name[0] != slash()) by {
        assert(name.contains(name[0]));
    }
    if name.len() > 1 {
        assert(name.contains(name[1]));
    } else {
        assert(name[0] == '.' as u8 ==> name == dot());
    }
    lemma_piece_start(Seq::empty(), name, 0);
    assert(Seq::<u8>::empty() + name == name);
    assert(name.skip(0) == name);
}

proof fn lemma_last_piece(base: Seq<u8>, name: Seq<u8>)
    requires
        base.len() > 0,
        is_plain_name(name),
    ensures
        ({
            let whole = joined(base, name);
            let from = lead(base).len() as int;
            &&& lead(whole).len() == from
            &&& trim_tail(whole, from) == whole
            &&& piece_start(whole, from) == whole.len() - name.len()
            &&& whole.skip(whole.len() - name.len()) == name
            &&& from <= whole.len() - name.len()
        }),
{
    let whole = joined(base, name);
    lemma_lead(base, name);
    let from = lead(base).len() as int;
    assert(name[0] != slash()) by {
        assert(name.contains(name[0]));
    }
    let head = if base.last() == slash() {
        base
    } else {
        base.push(slash())
    };
    assert(whole == head + name);
    lemma_piece_start(head, name, from);
    assert(whole.skip(head.len() as int) == name);
}

/// The extension of a file is what follows the last dot in its name, where something stands before that
/// dot; a name with no dot but at its start has none.
pub proof fn law_extensions_follow_the_last_dot(base: Seq<u8>, stem: Seq<u8>, ending: Seq<u8>)
    requires
        base.len() > 0,
        !ending.contains('.' as u8),
        !ending.contains('/' as u8),
        !stem.contains('/' as u8),
    ensures
        stem.len() > 0 && stem + seq!['.' as u8] + ending != seq!['.' as u8, '.' as u8] ==> extension(
            joined(base, stem + seq!['.' as u8] + ending),
        ) == Some(ending),
        ending.len() > 0 ==> extension(joined(base, ending)) is None,
        ending.len() > 0 ==> extension(joined(base, seq!['.' as u8] + ending)) is None,
{
    let name = stem + seq!['.' as u8] + ending;
    assert(!name.contains(slash())) by {
        assert forall|k: int| 0 <= k < name.len() implies name[k] != slash() by {
            if k < stem.len() {
                assert(stem.contains(stem[k]));
            } else if k > stem.len() {
                assert(ending.contains(ending[k - stem.len() - 1]));
            }
        }
    }
    if stem.len() > 0 && name != dot_dot() {
        assert(name.len() >= 2);
        assert(is_plain_name(name));
        law_names_and_parents_of_joined_paths(base, name, name);
        lemma_last_dot(stem, ending);
        assert(name.skip(stem.len() as int + 1) == ending);
    }
    if ending.len() > 0 {
        assert(ending != dot()) by {
            assert(ending.contains(ending[0]));
        }
        assert(ending != dot_dot()) by {
            assert(ending.contains(ending[0]));
        }
        law_names_and_parents_of_joined_paths(base, ending, ending);
        lemma_no_dot(ending);
        let hidden = seq!['.' as u8] + ending;
        assert(!hidden.contains(slash())) by {
            assert forall|k: int| 0 <= k < hidden.len() implies hidden[k] != slash() by {
                if k > 0 {
                    assert(ending.contains(ending[k - 1]));
                }
            }
        }
        assert(hidden != dot_dot()) by {
            assert(ending.contains(ending[0]));
            assert(hidden[1] == ending[0]);
        }
        assert(is_plain_name(hidden));
        law_names_and_parents_of_joined_paths(base, hidden, hidden);
        lemma_last_dot(Seq::empty(), ending);
        assert(Seq::<u8>::empty() + seq!['.' as u8] + ending == hidden);
    }
}

proof fn lemma_last_dot(stem: Seq<u8>, ending: Seq<u8>)
    requires
        !ending.contains('.' as u8),
    ensures
        last_occurrence(stem + seq!['.' as u8] + ending, dot()) == stem.len(),
    decreases ending.len(),
{
    let name = stem + seq!['.' as u8] + ending;
    if ending.len() == 0 {
        assert(name.subrange(name.len() - 1, name.len() as int) == dot());
    } else {
        let rest = ending.drop_last();
        assert(name.drop_last() == stem + seq!['.' as u8] + rest);
        assert(ending.contains(ending.last()));
        assert(name.subrange(name.len() - 1, name.len() as int)[0] == ending.last());
        assert(!rest.contains('.' as u8)) by {
            assert forall|k: int| 0 <= k < rest.len() implies rest[k] != '.' as u8 by {
                assert(ending.contains(ending[k]));
            }
        }
        lemma_last_dot(stem, rest);
    }
}

proof fn lemma_no_dot(name: Seq<u8>)
    requires
        !name.contains('.' as u8),
    ensures
        last_occurrence(name, dot()) == -1,
{
    law_last_occurrence_is_last(name, dot(), 0);
    let last = last_occurrence(name, dot());
    if last != -1 {
        assert(name.subrange(last, last + 1)[0] == name[last]);
        assert(name.contains(name[last]));
    }
}

/// A path is its own first ancestor, and those of its parent follow; the root has no other.
pub proof fn law_ancestors_climb(path: Seq<u8>)
    ensures
        ancestors(path)[0] == path,
        parent(path) matches Some(above) ==> ancestors(path).len() == ancestors(above).len() + 1
            && forall|i: int|
            0 <= i < ancestors(above).len() ==> ancestors(path)[i + 1] == #[trigger] ancestors(above)[i],
        parent(path) is None ==> ancestors(path).len() == 1,
{
    law_parent_is_shorter(path);
}

} // verus!
