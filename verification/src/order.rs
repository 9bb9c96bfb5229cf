//! The order of paths: by components, the root first, then `.`, then `..`, then names by their
//! bytes.

use vstd::prelude::*;

use crate::bytes::{byte_strings, owned};
use crate::path::{components, dot, dot_dot, path_components, slash};
use crate::text::pieces;

verus! {

/// The rank of a kind of component.
pub open spec fn rank(component: Seq<u8>) -> u16 {
    if component == seq![slash()] {
        0
    } else if component == dot() {
        1
    } else if component == dot_dot() {
        2
    } else {
        3
    }
}

/// A component as numbers that order it: its rank, its bytes from 1 up, and a 0 at its end.
pub open spec fn component_key(component: Seq<u8>) -> Seq<u16> {
    seq![rank(component)] + Seq::new(component.len(), |i: int| (component[i] + 1) as u16) + seq![
        0u16,
    ]
}

/// The keys of components, one after the other.
pub open spec fn components_key(components: Seq<Seq<u8>>) -> Seq<u16>
    decreases components.len(),
{
    if components.len() == 0 {
        Seq::empty()
    } else {
        components_key(components.drop_last()) + component_key(components.last())
    }
}

/// A path as numbers that order it.
#[verifier::opaque]
pub open spec fn path_key(path: Seq<u8>) -> Seq<u16> {
    components_key(components(path))
}

/// Whether two sequences first differ at `k`, the first of them being less there or ending there.
pub open spec fn before_at(left: Seq<u16>, right: Seq<u16>, k: int) -> bool {
    &&& 0 <= k <= left.len()
    &&& k < right.len()
    &&& left.take(k) == right.take(k)
    &&& k == left.len() || left[k] < right[k]
}

/// Whether `left` comes before `right` as words do in a dictionary.
#[verifier::opaque]
pub open spec fn before(left: Seq<u16>, right: Seq<u16>) -> bool {
    exists|k: int| before_at(left, right, k)
}

/// Whether `left` is a path before `right`.
pub open spec fn path_before(left: Seq<u8>, right: Seq<u8>) -> bool {
    before(path_key(left), path_key(right))
}

proof fn lemma_prefixes_agree(left: Seq<u16>, right: Seq<u16>, k: int, i: int)
    requires
        0 <= i < k,
        k <= left.len(),
        k <= right.len(),
        left.take(k) == right.take(k),
    ensures
        left[i] == right[i],
        left.take(i) == right.take(i),
{
    let l = left.take(k);
    let r = right.take(k);
    assert(l[i] == left[i] && r[i] == right[i]);
    assert forall|j: int| 0 <= j < i implies left[j] == right[j] by {
        assert(l[j] == left[j] && r[j] == right[j]);
    }
    assert(left.take(i) == right.take(i));
}

/// The order is transitive.
pub proof fn law_before_is_transitive(a: Seq<u16>, b: Seq<u16>, c: Seq<u16>)
    requires
        before(a, b),
        before(b, c),
    ensures
        before(a, c),
{
    reveal(before);
    let k = choose|k: int| before_at(a, b, k);
    let m = choose|m: int| before_at(b, c, m);
    if k < m {
        lemma_prefixes_agree(b, c, m, k);
        assert(before_at(a, c, k));
    } else if m < k {
        lemma_prefixes_agree(a, b, k, m);
        assert(before_at(a, c, m));
    } else {
        assert(before_at(a, c, k));
    }
}

/// Nothing comes before itself.
pub proof fn law_before_is_irreflexive(a: Seq<u16>)
    ensures
        !before(a, a),
{
    reveal(before);
}

/// Whether `left` comes before `right`.
pub fn precedes(left: &[u16], right: &[u16]) -> (r: bool)
    ensures
        r == before(left@, right@),
        !r ==> left@ == right@ || before(right@, left@),
{
    let mut i: usize = 0;
    while i < left.len() && i < right.len() && left[i] == right[i]
        invariant
            i <= left@.len(),
            i <= right@.len(),
            forall|k: int| 0 <= k < i ==> left@[k] == right@[k],
        decreases left@.len() - i,
    {
        i += 1;
    }
    let r = i < right.len() && (i == left.len() || left[i] < right[i]);
    proof {
        reveal(before);
        assert(left@.take(i as int) == right@.take(i as int));
        if r {
            assert(before_at(left@, right@, i as int));
        } else {
            assert forall|k: int| !before_at(left@, right@, k) by {
                if before_at(left@, right@, k) && i < k {
                    lemma_prefixes_agree(left@, right@, k, i as int);
                }
            }
            if i == left.len() && i == right.len() {
                assert(left@ == right@);
            } else {
                assert(before_at(right@, left@, i as int));
            }
        }
    }
    r
}

/// Appends the key of one component.
fn push_component_key(key: &mut Vec<u16>, component: &[u8])
    ensures
        final(key)@ == old(key)@ + component_key(component@),
{
    let first = if component.len() == 1 && component[0] == '/' as u8 {
        0u16
    } else if component.len() == 1 && component[0] == '.' as u8 {
        1u16
    } else if component.len() == 2 && component[0] == '.' as u8 && component[1] == '.' as u8 {
        2u16
    } else {
        3u16
    };
    proof {
        let c = component@;
        assert(c.len() == 1 && c[0] == slash() ==> c == seq![slash()]);
        assert(c.len() == 1 && c[0] == '.' as u8 ==> c == dot());
        assert(c.len() == 2 && c[0] == '.' as u8 && c[1] == '.' as u8 ==> c == dot_dot());
        assert(first == rank(c));
    }
    key.push(first);
    let ghost wanted = Seq::new(component@.len(), |i: int| (component@[i] + 1) as u16);
    let mut i: usize = 0;
    assert(key@ == old(key)@ + (seq![rank(component@)] + wanted.take(0)));
    while i < component.len()
        invariant
            i <= component@.len(),
            wanted == Seq::new(component@.len(), |i: int| (component@[i] + 1) as u16),
            key@ == old(key)@ + (seq![rank(component@)] + wanted.take(i as int)),
        decreases component@.len() - i,
    {
        assert(wanted.take(i + 1) == wanted.take(i as int).push(wanted[i as int]));
        key.push(component[i] as u16 + 1);
        assert(key@ == old(key)@ + (seq![rank(component@)] + wanted.take(i + 1)));
        i += 1;
    }
    assert(wanted.take(i as int) == wanted);
    key.push(0);
    assert(key@ == old(key)@ + component_key(component@));
}

/// The key that orders a path.
fn key_of(path: &[u8]) -> (key: Vec<u16>)
    ensures
        key@ == path_key(path@),
{
    let parts = path_components(path);
    let mut key: Vec<u16> = Vec::new();
    let mut i: usize = 0;
    while i < parts.len()
        invariant
            i <= parts@.len(),
            pieces(parts@) == components(path@),
            key@ == components_key(components(path@).take(i as int)),
        decreases parts@.len() - i,
    {
        push_component_key(&mut key, parts[i]);
        proof {
            let c = components(path@);
            assert(pieces(parts@)[i as int] == parts@[i as int]@);
            assert(c.take(i + 1).drop_last() == c.take(i as int));
            assert(c.take(i + 1).last() == c[i as int]);
        }
        i += 1;
    }
    assert(components(path@).take(i as int) == components(path@));
    reveal(path_key);
    key
}

/// Whether `path` is the first of `paths` among those with its key.
#[verifier::opaque]
pub open spec fn first_of_its_key(paths: Seq<Seq<u8>>, path: Seq<u8>) -> bool {
    exists|i: int|
        0 <= i < paths.len() && #[trigger] paths[i] == path && forall|k: int|
            0 <= k < i ==> path_key(#[trigger] paths[k]) != path_key(path)
}

/// Whether a path with the key of `path` is among `paths`.
#[verifier::opaque]
pub open spec fn has_key(paths: Seq<Seq<u8>>, path: Seq<u8>) -> bool {
    exists|j: int| 0 <= j < paths.len() && path_key(#[trigger] paths[j]) == path_key(path)
}

/// Whether each path comes before all that follow it.
pub open spec fn in_order(sorted: Seq<Seq<u8>>) -> bool {
    forall|i: int, j: int|
        0 <= i < j < sorted.len() ==> path_before(#[trigger] sorted[i], #[trigger] sorted[j])
}

/// Whether each of `sorted` is the first of `paths` with its key.
pub open spec fn all_first(paths: Seq<Seq<u8>>, sorted: Seq<Seq<u8>>) -> bool {
    forall|j: int| 0 <= j < sorted.len() ==> first_of_its_key(paths, #[trigger] sorted[j])
}

/// Whether the key of each of `paths` is among `sorted`.
pub open spec fn all_there(paths: Seq<Seq<u8>>, sorted: Seq<Seq<u8>>) -> bool {
    forall|i: int| 0 <= i < paths.len() ==> has_key(sorted, #[trigger] paths[i])
}

/// Whether `sorted` is `paths` in order, of several paths with one key only the first.
#[verifier::opaque]
pub open spec fn sorted_and_distinct(paths: Seq<Seq<u8>>, sorted: Seq<Seq<u8>>) -> bool {
    in_order(sorted) && all_first(paths, sorted) && all_there(paths, sorted)
}

proof fn lemma_first_of_its_key_stays(paths: Seq<Seq<u8>>, path: Seq<u8>, more: Seq<u8>)
    requires
        first_of_its_key(paths, path),
    ensures
        first_of_its_key(paths.push(more), path),
{
    reveal(first_of_its_key);
    let i = choose|i: int|
        0 <= i < paths.len() && #[trigger] paths[i] == path && forall|k: int|
            0 <= k < i ==> path_key(#[trigger] paths[k]) != path_key(path);
    assert(paths.push(more)[i] == path);
    assert forall|k: int| 0 <= k < i implies path_key(#[trigger] paths.push(more)[k]) != path_key(
        path,
    ) by {
        assert(paths.push(more)[k] == paths[k]);
    }
}

/// A path put between lesser and greater paths keeps the order.
proof fn lemma_insert_in_order(sorted: Seq<Seq<u8>>, more: Seq<u8>, at: int)
    requires
        in_order(sorted),
        0 <= at <= sorted.len(),
        forall|i: int| 0 <= i < at ==> path_before(#[trigger] sorted[i], more),
        at < sorted.len() ==> path_before(more, sorted[at]),
    ensures
        in_order(sorted.insert(at, more)),
        forall|i: int| at <= i < sorted.len() ==> path_before(more, #[trigger] sorted[i]),
{
    let now = sorted.insert(at, more);
    assert forall|i: int| at <= i < sorted.len() implies path_before(more, #[trigger] sorted[i]) by {
        if i > at {
            assert(path_before(sorted[at], sorted[i]));
            law_before_is_transitive(path_key(more), path_key(sorted[at]), path_key(sorted[i]));
        }
    }
    assert forall|i: int, j: int| 0 <= i < j < now.len() implies path_before(
        #[trigger] now[i],
        #[trigger] now[j],
    ) by {
        let a = if i < at {
            i
        } else {
            i - 1
        };
        let b = if j < at {
            j
        } else {
            j - 1
        };
        if i == at {
            assert(now[j] == sorted[b]);
        } else if j == at {
            assert(now[i] == sorted[a]);
        } else {
            assert(now[i] == sorted[a] && now[j] == sorted[b]);
        }
    }
}

/// A path whose key is new is the first with its key.
proof fn lemma_new_key(seen: Seq<Seq<u8>>, sorted: Seq<Seq<u8>>, more: Seq<u8>)
    requires
        all_there(seen, sorted),
        forall|j: int|
            0 <= j < sorted.len() ==> path_before(#[trigger] sorted[j], more) || path_before(
                more,
                sorted[j],
            ),
    ensures
        first_of_its_key(seen.push(more), more),
{
    reveal(first_of_its_key);
    let all = seen.push(more);
    assert(all[seen.len() as int] == more);
    assert forall|k: int| 0 <= k < seen.len() implies path_key(#[trigger] all[k]) != path_key(
        more,
    ) by {
        assert(all[k] == seen[k]);
        assert(has_key(sorted, seen[k]));
        reveal(has_key);
        let j = choose|j: int|
            0 <= j < sorted.len() && path_key(#[trigger] sorted[j]) == path_key(seen[k]);
        law_before_is_irreflexive(path_key(more));
        assert(path_before(sorted[j], more) || path_before(more, sorted[j]));
    }
}

/// A path whose key is new keeps the order where it is put between lesser and greater paths.
proof fn lemma_insert(seen: Seq<Seq<u8>>, sorted: Seq<Seq<u8>>, more: Seq<u8>, at: int)
    requires
        sorted_and_distinct(seen, sorted),
        0 <= at <= sorted.len(),
        forall|i: int| 0 <= i < at ==> path_before(#[trigger] sorted[i], more),
        at < sorted.len() ==> path_before(more, sorted[at]),
    ensures
        sorted_and_distinct(seen.push(more), sorted.insert(at, more)),
{
    reveal(sorted_and_distinct);
    let now = sorted.insert(at, more);
    let all = seen.push(more);
    lemma_insert_in_order(sorted, more, at);
    lemma_new_key(seen, sorted, more);
    assert forall|j: int| 0 <= j < now.len() implies first_of_its_key(all, #[trigger] now[j]) by {
        if j != at {
            let b = if j < at {
                j
            } else {
                j - 1
            };
            assert(now[j] == sorted[b]);
            lemma_first_of_its_key_stays(seen, sorted[b], more);
        }
    }
    assert forall|i: int| 0 <= i < all.len() implies has_key(now, #[trigger] all[i]) by {
        if i == seen.len() {
            reveal(has_key);
            assert(now[at] == more);
        } else {
            assert(all[i] == seen[i]);
            assert(has_key(sorted, seen[i]));
            reveal(has_key);
            let j = choose|j: int|
                0 <= j < sorted.len() && path_key(#[trigger] sorted[j]) == path_key(seen[i]);
            let b = if j < at {
                j
            } else {
                j + 1
            };
            assert(now[b] == sorted[j]);
        }
    }
}

/// A path whose key is there already changes nothing.
proof fn lemma_skip(seen: Seq<Seq<u8>>, sorted: Seq<Seq<u8>>, more: Seq<u8>)
    requires
        sorted_and_distinct(seen, sorted),
        has_key(sorted, more),
    ensures
        sorted_and_distinct(seen.push(more), sorted),
{
    reveal(sorted_and_distinct);
    let all = seen.push(more);
    assert forall|j: int| 0 <= j < sorted.len() implies first_of_its_key(
        all,
        #[trigger] sorted[j],
    ) by {
        lemma_first_of_its_key_stays(seen, sorted[j], more);
    }
    assert forall|i: int| 0 <= i < all.len() implies has_key(sorted, #[trigger] all[i]) by {
        if i < seen.len() {
            assert(all[i] == seen[i]);
        }
    }
}

/// The paths in order, of several paths with one key only the first.
pub fn sort_and_dedup(paths: &Vec<Vec<u8>>) -> (sorted: Vec<Vec<u8>>)
    ensures
        sorted_and_distinct(byte_strings(paths@), byte_strings(sorted@)),
{
    let mut sorted: Vec<Vec<u8>> = Vec::new();
    let mut keys: Vec<Vec<u16>> = Vec::new();
    let mut n: usize = 0;
    assert(sorted_and_distinct(byte_strings(paths@).take(0), byte_strings(sorted@))) by {
        reveal(sorted_and_distinct);
    }
    while n < paths.len()
        invariant
            n <= paths@.len(),
            keys@.len() == sorted@.len(),
            forall|j: int|
                0 <= j < sorted@.len() ==> (#[trigger] keys@[j])@ == path_key(sorted@[j]@),
            sorted_and_distinct(byte_strings(paths@).take(n as int), byte_strings(sorted@)),
        decreases paths@.len() - n,
    {
        let key = key_of(paths[n].as_slice());
        let mut at: usize = 0;
        while at < sorted.len() && precedes(keys[at].as_slice(), key.as_slice())
            invariant
                at <= sorted@.len(),
                keys@.len() == sorted@.len(),
                forall|j: int| 0 <= j < at ==> before((#[trigger] keys@[j])@, key@),
            decreases sorted@.len() - at,
        {
            at += 1;
        }
        let ghost seen = byte_strings(paths@).take(n as int);
        let ghost more = byte_strings(paths@)[n as int];
        let ghost was = byte_strings(sorted@);
        let ghost old_keys = keys@;
        assert(byte_strings(paths@).take(n + 1) == seen.push(more));
        assert forall|i: int| 0 <= i < at implies path_before(#[trigger] was[i], more) by {
            assert(before(old_keys[i]@, key@));
        }
        if at == sorted.len() || precedes(key.as_slice(), keys[at].as_slice()) {
            proof {
                if at < sorted.len() {
                    assert(old_keys[at as int]@ == path_key(was[at as int]));
                }
                lemma_insert(seen, was, more, at as int);
            }
            sorted.insert(at, owned(paths[n].as_slice()));
            keys.insert(at, key);
            assert(byte_strings(sorted@) == was.insert(at as int, more));
            assert forall|j: int| 0 <= j < sorted@.len() implies (#[trigger] keys@[j])@ == path_key(
                sorted@[j]@,
            ) by {
                if j < at {
                    assert(keys@[j] == old_keys[j]);
                } else if j > at {
                    assert(keys@[j] == old_keys[j - 1]);
                }
            }
        } else {
            proof {
                assert(old_keys[at as int]@ == key@);
                assert(has_key(was, more)) by {
                    reveal(has_key);
                    assert(path_key(was[at as int]) == path_key(more));
                }
                lemma_skip(seen, was, more);
            }
        }
        n += 1;
    }
    assert(byte_strings(paths@).take(n as int) == byte_strings(paths@));
    sorted
}

/// Where the first path with a key lies.
proof fn lemma_place_of_first(paths: Seq<Seq<u8>>, path: Seq<u8>) -> (i: int)
    requires
        first_of_its_key(paths, path),
    ensures
        0 <= i < paths.len(),
        paths[i] == path,
        forall|k: int| 0 <= k < i ==> path_key(#[trigger] paths[k]) != path_key(path),
{
    reveal(first_of_its_key);
    choose|i: int|
        0 <= i < paths.len() && #[trigger] paths[i] == path && forall|k: int|
            0 <= k < i ==> path_key(#[trigger] paths[k]) != path_key(path)
}

/// Where a path with the key of `path` lies.
proof fn lemma_place_of_key(paths: Seq<Seq<u8>>, path: Seq<u8>) -> (j: int)
    requires
        has_key(paths, path),
    ensures
        0 <= j < paths.len(),
        path_key(paths[j]) == path_key(path),
{
    reveal(has_key);
    choose|j: int| 0 <= j < paths.len() && path_key(#[trigger] paths[j]) == path_key(path)
}

/// Each path of one ordering is in another.
proof fn lemma_in_the_other(
    paths: Seq<Seq<u8>>,
    left: Seq<Seq<u8>>,
    right: Seq<Seq<u8>>,
    j: int,
) -> (m: int)
    requires
        sorted_and_distinct(paths, left),
        sorted_and_distinct(paths, right),
        0 <= j < left.len(),
    ensures
        0 <= m < right.len(),
        right[m] == left[j],
{
    assert(all_first(paths, left) && all_first(paths, right) && all_there(paths, right)) by {
        reveal(sorted_and_distinct);
    }
    let i = lemma_place_of_first(paths, left[j]);
    assert(has_key(right, paths[i]));
    let m = lemma_place_of_key(right, left[j]);
    let k = lemma_place_of_first(paths, right[m]);
    if k < i {
        assert(path_key(paths[k]) != path_key(left[j]));
    } else if i < k {
        assert(path_key(paths[i]) != path_key(right[m]));
    }
    m
}

/// Two orderings of the same paths agree as far as both go.
proof fn lemma_orderings_agree(
    paths: Seq<Seq<u8>>,
    left: Seq<Seq<u8>>,
    right: Seq<Seq<u8>>,
    n: int,
)
    requires
        sorted_and_distinct(paths, left),
        sorted_and_distinct(paths, right),
        0 <= n <= left.len(),
        n <= right.len(),
    ensures
        forall|j: int| 0 <= j < n ==> #[trigger] left[j] == right[j],
    decreases n,
{
    if n > 0 {
        let j = n - 1;
        lemma_orderings_agree(paths, left, right, j);
        let m = lemma_in_the_other(paths, left, right, j);
        let k = lemma_in_the_other(paths, right, left, j);
        reveal(sorted_and_distinct);
        law_before_is_irreflexive(path_key(left[j]));
        law_before_is_irreflexive(path_key(right[j]));
        if m < j {
            assert(left[m] == right[m]);
            assert(path_before(left[m], left[j]));
        } else if k < j {
            assert(left[k] == right[k]);
            assert(path_before(right[k], right[j]));
        } else if m > j && k > j {
            assert(path_before(right[j], right[m]));
            assert(path_before(left[j], left[k]));
            law_before_is_transitive(
                path_key(left[j]),
                path_key(right[j]),
                path_key(left[j]),
            );
        } else if m > j {
            assert(path_before(right[j], right[m]));
        }
        assert(left[j] == right[j]);
    }
}

/// Paths have one ordering.
pub proof fn law_orderings_are_unique(
    paths: Seq<Seq<u8>>,
    left: Seq<Seq<u8>>,
    right: Seq<Seq<u8>>,
)
    requires
        sorted_and_distinct(paths, left),
        sorted_and_distinct(paths, right),
    ensures
        left == right,
{
    let n = if left.len() <= right.len() {
        left.len() as int
    } else {
        right.len() as int
    };
    lemma_orderings_agree(paths, left, right, n);
    if n < right.len() {
        let k = lemma_in_the_other(paths, right, left, n);
        reveal(sorted_and_distinct);
        assert(left[k] == right[k]);
        assert(path_before(right[k], right[n]));
        law_before_is_irreflexive(path_key(right[n]));
    } else if n < left.len() {
        let k = lemma_in_the_other(paths, left, right, n);
        reveal(sorted_and_distinct);
        assert(left[k] == right[k]);
        assert(path_before(left[k], left[n]));
        law_before_is_irreflexive(path_key(left[n]));
    }
    assert(left =~= right);
}

proof fn lemma_keys_follow_each_other(left: Seq<Seq<u8>>, right: Seq<Seq<u8>>)
    ensures
        components_key(left + right) == components_key(left) + components_key(right),
    decreases right.len(),
{
    if right.len() == 0 {
        assert(left + right =~= left);
        assert(components_key(left) + Seq::<u16>::empty() =~= components_key(left));
    } else {
        let all = left + right;
        assert(all.drop_last() =~= left + right.drop_last());
        lemma_keys_follow_each_other(left, right.drop_last());
        let last = component_key(right.last());
        assert(components_key(left) + (components_key(right.drop_last()) + last) =~= components_key(
            left,
        ) + components_key(right.drop_last()) + last);
    }
}

/// A path comes before every other that goes on where it ends.
pub proof fn law_directories_come_first(directory: Seq<u8>, path: Seq<u8>)
    requires
        components(directory).len() < components(path).len(),
        components(path).take(components(directory).len() as int) == components(directory),
    ensures
        path_before(directory, path),
{
    reveal(path_key);
    reveal(before);
    let short = components(directory);
    let long = components(path);
    let n = short.len() as int;
    let more = long.skip(n);
    assert(long =~= short + more);
    lemma_keys_follow_each_other(short, more);
    let key = components_key(short);
    let whole = components_key(long);
    assert(components_key(more).len() > 0) by {
        assert(component_key(more.last()).len() > 0);
    }
    assert(whole.take(key.len() as int) =~= key);
    assert(key.take(key.len() as int) =~= key);
    assert(before_at(key, whole, key.len() as int));
}

/// Whether one name comes before another: where they first differ, it has the lesser byte or has ended.
pub open spec fn name_before_at(left: Seq<u8>, right: Seq<u8>, k: int) -> bool {
    &&& 0 <= k <= left.len()
    &&& k < right.len()
    &&& forall|i: int| 0 <= i < k ==> left[i] == right[i]
    &&& k == left.len() || left[k] < right[k]
}

/// Paths are ordered by the first names in which they differ, as byte strings; what follows does not
/// count.
pub proof fn law_paths_are_ordered_by_their_names(left: Seq<u8>, right: Seq<u8>, n: int, k: int)
    requires
        0 <= n < components(left).len(),
        n < components(right).len(),
        components(left).take(n) == components(right).take(n),
        rank(components(left)[n]) == rank(components(right)[n]),
        name_before_at(components(left)[n], components(right)[n], k),
    ensures
        path_before(left, right),
        !path_before(right, left),
{
    reveal(path_key);
    reveal(before);
    let l = components(left);
    let r = components(right);
    lemma_key_of_three(l, n);
    lemma_key_of_three(r, n);
    let start = components_key(l.take(n));
    let a = component_key(l[n]);
    let b = component_key(r[n]);
    let p = start.len() as int + 1 + k;
    let x = components_key(l);
    let y = components_key(r);
    assert forall|i: int| 0 <= i < p implies x[i] == y[i] by {
        if i < start.len() {
        } else if i == start.len() {
            assert(x[i] == a[0] && y[i] == b[0]);
        } else {
            let j = i - start.len();
            assert(x[i] == a[j] && y[i] == b[j]);
            assert(l[n][j - 1] == r[n][j - 1]);
        }
    }
    assert(x.take(p) =~= y.take(p));
    assert(x[p] == a[1 + k]);
    assert(y[p] == b[1 + k]);
    assert(x[p] < y[p]);
    assert(before_at(x, y, p));
    if before(y, x) {
        law_before_is_transitive(x, y, x);
        law_before_is_irreflexive(x);
    }
}

proof fn lemma_key_of_three(components: Seq<Seq<u8>>, n: int)
    requires
        0 <= n < components.len(),
    ensures
        components_key(components) == components_key(components.take(n)) + component_key(
            components[n],
        ) + components_key(components.skip(n + 1)),
{
    let one = seq![components[n]];
    assert(components =~= components.take(n) + one + components.skip(n + 1));
    lemma_keys_follow_each_other(components.take(n) + one, components.skip(n + 1));
    lemma_keys_follow_each_other(components.take(n), one);
    assert(one.drop_last() =~= Seq::<Seq<u8>>::empty());
    assert(components_key(one.drop_last()) =~= Seq::<u16>::empty());
    assert(one.last() == components[n]);
    assert(components_key(one) == components_key(one.drop_last()) + component_key(one.last()));
    assert(components_key(one) =~= component_key(components[n]));
}

/// The root comes before `.`, this before `..`, and this before every other name.
pub proof fn law_ranks_of_components(component: Seq<u8>)
    ensures
        rank(component) == 0 <==> component == seq!['/' as u8],
        rank(component) == 1 <==> component == seq!['.' as u8],
        rank(component) == 2 <==> component == seq!['.' as u8, '.' as u8],
        rank(component) <= 3,
{
    let root = seq!['/' as u8];
    let here = seq!['.' as u8];
    let up = seq!['.' as u8, '.' as u8];
    assert(root[0] != here[0]);
    assert(up.len() == 2 && here.len() == 1 && root.len() == 1);
}

/// Where components first differ in rank, their rank orders the paths.
pub proof fn law_paths_are_ordered_by_rank(left: Seq<u8>, right: Seq<u8>, n: int)
    requires
        0 <= n < components(left).len(),
        n < components(right).len(),
        components(left).take(n) == components(right).take(n),
        rank(components(left)[n]) < rank(components(right)[n]),
    ensures
        path_before(left, right),
{
    reveal(path_key);
    reveal(before);
    let l = components(left);
    let r = components(right);
    lemma_key_of_three(l, n);
    lemma_key_of_three(r, n);
    let start = components_key(l.take(n));
    let x = components_key(l);
    let y = components_key(r);
    let p = start.len() as int;
    assert(x.take(p) =~= start);
    assert(y.take(p) =~= start);
    assert(x[p] == component_key(l[n])[0]);
    assert(y[p] == component_key(r[n])[0]);
    assert(before_at(x, y, p));
}

/// What is put in order holds every place once: each path comes before all that follow it, all of them
/// are given ones, and every given path has its place there.
pub proof fn law_ordered_paths_are_the_given_ones(
    paths: Seq<Seq<u8>>,
    sorted: Seq<Seq<u8>>,
    i: int,
    j: int,
)
    requires
        sorted_and_distinct(paths, sorted),
    ensures
        0 <= i < j < sorted.len() ==> path_before(sorted[i], sorted[j]) && path_key(sorted[i])
            != path_key(sorted[j]),
        0 <= i < sorted.len() ==> paths.contains(sorted[i]),
        0 <= i < paths.len() ==> exists|k: int|
            0 <= k < sorted.len() && path_key(#[trigger] sorted[k]) == path_key(paths[i]),
{
    reveal(sorted_and_distinct);
    reveal(first_of_its_key);
    reveal(has_key);
    if 0 <= i < j < sorted.len() {
        assert(path_before(sorted[i], sorted[j]));
        law_before_is_irreflexive(path_key(sorted[j]));
    }
    if 0 <= i < sorted.len() {
        assert(first_of_its_key(paths, sorted[i]));
    }
    if 0 <= i < paths.len() {
        assert(has_key(sorted, paths[i]));
    }
}

/// Paths of one key are one place.
pub proof fn law_paths_of_one_key_are_one_place(left: Seq<u8>, right: Seq<u8>)
    ensures
        path_key(left) == path_key(right) <==> components(left) == components(right),
{
    reveal(path_key);
    if path_key(left) == path_key(right) {
        lemma_keys_tell_components(components(left), components(right));
    }
}

proof fn lemma_keys_tell_components(left: Seq<Seq<u8>>, right: Seq<Seq<u8>>)
    requires
        components_key(left) == components_key(right),
    ensures
        left == right,
    decreases left.len(),
{
    if left.len() == 0 || right.len() == 0 {
        if left.len() > 0 {
            assert(component_key(left.last()).len() > 0);
            assert(components_key(left).len() > 0);
        }
        if right.len() > 0 {
            assert(component_key(right.last()).len() > 0);
            assert(components_key(right).len() > 0);
        }
        assert(left =~= right);
    } else {
        lemma_key_of_three(left, 0);
        lemma_key_of_three(right, 0);
        let x = components_key(left);
        let a = component_key(left[0]);
        let b = component_key(right[0]);
        let s = components_key(left.skip(1));
        let t = components_key(right.skip(1));
        assert(left.take(0) =~= Seq::<Seq<u8>>::empty());
        assert(right.take(0) =~= Seq::<Seq<u8>>::empty());
        assert(x =~= a + s);
        assert(x =~= b + t);
        let m = left[0].len() as int;
        let n = right[0].len() as int;
        assert(a[m + 1] == 0 && b[n + 1] == 0);
        assert(m == n) by {
            if m < n {
                assert((a + s)[m + 1] == 0);
                assert((b + t)[m + 1] == b[m + 1]);
                assert(b[m + 1] == (right[0][m] + 1) as u16);
            } else if n < m {
                assert((b + t)[n + 1] == 0);
                assert((a + s)[n + 1] == a[n + 1]);
                assert(a[n + 1] == (left[0][n] + 1) as u16);
            }
        }
        assert(left[0] =~= right[0]) by {
            assert forall|i: int| 0 <= i < m implies left[0][i] == right[0][i] by {
                assert((a + s)[i + 1] == a[i + 1]);
                assert((b + t)[i + 1] == b[i + 1]);
                assert(a[i + 1] == (left[0][i] + 1) as u16);
                assert(b[i + 1] == (right[0][i] + 1) as u16);
            }
        }
        assert(s =~= x.skip(m + 2));
        assert(t =~= x.skip(m + 2));
        lemma_keys_tell_components(left.skip(1), right.skip(1));
        assert(left =~= seq![left[0]] + left.skip(1));
        assert(right =~= seq![right[0]] + right.skip(1));
    }
}

} // verus!
