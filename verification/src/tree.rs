//! Documents as trees: what the release rules read of TOML and JSON.

use vstd::prelude::*;

use crate::text::{join3, same_text};

verus! {

/// A value of a document.
#[derive(Debug)]
pub enum Tree {
    /// The null of JSON.
    Null,
    Flag(bool),
    /// A number, with its value where that is a natural number of 64 bits, and its text.
    Number(Option<u64>, String),
    Text(String),
    List(Vec<Tree>),
    /// Names with their values.
    Table(Vec<(String, Tree)>),
    /// A value of a kind that no rule reads.
    Other,
}

/// The model of a `Tree`.
#[verifier::ext_equal]
pub enum Node {
    Null,
    Flag(bool),
    Number(Option<u64>, Seq<char>),
    Text(Seq<char>),
    List(Seq<Node>),
    Table(Seq<(Seq<char>, Node)>),
    Other,
}

/// The model of a tree.
pub open spec fn node(tree: Tree) -> Node
    decreases tree,
{
    match tree {
        Tree::Null => Node::Null,
        Tree::Flag(flag) => Node::Flag(flag),
        Tree::Number(number, text) => Node::Number(number, text@),
        Tree::Text(text) => Node::Text(text@),
        Tree::List(items) => Node::List(
            Seq::new(
                items@.len(),
                |i: int|
                    if 0 <= i < items@.len() {
                        node(items@[i])
                    } else {
                        Node::Other
                    },
            ),
        ),
        Tree::Table(entries) => Node::Table(
            Seq::new(
                entries@.len(),
                |i: int|
                    if 0 <= i < entries@.len() {
                        (entries@[i].0@, node(entries@[i].1))
                    } else {
                        (Seq::empty(), Node::Other)
                    },
            ),
        ),
        Tree::Other => Node::Other,
    }
}

impl View for Tree {
    type V = Node;

    open spec fn view(&self) -> Node {
        node(*self)
    }
}

/// The value of the first entry with the name `key`.
pub open spec fn entry(entries: Seq<(Seq<char>, Node)>, key: Seq<char>) -> Option<Node>
    decreases entries.len(),
{
    if entries.len() == 0 {
        None
    } else if entries[0].0 == key {
        Some(entries[0].1)
    } else {
        entry(entries.skip(1), key)
    }
}

/// The value with the name `key` in a table.
pub open spec fn member(node: Node, key: Seq<char>) -> Option<Node> {
    match node {
        Node::Table(entries) => entry(entries, key),
        _ => None,
    }
}

/// The value that is reached by one name after the other.
pub open spec fn member_at(node: Node, keys: Seq<Seq<char>>) -> Option<Node>
    decreases keys.len(),
{
    if keys.len() == 0 {
        Some(node)
    } else {
        match member(node, keys[0]) {
            Some(value) => member_at(value, keys.skip(1)),
            None => None,
        }
    }
}

/// The text that a value is.
pub open spec fn as_text(node: Option<Node>) -> Option<Seq<char>> {
    match node {
        Some(Node::Text(text)) => Some(text),
        _ => None,
    }
}

/// The truth value that a value is.
pub open spec fn as_flag(node: Option<Node>) -> Option<bool> {
    match node {
        Some(Node::Flag(flag)) => Some(flag),
        _ => None,
    }
}

/// The natural number that a value is.
pub open spec fn as_number(node: Option<Node>) -> Option<u64> {
    match node {
        Some(Node::Number(number, _)) => number,
        _ => None,
    }
}

/// The items of a value that is a list.
pub open spec fn as_list(node: Option<Node>) -> Option<Seq<Node>> {
    match node {
        Some(Node::List(items)) => Some(items),
        _ => None,
    }
}

/// The entries of a value that is a table.
pub open spec fn as_table(node: Option<Node>) -> Option<Seq<(Seq<char>, Node)>> {
    match node {
        Some(Node::Table(entries)) => Some(entries),
        _ => None,
    }
}

/// The model of a value that may be missing.
pub open spec fn maybe(tree: Option<&Tree>) -> Option<Node> {
    match tree {
        Some(tree) => Some(tree@),
        None => None,
    }
}

/// The characters of names that are written out.
pub open spec fn spelled(names: Seq<&str>) -> Seq<Seq<char>> {
    Seq::new(names.len(), |i: int| names[i]@)
}

/// Names with dots between them.
pub open spec fn dotted(names: Seq<Seq<char>>) -> Seq<char>
    decreases names.len(),
{
    if names.len() == 0 {
        Seq::empty()
    } else if names.len() == 1 {
        names[0]
    } else {
        dotted(names.drop_last()) + "."@ + names.last()
    }
}

/// Names with dots between them.
pub fn dotted_text(names: &[&str]) -> (text: String)
    ensures
        text@ == dotted(spelled(names@)),
{
    let ghost all = spelled(names@);
    if names.len() == 0 {
        let text = String::new();
        assert(text@ == dotted(all));
        return text;
    }
    let mut text = names[0].to_string();
    let mut i: usize = 1;
    assert(all.take(1)[0] == names@[0]@);
    while i < names.len()
        invariant
            1 <= i <= names@.len(),
            all == spelled(names@),
            text@ == dotted(all.take(i as int)),
        decreases names@.len() - i,
    {
        assert(all.take(i + 1).drop_last() == all.take(i as int));
        assert(all.take(i + 1).last() == names@[i as int]@);
        text = join3(text.as_str(), ".", names[i]);
        i += 1;
    }
    assert(all.take(i as int) == all);
    text
}

impl Tree {
    /// The value with the name `key`, where this is a table that has it.
    pub fn get(&self, key: &str) -> (value: Option<&Tree>)
        ensures
            maybe(value) == member(self@, key@),
    {
        let entries = match self {
            Tree::Table(entries) => entries,
            _ => return None,
        };
        let ghost all = self@->Table_0;
        let mut i: usize = 0;
        assert(all.skip(0) == all);
        while i < entries.len()
            invariant
                i <= entries@.len(),
                *self == Tree::Table(*entries),
                self@ == Node::Table(all),
                all.len() == entries@.len(),
                entry(all, key@) == entry(all.skip(i as int), key@),
            decreases entries@.len() - i,
        {
            assert(all[i as int] == (entries@[i as int].0@, entries@[i as int].1@));
            if same_text(entries[i].0.as_str(), key) {
                return Some(&entries[i].1);
            }
            assert(all.skip(i as int).skip(1) == all.skip(i + 1));
            i += 1;
        }
        None
    }

    /// The value that is reached by one name after the other.
    pub fn get_path(&self, keys: &[&str]) -> (value: Option<&Tree>)
        ensures
            maybe(value) == member_at(self@, spelled(keys@)),
    {
        let ghost names = spelled(keys@);
        let mut value = self;
        let mut i: usize = 0;
        assert(names.skip(0) == names);
        while i < keys.len()
            invariant
                i <= keys@.len(),
                names == spelled(keys@),
                member_at(self@, names) == member_at(value@, names.skip(i as int)),
            decreases keys@.len() - i,
        {
            assert(names.skip(i as int)[0] == keys@[i as int]@);
            assert(names.skip(i as int).skip(1) == names.skip(i + 1));
            value = match value.get(keys[i]) {
                Some(next) => next,
                None => return None,
            };
            i += 1;
        }
        Some(value)
    }

    /// The text that this value is.
    pub fn text(&self) -> (text: Option<&str>)
        ensures
            match text {
                Some(text) => as_text(Some(self@)) == Some(text@),
                None => as_text(Some(self@)) is None,
            },
    {
        match self {
            Tree::Text(text) => Some(text.as_str()),
            _ => None,
        }
    }
}

/// A name has the value of its first entry, and none where no entry has the name.
pub proof fn law_first_entry_counts(
    before: Seq<(Seq<char>, Node)>,
    key: Seq<char>,
    value: Node,
    behind: Seq<(Seq<char>, Node)>,
)
    requires
        forall|i: int| 0 <= i < before.len() ==> (#[trigger] before[i]).0 != key,
    ensures
        member(Node::Table(before.push((key, value)) + behind), key) == Some(value),
        member(Node::Table(before), key) is None,
    decreases before.len(),
{
    let all = before.push((key, value)) + behind;
    if before.len() == 0 {
        assert(all[0] == (key, value));
    } else {
        assert(all[0] == before[0]);
        assert(all.skip(1) == before.skip(1).push((key, value)) + behind);
        law_first_entry_counts(before.skip(1), key, value, behind);
    }
}

/// A member is an entry of a table.
pub proof fn law_members_are_entries(node: Node, key: Seq<char>)
    requires
        member(node, key) is Some,
    ensures
        node is Table,
        node->Table_0.contains((key, member(node, key)->Some_0)),
    decreases (node->Table_0).len(),
{
    let entries = node->Table_0;
    if entries[0].0 == key {
        assert(entries[0] == (key, entries[0].1));
    } else {
        let rest = entries.skip(1);
        law_members_are_entries(Node::Table(rest), key);
        let pair = (key, member(node, key)->Some_0);
        let i = choose|i: int| 0 <= i < rest.len() && rest[i] == pair;
        assert(entries[i + 1] == pair);
    }
}

/// Names are followed one after the other.
pub proof fn law_names_are_followed_in_turn(node: Node, keys: Seq<Seq<char>>, key: Seq<char>)
    ensures
        member_at(node, keys.push(key)) == (match member_at(node, keys) {
            Some(value) => member(value, key),
            None => None,
        }),
        member_at(node, Seq::empty()) == Some(node),
    decreases keys.len(),
{
    let all = keys.push(key);
    if keys.len() == 0 {
        assert(all[0] == key);
        assert(all.skip(1) == Seq::<Seq<char>>::empty());
        match member(node, key) {
            Some(value) => {
                assert(member_at(value, Seq::<Seq<char>>::empty()) == Some(value));
            },
            None => {},
        }
    } else {
        assert(all[0] == keys[0]);
        assert(all.skip(1) == keys.skip(1).push(key));
        match member(node, keys[0]) {
            Some(value) => law_names_are_followed_in_turn(value, keys.skip(1), key),
            None => {},
        }
    }
}

/// A value is taken for a text, a truth value, a number, a list or a table where, and only where, it is
/// one.
pub proof fn law_values_are_taken_for_what_they_are(node: Node)
    ensures
        as_text(Some(node)) is Some <==> node is Text,
        as_flag(Some(node)) is Some <==> node is Flag,
        as_number(Some(node)) is Some <==> node is Number && node->Number_0 is Some,
        as_list(Some(node)) is Some <==> node is List,
        as_table(Some(node)) is Some <==> node is Table,
        node is Text ==> as_text(Some(node)) == Some(node->Text_0),
        node is Flag ==> as_flag(Some(node)) == Some(node->Flag_0),
        node is Number ==> as_number(Some(node)) == node->Number_0,
        node is List ==> as_list(Some(node)) == Some(node->List_0),
        node is Table ==> as_table(Some(node)) == Some(node->Table_0),
        as_text(None) is None && as_flag(None) is None && as_number(None) is None && as_list(None)
            is None && as_table(None) is None,
{
}

/// Names are shown with a dot between each two of them.
pub proof fn law_names_are_shown_with_dots(before: Seq<Seq<char>>, name: Seq<char>)
    ensures
        dotted(seq![name]) == name,
        before.len() > 0 ==> dotted(before.push(name)) == dotted(before) + "."@ + name,
{
    let now = before.push(name);
    assert(now.drop_last() =~= before);
    assert(now.last() == name);
    assert(seq![name][0] == name);
}

} // verus!
