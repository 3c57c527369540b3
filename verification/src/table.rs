//! Translation tables: trees of named entries whose leaves are texts.

use vstd::prelude::*;

verus! {

/// What a `Node` holds.
pub enum NodeView {
    /// A text leaf.
    Text(Seq<char>),
    /// A leaf that is no text, as its canonical text.
    Scalar(Seq<char>),
    /// A nested table, and the canonical text of the whole of it.
    Nested(TableView, Seq<char>),
}

/// What a `Table` holds: its entries in order, each a name and a node.
pub struct TableView {
    pub entries: Seq<(Seq<char>, NodeView)>,
}

/// The node of the first entry of `entries` named `key`.
pub open spec fn first_named(entries: Seq<(Seq<char>, NodeView)>, key: Seq<char>) -> Option<
    NodeView,
>
    decreases entries.len(),
{
    if entries.len() == 0 {
        None
    } else if entries[0].0 == key {
        Some(entries[0].1)
    } else {
        first_named(entries.drop_first(), key)
    }
}

impl TableView {
    /// The node that `key` names in this table.
    pub open spec fn get(self, key: Seq<char>) -> Option<NodeView> {
        first_named(self.entries, key)
    }
}

/// One value of a translation table.
#[derive(Debug)]
pub enum Node {
    /// A text leaf, used as it stands.
    Text(String),
    /// A leaf that is no text (a number, a truth value, a list), held as its
    /// canonical text.
    Scalar(String),
    /// A nested table, with the canonical text of the whole of it.
    Nested(Table, String),
}

/// The translations of one language.
#[derive(Debug)]
pub struct Table {
    pub entries: Vec<(String, Node)>,
}

/// The views of `entries`, in order.
pub open spec fn entries_view(entries: Seq<(String, Node)>) -> Seq<(Seq<char>, NodeView)>
    decreases entries,
{
    Seq::new(
        entries.len(),
        |i: int|
            if 0 <= i < entries.len() {
                (entries[i].0@, entries[i].1@)
            } else {
                (Seq::empty(), NodeView::Text(Seq::empty()))
            },
    )
}

impl View for Node {
    type V = NodeView;

    open spec fn view(&self) -> NodeView
        decreases self,
    {
        match self {
            Node::Text(s) => NodeView::Text(s@),
            Node::Scalar(s) => NodeView::Scalar(s@),
            Node::Nested(t, s) => NodeView::Nested(t@, s@),
        }
    }
}

impl View for Table {
    type V = TableView;

    open spec fn view(&self) -> TableView
        decreases self,
    {
        TableView { entries: entries_view(self.entries@) }
    }
}

/// The first entry named `key` stands at `i`.
pub proof fn lemma_first_named_at(entries: Seq<(Seq<char>, NodeView)>, key: Seq<char>, i: int)
    requires
        0 <= i < entries.len(),
        forall|j: int| 0 <= j < i ==> entries[j].0 != key,
        entries[i].0 == key,
    ensures
        first_named(entries, key) == Some(entries[i].1),
    decreases i,
{
    if i > 0 {
        let rest = entries.drop_first();
        assert forall|j: int| 0 <= j < i - 1 implies rest[j].0 != key by {
            assert(rest[j] == entries[j + 1]);
        }
        lemma_first_named_at(rest, key, i - 1);
    }
}

/// No entry is named `key`.
pub proof fn lemma_first_named_none(entries: Seq<(Seq<char>, NodeView)>, key: Seq<char>)
    requires
        forall|j: int| 0 <= j < entries.len() ==> entries[j].0 != key,
    ensures
        first_named(entries, key) is None,
    decreases entries.len(),
{
    if entries.len() > 0 {
        let rest = entries.drop_first();
        assert forall|j: int| 0 <= j < rest.len() implies rest[j].0 != key by {
            assert(rest[j] == entries[j + 1]);
        }
        lemma_first_named_none(rest, key);
    }
}

impl Table {
    /// A table without entries.
    pub fn new() -> (t: Table)
        ensures
            t@.entries == Seq::<(Seq<char>, NodeView)>::empty(),
    {
        let t = Table { entries: Vec::new() };
        assert(t@.entries =~= Seq::empty());
        t
    }

    /// Position of the first entry named `key`.
    fn position(&self, key: &String) -> (r: Option<usize>)
        ensures
            match r {
                Some(i) => i < self.entries.len() && self.entries[i as int].0@ == key@
                    && self@.get(key@) == Some(self.entries[i as int].1@) && forall|j: int|
                    0 <= j < i ==> self.entries[j].0@ != key@,
                None => self@.get(key@) is None && forall|j: int|
                    0 <= j < self.entries.len() ==> self.entries[j].0@ != key@,
            },
    {
        let mut i: usize = 0;
        while i < self.entries.len()
            invariant
                i <= self.entries.len(),
                forall|j: int| 0 <= j < i ==> self.entries[j].0@ != key@,
            decreases self.entries.len() - i,
        {
            if self.entries[i].0 == *key {
                proof {
                    lemma_first_named_at(self@.entries, key@, i as int);
                }
                return Some(i);
            }
            i += 1;
        }
        proof {
            lemma_first_named_none(self@.entries, key@);
        }
        None
    }

    /// The node that `key` names, if any.
    pub fn get(&self, key: &str) -> (r: Option<&Node>)
        ensures
            match r {
                Some(node) => self@.get(key@) == Some(node@),
                None => self@.get(key@) is None,
            },
    {
        let name = key.to_owned();
        match self.position(&name) {
            Some(i) => Some(&self.entries[i].1),
            None => None,
        }
    }

    /// Binds `key` to `node`: in place of the entry that `key` named, or as a
    /// new last entry.
    pub fn insert(&mut self, key: String, node: Node)
        ensures
            final(self)@.get(key@) == Some(node@),
            forall|other: Seq<char>| other != key@ ==> final(self)@.get(other) == old(self)@.get(other),
    {
        let ghost before = self@.entries;
        let ghost name = key@;
        let ghost value = node@;
        match self.position(&key) {
            Some(i) => {
                self.entries.set(i, (key, node));
                proof {
                    let after = self@.entries;
                    assert(after =~= before.update(i as int, (name, value)));
                    lemma_first_named_at(after, name, i as int);
                    assert forall|other: Seq<char>| other != name implies first_named(after, other)
                        == first_named(before, other) by {
                        lemma_first_named_update(before, i as int, (name, value), other);
                    }
                }
            },
            None => {
                self.entries.push((key, node));
                proof {
                    let after = self@.entries;
                    assert(after =~= before.push((name, value)));
                    lemma_first_named_at(after, name, before.len() as int);
                    assert forall|other: Seq<char>| other != name implies first_named(after, other)
                        == first_named(before, other) by {
                        lemma_first_named_push(before, (name, value), other);
                    }
                }
            },
        }
    }
}

/// Replacing an entry by one of the same name changes nothing under another name.
pub proof fn lemma_first_named_update(
    entries: Seq<(Seq<char>, NodeView)>,
    i: int,
    entry: (Seq<char>, NodeView),
    other: Seq<char>,
)
    requires
        0 <= i < entries.len(),
        entries[i].0 == entry.0,
        other != entry.0,
    ensures
        first_named(entries.update(i, entry), other) == first_named(entries, other),
    decreases entries.len(),
{
    let after = entries.update(i, entry);
    if i == 0 {
        assert(after.drop_first() == entries.drop_first());
    } else {
        assert(after[0] == entries[0]);
        if entries[0].0 != other {
            lemma_first_named_update(entries.drop_first(), i - 1, entry, other);
            assert(after.drop_first() == entries.drop_first().update(i - 1, entry));
        }
    }
}

/// A new last entry changes nothing under another name.
pub proof fn lemma_first_named_push(
    entries: Seq<(Seq<char>, NodeView)>,
    entry: (Seq<char>, NodeView),
    other: Seq<char>,
)
    requires
        other != entry.0,
    ensures
        first_named(entries.push(entry), other) == first_named(entries, other),
    decreases entries.len(),
{
    let after = entries.push(entry);
    if entries.len() == 0 {
        assert(after[0] == entry);
        assert(after.drop_first().len() == 0);
        assert(first_named(after.drop_first(), other) is None);
    } else {
        assert(after[0] == entries[0]);
        if entries[0].0 != other {
            lemma_first_named_push(entries.drop_first(), entry, other);
            assert(after.drop_first() == entries.drop_first().push(entry));
        }
    }
}

} // verus!
