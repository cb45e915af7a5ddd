//! The per-locale message document: a tree of tables and templates, with the
//! lookup by path and the merge of a named fragment.

use vstd::prelude::*;
use crate::text::{split, split_on, texts};

verus! {

/// One node of a message document.
pub enum AssetNode {
    /// A template.
    Text(String),
    /// A table from keys to nodes, in the order in which the keys came. Only
    /// the first entry of a key is ever read or replaced.
    Table(Vec<(String, AssetNode)>),
    /// Any other value; a lookup never finds it.
    Other,
}

/// What an `AssetNode` stands for.
pub ghost enum Document {
    Text(Seq<char>),
    Table(Seq<(Seq<char>, Document)>),
    Other,
}

/// The document that a node stands for.
pub open spec fn node_view(node: AssetNode) -> Document
    decreases node,
{
    match node {
        AssetNode::Text(s) => Document::Text(s@),
        AssetNode::Table(entries) => Document::Table(
            Seq::new(
                entries@.len(),
                |i: int|
                    if 0 <= i < entries@.len() {
                        (entries@[i].0@, node_view(entries@[i].1))
                    } else {
                        (Seq::<char>::empty(), Document::Other)
                    },
            ),
        ),
        AssetNode::Other => Document::Other,
    }
}

impl View for AssetNode {
    type V = Document;

    open spec fn view(&self) -> Document {
        node_view(*self)
    }
}

/// The index of the first entry at or after `from` whose key is `key`, or the
/// number of entries where there is none.
pub open spec fn position(entries: Seq<(Seq<char>, Document)>, key: Seq<char>, from: int) -> int
    decreases entries.len() - from,
{
    if from < 0 || from >= entries.len() {
        entries.len() as int
    } else if entries[from].0 == key {
        from
    } else {
        position(entries, key, from + 1)
    }
}

/// The entries of a table; a node that is no table has none.
pub open spec fn entries_of(doc: Document) -> Seq<(Seq<char>, Document)> {
    match doc {
        Document::Table(entries) => entries,
        _ => Seq::empty(),
    }
}

/// The node that a table holds under `key`.
pub open spec fn child(doc: Document, key: Seq<char>) -> Option<Document> {
    let entries = entries_of(doc);
    let p = position(entries, key, 0);
    if p < entries.len() {
        Some(entries[p].1)
    } else {
        None
    }
}

/// The node reached from `doc` by descending one key of `path` after the
/// other. A missing key, or a node on the way that is no table, gives `None`.
pub open spec fn lookup(doc: Document, path: Seq<Seq<char>>) -> Option<Document>
    decreases path.len(),
{
    if path.len() == 0 {
        Some(doc)
    } else {
        match child(doc, path[0]) {
            Some(c) => lookup(c, path.skip(1)),
            None => None,
        }
    }
}

/// The template that stands at `path`, if a template stands there.
pub open spec fn template_at(doc: Document, path: Seq<Seq<char>>) -> Option<Seq<char>> {
    match lookup(doc, path) {
        Some(Document::Text(s)) => Some(s),
        _ => None,
    }
}

/// The entries with `value` under `key`: in place of the first entry of that
/// key, or at the end where the key is new.
pub open spec fn put(entries: Seq<(Seq<char>, Document)>, key: Seq<char>, value: Document) -> Seq<
    (Seq<char>, Document),
> {
    let p = position(entries, key, 0);
    if p < entries.len() {
        entries.update(p, (key, value))
    } else {
        entries.push((key, value))
    }
}

/// The document with `value` at `path`. Every node on the way that is missing
/// or is no table becomes a table; what stood at `path` is replaced.
pub open spec fn assign(doc: Document, path: Seq<Seq<char>>, value: Document) -> Document
    decreases path.len(),
{
    if path.len() == 0 {
        value
    } else {
        let below = match child(doc, path[0]) {
            Some(c) => c,
            None => Document::Other,
        };
        Document::Table(put(entries_of(doc), path[0], assign(below, path.skip(1), value)))
    }
}

/// The document after the fragment called `name` has been merged into it:
/// each `/` in the name is one level of nesting.
pub open spec fn merged(doc: Document, name: Seq<char>, value: Document) -> Document {
    assign(doc, split_on(name, '/'), value)
}

/// The entries of a table node, viewed.
pub open spec fn entry_views(entries: Seq<(String, AssetNode)>) -> Seq<(Seq<char>, Document)> {
    Seq::new(entries.len(), |i: int| (entries[i].0@, entries[i].1@))
}

/// The view of a table is the table of its entries' views.
pub proof fn lemma_table_view(entries: Vec<(String, AssetNode)>)
    ensures
        AssetNode::Table(entries)@ == Document::Table(entry_views(entries@)),
{
    let node = AssetNode::Table(entries);
    assert(node@ is Table);
    let viewed = node@->Table_0;
    assert(viewed =~= entry_views(entries@)) by {
        reveal_with_fuel(node_view, 2);
    }
}

/// `position` gives the least index from `from` on that holds the key.
pub proof fn lemma_position(entries: Seq<(Seq<char>, Document)>, key: Seq<char>, from: int)
    requires
        0 <= from <= entries.len(),
    ensures
        from <= position(entries, key, from) <= entries.len(),
        position(entries, key, from) < entries.len() ==> entries[position(entries, key, from)].0
            == key,
        forall|m: int| from <= m < position(entries, key, from) ==> (#[trigger] entries[m]).0 != key,
    decreases entries.len() - from,
{
    if from < entries.len() && entries[from].0 != key {
        lemma_position(entries, key, from + 1);
    }
}

/// An index that holds the key, with no earlier one that does, is the
/// `position` of the key; so is the length where no index holds it.
pub proof fn lemma_position_is(entries: Seq<(Seq<char>, Document)>, key: Seq<char>, p: int)
    requires
        0 <= p <= entries.len(),
        p < entries.len() ==> entries[p].0 == key,
        forall|m: int| 0 <= m < p ==> (#[trigger] entries[m]).0 != key,
    ensures
        position(entries, key, 0) == p,
{
    lemma_position(entries, key, 0);
    let q = position(entries, key, 0);
    if q < p {
        assert(entries[q].0 != key);
    }
}

/// After `put`, the key holds the value, at the place where `position`
/// finds the key.
pub proof fn lemma_put(entries: Seq<(Seq<char>, Document)>, key: Seq<char>, value: Document)
    ensures
        child(Document::Table(put(entries, key, value)), key) == Some(value),
        forall|other: Document| #[trigger]
            put(put(entries, key, value), key, other) == put(entries, key, other),
{
    lemma_position(entries, key, 0);
    let p = position(entries, key, 0);
    let after = put(entries, key, value);
    assert forall|m: int| 0 <= m < p implies (#[trigger] after[m]).0 != key by {
        assert(after[m] == entries[m]);
    }
    lemma_position_is(after, key, p);
    assert forall|other: Document| #[trigger]
        put(after, key, other) == put(entries, key, other) by {
        assert(put(after, key, other) =~= put(entries, key, other));
    }
}

/// Merging is idempotent: to put a value where it already stands changes
/// nothing.
pub proof fn lemma_assign_idempotent(doc: Document, path: Seq<Seq<char>>, value: Document)
    ensures
        assign(assign(doc, path, value), path, value) == assign(doc, path, value),
    decreases path.len(),
{
    if path.len() > 0 {
        let below = match child(doc, path[0]) {
            Some(c) => c,
            None => Document::Other,
        };
        let inner = assign(below, path.skip(1), value);
        lemma_assign_idempotent(below, path.skip(1), value);
        lemma_put(entries_of(doc), path[0], inner);
    }
}

/// Merging a fragment twice gives what merging it once gives.
pub proof fn lemma_merge_idempotent(doc: Document, name: Seq<char>, value: Document)
    ensures
        merged(merged(doc, name, value), name, value) == merged(doc, name, value),
{
    lemma_assign_idempotent(doc, split_on(name, '/'), value);
}

/// What was put at a path is what a lookup of that path finds, whatever
/// stood there before.
pub proof fn lemma_assign_then_lookup(doc: Document, path: Seq<Seq<char>>, value: Document)
    ensures
        lookup(assign(doc, path, value), path) == Some(value),
    decreases path.len(),
{
    if path.len() > 0 {
        let below = match child(doc, path[0]) {
            Some(c) => c,
            None => Document::Other,
        };
        let inner = assign(below, path.skip(1), value);
        lemma_assign_then_lookup(below, path.skip(1), value);
        lemma_put(entries_of(doc), path[0], inner);
    }
}

/// Of two fragments merged under one name, the later one stays: its value
/// is what stands under the name afterwards.
pub proof fn lemma_later_merge_wins(doc: Document, name: Seq<char>, first: Document, second: Document)
    ensures
        lookup(merged(merged(doc, name, first), name, second), split_on(name, '/')) == Some(second),
{
    lemma_assign_then_lookup(merged(doc, name, first), split_on(name, '/'), second);
}

/// The first index whose key is `key`, or the length.
pub fn position_of(entries: &Vec<(String, AssetNode)>, key: &String) -> (p: usize)
    ensures
        p == position(entry_views(entries@), key@, 0),
        p <= entries.len(),
{
    let mut i: usize = 0;
    while i < entries.len()
        invariant
            i <= entries.len(),
            position(entry_views(entries@), key@, 0) == position(
                entry_views(entries@),
                key@,
                i as int,
            ),
        decreases entries.len() - i,
    {
        if entries[i].0 == *key {
            return i;
        }
        i = i + 1;
    }
    i
}

impl Clone for AssetNode {
    /// A copy that stands for the same document.
    fn clone(&self) -> (r: Self)
        ensures
            r@ == self@,
        decreases self,
    {
        match self {
            AssetNode::Text(s) => AssetNode::Text(s.clone()),
            AssetNode::Table(entries) => {
                let mut copy: Vec<(String, AssetNode)> = Vec::new();
                let mut i: usize = 0;
                while i < entries.len()
                    invariant
                        i <= entries.len(),
                        self == AssetNode::Table(*entries),
                        entry_views(copy@) == entry_views(entries@).take(i as int),
                    decreases entries.len() - i,
                {
                    let ghost before = entry_views(copy@);
                    let key = entries[i].0.clone();
                    let item = &entries[i];
                    assert(*item == entries@[i as int]);
                    proof {
                        match self {
                            AssetNode::Table(es) => {
                                assert(es == entries);
                                assert(decreases_to!(self => es@[i as int].1));
                            },
                            _ => {},
                        }
                    }
                    let below = item.1.clone();
                    copy.push((key, below));
                    assert(entry_views(copy@) =~= before.push((key@, below@)));
                    i = i + 1;
                    assert(entry_views(copy@) =~= entry_views(entries@).take(i as int));
                }
                proof {
                    assert(entry_views(entries@).take(entries.len() as int) =~= entry_views(
                        entries@,
                    ));
                    lemma_table_view(copy);
                    lemma_table_view(*entries);
                }
                AssetNode::Table(copy)
            },
            AssetNode::Other => AssetNode::Other,
        }
    }
}

impl AssetNode {
    /// An empty table.
    pub fn new() -> (r: AssetNode)
        ensures
            r@ == Document::Table(Seq::empty()),
    {
        let entries: Vec<(String, AssetNode)> = Vec::new();
        proof {
            lemma_table_view(entries);
            assert(entry_views(entries@) =~= Seq::empty());
        }
        AssetNode::Table(entries)
    }

    /// The node under `key`, where this node is a table that has the key.
    pub fn get(&self, key: &String) -> (r: Option<&AssetNode>)
        ensures
            match r {
                Some(n) => child(self@, key@) == Some(n@),
                None => child(self@, key@) is None,
            },
    {
        match self {
            AssetNode::Table(entries) => {
                proof {
                    lemma_table_view(*entries);
                }
                let p = position_of(entries, key);
                if p < entries.len() {
                    Some(&entries[p].1)
                } else {
                    None
                }
            },
            _ => None,
        }
    }

    /// The template at `path`: the string that stands where the keys of
    /// `path`, taken one after the other, lead.
    pub fn resolve_id(&self, path: &Vec<String>) -> (r: Option<String>)
        ensures
            match r {
                Some(s) => template_at(self@, texts(path@)) == Some(s@),
                None => template_at(self@, texts(path@)) is None,
            },
    {
        let mut cur: &AssetNode = self;
        let mut i: usize = 0;
        assert(texts(path@).skip(0) =~= texts(path@));
        while i < path.len()
            invariant
                i <= path.len(),
                lookup(self@, texts(path@)) == lookup(cur@, texts(path@).skip(i as int)),
            decreases path.len() - i,
        {
            let ghost rest = texts(path@).skip(i as int);
            assert(rest[0] == path@[i as int]@);
            assert(rest.skip(1) =~= texts(path@).skip(i + 1));
            match cur.get(&path[i]) {
                Some(n) => {
                    cur = n;
                },
                None => {
                    return None;
                },
            }
            i = i + 1;
        }
        match cur {
            AssetNode::Text(s) => Some(s.clone()),
            _ => None,
        }
    }

    /// Puts `value` where the keys of `path` from index `from` on lead,
    /// making tables on the way.
    pub fn assign_at(self, path: &Vec<String>, from: usize, value: AssetNode) -> (r: AssetNode)
        requires
            from <= path.len(),
        ensures
            r@ == assign(self@, texts(path@).skip(from as int), value@),
        decreases path.len() - from,
    {
        if from == path.len() {
            return value;
        }
        let ghost before = self@;
        let ghost rest = texts(path@).skip(from as int);
        assert(rest[0] == path@[from as int]@);
        assert(rest.skip(1) =~= texts(path@).skip(from + 1));
        let mut entries: Vec<(String, AssetNode)> = match self {
            AssetNode::Table(es) => {
                proof {
                    lemma_table_view(es);
                }
                es
            },
            _ => Vec::new(),
        };
        assert(entry_views(entries@) =~= entries_of(before));
        let ghost old_views = entry_views(entries@);
        let key = path[from].clone();
        let p = position_of(&entries, &key);
        if p < entries.len() {
            let taken = entries.remove(p);
            let below = taken.1.assign_at(path, from + 1, value);
            entries.insert(p, (key, below));
            assert(entry_views(entries@) =~= old_views.update(p as int, (key@, below@)));
        } else {
            let below = AssetNode::Other.assign_at(path, from + 1, value);
            entries.push((key, below));
            assert(entry_views(entries@) =~= old_views.push((key@, below@)));
        }
        proof {
            lemma_table_view(entries);
        }
        AssetNode::Table(entries)
    }

    /// Merges the fragment called `name` into this document: `value` comes to
    /// stand under the keys that the name gives when it is cut at each `/`.
    pub fn apply_deep(&mut self, name: &str, value: AssetNode)
        ensures
            final(self)@ == merged(old(self)@, name@, value@),
    {
        let path = split(name, '/');
        let mut taken = AssetNode::Other;
        core::mem::swap(self, &mut taken);
        let r = taken.assign_at(&path, 0, value);
        assert(texts(path@).skip(0) =~= texts(path@));
        *self = r;
    }
}

} // verus!
