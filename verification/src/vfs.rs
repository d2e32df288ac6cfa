use vstd::prelude::*;

use crate::file_meta::{FileMeta, FileMetaView, string_views};
use crate::text::{split_char, split_on};

verus! {

/// A node of the virtual file tree: a file, or a directory whose children are
/// found by key.
pub enum FsNode {
    File(FileMeta),
    Directory { name: String, children: Vec<FsEntry> },
}

/// One child of a directory, under the key it is found by.
pub struct FsEntry {
    pub key: String,
    pub node: FsNode,
}

/// The plain-value picture of a node: a file's metadata, or a directory's name
/// and its children as (key, node) pairs in the order they are stored.
pub enum NodeModel {
    File(FileMetaView),
    Dir(Seq<char>, Seq<(Seq<char>, NodeModel)>),
}

impl FsNode {
    pub open spec fn model(&self) -> NodeModel
        decreases self,
    {
        match self {
            FsNode::File(m) => NodeModel::File(m@),
            FsNode::Directory { name, children } => NodeModel::Dir(
                name@,
                Seq::new(
                    children@.len(),
                    |i: int|
                        if 0 <= i < children@.len() {
                            (children@[i].key@, children@[i].node.model())
                        } else {
                            (Seq::empty(), NodeModel::Dir(Seq::empty(), Seq::empty()))
                        },
                ),
            ),
        }
    }
}

/// The model of each child of a directory.
pub open spec fn entries_model(es: Seq<FsEntry>) -> Seq<(Seq<char>, NodeModel)> {
    Seq::new(es.len(), |i: int| (es[i].key@, es[i].node.model()))
}

/// The index of the first child stored under `key`, if any.
pub open spec fn key_index(es: Seq<(Seq<char>, NodeModel)>, key: Seq<char>) -> Option<int>
    decreases es.len(),
{
    if es.len() == 0 {
        None
    } else if es[0].0 == key {
        Some(0)
    } else {
        match key_index(es.drop_first(), key) {
            Some(i) => Some(i + 1),
            None => None,
        }
    }
}

/// The name a node reports: the file name of a file, the name of a directory.
pub open spec fn node_name(n: NodeModel) -> Seq<char> {
    match n {
        NodeModel::File(m) => m.file_name,
        NodeModel::Dir(name, _) => name,
    }
}

/// The child of `n` stored under `key`.
pub open spec fn child(n: NodeModel, key: Seq<char>) -> Option<NodeModel> {
    match n {
        NodeModel::File(_) => None,
        NodeModel::Dir(_, es) => match key_index(es, key) {
            Some(i) => Some(es[i].1),
            None => None,
        },
    }
}

/// The node reached from `n` by following `path`, one key per level.
pub open spec fn lookup(n: NodeModel, path: Seq<Seq<char>>) -> Option<NodeModel>
    decreases path.len(),
{
    if path.len() == 0 {
        Some(n)
    } else {
        match child(n, path[0]) {
            Some(c) => lookup(c, path.drop_first()),
            None => None,
        }
    }
}

/// `es` with `v` stored under `k`: in place of the first child under `k`, or
/// appended when there is none.
pub open spec fn put(es: Seq<(Seq<char>, NodeModel)>, k: Seq<char>, v: NodeModel) -> Seq<
    (Seq<char>, NodeModel),
> {
    match key_index(es, k) {
        Some(i) => es.update(i, (k, v)),
        None => es.push((k, v)),
    }
}

/// An empty directory.
pub open spec fn empty_dir(name: Seq<char>) -> NodeModel {
    NodeModel::Dir(name, Seq::empty())
}

/// The tree `n` after `new` is stored at `path`.
///
/// Missing directories on the way are created. A file met before the parent
/// of the last key is turned into an empty directory named by the key being
/// looked for, and `new` goes straight into it under the last key. A file met
/// as the parent of the last key is replaced by a directory named by the last
/// key, and `new` is stored in it under that key.
pub open spec fn insert_at(n: NodeModel, path: Seq<Seq<char>>, new: NodeModel) -> NodeModel
    decreases path.len(),
{
    if path.len() == 0 {
        n
    } else if path.len() == 1 {
        match n {
            NodeModel::File(_) => NodeModel::Dir(path[0], seq![(path[0], new)]),
            NodeModel::Dir(name, es) => NodeModel::Dir(name, put(es, path[0], new)),
        }
    } else {
        match n {
            NodeModel::File(_) => NodeModel::Dir(path[0], seq![(path.last(), new)]),
            NodeModel::Dir(name, es) => {
                let c = match key_index(es, path[0]) {
                    Some(i) => es[i].1,
                    None => empty_dir(path[0]),
                };
                NodeModel::Dir(name, put(es, path[0], insert_at(c, path.drop_first(), new)))
            },
        }
    }
}

/// The first-match index is exactly the least index holding the key.
pub proof fn lemma_key_index(es: Seq<(Seq<char>, NodeModel)>, key: Seq<char>)
    ensures
        match key_index(es, key) {
            Some(i) => 0 <= i < es.len() && es[i].0 == key && forall|j: int|
                0 <= j < i ==> es[j].0 != key,
            None => forall|j: int| 0 <= j < es.len() ==> es[j].0 != key,
        },
    decreases es.len(),
{
    if es.len() > 0 && es[0].0 != key {
        lemma_key_index(es.drop_first(), key);
        match key_index(es.drop_first(), key) {
            Some(i) => {
                assert forall|j: int| 0 <= j < i + 1 implies es[j].0 != key by {
                    if j > 0 {
                        assert(es[j] == es.drop_first()[j - 1]);
                    }
                }
            },
            None => {
                assert forall|j: int| 0 <= j < es.len() implies es[j].0 != key by {
                    if j > 0 {
                        assert(es[j] == es.drop_first()[j - 1]);
                    }
                }
            },
        }
    }
}

/// A sequence whose least index holding the key is known has that first-match index.
pub proof fn lemma_key_index_of(es: Seq<(Seq<char>, NodeModel)>, key: Seq<char>, i: int)
    requires
        0 <= i < es.len(),
        es[i].0 == key,
        forall|j: int| 0 <= j < i ==> es[j].0 != key,
    ensures
        key_index(es, key) == Some(i),
{
    lemma_key_index(es, key);
    match key_index(es, key) {
        Some(k) => {
            if k < i {
                assert(es[k].0 != key);
            } else if k > i {
                assert(es[i].0 != key);
            }
        },
        None => {
            assert(es[i].0 != key);
        },
    }
}

/// No index holds the key: there is no first match.
pub proof fn lemma_key_index_none(es: Seq<(Seq<char>, NodeModel)>, key: Seq<char>)
    requires
        forall|j: int| 0 <= j < es.len() ==> es[j].0 != key,
    ensures
        key_index(es, key) is None,
{
    lemma_key_index(es, key);
    if let Some(k) = key_index(es, key) {
        assert(es[k].0 == key);
    }
}

/// A directory's model lists the models of its children.
pub proof fn lemma_dir_model(name: String, children: Vec<FsEntry>)
    ensures
        (FsNode::Directory { name, children }).model() == NodeModel::Dir(
            name@,
            entries_model(children@),
        ),
{
    let n = FsNode::Directory { name, children };
    let m = n.model();
    assert(m is Dir);
    let es = m->Dir_1;
    assert(es.len() == children@.len());
    assert forall|i: int| 0 <= i < es.len() implies es[i] == entries_model(children@)[i] by {}
    assert(es =~= entries_model(children@));
}

/// The characters of each key of a path.
pub open spec fn path_model(path: Seq<String>) -> Seq<Seq<char>> {
    string_views(path)
}

/// Finds the first child stored under `key`.
fn find_child(children: &Vec<FsEntry>, key: &String) -> (r: Option<usize>)
    ensures
        match r {
            Some(i) => i < children@.len() && key_index(entries_model(children@), key@) == Some(
                i as int,
            ),
            None => key_index(entries_model(children@), key@) is None,
        },
{
    let ghost es = entries_model(children@);
    let n = children.len();
    let mut i: usize = 0;
    while i < n
        invariant
            n == children@.len(),
            es == entries_model(children@),
            i <= n,
            forall|j: int| 0 <= j < i ==> es[j].0 != key@,
        decreases n - i,
    {
        if children[i].key == *key {
            proof {
                lemma_key_index_of(es, key@, i as int);
            }
            return Some(i);
        }
        i = i + 1;
    }
    proof {
        lemma_key_index_none(es, key@);
    }
    None
}

impl FsNode {
    /// The name of a file, or of a directory.
    pub fn name(&self) -> (r: &str)
        ensures
            r@ == node_name(self.model()),
    {
        match self {
            FsNode::File(meta) => meta.file_name.as_str(),
            FsNode::Directory { name, .. } => name.as_str(),
        }
    }

    /// The child stored under `name`; a file has none.
    pub fn get_node(&self, name: &str) -> (r: Option<&FsNode>)
        ensures
            match r {
                Some(c) => child(self.model(), name@) == Some(c.model()),
                None => child(self.model(), name@) is None,
            },
    {
        match self {
            FsNode::File(m) => {
                assert(self.model() == NodeModel::File(m@));
                None
            },
            FsNode::Directory { name: dir_name, children } => {
                proof {
                    lemma_dir_model(*dir_name, *children);
                }
                let key = name.to_string();
                match find_child(children, &key) {
                    Some(i) => Some(&children[i].node),
                    None => None,
                }
            },
        }
    }
}

/// Stores `new` under `key` among `children`, in place of the first child
/// under `key` or at the end.
fn put_child(children: &mut Vec<FsEntry>, key: String, new: FsNode)
    ensures
        entries_model(final(children)@) == put(entries_model(old(children)@), key@, new.model()),
{
    let ghost es = entries_model(children@);
    match find_child(children, &key) {
        Some(i) => {
            children.set(i, FsEntry { key, node: new });
            assert(entries_model(children@) =~= es.update(i as int, (key@, new.model())));
        },
        None => {
            children.push(FsEntry { key, node: new });
            assert(entries_model(children@) =~= es.push((key@, new.model())));
        },
    }
}

/// An empty directory named `name`.
fn new_dir(name: String) -> (r: FsNode)
    ensures
        r.model() == empty_dir(name@),
{
    let children: Vec<FsEntry> = Vec::new();
    proof {
        lemma_dir_model(name, children);
        assert(entries_model(children@) =~= Seq::empty());
    }
    FsNode::Directory { name, children }
}

/// `node` after `new` is stored at `path[start..]`.
fn insert_into(node: FsNode, path: &[String], start: usize, new: FsNode) -> (r: FsNode)
    requires
        start < path@.len(),
    ensures
        r.model() == insert_at(node.model(), path_model(path@).skip(start as int), new.model()),
    decreases path@.len() - start,
{
    let ghost p = path_model(path@).skip(start as int);
    let last = path.len() - 1;
    assert(p[0] == path@[start as int]@);
    if start == last {
        assert(p.len() == 1);
        match node {
            FsNode::File(_) => {
                let mut children: Vec<FsEntry> = Vec::new();
                let ghost new_model = new.model();
                children.push(FsEntry { key: path[start].clone(), node: new });
                let name = path[start].clone();
                proof {
                    lemma_dir_model(name, children);
                    assert(entries_model(children@) =~= seq![(p[0], new_model)]);
                }
                FsNode::Directory { name, children }
            },
            FsNode::Directory { name, mut children } => {
                proof {
                    lemma_dir_model(name, children);
                }
                put_child(&mut children, path[start].clone(), new);
                proof {
                    lemma_dir_model(name, children);
                }
                FsNode::Directory { name, children }
            },
        }
    } else {
        assert(p.len() > 1);
        assert(p.last() == path@[last as int]@);
        assert(p.drop_first() =~= path_model(path@).skip(start + 1));
        match node {
            FsNode::File(_) => {
                let mut children: Vec<FsEntry> = Vec::new();
                let ghost new_model = new.model();
                children.push(FsEntry { key: path[last].clone(), node: new });
                let name = path[start].clone();
                proof {
                    lemma_dir_model(name, children);
                    assert(entries_model(children@) =~= seq![(p.last(), new_model)]);
                }
                FsNode::Directory { name, children }
            },
            FsNode::Directory { name, mut children } => {
                proof {
                    lemma_dir_model(name, children);
                }
                let ghost es = entries_model(children@);
                let ghost new_model = new.model();
                let key = path[start].clone();
                match find_child(&children, &key) {
                    Some(i) => {
                        proof {
                            lemma_key_index(es, key@);
                        }
                        let entry = children.remove(i);
                        assert(entry.node.model() == es[i as int].1);
                        let sub = insert_into(entry.node, path, start + 1, new);
                        children.insert(i, FsEntry { key: entry.key, node: sub });
                        assert(entries_model(children@) =~= es.update(i as int, (p[0], sub.model())));
                    },
                    None => {
                        let sub = insert_into(new_dir(key.clone()), path, start + 1, new);
                        children.push(FsEntry { key, node: sub });
                        assert(entries_model(children@) =~= es.push((p[0], sub.model())));
                    },
                }
                proof {
                    lemma_dir_model(name, children);
                }
                FsNode::Directory { name, children }
            },
        }
    }
}

/// Following one more key of a path is a step to the child under that key.
proof fn lemma_lookup_step(n: NodeModel, path: Seq<Seq<char>>, j: int)
    requires
        0 <= j < path.len(),
    ensures
        lookup(n, path.skip(j)) == match child(n, path[j]) {
            Some(c) => lookup(c, path.skip(j + 1)),
            None => None,
        },
{
    assert(path.skip(j).drop_first() =~= path.skip(j + 1));
    assert(path.skip(j)[0] == path[j]);
}

/// A tree of nodes, reached from one root.
pub struct FsTree {
    root: FsNode,
}

impl FsTree {
    /// The model of the whole tree: that of its root.
    pub closed spec fn model(&self) -> NodeModel {
        self.root.model()
    }

    /// A tree with the given root.
    pub fn new(root: FsNode) -> (r: Self)
        ensures
            r.model() == root.model(),
    {
        FsTree { root }
    }

    /// The node reached from the root by following `path`; the root itself
    /// for an empty path.
    pub fn get_node(&self, path: &[String]) -> (r: Option<&FsNode>)
        ensures
            match r {
                Some(n) => lookup(self.model(), path_model(path@)) == Some(n.model()),
                None => lookup(self.model(), path_model(path@)) is None,
            },
    {
        let ghost p = path_model(path@);
        let mut current: &FsNode = &self.root;
        let n = path.len();
        let mut j: usize = 0;
        assert(p.skip(0) =~= p);
        while j < n
            invariant
                n == path@.len(),
                p == path_model(path@),
                j <= n,
                lookup(self.model(), p) == lookup(current.model(), p.skip(j as int)),
            decreases n - j,
        {
            proof {
                lemma_lookup_step(current.model(), p, j as int);
            }
            match current.get_node(path[j].as_str()) {
                Some(c) => {
                    current = c;
                },
                None => {
                    return None;
                },
            }
            j = j + 1;
        }
        assert(p.skip(n as int) =~= Seq::<Seq<char>>::empty());
        Some(current)
    }

    /// Stores `node` at `path`, creating the directories on the way (see
    /// [`insert_at`] for what happens where a file stands in the way). An empty
    /// path leaves the tree as it is.
    pub fn insert_node(&mut self, path: &[String], node: FsNode)
        ensures
            final(self).model() == insert_at(old(self).model(), path_model(path@), node.model()),
    {
        if path.len() == 0 {
            return;
        }
        let mut root = new_dir(String::new());
        std::mem::swap(&mut root, &mut self.root);
        assert(path_model(path@).skip(0) =~= path_model(path@));
        self.root = insert_into(root, path, 0, node);
    }
}

/// Every node met on the way to the parent of the last key of `path` is a
/// directory: the node itself, and each child already present under the keys
/// before the last but one. (The parent of the last key may be a file: it is
/// replaced by a directory.)
pub open spec fn path_clear(n: NodeModel, path: Seq<Seq<char>>) -> bool
    decreases path.len(),
{
    path.len() > 1 ==> {
        &&& n is Dir
        &&& match child(n, path[0]) {
            Some(c) => path_clear(c, path.drop_first()),
            None => true,
        }
    }
}

/// `a` is a prefix of `b`.
pub open spec fn is_prefix(a: Seq<Seq<char>>, b: Seq<Seq<char>>) -> bool {
    a.len() <= b.len() && b.take(a.len() as int) == a
}

/// After `put`, the key finds the value just stored.
proof fn lemma_put_same(name: Seq<char>, es: Seq<(Seq<char>, NodeModel)>, k: Seq<char>, v: NodeModel)
    ensures
        child(NodeModel::Dir(name, put(es, k, v)), k) == Some(v),
{
    lemma_key_index(es, k);
    match key_index(es, k) {
        Some(i) => {
            let es2 = es.update(i, (k, v));
            assert forall|j: int| 0 <= j < i implies es2[j].0 != k by {}
            lemma_key_index_of(es2, k, i);
        },
        None => {
            let es2 = es.push((k, v));
            assert forall|j: int| 0 <= j < es.len() implies es2[j].0 != k by {}
            lemma_key_index_of(es2, k, es.len() as int);
        },
    }
}

/// After `put`, any other key finds what it found before.
proof fn lemma_put_other(
    name: Seq<char>,
    es: Seq<(Seq<char>, NodeModel)>,
    k: Seq<char>,
    v: NodeModel,
    k2: Seq<char>,
)
    requires
        k2 != k,
    ensures
        child(NodeModel::Dir(name, put(es, k, v)), k2) == child(NodeModel::Dir(name, es), k2),
{
    lemma_key_index(es, k);
    lemma_key_index(es, k2);
    let es2 = put(es, k, v);
    assert(forall|j: int| 0 <= j < es.len() ==> es2[j].0 == es[j].0);
    assert(forall|j: int| 0 <= j < es.len() && es2[j].0 != k ==> es2[j] == es[j]);
    match key_index(es, k2) {
        Some(i) => {
            lemma_key_index_of(es2, k2, i);
        },
        None => {
            assert forall|j: int| 0 <= j < es2.len() implies es2[j].0 != k2 by {
                if j < es.len() {
                    assert(es2[j].0 == es[j].0);
                }
            }
            lemma_key_index_none(es2, k2);
        },
    }
}

/// A fresh directory lets any path through.
proof fn lemma_empty_dir_clear(name: Seq<char>, path: Seq<Seq<char>>)
    ensures
        path_clear(empty_dir(name), path),
{
    assert(key_index(Seq::<(Seq<char>, NodeModel)>::empty(), path[0]) is None);
}

/// A fresh directory has nothing below it.
proof fn lemma_empty_dir_lookup(name: Seq<char>, path: Seq<Seq<char>>)
    requires
        path.len() > 0,
    ensures
        lookup(empty_dir(name), path) is None,
{
    assert(key_index(Seq::<(Seq<char>, NodeModel)>::empty(), path[0]) is None);
}

/// Law: what is stored at a path is found there again, and so is everything
/// below it. Where every node met on the way to the parent of the last key is a
/// directory, a lookup of any
/// path that extends `path` after storing `new` at `path` finds what the same
/// lookup in `new` of the rest of that path finds; `path` itself finds `new`.
pub proof fn law_insert_then_lookup_below(
    n: NodeModel,
    path: Seq<Seq<char>>,
    new: NodeModel,
    q: Seq<Seq<char>>,
)
    requires
        path.len() > 0,
        path_clear(n, path),
        is_prefix(path, q),
    ensures
        lookup(insert_at(n, path, new), q) == lookup(new, q.skip(path.len() as int)),
    decreases path.len(),
{
    assert(q[0] == q.take(path.len() as int)[0]);
    let name = n->Dir_0;
    let es = n->Dir_1;
    if path.len() == 1 {
        match n {
            NodeModel::File(_) => {
                lemma_put_same(path[0], Seq::empty(), path[0], new);
                assert(put(Seq::empty(), path[0], new) =~= seq![(path[0], new)]);
            },
            NodeModel::Dir(_, _) => {
                lemma_put_same(name, es, path[0], new);
            },
        }
        assert(q.drop_first() =~= q.skip(1));
    } else {
        let c = match key_index(es, path[0]) {
            Some(i) => es[i].1,
            None => empty_dir(path[0]),
        };
        if key_index(es, path[0]) is None {
            lemma_empty_dir_clear(path[0], path.drop_first());
        }
        let sub = insert_at(c, path.drop_first(), new);
        lemma_put_same(name, es, path[0], sub);
        assert(q.drop_first().take(path.len() - 1) =~= path.drop_first()) by {
            assert forall|j: int| 0 <= j < path.len() - 1 implies q.drop_first()[j] == path.drop_first()[j] by {
                assert(q.take(path.len() as int)[j + 1] == path[j + 1]);
            }
        }
        law_insert_then_lookup_below(c, path.drop_first(), new, q.drop_first());
        assert(q.drop_first().skip(path.len() - 1) =~= q.skip(path.len() as int));
    }
}

/// Law: storing at a path finds the stored node at that path afterwards,
/// where every node met on the way to the parent of the last key is a
/// directory.
pub proof fn law_insert_then_lookup(n: NodeModel, path: Seq<Seq<char>>, new: NodeModel)
    requires
        path.len() > 0,
        path_clear(n, path),
    ensures
        lookup(insert_at(n, path, new), path) == Some(new),
{
    assert(path.take(path.len() as int) =~= path);
    law_insert_then_lookup_below(n, path, new, path);
    assert(path.skip(path.len() as int) =~= Seq::<Seq<char>>::empty());
}

/// Law: storing at a path leaves every path that branches off it as it was.
/// Where every node met on the way to the parent of the last key is a
/// directory, a lookup of a path that is
/// neither a prefix nor an extension of `path` finds after the store what it
/// found before.
pub proof fn law_insert_keeps_other_paths(
    n: NodeModel,
    path: Seq<Seq<char>>,
    new: NodeModel,
    q: Seq<Seq<char>>,
)
    requires
        path_clear(n, path),
        !is_prefix(path, q),
        !is_prefix(q, path),
    ensures
        lookup(insert_at(n, path, new), q) == lookup(n, q),
    decreases path.len(),
{
    assert(q.len() > 0) by {
        if q.len() == 0 {
            assert(path.take(0) =~= q);
        }
    }
    assert(path.len() > 0) by {
        if path.len() == 0 {
            assert(q.take(0) =~= path);
        }
    }
    let name = n->Dir_0;
    let es = n->Dir_1;
    if q[0] != path[0] {
        if path.len() == 1 {
            match n {
                NodeModel::File(_) => {
                    lemma_put_other(path[0], Seq::empty(), path[0], new, q[0]);
                    assert(put(Seq::empty(), path[0], new) =~= seq![(path[0], new)]);
                    assert(key_index(Seq::<(Seq<char>, NodeModel)>::empty(), q[0]) is None);
                },
                NodeModel::Dir(_, _) => {
                    lemma_put_other(name, es, path[0], new, q[0]);
                },
            }
        } else {
            let c = match key_index(es, path[0]) {
                Some(i) => es[i].1,
                None => empty_dir(path[0]),
            };
            lemma_put_other(name, es, path[0], insert_at(c, path.drop_first(), new), q[0]);
        }
    } else {
        if path.len() == 1 {
            assert(q.take(1) =~= path);
            assert(false);
        }
        let c = match key_index(es, path[0]) {
            Some(i) => es[i].1,
            None => empty_dir(path[0]),
        };
        if key_index(es, path[0]) is None {
            lemma_empty_dir_clear(path[0], path.drop_first());
        }
        let sub = insert_at(c, path.drop_first(), new);
        lemma_put_same(name, es, path[0], sub);
        let p1 = path.drop_first();
        let q1 = q.drop_first();
        assert(!is_prefix(p1, q1)) by {
            if is_prefix(p1, q1) {
                assert(q.take(path.len() as int) =~= path) by {
                    assert forall|j: int| 0 <= j < path.len() implies q.take(path.len() as int)[j] == path[j] by {
                        if j > 0 {
                            assert(q1.take(p1.len() as int)[j - 1] == p1[j - 1]);
                        }
                    }
                }
            }
        }
        assert(!is_prefix(q1, p1)) by {
            if is_prefix(q1, p1) {
                assert(path.take(q.len() as int) =~= q) by {
                    assert forall|j: int| 0 <= j < q.len() implies path.take(q.len() as int)[j] == q[j] by {
                        if j > 0 {
                            assert(p1.take(q1.len() as int)[j - 1] == q1[j - 1]);
                        }
                    }
                }
            }
        }
        law_insert_keeps_other_paths(c, p1, new, q1);
        if key_index(es, path[0]) is None {
            lemma_empty_dir_lookup(path[0], q1);
        }
    }
}

/// What storing at `path` leaves at the prefix of `path` of length `j`,
/// compared with what was there before: always a directory that holds the
/// next key `path[j]`. A directory that was there keeps its name, and its
/// children are the old ones with one value stored under `path[j]` (so every
/// other child stays as it was); where nothing was there, a directory named
/// by the key it is found under, whose only child is under `path[j]`; where a
/// file was there, a directory named `path[j]` whose only child is `new`.
pub open spec fn along_path(
    before: Option<NodeModel>,
    after: Option<NodeModel>,
    path: Seq<Seq<char>>,
    j: int,
    new: NodeModel,
) -> bool {
    &&& after matches Some(d) && d is Dir && child(d, path[j]) is Some
    &&& match before {
        None => after matches Some(NodeModel::Dir(name, es)) && j > 0 && name == path[j - 1]
            && es.len() == 1 && es[0].0 == path[j],
        Some(NodeModel::File(_)) => after == Some(NodeModel::Dir(path[j], seq![(path[j], new)])),
        Some(NodeModel::Dir(name0, es0)) => after matches Some(NodeModel::Dir(name, es)) && name
            == name0 && exists|v: NodeModel| es == #[trigger] put(es0, path[j], v),
    }
}

/// A lookup of a longer prefix goes through the child under the first key.
proof fn lemma_lookup_take(n: NodeModel, path: Seq<Seq<char>>, j: int)
    requires
        0 < j <= path.len(),
    ensures
        lookup(n, path.take(j)) == match child(n, path[0]) {
            Some(c) => lookup(c, path.drop_first().take(j - 1)),
            None => None,
        },
{
    assert(path.take(j).drop_first() =~= path.drop_first().take(j - 1));
    assert(path.take(j)[0] == path[0]);
}

/// Law: storing at a path leaves a directory at every proper prefix of the
/// path, holding the next key of the path, as `along_path` tells: an existing
/// directory keeps its name and every child but the one under the next key; a
/// directory made on the way is named by its key and holds only the next key.
/// This holds where every node met on the way to the parent of the last key
/// is a directory.
pub proof fn law_insert_along_path(n: NodeModel, path: Seq<Seq<char>>, new: NodeModel, j: int)
    requires
        path_clear(n, path),
        0 <= j < path.len(),
    ensures
        along_path(lookup(n, path.take(j)), lookup(insert_at(n, path, new), path.take(j)), path, j, new),
    decreases path.len(),
{
    let ins = insert_at(n, path, new);
    if j == 0 {
        assert(path.take(0) =~= Seq::<Seq<char>>::empty());
        if path.len() == 1 {
            match n {
                NodeModel::File(_) => {
                    lemma_put_same(path[0], Seq::empty(), path[0], new);
                    assert(put(Seq::empty(), path[0], new) =~= seq![(path[0], new)]);
                },
                NodeModel::Dir(name, es) => {
                    lemma_put_same(name, es, path[0], new);
                    assert(ins->Dir_1 == put(es, path[0], new));
                },
            }
        } else {
            let name = n->Dir_0;
            let es = n->Dir_1;
            let c = match key_index(es, path[0]) {
                Some(i) => es[i].1,
                None => empty_dir(path[0]),
            };
            let sub = insert_at(c, path.drop_first(), new);
            lemma_put_same(name, es, path[0], sub);
            assert(ins->Dir_1 == put(es, path[0], sub));
        }
    } else {
        let name = n->Dir_0;
        let es = n->Dir_1;
        let c = match key_index(es, path[0]) {
            Some(i) => es[i].1,
            None => empty_dir(path[0]),
        };
        if key_index(es, path[0]) is None {
            lemma_empty_dir_clear(path[0], path.drop_first());
        }
        let p1 = path.drop_first();
        let sub = insert_at(c, p1, new);
        lemma_put_same(name, es, path[0], sub);
        lemma_lookup_take(ins, path, j);
        lemma_lookup_take(n, path, j);
        law_insert_along_path(c, p1, new, j - 1);
        assert(p1[j - 1] == path[j]);
        if key_index(es, path[0]) is None {
            if j - 1 == 0 {
                assert(p1.take(0) =~= Seq::<Seq<char>>::empty());
                assert(lookup(c, p1.take(0)) == Some(c));
            } else {
                lemma_empty_dir_lookup(path[0], p1.take(j - 1));
                assert(p1[j - 2] == path[j - 1]);
            }
        }
    }
}

/// No directory anywhere in the tree holds two children under one key.
pub open spec fn distinct_keys(n: NodeModel) -> bool
    decreases n,
{
    match n {
        NodeModel::File(_) => true,
        NodeModel::Dir(_, es) => {
            &&& forall|i: int, j: int| 0 <= i < j < es.len() ==> es[i].0 != es[j].0
            &&& forall|i: int| 0 <= i < es.len() ==> distinct_keys(#[trigger] es[i].1)
        },
    }
}

/// `put` keeps the keys of a directory distinct.
proof fn lemma_put_distinct(es: Seq<(Seq<char>, NodeModel)>, k: Seq<char>, v: NodeModel)
    requires
        forall|i: int, j: int| 0 <= i < j < es.len() ==> es[i].0 != es[j].0,
        forall|i: int| 0 <= i < es.len() ==> distinct_keys(#[trigger] es[i].1),
        distinct_keys(v),
    ensures
        forall|i: int, j: int| 0 <= i < j < put(es, k, v).len() ==> put(es, k, v)[i].0 != put(
            es,
            k,
            v,
        )[j].0,
        forall|i: int| 0 <= i < put(es, k, v).len() ==> distinct_keys(#[trigger] put(es, k, v)[i].1),
{
    lemma_key_index(es, k);
}

/// Law: storing a node keeps every directory free of repeated keys, where the
/// tree and the stored node were so before.
pub proof fn law_insert_keeps_distinct_keys(n: NodeModel, path: Seq<Seq<char>>, new: NodeModel)
    requires
        distinct_keys(n),
        distinct_keys(new),
    ensures
        distinct_keys(insert_at(n, path, new)),
    decreases path.len(),
{
    if path.len() == 0 {
    } else if path.len() == 1 {
        match n {
            NodeModel::File(_) => {
                let es = seq![(path[0], new)];
                assert(distinct_keys(es[0].1));
            },
            NodeModel::Dir(name, es) => {
                lemma_put_distinct(es, path[0], new);
            },
        }
    } else {
        match n {
            NodeModel::File(_) => {
                let es = seq![(path.last(), new)];
                assert(distinct_keys(es[0].1));
            },
            NodeModel::Dir(name, es) => {
                let c = match key_index(es, path[0]) {
                    Some(i) => es[i].1,
                    None => empty_dir(path[0]),
                };
                lemma_key_index(es, path[0]);
                law_insert_keeps_distinct_keys(c, path.drop_first(), new);
                lemma_put_distinct(es, path[0], insert_at(c, path.drop_first(), new));
            },
        }
    }
}

/// Law: storing at the empty path leaves the tree as it was.
pub proof fn law_insert_empty_path(n: NodeModel, new: NodeModel)
    ensures
        insert_at(n, Seq::empty(), new) == n,
{
}

/// The serialisable form of a node: a directory lists its children, without
/// their keys.
pub enum JsonFsNode {
    File(FileMeta),
    Directory { name: String, children: Vec<JsonFsNode> },
}

/// The plain-value picture of a [`JsonFsNode`].
pub enum JsonModel {
    File(FileMetaView),
    Dir(Seq<char>, Seq<JsonModel>),
}

impl JsonFsNode {
    pub open spec fn model(&self) -> JsonModel
        decreases self,
    {
        match self {
            JsonFsNode::File(m) => JsonModel::File(m@),
            JsonFsNode::Directory { name, children } => JsonModel::Dir(
                name@,
                Seq::new(
                    children@.len(),
                    |i: int|
                        if 0 <= i < children@.len() {
                            children@[i].model()
                        } else {
                            JsonModel::Dir(Seq::empty(), Seq::empty())
                        },
                ),
            ),
        }
    }
}

/// The serialisable form of a tree model: each directory lists the forms of
/// its children in the order they are stored.
pub open spec fn json_of(n: NodeModel) -> JsonModel
    decreases n,
{
    match n {
        NodeModel::File(m) => JsonModel::File(m),
        NodeModel::Dir(name, es) => JsonModel::Dir(
            name,
            Seq::new(
                es.len(),
                |i: int|
                    if 0 <= i < es.len() {
                        json_of(es[i].1)
                    } else {
                        JsonModel::Dir(Seq::empty(), Seq::empty())
                    },
            ),
        ),
    }
}

/// Law: the serialisable form of a file carries its stored metadata
/// unchanged, and that of a directory carries its name and, in the order they
/// are stored, the serialisable forms of its children (without their keys).
pub proof fn law_json_keeps_metadata(n: NodeModel)
    ensures
        n matches NodeModel::File(v) ==> json_of(n) == JsonModel::File(v),
        n matches NodeModel::Dir(name, es) ==> {
            &&& json_of(n) is Dir
            &&& json_of(n)->Dir_0 == name
            &&& json_of(n)->Dir_1.len() == es.len()
            &&& forall|i: int| 0 <= i < es.len() ==> #[trigger] json_of(n)->Dir_1[i] == json_of(es[i].1)
        },
{
}

/// Law: a file stored at a path is served from that path with the very
/// metadata it was stored with, where every node met on the way to the parent
/// of the last key is a directory.
pub proof fn law_stored_file_is_served(n: NodeModel, path: Seq<Seq<char>>, v: FileMetaView)
    requires
        path.len() > 0,
        path_clear(n, path),
    ensures
        lookup(insert_at(n, path, NodeModel::File(v)), path) matches Some(m) && json_of(m)
            == JsonModel::File(v),
{
    law_insert_then_lookup(n, path, NodeModel::File(v));
}

/// A directory's serialisable model lists the models of its children.
proof fn lemma_json_dir_model(name: String, children: Vec<JsonFsNode>)
    ensures
        (JsonFsNode::Directory { name, children }).model() == JsonModel::Dir(
            name@,
            Seq::new(children@.len(), |i: int| children@[i].model()),
        ),
{
    let m = (JsonFsNode::Directory { name, children }).model();
    let es = m->Dir_1;
    assert(es =~= Seq::new(children@.len(), |i: int| children@[i].model()));
}

/// The children of a tree model, in serialisable form.
proof fn lemma_json_of_dir(name: Seq<char>, es: Seq<(Seq<char>, NodeModel)>)
    ensures
        json_of(NodeModel::Dir(name, es)) == JsonModel::Dir(
            name,
            Seq::new(es.len(), |i: int| json_of(es[i].1)),
        ),
{
    let m = json_of(NodeModel::Dir(name, es));
    assert(m->Dir_1 =~= Seq::new(es.len(), |i: int| json_of(es[i].1)));
}

impl FsNode {
    /// The serialisable form of this node and everything below it.
    pub fn to_json(&self) -> (r: JsonFsNode)
        ensures
            r.model() == json_of(self.model()),
        decreases self,
    {
        match self {
            FsNode::File(meta) => JsonFsNode::File(meta.clone()),
            FsNode::Directory { name, children } => {
                proof {
                    lemma_dir_model(*name, *children);
                }
                let ghost es = entries_model(children@);
                let mut out: Vec<JsonFsNode> = Vec::new();
                let n = children.len();
                let mut i: usize = 0;
                while i < n
                    invariant
                        n == children@.len(),
                        es == entries_model(children@),
                        i <= n,
                        out@.len() == i,
                        forall|j: int| 0 <= j < i ==> #[trigger] out@[j].model() == json_of(es[j].1),
                        *self is Directory,
                        self->children == *children,
                    decreases n - i,
                {
                    proof {
                        assert(decreases_to!(*self => self->children));
                        assert(decreases_to!(self->children => children@));
                        assert(decreases_to!(children@ => children@[i as int]));
                        assert(decreases_to!(children@[i as int] => children@[i as int].node));
                    }
                    let c = children[i].node.to_json();
                    out.push(c);
                    i = i + 1;
                }
                let nm = name.clone();
                proof {
                    lemma_json_dir_model(nm, out);
                    lemma_json_of_dir(name@, es);
                    assert(Seq::new(out@.len(), |k: int| out@[k].model()) =~= Seq::new(
                        es.len(),
                        |k: int| json_of(es[k].1),
                    ));
                }
                JsonFsNode::Directory { name: nm, children: out }
            },
        }
    }
}

/// A request for the node at a path written with `/` between the keys.
pub struct AccessRequest {
    pub path: String,
}

/// The serialisable form of the node a request asked for.
pub struct AccessResponse {
    pub node: JsonFsNode,
}

/// The keys of a path written with `/` between them (empty keys included).
pub open spec fn request_path(path: Seq<char>) -> Seq<Seq<char>> {
    split_char(path, '/')
}

impl FsTree {
    /// The node at the requested path, in serialisable form. The node must
    /// exist.
    pub fn process(&self, request: AccessRequest) -> (r: AccessResponse)
        requires
            lookup(self.model(), request_path(request.path@)) is Some,
        ensures
            r.node.model() == json_of(lookup(self.model(), request_path(request.path@))->0),
    {
        let path = split_on(request.path.as_str(), '/');
        match self.get_node(path.as_slice()) {
            Some(node) => AccessResponse { node: node.to_json() },
            None => {
                assert(false);
                AccessResponse { node: JsonFsNode::Directory { name: String::new(), children: Vec::new() } }
            },
        }
    }
}

} // verus!
