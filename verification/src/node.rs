//! The document tree shared by every front end: scalars, lists and ordered
//! maps, each optionally tagged (`!append` and the like).
use vstd::prelude::*;

use crate::text::same_str;

verus! {

/// A document node, optionally with a tag (`!append` and so on).
#[derive(Debug, PartialEq)]
pub struct Node {
    pub tag: Option<String>,
    pub kind: Kind,
}

#[derive(Debug, PartialEq)]
pub enum Kind {
    Scalar(String),
    List(Vec<Node>),
    /// Keeps the order in which the keys were written.
    Table(Vec<(String, Node)>),
}

/// A node as a mathematical value.
pub struct NodeV {
    pub tag: Option<Seq<char>>,
    pub kind: KindV,
}

pub enum KindV {
    Scalar(Seq<char>),
    List(Seq<NodeV>),
    Table(Seq<(Seq<char>, NodeV)>),
}

pub open spec fn tag_view(t: Option<String>) -> Option<Seq<char>> {
    match t {
        Some(s) => Some(s@),
        None => None,
    }
}

pub open spec fn node_view(n: Node) -> NodeV
    decreases n,
{
    NodeV {
        tag: tag_view(n.tag),
        kind: match n.kind {
            Kind::Scalar(s) => KindV::Scalar(s@),
            Kind::List(v) => KindV::List(nodes_view(v@)),
            Kind::Table(v) => KindV::Table(entries_view(v@)),
        },
    }
}

pub open spec fn nodes_view(v: Seq<Node>) -> Seq<NodeV>
    decreases v,
{
    Seq::new(
        v.len(),
        |i: int|
            if 0 <= i < v.len() {
                node_view(v[i])
            } else {
                arbitrary()
            },
    )
}

pub open spec fn entries_view(v: Seq<(String, Node)>) -> Seq<(Seq<char>, NodeV)>
    decreases v,
{
    Seq::new(
        v.len(),
        |i: int|
            if 0 <= i < v.len() {
                (v[i].0@, node_view(v[i].1))
            } else {
                arbitrary()
            },
    )
}

impl View for Node {
    type V = NodeV;

    open spec fn view(&self) -> NodeV {
        node_view(*self)
    }
}

/// The position of the first entry with that key, or the number of entries.
pub open spec fn key_index(entries: Seq<(Seq<char>, NodeV)>, key: Seq<char>, i: int) -> int
    decreases entries.len() - i,
{
    if i >= entries.len() {
        entries.len() as int
    } else if entries[i].0 == key {
        i
    } else {
        key_index(entries, key, i + 1)
    }
}

/// The value of the first entry with that key.
pub open spec fn lookup(entries: Seq<(Seq<char>, NodeV)>, key: Seq<char>) -> Option<NodeV> {
    let i = key_index(entries, key, 0);
    if 0 <= i < entries.len() {
        Some(entries[i].1)
    } else {
        None
    }
}

impl NodeV {
    /// The value of a key of a map: its first occurrence.
    pub open spec fn get(self, key: Seq<char>) -> Option<NodeV> {
        match self.kind {
            KindV::Table(entries) => lookup(entries, key),
            _ => None,
        }
    }

    pub open spec fn as_str(self) -> Option<Seq<char>> {
        match self.kind {
            KindV::Scalar(s) => Some(s),
            _ => None,
        }
    }

    /// The node under another tag, where one is given.
    pub open spec fn tagged(self, tag: Option<Seq<char>>) -> NodeV {
        NodeV {
            tag: if tag is Some {
                tag
            } else {
                self.tag
            },
            kind: self.kind,
        }
    }
}

pub open spec fn scalar_node(s: Seq<char>) -> NodeV {
    NodeV { tag: None, kind: KindV::Scalar(s) }
}

pub open spec fn list_node(v: Seq<NodeV>) -> NodeV {
    NodeV { tag: None, kind: KindV::List(v) }
}

pub open spec fn map_node(v: Seq<(Seq<char>, NodeV)>) -> NodeV {
    NodeV { tag: None, kind: KindV::Table(v) }
}

/// A parser's outcome over mathematical values.
pub open spec fn outcome(r: Result<Node, String>) -> Result<NodeV, Seq<char>> {
    match r {
        Ok(n) => Ok(n@),
        Err(e) => Err(e@),
    }
}

pub proof fn lemma_nodes_push(v: Seq<Node>, n: Node)
    ensures
        nodes_view(v.push(n)) == nodes_view(v).push(n@),
        nodes_view(Seq::<Node>::empty()) == Seq::<NodeV>::empty(),
{
    assert(nodes_view(v.push(n)) =~= nodes_view(v).push(n@));
    assert(nodes_view(Seq::<Node>::empty()) =~= Seq::<NodeV>::empty());
}

pub proof fn lemma_entries_push(v: Seq<(String, Node)>, k: String, n: Node)
    ensures
        entries_view(v.push((k, n))) == entries_view(v).push((k@, n@)),
        entries_view(Seq::<(String, Node)>::empty()) == Seq::<(Seq<char>, NodeV)>::empty(),
{
    assert(entries_view(v.push((k, n))) =~= entries_view(v).push((k@, n@)));
    assert(entries_view(Seq::<(String, Node)>::empty()) =~= Seq::<(Seq<char>, NodeV)>::empty());
}

impl Node {
    pub fn scalar(s: String) -> (r: Node)
        ensures
            r@ == scalar_node(s@),
    {
        Node { tag: None, kind: Kind::Scalar(s) }
    }

    /// The value of a key of a map: its first occurrence.
    pub fn get<'a>(&'a self, key: &str) -> (r: Option<&'a Node>)
        ensures
            match r {
                Some(n) => self@.get(key@) == Some(n@),
                None => self@.get(key@) is None,
            },
            r is Some ==> decreases_to!(*self => *r->0),
    {
        match &self.kind {
            Kind::Table(entries) => {
                let mut i: usize = 0;
                let ghost all = entries_view(entries@);
                while i < entries.len()
                    invariant
                        self.kind == Kind::Table(*entries),
                        i <= entries.len(),
                        all == entries_view(entries@),
                        key_index(all, key@, 0) == key_index(all, key@, i as int),
                    decreases entries.len() - i,
                {
                    if same_str(entries[i].0.as_str(), key) {
                        proof {
                            assert(decreases_to!(*self => self.kind));
                            assert(decreases_to!(self.kind => *entries));
                            assert(decreases_to!(*entries => entries@[i as int]));
                            assert(decreases_to!(entries@[i as int] => entries@[i as int].1));
                        }
                        return Some(&entries[i].1);
                    }
                    i += 1;
                }
                None
            },
            _ => None,
        }
    }

    pub fn as_str(&self) -> (r: Option<&str>)
        ensures
            match r {
                Some(s) => self@.as_str() == Some(s@),
                None => self@.as_str() is None,
            },
    {
        match &self.kind {
            Kind::Scalar(s) => Some(s.as_str()),
            _ => None,
        }
    }

    /// The node under another tag, where one is given.
    pub fn with_tag(self, tag: Option<String>) -> (r: Node)
        ensures
            r@ == self@.tagged(tag_view(tag)),
    {
        match tag {
            Some(t) => Node { tag: Some(t), kind: self.kind },
            None => self,
        }
    }
}

pub fn copy_tag(t: &Option<String>) -> (r: Option<String>)
    ensures
        tag_view(r) == tag_view(*t),
{
    match t {
        Some(s) => Some(s.clone()),
        None => None,
    }
}

/// A deep copy of a node.
pub fn copy_node(n: &Node) -> (r: Node)
    ensures
        r@ == n@,
    decreases n,
{
    let tag = copy_tag(&n.tag);
    let kind = match &n.kind {
        Kind::Scalar(s) => Kind::Scalar(s.clone()),
        Kind::List(v) => {
            let mut out: Vec<Node> = Vec::new();
            let mut i: usize = 0;
            while i < v.len()
                invariant
                    i <= v.len(),
                    n.kind == Kind::List(*v),
                    nodes_view(out@) == nodes_view(v@).take(i as int),
                decreases v.len() - i,
            {
                proof {
                    assert(decreases_to!(*n => n.kind));
                    assert(decreases_to!(n.kind => n.kind->List_0));
                    assert(decreases_to!(*v => v@[i as int]));
                }
                let c = copy_node(&v[i]);
                proof {
                    lemma_nodes_push(out@, c);
                }
                out.push(c);
                i += 1;
                proof {
                    assert(nodes_view(out@) =~= nodes_view(v@).take(i as int));
                }
            }
            proof {
                assert(nodes_view(v@).take(v@.len() as int) =~= nodes_view(v@));
            }
            Kind::List(out)
        },
        Kind::Table(v) => {
            let mut out: Vec<(String, Node)> = Vec::new();
            let mut i: usize = 0;
            while i < v.len()
                invariant
                    i <= v.len(),
                    n.kind == Kind::Table(*v),
                    entries_view(out@) == entries_view(v@).take(i as int),
                decreases v.len() - i,
            {
                proof {
                    assert(decreases_to!(*n => n.kind));
                    assert(decreases_to!(n.kind => n.kind->Table_0));
                    assert(decreases_to!(*v => v@[i as int]));
                    assert(decreases_to!(v@[i as int] => v@[i as int].1));
                }
                let c = copy_node(&v[i].1);
                let k = v[i].0.clone();
                proof {
                    lemma_entries_push(out@, k, c);
                }
                out.push((k, c));
                i += 1;
                proof {
                    assert(entries_view(out@) =~= entries_view(v@).take(i as int));
                }
            }
            proof {
                assert(entries_view(v@).take(v@.len() as int) =~= entries_view(v@));
            }
            Kind::Table(out)
        },
    };
    Node { tag, kind }
}

impl Clone for Node {
    fn clone(&self) -> (r: Node)
        ensures
            r@ == self@,
    {
        copy_node(self)
    }
}

} // verus!
