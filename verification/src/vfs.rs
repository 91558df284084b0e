//! A value model of the target filesystem.
//!
//! The engine never touches a real disk: it works on a `FileSystem` value
//! whose view is a map from absolute path names to nodes.  An embedder maps
//! the resulting tree onto the real storage layer.

use vstd::prelude::*;
use crate::strutil::str_eq;

verus! {

/// A filesystem node: a directory, a device node with its descriptor bytes,
/// or a regular file with its content bytes.
#[derive(Debug, Clone, PartialEq, Eq)]
pub enum NodeData {
    Dir,
    Device(Vec<u8>),
    File(Vec<u8>),
}

/// Mathematical model of a node.
pub enum FsNode {
    Dir,
    Device(Seq<u8>),
    File(Seq<u8>),
}

impl View for NodeData {
    type V = FsNode;

    open spec fn view(&self) -> FsNode {
        match self {
            NodeData::Dir => FsNode::Dir,
            NodeData::Device(b) => FsNode::Device(b@),
            NodeData::File(b) => FsNode::File(b@),
        }
    }
}

#[derive(Debug, Clone, PartialEq, Eq)]
struct Entry {
    path: String,
    node: NodeData,
}

spec fn entries_map(s: Seq<Entry>) -> Map<Seq<char>, FsNode>
    decreases s.len(),
{
    if s.len() == 0 {
        Map::empty()
    } else {
        entries_map(s.drop_last()).insert(s.last().path@, s.last().node@)
    }
}

proof fn lemma_entries_contains(s: Seq<Entry>)
    ensures
        forall|p: Seq<char>| entries_map(s).contains_key(p) <==> (exists|i: int|
            0 <= i < s.len() && s[i].path@ == p),
    decreases s.len(),
{
    if s.len() > 0 {
        lemma_entries_contains(s.drop_last());
        assert forall|p: Seq<char>| entries_map(s).contains_key(p) implies (exists|i: int|
            0 <= i < s.len() && s[i].path@ == p) by {
            if p == s.last().path@ {
                assert(s[s.len() - 1].path@ == p);
            } else {
                assert(entries_map(s.drop_last()).contains_key(p));
                let i = choose|i: int|
                    0 <= i < s.drop_last().len() && s.drop_last()[i].path@ == p;
                assert(s.drop_last()[i] == s[i]);
                assert(s[i].path@ == p);
            }
        }
        assert forall|p: Seq<char>| (exists|i: int|
            0 <= i < s.len() && s[i].path@ == p) implies entries_map(s).contains_key(p) by {
            let i = choose|i: int| 0 <= i < s.len() && s[i].path@ == p;
            if i < s.len() - 1 {
                assert(s.drop_last()[i] == s[i]);
                assert(s.drop_last()[i].path@ == p);
                assert(entries_map(s.drop_last()).contains_key(p));
            }
        }
    }
}

proof fn lemma_entries_last_match(s: Seq<Entry>, i: int, p: Seq<char>)
    requires
        0 <= i < s.len(),
        s[i].path@ == p,
        forall|k: int| i < k < s.len() ==> s[k].path@ != p,
    ensures
        entries_map(s).contains_key(p),
        entries_map(s)[p] == s[i].node@,
    decreases s.len(),
{
    if i < s.len() - 1 {
        lemma_entries_last_match(s.drop_last(), i, p);
    }
}

/// The modelled filesystem: a finite map from path names to nodes.
#[derive(Debug, Clone, PartialEq, Eq)]
pub struct FileSystem {
    entries: Vec<Entry>,
}

impl FileSystem {
    /// The tree as a map from path names to nodes.  A later entry for the
    /// same path shadows an earlier one.
    pub closed spec fn view(&self) -> Map<Seq<char>, FsNode> {
        entries_map(self.entries@)
    }

    /// How many nodes the model stores; distinct creations each add one.
    pub closed spec fn stored(&self) -> nat {
        self.entries@.len()
    }

    /// An empty filesystem.
    pub fn new() -> (fs: FileSystem)
        ensures
            fs@ == Map::<Seq<char>, FsNode>::empty(),
            fs.stored() == 0,
    {
        FileSystem { entries: Vec::new() }
    }

    /// The idempotency guard: true exactly when a node is recorded under
    /// `path`, whatever its kind.
    pub fn present(&self, path: &str) -> (r: bool)
        ensures
            r == self@.contains_key(path@),
    {
        proof {
            lemma_entries_contains(self.entries@);
        }
        let n = self.entries.len();
        let mut i: usize = 0;
        while i < n
            invariant
                n == self.entries@.len(),
                i <= n,
                forall|k: int| 0 <= k < i ==> self.entries@[k].path@ != path@,
                forall|p: Seq<char>| entries_map(self.entries@).contains_key(p) <==> (exists|j: int|
                    0 <= j < self.entries@.len() && self.entries@[j].path@ == p),
            decreases n - i,
        {
            if str_eq(self.entries[i].path.as_str(), path) {
                return true;
            }
            i = i + 1;
        }
        false
    }

    /// Records a node under `path`, shadowing any node already there.
    pub fn put(&mut self, path: &str, node: NodeData)
        ensures
            final(self)@ == old(self)@.insert(path@, node@),
            final(self).stored() == old(self).stored() + 1,
    {
        let owned: String = path.to_owned();
        self.entries.push(Entry { path: owned, node });
        proof {
            assert(self.entries@.drop_last() =~= old(self).entries@);
        }
    }

    /// The node recorded under `path`, if any.
    pub fn lookup(&self, path: &str) -> (r: Option<&NodeData>)
        ensures
            match r {
                Some(node) => self@.contains_key(path@) && self@[path@] == node@,
                None => !self@.contains_key(path@),
            },
    {
        proof {
            lemma_entries_contains(self.entries@);
        }
        let n = self.entries.len();
        let mut i: usize = n;
        while i > 0
            invariant
                n == self.entries@.len(),
                i <= n,
                forall|k: int| i <= k < n ==> self.entries@[k].path@ != path@,
                forall|p: Seq<char>| entries_map(self.entries@).contains_key(p) <==> (exists|j: int|
                    0 <= j < self.entries@.len() && self.entries@[j].path@ == p),
            decreases i,
        {
            i = i - 1;
            if str_eq(self.entries[i].path.as_str(), path) {
                proof {
                    lemma_entries_last_match(self.entries@, i as int, path@);
                }
                return Some(&self.entries[i].node);
            }
        }
        None
    }

    /// How many nodes the model stores.
    pub fn node_count(&self) -> (r: usize)
        ensures
            r == self.stored(),
    {
        self.entries.len()
    }
}

} // verus!
