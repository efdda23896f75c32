//! The pattern store: a prefix tree of chord sequences.
//!
//! Each edge is the binary form of a chord. Each node counts the patterns
//! that pass through it, remembers one reference for each source that
//! contributed, and has a rank among its siblings once ranks are computed.
//! A node keeps its children in the order in which they first appeared; that
//! order breaks every tie, so that ranking and search are deterministic.
//! Beside the tree of all patterns the store keeps one tree for each scale
//! that has a branch, by name, in a hash map of the `ahash` crate.

use vstd::prelude::*;
use ahash::AHashMap;
use smallvec::SmallVec;
use crate::chord::Chord;
use crate::chord::ChordModel;
use crate::chord_binary::{ChordBinary, serialize_chord, encodable, encoded, encoding_fault};
use crate::error::{AiError, AiResult};
use crate::fixed::{Fixed, SCALE, scaled_ratio, lemma_ratio_bound};
use crate::lists::texts;
use crate::text::{decimal_text, decimal_digits};
use crate::ranking::{
    Scored, insertion_point, sorted_desc, top, bounded_insert, collected, is_sorted_desc,
    lemma_collected_concat, lemma_collected, lemma_top_sorted,
};

verus! {

/// Longest pattern that can be stored.
pub const MAX_PATTERN_LENGTH: usize = 20;

/// Where an occurrence of a pattern came from.
#[derive(Debug, PartialEq, Eq)]
pub struct Reference {
    /// Identifier of the source.
    pub id: String,
    /// Tonic of the source's key, if known.
    pub key_tonic: Option<String>,
}

/// A reference with its texts as characters.
pub struct ReferenceModel {
    pub id: Seq<char>,
    pub key_tonic: Option<Seq<char>>,
}

impl View for Reference {
    type V = ReferenceModel;

    open spec fn view(&self) -> ReferenceModel {
        ReferenceModel {
            id: self.id@,
            key_tonic: match self.key_tonic {
                Some(t) => Some(t@),
                None => None,
            },
        }
    }
}

impl Clone for Reference {
    fn clone(&self) -> (r: Self)
        ensures
            r@ == self@,
    {
        Reference {
            id: self.id.clone(),
            key_tonic: match &self.key_tonic {
                Some(t) => Some(t.clone()),
                None => None,
            },
        }
    }
}

/// The models of a sequence of references.
pub open spec fn reference_models(s: Seq<Reference>) -> Seq<ReferenceModel> {
    Seq::new(s.len(), |i: int| s[i]@)
}

/// The references of a node, in the order in which their sources first
/// contributed. The storage is `smallvec::SmallVec`.
#[verifier::external_body]
#[derive(Debug)]
pub struct ReferenceList {
    inner: SmallVec<[Reference; 4]>,
}

/// The references that a list holds, in order.
pub uninterp spec fn reference_items(l: ReferenceList) -> Seq<Reference>;

impl View for ReferenceList {
    type V = Seq<ReferenceModel>;

    open spec fn view(&self) -> Seq<ReferenceModel> {
        reference_models(reference_items(*self))
    }
}

/// `SmallVec::new`: the new list holds nothing.
#[verifier::external_body]
fn references_empty() -> (l: ReferenceList)
    ensures
        reference_items(l) == Seq::<Reference>::empty(),
{
    ReferenceList { inner: SmallVec::new() }
}

/// `SmallVec::push`: the value is appended and nothing else changes.
#[verifier::external_body]
fn references_push(l: &mut ReferenceList, value: Reference)
    ensures
        reference_items(*final(l)) == reference_items(*old(l)).push(value),
{
    l.inner.push(value)
}

/// `SmallVec::as_slice`: the slice holds the list's items in order.
#[verifier::external_body]
fn references_slice(l: &ReferenceList) -> (s: &[Reference])
    ensures
        s@ == reference_items(*l),
{
    l.inner.as_slice()
}

impl ReferenceList {
    pub fn new() -> (l: ReferenceList)
        ensures
            l@ == Seq::<ReferenceModel>::empty(),
    {
        references_empty()
    }

    pub fn push(&mut self, value: Reference)
        ensures
            final(self)@ == old(self)@.push(value@),
    {
        references_push(self, value)
    }

    pub fn as_slice(&self) -> (s: &[Reference])
        ensures
            reference_models(s@) == self@,
    {
        references_slice(self)
    }

    pub fn len(&self) -> (n: usize)
        ensures
            n == self@.len(),
    {
        references_slice(self).len()
    }

    /// Whether the list holds a reference with this source identifier.
    pub fn has_id(&self, id: &String) -> (b: bool)
        ensures
            b == has_id(self@, id@),
    {
        let s = references_slice(self);
        let mut i: usize = 0;
        while i < s.len()
            invariant
                i <= s.len(),
                reference_models(s@) == self@,
                forall|j: int| 0 <= j < i ==> self@[j].id != id@,
            decreases s.len() - i,
        {
            if s[i].id == *id {
                assert(self@[i as int].id == id@);
                return true;
            }
            i = i + 1;
        }
        false
    }

    /// The references as a vector of copies.
    pub fn to_vec(&self) -> (v: Vec<Reference>)
        ensures
            reference_models(v@) == self@,
    {
        let s = references_slice(self);
        let mut v: Vec<Reference> = Vec::new();
        let mut i: usize = 0;
        while i < s.len()
            invariant
                i <= s.len(),
                v@.len() == i,
                forall|j: int| 0 <= j < i ==> v@[j]@ == s@[j]@,
            decreases s.len() - i,
        {
            v.push(s[i].clone());
            i = i + 1;
        }
        assert(reference_models(v@) =~= reference_models(s@));
        v
    }
}

impl Clone for ReferenceList {
    fn clone(&self) -> (r: Self)
        ensures
            r@ == self@,
    {
        let s = references_slice(self);
        let mut r = references_empty();
        let mut i: usize = 0;
        while i < s.len()
            invariant
                i <= s.len(),
                reference_items(r).len() == i,
                forall|j: int| 0 <= j < i ==> reference_items(r)[j]@ == s@[j]@,
            decreases s.len() - i,
        {
            references_push(&mut r, s[i].clone());
            i = i + 1;
        }
        assert(r@ =~= reference_models(s@));
        r
    }
}

/// Whether some reference of the sequence has this source identifier.
pub open spec fn has_id(refs: Seq<ReferenceModel>, id: Seq<char>) -> bool {
    exists|j: int| 0 <= j < refs.len() && refs[j].id == id
}

/// An edge of the tree: the key of a chord, and the node it leads to.
#[derive(Debug)]
pub struct TrieEdge {
    pub key: ChordBinary,
    pub node: TrieNode,
}

/// A node of the tree.
#[derive(Debug)]
pub struct TrieNode {
    /// How many stored patterns pass through this node.
    pub count: u32,
    /// The children, in the order in which they first appeared.
    pub children: Vec<TrieEdge>,
    /// One reference for each source that contributed.
    pub id_list: ReferenceList,
    /// Rank among the siblings, from 1; 0 until ranks are computed.
    pub rank: u32,
    /// Whether references are meant to carry the key tonic.
    pub include_key_tonic: bool,
}

/// An edge as a mathematical value.
pub struct EdgeModel {
    pub key: Seq<u8>,
    pub node: NodeModel,
}

/// A node as a mathematical value.
pub struct NodeModel {
    pub count: nat,
    pub children: Seq<EdgeModel>,
    pub refs: Seq<ReferenceModel>,
    pub rank: nat,
    pub include_key_tonic: bool,
}

/// The model of a node.
pub open spec fn node_model(n: TrieNode) -> NodeModel
    decreases n,
{
    NodeModel {
        count: n.count as nat,
        children: edge_models(n.children@, n.children@.len()),
        refs: n.id_list@,
        rank: n.rank as nat,
        include_key_tonic: n.include_key_tonic,
    }
}

/// The models of the first `upto` edges.
pub open spec fn edge_models(edges: Seq<TrieEdge>, upto: nat) -> Seq<EdgeModel>
    decreases edges, upto,
{
    if upto == 0 || upto > edges.len() {
        Seq::empty()
    } else {
        edge_models(edges, (upto - 1) as nat).push(
            EdgeModel { key: edges[upto - 1].key@, node: node_model(edges[upto - 1].node) },
        )
    }
}

impl View for TrieNode {
    type V = NodeModel;

    open spec fn view(&self) -> NodeModel {
        node_model(*self)
    }
}

impl View for TrieEdge {
    type V = EdgeModel;

    open spec fn view(&self) -> EdgeModel {
        EdgeModel { key: self.key@, node: node_model(self.node) }
    }
}

/// The edge models are the models of the edges, one by one.
pub proof fn lemma_edge_models(edges: Seq<TrieEdge>, upto: nat)
    requires
        upto <= edges.len(),
    ensures
        edge_models(edges, upto).len() == upto,
        forall|i: int| 0 <= i < upto ==> #[trigger] edge_models(edges, upto)[i] == edges[i]@,
    decreases upto,
{
    if upto > 0 {
        lemma_edge_models(edges, (upto - 1) as nat);
    }
}

/// The children of a node's model are the models of the node's children.
pub proof fn lemma_children(n: TrieNode)
    ensures
        n@.children.len() == n.children@.len(),
        forall|i: int| 0 <= i < n.children@.len() ==> #[trigger] n@.children[i] == n.children@[i]@,
{
    lemma_edge_models(n.children@, n.children@.len());
}

/// The index from `from` on of the first edge with this key, or the number of edges.
pub open spec fn index_of_key(edges: Seq<EdgeModel>, key: Seq<u8>, from: int) -> int
    decreases edges.len() - from,
{
    if from < 0 || from >= edges.len() {
        edges.len() as int
    } else if edges[from].key == key {
        from
    } else {
        index_of_key(edges, key, from + 1)
    }
}

/// What `index_of_key` finds is the first edge with the key, and there is
/// none if it finds none.
pub proof fn lemma_index_of_key(edges: Seq<EdgeModel>, key: Seq<u8>, from: int)
    requires
        0 <= from <= edges.len(),
    ensures
        from <= index_of_key(edges, key, from) <= edges.len(),
        index_of_key(edges, key, from) < edges.len() ==> edges[index_of_key(edges, key, from)].key
            == key,
        forall|j: int| from <= j < index_of_key(edges, key, from) ==> edges[j].key != key,
    decreases edges.len() - from,
{
    if from < edges.len() && edges[from].key != key {
        lemma_index_of_key(edges, key, from + 1);
    }
}

/// The keys of a sequence of chord keys, each as a sequence of bytes.
pub open spec fn keys_of(pattern: Seq<ChordBinary>) -> Seq<Seq<u8>> {
    Seq::new(pattern.len(), |i: int| pattern[i]@)
}

impl NodeModel {
    /// A node that no pattern has passed through.
    pub open spec fn empty(include_key_tonic: bool) -> NodeModel {
        NodeModel {
            count: 0,
            children: Seq::empty(),
            refs: Seq::empty(),
            rank: 0,
            include_key_tonic,
        }
    }

    /// The index of the child with this key, or the number of children.
    pub open spec fn child_index(self, key: Seq<u8>) -> int {
        index_of_key(self.children, key, 0)
    }

    /// The node after one more pattern has passed through it: its count is
    /// one higher, and the reference is appended unless a reference with the
    /// same source identifier is there already.
    pub open spec fn touched(self, r: ReferenceModel) -> NodeModel {
        NodeModel {
            count: self.count + 1,
            refs: if has_id(self.refs, r.id) {
                self.refs
            } else {
                self.refs.push(r)
            },
            ..self
        }
    }

    /// The tree after the pattern `keys[depth..]` has been added below this
    /// node: every node on the path is touched, and a missing child is
    /// appended behind the existing ones.
    pub open spec fn insert_from(self, keys: Seq<Seq<u8>>, depth: int, r: ReferenceModel)
        -> NodeModel
        decreases keys.len() - depth,
    {
        let t = self.touched(r);
        if depth < 0 || depth >= keys.len() {
            t
        } else {
            let i = self.child_index(keys[depth]);
            if i < self.children.len() {
                NodeModel {
                    children: self.children.update(
                        i,
                        EdgeModel {
                            key: keys[depth],
                            node: self.children[i].node.insert_from(keys, depth + 1, r),
                        },
                    ),
                    ..t
                }
            } else {
                NodeModel {
                    children: self.children.push(
                        EdgeModel {
                            key: keys[depth],
                            node: NodeModel::empty(self.include_key_tonic).insert_from(
                                keys,
                                depth + 1,
                                r,
                            ),
                        },
                    ),
                    ..t
                }
            }
        }
    }

    /// The tree after a whole pattern has been added at the root.
    pub open spec fn insert(self, keys: Seq<Seq<u8>>, r: ReferenceModel) -> NodeModel {
        self.insert_from(keys, 0, r)
    }

    /// A tree is well formed when, at every node, the children have distinct
    /// keys, there are no more children than patterns that passed through, no
    /// child has a higher count than its parent, and no two references share
    /// a source identifier.
    pub open spec fn well_formed(self) -> bool
        decreases self,
    {
        &&& self.children.len() <= self.count
        &&& forall|i: int, j: int|
            0 <= i < j < self.children.len() ==> self.children[i].key != self.children[j].key
        &&& forall|i: int, j: int|
            0 <= i < j < self.refs.len() ==> self.refs[i].id != self.refs[j].id
        &&& forall|i: int|
            0 <= i < self.children.len() ==> {
                &&& (#[trigger] self.children[i]).node.count <= self.count
                &&& self.children[i].node.well_formed()
            }
    }
}

/// Adding a pattern keeps a tree well formed.
pub proof fn lemma_insert_well_formed(
    m: NodeModel,
    keys: Seq<Seq<u8>>,
    depth: int,
    r: ReferenceModel,
)
    requires
        m.well_formed(),
        0 <= depth <= keys.len(),
    ensures
        m.insert_from(keys, depth, r).well_formed(),
        m.insert_from(keys, depth, r).count == m.count + 1,
        m.insert_from(keys, depth, r).rank == m.rank,
    decreases keys.len() - depth,
{
    let t = m.touched(r);
    let out = m.insert_from(keys, depth, r);
    assert forall|i: int, j: int| 0 <= i < j < t.refs.len() implies t.refs[i].id
        != t.refs[j].id by {
        if !has_id(m.refs, r.id) {
            if j == m.refs.len() {
                assert(m.refs[i].id != r.id);
            }
        }
    }
    if depth < keys.len() {
        let key = keys[depth];
        let i = m.child_index(key);
        lemma_index_of_key(m.children, key, 0);
        if i < m.children.len() {
            lemma_insert_well_formed(m.children[i].node, keys, depth + 1, r);
            assert forall|a: int, b: int| 0 <= a < b < out.children.len() implies out.children[a].key
                != out.children[b].key by {
                assert(out.children[a].key == m.children[a].key);
                assert(out.children[b].key == m.children[b].key);
            }
            assert forall|k: int| 0 <= k < out.children.len() implies {
                &&& (#[trigger] out.children[k]).node.count <= out.count
                &&& out.children[k].node.well_formed()
            } by {
                if k != i {
                    assert(out.children[k] == m.children[k]);
                }
            }
        } else {
            let fresh = NodeModel::empty(m.include_key_tonic);
            assert(fresh.well_formed());
            lemma_insert_well_formed(fresh, keys, depth + 1, r);
            assert forall|a: int, b: int| 0 <= a < b < out.children.len() implies out.children[a].key
                != out.children[b].key by {
                assert(out.children[a].key == m.children[a].key);
            }
            assert forall|k: int| 0 <= k < out.children.len() implies {
                &&& (#[trigger] out.children[k]).node.count <= out.count
                &&& out.children[k].node.well_formed()
            } by {
                if k < m.children.len() {
                    assert(out.children[k] == m.children[k]);
                }
            }
        }
    }
}

/// Whether two keys hold the same bytes.
pub fn key_eq(a: &ChordBinary, b: &ChordBinary) -> (r: bool)
    ensures
        r == (a@ == b@),
{
    let r = a[0] == b[0] && a[1] == b[1] && a[2] == b[2] && a[3] == b[3] && a[4] == b[4];
    proof {
        if r {
            assert(a@ =~= b@);
        }
    }
    r
}

/// The index of the child with this key.
fn find_child(node: &TrieNode, key: &ChordBinary) -> (r: Option<usize>)
    ensures
        match r {
            Some(i) => i < node.children@.len() && i == node@.child_index(key@),
            None => node@.child_index(key@) == node.children@.len(),
        },
{
    proof {
        lemma_children(*node);
    }
    let mut i: usize = 0;
    while i < node.children.len()
        invariant
            i <= node.children.len(),
            node@.children.len() == node.children@.len(),
            forall|k: int|
                0 <= k < node.children@.len() ==> #[trigger] node@.children[k]
                    == node.children@[k]@,
            index_of_key(node@.children, key@, 0) == index_of_key(node@.children, key@, i as int),
        decreases node.children.len() - i,
    {
        if key_eq(&node.children[i].key, key) {
            assert(node@.children[i as int].key == key@);
            return Some(i);
        }
        assert(node@.children[i as int].key != key@);
        i = i + 1;
    }
    None
}

impl TrieNode {
    /// A node that no pattern has passed through.
    pub fn new(include_key_tonic: bool) -> (n: TrieNode)
        ensures
            n@ == NodeModel::empty(include_key_tonic),
            n@.well_formed(),
    {
        let n = TrieNode {
            count: 0,
            children: Vec::new(),
            id_list: ReferenceList::new(),
            rank: 0,
            include_key_tonic,
        };
        assert(n@.children =~= Seq::<EdgeModel>::empty());
        n
    }
}

impl Default for TrieNode {
    fn default() -> (n: TrieNode)
        ensures
            n@ == NodeModel::empty(false),
    {
        TrieNode::new(false)
    }
}

/// Adds the pattern `pattern[depth..]` below `node`: every node on the path
/// is touched, and a missing child is appended.
fn add_pattern_recursive(
    node: &mut TrieNode,
    pattern: &Vec<ChordBinary>,
    depth: usize,
    reference: &Reference,
)
    requires
        old(node)@.well_formed(),
        old(node).count < u32::MAX,
        depth <= pattern@.len(),
    ensures
        final(node)@ == old(node)@.insert_from(keys_of(pattern@), depth as int, reference@),
    decreases pattern@.len() - depth,
{
    let ghost before = node@;
    let ghost keys = keys_of(pattern@);
    proof {
        lemma_children(*node);
    }
    node.count = node.count + 1;
    if !node.id_list.has_id(&reference.id) {
        node.id_list.push(reference.clone());
    }
    if depth >= pattern.len() {
        assert(node@.children == before.children);
        return ;
    }
    let key = pattern[depth];
    assert(keys[depth as int] == key@);
    match find_child(node, &key) {
        Some(i) => {
            let ghost old_children = node.children@;
            assert(node@.child_index(key@) == before.child_index(key@));
            assert(before.children[i as int] == old_children[i as int]@);
            add_pattern_recursive(&mut node.children[i].node, pattern, depth + 1, reference);
            proof {
                lemma_children(*node);
                let expected = before.insert_from(keys, depth as int, reference@);
                lemma_index_of_key(before.children, key@, 0);
                assert(node.children@[i as int].key == old_children[i as int].key);
                assert(before.children[i as int].key == key@);
                assert(node.children@.len() == old_children.len());
                assert forall|k: int| 0 <= k < node@.children.len() implies node@.children[k]
                    == expected.children[k] by {
                    if k != i {
                        assert(node.children@[k] == old_children[k]);
                        assert(before.children[k] == old_children[k]@);
                    } else {
                        assert(node@.children[k] == node.children@[k]@);
                        assert(node.children@[k].node@ == old_children[k].node@.insert_from(
                            keys,
                            depth + 1,
                            reference@,
                        ));
                    }
                }
                assert(node@.children =~= expected.children);
            }
        },
        None => {
            let ghost old_children = node.children@;
            assert(node@.child_index(key@) == before.child_index(key@));
            let mut child = TrieNode::new(node.include_key_tonic);
            add_pattern_recursive(&mut child, pattern, depth + 1, reference);
            node.children.push(TrieEdge { key, node: child });
            proof {
                lemma_children(*node);
                let expected = before.insert_from(keys, depth as int, reference@);
                assert forall|k: int| 0 <= k < node@.children.len() implies node@.children[k]
                    == expected.children[k] by {
                    if k < old_children.len() {
                        assert(node.children@[k] == old_children[k]);
                    }
                }
                assert(node@.children =~= expected.children);
            }
        },
    }
}

/// Whether the sibling at `k` is ranked before the sibling at `i`: it has a
/// higher count, or the same count and an earlier position.
pub open spec fn comes_before(counts: Seq<nat>, k: int, i: int) -> bool {
    counts[k] > counts[i] || (counts[k] == counts[i] && k < i)
}

/// How many of the first `upto` siblings are ranked before the sibling at `i`.
pub open spec fn before_count(counts: Seq<nat>, i: int, upto: nat) -> nat
    decreases upto,
{
    if upto == 0 {
        0
    } else {
        before_count(counts, i, (upto - 1) as nat) + if comes_before(counts, upto - 1, i) {
            1nat
        } else {
            0nat
        }
    }
}

/// The rank of the sibling at `i`: one more than the number of siblings that
/// are ranked before it.
pub open spec fn rank_of(counts: Seq<nat>, i: int) -> nat {
    1 + before_count(counts, i, counts.len())
}

/// The counts of the children, in order.
pub open spec fn counts_of(children: Seq<EdgeModel>) -> Seq<nat> {
    Seq::new(children.len(), |i: int| children[i].node.count)
}

/// The first `upto` children with their ranks assigned, and each subtree ranked.
pub open spec fn ranked_edges(children: Seq<EdgeModel>, upto: nat) -> Seq<EdgeModel>
    decreases children, upto,
{
    if upto == 0 || upto > children.len() {
        Seq::empty()
    } else {
        ranked_edges(children, (upto - 1) as nat).push(ranked_edge(children, upto - 1))
    }
}

/// The child at `i` with its rank assigned and its subtree ranked.
pub open spec fn ranked_edge(children: Seq<EdgeModel>, i: int) -> EdgeModel
    recommends
        0 <= i < children.len(),
    decreases children, 0nat,
{
    if 0 <= i < children.len() {
        EdgeModel {
            key: children[i].key,
            node: NodeModel {
                rank: rank_of(counts_of(children), i),
                ..children[i].node.ranked()
            },
        }
    } else {
        children[i]
    }
}

impl NodeModel {
    /// The tree with every rank recomputed: at each node, the children are
    /// ranked from 1 by descending count, and children with equal counts keep
    /// their order. The rank of the node itself is left as it is.
    pub open spec fn ranked(self) -> NodeModel
        decreases self,
    {
        NodeModel { children: ranked_edges(self.children, self.children.len()), ..self }
    }

    /// Whether each node of the tree has few enough children for their ranks
    /// to fit in 32 bits.
    pub open spec fn rankable(self) -> bool
        decreases self,
    {
        &&& self.children.len() <= u32::MAX
        &&& forall|i: int|
            0 <= i < self.children.len() ==> (#[trigger] self.children[i]).node.rankable()
    }
}

/// The ranked children are the children ranked one by one.
pub proof fn lemma_ranked_edges(children: Seq<EdgeModel>, upto: nat)
    requires
        upto <= children.len(),
    ensures
        ranked_edges(children, upto).len() == upto,
        forall|i: int|
            0 <= i < upto ==> #[trigger] ranked_edges(children, upto)[i] == ranked_edge(
                children,
                i,
            ),
    decreases upto,
{
    if upto > 0 {
        lemma_ranked_edges(children, (upto - 1) as nat);
    }
}

/// The number of siblings ranked before one is below the number looked at.
pub proof fn lemma_before_count_bound(counts: Seq<nat>, i: int, upto: nat)
    ensures
        before_count(counts, i, upto) <= upto,
        0 <= i < upto ==> before_count(counts, i, upto) < upto,
    decreases upto,
{
    if upto > 0 {
        lemma_before_count_bound(counts, i, (upto - 1) as nat);
    }
}

/// A well-formed tree whose counts fit in 32 bits is rankable.
pub proof fn lemma_well_formed_rankable(n: TrieNode)
    requires
        n@.well_formed(),
    ensures
        n@.rankable(),
    decreases n,
{
    lemma_children(n);
    assert forall|i: int| 0 <= i < n@.children.len() implies (#[trigger] n@.children[i]).node.rankable() by {
        assert(n@.children[i] == n.children@[i]@);
        lemma_well_formed_rankable(n.children@[i].node);
    }
}

/// The rank of the child at `i` among its siblings.
fn rank_among(children: &Vec<TrieEdge>, i: usize) -> (r: u32)
    requires
        i < children@.len(),
        children@.len() <= u32::MAX,
    ensures
        r == rank_of(counts_of(edge_models(children@, children@.len())), i as int),
        1 <= r <= children@.len(),
{
    let ghost counts = counts_of(edge_models(children@, children@.len()));
    proof {
        lemma_edge_models(children@, children@.len());
    }
    let own = children[i].node.count;
    let mut before: u32 = 0;
    let mut k: usize = 0;
    while k < children.len()
        invariant
            k <= children@.len() <= u32::MAX,
            i < children@.len(),
            own == children@[i as int].node.count,
            counts == counts_of(edge_models(children@, children@.len())),
            counts.len() == children@.len(),
            forall|j: int| 0 <= j < children@.len() ==> counts[j] == children@[j].node.count,
            before == before_count(counts, i as int, k as nat),
            before <= k,
        decreases children.len() - k,
    {
        let c = children[k].node.count;
        if c > own || (c == own && k < i) {
            before = before + 1;
        }
        k = k + 1;
    }
    proof {
        lemma_before_count_bound(counts, i as int, children@.len());
    }
    before + 1
}

impl TrieNode {
    /// Recomputes the rank of every node below this one: the children of each
    /// node are ranked from 1 by descending count, and children with equal
    /// counts keep the order in which they first appeared.
    pub fn calculate_ranks(&mut self)
        requires
            old(self)@.rankable(),
        ensures
            final(self)@ == old(self)@.ranked(),
        decreases *old(self),
    {
        let ghost orig = *self;
        let ghost kids = orig@.children;
        proof {
            lemma_children(orig);
            lemma_ranked_edges(kids, kids.len());
        }
        let n = self.children.len();
        let mut i: usize = 0;
        while i < n
            invariant
                i <= n,
                orig == *old(self),
                n == orig.children@.len(),
                self.children@.len() == n,
                n <= u32::MAX,
                self.count == orig.count,
                self.rank == orig.rank,
                self.id_list == orig.id_list,
                self.include_key_tonic == orig.include_key_tonic,
                kids == orig@.children,
                kids.len() == n,
                forall|k: int| 0 <= k < n ==> #[trigger] kids[k] == orig.children@[k]@,
                forall|k: int| 0 <= k < n ==> kids[k].node.rankable(),
                forall|k: int| i <= k < n ==> self.children@[k] == orig.children@[k],
                forall|k: int| 0 <= k < i ==> self.children@[k]@ == ranked_edge(kids, k),
                forall|k: int|
                    0 <= k < n ==> (#[trigger] self.children@[k]).node.count
                        == orig.children@[k].node.count,
            decreases n - i,
        {
            let r = rank_among(&self.children, i);
            proof {
                lemma_edge_models(self.children@, self.children@.len());
                assert(counts_of(edge_models(self.children@, self.children@.len())) =~= counts_of(
                    kids,
                ));
            }
            let ghost child_before = self.children@[i as int];
            let ghost now = self.children@;
            assert(child_before == orig.children@[i as int]);
            assert(decreases_to!(orig => orig.children@[i as int].node));
            self.children[i].node.calculate_ranks();
            self.children[i].node.rank = r;
            proof {
                let child = self.children@[i as int];
                assert(child.key == child_before.key);
                assert(child.node@ == (NodeModel {
                    rank: r as nat,
                    ..child_before.node@.ranked()
                }));
                assert(child@ == ranked_edge(kids, i as int));
                lemma_ranked_edges(child_before.node@.children, child_before.node@.children.len());
                assert forall|k: int| 0 <= k < n implies (#[trigger] self.children@[k]).node.count
                    == orig.children@[k].node.count by {
                    if k != i {
                        assert(self.children@[k] == now[k]);
                    }
                }
                assert forall|k: int| 0 <= k < i + 1 implies self.children@[k]@ == ranked_edge(
                    kids,
                    k,
                ) by {
                    if k != i {
                        assert(self.children@[k] == now[k]);
                    }
                }
                assert forall|k: int| i + 1 <= k < n implies self.children@[k]
                    == orig.children@[k] by {
                    assert(self.children@[k] == now[k]);
                }
            }
            i = i + 1;
        }
        proof {
            lemma_children(*self);
            assert(self@.children =~= orig@.ranked().children);
        }
    }
}

/// One match of a search: a child that the pattern led to.
#[derive(Debug)]
pub struct PatternResult {
    /// The key of the matching chord.
    pub serialized_chord: ChordBinary,
    /// How many patterns pass through the child.
    pub count: u32,
    /// The rank of the child among its siblings; 0 if ranks were never computed.
    pub rank: u32,
    /// The count of the child divided by the count of its parent.
    pub relative_count: Fixed,
    /// The references of the child.
    pub id_list: Vec<Reference>,
    /// The count divided by the rank, by which matches are ordered.
    pub weight: Fixed,
}

/// A match as a mathematical value.
pub struct HitModel {
    pub key: Seq<u8>,
    pub count: nat,
    pub rank: nat,
    pub relative_count: int,
    pub refs: Seq<ReferenceModel>,
    pub weight: int,
}

impl Scored for HitModel {
    open spec fn score(&self) -> int {
        self.weight
    }
}

impl View for PatternResult {
    type V = HitModel;

    open spec fn view(&self) -> HitModel {
        HitModel {
            key: self.serialized_chord@,
            count: self.count as nat,
            rank: self.rank as nat,
            relative_count: self.relative_count.value(),
            refs: reference_models(self.id_list@),
            weight: self.weight.value(),
        }
    }
}

impl Clone for PatternResult {
    fn clone(&self) -> (r: Self)
        ensures
            r@ == self@,
    {
        let mut refs: Vec<Reference> = Vec::new();
        let mut i: usize = 0;
        while i < self.id_list.len()
            invariant
                i <= self.id_list@.len(),
                refs@.len() == i,
                forall|j: int| 0 <= j < i ==> refs@[j]@ == self.id_list@[j]@,
            decreases self.id_list.len() - i,
        {
            refs.push(self.id_list[i].clone());
            i = i + 1;
        }
        assert(reference_models(refs@) =~= reference_models(self.id_list@));
        PatternResult {
            serialized_chord: self.serialized_chord,
            count: self.count,
            rank: self.rank,
            relative_count: self.relative_count,
            id_list: refs,
            weight: self.weight,
        }
    }
}

/// The models of a sequence of matches.
pub open spec fn hits_of(v: Seq<PatternResult>) -> Seq<HitModel> {
    Seq::new(v.len(), |i: int| v[i]@)
}

/// The weight of a match, in millionths: the count divided by the rank,
/// rounded down, or the count itself where the rank is 0.
pub open spec fn weight_of(count: nat, rank: nat) -> int {
    if rank > 0 {
        (count * (SCALE as int)) / (rank as int)
    } else {
        count * (SCALE as int)
    }
}

/// The relative frequency of a child, in millionths: its count divided by
/// the count of its parent, a parent with count 0 being taken as 1.
pub open spec fn relative_of(count: nat, parent_count: nat) -> int {
    scaled_ratio(count as int, if parent_count == 0 { 1 } else { parent_count as int })
}

/// The match that a child of `parent` gives.
pub open spec fn hit(parent: NodeModel, edge: EdgeModel) -> HitModel {
    HitModel {
        key: edge.key,
        count: edge.node.count,
        rank: edge.node.rank,
        relative_count: relative_of(edge.node.count, parent.count),
        refs: edge.node.refs,
        weight: weight_of(edge.node.count, edge.node.rank),
    }
}

/// What a search for `pattern[at..]` finds below `node`, in the order of the
/// walk: at a key the walk follows the child with that key, if there is one;
/// at a wildcard it follows every child in turn; at the last position each
/// child that it reaches gives one match.
pub open spec fn walk(node: NodeModel, pattern: Seq<Option<Seq<u8>>>, at: int) -> Seq<HitModel>
    decreases pattern.len() - at, 2nat, 0nat,
{
    if at < 0 || at >= pattern.len() {
        Seq::empty()
    } else {
        match pattern[at] {
            Some(key) => {
                let i = node.child_index(key);
                if 0 <= i < node.children.len() {
                    via_edge(node, i, pattern, at)
                } else {
                    Seq::empty()
                }
            },
            None => wildcard(node, pattern, at, node.children.len()),
        }
    }
}

/// What the walk finds through the child at `i`.
pub open spec fn via_edge(node: NodeModel, i: int, pattern: Seq<Option<Seq<u8>>>, at: int) -> Seq<
    HitModel,
>
    decreases pattern.len() - at, 0nat, 0nat,
{
    if at < 0 || at >= pattern.len() || i < 0 || i >= node.children.len() {
        Seq::empty()
    } else if at == pattern.len() - 1 {
        seq![hit(node, node.children[i])]
    } else {
        walk(node.children[i].node, pattern, at + 1)
    }
}

/// What the walk finds through the first `upto` children.
pub open spec fn wildcard(
    node: NodeModel,
    pattern: Seq<Option<Seq<u8>>>,
    at: int,
    upto: nat,
) -> Seq<HitModel>
    decreases pattern.len() - at, 1nat, upto,
{
    if at < 0 || at >= pattern.len() || upto == 0 {
        Seq::empty()
    } else {
        wildcard(node, pattern, at, (upto - 1) as nat) + via_edge(node, upto - 1, pattern, at)
    }
}

/// The keys of a search pattern, each as a sequence of bytes.
pub open spec fn pattern_keys(pattern: Seq<Option<ChordBinary>>) -> Seq<Option<Seq<u8>>> {
    Seq::new(
        pattern.len(),
        |i: int|
            match pattern[i] {
                Some(key) => Some(key@),
                None => None,
            },
    )
}

/// The weight of a match.
fn calculate_weight(count: u32, rank: u32) -> (w: Fixed)
    ensures
        w.value() == weight_of(count as nat, rank as nat),
        0 <= w.value(),
{
    let scaled: u64 = (count as u64) * 1_000_000;
    if rank > 0 {
        let q: u64 = scaled / (rank as u64);
        proof {
            vstd::arithmetic::div_mod::lemma_div_pos_is_pos(scaled as int, rank as int);
            vstd::arithmetic::div_mod::lemma_div_nonincreasing(scaled as int, rank as int);
        }
        Fixed { micros: q as i64 }
    } else {
        Fixed { micros: scaled as i64 }
    }
}

/// The match that the child `edge` of `node` gives.
fn make_hit(node: &TrieNode, edge: &TrieEdge) -> (r: PatternResult)
    ensures
        r@ == hit(node@, edge@),
{
    let parent_count: u32 = if node.count == 0 {
        1
    } else {
        node.count
    };
    let refs = edge.node.id_list.to_vec();
    PatternResult {
        serialized_chord: edge.key,
        count: edge.node.count,
        rank: edge.node.rank,
        relative_count: Fixed::ratio(edge.node.count, parent_count),
        id_list: refs,
        weight: calculate_weight(edge.node.count, edge.node.rank),
    }
}

/// Puts a match in its place among the best `limit` matches found so far, and
/// drops the last one if there are then too many.
fn keep_best(results: &mut Vec<PatternResult>, found: PatternResult, limit: usize)
    requires
        old(results)@.len() <= limit,
    ensures
        hits_of(final(results)@) == bounded_insert(hits_of(old(results)@), found@, limit as int),
        final(results)@.len() <= limit,
{
    let ghost acc = hits_of(results@);
    let ghost w = found@.weight;
    if limit == 0 {
        assert(hits_of(results@) =~= Seq::<HitModel>::empty());
        return ;
    }
    let mut p: usize = 0;
    while p < results.len() && results[p].weight.micros >= found.weight.micros
        invariant
            p <= results@.len(),
            acc == hits_of(results@),
            w == found@.weight,
            insertion_point(acc, w, 0) == insertion_point(acc, w, p as int),
        decreases results@.len() - p,
    {
        assert(acc[p as int].score() >= w);
        p = p + 1;
    }
    assert(insertion_point(acc, w, 0) == p) by {
        if p < results@.len() {
            assert(acc[p as int].score() < w);
        }
    }
    if p >= limit {
        assert(top(acc.insert(p as int, found@), limit as int) =~= acc);
        return ;
    }
    let ghost before = results@;
    results.insert(p, found);
    assert(hits_of(results@) =~= acc.insert(p as int, found@));
    if results.len() > limit {
        results.truncate(limit);
        assert(hits_of(results@) =~= top(acc.insert(p as int, found@), limit as int));
    }
}

/// Collecting a single match is one bounded insertion.
proof fn lemma_collected_one(acc: Seq<HitModel>, h: HitModel, limit: int)
    ensures
        collected(acc, seq![h], limit) == bounded_insert(acc, h, limit),
{
    let one = seq![h];
    assert(one.drop_last() =~= Seq::<HitModel>::empty());
    assert(one.last() == h);
    assert(collected(acc, one.drop_last(), limit) == acc);
}

/// Walks the tree along `pattern[at..]` and keeps the best `limit` matches.
fn search_trie_recursive(
    node: &TrieNode,
    pattern: &Vec<Option<ChordBinary>>,
    at: usize,
    results: &mut Vec<PatternResult>,
    limit: usize,
)
    requires
        old(results)@.len() <= limit,
    ensures
        hits_of(final(results)@) == collected(
            hits_of(old(results)@),
            walk(node@, pattern_keys(pattern@), at as int),
            limit as int,
        ),
        final(results)@.len() <= limit,
    decreases pattern@.len() - at,
{
    let ghost keys = pattern_keys(pattern@);
    let ghost start = hits_of(results@);
    let length = pattern.len();
    if at >= length {
        return ;
    }
    proof {
        lemma_children(*node);
    }
    let last = at == length - 1;
    match &pattern[at] {
        Some(key) => {
            assert(keys[at as int] == Some(key@));
            match find_child(node, key) {
                Some(i) => {
                    let ghost found = via_edge(node@, i as int, keys, at as int);
                    assert(walk(node@, keys, at as int) == found);
                    if last {
                        keep_best(results, make_hit(node, &node.children[i]), limit);
                        proof {
                            lemma_collected_one(start, hit(node@, node@.children[i as int]), limit as int);
                        }
                    } else {
                        search_trie_recursive(&node.children[i].node, pattern, at + 1, results, limit);
                    }
                },
                None => {
                    assert(walk(node@, keys, at as int) == Seq::<HitModel>::empty());
                },
            }
        },
        None => {
            assert(keys[at as int] is None);
            let n = node.children.len();
            let mut i: usize = 0;
            while i < n
                invariant
                    i <= n,
                    n == node.children@.len(),
                    at < length,
                    length == pattern@.len(),
                    last == (at == length - 1),
                    keys == pattern_keys(pattern@),
                    node@.children.len() == n,
                    forall|k: int|
                        0 <= k < n ==> #[trigger] node@.children[k] == node.children@[k]@,
                    results@.len() <= limit,
                    hits_of(results@) == collected(
                        start,
                        wildcard(node@, keys, at as int, i as nat),
                        limit as int,
                    ),
                decreases n - i,
            {
                let ghost sofar = wildcard(node@, keys, at as int, i as nat);
                let ghost found = via_edge(node@, i as int, keys, at as int);
                let ghost prev = hits_of(results@);
                if last {
                    keep_best(results, make_hit(node, &node.children[i]), limit);
                    proof {
                        lemma_collected_one(prev, hit(node@, node@.children[i as int]), limit as int);
                    }
                } else {
                    search_trie_recursive(&node.children[i].node, pattern, at + 1, results, limit);
                    assert(node@.children[i as int].node == node.children@[i as int].node@);
                }
                proof {
                    assert(hits_of(results@) == collected(prev, found, limit as int));
                    lemma_collected_concat(start, sofar, found, limit as int);
                    assert(wildcard(node@, keys, at as int, (i + 1) as nat) == sofar + found);
                }
                i = i + 1;
            }
            assert(walk(node@, keys, at as int) == wildcard(node@, keys, at as int, n as nat));
        },
    }
}

impl Clone for TrieNode {
    /// A copy of the whole subtree.
    fn clone(&self) -> (r: Self)
        ensures
            r@ == self@,
        decreases self,
    {
        let mut children: Vec<TrieEdge> = Vec::new();
        let mut i: usize = 0;
        while i < self.children.len()
            invariant
                i <= self.children@.len(),
                children@.len() == i,
                forall|k: int| 0 <= k < i ==> children@[k]@ == self.children@[k]@,
            decreases self.children@.len() - i,
        {
            let edge = &self.children[i];
            children.push(TrieEdge { key: edge.key, node: edge.node.clone() });
            i = i + 1;
        }
        let r = TrieNode {
            count: self.count,
            children,
            id_list: self.id_list.clone(),
            rank: self.rank,
            include_key_tonic: self.include_key_tonic,
        };
        proof {
            lemma_children(r);
            lemma_children(*self);
            assert(r@.children =~= self@.children);
        }
        r
    }
}

/// The number of nodes of a tree.
pub open spec fn node_total(m: NodeModel) -> nat
    decreases m,
{
    1 + nodes_below(m.children, m.children.len())
}

/// The number of nodes of the subtrees of the first `upto` children.
pub open spec fn nodes_below(children: Seq<EdgeModel>, upto: nat) -> nat
    decreases children, upto,
{
    if upto == 0 || upto > children.len() {
        0
    } else {
        nodes_below(children, (upto - 1) as nat) + node_total(children[upto - 1].node)
    }
}

/// The number of edges on the longest way down from a node.
pub open spec fn tree_depth(m: NodeModel) -> nat
    decreases m,
{
    deepest_below(m.children, m.children.len())
}

/// One more than the greatest depth among the first `upto` children; 0 if
/// there are none.
pub open spec fn deepest_below(children: Seq<EdgeModel>, upto: nat) -> nat
    decreases children, upto,
{
    if upto == 0 || upto > children.len() {
        0
    } else {
        let rest = deepest_below(children, (upto - 1) as nat);
        let this = 1 + tree_depth(children[upto - 1].node);
        if this > rest {
            this
        } else {
            rest
        }
    }
}

/// Bytes counted for a node.
pub const NODE_BYTES: u64 = 96;

/// Bytes counted for an edge: the key and the slot of the child.
pub const EDGE_BYTES: u64 = 104;

/// Bytes counted for a reference.
pub const REFERENCE_BYTES: u64 = 48;

/// The estimated size of a tree in bytes: for each node its own size, the
/// size of its edges and the size of its references.
pub open spec fn tree_bytes(m: NodeModel) -> nat
    decreases m,
{
    (NODE_BYTES as nat) + (EDGE_BYTES as nat) * m.children.len() + (REFERENCE_BYTES as nat)
        * m.refs.len() + bytes_below(m.children, m.children.len())
}

/// The estimated size of the subtrees of the first `upto` children.
pub open spec fn bytes_below(children: Seq<EdgeModel>, upto: nat) -> nat
    decreases children, upto,
{
    if upto == 0 || upto > children.len() {
        0
    } else {
        bytes_below(children, (upto - 1) as nat) + tree_bytes(children[upto - 1].node)
    }
}

/// `n` as far as 64 bits hold it.
pub open spec fn capped(n: nat) -> u64 {
    if n > u64::MAX {
        u64::MAX
    } else {
        n as u64
    }
}

/// `n` as far as 32 bits hold it.
pub open spec fn capped_32(n: nat) -> u32 {
    if n > u32::MAX {
        u32::MAX
    } else {
        n as u32
    }
}

/// `a * b`, or the greatest value where that does not fit.
fn capped_product(a: u64, b: u64) -> (r: u64)
    ensures
        r == capped((a as nat) * (b as nat)),
{
    assert((a as nat) * (b as nat) <= 0xffff_ffff_ffff_ffff * 0xffff_ffff_ffff_ffff)
        by (nonlinear_arith)
        requires
            a <= 0xffff_ffff_ffff_ffff,
            b <= 0xffff_ffff_ffff_ffff,
    ;
    let wide: u128 = (a as u128) * (b as u128);
    if wide > u64::MAX as u128 {
        u64::MAX
    } else {
        wide as u64
    }
}

impl TrieNode {
    /// The estimated size of the subtree in bytes, as far as 64 bits hold it.
    pub fn memory_usage(&self) -> (r: u64)
        ensures
            r == capped(tree_bytes(self@)),
        decreases self,
    {
        proof {
            lemma_children(*self);
        }
        let edges = capped_product(EDGE_BYTES, self.children.len() as u64);
        let refs = capped_product(REFERENCE_BYTES, self.id_list.len() as u64);
        let mut total: u64 = NODE_BYTES.saturating_add(edges).saturating_add(refs);
        let mut i: usize = 0;
        while i < self.children.len()
            invariant
                i <= self.children@.len(),
                self@.children.len() == self.children@.len(),
                forall|k: int|
                    0 <= k < self.children@.len() ==> #[trigger] self@.children[k]
                        == self.children@[k]@,
                total == capped(
                    (NODE_BYTES as nat) + (EDGE_BYTES as nat) * self@.children.len() + (
                    REFERENCE_BYTES as nat) * self@.refs.len() + bytes_below(
                        self@.children,
                        i as nat,
                    ),
                ),
            decreases self.children@.len() - i,
        {
            let below = self.children[i].node.memory_usage();
            total = total.saturating_add(below);
            i = i + 1;
        }
        total
    }

    /// The number of nodes of the subtree, as far as 64 bits hold it.
    pub fn count_nodes(&self) -> (r: u64)
        ensures
            r == capped(node_total(self@)),
        decreases self,
    {
        proof {
            lemma_children(*self);
        }
        let mut total: u64 = 1;
        let mut i: usize = 0;
        while i < self.children.len()
            invariant
                i <= self.children@.len(),
                self@.children.len() == self.children@.len(),
                forall|k: int|
                    0 <= k < self.children@.len() ==> #[trigger] self@.children[k]
                        == self.children@[k]@,
                total == capped(1 + nodes_below(self@.children, i as nat)),
            decreases self.children@.len() - i,
        {
            let below = self.children[i].node.count_nodes();
            total = total.saturating_add(below);
            i = i + 1;
        }
        total
    }

    /// The number of edges on the longest way down, as far as 32 bits hold it.
    pub fn max_depth(&self) -> (r: u32)
        ensures
            r == capped_32(tree_depth(self@)),
        decreases self,
    {
        proof {
            lemma_children(*self);
        }
        let mut deepest: u32 = 0;
        let mut i: usize = 0;
        while i < self.children.len()
            invariant
                i <= self.children@.len(),
                self@.children.len() == self.children@.len(),
                forall|k: int|
                    0 <= k < self.children@.len() ==> #[trigger] self@.children[k]
                        == self.children@[k]@,
                deepest == capped_32(deepest_below(self@.children, i as nat)),
            decreases self.children@.len() - i,
        {
            let this = self.children[i].node.max_depth().saturating_add(1);
            if this > deepest {
                deepest = this;
            }
            i = i + 1;
        }
        deepest
    }
}

/// `ahash::AHashMap`, a hash map. Nothing is known of a value of it but
/// what the functions below say.
#[verifier::external_type_specification]
#[verifier::external_body]
#[verifier::reject_recursive_types(K)]
#[verifier::reject_recursive_types(V)]
#[verifier::reject_recursive_types(S)]
pub struct ExAHashMap<K, V, S>(AHashMap<K, V, S>);

/// `ahash::RandomState`, the hasher of the map. Nothing is known of it.
#[verifier::external_type_specification]
#[verifier::external_body]
pub struct ExRandomState(ahash::RandomState);

/// The scale branches of a store by name, an `ahash::AHashMap`.
pub type BranchMap = AHashMap<String, TrieNode>;

/// What a map of branches holds: the subtree under each name.
pub uninterp spec fn branch_items(m: BranchMap) -> Map<Seq<char>, TrieNode>;

/// No branches.
pub open spec fn no_branches() -> Map<Seq<char>, NodeModel> {
    Map::empty()
}

/// The branches of a map as values.
pub open spec fn branch_models(m: BranchMap) -> Map<Seq<char>, NodeModel> {
    Map::new(
        |name: Seq<char>| branch_items(m).dom().contains(name),
        |name: Seq<char>| branch_items(m)[name]@,
    )
}

/// What an empty map of branches holds.
pub open spec fn no_branch_items() -> Map<Seq<char>, TrieNode> {
    Map::empty()
}

/// `AHashMap::new`: the new map holds nothing.
#[verifier::external_body]
fn branches_new() -> (m: BranchMap)
    ensures
        branch_items(m) == no_branch_items(),
{
    AHashMap::new()
}

/// `AHashMap::get`: there is a value exactly for the keys of the map, and
/// it is the value that the map holds under the key.
#[verifier::external_body]
fn branches_peek<'a>(m: &'a BranchMap, name: &str) -> (r: Option<&'a TrieNode>)
    ensures
        r is Some <==> branch_items(*m).dom().contains(name@),
        r matches Some(node) ==> *node == branch_items(*m)[name@],
{
    m.get(name)
}

/// `AHashMap::insert`: the value is held under the key, in place of what
/// was held under it before; nothing else changes.
#[verifier::external_body]
fn branches_insert(m: &mut BranchMap, name: String, node: TrieNode)
    ensures
        branch_items(*final(m)) == branch_items(*old(m)).insert(name@, node),
{
    m.insert(name, node);
}

/// `AHashMap::remove`: the value that was held under the key is handed
/// out, if there was one, and the key is held no more; nothing else changes.
#[verifier::external_body]
fn branches_remove(m: &mut BranchMap, name: &str) -> (r: Option<TrieNode>)
    ensures
        branch_items(*final(m)) == branch_items(*old(m)).remove(name@),
        r is Some <==> branch_items(*old(m)).dom().contains(name@),
        r matches Some(node) ==> node == branch_items(*old(m))[name@],
{
    m.remove(name)
}

/// `HashMap::len`, through `AHashMap`: the number of keys of the map.
#[verifier::external_body]
fn branches_len(m: &BranchMap) -> (count: usize)
    ensures
        count == branch_items(*m).dom().len(),
{
    m.len()
}

/// `HashMap::keys`, through `AHashMap`, with a copy of each key: every key
/// of the map once, in no order that could be named.
#[verifier::external_body]
fn branches_names(m: &BranchMap) -> (names: Vec<String>)
    ensures
        texts(names@).no_duplicates(),
        texts(names@).to_set() == branch_items(*m).dom(),
{
    m.keys().cloned().collect()
}

/// The pattern store as a mathematical value.
pub struct TrieModel {
    /// The tree of all stored patterns.
    pub tree: NodeModel,
    /// The scale branches by name.
    pub branches: Map<Seq<char>, NodeModel>,
    /// How many patterns were stored.
    pub total_patterns: nat,
}

/// The pattern store: the tree of all patterns, and one more tree for each
/// scale that has a branch.
#[derive(Debug)]
pub struct ChordProgressionTrie {
    root: TrieNode,
    scale_branches: BranchMap,
    total_patterns: u64,
}

/// Figures of a pattern store.
#[derive(Debug, Clone, Copy, PartialEq, Eq)]
pub struct TrieStatistics {
    pub total_patterns: u64,
    pub total_nodes: u64,
    pub memory_usage_bytes: u64,
    pub scale_branches: usize,
    pub max_depth: u32,
    /// Edges per node, in millionths.
    pub avg_branching_factor: Fixed,
}

impl View for ChordProgressionTrie {
    type V = TrieModel;

    closed spec fn view(&self) -> TrieModel {
        TrieModel {
            tree: self.root@,
            branches: branch_models(self.scale_branches),
            total_patterns: self.total_patterns as nat,
        }
    }
}

/// The keys of a pattern of encodable chords.
pub open spec fn chord_keys(pattern: Seq<Chord>) -> Seq<Seq<u8>> {
    Seq::new(pattern.len(), |i: int| encoded(pattern[i]@))
}

/// The keys of a search pattern: the key of each chord, and `None` for each wildcard.
pub open spec fn search_keys(pattern: Seq<Option<Chord>>) -> Seq<Option<Seq<u8>>> {
    Seq::new(
        pattern.len(),
        |i: int|
            match pattern[i] {
                Some(chord) => Some(encoded(chord@)),
                None => None,
            },
    )
}

/// Whether every chord of a pattern has a binary form.
pub open spec fn all_encodable(pattern: Seq<Chord>) -> bool {
    forall|i: int| 0 <= i < pattern.len() ==> encodable(#[trigger] pattern[i]@)
}

/// The chords of a search pattern as values, and `None` for each wildcard.
pub open spec fn search_models(pattern: Seq<Option<Chord>>) -> Seq<Option<ChordModel>> {
    Seq::new(
        pattern.len(),
        |i: int|
            match pattern[i] {
                Some(chord) => Some(chord@),
                None => None,
            },
    )
}

/// The chords of a pattern as values, as a search pattern without wildcards.
pub open spec fn fixed_models(pattern: Seq<Chord>) -> Seq<Option<ChordModel>> {
    Seq::new(pattern.len(), |i: int| Some(pattern[i]@))
}

/// The place from `from` on of the first chord that has no binary form;
/// the length where every chord has one.
pub open spec fn first_unencodable(pattern: Seq<Option<ChordModel>>, from: int) -> int
    decreases pattern.len() - from,
{
    if from < 0 || from >= pattern.len() {
        pattern.len() as int
    } else if pattern[from] matches Some(m) && !encodable(m) {
        from
    } else {
        first_unencodable(pattern, from + 1)
    }
}

/// The reason with which a chord without a binary form is refused: what
/// keeps it from having one, as the codec words it.
pub open spec fn encoding_refusal(m: ChordModel) -> Seq<char> {
    "Chord serialization failed: "@ + ("Invalid chord data structure: "@ + encoding_fault(m))
}

/// The reason with which a pattern is refused for its first chord without
/// a binary form.
pub open spec fn chord_refusal(pattern: Seq<Option<ChordModel>>) -> Seq<char> {
    encoding_refusal(pattern[first_unencodable(pattern, 0)]->0)
}

/// The reason with which a pattern is not stored: that it is empty, that
/// it is too long, with its length, or what is wrong with its first chord
/// without a binary form.
pub open spec fn storing_refusal(pattern: Seq<Chord>) -> Seq<char> {
    if pattern.len() == 0 {
        "Pattern cannot be empty"@
    } else if pattern.len() > MAX_PATTERN_LENGTH {
        "Pattern too long: "@ + decimal_digits(pattern.len()) + " (max: 20)"@
    } else {
        chord_refusal(fixed_models(pattern))
    }
}

/// The refusal of a chord that the codec refused.
pub(crate) fn refused_chord(e: crate::error::SerializationError) -> (reason: String)
    ensures
        reason@ == "Chord serialization failed: "@ + e.text(),
{
    let mut reason = String::from_str("Chord serialization failed: ");
    reason.append(e.to_text().as_str());
    reason
}

/// The refusal of a pattern that is too long.
pub fn too_long_reason(length: usize) -> (reason: String)
    ensures
        reason@ == "Pattern too long: "@ + decimal_digits(length as nat) + " (max: 20)"@,
{
    let mut reason = String::from_str("Pattern too long: ");
    reason.append(decimal_text(length as u64).as_str());
    reason.append(" (max: 20)");
    reason
}

/// Whether every chord of a search pattern has a binary form.
pub open spec fn search_encodable(pattern: Seq<Option<Chord>>) -> bool {
    forall|i: int|
        0 <= i < pattern.len() ==> ((#[trigger] pattern[i]) matches Some(chord) ==> encodable(
            chord@,
        ))
}

impl TrieModel {
    /// A store is well formed when its tree is well formed, the count of the
    /// root is the number of stored patterns, that number fits in 32 bits,
    /// and every branch is rankable.
    pub open spec fn well_formed(self) -> bool {
        &&& self.tree.well_formed()
        &&& self.tree.count == self.total_patterns
        &&& self.total_patterns <= u32::MAX
        &&& forall|name: Seq<char>|
            self.branches.dom().contains(name) ==> (#[trigger] self.branches[name]).rankable()
    }

    /// The branches with every rank recomputed.
    pub open spec fn ranked_branches(self) -> Map<Seq<char>, NodeModel> {
        Map::new(
            |name: Seq<char>| self.branches.dom().contains(name),
            |name: Seq<char>| self.branches[name].ranked(),
        )
    }
}

impl ChordProgressionTrie {
    /// An empty store.
    pub fn new() -> (t: Self)
        ensures
            t@.tree == NodeModel::empty(false),
            t@.branches == no_branches(),
            t@.total_patterns == 0,
            t@.well_formed(),
    {
        let t = ChordProgressionTrie {
            root: TrieNode::new(false),
            scale_branches: branches_new(),
            total_patterns: 0,
        };
        assert(t@.branches =~= no_branches());
        t
    }

    /// Stores one pattern. A pattern is refused when it is empty, when it is
    /// longer than `MAX_PATTERN_LENGTH`, or when one of its chords has no
    /// binary form; the store is then left as it was. Otherwise every node on
    /// the path of the pattern, the root included, is touched, and the number
    /// of stored patterns grows by one.
    pub fn add_pattern(&mut self, pattern: &[Chord], source_id: String, key_tonic: Option<String>) -> (r:
        AiResult<()>)
        requires
            old(self)@.well_formed(),
            old(self)@.total_patterns < u32::MAX,
        ensures
            r is Ok <==> 1 <= pattern@.len() <= MAX_PATTERN_LENGTH && all_encodable(pattern@),
            r is Ok ==> final(self)@ == (TrieModel {
                tree: old(self)@.tree.insert(
                    chord_keys(pattern@),
                    (Reference { id: source_id, key_tonic })@,
                ),
                total_patterns: old(self)@.total_patterns + 1,
                ..old(self)@
            }),
            r matches Err(e) ==> e matches AiError::InvalidPattern { reason } && reason@
                == storing_refusal(pattern@) && final(self)@ == old(self)@,
            final(self)@.well_formed(),
    {
        if pattern.len() == 0 {
            return Err(
                AiError::InvalidPattern { reason: String::from_str("Pattern cannot be empty") },
            );
        }
        if pattern.len() > MAX_PATTERN_LENGTH {
            return Err(AiError::InvalidPattern { reason: too_long_reason(pattern.len()) });
        }
        let ghost models = fixed_models(pattern@);
        let mut keys: Vec<ChordBinary> = Vec::new();
        let mut i: usize = 0;
        while i < pattern.len()
            invariant
                i <= pattern@.len(),
                keys@.len() == i,
                self@ == old(self)@,
                self@.well_formed(),
                1 <= pattern@.len() <= MAX_PATTERN_LENGTH,
                models == fixed_models(pattern@),
                first_unencodable(models, 0) == first_unencodable(models, i as int),
                forall|k: int| 0 <= k < i ==> encodable(#[trigger] pattern@[k]@),
                forall|k: int| 0 <= k < i ==> keys@[k]@ == encoded(pattern@[k]@),
            decreases pattern@.len() - i,
        {
            assert(models[i as int] == Some(pattern@[i as int]@));
            match serialize_chord(&pattern[i]) {
                Ok(key) => {
                    keys.push(key);
                },
                Err(e) => {
                    let reason = refused_chord(e);
                    assert(reason@ =~= chord_refusal(models));
                    return Err(AiError::InvalidPattern { reason });
                },
            }
            i = i + 1;
        }
        let reference = Reference { id: source_id, key_tonic };
        assert(keys_of(keys@) =~= chord_keys(pattern@));
        proof {
            lemma_insert_well_formed(self.root@, keys_of(keys@), 0, reference@);
        }
        add_pattern_recursive(&mut self.root, &keys, 0, &reference);
        self.total_patterns = self.total_patterns + 1;
        Ok(())
    }

    /// The best `limit` matches of a pattern in which `None` stands for any
    /// chord: all matches of the walk, by descending weight, matches of equal
    /// weight in the order of the walk, cut at `limit`. An empty pattern is
    /// refused as an invalid pattern, and a pattern with a chord that has no
    /// binary form as a failed suggestion, with what is wrong with the first
    /// such chord.
    pub fn search_with_wildcard(&self, pattern: &[Option<Chord>], limit: usize) -> (r: AiResult<
        Vec<PatternResult>,
    >)
        ensures
            r is Ok <==> pattern@.len() >= 1 && search_encodable(pattern@),
            r matches Ok(found) ==> {
                &&& hits_of(found@) == top(
                    sorted_desc(walk(self@.tree, search_keys(pattern@), 0)),
                    limit as int,
                )
                &&& found@.len() <= limit
                &&& is_sorted_desc(hits_of(found@))
                &&& forall|k: int|
                    0 <= k < found@.len() ==> 0 <= (#[trigger] found@[k]).relative_count.value()
                &&& self@.well_formed() ==> forall|k: int|
                    0 <= k < found@.len() ==> (#[trigger] found@[k]).relative_count.value()
                        <= SCALE
            },
            r matches Err(e) ==> (if pattern@.len() == 0 {
                e matches AiError::InvalidPattern { reason } && reason@
                    == "Pattern cannot be empty"@
            } else {
                e matches AiError::SuggestionFailed { reason } && reason@ == chord_refusal(
                    search_models(pattern@),
                )
            }),
    {
        if pattern.len() == 0 {
            return Err(
                AiError::InvalidPattern { reason: String::from_str("Pattern cannot be empty") },
            );
        }
        let ghost models = search_models(pattern@);
        let mut keys: Vec<Option<ChordBinary>> = Vec::new();
        let mut i: usize = 0;
        while i < pattern.len()
            invariant
                i <= pattern@.len(),
                pattern@.len() >= 1,
                keys@.len() == i,
                models == search_models(pattern@),
                first_unencodable(models, 0) == first_unencodable(models, i as int),
                forall|k: int|
                    0 <= k < i ==> ((#[trigger] pattern@[k]) matches Some(chord) ==> encodable(
                        chord@,
                    )),
                forall|k: int| 0 <= k < i ==> pattern_keys(keys@)[k] == search_keys(pattern@)[k],
            decreases pattern@.len() - i,
        {
            match &pattern[i] {
                Some(chord) => {
                    assert(models[i as int] == Some(chord@));
                    match serialize_chord(chord) {
                        Ok(key) => {
                            keys.push(Some(key));
                        },
                        Err(e) => {
                            let reason = refused_chord(e);
                            assert(reason@ =~= chord_refusal(models));
                            return Err(AiError::SuggestionFailed { reason });
                        },
                    }
                },
                None => {
                    keys.push(None);
                },
            }
            i = i + 1;
        }
        assert(pattern_keys(keys@) =~= search_keys(pattern@));
        let mut results: Vec<PatternResult> = Vec::new();
        assert(hits_of(results@) =~= Seq::<HitModel>::empty());
        search_trie_recursive(&self.root, &keys, 0, &mut results, limit);
        proof {
            let all = walk(self@.tree, search_keys(pattern@), 0);
            lemma_collected(all, limit as int);
            lemma_top_sorted(all, limit as int);
            crate::trie_laws::lemma_walk_fractions(self@.tree, search_keys(pattern@), 0);
            assert forall|k: int| 0 <= k < results@.len() implies 0 <= (
            #[trigger] results@[k]).relative_count.value() && (self@.well_formed()
                ==> results@[k].relative_count.value() <= SCALE) by {
                let h = hits_of(results@)[k];
                assert(all.contains(h));
                let j = choose|j: int| 0 <= j < all.len() && all[j] == h;
                assert(0 <= all[j].relative_count);
                if self@.well_formed() {
                    assert(crate::trie_laws::is_fraction(all[j]));
                }
            }
        }
        Ok(results)
    }

    /// The number of stored patterns.
    pub fn total_patterns(&self) -> (n: u64)
        ensures
            n == self@.total_patterns,
    {
        self.total_patterns
    }

    /// The count of the root: how many patterns passed through it.
    pub fn root_count(&self) -> (n: u32)
        ensures
            n == self@.tree.count,
    {
        self.root.count
    }

    /// A copy of the branch of a scale, if there is one.
    pub fn get_scale_branch(&self, scale_name: &str) -> (r: Option<TrieNode>)
        ensures
            r is Some <==> self@.branches.dom().contains(scale_name@),
            r matches Some(node) ==> node@ == self@.branches[scale_name@],
    {
        match branches_peek(&self.scale_branches, scale_name) {
            Some(node) => Some(node.clone()),
            None => None,
        }
    }

    /// Sets the branch of a scale, in place of the branch that the scale
    /// had before, if any.
    pub fn add_scale_branch(&mut self, scale_name: String, branch: TrieNode)
        requires
            old(self)@.well_formed(),
            branch@.rankable(),
        ensures
            final(self)@.tree == old(self)@.tree,
            final(self)@.total_patterns == old(self)@.total_patterns,
            final(self)@.branches == old(self)@.branches.insert(scale_name@, branch@),
            final(self)@.well_formed(),
    {
        let ghost name = scale_name@;
        branches_insert(&mut self.scale_branches, scale_name, branch);
        assert(self@.branches =~= old(self)@.branches.insert(name, branch@));
    }

    /// Recomputes every rank, in the tree and in each branch.
    pub fn calculate_all_ranks(&mut self)
        requires
            old(self)@.well_formed(),
        ensures
            final(self)@ == (TrieModel {
                tree: old(self)@.tree.ranked(),
                branches: old(self)@.ranked_branches(),
                ..old(self)@
            }),
            final(self)@.well_formed(),
    {
        proof {
            lemma_well_formed_rankable(self.root);
        }
        self.root.calculate_ranks();
        let ghost before = old(self)@.branches;
        let names = branches_names(&self.scale_branches);
        let ghost all = texts(names@);
        let n = names.len();
        let mut i: usize = 0;
        while i < n
            invariant
                i <= n,
                n == names@.len(),
                all == texts(names@),
                all.no_duplicates(),
                all.to_set() == before.dom(),
                before == old(self)@.branches,
                self@.tree == old(self)@.tree.ranked(),
                self@.total_patterns == old(self)@.total_patterns,
                forall|name: Seq<char>|
                    before.dom().contains(name) ==> (#[trigger] before[name]).rankable(),
                self@.branches.dom() == before.dom(),
                forall|k: int| 0 <= k < i ==> self@.branches[#[trigger] all[k]] == before[all[k]].ranked(),
                forall|k: int| i <= k < n ==> self@.branches[#[trigger] all[k]] == before[all[k]],
            decreases n - i,
        {
            let ghost name = all[i as int];
            let ghost held = self@.branches;
            assert(all.to_set().contains(name));
            match branches_remove(&mut self.scale_branches, names[i].as_str()) {
                Some(node) => {
                    let mut node = node;
                    assert(node@ == before[name]);
                    node.calculate_ranks();
                    branches_insert(&mut self.scale_branches, names[i].clone(), node);
                    assert(self@.branches =~= held.insert(name, before[name].ranked()));
                },
                None => {},
            }
            assert forall|k: int| i < k < n implies self@.branches[#[trigger] all[k]] == before[all[k]] by {
                assert(all[k] != all[i as int]);
            }
            assert forall|k: int| 0 <= k < i implies self@.branches[#[trigger] all[k]] == before[all[k]].ranked() by {
                assert(all[k] != all[i as int]);
            }
            i = i + 1;
        }
        proof {
            assert forall|name: Seq<char>| before.dom().contains(name) implies self@.branches[name]
                == before[name].ranked() by {
                assert(all.to_set().contains(name));
                let k = choose|k: int| 0 <= k < all.len() && all[k] == name;
                assert(self@.branches[all[k]] == before[all[k]].ranked());
            }
            assert(self@.branches =~= old(self)@.ranked_branches());
            crate::trie_laws::lemma_ranked_well_formed(old(self)@.tree);
            assert forall|name: Seq<char>| self@.branches.dom().contains(name) implies (
            #[trigger] self@.branches[name]).rankable() by {
                crate::trie_laws::lemma_ranked_well_formed(before[name]);
            }
        }
    }
}

/// Edges per node of a tree with `nodes` nodes, in millionths: a tree has one
/// edge fewer than it has nodes.
pub open spec fn branching_of(nodes: u64) -> int {
    if nodes == 0 {
        0
    } else {
        ((nodes - 1) * (SCALE as int)) / (nodes as int)
    }
}

/// The estimated size of the branches under the first `upto` names in bytes.
pub open spec fn listed_bytes(branches: Map<Seq<char>, NodeModel>, names: Seq<Seq<char>>, upto: nat) -> nat
    decreases upto,
{
    if upto == 0 || upto > names.len() {
        0
    } else {
        listed_bytes(branches, names, (upto - 1) as nat) + tree_bytes(branches[names[upto - 1]])
    }
}

/// The estimated size of all branches in bytes.
pub open spec fn branch_bytes(branches: Map<Seq<char>, NodeModel>) -> nat {
    branches.dom().fold(0nat, |sum: nat, name: Seq<char>| sum + tree_bytes(branches[name]))
}

/// The size of all branches is the size of the branches under their names,
/// in whatever order the names come.
pub proof fn lemma_branch_bytes(branches: Map<Seq<char>, NodeModel>, names: Seq<Seq<char>>, upto: nat)
    requires
        names.no_duplicates(),
        upto <= names.len(),
    ensures
        names.subrange(0, upto as int).to_set().finite(),
        names.subrange(0, upto as int).to_set().fold(
            0nat,
            |sum: nat, name: Seq<char>| sum + tree_bytes(branches[name]),
        ) == listed_bytes(branches, names, upto),
    decreases upto,
{
    let f = |sum: nat, name: Seq<char>| sum + tree_bytes(branches[name]);
    assert(vstd::set::fold::is_fun_commutative(f));
    if upto == 0 {
        assert(names.subrange(0, 0).to_set() =~= Set::<Seq<char>>::empty());
        vstd::set::fold::lemma_fold_empty(0nat, f);
    } else {
        lemma_branch_bytes(branches, names, (upto - 1) as nat);
        let part = names.subrange(0, upto - 1);
        let whole = names.subrange(0, upto as int);
        let before = part.to_set();
        let name = names[upto - 1];
        assert(!before.contains(name)) by {
            if before.contains(name) {
                let k = choose|k: int| 0 <= k < part.len() && part[k] == name;
                assert(names[k] == names[upto - 1]);
            }
        }
        assert(whole.to_set() =~= before.insert(name)) by {
            assert forall|x: Seq<char>| whole.to_set().contains(x) == before.insert(name).contains(
                x,
            ) by {
                if whole.to_set().contains(x) {
                    let k = choose|k: int| 0 <= k < whole.len() && whole[k] == x;
                    if k < upto - 1 {
                        assert(part[k] == x);
                    }
                }
                if before.contains(x) {
                    let k = choose|k: int| 0 <= k < part.len() && part[k] == x;
                    assert(whole[k] == x);
                }
                if x == name {
                    assert(whole[upto - 1] == x);
                }
            }
        }
        vstd::set::fold::lemma_fold_insert(before, 0nat, f, name);
    }
}

impl TrieModel {
    /// The estimated size of the store in bytes: the tree and every branch.
    pub open spec fn bytes(self) -> nat {
        tree_bytes(self.tree) + branch_bytes(self.branches)
    }
}

/// Edges per node of a tree with `nodes` nodes.
fn branching_factor(nodes: u64) -> (f: Fixed)
    ensures
        f.value() == branching_of(nodes),
        0 <= f.value() <= SCALE,
{
    if nodes == 0 {
        return Fixed { micros: 0 };
    }
    let edges: u128 = (nodes - 1) as u128;
    let scaled: u128 = edges * 1_000_000;
    let q: u128 = scaled / (nodes as u128);
    proof {
        lemma_ratio_bound(edges as int, nodes as int);
    }
    Fixed { micros: q as i64 }
}

impl ChordProgressionTrie {
    /// The estimated size of the store in bytes, as far as 64 bits hold it.
    pub fn memory_usage(&self) -> (r: u64)
        ensures
            r == capped(self@.bytes()),
    {
        let mut total: u64 = self.root.memory_usage();
        let names = branches_names(&self.scale_branches);
        let ghost all = texts(names@);
        let mut i: usize = 0;
        while i < names.len()
            invariant
                i <= names@.len(),
                all == texts(names@),
                all.to_set() == self@.branches.dom(),
                total == capped(tree_bytes(self@.tree) + listed_bytes(self@.branches, all, i as nat)),
            decreases names@.len() - i,
        {
            assert(all.to_set().contains(all[i as int]));
            match branches_peek(&self.scale_branches, names[i].as_str()) {
                Some(node) => {
                    let b = node.memory_usage();
                    total = total.saturating_add(b);
                },
                None => {},
            }
            i = i + 1;
        }
        proof {
            lemma_branch_bytes(self@.branches, all, all.len());
            assert(all.subrange(0, all.len() as int) =~= all);
        }
        total
    }

    /// The figures of the store: the patterns stored, the nodes of the tree,
    /// the estimated size, the number of branches, the depth of the tree and
    /// the edges per node.
    pub fn statistics(&self) -> (s: TrieStatistics)
        ensures
            s.total_patterns == self@.total_patterns,
            s.total_nodes == capped(node_total(self@.tree)),
            s.memory_usage_bytes == capped(self@.bytes()),
            s.scale_branches == self@.branches.dom().len(),
            s.max_depth == capped_32(tree_depth(self@.tree)),
            s.avg_branching_factor.value() == branching_of(capped(node_total(self@.tree))),
    {
        let total_nodes = self.root.count_nodes();
        assert(self@.branches.dom() =~= branch_items(self.scale_branches).dom());
        TrieStatistics {
            total_patterns: self.total_patterns,
            total_nodes,
            memory_usage_bytes: self.memory_usage(),
            scale_branches: branches_len(&self.scale_branches),
            max_depth: self.root.max_depth(),
            avg_branching_factor: branching_factor(total_nodes),
        }
    }
}

impl Default for ChordProgressionTrie {
    fn default() -> (t: Self)
        ensures
            t@.tree == NodeModel::empty(false),
            t@.total_patterns == 0,
            t@.well_formed(),
    {
        ChordProgressionTrie::new()
    }
}

} // verus!
