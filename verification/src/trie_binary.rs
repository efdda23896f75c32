//! The binary form of a stored tree, for loading and saving in bulk.
//!
//! A node is written as its count, the number of its ids and the ids, the
//! number of its children and the children; a child is written as the length
//! of its subtree, its five-byte key and its subtree. Every number takes four
//! bytes, highest first. A file with key tonics holds six bytes for each id,
//! of which the first four are the id.

use vstd::prelude::*;
use crate::error::{SerializationError, SerializationResult};
use crate::trie::{rank_of, before_count};

verus! {

/// A child as it stands in the binary form.
#[derive(Debug, PartialEq, Eq)]
pub struct ChildNodeEntry {
    /// The length of the subtree in bytes.
    pub data_length: u32,
    /// The five-byte key of the chord.
    pub key: Vec<u8>,
    /// The bytes of the subtree.
    pub node_data: Vec<u8>,
}

/// A child of a node: a key, and the subtree below it.
#[derive(Debug)]
pub struct TrieChild {
    pub key: Vec<u8>,
    pub node: TrieNode,
}

/// A node of a tree that is loaded or saved.
#[derive(Debug)]
pub struct TrieNode {
    /// How many patterns end at this node.
    pub node_count: u32,
    /// The ids of the patterns that end at this node.
    pub id_list: Vec<u32>,
    /// The children, with distinct keys, in the order in which they appeared.
    pub children: Vec<TrieChild>,
}

/// A child as a mathematical value.
pub struct ChildModel {
    pub key: Seq<u8>,
    pub node: TreeModel,
}

/// A node as a mathematical value.
pub struct TreeModel {
    pub count: u32,
    pub ids: Seq<u32>,
    pub children: Seq<ChildModel>,
}

/// The model of a node.
pub open spec fn tree_model(n: TrieNode) -> TreeModel
    decreases n,
{
    TreeModel {
        count: n.node_count,
        ids: n.id_list@,
        children: child_models(n.children@, n.children@.len()),
    }
}

/// The models of the first `upto` children.
pub open spec fn child_models(children: Seq<TrieChild>, upto: nat) -> Seq<ChildModel>
    decreases children, upto,
{
    if upto == 0 || upto > children.len() {
        Seq::empty()
    } else {
        child_models(children, (upto - 1) as nat).push(
            ChildModel { key: children[upto - 1].key@, node: tree_model(children[upto - 1].node) },
        )
    }
}

impl View for TrieNode {
    type V = TreeModel;

    open spec fn view(&self) -> TreeModel {
        tree_model(*self)
    }
}

impl View for TrieChild {
    type V = ChildModel;

    open spec fn view(&self) -> ChildModel {
        ChildModel { key: self.key@, node: tree_model(self.node) }
    }
}

/// The child models are the models of the children, one by one.
pub proof fn lemma_child_models(children: Seq<TrieChild>, upto: nat)
    requires
        upto <= children.len(),
    ensures
        child_models(children, upto).len() == upto,
        forall|i: int| 0 <= i < upto ==> #[trigger] child_models(children, upto)[i] == children[i]@,
    decreases upto,
{
    if upto > 0 {
        lemma_child_models(children, (upto - 1) as nat);
    }
}

/// The children of a node's model are the models of the node's children.
pub proof fn lemma_tree_children(n: TrieNode)
    ensures
        n@.children.len() == n.children@.len(),
        forall|i: int| 0 <= i < n.children@.len() ==> #[trigger] n@.children[i] == n.children@[i]@,
{
    lemma_child_models(n.children@, n.children@.len());
}

/// The index from `from` on of the first child with this key, or the number
/// of children.
pub open spec fn child_at(children: Seq<ChildModel>, key: Seq<u8>, from: int) -> int
    decreases children.len() - from,
{
    if from < 0 || from >= children.len() {
        children.len() as int
    } else if children[from].key == key {
        from
    } else {
        child_at(children, key, from + 1)
    }
}

/// The children with `node` under `key`: in place of the child with that
/// key, or behind the others where there is none.
pub open spec fn with_child(children: Seq<ChildModel>, key: Seq<u8>, node: TreeModel) -> Seq<
    ChildModel,
> {
    let i = child_at(children, key, 0);
    if i < children.len() {
        children.update(i, ChildModel { key, node })
    } else {
        children.push(ChildModel { key, node })
    }
}

impl TreeModel {
    /// A node without ids and children.
    pub open spec fn empty() -> TreeModel {
        TreeModel { count: 0, ids: Seq::empty(), children: Seq::empty() }
    }

    /// The node that a path of keys leads to, if there is one.
    pub open spec fn node_at(self, path: Seq<Seq<u8>>, at: int) -> Option<TreeModel>
        decreases path.len() - at,
    {
        if at < 0 || at >= path.len() {
            Some(self)
        } else {
            let i = child_at(self.children, path[at], 0);
            if 0 <= i < self.children.len() {
                self.children[i].node.node_at(path, at + 1)
            } else {
                None
            }
        }
    }

    /// The tree after the pattern `path[at..]` has been added with an id:
    /// the node at the end of the path, made where it is missing, has the id
    /// appended and its count raised by one.
    pub open spec fn added(self, path: Seq<Seq<u8>>, at: int, id: u32) -> TreeModel
        decreases path.len() - at,
    {
        if at < 0 || at >= path.len() {
            TreeModel { count: (self.count + 1) as u32, ids: self.ids.push(id), ..self }
        } else {
            let i = child_at(self.children, path[at], 0);
            let below = if 0 <= i < self.children.len() {
                self.children[i].node
            } else {
                TreeModel::empty()
            };
            TreeModel {
                children: with_child(self.children, path[at], below.added(path, at + 1, id)),
                ..self
            }
        }
    }

    /// The count of the node at the end of a path; 0 where the path leaves
    /// the tree.
    pub open spec fn count_at(self, path: Seq<Seq<u8>>, at: int) -> u32 {
        match self.node_at(path, at) {
            Some(n) => n.count,
            None => 0,
        }
    }

    /// The ids of the patterns that end at the end of a path; none where the
    /// path leaves the tree.
    pub open spec fn ids_at(self, path: Seq<Seq<u8>>, at: int) -> Seq<u32> {
        match self.node_at(path, at) {
            Some(n) => n.ids,
            None => Seq::empty(),
        }
    }
}

/// The keys of a pattern, each as a sequence of bytes.
pub open spec fn path_of(pattern: Seq<Vec<u8>>) -> Seq<Seq<u8>> {
    Seq::new(pattern.len(), |i: int| pattern[i]@)
}

/// Whether two keys hold the same bytes.
fn same_bytes(a: &Vec<u8>, b: &Vec<u8>) -> (r: bool)
    ensures
        r == (a@ == b@),
{
    if a.len() != b.len() {
        return false;
    }
    let mut i: usize = 0;
    while i < a.len()
        invariant
            i <= a@.len(),
            a@.len() == b@.len(),
            forall|j: int| 0 <= j < i ==> a@[j] == b@[j],
        decreases a@.len() - i,
    {
        if a[i] != b[i] {
            return false;
        }
        i = i + 1;
    }
    assert(a@ =~= b@);
    true
}

/// The index of the child with this key.
fn find_child(node: &TrieNode, key: &Vec<u8>) -> (r: usize)
    ensures
        r == child_at(node@.children, key@, 0),
        r <= node.children@.len(),
{
    proof {
        lemma_tree_children(*node);
    }
    let mut i: usize = 0;
    while i < node.children.len()
        invariant
            i <= node.children@.len(),
            node@.children.len() == node.children@.len(),
            forall|k: int|
                0 <= k < node.children@.len() ==> #[trigger] node@.children[k]
                    == node.children@[k]@,
            child_at(node@.children, key@, 0) == child_at(node@.children, key@, i as int),
        decreases node.children@.len() - i,
    {
        if same_bytes(&node.children[i].key, key) {
            assert(node@.children[i as int].key == key@);
            return i;
        }
        assert(node@.children[i as int].key != key@);
        i = i + 1;
    }
    i
}

/// A copy of a list of bytes.
fn copy_bytes(v: &Vec<u8>) -> (r: Vec<u8>)
    ensures
        r@ == v@,
{
    let mut r: Vec<u8> = Vec::new();
    let mut i: usize = 0;
    while i < v.len()
        invariant
            i <= v@.len(),
            r@ == v@.subrange(0, i as int),
        decreases v@.len() - i,
    {
        r.push(v[i]);
        i = i + 1;
        assert(r@ =~= v@.subrange(0, i as int));
    }
    assert(v@.subrange(0, v@.len() as int) =~= v@);
    r
}

/// A copy of a list of ids.
fn copy_ids(v: &Vec<u32>) -> (r: Vec<u32>)
    ensures
        r@ == v@,
{
    let mut r: Vec<u32> = Vec::new();
    let mut i: usize = 0;
    while i < v.len()
        invariant
            i <= v@.len(),
            r@ == v@.subrange(0, i as int),
        decreases v@.len() - i,
    {
        r.push(v[i]);
        i = i + 1;
        assert(r@ =~= v@.subrange(0, i as int));
    }
    assert(v@.subrange(0, v@.len() as int) =~= v@);
    r
}

impl TrieNode {
    /// A node without ids and children.
    pub fn new() -> (n: Self)
        ensures
            n@ == TreeModel::empty(),
    {
        let n = TrieNode { node_count: 0, id_list: Vec::new(), children: Vec::new() };
        assert(n@.children =~= Seq::<ChildModel>::empty());
        n
    }

    /// Whether the node has a child under this key.
    pub fn has_child(&self, key: &Vec<u8>) -> (b: bool)
        ensures
            b == (child_at(self@.children, key@, 0) < self@.children.len()),
    {
        proof {
            lemma_tree_children(*self);
        }
        find_child(self, key) < self.children.len()
    }

    /// Adds a pattern with an id: the node at the end of the pattern, made
    /// where it is missing, gets the id and counts one more.
    pub fn add_pattern(&mut self, pattern: &[Vec<u8>], id: u32)
        requires
            old(self)@.count_at(path_of(pattern@), 0) < u32::MAX,
        ensures
            final(self)@ == old(self)@.added(path_of(pattern@), 0, id),
    {
        self.add_from(pattern, 0, id);
    }

    /// Adds the pattern `pattern[at..]` below this node.
    fn add_from(&mut self, pattern: &[Vec<u8>], at: usize, id: u32)
        requires
            at <= pattern@.len(),
            old(self)@.count_at(path_of(pattern@), at as int) < u32::MAX,
        ensures
            final(self)@ == old(self)@.added(path_of(pattern@), at as int, id),
        decreases pattern@.len() - at,
    {
        let ghost before = self@;
        let ghost path = path_of(pattern@);
        proof {
            lemma_tree_children(*self);
        }
        if at >= pattern.len() {
            self.id_list.push(id);
            self.node_count = self.node_count + 1;
            assert(self@.children == before.children);
            return ;
        }
        let key = &pattern[at];
        assert(path[at as int] == key@);
        let i = find_child(self, key);
        let ghost old_children = self.children@;
        if i < self.children.len() {
            assert(before.children[i as int] == old_children[i as int]@);
            assert(before.children[i as int].key == key@) by {
                lemma_child_at(before.children, key@, 0);
            }
            self.children[i].node.add_from(pattern, at + 1, id);
            proof {
                lemma_tree_children(*self);
                let expected = before.added(path, at as int, id);
                assert(self.children@.len() == old_children.len());
                assert(self.children@[i as int].key == old_children[i as int].key);
                assert forall|k: int| 0 <= k < self@.children.len() implies self@.children[k]
                    == expected.children[k] by {
                    if k != i {
                        assert(self.children@[k] == old_children[k]);
                        assert(before.children[k] == old_children[k]@);
                    }
                }
                assert(self@.children =~= expected.children);
            }
        } else {
            let mut child = TrieNode::new();
            child.add_from(pattern, at + 1, id);
            self.children.push(TrieChild { key: copy_bytes(key), node: child });
            proof {
                lemma_tree_children(*self);
                let expected = before.added(path, at as int, id);
                assert forall|k: int| 0 <= k < self@.children.len() implies self@.children[k]
                    == expected.children[k] by {
                    if k < old_children.len() {
                        assert(self.children@[k] == old_children[k]);
                    }
                }
                assert(self@.children =~= expected.children);
            }
        }
    }

    /// The ids of the patterns that end at the end of the given pattern.
    pub fn search_patterns(&self, pattern: &[Vec<u8>]) -> (ids: Vec<u32>)
        ensures
            ids@ == self@.ids_at(path_of(pattern@), 0),
    {
        self.search_from(pattern, 0)
    }

    /// The ids of the patterns that end at the end of `pattern[at..]`.
    fn search_from(&self, pattern: &[Vec<u8>], at: usize) -> (ids: Vec<u32>)
        requires
            at <= pattern@.len(),
        ensures
            ids@ == self@.ids_at(path_of(pattern@), at as int),
        decreases pattern@.len() - at,
    {
        proof {
            lemma_tree_children(*self);
        }
        if at >= pattern.len() {
            return copy_ids(&self.id_list);
        }
        let key = &pattern[at];
        assert(path_of(pattern@)[at as int] == key@);
        let i = find_child(self, key);
        if i < self.children.len() {
            self.children[i].node.search_from(pattern, at + 1)
        } else {
            Vec::new()
        }
    }

    /// The rank of the node among `total_nodes` nodes: the nodes that are
    /// left when its own count is taken away, but at least 1; 0 where there
    /// are no nodes.
    pub fn calculate_rank(&self, total_nodes: u32) -> (r: u32)
        ensures
            r == if total_nodes == 0 {
                0
            } else if total_nodes > self.node_count + 1 {
                total_nodes - self.node_count
            } else {
                1
            },
    {
        if total_nodes == 0 {
            return 0;
        }
        let left = if total_nodes > self.node_count {
            total_nodes - self.node_count
        } else {
            0
        };
        if left > 1 {
            left
        } else {
            1
        }
    }
}

impl Default for TrieNode {
    fn default() -> (n: Self)
        ensures
            n@ == TreeModel::empty(),
    {
        TrieNode::new()
    }
}

/// What `child_at` finds is the first child with the key.
pub proof fn lemma_child_at(children: Seq<ChildModel>, key: Seq<u8>, from: int)
    requires
        0 <= from <= children.len(),
    ensures
        from <= child_at(children, key, from) <= children.len(),
        child_at(children, key, from) < children.len() ==> children[child_at(
            children,
            key,
            from,
        )].key == key,
        forall|j: int| from <= j < child_at(children, key, from) ==> children[j].key != key,
    decreases children.len() - from,
{
    if from < children.len() && children[from].key != key {
        lemma_child_at(children, key, from + 1);
    }
}

/// The four bytes of a number, highest first.
pub open spec fn be32(v: u32) -> Seq<u8> {
    seq![
        (v / 0x100_0000) as u8,
        ((v / 0x1_0000) % 0x100) as u8,
        ((v / 0x100) % 0x100) as u8,
        (v % 0x100) as u8,
    ]
}

/// The number that the four bytes from `at` on spell, highest first.
pub open spec fn be32_at(data: Seq<u8>, at: int) -> u32 {
    (data[at] * 0x100_0000 + data[at + 1] * 0x1_0000 + data[at + 2] * 0x100 + data[at + 3]) as u32
}

/// The first `upto` ids, four bytes each.
pub open spec fn ids_encoded(ids: Seq<u32>, upto: nat) -> Seq<u8>
    decreases upto,
{
    if upto == 0 || upto > ids.len() {
        Seq::empty()
    } else {
        ids_encoded(ids, (upto - 1) as nat) + be32(ids[upto - 1])
    }
}

/// The binary form of a node: its count, the number of its ids and the ids,
/// the number of its children and the children.
pub open spec fn node_encoded(m: TreeModel) -> Seq<u8>
    decreases m,
{
    be32(m.count) + be32(m.ids.len() as u32) + ids_encoded(m.ids, m.ids.len()) + be32(
        m.children.len() as u32,
    ) + children_encoded(m.children, m.children.len())
}

/// The binary form of the first `upto` children: for each the length of its
/// subtree, its key and its subtree.
pub open spec fn children_encoded(children: Seq<ChildModel>, upto: nat) -> Seq<u8>
    decreases children, upto,
{
    if upto == 0 || upto > children.len() {
        Seq::empty()
    } else {
        children_encoded(children, (upto - 1) as nat) + be32(
            node_encoded(children[upto - 1].node).len() as u32,
        ) + children[upto - 1].key + node_encoded(children[upto - 1].node)
    }
}

/// Whether a tree has a binary form: every key has five bytes, and every
/// number of ids, number of children and length of a subtree fits in four
/// bytes.
pub open spec fn savable(m: TreeModel) -> bool
    decreases m,
{
    &&& m.ids.len() <= u32::MAX
    &&& m.children.len() <= u32::MAX
    &&& forall|i: int|
        0 <= i < m.children.len() ==> {
            &&& (#[trigger] m.children[i]).key.len() == 5
            &&& node_encoded(m.children[i].node).len() <= u32::MAX
            &&& savable(m.children[i].node)
        }
}

/// Appends the four bytes of a number, highest first.
pub fn write_u32_be(buffer: &mut Vec<u8>, value: u32)
    ensures
        final(buffer)@ == old(buffer)@ + be32(value),
{
    let ghost before = buffer@;
    buffer.push((value / 0x100_0000) as u8);
    buffer.push(((value / 0x1_0000) % 0x100) as u8);
    buffer.push(((value / 0x100) % 0x100) as u8);
    buffer.push((value % 0x100) as u8);
    assert(buffer@ =~= before + be32(value));
}

/// Reads the number that the four bytes from the offset on spell, and moves
/// the offset behind them. Where fewer than four bytes are left the end of
/// the data is reported and the offset stays.
pub fn read_u32_be(data: &[u8], offset: &mut usize) -> (r: SerializationResult<u32>)
    ensures
        r is Ok <==> *old(offset) + 4 <= data@.len(),
        r matches Ok(v) ==> v == be32_at(data@, *old(offset) as int) && *final(offset) == *old(offset) + 4,
        r matches Err(e) ==> e == SerializationError::UnexpectedEof && *final(offset) == *old(offset),
{
    let at = *offset;
    if at > data.len() || data.len() - at < 4 {
        return Err(SerializationError::UnexpectedEof);
    }
    let value: u32 = (data[at] as u32) * 0x100_0000 + (data[at + 1] as u32) * 0x1_0000 + (data[at
        + 2] as u32) * 0x100 + (data[at + 3] as u32);
    *offset = at + 4;
    Ok(value)
}

/// Reads `count` bytes from the offset on, and moves the offset behind them.
/// Where fewer bytes are left the end of the data is reported and the offset
/// stays.
pub fn read_bytes(data: &[u8], offset: &mut usize, count: usize) -> (r: SerializationResult<
    Vec<u8>,
>)
    ensures
        r is Ok <==> *old(offset) + count <= data@.len(),
        r matches Ok(v) ==> v@ == data@.subrange(*old(offset) as int, *old(offset) + count)
            && *final(offset) == *old(offset) + count,
        r matches Err(e) ==> e == SerializationError::UnexpectedEof && *final(offset) == *old(offset),
{
    let at = *offset;
    if at > data.len() || data.len() - at < count {
        return Err(SerializationError::UnexpectedEof);
    }
    let mut v: Vec<u8> = Vec::new();
    let length = data.len();
    let mut i: usize = 0;
    while i < count
        invariant
            i <= count,
            at + count <= data@.len(),
            length == data@.len(),
            v@ == data@.subrange(at as int, at + i),
        decreases count - i,
    {
        v.push(data[at + i]);
        i = i + 1;
        assert(v@ =~= data@.subrange(at as int, at + i));
    }
    *offset = at + count;
    Ok(v)
}

/// Whether the data can hold a node at all: the three numbers of a node
/// take twelve bytes.
pub fn validate_binary_format(data: &[u8]) -> (b: bool)
    ensures
        b == (data@.len() >= 12),
{
    if data.len() < 12 {
        return false;
    }
    let mut offset: usize = 0;
    match read_u32_be(data, &mut offset) {
        Ok(_) => true,
        Err(_) => false,
    }
}

/// The binary form of a tree. A tree is refused as badly formed where a key
/// has not five bytes, and as overflowing where a number does not fit in
/// four bytes.
pub fn serialize_trie(trie: &TrieNode) -> (r: SerializationResult<Vec<u8>>)
    ensures
        r is Ok <==> savable(trie@),
        r matches Ok(bytes) ==> bytes@ == node_encoded(trie@),
        r matches Err(e) ==> e is InvalidFormat || e is BufferOverflow,
{
    let mut buffer: Vec<u8> = Vec::new();
    match serialize_node_recursive(trie, &mut buffer) {
        Ok(()) => {
            assert(buffer@ =~= node_encoded(trie@));
            Ok(buffer)
        },
        Err(e) => Err(e),
    }
}

/// Appends the binary form of a node to the buffer.
fn serialize_node_recursive(node: &TrieNode, buffer: &mut Vec<u8>) -> (r: SerializationResult<()>)
    ensures
        r is Ok <==> savable(node@),
        r is Ok ==> final(buffer)@ == old(buffer)@ + node_encoded(node@),
        r matches Err(e) ==> e is InvalidFormat || e is BufferOverflow,
    decreases node,
{
    let ghost start = buffer@;
    let ghost m = node@;
    proof {
        lemma_tree_children(*node);
    }
    if node.id_list.len() > u32::MAX as usize || node.children.len() > u32::MAX as usize {
        return Err(SerializationError::BufferOverflow);
    }
    write_u32_be(buffer, node.node_count);
    write_u32_be(buffer, node.id_list.len() as u32);
    let mut i: usize = 0;
    while i < node.id_list.len()
        invariant
            i <= node.id_list@.len(),
            m == node@,
            buffer@ == start + be32(m.count) + be32(m.ids.len() as u32) + ids_encoded(
                m.ids,
                i as nat,
            ),
        decreases node.id_list@.len() - i,
    {
        write_u32_be(buffer, node.id_list[i]);
        i = i + 1;
        assert(buffer@ =~= start + be32(m.count) + be32(m.ids.len() as u32) + ids_encoded(
            m.ids,
            i as nat,
        ));
    }
    write_u32_be(buffer, node.children.len() as u32);
    let ghost head = start + be32(m.count) + be32(m.ids.len() as u32) + ids_encoded(
        m.ids,
        m.ids.len(),
    ) + be32(m.children.len() as u32);
    assert(buffer@ =~= head);
    let mut k: usize = 0;
    while k < node.children.len()
        invariant
            k <= node.children@.len(),
            m == node@,
            m.ids.len() <= u32::MAX,
            m.children.len() <= u32::MAX,
            m.children.len() == node.children@.len(),
            forall|j: int|
                0 <= j < node.children@.len() ==> #[trigger] m.children[j] == node.children@[j]@,
            forall|j: int|
                0 <= j < k ==> {
                    &&& (#[trigger] m.children[j]).key.len() == 5
                    &&& node_encoded(m.children[j].node).len() <= u32::MAX
                    &&& savable(m.children[j].node)
                },
            buffer@ == head + children_encoded(m.children, k as nat),
        decreases node.children@.len() - k,
    {
        let child = &node.children[k];
        assert(m.children[k as int] == child@);
        if child.key.len() != 5 {
            return Err(
                SerializationError::InvalidFormat {
                    message: String::from_str("Chord key must be exactly 5 bytes"),
                },
            );
        }
        let mut below: Vec<u8> = Vec::new();
        match serialize_node_recursive(&child.node, &mut below) {
            Ok(()) => {},
            Err(e) => {
                return Err(e);
            },
        }
        assert(below@ =~= node_encoded(child.node@));
        if below.len() > u32::MAX as usize {
            return Err(SerializationError::BufferOverflow);
        }
        write_u32_be(buffer, below.len() as u32);
        let mut b: usize = 0;
        let ghost with_length = buffer@;
        while b < 5
            invariant
                b <= 5,
                child.key@.len() == 5,
                buffer@ == with_length + child.key@.subrange(0, b as int),
            decreases 5 - b,
        {
            buffer.push(child.key[b]);
            b = b + 1;
            assert(buffer@ =~= with_length + child.key@.subrange(0, b as int));
        }
        assert(child.key@.subrange(0, 5) =~= child.key@);
        let ghost with_key = buffer@;
        let mut c: usize = 0;
        while c < below.len()
            invariant
                c <= below@.len(),
                buffer@ == with_key + below@.subrange(0, c as int),
            decreases below@.len() - c,
        {
            buffer.push(below[c]);
            c = c + 1;
            assert(buffer@ =~= with_key + below@.subrange(0, c as int));
        }
        assert(below@.subrange(0, below@.len() as int) =~= below@);
        k = k + 1;
        assert(buffer@ =~= head + children_encoded(m.children, k as nat));
    }
    assert(buffer@ =~= start + node_encoded(m));
    Ok(())
}

/// The width of an id in the binary form: six bytes with key tonics, else four.
pub open spec fn id_width(include_key_tonic: bool) -> int {
    if include_key_tonic {
        6
    } else {
        4
    }
}

/// The `n` ids that stand from `at` on, each in the first four of `width`
/// bytes, and the offset behind them; `None` where the data ends first.
pub open spec fn ids_parsed(data: Seq<u8>, at: int, n: nat, width: int) -> Option<(Seq<u32>, int)>
    decreases n,
{
    if n == 0 {
        Some((Seq::empty(), at))
    } else {
        match ids_parsed(data, at, (n - 1) as nat, width) {
            None => None,
            Some((ids, next)) => if next + width <= data.len() {
                Some((ids.push(be32_at(data, next)), next + width))
            } else {
                None
            },
        }
    }
}

/// The node that stands from `at` on, and the offset behind it; `None`
/// where the data ends first.
pub open spec fn node_parsed(data: Seq<u8>, at: int, include_key_tonic: bool) -> Option<
    (TreeModel, int),
>
    decreases data.len() - at, 1nat, 0nat,
{
    if at < 0 || at + 8 > data.len() {
        None
    } else {
        match ids_parsed(
            data,
            at + 8,
            be32_at(data, at + 4) as nat,
            id_width(include_key_tonic),
        ) {
            None => None,
            Some((ids, behind_ids)) => if behind_ids < at + 8 || behind_ids + 4 > data.len() {
                None
            } else {
                match children_parsed(
                    data,
                    behind_ids + 4,
                    be32_at(data, behind_ids) as nat,
                    include_key_tonic,
                ) {
                    None => None,
                    Some((children, end)) => Some(
                        (TreeModel { count: be32_at(data, at), ids, children }, end),
                    ),
                }
            },
        }
    }
}

/// The `n` children that stand from `at` on, and the offset behind them;
/// `None` where the data ends first. The length that stands before each key
/// is passed over. A child whose key stood before takes the place of the
/// earlier one.
pub open spec fn children_parsed(data: Seq<u8>, at: int, n: nat, include_key_tonic: bool) -> Option<
    (Seq<ChildModel>, int),
>
    decreases data.len() - at, 0nat, n,
{
    if n == 0 {
        Some((Seq::empty(), at))
    } else {
        match children_parsed(data, at, (n - 1) as nat, include_key_tonic) {
            None => None,
            Some((children, next)) => if next < at || next + 9 > data.len() {
                None
            } else {
                match node_parsed(data, next + 9, include_key_tonic) {
                    None => None,
                    Some((node, end)) => Some(
                        (with_child(children, data.subrange(next + 4, next + 9), node), end),
                    ),
                }
            },
        }
    }
}

/// The tree that the data spells from its first byte on.
pub open spec fn parsed_tree(data: Seq<u8>, include_key_tonic: bool) -> Option<TreeModel> {
    match node_parsed(data, 0, include_key_tonic) {
        Some((tree, _)) => Some(tree),
        None => None,
    }
}

/// The parsers never move backwards.
pub proof fn lemma_ids_parsed(data: Seq<u8>, at: int, n: nat, width: int)
    requires
        width >= 0,
    ensures
        ids_parsed(data, at, n, width) matches Some((ids, next)) ==> next == at + n * width
            && ids.len() == n,
    decreases n,
{
    if n > 0 {
        lemma_ids_parsed(data, at, (n - 1) as nat, width);
        assert(n * width == (n - 1) * width + width) by (nonlinear_arith);
    }
}

/// Puts a child under its key: in place of the child with that key, or
/// behind the others.
fn put_child(children: &mut Vec<TrieChild>, key: Vec<u8>, node: TrieNode)
    ensures
        child_models(final(children)@, final(children)@.len()) == with_child(
            child_models(old(children)@, old(children)@.len()),
            key@,
            node@,
        ),
{
    let ghost before = child_models(children@, children@.len());
    proof {
        lemma_child_models(children@, children@.len());
    }
    let mut i: usize = 0;
    while i < children.len()
        invariant
            i <= children@.len(),
            before == child_models(children@, children@.len()),
            before == child_models(old(children)@, old(children)@.len()),
            before.len() == children@.len(),
            forall|k: int| 0 <= k < children@.len() ==> #[trigger] before[k] == children@[k]@,
            child_at(before, key@, 0) == child_at(before, key@, i as int),
        decreases children@.len() - i,
    {
        if same_bytes(&children[i].key, &key) {
            assert(before[i as int].key == key@);
            assert(child_at(before, key@, i as int) == i);
            let ghost old_children = children@;
            children[i] = TrieChild { key, node };
            proof {
                lemma_child_models(children@, children@.len());
                let after = child_models(children@, children@.len());
                let expected = before.update(i as int, ChildModel { key: key@, node: node@ });
                assert(expected == with_child(before, key@, node@));
                assert forall|k: int| 0 <= k < after.len() implies after[k] == expected[k] by {
                    if k != i {
                        assert(children@[k] == old_children[k]);
                    }
                }
                assert(after =~= expected);
            }
            return ;
        }
        assert(before[i as int].key != key@);
        i = i + 1;
    }
    let ghost old_children = children@;
    children.push(TrieChild { key, node });
    proof {
        lemma_child_models(children@, children@.len());
        let after = child_models(children@, children@.len());
        let expected = before.push(ChildModel { key: key@, node: node@ });
        assert forall|k: int| 0 <= k < after.len() implies after[k] == expected[k] by {
            if k < old_children.len() {
                assert(children@[k] == old_children[k]);
            }
        }
        assert(after =~= expected);
    }
}

/// The tree that the data spells from its first byte on. Bytes behind the
/// tree are not looked at. The end of the data is reported where the data
/// ends before the tree does.
pub fn deserialize_trie(data: &[u8], include_key_tonic: bool) -> (r: SerializationResult<TrieNode>)
    ensures
        r is Ok <==> parsed_tree(data@, include_key_tonic) is Some,
        r matches Ok(tree) ==> Some(tree@) == parsed_tree(data@, include_key_tonic),
        r matches Err(e) ==> e == SerializationError::UnexpectedEof,
{
    let mut offset: usize = 0;
    deserialize_node_recursive(data, &mut offset, include_key_tonic)
}

/// The node that stands at the offset, with the offset moved behind it.
fn deserialize_node_recursive(data: &[u8], offset: &mut usize, include_key_tonic: bool) -> (r:
    SerializationResult<TrieNode>)
    ensures
        r is Ok <==> node_parsed(data@, *old(offset) as int, include_key_tonic) is Some,
        r matches Ok(node) ==> node_parsed(data@, *old(offset) as int, include_key_tonic) == Some(
            (node@, *final(offset) as int),
        ) && *old(offset) + 12 <= *final(offset) <= data@.len(),
        r matches Err(e) ==> e == SerializationError::UnexpectedEof,
    decreases data@.len() - *old(offset),
{
    let ghost start = *offset as int;
    let ghost width = id_width(include_key_tonic);
    let node_count = match read_u32_be(data, offset) {
        Ok(v) => v,
        Err(e) => {
            return Err(e);
        },
    };
    let id_count = match read_u32_be(data, offset) {
        Ok(v) => v,
        Err(e) => {
            return Err(e);
        },
    };
    let mut id_list: Vec<u32> = Vec::new();
    let mut i: u32 = 0;
    while i < id_count
        invariant
            i <= id_count,
            width == id_width(include_key_tonic),
            start == *old(offset),
            start + 8 <= data@.len(),
            id_count == be32_at(data@, start + 4),
            *offset <= data@.len(),
            ids_parsed(data@, start + 8, i as nat, width) == Some((id_list@, *offset as int)),
        decreases id_count - i,
    {
        let ghost at = *offset as int;
        let id = if include_key_tonic {
            match read_bytes(data, offset, 6) {
                Ok(six) => {
                    let v: u32 = (six[0] as u32) * 0x100_0000 + (six[1] as u32) * 0x1_0000 + (
                    six[2] as u32) * 0x100 + (six[3] as u32);
                    assert(v == be32_at(data@, at));
                    v
                },
                Err(e) => {
                    proof {
                        lemma_ids_fail(data@, start + 8, (i + 1) as nat, id_count as nat, width);
                    }
                    return Err(e);
                },
            }
        } else {
            match read_u32_be(data, offset) {
                Ok(v) => v,
                Err(e) => {
                    proof {
                        lemma_ids_fail(data@, start + 8, (i + 1) as nat, id_count as nat, width);
                    }
                    return Err(e);
                },
            }
        };
        id_list.push(id);
        i = i + 1;
    }
    proof {
        lemma_ids_parsed(data@, start + 8, id_count as nat, width);
        assert(0 <= id_count * width) by (nonlinear_arith)
            requires
                0 <= id_count,
                0 <= width,
        ;
    }
    let ghost behind_ids = *offset as int;
    let child_count = match read_u32_be(data, offset) {
        Ok(v) => v,
        Err(e) => {
            return Err(e);
        },
    };
    let mut children: Vec<TrieChild> = Vec::new();
    let mut k: u32 = 0;
    assert(child_models(children@, 0) =~= Seq::<ChildModel>::empty());
    while k < child_count
        invariant
            k <= child_count,
            width == id_width(include_key_tonic),
            start == *old(offset),
            start + 8 <= behind_ids,
            id_count == be32_at(data@, start + 4),
            ids_parsed(data@, start + 8, id_count as nat, width) == Some((id_list@, behind_ids)),
            child_count == be32_at(data@, behind_ids),
            behind_ids + 4 <= *offset <= data@.len(),
            children_parsed(data@, behind_ids + 4, k as nat, include_key_tonic) == Some(
                (child_models(children@, children@.len()), *offset as int),
            ),
        decreases child_count - k,
    {
        let ghost next = *offset as int;
        let _length = match read_u32_be(data, offset) {
            Ok(v) => v,
            Err(e) => {
                proof {
                    lemma_children_fail(
                        data@,
                        behind_ids + 4,
                        (k + 1) as nat,
                        child_count as nat,
                        include_key_tonic,
                    );
                }
                return Err(e);
            },
        };
        let key = match read_bytes(data, offset, 5) {
            Ok(v) => v,
            Err(e) => {
                proof {
                    lemma_children_fail(
                        data@,
                        behind_ids + 4,
                        (k + 1) as nat,
                        child_count as nat,
                        include_key_tonic,
                    );
                }
                return Err(e);
            },
        };
        let child = match deserialize_node_recursive(data, offset, include_key_tonic) {
            Ok(node) => node,
            Err(e) => {
                proof {
                    lemma_children_fail(
                        data@,
                        behind_ids + 4,
                        (k + 1) as nat,
                        child_count as nat,
                        include_key_tonic,
                    );
                }
                return Err(e);
            },
        };
        put_child(&mut children, key, child);
        k = k + 1;
    }
    let node = TrieNode { node_count, id_list, children };
    proof {
        lemma_tree_children(node);
        assert(node@.children =~= child_models(children@, children@.len()));
    }
    Ok(node)
}

/// Once the ids cannot be read, more ids cannot be read either.
proof fn lemma_ids_fail(data: Seq<u8>, at: int, failed: nat, n: nat, width: int)
    requires
        failed <= n,
        ids_parsed(data, at, failed, width) is None,
    ensures
        ids_parsed(data, at, n, width) is None,
    decreases n - failed,
{
    if failed < n {
        lemma_ids_fail(data, at, failed, (n - 1) as nat, width);
    }
}

/// Once the children cannot be read, more children cannot be read either.
proof fn lemma_children_fail(data: Seq<u8>, at: int, failed: nat, n: nat, tonic: bool)
    requires
        failed <= n,
        children_parsed(data, at, failed, tonic) is None,
    ensures
        children_parsed(data, at, n, tonic) is None,
    decreases n - failed,
{
    if failed < n {
        lemma_children_fail(data, at, failed, (n - 1) as nat, tonic);
    }
}

/// A chord of a vocabulary and how often it occurs.
pub struct VocabModel {
    pub chord: Seq<u8>,
    pub count: nat,
}

/// A chord of a vocabulary while it is counted.
struct VocabEntry {
    chord: Vec<u8>,
    count: usize,
}

/// The index from `from` on of the entry for this chord, or the number of entries.
pub open spec fn vocab_index(tally: Seq<VocabModel>, chord: Seq<u8>, from: int) -> int
    decreases tally.len() - from,
{
    if from < 0 || from >= tally.len() {
        tally.len() as int
    } else if tally[from].chord == chord {
        from
    } else {
        vocab_index(tally, chord, from + 1)
    }
}

/// The distinct chords among the first `upto` chords, in the order in which
/// they first occur, each with the number of its occurrences.
pub open spec fn tallied(chords: Seq<Seq<u8>>, upto: nat) -> Seq<VocabModel>
    decreases upto,
{
    if upto == 0 || upto > chords.len() {
        Seq::empty()
    } else {
        let before = tallied(chords, (upto - 1) as nat);
        let i = vocab_index(before, chords[upto - 1], 0);
        if i < before.len() {
            before.update(
                i,
                VocabModel { chord: chords[upto - 1], count: before[i].count + 1 },
            )
        } else {
            before.push(VocabModel { chord: chords[upto - 1], count: 1 })
        }
    }
}

/// The counts of a tally, in order.
pub open spec fn vocab_counts(tally: Seq<VocabModel>) -> Seq<nat> {
    Seq::new(tally.len(), |i: int| tally[i].count)
}

/// The index from `from` on of the entry that is ranked first, or the number
/// of entries.
pub open spec fn first_ranked(tally: Seq<VocabModel>, from: int) -> int
    decreases tally.len() - from,
{
    if from < 0 || from >= tally.len() {
        tally.len() as int
    } else if rank_of(vocab_counts(tally), from) == 1 {
        from
    } else {
        first_ranked(tally, from + 1)
    }
}

/// The chord that stands for `chord` in a vocabulary of the `max_vocab` most
/// frequent chords: the chord itself where it is one of them, else the most
/// frequent chord. Chords that occur equally often rank in the order in
/// which they first occur. With an empty vocabulary every chord stays.
pub open spec fn reduced_chord(tally: Seq<VocabModel>, chord: Seq<u8>, max_vocab: usize) -> Seq<
    u8,
> {
    let i = vocab_index(tally, chord, 0);
    let best = first_ranked(tally, 0);
    if i < tally.len() && rank_of(vocab_counts(tally), i) <= max_vocab {
        chord
    } else if max_vocab > 0 && best < tally.len() {
        tally[best].chord
    } else {
        chord
    }
}

/// The views of a sequence of byte lists.
pub open spec fn byte_views(v: Seq<Vec<u8>>) -> Seq<Seq<u8>> {
    Seq::new(v.len(), |i: int| v[i]@)
}

/// The tally of a sequence of entries.
spec fn entries_model(v: Seq<VocabEntry>) -> Seq<VocabModel> {
    Seq::new(v.len(), |i: int| VocabModel { chord: v[i].chord@, count: v[i].count as nat })
}

/// The index of the entry for this chord.
fn find_vocab(tally: &Vec<VocabEntry>, chord: &Vec<u8>) -> (r: usize)
    ensures
        r == vocab_index(entries_model(tally@), chord@, 0),
        r <= tally@.len(),
{
    let mut i: usize = 0;
    while i < tally.len()
        invariant
            i <= tally@.len(),
            vocab_index(entries_model(tally@), chord@, 0) == vocab_index(
                entries_model(tally@),
                chord@,
                i as int,
            ),
        decreases tally@.len() - i,
    {
        if same_bytes(&tally[i].chord, chord) {
            return i;
        }
        i = i + 1;
    }
    i
}

/// The rank of the entry at `i`.
fn vocab_rank(tally: &Vec<VocabEntry>, i: usize) -> (r: usize)
    requires
        i < tally@.len(),
    ensures
        r == rank_of(vocab_counts(entries_model(tally@)), i as int),
{
    let ghost counts = vocab_counts(entries_model(tally@));
    let own = tally[i].count;
    let mut before: usize = 0;
    let mut k: usize = 0;
    while k < tally.len()
        invariant
            k <= tally@.len(),
            i < tally@.len(),
            own == tally@[i as int].count,
            counts == vocab_counts(entries_model(tally@)),
            before == before_count(counts, i as int, k as nat),
            before <= k,
        decreases tally@.len() - k,
    {
        let c = tally[k].count;
        assert(counts[k as int] == c);
        assert(counts[i as int] == own);
        if c > own || (c == own && k < i) {
            before = before + 1;
        }
        k = k + 1;
    }
    proof {
        crate::trie::lemma_before_count_bound(counts, i as int, tally@.len());
    }
    before + 1
}

/// The index of the entry that is ranked first.
fn find_first_ranked(tally: &Vec<VocabEntry>) -> (best: usize)
    ensures
        best == first_ranked(entries_model(tally@), 0),
        best <= tally@.len(),
{
    let mut best: usize = 0;
    while best < tally.len()
        invariant
            best <= tally@.len(),
            first_ranked(entries_model(tally@), 0) == first_ranked(
                entries_model(tally@),
                best as int,
            ),
        decreases tally@.len() - best,
    {
        if vocab_rank(tally, best) == 1 {
            return best;
        }
        best = best + 1;
    }
    best
}

/// Every chord replaced by the chord that stands for it in the vocabulary
/// of the `max_vocab` most frequent chords.
pub fn reduce_chord_vocab(chords: &[Vec<u8>], max_vocab: usize) -> (r: SerializationResult<
    Vec<Vec<u8>>,
>)
    ensures
        r matches Ok(v) && v@.len() == chords@.len() && forall|i: int|
            0 <= i < chords@.len() ==> (#[trigger] v@[i])@ == reduced_chord(
                tallied(byte_views(chords@), chords@.len()),
                chords@[i]@,
                max_vocab,
            ),
{
    let ghost all = byte_views(chords@);
    let mut tally: Vec<VocabEntry> = Vec::new();
    let mut i: usize = 0;
    assert(entries_model(tally@) =~= tallied(all, 0));
    while i < chords.len()
        invariant
            i <= chords@.len(),
            all == byte_views(chords@),
            entries_model(tally@) == tallied(all, i as nat),
            forall|k: int| 0 <= k < tally@.len() ==> (#[trigger] tally@[k]).count <= i,
        decreases chords@.len() - i,
    {
        let ghost before = entries_model(tally@);
        let chord = &chords[i];
        assert(all[i as int] == chord@);
        let at = find_vocab(&tally, chord);
        if at < tally.len() {
            let count = tally[at].count;
            tally[at] = VocabEntry { chord: copy_bytes(chord), count: count + 1 };
            assert(entries_model(tally@) =~= before.update(
                at as int,
                VocabModel { chord: chord@, count: (count + 1) as nat },
            ));
        } else {
            tally.push(VocabEntry { chord: copy_bytes(chord), count: 1 });
            assert(entries_model(tally@) =~= before.push(VocabModel { chord: chord@, count: 1 }));
        }
        i = i + 1;
    }
    let ghost model = entries_model(tally@);
    let best = find_first_ranked(&tally);
    let mut out: Vec<Vec<u8>> = Vec::new();
    let mut j: usize = 0;
    while j < chords.len()
        invariant
            j <= chords@.len(),
            best <= tally@.len(),
            all == byte_views(chords@),
            model == entries_model(tally@),
            model == tallied(all, chords@.len()),
            best == first_ranked(model, 0),
            out@.len() == j,
            forall|k: int|
                0 <= k < j ==> (#[trigger] out@[k])@ == reduced_chord(model, chords@[k]@, max_vocab),
        decreases chords@.len() - j,
    {
        let chord = &chords[j];
        let at = find_vocab(&tally, chord);
        let kept = at < tally.len() && vocab_rank(&tally, at) <= max_vocab;
        if kept {
            out.push(copy_bytes(chord));
        } else if max_vocab > 0 && best < tally.len() {
            assert(model[best as int].chord == tally@[best as int].chord@);
            out.push(copy_bytes(&tally[best].chord));
        } else {
            out.push(copy_bytes(chord));
        }
        j = j + 1;
    }
    Ok(out)
}

/// The index in a sequence of `n` items that the item at `i` of its
/// repetitions is a copy of: the repetitions run forward and backward in turn.
pub open spec fn repeated_source(i: int, n: int) -> int {
    if (i / n) % 2 == 1 {
        n - 1 - i % n
    } else {
        i % n
    }
}

/// The least number of repetitions of `n` items that reach `min_tokens`
/// items; at least one.
pub open spec fn repetitions(n: int, min_tokens: int) -> int {
    if min_tokens <= n {
        1
    } else {
        (min_tokens + n - 1) / n
    }
}

/// The sequence repeated until it has at least `min_tokens` items: forward
/// first, then backward and forward in turn. An empty sequence stays empty.
pub fn augment_with_repeated<T: Clone>(sequence: Vec<T>, min_tokens: usize) -> (r: Vec<T>)
    requires
        min_tokens + sequence@.len() <= usize::MAX,
    ensures
        sequence@.len() == 0 ==> r@.len() == 0,
        sequence@.len() > 0 ==> r@.len() == repetitions(
            sequence@.len() as int,
            min_tokens as int,
        ) * sequence@.len(),
        forall|i: int|
            0 <= i < r@.len() ==> cloned(
                sequence@[repeated_source(i, sequence@.len() as int)],
                #[trigger] r@[i],
            ),
{
    let n = sequence.len();
    if n == 0 {
        return Vec::new();
    }
    let mut result: Vec<T> = Vec::new();
    let mut chunks: usize = 0;
    while chunks == 0 || result.len() < min_tokens
        invariant
            n == sequence@.len(),
            n > 0,
            min_tokens + n <= usize::MAX,
            result@.len() == chunks * n,
            chunks == 0 || (chunks - 1) * n < min_tokens || chunks == 1,
            forall|i: int|
                0 <= i < result@.len() ==> cloned(
                    sequence@[repeated_source(i, n as int)],
                    #[trigger] result@[i],
                ),
        decreases
                (if chunks == 0 {
                    min_tokens + n + 1
                } else {
                    min_tokens + n - result@.len()
                }),
    {
        let ghost start = result@.len() as int;
        let backward = chunks % 2 == 1;
        proof {
            assert(start == chunks * n);
            vstd::arithmetic::div_mod::lemma_div_multiples_vanish(chunks as int, n as int);
            assert(chunks * n == n * chunks) by (nonlinear_arith);
        }
        let mut k: usize = 0;
        while k < n
            invariant
                k <= n,
                n == sequence@.len(),
                n > 0,
                start == chunks * n,
                backward == (chunks % 2 == 1),
                result@.len() == start + k,
                start + n <= usize::MAX,
                forall|i: int|
                    0 <= i < result@.len() ==> cloned(
                        sequence@[repeated_source(i, n as int)],
                        #[trigger] result@[i],
                    ),
            decreases n - k,
        {
            let from = if backward {
                n - 1 - k
            } else {
                k
            };
            proof {
                let i = start + k;
                vstd::arithmetic::div_mod::lemma_fundamental_div_mod_converse(
                    i,
                    n as int,
                    chunks as int,
                    k as int,
                );
                assert(repeated_source(i, n as int) == from);
            }
            result.push(sequence[from].clone());
            k = k + 1;
        }
        proof {
            assert((chunks + 1) * n == chunks * n + n) by (nonlinear_arith);
        }
        chunks = chunks + 1;
    }
    proof {
        lemma_repetitions(n as int, min_tokens as int, chunks as int);
    }
    result
}

/// The number of repetitions is the least that reaches the wanted length.
proof fn lemma_repetitions(n: int, min_tokens: int, chunks: int)
    requires
        n > 0,
        min_tokens >= 0,
        chunks >= 1,
        chunks * n >= min_tokens,
        (chunks - 1) * n < min_tokens || chunks == 1,
    ensures
        chunks == repetitions(n, min_tokens),
{
    if min_tokens <= n {
        if chunks > 1 {
            assert((chunks - 1) * n >= n) by (nonlinear_arith)
                requires
                    chunks >= 2,
                    n > 0,
            ;
        }
    } else {
        let q = (min_tokens + n - 1) / n;
        vstd::arithmetic::div_mod::lemma_fundamental_div_mod(min_tokens + n - 1, n);
        vstd::arithmetic::div_mod::lemma_mod_bound(min_tokens + n - 1, n);
        let r = (min_tokens + n - 1) % n;
        assert(min_tokens + n - 1 == n * q + r);
        // q is the least number with q * n >= min_tokens
        assert(q * n >= min_tokens) by (nonlinear_arith)
            requires
                min_tokens + n - 1 == n * q + r,
                0 <= r < n,
        ;
        assert((q - 1) * n < min_tokens) by (nonlinear_arith)
            requires
                min_tokens + n - 1 == n * q + r,
                0 <= r < n,
        ;
        if chunks < q {
            assert(chunks * n <= (q - 1) * n) by (nonlinear_arith)
                requires
                    chunks <= q - 1,
                    n > 0,
            ;
        }
        if chunks > q {
            assert((chunks - 1) * n >= q * n) by (nonlinear_arith)
                requires
                    chunks - 1 >= q,
                    n > 0,
            ;
        }
    }
}

} // verus!
