//! The binary form of a tree can be read back.

use vstd::prelude::*;
use crate::trie_binary::{
    TreeModel, ChildModel, be32, be32_at, ids_encoded, node_encoded, children_encoded, savable,
    ids_parsed, node_parsed, children_parsed, parsed_tree, with_child, child_at, lemma_child_at,
};

verus! {

/// Whether the children of every node of a tree have keys that differ.
pub open spec fn keys_differ(m: TreeModel) -> bool
    decreases m,
{
    &&& forall|i: int, j: int|
        0 <= i < j < m.children.len() ==> (#[trigger] m.children[i]).key != (
        #[trigger] m.children[j]).key
    &&& forall|i: int| 0 <= i < m.children.len() ==> keys_differ((#[trigger] m.children[i]).node)
}

/// Whether `bytes` stand in `data` from `at` on.
#[verifier::opaque]
pub open spec fn placed(data: Seq<u8>, at: int, bytes: Seq<u8>) -> bool {
    0 <= at && at + bytes.len() <= data.len() && data.subrange(at, at + bytes.len()) == bytes
}

/// Where two lists of bytes stand one behind the other, each of them stands.
proof fn lemma_placed_parts(data: Seq<u8>, at: int, first: Seq<u8>, second: Seq<u8>)
    requires
        placed(data, at, first + second),
    ensures
        placed(data, at, first),
        placed(data, at + first.len(), second),
{
    reveal(placed);
    let whole = first + second;
    let found = data.subrange(at, at + whole.len());
    assert(data.subrange(at, at + first.len()) =~= found.subrange(0, first.len() as int));
    assert(found.subrange(0, first.len() as int) =~= first);
    assert(data.subrange(at + first.len(), at + first.len() + second.len()) =~= found.subrange(
        first.len() as int,
        whole.len() as int,
    ));
    assert(found.subrange(first.len() as int, whole.len() as int) =~= second);
}

/// The four bytes of a number spell the number.
proof fn lemma_number_read(data: Seq<u8>, at: int, v: u32)
    requires
        placed(data, at, be32(v)),
    ensures
        be32_at(data, at) == v,
        at + 4 <= data.len(),
{
    reveal(placed);
    let found = data.subrange(at, at + 4);
    assert(found[0] == data[at]);
    assert(found[1] == data[at + 1]);
    assert(found[2] == data[at + 2]);
    assert(found[3] == data[at + 3]);
    assert(be32(v)[0] == (v / 0x100_0000) as u8);
    assert(be32(v)[1] == ((v / 0x1_0000) % 0x100) as u8);
    assert(be32(v)[2] == ((v / 0x100) % 0x100) as u8);
    assert(be32(v)[3] == (v % 0x100) as u8);
}

/// The ids take four bytes each.
proof fn lemma_ids_length(ids: Seq<u32>, upto: nat)
    requires
        upto <= ids.len(),
    ensures
        ids_encoded(ids, upto).len() == 4 * upto,
    decreases upto,
{
    if upto > 0 {
        lemma_ids_length(ids, (upto - 1) as nat);
    }
}

/// The ids that were written are the ids that are read.
proof fn lemma_ids_read(data: Seq<u8>, at: int, ids: Seq<u32>, upto: nat)
    requires
        upto <= ids.len(),
        placed(data, at, ids_encoded(ids, upto)),
    ensures
        ids_parsed(data, at, upto, 4) == Some((ids.subrange(0, upto as int), at + 4 * upto)),
    decreases upto,
{
    if upto == 0 {
        reveal(placed);
        assert(ids.subrange(0, 0) =~= Seq::<u32>::empty());
    } else {
        let before = ids_encoded(ids, (upto - 1) as nat);
        lemma_ids_length(ids, (upto - 1) as nat);
        lemma_placed_parts(data, at, before, be32(ids[upto - 1]));
        lemma_ids_read(data, at, ids, (upto - 1) as nat);
        lemma_number_read(data, at + 4 * (upto - 1), ids[upto - 1]);
        assert(ids.subrange(0, upto as int) =~= ids.subrange(0, upto - 1).push(ids[upto - 1]));
    }
}

/// Where a node stands, its parts stand one behind the other.
proof fn lemma_node_parts(data: Seq<u8>, at: int, m: TreeModel)
    requires
        placed(data, at, node_encoded(m)),
    ensures
        placed(data, at, be32(m.count)),
        placed(data, at + 4, be32(m.ids.len() as u32)),
        placed(data, at + 8, ids_encoded(m.ids, m.ids.len())),
        placed(data, at + 8 + 4 * m.ids.len(), be32(m.children.len() as u32)),
        placed(data, at + 12 + 4 * m.ids.len(), children_encoded(m.children, m.children.len())),
        node_encoded(m).len() == 12 + 4 * m.ids.len() + children_encoded(
            m.children,
            m.children.len(),
        ).len(),
{
    let count = be32(m.count);
    let id_count = be32(m.ids.len() as u32);
    let ids = ids_encoded(m.ids, m.ids.len());
    let child_count = be32(m.children.len() as u32);
    let children = children_encoded(m.children, m.children.len());
    lemma_ids_length(m.ids, m.ids.len());
    assert(node_encoded(m) == count + id_count + ids + child_count + children);
    lemma_placed_parts(data, at, count + id_count + ids + child_count, children);
    lemma_placed_parts(data, at, count + id_count + ids, child_count);
    lemma_placed_parts(data, at, count + id_count, ids);
    lemma_placed_parts(data, at, count, id_count);
}

/// A node that was written is the node that is read, wherever it stands;
/// the reading ends behind it.
pub proof fn lemma_node_read(data: Seq<u8>, at: int, m: TreeModel)
    requires
        savable(m),
        keys_differ(m),
        placed(data, at, node_encoded(m)),
    ensures
        node_parsed(data, at, false) == Some((m, at + node_encoded(m).len())),
    decreases m, m.children.len() + 2,
{
    lemma_node_parts(data, at, m);
    assert(0 <= at && at + node_encoded(m).len() <= data.len()) by {
        reveal(placed);
    }
    lemma_number_read(data, at, m.count);
    lemma_number_read(data, at + 4, m.ids.len() as u32);
    lemma_ids_read(data, at + 8, m.ids, m.ids.len());
    assert(m.ids.subrange(0, m.ids.len() as int) =~= m.ids);
    let behind_ids = at + 8 + 4 * m.ids.len();
    lemma_number_read(data, behind_ids, m.children.len() as u32);
    lemma_children_read(data, behind_ids + 4, m, m.children.len());
    assert(m.children.subrange(0, m.children.len() as int) =~= m.children);
    assert(ids_parsed(data, at + 8, be32_at(data, at + 4) as nat, 4) == Some(
        (m.ids, behind_ids),
    ));
    assert(children_parsed(data, behind_ids + 4, be32_at(data, behind_ids) as nat, false) == Some(
        (m.children, at + node_encoded(m).len()),
    ));
}

/// The children that were written are the children that are read.
proof fn lemma_children_read(data: Seq<u8>, at: int, m: TreeModel, upto: nat)
    requires
        savable(m),
        keys_differ(m),
        upto <= m.children.len(),
        placed(data, at, children_encoded(m.children, upto)),
    ensures
        children_parsed(data, at, upto, false) == Some(
            (
                m.children.subrange(0, upto as int),
                at + children_encoded(m.children, upto).len(),
            ),
        ),
    decreases m, 1nat + upto,
{
    if upto == 0 {
        reveal(placed);
        assert(m.children.subrange(0, 0) =~= Seq::<ChildModel>::empty());
    } else {
        let child = m.children[upto - 1];
        let before = children_encoded(m.children, (upto - 1) as nat);
        let length = be32(node_encoded(child.node).len() as u32);
        let body = node_encoded(child.node);
        assert(children_encoded(m.children, upto) == before + length + child.key + body);
        lemma_placed_parts(data, at, before + length + child.key, body);
        lemma_placed_parts(data, at, before + length, child.key);
        lemma_placed_parts(data, at, before, length);
        lemma_children_read(data, at, m, (upto - 1) as nat);
        let next = at + before.len();
        assert(data.subrange(next + 4, next + 9) == child.key && next + 9 <= data.len()
            && next >= at) by {
            reveal(placed);
        }
        lemma_node_read(data, next + 9, child.node);
        let earlier = m.children.subrange(0, upto - 1);
        lemma_child_at(earlier, child.key, 0);
        assert(child_at(earlier, child.key, 0) == earlier.len()) by {
            let i = child_at(earlier, child.key, 0);
            if i < earlier.len() {
                assert(earlier[i] == m.children[i]);
                assert(m.children[i].key != m.children[upto - 1].key);
            }
        }
        assert(with_child(earlier, child.key, child.node) =~= m.children.subrange(
            0,
            upto as int,
        ));
    }
}

/// A tree that has a binary form and whose keys differ at every node is
/// the tree that its binary form spells.
pub proof fn lemma_tree_round_trip(m: TreeModel)
    requires
        savable(m),
        keys_differ(m),
    ensures
        parsed_tree(node_encoded(m), false) == Some(m),
{
    let data = node_encoded(m);
    assert(placed(data, 0, data)) by {
        reveal(placed);
        assert(data.subrange(0, data.len() as int) =~= data);
    }
    lemma_node_read(data, 0, m);
}

} // verus!
