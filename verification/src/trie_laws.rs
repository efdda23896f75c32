//! What holds of every pattern store: ranks, counts and relative frequencies.

use vstd::prelude::*;
use vstd::set_lib::{set_int_range, lemma_int_range, lemma_map_size, lemma_subset_equality};
use crate::fixed::{SCALE, lemma_ratio_bound};
use crate::trie::{
    NodeModel, EdgeModel, HitModel, ReferenceModel, comes_before, before_count, rank_of, counts_of,
    ranked_edge, lemma_ranked_edges, lemma_before_count_bound, hit, walk, via_edge, wildcard,
    index_of_key, lemma_index_of_key,
};

verus! {

/// Whoever is ranked before `i` is ranked before whoever `i` is ranked
/// before, and so is `i` itself: `j` has at least one more before it.
proof fn lemma_before_count_order(counts: Seq<nat>, i: int, j: int, upto: nat)
    requires
        0 <= i < counts.len(),
        0 <= j < counts.len(),
        comes_before(counts, i, j),
        upto <= counts.len(),
    ensures
        before_count(counts, i, upto) + (if i < upto {
            1nat
        } else {
            0nat
        }) <= before_count(counts, j, upto),
    decreases upto,
{
    if upto > 0 {
        lemma_before_count_order(counts, i, j, (upto - 1) as nat);
    }
}

/// Every rank lies between 1 and the number of siblings.
pub proof fn lemma_rank_range(counts: Seq<nat>, i: int)
    requires
        0 <= i < counts.len(),
    ensures
        1 <= rank_of(counts, i) <= counts.len(),
{
    lemma_before_count_bound(counts, i, counts.len());
}

/// A sibling with a higher count, or with the same count and an earlier
/// position, has the lower rank.
pub proof fn lemma_rank_order(counts: Seq<nat>, i: int, j: int)
    requires
        0 <= i < counts.len(),
        0 <= j < counts.len(),
        comes_before(counts, i, j),
    ensures
        rank_of(counts, i) < rank_of(counts, j),
{
    lemma_before_count_order(counts, i, j, counts.len());
}

/// No two siblings have the same rank.
pub proof fn lemma_ranks_distinct(counts: Seq<nat>, i: int, j: int)
    requires
        0 <= i < counts.len(),
        0 <= j < counts.len(),
        i != j,
    ensures
        rank_of(counts, i) != rank_of(counts, j),
{
    if comes_before(counts, i, j) {
        lemma_rank_order(counts, i, j);
    } else {
        assert(comes_before(counts, j, i));
        lemma_rank_order(counts, j, i);
    }
}

/// Every number from 1 to the number of siblings is the rank of one of them.
pub proof fn lemma_ranks_cover(counts: Seq<nat>, r: int)
    requires
        1 <= r <= counts.len(),
    ensures
        exists|i: int| 0 <= i < counts.len() && rank_of(counts, i) == r,
{
    let n = counts.len() as int;
    let positions = set_int_range(0, n);
    let ranks = set_int_range(1, n + 1);
    let f = |i: int| rank_of(counts, i) as int;
    let image = positions.map(f);
    lemma_int_range(0, n);
    lemma_int_range(1, n + 1);
    assert(vstd::relations::injective_on(f, positions)) by {
        assert forall|a: int, b: int|
            positions.contains(a) && positions.contains(b) && #[trigger] f(a) == #[trigger] f(
                b,
            ) implies a == b by {
            if a != b {
                lemma_ranks_distinct(counts, a, b);
            }
        }
    }
    lemma_map_size(positions, image, f);
    assert(image.subset_of(ranks)) by {
        assert forall|v: int| image.contains(v) implies ranks.contains(v) by {
            let i = choose|i: int| positions.contains(i) && v == f(i);
            lemma_rank_range(counts, i);
        }
    }
    lemma_subset_equality(image, ranks);
    assert(ranks.contains(r));
    assert(image.contains(r));
    let i = choose|i: int| positions.contains(i) && r == f(i);
    assert(0 <= i < counts.len() && rank_of(counts, i) == r);
}

/// The node that a way down the tree leads to: `path` gives, level by level,
/// the position of the child to take. A step that leaves the tree stays
/// where it is.
pub open spec fn descend(m: NodeModel, path: Seq<int>) -> NodeModel
    decreases path.len(),
{
    if path.len() == 0 {
        m
    } else {
        let d = descend(m, path.drop_last());
        if 0 <= path.last() < d.children.len() {
            d.children[path.last()].node
        } else {
            d
        }
    }
}

/// Ranking changes, at each node, the ranks of the children and nothing
/// else: the node that a way leads to in the ranked tree is the node that it
/// leads to in the tree, with its subtree ranked.
pub proof fn lemma_descend_ranked(m: NodeModel, path: Seq<int>)
    ensures
        descend(m.ranked(), path).children == descend(m, path).ranked().children,
        descend(m.ranked(), path).count == descend(m, path).count,
        descend(m.ranked(), path).refs == descend(m, path).refs,
    decreases path.len(),
{
    if path.len() > 0 {
        let before = path.drop_last();
        lemma_descend_ranked(m, before);
        let d = descend(m, before);
        let dr = descend(m.ranked(), before);
        lemma_ranked_edges(d.children, d.children.len());
        let k = path.last();
        if 0 <= k < d.children.len() {
            assert(dr.children[k] == ranked_edge(d.children, k));
        }
    }
}

/// Whether one of the children has the rank `r`.
pub open spec fn has_rank(children: Seq<EdgeModel>, r: int) -> bool {
    exists|i: int| 0 <= i < children.len() && (#[trigger] children[i]).node.rank == r
}

/// Ranks after a recomputation, at any node of the tree: the ranks of the
/// children are the numbers from 1 to the number of children, each once; a
/// child with a higher count has a lower rank; children with equal counts
/// are ranked in the order in which they first appeared; and counts are as
/// they were.
pub proof fn lemma_ranks_everywhere(m: NodeModel, path: Seq<int>)
    ensures
        ({
            let before = descend(m, path).children;
            let after = descend(m.ranked(), path).children;
            let n = before.len();
            &&& after.len() == n
            &&& forall|i: int|
                0 <= i < n ==> (#[trigger] after[i]).node.count == before[i].node.count
                    && after[i].key == before[i].key
            &&& forall|i: int| 0 <= i < n ==> 1 <= (#[trigger] after[i]).node.rank <= n
            &&& forall|i: int, j: int|
                0 <= i < n && 0 <= j < n && i != j ==> (#[trigger] after[i]).node.rank != (
                #[trigger] after[j]).node.rank
            &&& forall|i: int, j: int|
                0 <= i < n && 0 <= j < n && (#[trigger] after[i]).node.count > (
                #[trigger] after[j]).node.count ==> after[i].node.rank < after[j].node.rank
            &&& forall|i: int, j: int|
                0 <= i < j < n && (#[trigger] after[i]).node.count == (
                #[trigger] after[j]).node.count ==> after[i].node.rank < after[j].node.rank
            &&& forall|r: int| 1 <= r <= n ==> #[trigger] has_rank(after, r)
        }),
{
    lemma_descend_ranked(m, path);
    let before = descend(m, path).children;
    let after = descend(m.ranked(), path).children;
    let n = before.len();
    let counts = counts_of(before);
    lemma_ranked_edges(before, n);
    assert forall|i: int| 0 <= i < n implies (#[trigger] after[i]).node.rank == rank_of(
        counts,
        i,
    ) && after[i].node.count == before[i].node.count && after[i].key == before[i].key by {
        assert(after[i] == ranked_edge(before, i));
    }
    assert forall|i: int| 0 <= i < n implies 1 <= (#[trigger] after[i]).node.rank <= n by {
        lemma_rank_range(counts, i);
    }
    assert forall|i: int, j: int| 0 <= i < n && 0 <= j < n && i != j implies (
    #[trigger] after[i]).node.rank != (#[trigger] after[j]).node.rank by {
        lemma_ranks_distinct(counts, i, j);
    }
    assert forall|i: int, j: int|
        0 <= i < n && 0 <= j < n && (#[trigger] after[i]).node.count > (
        #[trigger] after[j]).node.count implies after[i].node.rank < after[j].node.rank by {
        lemma_rank_order(counts, i, j);
    }
    assert forall|i: int, j: int|
        0 <= i < j < n && (#[trigger] after[i]).node.count == (
        #[trigger] after[j]).node.count implies after[i].node.rank < after[j].node.rank by {
        lemma_rank_order(counts, i, j);
    }
    assert forall|r: int| 1 <= r <= n implies #[trigger] has_rank(after, r) by {
        lemma_ranks_cover(counts, r);
        let i = choose|i: int| 0 <= i < counts.len() && rank_of(counts, i) == r;
        assert(after[i].node.rank == r);
    }
}

/// Whether a relative frequency lies between zero and one.
pub open spec fn is_fraction(h: HitModel) -> bool {
    0 <= h.relative_count <= SCALE
}

/// Whether every relative frequency of a list of matches lies between zero and one.
pub open spec fn all_fractions(s: Seq<HitModel>) -> bool {
    forall|k: int| 0 <= k < s.len() ==> is_fraction(#[trigger] s[k])
}

/// Whether no relative frequency and no weight of a list of matches is negative.
pub open spec fn none_negative(s: Seq<HitModel>) -> bool {
    forall|k: int| 0 <= k < s.len() ==> 0 <= (#[trigger] s[k]).relative_count && 0 <= s[k].weight
}

/// The relative frequency of a child is never negative, and in a well-formed
/// tree it is not above one.
pub proof fn lemma_hit_fraction(m: NodeModel, i: int)
    requires
        0 <= i < m.children.len(),
    ensures
        0 <= hit(m, m.children[i]).relative_count,
        0 <= hit(m, m.children[i]).weight,
        m.well_formed() ==> is_fraction(hit(m, m.children[i])),
{
    let child = m.children[i].node.count as int;
    let parent = if m.count == 0 {
        1
    } else {
        m.count as int
    };
    lemma_ratio_bound(child, parent);
    let rank = m.children[i].node.rank as int;
    assert(0 <= child * SCALE) by (nonlinear_arith)
        requires
            0 <= child,
    ;
    if rank > 0 {
        vstd::arithmetic::div_mod::lemma_div_pos_is_pos(child * SCALE, rank);
    }
}

/// No match has a negative relative frequency or weight, and every match
/// found in a well-formed tree has a relative frequency between zero and one.
pub proof fn lemma_walk_fractions(m: NodeModel, pattern: Seq<Option<Seq<u8>>>, at: int)
    ensures
        none_negative(walk(m, pattern, at)),
        m.well_formed() ==> all_fractions(walk(m, pattern, at)),
    decreases pattern.len() - at, 2nat, 0nat,
{
    if 0 <= at < pattern.len() {
        match pattern[at] {
            Some(key) => {
                let i = m.child_index(key);
                if 0 <= i < m.children.len() {
                    lemma_via_edge_fractions(m, i, pattern, at);
                }
            },
            None => {
                lemma_wildcard_fractions(m, pattern, at, m.children.len());
            },
        }
    }
}

/// The same of the matches found through one child.
pub proof fn lemma_via_edge_fractions(
    m: NodeModel,
    i: int,
    pattern: Seq<Option<Seq<u8>>>,
    at: int,
)
    ensures
        none_negative(via_edge(m, i, pattern, at)),
        m.well_formed() ==> all_fractions(via_edge(m, i, pattern, at)),
    decreases pattern.len() - at, 0nat, 0nat,
{
    if 0 <= at < pattern.len() && 0 <= i < m.children.len() {
        if at == pattern.len() - 1 {
            lemma_hit_fraction(m, i);
            assert(via_edge(m, i, pattern, at)[0] == hit(m, m.children[i]));
        } else {
            if m.well_formed() {
                assert(m.children[i].node.well_formed());
            }
            lemma_walk_fractions(m.children[i].node, pattern, at + 1);
        }
    }
}

/// The same of the matches found through the first children.
pub proof fn lemma_wildcard_fractions(
    m: NodeModel,
    pattern: Seq<Option<Seq<u8>>>,
    at: int,
    upto: nat,
)
    ensures
        none_negative(wildcard(m, pattern, at, upto)),
        m.well_formed() ==> all_fractions(wildcard(m, pattern, at, upto)),
    decreases pattern.len() - at, 1nat, upto,
{
    if 0 <= at < pattern.len() && upto > 0 {
        lemma_wildcard_fractions(m, pattern, at, (upto - 1) as nat);
        lemma_via_edge_fractions(m, upto - 1, pattern, at);
        let a = wildcard(m, pattern, at, (upto - 1) as nat);
        let b = via_edge(m, upto - 1, pattern, at);
        assert forall|k: int| 0 <= k < (a + b).len() implies 0 <= (#[trigger] (a + b)[k]).relative_count
            && 0 <= (a + b)[k].weight && (m.well_formed() ==> is_fraction((a + b)[k])) by {
            if k < a.len() {
                assert((a + b)[k] == a[k]);
            } else {
                assert((a + b)[k] == b[k - a.len()]);
            }
        }
    }
}

/// Ranking keeps a tree well formed and rankable.
pub proof fn lemma_ranked_well_formed(m: NodeModel)
    ensures
        m.well_formed() ==> m.ranked().well_formed(),
        m.rankable() ==> m.ranked().rankable(),
        m.ranked().count == m.count,
        m.ranked().rank == m.rank,
        m.ranked().refs == m.refs,
        m.ranked().children.len() == m.children.len(),
    decreases m,
{
    let r = m.ranked();
    lemma_ranked_edges(m.children, m.children.len());
    assert forall|i: int| 0 <= i < m.children.len() implies {
        &&& (#[trigger] r.children[i]).key == m.children[i].key
        &&& r.children[i].node.count == m.children[i].node.count
        &&& (m.children[i].node.well_formed() ==> r.children[i].node.well_formed())
        &&& (m.children[i].node.rankable() ==> r.children[i].node.rankable())
    } by {
        lemma_ranked_well_formed(m.children[i].node);
        assert(r.children[i] == ranked_edge(m.children, i));
        let child = m.children[i].node.ranked();
        let marked = r.children[i].node;
        assert(marked.children == child.children);
        assert(marked.refs == child.refs);
        assert(marked.count == child.count);
    }
    if m.well_formed() {
        assert forall|i: int, j: int| 0 <= i < j < r.children.len() implies r.children[i].key
            != r.children[j].key by {
            assert(r.children[i].key == m.children[i].key);
            assert(r.children[j].key == m.children[j].key);
        }
        assert forall|i: int| 0 <= i < r.children.len() implies {
            &&& (#[trigger] r.children[i]).node.count <= r.count
            &&& r.children[i].node.well_formed()
        } by {
            assert(m.children[i].node.well_formed());
        }
    }
    if m.rankable() {
        assert forall|i: int| 0 <= i < r.children.len() implies (
        #[trigger] r.children[i]).node.rankable() by {
            assert(m.children[i].node.rankable());
        }
    }
}

/// The count of the node that the keys `path[at..]` lead to from a node; 0
/// where they lead out of the tree.
pub open spec fn count_through(m: NodeModel, path: Seq<Seq<u8>>, at: int) -> nat
    decreases path.len() - at,
{
    if at < 0 || at >= path.len() {
        m.count
    } else {
        let i = m.child_index(path[at]);
        if 0 <= i < m.children.len() {
            count_through(m.children[i].node, path, at + 1)
        } else {
            0
        }
    }
}

/// Whether the keys `path[at..]` are the first of the keys `keys[depth..]`.
pub open spec fn begins(path: Seq<Seq<u8>>, at: int, keys: Seq<Seq<u8>>, depth: int) -> bool {
    &&& path.len() - at <= keys.len() - depth
    &&& path.subrange(at, path.len() as int) == keys.subrange(depth, depth + path.len() - at)
}

/// A key is found among the edges where it was found before one edge was
/// replaced by an edge with the same key.
proof fn lemma_index_updated(edges: Seq<EdgeModel>, i: int, e: EdgeModel, key: Seq<u8>, from: int)
    requires
        0 <= i < edges.len(),
        e.key == edges[i].key,
        0 <= from <= edges.len(),
    ensures
        index_of_key(edges.update(i, e), key, from) == index_of_key(edges, key, from),
    decreases edges.len() - from,
{
    if from < edges.len() {
        if edges.update(i, e)[from].key != key {
            lemma_index_updated(edges, i, e, key, from + 1);
        }
    }
}

/// Behind one more edge a key is found where it was found before, or in
/// the new edge, or nowhere.
proof fn lemma_index_pushed(edges: Seq<EdgeModel>, e: EdgeModel, key: Seq<u8>, from: int)
    requires
        0 <= from <= edges.len(),
    ensures
        index_of_key(edges.push(e), key, from) == (if index_of_key(edges, key, from) < edges.len() {
            index_of_key(edges, key, from)
        } else if e.key == key {
            edges.len() as int
        } else {
            edges.len() as int + 1
        }),
    decreases edges.len() - from,
{
    let more = edges.push(e);
    if from < edges.len() {
        assert(more[from] == edges[from]);
        if edges[from].key != key {
            lemma_index_pushed(edges, e, key, from + 1);
        }
    } else {
        assert(more[from] == e);
        if e.key != key {
            assert(index_of_key(more, key, from + 1) == more.len());
        }
    }
}

/// A node counts the patterns that pass through it: adding the pattern
/// `keys[depth..]` below a node raises by one the count of each node that
/// the first keys of the pattern lead to, and of no other node.
pub proof fn lemma_insert_counts(
    m: NodeModel,
    keys: Seq<Seq<u8>>,
    depth: int,
    r: ReferenceModel,
    path: Seq<Seq<u8>>,
    at: int,
)
    requires
        0 <= depth <= keys.len(),
        0 <= at <= path.len(),
    ensures
        count_through(m.insert_from(keys, depth, r), path, at) == count_through(m, path, at) + (
        if begins(path, at, keys, depth) {
            1nat
        } else {
            0nat
        }),
    decreases path.len() - at,
{
    let out = m.insert_from(keys, depth, r);
    if at < path.len() {
        let key = path[at];
        if depth >= keys.len() {
            assert(out.children == m.children);
            assert(!begins(path, at, keys, depth));
        } else {
            let i = m.child_index(keys[depth]);
            let k = m.child_index(key);
            lemma_index_of_key(m.children, keys[depth], 0);
            lemma_index_of_key(m.children, key, 0);
            if i < m.children.len() {
                let e = EdgeModel {
                    key: keys[depth],
                    node: m.children[i].node.insert_from(keys, depth + 1, r),
                };
                assert(out.children == m.children.update(i, e));
                lemma_index_updated(m.children, i, e, key, 0);
                if key == keys[depth] {
                    assert(k == i);
                    lemma_insert_counts(m.children[i].node, keys, depth + 1, r, path, at + 1);
                    lemma_begins_step(path, at, keys, depth);
                } else {
                    assert(k != i);
                    assert(!begins(path, at, keys, depth)) by {
                        if begins(path, at, keys, depth) {
                            assert(path.subrange(at, path.len() as int)[0] == keys.subrange(
                                depth,
                                depth + path.len() - at,
                            )[0]);
                        }
                    }
                }
            } else {
                let fresh = NodeModel::empty(m.include_key_tonic);
                let e = EdgeModel { key: keys[depth], node: fresh.insert_from(keys, depth + 1, r) };
                assert(out.children == m.children.push(e));
                lemma_index_pushed(m.children, e, key, 0);
                if key == keys[depth] {
                    assert(k == m.children.len());
                    lemma_insert_counts(fresh, keys, depth + 1, r, path, at + 1);
                    lemma_begins_step(path, at, keys, depth);
                    assert(count_through(fresh, path, at + 1) == 0);
                } else {
                    assert(!begins(path, at, keys, depth)) by {
                        if begins(path, at, keys, depth) {
                            assert(path.subrange(at, path.len() as int)[0] == keys.subrange(
                                depth,
                                depth + path.len() - at,
                            )[0]);
                        }
                    }
                }
            }
        }
    } else {
        assert(path.subrange(at, path.len() as int) =~= keys.subrange(depth, depth + 0));
    }
}

/// With equal first keys, one list begins another where the rest of it
/// begins the rest of the other.
proof fn lemma_begins_step(path: Seq<Seq<u8>>, at: int, keys: Seq<Seq<u8>>, depth: int)
    requires
        0 <= at < path.len(),
        0 <= depth < keys.len(),
        path[at] == keys[depth],
    ensures
        begins(path, at, keys, depth) == begins(path, at + 1, keys, depth + 1),
{
    let whole = path.subrange(at, path.len() as int);
    let other = keys.subrange(depth, depth + path.len() - at);
    let rest = path.subrange(at + 1, path.len() as int);
    let more = keys.subrange(depth + 1, depth + path.len() - at);
    if path.len() - at <= keys.len() - depth {
        assert(whole =~= seq![path[at]] + rest);
        assert(other =~= seq![keys[depth]] + more);
        if whole == other {
            assert(rest =~= whole.subrange(1, whole.len() as int));
            assert(more =~= other.subrange(1, other.len() as int));
        }
    }
}

} // verus!
