//! Why the build pass leaves the links of the records as the tree has them.
//!
//! A new node is the last of the row. It follows the subtree of every node that has no
//! node behind its subtree yet and is no higher than it: these are the node before it and
//! the nodes above that one, up to the new node's own parent.
use crate::index::arena::NULL_LINK;
use crate::index::model::{
    lemma_open_node_first_child, lemma_record_frame, lemma_slots_ordered, lemma_subtree_end,
    lemma_subtree_end_depths, lemma_subtree_end_is, lemma_subtree_end_push, spec_arena_holds,
    spec_first_child, spec_front, spec_link_word, spec_next_link, spec_node_stored,
    spec_node_wf, spec_record_stored, spec_subtree_end, spec_tree_wf, NodeModel, PropModel,
};
use vstd::prelude::*;

verus! {

/// Tells whether every node behind the node number `x` of `ns` is deeper than it: the
/// subtree of the node has no end yet.
pub open spec fn spec_open_end(ns: Seq<NodeModel>, x: int) -> bool {
    forall|k: int| x < k < ns.len() ==> ns[k].depth > ns[x].depth
}

/// Tells whether `words` holds the record of the node number `i` of `ns` as
/// `spec_linking` has it.
pub open spec fn spec_linking_at(
    words: Seq<int>,
    ns: Seq<NodeModel>,
    node: NodeModel,
    x: int,
    first_fixed: bool,
    i: int,
) -> bool {
    spec_node_stored(
        words,
        ns.push(node),
        i,
        if first_fixed {
            spec_first_child(ns.push(node), i)
        } else {
            spec_first_child(ns, i)
        },
        if i > x {
            spec_next_link(ns.push(node), i)
        } else {
            spec_next_link(ns, i)
        },
    )
}

/// Tells whether `words` holds the records of `ns` with `node` behind them, while `node`
/// is being linked in: the nodes up to the number `x` still link to what followed them
/// before, and before `first_fixed` all still link to the first child they had before.
pub open spec fn spec_linking(
    words: Seq<int>,
    ns: Seq<NodeModel>,
    node: NodeModel,
    x: int,
    first_fixed: bool,
) -> bool {
    &&& forall|i: int|
        0 <= i < ns.len() ==> #[trigger] spec_linking_at(words, ns, node, x, first_fixed, i)
    &&& spec_node_stored(words, ns.push(node), ns.len() as int, None, None)
}

/// Tells whether `node` can be added behind `ns` as a child of the node `cur`, or as a
/// node without a parent.
pub open spec fn spec_can_push(ns: Seq<NodeModel>, node: NodeModel, cur: Option<int>) -> bool {
    &&& spec_tree_wf(ns)
    &&& node.slot == spec_front(ns)
    &&& node.props.len() == 0
    &&& node.parent == cur
    &&& match cur {
        Some(c) => 0 <= c < ns.len() && spec_open_end(ns, c) && node.depth == ns[c].depth + 1,
        None => node.depth == 0,
    }
}

/// The row with a new node behind it is the row of a tree again.
pub proof fn lemma_push_tree(ns: Seq<NodeModel>, node: NodeModel, cur: Option<int>)
    requires
        spec_can_push(ns, node, cur),
    ensures
        spec_tree_wf(ns.push(node)),
        spec_open_end(ns.push(node), ns.len() as int),
        spec_front(ns.push(node)) == node.slot + 6,
        forall|i: int| 0 <= i < ns.len() ==> ns[i].end() <= node.slot && 0 <= ns[i].slot,
        0 <= node.slot,
{
    let ns2 = ns.push(node);
    let m = ns.len() as int;
    assert forall|i: int| 0 <= i < ns2.len() implies #[trigger] spec_node_wf(ns2, i) by {
        if i < m {
            assert(spec_node_wf(ns, i));
            assert(ns2[i] == ns[i]);
            if i > 0 {
                assert(ns2[i - 1] == ns[i - 1]);
            }
            match ns[i].parent {
                Some(j) => {
                    assert(ns2[j] == ns[j]);
                    assert forall|k: int| j < k < i implies ns2[k].depth > ns2[j].depth by {
                        assert(ns2[k] == ns[k]);
                    }
                },
                None => {},
            }
        } else {
            if m > 0 {
                assert(ns2[m - 1] == ns[m - 1]);
                assert(spec_node_wf(ns, m - 1));
            }
            match cur {
                Some(c) => {
                    assert(spec_node_wf(ns, c));
                    assert(ns2[c] == ns[c]);
                    assert forall|k: int| c < k < m implies ns2[k].depth > ns2[c].depth by {
                        assert(ns2[k] == ns[k]);
                    }
                },
                None => {},
            }
        }
    }
    assert forall|i: int| 0 <= i < ns.len() implies ns[i].end() <= node.slot && 0
        <= ns[i].slot by {
        assert(spec_node_wf(ns, i));
        if i < m - 1 {
            lemma_slots_ordered(ns, i, m - 1);
        }
        if i > 0 {
            lemma_slots_ordered(ns, 0, i);
        }
    }
    if m > 0 {
        assert(spec_node_wf(ns, 0));
        if m > 1 {
            lemma_slots_ordered(ns, 0, m - 1);
        }
    }
}

/// The links of the earlier records lead where they led, once the record of a new node is
/// written behind them.
pub proof fn lemma_link_start(
    words0: Seq<int>,
    words1: Seq<int>,
    ns: Seq<NodeModel>,
    node: NodeModel,
    cur: Option<int>,
)
    requires
        spec_can_push(ns, node, cur),
        spec_arena_holds(words0, ns),
        words1.len() == words0.len(),
        forall|w: int| 0 <= w < node.slot ==> words1[w] == words0[w],
        spec_record_stored(
            words1,
            node,
            spec_link_word(ns, cur),
            NULL_LINK as int,
            NULL_LINK as int,
        ),
    ensures
        spec_linking(words1, ns, node, ns.len() - 1, false),
{
    let ns2 = ns.push(node);
    let m = ns.len() as int;
    lemma_push_tree(ns, node, cur);
    assert forall|i: int| 0 <= i < ns.len() implies #[trigger] spec_linking_at(
        words1,
        ns,
        node,
        ns.len() - 1,
        false,
        i,
    ) by {
        assert(spec_node_stored(words0, ns, i, spec_first_child(ns, i), spec_next_link(ns, i)));
        assert(spec_node_wf(ns, i));
        assert(ns2[i] == ns[i]);
        lemma_subtree_end(ns, i, i + 1);
        lemma_record_frame(
            words0,
            words1,
            ns[i],
            spec_link_word(ns, ns[i].parent),
            spec_link_word(ns, spec_first_child(ns, i)),
            spec_link_word(ns, spec_next_link(ns, i)),
        );
    }
    assert(ns2[m] == node);
    match cur {
        Some(c) => {
            assert(ns2[c] == ns[c]);
        },
        None => {},
    }
}

/// The link of the parent to its first child leads to the new node where the new node is
/// its first child, and is empty up to then in that case only.
pub proof fn lemma_link_first(
    words1: Seq<int>,
    words2: Seq<int>,
    ns: Seq<NodeModel>,
    node: NodeModel,
    c: int,
)
    requires
        spec_can_push(ns, node, Some(c)),
        spec_linking(words1, ns, node, ns.len() - 1, false),
        spec_first_child(ns, c) is None ==> words2 == words1.update(ns[c].slot + 1, node.slot),
        spec_first_child(ns, c) is Some ==> words2 == words1,
    ensures
        spec_linking(words2, ns, node, ns.len() - 1, true),
        spec_first_child(ns, c) is None <==> c == ns.len() - 1,
{
    let ns2 = ns.push(node);
    let m = ns.len() as int;
    lemma_push_tree(ns, node, Some(c));
    if c + 1 < m {
        lemma_open_node_first_child(ns, c);
    }
    assert(ns2[m] == node);
    assert forall|i: int| 0 <= i < ns.len() implies #[trigger] spec_linking_at(
        words2,
        ns,
        node,
        ns.len() - 1,
        true,
        i,
    ) by {
        assert(spec_linking_at(words1, ns, node, ns.len() - 1, false, i));
        assert(ns2[i] == ns[i]);
        if i + 1 < m {
            assert(ns2[i + 1] == ns[i + 1]);
        }
        if c == m - 1 {
            assert(ns2[c] == ns[c]);
            if i == c {
            } else {
                if i < c {
                    lemma_slots_ordered(ns, i, c);
                }
                lemma_record_frame(
                    words1,
                    words2,
                    ns2[i],
                    spec_link_word(ns2, ns2[i].parent),
                    spec_link_word(ns2, spec_first_child(ns2, i)),
                    spec_link_word(ns2, spec_next_link(ns, i)),
                );
            }
        }
    }
    if c == m - 1 {
        lemma_record_frame(
            words1,
            words2,
            node,
            spec_link_word(ns2, node.parent),
            NULL_LINK as int,
            NULL_LINK as int,
        );
    }
}

/// One step of the walk from the node before the new one up to the new node's parent:
/// the node number `x` is linked to the new node, and the walk goes on at its parent `j`.
pub proof fn lemma_link_step(
    words: Seq<int>,
    words2: Seq<int>,
    ns: Seq<NodeModel>,
    node: NodeModel,
    c: int,
    x: int,
) -> (j: int)
    requires
        spec_can_push(ns, node, Some(c)),
        spec_linking(words, ns, node, x, true),
        c < x < ns.len(),
        spec_open_end(ns, x),
        words2 == words.update(ns[x].slot + 2, node.slot),
    ensures
        c <= j < x,
        ns[x].parent == Some(j),
        spec_open_end(ns, j),
        spec_linking(words2, ns, node, j, true),
        words2[ns[x].slot] == ns[j].slot,
{
    let ns2 = ns.push(node);
    let m = ns.len() as int;
    lemma_push_tree(ns, node, Some(c));
    assert(spec_node_wf(ns, x));
    assert(spec_node_wf(ns, c));
    let j = ns[x].parent.unwrap();
    assert(c <= j) by {
        if j < c {
            assert(ns[c].depth > ns[j].depth);
        }
    }
    assert(spec_open_end(ns, j)) by {
        assert forall|k: int| j < k < ns.len() implies ns[k].depth > ns[j].depth by {
            if k > x {
                assert(ns[k].depth > ns[x].depth);
            }
        }
    }
    assert(ns2[m] == node);
    assert(ns2[x] == ns[x]);
    assert(ns2[j] == ns[j]);
    // the node number `x` is followed by the new node
    lemma_subtree_end_is(ns, x, x + 1, m);
    lemma_subtree_end_push(ns, node, x);
    assert(spec_next_link(ns2, x) == Some(m));
    assert forall|i: int| 0 <= i < ns.len() implies #[trigger] spec_linking_at(
        words2,
        ns,
        node,
        j,
        true,
        i,
    ) by {
        assert(spec_linking_at(words, ns, node, x, true, i));
        assert(ns2[i] == ns[i]);
        if i == x {
        } else {
            if i < x {
                lemma_slots_ordered(ns, i, x);
            } else {
                lemma_slots_ordered(ns, x, i);
            }
            if j < i < x {
                // a node between the two is followed by a node up to the number `x`
                lemma_subtree_end(ns, i, i + 1);
                let e = spec_subtree_end(ns, i, i + 1);
                assert(ns[i].depth > ns[j].depth);
                assert(e <= x) by {
                    if e > x {
                        assert(ns[x].depth > ns[i].depth);
                    }
                }
                lemma_subtree_end_push(ns, node, i);
                assert(ns2[e] == ns[e]);
                assert(spec_next_link(ns2, i) == spec_next_link(ns, i));
            }
            lemma_record_frame(
                words,
                words2,
                ns2[i],
                spec_link_word(ns2, ns2[i].parent),
                spec_link_word(ns2, spec_first_child(ns2, i)),
                spec_link_word(
                    ns2,
                    if i > j {
                        spec_next_link(ns2, i)
                    } else {
                        spec_next_link(ns, i)
                    },
                ),
            );
        }
    }
    lemma_record_frame(
        words,
        words2,
        node,
        spec_link_word(ns2, node.parent),
        NULL_LINK as int,
        NULL_LINK as int,
    );
    assert(spec_linking_at(words, ns, node, x, true, x));
    j
}

/// The new node is the last of the row: it has no child, and nothing follows it.
pub proof fn lemma_last_links(ns2: Seq<NodeModel>)
    requires
        ns2.len() > 0,
    ensures
        spec_first_child(ns2, ns2.len() - 1) is None,
        spec_next_link(ns2, ns2.len() - 1) is None,
{
    lemma_subtree_end_is(ns2, ns2.len() - 1, ns2.len() as int, ns2.len() as int);
}

/// Once the walk has come to the parent of the new node, every record links to what the
/// tree with the new node has.
pub proof fn lemma_link_done(words: Seq<int>, ns: Seq<NodeModel>, node: NodeModel, c: int)
    requires
        spec_can_push(ns, node, Some(c)),
        spec_linking(words, ns, node, c, true),
    ensures
        spec_arena_holds(words, ns.push(node)),
{
    let ns2 = ns.push(node);
    let m = ns.len() as int;
    lemma_last_links(ns2);
    assert(ns2[m] == node);
    assert forall|i: int| 0 <= i < ns2.len() implies #[trigger] spec_node_stored(
        words,
        ns2,
        i,
        spec_first_child(ns2, i),
        spec_next_link(ns2, i),
    ) by {
        if i < m {
            assert(spec_linking_at(words, ns, node, c, true, i));
            if i <= c {
                lemma_subtree_end(ns, i, i + 1);
                lemma_subtree_end_push(ns, node, i);
                let e = spec_subtree_end(ns, i, i + 1);
                if e < m {
                    assert(ns2[e] == ns[e]);
                } else {
                    if i < c {
                        assert(ns[c].depth > ns[i].depth);
                    }
                }
                assert(spec_next_link(ns2, i) == spec_next_link(ns, i));
            }
        }
    }
}

/// A new node without a parent is linked to by no record.
pub proof fn lemma_link_root(words: Seq<int>, ns: Seq<NodeModel>, node: NodeModel)
    requires
        spec_can_push(ns, node, None),
        spec_linking(words, ns, node, ns.len() - 1, false),
    ensures
        spec_arena_holds(words, ns.push(node)),
{
    let ns2 = ns.push(node);
    let m = ns.len() as int;
    lemma_last_links(ns2);
    assert(ns2[m] == node);
    assert forall|i: int| 0 <= i < ns2.len() implies #[trigger] spec_node_stored(
        words,
        ns2,
        i,
        spec_first_child(ns2, i),
        spec_next_link(ns2, i),
    ) by {
        if i < m {
            assert(spec_linking_at(words, ns, node, ns.len() - 1, false, i));
            assert(ns2[i] == ns[i]);
            if i + 1 < m {
                assert(ns2[i + 1] == ns[i + 1]);
            }
            lemma_subtree_end(ns, i, i + 1);
            lemma_subtree_end_push(ns, node, i);
            let e = spec_subtree_end(ns, i, i + 1);
            if e < m {
                assert(ns2[e] == ns[e]);
            }
            assert(spec_next_link(ns2, i) == spec_next_link(ns, i));
            assert(spec_first_child(ns2, i) == spec_first_child(ns, i));
        }
    }
}

/// The row with a property added to its last node, and its records with the record of
/// the property behind them.
pub proof fn lemma_push_prop(
    words0: Seq<int>,
    words1: Seq<int>,
    ns: Seq<NodeModel>,
    prop: PropModel,
)
    requires
        ns.len() > 0,
        spec_tree_wf(ns),
        spec_arena_holds(words0, ns),
        words1.len() == words0.len(),
        spec_front(ns) + 3 <= words0.len(),
        forall|w: int|
            0 <= w < spec_front(ns) && w != ns.last().slot + 5 ==> words1[w] == words0[w],
        words1[ns.last().slot + 5] == ns.last().props.len() + 1,
        words1[spec_front(ns)] == prop.value_start,
        words1[spec_front(ns) + 1] == prop.value_len,
        words1[spec_front(ns) + 2] == prop.name_offset,
    ensures
        spec_tree_wf(
            ns.update(ns.len() - 1, NodeModel { props: ns.last().props.push(prop), ..ns.last() }),
        ),
        spec_arena_holds(
            words1,
            ns.update(ns.len() - 1, NodeModel { props: ns.last().props.push(prop), ..ns.last() }),
        ),
        spec_front(
            ns.update(ns.len() - 1, NodeModel { props: ns.last().props.push(prop), ..ns.last() }),
        ) == spec_front(ns) + 3,
{
    let m = ns.len() as int;
    let last = ns.last();
    let grown = NodeModel { props: last.props.push(prop), ..last };
    let ns2 = ns.update(m - 1, grown);
    assert forall|i: int| 0 <= i < ns2.len() implies #[trigger] spec_node_wf(ns2, i) by {
        assert(spec_node_wf(ns, i));
        match ns[i].parent {
            Some(j) => {
                assert forall|k: int| j < k < i implies ns2[k].depth > ns2[j].depth by {
                    assert(ns[k].depth > ns[j].depth);
                }
            },
            None => {},
        }
    }
    assert forall|i: int| 0 <= i < ns2.len() implies #[trigger] spec_node_stored(
        words1,
        ns2,
        i,
        spec_first_child(ns2, i),
        spec_next_link(ns2, i),
    ) by {
        assert(spec_node_stored(words0, ns, i, spec_first_child(ns, i), spec_next_link(ns, i)));
        assert(spec_node_wf(ns, i));
        lemma_subtree_end(ns, i, i + 1);
        lemma_subtree_end_depths(ns, ns2, i);
        assert(spec_next_link(ns2, i) == spec_next_link(ns, i));
        assert(spec_first_child(ns2, i) == spec_first_child(ns, i));
        if i < m - 1 {
            lemma_slots_ordered(ns, i, m - 1);
            lemma_record_frame(
                words0,
                words1,
                ns[i],
                spec_link_word(ns, ns[i].parent),
                spec_link_word(ns, spec_first_child(ns, i)),
                spec_link_word(ns, spec_next_link(ns, i)),
            );
        } else {
            let s = last.slot;
            assert forall|q: int| 0 <= q < grown.props.len() implies {
                &&& #[trigger] words1[s + 6 + 3 * q] == grown.props[q].value_start
                &&& words1[s + 6 + 3 * q + 1] == grown.props[q].value_len
                &&& words1[s + 6 + 3 * q + 2] == grown.props[q].name_offset
            } by {
                if q < last.props.len() {
                    assert(words0[s + 6 + 3 * q] == last.props[q].value_start);
                    assert(grown.props[q] == last.props[q]);
                }
            }
        }
    }
}

} // verus!
