//! Why a walk over an index hands out what the in-order parser hands out.
use crate::base::iters::{lemma_next_item_moves, spec_next_item, IterState};
use crate::base::parse::{lemma_token_bounds, spec_next_token, Token};
use crate::base::sequence::{
    lemma_keys_concat, lemma_node_names, lemma_same_step, spec_item_keys, spec_key_names,
    spec_key_props, spec_node_names, ItemKey,
};
use crate::base::tree::spec_start_state;
use crate::error::DevTreeError;
use crate::index::iters::{
    lemma_index_next, lemma_index_next_node, lemma_index_next_prop, spec_index_closer, spec_index_next, spec_index_next_compatible,
    spec_index_next_node, spec_index_next_prop, spec_index_prop_compatible,
    spec_index_scan_compatible, spec_index_state_wf, spec_items_left, spec_nodes_left,
    IndexItemView, IndexIterState,
};
use crate::index::model::{
    lemma_subtree_end_is, spec_build, spec_build_start, spec_build_token, spec_front,
    spec_index_nodes, spec_next_dfs, spec_node_wf, spec_tree_wf, BuildState, NodeModel,
    PropModel,
};
use crate::index::arena::spec_word_count;
use crate::index::tree::{spec_count_items, spec_records_size, DevTreeIndex};
use crate::priv_util::spec_be_u32;
use vstd::prelude::*;

verus! {

/// What the node `node` of a tree in `blob` is.
pub open spec fn spec_node_key(blob: Seq<u8>, node: NodeModel) -> ItemKey {
    ItemKey::Node { name: blob.subrange(node.name_start, node.name_start + node.name_len) }
}

/// What the property `prop` of a tree in `blob` is.
pub open spec fn spec_prop_key(blob: Seq<u8>, prop: PropModel) -> ItemKey {
    ItemKey::Prop {
        name_offset: prop.name_offset,
        value: blob.subrange(prop.value_start, prop.value_start + prop.value_len),
    }
}

/// What an item of the index of the tree `ns` in `blob` is.
pub open spec fn spec_index_item_key(blob: Seq<u8>, ns: Seq<NodeModel>, item: IndexItemView) -> ItemKey {
    match item {
        IndexItemView::Node(i) => spec_node_key(blob, ns[i]),
        IndexItemView::Prop(i, q) => spec_prop_key(blob, ns[i].props[q]),
    }
}

/// The items that a walk over the index of the tree `ns` in `blob` hands out from the
/// state `st` on.
pub open spec fn spec_index_item_keys(blob: Seq<u8>, ns: Seq<NodeModel>, st: IndexIterState) -> Seq<
    ItemKey,
>
    decreases spec_nodes_left(ns, st), spec_items_left(ns, st),
{
    let step = spec_index_next(ns, st);
    match step.item {
        Some(item) => if spec_index_closer(ns, st, step.state) {
            seq![spec_index_item_key(blob, ns, item)] + spec_index_item_keys(blob, ns, step.state)
        } else {
            Seq::empty()
        },
        None => Seq::empty(),
    }
}

/// The properties of `node` from the number `q` on.
pub open spec fn spec_prop_keys_from(blob: Seq<u8>, node: NodeModel, q: int) -> Seq<ItemKey>
    decreases node.props.len() - q,
{
    if q < 0 || q >= node.props.len() {
        Seq::empty()
    } else {
        seq![spec_prop_key(blob, node.props[q])] + spec_prop_keys_from(blob, node, q + 1)
    }
}

/// The nodes of `ns` from the number `i` on, each followed by its properties.
pub open spec fn spec_tree_keys_from(blob: Seq<u8>, ns: Seq<NodeModel>, i: int) -> Seq<ItemKey>
    decreases ns.len() - i,
{
    if i < 0 || i >= ns.len() {
        Seq::empty()
    } else {
        seq![spec_node_key(blob, ns[i])] + spec_prop_keys_from(blob, ns[i], 0)
            + spec_tree_keys_from(blob, ns, i + 1)
    }
}

/// Tells whether the first node of `ns` is the only one without a parent.
pub open spec fn spec_single_root(ns: Seq<NodeModel>) -> bool {
    forall|i: int| 0 < i < ns.len() ==> (#[trigger] ns[i]).parent is Some
}

/// A property more at the end of a node is an item more at the end of its items.
proof fn lemma_prop_keys_push(blob: Seq<u8>, node: NodeModel, prop: PropModel, q: int)
    requires
        0 <= q <= node.props.len(),
    ensures
        spec_prop_keys_from(blob, NodeModel { props: node.props.push(prop), ..node }, q)
            == spec_prop_keys_from(blob, node, q) + seq![spec_prop_key(blob, prop)],
    decreases node.props.len() - q,
{
    let grown = NodeModel { props: node.props.push(prop), ..node };
    if q < node.props.len() {
        lemma_prop_keys_push(blob, node, prop, q + 1);
        assert(grown.props[q] == node.props[q]);
        assert(spec_prop_keys_from(blob, grown, q) =~= spec_prop_keys_from(blob, node, q)
            + seq![spec_prop_key(blob, prop)]);
    } else {
        assert(grown.props[q] == prop);
        assert(spec_prop_keys_from(blob, grown, q + 1) =~= Seq::<ItemKey>::empty());
        assert(spec_prop_keys_from(blob, grown, q) =~= spec_prop_keys_from(blob, node, q)
            + seq![spec_prop_key(blob, prop)]);
    }
}

/// The items of a node depend on its name and its properties alone.
proof fn lemma_prop_keys_same(blob: Seq<u8>, a: NodeModel, b: NodeModel, q: int)
    requires
        a.props == b.props,
    ensures
        spec_prop_keys_from(blob, a, q) == spec_prop_keys_from(blob, b, q),
    decreases a.props.len() - q,
{
    if 0 <= q < a.props.len() {
        lemma_prop_keys_same(blob, a, b, q + 1);
    }
}

/// A node without properties more at the end of a row is an item more at the end of its
/// items.
proof fn lemma_tree_keys_push(blob: Seq<u8>, ns: Seq<NodeModel>, node: NodeModel, i: int)
    requires
        0 <= i <= ns.len(),
        node.props.len() == 0,
    ensures
        spec_tree_keys_from(blob, ns.push(node), i) == spec_tree_keys_from(blob, ns, i)
            + seq![spec_node_key(blob, node)],
    decreases ns.len() - i,
{
    let ns2 = ns.push(node);
    if i < ns.len() {
        lemma_tree_keys_push(blob, ns, node, i + 1);
        assert(ns2[i] == ns[i]);
        assert(spec_tree_keys_from(blob, ns2, i) =~= spec_tree_keys_from(blob, ns, i)
            + seq![spec_node_key(blob, node)]);
    } else {
        assert(ns2[i] == node);
        assert(spec_tree_keys_from(blob, ns2, i + 1) =~= Seq::<ItemKey>::empty());
        assert(spec_prop_keys_from(blob, node, 0) =~= Seq::<ItemKey>::empty());
        assert(spec_tree_keys_from(blob, ns2, i) =~= spec_tree_keys_from(blob, ns, i)
            + seq![spec_node_key(blob, node)]);
    }
}

/// A property more at the end of the last node of a row is an item more at the end of
/// its items.
proof fn lemma_tree_keys_grow(blob: Seq<u8>, ns: Seq<NodeModel>, prop: PropModel, i: int)
    requires
        ns.len() > 0,
        0 <= i < ns.len(),
    ensures
        spec_tree_keys_from(
            blob,
            ns.update(ns.len() - 1, NodeModel { props: ns.last().props.push(prop), ..ns.last() }),
            i,
        ) == spec_tree_keys_from(blob, ns, i) + seq![spec_prop_key(blob, prop)],
    decreases ns.len() - i,
{
    let last = ns.last();
    let grown = NodeModel { props: last.props.push(prop), ..last };
    let ns2 = ns.update(ns.len() - 1, grown);
    if i < ns.len() - 1 {
        lemma_tree_keys_grow(blob, ns, prop, i + 1);
        assert(ns2[i] == ns[i]);
        assert(spec_tree_keys_from(blob, ns2, i) =~= spec_tree_keys_from(blob, ns, i)
            + seq![spec_prop_key(blob, prop)]);
    } else {
        assert(ns2[i] == grown);
        lemma_prop_keys_push(blob, last, prop, 0);
        assert(spec_tree_keys_from(blob, ns2, i + 1) =~= Seq::<ItemKey>::empty());
        assert(spec_tree_keys_from(blob, ns, i + 1) =~= Seq::<ItemKey>::empty());
        assert(spec_tree_keys_from(blob, ns2, i) =~= spec_tree_keys_from(blob, ns, i)
            + seq![spec_prop_key(blob, prop)]);
    }
}

/// Tells whether the build pass in the state `bs` and the in-order parser in the state
/// `st` stand at the same token, and agree on whether properties may follow.
pub open spec fn spec_states_agree(bs: BuildState, st: IterState, off: int) -> bool {
    &&& st.offset == off
    &&& (st.parent is Some) == bs.in_header
    &&& bs.in_header ==> bs.nodes.len() > 0
}

/// The nodes and properties that the build pass adds to its state are the items that the
/// in-order parser hands out from the same token on.
pub proof fn lemma_build_keys(buf: Seq<u8>, off: int, bs: BuildState, st: IterState, cap: int)
    requires
        spec_build(buf, off, bs, cap) is Ok,
        spec_states_agree(bs, st, off),
    ensures
        spec_tree_keys_from(buf, spec_build(buf, off, bs, cap)->Ok_0, 0) == spec_tree_keys_from(
            buf,
            bs.nodes,
            0,
        ) + spec_item_keys(buf, st),
    decreases buf.len() + 4 - off,
{
    lemma_token_bounds(buf, off);
    let step = spec_next_token(buf, off);
    let ns = spec_build(buf, off, bs, cap)->Ok_0;
    match step.result {
        Err(_) => {},
        Ok(None) => {
            assert(spec_item_keys(buf, st) =~= Seq::<ItemKey>::empty());
            assert(spec_tree_keys_from(buf, bs.nodes, 0) + spec_item_keys(buf, st)
                =~= spec_tree_keys_from(buf, bs.nodes, 0));
        },
        Ok(Some(tok)) => {
            let next = spec_build_token(bs, tok, cap)->Ok_0;
            match tok {
                Token::BeginNode { name_start, name_len } => {
                    let item = spec_next_item(buf, st);
                    let node = next.nodes.last();
                    lemma_build_keys(buf, step.next_off, next, item.state, cap);
                    lemma_tree_keys_push(buf, bs.nodes, node, 0);
                    assert(spec_item_keys(buf, st) =~= seq![spec_node_key(buf, node)]
                        + spec_item_keys(buf, item.state));
                    assert(spec_tree_keys_from(buf, ns, 0) =~= spec_tree_keys_from(
                        buf,
                        bs.nodes,
                        0,
                    ) + spec_item_keys(buf, st));
                },
                Token::Prop { value_start, value_len, name_offset } => {
                    let item = spec_next_item(buf, st);
                    let prop = PropModel { value_start, value_len, name_offset };
                    lemma_build_keys(buf, step.next_off, next, item.state, cap);
                    lemma_tree_keys_grow(buf, bs.nodes, prop, 0);
                    assert(spec_item_keys(buf, st) =~= seq![spec_prop_key(buf, prop)]
                        + spec_item_keys(buf, item.state));
                    assert(spec_tree_keys_from(buf, ns, 0) =~= spec_tree_keys_from(
                        buf,
                        bs.nodes,
                        0,
                    ) + spec_item_keys(buf, st));
                },
                Token::EndNode => {
                    let skipped = IterState {
                        offset: st.offset + 4,
                        depth: st.depth - 1,
                        parent: None,
                    };
                    lemma_build_keys(buf, step.next_off, next, skipped, cap);
                    lemma_same_step(buf, st, skipped);
                },
                Token::Nop => {
                    let skipped = IterState {
                        offset: st.offset + 4,
                        depth: st.depth,
                        parent: st.parent,
                    };
                    lemma_build_keys(buf, step.next_off, next, skipped, cap);
                    lemma_same_step(buf, st, skipped);
                },
            }
        },
    }
}

/// In a tree with one root, the node that follows a node in the order of the blob is the
/// node behind it in the row.
pub proof fn lemma_dfs_is_next(ns: Seq<NodeModel>, i: int)
    requires
        spec_tree_wf(ns),
        spec_single_root(ns),
        0 <= i < ns.len(),
    ensures
        spec_next_dfs(ns, i) == (if i + 1 < ns.len() {
            Some(i + 1)
        } else {
            None
        }),
{
    if i + 1 < ns.len() {
        assert(spec_node_wf(ns, i + 1));
        assert(ns[i + 1].parent is Some);
        if ns[i + 1].parent != Some(i) {
            let j = ns[i + 1].parent.unwrap();
            assert(ns[i].depth > ns[j].depth);
            lemma_subtree_end_is(ns, i, i + 1, i + 1);
        }
    } else {
        lemma_subtree_end_is(ns, i, i + 1, ns.len() as int);
    }
}

/// A walk over the index of a tree with one root hands out what is left of the node it
/// stands at, and then the nodes behind it in the row, each followed by its properties.
pub proof fn lemma_index_keys(blob: Seq<u8>, ns: Seq<NodeModel>, st: IndexIterState)
    requires
        spec_tree_wf(ns),
        spec_single_root(ns),
        spec_index_state_wf(ns, st),
        st.node matches Some(i) && st.prop_idx <= ns[i].props.len(),
    ensures
        spec_index_item_keys(blob, ns, st) == (if st.initial_node_returned {
            Seq::<ItemKey>::empty()
        } else {
            seq![spec_node_key(blob, ns[st.node.unwrap()])]
        }) + spec_prop_keys_from(blob, ns[st.node.unwrap()], st.prop_idx) + spec_tree_keys_from(
            blob,
            ns,
            st.node.unwrap() + 1,
        ),
    decreases spec_nodes_left(ns, st), spec_items_left(ns, st),
{
    let i = st.node.unwrap();
    let step = spec_index_next(ns, st);
    lemma_index_next(ns, st);
    lemma_dfs_is_next(ns, i);
    if !st.initial_node_returned {
        lemma_index_keys(blob, ns, step.state);
        assert(spec_index_item_keys(blob, ns, st) =~= seq![spec_node_key(blob, ns[i])]
            + spec_prop_keys_from(blob, ns[i], st.prop_idx) + spec_tree_keys_from(blob, ns, i + 1));
    } else if st.prop_idx < ns[i].props.len() {
        lemma_index_keys(blob, ns, step.state);
        assert(spec_index_item_keys(blob, ns, st) =~= Seq::<ItemKey>::empty()
            + spec_prop_keys_from(blob, ns[i], st.prop_idx) + spec_tree_keys_from(blob, ns, i + 1));
    } else if i + 1 < ns.len() {
        lemma_index_keys(blob, ns, step.state);
        assert(spec_prop_keys_from(blob, ns[i], st.prop_idx) =~= Seq::<ItemKey>::empty());
        assert(spec_index_item_keys(blob, ns, st) =~= Seq::<ItemKey>::empty()
            + spec_prop_keys_from(blob, ns[i], st.prop_idx) + spec_tree_keys_from(blob, ns, i + 1));
    } else {
        assert(spec_prop_keys_from(blob, ns[i], st.prop_idx) =~= Seq::<ItemKey>::empty());
        assert(spec_tree_keys_from(blob, ns, i + 1) =~= Seq::<ItemKey>::empty());
        assert(spec_index_item_keys(blob, ns, st) =~= Seq::<ItemKey>::empty()
            + spec_prop_keys_from(blob, ns[i], st.prop_idx) + spec_tree_keys_from(blob, ns, i + 1));
    }
}

/// The state of a walk over a whole index.
pub open spec fn spec_index_start() -> IndexIterState {
    IndexIterState { node: Some(0), prop_idx: 0, initial_node_returned: false }
}

/// The walk over the whole index of a tree with one root hands out the items that the
/// in-order parser hands out of the blob, in the same order: the same nodes with the same
/// names, and the same properties with the same names and values.
pub proof fn lemma_index_is_blob_order(index: &DevTreeIndex)
    requires
        index.wf(),
        spec_single_root(index@),
    ensures
        spec_index_item_keys(index.blob(), index@, spec_index_start()) == spec_item_keys(
            index.blob(),
            spec_start_state(index.blob()),
        ),
{
    let blob = index.blob();
    let ns = index@;
    let cap = spec_word_count(index.arena().len() as int);
    lemma_build_keys(
        blob,
        spec_be_u32(blob, 8),
        spec_build_start(),
        spec_start_state(blob),
        cap,
    );
    lemma_index_keys(blob, ns, spec_index_start());
    assert(spec_tree_keys_from(blob, spec_build_start().nodes, 0) =~= Seq::<ItemKey>::empty());
    assert(spec_index_item_keys(blob, ns, spec_index_start()) =~= spec_tree_keys_from(blob, ns, 0));
    assert(spec_tree_keys_from(blob, ns, 0) =~= spec_item_keys(blob, spec_start_state(blob)));
}

/// The names of the nodes that a walk over the index of the tree `ns` in `blob` hands out
/// from the state `st` on, when it is asked for nodes.
pub open spec fn spec_index_node_names(blob: Seq<u8>, ns: Seq<NodeModel>, st: IndexIterState) -> Seq<
    Seq<u8>,
>
    decreases spec_nodes_left(ns, st), spec_items_left(ns, st),
{
    let step = spec_index_next_node(ns, st);
    match step.item {
        Some(IndexItemView::Node(i)) => if spec_index_closer(ns, st, step.state) {
            seq![blob.subrange(ns[i].name_start, ns[i].name_start + ns[i].name_len)]
                + spec_index_node_names(blob, ns, step.state)
        } else {
            Seq::empty()
        },
        _ => Seq::empty(),
    }
}

/// The nodes that a walk over an index hands out when it is asked for nodes are the nodes
/// among the items that it hands out.
pub proof fn lemma_index_node_names(blob: Seq<u8>, ns: Seq<NodeModel>, st: IndexIterState)
    requires
        spec_index_state_wf(ns, st),
    ensures
        spec_index_node_names(blob, ns, st) == spec_key_names(spec_index_item_keys(blob, ns, st)),
    decreases spec_nodes_left(ns, st), spec_items_left(ns, st),
{
    lemma_index_next(ns, st);
    let step = spec_index_next(ns, st);
    match step.item {
        Some(item) => {
            let keys = spec_index_item_keys(blob, ns, st);
            assert(keys.subrange(1, keys.len() as int) =~= spec_index_item_keys(
                blob,
                ns,
                step.state,
            ));
            lemma_index_node_names(blob, ns, step.state);
            match item {
                IndexItemView::Node(_) => {},
                IndexItemView::Prop(_, _) => {
                    lemma_index_next_node(ns, step.state);
                },
            }
        },
        None => {},
    }
}

/// The walk over the nodes of the index of a tree with one root hands out the nodes that
/// the in-order parser hands out of the blob, with the same names in the same order.
pub proof fn lemma_index_nodes_are_blob_order(index: &DevTreeIndex)
    requires
        index.wf(),
        spec_single_root(index@),
    ensures
        spec_index_node_names(index.blob(), index@, spec_index_start()) == spec_node_names(
            index.blob(),
            spec_start_state(index.blob()),
        ),
{
    lemma_index_is_blob_order(index);
    lemma_index_node_names(index.blob(), index@, spec_index_start());
    lemma_node_names(index.blob(), spec_start_state(index.blob()));
}

/// The properties of a node from the number `q` on are as many items, none of them a
/// node.
proof fn lemma_prop_key_counts(blob: Seq<u8>, node: NodeModel, q: int)
    requires
        0 <= q <= node.props.len(),
    ensures
        spec_key_names(spec_prop_keys_from(blob, node, q)).len() == 0,
        spec_key_props(spec_prop_keys_from(blob, node, q)).len() == node.props.len() - q,
    decreases node.props.len() - q,
{
    if q < node.props.len() {
        lemma_prop_key_counts(blob, node, q + 1);
        let keys = spec_prop_keys_from(blob, node, q);
        assert(keys.subrange(1, keys.len() as int) =~= spec_prop_keys_from(blob, node, q + 1));
    }
}

/// The records of the nodes of a tree from the number `i` on take six words for each node
/// and three for each property among its items.
proof fn lemma_tree_key_counts(blob: Seq<u8>, ns: Seq<NodeModel>, i: int)
    requires
        spec_tree_wf(ns),
        0 <= i <= ns.len(),
    ensures
        6 * spec_key_names(spec_tree_keys_from(blob, ns, i)).len() + 3 * spec_key_props(
            spec_tree_keys_from(blob, ns, i),
        ).len() == spec_front(ns) - (if i < ns.len() {
            ns[i].slot
        } else {
            spec_front(ns)
        }),
    decreases ns.len() - i,
{
    if i < ns.len() {
        lemma_tree_key_counts(blob, ns, i + 1);
        lemma_prop_key_counts(blob, ns[i], 0);
        let head = seq![spec_node_key(blob, ns[i])];
        let props = spec_prop_keys_from(blob, ns[i], 0);
        let rest = spec_tree_keys_from(blob, ns, i + 1);
        lemma_keys_concat(head + props, rest);
        lemma_keys_concat(head, props);
        let tail = head.subrange(1, head.len() as int);
        assert(tail.len() == 0);
        assert(spec_key_names(tail).len() == 0);
        assert(spec_key_props(tail).len() == 0);
        assert(head[0] == spec_node_key(blob, ns[i]));
        assert(spec_key_names(head).len() == 1);
        assert(spec_key_props(head).len() == 0);
        if i + 1 < ns.len() {
            assert(spec_node_wf(ns, i + 1));
        }
    }
}

/// The numbers of nodes and properties that are counted for the layout of an index are
/// the numbers of nodes and properties among the items that the parser hands out.
proof fn lemma_count_is_keys(buf: Seq<u8>, st: IterState)
    requires
        spec_count_items(buf, st) is Ok,
    ensures
        spec_count_items(buf, st)->Ok_0.0 == spec_key_names(
            spec_item_keys(buf, st),
        ).len(),
        spec_count_items(buf, st)->Ok_0.1 == spec_key_props(
            spec_item_keys(buf, st),
        ).len(),
    decreases buf.len() + 4 - st.offset,
{
    lemma_next_item_moves(buf, st);
    let step = spec_next_item(buf, st);
    match step.result {
        Ok(Some((item, _))) => {
            lemma_count_is_keys(buf, step.state);
            let keys = spec_item_keys(buf, st);
            assert(keys.subrange(1, keys.len() as int) =~= spec_item_keys(buf, step.state));
        },
        _ => {},
    }
}

/// Where the build pass comes to its end, the in-order parser comes to the end of the
/// block too, and the count for the layout succeeds.
proof fn lemma_build_counts(buf: Seq<u8>, off: int, bs: BuildState, st: IterState, cap: int)
    requires
        spec_build(buf, off, bs, cap) is Ok,
        spec_states_agree(bs, st, off),
    ensures
        spec_count_items(buf, st) is Ok,
    decreases buf.len() + 4 - off,
{
    lemma_token_bounds(buf, off);
    let step = spec_next_token(buf, off);
    match step.result {
        Ok(Some(tok)) => {
            let next = spec_build_token(bs, tok, cap)->Ok_0;
            match tok {
                Token::EndNode => {
                    let skipped = IterState {
                        offset: st.offset + 4,
                        depth: st.depth - 1,
                        parent: None,
                    };
                    lemma_build_counts(buf, step.next_off, next, skipped, cap);
                    lemma_next_item_moves(buf, skipped);
                },
                Token::Nop => {
                    let skipped = IterState {
                        offset: st.offset + 4,
                        depth: st.depth,
                        parent: st.parent,
                    };
                    lemma_build_counts(buf, step.next_off, next, skipped, cap);
                    lemma_next_item_moves(buf, skipped);
                },
                _ => {
                    lemma_build_counts(buf, step.next_off, next, spec_next_item(buf, st).state, cap);
                },
            }
        },
        _ => {},
    }
}

/// The records that the build pass adds to its state need the work buffer that they take
/// at the end, and no more: with as many words or more, the pass gives the same tree; with
/// fewer, it runs out of memory.
pub proof fn lemma_build_needs(buf: Seq<u8>, off: int, bs: BuildState, cap: int, other: int)
    requires
        spec_build(buf, off, bs, cap) is Ok,
        spec_front(bs.nodes) <= other,
        bs.in_header ==> bs.nodes.len() > 0,
    ensures
        spec_front(bs.nodes) <= spec_front(spec_build(buf, off, bs, cap)->Ok_0) <= cap || (
        spec_front(bs.nodes) > cap),
        other >= spec_front(spec_build(buf, off, bs, cap)->Ok_0) ==> spec_build(
            buf,
            off,
            bs,
            other,
        ) == spec_build(buf, off, bs, cap),
        other < spec_front(spec_build(buf, off, bs, cap)->Ok_0) ==> spec_build(
            buf,
            off,
            bs,
            other,
        ) == Err::<Seq<NodeModel>, DevTreeError>(DevTreeError::NotEnoughMemory),
    decreases buf.len() + 4 - off,
{
    let step = spec_next_token(buf, off);
    let ns = spec_build(buf, off, bs, cap)->Ok_0;
    match step.result {
        Ok(Some(tok)) => {
            let next = spec_build_token(bs, tok, cap)->Ok_0;
            if spec_front(next.nodes) <= other {
                assert(spec_build_token(bs, tok, other) == Ok::<BuildState, DevTreeError>(next));
                lemma_build_needs(buf, step.next_off, next, cap, other);
            } else {
                lemma_build_needs(buf, step.next_off, next, cap, spec_front(next.nodes));
                assert(spec_build_token(bs, tok, other) == Err::<BuildState, DevTreeError>(
                    DevTreeError::NotEnoughMemory,
                ));
            }
        },
        _ => {},
    }
}

/// The layout of an index is exact: for a blob that has an index, the count for the
/// layout gives the number of bytes that the records take; a work buffer of `len` bytes
/// holds the index where `len` is that number or more, and is `NotEnoughMemory` where it
/// is less.
pub proof fn lemma_layout_is_exact(index: &DevTreeIndex, len: int)
    requires
        index.wf(),
        0 <= len,
    ensures
        spec_count_items(index.blob(), spec_start_state(index.blob()))
            matches Ok((nodes, props)) && spec_records_size(nodes, props) == 8
            * spec_front(index@) && (len >= spec_records_size(nodes, props)
            ==> spec_index_nodes(index.blob(), spec_word_count(len)) == Ok::<
            Seq<NodeModel>,
            DevTreeError,
        >(index@)) && (len < spec_records_size(nodes, props)
            ==> spec_index_nodes(index.blob(), spec_word_count(len)) == Err::<
            Seq<NodeModel>,
            DevTreeError,
        >(DevTreeError::NotEnoughMemory)),
{
    let blob = index.blob();
    let cap = spec_word_count(index.arena().len() as int);
    let start = spec_start_state(blob);
    let ns = index@;
    lemma_build_counts(blob, spec_be_u32(blob, 8), spec_build_start(), start, cap);
    lemma_count_is_keys(blob, start);
    lemma_build_keys(blob, spec_be_u32(blob, 8), spec_build_start(), start, cap);
    assert(spec_tree_keys_from(blob, spec_build_start().nodes, 0) =~= Seq::<ItemKey>::empty());
    assert(spec_tree_keys_from(blob, ns, 0) =~= spec_item_keys(blob, start));
    lemma_tree_key_counts(blob, ns, 0);
    assert(spec_node_wf(ns, 0));
    lemma_build_needs(
        blob,
        spec_be_u32(blob, 8),
        spec_build_start(),
        cap,
        spec_word_count(len),
    );
}

/// Tells whether the nodes that the in-order parser hands out from the state `st` on lie
/// below a root: at depth 1 or deeper. Where `first` holds, the first of them may lie at
/// any depth: it is the root.
pub open spec fn spec_nodes_below_root(buf: Seq<u8>, st: IterState, first: bool) -> bool
    decreases buf.len() + 4 - st.offset,
{
    let step = spec_next_item(buf, st);
    match step.result {
        Ok(Some((item, depth))) => (item is Node ==> first || depth >= 1) && (st.offset
            < step.state.offset <= buf.len() + 4 ==> spec_nodes_below_root(
            buf,
            step.state,
            first && !(item is Node),
        )),
        _ => true,
    }
}

/// Tells whether the structure block of `blob` holds one tree: every node but the first
/// lies below the first.
pub open spec fn spec_one_tree(blob: Seq<u8>) -> bool {
    spec_nodes_below_root(blob, spec_start_state(blob), true)
}

/// Tells whether every node of `ns` is one level below its parent, and at the top where it
/// has none.
pub open spec fn spec_depths_follow(ns: Seq<NodeModel>) -> bool {
    forall|k: int|
        0 <= k < ns.len() ==> (#[trigger] ns[k]).depth >= 0 && match ns[k].parent {
            Some(j) => 0 <= j < ns.len() && ns[k].depth == ns[j].depth + 1,
            None => ns[k].depth == 0,
        }
}

/// The depth at which the build pass stands: the depth of the node that is open, and -1
/// where none is.
pub open spec fn spec_build_depth(bs: BuildState) -> int {
    match bs.cur {
        Some(c) => bs.nodes[c].depth,
        None => -1,
    }
}

/// Where the parser hands out one tree, every node that the build pass adds has a parent,
/// the first node excepted.
proof fn lemma_build_one_root(buf: Seq<u8>, off: int, bs: BuildState, st: IterState, cap: int)
    requires
        spec_build(buf, off, bs, cap) is Ok,
        spec_states_agree(bs, st, off),
        st.depth == spec_build_depth(bs),
        bs.cur matches Some(c) ==> 0 <= c < bs.nodes.len(),
        spec_depths_follow(bs.nodes),
        spec_single_root(bs.nodes),
        spec_nodes_below_root(buf, st, bs.nodes.len() == 0),
    ensures
        spec_single_root(spec_build(buf, off, bs, cap)->Ok_0),
    decreases buf.len() + 4 - off,
{
    lemma_token_bounds(buf, off);
    let step = spec_next_token(buf, off);
    match step.result {
        Ok(Some(tok)) => {
            let next = spec_build_token(bs, tok, cap)->Ok_0;
            let ns = bs.nodes;
            let ns2 = next.nodes;
            match tok {
                Token::BeginNode { name_start, name_len } => {
                    let item = spec_next_item(buf, st);
                    assert forall|k: int| 0 <= k < ns2.len() implies (#[trigger] ns2[k]).depth >= 0
                        && match ns2[k].parent {
                        Some(j) => 0 <= j < ns2.len() && ns2[k].depth == ns2[j].depth + 1,
                        None => ns2[k].depth == 0,
                    } by {
                        if k < ns.len() {
                            assert(ns2[k] == ns[k]);
                            match ns[k].parent {
                                Some(j) => {
                                    assert(ns2[j] == ns[j]);
                                },
                                None => {},
                            }
                        } else {
                            match bs.cur {
                                Some(c) => {
                                    assert(ns2[c] == ns[c]);
                                    assert(ns[c].depth >= 0);
                                },
                                None => {},
                            }
                        }
                    }
                    assert forall|k: int| 0 < k < ns2.len() implies (#[trigger] ns2[k]).parent
                        is Some by {
                        if k < ns.len() {
                            assert(ns2[k] == ns[k]);
                        }
                    }
                    lemma_build_one_root(buf, step.next_off, next, item.state, cap);
                },
                Token::Prop { value_start, value_len, name_offset } => {
                    let item = spec_next_item(buf, st);
                    assert forall|k: int| 0 <= k < ns2.len() implies (#[trigger] ns2[k]).depth >= 0
                        && match ns2[k].parent {
                        Some(j) => 0 <= j < ns2.len() && ns2[k].depth == ns2[j].depth + 1,
                        None => ns2[k].depth == 0,
                    } by {
                        assert(ns[k].depth >= 0);
                    }
                    assert forall|k: int| 0 < k < ns2.len() implies (#[trigger] ns2[k]).parent
                        is Some by {
                        assert(ns[k].parent is Some);
                    }
                    lemma_build_one_root(buf, step.next_off, next, item.state, cap);
                },
                Token::EndNode => {
                    let skipped = IterState {
                        offset: st.offset + 4,
                        depth: st.depth - 1,
                        parent: None,
                    };
                    let c = bs.cur.unwrap();
                    assert(ns[c].depth >= 0);
                    lemma_next_item_moves(buf, skipped);
                    assert(spec_nodes_below_root(buf, skipped, bs.nodes.len() == 0));
                    lemma_build_one_root(buf, step.next_off, next, skipped, cap);
                },
                Token::Nop => {
                    let skipped = IterState {
                        offset: st.offset + 4,
                        depth: st.depth,
                        parent: st.parent,
                    };
                    lemma_next_item_moves(buf, skipped);
                    assert(spec_nodes_below_root(buf, skipped, bs.nodes.len() == 0));
                    lemma_build_one_root(buf, step.next_off, next, skipped, cap);
                },
            }
        },
        _ => {},
    }
}

/// The index of a blob that holds one tree has one root.
pub proof fn lemma_one_tree_one_root(index: &DevTreeIndex)
    requires
        index.wf(),
        spec_one_tree(index.blob()),
    ensures
        spec_single_root(index@),
{
    let blob = index.blob();
    lemma_build_one_root(
        blob,
        spec_be_u32(blob, 8),
        spec_build_start(),
        spec_start_state(blob),
        spec_word_count(index.arena().len() as int),
    );
}

/// For a blob that holds one tree, the walk over the whole index hands out the items that
/// the in-order parser hands out, in the same order, and the walk over its nodes hands
/// out the nodes that the parser hands out, with the same names in the same order.
pub proof fn lemma_index_agrees_with_parser(index: &DevTreeIndex)
    requires
        index.wf(),
        spec_one_tree(index.blob()),
    ensures
        spec_index_item_keys(index.blob(), index@, spec_index_start()) == spec_item_keys(
            index.blob(),
            spec_start_state(index.blob()),
        ),
        spec_index_node_names(index.blob(), index@, spec_index_start()) == spec_node_names(
            index.blob(),
            spec_start_state(index.blob()),
        ),
{
    lemma_one_tree_one_root(index);
    lemma_index_is_blob_order(index);
    lemma_index_nodes_are_blob_order(index);
}

/// The nodes that the search for nodes compatible with `s` hands out from the state `st`
/// of a walk over an index on, one search after the other.
pub open spec fn spec_index_compatible_nodes(
    blob: Seq<u8>,
    ns: Seq<NodeModel>,
    st: IndexIterState,
    s: Seq<u8>,
) -> Seq<int>
    decreases spec_nodes_left(ns, st), spec_items_left(ns, st),
{
    let step = spec_index_next_compatible(blob, ns, st, s);
    match step.item {
        Some(IndexItemView::Node(i)) => if spec_index_closer(ns, st, step.state) {
            seq![i] + spec_index_compatible_nodes(blob, ns, step.state, s)
        } else {
            Seq::empty()
        },
        _ => Seq::empty(),
    }
}

/// Tells whether one of the properties of the node number `i` from the number `q` on is
/// compatible with `s`.
pub open spec fn spec_index_node_matches(
    blob: Seq<u8>,
    ns: Seq<NodeModel>,
    i: int,
    q: int,
    s: Seq<u8>,
) -> bool
    decreases ns[i].props.len() - q,
{
    if q < 0 || q >= ns[i].props.len() {
        false
    } else {
        spec_index_prop_compatible(blob, ns, i, q, s) == Ok::<bool, DevTreeError>(true)
            || spec_index_node_matches(blob, ns, i, q + 1, s)
    }
}

/// The nodes of `ns` from the number `i` on that have a property compatible with `s`.
pub open spec fn spec_index_matching_nodes(blob: Seq<u8>, ns: Seq<NodeModel>, i: int, s: Seq<u8>) -> Seq<
    int,
>
    decreases ns.len() - i,
{
    if i < 0 || i >= ns.len() {
        Seq::empty()
    } else {
        (if spec_index_node_matches(blob, ns, i, 0, s) {
            seq![i]
        } else {
            Seq::empty()
        }) + spec_index_matching_nodes(blob, ns, i + 1, s)
    }
}

/// Tells whether every property of `ns` can be asked whether it is compatible with `s`.
pub open spec fn spec_index_props_readable(blob: Seq<u8>, ns: Seq<NodeModel>, s: Seq<u8>) -> bool {
    forall|i: int, q: int|
        0 <= i < ns.len() && 0 <= q < ns[i].props.len() ==> (#[trigger] spec_index_prop_compatible(
            blob,
            ns,
            i,
            q,
            s,
        )) is Ok
}

/// The nodes that a walk over the properties of an index hands out from the state `st` on,
/// when it starts in the middle of a search.
pub open spec fn spec_index_scan_nodes(
    blob: Seq<u8>,
    ns: Seq<NodeModel>,
    st: IndexIterState,
    s: Seq<u8>,
) -> Seq<int> {
    let step = spec_index_scan_compatible(blob, ns, st, s);
    match step.item {
        Some(IndexItemView::Node(i)) => if spec_index_closer(ns, st, step.state) {
            seq![i] + spec_index_compatible_nodes(blob, ns, step.state, s)
        } else {
            Seq::empty()
        },
        _ => Seq::empty(),
    }
}

/// A walk over the properties of an index that finds a compatible one comes closer to the
/// end, and stands at the node that it hands out.
proof fn lemma_index_scan_closer(blob: Seq<u8>, ns: Seq<NodeModel>, st: IndexIterState, s: Seq<u8>)
    requires
        spec_index_state_wf(ns, st),
    ensures
        spec_index_state_wf(ns, spec_index_scan_compatible(blob, ns, st, s).state),
        spec_index_scan_compatible(blob, ns, st, s).item is Some ==> spec_index_closer(
            ns,
            st,
            spec_index_scan_compatible(blob, ns, st, s).state,
        ),
    decreases spec_nodes_left(ns, st), spec_items_left(ns, st),
{
    lemma_index_next_prop(ns, st);
    let step = spec_index_next_prop(ns, st);
    match step.item {
        Some(IndexItemView::Prop(i, q)) => {
            if spec_index_prop_compatible(blob, ns, i, q, s) == Ok::<bool, DevTreeError>(false) {
                lemma_index_scan_closer(blob, ns, step.state, s);
            }
        },
        _ => {},
    }
}

/// In the index of a tree with one root, the search for nodes compatible with `s` hands
/// out exactly the nodes that have a property compatible with `s`, in the order of the
/// blob, as long as every property can be read.
pub proof fn lemma_index_compatible_nodes(
    blob: Seq<u8>,
    ns: Seq<NodeModel>,
    st: IndexIterState,
    s: Seq<u8>,
)
    requires
        spec_tree_wf(ns),
        spec_single_root(ns),
        spec_index_props_readable(blob, ns, s),
        spec_index_state_wf(ns, st),
        st.node matches Some(i) && st.prop_idx <= ns[i].props.len(),
    ensures
        spec_index_compatible_nodes(blob, ns, st, s) == (if st.initial_node_returned {
            spec_index_matching_nodes(blob, ns, st.node.unwrap() + 1, s)
        } else {
            (if spec_index_node_matches(blob, ns, st.node.unwrap(), st.prop_idx, s) {
                seq![st.node.unwrap()]
            } else {
                Seq::empty()
            }) + spec_index_matching_nodes(blob, ns, st.node.unwrap() + 1, s)
        }),
        st.initial_node_returned ==> spec_index_scan_nodes(blob, ns, st, s) == (
        if spec_index_node_matches(blob, ns, st.node.unwrap(), st.prop_idx, s) {
            seq![st.node.unwrap()]
        } else {
            Seq::empty()
        }) + spec_index_matching_nodes(blob, ns, st.node.unwrap() + 1, s),
    decreases spec_nodes_left(ns, st), spec_items_left(ns, st),
{
    let i = st.node.unwrap();
    let q = st.prop_idx;
    let it = spec_index_next(ns, st);
    let st1 = it.state;
    lemma_index_next(ns, st);
    lemma_dfs_is_next(ns, i);
    let rest = spec_index_matching_nodes(blob, ns, i + 1, s);
    if !st.initial_node_returned {
        // a search starts with the node itself, and walks over its properties from there
        lemma_index_compatible_nodes(blob, ns, st1, s);
        lemma_index_scan_closer(blob, ns, st1, s);
        assert(spec_index_next_node(ns, st) == it);
        assert(spec_index_next_compatible(blob, ns, st, s) == spec_index_scan_compatible(
            blob,
            ns,
            st1,
            s,
        ));
        assert(spec_index_compatible_nodes(blob, ns, st, s) == spec_index_scan_nodes(
            blob,
            ns,
            st1,
            s,
        ));
    } else if q < ns[i].props.len() {
        lemma_index_compatible_nodes(blob, ns, st1, s);
        lemma_index_next_node(ns, st1);
        lemma_index_scan_closer(blob, ns, st1, s);
        lemma_index_search_closer(blob, ns, st1, s);
        // a search passes over the property
        assert(spec_index_next_node(ns, st) == spec_index_next_node(ns, st1));
        assert(spec_index_next_compatible(blob, ns, st, s) == spec_index_next_compatible(
            blob,
            ns,
            st1,
            s,
        ));
        assert(spec_index_compatible_nodes(blob, ns, st, s) == spec_index_compatible_nodes(
            blob,
            ns,
            st1,
            s,
        ));
        // a walk over properties asks it
        assert(spec_index_next_prop(ns, st) == it);
        assert(spec_index_prop_compatible(blob, ns, i, q, s) is Ok);
        if spec_index_prop_compatible(blob, ns, i, q, s) == Ok::<bool, DevTreeError>(true) {
            assert(spec_index_scan_nodes(blob, ns, st, s) =~= seq![i] + rest);
        } else {
            assert(spec_index_scan_compatible(blob, ns, st, s) == spec_index_scan_compatible(
                blob,
                ns,
                st1,
                s,
            ));
            assert(spec_index_scan_nodes(blob, ns, st, s) == spec_index_scan_nodes(
                blob,
                ns,
                st1,
                s,
            ));
        }
    } else if i + 1 < ns.len() {
        // the node behind comes next: a search goes to it, a walk over properties passes
        // over it
        lemma_index_compatible_nodes(blob, ns, st1, s);
        lemma_index_scan_closer(blob, ns, st1, s);
        lemma_index_next_prop(ns, st1);
        assert(spec_index_next_node(ns, st) == it);
        assert(spec_index_next_compatible(blob, ns, st, s) == spec_index_scan_compatible(
            blob,
            ns,
            st1,
            s,
        ));
        assert(spec_index_compatible_nodes(blob, ns, st, s) == spec_index_scan_nodes(
            blob,
            ns,
            st1,
            s,
        ));
        assert(spec_index_next_prop(ns, st) == spec_index_next_prop(ns, st1));
        assert(spec_index_scan_compatible(blob, ns, st, s) == spec_index_scan_compatible(
            blob,
            ns,
            st1,
            s,
        ));
        assert(spec_index_scan_nodes(blob, ns, st, s) == spec_index_scan_nodes(blob, ns, st1, s));
        assert(spec_index_scan_nodes(blob, ns, st, s) =~= Seq::<int>::empty() + rest);
    } else {
        assert(spec_index_next_node(ns, st) == it);
        assert(spec_index_next_prop(ns, st) == it);
        assert(rest =~= Seq::<int>::empty());
        assert(spec_index_scan_nodes(blob, ns, st, s) =~= Seq::<int>::empty() + rest);
    }
}

/// A search over an index that finds a node comes closer to the end.
proof fn lemma_index_search_closer(blob: Seq<u8>, ns: Seq<NodeModel>, st: IndexIterState, s: Seq<u8>)
    requires
        spec_index_state_wf(ns, st),
    ensures
        spec_index_next_compatible(blob, ns, st, s).item is Some ==> spec_index_closer(
            ns,
            st,
            spec_index_next_compatible(blob, ns, st, s).state,
        ),
{
    lemma_index_next_node(ns, st);
    let first = spec_index_next_node(ns, st);
    lemma_index_scan_closer(blob, ns, first.state, s);
}

/// The search over the whole index of a tree with one root hands out exactly the nodes
/// that have a property compatible with `s`, in the order of the blob, as long as every
/// property can be read.
pub proof fn lemma_index_compatible_walk(index: &DevTreeIndex, s: Seq<u8>)
    requires
        index.wf(),
        spec_single_root(index@),
        spec_index_props_readable(index.blob(), index@, s),
    ensures
        spec_index_compatible_nodes(index.blob(), index@, spec_index_start(), s)
            == spec_index_matching_nodes(index.blob(), index@, 0, s),
{
    lemma_index_compatible_nodes(index.blob(), index@, spec_index_start(), s);
}

} // verus!
