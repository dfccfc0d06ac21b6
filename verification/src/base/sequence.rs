//! What the in-order parser hands out of a blob in all.
use crate::base::iters::{
    lemma_depth_moves, lemma_next_item, lemma_next_item_moves, lemma_prop_parent,
    spec_depth_next, spec_iter_inv, spec_next_compatible, spec_next_item, spec_next_node,
    spec_next_prop, spec_node_at, spec_prop_is_compatible, spec_prop_node, spec_scan_compatible,
    ItemView, IterState, NodeView,
};
use crate::base::parse::{lemma_token_bounds, spec_next_token, Token};
use crate::error::DevTreeError;
use vstd::prelude::*;

verus! {

/// What an item is, apart from where it was read: a node with its name, or a property with
/// the offset of its name in the strings block and with its value.
pub enum ItemKey {
    Node { name: Seq<u8> },
    Prop { name_offset: int, value: Seq<u8> },
}

/// What an item of the in-order parser is.
pub open spec fn spec_item_key(item: ItemView) -> ItemKey {
    match item {
        ItemView::Node(node) => ItemKey::Node { name: node.name },
        ItemView::Prop(prop) => ItemKey::Prop { name_offset: prop.name_offset, value: prop.value },
    }
}

/// The items that the in-order parser hands out from the state `st` on, up to the end of
/// the block or to an error.
pub open spec fn spec_item_keys(buf: Seq<u8>, st: IterState) -> Seq<ItemKey>
    decreases buf.len() + 4 - st.offset,
{
    let step = spec_next_item(buf, st);
    match step.result {
        Ok(Some((item, _))) => if st.offset < step.state.offset <= buf.len() + 4 {
            seq![spec_item_key(item)] + spec_item_keys(buf, step.state)
        } else {
            Seq::empty()
        },
        _ => Seq::empty(),
    }
}

/// The names of the nodes among `keys`, in their order.
pub open spec fn spec_key_names(keys: Seq<ItemKey>) -> Seq<Seq<u8>>
    decreases keys.len(),
{
    if keys.len() == 0 {
        Seq::empty()
    } else {
        match keys[0] {
            ItemKey::Node { name } => seq![name] + spec_key_names(keys.subrange(1, keys.len() as int)),
            ItemKey::Prop { .. } => spec_key_names(keys.subrange(1, keys.len() as int)),
        }
    }
}

/// The properties among `keys`, in their order.
pub open spec fn spec_key_props(keys: Seq<ItemKey>) -> Seq<ItemKey>
    decreases keys.len(),
{
    if keys.len() == 0 {
        Seq::empty()
    } else {
        match keys[0] {
            ItemKey::Node { .. } => spec_key_props(keys.subrange(1, keys.len() as int)),
            ItemKey::Prop { .. } => seq![keys[0]] + spec_key_props(
                keys.subrange(1, keys.len() as int),
            ),
        }
    }
}

/// The names of the nodes that the in-order parser hands out from the state `st` on, when
/// it is asked for nodes.
pub open spec fn spec_node_names(buf: Seq<u8>, st: IterState) -> Seq<Seq<u8>>
    decreases buf.len() + 4 - st.offset,
{
    let step = spec_next_node(buf, st);
    match step.result {
        Ok(Some((ItemView::Node(node), _))) => if st.offset < step.state.offset <= buf.len() + 4 {
            seq![node.name] + spec_node_names(buf, step.state)
        } else {
            Seq::empty()
        },
        _ => Seq::empty(),
    }
}

/// The properties that the in-order parser hands out from the state `st` on, when it is
/// asked for properties.
pub open spec fn spec_prop_keys(buf: Seq<u8>, st: IterState) -> Seq<ItemKey>
    decreases buf.len() + 4 - st.offset,
{
    let step = spec_next_prop(buf, st);
    match step.result {
        Ok(Some((ItemView::Prop(prop), _))) => if st.offset < step.state.offset <= buf.len() + 4 {
            seq![spec_item_key(ItemView::Prop(prop))] + spec_prop_keys(buf, step.state)
        } else {
            Seq::empty()
        },
        _ => Seq::empty(),
    }
}

/// The nodes that the parser hands out when it is asked for nodes are the nodes among the
/// items that it hands out.
pub proof fn lemma_node_names(buf: Seq<u8>, st: IterState)
    ensures
        spec_node_names(buf, st) == spec_key_names(spec_item_keys(buf, st)),
    decreases buf.len() + 4 - st.offset,
{
    lemma_next_item_moves(buf, st);
    let step = spec_next_item(buf, st);
    match step.result {
        Ok(Some((item, _))) => {
            let keys = spec_item_keys(buf, st);
            assert(keys.subrange(1, keys.len() as int) =~= spec_item_keys(buf, step.state));
            lemma_node_names(buf, step.state);
            match item {
                ItemView::Node(node) => {},
                ItemView::Prop(_) => {
                    lemma_next_node_moves(buf, step.state);
                },
            }
        },
        _ => {},
    }
}

/// The properties that the parser hands out when it is asked for properties are the
/// properties among the items that it hands out.
pub proof fn lemma_prop_keys(buf: Seq<u8>, st: IterState)
    ensures
        spec_prop_keys(buf, st) == spec_key_props(spec_item_keys(buf, st)),
    decreases buf.len() + 4 - st.offset,
{
    lemma_next_item_moves(buf, st);
    let step = spec_next_item(buf, st);
    match step.result {
        Ok(Some((item, _))) => {
            let keys = spec_item_keys(buf, st);
            assert(keys.subrange(1, keys.len() as int) =~= spec_item_keys(buf, step.state));
            lemma_prop_keys(buf, step.state);
            match item {
                ItemView::Node(_) => {
                    lemma_next_prop_moves(buf, step.state);
                },
                ItemView::Prop(_) => {},
            }
        },
        _ => {},
    }
}

/// A step that looks for a node and finds one moves the cursor forward, within the blob.
pub proof fn lemma_next_node_moves(buf: Seq<u8>, st: IterState)
    ensures
        spec_next_node(buf, st).result matches Ok(Some(_)) ==> st.offset + 4 <= spec_next_node(
            buf,
            st,
        ).state.offset <= buf.len() + 3,
        spec_next_node(buf, st).result matches Ok(Some((item, _))) ==> item is Node,
    decreases buf.len() + 4 - st.offset,
{
    lemma_next_item_moves(buf, st);
    let step = spec_next_item(buf, st);
    if step.result matches Ok(Some((ItemView::Prop(_), _))) {
        lemma_next_node_moves(buf, step.state);
    }
}

/// A step that looks for a property and finds one moves the cursor forward, within the
/// blob.
pub proof fn lemma_next_prop_moves(buf: Seq<u8>, st: IterState)
    ensures
        spec_next_prop(buf, st).result matches Ok(Some(_)) ==> st.offset + 4 <= spec_next_prop(
            buf,
            st,
        ).state.offset <= buf.len() + 3,
        spec_next_prop(buf, st).result matches Ok(Some((item, _))) ==> item is Prop,
    decreases buf.len() + 4 - st.offset,
{
    lemma_next_item_moves(buf, st);
    let step = spec_next_item(buf, st);
    if step.result matches Ok(Some((ItemView::Node(_), _))) {
        lemma_next_prop_moves(buf, step.state);
    }
}

/// The numbers of tokens that open a node, and of tokens of properties, that the
/// tokenizer returns from `off` on, up to the end of the block or to an error.
pub open spec fn spec_token_counts(buf: Seq<u8>, off: int) -> (int, int)
    decreases buf.len() + 4 - off,
{
    let step = spec_next_token(buf, off);
    match step.result {
        Ok(Some(tok)) => if off < step.next_off <= buf.len() + 4 {
            let rest = spec_token_counts(buf, step.next_off);
            match tok {
                Token::BeginNode { .. } => (rest.0 + 1, rest.1),
                Token::Prop { .. } => (rest.0, rest.1 + 1),
                _ => rest,
            }
        } else {
            (0, 0)
        },
        _ => (0, 0),
    }
}

/// Tells whether the in-order parser comes from the state `st` to the end of the block
/// without an error.
pub open spec fn spec_runs_to_end(buf: Seq<u8>, st: IterState) -> bool
    decreases buf.len() + 4 - st.offset,
{
    let step = spec_next_item(buf, st);
    match step.result {
        Ok(None) => true,
        Err(_) => false,
        Ok(Some(_)) => st.offset < step.state.offset <= buf.len() + 4 && spec_runs_to_end(
            buf,
            step.state,
        ),
    }
}

/// Two states from which the parser takes the same step hand out the same items.
pub proof fn lemma_same_step(buf: Seq<u8>, st: IterState, skipped: IterState)
    requires
        spec_next_item(buf, st) == spec_next_item(buf, skipped),
        st.offset <= skipped.offset,
    ensures
        spec_item_keys(buf, st) == spec_item_keys(buf, skipped),
        spec_runs_to_end(buf, st) == spec_runs_to_end(buf, skipped),
{
    lemma_next_item_moves(buf, skipped);
}

/// Where the parser comes to the end of the block, it hands out a node for each token that
/// opens a node, and a property for each token of a property.
pub proof fn lemma_key_counts(buf: Seq<u8>, st: IterState)
    requires
        spec_runs_to_end(buf, st),
    ensures
        spec_key_names(spec_item_keys(buf, st)).len() == spec_token_counts(buf, st.offset).0,
        spec_key_props(spec_item_keys(buf, st)).len() == spec_token_counts(buf, st.offset).1,
    decreases buf.len() + 4 - st.offset,
{
    lemma_token_bounds(buf, st.offset);
    let step = spec_next_token(buf, st.offset);
    let keys = spec_item_keys(buf, st);
    match step.result {
        Ok(Some(Token::EndNode)) => {
            let skipped = IterState { offset: st.offset + 4, depth: st.depth - 1, parent: None };
            lemma_same_step(buf, st, skipped);
            lemma_key_counts(buf, skipped);
        },
        Ok(Some(Token::Nop)) => {
            let skipped = IterState { offset: st.offset + 4, depth: st.depth, parent: st.parent };
            lemma_same_step(buf, st, skipped);
            lemma_key_counts(buf, skipped);
        },
        Ok(Some(_)) => {
            let item = spec_next_item(buf, st);
            lemma_key_counts(buf, item.state);
            assert(keys.subrange(1, keys.len() as int) =~= spec_item_keys(buf, item.state));
        },
        _ => {},
    }
}

/// Where the parser comes to the end of the block, the number of nodes that it hands out
/// when asked for nodes is the number of tokens that open a node, and the number of
/// properties that it hands out when asked for properties is the number of tokens of
/// properties.
pub proof fn lemma_counts(buf: Seq<u8>, st: IterState)
    requires
        spec_runs_to_end(buf, st),
    ensures
        spec_node_names(buf, st).len() == spec_token_counts(buf, st.offset).0,
        spec_prop_keys(buf, st).len() == spec_token_counts(buf, st.offset).1,
{
    lemma_key_counts(buf, st);
    lemma_node_names(buf, st);
    lemma_prop_keys(buf, st);
}

/// The nodes among two rows of items, one behind the other, are the nodes among the first
/// and then the nodes among the second; likewise the properties.
pub proof fn lemma_keys_concat(a: Seq<ItemKey>, b: Seq<ItemKey>)
    ensures
        spec_key_names(a + b) == spec_key_names(a) + spec_key_names(b),
        spec_key_props(a + b) == spec_key_props(a) + spec_key_props(b),
    decreases a.len(),
{
    if a.len() == 0 {
        assert(a + b =~= b);
        assert(spec_key_names(a) + spec_key_names(b) =~= spec_key_names(b));
        assert(spec_key_props(a) + spec_key_props(b) =~= spec_key_props(b));
    } else {
        let rest = a.subrange(1, a.len() as int);
        lemma_keys_concat(rest, b);
        assert((a + b).subrange(1, (a + b).len() as int) =~= rest + b);
        assert((a + b)[0] == a[0]);
        match a[0] {
            ItemKey::Node { name } => {
                assert(spec_key_names(a + b) =~= spec_key_names(a) + spec_key_names(b));
            },
            ItemKey::Prop { .. } => {
                assert(spec_key_props(a + b) =~= spec_key_props(a) + spec_key_props(b));
            },
        }
    }
}

/// The items, each with its depth, that a walk held to the depth `target` hands out from
/// the state `st` on.
pub open spec fn spec_depth_items(
    buf: Seq<u8>,
    st: IterState,
    target: int,
    exact: bool,
    ended: bool,
) -> Seq<(ItemKey, int)>
    decreases buf.len() + 4 - st.offset,
{
    let step = spec_depth_next(buf, st, target, exact, ended);
    match step.result {
        Ok(Some((item, depth))) => if st.offset < step.state.offset <= buf.len() + 4 {
            seq![(spec_item_key(item), depth)] + spec_depth_items(
                buf,
                step.state,
                target,
                exact,
                step.ended,
            )
        } else {
            Seq::empty()
        },
        _ => Seq::empty(),
    }
}

/// Those of `items` that lie at the depth `target`, in their order.
pub open spec fn spec_at_depth(items: Seq<(ItemKey, int)>, target: int) -> Seq<(ItemKey, int)>
    decreases items.len(),
{
    if items.len() == 0 {
        Seq::empty()
    } else if items[0].1 == target {
        seq![items[0]] + spec_at_depth(items.subrange(1, items.len() as int), target)
    } else {
        spec_at_depth(items.subrange(1, items.len() as int), target)
    }
}

/// Two states from which a walk held to a depth takes the same step hand out the same
/// items.
proof fn lemma_same_depth_step(
    buf: Seq<u8>,
    st: IterState,
    skipped: IterState,
    target: int,
    exact: bool,
)
    requires
        spec_depth_next(buf, st, target, exact, false) == spec_depth_next(
            buf,
            skipped,
            target,
            exact,
            false,
        ),
        st.offset <= skipped.offset,
    ensures
        spec_depth_items(buf, st, target, exact, false) == spec_depth_items(
            buf,
            skipped,
            target,
            exact,
            false,
        ),
{
    lemma_depth_moves(buf, skipped, target, exact, false);
}

/// The children of a node are among what lies below it: the walk over the children of a
/// node hands out, in the same order, those items of the walk over what lies below the
/// node that lie at the depth of its children.
pub proof fn lemma_children_of_descendants(buf: Seq<u8>, st: IterState, target: int, ended: bool)
    ensures
        spec_depth_items(buf, st, target, true, ended) == spec_at_depth(
            spec_depth_items(buf, st, target, false, ended),
            target,
        ),
    decreases buf.len() + 4 - st.offset,
{
    let below = spec_depth_items(buf, st, target, false, ended);
    if !ended {
        lemma_next_item_moves(buf, st);
        let step = spec_next_item(buf, st);
        match step.result {
            Ok(Some((item, depth))) => {
                lemma_children_of_descendants(buf, step.state, target, false);
                if depth >= target {
                    assert(below.subrange(1, below.len() as int) =~= spec_depth_items(
                        buf,
                        step.state,
                        target,
                        false,
                        false,
                    ));
                    assert(below[0] == (spec_item_key(item), depth));
                    if depth > target {
                        lemma_same_depth_step(buf, st, step.state, target, true);
                    }
                } else if item is Node {
                } else {
                    lemma_same_depth_step(buf, st, step.state, target, true);
                    lemma_same_depth_step(buf, st, step.state, target, false);
                }
            },
            _ => {},
        }
    }
}

/// The nodes that the search for nodes compatible with `s` hands out from the state `st`
/// on, one search after the other.
pub open spec fn spec_compatible_nodes(buf: Seq<u8>, st: IterState, s: Seq<u8>) -> Seq<NodeView>
    decreases buf.len() + 4 - st.offset,
{
    let step = spec_next_compatible(buf, st, s);
    match step.result {
        Ok(Some((ItemView::Node(node), _))) => if st.offset < step.state.offset <= buf.len() + 4 {
            seq![node] + spec_compatible_nodes(buf, step.state, s)
        } else {
            Seq::empty()
        },
        _ => Seq::empty(),
    }
}

/// Tells whether one of the properties that follow at once in the state `st` is
/// compatible with `s`: they are properties of the node whose header the parser stands in.
pub open spec fn spec_header_matches(buf: Seq<u8>, st: IterState, s: Seq<u8>) -> bool
    decreases buf.len() + 4 - st.offset,
{
    let step = spec_next_item(buf, st);
    match step.result {
        Ok(Some((ItemView::Prop(prop), _))) => spec_prop_is_compatible(buf, prop, s) == Ok::<
            bool,
            DevTreeError,
        >(true) || (st.offset < step.state.offset <= buf.len() + 4 && spec_header_matches(
            buf,
            step.state,
            s,
        )),
        _ => false,
    }
}

/// The nodes among the items from the state `st` on that have a property compatible with
/// `s`, in the order of the blob.
pub open spec fn spec_matching_nodes(buf: Seq<u8>, st: IterState, s: Seq<u8>) -> Seq<NodeView>
    decreases buf.len() + 4 - st.offset,
{
    let step = spec_next_item(buf, st);
    match step.result {
        Ok(Some((ItemView::Node(node), _))) => if st.offset < step.state.offset <= buf.len() + 4 {
            (if spec_header_matches(buf, step.state, s) {
                seq![node]
            } else {
                Seq::empty()
            }) + spec_matching_nodes(buf, step.state, s)
        } else {
            Seq::empty()
        },
        Ok(Some((ItemView::Prop(_), _))) => if st.offset < step.state.offset <= buf.len() + 4 {
            spec_matching_nodes(buf, step.state, s)
        } else {
            Seq::empty()
        },
        _ => Seq::empty(),
    }
}

/// Tells whether every property from the state `st` on can be asked whether it is
/// compatible with `s`: its name can be read, and so can the strings of its value as far
/// as they are looked at.
pub open spec fn spec_props_readable(buf: Seq<u8>, st: IterState, s: Seq<u8>) -> bool
    decreases buf.len() + 4 - st.offset,
{
    let step = spec_next_item(buf, st);
    match step.result {
        Ok(Some((item, _))) => (item matches ItemView::Prop(prop) ==> spec_prop_is_compatible(
            buf,
            prop,
            s,
        ) is Ok) && (st.offset < step.state.offset <= buf.len() + 4 ==> spec_props_readable(
            buf,
            step.state,
            s,
        )),
        _ => true,
    }
}

/// The nodes that a walk over properties hands out from the state `st` on, when it starts
/// in the middle of a search: the node of the first property that is compatible with `s`,
/// and then what the searches behind it hand out.
pub open spec fn spec_scan_nodes(buf: Seq<u8>, st: IterState, s: Seq<u8>) -> Seq<NodeView> {
    let step = spec_scan_compatible(buf, st, s);
    match step.result {
        Ok(Some((ItemView::Node(node), _))) => if st.offset < step.state.offset <= buf.len() + 4 {
            seq![node] + spec_compatible_nodes(buf, step.state, s)
        } else {
            Seq::empty()
        },
        _ => Seq::empty(),
    }
}

/// A walk over properties that finds a compatible one moves the cursor forward, within
/// the blob.
pub proof fn lemma_scan_moves(buf: Seq<u8>, st: IterState, s: Seq<u8>)
    ensures
        spec_scan_compatible(buf, st, s).result matches Ok(Some(_)) ==> st.offset + 4
            <= spec_scan_compatible(buf, st, s).state.offset <= buf.len() + 3,
        spec_scan_compatible(buf, st, s).result matches Ok(Some((item, _))) ==> item is Node,
    decreases buf.len() + 4 - st.offset,
{
    lemma_next_prop_moves(buf, st);
    let step = spec_next_prop(buf, st);
    match step.result {
        Ok(Some((ItemView::Prop(prop), _))) => {
            if spec_prop_is_compatible(buf, prop, s) == Ok::<bool, DevTreeError>(false) {
                lemma_scan_moves(buf, step.state, s);
            }
        },
        _ => {},
    }
}

/// The search for nodes compatible with `s` hands out exactly the nodes that have a
/// property compatible with `s`, in the order of the blob, as long as every property on
/// the way can be read.
pub proof fn lemma_compatible_nodes(buf: Seq<u8>, st: IterState, s: Seq<u8>)
    requires
        spec_iter_inv(buf, st),
        spec_props_readable(buf, st, s),
    ensures
        spec_compatible_nodes(buf, st, s) == spec_matching_nodes(buf, st, s),
        spec_scan_nodes(buf, st, s) == (if spec_header_matches(buf, st, s) {
            seq![spec_node_at(buf, st.parent.unwrap(), st.depth)]
        } else {
            Seq::empty()
        }) + spec_matching_nodes(buf, st, s),
    decreases buf.len() + 4 - st.offset,
{
    lemma_next_item(buf, st);
    lemma_next_item_moves(buf, st);
    lemma_prop_parent(buf, st);
    let it = spec_next_item(buf, st);
    let st1 = it.state;
    let found = spec_matching_nodes(buf, st, s);
    match it.result {
        Ok(Some((ItemView::Prop(prop), _))) => {
            lemma_compatible_nodes(buf, st1, s);
            lemma_next_node_moves(buf, st1);
            lemma_scan_moves(buf, st1, s);
            // a search passes over the property
            assert(spec_next_node(buf, st) == spec_next_node(buf, st1));
            assert(spec_next_compatible(buf, st, s) == spec_next_compatible(buf, st1, s));
            lemma_compatible_moves(buf, st1, s);
            assert(spec_compatible_nodes(buf, st, s) == spec_compatible_nodes(buf, st1, s));
            // a walk over properties asks it
            assert(spec_next_prop(buf, st) == it);
            if spec_prop_is_compatible(buf, prop, s) == Ok::<bool, DevTreeError>(true) {
                assert(spec_scan_nodes(buf, st, s) =~= seq![spec_prop_node(buf, prop)]
                    + spec_matching_nodes(buf, st, s));
            } else {
                assert(spec_scan_compatible(buf, st, s) == spec_scan_compatible(buf, st1, s));
                assert(spec_scan_nodes(buf, st, s) == spec_scan_nodes(buf, st1, s));
            }
        },
        Ok(Some((ItemView::Node(node), _))) => {
            lemma_compatible_nodes(buf, st1, s);
            lemma_scan_moves(buf, st1, s);
            lemma_next_prop_moves(buf, st1);
            // a search starts its walk over properties behind the node
            assert(spec_next_node(buf, st) == it);
            assert(spec_next_compatible(buf, st, s) == spec_scan_compatible(buf, st1, s));
            assert(spec_compatible_nodes(buf, st, s) == spec_scan_nodes(buf, st1, s));
            // a walk over properties passes over the node
            assert(spec_next_prop(buf, st) == spec_next_prop(buf, st1));
            assert(spec_scan_compatible(buf, st, s) == spec_scan_compatible(buf, st1, s));
            assert(spec_scan_nodes(buf, st, s) == spec_scan_nodes(buf, st1, s));
            assert(spec_scan_nodes(buf, st, s) =~= Seq::<NodeView>::empty() + found);
        },
        _ => {
            assert(spec_next_node(buf, st) == it);
            assert(spec_next_prop(buf, st) == it);
            assert(spec_scan_nodes(buf, st, s) =~= Seq::<NodeView>::empty() + found);
        },
    }
}

/// A search that finds a node moves the cursor forward, within the blob.
pub proof fn lemma_compatible_moves(buf: Seq<u8>, st: IterState, s: Seq<u8>)
    ensures
        spec_next_compatible(buf, st, s).result matches Ok(Some(_)) ==> st.offset + 4
            <= spec_next_compatible(buf, st, s).state.offset <= buf.len() + 3,
{
    lemma_next_node_moves(buf, st);
    let first = spec_next_node(buf, st);
    lemma_scan_moves(buf, first.state, s);
    lemma_next_node_stays(buf, st);
}

/// A step that looks for a node never moves the cursor back.
pub proof fn lemma_next_node_stays(buf: Seq<u8>, st: IterState)
    ensures
        st.offset <= spec_next_node(buf, st).state.offset,
    decreases buf.len() + 4 - st.offset,
{
    lemma_next_item_moves(buf, st);
    lemma_item_stays(buf, st);
    let step = spec_next_item(buf, st);
    if step.result matches Ok(Some((ItemView::Prop(_), _))) {
        lemma_next_node_stays(buf, step.state);
    }
}

/// A step of the parser never moves the cursor back.
pub proof fn lemma_item_stays(buf: Seq<u8>, st: IterState)
    ensures
        st.offset <= spec_next_item(buf, st).state.offset,
    decreases buf.len() + 4 - st.offset,
{
    lemma_token_bounds(buf, st.offset);
    let step = spec_next_token(buf, st.offset);
    match step.result {
        Ok(Some(Token::EndNode)) => {
            lemma_item_stays(
                buf,
                IterState { offset: st.offset + 4, depth: st.depth - 1, parent: None },
            );
        },
        Ok(Some(Token::Nop)) => {
            lemma_item_stays(
                buf,
                IterState { offset: st.offset + 4, depth: st.depth, parent: st.parent },
            );
        },
        _ => {},
    }
}

/// The search over a whole blob hands out exactly the nodes that have a property
/// compatible with `s`, in the order of the blob, as long as every property on the way can
/// be read.
pub proof fn lemma_compatible_walk(blob: Seq<u8>, s: Seq<u8>)
    requires
        crate::base::tree::spec_valid_blob(blob),
        spec_props_readable(blob, crate::base::tree::spec_start_state(blob), s),
    ensures
        spec_compatible_nodes(blob, crate::base::tree::spec_start_state(blob), s)
            == spec_matching_nodes(blob, crate::base::tree::spec_start_state(blob), s),
{
    lemma_compatible_nodes(blob, crate::base::tree::spec_start_state(blob), s);
}

} // verus!
