//! Iterative parsers of a [`DevTree`].
use crate::base::item::DevTreeItem;
use crate::base::node::DevTreeNode;
use crate::base::parse::{
    lemma_token_bounds, next_devtree_token, spec_next_token, ParsedTok, Token,
};
use crate::base::prop::{spec_prop_inv, DevTreeProp};
use crate::base::tree::{same_bytes, DevTree};
use crate::common::prop::{prop_is_compatible, spec_is_compatible, PropReader};
use crate::error::DevTreeError;
use crate::priv_util::{spec_be_u32, spec_be_u64, SliceRead};
use crate::spec::{fdt_reserve_entry, FDT_RESERVE_ENTRY_SIZE};
pub use crate::common::prop::StringPropIter;
pub use crate::base::parse::DevTreeParseIter;
use vstd::pervasive::unreached;
use vstd::prelude::*;
use vstd::std_specs::cmp::PartialEqSpecImpl;
use vstd::string::StringSliceAdditionalSpecFns;

verus! {

/// The state of the in-order parser.
pub struct IterState {
    /// Current offset into the flattened dt_struct section of the device tree.
    pub offset: int,
    /// The depth we are currently parsing at. 0 is the level of the
    /// root node, -1 is the level of an imaginary parent of our root
    /// element and going one element down increases the depth by 1.
    pub depth: int,
    /// Offset of the last opened Device Tree Node, as long as properties may follow it.
    pub parent: Option<int>,
}

/// Tells whether the token of `buf` at `off` opens a node.
pub open spec fn spec_is_begin_node(buf: Seq<u8>, off: int) -> bool {
    spec_next_token(buf, off).result matches Ok(Some(Token::BeginNode { .. }))
}

/// What holds of every state of the parser on `buf`: the depth has changed by at most one
/// for each token passed, and the node whose properties may follow was opened by a token
/// that lies behind the cursor.
pub open spec fn spec_iter_inv(buf: Seq<u8>, st: IterState) -> bool {
    &&& 0 <= st.offset
    &&& -st.offset <= 4 * (st.depth + 1) <= st.offset
    &&& st.parent matches Some(p) ==> 0 <= p < st.offset && -p <= 4 * st.depth <= p
        && spec_is_begin_node(buf, p)
}

/// A node as a handle shows it: its name, and the parser as it stands behind the token
/// that opens the node.
pub struct NodeView {
    pub name: Seq<u8>,
    pub state: IterState,
}

/// A property as a handle shows it: its value, the offset of its name in the strings
/// block, and the parser as it stands before the token that opens the property's node.
pub struct PropView {
    pub parent: IterState,
    pub value: Seq<u8>,
    pub name_offset: int,
}

pub enum ItemView {
    Node(NodeView),
    Prop(PropView),
}

/// The node at depth `depth` that the token of `buf` at `off` opens.
pub open spec fn spec_node_at(buf: Seq<u8>, off: int, depth: int) -> NodeView {
    let step = spec_next_token(buf, off);
    NodeView {
        name: match step.result {
            Ok(Some(Token::BeginNode { name_start, name_len })) => buf.subrange(
                name_start,
                name_start + name_len,
            ),
            _ => Seq::empty(),
        },
        state: IterState { offset: step.next_off, depth, parent: Some(off) },
    }
}

/// Tells whether `node` is a node of `buf`: a token opens it where the handle says.
pub open spec fn spec_node_inv(buf: Seq<u8>, node: NodeView) -> bool {
    &&& spec_iter_inv(buf, node.state)
    &&& node.state.parent matches Some(p) && node == spec_node_at(buf, p, node.state.depth)
}

/// One step of the parser: the item it returns with its depth, and the state it is left in.
pub struct ItemStep {
    pub result: Result<Option<(ItemView, int)>, DevTreeError>,
    pub state: IterState,
}

/// The step of the parser on `buf` from the state `st`.
///
/// A token that opens a node gives the node, one level deeper. A property gives the
/// property, owned by the node that was opened last; where a node has been closed since,
/// or none was opened, it is a `ParseError`. A token that closes a node takes the parser
/// one level up; it and the empty token are passed over. At the end of the block and at
/// an error the state stays as it is.
pub open spec fn spec_next_item(buf: Seq<u8>, st: IterState) -> ItemStep
    decreases buf.len() + 4 - st.offset,
{
    let step = spec_next_token(buf, st.offset);
    match step.result {
        Err(e) => ItemStep { result: Err(e), state: st },
        Ok(None) => ItemStep { result: Ok(None), state: st },
        Ok(Some(Token::BeginNode { .. })) => {
            let node = spec_node_at(buf, st.offset, st.depth + 1);
            ItemStep { result: Ok(Some((ItemView::Node(node), st.depth + 1))), state: node.state }
        },
        Ok(Some(Token::Prop { value_start, value_len, name_offset })) => match st.parent {
            None => ItemStep { result: Err(DevTreeError::ParseError), state: st },
            Some(p) => ItemStep {
                result: Ok(
                    Some(
                        (
                            ItemView::Prop(
                                PropView {
                                    parent: IterState {
                                        offset: p,
                                        depth: st.depth - 1,
                                        parent: None,
                                    },
                                    value: buf.subrange(value_start, value_start + value_len),
                                    name_offset,
                                },
                            ),
                            st.depth,
                        ),
                    ),
                ),
                state: IterState { offset: step.next_off, depth: st.depth, parent: st.parent },
            },
        },
        Ok(Some(Token::EndNode)) => if st.offset + 4 <= buf.len() {
            spec_next_item(
                buf,
                IterState { offset: st.offset + 4, depth: st.depth - 1, parent: None },
            )
        } else {
            ItemStep { result: Ok(None), state: st }
        },
        Ok(Some(Token::Nop)) => if st.offset + 4 <= buf.len() {
            spec_next_item(
                buf,
                IterState { offset: st.offset + 4, depth: st.depth, parent: st.parent },
            )
        } else {
            ItemStep { result: Ok(None), state: st }
        },
    }
}

/// A step of the parser keeps what holds of its states, returns handles that are well
/// formed, and moves the cursor forward when it returns an item.
pub proof fn lemma_next_item(buf: Seq<u8>, st: IterState)
    requires
        spec_iter_inv(buf, st),
    ensures
        spec_iter_inv(buf, spec_next_item(buf, st).state),
        st.offset <= spec_next_item(buf, st).state.offset,
        spec_next_item(buf, st).result matches Ok(Some(_)) ==> st.offset + 4 <= spec_next_item(
            buf,
            st,
        ).state.offset <= buf.len() + 3,
        !(spec_next_item(buf, st).result matches Ok(Some(_))) ==> spec_next_item(
            buf,
            spec_next_item(buf, st).state,
        ) == spec_next_item(buf, st),
        spec_next_item(buf, st).result matches Ok(Some((ItemView::Node(node), depth)))
            ==> spec_node_inv(buf, node) && node.state == spec_next_item(buf, st).state && depth
            == node.state.depth,
        spec_next_item(buf, st).result matches Ok(Some((ItemView::Prop(prop), depth)))
            ==> spec_prop_inv(buf, prop) && depth == prop.parent.depth + 1 && depth
            == spec_next_item(buf, st).state.depth && spec_next_item(buf, st).state.parent == Some(
            prop.parent.offset,
        ),
    decreases buf.len() + 4 - st.offset,
{
    lemma_token_bounds(buf, st.offset);
    let step = spec_next_token(buf, st.offset);
    match step.result {
        Ok(Some(Token::EndNode)) => {
            lemma_next_item(
                buf,
                IterState { offset: st.offset + 4, depth: st.depth - 1, parent: None },
            );
        },
        Ok(Some(Token::Nop)) => {
            lemma_next_item(
                buf,
                IterState { offset: st.offset + 4, depth: st.depth, parent: st.parent },
            );
        },
        _ => {},
    }
}

/// Tells whether `r`, returned by a parser of `blob`, is what `expected` describes.
pub open spec fn item_result_is(
    r: Result<Option<DevTreeItem>, DevTreeError>,
    blob: Seq<u8>,
    expected: Result<Option<(ItemView, int)>, DevTreeError>,
) -> bool {
    match r {
        Ok(Some(item)) => expected matches Ok(Some((view, _))) && item@ == view && item.blob()
            == blob,
        Ok(None) => expected == Ok::<Option<(ItemView, int)>, DevTreeError>(None),
        Err(e) => expected == Err::<Option<(ItemView, int)>, DevTreeError>(e),
    }
}

/// As `item_result_is`, for a result that holds the item's depth too.
pub open spec fn item_depth_result_is(
    r: Result<Option<(DevTreeItem, isize)>, DevTreeError>,
    blob: Seq<u8>,
    expected: Result<Option<(ItemView, int)>, DevTreeError>,
) -> bool {
    match r {
        Ok(Some((item, depth))) => expected == Ok::<Option<(ItemView, int)>, DevTreeError>(
            Some((item@, depth as int)),
        ) && item.blob() == blob,
        Ok(None) => expected == Ok::<Option<(ItemView, int)>, DevTreeError>(None),
        Err(e) => expected == Err::<Option<(ItemView, int)>, DevTreeError>(e),
    }
}

/// As `item_result_is`, for a result that can only hold a node.
pub open spec fn node_result_is(
    r: Result<Option<DevTreeNode>, DevTreeError>,
    blob: Seq<u8>,
    expected: Result<Option<(ItemView, int)>, DevTreeError>,
) -> bool {
    match r {
        Ok(Some(node)) => expected matches Ok(Some((view, _))) && view == ItemView::Node(node@)
            && node.blob() == blob,
        Ok(None) => expected == Ok::<Option<(ItemView, int)>, DevTreeError>(None),
        Err(e) => expected == Err::<Option<(ItemView, int)>, DevTreeError>(e),
    }
}

/// As `item_result_is`, for a result that can only hold a property.
pub open spec fn prop_result_is(
    r: Result<Option<DevTreeProp>, DevTreeError>,
    blob: Seq<u8>,
    expected: Result<Option<(ItemView, int)>, DevTreeError>,
) -> bool {
    match r {
        Ok(Some(prop)) => expected matches Ok(Some((view, _))) && view == ItemView::Prop(prop@)
            && prop.blob() == blob,
        Ok(None) => expected == Ok::<Option<(ItemView, int)>, DevTreeError>(None),
        Err(e) => expected == Err::<Option<(ItemView, int)>, DevTreeError>(e),
    }
}

/// The step of the parser that looks for the next node: properties are passed over.
pub open spec fn spec_next_node(buf: Seq<u8>, st: IterState) -> ItemStep
    decreases buf.len() + 4 - st.offset,
{
    let step = spec_next_item(buf, st);
    match step.result {
        Ok(Some((ItemView::Prop(_), _))) => if st.offset < step.state.offset <= buf.len() + 4 {
            spec_next_node(buf, step.state)
        } else {
            step
        },
        _ => step,
    }
}

/// The step of the parser that looks for the next property: nodes are passed over.
pub open spec fn spec_next_prop(buf: Seq<u8>, st: IterState) -> ItemStep
    decreases buf.len() + 4 - st.offset,
{
    let step = spec_next_item(buf, st);
    match step.result {
        Ok(Some((ItemView::Node(_), _))) => if st.offset < step.state.offset <= buf.len() + 4 {
            spec_next_prop(buf, step.state)
        } else {
            step
        },
        _ => step,
    }
}

/// The step of the parser that looks for the next property of the node it stands in: it
/// takes one item, and returns nothing where that item is a node.
pub open spec fn spec_next_node_prop(buf: Seq<u8>, st: IterState) -> ItemStep {
    let step = spec_next_item(buf, st);
    match step.result {
        Ok(Some((ItemView::Node(_), _))) => ItemStep { result: Ok(None), state: step.state },
        _ => step,
    }
}

/// Tells whether `prop` is named "compatible" and holds `s` among the strings of its
/// value. A name or a string that cannot be read on the way is an error.
pub open spec fn spec_prop_is_compatible(buf: Seq<u8>, prop: PropView, s: Seq<u8>) -> Result<
    bool,
    DevTreeError,
> {
    spec_is_compatible(buf, prop.name_offset, prop.value, s)
}

/// The walk over the properties that follow the state `st`, up to the first that is
/// compatible with `s`: the result is the node that holds it.
pub open spec fn spec_scan_compatible(buf: Seq<u8>, st: IterState, s: Seq<u8>) -> ItemStep
    decreases buf.len() + 4 - st.offset,
{
    let step = spec_next_prop(buf, st);
    match step.result {
        Ok(Some((ItemView::Prop(prop), depth))) => match spec_prop_is_compatible(buf, prop, s) {
            Err(e) => ItemStep { result: Err(e), state: step.state },
            Ok(true) => ItemStep {
                result: Ok(
                    Some(
                        (
                            ItemView::Node(
                                spec_node_at(buf, prop.parent.offset, prop.parent.depth + 1),
                            ),
                            depth,
                        ),
                    ),
                ),
                state: step.state,
            },
            Ok(false) => if st.offset < step.state.offset <= buf.len() + 4 {
                spec_scan_compatible(buf, step.state, s)
            } else {
                ItemStep { result: Ok(None), state: step.state }
            },
        },
        _ => step,
    }
}

/// The step of the parser that looks for the next node that is compatible with `s`: it
/// goes to the next node, and from there to the first property that is compatible with
/// `s`.
pub open spec fn spec_next_compatible(buf: Seq<u8>, st: IterState, s: Seq<u8>) -> ItemStep {
    let first = spec_next_node(buf, st);
    match first.result {
        Err(e) => first,
        _ => spec_scan_compatible(buf, first.state, s),
    }
}

/// The steps that look for a node or a property keep what holds of the parser's states
/// and move the cursor forward when they return an item.
pub proof fn lemma_next_node(buf: Seq<u8>, st: IterState)
    requires
        spec_iter_inv(buf, st),
    ensures
        spec_iter_inv(buf, spec_next_node(buf, st).state),
        st.offset <= spec_next_node(buf, st).state.offset,
        spec_next_node(buf, st).result matches Ok(Some(_)) ==> st.offset + 4 <= spec_next_node(
            buf,
            st,
        ).state.offset <= buf.len() + 3,
        spec_next_node(buf, st).result matches Ok(Some((item, depth))) ==> item is Node,
        spec_next_node(buf, st).result matches Ok(Some((ItemView::Node(node), depth)))
            ==> spec_node_inv(buf, node) && node.state == spec_next_node(buf, st).state,
    decreases buf.len() + 4 - st.offset,
{
    lemma_next_item(buf, st);
    let step = spec_next_item(buf, st);
    if step.result matches Ok(Some((ItemView::Prop(_), _))) {
        lemma_next_node(buf, step.state);
    }
}

pub proof fn lemma_next_prop(buf: Seq<u8>, st: IterState)
    requires
        spec_iter_inv(buf, st),
    ensures
        spec_iter_inv(buf, spec_next_prop(buf, st).state),
        st.offset <= spec_next_prop(buf, st).state.offset,
        spec_next_prop(buf, st).result matches Ok(Some(_)) ==> st.offset + 4 <= spec_next_prop(
            buf,
            st,
        ).state.offset <= buf.len() + 3,
        spec_next_prop(buf, st).result matches Ok(Some((item, depth))) ==> item is Prop,
        spec_next_prop(buf, st).result matches Ok(Some((ItemView::Prop(prop), depth)))
            ==> spec_prop_inv(buf, prop),
    decreases buf.len() + 4 - st.offset,
{
    lemma_next_item(buf, st);
    let step = spec_next_item(buf, st);
    if step.result matches Ok(Some((ItemView::Node(_), _))) {
        lemma_next_prop(buf, step.state);
    }
}

/// An iterator over all [`DevTreeItem`] objects.
#[derive(Clone, Copy)]
pub struct DevTreeIter<'a, 'dt: 'a> {
    /// Offset of the last opened Device Tree Node.
    /// This is used to set properties' parent DevTreeNode.
    ///
    /// In a device tree the properties of a node precede its children.
    /// Therefore, once a node has been closed this offset is reset to None to indicate no
    /// properties should follow.
    current_prop_parent_off: Option<usize>,
    /// Current offset into the flattened dt_struct section of the device tree.
    offset: usize,
    /// The depth we are currently parsing at. 0 is the level of the
    /// root node, -1 is the level of an imaginary parent of our root
    /// element and going one element down increases the depth by 1.
    depth: isize,
    pub(crate) fdt: &'a DevTree<'dt>,
}

impl<'a, 'dt: 'a> DevTreeIter<'a, 'dt> {
    /// The state of the parser.
    pub closed spec fn view(self) -> IterState {
        IterState {
            offset: self.offset as int,
            depth: self.depth as int,
            parent: match self.current_prop_parent_off {
                Some(p) => Some(p as int),
                None => None,
            },
        }
    }

    /// The bytes of the blob that is parsed.
    pub closed spec fn blob(self) -> Seq<u8> {
        self.fdt@
    }

    #[verifier::type_invariant]
    pub open spec fn wf(self) -> bool {
        spec_iter_inv(self.blob(), self@)
    }

    pub fn new(fdt: &'a DevTree<'dt>) -> (iter: Self)
        ensures
            iter@ == (IterState { offset: spec_be_u32(fdt@, 8), depth: -1, parent: None }),
            iter.blob() == fdt@,
    {
        Self {
            offset: fdt.off_dt_struct(),
            current_prop_parent_off: None,
            // Initially we haven't parsed the root node, so if 0 is
            // supposed to be the root level, we are one level up from
            // that.
            depth: -1,
            fdt,
        }
    }

    /// The device tree that is parsed.
    pub fn fdt(&self) -> (fdt: &'a DevTree<'dt>)
        ensures
            fdt@ == self.blob(),
    {
        self.fdt
    }

    /// The depth that the parser stands at.
    pub fn depth(&self) -> (depth: isize)
        ensures
            depth == self@.depth,
    {
        self.depth
    }

    /// The parser as it stood before the node that was opened last, as long as properties
    /// may follow that node.
    fn current_node_itr(&self) -> (r: Option<DevTreeIter<'a, 'dt>>)
        ensures
            match r {
                Some(iter) => self@.parent matches Some(p) && iter@ == (IterState {
                    offset: p,
                    depth: self@.depth - 1,
                    parent: None,
                }) && iter.blob() == self.blob(),
                None => self@.parent is None,
            },
    {
        proof {
            use_type_invariant(self);
        }
        match self.current_prop_parent_off {
            Some(offset) => Some(
                DevTreeIter {
                    fdt: self.fdt,
                    current_prop_parent_off: None,
                    offset,
                    depth: self.depth - 1,
                },
            ),
            None => None,
        }
    }

    /// Returns the node that was opened last, as long as properties may follow it.
    pub fn last_node(self) -> (r: Option<DevTreeNode<'a, 'dt>>)
        ensures
            match r {
                Some(node) => self@.parent matches Some(p) && node@ == spec_node_at(
                    self.blob(),
                    p,
                    self@.depth,
                ) && node.blob() == self.blob(),
                None => self@.parent is None,
            },
    {
        proof {
            use_type_invariant(&self);
        }
        match self.current_node_itr() {
            Some(mut iter) => {
                match iter.next_item() {
                    Ok(Some(DevTreeItem::Node(node))) => Some(node),
                    _ => unreached(),
                }
            },
            None => None,
        }
    }

    /// Takes one token. The result is `None` where the token gives no item and the parser
    /// goes on behind it.
    fn next_token_item(&mut self) -> (r: Option<
        Result<Option<(DevTreeItem<'a, 'dt>, isize)>, DevTreeError>,
    >)
        ensures
            final(self).blob() == old(self).blob(),
            match r {
                Some(res) => item_depth_result_is(
                    res,
                    old(self).blob(),
                    spec_next_item(old(self).blob(), old(self)@).result,
                ) && final(self)@ == spec_next_item(old(self).blob(), old(self)@).state,
                None => spec_next_item(old(self).blob(), final(self)@) == spec_next_item(
                    old(self).blob(),
                    old(self)@,
                ) && final(self)@.offset == old(self)@.offset + 4 && old(self)@.offset + 4 <= old(
                    self,
                ).blob().len(),
            },
    {
        let ghost blob = self.blob();
        let ghost st = self@;
        proof {
            use_type_invariant(&*self);
            lemma_token_bounds(blob, st.offset);
        }
        let fdt: &'a DevTree<'dt> = self.fdt;
        let buf: &'dt [u8] = fdt.buf();
        let old_offset: usize = self.offset;
        let depth: isize = self.depth;
        let parent: Option<usize> = self.current_prop_parent_off;
        let mut offset: usize = old_offset;
        // Safe because we only pass offsets which are returned by next_devtree_token.
        let res = next_devtree_token(buf, &mut offset);
        match res {
            Err(e) => Some(Err(e)),
            Ok(None) => Some(Ok(None)),
            Ok(Some(ParsedTok::BeginNode(node))) => {
                let parse_iter = DevTreeIter {
                    current_prop_parent_off: Some(old_offset),
                    offset,
                    depth: depth + 1,
                    fdt,
                };
                *self = parse_iter;
                proof {
                    let view = NodeView { name: node.name@, state: parse_iter@ };
                    assert(view == spec_node_at(blob, st.offset, st.depth + 1));
                    assert(spec_iter_inv(blob, parse_iter@));
                }
                Some(Ok(Some((DevTreeItem::Node(DevTreeNode::new(node.name, parse_iter)), depth + 1))))
            },
            Ok(Some(ParsedTok::Prop(prop))) => {
                // Prop must come after a node.
                let prev_node = match self.current_node_itr() {
                    Some(n) => n,
                    None => {
                        return Some(Err(DevTreeError::ParseError));
                    },
                };
                *self = DevTreeIter { current_prop_parent_off: parent, offset, depth, fdt };
                Some(
                    Ok(
                        Some(
                            (
                                DevTreeItem::Prop(
                                    DevTreeProp::new(prev_node, prop.prop_buf, prop.name_offset),
                                ),
                                depth,
                            ),
                        ),
                    ),
                )
            },
            Ok(Some(ParsedTok::EndNode)) => {
                // The current node has ended.
                // No properties may follow until the next node starts.
                *self = DevTreeIter {
                    current_prop_parent_off: None,
                    offset,
                    depth: depth - 1,
                    fdt,
                };
                None
            },
            Ok(Some(ParsedTok::Nop)) => {
                *self = DevTreeIter { current_prop_parent_off: parent, offset, depth, fdt };
                None
            },
        }
    }

    pub(crate) fn next_item_with_depth(&mut self) -> (r: Result<
        Option<(DevTreeItem<'a, 'dt>, isize)>,
        DevTreeError,
    >)
        ensures
            item_depth_result_is(
                r,
                old(self).blob(),
                spec_next_item(old(self).blob(), old(self)@).result,
            ),
            final(self)@ == spec_next_item(old(self).blob(), old(self)@).state,
            final(self).blob() == old(self).blob(),
    {
        let ghost blob = self.blob();
        let ghost start = self@;
        loop
            invariant
                self.blob() == blob,
                blob == old(self).blob(),
                start == old(self)@,
                spec_next_item(blob, self@) == spec_next_item(blob, start),
            decreases blob.len() + 4 - self@.offset,
        {
            match self.next_token_item() {
                Some(r) => {
                    return r;
                },
                None => {},
            }
        }
    }

    /// Returns the next item of the tree, in the order of the blob.
    pub fn next_item(&mut self) -> (r: Result<Option<DevTreeItem<'a, 'dt>>, DevTreeError>)
        ensures
            item_result_is(r, old(self).blob(), spec_next_item(old(self).blob(), old(self)@).result),
            final(self)@ == spec_next_item(old(self).blob(), old(self)@).state,
            final(self).blob() == old(self).blob(),
    {
        match self.next_item_with_depth() {
            Ok(Some((item, _))) => Ok(Some(item)),
            Ok(None) => Ok(None),
            Err(e) => Err(e),
        }
    }

    /// Returns the next property of the tree, of whichever node.
    pub fn next_prop(&mut self) -> (r: Result<Option<DevTreeProp<'a, 'dt>>, DevTreeError>)
        ensures
            prop_result_is(r, old(self).blob(), spec_next_prop(old(self).blob(), old(self)@).result),
            final(self)@ == spec_next_prop(old(self).blob(), old(self)@).state,
            final(self).blob() == old(self).blob(),
    {
        let ghost blob = self.blob();
        let ghost start = self@;
        loop
            invariant
                self.blob() == blob,
                blob == old(self).blob(),
                start == old(self)@,
                spec_next_prop(blob, self@) == spec_next_prop(blob, start),
            decreases blob.len() + 4 - self@.offset,
        {
            proof {
                use_type_invariant(&*self);
                lemma_next_item(blob, self@);
            }
            match self.next_item() {
                Ok(Some(DevTreeItem::Prop(p))) => {
                    return Ok(Some(p));
                },
                Ok(Some(DevTreeItem::Node(_))) => {},
                Ok(None) => {
                    return Ok(None);
                },
                Err(e) => {
                    return Err(e);
                },
            }
        }
    }

    /// Returns the next node of the tree.
    pub fn next_node(&mut self) -> (r: Result<Option<DevTreeNode<'a, 'dt>>, DevTreeError>)
        ensures
            node_result_is(r, old(self).blob(), spec_next_node(old(self).blob(), old(self)@).result),
            final(self)@ == spec_next_node(old(self).blob(), old(self)@).state,
            final(self).blob() == old(self).blob(),
    {
        let ghost blob = self.blob();
        let ghost start = self@;
        loop
            invariant
                self.blob() == blob,
                blob == old(self).blob(),
                start == old(self)@,
                spec_next_node(blob, self@) == spec_next_node(blob, start),
            decreases blob.len() + 4 - self@.offset,
        {
            proof {
                use_type_invariant(&*self);
                lemma_next_item(blob, self@);
            }
            match self.next_item() {
                Ok(Some(DevTreeItem::Node(n))) => {
                    return Ok(Some(n));
                },
                Ok(Some(DevTreeItem::Prop(_))) => {},
                Ok(None) => {
                    return Ok(None);
                },
                Err(e) => {
                    return Err(e);
                },
            }
        }
    }

    /// Returns the next property of the node that the parser stands in, and nothing where
    /// a node comes next.
    pub fn next_node_prop(&mut self) -> (r: Result<Option<DevTreeProp<'a, 'dt>>, DevTreeError>)
        ensures
            prop_result_is(
                r,
                old(self).blob(),
                spec_next_node_prop(old(self).blob(), old(self)@).result,
            ),
            final(self)@ == spec_next_node_prop(old(self).blob(), old(self)@).state,
            final(self).blob() == old(self).blob(),
    {
        match self.next_item() {
            // Return if a new node or an EOF.
            Ok(Some(DevTreeItem::Prop(p))) => Ok(Some(p)),
            Ok(Some(DevTreeItem::Node(_))) => Ok(None),
            Ok(None) => Ok(None),
            Err(e) => Err(e),
        }
    }

    /// Returns the next node that holds `string` in its property "compatible".
    pub fn next_compatible_node(&mut self, string: &str) -> (r: Result<
        Option<DevTreeNode<'a, 'dt>>,
        DevTreeError,
    >)
        ensures
            node_result_is(
                r,
                old(self).blob(),
                spec_next_compatible(old(self).blob(), old(self)@, string.spec_bytes()).result,
            ),
            final(self)@ == spec_next_compatible(
                old(self).blob(),
                old(self)@,
                string.spec_bytes(),
            ).state,
            final(self).blob() == old(self).blob(),
    {
        let ghost blob = self.blob();
        let ghost wanted = string.spec_bytes();
        proof {
            use_type_invariant(&*self);
            lemma_next_node(blob, self@);
        }
        // If there is another node, advance our iterator to that node.
        match self.next_node() {
            Err(e) => {
                return Err(e);
            },
            _ => {},
        }
        let ghost start = self@;
        // Iterate through all remaining properties in the tree looking for the compatible
        // string.
        loop
            invariant
                self.blob() == blob,
                blob == old(self).blob(),
                wanted == string.spec_bytes(),
                spec_next_node(blob, old(self)@).result is Ok,
                start == spec_next_node(blob, old(self)@).state,
                spec_scan_compatible(blob, self@, wanted) == spec_scan_compatible(
                    blob,
                    start,
                    wanted,
                ),
            decreases blob.len() + 4 - self@.offset,
        {
            proof {
                use_type_invariant(&*self);
                lemma_next_prop(blob, self@);
            }
            match self.next_prop() {
                Ok(Some(prop)) => {
                    proof {
                        prop.lemma_view();
                    }
                    match prop_is_compatible(&prop, string) {
                        Err(e) => {
                            return Err(e);
                        },
                        Ok(true) => {
                            return Ok(Some(prop.node()));
                        },
                        Ok(false) => {},
                    }
                },
                Ok(None) => {
                    return Ok(None);
                },
                Err(e) => {
                    return Err(e);
                },
            }
        }
    }
}

/// Two parsers are equal when they are in the same state on blobs that hold the same
/// bytes.
impl<'a, 'dt: 'a> PartialEq for DevTreeIter<'a, 'dt> {
    fn eq(&self, other: &Self) -> (r: bool) {
        let same_parent: bool = match (self.current_prop_parent_off, other.current_prop_parent_off) {
            (Some(l), Some(r)) => l == r,
            (None, None) => true,
            _ => false,
        };
        same_parent && self.offset == other.offset && self.depth == other.depth && same_bytes(
            self.fdt.buf(),
            other.fdt.buf(),
        )
    }
}

impl<'a, 'dt: 'a> PartialEqSpecImpl for DevTreeIter<'a, 'dt> {
    open spec fn obeys_eq_spec() -> bool {
        true
    }

    open spec fn eq_spec(&self, other: &Self) -> bool {
        self@ == other@ && self.blob() == other.blob()
    }
}

/// An iterator over the nodes of a tree.
#[derive(Clone, Copy, PartialEq)]
pub struct DevTreeNodeIter<'a, 'dt: 'a>(pub DevTreeIter<'a, 'dt>);

impl<'a, 'dt: 'a> DevTreeNodeIter<'a, 'dt> {
    pub fn next(&mut self) -> (r: Result<Option<DevTreeNode<'a, 'dt>>, DevTreeError>)
        ensures
            node_result_is(r, old(self).0.blob(), spec_next_node(old(self).0.blob(), old(self).0@).result),
            final(self).0@ == spec_next_node(old(self).0.blob(), old(self).0@).state,
            final(self).0.blob() == old(self).0.blob(),
    {
        self.0.next_node()
    }
}

/// An iterator over the properties of a tree, of whichever node.
#[derive(Clone, Copy, PartialEq)]
pub struct DevTreePropIter<'a, 'dt: 'a>(pub DevTreeIter<'a, 'dt>);

impl<'a, 'dt: 'a> DevTreePropIter<'a, 'dt> {
    pub fn next(&mut self) -> (r: Result<Option<DevTreeProp<'a, 'dt>>, DevTreeError>)
        ensures
            prop_result_is(r, old(self).0.blob(), spec_next_prop(old(self).0.blob(), old(self).0@).result),
            final(self).0@ == spec_next_prop(old(self).0.blob(), old(self).0@).state,
            final(self).0.blob() == old(self).0.blob(),
    {
        self.0.next_prop()
    }
}

/// An iterator over the properties of one node.
#[derive(Clone, Copy, PartialEq)]
pub struct DevTreeNodePropIter<'a, 'dt: 'a>(pub DevTreeIter<'a, 'dt>);

impl<'a, 'dt: 'a> DevTreeNodePropIter<'a, 'dt> {
    pub fn next(&mut self) -> (r: Result<Option<DevTreeProp<'a, 'dt>>, DevTreeError>)
        ensures
            prop_result_is(
                r,
                old(self).0.blob(),
                spec_next_node_prop(old(self).0.blob(), old(self).0@).result,
            ),
            final(self).0@ == spec_next_node_prop(old(self).0.blob(), old(self).0@).state,
            final(self).0.blob() == old(self).0.blob(),
    {
        self.0.next_node_prop()
    }
}

/// An iterator over the nodes that hold `string` in their property "compatible".
#[derive(Clone, Copy, PartialEq)]
pub struct DevTreeCompatibleNodeIter<'s, 'a, 'dt: 'a> {
    pub iter: DevTreeIter<'a, 'dt>,
    pub string: &'s str,
}

impl<'s, 'a, 'dt: 'a> DevTreeCompatibleNodeIter<'s, 'a, 'dt> {
    pub fn next(&mut self) -> (r: Result<Option<DevTreeNode<'a, 'dt>>, DevTreeError>)
        ensures
            node_result_is(
                r,
                old(self).iter.blob(),
                spec_next_compatible(
                    old(self).iter.blob(),
                    old(self).iter@,
                    old(self).string.spec_bytes(),
                ).result,
            ),
            final(self).iter@ == spec_next_compatible(
                old(self).iter.blob(),
                old(self).iter@,
                old(self).string.spec_bytes(),
            ).state,
            final(self).iter.blob() == old(self).iter.blob(),
            final(self).string == old(self).string,
    {
        let string: &'s str = self.string;
        self.iter.next_compatible_node(string)
    }
}

/// One step of a walk that is held to a depth: what it returns, the state of the parser
/// behind it, and whether the walk has ended for good.
pub struct DepthStep {
    pub result: Result<Option<(ItemView, int)>, DevTreeError>,
    pub state: IterState,
    pub ended: bool,
}

/// Tells whether a walk held to the depth `target` hands out an item of the depth
/// `depth`: one of exactly that depth where `exact` holds, one at least that deep
/// otherwise.
pub open spec fn spec_depth_keeps(target: int, exact: bool, depth: int) -> bool {
    if exact {
        depth == target
    } else {
        depth >= target
    }
}

/// The step from the state `st` of a walk that is held to the depth `target`.
///
/// The walk hands out the items that `spec_depth_keeps` keeps and passes over the others.
/// It ends for good at the first node above the depth `target`: the walk has then left
/// the subtree it started in.
pub open spec fn spec_depth_next(
    buf: Seq<u8>,
    st: IterState,
    target: int,
    exact: bool,
    ended: bool,
) -> DepthStep
    decreases buf.len() + 4 - st.offset,
{
    if ended {
        DepthStep { result: Ok(None), state: st, ended: true }
    } else {
        let step = spec_next_item(buf, st);
        match step.result {
            Ok(Some((item, depth))) => if spec_depth_keeps(target, exact, depth) {
                DepthStep { result: step.result, state: step.state, ended: false }
            } else if depth < target && item is Node {
                DepthStep { result: Ok(None), state: step.state, ended: true }
            } else if st.offset < step.state.offset <= buf.len() + 4 {
                spec_depth_next(buf, step.state, target, exact, false)
            } else {
                DepthStep { result: Ok(None), state: step.state, ended: false }
            },
            _ => DepthStep { result: step.result, state: step.state, ended: false },
        }
    }
}

/// A step of a walk that is held to a depth keeps what holds of the parser's states, and
/// moves the cursor forward when it returns an item.
pub proof fn lemma_depth_next(buf: Seq<u8>, st: IterState, target: int, exact: bool, ended: bool)
    requires
        spec_iter_inv(buf, st),
    ensures
        spec_iter_inv(buf, spec_depth_next(buf, st, target, exact, ended).state),
        st.offset <= spec_depth_next(buf, st, target, exact, ended).state.offset,
        spec_depth_next(buf, st, target, exact, ended).result matches Ok(Some(_)) ==> st.offset + 4
            <= spec_depth_next(buf, st, target, exact, ended).state.offset <= buf.len() + 3,
        spec_depth_next(buf, st, target, exact, ended).result matches Ok(Some((item, depth)))
            ==> spec_depth_keeps(target, exact, depth) && !spec_depth_next(
            buf,
            st,
            target,
            exact,
            ended,
        ).ended,
        spec_depth_next(buf, st, target, exact, ended).result matches Ok(
            Some((ItemView::Node(node), depth)),
        ) ==> spec_node_inv(buf, node) && node.state == spec_depth_next(
            buf,
            st,
            target,
            exact,
            ended,
        ).state && depth == node.state.depth,
    decreases buf.len() + 4 - st.offset,
{
    if !ended {
        lemma_next_item(buf, st);
        let step = spec_next_item(buf, st);
        match step.result {
            Ok(Some((item, depth))) => {
                if !spec_depth_keeps(target, exact, depth) && !(depth < target && item is Node) {
                    lemma_depth_next(buf, step.state, target, exact, false);
                }
            },
            _ => {},
        }
    }
}

/// Takes the step `spec_depth_next` on `iter`.
fn depth_next<'a, 'dt: 'a>(
    iter: &mut DevTreeIter<'a, 'dt>,
    target: isize,
    exact: bool,
    ended: &mut bool,
) -> (r: Result<Option<(DevTreeItem<'a, 'dt>, isize)>, DevTreeError>)
    ensures
        final(iter).blob() == old(iter).blob(),
        item_depth_result_is(
            r,
            old(iter).blob(),
            spec_depth_next(old(iter).blob(), old(iter)@, target as int, exact, *old(ended)).result,
        ),
        final(iter)@ == spec_depth_next(
            old(iter).blob(),
            old(iter)@,
            target as int,
            exact,
            *old(ended),
        ).state,
        *final(ended) == spec_depth_next(
            old(iter).blob(),
            old(iter)@,
            target as int,
            exact,
            *old(ended),
        ).ended,
{
    if *ended {
        return Ok(None);
    }
    let ghost blob = iter.blob();
    let ghost start = iter@;
    loop
        invariant
            iter.blob() == blob,
            blob == old(iter).blob(),
            start == old(iter)@,
            !*old(ended),
            !*ended,
            spec_depth_next(blob, iter@, target as int, exact, false) == spec_depth_next(
                blob,
                start,
                target as int,
                exact,
                false,
            ),
        decreases blob.len() + 4 - iter@.offset,
    {
        proof {
            use_type_invariant(&*iter);
            lemma_next_item(blob, iter@);
        }
        match iter.next_item_with_depth() {
            Ok(Some((item, depth))) => {
                let keeps: bool = if exact {
                    depth == target
                } else {
                    depth >= target
                };
                if keeps {
                    return Ok(Some((item, depth)));
                } else if depth < target {
                    if let DevTreeItem::Node(_) = item {
                        *ended = true;
                        return Ok(None);
                    }
                }
            },
            Ok(None) => {
                return Ok(None);
            },
            Err(e) => {
                return Err(e);
            },
        }
    }
}

/// An iterator over the items of a tree that lie at a depth or deeper, up to the first
/// node above that depth.
#[derive(Clone, Copy, PartialEq)]
pub struct DevTreeMinDepthIter<'a, 'dt: 'a> {
    iter: DevTreeIter<'a, 'dt>,
    min_depth: isize,
    ended: bool,
}

impl<'a, 'dt: 'a> DevTreeMinDepthIter<'a, 'dt> {
    /// The state of the parser that the walk draws from.
    pub closed spec fn state(self) -> IterState {
        self.iter@
    }

    pub closed spec fn blob(self) -> Seq<u8> {
        self.iter.blob()
    }

    /// The depth that the walk is held to.
    pub closed spec fn target(self) -> int {
        self.min_depth as int
    }

    /// Tells whether the walk has ended for good.
    pub closed spec fn ended(self) -> bool {
        self.ended
    }

    pub fn new(iter: DevTreeIter<'a, 'dt>, min_depth: isize) -> (r: Self)
        ensures
            r.state() == iter@,
            r.blob() == iter.blob(),
            r.target() == min_depth,
            !r.ended(),
    {
        Self { iter, min_depth, ended: false }
    }

    pub fn next(&mut self) -> (r: Result<Option<(DevTreeItem<'a, 'dt>, isize)>, DevTreeError>)
        ensures
            final(self).blob() == old(self).blob(),
            final(self).target() == old(self).target(),
            item_depth_result_is(
                r,
                old(self).blob(),
                spec_depth_next(
                    old(self).blob(),
                    old(self).state(),
                    old(self).target(),
                    false,
                    old(self).ended(),
                ).result,
            ),
            final(self).state() == spec_depth_next(
                old(self).blob(),
                old(self).state(),
                old(self).target(),
                false,
                old(self).ended(),
            ).state,
            final(self).ended() == spec_depth_next(
                old(self).blob(),
                old(self).state(),
                old(self).target(),
                false,
                old(self).ended(),
            ).ended,
    {
        let mut iter = self.iter;
        let mut ended: bool = self.ended;
        let r = depth_next(&mut iter, self.min_depth, false, &mut ended);
        self.iter = iter;
        self.ended = ended;
        r
    }
}

/// An iterator over the items of a tree that lie at one depth, up to the first node above
/// that depth.
#[derive(Clone, Copy, PartialEq)]
pub struct DevTreeDepthIter<'a, 'dt: 'a> {
    iter: DevTreeIter<'a, 'dt>,
    depth: isize,
    ended: bool,
}

impl<'a, 'dt: 'a> DevTreeDepthIter<'a, 'dt> {
    /// The state of the parser that the walk draws from.
    pub closed spec fn state(self) -> IterState {
        self.iter@
    }

    pub closed spec fn blob(self) -> Seq<u8> {
        self.iter.blob()
    }

    /// The depth that the walk is held to.
    pub closed spec fn target(self) -> int {
        self.depth as int
    }

    /// Tells whether the walk has ended for good.
    pub closed spec fn ended(self) -> bool {
        self.ended
    }

    pub fn new(iter: DevTreeIter<'a, 'dt>, depth: isize) -> (r: Self)
        ensures
            r.state() == iter@,
            r.blob() == iter.blob(),
            r.target() == depth,
            !r.ended(),
    {
        Self { iter, depth, ended: false }
    }

    pub fn next(&mut self) -> (r: Result<Option<(DevTreeItem<'a, 'dt>, isize)>, DevTreeError>)
        ensures
            final(self).blob() == old(self).blob(),
            final(self).target() == old(self).target(),
            item_depth_result_is(
                r,
                old(self).blob(),
                spec_depth_next(
                    old(self).blob(),
                    old(self).state(),
                    old(self).target(),
                    true,
                    old(self).ended(),
                ).result,
            ),
            final(self).state() == spec_depth_next(
                old(self).blob(),
                old(self).state(),
                old(self).target(),
                true,
                old(self).ended(),
            ).state,
            final(self).ended() == spec_depth_next(
                old(self).blob(),
                old(self).state(),
                old(self).target(),
                true,
                old(self).ended(),
            ).ended,
    {
        let mut iter = self.iter;
        let mut ended: bool = self.ended;
        let r = depth_next(&mut iter, self.depth, true, &mut ended);
        self.iter = iter;
        self.ended = ended;
        r
    }
}

/// A variant of [`DevTreeIter`] limited to only descendants of a
/// given node.
#[derive(Clone, Copy, PartialEq)]
pub struct DevTreeDescendantsIter<'a, 'dt: 'a>(pub DevTreeMinDepthIter<'a, 'dt>);

impl<'a, 'dt: 'a> DevTreeDescendantsIter<'a, 'dt> {
    /// The walk over what lies below the node that `iter` stands in.
    pub fn new(iter: DevTreeIter<'a, 'dt>) -> (r: Self)
        ensures
            r.0.state() == iter@,
            r.0.blob() == iter.blob(),
            r.0.target() == iter@.depth + 1,
            !r.0.ended(),
    {
        proof {
            use_type_invariant(&iter);
        }
        let target_depth: isize = iter.depth + 1;
        Self(DevTreeMinDepthIter::new(iter, target_depth))
    }

    pub fn next(&mut self) -> (r: Result<Option<DevTreeItem<'a, 'dt>>, DevTreeError>)
        ensures
            final(self).0.blob() == old(self).0.blob(),
            final(self).0.target() == old(self).0.target(),
            item_result_is(
                r,
                old(self).0.blob(),
                spec_depth_next(
                    old(self).0.blob(),
                    old(self).0.state(),
                    old(self).0.target(),
                    false,
                    old(self).0.ended(),
                ).result,
            ),
            final(self).0.state() == spec_depth_next(
                old(self).0.blob(),
                old(self).0.state(),
                old(self).0.target(),
                false,
                old(self).0.ended(),
            ).state,
            final(self).0.ended() == spec_depth_next(
                old(self).0.blob(),
                old(self).0.state(),
                old(self).0.target(),
                false,
                old(self).0.ended(),
            ).ended,
    {
        match self.0.next() {
            Ok(Some((item, _))) => Ok(Some(item)),
            Ok(None) => Ok(None),
            Err(e) => Err(e),
        }
    }
}

/// A variant of [`DevTreeIter`] limited to only direct children of a
/// given node.
#[derive(Clone, Copy, PartialEq)]
pub struct DevTreeChildrenIter<'a, 'dt: 'a>(pub DevTreeDepthIter<'a, 'dt>);

impl<'a, 'dt: 'a> DevTreeChildrenIter<'a, 'dt> {
    /// The walk over the children of the node that `iter` stands in.
    pub fn new(iter: DevTreeIter<'a, 'dt>) -> (r: Self)
        ensures
            r.0.state() == iter@,
            r.0.blob() == iter.blob(),
            r.0.target() == iter@.depth + 1,
            !r.0.ended(),
    {
        proof {
            use_type_invariant(&iter);
        }
        let target_depth: isize = iter.depth + 1;
        Self(DevTreeDepthIter::new(iter, target_depth))
    }

    pub fn next(&mut self) -> (r: Result<Option<DevTreeItem<'a, 'dt>>, DevTreeError>)
        ensures
            final(self).0.blob() == old(self).0.blob(),
            final(self).0.target() == old(self).0.target(),
            item_result_is(
                r,
                old(self).0.blob(),
                spec_depth_next(
                    old(self).0.blob(),
                    old(self).0.state(),
                    old(self).0.target(),
                    true,
                    old(self).0.ended(),
                ).result,
            ),
            final(self).0.state() == spec_depth_next(
                old(self).0.blob(),
                old(self).0.state(),
                old(self).0.target(),
                true,
                old(self).0.ended(),
            ).state,
            final(self).0.ended() == spec_depth_next(
                old(self).0.blob(),
                old(self).0.state(),
                old(self).0.target(),
                true,
                old(self).0.ended(),
            ).ended,
    {
        match self.0.next() {
            Ok(Some((item, _))) => Ok(Some(item)),
            Ok(None) => Ok(None),
            Err(e) => Err(e),
        }
    }
}

/// One step of a walk over what follows a node: as `DepthStep`, and whether the walk has
/// left the node it started in.
pub struct SkipStep {
    pub result: Result<Option<(ItemView, int)>, DevTreeError>,
    pub state: IterState,
    pub ended: bool,
    pub done: bool,
}

/// The step of a walk, held to the depth `target`, over what follows the node that it
/// started in.
///
/// Until the walk has left that node (`done`), it passes over whatever it meets: the
/// first node of the depth `target` is the node's next sibling, which is then handed out.
/// From there on the walk is the one of `spec_depth_next`. Where the node has no later
/// sibling, the walk ends.
pub open spec fn spec_skip_next(
    buf: Seq<u8>,
    st: IterState,
    target: int,
    exact: bool,
    ended: bool,
    done: bool,
) -> SkipStep
    decreases buf.len() + 4 - st.offset,
{
    let step = spec_depth_next(buf, st, target, exact, ended);
    if done {
        SkipStep { result: step.result, state: step.state, ended: step.ended, done: true }
    } else {
        match step.result {
            Ok(Some((item, depth))) => if item is Node && depth == target {
                SkipStep { result: step.result, state: step.state, ended: step.ended, done: true }
            } else if st.offset < step.state.offset <= buf.len() + 4 {
                spec_skip_next(buf, step.state, target, exact, step.ended, false)
            } else {
                SkipStep { result: Ok(None), state: step.state, ended: step.ended, done: false }
            },
            _ => SkipStep {
                result: step.result,
                state: step.state,
                ended: step.ended,
                done: false,
            },
        }
    }
}

/// Takes the step `spec_skip_next` on `iter`.
fn skip_next<'a, 'dt: 'a>(
    iter: &mut DevTreeIter<'a, 'dt>,
    target: isize,
    exact: bool,
    ended: &mut bool,
    done: &mut bool,
) -> (r: Result<Option<(DevTreeItem<'a, 'dt>, isize)>, DevTreeError>)
    ensures
        final(iter).blob() == old(iter).blob(),
        item_depth_result_is(
            r,
            old(iter).blob(),
            spec_skip_next(
                old(iter).blob(),
                old(iter)@,
                target as int,
                exact,
                *old(ended),
                *old(done),
            ).result,
        ),
        final(iter)@ == spec_skip_next(
            old(iter).blob(),
            old(iter)@,
            target as int,
            exact,
            *old(ended),
            *old(done),
        ).state,
        *final(ended) == spec_skip_next(
            old(iter).blob(),
            old(iter)@,
            target as int,
            exact,
            *old(ended),
            *old(done),
        ).ended,
        *final(done) == spec_skip_next(
            old(iter).blob(),
            old(iter)@,
            target as int,
            exact,
            *old(ended),
            *old(done),
        ).done,
{
    if *done {
        return depth_next(iter, target, exact, ended);
    }
    let ghost blob = iter.blob();
    let ghost start = iter@;
    let ghost start_ended = *ended;
    loop
        invariant
            iter.blob() == blob,
            blob == old(iter).blob(),
            start == old(iter)@,
            start_ended == *old(ended),
            !*old(done),
            !*done,
            spec_skip_next(blob, iter@, target as int, exact, *ended, false) == spec_skip_next(
                blob,
                start,
                target as int,
                exact,
                start_ended,
                false,
            ),
        decreases blob.len() + 4 - iter@.offset,
    {
        proof {
            use_type_invariant(&*iter);
            lemma_depth_next(blob, iter@, target as int, exact, *ended);
        }
        match depth_next(iter, target, exact, ended) {
            Ok(Some((item, depth))) => {
                if let DevTreeItem::Node(_) = item {
                    if depth == target {
                        *done = true;
                        return Ok(Some((item, depth)));
                    }
                }
            },
            Ok(None) => {
                return Ok(None);
            },
            Err(e) => {
                return Err(e);
            },
        }
    }
}

/// A variant of [`DevTreeIter`] limited to only later siblings and
/// their descendants of a given node. Note that this will only yield
/// siblings that come after the reference node, but not any before
/// that node.
#[derive(Clone, Copy, PartialEq)]
pub struct DevTreeSiblingsAndDescendantsIter<'a, 'dt: 'a> {
    iter: DevTreeIter<'a, 'dt>,
    depth: isize,
    ended: bool,
    done: bool,
}

impl<'a, 'dt: 'a> DevTreeSiblingsAndDescendantsIter<'a, 'dt> {
    /// The state of the parser that the walk draws from.
    pub closed spec fn state(self) -> IterState {
        self.iter@
    }

    pub closed spec fn blob(self) -> Seq<u8> {
        self.iter.blob()
    }

    /// The depth of the node whose siblings are walked.
    pub closed spec fn target(self) -> int {
        self.depth as int
    }

    /// Tells whether the walk has ended for good.
    pub closed spec fn ended(self) -> bool {
        self.ended
    }

    /// Tells whether the walk has left the node it started in.
    pub closed spec fn done(self) -> bool {
        self.done
    }

    /// The walk over what follows the node that `iter` stands in.
    pub fn new(iter: DevTreeIter<'a, 'dt>) -> (r: Self)
        ensures
            r.state() == iter@,
            r.blob() == iter.blob(),
            r.target() == iter@.depth,
            !r.ended(),
            !r.done(),
    {
        let depth: isize = iter.depth;
        Self { iter, depth, ended: false, done: false }
    }

    pub fn next(&mut self) -> (r: Result<Option<DevTreeItem<'a, 'dt>>, DevTreeError>)
        ensures
            final(self).blob() == old(self).blob(),
            final(self).target() == old(self).target(),
            item_result_is(
                r,
                old(self).blob(),
                spec_skip_next(
                    old(self).blob(),
                    old(self).state(),
                    old(self).target(),
                    false,
                    old(self).ended(),
                    old(self).done(),
                ).result,
            ),
            final(self).state() == spec_skip_next(
                old(self).blob(),
                old(self).state(),
                old(self).target(),
                false,
                old(self).ended(),
                old(self).done(),
            ).state,
            final(self).ended() == spec_skip_next(
                old(self).blob(),
                old(self).state(),
                old(self).target(),
                false,
                old(self).ended(),
                old(self).done(),
            ).ended,
            final(self).done() == spec_skip_next(
                old(self).blob(),
                old(self).state(),
                old(self).target(),
                false,
                old(self).ended(),
                old(self).done(),
            ).done,
    {
        let mut iter = self.iter;
        let mut ended: bool = self.ended;
        let mut done: bool = self.done;
        let r = skip_next(&mut iter, self.depth, false, &mut ended, &mut done);
        self.iter = iter;
        self.ended = ended;
        self.done = done;
        match r {
            Ok(Some((item, _))) => Ok(Some(item)),
            Ok(None) => Ok(None),
            Err(e) => Err(e),
        }
    }
}

/// A variant of [`DevTreeIter`] limited to only later siblings of a
/// given node. Note that this will only yield siblings that come
/// after the reference node, but not any before that node.
#[derive(Clone, Copy, PartialEq)]
pub struct DevTreeSiblingsIter<'a, 'dt: 'a> {
    iter: DevTreeIter<'a, 'dt>,
    depth: isize,
    ended: bool,
    done: bool,
}

impl<'a, 'dt: 'a> DevTreeSiblingsIter<'a, 'dt> {
    /// The state of the parser that the walk draws from.
    pub closed spec fn state(self) -> IterState {
        self.iter@
    }

    pub closed spec fn blob(self) -> Seq<u8> {
        self.iter.blob()
    }

    /// The depth of the node whose siblings are walked.
    pub closed spec fn target(self) -> int {
        self.depth as int
    }

    /// Tells whether the walk has ended for good.
    pub closed spec fn ended(self) -> bool {
        self.ended
    }

    /// Tells whether the walk has left the node it started in.
    pub closed spec fn done(self) -> bool {
        self.done
    }

    /// The walk over the later siblings of the node that `iter` stands in.
    pub fn new(iter: DevTreeIter<'a, 'dt>) -> (r: Self)
        ensures
            r.state() == iter@,
            r.blob() == iter.blob(),
            r.target() == iter@.depth,
            !r.ended(),
            !r.done(),
    {
        let depth: isize = iter.depth;
        Self { iter, depth, ended: false, done: false }
    }

    pub fn next(&mut self) -> (r: Result<Option<DevTreeItem<'a, 'dt>>, DevTreeError>)
        ensures
            final(self).blob() == old(self).blob(),
            final(self).target() == old(self).target(),
            item_result_is(
                r,
                old(self).blob(),
                spec_skip_next(
                    old(self).blob(),
                    old(self).state(),
                    old(self).target(),
                    true,
                    old(self).ended(),
                    old(self).done(),
                ).result,
            ),
            final(self).state() == spec_skip_next(
                old(self).blob(),
                old(self).state(),
                old(self).target(),
                true,
                old(self).ended(),
                old(self).done(),
            ).state,
            final(self).ended() == spec_skip_next(
                old(self).blob(),
                old(self).state(),
                old(self).target(),
                true,
                old(self).ended(),
                old(self).done(),
            ).ended,
            final(self).done() == spec_skip_next(
                old(self).blob(),
                old(self).state(),
                old(self).target(),
                true,
                old(self).ended(),
                old(self).done(),
            ).done,
    {
        let mut iter = self.iter;
        let mut ended: bool = self.ended;
        let mut done: bool = self.done;
        let r = skip_next(&mut iter, self.depth, true, &mut ended, &mut done);
        self.iter = iter;
        self.ended = ended;
        self.done = done;
        match r {
            Ok(Some((item, _))) => Ok(Some(item)),
            Ok(None) => Ok(None),
            Err(e) => Err(e),
        }
    }
}

/// The entry of the memory reservation block of `buf` at `off`: `None` where the block
/// ends, at an entry of two zeros or where no whole entry is left in the buffer.
pub open spec fn spec_reserve_entry(buf: Seq<u8>, off: int) -> Option<fdt_reserve_entry> {
    if off < 0 || off + FDT_RESERVE_ENTRY_SIZE > buf.len() {
        None
    } else if spec_be_u64(buf, off) == 0 && spec_be_u64(buf, off + 8) == 0 {
        None
    } else {
        Some(
            fdt_reserve_entry {
                address: spec_be_u64(buf, off) as u64,
                size: spec_be_u64(buf, off + 8) as u64,
            },
        )
    }
}

/// An iterator over [`fdt_reserve_entry`] objects within the FDT.
#[derive(Clone, Copy)]
pub struct DevTreeReserveEntryIter<'a, 'dt: 'a> {
    offset: usize,
    fdt: &'a DevTree<'dt>,
}

impl<'a, 'dt: 'a> DevTreeReserveEntryIter<'a, 'dt> {
    /// The place in the blob of the next entry.
    pub closed spec fn offset(self) -> int {
        self.offset as int
    }

    pub closed spec fn blob(self) -> Seq<u8> {
        self.fdt@
    }

    pub fn new(fdt: &'a DevTree<'dt>) -> (r: Self)
        ensures
            r.offset() == spec_be_u32(fdt@, 16),
            r.blob() == fdt@,
    {
        Self { offset: fdt.off_mem_rsvmap(), fdt }
    }

    /// Returns the next entry of the block, and `None` from the end of the block on.
    pub fn next(&mut self) -> (r: Option<fdt_reserve_entry>)
        ensures
            final(self).blob() == old(self).blob(),
            r == spec_reserve_entry(old(self).blob(), old(self).offset()),
            final(self).offset() == if r is Some {
                old(self).offset() + FDT_RESERVE_ENTRY_SIZE
            } else {
                old(self).offset()
            },
    {
        let buf: &'dt [u8] = self.fdt.buf();
        let len: usize = buf.len();
        let offset: usize = self.offset;
        if offset > len || len - offset < FDT_RESERVE_ENTRY_SIZE {
            return None;
        }
        match (buf.unchecked_read_be_u64(offset), buf.unchecked_read_be_u64(offset + 8)) {
            (Ok(address), Ok(size)) => {
                if address == 0 && size == 0 {
                    None
                } else {
                    self.offset = offset + FDT_RESERVE_ENTRY_SIZE;
                    Some(fdt_reserve_entry { address, size })
                }
            },
            _ => None,
        }
    }
}

/// The node that a property handle leads back to.
pub open spec fn spec_prop_node(buf: Seq<u8>, prop: PropView) -> NodeView {
    spec_node_at(buf, prop.parent.offset, prop.parent.depth + 1)
}

/// A property is handed out only in a state that stands in the header of a node, and
/// leads back to that node.
pub proof fn lemma_prop_parent(buf: Seq<u8>, st: IterState)
    requires
        spec_iter_inv(buf, st),
    ensures
        spec_next_item(buf, st).result matches Ok(Some((ItemView::Prop(prop), _)))
            ==> st.parent matches Some(p) && spec_prop_node(buf, prop) == spec_node_at(
            buf,
            p,
            st.depth,
        ) && spec_next_item(buf, st).state.parent == st.parent && spec_next_item(
            buf,
            st,
        ).state.depth == st.depth,
    decreases buf.len() + 4 - st.offset,
{
    lemma_token_bounds(buf, st.offset);
    let step = spec_next_token(buf, st.offset);
    match step.result {
        Ok(Some(Token::EndNode)) => {
            let next = IterState { offset: st.offset + 4, depth: st.depth - 1, parent: None };
            lemma_prop_parent(buf, next);
        },
        Ok(Some(Token::Nop)) => {
            lemma_prop_parent(
                buf,
                IterState { offset: st.offset + 4, depth: st.depth, parent: st.parent },
            );
        },
        _ => {},
    }
}

/// A property belongs to the node that was handed out last before it: the node of a
/// property that follows a node is that node, and the node of a property that follows a
/// property is the node of that property.
pub proof fn lemma_prop_owner(buf: Seq<u8>, st: IterState)
    requires
        spec_iter_inv(buf, st),
    ensures
        spec_next_item(buf, spec_next_item(buf, st).state).result matches Ok(
            Some((ItemView::Prop(prop), _)),
        ) ==> match spec_next_item(buf, st).result {
            Ok(Some((ItemView::Node(node), _))) => spec_prop_node(buf, prop) == node,
            Ok(Some((ItemView::Prop(before), _))) => spec_prop_node(buf, prop) == spec_prop_node(
                buf,
                before,
            ),
            _ => true,
        },
{
    lemma_next_item(buf, st);
    lemma_prop_parent(buf, st);
    lemma_prop_parent(buf, spec_next_item(buf, st).state);
}

/// Two parsers in the same state on the same blob take the same step: a clone hands out
/// what the parser it was made from hands out, whichever of the two is advanced.
pub proof fn lemma_clones_agree(a: DevTreeIter, b: DevTreeIter)
    requires
        a@ == b@,
        a.blob() == b.blob(),
    ensures
        spec_next_item(a.blob(), a@) == spec_next_item(b.blob(), b@),
        spec_next_node(a.blob(), a@) == spec_next_node(b.blob(), b@),
        spec_next_prop(a.blob(), a@) == spec_next_prop(b.blob(), b@),
{
}

/// A step of the parser that hands out an item moves the cursor forward, within the blob.
pub proof fn lemma_next_item_moves(buf: Seq<u8>, st: IterState)
    ensures
        spec_next_item(buf, st).result matches Ok(Some(_)) ==> st.offset + 4 <= spec_next_item(
            buf,
            st,
        ).state.offset <= buf.len() + 3,
    decreases buf.len() + 4 - st.offset,
{
    lemma_token_bounds(buf, st.offset);
    let step = spec_next_token(buf, st.offset);
    match step.result {
        Ok(Some(Token::EndNode)) => {
            lemma_next_item_moves(
                buf,
                IterState { offset: st.offset + 4, depth: st.depth - 1, parent: None },
            );
        },
        Ok(Some(Token::Nop)) => {
            lemma_next_item_moves(
                buf,
                IterState { offset: st.offset + 4, depth: st.depth, parent: st.parent },
            );
        },
        _ => {},
    }
}

/// A walk over a tree that hands out its items one by one.
pub trait DevTreeItemIter<'a, 'dt: 'a>: Sized {
    /// What the walk goes by, apart from the blob.
    type State;

    /// The state of the walk.
    spec fn state(&self) -> Self::State;

    /// The bytes of the blob that is walked.
    spec fn blob(&self) -> Seq<u8>;

    /// What a step of the walk on `blob` hands out in the state `st`.
    spec fn step_result(blob: Seq<u8>, st: Self::State) -> Result<
        Option<(ItemView, int)>,
        DevTreeError,
    >;

    /// The state that a step of the walk on `blob` leaves the state `st` in.
    spec fn step_state(blob: Seq<u8>, st: Self::State) -> Self::State;

    /// A number that bounds the items that the walk on `blob` still hands out in the state
    /// `st`.
    spec fn left(blob: Seq<u8>, st: Self::State) -> nat;

    /// Returns the next item of the walk.
    fn next_item(&mut self) -> (r: Result<Option<DevTreeItem<'a, 'dt>>, DevTreeError>)
        ensures
            final(self).blob() == old(self).blob(),
            item_result_is(r, old(self).blob(), Self::step_result(old(self).blob(), old(self).state())),
            final(self).state() == Self::step_state(old(self).blob(), old(self).state()),
            r matches Ok(Some(_)) ==> Self::left(old(self).blob(), final(self).state()) < Self::left(
                old(self).blob(),
                old(self).state(),
            ),
    ;
}

/// The number of bytes from the cursor `offset` to behind the end of a blob of `len`
/// bytes: it bounds the tokens that are left.
pub open spec fn spec_bytes_left(len: int, offset: int) -> nat {
    if offset <= len + 4 {
        (len + 4 - offset) as nat
    } else {
        0
    }
}

impl<'a, 'dt: 'a> DevTreeItemIter<'a, 'dt> for DevTreeIter<'a, 'dt> {
    type State = IterState;

    open spec fn state(&self) -> IterState {
        self@
    }

    open spec fn blob(&self) -> Seq<u8> {
        DevTreeIter::blob(*self)
    }

    open spec fn step_result(blob: Seq<u8>, st: IterState) -> Result<
        Option<(ItemView, int)>,
        DevTreeError,
    > {
        spec_next_item(blob, st).result
    }

    open spec fn step_state(blob: Seq<u8>, st: IterState) -> IterState {
        spec_next_item(blob, st).state
    }

    open spec fn left(blob: Seq<u8>, st: IterState) -> nat {
        spec_bytes_left(blob.len() as int, st.offset)
    }

    fn next_item(&mut self) -> (r: Result<Option<DevTreeItem<'a, 'dt>>, DevTreeError>) {
        proof {
            lemma_next_item_moves(DevTreeIter::blob(*self), self@);
        }
        DevTreeIter::next_item(self)
    }
}

/// The state of a walk that is held to a depth.
pub struct DepthState {
    pub state: IterState,
    pub target: int,
    pub ended: bool,
}

/// The state of a walk over what follows a node.
pub struct SkipState {
    pub state: IterState,
    pub target: int,
    pub ended: bool,
    pub done: bool,
}

/// A step of a walk held to a depth moves the cursor forward when it hands out an item.
pub proof fn lemma_depth_moves(buf: Seq<u8>, st: IterState, target: int, exact: bool, ended: bool)
    ensures
        spec_depth_next(buf, st, target, exact, ended).result matches Ok(Some(_)) ==> st.offset
            + 4 <= spec_depth_next(buf, st, target, exact, ended).state.offset <= buf.len() + 3,
    decreases buf.len() + 4 - st.offset,
{
    if !ended {
        lemma_next_item_moves(buf, st);
        let step = spec_next_item(buf, st);
        match step.result {
            Ok(Some((item, depth))) => {
                if !spec_depth_keeps(target, exact, depth) && !(depth < target && item is Node) {
                    lemma_depth_moves(buf, step.state, target, exact, false);
                }
            },
            _ => {},
        }
    }
}

/// A step of a walk over what follows a node moves the cursor forward when it hands out
/// an item.
pub proof fn lemma_skip_moves(
    buf: Seq<u8>,
    st: IterState,
    target: int,
    exact: bool,
    ended: bool,
    done: bool,
)
    ensures
        spec_skip_next(buf, st, target, exact, ended, done).result matches Ok(Some(_))
            ==> st.offset + 4 <= spec_skip_next(buf, st, target, exact, ended, done).state.offset
            <= buf.len() + 3,
    decreases buf.len() + 4 - st.offset,
{
    lemma_depth_moves(buf, st, target, exact, ended);
    let step = spec_depth_next(buf, st, target, exact, ended);
    if !done {
        match step.result {
            Ok(Some((item, depth))) => {
                if !(item is Node && depth == target) {
                    lemma_skip_moves(buf, step.state, target, exact, step.ended, false);
                }
            },
            _ => {},
        }
    }
}

impl<'a, 'dt: 'a> DevTreeItemIter<'a, 'dt> for DevTreeDescendantsIter<'a, 'dt> {
    type State = DepthState;

    open spec fn state(&self) -> DepthState {
        DepthState { state: self.0.state(), target: self.0.target(), ended: self.0.ended() }
    }

    open spec fn blob(&self) -> Seq<u8> {
        self.0.blob()
    }

    open spec fn step_result(blob: Seq<u8>, st: DepthState) -> Result<
        Option<(ItemView, int)>,
        DevTreeError,
    > {
        spec_depth_next(blob, st.state, st.target, false, st.ended).result
    }

    open spec fn step_state(blob: Seq<u8>, st: DepthState) -> DepthState {
        DepthState {
            state: spec_depth_next(blob, st.state, st.target, false, st.ended).state,
            target: st.target,
            ended: spec_depth_next(blob, st.state, st.target, false, st.ended).ended,
        }
    }

    open spec fn left(blob: Seq<u8>, st: DepthState) -> nat {
        spec_bytes_left(blob.len() as int, st.state.offset)
    }

    fn next_item(&mut self) -> (r: Result<Option<DevTreeItem<'a, 'dt>>, DevTreeError>) {
        proof {
            lemma_depth_moves(self.0.blob(), self.0.state(), self.0.target(), false, self.0.ended());
        }
        self.next()
    }
}

impl<'a, 'dt: 'a> DevTreeItemIter<'a, 'dt> for DevTreeChildrenIter<'a, 'dt> {
    type State = DepthState;

    open spec fn state(&self) -> DepthState {
        DepthState { state: self.0.state(), target: self.0.target(), ended: self.0.ended() }
    }

    open spec fn blob(&self) -> Seq<u8> {
        self.0.blob()
    }

    open spec fn step_result(blob: Seq<u8>, st: DepthState) -> Result<
        Option<(ItemView, int)>,
        DevTreeError,
    > {
        spec_depth_next(blob, st.state, st.target, true, st.ended).result
    }

    open spec fn step_state(blob: Seq<u8>, st: DepthState) -> DepthState {
        DepthState {
            state: spec_depth_next(blob, st.state, st.target, true, st.ended).state,
            target: st.target,
            ended: spec_depth_next(blob, st.state, st.target, true, st.ended).ended,
        }
    }

    open spec fn left(blob: Seq<u8>, st: DepthState) -> nat {
        spec_bytes_left(blob.len() as int, st.state.offset)
    }

    fn next_item(&mut self) -> (r: Result<Option<DevTreeItem<'a, 'dt>>, DevTreeError>) {
        proof {
            lemma_depth_moves(self.0.blob(), self.0.state(), self.0.target(), true, self.0.ended());
        }
        self.next()
    }
}

impl<'a, 'dt: 'a> DevTreeItemIter<'a, 'dt> for DevTreeSiblingsAndDescendantsIter<'a, 'dt> {
    type State = SkipState;

    open spec fn state(&self) -> SkipState {
        SkipState {
            state: DevTreeSiblingsAndDescendantsIter::state(*self),
            target: self.target(),
            ended: self.ended(),
            done: self.done(),
        }
    }

    open spec fn blob(&self) -> Seq<u8> {
        DevTreeSiblingsAndDescendantsIter::blob(*self)
    }

    open spec fn step_result(blob: Seq<u8>, st: SkipState) -> Result<
        Option<(ItemView, int)>,
        DevTreeError,
    > {
        spec_skip_next(blob, st.state, st.target, false, st.ended, st.done).result
    }

    open spec fn step_state(blob: Seq<u8>, st: SkipState) -> SkipState {
        SkipState {
            state: spec_skip_next(blob, st.state, st.target, false, st.ended, st.done).state,
            target: st.target,
            ended: spec_skip_next(blob, st.state, st.target, false, st.ended, st.done).ended,
            done: spec_skip_next(blob, st.state, st.target, false, st.ended, st.done).done,
        }
    }

    open spec fn left(blob: Seq<u8>, st: SkipState) -> nat {
        spec_bytes_left(blob.len() as int, st.state.offset)
    }

    fn next_item(&mut self) -> (r: Result<Option<DevTreeItem<'a, 'dt>>, DevTreeError>) {
        proof {
            lemma_skip_moves(
                DevTreeSiblingsAndDescendantsIter::blob(*self),
                DevTreeSiblingsAndDescendantsIter::state(*self),
                self.target(),
                false,
                self.ended(),
                self.done(),
            );
        }
        self.next()
    }
}

impl<'a, 'dt: 'a> DevTreeItemIter<'a, 'dt> for DevTreeSiblingsIter<'a, 'dt> {
    type State = SkipState;

    open spec fn state(&self) -> SkipState {
        SkipState {
            state: DevTreeSiblingsIter::state(*self),
            target: self.target(),
            ended: self.ended(),
            done: self.done(),
        }
    }

    open spec fn blob(&self) -> Seq<u8> {
        DevTreeSiblingsIter::blob(*self)
    }

    open spec fn step_result(blob: Seq<u8>, st: SkipState) -> Result<
        Option<(ItemView, int)>,
        DevTreeError,
    > {
        spec_skip_next(blob, st.state, st.target, true, st.ended, st.done).result
    }

    open spec fn step_state(blob: Seq<u8>, st: SkipState) -> SkipState {
        SkipState {
            state: spec_skip_next(blob, st.state, st.target, true, st.ended, st.done).state,
            target: st.target,
            ended: spec_skip_next(blob, st.state, st.target, true, st.ended, st.done).ended,
            done: spec_skip_next(blob, st.state, st.target, true, st.ended, st.done).done,
        }
    }

    open spec fn left(blob: Seq<u8>, st: SkipState) -> nat {
        spec_bytes_left(blob.len() as int, st.state.offset)
    }

    fn next_item(&mut self) -> (r: Result<Option<DevTreeItem<'a, 'dt>>, DevTreeError>) {
        proof {
            lemma_skip_moves(
                DevTreeSiblingsIter::blob(*self),
                DevTreeSiblingsIter::state(*self),
                self.target(),
                true,
                self.ended(),
                self.done(),
            );
        }
        self.next()
    }
}

/// What a walk over the nodes among the items of the walk `I` hands out in the state `st`:
/// the next node of `I`, the properties before it being passed over.
pub open spec fn spec_filter_nodes<'a, 'dt: 'a, I: DevTreeItemIter<'a, 'dt>>(
    blob: Seq<u8>,
    st: I::State,
) -> (Result<Option<(ItemView, int)>, DevTreeError>, I::State)
    decreases I::left(blob, st),
{
    match I::step_result(blob, st) {
        Ok(Some((ItemView::Prop(_), _))) => if I::left(blob, I::step_state(blob, st)) < I::left(
            blob,
            st,
        ) {
            spec_filter_nodes::<I>(blob, I::step_state(blob, st))
        } else {
            (I::step_result(blob, st), I::step_state(blob, st))
        },
        _ => (I::step_result(blob, st), I::step_state(blob, st)),
    }
}

/// What a walk over the properties among the items of the walk `I` hands out in the state
/// `st`: the next property of `I`, the nodes before it being passed over.
pub open spec fn spec_filter_props<'a, 'dt: 'a, I: DevTreeItemIter<'a, 'dt>>(
    blob: Seq<u8>,
    st: I::State,
) -> (Result<Option<(ItemView, int)>, DevTreeError>, I::State)
    decreases I::left(blob, st),
{
    match I::step_result(blob, st) {
        Ok(Some((ItemView::Node(_), _))) => if I::left(blob, I::step_state(blob, st)) < I::left(
            blob,
            st,
        ) {
            spec_filter_props::<I>(blob, I::step_state(blob, st))
        } else {
            (I::step_result(blob, st), I::step_state(blob, st))
        },
        _ => (I::step_result(blob, st), I::step_state(blob, st)),
    }
}

/// What a walk over the properties that come next in the walk `I` hands out in the state
/// `st`: the next item of `I` where it is a property, and nothing where it is a node.
pub open spec fn spec_filter_node_props<'a, 'dt: 'a, I: DevTreeItemIter<'a, 'dt>>(
    blob: Seq<u8>,
    st: I::State,
) -> (Result<Option<(ItemView, int)>, DevTreeError>, I::State) {
    match I::step_result(blob, st) {
        Ok(Some((ItemView::Node(_), _))) => (Ok(None), I::step_state(blob, st)),
        _ => (I::step_result(blob, st), I::step_state(blob, st)),
    }
}

/// An iterator over the nodes among the items of another iterator.
pub struct DevTreeNodeFilter<I>(pub I);

impl<'a, 'dt: 'a, I: DevTreeItemIter<'a, 'dt>> DevTreeNodeFilter<I> {
    pub fn next(&mut self) -> (r: Result<Option<DevTreeNode<'a, 'dt>>, DevTreeError>)
        ensures
            final(self).0.blob() == old(self).0.blob(),
            node_result_is(
                r,
                old(self).0.blob(),
                spec_filter_nodes::<I>(old(self).0.blob(), old(self).0.state()).0,
            ),
            final(self).0.state() == spec_filter_nodes::<I>(
                old(self).0.blob(),
                old(self).0.state(),
            ).1,
    {
        let ghost blob = self.0.blob();
        let ghost start = self.0.state();
        loop
            invariant
                self.0.blob() == blob,
                blob == old(self).0.blob(),
                start == old(self).0.state(),
                spec_filter_nodes::<I>(blob, self.0.state()) == spec_filter_nodes::<I>(blob, start),
            decreases I::left(blob, self.0.state()),
        {
            match self.0.next_item() {
                Ok(Some(DevTreeItem::Node(item))) => {
                    return Ok(Some(item));
                },
                Ok(Some(DevTreeItem::Prop(_))) => {},
                Ok(None) => {
                    return Ok(None);
                },
                Err(e) => {
                    return Err(e);
                },
            }
        }
    }
}

/// An iterator over the properties among the items of another iterator.
pub struct DevTreePropFilter<I>(pub I);

impl<'a, 'dt: 'a, I: DevTreeItemIter<'a, 'dt>> DevTreePropFilter<I> {
    pub fn next(&mut self) -> (r: Result<Option<DevTreeProp<'a, 'dt>>, DevTreeError>)
        ensures
            final(self).0.blob() == old(self).0.blob(),
            prop_result_is(
                r,
                old(self).0.blob(),
                spec_filter_props::<I>(old(self).0.blob(), old(self).0.state()).0,
            ),
            final(self).0.state() == spec_filter_props::<I>(
                old(self).0.blob(),
                old(self).0.state(),
            ).1,
    {
        let ghost blob = self.0.blob();
        let ghost start = self.0.state();
        loop
            invariant
                self.0.blob() == blob,
                blob == old(self).0.blob(),
                start == old(self).0.state(),
                spec_filter_props::<I>(blob, self.0.state()) == spec_filter_props::<I>(blob, start),
            decreases I::left(blob, self.0.state()),
        {
            match self.0.next_item() {
                Ok(Some(DevTreeItem::Prop(p))) => {
                    return Ok(Some(p));
                },
                Ok(Some(DevTreeItem::Node(_))) => {},
                Ok(None) => {
                    return Ok(None);
                },
                Err(e) => {
                    return Err(e);
                },
            }
        }
    }
}

/// An iterator over the properties that come next among the items of another iterator: it
/// ends at the first node.
pub struct DevTreeNodePropFilter<I>(pub I);

impl<'a, 'dt: 'a, I: DevTreeItemIter<'a, 'dt>> DevTreeNodePropFilter<I> {
    pub fn next(&mut self) -> (r: Result<Option<DevTreeProp<'a, 'dt>>, DevTreeError>)
        ensures
            final(self).0.blob() == old(self).0.blob(),
            prop_result_is(
                r,
                old(self).0.blob(),
                spec_filter_node_props::<I>(old(self).0.blob(), old(self).0.state()).0,
            ),
            final(self).0.state() == spec_filter_node_props::<I>(
                old(self).0.blob(),
                old(self).0.state(),
            ).1,
    {
        match self.0.next_item() {
            Ok(Some(DevTreeItem::Prop(p))) => Ok(Some(p)),
            Ok(Some(DevTreeItem::Node(_))) => Ok(None),
            Ok(None) => Ok(None),
            Err(e) => Err(e),
        }
    }
}

/// The walks of the in-order parser that hand out one kind of item.
pub enum WalkKind {
    /// The walk over the items.
    Items,
    /// The walk over the nodes.
    Nodes,
    /// The walk over the properties.
    Props,
    /// The walk over the properties of one node.
    NodeProps,
}

/// The step of the walk `kind` on `buf` from the state `st`.
pub open spec fn spec_walk_step(kind: WalkKind, buf: Seq<u8>, st: IterState) -> ItemStep {
    match kind {
        WalkKind::Items => spec_next_item(buf, st),
        WalkKind::Nodes => spec_next_node(buf, st),
        WalkKind::Props => spec_next_prop(buf, st),
        WalkKind::NodeProps => spec_next_node_prop(buf, st),
    }
}

/// Tells whether the walk `kind`, handing out item after item, comes from the state `from`
/// to the state `to`.
pub open spec fn spec_reaches(buf: Seq<u8>, kind: WalkKind, from: IterState, to: IterState) -> bool
    decreases buf.len() + 4 - from.offset,
{
    from == to || ((spec_walk_step(kind, buf, from).result matches Ok(Some(_))) && from.offset
        < spec_walk_step(kind, buf, from).state.offset <= buf.len() + 4 && spec_reaches(
        buf,
        kind,
        spec_walk_step(kind, buf, from).state,
        to,
    ))
}

/// A walk that has come to a state comes to the state behind the next item too.
pub proof fn lemma_reaches_next(buf: Seq<u8>, kind: WalkKind, from: IterState, to: IterState)
    requires
        spec_reaches(buf, kind, from, to),
        spec_walk_step(kind, buf, to).result matches Ok(Some(_)),
        to.offset < spec_walk_step(kind, buf, to).state.offset <= buf.len() + 4,
    ensures
        spec_reaches(buf, kind, from, spec_walk_step(kind, buf, to).state),
    decreases buf.len() + 4 - from.offset,
{
    if from != to {
        lemma_reaches_next(buf, kind, spec_walk_step(kind, buf, from).state, to);
    } else {
        let next = spec_walk_step(kind, buf, to).state;
        assert(spec_reaches(buf, kind, next, next));
    }
}

/// Tells whether the walk `kind`, handing out item after item from the state `from`, comes
/// to `outcome` as what it hands out last, and is left in the state `to` by it.
pub open spec fn spec_walk_outcome(
    buf: Seq<u8>,
    kind: WalkKind,
    from: IterState,
    to: IterState,
    outcome: Result<Option<ItemView>, DevTreeError>,
) -> bool {
    exists|before: IterState|
        spec_reaches(buf, kind, from, before) && (#[trigger] spec_walk_step(
            kind,
            buf,
            before,
        )).state == to && match outcome {
            Ok(Some(view)) => (spec_walk_step(kind, buf, before).result matches Ok(Some((v, _)))
                && v == view),
            Ok(None) => spec_walk_step(kind, buf, before).result == Ok::<
                Option<(ItemView, int)>,
                DevTreeError,
            >(None),
            Err(e) => spec_walk_step(kind, buf, before).result == Err::<
                Option<(ItemView, int)>,
                DevTreeError,
            >(e),
        }
}

impl<'a, 'dt: 'a> DevTreeIter<'a, 'dt> {
    /// Returns the first item from here on that `predicate` accepts, and leaves the parser
    /// behind it. An error of the parser or of `predicate` ends the search.
    pub fn find<F>(&mut self, predicate: F) -> (r: Result<Option<DevTreeItem<'a, 'dt>>, DevTreeError>)
        where F: Fn(&DevTreeItem<'a, 'dt>) -> Result<bool, DevTreeError>
        requires
            forall|item: DevTreeItem<'a, 'dt>| #[trigger] predicate.requires((&item,)),
        ensures
            final(self).blob() == old(self).blob(),
            match r {
                Ok(Some(item)) => predicate.ensures((&item,), Ok(true)) && item.blob() == old(
                    self,
                ).blob() && spec_walk_outcome(
                    old(self).blob(),
                    WalkKind::Items,
                    old(self)@,
                    final(self)@,
                    Ok(Some(item@)),
                ),
                Ok(None) => spec_walk_outcome(
                    old(self).blob(),
                    WalkKind::Items,
                    old(self)@,
                    final(self)@,
                    Ok(None),
                ),
                Err(e) => spec_walk_outcome(
                    old(self).blob(),
                    WalkKind::Items,
                    old(self)@,
                    final(self)@,
                    Err(e),
                ) || (exists|item: DevTreeItem<'a, 'dt>| #[trigger]
                    predicate.ensures((&item,), Err(e)) && item.blob() == old(self).blob()
                        && spec_walk_outcome(
                        old(self).blob(),
                        WalkKind::Items,
                        old(self)@,
                        final(self)@,
                        Ok(Some(item@)),
                    )),
            },
    {
        let ghost blob = self.blob();
        loop
            invariant
                self.blob() == blob,
                blob == old(self).blob(),
                spec_reaches(blob, WalkKind::Items, old(self)@, self@),
                forall|item: DevTreeItem<'a, 'dt>| #[trigger] predicate.requires((&item,)),
            decreases blob.len() + 4 - self@.offset,
        {
            let ghost before = self@;
            proof {
                lemma_next_item_moves(blob, before);
            }
            match self.next_item() {
                Err(e) => {
                    proof {
                        assert(spec_walk_step(WalkKind::Items, blob, before).state == self@);
                    }
                    return Err(e);
                },
                Ok(None) => {
                    proof {
                        assert(spec_walk_step(WalkKind::Items, blob, before).state == self@);
                    }
                    return Ok(None);
                },
                Ok(Some(item)) => {
                    proof {
                        lemma_reaches_next(blob, WalkKind::Items, old(self)@, before);
                        assert(spec_walk_step(WalkKind::Items, blob, before).state == self@);
                    }
                    match predicate(&item) {
                        Ok(true) => {
                            return Ok(Some(item));
                        },
                        Ok(false) => {},
                        Err(e) => {
                            return Err(e);
                        },
                    }
                },
            }
        }
    }
}

impl<'a, 'dt: 'a> DevTreeNodeIter<'a, 'dt> {
    /// Returns the first node from here on that `predicate` accepts, and leaves the walk
    /// behind it. An error of the walk or of `predicate` ends the search.
    pub fn find<F>(&mut self, predicate: F) -> (r: Result<Option<DevTreeNode<'a, 'dt>>, DevTreeError>)
        where F: Fn(&DevTreeNode<'a, 'dt>) -> Result<bool, DevTreeError>
        requires
            forall|item: DevTreeNode<'a, 'dt>| #[trigger] predicate.requires((&item,)),
        ensures
            final(self).0.blob() == old(self).0.blob(),
            match r {
                Ok(Some(item)) => predicate.ensures((&item,), Ok(true)) && item.blob() == old(
                    self,
                ).0.blob() && spec_walk_outcome(
                    old(self).0.blob(),
                    WalkKind::Nodes,
                    old(self).0@,
                    final(self).0@,
                    Ok(Some(ItemView::Node(item@))),
                ),
                Ok(None) => spec_walk_outcome(
                    old(self).0.blob(),
                    WalkKind::Nodes,
                    old(self).0@,
                    final(self).0@,
                    Ok(None),
                ),
                Err(e) => spec_walk_outcome(
                    old(self).0.blob(),
                    WalkKind::Nodes,
                    old(self).0@,
                    final(self).0@,
                    Err(e),
                ) || (exists|item: DevTreeNode<'a, 'dt>| #[trigger]
                    predicate.ensures((&item,), Err(e)) && item.blob() == old(self).0.blob()
                        && spec_walk_outcome(
                        old(self).0.blob(),
                        WalkKind::Nodes,
                        old(self).0@,
                        final(self).0@,
                        Ok(Some(ItemView::Node(item@))),
                    )),
            },
    {
        let ghost blob = self.0.blob();
        loop
            invariant
                self.0.blob() == blob,
                blob == old(self).0.blob(),
                spec_reaches(blob, WalkKind::Nodes, old(self).0@, self.0@),
                forall|item: DevTreeNode<'a, 'dt>| #[trigger] predicate.requires((&item,)),
            decreases blob.len() + 4 - self.0@.offset,
        {
            let ghost before = self.0@;
            proof {
                crate::base::sequence::lemma_next_node_moves(blob, before);
            }
            match self.next() {
                Err(e) => {
                    proof {
                        assert(spec_walk_step(WalkKind::Nodes, blob, before).state == self.0@);
                    }
                    return Err(e);
                },
                Ok(None) => {
                    proof {
                        assert(spec_walk_step(WalkKind::Nodes, blob, before).state == self.0@);
                    }
                    return Ok(None);
                },
                Ok(Some(item)) => {
                    proof {
                        lemma_reaches_next(blob, WalkKind::Nodes, old(self).0@, before);
                        assert(spec_walk_step(WalkKind::Nodes, blob, before).state == self.0@);
                    }
                    match predicate(&item) {
                        Ok(true) => {
                            return Ok(Some(item));
                        },
                        Ok(false) => {},
                        Err(e) => {
                            return Err(e);
                        },
                    }
                },
            }
        }
    }
}

impl<'a, 'dt: 'a> DevTreePropIter<'a, 'dt> {
    /// Returns the first property from here on that `predicate` accepts, and leaves the walk
    /// behind it. An error of the walk or of `predicate` ends the search.
    pub fn find<F>(&mut self, predicate: F) -> (r: Result<Option<DevTreeProp<'a, 'dt>>, DevTreeError>)
        where F: Fn(&DevTreeProp<'a, 'dt>) -> Result<bool, DevTreeError>
        requires
            forall|item: DevTreeProp<'a, 'dt>| #[trigger] predicate.requires((&item,)),
        ensures
            final(self).0.blob() == old(self).0.blob(),
            match r {
                Ok(Some(item)) => predicate.ensures((&item,), Ok(true)) && item.blob() == old(
                    self,
                ).0.blob() && spec_walk_outcome(
                    old(self).0.blob(),
                    WalkKind::Props,
                    old(self).0@,
                    final(self).0@,
                    Ok(Some(ItemView::Prop(item@))),
                ),
                Ok(None) => spec_walk_outcome(
                    old(self).0.blob(),
                    WalkKind::Props,
                    old(self).0@,
                    final(self).0@,
                    Ok(None),
                ),
                Err(e) => spec_walk_outcome(
                    old(self).0.blob(),
                    WalkKind::Props,
                    old(self).0@,
                    final(self).0@,
                    Err(e),
                ) || (exists|item: DevTreeProp<'a, 'dt>| #[trigger]
                    predicate.ensures((&item,), Err(e)) && item.blob() == old(self).0.blob()
                        && spec_walk_outcome(
                        old(self).0.blob(),
                        WalkKind::Props,
                        old(self).0@,
                        final(self).0@,
                        Ok(Some(ItemView::Prop(item@))),
                    )),
            },
    {
        let ghost blob = self.0.blob();
        loop
            invariant
                self.0.blob() == blob,
                blob == old(self).0.blob(),
                spec_reaches(blob, WalkKind::Props, old(self).0@, self.0@),
                forall|item: DevTreeProp<'a, 'dt>| #[trigger] predicate.requires((&item,)),
            decreases blob.len() + 4 - self.0@.offset,
        {
            let ghost before = self.0@;
            proof {
                crate::base::sequence::lemma_next_prop_moves(blob, before);
            }
            match self.next() {
                Err(e) => {
                    proof {
                        assert(spec_walk_step(WalkKind::Props, blob, before).state == self.0@);
                    }
                    return Err(e);
                },
                Ok(None) => {
                    proof {
                        assert(spec_walk_step(WalkKind::Props, blob, before).state == self.0@);
                    }
                    return Ok(None);
                },
                Ok(Some(item)) => {
                    proof {
                        lemma_reaches_next(blob, WalkKind::Props, old(self).0@, before);
                        assert(spec_walk_step(WalkKind::Props, blob, before).state == self.0@);
                    }
                    match predicate(&item) {
                        Ok(true) => {
                            return Ok(Some(item));
                        },
                        Ok(false) => {},
                        Err(e) => {
                            return Err(e);
                        },
                    }
                },
            }
        }
    }
}

impl<'a, 'dt: 'a> DevTreeNodePropIter<'a, 'dt> {
    /// Returns the first property of the node from here on that `predicate` accepts, and leaves the walk
    /// behind it. An error of the walk or of `predicate` ends the search.
    pub fn find<F>(&mut self, predicate: F) -> (r: Result<Option<DevTreeProp<'a, 'dt>>, DevTreeError>)
        where F: Fn(&DevTreeProp<'a, 'dt>) -> Result<bool, DevTreeError>
        requires
            forall|item: DevTreeProp<'a, 'dt>| #[trigger] predicate.requires((&item,)),
        ensures
            final(self).0.blob() == old(self).0.blob(),
            match r {
                Ok(Some(item)) => predicate.ensures((&item,), Ok(true)) && item.blob() == old(
                    self,
                ).0.blob() && spec_walk_outcome(
                    old(self).0.blob(),
                    WalkKind::NodeProps,
                    old(self).0@,
                    final(self).0@,
                    Ok(Some(ItemView::Prop(item@))),
                ),
                Ok(None) => spec_walk_outcome(
                    old(self).0.blob(),
                    WalkKind::NodeProps,
                    old(self).0@,
                    final(self).0@,
                    Ok(None),
                ),
                Err(e) => spec_walk_outcome(
                    old(self).0.blob(),
                    WalkKind::NodeProps,
                    old(self).0@,
                    final(self).0@,
                    Err(e),
                ) || (exists|item: DevTreeProp<'a, 'dt>| #[trigger]
                    predicate.ensures((&item,), Err(e)) && item.blob() == old(self).0.blob()
                        && spec_walk_outcome(
                        old(self).0.blob(),
                        WalkKind::NodeProps,
                        old(self).0@,
                        final(self).0@,
                        Ok(Some(ItemView::Prop(item@))),
                    )),
            },
    {
        let ghost blob = self.0.blob();
        loop
            invariant
                self.0.blob() == blob,
                blob == old(self).0.blob(),
                spec_reaches(blob, WalkKind::NodeProps, old(self).0@, self.0@),
                forall|item: DevTreeProp<'a, 'dt>| #[trigger] predicate.requires((&item,)),
            decreases blob.len() + 4 - self.0@.offset,
        {
            let ghost before = self.0@;
            proof {
                lemma_next_item_moves(blob, before);
            }
            match self.next() {
                Err(e) => {
                    proof {
                        assert(spec_walk_step(WalkKind::NodeProps, blob, before).state == self.0@);
                    }
                    return Err(e);
                },
                Ok(None) => {
                    proof {
                        assert(spec_walk_step(WalkKind::NodeProps, blob, before).state == self.0@);
                    }
                    return Ok(None);
                },
                Ok(Some(item)) => {
                    proof {
                        lemma_reaches_next(blob, WalkKind::NodeProps, old(self).0@, before);
                        assert(spec_walk_step(WalkKind::NodeProps, blob, before).state == self.0@);
                    }
                    match predicate(&item) {
                        Ok(true) => {
                            return Ok(Some(item));
                        },
                        Ok(false) => {},
                        Err(e) => {
                            return Err(e);
                        },
                    }
                },
            }
        }
    }
}

} // verus!
