//! The index of a device tree, and the pass that builds it in a work buffer.
use crate::base::parse::{lemma_token_bounds, DevTreeParseIter, ParsedTok, Token};
use crate::base::item::DevTreeItem;
use crate::base::iters::{lemma_next_item, spec_next_item, DevTreeIter, ItemView, IterState};
use crate::base::tree::{same_bytes, spec_start_state, DevTree};
use crate::error::DevTreeError;
use crate::index::arena::{
    read_word, spec_word_count, spec_words, write_word, NULL_LINK, WORD_SIZE,
};
use crate::index::iters::{
    DevTreeIndexCompatibleNodeIter, DevTreeIndexIter, DevTreeIndexNodeIter, DevTreeIndexPropIter,
    IndexIterState,
};
use crate::index::node::DevTreeIndexNode;
use crate::index::linking::{
    lemma_link_done, lemma_link_first, lemma_link_root, lemma_link_start, lemma_link_step,
    lemma_push_prop, lemma_push_tree, spec_can_push, spec_linking, spec_linking_at,
    spec_open_end,
};
use crate::index::model::{
    spec_arena_holds, spec_build, spec_build_start, spec_build_token, spec_first_child,
    spec_front, spec_index_nodes, spec_link_word, spec_new_node, spec_next_link,
    spec_node_stored, spec_node_wf, spec_nodes_in_blob, spec_tree_wf, BuildState, NodeModel,
    PropModel, DTI_NODE_WORDS, DTI_PROP_WORDS,
};
use crate::priv_util::spec_be_u32;
use crate::spec::MAX_NODE_NAME_LEN;
use vstd::prelude::*;

verus! {

/// The state of the pass that builds an index.
pub struct DTIBuilder {
    /// The record of the node that is open, or `NULL_LINK`.
    cur_node: u64,
    /// The record of the node that was added last.
    prev_new_node: u64,
    /// The first word of the work buffer that no record uses yet.
    front_off: usize,
    // Devtree Props may only occur before child nodes.
    // We'll call this the "node_header".
    in_node_header: bool,
    state: Ghost<BuildState>,
}

impl DTIBuilder {
    /// The nodes read so far, the node that is open, and whether properties may follow.
    pub closed spec fn state(self) -> BuildState {
        self.state@
    }

    /// Tells whether `words` holds the records of the nodes read so far, and the builder
    /// stands where the last token left it, for a blob of `blob_len` bytes.
    pub closed spec fn inv(self, words: Seq<int>, blob_len: int) -> bool {
        let bs = self.state@;
        let ns = bs.nodes;
        &&& spec_tree_wf(ns)
        &&& spec_arena_holds(words, ns)
        &&& spec_nodes_in_blob(ns, blob_len)
        &&& self.front_off == spec_front(ns)
        &&& self.front_off <= words.len()
        &&& words.len() * 8 <= usize::MAX
        &&& self.in_node_header == bs.in_header
        &&& self.cur_node == spec_link_word(ns, bs.cur)
        &&& (bs.cur matches Some(c) ==> 0 <= c < ns.len() && spec_open_end(ns, c))
        &&& (ns.len() > 0 ==> self.prev_new_node == ns.last().slot)
        &&& (bs.in_header ==> ns.len() > 0 && bs.cur == Some(ns.len() - 1))
    }

    /// The builder before the first token.
    pub fn new(buf: &[u8], Ghost(blob_len): Ghost<int>) -> (b: Self)
        ensures
            b.state() == spec_build_start(),
            b.inv(spec_words(buf@), blob_len),
    {
        let len: usize = buf.len();
        DTIBuilder {
            cur_node: NULL_LINK,
            prev_new_node: NULL_LINK,
            front_off: 0,
            in_node_header: false,
            state: Ghost(spec_build_start()),
        }
    }

    /// Adds the record of a node whose name of `name_len` bytes lies at `name_start` in
    /// the blob, below the node that is open, and opens it.
    pub fn parsed_node(
        &mut self,
        buf: &mut [u8],
        name_start: usize,
        name_len: usize,
        Ghost(blob_len): Ghost<int>,
    ) -> (r: Result<(), DevTreeError>)
        requires
            old(self).inv(spec_words(old(buf)@), blob_len),
            name_start + name_len <= blob_len,
            name_len < MAX_NODE_NAME_LEN - 1,
        ensures
            final(buf)@.len() == old(buf)@.len(),
            match r {
                Ok(()) => spec_build_token(
                    old(self).state(),
                    Token::BeginNode { name_start: name_start as int, name_len: name_len as int },
                    spec_word_count(old(buf)@.len() as int),
                ) == Ok::<BuildState, DevTreeError>(final(self).state()) && final(self).inv(
                    spec_words(final(buf)@),
                    blob_len,
                ),
                Err(e) => spec_build_token(
                    old(self).state(),
                    Token::BeginNode { name_start: name_start as int, name_len: name_len as int },
                    spec_word_count(old(buf)@.len() as int),
                ) == Err::<BuildState, DevTreeError>(e),
            },
    {
        let cap: usize = buf.len() / 8;
        let ghost bs = self.state@;
        let ghost ns = bs.nodes;
        let ghost m = ns.len() as int;
        let ghost node = spec_new_node(bs, name_start as int, name_len as int);
        let ghost ns2 = ns.push(node);
        let ghost words0 = spec_words(buf@);
        if cap - self.front_off < DTI_NODE_WORDS {
            return Err(DevTreeError::NotEnoughMemory);
        }
        let new_slot: usize = self.front_off;
        let parent: u64 = self.cur_node;
        proof {
            assert(spec_can_push(ns, node, bs.cur));
            lemma_push_tree(ns, node, bs.cur);
        }
        // Write the data
        write_word(buf, new_slot, parent);
        // set by the next node we create
        write_word(buf, new_slot + 1, NULL_LINK);
        // set by the next node we create
        write_word(buf, new_slot + 2, NULL_LINK);
        write_word(buf, new_slot + 3, name_start as u64);
        write_word(buf, new_slot + 4, name_len as u64);
        write_word(buf, new_slot + 5, 0);
        proof {
            let words1 = spec_words(buf@);
            lemma_link_start(words0, words1, ns, node, bs.cur);
        }
        if parent != NULL_LINK {
            let ghost c = bs.cur.unwrap();
            let ghost words1 = spec_words(buf@);
            proof {
                assert(spec_linking_at(words1, ns, node, m - 1, false, c));
            }
            // If this new node is the first node that follows the current one, it is the
            // current's first child.
            if read_word(buf, parent as usize + 1) == NULL_LINK {
                write_word(buf, parent as usize + 1, new_slot as u64);
            }
            proof {
                lemma_link_first(words1, spec_words(buf@), ns, node, c);
            }
            // Every node whose subtree ends here is followed by the new node: the node
            // that was added last, and the nodes above it below the current one.
            let mut walk: u64 = self.prev_new_node;
            let ghost mut x: int = m - 1;
            while walk != parent
                invariant
                    buf@.len() == old(buf)@.len(),
                    spec_can_push(ns, node, Some(c)),
                    ns2 == ns.push(node),
                    m == ns.len(),
                    c <= x < m,
                    spec_open_end(ns, x),
                    walk == ns[x].slot,
                    parent == ns[c].slot,
                    new_slot == node.slot,
                    spec_linking(spec_words(buf@), ns, node, x, true),
                    spec_words(buf@).len() * 8 <= usize::MAX,
                decreases x,
            {
                proof {
                    lemma_push_tree(ns, node, Some(c));
                    if x != c {
                        crate::index::model::lemma_slots_ordered(ns, c, x);
                    }
                    assert(spec_linking_at(spec_words(buf@), ns, node, x, true, x));
                }
                let ghost before = spec_words(buf@);
                write_word(buf, walk as usize + 2, new_slot as u64);
                proof {
                    x = lemma_link_step(before, spec_words(buf@), ns, node, c, x);
                }
                walk = read_word(buf, walk as usize);
            }
            proof {
                lemma_push_tree(ns, node, Some(c));
                if x != c {
                    crate::index::model::lemma_slots_ordered(ns, c, x);
                }
                lemma_link_done(spec_words(buf@), ns, node, c);
            }
        } else {
            proof {
                lemma_link_root(spec_words(buf@), ns, node);
            }
        }
        proof {
            assert(ns2[m] == node);
            assert forall|i: int| 0 <= i < ns2.len() implies {
                &&& 0 <= (#[trigger] ns2[i]).name_start
                &&& 0 <= ns2[i].name_len < MAX_NODE_NAME_LEN - 1
                &&& ns2[i].name_start + ns2[i].name_len <= blob_len
                &&& forall|q: int|
                    0 <= q < ns2[i].props.len() ==> {
                        &&& 0 <= (#[trigger] ns2[i].props[q]).value_start
                        &&& 0 <= ns2[i].props[q].value_len
                        &&& ns2[i].props[q].value_start + ns2[i].props[q].value_len <= blob_len
                        &&& 0 <= ns2[i].props[q].name_offset <= blob_len
                    }
            } by {
                if i < m {
                    assert(ns2[i] == ns[i]);
                }
            }
        }
        // Save the new node ptr.
        self.cur_node = new_slot as u64;
        self.prev_new_node = new_slot as u64;
        self.front_off = new_slot + DTI_NODE_WORDS;
        self.in_node_header = true;
        self.state = Ghost(BuildState { nodes: ns2, cur: Some(m), in_header: true });
        Ok(())
    }

    /// Adds the record of a property to the node that is open. The property's value of
    /// `value_len` bytes lies at `value_start` in the blob, its name at `name_offset` in the
    /// strings block.
    pub fn parsed_prop(
        &mut self,
        buf: &mut [u8],
        value_start: usize,
        value_len: usize,
        name_offset: usize,
        Ghost(blob_len): Ghost<int>,
    ) -> (r: Result<(), DevTreeError>)
        requires
            old(self).inv(spec_words(old(buf)@), blob_len),
            value_start + value_len <= blob_len,
            name_offset <= blob_len,
        ensures
            final(buf)@.len() == old(buf)@.len(),
            match r {
                Ok(()) => spec_build_token(
                    old(self).state(),
                    Token::Prop {
                        value_start: value_start as int,
                        value_len: value_len as int,
                        name_offset: name_offset as int,
                    },
                    spec_word_count(old(buf)@.len() as int),
                ) == Ok::<BuildState, DevTreeError>(final(self).state()) && final(self).inv(
                    spec_words(final(buf)@),
                    blob_len,
                ),
                Err(e) => spec_build_token(
                    old(self).state(),
                    Token::Prop {
                        value_start: value_start as int,
                        value_len: value_len as int,
                        name_offset: name_offset as int,
                    },
                    spec_word_count(old(buf)@.len() as int),
                ) == Err::<BuildState, DevTreeError>(e),
            },
    {
        if !self.in_node_header {
            return Err(DevTreeError::ParseError);
        }
        let cap: usize = buf.len() / 8;
        let ghost bs = self.state@;
        let ghost ns = bs.nodes;
        let ghost m = ns.len() as int;
        let ghost prop = PropModel {
            value_start: value_start as int,
            value_len: value_len as int,
            name_offset: name_offset as int,
        };
        let ghost last = ns.last();
        let ghost grown = NodeModel { props: last.props.push(prop), ..last };
        let ghost ns2 = ns.update(m - 1, grown);
        let ghost words0 = spec_words(buf@);
        if cap - self.front_off < DTI_PROP_WORDS {
            return Err(DevTreeError::NotEnoughMemory);
        }
        let new_slot: usize = self.front_off;
        let node: usize = self.cur_node as usize;
        proof {
            assert(spec_node_stored(
                words0,
                ns,
                m - 1,
                spec_first_child(ns, m - 1),
                spec_next_link(ns, m - 1),
            ));
            assert(spec_node_wf(ns, m - 1));
        }
        let num_props: u64 = read_word(buf, node + 5);
        write_word(buf, new_slot, value_start as u64);
        write_word(buf, new_slot + 1, value_len as u64);
        write_word(buf, new_slot + 2, name_offset as u64);
        write_word(buf, node + 5, num_props + 1);
        proof {
            lemma_push_prop(words0, spec_words(buf@), ns, prop);
            assert forall|i: int| 0 <= i < ns2.len() implies {
                &&& 0 <= (#[trigger] ns2[i]).name_start
                &&& 0 <= ns2[i].name_len < MAX_NODE_NAME_LEN - 1
                &&& ns2[i].name_start + ns2[i].name_len <= blob_len
                &&& forall|q: int|
                    0 <= q < ns2[i].props.len() ==> {
                        &&& 0 <= (#[trigger] ns2[i].props[q]).value_start
                        &&& 0 <= ns2[i].props[q].value_len
                        &&& ns2[i].props[q].value_start + ns2[i].props[q].value_len <= blob_len
                        &&& 0 <= ns2[i].props[q].name_offset <= blob_len
                    }
            } by {
                assert(0 <= ns[i].name_start);
                if i == m - 1 {
                    assert forall|q: int| 0 <= q < ns2[i].props.len() implies {
                        &&& 0 <= (#[trigger] ns2[i].props[q]).value_start
                        &&& 0 <= ns2[i].props[q].value_len
                        &&& ns2[i].props[q].value_start + ns2[i].props[q].value_len <= blob_len
                        &&& 0 <= ns2[i].props[q].name_offset <= blob_len
                    } by {
                        if q < last.props.len() {
                            assert(grown.props[q] == last.props[q]);
                            assert(0 <= ns[i].props[q].value_start);
                        }
                    }
                }
            }
            match bs.cur {
                Some(c) => {
                    assert forall|k: int| c < k < ns2.len() implies (#[trigger] ns2[k]).depth
                        > ns2[c].depth by {
                        assert(ns[k].depth > ns[c].depth);
                    }
                },
                None => {},
            }
        }
        self.front_off = new_slot + DTI_PROP_WORDS;
        self.state = Ghost(BuildState { nodes: ns2, cur: bs.cur, in_header: true });
        Ok(())
    }

    /// Closes the node that is open, and opens its parent again.
    pub fn parsed_end_node(&mut self, buf: &[u8], Ghost(blob_len): Ghost<int>) -> (r: Result<
        (),
        DevTreeError,
    >)
        requires
            old(self).inv(spec_words(buf@), blob_len),
        ensures
            match r {
                Ok(()) => spec_build_token(
                    old(self).state(),
                    Token::EndNode,
                    spec_word_count(buf@.len() as int),
                ) == Ok::<BuildState, DevTreeError>(final(self).state()) && final(self).inv(
                    spec_words(buf@),
                    blob_len,
                ),
                Err(e) => spec_build_token(
                    old(self).state(),
                    Token::EndNode,
                    spec_word_count(buf@.len() as int),
                ) == Err::<BuildState, DevTreeError>(e),
            },
    {
        let len: usize = buf.len();
        let ghost bs = self.state@;
        let ghost ns = bs.nodes;
        // There were more EndNode tokens than BeginNode ones.
        if self.cur_node == NULL_LINK {
            proof {
                if bs.cur is Some {
                    assert(spec_node_stored(
                        spec_words(buf@),
                        ns,
                        bs.cur.unwrap(),
                        spec_first_child(ns, bs.cur.unwrap()),
                        spec_next_link(ns, bs.cur.unwrap()),
                    ));
                }
            }
            return Err(DevTreeError::ParseError);
        }
        let ghost c = bs.cur.unwrap();
        proof {
            assert(spec_node_stored(
                spec_words(buf@),
                ns,
                c,
                spec_first_child(ns, c),
                spec_next_link(ns, c),
            ));
            assert(spec_node_wf(ns, c));
            match ns[c].parent {
                Some(j) => {
                    assert forall|k: int| j < k < ns.len() implies ns[k].depth > ns[j].depth by {
                        if k > c {
                            assert(ns[k].depth > ns[c].depth);
                        }
                    }
                },
                None => {},
            }
        }
        // Change the current node back to the parent.
        self.cur_node = read_word(buf, self.cur_node as usize);
        // We are no longer in a node header.
        // We are either going to see a new node next or parse another end_node.
        self.in_node_header = false;
        self.state = Ghost(BuildState { nodes: ns, cur: ns[c].parent, in_header: false });
        Ok(())
    }

    /// What the builder has when it stands behind the last token: the records of a tree.
    pub proof fn lemma_inv(self, words: Seq<int>, blob_len: int)
        requires
            self.inv(words, blob_len),
        ensures
            spec_tree_wf(self.state().nodes),
            spec_arena_holds(words, self.state().nodes),
            spec_nodes_in_blob(self.state().nodes, blob_len),
            words.len() * 8 <= usize::MAX,
    {
    }
}

/// Tells whether `arena` holds the index of the tree in `blob`.
pub open spec fn spec_index_wf(blob: Seq<u8>, arena: Seq<u8>) -> bool {
    &&& spec_index_nodes(blob, spec_word_count(arena.len() as int)) matches Ok(ns) && ns.len() > 0
        && spec_tree_wf(ns) && spec_arena_holds(spec_words(arena), ns) && spec_nodes_in_blob(
        ns,
        blob.len() as int,
    )
    &&& spec_words(arena).len() * 8 <= usize::MAX
}

/// The numbers of nodes and of properties that the in-order parser hands out from the
/// state `st` on, or the error that it runs into.
pub open spec fn spec_count_items(buf: Seq<u8>, st: IterState) -> Result<(int, int), DevTreeError>
    decreases buf.len() + 4 - st.offset,
{
    let step = spec_next_item(buf, st);
    match step.result {
        Err(e) => Err(e),
        Ok(None) => Ok((0, 0)),
        Ok(Some((item, _))) => if st.offset < step.state.offset <= buf.len() + 4 {
            match spec_count_items(buf, step.state) {
                Err(e) => Err(e),
                Ok((nodes, props)) => match item {
                    ItemView::Node(_) => Ok((nodes + 1, props)),
                    ItemView::Prop(_) => Ok((nodes, props + 1)),
                },
            }
        } else {
            Ok((0, 0))
        },
    }
}

/// The number of bytes that the records of `nodes` nodes and `props` properties take.
pub open spec fn spec_records_size(nodes: int, props: int) -> int {
    WORD_SIZE * (DTI_NODE_WORDS * nodes + DTI_PROP_WORDS * props)
}

/// The size and the alignment of a work buffer.
#[derive(Clone, Copy, Debug, PartialEq, Eq)]
pub struct IndexLayout {
    size: usize,
    align: usize,
}

impl IndexLayout {
    pub closed spec fn spec_size(&self) -> usize {
        self.size
    }

    pub closed spec fn spec_align(&self) -> usize {
        self.align
    }

    /// The number of bytes that the records of the index take.
    #[verifier::when_used_as_spec(spec_size)]
    pub fn size(&self) -> (r: usize)
        ensures
            r == self.spec_size(),
    {
        self.size
    }

    /// The alignment of a record. A work buffer of `size() + align()` bytes holds the index
    /// wherever it starts.
    #[verifier::when_used_as_spec(spec_align)]
    pub fn align(&self) -> (r: usize)
        ensures
            r == self.spec_align(),
    {
        self.align
    }
}

/// An index of a device tree: the records of its nodes and properties in a work buffer,
/// linked as the tree is.
#[derive(Debug)]
pub struct DevTreeIndex<'i, 'dt: 'i> {
    fdt: DevTree<'dt>,
    arena: &'i [u8],
}

impl<'i, 'dt: 'i> DevTreeIndex<'i, 'dt> {
    /// The bytes of the blob that is indexed.
    pub closed spec fn blob(&self) -> Seq<u8> {
        self.fdt@
    }

    /// The bytes of the work buffer.
    pub closed spec fn arena(&self) -> Seq<u8> {
        self.arena@
    }

    /// The nodes of the tree, in the order of the blob.
    pub open spec fn view(&self) -> Seq<NodeModel> {
        spec_index_nodes(self.blob(), spec_word_count(self.arena().len() as int))->Ok_0
    }

    /// The work buffer holds the records of the tree in the blob.
    #[verifier::type_invariant]
    pub open spec fn wf(&self) -> bool {
        spec_index_wf(self.blob(), self.arena())
    }

    /// Returns the size of the work buffer that the index of `fdt` needs.
    pub fn get_layout(fdt: &'i DevTree<'dt>) -> (r: Result<IndexLayout, DevTreeError>)
        ensures
            match spec_count_items(fdt@, spec_start_state(fdt@)) {
                Err(e) => r == Err::<IndexLayout, DevTreeError>(e),
                Ok((nodes, props)) => if spec_records_size(nodes, props) <= usize::MAX {
                    r matches Ok(layout) && layout.size() == spec_records_size(nodes, props)
                        && layout.align() == WORD_SIZE
                } else {
                    r == Err::<IndexLayout, DevTreeError>(DevTreeError::NotEnoughMemory)
                },
            },
    {
        let ghost blob = fdt@;
        let ghost start = spec_start_state(blob);
        let mut nodes: usize = 0;
        let mut props: usize = 0;
        let mut iter = DevTreeIter::new(fdt);
        let blob_len: usize = fdt.buf().len();
        loop
            invariant
                iter.blob() == blob,
                blob == fdt@,
                blob_len == blob.len(),
                nodes + props > 0 ==> iter@.offset <= blob_len + 3,
                start == spec_start_state(blob),
                4 * (nodes + props) <= iter@.offset,
                spec_count_items(blob, start) == (match spec_count_items(blob, iter@) {
                    Err(e) => Err::<(int, int), DevTreeError>(e),
                    Ok((n, p)) => Ok((n + nodes, p + props)),
                }),
            decreases blob.len() + 4 - iter@.offset,
        {
            proof {
                use_type_invariant(&iter);
                lemma_next_item(blob, iter@);
            }
            match iter.next_item() {
                Err(e) => {
                    return Err(e);
                },
                Ok(None) => {
                    // Size is the number of bytes of the records; all records are made of
                    // whole words.
                    let size: u128 = 8 * (6 * (nodes as u128) + 3 * (props as u128));
                    if size > usize::MAX as u128 {
                        return Err(DevTreeError::NotEnoughMemory);
                    }
                    return Ok(IndexLayout { size: size as usize, align: WORD_SIZE });
                },
                Ok(Some(DevTreeItem::Node(_))) => {
                    nodes += 1;
                },
                Ok(Some(DevTreeItem::Prop(_))) => {
                    props += 1;
                },
            }
        }
    }

    /// Starts the build pass: reads the tokens of `iter` up to the first that opens a node,
    /// and adds the record of that node, the root. Anything but empty tokens before it is
    /// a `ParseError`, and so is a block without a node.
    fn init_builder(buf: &mut [u8], iter: &mut DevTreeParseIter<'_, 'dt>) -> (r: Result<
        DTIBuilder,
        DevTreeError,
    >)
        requires
            old(iter).offset == spec_be_u32(old(iter).fdt@, 8),
        ensures
            final(buf)@.len() == old(buf)@.len(),
            final(iter).fdt == old(iter).fdt,
            match r {
                Ok(builder) => builder.inv(
                    spec_words(final(buf)@),
                    old(iter).fdt@.len() as int,
                ) && builder.state().nodes.len() == 1 && spec_build(
                    old(iter).fdt@,
                    final(iter).offset as int,
                    builder.state(),
                    spec_word_count(old(buf)@.len() as int),
                ) == spec_index_nodes(old(iter).fdt@, spec_word_count(old(buf)@.len() as int)),
                Err(e) => spec_index_nodes(old(iter).fdt@, spec_word_count(old(buf)@.len() as int))
                    == Err::<Seq<NodeModel>, DevTreeError>(e),
            },
    {
        let ghost blob = iter.fdt@;
        let ghost cap = spec_word_count(buf@.len() as int);
        let blob_len: usize = iter.fdt.buf().len();
        let mut builder = DTIBuilder::new(buf, Ghost(blob_len as int));
        loop
            invariant
                iter.fdt == old(iter).fdt,
                blob == old(iter).fdt@,
                blob_len == blob.len(),
                buf@.len() == old(buf)@.len(),
                cap == spec_word_count(old(buf)@.len() as int),
                builder.inv(spec_words(buf@), blob_len as int),
                builder.state() == spec_build_start(),
                spec_build(blob, iter.offset as int, spec_build_start(), cap) == spec_index_nodes(
                    blob,
                    cap,
                ),
            decreases blob.len() + 4 - iter.offset,
        {
            let tok_off: usize = iter.offset;
            proof {
                lemma_token_bounds(blob, tok_off as int);
            }
            match iter.next() {
                Err(e) => {
                    return Err(e);
                },
                Ok(Some(ParsedTok::BeginNode(node))) => {
                    match builder.parsed_node(
                        buf,
                        tok_off + 4,
                        node.name.len(),
                        Ghost(blob_len as int),
                    ) {
                        Err(e) => {
                            return Err(e);
                        },
                        Ok(()) => {
                            return Ok(builder);
                        },
                    }
                },
                Ok(Some(ParsedTok::Nop)) => {},
                _ => {
                    return Err(DevTreeError::ParseError);
                },
            }
        }
    }

    /// Builds the index of `fdt` in `buf`.
    pub fn new(fdt: DevTree<'dt>, buf: &'i mut [u8]) -> (r: Result<Self, DevTreeError>)
        ensures
            match r {
                Ok(index) => spec_index_nodes(fdt@, spec_word_count(old(buf)@.len() as int))
                    == Ok::<Seq<NodeModel>, DevTreeError>(index@) && index.blob() == fdt@
                    && index.arena().len() == old(buf)@.len() && index.wf(),
                Err(e) => spec_index_nodes(fdt@, spec_word_count(old(buf)@.len() as int)) == Err::<
                    Seq<NodeModel>,
                    DevTreeError,
                >(e),
            },
    {
        let blob: &'dt [u8] = fdt.buf();
        let blob_len: usize = blob.len();
        let ghost cap = spec_word_count(buf@.len() as int);
        let mut iter = DevTreeParseIter::new(&fdt);

        // The builder should have setup a root node or returned an Err.
        let mut builder = match Self::init_builder(buf, &mut iter) {
            Ok(builder) => builder,
            Err(e) => {
                return Err(e);
            },
        };

        // The buffer is filled from the front: the record of each node as its token is
        // read, and the records of its properties behind it.
        loop
            invariant
                blob@ == fdt@,
                iter.fdt@ == fdt@,
                blob_len == blob@.len(),
                buf@.len() == old(buf)@.len(),
                cap == spec_word_count(old(buf)@.len() as int),
                builder.inv(spec_words(buf@), blob_len as int),
                builder.state().nodes.len() > 0,
                spec_build(fdt@, iter.offset as int, builder.state(), cap) == spec_index_nodes(
                    fdt@,
                    cap,
                ),
            decreases fdt@.len() + 4 - iter.offset,
        {
            let tok_off: usize = iter.offset;
            proof {
                lemma_token_bounds(fdt@, tok_off as int);
            }
            match iter.next() {
                Err(e) => {
                    return Err(e);
                },
                Ok(None) => {
                    proof {
                        builder.lemma_inv(spec_words(buf@), blob_len as int);
                    }
                    let arena: &'i [u8] = buf;
                    return Ok(Self { fdt, arena });
                },
                Ok(Some(ParsedTok::BeginNode(node))) => {
                    match builder.parsed_node(
                        buf,
                        tok_off + 4,
                        node.name.len(),
                        Ghost(blob_len as int),
                    ) {
                        Err(e) => {
                            return Err(e);
                        },
                        Ok(()) => {},
                    }
                },
                Ok(Some(ParsedTok::Prop(prop))) => {
                    match builder.parsed_prop(
                        buf,
                        tok_off + 12,
                        prop.prop_buf.len(),
                        prop.name_offset,
                        Ghost(blob_len as int),
                    ) {
                        Err(e) => {
                            return Err(e);
                        },
                        Ok(()) => {},
                    }
                },
                Ok(Some(ParsedTok::EndNode)) => {
                    match builder.parsed_end_node(buf, Ghost(blob_len as int)) {
                        Err(e) => {
                            return Err(e);
                        },
                        Ok(()) => {},
                    }
                },
                Ok(Some(ParsedTok::Nop)) => {},
            }
        }
    }

    /// Returns the root of the tree.
    pub fn root(&self) -> (r: DevTreeIndexNode<'_, 'i, 'dt>)
        ensures
            r@ == 0,
            r.spec_index() == self,
    {
        proof {
            use_type_invariant(self);
            assert(spec_node_wf(self@, 0));
        }
        DevTreeIndexNode::new(self, 0, Ghost(0))
    }

    pub fn fdt(&self) -> (r: &DevTree<'dt>)
        ensures
            r@ == self.blob(),
    {
        &self.fdt
    }

    /// Returns an iterator over the nodes of the tree, in the order of the blob.
    #[must_use]
    pub fn nodes(&self) -> (r: DevTreeIndexNodeIter<'_, 'i, 'dt>)
        ensures
            r.0@ == (IndexIterState { node: Some(0), prop_idx: 0, initial_node_returned: false }),
            r.0.spec_index() == self,
    {
        DevTreeIndexNodeIter(self.items())
    }

    /// Returns an iterator over the properties of the tree, in the order of the blob.
    #[must_use]
    pub fn props(&self) -> (r: DevTreeIndexPropIter<'_, 'i, 'dt>)
        ensures
            r.0@ == (IndexIterState { node: Some(0), prop_idx: 0, initial_node_returned: false }),
            r.0.spec_index() == self,
    {
        DevTreeIndexPropIter(self.items())
    }

    /// Returns an iterator over the nodes and properties of the tree, in the order of the
    /// blob.
    #[must_use]
    pub fn items(&self) -> (r: DevTreeIndexIter<'_, 'i, 'dt>)
        ensures
            r@ == (IndexIterState { node: Some(0), prop_idx: 0, initial_node_returned: false }),
            r.spec_index() == self,
    {
        DevTreeIndexIter::new(self)
    }

    /// Returns an iterator over the nodes that hold `string` in their property "compatible".
    pub fn compatible_nodes<'a, 's>(&'a self, string: &'s str) -> (r: DevTreeIndexCompatibleNodeIter<
        's,
        'a,
        'i,
        'dt,
    >)
        ensures
            r.iter@ == (IndexIterState {
                node: Some(0),
                prop_idx: 0,
                initial_node_returned: false,
            }),
            r.iter.spec_index() == self,
            r.string == string,
    {
        DevTreeIndexCompatibleNodeIter { iter: self.items(), string }
    }

    #[must_use]
    pub fn buf(&self) -> (r: &'dt [u8])
        ensures
            r@ == self.blob(),
    {
        self.fdt.buf()
    }

    /// Reads the word number `i` of the work buffer.
    pub(crate) fn word(&self, i: usize) -> (w: u64)
        requires
            i < spec_words(self.arena()).len(),
        ensures
            w == spec_words(self.arena())[i as int],
    {
        read_word(self.arena, i)
    }

    /// Tells whether two indexes hold the same records of blobs that hold the same bytes.
    pub fn same_as(&self, other: &Self) -> (r: bool)
        ensures
            r == (self.blob() == other.blob() && self.arena() == other.arena()),
    {
        same_bytes(self.fdt.buf(), other.fdt.buf()) && same_bytes(self.arena, other.arena)
    }
}

/// Two indexes of the same blob hold the same tree, whatever work buffers they were built
/// in: every walk over the one hands out what the same walk over the other hands out.
pub proof fn lemma_same_blob_same_tree(a: &DevTreeIndex, b: &DevTreeIndex)
    requires
        a.wf(),
        b.wf(),
        a.blob() == b.blob(),
    ensures
        a@ == b@,
{
    crate::index::model::lemma_build_any_buffer(
        a.blob(),
        spec_be_u32(a.blob(), 8),
        spec_build_start(),
        spec_word_count(a.arena().len() as int),
        spec_word_count(b.arena().len() as int),
    );
}

} // verus!
