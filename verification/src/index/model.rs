//! The tree that an index holds, as a row of nodes in the order of the blob.
//!
//! The row is a function of the blob alone: `spec_build` reads it off the tokens of the
//! structure block. The links between the records of an index are functions of the row.
use crate::base::parse::{spec_next_token, Token};
use crate::error::DevTreeError;
use crate::index::arena::NULL_LINK;
use crate::priv_util::spec_be_u32;
use crate::spec::MAX_NODE_NAME_LEN;
use vstd::prelude::*;

verus! {

/// The number of words of a node's record: the links to its parent, to its first child
/// and to what follows it, the place and the length of its name, and the number of its
/// properties.
pub const DTI_NODE_WORDS: usize = 6;

/// The number of words of a property's record: the place and the length of its value, and
/// the offset of its name.
pub const DTI_PROP_WORDS: usize = 3;

/// A property of a node: where its value lies in the blob, and the offset of its name in
/// the strings block.
pub struct PropModel {
    pub value_start: int,
    pub value_len: int,
    pub name_offset: int,
}

/// A node of the tree.
pub struct NodeModel {
    /// The word of the work buffer that the node's record starts at.
    pub slot: int,
    /// The number, in the order of the blob, of the node's parent.
    pub parent: Option<int>,
    /// The number of nodes above the node.
    pub depth: int,
    pub name_start: int,
    pub name_len: int,
    pub props: Seq<PropModel>,
}

impl NodeModel {
    /// The first word behind the node's record and the records of its properties.
    pub open spec fn end(self) -> int {
        self.slot + DTI_NODE_WORDS + DTI_PROP_WORDS * self.props.len()
    }
}

/// The state of the build pass: the nodes read so far, the node that is open, and whether
/// properties may still follow it.
pub struct BuildState {
    pub nodes: Seq<NodeModel>,
    pub cur: Option<int>,
    pub in_header: bool,
}

/// The first word of the work buffer that no record uses yet.
pub open spec fn spec_front(nodes: Seq<NodeModel>) -> int {
    if nodes.len() == 0 {
        0
    } else {
        nodes.last().end()
    }
}

/// The state before the first token.
pub open spec fn spec_build_start() -> BuildState {
    BuildState { nodes: Seq::empty(), cur: None, in_header: false }
}

/// The node that a token which opens a node adds to the state `bs`.
pub open spec fn spec_new_node(bs: BuildState, name_start: int, name_len: int) -> NodeModel {
    NodeModel {
        slot: spec_front(bs.nodes),
        parent: bs.cur,
        depth: match bs.cur {
            Some(c) => bs.nodes[c].depth + 1,
            None => 0,
        },
        name_start,
        name_len,
        props: Seq::empty(),
    }
}

/// The step of the build pass for one token, with a work buffer of `cap` words.
///
/// A token that opens a node adds a node below the open node and opens it. A property is
/// added to the open node, as long as nothing but properties has followed the token that
/// opened it: elsewhere it is a `ParseError`. A token that closes a node needs an open
/// node, and opens its parent again. A record that does not fit into the work buffer is
/// `NotEnoughMemory`.
pub open spec fn spec_build_token(bs: BuildState, tok: Token, cap: int) -> Result<
    BuildState,
    DevTreeError,
> {
    match tok {
        Token::BeginNode { name_start, name_len } => {
            if spec_front(bs.nodes) + DTI_NODE_WORDS > cap {
                Err(DevTreeError::NotEnoughMemory)
            } else {
                Ok(
                    BuildState {
                        nodes: bs.nodes.push(spec_new_node(bs, name_start, name_len)),
                        cur: Some(bs.nodes.len() as int),
                        in_header: true,
                    },
                )
            }
        },
        Token::Prop { value_start, value_len, name_offset } => {
            if !bs.in_header || bs.nodes.len() == 0 {
                Err(DevTreeError::ParseError)
            } else if spec_front(bs.nodes) + DTI_PROP_WORDS > cap {
                Err(DevTreeError::NotEnoughMemory)
            } else {
                let last = bs.nodes.last();
                Ok(
                    BuildState {
                        nodes: bs.nodes.update(
                            bs.nodes.len() - 1,
                            NodeModel {
                                props: last.props.push(
                                    PropModel { value_start, value_len, name_offset },
                                ),
                                ..last
                            },
                        ),
                        cur: bs.cur,
                        in_header: true,
                    },
                )
            }
        },
        Token::EndNode => match bs.cur {
            None => Err(DevTreeError::ParseError),
            Some(c) => Ok(
                BuildState { nodes: bs.nodes, cur: bs.nodes[c].parent, in_header: false },
            ),
        },
        Token::Nop => Ok(bs),
    }
}

/// The build pass over the tokens of `buf` from `off` on, from the state `bs`, with a work
/// buffer of `cap` words: the nodes of the tree, or the first error on the way. A block
/// without a node is a `ParseError`.
pub open spec fn spec_build(buf: Seq<u8>, off: int, bs: BuildState, cap: int) -> Result<
    Seq<NodeModel>,
    DevTreeError,
>
    decreases buf.len() + 4 - off,
{
    let step = spec_next_token(buf, off);
    match step.result {
        Err(e) => Err(e),
        Ok(None) => if bs.nodes.len() == 0 {
            Err(DevTreeError::ParseError)
        } else {
            Ok(bs.nodes)
        },
        Ok(Some(tok)) => match spec_build_token(bs, tok, cap) {
            Err(e) => Err(e),
            Ok(next) => if off < step.next_off <= buf.len() + 4 {
                spec_build(buf, step.next_off, next, cap)
            } else {
                Err(DevTreeError::ParseError)
            },
        },
    }
}

/// The nodes of the tree in `blob`, as an index with a work buffer of `cap` words holds
/// them.
pub open spec fn spec_index_nodes(blob: Seq<u8>, cap: int) -> Result<Seq<NodeModel>, DevTreeError> {
    spec_build(blob, spec_be_u32(blob, 8), spec_build_start(), cap)
}

/// Tells whether the node number `i` of `ns` lies where a tree has it: below the nearest
/// node before it that is one level higher, and behind the record of the node before it.
pub open spec fn spec_node_wf(ns: Seq<NodeModel>, i: int) -> bool {
    &&& ns[i].depth >= 0
    &&& match ns[i].parent {
        None => ns[i].depth == 0,
        Some(j) => 0 <= j < i && ns[i].depth == ns[j].depth + 1 && forall|k: int|
            j < k < i ==> ns[k].depth > ns[j].depth,
    }
    &&& if i == 0 {
        ns[i].slot == 0
    } else {
        ns[i].slot == ns[i - 1].end()
    }
}

/// Tells whether `ns` is the row of the nodes of a tree.
pub open spec fn spec_tree_wf(ns: Seq<NodeModel>) -> bool {
    forall|i: int| 0 <= i < ns.len() ==> #[trigger] spec_node_wf(ns, i)
}

/// Tells whether the names and values of `ns` lie within a blob of `len` bytes.
pub open spec fn spec_nodes_in_blob(ns: Seq<NodeModel>, len: int) -> bool {
    forall|i: int|
        0 <= i < ns.len() ==> {
            &&& 0 <= (#[trigger] ns[i]).name_start
            &&& 0 <= ns[i].name_len < MAX_NODE_NAME_LEN - 1
            &&& ns[i].name_start + ns[i].name_len <= len
            &&& forall|q: int|
                0 <= q < ns[i].props.len() ==> {
                    &&& 0 <= (#[trigger] ns[i].props[q]).value_start
                    &&& 0 <= ns[i].props[q].value_len
                    &&& ns[i].props[q].value_start + ns[i].props[q].value_len <= len
                    &&& 0 <= ns[i].props[q].name_offset <= len
                }
        }
}

/// The number of the first node behind the node number `i` that is no deeper than it, as
/// found from the node number `k` on; the length of `ns` where there is none. It is the
/// node that follows the subtree of the node number `i`.
pub open spec fn spec_subtree_end(ns: Seq<NodeModel>, i: int, k: int) -> int
    decreases ns.len() - k,
{
    if k >= ns.len() {
        ns.len() as int
    } else if ns[k].depth <= ns[i].depth {
        k
    } else {
        spec_subtree_end(ns, i, k + 1)
    }
}

/// The node that the record of the node number `i` links to as what follows it: the node
/// behind its subtree, its next sibling or the next sibling of a node above it. A node
/// without a parent is linked to by none.
pub open spec fn spec_next_link(ns: Seq<NodeModel>, i: int) -> Option<int> {
    let e = spec_subtree_end(ns, i, i + 1);
    if e < ns.len() && ns[e].parent is Some {
        Some(e)
    } else {
        None
    }
}

/// The first child of the node number `i`: the node behind it, where that is a child of
/// it.
pub open spec fn spec_first_child(ns: Seq<NodeModel>, i: int) -> Option<int> {
    if i + 1 < ns.len() && ns[i + 1].parent == Some(i) {
        Some(i + 1)
    } else {
        None
    }
}

/// The node that follows the node number `i` in the order of the blob, as the links give
/// it: its first child, or else what follows it.
pub open spec fn spec_next_dfs(ns: Seq<NodeModel>, i: int) -> Option<int> {
    match spec_first_child(ns, i) {
        Some(c) => Some(c),
        None => spec_next_link(ns, i),
    }
}

/// The next sibling of the node number `i`: what follows it, where that has the same
/// parent.
pub open spec fn spec_next_sibling(ns: Seq<NodeModel>, i: int) -> Option<int> {
    match spec_next_link(ns, i) {
        Some(e) => if ns[e].parent == ns[i].parent {
            Some(e)
        } else {
            None
        },
        None => None,
    }
}

/// The word that stands for a link to the node `link`.
pub open spec fn spec_link_word(ns: Seq<NodeModel>, link: Option<int>) -> int {
    match link {
        Some(i) => ns[i].slot,
        None => NULL_LINK as int,
    }
}

/// Tells whether `words` holds the record of `node`, with the records of its properties
/// behind it, and with `parent`, `first` and `next` as the words of its three links.
pub open spec fn spec_record_stored(
    words: Seq<int>,
    node: NodeModel,
    parent: int,
    first: int,
    next: int,
) -> bool {
    let s = node.slot;
    &&& 0 <= s
    &&& node.end() <= words.len()
    &&& words[s] == parent
    &&& words[s + 1] == first
    &&& words[s + 2] == next
    &&& words[s + 3] == node.name_start
    &&& words[s + 4] == node.name_len
    &&& words[s + 5] == node.props.len()
    &&& forall|q: int|
        0 <= q < node.props.len() ==> {
            &&& #[trigger] words[s + 6 + 3 * q] == node.props[q].value_start
            &&& words[s + 6 + 3 * q + 1] == node.props[q].value_len
            &&& words[s + 6 + 3 * q + 2] == node.props[q].name_offset
        }
}

/// Tells whether `words` holds the record of the node number `i` of `ns`. `first` is the
/// node that the record links to as the node's first child, `next` the one it links to as
/// what follows the node.
pub open spec fn spec_node_stored(
    words: Seq<int>,
    ns: Seq<NodeModel>,
    i: int,
    first: Option<int>,
    next: Option<int>,
) -> bool {
    spec_record_stored(
        words,
        ns[i],
        spec_link_word(ns, ns[i].parent),
        spec_link_word(ns, first),
        spec_link_word(ns, next),
    )
}

/// Tells whether `words` holds the records of the nodes of `ns`.
pub open spec fn spec_arena_holds(words: Seq<int>, ns: Seq<NodeModel>) -> bool {
    forall|i: int|
        0 <= i < ns.len() ==> #[trigger] spec_node_stored(
            words,
            ns,
            i,
            spec_first_child(ns, i),
            spec_next_link(ns, i),
        )
}

/// The records of a tree lie one behind the other.
pub proof fn lemma_slots_ordered(ns: Seq<NodeModel>, i: int, j: int)
    requires
        spec_tree_wf(ns),
        0 <= i < j < ns.len(),
    ensures
        0 <= ns[i].slot,
        ns[i].end() <= ns[j].slot,
    decreases j,
{
    assert(spec_node_wf(ns, j));
    assert(spec_node_wf(ns, i));
    if i > 0 {
        lemma_slots_ordered(ns, 0, i);
    }
    if i < j - 1 {
        lemma_slots_ordered(ns, i, j - 1);
    }
}

/// What `spec_subtree_end` finds: the nodes before it are deeper than the node number
/// `i`, and the node it finds is not.
pub proof fn lemma_subtree_end(ns: Seq<NodeModel>, i: int, k: int)
    requires
        0 <= i < k <= ns.len(),
    ensures
        k <= spec_subtree_end(ns, i, k) <= ns.len(),
        forall|x: int| k <= x < spec_subtree_end(ns, i, k) ==> ns[x].depth > ns[i].depth,
        spec_subtree_end(ns, i, k) < ns.len() ==> ns[spec_subtree_end(ns, i, k)].depth
            <= ns[i].depth,
    decreases ns.len() - k,
{
    if k < ns.len() && ns[k].depth > ns[i].depth {
        lemma_subtree_end(ns, i, k + 1);
    }
}

/// A node `e` that is no deeper than the node number `i`, behind nodes that all are, is
/// what `spec_subtree_end` finds.
pub proof fn lemma_subtree_end_is(ns: Seq<NodeModel>, i: int, k: int, e: int)
    requires
        0 <= i < k <= e <= ns.len(),
        forall|x: int| k <= x < e ==> ns[x].depth > ns[i].depth,
        e < ns.len() ==> ns[e].depth <= ns[i].depth,
    ensures
        spec_subtree_end(ns, i, k) == e,
    decreases e - k,
{
    if k < e {
        lemma_subtree_end_is(ns, i, k + 1, e);
    }
}

/// What a new last node changes of what follows the subtree of an earlier node: nothing
/// where a node followed it already; else the new node follows it, if it is no deeper.
pub proof fn lemma_subtree_end_push(ns: Seq<NodeModel>, node: NodeModel, i: int)
    requires
        0 <= i < ns.len(),
    ensures
        spec_subtree_end(ns, i, i + 1) < ns.len() ==> spec_subtree_end(ns.push(node), i, i + 1)
            == spec_subtree_end(ns, i, i + 1),
        spec_subtree_end(ns, i, i + 1) >= ns.len() && node.depth <= ns[i].depth
            ==> spec_subtree_end(ns.push(node), i, i + 1) == ns.len(),
        spec_subtree_end(ns, i, i + 1) >= ns.len() && node.depth > ns[i].depth
            ==> spec_subtree_end(ns.push(node), i, i + 1) == ns.len() + 1,
{
    let ns2 = ns.push(node);
    let e = spec_subtree_end(ns, i, i + 1);
    lemma_subtree_end(ns, i, i + 1);
    assert forall|x: int| i + 1 <= x < e implies ns2[x].depth > ns2[i].depth by {
        assert(ns2[x] == ns[x]);
    }
    if e < ns.len() {
        assert(ns2[e] == ns[e]);
        lemma_subtree_end_is(ns2, i, i + 1, e);
    } else if node.depth <= ns[i].depth {
        lemma_subtree_end_is(ns2, i, i + 1, ns.len() as int);
    } else {
        assert forall|x: int| i + 1 <= x < ns.len() + 1 implies ns2[x].depth > ns2[i].depth by {
            if x < ns.len() {
                assert(ns2[x] == ns[x]);
            }
        }
        lemma_subtree_end_is(ns2, i, i + 1, ns.len() as int + 1);
    }
}

/// What follows the subtree of a node depends on the depths of the nodes alone.
pub proof fn lemma_subtree_end_depths(ns: Seq<NodeModel>, ns2: Seq<NodeModel>, i: int)
    requires
        0 <= i < ns.len(),
        ns.len() == ns2.len(),
        forall|k: int| 0 <= k < ns.len() ==> ns[k].depth == ns2[k].depth,
    ensures
        spec_subtree_end(ns2, i, i + 1) == spec_subtree_end(ns, i, i + 1),
{
    lemma_subtree_end(ns, i, i + 1);
    lemma_subtree_end_is(ns2, i, i + 1, spec_subtree_end(ns, i, i + 1));
}

/// The node behind a node that is open, and has nodes behind it, is its first child.
pub proof fn lemma_open_node_first_child(ns: Seq<NodeModel>, c: int)
    requires
        spec_tree_wf(ns),
        0 <= c,
        c + 1 < ns.len(),
        forall|k: int| c < k < ns.len() ==> ns[k].depth > ns[c].depth,
    ensures
        ns[c + 1].parent == Some(c),
{
    assert(spec_node_wf(ns, c + 1));
    assert(spec_node_wf(ns, c));
}

/// A record stays stored while the words it is made of stay as they are.
pub proof fn lemma_record_frame(
    words: Seq<int>,
    words2: Seq<int>,
    node: NodeModel,
    parent: int,
    first: int,
    next: int,
)
    requires
        spec_record_stored(words, node, parent, first, next),
        words2.len() == words.len(),
        forall|w: int| node.slot <= w < node.end() ==> words2[w] == words[w],
    ensures
        spec_record_stored(words2, node, parent, first, next),
{
    let s = node.slot;
    assert forall|q: int| 0 <= q < node.props.len() implies {
        &&& #[trigger] words2[s + 6 + 3 * q] == node.props[q].value_start
        &&& words2[s + 6 + 3 * q + 1] == node.props[q].value_len
        &&& words2[s + 6 + 3 * q + 2] == node.props[q].name_offset
    } by {
        assert(words[s + 6 + 3 * q] == node.props[q].value_start);
    }
}

/// Two links are the same word exactly when they lead to the same node, or both nowhere.
pub proof fn lemma_link_words(ns: Seq<NodeModel>, words_len: int, a: Option<int>, b: Option<int>)
    requires
        spec_tree_wf(ns),
        words_len * 8 <= usize::MAX,
        forall|i: int| 0 <= i < ns.len() ==> (#[trigger] ns[i]).end() <= words_len,
        a matches Some(i) ==> 0 <= i < ns.len(),
        b matches Some(i) ==> 0 <= i < ns.len(),
    ensures
        spec_link_word(ns, a) == spec_link_word(ns, b) <==> a == b,
        a matches Some(i) ==> 0 <= spec_link_word(ns, a) && spec_link_word(ns, a) + 6
            <= words_len,
{
    match a {
        Some(i) => {
            assert(ns[i].end() <= words_len);
            if i > 0 {
                lemma_slots_ordered(ns, 0, i);
            } else {
                assert(spec_node_wf(ns, 0));
            }
            match b {
                Some(j) => {
                    assert(ns[j].end() <= words_len);
                    if i < j {
                        lemma_slots_ordered(ns, i, j);
                    } else if j < i {
                        lemma_slots_ordered(ns, j, i);
                    }
                },
                None => {},
            }
        },
        None => {
            match b {
                Some(j) => {
                    assert(ns[j].end() <= words_len);
                },
                None => {},
            }
        },
    }
}

/// What follows a node in the order of the blob, and what follows its subtree, lie behind
/// it in the row.
pub proof fn lemma_links_forward(ns: Seq<NodeModel>, i: int)
    requires
        0 <= i < ns.len(),
    ensures
        spec_first_child(ns, i) matches Some(k) ==> i < k < ns.len(),
        spec_next_link(ns, i) matches Some(k) ==> i < k < ns.len(),
        spec_next_dfs(ns, i) matches Some(k) ==> i < k < ns.len(),
        spec_next_sibling(ns, i) matches Some(k) ==> i < k < ns.len(),
{
    lemma_subtree_end(ns, i, i + 1);
}

/// The nodes from `start` on that a walk over siblings hands out: each the next sibling
/// of the one before it.
pub open spec fn spec_sibling_chain(ns: Seq<NodeModel>, start: Option<int>) -> Seq<int>
    decreases
        (match start {
            Some(i) => if 0 <= i < ns.len() {
                ns.len() - i
            } else {
                0
            },
            None => 0,
        }),
{
    match start {
        Some(i) => if 0 <= i < ns.len() {
            seq![i] + spec_sibling_chain(
                ns,
                match spec_next_sibling(ns, i) {
                    Some(k) => if i < k {
                        Some(k)
                    } else {
                        None
                    },
                    None => None,
                },
            )
        } else {
            Seq::empty()
        },
        None => Seq::empty(),
    }
}

/// The children of the node number `i`, in the order of the blob.
pub open spec fn spec_children(ns: Seq<NodeModel>, i: int) -> Seq<int> {
    spec_sibling_chain(ns, spec_first_child(ns, i))
}

/// The first child of a node, and the next sibling of a child, have that node as their
/// parent.
pub proof fn lemma_sibling_chain_parent(ns: Seq<NodeModel>, start: Option<int>, parent: Option<int>)
    requires
        start matches Some(i) ==> 0 <= i < ns.len() && ns[i].parent == parent,
    ensures
        forall|x: int|
            0 <= x < spec_sibling_chain(ns, start).len() ==> 0 <= (#[trigger] spec_sibling_chain(
                ns,
                start,
            )[x]) < ns.len() && ns[spec_sibling_chain(ns, start)[x]].parent == parent,
    decreases
        (match start {
            Some(i) => if 0 <= i < ns.len() {
                ns.len() - i
            } else {
                0
            },
            None => 0,
        }),
{
    match start {
        Some(i) => {
            lemma_links_forward(ns, i);
            let next = match spec_next_sibling(ns, i) {
                Some(k) => if i < k {
                    Some(k)
                } else {
                    None
                },
                None => None,
            };
            lemma_sibling_chain_parent(ns, next, parent);
            let rest = spec_sibling_chain(ns, next);
            assert forall|x: int| 0 <= x < spec_sibling_chain(ns, start).len() implies 0 <= (
            #[trigger] spec_sibling_chain(ns, start)[x]) < ns.len() && ns[spec_sibling_chain(
                ns,
                start,
            )[x]].parent == parent by {
                if x > 0 {
                    assert(spec_sibling_chain(ns, start)[x] == rest[x - 1]);
                }
            }
        },
        None => {},
    }
}

/// Every child of a node has that node as its parent.
pub proof fn lemma_children_parent(ns: Seq<NodeModel>, i: int)
    requires
        0 <= i < ns.len(),
    ensures
        forall|x: int|
            0 <= x < spec_children(ns, i).len() ==> 0 <= (#[trigger] spec_children(ns, i)[x])
                < ns.len() && ns[spec_children(ns, i)[x]].parent == Some(i),
{
    lemma_sibling_chain_parent(ns, spec_first_child(ns, i), Some(i));
}

/// The tree that the build pass reads off a blob does not depend on the size of the work
/// buffer, as long as the buffer holds it.
pub proof fn lemma_build_any_buffer(buf: Seq<u8>, off: int, bs: BuildState, cap1: int, cap2: int)
    requires
        spec_build(buf, off, bs, cap1) is Ok,
        spec_build(buf, off, bs, cap2) is Ok,
    ensures
        spec_build(buf, off, bs, cap1) == spec_build(buf, off, bs, cap2),
    decreases buf.len() + 4 - off,
{
    let step = spec_next_token(buf, off);
    match step.result {
        Ok(Some(tok)) => {
            match spec_build_token(bs, tok, cap1) {
                Ok(next) => {
                    assert(spec_build_token(bs, tok, cap2) == Ok::<BuildState, DevTreeError>(next));
                    lemma_build_any_buffer(buf, step.next_off, next, cap1, cap2);
                },
                Err(_) => {},
            }
        },
        _ => {},
    }
}

/// The next sibling of a child of the node number `i` is the node behind the child's
/// subtree; where the child has no later sibling, the subtree of the node number `i` ends
/// with the subtree of the child.
pub proof fn lemma_child_subtree(ns: Seq<NodeModel>, i: int, c: int)
    requires
        spec_tree_wf(ns),
        0 <= i < c < ns.len(),
        ns[c].parent == Some(i),
    ensures
        match spec_next_sibling(ns, c) {
            Some(d) => d == spec_subtree_end(ns, c, c + 1) && ns[d].parent == Some(i) && c < d
                < ns.len(),
            None => spec_subtree_end(ns, c, c + 1) == spec_subtree_end(ns, i, i + 1),
        },
{
    let e = spec_subtree_end(ns, c, c + 1);
    lemma_subtree_end(ns, c, c + 1);
    assert(spec_node_wf(ns, c));
    assert(spec_node_wf(ns, i));
    if e < ns.len() && ns[e].depth == ns[c].depth {
        assert(spec_node_wf(ns, e));
        let j = ns[e].parent.unwrap();
        if j > i {
            if j < c {
                assert(ns[j].depth > ns[i].depth);
            } else if j > c {
                assert(ns[j].depth > ns[c].depth);
            }
        } else if j < i {
            assert(ns[i].depth > ns[j].depth);
        }
        assert(j == i);
    } else {
        assert forall|x: int| i + 1 <= x < e implies ns[x].depth > ns[i].depth by {
            if x > c {
                assert(ns[x].depth > ns[c].depth);
            }
        }
        if e < ns.len() {
            assert(spec_node_wf(ns, e));
            if ns[e].parent == Some(i) {
                assert(false);
            }
        }
        lemma_subtree_end_is(ns, i, i + 1, e);
    }
}

/// The subtrees of the children of a node, one behind the other, are what lies below the
/// node: the first child is the node behind it, the subtree of each child ends where the
/// next child stands, and the subtree of the last child ends where the subtree of the
/// node ends.
pub proof fn lemma_children_cover(ns: Seq<NodeModel>, i: int, c: int)
    requires
        spec_tree_wf(ns),
        0 <= i < c < ns.len(),
        ns[c].parent == Some(i),
    ensures
        spec_sibling_chain(ns, Some(c)).len() > 0,
        spec_sibling_chain(ns, Some(c))[0] == c,
        forall|x: int|
            0 <= x < spec_sibling_chain(ns, Some(c)).len() ==> spec_subtree_end(
                ns,
                #[trigger] spec_sibling_chain(ns, Some(c))[x],
                spec_sibling_chain(ns, Some(c))[x] + 1,
            ) == (if x + 1 < spec_sibling_chain(ns, Some(c)).len() {
                spec_sibling_chain(ns, Some(c))[x + 1]
            } else {
                spec_subtree_end(ns, i, i + 1)
            }),
    decreases ns.len() - c,
{
    lemma_child_subtree(ns, i, c);
    let chain = spec_sibling_chain(ns, Some(c));
    match spec_next_sibling(ns, c) {
        Some(d) => {
            lemma_children_cover(ns, i, d);
            let rest = spec_sibling_chain(ns, Some(d));
            assert(chain =~= seq![c] + rest);
            assert forall|x: int| 0 <= x < chain.len() implies spec_subtree_end(
                ns,
                #[trigger] chain[x],
                chain[x] + 1,
            ) == (if x + 1 < chain.len() {
                chain[x + 1]
            } else {
                spec_subtree_end(ns, i, i + 1)
            }) by {
                if x > 0 {
                    assert(chain[x] == rest[x - 1]);
                    if x + 1 < chain.len() {
                        assert(chain[x + 1] == rest[x]);
                    }
                } else {
                    assert(chain[1] == rest[0]);
                }
            }
        },
        None => {
            assert(spec_sibling_chain(ns, None) =~= Seq::<int>::empty());
            assert(chain =~= seq![c]);
        },
    }
}

/// What lies below a node is the subtrees of its children, one behind the other: a node
/// without children has nothing below it; else its first child is the node behind it, the
/// subtree of each child ends where the next child stands, and the subtree of the last
/// child ends where the subtree of the node ends.
pub proof fn lemma_children_partition(ns: Seq<NodeModel>, i: int)
    requires
        spec_tree_wf(ns),
        0 <= i < ns.len(),
    ensures
        spec_children(ns, i).len() == 0 ==> spec_subtree_end(ns, i, i + 1) == i + 1,
        spec_children(ns, i).len() > 0 ==> spec_children(ns, i)[0] == i + 1,
        forall|x: int|
            0 <= x < spec_children(ns, i).len() ==> spec_subtree_end(
                ns,
                #[trigger] spec_children(ns, i)[x],
                spec_children(ns, i)[x] + 1,
            ) == (if x + 1 < spec_children(ns, i).len() {
                spec_children(ns, i)[x + 1]
            } else {
                spec_subtree_end(ns, i, i + 1)
            }),
{
    match spec_first_child(ns, i) {
        Some(c) => {
            lemma_children_cover(ns, i, c);
        },
        None => {
            if i + 1 < ns.len() {
                assert(spec_node_wf(ns, i + 1));
                assert(spec_node_wf(ns, i));
                match ns[i + 1].parent {
                    Some(j) => {
                        assert(ns[i].depth > ns[j].depth);
                    },
                    None => {},
                }
            }
            lemma_subtree_end_is(ns, i, i + 1, i + 1);
        },
    }
}

} // verus!
