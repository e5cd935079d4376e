//! Reading an array tree from its flatbuffer.
//!
//! The flatbuffer is checked and opened by the `flatbuffers` crate and read through the accessors
//! of `vortex_flatbuffers`. What those do is stated here and not proved.

use crate::error::{VortexError, VortexResult};
use crate::tree::{
    lemma_children_view, TreeNode, TreeNodeView, ArrayTree, ArrayTreeView, BufferSpec,
};
use vstd::prelude::*;

verus! {

/// `flatbuffers::InvalidFlatbuffer`: why bytes are not a well-formed flatbuffer.
#[verifier::external_type_specification]
#[verifier::external_body]
pub struct ExInvalidFlatbuffer(flatbuffers::InvalidFlatbuffer);

/// `vortex_flatbuffers::array::Array`: an array tree inside its flatbuffer.
#[verifier::external_type_specification]
#[verifier::external_body]
pub struct ExFlatArray<'a>(vortex_flatbuffers::array::Array<'a>);

/// `vortex_flatbuffers::array::ArrayNode`: a node of an array tree inside its flatbuffer.
#[verifier::external_type_specification]
#[verifier::external_body]
pub struct ExFlatArrayNode<'a>(vortex_flatbuffers::array::ArrayNode<'a>);

/// The array tree that a flatbuffer holds, or `None` for bytes that `flatbuffers::root` refuses.
pub uninterp spec fn parsed_array_tree(bytes: Seq<u8>) -> Option<ArrayTreeView>;

/// What an opened array tree holds.
pub uninterp spec fn flat_array(array: vortex_flatbuffers::array::Array<'_>) -> ArrayTreeView;

/// What a node of an opened array tree holds, down to its leaves.
pub uninterp spec fn flat_node(node: vortex_flatbuffers::array::ArrayNode<'_>) -> TreeNodeView;

/// The number of bytes of the flatbuffer that an opened array tree lies in.
pub uninterp spec fn array_span(array: vortex_flatbuffers::array::Array<'_>) -> nat;

/// The number of bytes of the flatbuffer that a node of an opened array tree lies in.
pub uninterp spec fn node_span(node: vortex_flatbuffers::array::ArrayNode<'_>) -> nat;

/// The largest flatbuffer in which every position is found: positions are computed as signed
/// 32-bit numbers.
pub const MAX_FLATBUFFER_LEN: usize = 0x8000_0000;

/// Calls `flatbuffers::root`, which checks the bytes from the root table on and opens them.
///
/// Whether the bytes are accepted, and the tree that they hold, depend on the bytes alone: the
/// checks compare positions within the bytes with the lengths and the alignments of the types
/// that the schema names, so machines that align these types alike agree. Which checks there are
/// is not stated.
#[verifier::external_body]
fn open_array<'a>(bytes: &'a [u8]) -> (r: Result<
    vortex_flatbuffers::array::Array<'a>,
    flatbuffers::InvalidFlatbuffer,
>)
    ensures
        r is Ok <==> parsed_array_tree(bytes@) is Some,
        r matches Ok(array) ==> parsed_array_tree(bytes@) == Some(flat_array(array))
            && array_span(array) == bytes@.len(),
{
    flatbuffers::root::<vortex_flatbuffers::array::Array>(bytes)
}

/// Calls `vortex_flatbuffers::array::Array::root`: the root node, which may be missing. Like every
/// accessor of an opened tree it panics on positions past [`MAX_FLATBUFFER_LEN`].
#[verifier::external_body]
fn array_root<'a>(array: &vortex_flatbuffers::array::Array<'a>) -> (r: Option<
    vortex_flatbuffers::array::ArrayNode<'a>,
>)
    requires
        array_span(*array) <= MAX_FLATBUFFER_LEN,
    ensures
        r is Some <==> flat_array(*array).root is Some,
        r matches Some(node) ==> flat_array(*array).root == Some(flat_node(node)) && node_span(
            node,
        ) == array_span(*array),
{
    array.root()
}

/// Calls `vortex_flatbuffers::array::Array::buffers`: the buffers in their order, none if the
/// field is missing, each with its `padding`, `alignment_exponent` and `length`.
#[verifier::external_body]
fn array_buffers(array: &vortex_flatbuffers::array::Array<'_>) -> (r: Vec<BufferSpec>)
    requires
        array_span(*array) <= MAX_FLATBUFFER_LEN,
    ensures
        r@ == flat_array(*array).buffers,
{
    array.buffers().unwrap_or_default().iter().map(
        |buffer| BufferSpec {
            padding: buffer.padding(),
            alignment_exponent: buffer.alignment_exponent(),
            length: buffer.length(),
        },
    ).collect()
}

/// Calls `vortex_flatbuffers::array::ArrayNode::encoding`: the number of the encoding.
#[verifier::external_body]
fn node_encoding(node: &vortex_flatbuffers::array::ArrayNode<'_>) -> (r: u16)
    requires
        node_span(*node) <= MAX_FLATBUFFER_LEN,
    ensures
        r == flat_node(*node).encoding,
{
    node.encoding()
}

/// Calls `vortex_flatbuffers::array::ArrayNode::metadata`: the metadata bytes, none if the field
/// is missing.
#[verifier::external_body]
fn node_metadata(node: &vortex_flatbuffers::array::ArrayNode<'_>) -> (r: Vec<u8>)
    requires
        node_span(*node) <= MAX_FLATBUFFER_LEN,
    ensures
        r@ == flat_node(*node).metadata,
{
    node.metadata().map_or_else(Vec::new, |metadata| metadata.bytes().to_vec())
}

/// Calls `vortex_flatbuffers::array::ArrayNode::buffers`: the numbers of the buffers of the node,
/// none if the field is missing.
#[verifier::external_body]
fn node_buffers(node: &vortex_flatbuffers::array::ArrayNode<'_>) -> (r: Vec<u16>)
    requires
        node_span(*node) <= MAX_FLATBUFFER_LEN,
    ensures
        r@ == flat_node(*node).buffers,
{
    node.buffers().unwrap_or_default().iter().collect()
}

/// Calls `vortex_flatbuffers::array::ArrayNode::children`: the children in their order, none if
/// the field is missing.
#[verifier::external_body]
fn node_children<'a>(node: &vortex_flatbuffers::array::ArrayNode<'a>) -> (r: Vec<
    vortex_flatbuffers::array::ArrayNode<'a>,
>)
    requires
        node_span(*node) <= MAX_FLATBUFFER_LEN,
    ensures
        r@.len() == flat_node(*node).children.len(),
        forall|i: int|
            0 <= i < r@.len() ==> #[trigger] flat_node(r@[i]) == flat_node(*node).children[i],
        forall|i: int| 0 <= i < r@.len() ==> #[trigger] node_span(r@[i]) == node_span(*node),
{
    node.children().map_or_else(Vec::new, |children| children.iter().collect())
}

fn read_node(flat: &vortex_flatbuffers::array::ArrayNode<'_>) -> (r: TreeNode)
    requires
        node_span(*flat) <= MAX_FLATBUFFER_LEN,
    ensures
        r@ == flat_node(*flat),
    decreases flat_node(*flat),
{
    let flat_children = node_children(flat);
    let mut children: Vec<TreeNode> = Vec::new();
    let mut i: usize = 0;
    while i < flat_children.len()
        invariant
            i <= flat_children@.len(),
            i == children@.len(),
            flat_children@.len() == flat_node(*flat).children.len(),
            forall|k: int|
                0 <= k < flat_children@.len() ==> #[trigger] flat_node(flat_children@[k])
                    == flat_node(*flat).children[k],
            forall|k: int|
                0 <= k < flat_children@.len() ==> #[trigger] node_span(flat_children@[k])
                    == node_span(*flat),
            node_span(*flat) <= MAX_FLATBUFFER_LEN,
            forall|k: int|
                0 <= k < i ==> (#[trigger] children@[k])@ == flat_node(*flat).children[k],
        decreases flat_children@.len() - i,
    {
        assert(node_span(flat_children@[i as int]) == node_span(*flat));
        assert(flat_node(flat_children@[i as int]) == flat_node(*flat).children[i as int]);
        let child = read_node(&flat_children[i]);
        children.push(child);
        i = i + 1;
    }
    let node = TreeNode {
        encoding: node_encoding(flat),
        metadata: node_metadata(flat),
        buffers: node_buffers(flat),
        children,
    };
    proof {
        lemma_children_view(node);
        assert(node@.children =~= flat_node(*flat).children);
    }
    node
}

/// Reads an array tree from its flatbuffer.
pub fn parse_array_tree(bytes: &[u8]) -> (r: VortexResult<ArrayTree>)
    requires
        bytes@.len() <= MAX_FLATBUFFER_LEN,
    ensures
        match parsed_array_tree(bytes@) {
            Some(tree) => r matches Ok(t) && t@ == tree,
            None => r == Err::<ArrayTree, VortexError>(VortexError::InvalidArrayTree),
        },
{
    let array = match open_array(bytes) {
        Ok(array) => array,
        Err(_) => return Err(VortexError::InvalidArrayTree),
    };
    let root = match array_root(&array) {
        Some(node) => Some(read_node(&node)),
        None => None,
    };
    Ok(ArrayTree { buffers: array_buffers(&array), root })
}

} // verus!
