//! The tree that describes a serialized array: how each node is encoded, and which buffers of the
//! segment belong to it.

use crate::alignment::Alignment;
use vstd::prelude::*;

verus! {

/// A node of the tree.
#[derive(Debug)]
pub struct TreeNode {
    /// The encoding, as an index into the identifiers of the [`crate::analyze::ReadContext`].
    pub encoding: u16,
    /// What the encoding stores about the node.
    pub metadata: Vec<u8>,
    /// The buffers of the node, as indices into the buffers of the tree.
    pub buffers: Vec<u16>,
    /// The children of the node.
    pub children: Vec<TreeNode>,
}

/// Where one buffer lies, relative to the end of the one before.
#[derive(Debug, Clone, Copy, PartialEq, Eq, Structural)]
pub struct BufferSpec {
    /// The unused bytes in front of the buffer.
    pub padding: u16,
    /// The alignment of the buffer, as the exponent of a power of two.
    pub alignment_exponent: u8,
    /// The number of bytes of the buffer.
    pub length: u32,
}

/// The tree, with the buffers that its nodes refer to.
#[derive(Debug)]
pub struct ArrayTree {
    pub buffers: Vec<BufferSpec>,
    pub root: Option<TreeNode>,
}

/// The mathematical content of an [`TreeNode`].
pub struct TreeNodeView {
    pub encoding: u16,
    pub metadata: Seq<u8>,
    pub buffers: Seq<u16>,
    pub children: Seq<TreeNodeView>,
}

/// The mathematical content of an [`ArrayTree`].
pub struct ArrayTreeView {
    pub buffers: Seq<BufferSpec>,
    pub root: Option<TreeNodeView>,
}

/// The mathematical content of a node.
pub open spec fn node_view(node: TreeNode) -> TreeNodeView
    decreases node,
{
    TreeNodeView {
        encoding: node.encoding,
        metadata: node.metadata@,
        buffers: node.buffers@,
        children: Seq::new(
            node.children@.len(),
            |i: int|
                if 0 <= i < node.children@.len() {
                    node_view(node.children@[i])
                } else {
                    arbitrary()
                },
        ),
    }
}

impl View for TreeNode {
    type V = TreeNodeView;

    open spec fn view(&self) -> TreeNodeView {
        node_view(*self)
    }
}

impl View for ArrayTree {
    type V = ArrayTreeView;

    open spec fn view(&self) -> ArrayTreeView {
        ArrayTreeView {
            buffers: self.buffers@,
            root: match self.root {
                Some(node) => Some(node@),
                None => None,
            },
        }
    }
}

/// The children of a node, seen mathematically, are what its children are.
pub proof fn lemma_children_view(node: TreeNode)
    ensures
        node@.encoding == node.encoding,
        node@.metadata == node.metadata@,
        node@.buffers == node.buffers@,
        node@.children.len() == node.children@.len(),
        forall|i: int|
            0 <= i < node.children@.len() ==> #[trigger] node@.children[i] == node.children@[i]@,
{
}

/// Where a buffer lies in its segment.
#[derive(Debug, Clone, Copy, PartialEq, Eq, Structural)]
pub struct BufferLocation {
    pub offset: usize,
    pub length: usize,
    pub alignment: Alignment,
}

/// Where the first `n` buffers end.
pub open spec fn buffers_end(specs: Seq<BufferSpec>, n: int) -> nat
    decreases n,
{
    if n <= 0 {
        0
    } else {
        buffers_end(specs, n - 1) + specs[n - 1].padding as nat + specs[n - 1].length as nat
    }
}

/// Whether every position in the segment fits in a `usize`, and every alignment exists.
pub open spec fn locations_fit(specs: Seq<BufferSpec>) -> bool {
    &&& buffers_end(specs, specs.len() as int) <= usize::MAX
    &&& forall|i: int|
        0 <= i < specs.len() ==> (#[trigger] specs[i]).alignment_exponent < usize::BITS
}

/// Where the buffers lie: each one begins after its padding, which begins where the one before
/// ends.
pub open spec fn spec_locations(specs: Seq<BufferSpec>) -> Seq<BufferLocation> {
    Seq::new(
        specs.len(),
        |i: int|
            BufferLocation {
                offset: (buffers_end(specs, i) + specs[i].padding) as usize,
                length: specs[i].length as usize,
                alignment: Alignment { exponent: specs[i].alignment_exponent },
            },
    )
}

/// The buffers of a prefix end no later than those of a longer one.
pub proof fn lemma_buffers_end_monotonic(specs: Seq<BufferSpec>, i: int, j: int)
    requires
        i <= j,
    ensures
        buffers_end(specs, i) <= buffers_end(specs, j),
    decreases j - i,
{
    if i < j {
        lemma_buffers_end_monotonic(specs, i, j - 1);
    }
}

/// Returns where the buffers lie.
pub fn compute_buffer_locations(specs: &Vec<BufferSpec>) -> (r: Vec<BufferLocation>)
    requires
        locations_fit(specs@),
    ensures
        r@ == spec_locations(specs@),
        r@.len() == specs@.len(),
        forall|i: int|
            #![trigger r@[i]]
            0 <= i < specs@.len() ==> r@[i].length == specs@[i].length
                && r@[i].alignment.exponent == specs@[i].alignment_exponent && r@[i].offset
                == specs@[i].padding + (if i == 0 {
                0
            } else {
                r@[i - 1].offset + r@[i - 1].length
            }),
{
    let mut offset: usize = 0;
    let mut locations: Vec<BufferLocation> = Vec::new();
    let mut i: usize = 0;
    while i < specs.len()
        invariant
            locations_fit(specs@),
            i <= specs@.len(),
            offset == buffers_end(specs@, i as int),
            locations@ == spec_locations(specs@).take(i as int),
        decreases specs@.len() - i,
    {
        let buffer: BufferSpec = specs[i];
        proof {
            lemma_buffers_end_monotonic(specs@, i + 1, specs@.len() as int);
        }
        offset = offset + buffer.padding as usize;
        let location = BufferLocation {
            offset,
            length: buffer.length as usize,
            alignment: Alignment::from_exponent(buffer.alignment_exponent),
        };
        offset = offset + location.length;
        locations.push(location);
        i = i + 1;
        assert(locations@ =~= spec_locations(specs@).take(i as int));
    }
    assert(spec_locations(specs@).take(i as int) =~= spec_locations(specs@));
    proof {
        assert forall|k: int|
            #![trigger locations@[k]]
            0 <= k < specs@.len() implies locations@[k].offset == specs@[k].padding + (if k == 0 {
            0
        } else {
            locations@[k - 1].offset + locations@[k - 1].length
        }) by {
            law_buffers_lie_one_after_another(specs@, k);
        }
    }
    locations
}

/// Returns whether [`compute_buffer_locations`] can place the buffers.
pub fn buffers_can_be_located(specs: &Vec<BufferSpec>) -> (r: bool)
    ensures
        r == locations_fit(specs@),
{
    let mut offset: usize = 0;
    let mut i: usize = 0;
    while i < specs.len()
        invariant
            i <= specs@.len(),
            offset == buffers_end(specs@, i as int),
            forall|j: int|
                0 <= j < i ==> (#[trigger] specs@[j]).alignment_exponent < usize::BITS,
        decreases specs@.len() - i,
    {
        let buffer: BufferSpec = specs[i];
        if buffer.alignment_exponent as u32 >= usize::BITS {
            return false;
        }
        proof {
            lemma_buffers_end_monotonic(specs@, i + 1, specs@.len() as int);
        }
        offset = match offset.checked_add(buffer.padding as usize) {
            Some(start) => match start.checked_add(buffer.length as usize) {
                Some(end) => end,
                None => return false,
            },
            None => return false,
        };
        i = i + 1;
    }
    true
}

/// Buffers lie one after another: the first begins behind its padding, and each further one begins
/// behind its padding where the one before ends. Each has the length and the alignment that its
/// description says.
pub proof fn law_buffers_lie_one_after_another(specs: Seq<BufferSpec>, i: int)
    requires
        locations_fit(specs),
        0 <= i < specs.len(),
    ensures
        ({
            let locations = spec_locations(specs);
            &&& locations.len() == specs.len()
            &&& i == 0 ==> locations[i].offset == specs[i].padding
            &&& i > 0 ==> locations[i].offset == locations[i - 1].offset + locations[i - 1].length
                + specs[i].padding
            &&& locations[i].length == specs[i].length
            &&& locations[i].alignment.exponent == specs[i].alignment_exponent
            &&& locations[i].offset + locations[i].length <= usize::MAX
        }),
{
    lemma_buffers_end_monotonic(specs, i + 1, specs.len() as int);
    if i > 0 {
        lemma_buffers_end_monotonic(specs, i, specs.len() as int);
    }
}

/// The buffers end where the last one does: behind the paddings and the bytes of all of them. They
/// can be located if that position fits in a `usize` and all their alignments do.
pub proof fn law_buffers_end_with_the_last(specs: Seq<BufferSpec>, n: int)
    requires
        0 <= n < specs.len(),
    ensures
        buffers_end(specs, 0) == 0,
        buffers_end(specs, n + 1) - buffers_end(specs, n) == specs[n].padding + specs[n].length,
        locations_fit(specs) <==> buffers_end(specs, specs.len() as int) <= usize::MAX && (forall|
            i: int,
        |
            0 <= i < specs.len() ==> (#[trigger] specs[i]).alignment_exponent < usize::BITS),
{
}

/// A tree, seen mathematically, has its buffers and its root.
pub proof fn law_tree_has_its_parts(tree: ArrayTree)
    ensures
        tree@.buffers == tree.buffers@,
        tree@.root is Some <==> tree.root is Some,
        tree.root matches Some(root) ==> tree@.root == Some(root@),
{
}

} // verus!
