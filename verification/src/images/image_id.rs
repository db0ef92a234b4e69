//! Identifiers of images.
use vstd::prelude::*;

verus! {

/// The bit that marks the identifiers which belong to document nodes.
pub const NODE_NAMESPACE_BIT: u64 = 0x8000_0000_0000_0000;

/// The identifier of a document node.
#[derive(Debug, Clone, Copy, PartialEq, Eq, Structural)]
pub struct NodeId(pub u64);

/// The identifier of an image. Images of document nodes are told apart from
/// images made at run time by one bit.
#[derive(Debug, Clone, Copy, PartialEq, Eq, Structural)]
pub struct ImageId(pub u64);

impl ImageId {
    /// The identifier lies in the namespace of document nodes.
    pub open spec fn names_node(self) -> bool {
        self.0 >= NODE_NAMESPACE_BIT
    }

    /// The document node that the image belongs to, if it belongs to one.
    pub fn node_id(self) -> (node: Option<NodeId>)
        ensures
            node == (if self.names_node() {
                Some(NodeId((self.0 - NODE_NAMESPACE_BIT) as u64))
            } else {
                None
            }),
    {
        if self.0 >= NODE_NAMESPACE_BIT {
            Some(NodeId(self.0 - NODE_NAMESPACE_BIT))
        } else {
            None
        }
    }
}

/// Gives out identifiers for images made at run time.
#[derive(Debug)]
pub struct ImageIdAllocator {
    next_runtime_id: u64,
}

impl View for ImageIdAllocator {
    type V = u64;

    /// The next identifier.
    closed spec fn view(&self) -> u64 {
        self.next_runtime_id
    }
}

impl Default for ImageIdAllocator {
    fn default() -> (allocator: Self)
        ensures
            allocator@ == 0,
    {
        ImageIdAllocator { next_runtime_id: 0 }
    }
}

impl ImageIdAllocator {
    pub fn new() -> (allocator: Self)
        ensures
            allocator@ == 0,
    {
        ImageIdAllocator { next_runtime_id: 0 }
    }

    /// Gives out the next identifier. Identifiers are given out in ascending
    /// order, so that none is given out twice, and all lie outside the
    /// namespace of document nodes.
    pub fn allocate(&mut self) -> (id: ImageId)
        requires
            old(self)@ < NODE_NAMESPACE_BIT,
        ensures
            id.0 == old(self)@,
            final(self)@ == old(self)@ + 1,
            !id.names_node(),
    {
        let id: u64 = self.next_runtime_id;
        self.next_runtime_id = id + 1;
        ImageId(id)
    }
}

} // verus!
