//! The logical chunk model of a container.

use vstd::prelude::*;

use crate::text::owned;

verus! {

/// Identifies one chunk within a container, unique within that container.
#[derive(Debug, Clone, Copy, PartialEq, Eq, PartialOrd, Ord, Hash)]
pub struct ChunkId(pub u32);

/// How a chunk's bytes are represented on disk.
///
/// Version zero of the container only supports `Uncompressed`; the type exists so a
/// later format can add real compression without changing the chunk model.
#[derive(Debug, Clone, Copy, PartialEq, Eq)]
#[non_exhaustive]
pub enum ChunkCompression {
    /// The chunk's bytes are stored as they are.
    Uncompressed,
}

/// Logical description of one chunk: identity, an open-ended kind label and
/// its compression marker. Physical placement is the container's concern.
#[derive(Debug, PartialEq, Eq)]
pub struct ChunkDescriptor {
    pub id: ChunkId,
    pub kind: String,
    pub compression: ChunkCompression,
}

/// The mathematical content of a [`ChunkDescriptor`].
pub struct DescriptorView {
    pub id: u32,
    pub kind: Seq<char>,
    pub compression: ChunkCompression,
}

impl View for ChunkDescriptor {
    type V = DescriptorView;

    open spec fn view(&self) -> DescriptorView {
        DescriptorView { id: self.id.0, kind: self.kind@, compression: self.compression }
    }
}

impl ChunkDescriptor {
    /// A descriptor with the given id and kind, uncompressed.
    pub fn new(id: ChunkId, kind: &str) -> (d: Self)
        ensures
            d@ == (DescriptorView { id: id.0, kind: kind@, compression: ChunkCompression::Uncompressed }),
    {
        ChunkDescriptor { id, kind: owned(kind), compression: ChunkCompression::Uncompressed }
    }
}

impl Clone for ChunkDescriptor {
    fn clone(&self) -> (r: Self)
        ensures
            r@ == self@,
    {
        ChunkDescriptor { id: self.id, kind: self.kind.clone(), compression: self.compression }
    }
}

} // verus!
