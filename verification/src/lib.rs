//! Buffer-allocation core of a graphics-compositing toolkit.
//!
//! The central abstraction is the [`allocator::dmabuf::Dmabuf`] handle: a
//! reference-counted, immutable multi-plane buffer descriptor.  Descriptors
//! are assembled by a staged [`allocator::dmabuf::DmabufBuilder`], observed
//! without ownership through [`allocator::dmabuf::WeakDmabuf`], and produced
//! uniformly from arbitrary backends through
//! [`allocator::dmabuf::DmabufAllocator`].

pub mod allocator;
pub mod element;
