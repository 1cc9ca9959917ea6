//! Memory management: page sizes, DMA buffers and their allocators.
pub mod allocator;
pub mod attr;
pub mod page;
pub mod udmabuf;
