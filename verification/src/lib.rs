//! Verified core of the Blue RDMA driver: hardware ring pointers, the
//! producer and consumer descriptor rings, and the memory bookkeeping
//! that the DMA allocators rely on.
pub mod mem;
pub mod rdma_utils;
pub mod ring;
