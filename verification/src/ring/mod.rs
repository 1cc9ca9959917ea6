//! Descriptor rings shared between the host and the card.
pub mod csr;
pub mod desc_alloc;
pub mod desc_ring;
pub mod ring_ptr;
pub mod traits;
pub mod producer;
pub mod consumer;
pub mod laws;
