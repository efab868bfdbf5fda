//! Core model of a block-structured key/value cache for transformer
//! inference, together with the indexing, masking and validation logic of
//! the attention paths that consume it.
//!
//! The cache holds per-token key and value vectors in fixed-capacity
//! blocks. Mutation primitives scatter new vectors into cache slots,
//! gather them back into dense buffers, and copy whole blocks between
//! block ids across all layers. The attention modules define which query
//! positions may attend to which key positions in a packed variable-length
//! batch, how grouped-query head ratios map query heads onto key/value
//! heads, and how a per-sequence block table addresses non-contiguous
//! cache blocks during incremental decoding.
//!
//! The numeric kernels themselves (softmax attention, normalization,
//! rotary embedding) run on floating-point device buffers and live outside
//! this library; everything here is the layout, indexing and masking logic
//! they share, stated and proved over plain values.

pub mod cache;
pub mod layout;
pub mod meta;
pub mod paged;
pub mod rotary;
pub mod radix;
pub mod stats;
pub mod varlen;
