//! Adapters between the reader and writer and outside byte sources.
use vstd::prelude::*;

verus! {

/// Wraps a reader or writer of an outside I/O layer. The library gives it no
/// behaviour of its own; the program layer implements its byte-source trait on
/// it for readers that can seek.
pub struct TokioAdapter<IO>(pub IO);

} // verus!
