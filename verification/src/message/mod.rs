//! Wire-level vocabulary shared by the gateway and the workers.
use vstd::prelude::*;

pub mod http;
pub mod socket;

verus! {

/// A correlation id: exactly 36 opaque bytes, carried verbatim and never
/// interpreted.
#[derive(Clone, Copy, Debug)]
pub struct CorrelationId(pub [u8; 36]);

impl View for CorrelationId {
    type V = Seq<u8>;

    open spec fn view(&self) -> Seq<u8> {
        self.0@
    }
}

} // verus!
