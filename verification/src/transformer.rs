use crate::types::{Envelope, NodeId};
use vstd::prelude::*;

verus! {

/// A stage of the message pipeline: passes an envelope on (possibly changed)
/// or drops it.
pub trait Transformer: Send + Sync {
    fn transform(&self, envelope: Envelope) -> Option<Envelope>;
}

/// Passes every envelope on unchanged.
pub struct PassthruTransformer;

impl Transformer for PassthruTransformer {
    fn transform(&self, envelope: Envelope) -> (r: Option<Envelope>)
        ensures
            r == Some(envelope),
    {
        Some(envelope)
    }
}

/// Drops every envelope sent by one node, as if that node were offline.
pub struct DropTransformer {
    pub drop_from: NodeId,
}

impl Transformer for DropTransformer {
    fn transform(&self, envelope: Envelope) -> (r: Option<Envelope>)
        ensures
            r == (if envelope.from == self.drop_from {
                None
            } else {
                Some(envelope)
            }),
    {
        if envelope.from == self.drop_from {
            None
        } else {
            Some(envelope)
        }
    }
}

} // verus!
