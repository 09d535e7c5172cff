use crate::types::{Envelope, Message, NodeId};
use vstd::prelude::*;

verus! {

/// The envelopes that broadcast `msg` from `from`: one to each target, in the
/// targets' order.
pub fn fan_out(from: NodeId, msg: &Message, targets: &Vec<NodeId>) -> (r: Vec<Envelope>)
    ensures
        r@.len() == targets@.len(),
        forall|i: int|
            0 <= i < targets@.len() ==> (#[trigger] r@[i])@.from == from.0 && r@[i]@.to
                == targets@[i].0 && r@[i]@.msg == msg@,
{
    let mut r: Vec<Envelope> = Vec::new();
    let n = targets.len();
    for i in 0..n
        invariant
            n == targets@.len(),
            r@.len() == i,
            forall|j: int|
                0 <= j < i ==> (#[trigger] r@[j])@.from == from.0 && r@[j]@.to == targets@[j].0
                    && r@[j]@.msg == msg@,
    {
        r.push(Envelope { from, to: targets[i], msg: msg.clone() });
    }
    r
}

} // verus!
