//! The broadcast engine: serializes a message once and plans one delivery
//! of that canonical payload to every connection registered at snapshot
//! time. The sends themselves happen outside the registry lock, one per
//! plan entry, so one failing recipient cannot affect the others.

use vstd::prelude::*;
use crate::message::Message;
use crate::codec::{encode_message, spec_encode};
use crate::registry::{Registry, keys_unique};

verus! {

/// One planned delivery: a registered connection, its channel, and the
/// serialized frame to send to it.
pub struct Delivery<C> {
    pub connection_id: u128,
    pub channel: C,
    pub payload: String,
}

/// Serializes `m` to its one canonical wire form and plans its delivery
/// to every registered connection: exactly one entry per connection live
/// at snapshot time (the sender's own connection included), all carrying
/// the identical payload.
pub fn broadcast<C: Copy>(registry: &Registry<C>, m: &Message) -> (plan: Vec<Delivery<C>>)
    requires
        registry.wf(),
    ensures
        plan@.len() == registry@.dom().len(),
        forall|i: int| 0 <= i < plan@.len() ==> (#[trigger] plan@[i]).payload@ == spec_encode(m@)
            && registry@.contains_pair(plan@[i].connection_id, plan@[i].channel),
        forall|i: int, j: int| 0 <= i < j < plan@.len()
            ==> (#[trigger] plan@[i]).connection_id != (#[trigger] plan@[j]).connection_id,
        forall|k: u128| #[trigger] registry@.dom().contains(k)
            ==> exists|i: int| 0 <= i < plan@.len() && (#[trigger] plan@[i]).connection_id == k,
{
    let payload = encode_message(m);
    let snap = registry.snapshot();
    let n = snap.len();
    let mut plan: Vec<Delivery<C>> = Vec::new();
    let mut i: usize = 0;
    while i < n
        invariant
            i <= n,
            n == snap@.len(),
            payload@ == spec_encode(m@),
            plan@.len() == i,
            forall|j: int| 0 <= j < i ==> (#[trigger] plan@[j]).connection_id == snap@[j].0
                && plan@[j].channel == snap@[j].1
                && plan@[j].payload@ == spec_encode(m@),
        decreases n - i,
    {
        let entry = snap[i];
        plan.push(Delivery { connection_id: entry.0, channel: entry.1, payload: payload.clone() });
        i = i + 1;
    }
    proof {
        assert(keys_unique(snap@));
        assert forall|k: u128| #[trigger] registry@.dom().contains(k)
            implies exists|i: int| 0 <= i < plan@.len()
                && (#[trigger] plan@[i]).connection_id == k by {
            let w = choose|i: int| 0 <= i < snap@.len() && (#[trigger] snap@[i]).0 == k;
            assert(plan@[w].connection_id == k);
        };
    }
    plan
}

} // verus!
