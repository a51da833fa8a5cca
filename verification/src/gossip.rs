//! Lazy descriptor gossip: descriptors travel only when asked for or when
//! announced, never by constant broadcast.
use vstd::prelude::*;
use crate::errors::ProtocolError;
use crate::overlay::descriptor_store::{merge_spec, prefer_spec, CachedDescriptor, DescriptorStore};
use crate::signing::descriptor_valid;
use crate::types::descriptor::{copy_descriptor, same_descriptor, Descriptor};

verus! {

/// Takes an announced descriptor into the store. The result says whether
/// the store changed, so that the caller knows to pass it on; a descriptor
/// whose signature does not hold is refused and changes nothing.
pub fn push_descriptor(store: &mut DescriptorStore, desc: Descriptor, height: Option<u64>) -> (r: Result<bool, ProtocolError>)
    requires
        old(store).wf(),
    ensures
        final(store).wf(),
        r is Err <==> !descriptor_valid(desc),
        r is Err ==> final(store)@ == old(store)@,
        r matches Ok(changed) ==> {
            let c = CachedDescriptor { descriptor: desc, finalised_height: height };
            &&& final(store)@ == merge_spec(old(store)@, c)
            &&& changed == (!old(store)@.contains_key(desc.node_id) || prefer_spec(c, old(store)@[desc.node_id]))
        },
{
    store.upsert(desc, height)
}

/// The descriptors to hand a new peer: at most `limit` of the store's, no
/// node twice.
pub fn descriptors_for_peer(store: &DescriptorStore, limit: usize) -> (r: Vec<Descriptor>)
    requires
        store.wf(),
    ensures
        r@.len() == if store@.len() < limit { store@.len() } else { limit as nat },
        forall|i: int|
            0 <= i < r@.len() ==> store@.contains_key(r@[i].node_id) && same_descriptor(
                #[trigger] r@[i],
                store@[r@[i].node_id].descriptor,
            ),
        forall|i: int, j: int| 0 <= i < j < r@.len() ==> r@[i].node_id != r@[j].node_id,
{
    let all = store.all_descriptors();
    let mut r: Vec<Descriptor> = Vec::new();
    let mut i: usize = 0;
    while i < all.len() && i < limit
        invariant
            i <= all@.len(),
            i <= limit,
            r@.len() == i,
            forall|j: int| 0 <= j < i ==> same_descriptor(#[trigger] r@[j], all@[j]),
        decreases all@.len() - i,
    {
        r.push(copy_descriptor(&all[i]));
        i = i + 1;
    }
    r
}

} // verus!
