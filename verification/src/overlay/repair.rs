//! Periodic repair targets and the long-jump target, derived by hashing a
//! domain prefix, the epoch seed, the node's id and an index.
use vstd::prelude::*;
use crate::crypto::{sha256, sha256_digest};
use crate::node_id::NodeId;
use crate::wire::{le_u64, push_raw, push_u64_le};

verus! {

/// Number of repair targets per epoch tick.
pub const REPAIR_TARGETS_PER_TICK: usize = 2;

/// Hash input of a target: prefix, seed (little-endian), id, index
/// (little-endian).
pub open spec fn target_input(prefix: Seq<u8>, epoch_seed: u64, self_id: NodeId, index: u64) -> Seq<
    u8,
> {
    prefix + le_u64(epoch_seed) + self_id.0@ + le_u64(index)
}

/// The target for a prefix, seed, id and index.
pub open spec fn target_id(prefix: Seq<u8>, epoch_seed: u64, self_id: NodeId, index: u64) -> Seq<
    u8,
> {
    sha256_digest(target_input(prefix, epoch_seed, self_id, index))
}

pub open spec fn repair_prefix() -> Seq<u8> {
    seq![0x72u8, 0x65u8, 0x70u8, 0x61u8, 0x69u8, 0x72u8]
}

pub open spec fn longjump_prefix() -> Seq<u8> {
    seq![0x6cu8, 0x6fu8, 0x6eu8, 0x67u8, 0x6au8, 0x75u8, 0x6du8, 0x70u8]
}

/// `count` repair targets for a seed and id: target `i` hashes the prefix
/// `"repair"` with index `i`.
pub fn repair_targets(epoch_seed: u64, self_id: &NodeId, count: usize) -> (r: Vec<NodeId>)
    ensures
        r@.len() == count,
        forall|i: int|
            0 <= i < count ==> #[trigger] r@[i].0@ == target_id(
                repair_prefix(),
                epoch_seed,
                *self_id,
                i as u64,
            ),
{
    let prefix: [u8; 6] = [0x72u8, 0x65u8, 0x70u8, 0x61u8, 0x69u8, 0x72u8];
    assert(prefix@ =~= repair_prefix());
    let mut out: Vec<NodeId> = Vec::new();
    let mut i: u64 = 0;
    while (i as usize) < count
        invariant
            i <= count,
            count <= usize::MAX,
            prefix@ == repair_prefix(),
            out@.len() == i,
            forall|j: int|
                0 <= j < i ==> #[trigger] out@[j].0@ == target_id(
                    repair_prefix(),
                    epoch_seed,
                    *self_id,
                    j as u64,
                ),
        decreases count - i,
    {
        out.push(hash_target(prefix.as_slice(), epoch_seed, self_id, i));
        i = i + 1;
    }
    out
}

/// The long-jump target for this epoch: the prefix `"longjump"` with
/// index 0.
pub fn long_jump_target(epoch_seed: u64, self_id: &NodeId) -> (r: NodeId)
    ensures
        r.0@ == target_id(longjump_prefix(), epoch_seed, *self_id, 0),
{
    let prefix: [u8; 8] = [0x6cu8, 0x6fu8, 0x6eu8, 0x67u8, 0x6au8, 0x75u8, 0x6du8, 0x70u8];
    assert(prefix@ =~= longjump_prefix());
    hash_target(prefix.as_slice(), epoch_seed, self_id, 0)
}

fn hash_target(prefix: &[u8], epoch_seed: u64, self_id: &NodeId, index: u64) -> (r: NodeId)
    ensures
        r.0@ == target_id(prefix@, epoch_seed, *self_id, index),
{
    let mut input: Vec<u8> = Vec::new();
    push_raw(&mut input, prefix);
    push_u64_le(&mut input, epoch_seed);
    push_raw(&mut input, self_id.0.as_slice());
    push_u64_le(&mut input, index);
    assert(input@ =~= target_input(prefix@, epoch_seed, *self_id, index));
    NodeId(sha256(input.as_slice()))
}

} // verus!
