//! How a starting node joins the overlay: each bootstrap peer is asked for
//! an introduction, retried while it is not ready, and the neighbours
//! learned are then asked in turn, except those that were bootstrap peers.
use vstd::prelude::*;
use crate::relay::texts;
use crate::text::text_eq;

verus! {

/// Introduction attempts made to one bootstrap peer before giving up.
pub const BOOTSTRAP_ATTEMPTS: u8 = 8;

/// Whether to ask a bootstrap peer again after attempt `attempt` (counted
/// from 1) brought back `neighbors` neighbours: only when none came back
/// and attempts are left.
pub fn retry_introduction(attempt: u8, neighbors: usize) -> (retry: bool)
    requires
        1 <= attempt <= BOOTSTRAP_ATTEMPTS,
    ensures
        retry == (neighbors == 0 && attempt < BOOTSTRAP_ATTEMPTS),
{
    neighbors == 0 && attempt < BOOTSTRAP_ATTEMPTS
}

/// The neighbour URLs to introduce to in the second round: those learned,
/// in order, without the URLs of the bootstrap peers.
pub open spec fn second_hop(bootstrap: Seq<Seq<char>>, learned: Seq<Seq<char>>) -> Seq<Seq<char>>
    decreases learned.len(),
{
    if learned.len() == 0 {
        Seq::empty()
    } else if bootstrap.contains(learned.last()) {
        second_hop(bootstrap, learned.drop_last())
    } else {
        second_hop(bootstrap, learned.drop_last()).push(learned.last())
    }
}

fn listed(list: &Vec<String>, url: &String) -> (r: bool)
    ensures
        r == texts(list@).contains(url@),
{
    let mut i: usize = 0;
    while i < list.len()
        invariant
            i <= list@.len(),
            forall|j: int| 0 <= j < i ==> list@[j]@ != url@,
        decreases list@.len() - i,
    {
        if text_eq(list[i].as_str(), url.as_str()) {
            assert(texts(list@)[i as int] == url@);
            return true;
        }
        i = i + 1;
    }
    proof {
        if texts(list@).contains(url@) {
            let k = choose|k: int| 0 <= k < texts(list@).len() && texts(list@)[k] == url@;
            assert(list@[k]@ == url@);
        }
    }
    false
}

/// The URLs the second round introduces to: the learned neighbour URLs that
/// are not bootstrap peers, in the order they were learned.
pub fn second_hop_urls(bootstrap: &Vec<String>, learned: &Vec<String>) -> (r: Vec<String>)
    ensures
        texts(r@) == second_hop(texts(bootstrap@), texts(learned@)),
{
    let mut r: Vec<String> = Vec::new();
    let mut i: usize = 0;
    while i < learned.len()
        invariant
            i <= learned@.len(),
            texts(r@) == second_hop(texts(bootstrap@), texts(learned@).take(i as int)),
        decreases learned@.len() - i,
    {
        proof {
            assert(texts(learned@).take(i + 1).drop_last() =~= texts(learned@).take(i as int));
        }
        if !listed(bootstrap, &learned[i]) {
            let ghost before = r@;
            r.push(learned[i].clone());
            assert(texts(r@) =~= texts(before).push(learned@[i as int]@));
        }
        i = i + 1;
    }
    assert(texts(learned@).take(i as int) =~= texts(learned@));
    r
}

} // verus!
