use vstd::prelude::*;

pub mod acceptor;
pub mod client;
pub mod frame;
pub mod msg;
pub mod proposer;
pub mod reactor;
pub mod storage;

pub use crate::acceptor::Acceptor;
pub use crate::client::Client;
pub use crate::msg::{Ballot, Error, Key, Req, Rpc, Value};
pub use crate::proposer::Proposer;
pub use crate::reactor::{Reactor, Transport};
pub use crate::storage::MemStorage;

verus! {

/// Size of a strict majority of an acceptor set of `n` members.
pub open spec fn majority(n: nat) -> nat {
    n / 2 + 1
}

/// Executable counterpart of `majority`.
pub fn quorum_size(n: usize) -> (r: usize)
    ensures
        r == majority(n as nat),
{
    n / 2 + 1
}

/// Quorum intersection: any two majorities of one acceptor set share a
/// member. This is why a value chosen by a phase-2 majority is visible to
/// every later phase-1 majority: some acceptor answered both.
pub proof fn lemma_quorum_intersection<A>(all: Set<A>, a: Set<A>, b: Set<A>)
    requires
        all.finite(),
        a.finite(),
        b.finite(),
        a.subset_of(all),
        b.subset_of(all),
        a.len() >= majority(all.len()),
        b.len() >= majority(all.len()),
    ensures
        exists|x: A| a.contains(x) && b.contains(x),
{
    if a.disjoint(b) {
        vstd::set_lib::lemma_set_disjoint_lens(a, b);
        assert((a + b).subset_of(all));
        vstd::set_lib::lemma_len_subset(a + b, all);
        assert(a.len() + b.len() <= all.len());
        assert(2 * (all.len() / 2 + 1) > all.len());
        assert(false);
    }
    let x = choose|x: A| a.contains(x) && b.contains(x);
    assert(a.contains(x) && b.contains(x));
}

} // verus!
