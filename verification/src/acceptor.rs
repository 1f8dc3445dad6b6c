//! The acceptor reactor: one message at a time it consults its durable
//! per-key record, updates it through storage compare-and-swap, and emits
//! exactly one response. It never initiates messages and keeps no state
//! between messages beyond its storage, so it is safe to restart at any
//! point.

use vstd::prelude::*;

use crate::msg::{Ballot, Error, ErrorV, Rpc, RpcV};
use crate::storage::{record_wf, MemStorage, Record, RecordV};

verus! {

/// The record after a prepare at `b`: the promise rises iff `b` is strictly
/// above the current promise; the accepted ballot and value never change.
pub open spec fn prepare_record(r: RecordV, b: Ballot) -> RecordV {
    if r.promised.0 < b.0 {
        RecordV { promised: b, accepted: r.accepted, value: r.value }
    } else {
        r
    }
}

/// The response to a prepare at `b` against record `r`: `ok` iff the promise
/// rose; the last accepted ballot and value are reported either way, so the
/// proposer can learn the value even when it loses here.
pub open spec fn prepare_reply(r: RecordV, b: Ballot) -> RpcV {
    RpcV::ProposeRes {
        req_ballot: b,
        last_accepted_ballot: r.accepted,
        last_accepted_value: r.value,
        res: if r.promised.0 < b.0 {
            Ok(())
        } else {
            Err(ErrorV::ProposalRejected { last: r.promised })
        },
    }
}

/// The record after an accept of `v` at `b`: iff `b` is at or above the
/// promise, the record accepts `(b, v)` and promises `b`.
pub open spec fn accept_record(r: RecordV, b: Ballot, v: Option<Seq<u8>>) -> RecordV {
    if r.promised.0 <= b.0 {
        RecordV { promised: b, accepted: b, value: v }
    } else {
        r
    }
}

/// The response to an accept at `b` against record `r`.
pub open spec fn accept_reply(r: RecordV, b: Ballot) -> RpcV {
    RpcV::AcceptRes(
        b,
        if r.promised.0 <= b.0 {
            Ok(())
        } else {
            Err(ErrorV::AcceptRejected { last: r.promised })
        },
    )
}

/// A per-key Paxos acceptor over a durable store. The store is owned by
/// this acceptor and touched only from its handler, so the read-then-swap
/// below never loses a race: the swap's success is proved, not retried.
#[derive(Debug)]
pub struct Acceptor {
    pub store: MemStorage,
}

impl Acceptor {
    /// Every record this acceptor stores keeps `accepted <= promised`.
    pub open spec fn wf(self) -> bool {
        forall|k: Seq<u8>| record_wf(#[trigger] self.store.spec_get(k))
    }

    /// An acceptor over the given store; passing a store recovered after a
    /// crash resumes exactly where the records left off.
    pub fn new(store: MemStorage) -> (r: Acceptor)
        ensures
            r.store == store,
    {
        Acceptor { store }
    }

    /// One reactor step: a prepare or an accept updates the one record it
    /// names and draws exactly one response to the sender; any other message
    /// kind is ignored. No record's promise ever decreases.
    pub fn receive(&mut self, now: u64, from: String, msg: Rpc) -> (out: Vec<(String, Rpc)>)
        ensures
            msg@ matches RpcV::ProposeReq(b, k) ==> {
                &&& final(self).store.spec_get(k) == prepare_record(
                    old(self).store.spec_get(k),
                    b,
                )
                &&& forall|k2: Seq<u8>|
                    k2 != k ==> #[trigger] final(self).store.spec_get(k2) == old(
                        self,
                    ).store.spec_get(k2)
                &&& out@.len() == 1
                &&& out@[0].0@ == from@
                &&& out@[0].1@ == prepare_reply(old(self).store.spec_get(k), b)
            },
            msg@ matches RpcV::AcceptReq(b, k, v) ==> {
                &&& final(self).store.spec_get(k) == accept_record(
                    old(self).store.spec_get(k),
                    b,
                    v,
                )
                &&& forall|k2: Seq<u8>|
                    k2 != k ==> #[trigger] final(self).store.spec_get(k2) == old(
                        self,
                    ).store.spec_get(k2)
                &&& out@.len() == 1
                &&& out@[0].0@ == from@
                &&& out@[0].1@ == accept_reply(old(self).store.spec_get(k), b)
            },
            !(msg@ matches RpcV::ProposeReq(..)) && !(msg@ matches RpcV::AcceptReq(..)) ==> {
                &&& *final(self) == *old(self)
                &&& out@.len() == 0
            },
            forall|k2: Seq<u8>|
                (#[trigger] final(self).store.spec_get(k2)).promised.0 >= old(
                    self,
                ).store.spec_get(k2).promised.0,
            old(self).wf() ==> final(self).wf(),
    {
        let _ = now;
        let mut out: Vec<(String, Rpc)> = Vec::new();
        match msg {
            Rpc::ProposeReq(b, key) => {
                let rec = self.store.get(&key);
                if rec.promised.lt(b) {
                    let raised = Record {
                        promised: b,
                        accepted: rec.accepted,
                        value: match &rec.value {
                            Some(v) => Some(v.clone()),
                            None => None,
                        },
                    };
                    let swapped = self.store.cas(&key, &rec, raised);
                    proof {
                        assert(swapped);
                    }
                    out.push(
                        (
                            from,
                            Rpc::ProposeRes {
                                req_ballot: b,
                                last_accepted_ballot: rec.accepted,
                                last_accepted_value: rec.value,
                                res: Ok(()),
                            },
                        ),
                    );
                } else {
                    out.push(
                        (
                            from,
                            Rpc::ProposeRes {
                                req_ballot: b,
                                last_accepted_ballot: rec.accepted,
                                last_accepted_value: rec.value,
                                res: Err(Error::ProposalRejected { last: rec.promised }),
                            },
                        ),
                    );
                }
            },
            Rpc::AcceptReq(b, key, v) => {
                let rec = self.store.get(&key);
                if !b.lt(rec.promised) {
                    let accepted = Record { promised: b, accepted: b, value: v };
                    let swapped = self.store.cas(&key, &rec, accepted);
                    proof {
                        assert(swapped);
                    }
                    out.push((from, Rpc::AcceptRes(b, Ok(()))));
                } else {
                    out.push(
                        (
                            from,
                            Rpc::AcceptRes(b, Err(Error::AcceptRejected { last: rec.promised })),
                        ),
                    );
                }
            },
            _ => {},
        }
        out
    }
}

/// Ballot monotonicity at an acceptor record: neither step ever lowers the
/// promised ballot, and a prepare never touches what was accepted.
pub proof fn lemma_promise_monotonic(r: RecordV, b: Ballot, v: Option<Seq<u8>>)
    ensures
        prepare_record(r, b).promised.0 >= r.promised.0,
        accept_record(r, b, v).promised.0 >= r.promised.0,
        prepare_record(r, b).accepted == r.accepted,
        prepare_record(r, b).value == r.value,
{
}

/// Both steps keep a record well formed.
pub proof fn lemma_step_wf(r: RecordV, b: Ballot, v: Option<Seq<u8>>)
    requires
        record_wf(r),
    ensures
        record_wf(prepare_record(r, b)),
        record_wf(accept_record(r, b, v)),
{
}

/// Durability: once an accept at `b` is answered `ok`, the record holds
/// `(b, v)`, and every later prepare reply — in particular one served after a
/// crash and restart over the same store — reports an accepted ballot at or
/// above `b`, with the value that ballot accepted.
pub proof fn lemma_durable_accept(r: RecordV, b: Ballot, v: Option<Seq<u8>>, b2: Ballot)
    requires
        accept_reply(r, b) == RpcV::AcceptRes(b, Ok::<(), ErrorV>(())),
    ensures
        accept_record(r, b, v).accepted == b,
        accept_record(r, b, v).value == v,
        prepare_reply(accept_record(r, b, v), b2) matches RpcV::ProposeRes {
            last_accepted_ballot,
            last_accepted_value,
            ..
        } && last_accepted_ballot.0 >= b.0 && last_accepted_value == v,
{
}

} // verus!
