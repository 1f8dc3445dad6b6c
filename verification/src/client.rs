//! The client reactor: issues one request at a time under a locally
//! monotonic correlation id, fans it out to the configured proposers,
//! applies a deadline, and surfaces the correlated outcome to the embedding
//! caller. Late or alien responses are dropped; re-sending before the
//! deadline is permitted and produces no duplicated effect, because the
//! proposer deduplicates on the correlation id.

use vstd::prelude::*;

use crate::msg::{
    msgs_view, peers_view, result_view, Error, ErrorV, Req, ReqV, ResultV, Rpc,
    RpcV, Value,
};
use crate::proposer::sat_add64;

verus! {

/// The request a client is waiting on.
#[derive(Debug)]
pub struct Pending {
    pub id: u64,
    pub req: Req,
    pub deadline: u64,
}

/// Mathematical model of a pending request.
#[verifier::ext_equal]
pub struct PendingV {
    pub id: u64,
    pub req: ReqV,
    pub deadline: u64,
}

impl View for Pending {
    type V = PendingV;

    open spec fn view(&self) -> PendingV {
        PendingV { id: self.id, req: self.req@, deadline: self.deadline }
    }
}

/// Model of an optional pending request.
pub open spec fn opt_pending_view(o: &Option<Pending>) -> Option<PendingV> {
    match o {
        Some(p) => Some(p@),
        None => None,
    }
}

/// Model of an optional delivered outcome.
pub open spec fn opt_result_view(o: &Option<Result<Option<Vec<u8>>, Error>>) -> Option<ResultV> {
    match o {
        Some(r) => Some(result_view(r)),
        None => None,
    }
}

/// Mathematical model of a client.
#[verifier::ext_equal]
pub struct ClientV {
    pub proposers: Seq<Seq<char>>,
    pub next_id: u64,
    pub timeout: u64,
    pub pending: Option<PendingV>,
    pub outcome: Option<ResultV>,
}

/// The client reactor.
#[derive(Debug)]
pub struct Client {
    /// The proposers every request is sent to.
    pub proposers: Vec<String>,
    /// The next correlation id to issue; locally monotonic.
    pub next_id: u64,
    /// Per-request timeout added to `now` on submission.
    pub timeout: u64,
    /// The request in flight, if any.
    pub pending: Option<Pending>,
    /// The outcome of the last retired request, until the caller takes it.
    pub outcome: Option<Result<Option<Value>, Error>>,
}

impl View for Client {
    type V = ClientV;

    open spec fn view(&self) -> ClientV {
        ClientV {
            proposers: peers_view(self.proposers@),
            next_id: self.next_id,
            timeout: self.timeout,
            pending: opt_pending_view(&self.pending),
            outcome: opt_result_view(&self.outcome),
        }
    }
}

/// The fan-out of one client request to every configured proposer.
pub open spec fn request_fanout(peers: Seq<Seq<char>>, id: u64, req: ReqV) -> Seq<
    (Seq<char>, RpcV),
> {
    peers.map_values(|p: Seq<char>| (p, RpcV::ClientRequest(id, req)))
}

/// The client after its deadline check at `now`: an overdue pending request
/// is retired with a timeout outcome.
pub open spec fn client_expire(pre: ClientV, now: u64) -> ClientV {
    match pre.pending {
        Some(p) => if p.deadline < now {
            ClientV { pending: None, outcome: Some(Err(ErrorV::Timeout)), ..pre }
        } else {
            pre
        },
        None => pre,
    }
}

/// How a response moves a client that has already run its deadline check:
/// only a client response bearing the pending correlation id delivers its
/// result; anything else is dropped.
pub open spec fn client_deliver(mid: ClientV, msg: RpcV) -> ClientV {
    match msg {
        RpcV::ClientResponse(id, res) => match mid.pending {
            Some(p) => if p.id == id {
                ClientV { pending: None, outcome: Some(res), ..mid }
            } else {
                mid
            },
            None => mid,
        },
        _ => mid,
    }
}

impl Client {
    /// A client that submits to `proposers` with the given per-request
    /// timeout.
    pub fn new(proposers: Vec<String>, timeout: u64) -> (r: Client)
        ensures
            r@.proposers == peers_view(proposers@),
            r@.next_id == 0,
            r@.timeout == timeout,
            r@.pending is None,
            r@.outcome is None,
    {
        Client { proposers, next_id: 0, timeout, pending: None, outcome: None }
    }

    /// Submit a request: choose the next correlation id, record the
    /// deadline, and send the request to every proposer. Refused while a
    /// request is already pending, or when the id space is exhausted.
    pub fn submit(&mut self, now: u64, req: Req) -> (out: Vec<(String, Rpc)>)
        ensures
            old(self)@.pending is Some || old(self)@.next_id == u64::MAX ==> final(self)@ == old(
                self,
            )@ && out@.len() == 0,
            old(self)@.pending is None && old(self)@.next_id != u64::MAX ==> {
                &&& final(self)@ == (ClientV {
                    next_id: (old(self)@.next_id + 1) as u64,
                    pending: Some(
                        PendingV {
                            id: old(self)@.next_id,
                            req: req@,
                            deadline: sat_add64(now, old(self)@.timeout),
                        },
                    ),
                    ..old(self)@
                })
                &&& msgs_view(out@) == request_fanout(old(self)@.proposers, old(self)@.next_id, req@)
            },
    {
        let refuse = match &self.pending {
            Some(_) => true,
            None => false,
        };
        if refuse || self.next_id == u64::MAX {
            return Vec::new();
        }
        let id = self.next_id;
        self.next_id = self.next_id + 1;
        let deadline = now.saturating_add(self.timeout);
        let out = fanout_request(&self.proposers, id, &req);
        self.pending = Some(Pending { id, req, deadline });
        proof {
            assert(self@ =~= (ClientV {
                next_id: self.next_id,
                pending: opt_pending_view(&self.pending),
                ..old(self)@
            }));
        }
        out
    }

    /// Re-send the pending request unchanged; permitted before the deadline
    /// and harmless, since proposers deduplicate on the correlation id.
    pub fn resend(&self) -> (out: Vec<(String, Rpc)>)
        ensures
            self@.pending matches Some(p) ==> msgs_view(out@) == request_fanout(
                self@.proposers,
                p.id,
                p.req,
            ),
            self@.pending is None ==> out@.len() == 0,
    {
        match &self.pending {
            Some(p) => fanout_request(&self.proposers, p.id, &p.req),
            None => Vec::new(),
        }
    }

    /// Run the deadline check alone, as on an injected tick.
    pub fn tick(&mut self, now: u64) -> (out: Vec<(String, Rpc)>)
        ensures
            final(self)@ == client_expire(old(self)@, now),
            out@.len() == 0,
    {
        let overdue = match &self.pending {
            Some(p) => p.deadline < now,
            None => false,
        };
        if overdue {
            self.pending = None;
            self.outcome = Some(Err(Error::Timeout));
        }
        proof {
            assert(self@ =~= client_expire(old(self)@, now));
        }
        Vec::new()
    }

    /// One reactor step: the deadline check runs first; then a client
    /// response bearing the pending id delivers its result. The client
    /// sends nothing of its own accord.
    pub fn receive(&mut self, now: u64, from: String, msg: Rpc) -> (out: Vec<(String, Rpc)>)
        ensures
            final(self)@ == client_deliver(client_expire(old(self)@, now), msg@),
            out@.len() == 0,
    {
        let _ = from;
        let _ = self.tick(now);
        let ghost mid = self@;
        match msg {
            Rpc::ClientResponse(id, res) => {
                let hit = match &self.pending {
                    Some(p) => p.id == id,
                    None => false,
                };
                if hit {
                    self.pending = None;
                    self.outcome = Some(res);
                }
                proof {
                    assert(self@ =~= client_deliver(mid, msg@));
                }
            },
            _ => {},
        }
        Vec::new()
    }

    /// Surrender the outcome of the last retired request, clearing the slot.
    pub fn take_outcome(&mut self) -> (r: Option<Result<Option<Value>, Error>>)
        ensures
            opt_result_view(&r) == old(self)@.outcome,
            final(self)@ == (ClientV { outcome: None, ..old(self)@ }),
    {
        let r = self.outcome.take();
        proof {
            assert(self@ =~= (ClientV { outcome: None, ..old(self)@ }));
        }
        r
    }
}

/// One request message per configured proposer.
fn fanout_request(peers: &Vec<String>, id: u64, req: &Req) -> (out: Vec<(String, Rpc)>)
    ensures
        msgs_view(out@) == request_fanout(peers_view(peers@), id, req@),
{
    let mut out: Vec<(String, Rpc)> = Vec::new();
    let mut i: usize = 0;
    while i < peers.len()
        invariant
            i <= peers.len(),
            msgs_view(out@) == request_fanout(peers_view(peers@), id, req@).take(i as int),
        decreases peers.len() - i,
    {
        let ghost ov = out@;
        let p = peers[i].clone();
        let rq = req.duplicate();
        let ghost pv = p@;
        let ghost rv = rq@;
        out.push((p, Rpc::ClientRequest(id, rq)));
        proof {
            let whole = request_fanout(peers_view(peers@), id, req@);
            assert(msgs_view(ov).len() == i as int);
            assert(ov.len() == i as int);
            assert forall|j: int| 0 <= j < i + 1 implies msgs_view(out@)[j] == whole.take(
                i + 1,
            )[j] by {
                if j < i {
                    assert(out@[j] == ov[j]);
                } else {
                    assert(out@[j].0@ == pv);
                }
            }
            assert(msgs_view(out@) =~= whole.take(i + 1));
        }
        i += 1;
    }
    proof {
        let whole = request_fanout(peers_view(peers@), id, req@);
        assert(whole.take(whole.len() as int) =~= whole);
    }
    out
}

} // verus!
