//! Wire-level data model: ballots, client requests, the message taxonomy and
//! the error kinds that responses carry.

use vstd::prelude::*;

verus! {

/// A totally ordered token issued by proposers to sequence attempts at
/// choosing a value. The zero ballot compares strictly below any issued one.
#[derive(Clone, Copy, Debug, PartialEq, Eq, Structural, Hash)]
pub struct Ballot(pub u64);

impl Ballot {
    /// True when `self` orders strictly below `other`.
    pub open spec fn spec_lt(self, other: Ballot) -> bool {
        self.0 < other.0
    }

    /// Executable strict-order comparison.
    pub fn lt(self, other: Ballot) -> (r: bool)
        ensures
            r == self.spec_lt(other),
    {
        self.0 < other.0
    }
}

impl Default for Ballot {
    /// The zero ballot: below any ballot a proposer ever issues.
    fn default() -> (r: Ballot)
        ensures
            r == Ballot(0),
    {
        Ballot(0)
    }
}

/// Keys and values are opaque byte sequences.
pub type Key = Vec<u8>;
pub type Value = Vec<u8>;

/// Mathematical model of a client request.
#[verifier::ext_equal]
pub enum ReqV {
    Get(Seq<u8>),
    Del(Seq<u8>),
    Put(Seq<u8>, Seq<u8>),
    Cas(Seq<u8>, Option<Seq<u8>>, Option<Seq<u8>>),
}

impl ReqV {
    /// Every request targets exactly one key.
    pub open spec fn key(self) -> Seq<u8> {
        match self {
            ReqV::Get(k) => k,
            ReqV::Del(k) => k,
            ReqV::Put(k, _) => k,
            ReqV::Cas(k, _, _) => k,
        }
    }
}

/// A client request: read, overwrite, delete, or compare-and-swap a key,
/// where the compare-and-swap carries the expected and the new value.
#[derive(Debug, Clone, PartialEq, Eq)]
pub enum Req {
    Get(Key),
    Del(Key),
    Put(Key, Value),
    Cas(Key, Option<Value>, Option<Value>),
}

impl View for Req {
    type V = ReqV;

    open spec fn view(&self) -> ReqV {
        match self {
            Req::Get(k) => ReqV::Get(k@),
            Req::Del(k) => ReqV::Del(k@),
            Req::Put(k, v) => ReqV::Put(k@, v@),
            Req::Cas(k, e, n) => ReqV::Cas(k@, opt_bytes_view(e), opt_bytes_view(n)),
        }
    }
}

impl Req {
    /// The exact key this request targets.
    pub fn key(&self) -> (r: Key)
        ensures
            r@ == self@.key(),
    {
        match self {
            Req::Get(k) => k.clone(),
            Req::Del(k) => k.clone(),
            Req::Put(k, _) => k.clone(),
            Req::Cas(k, _, _) => k.clone(),
        }
    }

    /// An exact copy of this request.
    pub fn duplicate(&self) -> (r: Req)
        ensures
            r@ == self@,
    {
        match self {
            Req::Get(k) => Req::Get(k.clone()),
            Req::Del(k) => Req::Del(k.clone()),
            Req::Put(k, v) => Req::Put(k.clone(), v.clone()),
            Req::Cas(k, e, n) => Req::Cas(k.clone(), clone_opt_bytes(e), clone_opt_bytes(n)),
        }
    }
}

/// Model of an optional byte string.
pub open spec fn opt_bytes_view(o: &Option<Vec<u8>>) -> Option<Seq<u8>> {
    match o {
        Some(v) => Some(v@),
        None => None,
    }
}

/// An exact copy of an optional byte string.
pub fn clone_opt_bytes(v: &Option<Vec<u8>>) -> (r: Option<Vec<u8>>)
    ensures
        opt_bytes_view(&r) == opt_bytes_view(v),
{
    match v {
        Some(x) => Some(x.clone()),
        None => None,
    }
}

/// Error kinds surfaced verbatim to the client.
#[derive(Debug, Clone, PartialEq, Eq)]
pub enum Error {
    /// A majority of prepare responders reported a higher promised ballot.
    ProposalRejected { last: Ballot },
    /// A majority of accept responders reported a higher promised ballot.
    AcceptRejected { last: Ballot },
    /// The compare-and-swap precondition did not match the observed value.
    CasFailed(Option<Value>),
    /// The deadline passed before a decision; the outcome is indeterminate.
    Timeout,
}

/// Mathematical model of an error.
#[verifier::ext_equal]
pub enum ErrorV {
    ProposalRejected { last: Ballot },
    AcceptRejected { last: Ballot },
    CasFailed(Option<Seq<u8>>),
    Timeout,
}

impl View for Error {
    type V = ErrorV;

    open spec fn view(&self) -> ErrorV {
        match self {
            Error::ProposalRejected { last } => ErrorV::ProposalRejected { last: *last },
            Error::AcceptRejected { last } => ErrorV::AcceptRejected { last: *last },
            Error::CasFailed(v) => ErrorV::CasFailed(opt_bytes_view(v)),
            Error::Timeout => ErrorV::Timeout,
        }
    }
}

impl Error {
    pub fn is_rejected_accept(&self) -> (r: bool)
        ensures
            r == (self@ matches ErrorV::AcceptRejected { .. }),
    {
        match self {
            Error::AcceptRejected { .. } => true,
            _ => false,
        }
    }

    pub fn is_rejected_proposal(&self) -> (r: bool)
        ensures
            r == (self@ matches ErrorV::ProposalRejected { .. }),
    {
        match self {
            Error::ProposalRejected { .. } => true,
            _ => false,
        }
    }

    pub fn is_timeout(&self) -> (r: bool)
        ensures
            r == (self@ matches ErrorV::Timeout),
    {
        match self {
            Error::Timeout => true,
            _ => false,
        }
    }

    pub fn is_failed_cas(&self) -> (r: bool)
        ensures
            r == (self@ matches ErrorV::CasFailed(_)),
    {
        match self {
            Error::CasFailed(_) => true,
            _ => false,
        }
    }
}

/// Model of an operation outcome as carried in a client response.
pub type ResultV = Result<Option<Seq<u8>>, ErrorV>;

/// Model of a wire message.
#[verifier::ext_equal]
pub enum RpcV {
    ClientRequest(u64, ReqV),
    ClientResponse(u64, ResultV),
    SetAcceptAcceptors(Seq<Seq<char>>),
    SetProposeAcceptors(Seq<Seq<char>>),
    ProposeReq(Ballot, Seq<u8>),
    ProposeRes {
        req_ballot: Ballot,
        last_accepted_ballot: Ballot,
        last_accepted_value: Option<Seq<u8>>,
        res: Result<(), ErrorV>,
    },
    AcceptReq(Ballot, Seq<u8>, Option<Seq<u8>>),
    AcceptRes(Ballot, Result<(), ErrorV>),
}

/// The self-describing wire message taxonomy. Peers are opaque strings
/// resolvable by the transport.
#[derive(Debug, PartialEq, Eq)]
pub enum Rpc {
    ClientRequest(u64, Req),
    ClientResponse(u64, Result<Option<Value>, Error>),
    SetAcceptAcceptors(Vec<String>),
    SetProposeAcceptors(Vec<String>),
    ProposeReq(Ballot, Key),
    ProposeRes {
        req_ballot: Ballot,
        last_accepted_ballot: Ballot,
        last_accepted_value: Option<Value>,
        res: Result<(), Error>,
    },
    AcceptReq(Ballot, Key, Option<Value>),
    AcceptRes(Ballot, Result<(), Error>),
}

/// Model of a list of peer addresses.
pub open spec fn peers_view(v: Seq<String>) -> Seq<Seq<char>> {
    v.map_values(|s: String| s@)
}

/// Model of an operation outcome.
pub open spec fn result_view(r: &Result<Option<Vec<u8>>, Error>) -> ResultV {
    match r {
        Ok(v) => Ok(opt_bytes_view(v)),
        Err(e) => Err(e@),
    }
}

/// Model of a phase outcome as carried in prepare and accept responses.
pub open spec fn unit_result_view(r: &Result<(), Error>) -> Result<(), ErrorV> {
    match r {
        Ok(()) => Ok(()),
        Err(e) => Err(e@),
    }
}

impl View for Rpc {
    type V = RpcV;

    open spec fn view(&self) -> RpcV {
        match self {
            Rpc::ClientRequest(id, req) => RpcV::ClientRequest(*id, req@),
            Rpc::ClientResponse(id, res) => RpcV::ClientResponse(*id, result_view(res)),
            Rpc::SetAcceptAcceptors(v) => RpcV::SetAcceptAcceptors(peers_view(v@)),
            Rpc::SetProposeAcceptors(v) => RpcV::SetProposeAcceptors(peers_view(v@)),
            Rpc::ProposeReq(b, k) => RpcV::ProposeReq(*b, k@),
            Rpc::ProposeRes { req_ballot, last_accepted_ballot, last_accepted_value, res } => (
                RpcV::ProposeRes {
                    req_ballot: *req_ballot,
                    last_accepted_ballot: *last_accepted_ballot,
                    last_accepted_value: opt_bytes_view(last_accepted_value),
                    res: unit_result_view(res),
                }
            ),
            Rpc::AcceptReq(b, k, v) => RpcV::AcceptReq(*b, k@, opt_bytes_view(v)),
            Rpc::AcceptRes(b, r) => RpcV::AcceptRes(*b, unit_result_view(r)),
        }
    }
}

impl Rpc {
    /// The correlation id, for the two client-facing message kinds.
    pub fn client_req_id(&self) -> (r: Option<u64>)
        ensures
            r == (match self@ {
                RpcV::ClientRequest(id, _) => Some(id),
                RpcV::ClientResponse(id, _) => Some(id),
                _ => None::<u64>,
            }),
    {
        match self {
            Rpc::ClientRequest(id, _) => Some(*id),
            Rpc::ClientResponse(id, _) => Some(*id),
            _ => None,
        }
    }

    /// The request body, for a client request.
    pub fn client_req(self) -> (r: Option<Req>)
        ensures
            r matches Some(req) ==> self@ matches RpcV::ClientRequest(_, rv) && req@ == rv,
            r is None <==> !(self@ matches RpcV::ClientRequest(..)),
    {
        match self {
            Rpc::ClientRequest(_, req) => Some(req),
            _ => None,
        }
    }
}

/// Model of an outbound batch: each element is a recipient and a message.
pub open spec fn msgs_view(v: Seq<(String, Rpc)>) -> Seq<(Seq<char>, RpcV)> {
    v.map_values(|p: (String, Rpc)| (p.0@, p.1@))
}

/// Equality test on optional byte strings, with its meaning stated over the
/// mathematical model.
pub fn opt_bytes_eq(a: &Option<Vec<u8>>, b: &Option<Vec<u8>>) -> (r: bool)
    ensures
        r == (opt_bytes_view(a) == opt_bytes_view(b)),
{
    match (a, b) {
        (None, None) => true,
        (Some(x), Some(y)) => bytes_eq(x, y),
        _ => false,
    }
}

/// Equality test on byte strings, with its meaning stated over sequences.
pub fn bytes_eq(a: &Vec<u8>, b: &Vec<u8>) -> (r: bool)
    ensures
        r == (a@ == b@),
{
    if a.len() != b.len() {
        return false;
    }
    let mut i: usize = 0;
    while i < a.len()
        invariant
            i <= a.len(),
            a.len() == b.len(),
            forall|j: int| 0 <= j < i ==> a@[j] == b@[j],
        decreases a.len() - i,
    {
        if a[i] != b[i] {
            return false;
        }
        i += 1;
    }
    proof {
        assert(a@ =~= b@);
    }
    true
}

} // verus!
