//! The proposer reactor: multiplexes concurrent Paxos rounds keyed by the
//! client's correlation id, drives each round's two phases against the
//! configured acceptor sets, enforces per-round deadlines, and emits exactly
//! one client response per round it retires.

use vstd::prelude::*;

use crate::msg::{
    clone_opt_bytes, msgs_view, opt_bytes_eq, opt_bytes_view, peers_view, unit_result_view,
    Ballot, Error, ErrorV, Req, ReqV, Rpc, RpcV,
};
use crate::{majority, quorum_size};

verus! {

/// Phase-1 tallies of one round: the acceptor set the round was started
/// with, the responders counted so far, the highest rejection ballot, and
/// the best `(accepted_ballot, accepted_value)` reported by an `ok`.
#[derive(Debug)]
pub struct Phase1Tally {
    pub acceptors: Vec<String>,
    pub oks: Vec<String>,
    pub rejects: Vec<String>,
    pub highest_reject: Ballot,
    pub best_ballot: Ballot,
    pub best_value: Option<Vec<u8>>,
}

/// Phase-2 tallies of one round, carrying the value the round proposes.
#[derive(Debug)]
pub struct Phase2Tally {
    pub acceptors: Vec<String>,
    pub oks: Vec<String>,
    pub rejects: Vec<String>,
    pub highest_reject: Ballot,
    pub proposed: Option<Vec<u8>>,
}

/// The phase a round is in; terminal states are evicted, not stored.
#[derive(Debug)]
pub enum Phase {
    One(Phase1Tally),
    Two(Phase2Tally),
}

/// One in-flight round: the client it answers to, its correlation id and
/// request, the ballot the round runs at, its deadline, and its tallies.
#[derive(Debug)]
pub struct Round {
    pub client: String,
    pub id: u64,
    pub req: Req,
    pub ballot: Ballot,
    pub deadline: u64,
    pub phase: Phase,
}

/// Mathematical model of phase-1 tallies.
#[verifier::ext_equal]
pub struct Phase1V {
    pub acceptors: Seq<Seq<char>>,
    pub oks: Seq<Seq<char>>,
    pub rejects: Seq<Seq<char>>,
    pub highest_reject: Ballot,
    pub best_ballot: Ballot,
    pub best_value: Option<Seq<u8>>,
}

/// Mathematical model of phase-2 tallies.
#[verifier::ext_equal]
pub struct Phase2V {
    pub acceptors: Seq<Seq<char>>,
    pub oks: Seq<Seq<char>>,
    pub rejects: Seq<Seq<char>>,
    pub highest_reject: Ballot,
    pub proposed: Option<Seq<u8>>,
}

/// Mathematical model of a round's phase.
#[verifier::ext_equal]
pub enum PhaseV {
    One(Phase1V),
    Two(Phase2V),
}

/// Mathematical model of a round.
#[verifier::ext_equal]
pub struct RoundV {
    pub client: Seq<char>,
    pub id: u64,
    pub req: ReqV,
    pub ballot: Ballot,
    pub deadline: u64,
    pub phase: PhaseV,
}

impl View for Phase1Tally {
    type V = Phase1V;

    open spec fn view(&self) -> Phase1V {
        Phase1V {
            acceptors: peers_view(self.acceptors@),
            oks: peers_view(self.oks@),
            rejects: peers_view(self.rejects@),
            highest_reject: self.highest_reject,
            best_ballot: self.best_ballot,
            best_value: opt_bytes_view(&self.best_value),
        }
    }
}

impl View for Phase2Tally {
    type V = Phase2V;

    open spec fn view(&self) -> Phase2V {
        Phase2V {
            acceptors: peers_view(self.acceptors@),
            oks: peers_view(self.oks@),
            rejects: peers_view(self.rejects@),
            highest_reject: self.highest_reject,
            proposed: opt_bytes_view(&self.proposed),
        }
    }
}

impl View for Phase {
    type V = PhaseV;

    open spec fn view(&self) -> PhaseV {
        match self {
            Phase::One(t) => PhaseV::One(t@),
            Phase::Two(t) => PhaseV::Two(t@),
        }
    }
}

impl View for Round {
    type V = RoundV;

    open spec fn view(&self) -> RoundV {
        RoundV {
            client: self.client@,
            id: self.id,
            req: self.req@,
            ballot: self.ballot,
            deadline: self.deadline,
            phase: self.phase@,
        }
    }
}

/// Model of a list of rounds.
pub open spec fn rounds_view(s: Seq<Round>) -> Seq<RoundV> {
    s.map_values(|r: Round| r@)
}

/// Mathematical model of a proposer.
#[verifier::ext_equal]
pub struct ProposerV {
    pub counter: u64,
    pub propose_acceptors: Seq<Seq<char>>,
    pub accept_acceptors: Seq<Seq<char>>,
    pub rounds: Seq<RoundV>,
    pub timeout: u64,
}

/// The proposer reactor.
#[derive(Debug)]
pub struct Proposer {
    /// Highest ballot number issued by this proposer or observed in a
    /// rejection; the next round runs strictly above it.
    pub counter: u64,
    /// Acceptor set consulted in phase 1.
    pub propose_acceptors: Vec<String>,
    /// Acceptor set consulted in phase 2.
    pub accept_acceptors: Vec<String>,
    /// In-flight rounds.
    pub rounds: Vec<Round>,
    /// Per-round timeout added to `now` when a round starts.
    pub timeout: u64,
}

impl View for Proposer {
    type V = ProposerV;

    open spec fn view(&self) -> ProposerV {
        ProposerV {
            counter: self.counter,
            propose_acceptors: peers_view(self.propose_acceptors@),
            accept_acceptors: peers_view(self.accept_acceptors@),
            rounds: rounds_view(self.rounds@),
            timeout: self.timeout,
        }
    }
}

/// Addition on timestamps that pins at the largest representable instant.
pub open spec fn sat_add64(a: u64, b: u64) -> u64 {
    if a + b > u64::MAX {
        u64::MAX
    } else {
        (a + b) as u64
    }
}

/// A round whose deadline lies strictly before `now` has timed out.
pub open spec fn round_expired(r: RoundV, now: u64) -> bool {
    r.deadline < now
}

/// The rounds that survive a deadline scan at `now`, in order.
pub open spec fn live_rounds(s: Seq<RoundV>, now: u64) -> Seq<RoundV>
    decreases s.len(),
{
    if s.len() == 0 {
        Seq::empty()
    } else {
        let rest = live_rounds(s.drop_last(), now);
        if round_expired(s.last(), now) {
            rest
        } else {
            rest.push(s.last())
        }
    }
}

/// The timeout responses a deadline scan at `now` emits, in round order.
pub open spec fn timeout_msgs(s: Seq<RoundV>, now: u64) -> Seq<(Seq<char>, RpcV)>
    decreases s.len(),
{
    if s.len() == 0 {
        Seq::empty()
    } else {
        let rest = timeout_msgs(s.drop_last(), now);
        if round_expired(s.last(), now) {
            rest.push(
                (s.last().client, RpcV::ClientResponse(s.last().id, Err(ErrorV::Timeout))),
            )
        } else {
            rest
        }
    }
}

/// The proposer after its deadline scan at `now`.
pub open spec fn after_expiry(p: ProposerV, now: u64) -> ProposerV {
    ProposerV { rounds: live_rounds(p.rounds, now), ..p }
}

/// Whether some round already answers to correlation id `id`.
pub open spec fn has_round_id(s: Seq<RoundV>, id: u64) -> bool {
    exists|i: int| 0 <= i < s.len() && s[i].id == id
}

/// Index of the first round running at ballot `b`, or -1.
pub open spec fn find_ballot(s: Seq<RoundV>, b: Ballot) -> int
    decreases s.len(),
{
    if s.len() == 0 {
        -1
    } else if s[0].ballot == b {
        0
    } else {
        let r = find_ballot(s.drop_first(), b);
        if r == -1 {
            -1
        } else {
            r + 1
        }
    }
}

/// The ballot a rejection reports; the zero ballot for any other error.
pub open spec fn rejection_ballot(e: ErrorV) -> Ballot {
    match e {
        ErrorV::ProposalRejected { last } => last,
        ErrorV::AcceptRejected { last } => last,
        _ => Ballot(0),
    }
}

/// The larger of two ballots.
pub open spec fn max_ballot(a: Ballot, b: Ballot) -> Ballot {
    if a.0 < b.0 {
        b
    } else {
        a
    }
}

/// What a round proposes once phase 1 completes with `best` as the highest
/// accepted value observed: a read proposes `best` unchanged, a write its
/// value, a delete nothing, and a compare-and-swap its new value when `best`
/// equals its expectation — otherwise the round fails carrying `best`.
pub open spec fn chosen_value(req: ReqV, best: Option<Seq<u8>>) -> Result<
    Option<Seq<u8>>,
    Option<Seq<u8>>,
> {
    match req {
        ReqV::Get(_) => Ok(best),
        ReqV::Put(_, v) => Ok(Some(v)),
        ReqV::Del(_) => Ok(None),
        ReqV::Cas(_, expected, new) => if best == expected {
            Ok(new)
        } else {
            Err(best)
        },
    }
}

/// The phase-1 fan-out: one prepare per configured acceptor.
pub open spec fn prepare_fanout(peers: Seq<Seq<char>>, b: Ballot, k: Seq<u8>) -> Seq<
    (Seq<char>, RpcV),
> {
    peers.map_values(|p: Seq<char>| (p, RpcV::ProposeReq(b, k)))
}

/// The phase-2 fan-out: one accept per configured acceptor.
pub open spec fn accept_fanout(
    peers: Seq<Seq<char>>,
    b: Ballot,
    k: Seq<u8>,
    v: Option<Seq<u8>>,
) -> Seq<(Seq<char>, RpcV)> {
    peers.map_values(|p: Seq<char>| (p, RpcV::AcceptReq(b, k, v)))
}

/// A fresh phase-1 tally over the acceptor set `peers`.
pub open spec fn fresh_phase1(peers: Seq<Seq<char>>) -> Phase1V {
    Phase1V {
        acceptors: peers,
        oks: Seq::empty(),
        rejects: Seq::empty(),
        highest_reject: Ballot(0),
        best_ballot: Ballot(0),
        best_value: None,
    }
}

/// How a client request moves the proposer: a duplicate of an in-flight id
/// is ignored; otherwise a fresh ballot strictly above every ballot this
/// proposer issued or observed starts a phase-1 round against the current
/// propose set, with one prepare per member. A proposer whose ballot space
/// is exhausted refuses the request silently, forcing the client's timeout.
pub open spec fn client_request_step(
    pre: ProposerV,
    now: u64,
    from: Seq<char>,
    id: u64,
    req: ReqV,
    post: ProposerV,
    out: Seq<(Seq<char>, RpcV)>,
) -> bool {
    if has_round_id(pre.rounds, id) || pre.counter == u64::MAX {
        post == pre && out.len() == 0
    } else {
        let ballot = Ballot((pre.counter + 1) as u64);
        let round = RoundV {
            client: from,
            id,
            req,
            ballot,
            deadline: sat_add64(now, pre.timeout),
            phase: PhaseV::One(fresh_phase1(pre.propose_acceptors)),
        };
        &&& post == (ProposerV {
            counter: ballot.0,
            rounds: pre.rounds.push(round),
            ..pre
        })
        &&& out == prepare_fanout(pre.propose_acceptors, ballot, req.key())
    }
}

/// How a phase-1 response moves the proposer. The round is located by its
/// ballot; a response for no live phase-1 round, or from an acceptor already
/// counted, is dropped. A rejection raises the proposer's ballot floor and
/// the round's highest observed rejection; a majority of rejections fails
/// the round with that ballot. An `ok` may raise the best accepted value;
/// a majority of `ok`s chooses the proposed value and either fails a
/// compare-and-swap round at once or enters phase 2 against the current
/// accept set with fresh tallies.
pub open spec fn propose_res_step(
    pre: ProposerV,
    from: Seq<char>,
    req_ballot: Ballot,
    lab: Ballot,
    lav: Option<Seq<u8>>,
    res: Result<(), ErrorV>,
    post: ProposerV,
    out: Seq<(Seq<char>, RpcV)>,
) -> bool {
    let j = find_ballot(pre.rounds, req_ballot);
    if j == -1 {
        post == pre && out.len() == 0
    } else {
        let round = pre.rounds[j];
        match round.phase {
            PhaseV::Two(_) => post == pre && out.len() == 0,
            PhaseV::One(t) => if t.oks.contains(from) || t.rejects.contains(from) {
                post == pre && out.len() == 0
            } else {
                match res {
                    Err(e) => {
                        let last = rejection_ballot(e);
                        let counter2 = if last.0 > pre.counter {
                            last.0
                        } else {
                            pre.counter
                        };
                        let hr = max_ballot(t.highest_reject, last);
                        let rejects2 = t.rejects.push(from);
                        if rejects2.len() >= majority(t.acceptors.len()) {
                            &&& post == (ProposerV {
                                counter: counter2,
                                rounds: pre.rounds.remove(j),
                                ..pre
                            })
                            &&& out == seq![
                                (
                                    round.client,
                                    RpcV::ClientResponse(
                                        round.id,
                                        Err(ErrorV::ProposalRejected { last: hr }),
                                    ),
                                ),
                            ]
                        } else {
                            let round2 = RoundV {
                                phase: PhaseV::One(
                                    Phase1V { rejects: rejects2, highest_reject: hr, ..t },
                                ),
                                ..round
                            };
                            &&& post == (ProposerV {
                                counter: counter2,
                                rounds: pre.rounds.update(j, round2),
                                ..pre
                            })
                            &&& out.len() == 0
                        }
                    },
                    Ok(_) => {
                        let better = lab.0 > t.best_ballot.0;
                        let bb = if better {
                            lab
                        } else {
                            t.best_ballot
                        };
                        let bv = if better {
                            lav
                        } else {
                            t.best_value
                        };
                        let oks2 = t.oks.push(from);
                        if oks2.len() >= majority(t.acceptors.len()) {
                            match chosen_value(round.req, bv) {
                                Err(observed) => {
                                    &&& post == (ProposerV {
                                        rounds: pre.rounds.remove(j),
                                        ..pre
                                    })
                                    &&& out == seq![
                                        (
                                            round.client,
                                            RpcV::ClientResponse(
                                                round.id,
                                                Err(ErrorV::CasFailed(observed)),
                                            ),
                                        ),
                                    ]
                                },
                                Ok(proposed) => {
                                    let round2 = RoundV {
                                        phase: PhaseV::Two(
                                            Phase2V {
                                                acceptors: pre.accept_acceptors,
                                                oks: Seq::empty(),
                                                rejects: Seq::empty(),
                                                highest_reject: Ballot(0),
                                                proposed,
                                            },
                                        ),
                                        ..round
                                    };
                                    &&& post == (ProposerV {
                                        rounds: pre.rounds.update(j, round2),
                                        ..pre
                                    })
                                    &&& out == accept_fanout(
                                        pre.accept_acceptors,
                                        round.ballot,
                                        round.req.key(),
                                        proposed,
                                    )
                                },
                            }
                        } else {
                            let round2 = RoundV {
                                phase: PhaseV::One(
                                    Phase1V { oks: oks2, best_ballot: bb, best_value: bv, ..t },
                                ),
                                ..round
                            };
                            &&& post == (ProposerV { rounds: pre.rounds.update(j, round2), ..pre })
                            &&& out.len() == 0
                        }
                    },
                }
            },
        }
    }
}

/// How a phase-2 response moves the proposer: located by ballot, deduped,
/// rejections as in phase 1 but failing with an accept rejection; a majority
/// of `ok`s answers the client with the value the round proposed and retires
/// the round.
pub open spec fn accept_res_step(
    pre: ProposerV,
    from: Seq<char>,
    ballot: Ballot,
    res: Result<(), ErrorV>,
    post: ProposerV,
    out: Seq<(Seq<char>, RpcV)>,
) -> bool {
    let j = find_ballot(pre.rounds, ballot);
    if j == -1 {
        post == pre && out.len() == 0
    } else {
        let round = pre.rounds[j];
        match round.phase {
            PhaseV::One(_) => post == pre && out.len() == 0,
            PhaseV::Two(t) => if t.oks.contains(from) || t.rejects.contains(from) {
                post == pre && out.len() == 0
            } else {
                match res {
                    Err(e) => {
                        let last = rejection_ballot(e);
                        let counter2 = if last.0 > pre.counter {
                            last.0
                        } else {
                            pre.counter
                        };
                        let hr = max_ballot(t.highest_reject, last);
                        let rejects2 = t.rejects.push(from);
                        if rejects2.len() >= majority(t.acceptors.len()) {
                            &&& post == (ProposerV {
                                counter: counter2,
                                rounds: pre.rounds.remove(j),
                                ..pre
                            })
                            &&& out == seq![
                                (
                                    round.client,
                                    RpcV::ClientResponse(
                                        round.id,
                                        Err(ErrorV::AcceptRejected { last: hr }),
                                    ),
                                ),
                            ]
                        } else {
                            let round2 = RoundV {
                                phase: PhaseV::Two(
                                    Phase2V { rejects: rejects2, highest_reject: hr, ..t },
                                ),
                                ..round
                            };
                            &&& post == (ProposerV {
                                counter: counter2,
                                rounds: pre.rounds.update(j, round2),
                                ..pre
                            })
                            &&& out.len() == 0
                        }
                    },
                    Ok(_) => {
                        let oks2 = t.oks.push(from);
                        if oks2.len() >= majority(t.acceptors.len()) {
                            &&& post == (ProposerV { rounds: pre.rounds.remove(j), ..pre })
                            &&& out == seq![
                                (
                                    round.client,
                                    RpcV::ClientResponse(round.id, Ok(t.proposed)),
                                ),
                            ]
                        } else {
                            let round2 = RoundV {
                                phase: PhaseV::Two(Phase2V { oks: oks2, ..t }),
                                ..round
                            };
                            &&& post == (ProposerV { rounds: pre.rounds.update(j, round2), ..pre })
                            &&& out.len() == 0
                        }
                    },
                }
            },
        }
    }
}

/// How one inbound message moves a proposer that has already run its
/// deadline scan.
pub open spec fn step_post(
    mid: ProposerV,
    now: u64,
    from: Seq<char>,
    msg: RpcV,
    post: ProposerV,
    out: Seq<(Seq<char>, RpcV)>,
) -> bool {
    match msg {
        RpcV::ClientRequest(id, req) => client_request_step(mid, now, from, id, req, post, out),
        RpcV::ProposeRes { req_ballot, last_accepted_ballot, last_accepted_value, res } => (
            propose_res_step(
                mid,
                from,
                req_ballot,
                last_accepted_ballot,
                last_accepted_value,
                res,
                post,
                out,
            )
        ),
        RpcV::AcceptRes(b, res) => accept_res_step(mid, from, b, res, post, out),
        RpcV::SetProposeAcceptors(v) => post == (ProposerV { propose_acceptors: v, ..mid })
            && out.len() == 0,
        RpcV::SetAcceptAcceptors(v) => post == (ProposerV { accept_acceptors: v, ..mid })
            && out.len() == 0,
        _ => post == mid && out.len() == 0,
    }
}

/// One full reactor step: the deadline scan runs first and emits its timeout
/// responses, then the message is handled against the surviving rounds.
pub open spec fn receive_step(
    pre: ProposerV,
    now: u64,
    from: Seq<char>,
    msg: RpcV,
    post: ProposerV,
    out: Seq<(Seq<char>, RpcV)>,
) -> bool {
    let mid = after_expiry(pre, now);
    let tmsgs = timeout_msgs(pre.rounds, now);
    &&& tmsgs.len() <= out.len()
    &&& out.take(tmsgs.len() as int) == tmsgs
    &&& step_post(mid, now, from, msg, post, out.skip(tmsgs.len() as int))
}

proof fn lemma_find_ballot_props(s: Seq<RoundV>, b: Ballot)
    ensures
        find_ballot(s, b) == -1 ==> forall|i: int| 0 <= i < s.len() ==> s[i].ballot != b,
        find_ballot(s, b) != -1 ==> 0 <= find_ballot(s, b) < s.len() && s[find_ballot(s, b)].ballot
            == b,
        find_ballot(s, b) != -1 ==> forall|i: int| 0 <= i < find_ballot(s, b) ==> s[i].ballot != b,
    decreases s.len(),
{
    if s.len() == 0 {
    } else if s[0].ballot == b {
    } else {
        lemma_find_ballot_props(s.drop_first(), b);
        assert forall|i: int| 1 <= i < s.len() implies s.drop_first()[i - 1] == s[i] by {}
    }
}

proof fn lemma_view_push(s: Seq<Round>, r: Round)
    ensures
        rounds_view(s.push(r)) =~= rounds_view(s).push(r@),
{
}

proof fn lemma_view_remove(s: Seq<Round>, j: int)
    requires
        0 <= j < s.len(),
    ensures
        rounds_view(s.remove(j)) =~= rounds_view(s).remove(j),
{
    assert forall|i: int| 0 <= i < s.len() - 1 implies rounds_view(s.remove(j))[i] == rounds_view(
        s,
    ).remove(j)[i] by {
        if i < j {
            assert(s.remove(j)[i] == s[i]);
        } else {
            assert(s.remove(j)[i] == s[i + 1]);
        }
    }
}

proof fn lemma_view_replace(s: Seq<Round>, j: int, r2: Round)
    requires
        0 <= j < s.len(),
    ensures
        rounds_view(s.remove(j).insert(j, r2)) =~= rounds_view(s).update(j, r2@),
{
    let s2 = s.remove(j).insert(j, r2);
    assert forall|i: int| 0 <= i < s.len() implies rounds_view(s2)[i] == rounds_view(s).update(
        j,
        r2@,
    )[i] by {
        if i < j {
            assert(s2[i] == s.remove(j)[i]);
            assert(s.remove(j)[i] == s[i]);
        } else if i == j {
            assert(s2[i] == r2);
        } else {
            assert(s2[i] == s.remove(j)[i - 1]);
            assert(s.remove(j)[i - 1] == s[i]);
        }
    }
}

/// Membership of a peer in a peer list.
fn contains_peer(v: &Vec<String>, x: &String) -> (r: bool)
    ensures
        r == peers_view(v@).contains(x@),
{
    let mut i: usize = 0;
    while i < v.len()
        invariant
            i <= v.len(),
            forall|j: int| 0 <= j < i ==> peers_view(v@)[j] != x@,
        decreases v.len() - i,
    {
        if v[i].eq(x) {
            proof {
                assert(peers_view(v@)[i as int] == x@);
            }
            return true;
        }
        i += 1;
    }
    false
}

/// An exact copy of a peer list.
fn clone_peers(v: &Vec<String>) -> (r: Vec<String>)
    ensures
        r@ == v@,
{
    let mut r: Vec<String> = Vec::new();
    let mut i: usize = 0;
    while i < v.len()
        invariant
            i <= v.len(),
            r@ == v@.take(i as int),
        decreases v.len() - i,
    {
        r.push(v[i].clone());
        proof {
            assert(r@ =~= v@.take(i + 1));
        }
        i += 1;
    }
    proof {
        assert(v@.take(v@.len() as int) =~= v@);
    }
    r
}

/// One prepare message per member of `peers`.
fn fanout_prepare(peers: &Vec<String>, b: Ballot, k: &Vec<u8>) -> (out: Vec<(String, Rpc)>)
    ensures
        msgs_view(out@) == prepare_fanout(peers_view(peers@), b, k@),
{
    let mut out: Vec<(String, Rpc)> = Vec::new();
    let mut i: usize = 0;
    while i < peers.len()
        invariant
            i <= peers.len(),
            msgs_view(out@) == prepare_fanout(peers_view(peers@), b, k@).take(i as int),
        decreases peers.len() - i,
    {
        let ghost ov = out@;
        let p = peers[i].clone();
        let kk = k.clone();
        let ghost pv = p@;
        let ghost kv = kk@;
        out.push((p, Rpc::ProposeReq(b, kk)));
        proof {
            let whole = prepare_fanout(peers_view(peers@), b, k@);
            assert(kv =~= k@);
            assert(msgs_view(ov).len() == i as int);
            assert(ov.len() == i as int);
            assert forall|j: int| 0 <= j < i + 1 implies msgs_view(out@)[j] == whole.take(
                i + 1,
            )[j] by {
                if j < i {
                    assert(out@[j] == ov[j]);
                } else {
                    assert(out@[j].0@ == pv);
                }
            }
            assert(msgs_view(out@) =~= whole.take(i + 1));
        }
        i += 1;
    }
    proof {
        let whole = prepare_fanout(peers_view(peers@), b, k@);
        assert(whole.take(whole.len() as int) =~= whole);
    }
    out
}

/// One accept message per member of `peers`.
fn fanout_accept(peers: &Vec<String>, b: Ballot, k: &Vec<u8>, v: &Option<Vec<u8>>) -> (out: Vec<
    (String, Rpc),
>)
    ensures
        msgs_view(out@) == accept_fanout(peers_view(peers@), b, k@, opt_bytes_view(v)),
{
    let mut out: Vec<(String, Rpc)> = Vec::new();
    let mut i: usize = 0;
    while i < peers.len()
        invariant
            i <= peers.len(),
            msgs_view(out@) == accept_fanout(peers_view(peers@), b, k@, opt_bytes_view(v)).take(
                i as int,
            ),
        decreases peers.len() - i,
    {
        let ghost ov = out@;
        let p = peers[i].clone();
        let kk = k.clone();
        let vv = clone_opt_bytes(v);
        let ghost pv = p@;
        let ghost kv = kk@;
        let ghost vvv = opt_bytes_view(&vv);
        out.push((p, Rpc::AcceptReq(b, kk, vv)));
        proof {
            let whole = accept_fanout(peers_view(peers@), b, k@, opt_bytes_view(v));
            assert(kv =~= k@);
            assert(msgs_view(ov).len() == i as int);
            assert(ov.len() == i as int);
            assert forall|j: int| 0 <= j < i + 1 implies msgs_view(out@)[j] == whole.take(
                i + 1,
            )[j] by {
                if j < i {
                    assert(out@[j] == ov[j]);
                } else {
                    assert(out@[j].0@ == pv);
                }
            }
            assert(msgs_view(out@) =~= whole.take(i + 1));
        }
        i += 1;
    }
    proof {
        let whole = accept_fanout(peers_view(peers@), b, k@, opt_bytes_view(v));
        assert(whole.take(whole.len() as int) =~= whole);
    }
    out
}

/// The ballot a rejection reports; the zero ballot for any other error.
fn rejection_ballot_of(e: &Error) -> (r: Ballot)
    ensures
        r == rejection_ballot(e@),
{
    match e {
        Error::ProposalRejected { last } => *last,
        Error::AcceptRejected { last } => *last,
        _ => Ballot(0),
    }
}

impl Proposer {
    /// A proposer that consults `acceptors` in both phases, with the given
    /// per-round timeout.
    pub fn new(acceptors: Vec<String>, timeout: u64) -> (r: Proposer)
        ensures
            r@.counter == 0,
            r@.propose_acceptors == peers_view(acceptors@),
            r@.accept_acceptors == peers_view(acceptors@),
            r@.rounds.len() == 0,
            r@.timeout == timeout,
    {
        let both = clone_peers(&acceptors);
        Proposer {
            counter: 0,
            propose_acceptors: acceptors,
            accept_acceptors: both,
            rounds: Vec::new(),
            timeout,
        }
    }

    /// Whether some in-flight round answers to correlation id `id`.
    fn knows_id(&self, id: u64) -> (r: bool)
        ensures
            r == has_round_id(self@.rounds, id),
    {
        let mut i: usize = 0;
        while i < self.rounds.len()
            invariant
                i <= self.rounds.len(),
                forall|j: int| 0 <= j < i ==> self@.rounds[j].id != id,
        decreases self.rounds.len() - i,
        {
            if self.rounds[i].id == id {
                proof {
                    assert(self@.rounds[i as int].id == id);
                }
                return true;
            }
            i += 1;
        }
        false
    }

    /// First in-flight round running at ballot `b`.
    fn find_round(&self, b: Ballot) -> (r: Option<usize>)
        ensures
            r matches Some(i) ==> i == find_ballot(self@.rounds, b) && i < self.rounds@.len(),
            r is None ==> find_ballot(self@.rounds, b) == -1,
    {
        proof {
            lemma_find_ballot_props(self@.rounds, b);
        }
        let mut i: usize = 0;
        while i < self.rounds.len()
            invariant
                i <= self.rounds.len(),
                forall|j: int| 0 <= j < i ==> self@.rounds[j].ballot != b,
        decreases self.rounds.len() - i,
        {
            if self.rounds[i].ballot.0 == b.0 {
                proof {
                    lemma_find_ballot_props(self@.rounds, b);
                    assert(self@.rounds[i as int].ballot == b);
                }
                return Some(i);
            }
            i += 1;
        }
        proof {
            lemma_find_ballot_props(self@.rounds, b);
        }
        None
    }

    /// The deadline scan: every round whose deadline lies before `now` is
    /// retired with a timeout response to its client; the others survive in
    /// order.
    pub fn expire_rounds(&mut self, now: u64) -> (out: Vec<(String, Rpc)>)
        ensures
            final(self)@ == after_expiry(old(self)@, now),
            msgs_view(out@) == timeout_msgs(old(self)@.rounds, now),
    {
        let ghost orig = old(self)@.rounds;
        let mut kept: Vec<Round> = Vec::new();
        let mut out: Vec<(String, Rpc)> = Vec::new();
        let ghost mut done: Seq<RoundV> = Seq::empty();
        proof {
            assert(done + rounds_view(self.rounds@) =~= orig);
        }
        while self.rounds.len() > 0
            invariant
                done + rounds_view(self.rounds@) == orig,
                rounds_view(kept@) == live_rounds(done, now),
                msgs_view(out@) == timeout_msgs(done, now),
                self.counter == old(self).counter,
                self.propose_acceptors == old(self).propose_acceptors,
                self.accept_acceptors == old(self).accept_acceptors,
                self.timeout == old(self).timeout,
            decreases self.rounds.len(),
        {
            let ghost sr = self.rounds@;
            let r = self.rounds.remove(0);
            let ghost rv = r@;
            proof {
                lemma_view_remove(sr, 0);
                assert(rv == rounds_view(sr)[0]);
                let done2 = done.push(rv);
                assert(done2 + rounds_view(sr).remove(0) =~= done + rounds_view(sr));
                assert(done2.drop_last() =~= done);
                done = done2;
            }
            if r.deadline < now {
                out.push((r.client, Rpc::ClientResponse(r.id, Err(Error::Timeout))));
                proof {
                    assert(round_expired(rv, now));
                    assert(msgs_view(out@) =~= timeout_msgs(done.drop_last(), now).push(
                        (rv.client, RpcV::ClientResponse(rv.id, Err(ErrorV::Timeout))),
                    ));
                }
            } else {
                let ghost kv = kept@;
                kept.push(r);
                proof {
                    lemma_view_push(kv, r);
                }
            }
        }
        proof {
            assert(done =~= orig);
        }
        self.rounds = kept;
        proof {
            assert(self@ =~= after_expiry(old(self)@, now));
        }
        out
    }

    /// Replace the acceptor set consulted by newly entering phase-1 rounds;
    /// in-flight rounds keep the set they started with.
    pub fn set_propose_acceptors(&mut self, v: Vec<String>) -> (out: Vec<(String, Rpc)>)
        ensures
            final(self)@ == (ProposerV { propose_acceptors: peers_view(v@), ..old(self)@ }),
            out@.len() == 0,
    {
        self.propose_acceptors = v;
        proof {
            assert(self@ =~= (ProposerV {
                propose_acceptors: peers_view(self.propose_acceptors@),
                ..old(self)@
            }));
        }
        Vec::new()
    }

    /// Replace the acceptor set consulted by rounds newly entering phase 2.
    pub fn set_accept_acceptors(&mut self, v: Vec<String>) -> (out: Vec<(String, Rpc)>)
        ensures
            final(self)@ == (ProposerV { accept_acceptors: peers_view(v@), ..old(self)@ }),
            out@.len() == 0,
    {
        self.accept_acceptors = v;
        proof {
            assert(self@ =~= (ProposerV {
                accept_acceptors: peers_view(self.accept_acceptors@),
                ..old(self)@
            }));
        }
        Vec::new()
    }

    /// Handle one client request, as `client_request_step` states.
    pub fn handle_client_request(&mut self, now: u64, from: String, id: u64, req: Req) -> (out:
        Vec<(String, Rpc)>)
        ensures
            client_request_step(old(self)@, now, from@, id, req@, final(self)@, msgs_view(out@)),
    {
        let ghost pre = old(self)@;
        if self.knows_id(id) || self.counter == u64::MAX {
            return Vec::new();
        }
        let ballot = Ballot(self.counter + 1);
        self.counter = self.counter + 1;
        let key = req.key();
        let out = fanout_prepare(&self.propose_acceptors, ballot, &key);
        let acceptors = clone_peers(&self.propose_acceptors);
        let deadline = now.saturating_add(self.timeout);
        let tally = Phase1Tally {
            acceptors,
            oks: Vec::new(),
            rejects: Vec::new(),
            highest_reject: Ballot(0),
            best_ballot: Ballot(0),
            best_value: None,
        };
        let ghost reqv = req@;
        let ghost fromv = from@;
        let round = Round { client: from, id, req, ballot, deadline, phase: Phase::One(tally) };
        let ghost rv = round@;
        let ghost pre_exec = self.rounds@;
        proof {
            lemma_view_push(pre_exec, round);
        }
        self.rounds.push(round);
        proof {
            assert(rv.phase == PhaseV::One(fresh_phase1(pre.propose_acceptors))) by {
                assert(rv.phase matches PhaseV::One(t) && t =~= fresh_phase1(
                    pre.propose_acceptors,
                ));
            }
            assert(rv == (RoundV {
                client: fromv,
                id,
                req: reqv,
                ballot,
                deadline: sat_add64(now, pre.timeout),
                phase: PhaseV::One(fresh_phase1(pre.propose_acceptors)),
            }));
            assert(self@ =~= (ProposerV {
                counter: ballot.0,
                rounds: pre.rounds.push(rv),
                ..pre
            }));
        }
        out
    }

    /// Handle one phase-1 response, as `propose_res_step` states.
    pub fn handle_propose_res(
        &mut self,
        from: String,
        req_ballot: Ballot,
        last_accepted_ballot: Ballot,
        last_accepted_value: Option<Vec<u8>>,
        res: Result<(), Error>,
    ) -> (out: Vec<(String, Rpc)>)
        ensures
            propose_res_step(
                old(self)@,
                from@,
                req_ballot,
                last_accepted_ballot,
                opt_bytes_view(&last_accepted_value),
                unit_result_view(&res),
                final(self)@,
                msgs_view(out@),
            ),
    {
        let ghost pre = old(self)@;
        let found = self.find_round(req_ballot);
        match found {
            None => Vec::new(),
            Some(j) => {
                let ghost pre_exec = self.rounds@;
                let ghost jj = j as int;
                let r = self.rounds.remove(j);
                let ghost rv = r@;
                proof {
                    lemma_view_remove(pre_exec, jj);
                    assert(rv == pre.rounds[jj]);
                }
                let Round { client, id, req, ballot, deadline, phase } = r;
                match phase {
                    Phase::Two(t) => {
                        let r2 = Round { client, id, req, ballot, deadline, phase: Phase::Two(t) };
                        proof {
                            assert(r2@ == rv);
                            lemma_view_replace(pre_exec, jj, r2);
                        }
                        self.rounds.insert(j, r2);
                        proof {
                            assert(pre.rounds.update(jj, rv) =~= pre.rounds);
                            assert(self@ =~= pre);
                        }
                        Vec::new()
                    },
                    Phase::One(t) => {
                        let ghost tv = t@;
                        let counted = contains_peer(&t.oks, &from) || contains_peer(
                            &t.rejects,
                            &from,
                        );
                        if counted {
                            let r2 = Round {
                                client,
                                id,
                                req,
                                ballot,
                                deadline,
                                phase: Phase::One(t),
                            };
                            proof {
                                assert(r2@ == rv);
                                lemma_view_replace(pre_exec, jj, r2);
                            }
                            self.rounds.insert(j, r2);
                            proof {
                                assert(pre.rounds.update(jj, rv) =~= pre.rounds);
                                assert(self@ =~= pre);
                            }
                            Vec::new()
                        } else {
                            match res {
                                Err(e) => {
                                    let last = rejection_ballot_of(&e);
                                    if self.counter < last.0 {
                                        self.counter = last.0;
                                    }
                                    let hr = if t.highest_reject.0 < last.0 {
                                        last
                                    } else {
                                        t.highest_reject
                                    };
                                    let Phase1Tally {
                                        acceptors,
                                        oks,
                                        rejects,
                                        highest_reject,
                                        best_ballot,
                                        best_value,
                                    } = t;
                                    let _ = highest_reject;
                                    let mut rejects2 = rejects;
                                    let ghost rejv = peers_view(rejects2@);
                                    let ghost fromv = from@;
                                    rejects2.push(from);
                                    proof {
                                        assert(peers_view(rejects2@) =~= rejv.push(fromv));
                                    }
                                    if rejects2.len() >= quorum_size(acceptors.len()) {
                                        let mut out: Vec<(String, Rpc)> = Vec::new();
                                        out.push(
                                            (
                                                client,
                                                Rpc::ClientResponse(
                                                    id,
                                                    Err(Error::ProposalRejected { last: hr }),
                                                ),
                                            ),
                                        );
                                        proof {
                                            assert(msgs_view(out@) =~= seq![
                                                (
                                                    rv.client,
                                                    RpcV::ClientResponse(
                                                        rv.id,
                                                        Err(
                                                            ErrorV::ProposalRejected {
                                                                last: hr,
                                                            },
                                                        ),
                                                    ),
                                                ),
                                            ]);
                                            assert(self@ =~= (ProposerV {
                                                counter: self.counter,
                                                rounds: pre.rounds.remove(jj),
                                                ..pre
                                            }));
                                        }
                                        out
                                    } else {
                                        let t2 = Phase1Tally {
                                            acceptors,
                                            oks,
                                            rejects: rejects2,
                                            highest_reject: hr,
                                            best_ballot,
                                            best_value,
                                        };
                                        let r2 = Round {
                                            client,
                                            id,
                                            req,
                                            ballot,
                                            deadline,
                                            phase: Phase::One(t2),
                                        };
                                        proof {
                                            assert(r2@ =~= (RoundV {
                                                phase: PhaseV::One(
                                                    Phase1V {
                                                        rejects: tv.rejects.push(fromv),
                                                        highest_reject: hr,
                                                        ..tv
                                                    },
                                                ),
                                                ..rv
                                            }));
                                            lemma_view_replace(pre_exec, jj, r2);
                                        }
                                        self.rounds.insert(j, r2);
                                        proof {
                                            assert(self@ =~= (ProposerV {
                                                counter: self.counter,
                                                rounds: pre.rounds.update(jj, self@.rounds[jj]),
                                                ..pre
                                            }));
                                        }
                                        Vec::new()
                                    }
                                },
                                Ok(_) => {
                                    let better = t.best_ballot.lt(last_accepted_ballot);
                                    let Phase1Tally {
                                        acceptors,
                                        oks,
                                        rejects,
                                        highest_reject,
                                        best_ballot,
                                        best_value,
                                    } = t;
                                    let bb = if better {
                                        last_accepted_ballot
                                    } else {
                                        best_ballot
                                    };
                                    let bv = if better {
                                        last_accepted_value
                                    } else {
                                        best_value
                                    };
                                    let ghost bvv = opt_bytes_view(&bv);
                                    let mut oks2 = oks;
                                    let ghost okv = peers_view(oks2@);
                                    let ghost fromv = from@;
                                    oks2.push(from);
                                    proof {
                                        assert(peers_view(oks2@) =~= okv.push(fromv));
                                    }
                                    if oks2.len() >= quorum_size(acceptors.len()) {
                                        let decision: Result<Option<Vec<u8>>, Option<Vec<u8>>> =
                                            match &req {
                                            Req::Get(_) => Ok(bv),
                                            Req::Put(_, v) => Ok(Some(v.clone())),
                                            Req::Del(_) => Ok(None),
                                            Req::Cas(_, expected, newv) => {
                                                if opt_bytes_eq(&bv, expected) {
                                                    Ok(clone_opt_bytes(newv))
                                                } else {
                                                    Err(bv)
                                                }
                                            },
                                        };
                                        match decision {
                                            Err(observed) => {
                                                let ghost obs = opt_bytes_view(&observed);
                                                proof {
                                                    assert(chosen_value(rv.req, bvv) == Err::<
                                                        Option<Seq<u8>>,
                                                        Option<Seq<u8>>,
                                                    >(obs));
                                                }
                                                let mut out: Vec<(String, Rpc)> = Vec::new();
                                                out.push(
                                                    (
                                                        client,
                                                        Rpc::ClientResponse(
                                                            id,
                                                            Err(Error::CasFailed(observed)),
                                                        ),
                                                    ),
                                                );
                                                proof {
                                                    assert(msgs_view(out@) =~= seq![
                                                        (
                                                            rv.client,
                                                            RpcV::ClientResponse(
                                                                rv.id,
                                                                Err(ErrorV::CasFailed(obs)),
                                                            ),
                                                        ),
                                                    ]);
                                                    assert(self@ =~= (ProposerV {
                                                        rounds: pre.rounds.remove(jj),
                                                        ..pre
                                                    }));
                                                }
                                                out
                                            },
                                            Ok(proposed) => {
                                                let ghost prv = opt_bytes_view(&proposed);
                                                proof {
                                                    assert(chosen_value(rv.req, bvv) == Ok::<
                                                        Option<Seq<u8>>,
                                                        Option<Seq<u8>>,
                                                    >(prv));
                                                }
                                                let key = req.key();
                                                let out = fanout_accept(
                                                    &self.accept_acceptors,
                                                    ballot,
                                                    &key,
                                                    &proposed,
                                                );
                                                let t2 = Phase2Tally {
                                                    acceptors: clone_peers(&self.accept_acceptors),
                                                    oks: Vec::new(),
                                                    rejects: Vec::new(),
                                                    highest_reject: Ballot(0),
                                                    proposed,
                                                };
                                                let r2 = Round {
                                                    client,
                                                    id,
                                                    req,
                                                    ballot,
                                                    deadline,
                                                    phase: Phase::Two(t2),
                                                };
                                                proof {
                                                    assert(r2@ =~= (RoundV {
                                                        phase: PhaseV::Two(
                                                            Phase2V {
                                                                acceptors: pre.accept_acceptors,
                                                                oks: Seq::empty(),
                                                                rejects: Seq::empty(),
                                                                highest_reject: Ballot(0),
                                                                proposed: prv,
                                                            },
                                                        ),
                                                        ..rv
                                                    }));
                                                    lemma_view_replace(pre_exec, jj, r2);
                                                }
                                                self.rounds.insert(j, r2);
                                                proof {
                                                    assert(self@ =~= (ProposerV {
                                                        rounds: pre.rounds.update(
                                                            jj,
                                                            self@.rounds[jj],
                                                        ),
                                                        ..pre
                                                    }));
                                                }
                                                out
                                            },
                                        }
                                    } else {
                                        let t2 = Phase1Tally {
                                            acceptors,
                                            oks: oks2,
                                            rejects,
                                            highest_reject,
                                            best_ballot: bb,
                                            best_value: bv,
                                        };
                                        let r2 = Round {
                                            client,
                                            id,
                                            req,
                                            ballot,
                                            deadline,
                                            phase: Phase::One(t2),
                                        };
                                        proof {
                                            assert(r2@ =~= (RoundV {
                                                phase: PhaseV::One(
                                                    Phase1V {
                                                        oks: tv.oks.push(fromv),
                                                        best_ballot: bb,
                                                        best_value: bvv,
                                                        ..tv
                                                    },
                                                ),
                                                ..rv
                                            }));
                                            lemma_view_replace(pre_exec, jj, r2);
                                        }
                                        self.rounds.insert(j, r2);
                                        proof {
                                            assert(self@ =~= (ProposerV {
                                                rounds: pre.rounds.update(jj, self@.rounds[jj]),
                                                ..pre
                                            }));
                                        }
                                        Vec::new()
                                    }
                                },
                            }
                        }
                    },
                }
            },
        }
    }

    /// Handle one phase-2 response, as `accept_res_step` states.
    pub fn handle_accept_res(&mut self, from: String, ballot_in: Ballot, res: Result<(), Error>)
        -> (out: Vec<(String, Rpc)>)
        ensures
            accept_res_step(
                old(self)@,
                from@,
                ballot_in,
                unit_result_view(&res),
                final(self)@,
                msgs_view(out@),
            ),
    {
        let ghost pre = old(self)@;
        let found = self.find_round(ballot_in);
        match found {
            None => Vec::new(),
            Some(j) => {
                let ghost pre_exec = self.rounds@;
                let ghost jj = j as int;
                let r = self.rounds.remove(j);
                let ghost rv = r@;
                proof {
                    lemma_view_remove(pre_exec, jj);
                    assert(rv == pre.rounds[jj]);
                }
                let Round { client, id, req, ballot, deadline, phase } = r;
                match phase {
                    Phase::One(t) => {
                        let r2 = Round { client, id, req, ballot, deadline, phase: Phase::One(t) };
                        proof {
                            assert(r2@ == rv);
                            lemma_view_replace(pre_exec, jj, r2);
                        }
                        self.rounds.insert(j, r2);
                        proof {
                            assert(pre.rounds.update(jj, rv) =~= pre.rounds);
                            assert(self@ =~= pre);
                        }
                        Vec::new()
                    },
                    Phase::Two(t) => {
                        let ghost tv = t@;
                        let counted = contains_peer(&t.oks, &from) || contains_peer(
                            &t.rejects,
                            &from,
                        );
                        if counted {
                            let r2 = Round {
                                client,
                                id,
                                req,
                                ballot,
                                deadline,
                                phase: Phase::Two(t),
                            };
                            proof {
                                assert(r2@ == rv);
                                lemma_view_replace(pre_exec, jj, r2);
                            }
                            self.rounds.insert(j, r2);
                            proof {
                                assert(pre.rounds.update(jj, rv) =~= pre.rounds);
                                assert(self@ =~= pre);
                            }
                            Vec::new()
                        } else {
                            match res {
                                Err(e) => {
                                    let last = rejection_ballot_of(&e);
                                    if self.counter < last.0 {
                                        self.counter = last.0;
                                    }
                                    let hr = if t.highest_reject.0 < last.0 {
                                        last
                                    } else {
                                        t.highest_reject
                                    };
                                    let Phase2Tally {
                                        acceptors,
                                        oks,
                                        rejects,
                                        highest_reject,
                                        proposed,
                                    } = t;
                                    let _ = highest_reject;
                                    let mut rejects2 = rejects;
                                    let ghost rejv = peers_view(rejects2@);
                                    let ghost fromv = from@;
                                    rejects2.push(from);
                                    proof {
                                        assert(peers_view(rejects2@) =~= rejv.push(fromv));
                                    }
                                    if rejects2.len() >= quorum_size(acceptors.len()) {
                                        let mut out: Vec<(String, Rpc)> = Vec::new();
                                        out.push(
                                            (
                                                client,
                                                Rpc::ClientResponse(
                                                    id,
                                                    Err(Error::AcceptRejected { last: hr }),
                                                ),
                                            ),
                                        );
                                        proof {
                                            assert(msgs_view(out@) =~= seq![
                                                (
                                                    rv.client,
                                                    RpcV::ClientResponse(
                                                        rv.id,
                                                        Err(ErrorV::AcceptRejected { last: hr }),
                                                    ),
                                                ),
                                            ]);
                                            assert(self@ =~= (ProposerV {
                                                counter: self.counter,
                                                rounds: pre.rounds.remove(jj),
                                                ..pre
                                            }));
                                        }
                                        out
                                    } else {
                                        let t2 = Phase2Tally {
                                            acceptors,
                                            oks,
                                            rejects: rejects2,
                                            highest_reject: hr,
                                            proposed,
                                        };
                                        let r2 = Round {
                                            client,
                                            id,
                                            req,
                                            ballot,
                                            deadline,
                                            phase: Phase::Two(t2),
                                        };
                                        proof {
                                            assert(r2@ =~= (RoundV {
                                                phase: PhaseV::Two(
                                                    Phase2V {
                                                        rejects: tv.rejects.push(fromv),
                                                        highest_reject: hr,
                                                        ..tv
                                                    },
                                                ),
                                                ..rv
                                            }));
                                            lemma_view_replace(pre_exec, jj, r2);
                                        }
                                        self.rounds.insert(j, r2);
                                        proof {
                                            assert(self@ =~= (ProposerV {
                                                counter: self.counter,
                                                rounds: pre.rounds.update(jj, self@.rounds[jj]),
                                                ..pre
                                            }));
                                        }
                                        Vec::new()
                                    }
                                },
                                Ok(_) => {
                                    let Phase2Tally {
                                        acceptors,
                                        oks,
                                        rejects,
                                        highest_reject,
                                        proposed,
                                    } = t;
                                    let mut oks2 = oks;
                                    let ghost okv = peers_view(oks2@);
                                    let ghost fromv = from@;
                                    oks2.push(from);
                                    proof {
                                        assert(peers_view(oks2@) =~= okv.push(fromv));
                                    }
                                    if oks2.len() >= quorum_size(acceptors.len()) {
                                        let ghost prv = opt_bytes_view(&proposed);
                                        let mut out: Vec<(String, Rpc)> = Vec::new();
                                        out.push(
                                            (client, Rpc::ClientResponse(id, Ok(proposed))),
                                        );
                                        proof {
                                            assert(msgs_view(out@) =~= seq![
                                                (
                                                    rv.client,
                                                    RpcV::ClientResponse(rv.id, Ok(prv)),
                                                ),
                                            ]);
                                            assert(self@ =~= (ProposerV {
                                                rounds: pre.rounds.remove(jj),
                                                ..pre
                                            }));
                                        }
                                        out
                                    } else {
                                        let t2 = Phase2Tally {
                                            acceptors,
                                            oks: oks2,
                                            rejects,
                                            highest_reject,
                                            proposed,
                                        };
                                        let r2 = Round {
                                            client,
                                            id,
                                            req,
                                            ballot,
                                            deadline,
                                            phase: Phase::Two(t2),
                                        };
                                        proof {
                                            assert(r2@ =~= (RoundV {
                                                phase: PhaseV::Two(
                                                    Phase2V { oks: tv.oks.push(fromv), ..tv },
                                                ),
                                                ..rv
                                            }));
                                            lemma_view_replace(pre_exec, jj, r2);
                                        }
                                        self.rounds.insert(j, r2);
                                        proof {
                                            assert(self@ =~= (ProposerV {
                                                rounds: pre.rounds.update(jj, self@.rounds[jj]),
                                                ..pre
                                            }));
                                        }
                                        Vec::new()
                                    }
                                },
                            }
                        }
                    },
                }
            },
        }
    }

    /// One full reactor step, as `receive_step` states: expire overdue
    /// rounds first, then handle the message.
    pub fn receive(&mut self, now: u64, from: String, msg: Rpc) -> (out: Vec<(String, Rpc)>)
        ensures
            receive_step(old(self)@, now, from@, msg@, final(self)@, msgs_view(out@)),
    {
        let ghost pre = old(self)@;
        let mut out = self.expire_rounds(now);
        let ghost tm = timeout_msgs(pre.rounds, now);
        let ghost mid = after_expiry(pre, now);
        let mut rest = match msg {
            Rpc::ClientRequest(id, req) => self.handle_client_request(now, from, id, req),
            Rpc::ProposeRes { req_ballot, last_accepted_ballot, last_accepted_value, res } => (
                self.handle_propose_res(
                    from,
                    req_ballot,
                    last_accepted_ballot,
                    last_accepted_value,
                    res,
                )
            ),
            Rpc::AcceptRes(b, res) => self.handle_accept_res(from, b, res),
            Rpc::SetProposeAcceptors(v) => self.set_propose_acceptors(v),
            Rpc::SetAcceptAcceptors(v) => self.set_accept_acceptors(v),
            _ => Vec::new(),
        };
        let ghost restv = msgs_view(rest@);
        out.append(&mut rest);
        proof {
            assert(msgs_view(out@) =~= tm + restv);
            assert((tm + restv).take(tm.len() as int) =~= tm);
            assert((tm + restv).skip(tm.len() as int) =~= restv);
        }
        out
    }
}

/// Idempotent retry: while a round for a correlation id is in flight,
/// re-submitting that id moves the proposer not at all beyond its deadline
/// scan, and nothing is sent beyond the scan's timeout responses — no
/// second round starts for the duplicate.
pub proof fn lemma_duplicate_request_ignored(
    pre: ProposerV,
    now: u64,
    from: Seq<char>,
    id: u64,
    req: ReqV,
    post: ProposerV,
    out: Seq<(Seq<char>, RpcV)>,
)
    requires
        receive_step(pre, now, from, RpcV::ClientRequest(id, req), post, out),
        has_round_id(live_rounds(pre.rounds, now), id),
    ensures
        post == after_expiry(pre, now),
        out == timeout_msgs(pre.rounds, now),
{
    let tm = timeout_msgs(pre.rounds, now);
    assert(out =~= tm);
}

/// The register semantics a completed phase 1 applies, operation by
/// operation: a read proposes the best accepted value unchanged, a write its
/// own value, a delete absence, and a compare-and-swap succeeds exactly when
/// the best accepted value equals its expectation, failing with that
/// observed value otherwise.
pub proof fn lemma_chosen_value_semantics(req: ReqV, best: Option<Seq<u8>>)
    ensures
        req matches ReqV::Get(_) ==> chosen_value(req, best) == Ok::<
            Option<Seq<u8>>,
            Option<Seq<u8>>,
        >(best),
        req matches ReqV::Put(k, v) ==> chosen_value(req, best) == Ok::<
            Option<Seq<u8>>,
            Option<Seq<u8>>,
        >(Some(v)),
        req matches ReqV::Del(_) ==> chosen_value(req, best) == Ok::<
            Option<Seq<u8>>,
            Option<Seq<u8>>,
        >(None),
        req matches ReqV::Cas(k, e, n) ==> (chosen_value(req, best) == Ok::<
            Option<Seq<u8>>,
            Option<Seq<u8>>,
        >(n) <==> best == e),
        req matches ReqV::Cas(k, e, n) && best != e ==> chosen_value(req, best) == Err::<
            Option<Seq<u8>>,
            Option<Seq<u8>>,
        >(best),
{
}

/// Agreement's visibility step: once a majority of the acceptor set has
/// accepted a value at ballot `b`, every phase-1 majority gathered later
/// hears from at least one of those acceptors; since an acceptor's accepted
/// ballot never decreases, that responder reports an accepted ballot at or
/// above `b`, so the round's adopted best — the maximum reported — lies at
/// or above `b` and the chosen value is carried forward.
pub proof fn lemma_phase1_sees_chosen(
    all: Set<Seq<char>>,
    accepted_by: Set<Seq<char>>,
    responders: Set<Seq<char>>,
    report: Map<Seq<char>, Ballot>,
    b: Ballot,
)
    requires
        all.finite(),
        accepted_by.finite(),
        responders.finite(),
        accepted_by.subset_of(all),
        responders.subset_of(all),
        accepted_by.len() >= majority(all.len()),
        responders.len() >= majority(all.len()),
        forall|a: Seq<char>|
            accepted_by.contains(a) && responders.contains(a) ==> (#[trigger] report[a]).0 >= b.0,
    ensures
        exists|a: Seq<char>| responders.contains(a) && (#[trigger] report[a]).0 >= b.0,
{
    crate::lemma_quorum_intersection(all, accepted_by, responders);
    let a = choose|a: Seq<char>| accepted_by.contains(a) && responders.contains(a);
    assert(responders.contains(a) && report[a].0 >= b.0);
}

/// Pairwise distinctness of the ballots and correlation ids of a round
/// list.
pub open spec fn rounds_distinct(s: Seq<RoundV>) -> bool {
    forall|i: int, j: int|
        0 <= i < s.len() && 0 <= j < s.len() && i != j ==> (#[trigger] s[i]).ballot != (
        #[trigger] s[j]).ballot && s[i].id != s[j].id
}

/// A proposer is well formed when every in-flight round runs at a nonzero
/// ballot no higher than its counter, and no two rounds share a ballot or a
/// correlation id. This is the per-proposer half of ballot discipline: one
/// proposer never has two rounds — hence never two proposed values — at one
/// ballot.
pub open spec fn proposer_wf(p: ProposerV) -> bool {
    &&& forall|i: int|
        0 <= i < p.rounds.len() ==> 1 <= (#[trigger] p.rounds[i]).ballot.0 <= p.counter
    &&& rounds_distinct(p.rounds)
}

proof fn lemma_live_rounds_wf(s: Seq<RoundV>, now: u64)
    requires
        rounds_distinct(s),
    ensures
        forall|i: int|
            0 <= i < live_rounds(s, now).len() ==> exists|k: int|
                0 <= k < s.len() && #[trigger] live_rounds(s, now)[i] == s[k],
        rounds_distinct(live_rounds(s, now)),
    decreases s.len(),
{
    let l = live_rounds(s, now);
    if s.len() == 0 {
    } else {
        let s0 = s.drop_last();
        assert(forall|i: int| 0 <= i < s0.len() ==> #[trigger] s0[i] == s[i]);
        assert(rounds_distinct(s0));
        lemma_live_rounds_wf(s0, now);
        let l0 = live_rounds(s0, now);
        if round_expired(s.last(), now) {
            assert forall|i: int| 0 <= i < l.len() implies exists|k: int|
                0 <= k < s.len() && #[trigger] l[i] == s[k] by {
                let k = choose|k: int| 0 <= k < s0.len() && l0[i] == s0[k];
                assert(l[i] == s[k]);
            }
        } else {
            assert(l == l0.push(s.last()));
            assert forall|i: int| 0 <= i < l.len() implies exists|k: int|
                0 <= k < s.len() && #[trigger] l[i] == s[k] by {
                if i < l0.len() {
                    let k = choose|k: int| 0 <= k < s0.len() && l0[i] == s0[k];
                    assert(l[i] == s[k]);
                } else {
                    assert(l[i] == s[s.len() - 1]);
                }
            }
            assert forall|i: int, j: int|
                0 <= i < l.len() && 0 <= j < l.len() && i != j implies (#[trigger] l[i]).ballot
                != (#[trigger] l[j]).ballot && l[i].id != l[j].id by {
                if i < l0.len() && j < l0.len() {
                    assert(l[i] == l0[i] && l[j] == l0[j]);
                } else if j == l0.len() {
                    let k = choose|k: int| 0 <= k < s0.len() && l0[i] == s0[k];
                    assert(l[i] == s[k] && l[j] == s[s.len() - 1]);
                } else {
                    let k = choose|k: int| 0 <= k < s0.len() && l0[j] == s0[k];
                    assert(l[j] == s[k] && l[i] == s[s.len() - 1]);
                }
            }
        }
    }
}

/// Well-formedness is an invariant of the proposer's reactor step: the
/// deadline scan only removes rounds, a fresh round takes the strictly
/// largest ballot this proposer has seen, and tally updates never touch a
/// round's ballot or id.
pub proof fn lemma_receive_preserves_wf(
    pre: ProposerV,
    now: u64,
    from: Seq<char>,
    msg: RpcV,
    post: ProposerV,
    out: Seq<(Seq<char>, RpcV)>,
)
    requires
        proposer_wf(pre),
        receive_step(pre, now, from, msg, post, out),
    ensures
        proposer_wf(post),
{
    let mid = after_expiry(pre, now);
    lemma_live_rounds_wf(pre.rounds, now);
    assert(proposer_wf(mid)) by {
        assert forall|i: int| 0 <= i < mid.rounds.len() implies 1 <= (
        #[trigger] mid.rounds[i]).ballot.0 <= mid.counter by {
            let k = choose|k: int| 0 <= k < pre.rounds.len() && mid.rounds[i] == pre.rounds[k];
            assert(1 <= pre.rounds[k].ballot.0 <= pre.counter);
        }
    }
    match msg {
        RpcV::ClientRequest(id, req) => {
            if has_round_id(mid.rounds, id) || mid.counter == u64::MAX {
            } else {
                assert forall|i: int, j: int|
                    0 <= i < post.rounds.len() && 0 <= j < post.rounds.len() && i != j implies (
                #[trigger] post.rounds[i]).ballot != (#[trigger] post.rounds[j]).ballot
                    && post.rounds[i].id != post.rounds[j].id by {
                    if i < mid.rounds.len() && j < mid.rounds.len() {
                        assert(post.rounds[i] == mid.rounds[i] && post.rounds[j] == mid.rounds[j]);
                    } else if j == mid.rounds.len() {
                        assert(post.rounds[i] == mid.rounds[i]);
                        assert(post.rounds[j].ballot.0 == mid.counter + 1);
                        assert(!(mid.rounds[i].id == id));
                    } else {
                        assert(post.rounds[j] == mid.rounds[j]);
                        assert(post.rounds[i].ballot.0 == mid.counter + 1);
                        assert(!(mid.rounds[j].id == id));
                    }
                }
            }
        },
        RpcV::ProposeRes { req_ballot, last_accepted_ballot, last_accepted_value, res } => {
            let j = find_ballot(mid.rounds, req_ballot);
            lemma_find_ballot_props(mid.rounds, req_ballot);
            if j != -1 {
                assert(post.rounds == mid.rounds || post.rounds == mid.rounds.remove(j) || (
                post.rounds.len() == mid.rounds.len() && post.rounds[j].ballot
                    == mid.rounds[j].ballot && post.rounds[j].id == mid.rounds[j].id && forall|
                    i: int,
                |
                    0 <= i < mid.rounds.len() && i != j ==> #[trigger] post.rounds[i]
                        == mid.rounds[i]));
                lemma_step_keeps_wf_found(mid, post, j);
            }
        },
        RpcV::AcceptRes(b, res) => {
            let j = find_ballot(mid.rounds, b);
            lemma_find_ballot_props(mid.rounds, b);
            if j != -1 {
                assert(post.rounds == mid.rounds || post.rounds == mid.rounds.remove(j) || (
                post.rounds.len() == mid.rounds.len() && post.rounds[j].ballot
                    == mid.rounds[j].ballot && post.rounds[j].id == mid.rounds[j].id && forall|
                    i: int,
                |
                    0 <= i < mid.rounds.len() && i != j ==> #[trigger] post.rounds[i]
                        == mid.rounds[i]));
                lemma_step_keeps_wf_found(mid, post, j);
            }
        },
        _ => {},
    }
}

/// The phase-response handlers either leave the rounds alone, remove one,
/// or replace one keeping its ballot and id; each preserves
/// well-formedness. The counter never decreases.
proof fn lemma_step_keeps_wf_found(mid: ProposerV, post: ProposerV, j: int)
    requires
        proposer_wf(mid),
        post.counter >= mid.counter,
        0 <= j < mid.rounds.len(),
        post.rounds == mid.rounds || post.rounds == mid.rounds.remove(j) || (post.rounds.len()
            == mid.rounds.len() && post.rounds[j].ballot == mid.rounds[j].ballot
            && post.rounds[j].id == mid.rounds[j].id && forall|i: int|
            0 <= i < mid.rounds.len() && i != j ==> #[trigger] post.rounds[i] == mid.rounds[i]),
    ensures
        proposer_wf(post),
{
    if post.rounds == mid.rounds {
    } else {
        if post.rounds == mid.rounds.remove(j) {
            assert forall|i: int| 0 <= i < post.rounds.len() implies 1 <= (
            #[trigger] post.rounds[i]).ballot.0 <= post.counter by {
                if i < j {
                    assert(post.rounds[i] == mid.rounds[i]);
                } else {
                    assert(post.rounds[i] == mid.rounds[i + 1]);
                }
            }
            assert forall|i: int, i2: int|
                0 <= i < post.rounds.len() && 0 <= i2 < post.rounds.len() && i != i2 implies (
            #[trigger] post.rounds[i]).ballot != (#[trigger] post.rounds[i2]).ballot
                && post.rounds[i].id != post.rounds[i2].id by {
                let k1: int = if i < j {
                    i
                } else {
                    i + 1
                };
                let k2: int = if i2 < j {
                    i2
                } else {
                    i2 + 1
                };
                assert(post.rounds[i] == mid.rounds[k1]);
                assert(post.rounds[i2] == mid.rounds[k2]);
            }
        } else {
            assert forall|i: int, i2: int|
                0 <= i < post.rounds.len() && 0 <= i2 < post.rounds.len() && i != i2 implies (
            #[trigger] post.rounds[i]).ballot != (#[trigger] post.rounds[i2]).ballot
                && post.rounds[i].id != post.rounds[i2].id by {
                assert(post.rounds[i].ballot == mid.rounds[i].ballot && post.rounds[i].id
                    == mid.rounds[i].id);
                assert(post.rounds[i2].ballot == mid.rounds[i2].ballot && post.rounds[i2].id
                    == mid.rounds[i2].id);
            }
            assert forall|i: int| 0 <= i < post.rounds.len() implies 1 <= (
            #[trigger] post.rounds[i]).ballot.0 <= post.counter by {
                assert(post.rounds[i].ballot == mid.rounds[i].ballot);
            }
        }
    }
}

} // verus!
