//! End-to-end scenarios on a five-acceptor cluster (quorum 3), driven by a
//! deterministic in-process message queue.

use paxos_kv::{Acceptor, Client, Error, MemStorage, Proposer, Req, Rpc};

/// A single-process cluster: acceptors `a0..`, proposers `p0..`, clients
/// `c0..`, and a FIFO of (from, to, message).
struct Net {
    accs: Vec<Acceptor>,
    props: Vec<Proposer>,
    clients: Vec<Client>,
    q: Vec<(String, String, Rpc)>,
}

impl Net {
    fn new(n_accs: usize, prop_timeout: u64, n_props: usize, client_timeout: u64, n_clients: usize) -> Net {
        let addrs: Vec<String> = (0..n_accs).map(|i| format!("a{}", i)).collect();
        let accs = (0..n_accs).map(|_| Acceptor::new(MemStorage::new())).collect();
        let props = (0..n_props).map(|_| Proposer::new(addrs.clone(), prop_timeout)).collect();
        let prop_addrs: Vec<String> = (0..n_props).map(|i| format!("p{}", i)).collect();
        let clients = (0..n_clients).map(|_| Client::new(prop_addrs.clone(), client_timeout)).collect();
        Net { accs, props, clients, q: Vec::new() }
    }

    fn enqueue(&mut self, from: &str, msgs: Vec<(String, Rpc)>) {
        for (to, msg) in msgs {
            self.q.push((from.to_string(), to, msg));
        }
    }

    fn step(&mut self, now: u64) -> bool {
        if self.q.is_empty() {
            return false;
        }
        let (from, to, msg) = self.q.remove(0);
        let idx: usize = to[1..].parse().unwrap();
        let out = match &to[..1] {
            "a" => self.accs[idx].receive(now, from, msg),
            "p" => self.props[idx].receive(now, from, msg),
            "c" => self.clients[idx].receive(now, from, msg),
            _ => unreachable!(),
        };
        self.enqueue(&to, out);
        true
    }

    fn pump(&mut self, now: u64) {
        while self.step(now) {}
    }

    /// Pump while dropping each message for which `drop_it` says so.
    fn pump_lossy(&mut self, now: u64, drop_it: &mut dyn FnMut(&str, &str) -> bool) {
        while !self.q.is_empty() {
            let (from, to, _) = {
                let head = &self.q[0];
                (head.0.clone(), head.1.clone(), ())
            };
            if drop_it(&from, &to) {
                self.q.remove(0);
            } else {
                self.step(now);
            }
        }
    }

    fn submit(&mut self, client: usize, now: u64, req: Req) {
        let from = format!("c{}", client);
        let msgs = self.clients[client].submit(now, req);
        self.enqueue(&from, msgs);
    }

    fn outcome(&mut self, client: usize) -> Option<Result<Option<Vec<u8>>, Error>> {
        self.clients[client].take_outcome()
    }
}

fn bytes(s: &str) -> Vec<u8> {
    s.as_bytes().to_vec()
}

#[test]
fn set_then_get() {
    let mut net = Net::new(5, 50, 1, 100, 2);
    net.submit(0, 0, Req::Put(bytes("x"), bytes("1")));
    net.pump(0);
    assert_eq!(net.outcome(0), Some(Ok(Some(bytes("1")))));
    net.submit(1, 1, Req::Get(bytes("x")));
    net.pump(1);
    assert_eq!(net.outcome(1), Some(Ok(Some(bytes("1")))));
}

#[test]
fn cas_success_from_absent() {
    let mut net = Net::new(5, 50, 1, 100, 1);
    net.submit(0, 0, Req::Get(bytes("y")));
    net.pump(0);
    assert_eq!(net.outcome(0), Some(Ok(None)));
    net.submit(0, 1, Req::Cas(bytes("y"), None, Some(bytes("v"))));
    net.pump(1);
    assert_eq!(net.outcome(0), Some(Ok(Some(bytes("v")))));
    net.submit(0, 2, Req::Get(bytes("y")));
    net.pump(2);
    assert_eq!(net.outcome(0), Some(Ok(Some(bytes("v")))));
}

#[test]
fn cas_failure_reports_observed() {
    let mut net = Net::new(5, 50, 1, 100, 1);
    net.submit(0, 0, Req::Put(bytes("y"), bytes("v")));
    net.pump(0);
    assert_eq!(net.outcome(0), Some(Ok(Some(bytes("v")))));
    net.submit(0, 1, Req::Cas(bytes("y"), Some(bytes("u")), Some(bytes("w"))));
    net.pump(1);
    assert_eq!(net.outcome(0), Some(Err(Error::CasFailed(Some(bytes("v"))))));
    net.submit(0, 2, Req::Get(bytes("y")));
    net.pump(2);
    assert_eq!(net.outcome(0), Some(Ok(Some(bytes("v")))));
}

#[test]
fn contention_exactly_one_winner() {
    let mut net = Net::new(5, 50, 2, 100, 2);
    // A stable tiebreak: the second proposer mints from a higher floor, as a
    // distinct proposer id would force.
    net.props[1].counter = 1000;
    // each client talks to its own proposer
    net.clients[0].proposers = vec!["p0".to_string()];
    net.clients[1].proposers = vec!["p1".to_string()];
    net.submit(0, 0, Req::Put(bytes("z"), bytes("a")));
    net.submit(1, 0, Req::Put(bytes("z"), bytes("b")));
    net.pump(0);
    let o0 = net.outcome(0);
    let o1 = net.outcome(1);
    let ok0 = matches!(o0, Some(Ok(_)));
    let ok1 = matches!(o1, Some(Ok(_)));
    assert!(ok0 ^ ok1, "exactly one of the two writers must win: {:?} {:?}", o0, o1);
    let loser = if ok0 { o1 } else { o0 };
    match loser {
        Some(Err(e)) => assert!(e.is_rejected_proposal() || e.is_rejected_accept()),
        other => panic!("loser must be rejected, got {:?}", other),
    }
    net.submit(0, 1, Req::Get(bytes("z")));
    net.pump(1);
    let winner = if ok0 { bytes("a") } else { bytes("b") };
    assert_eq!(net.outcome(0), Some(Ok(Some(winner))));
}

struct Lcg(u64);

impl Lcg {
    fn roll(&mut self) -> u64 {
        self.0 = self.0.wrapping_mul(6364136223846793005).wrapping_add(1442695040888963407);
        self.0 >> 33
    }
}

#[test]
fn lossy_retry_until_success() {
    let mut net = Net::new(5, 50, 1, 100, 1);
    let mut rng = Lcg(42);
    let mut now: u64 = 0;
    let mut done = false;
    for _attempt in 0..20000 {
        net.submit(0, now, Req::Put(bytes("k"), bytes("1")));
        let mut drop_it = |from: &str, to: &str| {
            // two acceptors permanently partitioned, 40% loss elsewhere
            from == "a3" || from == "a4" || to == "a3" || to == "a4" || rng.roll() % 100 < 40
        };
        net.pump_lossy(now, &mut drop_it);
        // let every deadline pass, retiring stuck rounds
        now += 1000;
        let timeouts = net.props[0].expire_rounds(now);
        net.enqueue("p0", timeouts);
        net.pump(now);
        let _ = net.clients[0].tick(now);
        match net.outcome(0) {
            Some(Ok(v)) => {
                assert_eq!(v, Some(bytes("1")));
                done = true;
                break;
            }
            _ => {}
        }
        now += 1;
    }
    assert!(done, "a sufficiently retried write must eventually succeed");
    // now read it back with the same loss pattern
    let mut got = false;
    for _attempt in 0..20000 {
        net.submit(0, now, Req::Get(bytes("k")));
        let mut drop_it = |from: &str, to: &str| {
            from == "a3" || from == "a4" || to == "a3" || to == "a4" || rng.roll() % 100 < 40
        };
        net.pump_lossy(now, &mut drop_it);
        now += 1000;
        let timeouts = net.props[0].expire_rounds(now);
        net.enqueue("p0", timeouts);
        net.pump(now);
        let _ = net.clients[0].tick(now);
        match net.outcome(0) {
            Some(Ok(v)) => {
                assert_eq!(v, Some(bytes("1")));
                got = true;
                break;
            }
            _ => {}
        }
        now += 1;
    }
    assert!(got);
}

#[test]
fn three_partitioned_acceptors_time_out() {
    let mut net = Net::new(5, 50, 1, 100, 1);
    let mut now: u64 = 0;
    for _attempt in 0..5 {
        net.submit(0, now, Req::Put(bytes("k"), bytes("1")));
        let mut drop_it =
            |from: &str, to: &str| ["a2", "a3", "a4"].iter().any(|a| from == *a || to == *a);
        net.pump_lossy(now, &mut drop_it);
        now += 1000;
        let timeouts = net.props[0].expire_rounds(now);
        net.enqueue("p0", timeouts);
        net.pump(now);
        let _ = net.clients[0].tick(now);
        let o = net.outcome(0);
        match o {
            Some(Err(e)) => assert!(e.is_timeout(), "below quorum every request times out"),
            other => panic!("expected timeout, got {:?}", other),
        }
        now += 1;
    }
}

#[test]
fn crash_recovery_keeps_the_value() {
    let mut net = Net::new(5, 50, 1, 100, 1);
    net.submit(0, 0, Req::Put(bytes("p"), bytes("old")));
    net.pump(0);
    assert_eq!(net.outcome(0), Some(Ok(Some(bytes("old")))));
    // all acceptors crash; only their durable stores survive
    let stores: Vec<MemStorage> = net.accs.drain(..).map(|a| a.store).collect();
    net.accs = stores.into_iter().map(Acceptor::new).collect();
    net.submit(0, 1, Req::Get(bytes("p")));
    net.pump(1);
    assert_eq!(net.outcome(0), Some(Ok(Some(bytes("old")))));
}

#[test]
fn duplicate_submission_has_one_effect() {
    let mut net = Net::new(5, 50, 1, 100, 1);
    let msgs = net.clients[0].submit(0, Req::Put(bytes("d"), bytes("x")));
    // the client re-sends the same correlated request before any reply
    let again = net.clients[0].resend();
    net.enqueue("c0", msgs);
    net.enqueue("c0", again);
    net.pump(0);
    assert_eq!(net.outcome(0), Some(Ok(Some(bytes("x")))));
    // the duplicate started no second round and left no extra response
    assert_eq!(net.outcome(0), None);
    assert_eq!(net.props[0].rounds.len(), 0);
}

#[test]
fn reconfiguration_governs_new_rounds() {
    let mut net = Net::new(5, 50, 1, 100, 1);
    // shrink both sets to the first three acceptors (majority 2)
    let small: Vec<String> = vec!["a0".into(), "a1".into(), "a2".into()];
    net.q.push(("admin".into(), "p0".into(), Rpc::SetProposeAcceptors(small.clone())));
    net.q.push(("admin".into(), "p0".into(), Rpc::SetAcceptAcceptors(small)));
    net.pump(0);
    // the last two acceptors are fully partitioned; no other loss
    net.submit(0, 0, Req::Put(bytes("r"), bytes("1")));
    let mut drop_it =
        |from: &str, to: &str| ["a3", "a4"].iter().any(|a| from == *a || to == *a);
    net.pump_lossy(0, &mut drop_it);
    assert_eq!(net.outcome(0), Some(Ok(Some(bytes("1")))));
    // and the partitioned acceptors were never consulted
    assert_eq!(net.accs[3].store.get(&bytes("r")).promised, paxos_kv::Ballot(0));
    assert_eq!(net.accs[4].store.get(&bytes("r")).promised, paxos_kv::Ballot(0));
}

#[test]
fn client_drops_alien_and_late_responses() {
    let mut net = Net::new(5, 50, 1, 100, 1);
    // a response nobody asked for is dropped
    net.q.push(("p9".into(), "c0".into(), Rpc::ClientResponse(77, Ok(None))));
    net.pump(0);
    assert_eq!(net.outcome(0), None);
    // a response for another id than the pending one is dropped too
    net.submit(0, 0, Req::Get(bytes("x")));
    let pending_id = 0u64;
    net.q.insert(
        0,
        ("p9".into(), "c0".into(), Rpc::ClientResponse(pending_id + 1, Ok(Some(bytes("no"))))),
    );
    net.pump(0);
    assert_eq!(net.outcome(0), Some(Ok(None)));
}

#[test]
fn delete_makes_value_absent() {
    let mut net = Net::new(5, 50, 1, 100, 1);
    net.submit(0, 0, Req::Put(bytes("q"), bytes("1")));
    net.pump(0);
    assert_eq!(net.outcome(0), Some(Ok(Some(bytes("1")))));
    net.submit(0, 1, Req::Del(bytes("q")));
    net.pump(1);
    assert_eq!(net.outcome(0), Some(Ok(None)));
    net.submit(0, 2, Req::Get(bytes("q")));
    net.pump(2);
    assert_eq!(net.outcome(0), Some(Ok(None)));
}
