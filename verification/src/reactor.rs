//! The dispatch seam between components and the outside world: a reactor is
//! a pure step function from a timed message to an outbound batch, and a
//! transport feeds one and ships the batch. A deterministic single-process
//! simulation and a datagram deployment share the component code through
//! these two traits.

use vstd::prelude::*;

use crate::acceptor::Acceptor;
use crate::client::Client;
use crate::msg::Rpc;
use crate::proposer::Proposer;

verus! {

/// A component driven one message at a time: handlers run to completion,
/// never block, and read time only from the `now` they are handed.
pub trait Reactor {
    type Peer;

    type Message;

    /// Consume one inbound message at time `now`; return the messages to
    /// send, each with its recipient.
    fn receive(&mut self, now: u64, from: Self::Peer, msg: Self::Message) -> Vec<
        (Self::Peer, Self::Message),
    >;
}

/// An abstraction over communication. It provides no fault tolerance: a
/// message handed to it may be delivered zero or many times, in any order;
/// as long as messages sometimes arrive, the components above make
/// progress.
pub trait Transport<R: Reactor> {
    /// The transport's reading of the current time.
    fn now(&mut self) -> u64;

    /// Blocks until the next message is received.
    fn next_message(&mut self) -> (R::Peer, R::Message);

    /// Enqueues a message to be sent; it may be delivered zero or more
    /// times, with no ordering guarantees.
    fn send_message(&mut self, to: R::Peer, msg: R::Message);

    /// Drive one inbound message through the reactor and ship the batch it
    /// returns, in order. An embedding loops on this forever.
    fn run_step(&mut self, reactor: &mut R) {
        let (from, msg) = self.next_message();
        let now = self.now();
        let mut outbound = reactor.receive(now, from, msg);
        while outbound.len() > 0
            decreases outbound.len(),
        {
            let (to, m) = outbound.remove(0);
            self.send_message(to, m);
        }
    }
}

impl Reactor for Acceptor {
    type Peer = String;

    type Message = Rpc;

    fn receive(&mut self, now: u64, from: String, msg: Rpc) -> Vec<(String, Rpc)> {
        Acceptor::receive(self, now, from, msg)
    }
}

impl Reactor for Proposer {
    type Peer = String;

    type Message = Rpc;

    fn receive(&mut self, now: u64, from: String, msg: Rpc) -> Vec<(String, Rpc)> {
        Proposer::receive(self, now, from, msg)
    }
}

impl Reactor for Client {
    type Peer = String;

    type Message = Rpc;

    fn receive(&mut self, now: u64, from: String, msg: Rpc) -> Vec<(String, Rpc)> {
        Client::receive(self, now, from, msg)
    }
}

} // verus!
