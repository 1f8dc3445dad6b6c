//! Unit tests of the data model, the storage ledger, the acceptor step, and
//! the datagram framing.

use paxos_kv::acceptor::Acceptor;
use paxos_kv::frame::{frame, unframe, MAX_MSG_BYTES};
use paxos_kv::msg::{bytes_eq, opt_bytes_eq};
use paxos_kv::quorum_size;
use paxos_kv::storage::{MemStorage, Record};
use paxos_kv::{Ballot, Error, Req, Rpc};

#[test]
fn quorum_sizes() {
    assert_eq!(quorum_size(5), 3);
    assert_eq!(quorum_size(4), 3);
    assert_eq!(quorum_size(3), 2);
    assert_eq!(quorum_size(1), 1);
    assert_eq!(quorum_size(0), 1);
}

#[test]
fn ballot_order_and_default() {
    assert_eq!(Ballot::default(), Ballot(0));
    assert!(Ballot(0).lt(Ballot(1)));
    assert!(!Ballot(2).lt(Ballot(2)));
    assert!(!Ballot(3).lt(Ballot(2)));
}

#[test]
fn request_key_accessor() {
    assert_eq!(Req::Get(b"k".to_vec()).key(), b"k".to_vec());
    assert_eq!(Req::Del(b"d".to_vec()).key(), b"d".to_vec());
    assert_eq!(Req::Put(b"p".to_vec(), b"v".to_vec()).key(), b"p".to_vec());
    assert_eq!(Req::Cas(b"c".to_vec(), None, Some(b"n".to_vec())).key(), b"c".to_vec());
}

#[test]
fn error_kind_predicates() {
    let pr = Error::ProposalRejected { last: Ballot(7) };
    let ar = Error::AcceptRejected { last: Ballot(7) };
    let cf = Error::CasFailed(Some(b"v".to_vec()));
    let to = Error::Timeout;
    assert!(pr.is_rejected_proposal() && !pr.is_rejected_accept() && !pr.is_timeout());
    assert!(ar.is_rejected_accept() && !ar.is_rejected_proposal() && !ar.is_failed_cas());
    assert!(cf.is_failed_cas() && !cf.is_timeout());
    assert!(to.is_timeout() && !to.is_failed_cas());
}

#[test]
fn rpc_client_accessors() {
    let req = Rpc::ClientRequest(9, Req::Get(b"k".to_vec()));
    assert_eq!(req.client_req_id(), Some(9));
    let res = Rpc::ClientResponse(9, Ok(None));
    assert_eq!(res.client_req_id(), Some(9));
    let other = Rpc::ProposeReq(Ballot(1), b"k".to_vec());
    assert_eq!(other.client_req_id(), None);
    assert_eq!(req.client_req(), Some(Req::Get(b"k".to_vec())));
    assert_eq!(res.client_req(), None);
}

#[test]
fn byte_equality_helpers() {
    assert!(bytes_eq(&b"ab".to_vec(), &b"ab".to_vec()));
    assert!(!bytes_eq(&b"ab".to_vec(), &b"ac".to_vec()));
    assert!(!bytes_eq(&b"ab".to_vec(), &b"abc".to_vec()));
    assert!(opt_bytes_eq(&None, &None));
    assert!(!opt_bytes_eq(&Some(b"a".to_vec()), &None));
    assert!(opt_bytes_eq(&Some(b"a".to_vec()), &Some(b"a".to_vec())));
}

#[test]
fn storage_get_and_cas() {
    let mut st = MemStorage::new();
    let key = b"k".to_vec();
    let zero = st.get(&key);
    assert_eq!(zero, Record { promised: Ballot(0), accepted: Ballot(0), value: None });
    let one = Record { promised: Ballot(1), accepted: Ballot(1), value: Some(b"v".to_vec()) };
    // wrong expectation: refused, nothing written
    let wrong = Record { promised: Ballot(9), accepted: Ballot(0), value: None };
    assert!(!st.cas(&key, &wrong, one.duplicate()));
    assert_eq!(st.get(&key), zero);
    // right expectation: swapped
    assert!(st.cas(&key, &zero, one.duplicate()));
    assert_eq!(st.get(&key), one);
    // other keys untouched
    assert_eq!(st.get(&b"other".to_vec()).promised, Ballot(0));
}

#[test]
fn acceptor_promise_is_monotonic() {
    let mut a = Acceptor::new(MemStorage::new());
    let key = b"k".to_vec();
    // prepare at 5: ok
    let out = a.receive(0, "p0".to_string(), Rpc::ProposeReq(Ballot(5), key.clone()));
    assert_eq!(out.len(), 1);
    match &out[0].1 {
        Rpc::ProposeRes { req_ballot, last_accepted_ballot, last_accepted_value, res } => {
            assert_eq!(*req_ballot, Ballot(5));
            assert_eq!(*last_accepted_ballot, Ballot(0));
            assert_eq!(*last_accepted_value, None);
            assert!(res.is_ok());
        }
        other => panic!("unexpected {:?}", other),
    }
    // a lower prepare is rejected and the promise stands
    let out = a.receive(1, "p1".to_string(), Rpc::ProposeReq(Ballot(3), key.clone()));
    match &out[0].1 {
        Rpc::ProposeRes { res, .. } => {
            assert_eq!(res.clone().unwrap_err(), Error::ProposalRejected { last: Ballot(5) });
        }
        other => panic!("unexpected {:?}", other),
    }
    assert_eq!(a.store.get(&key).promised, Ballot(5));
    // an accept below the promise is rejected
    let out = a.receive(2, "p1".to_string(), Rpc::AcceptReq(Ballot(3), key.clone(), None));
    match &out[0].1 {
        Rpc::AcceptRes(b, res) => {
            assert_eq!(*b, Ballot(3));
            assert_eq!(res.clone().unwrap_err(), Error::AcceptRejected { last: Ballot(5) });
        }
        other => panic!("unexpected {:?}", other),
    }
    // an accept at the promise is stored
    let out = a.receive(3, "p0".to_string(), Rpc::AcceptReq(Ballot(5), key.clone(), Some(b"v".to_vec())));
    match &out[0].1 {
        Rpc::AcceptRes(b, res) => {
            assert_eq!(*b, Ballot(5));
            assert!(res.is_ok());
        }
        other => panic!("unexpected {:?}", other),
    }
    let rec = a.store.get(&key);
    assert_eq!(rec.promised, Ballot(5));
    assert_eq!(rec.accepted, Ballot(5));
    assert_eq!(rec.value, Some(b"v".to_vec()));
    // later prepares keep reporting the accepted pair
    let out = a.receive(4, "p2".to_string(), Rpc::ProposeReq(Ballot(9), key.clone()));
    match &out[0].1 {
        Rpc::ProposeRes { last_accepted_ballot, last_accepted_value, res, .. } => {
            assert_eq!(*last_accepted_ballot, Ballot(5));
            assert_eq!(*last_accepted_value, Some(b"v".to_vec()));
            assert!(res.is_ok());
        }
        other => panic!("unexpected {:?}", other),
    }
}

#[test]
fn acceptor_ignores_other_messages() {
    let mut a = Acceptor::new(MemStorage::new());
    let out = a.receive(0, "c0".to_string(), Rpc::ClientRequest(1, Req::Get(b"k".to_vec())));
    assert!(out.is_empty());
}

#[test]
fn frame_round_trip_and_checksum() {
    let payload = b"hello paxos".to_vec();
    let framed = frame(&payload).unwrap();
    assert_eq!(framed.len(), payload.len() + 4);
    assert_eq!(&framed[..payload.len()], &payload[..]);
    // the trailing bytes are exactly the little-endian CRC-32 of the payload
    let crc = crc32fast::hash(&payload);
    assert_eq!(&framed[payload.len()..], &crc.to_le_bytes()[..]);
    assert_eq!(unframe(&framed), Some(payload));
}

#[test]
fn unframe_rejects_corruption() {
    let payload = b"datagram".to_vec();
    let mut framed = frame(&payload).unwrap();
    framed[2] ^= 0x40;
    assert_eq!(unframe(&framed), None);
    assert_eq!(unframe(&b"abc".to_vec()), None);
    let oversized = vec![0u8; MAX_MSG_BYTES - 3];
    assert_eq!(frame(&oversized), None);
    let exact = vec![0u8; MAX_MSG_BYTES - 4];
    assert!(frame(&exact).is_some());
}
