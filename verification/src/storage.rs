//! The durable per-key acceptor ledger: an atomic get / compare-and-swap
//! store of per-key records, modelled as a total map in which a key nothing
//! was stored for holds the zero record.

use vstd::prelude::*;

use crate::msg::{bytes_eq, opt_bytes_eq, opt_bytes_view, Ballot};

verus! {

/// The per-key acceptor record: the only durable state.
#[derive(Debug, PartialEq, Eq)]
pub struct Record {
    /// Highest ballot this acceptor promised not to accept anything below.
    pub promised: Ballot,
    /// Ballot of the most recently accepted value.
    pub accepted: Ballot,
    /// Most recently accepted value, absent until something is accepted.
    pub value: Option<Vec<u8>>,
}

/// Mathematical model of a record.
#[verifier::ext_equal]
pub struct RecordV {
    pub promised: Ballot,
    pub accepted: Ballot,
    pub value: Option<Seq<u8>>,
}

impl View for Record {
    type V = RecordV;

    open spec fn view(&self) -> RecordV {
        RecordV {
            promised: self.promised,
            accepted: self.accepted,
            value: opt_bytes_view(&self.value),
        }
    }
}

/// The record of a key nothing was ever promised or accepted for.
pub open spec fn zero_record() -> RecordV {
    RecordV { promised: Ballot(0), accepted: Ballot(0), value: None }
}

/// A record never accepts above what it promised.
pub open spec fn record_wf(r: RecordV) -> bool {
    r.accepted.0 <= r.promised.0
}

impl Record {
    /// A fresh zero record.
    pub fn zero() -> (r: Record)
        ensures
            r@ == zero_record(),
    {
        Record { promised: Ballot(0), accepted: Ballot(0), value: None }
    }

    /// An exact copy of this record.
    pub fn duplicate(&self) -> (r: Record)
        ensures
            r@ == self@,
    {
        let value = match &self.value {
            Some(v) => Some(v.clone()),
            None => None,
        };
        Record { promised: self.promised, accepted: self.accepted, value }
    }
}

/// Field-wise record equality, with its meaning over the model.
pub fn record_eq(a: &Record, b: &Record) -> (r: bool)
    ensures
        r == (a@ == b@),
{
    let r = a.promised.0 == b.promised.0 && a.accepted.0 == b.accepted.0
        && opt_bytes_eq(&a.value, &b.value);
    proof {
        if r {
            assert(a@ =~= b@);
        }
    }
    r
}

/// Index of the first entry that holds key `k`, or -1 when none does.
pub open spec fn find_key(s: Seq<(Vec<u8>, Record)>, k: Seq<u8>) -> int
    decreases s.len(),
{
    if s.len() == 0 {
        -1
    } else if s[0].0@ == k {
        0
    } else {
        let r = find_key(s.drop_first(), k);
        if r == -1 {
            -1
        } else {
            r + 1
        }
    }
}

proof fn lemma_find_key(s: Seq<(Vec<u8>, Record)>, k: Seq<u8>)
    ensures
        find_key(s, k) == -1 ==> forall|i: int| 0 <= i < s.len() ==> s[i].0@ != k,
        find_key(s, k) != -1 ==> 0 <= find_key(s, k) < s.len() && s[find_key(s, k)].0@ == k,
        find_key(s, k) != -1 ==> forall|i: int| 0 <= i < find_key(s, k) ==> s[i].0@ != k,
    decreases s.len(),
{
    if s.len() == 0 {
    } else if s[0].0@ == k {
    } else {
        lemma_find_key(s.drop_first(), k);
        assert forall|i: int| 1 <= i < s.len() implies s.drop_first()[i - 1] == s[i] by {}
    }
}

proof fn lemma_find_key_update(s: Seq<(Vec<u8>, Record)>, i: int, e: (Vec<u8>, Record), k: Seq<u8>)
    requires
        0 <= i < s.len(),
        e.0@ == s[i].0@,
    ensures
        find_key(s.update(i, e), k) == find_key(s, k),
    decreases s.len(),
{
    let s2 = s.update(i, e);
    if i == 0 {
        if s[0].0@ == k {
        } else {
            assert(s2.drop_first() =~= s.drop_first());
        }
    } else {
        assert(s2[0] == s[0]);
        if s[0].0@ == k {
        } else {
            assert(s2.drop_first() =~= s.drop_first().update(i - 1, e));
            lemma_find_key_update(s.drop_first(), i - 1, e, k);
        }
    }
}

proof fn lemma_find_key_push(s: Seq<(Vec<u8>, Record)>, e: (Vec<u8>, Record), k: Seq<u8>)
    ensures
        find_key(s, k) != -1 ==> find_key(s.push(e), k) == find_key(s, k),
        find_key(s, k) == -1 && e.0@ == k ==> find_key(s.push(e), k) == s.len(),
        find_key(s, k) == -1 && e.0@ != k ==> find_key(s.push(e), k) == -1,
    decreases s.len(),
{
    if s.len() == 0 {
        assert(s.push(e)[0] == e);
        if e.0@ != k {
            assert(s.push(e).drop_first() =~= Seq::<(Vec<u8>, Record)>::empty());
            assert(find_key(Seq::<(Vec<u8>, Record)>::empty(), k) == -1);
            assert(find_key(s.push(e), k) == -1);
        } else {
            assert(find_key(s.push(e), k) == 0);
        }
    } else {
        assert(s.push(e)[0] == s[0]);
        if s[0].0@ == k {
            assert(find_key(s, k) == 0);
            assert(find_key(s.push(e), k) == 0);
        } else {
            assert(s.push(e).drop_first() =~= s.drop_first().push(e));
            lemma_find_key_push(s.drop_first(), e, k);
            assert(find_key(s.push(e), k) == (if find_key(s.drop_first().push(e), k) == -1 {
                -1
            } else {
                find_key(s.drop_first().push(e), k) + 1
            }));
            if find_key(s, k) == -1 && e.0@ == k {
                assert(find_key(s, k) == (if find_key(s.drop_first(), k) == -1 {
                    -1
                } else {
                    find_key(s.drop_first(), k) + 1
                }));
                lemma_find_key(s.drop_first(), k);
                assert(find_key(s.drop_first(), k) == -1);
                assert(find_key(s.drop_first().push(e), k) == s.drop_first().len());
                assert(find_key(s.push(e), k) == s.drop_first().len() + 1);
            }
        }
    }
}

/// The record an entry list holds for `k`; the zero record when none does.
pub open spec fn records_get(s: Seq<(Vec<u8>, Record)>, k: Seq<u8>) -> RecordV {
    let i = find_key(s, k);
    if i == -1 {
        zero_record()
    } else {
        s[i].1@
    }
}

/// In-memory storage backend: per-key records behind atomic get and
/// compare-and-swap, keys independent of one another.
#[derive(Debug)]
pub struct MemStorage {
    entries: Vec<(Vec<u8>, Record)>,
}

impl MemStorage {
    /// The record this store holds for key `k`; the zero record when none
    /// was ever written.
    pub closed spec fn spec_get(self, k: Seq<u8>) -> RecordV {
        records_get(self.entries@, k)
    }

    /// An empty store: every key holds the zero record.
    pub fn new() -> (r: MemStorage)
        ensures
            forall|k: Seq<u8>| r.spec_get(k) == zero_record(),
    {
        MemStorage { entries: Vec::new() }
    }

    /// First index holding `key`, or none.
    fn find(&self, key: &Vec<u8>) -> (r: Option<usize>)
        ensures
            r matches Some(i) ==> i == find_key(self.entries@, key@) && i < self.entries@.len()
                && self.entries@[i as int].0@ == key@,
            r is None ==> find_key(self.entries@, key@) == -1,
    {
        proof {
            lemma_find_key(self.entries@, key@);
        }
        let mut i: usize = 0;
        while i < self.entries.len()
            invariant
                i <= self.entries.len(),
                forall|j: int| 0 <= j < i ==> self.entries@[j].0@ != key@,
            decreases self.entries.len() - i,
        {
            if bytes_eq(&self.entries[i].0, key) {
                proof {
                    lemma_find_key(self.entries@, key@);
                }
                return Some(i);
            }
            i += 1;
        }
        proof {
            lemma_find_key(self.entries@, key@);
        }
        None
    }

    /// The current record for a key; a zero record when the key is absent.
    pub fn get(&self, key: &Vec<u8>) -> (r: Record)
        ensures
            r@ == self.spec_get(key@),
    {
        match self.find(key) {
            Some(i) => self.entries[i].1.duplicate(),
            None => Record::zero(),
        }
    }

    /// Atomically replace the record held for `key` by `update`, iff the
    /// record held now equals `expected`; report whether the swap happened.
    /// No other key is touched either way.
    pub fn cas(&mut self, key: &Vec<u8>, expected: &Record, update: Record) -> (r: bool)
        ensures
            r == (old(self).spec_get(key@) == expected@),
            r ==> final(self).spec_get(key@) == update@,
            r ==> forall|k2: Seq<u8>|
                k2 != key@ ==> #[trigger] final(self).spec_get(k2) == old(self).spec_get(k2),
            !r ==> *final(self) == *old(self),
    {
        let ghost s = self.entries@;
        match self.find(key) {
            Some(i) => {
                proof {
                    lemma_find_key(s, key@);
                }
                if record_eq(&self.entries[i].1, expected) {
                    let ghost up = update@;
                    self.entries[i] = (key.clone(), update);
                    proof {
                        let e = self.entries@[i as int];
                        let s2 = s.update(i as int, e);
                        assert(self.entries@ =~= s2);
                        assert(e.0@ == key@ && e.1@ == up);
                        assert(records_get(s2, key@) == up) by {
                            lemma_find_key_update(s, i as int, e, key@);
                        }
                        assert forall|k2: Seq<u8>| k2 != key@ implies #[trigger] records_get(
                            s2,
                            k2,
                        ) == records_get(s, k2) by {
                            lemma_find_key_update(s, i as int, e, k2);
                            lemma_find_key(s, k2);
                            let j = find_key(s, k2);
                            if j != -1 {
                                assert(s[j].0@ == k2);
                                assert(j != i as int);
                                assert(s2[j] == s[j]);
                            }
                        }
                    }
                    true
                } else {
                    false
                }
            },
            None => {
                let zero = Record::zero();
                if record_eq(&zero, expected) {
                    let ghost up = update@;
                    let ghost n = self.entries@.len() as int;
                    self.entries.push((key.clone(), update));
                    proof {
                        let e = self.entries@[n];
                        let s2 = s.push(e);
                        assert(self.entries@ =~= s2);
                        assert(e.0@ == key@ && e.1@ == up);
                        assert(records_get(s2, key@) == up) by {
                            lemma_find_key_push(s, e, key@);
                        }
                        assert forall|k2: Seq<u8>| k2 != key@ implies #[trigger] records_get(
                            s2,
                            k2,
                        ) == records_get(s, k2) by {
                            lemma_find_key_push(s, e, k2);
                            lemma_find_key(s, k2);
                            let j = find_key(s, k2);
                            if j != -1 {
                                assert(s2[j] == s[j]);
                            }
                        }
                    }
                    true
                } else {
                    false
                }
            },
        }
    }
}

} // verus!
