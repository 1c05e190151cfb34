//! In-memory store of derived public keys, one record per identity.
//!
//! The store is modelled as the sequence of its records, each record the
//! pair of the identity's bytes and the key's bytes. `lookup` is the
//! first-match read over that sequence; the store's invariant keeps the
//! identities pairwise distinct, so the first match is the only one.

use vstd::prelude::*;
use vstd::slice::slice_to_vec;

verus! {

/// One identity bound to one derived public key.
#[derive(Debug)]
pub struct KeyRecord {
    pub identity: Vec<u8>,
    pub public_key: Vec<u8>,
}

/// First-match lookup over stored records.
pub open spec fn lookup(s: Seq<(Seq<u8>, Seq<u8>)>, id: Seq<u8>) -> Option<Seq<u8>>
    decreases s.len(),
{
    if s.len() == 0 {
        None
    } else if s[0].0 == id {
        Some(s[0].1)
    } else {
        lookup(s.drop_first(), id)
    }
}

/// Whether some record binds `id`.
pub open spec fn has_identity(s: Seq<(Seq<u8>, Seq<u8>)>, id: Seq<u8>) -> bool {
    lookup(s, id) is Some
}

/// At most one record per identity.
pub open spec fn distinct_identities(s: Seq<(Seq<u8>, Seq<u8>)>) -> bool {
    forall|i: int, j: int| 0 <= i < j < s.len() ==> s[i].0 != s[j].0
}

/// `lookup` returns the record at the first matching position.
pub proof fn lemma_lookup_at(s: Seq<(Seq<u8>, Seq<u8>)>, i: int)
    requires
        0 <= i < s.len(),
        forall|j: int| 0 <= j < i ==> s[j].0 != s[i].0,
    ensures
        lookup(s, s[i].0) == Some(s[i].1),
    decreases i,
{
    if i > 0 {
        assert(s.drop_first()[i - 1] == s[i]);
        assert(forall|j: int| 0 <= j < i - 1 ==> s.drop_first()[j] == s[j + 1]);
        lemma_lookup_at(s.drop_first(), i - 1);
    }
}

/// When no record matches, `lookup` yields `None`.
pub proof fn lemma_lookup_absent(s: Seq<(Seq<u8>, Seq<u8>)>, id: Seq<u8>)
    requires
        forall|j: int| 0 <= j < s.len() ==> s[j].0 != id,
    ensures
        lookup(s, id) is None,
    decreases s.len(),
{
    if s.len() > 0 {
        assert(forall|j: int| 0 <= j < s.drop_first().len() ==> s.drop_first()[j] == s[j + 1]);
        lemma_lookup_absent(s.drop_first(), id);
    }
}

/// A successful `lookup` has a matching record at some position.
pub proof fn lemma_lookup_some_exists(s: Seq<(Seq<u8>, Seq<u8>)>, id: Seq<u8>)
    requires
        lookup(s, id) is Some,
    ensures
        exists|i: int|
            0 <= i < s.len() && s[i].0 == id && lookup(s, id) == Some(s[i].1),
    decreases s.len(),
{
    if s[0].0 == id {
        assert(s[0].0 == id && lookup(s, id) == Some(s[0].1));
    } else {
        lemma_lookup_some_exists(s.drop_first(), id);
        let i = choose|i: int|
            0 <= i < s.drop_first().len() && s.drop_first()[i].0 == id && lookup(
                s.drop_first(),
                id,
            ) == Some(s.drop_first()[i].1);
        assert(s[i + 1] == s.drop_first()[i]);
        assert(s[i + 1].0 == id && lookup(s, id) == Some(s[i + 1].1));
    }
}

/// Replacing the value bound to one identity leaves every other lookup as
/// it was.
pub proof fn lemma_lookup_update_other(
    s: Seq<(Seq<u8>, Seq<u8>)>,
    i: int,
    v: (Seq<u8>, Seq<u8>),
    id2: Seq<u8>,
)
    requires
        0 <= i < s.len(),
        v.0 == s[i].0,
        id2 != v.0,
    ensures
        lookup(s.update(i, v), id2) == lookup(s, id2),
    decreases s.len(),
{
    let t = s.update(i, v);
    if i == 0 {
        assert(t[0] == v);
        assert(t.drop_first() =~= s.drop_first());
    } else {
        assert(t[0] == s[0]);
        if s[0].0 != id2 {
            assert(t.drop_first() =~= s.drop_first().update(i - 1, v));
            assert(s.drop_first()[i - 1] == s[i]);
            lemma_lookup_update_other(s.drop_first(), i - 1, v, id2);
        }
    }
}

/// Appending a record for a fresh identity leaves every other lookup as it
/// was.
pub proof fn lemma_lookup_push_other(
    s: Seq<(Seq<u8>, Seq<u8>)>,
    p: (Seq<u8>, Seq<u8>),
    id2: Seq<u8>,
)
    requires
        id2 != p.0,
    ensures
        lookup(s.push(p), id2) == lookup(s, id2),
    decreases s.len(),
{
    let t = s.push(p);
    if s.len() == 0 {
        assert(t[0] == p);
        assert(t.drop_first() =~= Seq::<(Seq<u8>, Seq<u8>)>::empty());
        assert(lookup(Seq::<(Seq<u8>, Seq<u8>)>::empty(), id2) is None);
        assert(lookup(t, id2) is None);
    } else {
        assert(t[0] == s[0]);
        if s[0].0 == id2 {
            assert(lookup(t, id2) == Some(s[0].1));
            assert(lookup(s, id2) == Some(s[0].1));
        } else {
            assert(t.drop_first() =~= s.drop_first().push(p));
            lemma_lookup_push_other(s.drop_first(), p, id2);
        }
    }
}

/// Byte-for-byte comparison of two byte vectors.
fn bytes_eq(a: &Vec<u8>, b: &Vec<u8>) -> (r: bool)
    ensures
        r <==> a@ == b@,
{
    if a.len() != b.len() {
        proof {
            if a@ == b@ {
                assert(a@.len() == b@.len());
            }
        }
        return false;
    }
    let n = a.len();
    let mut i: usize = 0;
    while i < n
        invariant
            0 <= i <= n,
            n == a@.len(),
            n == b@.len(),
            forall|j: int| 0 <= j < i ==> a@[j] == b@[j],
        decreases n - i,
    {
        if a[i] != b[i] {
            proof {
                if a@ == b@ {
                    assert(a@[i as int] == b@[i as int]);
                }
            }
            return false;
        }
        i += 1;
    }
    proof {
        assert(a@ =~= b@);
    }
    true
}

/// The identity-to-key store. Its view is the sequence of its records'
/// byte pairs; well-formedness keeps the identities pairwise distinct.
#[derive(Debug)]
pub struct KeyStore {
    records: Vec<KeyRecord>,
}

impl View for KeyStore {
    type V = Seq<(Seq<u8>, Seq<u8>)>;

    closed spec fn view(&self) -> Seq<(Seq<u8>, Seq<u8>)> {
        self.records@.map(|i: int, r: KeyRecord| (r.identity@, r.public_key@))
    }
}

impl KeyStore {
    pub open spec fn wf(&self) -> bool {
        distinct_identities(self@)
    }

    /// An empty store.
    pub fn new() -> (s: KeyStore)
        ensures
            s@ == Seq::<(Seq<u8>, Seq<u8>)>::empty(),
            s.wf(),
    {
        let s = KeyStore { records: Vec::new() };
        proof {
            assert(s@ =~= Seq::<(Seq<u8>, Seq<u8>)>::empty());
        }
        s
    }

    /// How many identities hold a derived key.
    pub fn len(&self) -> (n: usize)
        ensures
            n == self@.len(),
    {
        self.records.len()
    }

    /// Read access to the record at position `i`, for iteration.
    pub fn record_at(&self, i: usize) -> (r: (&Vec<u8>, &Vec<u8>))
        requires
            i < self@.len(),
        ensures
            r.0@ == self@[i as int].0,
            r.1@ == self@[i as int].1,
    {
        (&self.records[i].identity, &self.records[i].public_key)
    }

    /// Read-only lookup; absence is a normal outcome, not a fault.
    pub fn get(&self, identity: &Vec<u8>) -> (r: Option<Vec<u8>>)
        ensures
            match r {
                Some(k) => lookup(self@, identity@) == Some(k@),
                None => lookup(self@, identity@) is None,
            },
    {
        let n = self.records.len();
        let mut i: usize = 0;
        proof {
            assert(self@.subrange(0, n as int) =~= self@);
        }
        while i < n
            invariant
                0 <= i <= n,
                n == self@.len(),
                n == self.records@.len(),
                lookup(self@, identity@) == lookup(
                    self@.subrange(i as int, n as int),
                    identity@,
                ),
            decreases n - i,
        {
            proof {
                assert(self@[i as int] == (
                    self.records@[i as int].identity@,
                    self.records@[i as int].public_key@,
                ));
                assert(self@.subrange(i as int, n as int)[0] == self@[i as int]);
            }
            if bytes_eq(&self.records[i].identity, identity) {
                return Some(slice_to_vec(self.records[i].public_key.as_slice()));
            }
            proof {
                assert(self@.subrange(i as int, n as int).drop_first() =~= self@.subrange(
                    i + 1,
                    n as int,
                ));
            }
            i += 1;
        }
        proof {
            assert(self@.subrange(n as int, n as int) =~= Seq::<(Seq<u8>, Seq<u8>)>::empty());
        }
        None
    }

    /// Insert or overwrite the record for `identity`.
    pub fn put(&mut self, identity: Vec<u8>, public_key: Vec<u8>)
        requires
            old(self).wf(),
        ensures
            final(self).wf(),
            lookup(final(self)@, identity@) == Some(public_key@),
            forall|id2: Seq<u8>|
                id2 != identity@ ==> lookup(final(self)@, id2) == lookup(old(self)@, id2),
            if has_identity(old(self)@, identity@) {
                exists|i: int|
                    0 <= i < old(self)@.len() && old(self)@[i].0 == identity@ && final(self)@
                        == old(self)@.update(i, (identity@, public_key@))
            } else {
                final(self)@ == old(self)@.push((identity@, public_key@))
            },
    {
        let n = self.records.len();
        let mut i: usize = 0;
        while i < n
            invariant
                0 <= i <= n,
                n == self@.len(),
                n == self.records@.len(),
                self.records@ == old(self).records@,
                old(self).wf(),
                forall|j: int| 0 <= j < i ==> self@[j].0 != identity@,
            decreases n - i,
        {
            proof {
                assert(self@[i as int] == (
                    self.records@[i as int].identity@,
                    self.records@[i as int].public_key@,
                ));
            }
            if bytes_eq(&self.records[i].identity, &identity) {
                let ghost prior = self@;
                let ghost ii = i as int;
                self.records[i] = KeyRecord { identity, public_key };
                proof {
                    assert(self@ =~= prior.update(ii, (identity@, public_key@)));
                    lemma_lookup_at(prior, ii);
                    assert(has_identity(prior, identity@));
                    assert(self@[ii].0 == identity@ && self@[ii].1 == public_key@);
                    assert(forall|j: int| 0 <= j < ii ==> self@[j] == prior[j]);
                    lemma_lookup_at(self@, ii);
                    assert forall|id2: Seq<u8>| id2 != identity@ implies lookup(self@, id2)
                        == lookup(prior, id2) by {
                        lemma_lookup_update_other(prior, ii, (identity@, public_key@), id2);
                    }
                    assert(forall|k: int| 0 <= k < self@.len() ==> self@[k].0 == prior[k].0);
                    assert(distinct_identities(self@));
                }
                return ;
            }
            i += 1;
        }
        let ghost prior = self@;
        proof {
            lemma_lookup_absent(prior, identity@);
        }
        self.records.push(KeyRecord { identity, public_key });
        proof {
            assert(self@ =~= prior.push((identity@, public_key@)));
            assert(self@[n as int].0 == identity@ && self@[n as int].1 == public_key@);
            assert(forall|j: int| 0 <= j < n ==> self@[j] == prior[j]);
            lemma_lookup_at(self@, n as int);
            assert forall|id2: Seq<u8>| id2 != identity@ implies lookup(self@, id2) == lookup(
                prior,
                id2,
            ) by {
                lemma_lookup_push_other(prior, (identity@, public_key@), id2);
            }
            assert(distinct_identities(self@));
        }
    }
}

} // verus!
