//! Key stores: maps from key id to Ed25519 public-key bytes, and the
//! verification of signed payloads against them.

use vstd::prelude::*;
use crate::crypto::{ed25519_verifies, spec_base64, base64_encode, base64_decode, now_unix_secs};
use crate::signed_payload::{SignedPayload, spec_bytes_to_sign, payload_bytes_to_sign};

verus! {

broadcast use vstd::seq::axiom_seq_index_decreases;

/// Why a signed payload was refused, or a key operation failed.
#[derive(Debug, PartialEq, Eq)]
pub enum KeyStoreError {
    KeyNotFound(String),
    WrongSignature(String),
    ExpiredSignature(u64, u64),
    PayloadDecodeError(String),
    KeyEncodingError(String),
}

/// The ghost shape of a `KeyStoreError`, over character sequences.
pub enum SpecKeyStoreError {
    KeyNotFound(Seq<char>),
    WrongSignature(Seq<char>),
    ExpiredSignature(u64, u64),
    PayloadDecodeError(Seq<char>),
    KeyEncodingError(Seq<char>),
}

impl View for KeyStoreError {
    type V = SpecKeyStoreError;

    open spec fn view(&self) -> SpecKeyStoreError {
        match self {
            KeyStoreError::KeyNotFound(m) => SpecKeyStoreError::KeyNotFound(m@),
            KeyStoreError::WrongSignature(m) => SpecKeyStoreError::WrongSignature(m@),
            KeyStoreError::ExpiredSignature(a, b) => SpecKeyStoreError::ExpiredSignature(*a, *b),
            KeyStoreError::PayloadDecodeError(m) => SpecKeyStoreError::PayloadDecodeError(m@),
            KeyStoreError::KeyEncodingError(m) => SpecKeyStoreError::KeyEncodingError(m@),
        }
    }
}

/// A store of Ed25519 public keys by key id.
pub struct KeyStore {
    entries: Vec<(String, Vec<u8>)>,
}

/// The map a list of entries stands for; later entries win.
pub open spec fn spec_store_view(entries: Seq<(String, Vec<u8>)>) -> Map<Seq<char>, Seq<u8>>
    decreases entries.len(),
{
    if entries.len() == 0 {
        Map::empty()
    } else {
        spec_store_view(entries.drop_last()).insert(
            entries.last().0@,
            entries.last().1@,
        )
    }
}

/// Entry keys are pairwise distinct.
pub open spec fn spec_store_wf(entries: Seq<(String, Vec<u8>)>) -> bool {
    forall|i: int, j: int|
        0 <= i < j < entries.len() ==> entries[i].0@ != entries[j].0@
}

proof fn lemma_view_dom(entries: Seq<(String, Vec<u8>)>, k: Seq<char>)
    ensures
        spec_store_view(entries).dom().contains(k) <==> exists|i: int|
            0 <= i < entries.len() && entries[i].0@ == k,
    decreases entries.len(),
{
    if entries.len() == 0 {
    } else {
        lemma_view_dom(entries.drop_last(), k);
        if spec_store_view(entries).dom().contains(k) {
            if entries.last().0@ == k {
                assert(entries[entries.len() - 1].0@ == k);
            } else {
                let i = choose|i: int|
                    0 <= i < entries.drop_last().len() && entries.drop_last()[i].0@ == k;
                assert(entries[i].0@ == k);
            }
        }
        if exists|i: int| 0 <= i < entries.len() && entries[i].0@ == k {
            let i = choose|i: int| 0 <= i < entries.len() && entries[i].0@ == k;
            if i < entries.len() - 1 {
                assert(entries.drop_last()[i].0@ == k);
            }
        }
    }
}

proof fn lemma_view_get(entries: Seq<(String, Vec<u8>)>, i: int)
    requires
        spec_store_wf(entries),
        0 <= i < entries.len(),
    ensures
        spec_store_view(entries).dom().contains(entries[i].0@),
        spec_store_view(entries)[entries[i].0@] == entries[i].1@,
    decreases entries.len(),
{
    if i == entries.len() - 1 {
    } else {
        assert(spec_store_wf(entries.drop_last())) by {
            assert(forall|a: int, b: int|
                0 <= a < b < entries.drop_last().len() ==> entries.drop_last()[a].0@
                    != entries.drop_last()[b].0@);
        }
        lemma_view_get(entries.drop_last(), i);
        assert(entries.drop_last()[i] == entries[i]);
        assert(entries.last().0@ != entries[i].0@);
    }
}

proof fn lemma_view_update(entries: Seq<(String, Vec<u8>)>, i: int, e: (String, Vec<u8>))
    requires
        spec_store_wf(entries),
        0 <= i < entries.len(),
        e.0@ == entries[i].0@,
    ensures
        spec_store_view(entries.update(i, e)) == spec_store_view(entries).insert(e.0@, e.1@),
    decreases entries.len(),
{
    let upd = entries.update(i, e);
    if i == entries.len() - 1 {
        assert(upd.drop_last() =~= entries.drop_last());
        assert(spec_store_view(upd) =~= spec_store_view(entries).insert(e.0@, e.1@));
    } else {
        assert(spec_store_wf(entries.drop_last())) by {
            assert(forall|a: int, b: int|
                0 <= a < b < entries.drop_last().len() ==> entries.drop_last()[a].0@
                    != entries.drop_last()[b].0@);
        }
        assert(upd.drop_last() =~= entries.drop_last().update(i, e));
        lemma_view_update(entries.drop_last(), i, e);
        assert(upd.last() == entries.last());
        assert(entries.last().0@ != e.0@);
        assert(spec_store_view(upd) =~= spec_store_view(entries).insert(e.0@, e.1@));
    }
}

proof fn lemma_view_remove(entries: Seq<(String, Vec<u8>)>, i: int)
    requires
        spec_store_wf(entries),
        0 <= i < entries.len(),
    ensures
        spec_store_view(entries.remove(i)) == spec_store_view(entries).remove(entries[i].0@),
    decreases entries.len(),
{
    let rem = entries.remove(i);
    if i == entries.len() - 1 {
        assert(rem =~= entries.drop_last());
        lemma_view_dom(entries.drop_last(), entries[i].0@);
        assert(spec_store_view(entries.drop_last()) =~= spec_store_view(entries).remove(
            entries[i].0@,
        ));
    } else {
        assert(spec_store_wf(entries.drop_last())) by {
            assert(forall|a: int, b: int|
                0 <= a < b < entries.drop_last().len() ==> entries.drop_last()[a].0@
                    != entries.drop_last()[b].0@);
        }
        assert(rem.drop_last() =~= entries.drop_last().remove(i));
        lemma_view_remove(entries.drop_last(), i);
        assert(rem.last() == entries.last());
        assert(entries.last().0@ != entries[i].0@);
        assert(spec_store_view(rem) =~= spec_store_view(entries).remove(entries[i].0@));
    }
}

proof fn lemma_view_push(entries: Seq<(String, Vec<u8>)>, e: (String, Vec<u8>))
    ensures
        spec_store_view(entries.push(e)) == spec_store_view(entries).insert(e.0@, e.1@),
{
    assert(entries.push(e).drop_last() =~= entries);
    assert(entries.push(e).last() == e);
}

/// Bytewise slice comparison.
pub fn bytes_eq(a: &[u8], b: &[u8]) -> (r: bool)
    ensures
        r == (a@ == b@),
{
    if a.len() != b.len() {
        return false;
    }
    let n = a.len();
    let mut i: usize = 0;
    while i < n
        invariant
            i <= n,
            n == a@.len(),
            a@.len() == b@.len(),
            forall|k: int| 0 <= k < i ==> a@[k] == b@[k],
        decreases n - i,
    {
        if *vstd::slice::slice_index_get(a, i) != *vstd::slice::slice_index_get(b, i) {
            return false;
        }
        i = i + 1;
    }
    proof {
        assert(a@ =~= b@);
    }
    true
}

/// The verdict on a signed payload against a key map at instant `now`:
/// expired when `now` stands after the validity, unknown key, bad
/// signature, or the payload bytes.
pub open spec fn spec_check_payload(
    keys: Map<Seq<char>, Seq<u8>>,
    sp: SignedPayload,
    now: u64,
) -> Result<Seq<u8>, SpecKeyStoreError> {
    if now > sp.valid_until_secs {
        Result::Err(SpecKeyStoreError::ExpiredSignature(sp.valid_until_secs, now))
    } else if !keys.dom().contains(sp.key_id@) {
        Result::Err(SpecKeyStoreError::KeyNotFound(sp.key_id@))
    } else if !ed25519_verifies(
        keys[sp.key_id@],
        spec_bytes_to_sign(sp.payload@, sp.nonce, sp.valid_until_secs),
        sp.signature@,
    ) {
        Result::Err(SpecKeyStoreError::WrongSignature(sp.key_id@))
    } else {
        Result::Ok(sp.payload@)
    }
}

impl View for KeyStore {
    type V = Map<Seq<char>, Seq<u8>>;

    closed spec fn view(&self) -> Map<Seq<char>, Seq<u8>> {
        spec_store_view(self.entries@)
    }
}

impl KeyStore {
    pub closed spec fn wf(&self) -> bool {
        spec_store_wf(self.entries@)
    }

    fn find(&self, key_id: &str) -> (r: Option<usize>)
        ensures
            match r {
                Option::Some(i) => i < self.entries@.len() && self.entries@[i as int].0@
                    == key_id@,
                Option::None => forall|j: int|
                    0 <= j < self.entries@.len() ==> self.entries@[j].0@ != key_id@,
            },
    {
        let mut i: usize = 0;
        while i < self.entries.len()
            invariant
                i <= self.entries@.len(),
                forall|j: int| 0 <= j < i ==> self.entries@[j].0@ != key_id@,
            decreases self.entries@.len() - i,
        {
            if crate::meta::str_eq(self.entries[i].0.as_str(), key_id) {
                return Some(i);
            }
            i = i + 1;
        }
        None
    }

    /// Inserts or replaces the key.
    pub fn register_key(&mut self, key_id: String, key_bytes: Vec<u8>)
        requires
            old(self).wf(),
        ensures
            final(self).wf(),
            final(self)@ == old(self)@.insert(key_id@, key_bytes@),
    {
        match self.find(key_id.as_str()) {
            Some(i) => {
                proof {
                    lemma_view_update(self.entries@, i as int, (key_id, key_bytes));
                }
                self.entries.set(i, (key_id, key_bytes));
            },
            None => {
                proof {
                    lemma_view_push(self.entries@, (key_id, key_bytes));
                }
                self.entries.push((key_id, key_bytes));
            },
        }
    }

    /// Removes the key; reports `KeyNotFound` when it is not there.
    pub fn remove_key(&mut self, key_id: &str) -> (r: Result<Vec<u8>, KeyStoreError>)
        requires
            old(self).wf(),
        ensures
            final(self).wf(),
            match r {
                Result::Ok(b) => old(self)@.dom().contains(key_id@) && b@ == old(self)@[key_id@]
                    && final(self)@ == old(self)@.remove(key_id@),
                Result::Err(e) => {
                    &&& !old(self)@.dom().contains(key_id@)
                    &&& *final(self) == *old(self)
                    &&& e matches KeyStoreError::KeyNotFound(m) && m@ == key_id@
                },
            },
    {
        proof {
            lemma_view_dom(self.entries@, key_id@);
        }
        match self.find(key_id) {
            Some(i) => {
                proof {
                    lemma_view_get(self.entries@, i as int);
                    lemma_view_remove(self.entries@, i as int);
                }
                let entry = self.entries.remove(i);
                Ok(entry.1)
            },
            None => Err(KeyStoreError::KeyNotFound(key_id.to_owned())),
        }
    }

    /// Whether the store binds `key_id` to exactly `key_bytes`.
    pub fn has_key(&self, key_id: &str, key_bytes: &[u8]) -> (r: bool)
        requires
            self.wf(),
        ensures
            r == (self@.dom().contains(key_id@) && self@[key_id@] == key_bytes@),
    {
        proof {
            lemma_view_dom(self.entries@, key_id@);
        }
        match self.find(key_id) {
            Some(i) => {
                proof {
                    lemma_view_get(self.entries@, i as int);
                }
                bytes_eq(self.entries[i].1.as_slice(), key_bytes)
            },
            None => false,
        }
    }

    /// The bytes bound to `key_id`, if any.
    pub fn get_key(&self, key_id: &str) -> (r: Option<&Vec<u8>>)
        requires
            self.wf(),
        ensures
            match r {
                Option::Some(b) => self@.dom().contains(key_id@) && b@ == self@[key_id@],
                Option::None => !self@.dom().contains(key_id@),
            },
    {
        proof {
            lemma_view_dom(self.entries@, key_id@);
        }
        match self.find(key_id) {
            Some(i) => {
                proof {
                    lemma_view_get(self.entries@, i as int);
                }
                Some(&self.entries[i].1)
            },
            None => None,
        }
    }

    /// Verifies an Ed25519 signature under the key named `key_id`.
    pub fn verify(&self, key_id: &str, payload: &Vec<u8>, signature: &Vec<u8>) -> (r: Result<
        (),
        KeyStoreError,
    >)
        requires
            self.wf(),
        ensures
            match r {
                Result::Ok(_) => self@.dom().contains(key_id@) && ed25519_verifies(
                    self@[key_id@],
                    payload@,
                    signature@,
                ),
                Result::Err(e) => match e {
                    KeyStoreError::KeyNotFound(m) => m@ == key_id@ && !self@.dom().contains(
                        key_id@,
                    ),
                    KeyStoreError::WrongSignature(m) => m@ == key_id@ && self@.dom().contains(
                        key_id@,
                    ) && !ed25519_verifies(self@[key_id@], payload@, signature@),
                    _ => false,
                },
            },
    {
        match self.get_key(key_id) {
            None => Err(KeyStoreError::KeyNotFound(key_id.to_owned())),
            Some(bytes) => if crate::crypto::ed25519_verify(bytes, payload, signature) {
                Ok(())
            } else {
                Err(KeyStoreError::WrongSignature(key_id.to_owned()))
            },
        }
    }

    /// Checks an envelope at instant `now`: expiry first, then key
    /// presence, then the signature; returns the payload bytes.
    pub fn check_payload_at(&self, sp: &SignedPayload, now: u64) -> (r: Result<
        Vec<u8>,
        KeyStoreError,
    >)
        requires
            self.wf(),
        ensures
            match r {
                Result::Ok(b) => spec_check_payload(self@, *sp, now) == Result::<
                    Seq<u8>,
                    SpecKeyStoreError,
                >::Ok(b@),
                Result::Err(e) => spec_check_payload(self@, *sp, now) == Result::<
                    Seq<u8>,
                    SpecKeyStoreError,
                >::Err(e@),
            },
    {
        if now > sp.valid_until_secs {
            return Err(KeyStoreError::ExpiredSignature(sp.valid_until_secs, now));
        }
        let to_verify = payload_bytes_to_sign(sp);
        match self.verify(sp.key_id.as_str(), &to_verify, &sp.signature) {
            Ok(_) => Ok(vstd::slice::slice_to_vec(sp.payload.as_slice())),
            Err(e) => Err(e),
        }
    }

    /// Checks an envelope against the clock and returns its payload bytes.
    pub fn decode_payload(&self, sp: &SignedPayload) -> (r: Result<Vec<u8>, KeyStoreError>)
        requires
            self.wf(),
        ensures
            r matches Ok(b) ==> {
                &&& b@ == sp.payload@
                &&& self@.dom().contains(sp.key_id@)
                &&& ed25519_verifies(
                    self@[sp.key_id@],
                    spec_bytes_to_sign(sp.payload@, sp.nonce, sp.valid_until_secs),
                    sp.signature@,
                )
            },
    {
        let now = match now_unix_secs() {
            Ok(n) => n,
            Err(_) => {
                return Err(KeyStoreError::ExpiredSignature(sp.valid_until_secs, 0));
            },
        };
        self.check_payload_at(sp, now)
    }

    /// Every key and its base64-encoded bytes, in store order.
    #[verifier::rlimit(50)]
    pub fn list_all(&self) -> (r: Vec<(String, String)>)
        requires
            self.wf(),
        ensures
            spec_lists_store(r@, self@),
    {
        proof {
            lemma_dom_len(self.entries@);
        }
        let mut r: Vec<(String, String)> = Vec::new();
        let mut i: usize = 0;
        proof {
            lemma_dom_len(self.entries@);
        }
        while i < self.entries.len()
            invariant
                self.wf(),
                i <= self.entries@.len(),
                r@.len() == i,
                forall|j: int| #![trigger r@[j]]
                    0 <= j < i ==> r@[j].0@ == self.entries@[j].0@ && r@[j].1@
                        == spec_base64(self.entries@[j].1@),
            decreases self.entries@.len() - i,
        {
            let key = self.entries[i].0.clone();
            let encoded = base64_encode(&self.entries[i].1);
            proof {
                lemma_view_get(self.entries@, i as int);
            }
            let ghost gkey = key@;
            let ghost genc = encoded@;
            let ghost old_r = r@;
            r.push((key, encoded));
            proof {
                assert(gkey == self.entries@[i as int].0@);
                assert(genc == spec_base64(self.entries@[i as int].1@));
                assert(r@[i as int].0@ == gkey && r@[i as int].1@ == genc);
                assert forall|j: int| #![trigger r@[j]] 0 <= j < i + 1 implies r@[j].0@
                    == self.entries@[j].0@ && r@[j].1@ == spec_base64(self.entries@[j].1@) by {
                    if j < i {
                        assert(r@[j] == old_r[j]);
                        assert(old_r[j].0@ == self.entries@[j].0@ && old_r[j].1@ == spec_base64(
                            self.entries@[j].1@,
                        ));
                    }
                }
            }
            i = i + 1;
        }
        proof {
            assert forall|j: int| #![trigger r@[j]] 0 <= j < r@.len() implies self@.dom().contains(
                r@[j].0@,
            ) && r@[j].1@ == spec_base64(self@[r@[j].0@]) by {
                lemma_view_get(self.entries@, j);
            }
        }
        r
    }
}

/// A listing of a key map: one pair per key, pairwise distinct, each id
/// in the map and each value the base64 of the id's bytes. Together with
/// the cardinality clause this makes the listing complete; see
/// `lemma_listing_complete`.
pub open spec fn spec_lists_store(r: Seq<(String, String)>, m: Map<Seq<char>, Seq<u8>>) -> bool {
    &&& r.len() == m.dom().len()
    &&& forall|i: int| #![trigger r[i]]
        0 <= i < r.len() ==> m.dom().contains(r[i].0@) && r[i].1@ == spec_base64(m[r[i].0@])
    &&& forall|i: int, j: int| 0 <= i < j < r.len() ==> r[i].0@ != r[j].0@
}

/// The set of ids a listing holds.
pub open spec fn spec_listed_ids(r: Seq<(String, String)>) -> Set<Seq<char>> {
    Set::new(|k: Seq<char>| exists|i: int| 0 <= i < r.len() && #[trigger] r[i].0@ == k)
}

proof fn lemma_listed_ids_len(r: Seq<(String, String)>)
    requires
        forall|i: int, j: int| 0 <= i < j < r.len() ==> r[i].0@ != r[j].0@,
    ensures
        spec_listed_ids(r).finite(),
        spec_listed_ids(r).len() == r.len(),
    decreases r.len(),
{
    if r.len() == 0 {
        assert(spec_listed_ids(r) =~= Set::<Seq<char>>::empty());
    } else {
        let prefix = r.drop_last();
        lemma_listed_ids_len(prefix);
        assert forall|i: int, j: int| 0 <= i < j < prefix.len() implies prefix[i].0@
            != prefix[j].0@ by {
            assert(prefix[i] == r[i] && prefix[j] == r[j]);
        }
        let last = r.last().0@;
        assert(!spec_listed_ids(prefix).contains(last)) by {
            if spec_listed_ids(prefix).contains(last) {
                let w = choose|i: int| 0 <= i < prefix.len() && #[trigger] prefix[i].0@ == last;
                assert(r[w].0@ == r[r.len() - 1].0@);
            }
        }
        assert(spec_listed_ids(r) =~= spec_listed_ids(prefix).insert(last)) by {
            assert forall|k: Seq<char>| spec_listed_ids(r).contains(k) implies spec_listed_ids(
                prefix,
            ).insert(last).contains(k) by {
                let w = choose|i: int| 0 <= i < r.len() && #[trigger] r[i].0@ == k;
                if w < r.len() - 1 {
                    assert(prefix[w].0@ == k);
                }
            }
            assert forall|k: Seq<char>|
                spec_listed_ids(prefix).insert(last).contains(k) implies spec_listed_ids(
                r,
            ).contains(k) by {
                if k != last {
                    let w = choose|i: int|
                        0 <= i < prefix.len() && #[trigger] prefix[i].0@ == k;
                    assert(r[w].0@ == k);
                } else {
                    assert(r[r.len() - 1].0@ == k);
                }
            }
        }
    }
}

/// A listing is complete: every key of the map appears in it. The listed
/// ids are distinct members of the map's domain and as many as the domain
/// holds, so they exhaust it.
pub proof fn lemma_listing_complete(r: Seq<(String, String)>, m: Map<Seq<char>, Seq<u8>>)
    requires
        spec_lists_store(r, m),
        m.dom().finite(),
    ensures
        forall|k: Seq<char>|
            m.dom().contains(k) ==> exists|i: int| 0 <= i < r.len() && #[trigger] r[i].0@ == k,
{
    lemma_listed_ids_len(r);
    let ids = spec_listed_ids(r);
    assert(ids.subset_of(m.dom())) by {
        assert forall|k: Seq<char>| ids.contains(k) implies m.dom().contains(k) by {
            let w = choose|i: int| 0 <= i < r.len() && #[trigger] r[i].0@ == k;
        }
    }
    assert forall|k: Seq<char>| m.dom().contains(k) implies exists|i: int|
        0 <= i < r.len() && #[trigger] r[i].0@ == k by {
        if !ids.contains(k) {
            assert(ids.subset_of(m.dom().remove(k)));
            vstd::set_lib::lemma_len_subset(ids, m.dom().remove(k));
            vstd::set::axiom_set_remove_len(m.dom(), k);
            assert(false);
        }
        assert(ids.contains(k));
    }
}

/// `dom` of a well-formed store has exactly one element per entry.
proof fn lemma_dom_len(entries: Seq<(String, Vec<u8>)>)
    requires
        spec_store_wf(entries),
    ensures
        spec_store_view(entries).dom().finite(),
        spec_store_view(entries).dom().len() == entries.len(),
    decreases entries.len(),
{
    if entries.len() == 0 {
        assert(spec_store_view(entries).dom() =~= Set::<Seq<char>>::empty());
    } else {
        assert(spec_store_wf(entries.drop_last())) by {
            assert(forall|a: int, b: int|
                0 <= a < b < entries.drop_last().len() ==> entries.drop_last()[a].0@
                    != entries.drop_last()[b].0@);
        }
        lemma_dom_len(entries.drop_last());
        lemma_view_dom(entries.drop_last(), entries.last().0@);
        assert(forall|i: int|
            0 <= i < entries.drop_last().len() ==> entries.drop_last()[i] == entries[i]);
        assert(!spec_store_view(entries.drop_last()).dom().contains(entries.last().0@));
    }
}

impl KeyStore {
    /// Takes some entry out of the store; `None` exactly on an empty store.
    pub fn pop_entry(&mut self) -> (r: Option<(String, Vec<u8>)>)
        requires
            old(self).wf(),
        ensures
            final(self).wf(),
            match r {
                Option::Some(e) => {
                    &&& old(self)@.dom().contains(e.0@)
                    &&& e.1@ == old(self)@[e.0@]
                    &&& final(self)@ == old(self)@.remove(e.0@)
                    &&& old(self)@.dom().finite()
                    &&& final(self)@.dom().len() < old(self)@.dom().len()
                },
                Option::None => *final(self) == *old(self) && old(self)@.dom()
                    =~= Set::<Seq<char>>::empty(),
            },
    {
        proof {
            lemma_dom_len(self.entries@);
        }
        if self.entries.len() == 0 {
            proof {
                assert(self@.dom() =~= Set::<Seq<char>>::empty());
            }
            return None;
        }
        let i = self.entries.len() - 1;
        proof {
            lemma_view_get(self.entries@, i as int);
            lemma_view_remove(self.entries@, i as int);
        }
        let ghost k = self.entries@[i as int].0@;
        let e = self.entries.remove(i);
        proof {
            assert(self@ == old(self)@.remove(k));
            assert(self@.dom() =~= old(self)@.dom().remove(k));
            vstd::set::axiom_set_remove_len(old(self)@.dom(), k);
        }
        Some(e)
    }
}

impl KeyStore {
    /// A well-formed store binds finitely many keys.
    pub proof fn lemma_finite(&self)
        requires
            self.wf(),
        ensures
            self@.dom().finite(),
    {
        lemma_dom_len(self.entries@);
    }
}

/// An empty in-memory key store.
pub fn memory_keystore() -> (r: KeyStore)
    ensures
        r.wf(),
        r@ == Map::<Seq<char>, Seq<u8>>::empty(),
{
    proof {
        assert(spec_store_view(Seq::<(String, Vec<u8>)>::empty()) =~= Map::<
            Seq<char>,
            Seq<u8>,
        >::empty());
    }
    let ks = KeyStore { entries: Vec::new() };
    proof {
        assert(ks.entries@ =~= Seq::<(String, Vec<u8>)>::empty());
    }
    ks
}

/// The text is the canonical base64 of some bytes.
pub open spec fn spec_decodes(v: Seq<char>) -> bool {
    exists|b: Seq<u8>| v == #[trigger] spec_base64(b)
}

/// Every value of the pairs is the canonical base64 of some bytes.
pub open spec fn spec_all_decode(pairs: Seq<(String, String)>) -> bool {
    forall|j: int| #![trigger pairs[j]] 0 <= j < pairs.len() ==> spec_decodes(pairs[j].1@)
}

impl KeyStore {
    /// Registers every `(key id, base64 public key)` pair, later pairs
    /// winning. Succeeds exactly when every value is canonical base64;
    /// then each id whose pair is the last with that id is bound to the
    /// decode of its value, earlier bindings of other ids stay, and
    /// nothing else enters the store. Fails, with the store consumed, on
    /// the first value that is not canonical base64.
    pub fn init_from_map(self, map: &Vec<(String, String)>) -> (r: Result<KeyStore, KeyStoreError>)
        requires
            self.wf(),
        ensures
            (r is Ok) == spec_all_decode(map@),
            match r {
                Result::Ok(ks) => {
                    &&& ks.wf()
                    &&& forall|k: Seq<char>|
                        #[trigger] ks@.dom().contains(k) <==> (self@.dom().contains(k) || exists|
                            j: int,
                        | 0 <= j < map@.len() && #[trigger] map@[j].0@ == k)
                    &&& forall|j: int| #![trigger map@[j]]
                        0 <= j < map@.len() && (forall|j2: int|
                            j < j2 < map@.len() ==> (#[trigger] map@[j2].0@) != map@[j].0@)
                            ==> map@[j].1@ == spec_base64(ks@[map@[j].0@])
                    &&& forall|k: Seq<char>|
                        self@.dom().contains(k) && !(exists|j: int|
                            0 <= j < map@.len() && #[trigger] map@[j].0@ == k) ==> ks@[k]
                            == #[trigger] self@[k]
                },
                Result::Err(e) => e matches KeyStoreError::KeyEncodingError(_),
            },
    {
        let ghost m0 = self@;
        let mut ks = self;
        let mut i: usize = 0;
        while i < map.len()
            invariant
                ks.wf(),
                i <= map@.len(),
                m0 == self@,
                forall|j: int| #![trigger map@[j]] 0 <= j < i ==> spec_decodes(map@[j].1@),
                forall|k: Seq<char>|
                    #[trigger] ks@.dom().contains(k) <==> (m0.dom().contains(k) || exists|j: int|
                        0 <= j < i && #[trigger] map@[j].0@ == k),
                forall|j: int| #![trigger map@[j]]
                    0 <= j < i && (forall|j2: int|
                        j < j2 < i ==> (#[trigger] map@[j2].0@) != map@[j].0@) ==> map@[j].1@
                        == spec_base64(ks@[map@[j].0@]),
                forall|k: Seq<char>|
                    m0.dom().contains(k) && !(exists|j: int|
                        0 <= j < i && #[trigger] map@[j].0@ == k) ==> ks@[k] == #[trigger] m0[k],
            decreases map@.len() - i,
        {
            let decoded = match base64_decode(map[i].1.as_str()) {
                Ok(b) => b,
                Err(e) => {
                    proof {
                        assert(!spec_decodes(map@[i as int].1@));
                        assert(!spec_all_decode(map@)) by {
                            if spec_all_decode(map@) {
                                assert(spec_decodes(map@[i as int].1@));
                            }
                        }
                    }
                    return Err(KeyStoreError::KeyEncodingError(e));
                },
            };
            let ghost old_ks = ks@;
            let ghost db = decoded@;
            proof {
                assert(spec_decodes(map@[i as int].1@));
            }
            ks.register_key(map[i].0.clone(), decoded);
            proof {
                let key = map@[i as int].0@;
                assert(ks@ == old_ks.insert(key, db));
                assert(map@[i as int].1@ == spec_base64(db));
                assert forall|k: Seq<char>| #[trigger] ks@.dom().contains(k) implies (
                    m0.dom().contains(k) || exists|j: int|
                        0 <= j < i + 1 && #[trigger] map@[j].0@ == k) by {
                    if k == key {
                        assert(map@[i as int].0@ == k);
                    } else {
                        assert(old_ks.dom().contains(k));
                        if !m0.dom().contains(k) {
                            let w = choose|j: int| 0 <= j < i && #[trigger] map@[j].0@ == k;
                            assert(map@[w].0@ == k);
                        }
                    }
                }
                assert forall|k: Seq<char>|
                    (m0.dom().contains(k) || exists|j: int|
                        0 <= j < i + 1 && #[trigger] map@[j].0@ == k) implies #[trigger] ks@.dom().contains(
                    k,
                ) by {
                    if k != key {
                        if m0.dom().contains(k) {
                            assert(old_ks.dom().contains(k));
                        } else {
                            let w = choose|j: int|
                                0 <= j < i + 1 && #[trigger] map@[j].0@ == k;
                            assert(w < i);
                            assert(old_ks.dom().contains(k));
                        }
                    }
                }
                assert forall|j: int| #![trigger map@[j]]
                    0 <= j < i + 1 && (forall|j2: int|
                        j < j2 < i + 1 ==> (#[trigger] map@[j2].0@) != map@[j].0@) implies map@[j].1@
                    == spec_base64(ks@[map@[j].0@]) by {
                    if j == i {
                        assert(ks@[key] == db);
                    } else {
                        assert(map@[i as int].0@ != map@[j].0@);
                        assert(ks@[map@[j].0@] == old_ks[map@[j].0@]);
                    }
                }
            }
            i = i + 1;
        }
        proof {
            assert(spec_all_decode(map@)) by {
                assert forall|j: int| #![trigger map@[j]]
                    0 <= j < map@.len() implies spec_decodes(map@[j].1@) by {
                    assert(0 <= j < i);
                }
            }
        }
        Ok(ks)
    }
}

} // verus!
