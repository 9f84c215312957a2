//! The library's standing guarantees, proved once over the ghost models
//! that the executable contracts speak of.

use vstd::prelude::*;
use crate::crypto::ed25519_public_key;
use crate::keystore::{spec_check_payload, SpecKeyStoreError};
use crate::meta::{ExecutorMeta, spec_meta_qmatches};
use crate::query::Query;
use crate::registry::{TaskServer, spec_approve_all, spec_matching_ids};
use crate::signed_payload::{SignedPayload, spec_signed_with};

verus! {

/// A successfully verified envelope is not expired: its validity instant
/// stands at or after the checking instant.
pub proof fn lemma_verified_payload_not_expired(
    keys: Map<Seq<char>, Seq<u8>>,
    sp: SignedPayload,
    now: u64,
)
    ensures
        spec_check_payload(keys, sp, now) is Ok ==> now <= sp.valid_until_secs,
{
}

/// Round trip: an envelope signed with a key verifies, and yields its
/// payload back, against any store that binds its key id to the matching
/// public key — as long as it has not expired.
pub proof fn lemma_sign_verify_roundtrip(
    keys: Map<Seq<char>, Seq<u8>>,
    sp: SignedPayload,
    pkcs8: Seq<u8>,
    now: u64,
)
    requires
        spec_signed_with(sp, pkcs8),
        keys.dom().contains(sp.key_id@),
        keys[sp.key_id@] == ed25519_public_key(pkcs8),
        now <= sp.valid_until_secs,
    ensures
        spec_check_payload(keys, sp, now) == Result::<Seq<u8>, SpecKeyStoreError>::Ok(sp.payload@),
{
}

/// An expired envelope is refused as expired, whatever else holds of it.
pub proof fn lemma_expired_payload_refused(
    keys: Map<Seq<char>, Seq<u8>>,
    sp: SignedPayload,
    now: u64,
)
    requires
        now > sp.valid_until_secs,
    ensures
        spec_check_payload(keys, sp, now) == Result::<Seq<u8>, SpecKeyStoreError>::Err(
            SpecKeyStoreError::ExpiredSignature(sp.valid_until_secs, now),
        ),
{
}

/// Approving all pending keys is idempotent: a second approval of
/// everything, after one that left nothing pending, changes nothing.
pub proof fn lemma_approve_all_idempotent(
    trusted: Map<Seq<char>, Seq<u8>>,
    unapproved: Map<Seq<char>, Seq<u8>>,
)
    ensures
        ({
            let once = spec_approve_all(trusted, unapproved);
            spec_approve_all(once.0, once.1) == once
        }),
{
    let once = spec_approve_all(trusted, unapproved);
    assert(once.0.union_prefer_right(Map::<Seq<char>, Seq<u8>>::empty()) =~= once.0);
}

/// In a well-formed server state, every connected executor is known.
pub proof fn lemma_connected_is_known(ts: TaskServer, client_id: Seq<char>)
    requires
        ts.wf(),
        ts.connected().dom().contains(client_id),
    ensures
        ts.known_map().dom().contains(client_id),
{
}

/// The wildcard query matches every executor's metadata.
pub proof fn lemma_wildcard_matches_every_meta(m: ExecutorMeta)
    ensures
        spec_meta_qmatches(m, Query::Wildcard) is Match,
{
}

/// A wildcard-only predicate selects every known executor: the matching
/// ids under the wildcard are exactly the known ids, in store order.
pub proof fn lemma_wildcard_selects_all(entries: Seq<(String, ExecutorMeta)>)
    ensures
        ({
            let ids = spec_matching_ids(entries, Query::Wildcard);
            &&& ids.len() == entries.len()
            &&& forall|i: int| 0 <= i < entries.len() ==> ids[i] == entries[i].0
        }),
    decreases entries.len(),
{
    if entries.len() == 0 {
    } else {
        lemma_wildcard_selects_all(entries.drop_last());
        let ids = spec_matching_ids(entries, Query::Wildcard);
        assert(spec_meta_qmatches(entries.last().1, Query::Wildcard) is Match);
        assert forall|i: int| 0 <= i < entries.len() implies ids[i] == entries[i].0 by {
            if i < entries.len() - 1 {
                assert(entries.drop_last()[i] == entries[i]);
            }
        }
    }
}

/// Trust-on-first-use preserves the trusted/pending disjointness, as long
/// as the connecting client id is not already trusted under another key;
/// a client id that is trusted under different bytes would land in the
/// pending store beside its trusted entry.
pub proof fn lemma_tofu_preserves_disjointness(
    trusted: Map<Seq<char>, Seq<u8>>,
    unapproved: Map<Seq<char>, Seq<u8>>,
    client_id: Seq<char>,
    key_bytes: Seq<u8>,
)
    requires
        forall|k: Seq<char>| !(trusted.dom().contains(k) && unapproved.dom().contains(k)),
        !trusted.dom().contains(client_id),
    ensures
        forall|k: Seq<char>|
            !(trusted.dom().contains(k) && unapproved.insert(client_id, key_bytes).dom().contains(
                k,
            )),
{
}

/// Approving one pending key preserves the trusted/pending disjointness:
/// the key leaves the pending store as it enters the trusted one.
pub proof fn lemma_approval_preserves_disjointness(
    trusted: Map<Seq<char>, Seq<u8>>,
    unapproved: Map<Seq<char>, Seq<u8>>,
    client_id: Seq<char>,
)
    requires
        forall|k: Seq<char>| !(trusted.dom().contains(k) && unapproved.dom().contains(k)),
        unapproved.dom().contains(client_id),
    ensures
        forall|k: Seq<char>|
            !(trusted.insert(client_id, unapproved[client_id]).dom().contains(k)
                && unapproved.remove(client_id).dom().contains(k)),
{
}

} // verus!
