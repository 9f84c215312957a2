//! The task server's state: the persistent map of known executors, the
//! process-lifetime map of connected executors' inboxes, the per-task
//! mailboxes, and the four key stores.
//!
//! Channels live outside the library; an inbox or mailbox is held here as
//! an opaque numeric handle chosen by the caller.

use vstd::prelude::*;
use crate::meta::{ExecutorMeta, QueryMatcher, spec_meta_qmatches};
use crate::query::Query;
use crate::keystore::{KeyStore, KeyStoreError};
use crate::strmap::StrMap;

verus! {

/// The matching known executors, in store order: ids of the known entries
/// whose metadata matches the query.
pub open spec fn spec_matching_ids(entries: Seq<(String, ExecutorMeta)>, q: Query) -> Seq<String>
    decreases entries.len(),
{
    if entries.len() == 0 {
        Seq::empty()
    } else {
        let prefix = spec_matching_ids(entries.drop_last(), q);
        if spec_meta_qmatches(entries.last().1, q) is Match {
            prefix.push(entries.last().0)
        } else {
            prefix
        }
    }
}

/// The ids of the known executors whose metadata matches the query.
pub open spec fn spec_matching_idset(known: Map<Seq<char>, ExecutorMeta>, q: Query) -> Set<
    Seq<char>,
> {
    Set::new(|k: Seq<char>| known.dom().contains(k) && spec_meta_qmatches(known[k], q) is Match)
}

/// The key map after registering the first `i` of the brought pairs, in
/// order, each overriding any earlier binding of its id.
pub open spec fn spec_register_prefix(
    m: Map<Seq<char>, Seq<u8>>,
    pairs: Seq<(String, Vec<u8>)>,
    i: int,
) -> Map<Seq<char>, Seq<u8>>
    decreases i,
{
    if i <= 0 || i > pairs.len() {
        m
    } else {
        spec_register_prefix(m, pairs, i - 1).insert(pairs[i - 1].0@, pairs[i - 1].1@)
    }
}

/// The inbox handle of `id` if it is connected.
pub open spec fn spec_inbox_of(connected: Map<Seq<char>, u64>, id: Seq<char>) -> Option<u64> {
    if connected.dom().contains(id) {
        Option::Some(connected[id])
    } else {
        Option::None
    }
}

/// The dispatch plan for a query: each matching known executor, in store
/// order, with its inbox handle if connected.
pub open spec fn spec_channel_plan(
    entries: Seq<(String, ExecutorMeta)>,
    connected: Map<Seq<char>, u64>,
    q: Query,
) -> Seq<(String, Option<u64>)>
    decreases entries.len(),
{
    if entries.len() == 0 {
        Seq::empty()
    } else {
        let prefix = spec_channel_plan(entries.drop_last(), connected, q);
        if spec_meta_qmatches(entries.last().1, q) is Match {
            prefix.push((entries.last().0, spec_inbox_of(connected, entries.last().0@)))
        } else {
            prefix
        }
    }
}

/// The plan lists exactly the matching ids, each with its inbox.
pub proof fn lemma_channel_plan(
    entries: Seq<(String, ExecutorMeta)>,
    connected: Map<Seq<char>, u64>,
    q: Query,
)
    ensures
        ({
            let ids = spec_matching_ids(entries, q);
            let plan = spec_channel_plan(entries, connected, q);
            &&& plan.len() == ids.len()
            &&& forall|j: int|
                0 <= j < plan.len() ==> #[trigger] plan[j] == (
                ids[j],
                spec_inbox_of(connected, ids[j]@),
            )
        }),
    decreases entries.len(),
{
    if entries.len() == 0 {
    } else {
        lemma_channel_plan(entries.drop_last(), connected, q);
    }
}

/// What dropping by query reports: each matching id, that it was known,
/// and whether it was connected.
pub open spec fn spec_drop_report(
    entries: Seq<(String, ExecutorMeta)>,
    connected: Map<Seq<char>, u64>,
    q: Query,
) -> Seq<(String, bool, bool)>
    decreases entries.len(),
{
    if entries.len() == 0 {
        Seq::empty()
    } else {
        let prefix = spec_drop_report(entries.drop_last(), connected, q);
        if spec_meta_qmatches(entries.last().1, q) is Match {
            prefix.push(
                (entries.last().0, true, connected.dom().contains(entries.last().0@)),
            )
        } else {
            prefix
        }
    }
}

/// The drop report lists exactly the matching ids.
pub proof fn lemma_drop_report(
    entries: Seq<(String, ExecutorMeta)>,
    connected: Map<Seq<char>, u64>,
    q: Query,
)
    ensures
        ({
            let ids = spec_matching_ids(entries, q);
            let rep = spec_drop_report(entries, connected, q);
            &&& rep.len() == ids.len()
            &&& forall|j: int|
                0 <= j < rep.len() ==> #[trigger] rep[j] == (
                ids[j],
                true,
                connected.dom().contains(ids[j]@),
            )
        }),
    decreases entries.len(),
{
    if entries.len() == 0 {
    } else {
        lemma_drop_report(entries.drop_last(), connected, q);
    }
}

/// A key map loaded from `(id, base64 key)` pairs: its keys are exactly
/// the pair ids, and each id whose pair is the last with that id is bound
/// to the decode of its value.
pub open spec fn spec_loaded_keys(
    m: Map<Seq<char>, Seq<u8>>,
    pairs: Seq<(String, String)>,
) -> bool {
    &&& forall|k: Seq<char>|
        #[trigger] m.dom().contains(k) <==> exists|j: int|
            0 <= j < pairs.len() && #[trigger] pairs[j].0@ == k
    &&& forall|j: int| #![trigger pairs[j]]
        0 <= j < pairs.len() && (forall|j2: int|
            j < j2 < pairs.len() ==> (#[trigger] pairs[j2].0@) != pairs[j].0@) ==> pairs[j].1@
            == crate::crypto::spec_base64(m[pairs[j].0@])
}

/// What `init_from_map` ensures over the empty store is exactly a load.
proof fn lemma_loaded_from_empty(m: Map<Seq<char>, Seq<u8>>, pairs: Seq<(String, String)>)
    requires
        forall|k: Seq<char>|
            #[trigger] m.dom().contains(k) <==> (Map::<Seq<char>, Seq<u8>>::empty().dom().contains(
                k,
            ) || exists|j: int| 0 <= j < pairs.len() && #[trigger] pairs[j].0@ == k),
        forall|j: int| #![trigger pairs[j]]
            0 <= j < pairs.len() && (forall|j2: int|
                j < j2 < pairs.len() ==> (#[trigger] pairs[j2].0@) != pairs[j].0@) ==> pairs[j].1@
                == crate::crypto::spec_base64(m[pairs[j].0@]),
    ensures
        spec_loaded_keys(m, pairs),
{
    assert forall|k: Seq<char>| #[trigger] m.dom().contains(k) implies exists|j: int|
        0 <= j < pairs.len() && #[trigger] pairs[j].0@ == k by {
        assert(!Map::<Seq<char>, Seq<u8>>::empty().dom().contains(k));
    }
}

/// The central broker's state.
pub struct TaskServer {
    pub executors: StrMap<u64>,
    pub tasks_sinks: StrMap<u64>,
    pub known: StrMap<ExecutorMeta>,
    pub authorized_keys: KeyStore,
    pub authorized_admin_keys: KeyStore,
    pub trusted_executor_keystore: KeyStore,
    pub unapproved_executor_keystore: KeyStore,
}

impl TaskServer {
    /// The connected-executors map: client id to inbox handle.
    pub open spec fn connected(&self) -> Map<Seq<char>, u64> {
        self.executors@
    }

    /// The known-executors map.
    pub open spec fn known_map(&self) -> Map<Seq<char>, ExecutorMeta> {
        self.known@
    }

    /// The known-executors entries, in store order.
    pub open spec fn known_seq(&self) -> Seq<(String, ExecutorMeta)> {
        self.known.seq_view()
    }

    /// The task mailboxes: task id to mailbox handle.
    pub open spec fn sinks(&self) -> Map<Seq<char>, u64> {
        self.tasks_sinks@
    }

    /// The task-mailbox entries, in store order.
    pub open spec fn sinks_seq(&self) -> Seq<(String, u64)> {
        self.tasks_sinks.seq_view()
    }

    /// Well-formed state: the maps and stores are well formed, and every
    /// connected executor is known.
    pub open spec fn wf(&self) -> bool {
        &&& self.wf_maps()
        &&& forall|k: Seq<char>|
            self.connected().dom().contains(k) ==> self.known_map().dom().contains(k)
    }

    /// The maps and stores alone are well formed.
    pub open spec fn wf_maps(&self) -> bool {
        &&& self.executors.wf()
        &&& self.tasks_sinks.wf()
        &&& self.known.wf()
        &&& self.authorized_keys.wf()
        &&& self.authorized_admin_keys.wf()
        &&& self.trusted_executor_keystore.wf()
        &&& self.unapproved_executor_keystore.wf()
    }

    /// No client id is at once trusted and pending approval.
    pub open spec fn keys_disjoint(&self) -> bool {
        forall|k: Seq<char>|
            !(self.trusted_executor_keystore@.dom().contains(k)
                && self.unapproved_executor_keystore@.dom().contains(k))
    }

    /// A fresh server around the given key stores; no executor is known,
    /// connected, or running a task; the two authorized-key stores hold
    /// exactly the given `(id, base64 key)` maps, decoded. Succeeds exactly
    /// when every given value is canonical base64.
    pub fn new(
        authorized_keys: &Vec<(String, String)>,
        admin_authorized_keys: &Vec<(String, String)>,
        trusted_executor_keystore: KeyStore,
        unapproved_executor_keystore: KeyStore,
    ) -> (r: Result<TaskServer, KeyStoreError>)
        requires
            trusted_executor_keystore.wf(),
            unapproved_executor_keystore.wf(),
        ensures
            (r is Ok) == (crate::keystore::spec_all_decode(authorized_keys@)
                && crate::keystore::spec_all_decode(admin_authorized_keys@)),
            r matches Err(e) ==> e matches KeyStoreError::KeyEncodingError(_),
            r matches Ok(ts) ==> {
                &&& ts.wf()
                &&& ts.connected() == Map::<Seq<char>, u64>::empty()
                &&& ts.known_map() == Map::<Seq<char>, ExecutorMeta>::empty()
                &&& ts.sinks() == Map::<Seq<char>, u64>::empty()
                &&& spec_loaded_keys(ts.authorized_keys@, authorized_keys@)
                &&& spec_loaded_keys(ts.authorized_admin_keys@, admin_authorized_keys@)
                &&& ts.trusted_executor_keystore == trusted_executor_keystore
                &&& ts.unapproved_executor_keystore == unapproved_executor_keystore
            },
    {
        let empty_a = crate::keystore::memory_keystore();
        let authorized = match empty_a.init_from_map(authorized_keys) {
            Ok(ks) => ks,
            Err(e) => {
                return Err(e);
            },
        };
        let empty_b = crate::keystore::memory_keystore();
        let admin = match empty_b.init_from_map(admin_authorized_keys) {
            Ok(ks) => ks,
            Err(e) => {
                return Err(e);
            },
        };
        proof {
            lemma_loaded_from_empty(authorized@, authorized_keys@);
            lemma_loaded_from_empty(admin@, admin_authorized_keys@);
        }
        Ok(
            TaskServer {
                executors: StrMap::new(),
                tasks_sinks: StrMap::new(),
                known: StrMap::new(),
                authorized_keys: authorized,
                authorized_admin_keys: admin,
                trusted_executor_keystore,
                unapproved_executor_keystore,
            },
        )
    }

    /// Registers an executor: its inbox replaces any earlier one, its
    /// metadata replaces the known entry, and the commander keys it brought
    /// are merged into the regular authorized keys.
    pub fn register_executor(
        &mut self,
        meta: ExecutorMeta,
        authorized_keys: Vec<(String, Vec<u8>)>,
        inbox: u64,
    )
        requires
            old(self).wf(),
        ensures
            final(self).wf(),
            final(self).connected() == old(self).connected().insert(meta.client_id@, inbox),
            final(self).known_map() == old(self).known_map().insert(meta.client_id@, meta),
            final(self).sinks() == old(self).sinks(),
            final(self).trusted_executor_keystore == old(self).trusted_executor_keystore,
            final(self).unapproved_executor_keystore == old(self).unapproved_executor_keystore,
            final(self).authorized_keys@ == spec_register_prefix(
                old(self).authorized_keys@,
                authorized_keys@,
                authorized_keys@.len() as int,
            ),
            final(self).authorized_admin_keys == old(self).authorized_admin_keys,
            old(self).keys_disjoint() ==> final(self).keys_disjoint(),
    {
        let client_id = meta.client_id().clone();
        self.executors.insert(client_id, inbox);
        let client_id2 = meta.client_id().clone();
        self.known.insert(client_id2, meta);
        let ghost pairs0 = authorized_keys@;
        let ghost auth0 = self.authorized_keys@;
        let mut keys = authorized_keys;
        let ghost done: int = 0;
        while 0 < keys.len()
            invariant
                self.wf_maps(),
                self.connected() == old(self).connected().insert(meta.client_id@, inbox),
                self.known_map() == old(self).known_map().insert(meta.client_id@, meta),
                self.sinks() == old(self).sinks(),
                self.trusted_executor_keystore == old(self).trusted_executor_keystore,
                self.unapproved_executor_keystore == old(self).unapproved_executor_keystore,
                self.authorized_admin_keys == old(self).authorized_admin_keys,
                auth0 == old(self).authorized_keys@,
                0 <= done <= pairs0.len(),
                keys@ == pairs0.subrange(done, pairs0.len() as int),
                self.authorized_keys@ == spec_register_prefix(auth0, pairs0, done),
                forall|k: Seq<char>|
                    self.connected().dom().contains(k) ==> self.known_map().dom().contains(k),
            decreases keys@.len(),
        {
            let pair = keys.remove(0);
            proof {
                assert(pair == pairs0[done]);
                assert(keys@ =~= pairs0.subrange(done + 1, pairs0.len() as int));
                assert(spec_register_prefix(auth0, pairs0, done + 1) == spec_register_prefix(
                    auth0,
                    pairs0,
                    done,
                ).insert(pairs0[done].0@, pairs0[done].1@));
            }
            self.authorized_keys.register_key(pair.0, pair.1);
            proof {
                done = done + 1;
            }
        }
        proof {
            assert(keys@.len() == 0);
            assert(done == pairs0.len());
        }
    }

    /// The matching known executors with their inboxes: every known
    /// executor whose metadata matches the query, in store order, paired
    /// with its inbox handle if it is connected.
    pub fn get_channels_to_matching_executors(&self, query: &Query) -> (r: Vec<
        (String, Option<u64>),
    >)
        requires
            self.wf(),
        ensures
            r@ == spec_channel_plan(self.known_seq(), self.connected(), *query),
    {
        let mut r: Vec<(String, Option<u64>)> = Vec::new();
        let mut i: usize = 0;
        let n = self.known.len();
        while i < n
            invariant
                self.wf(),
                i <= n,
                n == self.known_seq().len(),
                r@ == spec_channel_plan(
                    self.known_seq().subrange(0, i as int),
                    self.connected(),
                    *query,
                ),
            decreases n - i,
        {
            let ghost pre = self.known_seq().subrange(0, i as int);
            let ghost cur = self.known_seq().subrange(0, i as int + 1);
            proof {
                assert(cur.drop_last() =~= pre);
                assert(cur.last() == self.known_seq()[i as int]);
            }
            let entry = self.known.at(i);
            if entry.1.qmatches(query).matches() {
                let id = entry.0.clone();
                let ghost gid = id;
                let inbox = match self.executors.get(id.as_str()) {
                    Some(h) => Some(*h),
                    None => None,
                };
                proof {
                    assert(gid == cur.last().0);
                    assert(inbox == spec_inbox_of(self.connected(), cur.last().0@));
                }
                r.push((id, inbox));
                proof {
                    assert(r@ == spec_channel_plan(pre, self.connected(), *query).push(
                        (gid, inbox),
                    ));
                }
            }
            i = i + 1;
        }
        proof {
            assert(self.known_seq().subrange(0, n as int) =~= self.known_seq());
        }
        r
    }

    /// A reference to a known executor's metadata.
    pub fn get_known(&self, client_id: &str) -> (r: Option<&ExecutorMeta>)
        requires
            self.wf(),
        ensures
            match r {
                Option::Some(m) => self.known_map().dom().contains(client_id@) && *m
                    == self.known_map()[client_id@],
                Option::None => !self.known_map().dom().contains(client_id@),
            },
    {
        self.known.get(client_id)
    }

    /// The entry of the known map at a position of its store order.
    pub fn known_at(&self, i: usize) -> (r: &(String, ExecutorMeta))
        requires
            self.wf(),
            i < self.known_seq().len(),
        ensures
            *r == self.known_seq()[i as int],
    {
        self.known.at(i)
    }

    /// How many executors are known.
    pub fn known_len(&self) -> (r: usize)
        ensures
            r == self.known_seq().len(),
    {
        self.known.len()
    }

    /// The inbox handle of a connected executor.
    pub fn get_connected(&self, client_id: &str) -> (r: Option<u64>)
        requires
            self.wf(),
        ensures
            match r {
                Option::Some(h) => self.connected().dom().contains(client_id@) && h
                    == self.connected()[client_id@],
                Option::None => !self.connected().dom().contains(client_id@),
            },
    {
        match self.executors.get(client_id) {
            Some(h) => Some(*h),
            None => None,
        }
    }

    /// The connected client ids, in store order.
    pub fn connected_ids(&self) -> (r: Vec<String>)
        requires
            self.wf(),
        ensures
            forall|i: int|
                0 <= i < r@.len() ==> self.connected().dom().contains(#[trigger] r@[i]@),
            forall|k: Seq<char>|
                self.connected().dom().contains(k) ==> exists|i: int|
                    0 <= i < r@.len() && #[trigger] r@[i]@ == k,
    {
        proof {
            self.executors.lemma_seq_view();
        }
        let r = self.executors.keys();
        proof {
            assert forall|k: Seq<char>| self.connected().dom().contains(k) implies exists|i: int|
                0 <= i < r@.len() && #[trigger] r@[i]@ == k by {
                let w = choose|w: int|
                    0 <= w < self.executors.seq_view().len()
                        && #[trigger] self.executors.seq_view()[w].0@ == k;
                assert(r@[w]@ == k);
            }
        }
        r
    }

    /// Drops every known executor matching the query from both maps;
    /// reports, per dropped executor, whether it was known and whether it
    /// was connected.
    pub fn drop_executors(&mut self, query: &Query) -> (r: Vec<(String, bool, bool)>)
        requires
            old(self).wf(),
        ensures
            final(self).wf(),
            final(self).known_map() == old(self).known_map().remove_keys(
                spec_matching_idset(old(self).known_map(), *query),
            ),
            final(self).connected() == old(self).connected().remove_keys(
                spec_matching_idset(old(self).known_map(), *query),
            ),
            final(self).sinks() == old(self).sinks(),
            final(self).trusted_executor_keystore == old(self).trusted_executor_keystore,
            final(self).unapproved_executor_keystore == old(self).unapproved_executor_keystore,
            r@ == spec_drop_report(old(self).known_seq(), old(self).connected(), *query),
    {
        let matching = self.get_channels_to_matching_executors(query);
        let ghost ids = spec_matching_ids(self.known_seq(), *query);
        proof {
            self.known.lemma_seq_view();
            lemma_matching_ids_sound(self.known_seq(), *query);
            lemma_channel_plan(self.known_seq(), self.connected(), *query);
        }
        let ghost known0 = self.known_map();
        let ghost connected0 = self.connected();
        let ghost idset = spec_matching_idset(known0, *query);
        let ghost rep = spec_drop_report(self.known_seq(), connected0, *query);
        proof {
            lemma_drop_report(self.known_seq(), connected0, *query);
            assert(spec_ids_prefix_set(ids, 0) =~= Set::<Seq<char>>::empty());
            assert(known0.remove_keys(spec_ids_prefix_set(ids, 0)) =~= known0);
            assert(connected0.remove_keys(spec_ids_prefix_set(ids, 0)) =~= connected0);
        }
        let mut r: Vec<(String, bool, bool)> = Vec::new();
        let mut i: usize = 0;
        let n = matching.len();
        while i < n
            invariant
                self.wf_maps(),
                i <= n,
                n == matching@.len(),
                n == ids.len(),
                ids == spec_matching_ids(old(self).known_seq(), *query),
                known0 == old(self).known_map(),
                connected0 == old(self).connected(),
                idset == spec_matching_idset(old(self).known_map(), *query),
                forall|j: int|
                    0 <= j < n ==> #[trigger] matching@[j].0 == ids[j] && matching@[j].1
                        == spec_inbox_of(connected0, ids[j]@),
                forall|j: int| 0 <= j < n ==> known0.dom().contains(#[trigger] ids[j]@)
                    && spec_meta_qmatches(known0[ids[j]@], *query) is Match,
                forall|j1: int, j2: int| 0 <= j1 < j2 < n ==> ids[j1]@ != ids[j2]@,
                self.known_map() == known0.remove_keys(spec_ids_prefix_set(ids, i as int)),
                self.connected() == connected0.remove_keys(spec_ids_prefix_set(ids, i as int)),
                self.sinks() == old(self).sinks(),
                self.trusted_executor_keystore == old(self).trusted_executor_keystore,
                self.unapproved_executor_keystore == old(self).unapproved_executor_keystore,
                forall|k: Seq<char>|
                    self.connected().dom().contains(k) ==> self.known_map().dom().contains(k),
                rep == spec_drop_report(old(self).known_seq(), connected0, *query),
                rep.len() == n,
                r@ == rep.subrange(0, i as int),
            decreases n - i,
        {
            let client_id = matching[i].0.clone();
            proof {
                assert(client_id@ == ids[i as int]@);
                assert(!spec_ids_prefix_set(ids, i as int).contains(ids[i as int]@));
                assert(self.known_map().dom().contains(ids[i as int]@));
            }
            let removed_from_known = match self.known.remove(client_id.as_str()) {
                Some(_) => true,
                None => false,
            };
            let removed_from_connected = match self.executors.remove(client_id.as_str()) {
                Some(_) => true,
                None => false,
            };
            proof {
                assert(client_id@ == ids[i as int]@);
                assert(spec_ids_prefix_set(ids, i as int + 1) =~= spec_ids_prefix_set(
                    ids,
                    i as int,
                ).insert(ids[i as int]@));
                assert(self.known_map() =~= known0.remove_keys(
                    spec_ids_prefix_set(ids, i as int + 1),
                ));
                assert(self.connected() =~= connected0.remove_keys(
                    spec_ids_prefix_set(ids, i as int + 1),
                ));
            }
            let ghost old_r = r@;
            let ghost gcid = client_id;
            proof {
                assert(matching@[i as int].1 == spec_inbox_of(connected0, ids[i as int]@));
                assert(removed_from_connected == connected0.dom().contains(ids[i as int]@));
                assert(removed_from_known == true);
                assert(gcid == ids[i as int]);
            }
            r.push((client_id, removed_from_known, removed_from_connected));
            proof {
                lemma_drop_report(old(self).known_seq(), connected0, *query);
                assert(rep[i as int] == (
                    ids[i as int],
                    true,
                    connected0.dom().contains(ids[i as int]@),
                ));
                assert((gcid, removed_from_known, removed_from_connected) == rep[i as int]);
                assert(r@ == old_r.push(rep[i as int]));
                assert(r@ =~= rep.subrange(0, i as int + 1));
            }
            i = i + 1;
        }
        proof {
            assert(spec_ids_prefix_set(ids, n as int) =~= idset) by {
                lemma_matching_ids_complete(old(self).known_seq(), *query);
            }
            assert(self.known_map() =~= known0.remove_keys(idset));
            assert(self.connected() =~= connected0.remove_keys(idset));
            assert(r@ =~= rep.subrange(0, n as int));
            assert(rep.subrange(0, n as int) =~= rep);
        }
        r
    }

}

/// The set of the first `i` ids.
pub open spec fn spec_ids_prefix_set(ids: Seq<String>, i: int) -> Set<Seq<char>> {
    Set::new(|k: Seq<char>| exists|j: int| 0 <= j < i && j < ids.len() && #[trigger] ids[j]@ == k)
}

/// Every id in the matching list names a known executor whose metadata
/// matches, and the list's ids are the entries' keys in order.
pub proof fn lemma_matching_ids_sound(entries: Seq<(String, ExecutorMeta)>, q: Query)
    requires
        crate::strmap::spec_assoc_wf(entries),
    ensures
        ({
            let ids = spec_matching_ids(entries, q);
            let m = crate::strmap::spec_assoc_view(entries);
            &&& forall|j: int|
                0 <= j < ids.len() ==> m.dom().contains(#[trigger] ids[j]@)
                    && spec_meta_qmatches(m[ids[j]@], q) is Match
            &&& forall|j1: int, j2: int| 0 <= j1 < j2 < ids.len() ==> ids[j1]@ != ids[j2]@
        }),
    decreases entries.len(),
{
    if entries.len() == 0 {
    } else {
        crate::strmap::lemma_assoc_wf_prefix(entries);
        lemma_matching_ids_sound(entries.drop_last(), q);
        let ids = spec_matching_ids(entries, q);
        let prefix_ids = spec_matching_ids(entries.drop_last(), q);
        let m = crate::strmap::spec_assoc_view(entries);
        let pm = crate::strmap::spec_assoc_view(entries.drop_last());
        assert forall|j: int| 0 <= j < ids.len() implies m.dom().contains(#[trigger] ids[j]@)
            && spec_meta_qmatches(m[ids[j]@], q) is Match by {
            if j < prefix_ids.len() {
                assert(pm.dom().contains(ids[j]@) && spec_meta_qmatches(pm[ids[j]@], q) is Match);
                crate::strmap::lemma_assoc_dom(entries.drop_last(), ids[j]@);
                let w = choose|w: int|
                    0 <= w < entries.drop_last().len() && entries.drop_last()[w].0@ == ids[j]@;
                assert(entries[w].0@ == ids[j]@);
                assert(entries.last().0@ != entries[w].0@);
                assert(m[ids[j]@] == pm[ids[j]@]);
            } else {
                assert(ids[j] == entries.last().0);
                crate::strmap::lemma_assoc_get(entries, entries.len() - 1);
            }
        }
        assert forall|j1: int, j2: int| 0 <= j1 < j2 < ids.len() implies ids[j1]@ != ids[j2]@ by {
            if j2 < prefix_ids.len() {
            } else if j1 < prefix_ids.len() && j2 == prefix_ids.len() {
                assert(pm.dom().contains(prefix_ids[j1]@));
                crate::strmap::lemma_assoc_dom(entries.drop_last(), prefix_ids[j1]@);
                let w = choose|w: int|
                    0 <= w < entries.drop_last().len() && entries.drop_last()[w].0@
                        == prefix_ids[j1]@;
                assert(entries[w].0@ == prefix_ids[j1]@);
                assert(entries.last().0@ != entries[w].0@);
                assert(ids[j2] == entries.last().0);
            }
        }
    }
}

/// Every known executor whose metadata matches appears among the matching
/// ids.
pub proof fn lemma_matching_ids_complete(entries: Seq<(String, ExecutorMeta)>, q: Query)
    requires
        crate::strmap::spec_assoc_wf(entries),
    ensures
        ({
            let ids = spec_matching_ids(entries, q);
            let m = crate::strmap::spec_assoc_view(entries);
            forall|k: Seq<char>|
                m.dom().contains(k) && spec_meta_qmatches(m[k], q) is Match ==> exists|j: int|
                    0 <= j < ids.len() && #[trigger] ids[j]@ == k
        }),
    decreases entries.len(),
{
    if entries.len() == 0 {
    } else {
        crate::strmap::lemma_assoc_wf_prefix(entries);
        lemma_matching_ids_complete(entries.drop_last(), q);
        let ids = spec_matching_ids(entries, q);
        let prefix_ids = spec_matching_ids(entries.drop_last(), q);
        let m = crate::strmap::spec_assoc_view(entries);
        let pm = crate::strmap::spec_assoc_view(entries.drop_last());
        assert forall|k: Seq<char>|
            m.dom().contains(k) && spec_meta_qmatches(m[k], q) is Match implies exists|j: int|
            0 <= j < ids.len() && #[trigger] ids[j]@ == k by {
            if k == entries.last().0@ {
                crate::strmap::lemma_assoc_get(entries, entries.len() - 1);
                assert(m[k] == entries.last().1);
                assert(ids[ids.len() - 1]@ == k);
            } else {
                assert(pm.dom().contains(k));
                crate::strmap::lemma_assoc_dom(entries.drop_last(), k);
                let w = choose|w: int|
                    0 <= w < entries.drop_last().len() && entries.drop_last()[w].0@ == k;
                assert(entries[w].0@ == k);
                crate::strmap::lemma_assoc_get(entries, w);
                crate::strmap::lemma_assoc_get(entries.drop_last(), w);
                assert(pm[k] == m[k]);
                let j = choose|j: int| 0 <= j < prefix_ids.len() && #[trigger] prefix_ids[j]@ == k;
                assert(ids[j]@ == k);
            }
        }
    }
}

} // verus!

verus! {

/// The protocol spoken between executors, commanders and the server;
/// an exact match is required.
pub const PROTOCOL_VERSION: &'static str = "1.0.0";

/// Strict protocol-version check.
pub fn protocol_version_matches(v: &str) -> (r: bool)
    ensures
        r == (v@ == PROTOCOL_VERSION@),
{
    crate::meta::str_eq(v, PROTOCOL_VERSION)
}

/// The lowercase hexadecimal digit of a nibble.
pub open spec fn spec_hex_digit(n: int) -> char {
    if n == 0 { '0' } else if n == 1 { '1' } else if n == 2 { '2' } else if n == 3 { '3' }
    else if n == 4 { '4' } else if n == 5 { '5' } else if n == 6 { '6' } else if n == 7 { '7' }
    else if n == 8 { '8' } else if n == 9 { '9' } else if n == 10 { 'a' } else if n == 11 { 'b' }
    else if n == 12 { 'c' } else if n == 13 { 'd' } else if n == 14 { 'e' } else { 'f' }
}

/// The lowercase hexadecimal rendering of `n`, without leading zeroes.
pub open spec fn spec_hex(n: u128) -> Seq<char>
    decreases n,
{
    if n < 16 {
        seq![spec_hex_digit(n as int)]
    } else {
        spec_hex(n / 16).push(spec_hex_digit((n % 16) as int))
    }
}

fn hex_digit(n: u128) -> (c: char)
    requires
        n < 16,
    ensures
        c == spec_hex_digit(n as int),
{
    if n == 0 { '0' } else if n == 1 { '1' } else if n == 2 { '2' } else if n == 3 { '3' }
    else if n == 4 { '4' } else if n == 5 { '5' } else if n == 6 { '6' } else if n == 7 { '7' }
    else if n == 8 { '8' } else if n == 9 { '9' } else if n == 10 { 'a' } else if n == 11 { 'b' }
    else if n == 12 { 'c' } else if n == 13 { 'd' } else if n == 14 { 'e' } else { 'f' }
}

fn hex_chars_into(n: u128, v: &mut Vec<char>)
    ensures
        final(v)@ == old(v)@ + spec_hex(n),
    decreases n,
{
    if n < 16 {
        v.push(hex_digit(n));
        proof {
            assert(final(v)@ =~= old(v)@ + spec_hex(n));
        }
    } else {
        hex_chars_into(n / 16, v);
        v.push(hex_digit(n % 16));
        proof {
            assert(final(v)@ =~= old(v)@ + spec_hex(n));
        }
    }
}

/// The lowercase hexadecimal rendering of `n`.
pub fn hex_string(n: u128) -> (s: String)
    ensures
        s@ == spec_hex(n),
{
    let mut v: Vec<char> = Vec::new();
    hex_chars_into(n, &mut v);
    proof {
        assert(v@ =~= spec_hex(n));
    }
    crate::parser::chars_to_string(&v)
}

/// A fresh random 128-bit task id, rendered as lowercase hex.
pub fn random_task_id() -> (id: String)
    ensures
        exists|n: u128| id@ == #[trigger] spec_hex(n),
{
    let n: u128 = rand::random();
    hex_string(n)
}

/// What approving every pending key does: the pending keys move into the
/// trusted store, overriding, and nothing stays pending.
pub open spec fn spec_approve_all(
    trusted: Map<Seq<char>, Seq<u8>>,
    unapproved: Map<Seq<char>, Seq<u8>>,
) -> (Map<Seq<char>, Seq<u8>>, Map<Seq<char>, Seq<u8>>) {
    (trusted.union_prefer_right(unapproved), Map::empty())
}

impl TaskServer {
    /// Trust-on-first-use: a key that is neither the trusted nor the
    /// already-pending key of this client id is recorded as pending.
    pub fn handle_executor_key(&mut self, client_id: &str, key_bytes: &[u8])
        requires
            old(self).wf(),
        ensures
            final(self).wf(),
            final(self).connected() == old(self).connected(),
            final(self).known_map() == old(self).known_map(),
            final(self).sinks() == old(self).sinks(),
            final(self).trusted_executor_keystore == old(self).trusted_executor_keystore,
            if (old(self).trusted_executor_keystore@.dom().contains(client_id@)
                && old(self).trusted_executor_keystore@[client_id@] == key_bytes@) || (old(
                self,
            ).unapproved_executor_keystore@.dom().contains(client_id@) && old(
                self,
            ).unapproved_executor_keystore@[client_id@] == key_bytes@) {
                final(self).unapproved_executor_keystore@ == old(
                    self,
                ).unapproved_executor_keystore@
            } else {
                final(self).unapproved_executor_keystore@ == old(
                    self,
                ).unapproved_executor_keystore@.insert(client_id@, key_bytes@)
            },
            (old(self).keys_disjoint() && !old(self).trusted_executor_keystore@.dom().contains(
                client_id@,
            )) ==> final(self).keys_disjoint(),
    {
        let in_trusted = self.trusted_executor_keystore.has_key(client_id, key_bytes);
        let in_unapproved = self.unapproved_executor_keystore.has_key(client_id, key_bytes);
        if !in_trusted && !in_unapproved {
            self.unapproved_executor_keystore.register_key(
                client_id.to_owned(),
                vstd::slice::slice_to_vec(key_bytes),
            );
        }
        proof {
            assert forall|k: Seq<char>| self.connected().dom().contains(k)
                implies self.known_map().dom().contains(k) by {
                assert(old(self).connected().dom().contains(k));
            }
        }
    }

    /// Moves a pending key into the trusted store; `KeyNotFound` when no
    /// key of this client id is pending.
    pub fn approve_executor_key(&mut self, client_id: &str) -> (r: Result<(), KeyStoreError>)
        requires
            old(self).wf(),
        ensures
            final(self).wf(),
            final(self).connected() == old(self).connected(),
            final(self).known_map() == old(self).known_map(),
            final(self).sinks() == old(self).sinks(),
            match r {
                Result::Ok(_) => {
                    &&& old(self).unapproved_executor_keystore@.dom().contains(client_id@)
                    &&& final(self).trusted_executor_keystore@ == old(
                        self,
                    ).trusted_executor_keystore@.insert(
                        client_id@,
                        old(self).unapproved_executor_keystore@[client_id@],
                    )
                    &&& final(self).unapproved_executor_keystore@ == old(
                        self,
                    ).unapproved_executor_keystore@.remove(client_id@)
                },
                Result::Err(e) => {
                    &&& !old(self).unapproved_executor_keystore@.dom().contains(client_id@)
                    &&& e matches KeyStoreError::KeyNotFound(m) && m@ == client_id@
                    &&& *final(self) == *old(self)
                },
            },
            final(self).authorized_keys == old(self).authorized_keys,
            final(self).authorized_admin_keys == old(self).authorized_admin_keys,
            old(self).keys_disjoint() ==> final(self).keys_disjoint(),
    {
        let r = match self.unapproved_executor_keystore.remove_key(client_id) {
            Ok(bytes) => {
                self.trusted_executor_keystore.register_key(client_id.to_owned(), bytes);
                Ok(())
            },
            Err(e) => Err(e),
        };
        proof {
            assert forall|k: Seq<char>| self.connected().dom().contains(k)
                implies self.known_map().dom().contains(k) by {
                assert(old(self).connected().dom().contains(k));
            }
        }
        r
    }

    /// Approves every pending key: the trusted store takes them all over,
    /// and nothing stays pending.
    pub fn approve_all_executor_keys(&mut self)
        requires
            old(self).wf(),
        ensures
            final(self).wf(),
            final(self).connected() == old(self).connected(),
            final(self).known_map() == old(self).known_map(),
            final(self).sinks() == old(self).sinks(),
            (
                final(self).trusted_executor_keystore@,
                final(self).unapproved_executor_keystore@,
            ) == spec_approve_all(
                old(self).trusted_executor_keystore@,
                old(self).unapproved_executor_keystore@,
            ),
            final(self).keys_disjoint(),
    {
        let ghost t0 = self.trusted_executor_keystore@;
        let ghost u0 = self.unapproved_executor_keystore@;
        proof {
            self.unapproved_executor_keystore.lemma_finite();
        }
        loop
            invariant_except_break
                self.wf(),
                self.connected() == old(self).connected(),
                self.known_map() == old(self).known_map(),
                self.sinks() == old(self).sinks(),
                self.trusted_executor_keystore@.union_prefer_right(
                    self.unapproved_executor_keystore@,
                ) == t0.union_prefer_right(u0),
                t0 == old(self).trusted_executor_keystore@,
                u0 == old(self).unapproved_executor_keystore@,
                self.unapproved_executor_keystore@.dom().finite(),
            ensures
                self.wf(),
                self.connected() == old(self).connected(),
                self.known_map() == old(self).known_map(),
                self.sinks() == old(self).sinks(),
                t0 == old(self).trusted_executor_keystore@,
                u0 == old(self).unapproved_executor_keystore@,
                self.trusted_executor_keystore@ == t0.union_prefer_right(u0),
                self.unapproved_executor_keystore@ == Map::<Seq<char>, Seq<u8>>::empty(),
            decreases self.unapproved_executor_keystore@.dom().len(),
        {
            let ghost t = self.trusted_executor_keystore@;
            let ghost u = self.unapproved_executor_keystore@;
            match self.unapproved_executor_keystore.pop_entry() {
                None => {
                    proof {
                        assert(self.unapproved_executor_keystore@ =~= Map::<
                            Seq<char>,
                            Seq<u8>,
                        >::empty());
                        assert(t.union_prefer_right(self.unapproved_executor_keystore@) =~= t);
                    }
                    break;
                },
                Some(entry) => {
                    self.trusted_executor_keystore.register_key(entry.0, entry.1);
                    proof {
                        assert(self.trusted_executor_keystore@.union_prefer_right(
                            self.unapproved_executor_keystore@,
                        ) =~= t.union_prefer_right(u));
                    }
                },
            }
        }
        proof {
            assert forall|k: Seq<char>| self.connected().dom().contains(k)
                implies self.known_map().dom().contains(k) by {
                assert(old(self).connected().dom().contains(k));
            }
        }
    }

    /// Registers a fresh task: a random id — the lowercase hex of some
    /// 128-bit value — is bound to the mailbox handle.
    pub fn register_new_task(&mut self, mailbox: u64) -> (id: String)
        requires
            old(self).wf(),
        ensures
            final(self).wf(),
            exists|n: u128| id@ == #[trigger] spec_hex(n),
            final(self).sinks() == old(self).sinks().insert(id@, mailbox),
            final(self).connected() == old(self).connected(),
            final(self).known_map() == old(self).known_map(),
            final(self).trusted_executor_keystore == old(self).trusted_executor_keystore,
            final(self).unapproved_executor_keystore == old(self).unapproved_executor_keystore,
    {
        let task_id = random_task_id();
        let id2 = task_id.clone();
        self.tasks_sinks.insert(id2, mailbox);
        proof {
            assert forall|k: Seq<char>| self.connected().dom().contains(k)
                implies self.known_map().dom().contains(k) by {
                assert(old(self).connected().dom().contains(k));
            }
        }
        task_id
    }

    /// Takes the mailbox of a task out of the map; later events for the
    /// same task id find nothing.
    pub fn get_task_sink(&mut self, task_id: &str) -> (r: Option<u64>)
        requires
            old(self).wf(),
        ensures
            final(self).wf(),
            final(self).connected() == old(self).connected(),
            final(self).known_map() == old(self).known_map(),
            final(self).trusted_executor_keystore == old(self).trusted_executor_keystore,
            final(self).unapproved_executor_keystore == old(self).unapproved_executor_keystore,
            match r {
                Option::Some(h) => old(self).sinks().dom().contains(task_id@) && h == old(
                    self,
                ).sinks()[task_id@] && final(self).sinks() == old(self).sinks().remove(task_id@),
                Option::None => !old(self).sinks().dom().contains(task_id@) && final(self).sinks()
                    == old(self).sinks(),
            },
    {
        let r = self.tasks_sinks.remove(task_id);
        proof {
            assert forall|k: Seq<char>| self.connected().dom().contains(k)
                implies self.known_map().dom().contains(k) by {
                assert(old(self).connected().dom().contains(k));
            }
        }
        r
    }

    /// The ids of the tasks whose mailboxes are live, in store order.
    pub fn get_running_tasks(&self) -> (r: Vec<String>)
        requires
            self.wf(),
        ensures
            r@.len() == self.sinks_seq().len(),
            forall|i: int| 0 <= i < r@.len() ==> r@[i]@ == self.sinks_seq()[i].0@,
    {
        self.tasks_sinks.keys()
    }

    /// The trusted executor keys, as `(key id, base64 bytes)` pairs: a
    /// complete, duplicate-free listing of the trusted store.
    pub fn list_trusted_executor_keys(&self) -> (r: Vec<(String, String)>)
        requires
            self.wf(),
        ensures
            crate::keystore::spec_lists_store(r@, self.trusted_executor_keystore@),
    {
        self.trusted_executor_keystore.list_all()
    }

    /// The pending executor keys, as `(key id, base64 bytes)` pairs: a
    /// complete, duplicate-free listing of the pending store.
    pub fn list_unapproved_executor_keys(&self) -> (r: Vec<(String, String)>)
        requires
            self.wf(),
        ensures
            crate::keystore::spec_lists_store(r@, self.unapproved_executor_keystore@),
    {
        self.unapproved_executor_keystore.list_all()
    }
}

} // verus!
