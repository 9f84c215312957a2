//! The dispatch protocol: the messages that flow between commanders,
//! the server and executors, authentication of requests, the admin
//! operations, and the per-executor delivery decisions of a launch.

use vstd::prelude::*;
use crate::keystore::KeyStoreError;
use crate::parser::{parse, spec_expression, spec_parses_fully, QueryParseError};
use crate::query::Query;
use crate::registry::{TaskServer, spec_channel_plan, spec_drop_report, spec_approve_all,
    spec_matching_ids, spec_matching_idset};
use crate::signed_payload::SignedPayload;
use crate::meta::{ExecutorMeta, spec_meta_qmatches};
use crate::crypto::ed25519_verifies;

verus! {

/// What a commander asks executors to do.
#[derive(Debug, PartialEq, Eq)]
pub enum Task {
    ExecuteCommand(String),
    AuthorizeKey(String, Vec<u8>),
    RevokeKey(String),
    StreamingPayload,
}

/// One event of a task's execution, as reported back to the commander.
#[derive(Debug, PartialEq, Eq)]
pub enum ExecutionResult {
    TaskSubmitted,
    Ping,
    Stdout(String),
    Stderr(String),
    TaskRejected(String),
    TaskAborted,
    TaskCompleted(i32),
    Disconnected,
}

/// A frame of the commander's launch stream.
#[derive(Debug, PartialEq, Eq)]
pub enum TaskResponse {
    MatchingExecutors(Vec<String>),
    TaskExecutionResult { task_id: String, client_id: String, execution_result: ExecutionResult },
}

/// An admin request, already authenticated and decoded.
#[derive(Debug, PartialEq, Eq)]
pub enum AdminRequest {
    ListConnectedExecutors(String),
    ListKnownExecutors(String),
    ListRunningTasks,
    DropExecutor(String),
    ListExecutorKeys,
    ApproveExecutorKey(String),
    ListAuthorizedKeys,
    ListAdminAuthorizedKeys,
}

/// The structured admin response; serialization is the caller's business.
#[derive(Debug, PartialEq, Eq)]
pub enum AdminResponse {
    ConnectedExecutors(Vec<String>),
    KnownExecutors(Vec<String>),
    RunningTasks(Vec<String>),
    DroppedExecutors(Vec<(String, bool, bool)>),
    ExecutorKeys { trusted: Vec<(String, String)>, unapproved: Vec<(String, String)> },
    AuthorizedKeys(Vec<(String, String)>),
    AdminAuthorizedKeys(Vec<(String, String)>),
    Approved,
}

/// Why an admin request failed.
#[derive(Debug, PartialEq, Eq)]
pub enum AdminError {
    InvalidQuery(QueryParseError),
    Key(KeyStoreError),
}

/// Key-management tasks demand the elevated key store.
pub fn task_requires_admin(t: &Task) -> (r: bool)
    ensures
        r == (*t is AuthorizeKey || *t is RevokeKey),
{
    match t {
        Task::AuthorizeKey(_, _) => true,
        Task::RevokeKey(_) => true,
        _ => false,
    }
}

/// Authenticates a commander request: the envelope must verify against
/// the regular authorized keys.
pub fn authenticate_commander(ts: &TaskServer, sp: &SignedPayload) -> (r: Result<
    Vec<u8>,
    KeyStoreError,
>)
    requires
        ts.wf(),
    ensures
        r matches Ok(b) ==> {
            &&& b@ == sp.payload@
            &&& ts.authorized_keys@.dom().contains(sp.key_id@)
            &&& ed25519_verifies(
                ts.authorized_keys@[sp.key_id@],
                crate::signed_payload::spec_bytes_to_sign(
                    sp.payload@,
                    sp.nonce,
                    sp.valid_until_secs,
                ),
                sp.signature@,
            )
        },
{
    ts.authorized_keys.decode_payload(sp)
}

/// Authenticates an admin request: the envelope must verify against the
/// elevated key store.
pub fn authenticate_admin(ts: &TaskServer, sp: &SignedPayload) -> (r: Result<
    Vec<u8>,
    KeyStoreError,
>)
    requires
        ts.wf(),
    ensures
        r matches Ok(b) ==> {
            &&& b@ == sp.payload@
            &&& ts.authorized_admin_keys@.dom().contains(sp.key_id@)
            &&& ed25519_verifies(
                ts.authorized_admin_keys@[sp.key_id@],
                crate::signed_payload::spec_bytes_to_sign(
                    sp.payload@,
                    sp.nonce,
                    sp.valid_until_secs,
                ),
                sp.signature@,
            )
        },
{
    ts.authorized_admin_keys.decode_payload(sp)
}

/// The ids of a dispatch plan, for the `MatchingExecutors` frame.
pub fn plan_client_ids(plan: &Vec<(String, Option<u64>)>) -> (r: Vec<String>)
    ensures
        r@.len() == plan@.len(),
        forall|i: int| 0 <= i < r@.len() ==> r@[i] == plan@[i].0,
{
    let mut r: Vec<String> = Vec::new();
    let mut i: usize = 0;
    while i < plan.len()
        invariant
            i <= plan@.len(),
            r@.len() == i,
            forall|j: int| 0 <= j < i ==> r@[j] == plan@[j].0,
        decreases plan@.len() - i,
    {
        let ghost old_r = r@;
        r.push(plan[i].0.clone());
        proof {
            assert(forall|j: int| 0 <= j < i ==> r@[j] == old_r[j]);
        }
        i = i + 1;
    }
    r
}

/// The server-synthesized event for one executor of a dispatch: a task was
/// submitted into a live inbox, or the executor counts as disconnected —
/// because it had no inbox, or because the send into its inbox failed.
pub fn dispatch_event(task_id: String, client_id: String, connected: bool, send_ok: bool) -> (r:
    TaskResponse)
    ensures
        r matches TaskResponse::TaskExecutionResult { task_id: t, client_id: c, execution_result: e }
            && t == task_id && c == client_id && e == (
        if connected && send_ok {
            ExecutionResult::TaskSubmitted
        } else {
            ExecutionResult::Disconnected
        }),
{
    let execution_result = if connected && send_ok {
        ExecutionResult::TaskSubmitted
    } else {
        ExecutionResult::Disconnected
    };
    TaskResponse::TaskExecutionResult { task_id, client_id, execution_result }
}

/// The connected subset of the matching known executors, in store order.
pub open spec fn spec_connected_matching_ids(
    entries: Seq<(String, ExecutorMeta)>,
    connected: Map<Seq<char>, u64>,
    q: Query,
) -> Seq<String>
    decreases entries.len(),
{
    if entries.len() == 0 {
        Seq::empty()
    } else {
        let prefix = spec_connected_matching_ids(entries.drop_last(), connected, q);
        if spec_meta_qmatches(entries.last().1, q) is Match && connected.dom().contains(
            entries.last().0@,
        ) {
            prefix.push(entries.last().0)
        } else {
            prefix
        }
    }
}

/// The ids of the connected executors whose metadata matches the query,
/// in known-store order.
pub fn connected_matching_ids(ts: &TaskServer, query: &Query) -> (ids: Vec<String>)
    requires
        ts.wf(),
    ensures
        ids@ == spec_connected_matching_ids(ts.known_seq(), ts.connected(), *query),
{
    let plan = ts.get_channels_to_matching_executors(query);
    proof {
        lemma_connected_of_plan(ts.known_seq(), ts.connected(), *query);
    }
    let mut ids: Vec<String> = Vec::new();
    let mut i: usize = 0;
    while i < plan.len()
        invariant
            i <= plan@.len(),
            plan@ == spec_channel_plan(ts.known_seq(), ts.connected(), *query),
            spec_connected_of_plan(plan@) == spec_connected_matching_ids(
                ts.known_seq(),
                ts.connected(),
                *query,
            ),
            ids@ == spec_connected_of_plan(plan@.subrange(0, i as int)),
        decreases plan@.len() - i,
    {
        let ghost pre = plan@.subrange(0, i as int);
        let ghost cur = plan@.subrange(0, i as int + 1);
        proof {
            assert(cur.drop_last() =~= pre);
            assert(cur.last() == plan@[i as int]);
        }
        match &plan[i].1 {
            Some(_) => {
                let id = plan[i].0.clone();
                let ghost gid = id;
                ids.push(id);
                proof {
                    assert(gid == cur.last().0);
                    assert(ids@ == spec_connected_of_plan(pre).push(cur.last().0));
                }
            },
            None => {},
        }
        i = i + 1;
    }
    proof {
        assert(plan@.subrange(0, plan@.len() as int) =~= plan@);
    }
    ids
}

/// Handles an admin request against the server state.
///
/// Listing requests leave the state unchanged; `DropExecutor` removes the
/// matching executors from both maps; `ApproveExecutorKey` moves one
/// pending key — or, for `*`, every pending key — into the trusted store.
/// It fails exactly on a predicate the grammar refuses, or on approving a
/// named key that is not pending; failure changes nothing.
#[verifier::spinoff_prover]
#[verifier::rlimit(100)]
pub fn handle_admin_request(ts: &mut TaskServer, req: &AdminRequest) -> (r: Result<
    AdminResponse,
    AdminError,
>)
    requires
        old(ts).wf(),
    ensures
        final(ts).wf(),
        (r is Err) == match *req {
            AdminRequest::ListConnectedExecutors(q) => !spec_parses_fully(q@),
            AdminRequest::ListKnownExecutors(q) => !spec_parses_fully(q@),
            AdminRequest::DropExecutor(q) => !spec_parses_fully(q@),
            AdminRequest::ApproveExecutorKey(id) => !crate::meta::spec_is_wildcard(id@) && !old(
                ts,
            ).unapproved_executor_keystore@.dom().contains(id@),
            _ => false,
        },
        r is Err ==> *final(ts) == *old(ts),
        match *req {
            AdminRequest::ListConnectedExecutors(_) | AdminRequest::ListKnownExecutors(_)
                | AdminRequest::ListRunningTasks | AdminRequest::ListExecutorKeys
                | AdminRequest::ListAuthorizedKeys
                | AdminRequest::ListAdminAuthorizedKeys => *final(ts) == *old(ts),
            AdminRequest::DropExecutor(_) => true,
            AdminRequest::ApproveExecutorKey(_) => final(ts).connected() == old(ts).connected()
                && final(ts).known_map() == old(ts).known_map() && final(ts).sinks() == old(
                ts,
            ).sinks(),
        },
        r matches Ok(resp) ==> match *req {
            AdminRequest::ListConnectedExecutors(q) => resp matches
                AdminResponse::ConnectedExecutors(ids) && ({
                &&& spec_expression(q@, 0) matches Option::Some(p)
                &&& p.1 >= q@.len()
                &&& exists|query: Query|
                    #[trigger] query.deep() == p.0 && ids@ == spec_connected_matching_ids(
                        old(ts).known_seq(),
                        old(ts).connected(),
                        query,
                    )
            }),
            AdminRequest::ListKnownExecutors(q) => resp matches AdminResponse::KnownExecutors(ids)
                && ({
                &&& spec_expression(q@, 0) matches Option::Some(p)
                &&& p.1 >= q@.len()
                &&& exists|query: Query|
                    #[trigger] query.deep() == p.0 && ids@ == spec_matching_ids(
                        old(ts).known_seq(),
                        query,
                    )
            }),
            AdminRequest::ListRunningTasks => resp matches AdminResponse::RunningTasks(ids)
                && ids@.len() == old(ts).sinks_seq().len() && (forall|i: int|
                0 <= i < ids@.len() ==> ids@[i]@ == old(ts).sinks_seq()[i].0@),
            AdminRequest::DropExecutor(q) => resp matches AdminResponse::DroppedExecutors(rep)
                && ({
                &&& spec_expression(q@, 0) matches Option::Some(p)
                &&& p.1 >= q@.len()
                &&& exists|query: Query|
                    {
                        &&& #[trigger] query.deep() == p.0
                        &&& rep@ == spec_drop_report(
                            old(ts).known_seq(),
                            old(ts).connected(),
                            query,
                        )
                        &&& final(ts).known_map() == old(ts).known_map().remove_keys(
                            spec_matching_idset(old(ts).known_map(), query),
                        )
                        &&& final(ts).connected() == old(ts).connected().remove_keys(
                            spec_matching_idset(old(ts).known_map(), query),
                        )
                    }
            }),
            AdminRequest::ListExecutorKeys => resp matches AdminResponse::ExecutorKeys {
                trusted,
                unapproved,
            } && crate::keystore::spec_lists_store(
                trusted@,
                old(ts).trusted_executor_keystore@,
            ) && crate::keystore::spec_lists_store(
                unapproved@,
                old(ts).unapproved_executor_keystore@,
            ),
            AdminRequest::ApproveExecutorKey(id) => resp matches AdminResponse::Approved && (
            if crate::meta::spec_is_wildcard(id@) {
                (
                    final(ts).trusted_executor_keystore@,
                    final(ts).unapproved_executor_keystore@,
                ) == spec_approve_all(
                    old(ts).trusted_executor_keystore@,
                    old(ts).unapproved_executor_keystore@,
                )
            } else {
                final(ts).trusted_executor_keystore@ == old(
                    ts,
                ).trusted_executor_keystore@.insert(
                    id@,
                    old(ts).unapproved_executor_keystore@[id@],
                ) && final(ts).unapproved_executor_keystore@ == old(
                    ts,
                ).unapproved_executor_keystore@.remove(id@)
            }),
            AdminRequest::ListAuthorizedKeys => resp matches AdminResponse::AuthorizedKeys(keys)
                && crate::keystore::spec_lists_store(keys@, old(ts).authorized_keys@),
            AdminRequest::ListAdminAuthorizedKeys => resp matches
                AdminResponse::AdminAuthorizedKeys(keys) && crate::keystore::spec_lists_store(
                keys@,
                old(ts).authorized_admin_keys@,
            ),
        },
{
    match req {
        AdminRequest::ListConnectedExecutors(q) => {
            let query = match parse(q.as_str()) {
                Ok(query) => query,
                Err(e) => {
                    proof {
                        assert(*ts == *old(ts));
                    }
                    return Err(AdminError::InvalidQuery(e));
                },
            };
            let ids = connected_matching_ids(ts, &query);
            Ok(AdminResponse::ConnectedExecutors(ids))
        },
        AdminRequest::ListKnownExecutors(q) => {
            let query = match parse(q.as_str()) {
                Ok(query) => query,
                Err(e) => {
                    proof {
                        assert(*ts == *old(ts));
                    }
                    return Err(AdminError::InvalidQuery(e));
                },
            };
            let plan = ts.get_channels_to_matching_executors(&query);
            proof {
                crate::registry::lemma_channel_plan(ts.known_seq(), ts.connected(), query);
            }
            let ids = plan_client_ids(&plan);
            proof {
                let want = spec_matching_ids(ts.known_seq(), query);
                assert(ids@ =~= want);
            }
            Ok(AdminResponse::KnownExecutors(ids))
        },
        AdminRequest::ListRunningTasks => Ok(AdminResponse::RunningTasks(ts.get_running_tasks())),
        AdminRequest::DropExecutor(q) => {
            let query = match parse(q.as_str()) {
                Ok(query) => query,
                Err(e) => {
                    proof {
                        assert(*ts == *old(ts));
                    }
                    return Err(AdminError::InvalidQuery(e));
                },
            };
            let report = ts.drop_executors(&query);
            Ok(AdminResponse::DroppedExecutors(report))
        },
        AdminRequest::ListExecutorKeys => Ok(
            AdminResponse::ExecutorKeys {
                trusted: ts.list_trusted_executor_keys(),
                unapproved: ts.list_unapproved_executor_keys(),
            },
        ),
        AdminRequest::ApproveExecutorKey(id) => {
            if crate::meta::is_wildcard_pattern(id.as_str()) {
                ts.approve_all_executor_keys();
                Ok(AdminResponse::Approved)
            } else {
                match ts.approve_executor_key(id.as_str()) {
                    Ok(_) => Ok(AdminResponse::Approved),
                    Err(e) => {
                        proof {
                            assert(*ts == *old(ts));
                        }
                        Err(AdminError::Key(e))
                    },
                }
            }
        },
        AdminRequest::ListAuthorizedKeys => Ok(
            AdminResponse::AuthorizedKeys(ts.authorized_keys.list_all()),
        ),
        AdminRequest::ListAdminAuthorizedKeys => Ok(
            AdminResponse::AdminAuthorizedKeys(ts.authorized_admin_keys.list_all()),
        ),
    }
}

/// The ids of the plan entries that carry an inbox.
pub open spec fn spec_connected_of_plan(plan: Seq<(String, Option<u64>)>) -> Seq<String>
    decreases plan.len(),
{
    if plan.len() == 0 {
        Seq::empty()
    } else {
        let prefix = spec_connected_of_plan(plan.drop_last());
        if plan.last().1 is Some {
            prefix.push(plan.last().0)
        } else {
            prefix
        }
    }
}

/// Filtering the plan by inbox presence filters the matching executors by
/// connectedness.
pub proof fn lemma_connected_of_plan(
    entries: Seq<(String, ExecutorMeta)>,
    connected: Map<Seq<char>, u64>,
    q: Query,
)
    ensures
        spec_connected_of_plan(spec_channel_plan(entries, connected, q))
            == spec_connected_matching_ids(entries, connected, q),
    decreases entries.len(),
{
    if entries.len() == 0 {
        assert(spec_connected_of_plan(spec_channel_plan(entries, connected, q)) =~=
            spec_connected_matching_ids(entries, connected, q));
    } else {
        lemma_connected_of_plan(entries.drop_last(), connected, q);
        let plan = spec_channel_plan(entries, connected, q);
        let pp = spec_channel_plan(entries.drop_last(), connected, q);
        if spec_meta_qmatches(entries.last().1, q) is Match {
            assert(plan == pp.push(
                (
                    entries.last().0,
                    crate::registry::spec_inbox_of(connected, entries.last().0@),
                ),
            ));
            assert(plan.drop_last() =~= pp);
        }
        assert(spec_connected_of_plan(plan) =~= spec_connected_matching_ids(
            entries,
            connected,
            q,
        ));
    }
}

} // verus!
