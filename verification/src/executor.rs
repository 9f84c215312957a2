//! The executor's side: the events a running child process emits, their
//! mapping onto execution results, the line splitting of captured output,
//! the reaction to an incoming task, and the reconnect backoff.

use vstd::prelude::*;
use crate::dispatch::{ExecutionResult, Task};
use crate::strmap::{spec_assoc_view, spec_assoc_wf, lemma_assoc_dom};

verus! {

broadcast use vstd::seq::axiom_seq_index_decreases;

/// Which stream a line came from.
#[derive(Clone, Copy, Debug, PartialEq, Eq, Structural)]
pub enum Type {
    Out,
    ErrOut,
}

/// One line of child output.
#[derive(Debug, PartialEq, Eq)]
pub struct Line {
    pub line_type: Type,
    pub line: String,
}

/// One event of a local child process: it started, it finished with an
/// exit code (`None` when killed by a signal), or it printed a line.
#[derive(Debug, PartialEq, Eq)]
pub enum ExecEvent {
    Started,
    Finished(Option<i32>),
    LineEmitted(Line),
}

/// The executor's own plumbing errors.
#[derive(Debug, PartialEq, Eq)]
pub enum InternalError {
    NoStdOut,
    NoStdErr,
}

/// How a child event reads as an execution result: starting is a liveness
/// ping, a signal death is an abort, an exit code completes the task, and
/// lines pass through with their stream.
pub open spec fn spec_event_result(e: ExecEvent) -> ExecutionResult {
    match e {
        ExecEvent::Started => ExecutionResult::Ping,
        ExecEvent::Finished(code) => match code {
            Option::Some(rc) => ExecutionResult::TaskCompleted(rc),
            Option::None => ExecutionResult::TaskAborted,
        },
        ExecEvent::LineEmitted(l) => match l.line_type {
            Type::Out => ExecutionResult::Stdout(l.line),
            Type::ErrOut => ExecutionResult::Stderr(l.line),
        },
    }
}

/// Maps a child event onto the execution result reported upstream.
pub fn execution_result_of_event(e: ExecEvent) -> (r: ExecutionResult)
    ensures
        r == spec_event_result(e),
{
    match e {
        ExecEvent::Started => ExecutionResult::Ping,
        ExecEvent::Finished(code) => match code {
            Some(rc) => ExecutionResult::TaskCompleted(rc),
            None => ExecutionResult::TaskAborted,
        },
        ExecEvent::LineEmitted(l) => match l.line_type {
            Type::Out => ExecutionResult::Stdout(l.line),
            Type::ErrOut => ExecutionResult::Stderr(l.line),
        },
    }
}

/// The concatenation of a sequence of byte lines.
pub open spec fn spec_join_lines(lines: Seq<Seq<u8>>) -> Seq<u8>
    decreases lines.len(),
{
    if lines.len() == 0 {
        Seq::empty()
    } else {
        spec_join_lines(lines.drop_last()) + lines.last()
    }
}

/// Splits captured bytes into lines, each inner line keeping its `\n`;
/// a trailing run without a newline becomes a final line of its own.
/// Joining the lines gives the input back, every line but possibly the
/// last ends with `\n`, and no line is empty.
pub fn split_lines(data: &[u8]) -> (r: Vec<Vec<u8>>)
    ensures
        spec_join_lines(r.deep_view()) == data@,
        forall|i: int|
            0 <= i < r@.len() - 1 ==> (#[trigger] r@[i]@.len()) > 0 && r@[i]@.last() == 10u8,
        forall|i: int| 0 <= i < r@.len() ==> (#[trigger] r@[i]@.len()) > 0,
    {
    let mut out: Vec<Vec<u8>> = Vec::new();
    let mut cur: Vec<u8> = Vec::new();
    let n = data.len();
    let mut i: usize = 0;
    proof {
        assert(spec_join_lines(out.deep_view()) + cur@ =~= data@.subrange(0, 0));
    }
    while i < n
        invariant
            i <= n,
            n == data@.len(),
            spec_join_lines(out.deep_view()) + cur@ == data@.subrange(0, i as int),
            forall|j: int|
                0 <= j < out@.len() ==> (#[trigger] out@[j]@.len()) > 0 && out@[j]@.last()
                    == 10u8,
        decreases n - i,
    {
        let b = *vstd::slice::slice_index_get(data, i);
        let ghost old_out = out.deep_view();
        let ghost old_cur = cur@;
        cur.push(b);
        if b == 10u8 {
            let line = cur;
            cur = Vec::new();
            let ghost gline = line@;
            out.push(line);
            proof {
                assert(out.deep_view().drop_last() =~= old_out);
                assert(out.deep_view().last() == gline);
                assert(spec_join_lines(out.deep_view()) == spec_join_lines(old_out) + gline);
                assert(data@.subrange(0, i as int + 1) =~= data@.subrange(0, i as int).push(
                    data@[i as int],
                ));
                assert(gline =~= old_cur.push(data@[i as int]));
                assert(spec_join_lines(out.deep_view()) + cur@ =~= data@.subrange(
                    0,
                    i as int + 1,
                ));
            }
        } else {
            proof {
                assert(data@.subrange(0, i as int + 1) =~= data@.subrange(0, i as int).push(
                    data@[i as int],
                ));
                assert(cur@ =~= old_cur.push(data@[i as int]));
                assert(spec_join_lines(out.deep_view()) + cur@ =~= data@.subrange(
                    0,
                    i as int + 1,
                ));
            }
        }
        i = i + 1;
    }
    if cur.len() > 0 {
        let ghost old_out = out.deep_view();
        let ghost gcur = cur@;
        out.push(cur);
        proof {
            assert(out.deep_view().drop_last() =~= old_out);
            assert(out.deep_view().last() == gcur);
            assert(spec_join_lines(out.deep_view()) =~= data@);
            assert(forall|j: int|
                0 <= j < out@.len() - 1 ==> out@[j] == out@.drop_last()[j]);
        }
    } else {
        proof {
            assert(spec_join_lines(out.deep_view()) + cur@ =~= spec_join_lines(out.deep_view()));
            assert(data@.subrange(0, n as int) =~= data@);
        }
    }
    out
}

/// The next reconnect delay: a successful connection resets the backoff
/// to one second, a failed one lengthens it by a second up to ten.
pub fn next_reconnect_secs(current: u64, was_connected: bool) -> (r: u64)
    ensures
        r == (if was_connected {
            1u64
        } else if current >= 10 {
            10u64
        } else {
            (current + 1) as u64
        }),
{
    if was_connected {
        1
    } else if current >= 10 {
        10
    } else {
        current + 1
    }
}

/// A change an accepted key-management task makes to the executor's
/// configured commander keys.
#[derive(Debug, PartialEq, Eq)]
pub enum ConfigurationModification {
    AddKey { key_id: String, key_bytes: Vec<u8> },
    RevokeKey(String),
    NoChange,
}

/// How the executor reacts to one decoded task.
#[derive(Debug, PartialEq, Eq)]
pub enum ExecutorAction {
    Execute(String),
    Reject(String),
    CompleteAndModify(ConfigurationModification),
    Ignore,
}

/// Whether `key` appears among the configured `(key id, base64 key)` pairs.
fn has_authorized_key(authorized_keys: &Vec<(String, String)>, key: &str) -> (r: bool)
    ensures
        r == exists|i: int|
            0 <= i < authorized_keys@.len() && (#[trigger] authorized_keys@[i].0@) == key@,
{
    let mut i: usize = 0;
    while i < authorized_keys.len()
        invariant
            i <= authorized_keys@.len(),
            forall|j: int| 0 <= j < i ==> (#[trigger] authorized_keys@[j].0@) != key@,
        decreases authorized_keys@.len() - i,
    {
        if crate::meta::str_eq(authorized_keys[i].0.as_str(), key) {
            return true;
        }
        i = i + 1;
    }
    false
}

/// Decides what to do with one task pulled from the server.
///
/// A command is executed; streaming is rejected; an authorize-key task
/// completes and adds the key; a revoke-key task completes and removes
/// the key when it is configured, and is rejected when it is not; an
/// empty frame is ignored.
pub fn executor_handle_task(task: Option<Task>, authorized_keys: &Vec<(String, String)>) -> (r:
    ExecutorAction)
    ensures
        match task {
            Option::None => r == ExecutorAction::Ignore,
            Option::Some(t) => match t {
                Task::ExecuteCommand(cmd) => r == ExecutorAction::Execute(cmd),
                Task::StreamingPayload => r is Reject,
                Task::AuthorizeKey(id, bytes) => r == ExecutorAction::CompleteAndModify(
                    ConfigurationModification::AddKey { key_id: id, key_bytes: bytes },
                ),
                Task::RevokeKey(id) => if exists|i: int|
                    0 <= i < authorized_keys@.len() && (#[trigger] authorized_keys@[i].0@)
                        == id@ {
                    r == ExecutorAction::CompleteAndModify(
                        ConfigurationModification::RevokeKey(id),
                    )
                } else {
                    r is Reject
                },
            },
        },
{
    match task {
        None => ExecutorAction::Ignore,
        Some(t) => match t {
            Task::ExecuteCommand(cmd) => ExecutorAction::Execute(cmd),
            Task::StreamingPayload => ExecutorAction::Reject(
                String::from_str("Streaming not yet implemented"),
            ),
            Task::AuthorizeKey(id, bytes) => ExecutorAction::CompleteAndModify(
                ConfigurationModification::AddKey { key_id: id, key_bytes: bytes },
            ),
            Task::RevokeKey(id) => {
                if has_authorized_key(authorized_keys, id.as_str()) {
                    ExecutorAction::CompleteAndModify(ConfigurationModification::RevokeKey(id))
                } else {
                    ExecutorAction::Reject(String::from_str("Cannot revoke key: key not found"))
                }
            },
        },
    }
}

/// Applies an accepted key modification to the configured commander keys:
/// adding binds the key id to the base64 of the bytes, revoking removes
/// every pair with the key id.
pub fn apply_configuration_modification(
    authorized_keys: &mut Vec<(String, String)>,
    modification: ConfigurationModification,
)
    requires
        spec_assoc_wf(old(authorized_keys)@),
    ensures
        spec_assoc_wf(final(authorized_keys)@),
        match modification {
            ConfigurationModification::AddKey { key_id, key_bytes } => {
                &&& spec_assoc_view(final(authorized_keys)@).dom() == spec_assoc_view(
                    old(authorized_keys)@,
                ).dom().insert(key_id@)
                &&& spec_assoc_view(final(authorized_keys)@)[key_id@]@
                    == crate::crypto::spec_base64(key_bytes@)
                &&& forall|k: Seq<char>|
                    k != key_id@ && spec_assoc_view(old(authorized_keys)@).dom().contains(k)
                        ==> spec_assoc_view(final(authorized_keys)@)[k] == spec_assoc_view(
                        old(authorized_keys)@,
                    )[k]
            },
            ConfigurationModification::RevokeKey(key_id) => spec_assoc_view(
                final(authorized_keys)@,
            ) == spec_assoc_view(old(authorized_keys)@).remove(key_id@),
            ConfigurationModification::NoChange => final(authorized_keys)@ == old(
                authorized_keys,
            )@,
        },
{
    match modification {
        ConfigurationModification::AddKey { key_id, key_bytes } => {
            let encoded = crate::crypto::base64_encode(&key_bytes);
            upsert_pair(authorized_keys, key_id, encoded);
        },
        ConfigurationModification::RevokeKey(key_id) => {
            remove_pair(authorized_keys, key_id.as_str());
        },
        ConfigurationModification::NoChange => {},
    }
}

fn upsert_pair(pairs: &mut Vec<(String, String)>, key: String, value: String)
    requires
        spec_assoc_wf(old(pairs)@),
    ensures
        spec_assoc_wf(final(pairs)@),
        spec_assoc_view(final(pairs)@) == spec_assoc_view(old(pairs)@).insert(key@, value),
{
    let mut i: usize = 0;
    while i < pairs.len()
        invariant
            spec_assoc_wf(pairs@),
            pairs@ == old(pairs)@,
            i <= pairs@.len(),
            forall|j: int| 0 <= j < i ==> (#[trigger] pairs@[j].0@) != key@,
        decreases pairs@.len() - i,
    {
        if crate::meta::str_eq(pairs[i].0.as_str(), key.as_str()) {
            proof {
                crate::strmap::lemma_assoc_update(pairs@, i as int, (key, value));
            }
            pairs.set(i, (key, value));
            return ;
        }
        i = i + 1;
    }
    proof {
        crate::strmap::lemma_assoc_push(pairs@, (key, value));
    }
    pairs.push((key, value));
}

fn remove_pair(pairs: &mut Vec<(String, String)>, key: &str)
    requires
        spec_assoc_wf(old(pairs)@),
    ensures
        spec_assoc_wf(final(pairs)@),
        spec_assoc_view(final(pairs)@) == spec_assoc_view(old(pairs)@).remove(key@),
{
    proof {
        lemma_assoc_dom(pairs@, key@);
    }
    let mut i: usize = 0;
    while i < pairs.len()
        invariant
            spec_assoc_wf(pairs@),
            pairs@ == old(pairs)@,
            i <= pairs@.len(),
            forall|j: int| 0 <= j < i ==> (#[trigger] pairs@[j].0@) != key@,
        decreases pairs@.len() - i,
    {
        if crate::meta::str_eq(pairs[i].0.as_str(), key) {
            proof {
                crate::strmap::lemma_assoc_remove(pairs@, i as int);
            }
            pairs.remove(i);
            proof {
                assert(spec_assoc_wf(pairs@)) by {
                    assert(forall|a: int, b: int|
                        0 <= a < b < pairs@.len() ==> pairs@[a].0@ != pairs@[b].0@);
                }
            }
            return ;
        }
        i = i + 1;
    }
    proof {
        assert(!spec_assoc_view(pairs@).dom().contains(key@)) by {
            lemma_assoc_dom(pairs@, key@);
        }
        assert(spec_assoc_view(pairs@).remove(key@) =~= spec_assoc_view(pairs@));
    }
}

} // verus!
