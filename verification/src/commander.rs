//! The commander's side: the commands it can issue, the per-executor state
//! it tracks while a launch streams back, the final verdict, and the
//! guard against careless destructive commands.

use vstd::prelude::*;
use crate::dispatch::{ExecutionResult, TaskResponse};
use crate::strmap::StrMap;

verus! {

/// How one executor stands in the current dispatch.
#[derive(Clone, Copy, Debug, PartialEq, Eq, Structural, PartialOrd, Ord, Hash)]
pub enum ExecutorState {
    Matching,
    Submitted,
    Alive,
    Disconnected,
    Error,
    Success,
}

/// Output shaping options of a command run.
#[derive(Debug, Clone, Copy)]
pub struct CommandOptions {
    pub raw: bool,
    pub json: bool,
    pub json_mode: JsonMode,
    pub group: bool,
    pub no_progress: bool,
    pub no_std_process_return: bool,
}

/// How collected output turns into JSON.
#[derive(Debug, Clone, Copy, PartialEq, Eq, Structural)]
pub enum JsonMode {
    EscapeSeparate,
    EscapeMerge,
    StdoutJson,
}

/// A commander command.
#[derive(Debug)]
pub enum Cmd {
    Run { options: CommandOptions, query: String, command: Vec<String> },
    Int { options: CommandOptions, query: String },
    Keys { options: CommandOptions, query: String, key_cmd: KeyCmd },
}

/// Key management on executors.
#[derive(Debug)]
pub enum KeyCmd {
    Authorize { key_id: String, public_key: String },
    Revoke { key_id: String },
}

/// Utility commands.
#[derive(Debug)]
pub enum Utils {
    GenerateED25519KeyPair { name: String },
}

/// What a commander invocation amounted to.
#[derive(Debug)]
pub enum CommanderSyntheticOutput {
    Executor { states: Vec<(ExecutorState, Vec<String>)>, output: Vec<(String, Vec<String>)> },
    Admin(String),
    Cmd,
}

/// The state an execution event drives an executor into, if any; output
/// events leave the state alone.
pub open spec fn spec_event_state(e: ExecutionResult) -> Option<ExecutorState> {
    match e {
        ExecutionResult::TaskSubmitted => Option::Some(ExecutorState::Submitted),
        ExecutionResult::Ping => Option::Some(ExecutorState::Alive),
        ExecutionResult::TaskRejected(_) => Option::Some(ExecutorState::Error),
        ExecutionResult::TaskAborted => Option::Some(ExecutorState::Error),
        ExecutionResult::TaskCompleted(rc) => if rc == 0 {
            Option::Some(ExecutorState::Success)
        } else {
            Option::Some(ExecutorState::Error)
        },
        ExecutionResult::Disconnected => Option::Some(ExecutorState::Disconnected),
        ExecutionResult::Stdout(_) => Option::None,
        ExecutionResult::Stderr(_) => Option::None,
    }
}

/// The ids a `MatchingExecutors` frame lists.
pub open spec fn spec_ids_set(ids: Seq<String>) -> Set<Seq<char>> {
    Set::new(|k: Seq<char>| exists|j: int| 0 <= j < ids.len() && (#[trigger] ids[j])@ == k)
}

/// One executor's collected output lines, or none yet.
pub open spec fn spec_entry_output(m: Map<Seq<char>, Vec<String>>, k: Seq<char>) -> Seq<
    Seq<char>,
> {
    if m.dom().contains(k) {
        m[k].deep_view()
    } else {
        Seq::empty()
    }
}

/// `new_m` is `old_m` with `line` appended to `k`'s output and every other
/// entry untouched.
pub open spec fn spec_appends_output(
    old_m: Map<Seq<char>, Vec<String>>,
    new_m: Map<Seq<char>, Vec<String>>,
    k: Seq<char>,
    line: Seq<char>,
) -> bool {
    &&& new_m.dom() == old_m.dom().insert(k)
    &&& forall|k2: Seq<char>|
        k2 != k && old_m.dom().contains(k2) ==> new_m[k2] == #[trigger] old_m[k2]
    &&& spec_entry_output(new_m, k) == spec_entry_output(old_m, k).push(line)
}

/// The running view of a dispatch on the commander's side.
pub struct DispatchTracker {
    pub states: StrMap<ExecutorState>,
    pub outputs: StrMap<Vec<String>>,
}

impl DispatchTracker {
    pub open spec fn wf(&self) -> bool {
        self.states.wf() && self.outputs.wf()
    }

    pub fn new() -> (r: DispatchTracker)
        ensures
            r.wf(),
            r.states@ == Map::<Seq<char>, ExecutorState>::empty(),
            r.outputs@ == Map::<Seq<char>, Vec<String>>::empty(),
    {
        DispatchTracker { states: StrMap::new(), outputs: StrMap::new() }
    }

    /// Applies one frame of the launch stream.
    ///
    /// A `MatchingExecutors` frame marks every listed executor `Matching`
    /// and touches no other entry; an execution event drives its
    /// executor's state; an output line is appended to its executor's
    /// collected output, all else untouched.
    pub fn apply(&mut self, frame: &TaskResponse)
        requires
            old(self).wf(),
        ensures
            final(self).wf(),
            match *frame {
                TaskResponse::MatchingExecutors(ids) => {
                    &&& final(self).outputs@ == old(self).outputs@
                    &&& final(self).states@.dom() == old(self).states@.dom().union(
                        spec_ids_set(ids@),
                    )
                    &&& forall|j: int|
                        0 <= j < ids@.len() ==> final(self).states@.dom().contains(
                            #[trigger] ids@[j]@,
                        ) && final(self).states@[ids@[j]@] == ExecutorState::Matching
                    &&& forall|k: Seq<char>|
                        old(self).states@.dom().contains(k) && !spec_ids_set(ids@).contains(k)
                            ==> final(self).states@[k] == #[trigger] old(self).states@[k]
                },
                TaskResponse::TaskExecutionResult { task_id: _, client_id, execution_result } => {
                    match spec_event_state(execution_result) {
                        Option::Some(st) => final(self).states@ == old(self).states@.insert(
                            client_id@,
                            st,
                        ) && final(self).outputs@ == old(self).outputs@,
                        Option::None => final(self).states@ == old(self).states@,
                    }
                },
            },
            match *frame {
                TaskResponse::TaskExecutionResult { task_id: _, client_id, execution_result } => {
                    match execution_result {
                        ExecutionResult::Stdout(line) => spec_appends_output(
                            old(self).outputs@,
                            final(self).outputs@,
                            client_id@,
                            line@,
                        ),
                        ExecutionResult::Stderr(line) => spec_appends_output(
                            old(self).outputs@,
                            final(self).outputs@,
                            client_id@,
                            line@,
                        ),
                        _ => true,
                    }
                },
                _ => true,
            },
    {
        match frame {
            TaskResponse::MatchingExecutors(ids) => {
                let mut i: usize = 0;
                proof {
                    assert(self.states@.dom() =~= old(self).states@.dom().union(
                        spec_ids_set(ids@.subrange(0, 0)),
                    ));
                }
                while i < ids.len()
                    invariant
                        self.wf(),
                        i <= ids@.len(),
                        self.outputs@ == old(self).outputs@,
                        self.states@.dom() == old(self).states@.dom().union(
                            spec_ids_set(ids@.subrange(0, i as int)),
                        ),
                        forall|j: int|
                            0 <= j < i ==> self.states@.dom().contains(#[trigger] ids@[j]@)
                                && self.states@[ids@[j]@] == ExecutorState::Matching,
                        forall|k: Seq<char>|
                            old(self).states@.dom().contains(k) && !spec_ids_set(
                                ids@.subrange(0, i as int),
                            ).contains(k) ==> self.states@[k] == #[trigger] old(self).states@[k],
                    decreases ids@.len() - i,
                {
                    let ghost pre = ids@.subrange(0, i as int);
                    let ghost cur = ids@.subrange(0, i as int + 1);
                    self.states.insert(ids[i].clone(), ExecutorState::Matching);
                    proof {
                        assert(spec_ids_set(cur) =~= spec_ids_set(pre).insert(ids@[i as int]@))
                            by {
                            assert forall|k: Seq<char>| spec_ids_set(cur).contains(k) implies
                                spec_ids_set(pre).insert(ids@[i as int]@).contains(k) by {
                                let w = choose|j: int|
                                    0 <= j < cur.len() && (#[trigger] cur[j])@ == k;
                                if w < i {
                                    assert(pre[w]@ == k);
                                }
                            }
                            assert forall|k: Seq<char>|
                                spec_ids_set(pre).insert(ids@[i as int]@).contains(k) implies
                                spec_ids_set(cur).contains(k) by {
                                if k == ids@[i as int]@ {
                                    assert(cur[i as int]@ == k);
                                } else {
                                    let w = choose|j: int|
                                        0 <= j < pre.len() && (#[trigger] pre[j])@ == k;
                                    assert(cur[w]@ == k);
                                }
                            }
                        }
                        assert(self.states@.dom() =~= old(self).states@.dom().union(
                            spec_ids_set(cur),
                        ));
                    }
                    i = i + 1;
                }
                proof {
                    assert(ids@.subrange(0, ids@.len() as int) =~= ids@);
                }
            },
            TaskResponse::TaskExecutionResult { task_id: _, client_id, execution_result } => {
                match execution_result {
                    ExecutionResult::TaskSubmitted => {
                        self.states.insert(client_id.clone(), ExecutorState::Submitted);
                    },
                    ExecutionResult::Ping => {
                        self.states.insert(client_id.clone(), ExecutorState::Alive);
                    },
                    ExecutionResult::TaskRejected(_) => {
                        self.states.insert(client_id.clone(), ExecutorState::Error);
                    },
                    ExecutionResult::TaskAborted => {
                        self.states.insert(client_id.clone(), ExecutorState::Error);
                    },
                    ExecutionResult::TaskCompleted(rc) => {
                        if *rc == 0 {
                            self.states.insert(client_id.clone(), ExecutorState::Success);
                        } else {
                            self.states.insert(client_id.clone(), ExecutorState::Error);
                        }
                    },
                    ExecutionResult::Disconnected => {
                        self.states.insert(client_id.clone(), ExecutorState::Disconnected);
                    },
                    ExecutionResult::Stdout(line) => {
                        self.append_output(client_id, line);
                    },
                    ExecutionResult::Stderr(line) => {
                        self.append_output(client_id, line);
                    },
                }
            },
        }
    }

    fn append_output(&mut self, client_id: &String, line: &String)
        requires
            old(self).wf(),
        ensures
            final(self).wf(),
            final(self).states@ == old(self).states@,
            spec_appends_output(old(self).outputs@, final(self).outputs@, client_id@, line@),
    {
        let ghost m0 = self.outputs@;
        let mut lines = match self.outputs.remove(client_id.as_str()) {
            Some(ls) => ls,
            None => Vec::new(),
        };
        let ghost lv = lines.deep_view();
        proof {
            assert(lv == spec_entry_output(m0, client_id@));
        }
        lines.push(line.clone());
        proof {
            assert(lines.deep_view() =~= lv.push(line@));
        }
        self.outputs.insert(client_id.clone(), lines);
        proof {
            assert(self.outputs@.dom() =~= m0.dom().insert(client_id@));
        }
    }

    /// Whether the whole dispatch succeeded: at least one executor
    /// matched, and every matched executor ended in `Success`.
    pub fn dispatch_success(&self) -> (r: bool)
        requires
            self.wf(),
        ensures
            r == (self.states.seq_view().len() > 0 && forall|i: int|
                0 <= i < self.states.seq_view().len()
                    ==> #[trigger] self.states.seq_view()[i].1 == ExecutorState::Success),
    {
        let n = self.states.len();
        if n == 0 {
            return false;
        }
        let mut i: usize = 0;
        while i < n
            invariant
                self.wf(),
                i <= n,
                n == self.states.seq_view().len(),
                forall|j: int|
                    0 <= j < i ==> #[trigger] self.states.seq_view()[j].1
                        == ExecutorState::Success,
            decreases n - i,
        {
            let entry = self.states.at(i);
            if !matches!(entry.1, ExecutorState::Success) {
                return false;
            }
            i = i + 1;
        }
        true
    }

    /// The executors now in the given state, in tracking order.
    pub fn ids_in_state(&self, wanted: ExecutorState) -> (r: Vec<String>)
        requires
            self.wf(),
        ensures
            r@ == spec_ids_in_state(self.states.seq_view(), wanted),
    {
        let mut r: Vec<String> = Vec::new();
        let mut i: usize = 0;
        let n = self.states.len();
        while i < n
            invariant
                self.wf(),
                i <= n,
                n == self.states.seq_view().len(),
                r@ == spec_ids_in_state(self.states.seq_view().subrange(0, i as int), wanted),
            decreases n - i,
        {
            let ghost pre = self.states.seq_view().subrange(0, i as int);
            let ghost cur = self.states.seq_view().subrange(0, i as int + 1);
            proof {
                assert(cur.drop_last() =~= pre);
                assert(cur.last() == self.states.seq_view()[i as int]);
            }
            let entry = self.states.at(i);
            if entry.1 == wanted {
                r.push(entry.0.clone());
            }
            i = i + 1;
        }
        proof {
            assert(self.states.seq_view().subrange(0, n as int) =~= self.states.seq_view());
        }
        r
    }

    /// A reference to one executor's collected output.
    pub fn output_of(&self, client_id: &str) -> (r: Option<&Vec<String>>)
        requires
            self.wf(),
        ensures
            match r {
                Option::Some(ls) => self.outputs@.dom().contains(client_id@) && *ls
                    == self.outputs@[client_id@],
                Option::None => !self.outputs@.dom().contains(client_id@),
            },
    {
        self.outputs.get(client_id)
    }
}

/// The ids bound to `wanted` among the entries, in order.
pub open spec fn spec_ids_in_state(
    entries: Seq<(String, ExecutorState)>,
    wanted: ExecutorState,
) -> Seq<String>
    decreases entries.len(),
{
    if entries.len() == 0 {
        Seq::empty()
    } else {
        let prefix = spec_ids_in_state(entries.drop_last(), wanted);
        if entries.last().1 == wanted {
            prefix.push(entries.last().0)
        } else {
            prefix
        }
    }
}

// ------------------------------------------------------------------
// The guard against careless destructive commands.
// ------------------------------------------------------------------

/// The shell-wise split of a command line at `&&`, `||`, `&`, `|` and
/// `;`, as shellish parsing produces it; a function of the text alone.
pub uninterp spec fn shell_split(s: Seq<char>) -> Option<Seq<Seq<Seq<char>>>>;

/// Relies on shellish_parse's `multiparse` with default options: it splits
/// a command line into pipeline segments of shell words at the given
/// separators, deterministically in the text.
#[verifier::external_body]
fn shell_multiparse(command: &str) -> (r: Option<Vec<Vec<String>>>)
    ensures
        match r {
            Option::Some(v) => shell_split(command@) == Option::Some(v.deep_view()),
            Option::None => shell_split(command@) is None,
        },
{
    shellish_parse::multiparse(
        command,
        shellish_parse::ParseOptions::default(),
        &["&&", "||", "&", "|", ";"],
    )
        .ok()
        .map(|segments| segments.into_iter().map(|segment| segment.0).collect())
}

/// `s` ends with `suffix`.
pub open spec fn spec_ends_with(s: Seq<char>, suffix: Seq<char>) -> bool {
    s.len() >= suffix.len() && s.subrange(s.len() - suffix.len(), s.len() as int) == suffix
}

fn str_ends_with(s: &str, suffix: &str) -> (r: bool)
    ensures
        r == spec_ends_with(s@, suffix@),
{
    let n = s.unicode_len();
    let m = suffix.unicode_len();
    if n < m {
        return false;
    }
    let mut i: usize = 0;
    while i < m
        invariant
            i <= m,
            m <= n,
            n == s@.len(),
            m == suffix@.len(),
            forall|k: int| 0 <= k < i ==> s@[n - m + k] == suffix@[k],
        decreases m - i,
    {
        if s.get_char(n - m + i) != suffix.get_char(i) {
            proof {
                assert(s@.subrange(n - m, n as int)[i as int] != suffix@[i as int]);
            }
            return false;
        }
        i = i + 1;
    }
    proof {
        assert(s@.subrange(n - m, n as int) =~= suffix@);
    }
    true
}

/// A command word that asks for a second thought before running remotely.
pub open spec fn spec_word_unsafe(w: Seq<char>) -> bool {
    spec_ends_with(w, "reboot"@) || spec_ends_with(w, "rm"@) || spec_ends_with(w, "halt"@)
}

fn word_unsafe(w: &str) -> (r: bool)
    ensures
        r == spec_word_unsafe(w@),
{
    str_ends_with(w, "reboot") || str_ends_with(w, "rm") || str_ends_with(w, "halt")
}

/// Whether some segment of the split opens with an unsafe word.
pub open spec fn spec_any_segment_unsafe(segments: Seq<Seq<Seq<char>>>) -> bool {
    exists|i: int|
        0 <= i < segments.len() && segments[i].len() > 0 && spec_word_unsafe(#[trigger] segments[i][0])
}

/// Finds the first command word that warrants a prompt before running:
/// the opening word of a pipeline segment that ends in `reboot`, `rm` or
/// `halt`. A command line that shellish parsing rejects raises no flag
/// and runs unprompted.
pub fn find_unsafe_command(command: &str) -> (r: Option<String>)
    ensures
        match r {
            Option::Some(w) => {
                &&& shell_split(command@) matches Option::Some(segments)
                &&& spec_any_segment_unsafe(segments)
                &&& spec_word_unsafe(w@)
            },
            Option::None => shell_split(command@) matches Option::Some(segments)
                ==> !spec_any_segment_unsafe(segments),
        },
{
    let parts = match shell_multiparse(command) {
        Some(parts) => parts,
        None => {
            return None;
        },
    };
    let ghost segments = parts.deep_view();
    let mut i: usize = 0;
    while i < parts.len()
        invariant
            i <= parts@.len(),
            segments == parts.deep_view(),
            shell_split(command@) == Option::Some(segments),
            segments.len() == parts@.len(),
            forall|j: int|
                0 <= j < i ==> !(segments[j].len() > 0 && spec_word_unsafe(
                    #[trigger] segments[j][0],
                )),
        decreases parts@.len() - i,
    {
        proof {
            assert(segments[i as int] == parts@[i as int].deep_view());
        }
        if parts[i].len() > 0 {
            proof {
                assert(segments[i as int] == parts@[i as int].deep_view());
                assert(segments[i as int].len() == parts@[i as int]@.len());
                assert(segments[i as int][0] == parts@[i as int]@[0]@);
            }
            if word_unsafe(parts[i][0].as_str()) {
                proof {
                    assert(segments[i as int].len() > 0 && spec_word_unsafe(
                        segments[i as int][0],
                    ));
                    assert(spec_any_segment_unsafe(segments));
                }
                return Some(parts[i][0].clone());
            }
        }
        i = i + 1;
    }
    None
}

} // verus!

verus! {

// ------------------------------------------------------------------
// Collecting output for JSON rendering.
// ------------------------------------------------------------------

/// Per-executor collected output, shaped by the JSON mode: separate
/// stdout/stderr lists, one merged list, or stdout alone (stderr is
/// dropped from the document in that mode).
#[derive(Debug, PartialEq, Eq)]
pub enum JsonCollectorInner {
    EscapeSeparate { stdout: Vec<String>, stderr: Vec<String> },
    EscapeMerge { merged: Vec<String> },
    StdoutJson { stdout: Vec<String> },
}

/// The primary collected lines: stdout, or the merged list.
pub open spec fn spec_out_lines(i: JsonCollectorInner) -> Seq<Seq<char>> {
    match i {
        JsonCollectorInner::EscapeSeparate { stdout, stderr: _ } => stdout.deep_view(),
        JsonCollectorInner::EscapeMerge { merged } => merged.deep_view(),
        JsonCollectorInner::StdoutJson { stdout } => stdout.deep_view(),
    }
}

/// The separately kept stderr lines; only the separate mode has any.
pub open spec fn spec_err_lines(i: JsonCollectorInner) -> Seq<Seq<char>> {
    match i {
        JsonCollectorInner::EscapeSeparate { stdout: _, stderr } => stderr.deep_view(),
        _ => Seq::empty(),
    }
}

/// The shape of a collection entry follows its collector's mode.
pub open spec fn spec_inner_matches_mode(i: JsonCollectorInner, mode: JsonMode) -> bool {
    match mode {
        JsonMode::EscapeSeparate => i is EscapeSeparate,
        JsonMode::EscapeMerge => i is EscapeMerge,
        JsonMode::StdoutJson => i is StdoutJson,
    }
}

/// The primary lines of `executor`'s entry, or none yet.
pub open spec fn spec_entry_out(
    m: Map<Seq<char>, JsonCollectorInner>,
    k: Seq<char>,
) -> Seq<Seq<char>> {
    if m.dom().contains(k) {
        spec_out_lines(m[k])
    } else {
        Seq::empty()
    }
}

/// The stderr lines of `executor`'s entry, or none yet.
pub open spec fn spec_entry_err(
    m: Map<Seq<char>, JsonCollectorInner>,
    k: Seq<char>,
) -> Seq<Seq<char>> {
    if m.dom().contains(k) {
        spec_err_lines(m[k])
    } else {
        Seq::empty()
    }
}

/// Collects the streamed output of a dispatch, per executor, shaped for
/// one of the JSON output modes.
pub struct JsonCollector {
    pub json_mode: JsonMode,
    pub inner: StrMap<JsonCollectorInner>,
}

impl JsonCollector {
    pub open spec fn wf(&self) -> bool {
        &&& self.inner.wf()
        &&& forall|k: Seq<char>|
            self.inner@.dom().contains(k) ==> spec_inner_matches_mode(
                #[trigger] self.inner@[k],
                self.json_mode,
            )
    }

    pub fn new(json_mode: JsonMode) -> (r: JsonCollector)
        ensures
            r.wf(),
            r.json_mode == json_mode,
            r.inner@ == Map::<Seq<char>, JsonCollectorInner>::empty(),
    {
        JsonCollector { json_mode, inner: StrMap::new() }
    }

    fn collector(&mut self, executor: &str) -> (r: JsonCollectorInner)
        requires
            old(self).wf(),
        ensures
            final(self).wf(),
            final(self).json_mode == old(self).json_mode,
            final(self).inner@ == old(self).inner@.remove(executor@),
            spec_inner_matches_mode(r, old(self).json_mode),
            spec_out_lines(r) == spec_entry_out(old(self).inner@, executor@),
            spec_err_lines(r) == spec_entry_err(old(self).inner@, executor@),
    {
        match self.inner.remove(executor) {
            Some(entry) => {
                proof {
                    assert(old(self).inner@.remove(executor@) =~= self.inner@);
                }
                entry
            },
            None => {
                proof {
                    assert(old(self).inner@.remove(executor@) =~= self.inner@);
                }
                let ghost mode = self.json_mode;
                let fresh = match self.json_mode {
                    JsonMode::EscapeSeparate => JsonCollectorInner::EscapeSeparate {
                        stdout: Vec::new(),
                        stderr: Vec::new(),
                    },
                    JsonMode::EscapeMerge => JsonCollectorInner::EscapeMerge {
                        merged: Vec::new(),
                    },
                    JsonMode::StdoutJson => JsonCollectorInner::StdoutJson { stdout: Vec::new() },
                };
                proof {
                    assert(spec_out_lines(fresh) =~= Seq::<Seq<char>>::empty());
                    assert(spec_err_lines(fresh) =~= Seq::<Seq<char>>::empty());
                }
                fresh
            },
        }
    }

    /// Collects one stdout line of `executor`: it extends the entry's
    /// primary lines, in every mode.
    pub fn collect_stdout(&mut self, executor: &str, data: String)
        requires
            old(self).wf(),
        ensures
            final(self).wf(),
            final(self).json_mode == old(self).json_mode,
            final(self).inner@.dom() == old(self).inner@.dom().insert(executor@),
            forall|k: Seq<char>|
                old(self).inner@.dom().contains(k) && k != executor@
                    ==> final(self).inner@[k] == old(self).inner@[k],
            spec_out_lines(final(self).inner@[executor@]) == spec_entry_out(
                old(self).inner@,
                executor@,
            ).push(data@),
            spec_err_lines(final(self).inner@[executor@]) == spec_entry_err(
                old(self).inner@,
                executor@,
            ),
    {
        let entry = self.collector(executor);
        let ghost out0 = spec_out_lines(entry);
        let ghost err0 = spec_err_lines(entry);
        let updated = match entry {
            JsonCollectorInner::EscapeSeparate { stdout, stderr } => {
                let mut stdout = stdout;
                let ghost sv = stdout.deep_view();
                stdout.push(data);
                proof {
                    assert(stdout.deep_view() =~= sv.push(stdout@.last()@));
                }
                JsonCollectorInner::EscapeSeparate { stdout, stderr }
            },
            JsonCollectorInner::EscapeMerge { merged } => {
                let mut merged = merged;
                let ghost sv = merged.deep_view();
                merged.push(data);
                proof {
                    assert(merged.deep_view() =~= sv.push(merged@.last()@));
                }
                JsonCollectorInner::EscapeMerge { merged }
            },
            JsonCollectorInner::StdoutJson { stdout } => {
                let mut stdout = stdout;
                let ghost sv = stdout.deep_view();
                stdout.push(data);
                proof {
                    assert(stdout.deep_view() =~= sv.push(stdout@.last()@));
                }
                JsonCollectorInner::StdoutJson { stdout }
            },
        };
        proof {
            assert(spec_out_lines(updated) =~= out0.push(data@));
            assert(spec_err_lines(updated) =~= err0);
        }
        self.inner.insert(executor.to_owned(), updated);
    }

    /// Collects one stderr line of `executor`: the separate mode keeps it
    /// beside stdout, the merge mode folds it into the one list, and the
    /// stdout-only mode drops it.
    pub fn collect_stderr(&mut self, executor: &str, data: String)
        requires
            old(self).wf(),
        ensures
            final(self).wf(),
            final(self).json_mode == old(self).json_mode,
            final(self).inner@.dom() == old(self).inner@.dom().insert(executor@),
            forall|k: Seq<char>|
                old(self).inner@.dom().contains(k) && k != executor@
                    ==> final(self).inner@[k] == old(self).inner@[k],
            match old(self).json_mode {
                JsonMode::EscapeSeparate => spec_err_lines(final(self).inner@[executor@])
                    == spec_entry_err(old(self).inner@, executor@).push(data@) && spec_out_lines(
                    final(self).inner@[executor@],
                ) == spec_entry_out(old(self).inner@, executor@),
                JsonMode::EscapeMerge => spec_out_lines(final(self).inner@[executor@])
                    == spec_entry_out(old(self).inner@, executor@).push(data@),
                JsonMode::StdoutJson => spec_out_lines(final(self).inner@[executor@])
                    == spec_entry_out(old(self).inner@, executor@) && spec_err_lines(
                    final(self).inner@[executor@],
                ) == spec_entry_err(old(self).inner@, executor@),
            },
    {
        let entry = self.collector(executor);
        let ghost out0 = spec_out_lines(entry);
        let ghost err0 = spec_err_lines(entry);
        let updated = match entry {
            JsonCollectorInner::EscapeSeparate { stdout, stderr } => {
                let mut stderr = stderr;
                let ghost sv = stderr.deep_view();
                stderr.push(data);
                proof {
                    assert(stderr.deep_view() =~= sv.push(stderr@.last()@));
                }
                JsonCollectorInner::EscapeSeparate { stdout, stderr }
            },
            JsonCollectorInner::EscapeMerge { merged } => {
                let mut merged = merged;
                let ghost sv = merged.deep_view();
                merged.push(data);
                proof {
                    assert(merged.deep_view() =~= sv.push(merged@.last()@));
                }
                JsonCollectorInner::EscapeMerge { merged }
            },
            JsonCollectorInner::StdoutJson { stdout } => JsonCollectorInner::StdoutJson { stdout },
        };
        self.inner.insert(executor.to_owned(), updated);
    }
}

} // verus!
