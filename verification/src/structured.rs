//! Processes without a terminal: each has two streams of output that are kept for replay.
//!
//! A run stays until a client asks to forget it, also when its process has ended or could not be
//! launched, so that the same request never launches a second process.

use vstd::prelude::*;
use vstd::utf8::encode_utf8;

use crate::bounds::total_bytes;
use crate::registry::SignalOrder;
use crate::run_log::{
    law_chunks_stay_within, law_log_stays_bounded, law_pages_hide_no_gap, law_paging_gets_on, Log,
    LogModel,
};
use crate::signal::{platform_signals, Signal};
use crate::structured_v2::{
    AttachParams, AttachResult, Event, ListResult, RunImage, RunNotice, RunState, RunStatus,
    SpawnParams, SpawnResult, StreamName, REPLAY_PAGE_MAX_BYTES, RUN_LOG_MAX_BYTES,
};
use crate::utf8::{
    decoded, law_at_most_three_bytes_wait, law_decoding_adds_nothing, undecoded,
    IncrementalUtf8Decoder,
};

verus! {

/// The most runs that are kept, running or not: the logs then take at most 128 MiB.
pub const MAX_ADMITTED_RUNS: usize = 8;

/// The least number of bytes that a page may hold, so that a chunk always fits.
pub const REPLAY_PAGE_MIN_BYTES: usize = 16_384;

/// The most bytes that are read from a stream at once.
pub const READ_BUFFER_BYTES: usize = 8_192;

/// What a run is.
#[verifier::ext_equal]
pub struct RunModel {
    pub id: Seq<char>,
    pub incarnation: Seq<char>,
    pub pid: u32,
    pub status: RunStatus,
    pub exit_code: Option<i32>,
    pub signal: Option<i32>,
    pub stdout: LogModel,
    pub stderr: LogModel,
}

impl RunModel {
    /// What clients are told of the run.
    pub open spec fn image(self) -> RunImage {
        RunImage {
            run_id: self.id,
            incarnation_id: self.incarnation,
            pid: self.pid,
            status: self.status,
            exit_code: self.exit_code,
            signal: self.signal,
            stdout_seq: self.stdout.seq,
            stderr_seq: self.stderr.seq,
            stdout_truncated: self.stdout.truncated,
            stderr_truncated: self.stderr.truncated,
        }
    }

    /// The log of one of the streams.
    pub open spec fn log(self, stream: StreamName) -> LogModel {
        match stream {
            StreamName::Stdout => self.stdout,
            StreamName::Stderr => self.stderr,
        }
    }

    /// The run after more output.
    pub open spec fn appended(self, stream: StreamName, data: Seq<char>) -> RunModel {
        match stream {
            StreamName::Stdout => RunModel { stdout: self.stdout.appended(data), ..self },
            StreamName::Stderr => RunModel { stderr: self.stderr.appended(data), ..self },
        }
    }

    /// What clients are told of more output.
    pub open spec fn output_notice(self, stream: StreamName, data: Seq<char>) -> RunNotice {
        RunNotice::Stream {
            run_id: self.id,
            incarnation_id: self.incarnation,
            stream,
            seq: (self.log(stream).seq + 1) as u64,
            data,
        }
    }

    /// What clients are told of the end of the run.
    pub open spec fn exit_notice(self) -> RunNotice {
        RunNotice::Exit {
            run_id: self.id,
            incarnation_id: self.incarnation,
            exit_code: self.exit_code,
            signal: self.signal,
        }
    }

    /// The run after its process has ended.
    pub open spec fn exited(self, exit: RunExit) -> RunModel {
        RunModel {
            status: RunStatus::Exited,
            exit_code: exit.exit_code(),
            signal: exit.signal(),
            ..self
        }
    }

    /// What holds of every run: its logs are valid, and every chunk fits the least page.
    pub open spec fn valid(self) -> bool {
        &&& self.stdout.valid()
        &&& self.stderr.valid()
        &&& self.stdout.has_chunks_within(REPLAY_PAGE_MIN_BYTES as int)
        &&& self.stderr.has_chunks_within(REPLAY_PAGE_MIN_BYTES as int)
    }

    /// The bytes kept of both streams.
    pub open spec fn retained(self) -> int {
        total_bytes(self.stdout.chunks) + total_bytes(self.stderr.chunks)
    }
}

/// How a process ended.
#[derive(Debug, Clone, Copy, PartialEq, Eq)]
pub struct RunExit {
    /// The exit code and the signal that waiting for the process gave, if it gave any.
    pub waited: Option<(Option<i32>, Option<i32>)>,
    /// Whether the input of the process could not be written in full.
    pub stdin_failed: bool,
}

impl RunExit {
    /// The exit code to report: a process that did not take its input has not succeeded.
    pub open spec fn exit_code(self) -> Option<i32> {
        match self.waited {
            Some((code, _)) => if self.stdin_failed {
                Some(-1i32)
            } else {
                code
            },
            None => None,
        }
    }

    /// The signal to report.
    pub open spec fn signal(self) -> Option<i32> {
        match self.waited {
            Some((_, signal)) => signal,
            None => None,
        }
    }
}

pub struct Run {
    id: String,
    incarnation: String,
    pid: u32,
    status: RunStatus,
    exit_code: Option<i32>,
    signal: Option<i32>,
    stdout: Log,
    stderr: Log,
}

impl View for Run {
    type V = RunModel;

    closed spec fn view(&self) -> RunModel {
        RunModel {
            id: self.id@,
            incarnation: self.incarnation@,
            pid: self.pid,
            status: self.status,
            exit_code: self.exit_code,
            signal: self.signal,
            stdout: self.stdout@,
            stderr: self.stderr@,
        }
    }
}

/// A run that has just begun, or that has ended before it began.
pub open spec fn fresh_run(
    id: Seq<char>,
    incarnation: Seq<char>,
    pid: u32,
    status: RunStatus,
    exit_code: Option<i32>,
) -> RunModel {
    RunModel {
        id,
        incarnation,
        pid,
        status,
        exit_code,
        signal: None,
        stdout: LogModel::empty(),
        stderr: LogModel::empty(),
    }
}

impl Run {
    pub closed spec fn well_formed(&self) -> bool {
        &&& self.stdout.well_formed()
        &&& self.stderr.well_formed()
        &&& self@.valid()
    }

    fn new(
        id: String,
        incarnation: String,
        pid: u32,
        status: RunStatus,
        exit_code: Option<i32>,
    ) -> (run: Self)
        ensures
            run.well_formed(),
            run@ == fresh_run(id@, incarnation@, pid, status, exit_code),
    {
        Run {
            id,
            incarnation,
            pid,
            status,
            exit_code,
            signal: None,
            stdout: Log::new(),
            stderr: Log::new(),
        }
    }

    /// What clients are told of the run.
    pub fn state(&self) -> (state: RunState)
        ensures
            state@ == self@.image(),
    {
        RunState {
            run_id: self.id.clone(),
            incarnation_id: self.incarnation.clone(),
            pid: self.pid,
            status: self.status,
            exit_code: self.exit_code,
            signal: self.signal,
            stdout_seq: self.stdout.last_seq(),
            stderr_seq: self.stderr.last_seq(),
            stdout_truncated: self.stdout.is_truncated(),
            stderr_truncated: self.stderr.is_truncated(),
        }
    }

    /// The run with pages of both streams, which share a budget: standard output comes first.
    fn attach(&self, params: &AttachParams) -> (result: AttachResult)
        requires
            self.well_formed(),
        ensures
            is_attachment(result, self@, *params),
    {
        let mut remaining: usize = match params.max_bytes {
            None => REPLAY_PAGE_MAX_BYTES,
            Some(bytes) => if bytes < REPLAY_PAGE_MIN_BYTES {
                REPLAY_PAGE_MIN_BYTES
            } else if bytes > REPLAY_PAGE_MAX_BYTES {
                REPLAY_PAGE_MAX_BYTES
            } else {
                bytes
            },
        };
        let stdout = self.stdout.page(params.after_stdout_seq, &mut remaining);
        let stderr = self.stderr.page(params.after_stderr_seq, &mut remaining);
        AttachResult { state: self.state(), stdout, stderr }
    }

    /// Whether another chunk of this stream can still be numbered.
    fn can_append(&self, stream: StreamName) -> (can: bool)
        ensures
            can == (self@.log(stream).seq < u64::MAX),
    {
        match stream {
            StreamName::Stdout => self.stdout.can_append(),
            StreamName::Stderr => self.stderr.can_append(),
        }
    }

    /// Takes in more output.
    fn append(&mut self, stream: StreamName, data: &String) -> (seq: u64)
        requires
            old(self).well_formed(),
            old(self)@.log(stream).seq < u64::MAX,
            encode_utf8(data@).len() <= REPLAY_PAGE_MIN_BYTES,
        ensures
            final(self).well_formed(),
            final(self)@ == old(self)@.appended(stream, data@),
            seq == old(self)@.log(stream).seq + 1,
    {
        proof {
            law_log_stays_bounded(self@.log(stream), data@);
            law_chunks_stay_within(self@.log(stream), data@, REPLAY_PAGE_MIN_BYTES as int);
        }
        match stream {
            StreamName::Stdout => self.stdout.append(data.clone()),
            StreamName::Stderr => self.stderr.append(data.clone()),
        }
    }

    /// Takes in how the process ended.
    fn finish(&mut self, exit: RunExit)
        requires
            old(self).well_formed(),
        ensures
            final(self).well_formed(),
            final(self)@ == old(self)@.exited(exit),
    {
        self.status = RunStatus::Exited;
        match exit.waited {
            Some((code, signal)) => {
                self.exit_code = if exit.stdin_failed {
                    Some(-1i32)
                } else {
                    code
                };
                self.signal = signal;
            },
            None => {
                self.exit_code = None;
                self.signal = None;
            },
        }
    }
}

/// How many bytes the pages of both streams may hold together.
pub open spec fn page_budget(max_bytes: Option<usize>) -> int {
    match max_bytes {
        None => REPLAY_PAGE_MAX_BYTES as int,
        Some(bytes) => if bytes < REPLAY_PAGE_MIN_BYTES {
            REPLAY_PAGE_MIN_BYTES as int
        } else if bytes > REPLAY_PAGE_MAX_BYTES {
            REPLAY_PAGE_MAX_BYTES as int
        } else {
            bytes as int
        },
    }
}

/// Whether this is the answer to a client that attaches to a run.
pub open spec fn is_attachment(result: AttachResult, run: RunModel, params: AttachParams) -> bool {
    let budget = page_budget(params.max_bytes);
    let stdout = run.stdout.page(params.after_stdout_seq, budget);
    &&& result.state@ == run.image()
    &&& result.stdout@ == stdout
    &&& result.stderr@ == run.stderr.page(
        params.after_stderr_seq,
        budget - total_bytes(stdout.chunks),
    )
}

/// What the registry is.
#[verifier::ext_equal]
pub struct RunsModel {
    /// The runs that clients see, in the order of their launch.
    pub runs: Seq<RunModel>,
    /// Runs that were forgotten while their process still ran.
    pub departed: Seq<RunModel>,
    pub draining: bool,
}

/// What a list of runs is.
pub open spec fn run_models(runs: Seq<Run>) -> Seq<RunModel> {
    Seq::new(runs.len(), |i: int| runs[i]@)
}

/// Where the run with this identifier stands.
pub open spec fn run_index(runs: Seq<RunModel>, id: Seq<char>) -> Option<int>
    decreases runs.len(),
{
    if runs.len() == 0 {
        None
    } else if runs.last().id == id {
        Some(runs.len() - 1)
    } else {
        run_index(runs.drop_last(), id)
    }
}

/// Where this launch of a run stands.
pub open spec fn run_launch_index(
    runs: Seq<RunModel>,
    id: Seq<char>,
    incarnation: Seq<char>,
) -> Option<int>
    decreases runs.len(),
{
    if runs.len() == 0 {
        None
    } else if runs.last().id == id && runs.last().incarnation == incarnation {
        Some(runs.len() - 1)
    } else {
        run_launch_index(runs.drop_last(), id, incarnation)
    }
}

/// The number of runs whose process runs.
pub open spec fn running_runs(runs: Seq<RunModel>) -> nat
    decreases runs.len(),
{
    if runs.len() == 0 {
        0
    } else {
        running_runs(runs.drop_last()) + (if runs.last().status == RunStatus::Running {
            1nat
        } else {
            0nat
        })
    }
}

/// The processes that run, in order.
pub open spec fn running_pids(runs: Seq<RunModel>) -> Seq<u32>
    decreases runs.len(),
{
    if runs.len() == 0 {
        Seq::empty()
    } else {
        let before = running_pids(runs.drop_last());
        if runs.last().status == RunStatus::Running {
            before.push(runs.last().pid)
        } else {
            before
        }
    }
}

/// The bytes kept of all runs.
pub open spec fn retained_by(runs: Seq<RunModel>) -> int
    decreases runs.len(),
{
    if runs.len() == 0 {
        0
    } else {
        retained_by(runs.drop_last()) + runs.last().retained()
    }
}

/// No two runs have the same identifier.
pub open spec fn distinct_runs(runs: Seq<RunModel>) -> bool {
    forall|i: int, j: int|
        0 <= i < j < runs.len() ==> (#[trigger] runs[i]).id != (#[trigger] runs[j]).id
}

/// What is to be done about a request to spawn.
pub enum SpawnVerdict {
    /// A field without which nothing can be launched is empty.
    Missing,
    /// The run at this place is present.
    Attach(int),
    Draining,
    Full,
    Launch,
}

/// What is to be done about a request to spawn: a run that is present, also one that has ended, is
/// attached to, whatever else holds.
pub open spec fn spawn_verdict(registry: RunsModel, params: SpawnParams) -> SpawnVerdict {
    if params.run_id@.len() == 0 || params.file@.len() == 0 || params.cwd@.len() == 0 {
        SpawnVerdict::Missing
    } else {
        match run_index(registry.runs, params.run_id@) {
            Some(index) => SpawnVerdict::Attach(index),
            None => if registry.draining {
                SpawnVerdict::Draining
            } else if registry.runs.len() >= MAX_ADMITTED_RUNS {
                SpawnVerdict::Full
            } else {
                SpawnVerdict::Launch
            },
        }
    }
}

/// What a request to spawn leads to.
pub enum Spawning {
    /// The run is present.
    Attached(SpawnResult),
    /// Its process must be launched now, and what comes of that taken in.
    Launch,
}

/// The run that a launch leads to: one that runs, or one that ended before it began.
pub open spec fn launched_run(
    params: SpawnParams,
    incarnation: Seq<char>,
    launched: Result<u32, Option<i32>>,
) -> RunModel {
    match launched {
        Ok(pid) => fresh_run(params.run_id@, incarnation, pid, RunStatus::Running, None),
        Err(Some(code)) => fresh_run(
            params.run_id@,
            incarnation,
            0,
            RunStatus::Exited,
            Some((-code) as i32),
        ),
        Err(None) => fresh_run(params.run_id@, incarnation, 0, RunStatus::Exited, Some(-1i32)),
    }
}

pub struct Registry {
    runs: Vec<Run>,
    departed: Vec<Run>,
    draining: bool,
}

impl View for Registry {
    type V = RunsModel;

    closed spec fn view(&self) -> RunsModel {
        RunsModel {
            runs: run_models(self.runs@),
            departed: run_models(self.departed@),
            draining: self.draining,
        }
    }
}

proof fn lemma_run_index(runs: Seq<RunModel>, id: Seq<char>)
    ensures
        match run_index(runs, id) {
            Some(index) => 0 <= index < runs.len() && runs[index].id == id,
            None => forall|i: int| 0 <= i < runs.len() ==> (#[trigger] runs[i]).id != id,
        },
    decreases runs.len(),
{
    if runs.len() > 0 && runs.last().id != id {
        lemma_run_index(runs.drop_last(), id);
        if run_index(runs.drop_last(), id) is None {
            assert forall|i: int| 0 <= i < runs.len() implies (#[trigger] runs[i]).id != id by {
                if i < runs.len() - 1 {
                    assert(runs.drop_last()[i].id != id);
                }
            }
        }
    }
}

/// Where the run with this identifier stands.
fn find_run(runs: &Vec<Run>, id: &String) -> (index: Option<usize>)
    ensures
        match (index, run_index(run_models(runs@), id@)) {
            (Some(index), Some(at)) => index == at && index < runs@.len(),
            (None, None) => true,
            _ => false,
        },
{
    let ghost all = run_models(runs@);
    let mut index: usize = runs.len();
    assert(all.take(index as int) == all);
    while index > 0
        invariant
            index <= runs@.len(),
            all == run_models(runs@),
            run_index(all, id@) == run_index(all.take(index as int), id@),
        decreases index,
    {
        index = index - 1;
        assert(all.take(index + 1).drop_last() == all.take(index as int));
        if runs[index].id == *id {
            return Some(index);
        }
    }
    None
}

/// Where this launch of a run stands.
fn find_run_launch(runs: &Vec<Run>, id: &String, incarnation: &String) -> (index: Option<usize>)
    ensures
        match (index, run_launch_index(run_models(runs@), id@, incarnation@)) {
            (Some(index), Some(at)) => index == at && index < runs@.len(),
            (None, None) => true,
            _ => false,
        },
{
    let ghost all = run_models(runs@);
    let mut index: usize = runs.len();
    assert(all.take(index as int) == all);
    while index > 0
        invariant
            index <= runs@.len(),
            all == run_models(runs@),
            run_launch_index(all, id@, incarnation@) == run_launch_index(
                all.take(index as int),
                id@,
                incarnation@,
            ),
        decreases index,
    {
        index = index - 1;
        assert(all.take(index + 1).drop_last() == all.take(index as int));
        if runs[index].id == *id && runs[index].incarnation == *incarnation {
            return Some(index);
        }
    }
    None
}

impl Registry {
    pub closed spec fn well_formed(&self) -> bool {
        &&& forall|i: int| 0 <= i < self.runs@.len() ==> (#[trigger] self.runs@[i]).well_formed()
        &&& forall|i: int|
            0 <= i < self.departed@.len() ==> (#[trigger] self.departed@[i]).well_formed()
        &&& distinct_runs(self@.runs)
        &&& self.runs@.len() <= MAX_ADMITTED_RUNS
    }

    /// In every registry each run is valid, no two runs have the same identifier, and there are no
    /// more runs than are admitted.
    pub proof fn law_runs_are_valid(&self)
        requires
            self.well_formed(),
        ensures
            distinct_runs(self@.runs),
            self@.runs.len() <= MAX_ADMITTED_RUNS,
            forall|i: int| 0 <= i < self@.runs.len() ==> (#[trigger] self@.runs[i]).valid(),
    {
        assert forall|i: int| 0 <= i < self@.runs.len() implies (
        #[trigger] self@.runs[i]).valid() by {
            assert(self.runs@[i].well_formed());
        }
    }

    /// A registry without runs.
    pub fn new() -> (registry: Self)
        ensures
            registry.well_formed(),
            registry@ == (RunsModel {
                runs: Seq::empty(),
                departed: Seq::empty(),
                draining: false,
            }),
    {
        let registry = Registry { runs: Vec::new(), departed: Vec::new(), draining: false };
        assert(run_models(registry.runs@) == Seq::<RunModel>::empty());
        assert(run_models(registry.departed@) == Seq::<RunModel>::empty());
        registry
    }

    /// Decides about a request to spawn. Between this decision and `complete_spawn` nothing else
    /// may be done with the registry, so that no second process is launched for one run.
    pub fn spawn(&self, params: &SpawnParams) -> (result: Result<Spawning, String>)
        requires
            self.well_formed(),
        ensures
            match spawn_verdict(self@, *params) {
                SpawnVerdict::Missing => result matches Err(text) && text@
                    == "missing required structured process field"@,
                SpawnVerdict::Attach(index) => result matches Ok(Spawning::Attached(attached))
                    && !attached.is_new && attached.state@ == self@.runs[index].image(),
                SpawnVerdict::Draining => result matches Err(text) && text@
                    == "structured daemon is draining"@,
                SpawnVerdict::Full => result matches Err(text) && text@
                    == "structured process capacity exhausted; existing runs were not killed"@,
                SpawnVerdict::Launch => result matches Ok(Spawning::Launch),
            },
    {
        if params.run_id.as_str().is_empty() || params.file.as_str().is_empty()
            || params.cwd.as_str().is_empty() {
            return Err("missing required structured process field".to_owned());
        }
        match find_run(&self.runs, &params.run_id) {
            Some(index) => Ok(
                Spawning::Attached(SpawnResult { state: self.runs[index].state(), is_new: false }),
            ),
            None => if self.draining {
                Err("structured daemon is draining".to_owned())
            } else if self.runs.len() >= MAX_ADMITTED_RUNS {
                Err(
                    "structured process capacity exhausted; existing runs were not killed".to_owned(),
                )
            } else {
                Ok(Spawning::Launch)
            },
        }
    }

    /// Takes in what came of a launch: a process, or the code of the error that the system gave, if
    /// it gave one. A run that could not be launched has ended with the negative code, and this is
    /// to be published.
    pub fn complete_spawn(
        &mut self,
        params: &SpawnParams,
        incarnation: String,
        launched: Result<u32, Option<i32>>,
    ) -> (done: (SpawnResult, Option<Event>))
        requires
            old(self).well_formed(),
            spawn_verdict(old(self)@, *params) is Launch,
            launched matches Err(Some(code)) ==> code != i32::MIN,
        ensures
            final(self).well_formed(),
            final(self)@ == (RunsModel {
                runs: old(self)@.runs.push(launched_run(*params, incarnation@, launched)),
                ..old(self)@
            }),
            done.0.is_new,
            done.0.state@ == launched_run(*params, incarnation@, launched).image(),
            match launched {
                Ok(_) => done.1 is None,
                Err(_) => done.1 matches Some(event) && event@ == launched_run(
                    *params,
                    incarnation@,
                    launched,
                ).exit_notice(),
            },
    {
        let id = params.run_id.clone();
        let run = match launched {
            Ok(pid) => Run::new(id, incarnation.clone(), pid, RunStatus::Running, None),
            Err(Some(code)) => Run::new(
                id,
                incarnation.clone(),
                0,
                RunStatus::Exited,
                Some(-code),
            ),
            Err(None) => Run::new(id, incarnation.clone(), 0, RunStatus::Exited, Some(-1i32)),
        };
        let event = match launched {
            Ok(_) => None,
            Err(_) => Some(
                Event::Exit {
                    run_id: params.run_id.clone(),
                    incarnation_id: incarnation,
                    exit_code: run.exit_code,
                    signal: None,
                },
            ),
        };
        let state = run.state();
        let ghost before = self@.runs;
        let ghost model = run@;
        proof {
            lemma_run_index(before, params.run_id@);
        }
        self.runs.push(run);
        assert(run_models(self.runs@) == before.push(model));
        (SpawnResult { state, is_new: true }, event)
    }

    /// What clients are told of each run.
    pub fn list(&self) -> (list: ListResult)
        ensures
            list.runs@.len() == self@.runs.len(),
            forall|i: int|
                0 <= i < list.runs@.len() ==> (#[trigger] list.runs@[i])@ == self@.runs[i].image(),
    {
        let mut runs: Vec<RunState> = Vec::new();
        let mut index: usize = 0;
        while index < self.runs.len()
            invariant
                index <= self.runs@.len(),
                runs@.len() == index,
                forall|i: int|
                    0 <= i < runs@.len() ==> (#[trigger] runs@[i])@ == self.runs@[i]@.image(),
            decreases self.runs@.len() - index,
        {
            runs.push(self.runs[index].state());
            index = index + 1;
        }
        ListResult { runs }
    }

    /// A run with pages of its output.
    pub fn attach(&self, params: &AttachParams) -> (result: Option<AttachResult>)
        requires
            self.well_formed(),
        ensures
            match run_index(self@.runs, params.run_id@) {
                Some(index) => result matches Some(result) && is_attachment(
                    result,
                    self@.runs[index],
                    *params,
                ),
                None => result is None,
            },
    {
        match find_run(&self.runs, &params.run_id) {
            Some(index) => Some(self.runs[index].attach(params)),
            None => None,
        }
    }

    /// The number of runs.
    pub fn run_count(&self) -> (count: usize)
        ensures
            count == self@.runs.len(),
    {
        self.runs.len()
    }

    /// The number of runs whose process runs.
    pub fn running_count(&self) -> (count: usize)
        ensures
            count == running_runs(self@.runs),
    {
        let ghost all = run_models(self.runs@);
        let mut count: usize = 0;
        let mut index: usize = 0;
        assert(all.take(0) == Seq::<RunModel>::empty());
        while index < self.runs.len()
            invariant
                index <= self.runs@.len(),
                all == run_models(self.runs@),
                count == running_runs(all.take(index as int)),
                count <= index,
            decreases self.runs@.len() - index,
        {
            assert(all.take(index + 1).drop_last() == all.take(index as int));
            if self.runs[index].status == RunStatus::Running {
                count = count + 1;
            }
            index = index + 1;
        }
        assert(all.take(index as int) == all);
        count
    }

    /// The bytes kept of all runs.
    pub fn retained_bytes(&self) -> (bytes: usize)
        requires
            self.well_formed(),
        ensures
            bytes == retained_by(self@.runs),
            bytes <= MAX_ADMITTED_RUNS * 2 * RUN_LOG_MAX_BYTES,
    {
        let ghost all = run_models(self.runs@);
        let mut bytes: usize = 0;
        let mut index: usize = 0;
        assert(all.take(0) == Seq::<RunModel>::empty());
        while index < self.runs.len()
            invariant
                self.well_formed(),
                index <= self.runs@.len() <= MAX_ADMITTED_RUNS,
                all == run_models(self.runs@),
                bytes == retained_by(all.take(index as int)),
                bytes <= index * 2 * RUN_LOG_MAX_BYTES,
            decreases self.runs@.len() - index,
        {
            assert(all.take(index + 1).drop_last() == all.take(index as int));
            let run = &self.runs[index];
            assert(run.well_formed());
            bytes = bytes + (run.stdout.bytes() + run.stderr.bytes());
            index = index + 1;
        }
        assert(all.take(index as int) == all);
        bytes
    }

    /// Refuses new runs from now on.
    pub fn begin_drain(&mut self)
        requires
            old(self).well_formed(),
        ensures
            final(self).well_formed(),
            final(self)@ == (RunsModel { draining: true, ..old(self)@ }),
    {
        self.draining = true;
    }
}

/// The signals that a client may send to a run, by their exact names.
pub open spec fn run_signal(name: Seq<char>) -> Option<i32> {
    if name == "SIGTERM"@ {
        Some(15i32)
    } else if name == "SIGINT"@ {
        Some(2i32)
    } else if name == "SIGKILL"@ {
        Some(9i32)
    } else if name == "SIGHUP"@ {
        Some(1i32)
    } else {
        None
    }
}

fn run_signal_number(name: &str) -> (number: Option<i32>)
    ensures
        number == run_signal(name@),
{
    let name = name.to_owned();
    let numbers = platform_signals();
    if name == "SIGTERM".to_owned() {
        Some(numbers.number_of(Signal::Term))
    } else if name == "SIGINT".to_owned() {
        Some(numbers.number_of(Signal::Int))
    } else if name == "SIGKILL".to_owned() {
        Some(numbers.number_of(Signal::Kill))
    } else if name == "SIGHUP".to_owned() {
        Some(numbers.number_of(Signal::Hup))
    } else {
        None
    }
}

/// What came of sending a signal.
pub fn signal_result(delivered: bool) -> (result: Result<(), String>)
    ensures
        result is Ok <==> delivered,
        result matches Err(text) ==> text@ == "failed to signal structured run"@,
{
    if delivered {
        Ok(())
    } else {
        Err("failed to signal structured run".to_owned())
    }
}

/// The registry with one run changed.
pub open spec fn with_run(registry: RunsModel, index: int, run: RunModel) -> RunsModel {
    RunsModel { runs: registry.runs.update(index, run), ..registry }
}

proof fn lemma_update_keeps_runs_distinct(runs: Seq<RunModel>, index: int, run: RunModel)
    requires
        distinct_runs(runs),
        0 <= index < runs.len(),
        run.id == runs[index].id,
    ensures
        distinct_runs(runs.update(index, run)),
{
    let updated = runs.update(index, run);
    assert forall|i: int, j: int| 0 <= i < j < updated.len() implies (#[trigger] updated[i]).id != (
    #[trigger] updated[j]).id by {
        assert(runs[i].id != runs[j].id);
    }
}

/// The run of a launch, whether clients see it or not.
pub open spec fn run_of_launch(
    registry: RunsModel,
    id: Seq<char>,
    incarnation: Seq<char>,
) -> Option<RunModel> {
    match run_launch_index(registry.runs, id, incarnation) {
        Some(index) => Some(registry.runs[index]),
        None => match run_launch_index(registry.departed, id, incarnation) {
            Some(index) => Some(registry.departed[index]),
            None => None,
        },
    }
}

/// The registry after more output of a launch.
pub open spec fn after_output(
    registry: RunsModel,
    id: Seq<char>,
    incarnation: Seq<char>,
    stream: StreamName,
    data: Seq<char>,
) -> RunsModel {
    match run_launch_index(registry.runs, id, incarnation) {
        Some(index) => with_run(registry, index, registry.runs[index].appended(stream, data)),
        None => match run_launch_index(registry.departed, id, incarnation) {
            Some(index) => RunsModel {
                departed: registry.departed.update(
                    index,
                    registry.departed[index].appended(stream, data),
                ),
                ..registry
            },
            None => registry,
        },
    }
}

/// The registry after the process of a launch has ended: a run that clients no longer see is gone.
pub open spec fn after_exit(
    registry: RunsModel,
    id: Seq<char>,
    incarnation: Seq<char>,
    exit: RunExit,
) -> RunsModel {
    match run_launch_index(registry.runs, id, incarnation) {
        Some(index) => with_run(registry, index, registry.runs[index].exited(exit)),
        None => match run_launch_index(registry.departed, id, incarnation) {
            Some(index) => RunsModel { departed: registry.departed.remove(index), ..registry },
            None => registry,
        },
    }
}

/// The registry after a run was forgotten.
pub open spec fn after_forgetting(registry: RunsModel, index: int) -> RunsModel {
    RunsModel {
        runs: registry.runs.remove(index),
        departed: if registry.runs[index].status == RunStatus::Running {
            registry.departed.push(registry.runs[index])
        } else {
            registry.departed
        },
        ..registry
    }
}

impl Registry {
    /// Takes in bytes that a launch wrote to one of its streams, through the decoder of that
    /// stream, which holds back part of one character at most. As many bytes are taken in at once
    /// as are read at once. Returns the event to publish: there is none where the bytes make no
    /// whole character yet, and none where no number is left.
    pub fn read(
        &mut self,
        run_id: &str,
        incarnation_id: &str,
        stream: StreamName,
        decoder: &mut IncrementalUtf8Decoder,
        bytes: &[u8],
    ) -> (event: Option<Event>)
        requires
            old(self).well_formed(),
            old(decoder)@.len() <= 3,
            bytes@.len() <= READ_BUFFER_BYTES,
        ensures
            final(self).well_formed(),
            final(decoder)@ == undecoded(old(decoder)@ + bytes@),
            final(decoder)@.len() <= 3,
            ({
                let data = decoded(old(decoder)@ + bytes@);
                let run = run_of_launch(old(self)@, run_id@, incarnation_id@);
                if data.len() > 0 && run is Some && run.unwrap().log(stream).seq < u64::MAX {
                    &&& final(self)@ == after_output(
                        old(self)@,
                        run_id@,
                        incarnation_id@,
                        stream,
                        data,
                    )
                    &&& event matches Some(event) && event@ == run.unwrap().output_notice(
                        stream,
                        data,
                    )
                } else {
                    final(self)@ == old(self)@ && event is None
                }
            }),
    {
        proof {
            law_at_most_three_bytes_wait(decoder@ + bytes@);
            law_decoding_adds_nothing(decoder@ + bytes@);
        }
        let data: String = decoder.push(bytes);
        if data.as_str().is_empty() {
            return None;
        }
        let id = run_id.to_owned();
        let incarnation = incarnation_id.to_owned();
        proof {
            lemma_run_launch_index(self@.runs, run_id@, incarnation_id@);
            lemma_run_launch_index(self@.departed, run_id@, incarnation_id@);
        }
        if let Some(index) = find_run_launch(&self.runs, &id, &incarnation) {
            if !self.runs[index].can_append(stream) {
                return None;
            }
            let ghost before = run_models(self.runs@);
            let seq: u64 = self.runs[index].append(stream, &data);
            proof {
                let after = self.runs@[index as int]@;
                assert(run_models(self.runs@) == before.update(index as int, after));
                lemma_update_keeps_runs_distinct(before, index as int, after);
            }
            return Some(
                Event::Stream { run_id: id, incarnation_id: incarnation, stream, seq, data },
            );
        }
        if let Some(index) = find_run_launch(&self.departed, &id, &incarnation) {
            if !self.departed[index].can_append(stream) {
                return None;
            }
            let ghost before = run_models(self.departed@);
            let seq: u64 = self.departed[index].append(stream, &data);
            assert(run_models(self.departed@) == before.update(
                index as int,
                self.departed@[index as int]@,
            ));
            return Some(
                Event::Stream { run_id: id, incarnation_id: incarnation, stream, seq, data },
            );
        }
        None
    }

    /// Takes in that the process of a launch has ended and all its output has been read. Returns
    /// the event to publish.
    pub fn finish(&mut self, run_id: &str, incarnation_id: &str, exit: RunExit) -> (event: Option<
        Event,
    >)
        requires
            old(self).well_formed(),
        ensures
            final(self).well_formed(),
            final(self)@ == after_exit(old(self)@, run_id@, incarnation_id@, exit),
            event is Some <==> run_of_launch(old(self)@, run_id@, incarnation_id@) is Some,
            event matches Some(event) ==> event@ == run_of_launch(
                old(self)@,
                run_id@,
                incarnation_id@,
            ).unwrap().exited(exit).exit_notice(),
    {
        let id = run_id.to_owned();
        let incarnation = incarnation_id.to_owned();
        proof {
            lemma_run_launch_index(self@.runs, run_id@, incarnation_id@);
            lemma_run_launch_index(self@.departed, run_id@, incarnation_id@);
        }
        if let Some(index) = find_run_launch(&self.runs, &id, &incarnation) {
            let ghost before = run_models(self.runs@);
            self.runs[index].finish(exit);
            proof {
                let after = self.runs@[index as int]@;
                assert(run_models(self.runs@) == before.update(index as int, after));
                lemma_update_keeps_runs_distinct(before, index as int, after);
            }
            let run = &self.runs[index];
            return Some(
                Event::Exit {
                    run_id: id,
                    incarnation_id: incarnation,
                    exit_code: run.exit_code,
                    signal: run.signal,
                },
            );
        }
        if let Some(index) = find_run_launch(&self.departed, &id, &incarnation) {
            let ghost before = run_models(self.departed@);
            let mut run = self.departed.remove(index);
            assert(run_models(self.departed@) == before.remove(index as int));
            run.finish(exit);
            return Some(
                Event::Exit {
                    run_id: id,
                    incarnation_id: incarnation,
                    exit_code: run.exit_code,
                    signal: run.signal,
                },
            );
        }
        None
    }

    /// Decides about a request to send a signal to a run: which process gets which signal, if its
    /// process runs.
    pub fn interrupt(&self, run_id: &str, signal: &str) -> (result: Result<Option<SignalOrder>, String>)
        requires
            self.well_formed(),
        ensures
            match (run_signal(signal@), run_index(self@.runs, run_id@)) {
                (None, _) => result matches Err(text) && text@ == "unsupported signal"@,
                (Some(_), None) => result matches Err(text) && text@ == "unknown structured run"@,
                (Some(number), Some(index)) => result matches Ok(order) && order == (
                if self@.runs[index].status == RunStatus::Running {
                    Some(SignalOrder { pid: self@.runs[index].pid, signo: number })
                } else {
                    None
                }),
            },
    {
        match run_signal_number(signal) {
            None => Err("unsupported signal".to_owned()),
            Some(number) => match find_run(&self.runs, &run_id.to_owned()) {
                None => Err("unknown structured run".to_owned()),
                Some(index) => if self.runs[index].status == RunStatus::Running {
                    Ok(Some(SignalOrder { pid: self.runs[index].pid, signo: number }))
                } else {
                    Ok(None)
                },
            },
        }
    }

    /// Forgets a run. Its process, if it runs, must have been asked to terminate: `delivered` says
    /// whether this has been done. If it could not be, the run stays.
    pub fn forget(&mut self, run_id: &str, delivered: bool) -> (result: Result<(), String>)
        requires
            old(self).well_formed(),
        ensures
            final(self).well_formed(),
            match run_index(old(self)@.runs, run_id@) {
                None => final(self)@ == old(self)@ && (result matches Err(text) && text@
                    == "unknown structured run"@),
                Some(index) => if old(self)@.runs[index].status == RunStatus::Running && !delivered {
                    final(self)@ == old(self)@ && (result matches Err(text) && text@
                        == "failed to signal structured run"@)
                } else {
                    final(self)@ == after_forgetting(old(self)@, index) && result is Ok
                },
            },
    {
        match find_run(&self.runs, &run_id.to_owned()) {
            None => Err("unknown structured run".to_owned()),
            Some(index) => {
                let running = self.runs[index].status == RunStatus::Running;
                if running && !delivered {
                    return signal_result(false);
                }
                let ghost before = run_models(self.runs@);
                let ghost departed = run_models(self.departed@);
                let run = self.runs.remove(index);
                proof {
                    let after = before.remove(index as int);
                    assert(run_models(self.runs@) == after);
                    assert forall|i: int, j: int| 0 <= i < j < after.len() implies (
                    #[trigger] after[i]).id != (#[trigger] after[j]).id by {
                        let k = if i < index {
                            i
                        } else {
                            i + 1
                        };
                        let l = if j < index {
                            j
                        } else {
                            j + 1
                        };
                        assert(before[k].id != before[l].id);
                    }
                }
                if running {
                    let ghost model = run@;
                    self.departed.push(run);
                    assert(run_models(self.departed@) == departed.push(model));
                }
                Ok(())
            },
        }
    }

    /// Refuses new runs from now on, and returns the processes to kill: all that run.
    pub fn stop_now(&mut self) -> (kill: Vec<u32>)
        requires
            old(self).well_formed(),
        ensures
            final(self).well_formed(),
            final(self)@ == (RunsModel { draining: true, ..old(self)@ }),
            kill@ == running_pids(old(self)@.runs),
    {
        self.begin_drain();
        let ghost all = run_models(self.runs@);
        let mut kill: Vec<u32> = Vec::new();
        let mut index: usize = 0;
        assert(all.take(0) == Seq::<RunModel>::empty());
        while index < self.runs.len()
            invariant
                index <= self.runs@.len(),
                all == run_models(self.runs@),
                kill@ == running_pids(all.take(index as int)),
            decreases self.runs@.len() - index,
        {
            assert(all.take(index + 1).drop_last() == all.take(index as int));
            if self.runs[index].status == RunStatus::Running {
                kill.push(self.runs[index].pid);
            }
            index = index + 1;
        }
        assert(all.take(index as int) == all);
        kill
    }
}

proof fn lemma_run_launch_index(runs: Seq<RunModel>, id: Seq<char>, incarnation: Seq<char>)
    ensures
        run_launch_index(runs, id, incarnation) matches Some(index) ==> 0 <= index < runs.len()
            && runs[index].id == id && runs[index].incarnation == incarnation,
    decreases runs.len(),
{
    if runs.len() > 0 && !(runs.last().id == id && runs.last().incarnation == incarnation) {
        lemma_run_launch_index(runs.drop_last(), id, incarnation);
    }
}

/// Whatever came of a launch, a later request for the same run attaches to it and launches
/// nothing, also when its process has ended or never began.
pub proof fn law_one_launch_per_run(
    registry: RunsModel,
    params: SpawnParams,
    incarnation: Seq<char>,
    launched: Result<u32, Option<i32>>,
    again: SpawnParams,
)
    requires
        spawn_verdict(registry, params) is Launch,
        again.run_id@ == params.run_id@,
        again.file@.len() > 0,
        again.cwd@.len() > 0,
    ensures
        ({
            let run = launched_run(params, incarnation, launched);
            let after = RunsModel { runs: registry.runs.push(run), ..registry };
            spawn_verdict(after, again) matches SpawnVerdict::Attach(index) && after.runs[index]
                == run
        }),
{
}

/// A run that could not be launched is an ended run without a process and without output, and its
/// exit code is the negative of the code that the system gave.
pub proof fn law_failed_launch_is_an_ended_run(
    params: SpawnParams,
    incarnation: Seq<char>,
    code: i32,
)
    requires
        code > 0,
    ensures
        ({
            let run = launched_run(params, incarnation, Err(Some(code)));
            &&& run.status == RunStatus::Exited
            &&& run.pid == 0
            &&& run.exit_code == Some((-code) as i32)
            &&& run.exit_code.unwrap() < 0
            &&& run.stdout.chunks.len() == 0
            &&& run.stderr.chunks.len() == 0
        }),
{
}

/// Nothing that clients are told of a run depends on its arguments, its environment, its directory
/// or its input.
pub proof fn law_launch_parameters_stay_private(
    first: SpawnParams,
    second: SpawnParams,
    incarnation: Seq<char>,
    launched: Result<u32, Option<i32>>,
)
    requires
        first.run_id@ == second.run_id@,
    ensures
        launched_run(first, incarnation, launched) == launched_run(second, incarnation, launched),
{
}

/// Once draining has begun, nothing new is launched, while runs that are present can still be
/// attached to.
pub proof fn law_drain_refuses_new_runs(registry: RunsModel, params: SpawnParams)
    requires
        registry.draining,
    ensures
        !(spawn_verdict(registry, params) is Launch),
        params.run_id@.len() > 0 && params.file@.len() > 0 && params.cwd@.len() > 0 ==> (
        spawn_verdict(registry, params) is Attach <==> run_index(registry.runs, params.run_id@) is Some),
{
}

/// The run with an identifier, if there is one.
pub open spec fn run_named(registry: RunsModel, id: Seq<char>) -> Option<RunModel> {
    match run_index(registry.runs, id) {
        Some(index) => Some(registry.runs[index]),
        None => None,
    }
}

proof fn lemma_run_at(runs: Seq<RunModel>, index: int)
    requires
        distinct_runs(runs),
        0 <= index < runs.len(),
    ensures
        run_index(runs, runs[index].id) == Some(index),
{
    lemma_run_index(runs, runs[index].id);
    let found = run_index(runs, runs[index].id).unwrap();
    if found < index {
        assert(runs[found].id != runs[index].id);
    } else if index < found {
        assert(runs[index].id != runs[found].id);
    }
}

/// Forgetting a run touches no other: every other run stays as it was.
pub proof fn law_forgetting_touches_one_run(registry: RunsModel, index: int, other: Seq<char>)
    requires
        distinct_runs(registry.runs),
        0 <= index < registry.runs.len(),
        other != registry.runs[index].id,
    ensures
        run_named(after_forgetting(registry, index), other) == run_named(registry, other),
        run_named(after_forgetting(registry, index), registry.runs[index].id) is None,
{
    let before = registry.runs;
    let after = before.remove(index);
    assert forall|i: int, j: int| 0 <= i < j < after.len() implies (#[trigger] after[i]).id != (
    #[trigger] after[j]).id by {
        let k = if i < index {
            i
        } else {
            i + 1
        };
        let l = if j < index {
            j
        } else {
            j + 1
        };
        assert(before[k].id != before[l].id);
    }
    lemma_run_index(before, other);
    lemma_run_index(after, other);
    lemma_run_index(after, before[index].id);
    match run_index(before, other) {
        Some(at) => {
            let moved = if at < index {
                at
            } else {
                at - 1
            };
            assert(after[moved] == before[at]);
            lemma_run_at(after, moved);
        },
        None => {
            if run_index(after, other) is Some {
                let at = run_index(after, other).unwrap();
                let from = if at < index {
                    at
                } else {
                    at + 1
                };
                assert(before[from].id == other);
            }
        },
    }
    if run_index(after, before[index].id) is Some {
        let at = run_index(after, before[index].id).unwrap();
        let from = if at < index {
            at
        } else {
            at + 1
        };
        if from < index {
            assert(before[from].id != before[index].id);
        } else {
            assert(before[index].id != before[from].id);
        }
    }
}

/// The pages that a client gets hold no more than the budget that it asks for, within the smallest
/// and the largest one; as long as there is more standard output to come, the client gets on with
/// it; and once a client that goes on behind its pages has all of that, it gets on with the standard
/// error output.
pub proof fn law_pages_are_bounded_and_get_on(run: RunModel, params: AttachParams)
    requires
        run.valid(),
    ensures
        ({
            let budget = page_budget(params.max_bytes);
            let stdout = run.stdout.page(params.after_stdout_seq, budget);
            let left = budget - total_bytes(stdout.chunks);
            let stderr = run.stderr.page(params.after_stderr_seq, left);
            &&& total_bytes(stdout.chunks) + total_bytes(stderr.chunks) <= budget
            &&& budget <= REPLAY_PAGE_MAX_BYTES
            &&& !stdout.complete ==> stdout.chunks.len() > 0 && stdout.next_seq > run.stdout.cursor(
                params.after_stdout_seq,
            )
            &&& stdout.complete ==> run.stdout.page(stdout.next_seq, budget).chunks.len() == 0
            &&& stdout.chunks.len() == 0 && !stderr.complete ==> stderr.chunks.len() > 0
                && stderr.next_seq > run.stderr.cursor(params.after_stderr_seq)
        }),
{
    let budget = page_budget(params.max_bytes);
    let stdout = run.stdout.page(params.after_stdout_seq, budget);
    law_pages_hide_no_gap(run.stdout, params.after_stdout_seq, budget);
    law_pages_hide_no_gap(run.stderr, params.after_stderr_seq, budget - total_bytes(stdout.chunks));
    let next = run.stdout.behind(run.stdout.cursor(params.after_stdout_seq));
    if !stdout.complete {
        assert(next[0] == run.stdout.chunks[run.stdout.cursor(params.after_stdout_seq)
            - run.stdout.floor()]);
        law_paging_gets_on(run.stdout, params.after_stdout_seq, budget);
    } else {
        law_pages_hide_no_gap(run.stdout, stdout.next_seq, budget);
        assert(stdout.chunks.len() > 0 ==> run.stdout.behind(run.stdout.seq as int).len() == 0);
    }
    let stderr = run.stderr.page(params.after_stderr_seq, budget - total_bytes(stdout.chunks));
    if stdout.chunks.len() == 0 && !stderr.complete {
        assert(run.stderr.behind(run.stderr.cursor(params.after_stderr_seq))[0]
            == run.stderr.chunks[run.stderr.cursor(params.after_stderr_seq) - run.stderr.floor()]);
        law_paging_gets_on(run.stderr, params.after_stderr_seq, budget);
    }
}

} // verus!
