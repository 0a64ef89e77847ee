//! What clients of structured runs are promised, said without the functions that the library
//! computes it with.

use vstd::prelude::*;
use vstd::utf8::encode_utf8;

use crate::bounds::total_bytes;
use crate::registry::SignalOrder;
use crate::run_log::{fitting, newest_within, LogModel};
use crate::structured::{
    after_exit, after_forgetting, after_output, is_attachment, launched_run, page_budget,
    retained_by, run_index, run_launch_index, run_of_launch, run_signal, running_pids,
    running_runs, spawn_verdict, RunExit, RunModel, RunsModel, SpawnVerdict,
};
use crate::structured_server::{
    after_call, ends, is_outcome, stage_after_call, stage_after_signals, Call, Outcome,
    Stage, Surroundings,
};
use crate::structured_v2::{
    AttachParams, AttachResult, ErrorCode, Event, ReplayStream, RunNotice, RunState, RunStatus,
    ShutdownMode, SpawnParams, StreamName,
};

verus! {

/// How a process ended is told as waiting for it gave it: the exit code, and the signal. Only a
/// process that did not take its input is said to have failed with -1; and where waiting gave
/// nothing, nothing is told. Nothing else of the run changes.
pub proof fn law_exit_is_told_as_waited(
    run: RunModel,
    code: Option<i32>,
    signal: Option<i32>,
    stdin_failed: bool,
)
    ensures
        ({
            let known = RunExit { waited: Some((code, signal)), stdin_failed };
            let unknown = RunExit { waited: None, stdin_failed };
            &&& !stdin_failed ==> known.exit_code() == code
            &&& stdin_failed ==> known.exit_code() == Some(-1i32)
            &&& known.signal() == signal
            &&& unknown.exit_code() is None && unknown.signal() is None
            &&& run.exited(known) == (RunModel {
                status: RunStatus::Exited,
                exit_code: if stdin_failed {
                    Some(-1i32)
                } else {
                    code
                },
                signal,
                ..run
            })
            &&& run.exited(unknown) == (RunModel {
                status: RunStatus::Exited,
                exit_code: None,
                signal: None,
                ..run
            })
        }),
{
}

/// What clients are told of a run is what it is: who it is, how it fares, how it ended, how many
/// chunks each stream wrote and whether some are gone.
pub proof fn law_run_is_told_as_it_is(run: RunModel)
    ensures
        ({
            let image = run.image();
            &&& image.run_id == run.id
            &&& image.incarnation_id == run.incarnation
            &&& image.pid == run.pid
            &&& image.status == run.status
            &&& image.exit_code == run.exit_code
            &&& image.signal == run.signal
            &&& image.stdout_seq == run.stdout.seq
            &&& image.stderr_seq == run.stderr.seq
            &&& image.stdout_truncated == run.stdout.truncated
            &&& image.stderr_truncated == run.stderr.truncated
        }),
{
}

/// A run is found by its identifier, wherever it stands, and none is found that is not there; and
/// so is a launch of a run.
pub proof fn law_runs_are_found_by_name(
    runs: Seq<RunModel>,
    id: Seq<char>,
    incarnation: Seq<char>,
)
    ensures
        match run_index(runs, id) {
            Some(index) => 0 <= index < runs.len() && runs[index].id == id,
            None => forall|i: int| 0 <= i < runs.len() ==> (#[trigger] runs[i]).id != id,
        },
        match run_launch_index(runs, id, incarnation) {
            Some(index) => 0 <= index < runs.len() && runs[index].id == id
                && runs[index].incarnation == incarnation,
            None => forall|i: int|
                0 <= i < runs.len() ==> !((#[trigger] runs[i]).id == id && runs[i].incarnation
                    == incarnation),
        },
    decreases runs.len(),
{
    if runs.len() > 0 {
        law_runs_are_found_by_name(runs.drop_last(), id, incarnation);
        assert forall|i: int| 0 <= i < runs.len() - 1 implies runs.drop_last()[i]
            == #[trigger] runs[i] by {}
    }
}

/// Where no two runs have the same identifier, each is the one that is found by its own.
pub proof fn law_each_run_is_found(runs: Seq<RunModel>, index: int)
    requires
        forall|i: int, j: int|
            0 <= i < j < runs.len() ==> (#[trigger] runs[i]).id != (#[trigger] runs[j]).id,
        0 <= index < runs.len(),
    ensures
        run_index(runs, runs[index].id) == Some(index),
        run_launch_index(runs, runs[index].id, runs[index].incarnation) == Some(index),
{
    law_runs_are_found_by_name(runs, runs[index].id, runs[index].incarnation);
    let found = run_index(runs, runs[index].id);
    let launch = run_launch_index(runs, runs[index].id, runs[index].incarnation);
    if found is Some && found.unwrap() != index {
        let at = found.unwrap();
        assert(runs[if at < index { at } else { index }].id != runs[if at < index {
            index
        } else {
            at
        }].id);
    }
    if launch is Some && launch.unwrap() != index {
        let at = launch.unwrap();
        assert(runs[if at < index { at } else { index }].id != runs[if at < index {
            index
        } else {
            at
        }].id);
    }
}

/// The runs that are counted as running are those whose process has not ended, and the processes
/// that a shutdown at once kills are theirs: all of them, and no other.
pub proof fn law_every_running_process_is_killed(runs: Seq<RunModel>, pid: u32)
    ensures
        running_runs(runs) == runs.filter(|run: RunModel| run.status == RunStatus::Running).len(),
        running_pids(runs).len() == running_runs(runs),
        running_pids(runs).contains(pid) <==> exists|i: int|
            0 <= i < runs.len() && (#[trigger] runs[i]).status == RunStatus::Running && runs[i].pid
                == pid,
    decreases runs.len(),
{
    reveal(Seq::filter);
    let kill = running_pids(runs);
    if runs.len() > 0 {
        let shorter = runs.drop_last();
        let before = running_pids(shorter);
        law_every_running_process_is_killed(shorter, pid);
        if kill.contains(pid) {
            let i = choose|i: int| 0 <= i < kill.len() && kill[i] == pid;
            if i < before.len() {
                assert(before[i] == pid);
                let j = choose|j: int|
                    0 <= j < shorter.len() && (#[trigger] shorter[j]).status == RunStatus::Running
                        && shorter[j].pid == pid;
                assert(runs[j] == shorter[j]);
            } else {
                assert(runs[runs.len() - 1].pid == pid);
            }
        }
        if exists|i: int|
            0 <= i < runs.len() && (#[trigger] runs[i]).status == RunStatus::Running && runs[i].pid
                == pid {
            let i = choose|i: int|
                0 <= i < runs.len() && (#[trigger] runs[i]).status == RunStatus::Running
                    && runs[i].pid == pid;
            if i < runs.len() - 1 {
                assert(shorter[i] == runs[i]);
                let j = choose|j: int| 0 <= j < before.len() && before[j] == pid;
                assert(kill[j] == pid);
            } else {
                assert(kill[kill.len() - 1] == pid);
            }
        }
    }
}

/// A process is launched if and only if the request names a run, a file and a directory, there is
/// no such run, the daemon does not drain, and fewer than 8 runs are kept. Where there is such a
/// run, also one that has ended, it is attached to, also while the daemon drains or is full.
pub proof fn law_spawn_launches_once(registry: RunsModel, params: SpawnParams)
    ensures
        ({
            let verdict = spawn_verdict(registry, params);
            let named = params.run_id@.len() > 0 && params.file@.len() > 0 && params.cwd@.len() > 0;
            let present = exists|i: int|
                0 <= i < registry.runs.len() && (#[trigger] registry.runs[i]).id == params.run_id@;
            &&& verdict is Missing <==> !named
            &&& verdict is Attach <==> named && present
            &&& verdict matches SpawnVerdict::Attach(index) ==> 0 <= index < registry.runs.len()
                && registry.runs[index].id == params.run_id@
            &&& verdict is Draining <==> named && !present && registry.draining
            &&& verdict is Full <==> named && !present && !registry.draining && registry.runs.len()
                >= 8
            &&& verdict is Launch <==> named && !present && !registry.draining
                && registry.runs.len() < 8
        }),
{
    law_runs_are_found_by_name(registry.runs, params.run_id@, Seq::empty());
    if run_index(registry.runs, params.run_id@) is Some {
        let index = run_index(registry.runs, params.run_id@).unwrap();
        assert(registry.runs[index].id == params.run_id@);
    }
}

/// A launched process runs under the identifier of the request and has written nothing yet. One that
/// could not be launched has ended with the negative code of the error, or -1 where there is none.
pub proof fn law_launch_is_taken_in_as_it_went(
    params: SpawnParams,
    incarnation: Seq<char>,
    pid: u32,
    code: i32,
)
    requires
        code != i32::MIN,
    ensures
        ({
            let running = launched_run(params, incarnation, Ok(pid));
            let failed = launched_run(params, incarnation, Err(Some(code)));
            let lost = launched_run(params, incarnation, Err(None));
            &&& running.id == params.run_id@ && failed.id == params.run_id@ && lost.id
                == params.run_id@
            &&& running.incarnation == incarnation && failed.incarnation == incarnation
                && lost.incarnation == incarnation
            &&& running.pid == pid && failed.pid == 0 && lost.pid == 0
            &&& running.status == RunStatus::Running
            &&& failed.status == RunStatus::Exited && lost.status == RunStatus::Exited
            &&& running.exit_code is None
            &&& failed.exit_code matches Some(told) && told == 0 - code
            &&& lost.exit_code matches Some(told) && told == 0 - 1
            &&& running.signal is None && failed.signal is None && lost.signal is None
            &&& running.stdout.seq == 0 && running.stdout.chunks.len() == 0
                && !running.stdout.truncated
            &&& running.stderr == running.stdout
            &&& failed.stdout == running.stdout && failed.stderr == running.stdout
        }),
{
}

/// Output of a launch reaches the log of its stream, as one more chunk with the next number, and
/// nothing else: not the other stream, not another run.
pub proof fn law_output_reaches_one_stream(
    registry: RunsModel,
    id: Seq<char>,
    incarnation: Seq<char>,
    stream: StreamName,
    data: Seq<char>,
)
    ensures
        ({
            let after = after_output(registry, id, incarnation, stream, data);
            &&& after.draining == registry.draining
            &&& after.runs.len() == registry.runs.len()
            &&& after.departed.len() == registry.departed.len()
            &&& forall|i: int|
                0 <= i < registry.runs.len() && ((#[trigger] registry.runs[i]).id != id
                    || registry.runs[i].incarnation != incarnation) ==> after.runs[i]
                    == registry.runs[i]
            &&& forall|i: int|
                0 <= i < registry.departed.len() && ((#[trigger] registry.departed[i]).id != id
                    || registry.departed[i].incarnation != incarnation) ==> after.departed[i]
                    == registry.departed[i]
            &&& match run_launch_index(registry.runs, id, incarnation) {
                Some(index) => after.departed == registry.departed && after.runs[index] == (
                match stream {
                    StreamName::Stdout => RunModel {
                        stdout: registry.runs[index].stdout.appended(data),
                        ..registry.runs[index]
                    },
                    StreamName::Stderr => RunModel {
                        stderr: registry.runs[index].stderr.appended(data),
                        ..registry.runs[index]
                    },
                }),
                None => after.runs == registry.runs && (run_launch_index(
                    registry.departed,
                    id,
                    incarnation,
                ) matches Some(index) ==> after.departed[index] == (match stream {
                    StreamName::Stdout => RunModel {
                        stdout: registry.departed[index].stdout.appended(data),
                        ..registry.departed[index]
                    },
                    StreamName::Stderr => RunModel {
                        stderr: registry.departed[index].stderr.appended(data),
                        ..registry.departed[index]
                    },
                })),
            }
            &&& run_of_launch(registry, id, incarnation) is None ==> after == registry
        }),
{
    law_runs_are_found_by_name(registry.runs, id, incarnation);
    law_runs_are_found_by_name(registry.departed, id, incarnation);
}

/// The end of a launch is recorded with its run and touches no other; a run that was forgotten is
/// gone with it.
pub proof fn law_exit_reaches_one_run(
    registry: RunsModel,
    id: Seq<char>,
    incarnation: Seq<char>,
    exit: RunExit,
)
    ensures
        ({
            let after = after_exit(registry, id, incarnation, exit);
            &&& after.draining == registry.draining
            &&& after.runs.len() == registry.runs.len()
            &&& forall|i: int|
                0 <= i < registry.runs.len() && ((#[trigger] registry.runs[i]).id != id
                    || registry.runs[i].incarnation != incarnation) ==> after.runs[i]
                    == registry.runs[i]
            &&& match run_launch_index(registry.runs, id, incarnation) {
                Some(index) => after.departed == registry.departed && after.runs[index] == (
                RunModel {
                    status: RunStatus::Exited,
                    exit_code: exit.exit_code(),
                    signal: exit.signal(),
                    ..registry.runs[index]
                }),
                None => after.runs == registry.runs && (run_launch_index(
                    registry.departed,
                    id,
                    incarnation,
                ) matches Some(index) ==> after.departed == registry.departed.remove(index)),
            }
            &&& run_of_launch(registry, id, incarnation) is None ==> after == registry
            &&& run_launch_index(registry.runs, id, incarnation) is None && run_of_launch(
                registry,
                id,
                incarnation,
            ) is Some ==> after.departed.len() == registry.departed.len() - 1
        }),
{
    law_runs_are_found_by_name(registry.runs, id, incarnation);
    law_runs_are_found_by_name(registry.departed, id, incarnation);
}

/// A forgotten run whose process still runs is kept apart until the process ends; one whose process
/// has ended is gone.
pub proof fn law_forgotten_run_is_kept_while_it_runs(registry: RunsModel, index: int)
    requires
        0 <= index < registry.runs.len(),
    ensures
        ({
            let after = after_forgetting(registry, index);
            &&& after.draining == registry.draining
            &&& after.runs.len() == registry.runs.len() - 1
            &&& forall|i: int| 0 <= i < index ==> #[trigger] after.runs[i] == registry.runs[i]
            &&& forall|i: int|
                index <= i < after.runs.len() ==> #[trigger] after.runs[i] == registry.runs[i + 1]
            &&& registry.runs[index].status == RunStatus::Running ==> after.departed
                == registry.departed.push(registry.runs[index])
            &&& registry.runs[index].status == RunStatus::Exited ==> after.departed
                == registry.departed
        }),
{
}

/// The bytes of chunks in UTF-8.
pub open spec fn bytes_of(chunks: Seq<(u64, Seq<char>)>) -> int
    decreases chunks.len(),
{
    if chunks.len() == 0 {
        0
    } else {
        bytes_of(chunks.drop_last()) + encode_utf8(chunks.last().1).len()
    }
}

proof fn lemma_bytes_of(chunks: Seq<(u64, Seq<char>)>)
    ensures
        bytes_of(chunks) == total_bytes(chunks),
        bytes_of(chunks) >= 0,
    decreases chunks.len(),
{
    if chunks.len() == 1 {
        assert(chunks.drop_first() == Seq::<(u64, Seq<char>)>::empty());
        assert(chunks.drop_last() == Seq::<(u64, Seq<char>)>::empty());
        assert(total_bytes(chunks.drop_first()) == 0);
        assert(bytes_of(chunks.drop_last()) == 0);
    } else if chunks.len() > 1 {
        lemma_bytes_of(chunks.drop_first());
        lemma_bytes_of(chunks.drop_last());
        lemma_bytes_of(chunks.drop_first().drop_last());
        assert(chunks.drop_first().drop_last() == chunks.drop_last().drop_first());
        assert(chunks.drop_first().last() == chunks.last());
        assert(chunks.drop_last()[0] == chunks[0]);
    }
}

proof fn lemma_newest_chunks(chunks: Seq<(u64, Seq<char>)>, max_bytes: int)
    requires
        max_bytes >= 0,
    ensures
        ({
            let kept = newest_within(chunks, max_bytes);
            let gone = chunks.len() - kept.len();
            &&& 0 <= gone
            &&& kept == chunks.skip(gone)
            &&& bytes_of(kept) <= max_bytes
            &&& gone > 0 ==> bytes_of(chunks.skip(gone - 1)) > max_bytes
        }),
    decreases chunks.len(),
{
    lemma_bytes_of(chunks);
    if chunks.len() > 0 && total_bytes(chunks) > max_bytes {
        lemma_newest_chunks(chunks.drop_first(), max_bytes);
        let kept = newest_within(chunks, max_bytes);
        let gone = chunks.len() - kept.len();
        assert(chunks.drop_first().skip(gone - 1) == chunks.skip(gone));
        if gone == 1 {
            assert(chunks.skip(0) == chunks);
        } else {
            assert(chunks.drop_first().skip(gone - 2) == chunks.skip(gone - 1));
        }
    } else {
        assert(chunks.skip(0) == chunks);
    }
}

/// A log keeps the newest chunks that have no more than 8 MiB together: of what it kept and one more
/// chunk, numbered one higher than the last, as many of the newest as that allows. It says that
/// chunks are gone once one is, and never takes it back.
pub proof fn law_log_keeps_the_newest_8_mib(log: LogModel, data: Seq<char>)
    requires
        log.seq < u64::MAX,
    ensures
        ({
            let after = log.appended(data);
            let all = log.chunks.push(((log.seq + 1) as u64, data));
            let gone = all.len() - after.chunks.len();
            &&& after.seq == log.seq + 1
            &&& 0 <= gone
            &&& after.chunks == all.subrange(gone, all.len() as int)
            &&& bytes_of(after.chunks) <= 8_388_608
            &&& gone > 0 ==> bytes_of(all.subrange(gone - 1, all.len() as int)) > 8_388_608
            &&& after.truncated <==> log.truncated || gone > 0
        }),
{
    let all = log.chunks.push(((log.seq + 1) as u64, data));
    lemma_newest_chunks(all, 8_388_608);
    let gone = all.len() - log.appended(data).chunks.len();
    assert(all.skip(gone) == all.subrange(gone, all.len() as int));
    if gone > 0 {
        assert(all.skip(gone - 1) == all.subrange(gone - 1, all.len() as int));
    }
}

proof fn lemma_fitting_is_longest(chunks: Seq<(u64, Seq<char>)>, budget: int)
    requires
        budget >= 0,
    ensures
        ({
            let length = fitting(chunks, budget);
            &&& 0 <= length <= chunks.len()
            &&& total_bytes(chunks.take(length)) <= budget
            &&& length < chunks.len() ==> total_bytes(chunks.take(length + 1)) > budget
        }),
    decreases chunks.len(),
{
    assert(chunks.take(0) == Seq::<(u64, Seq<char>)>::empty());
    if chunks.len() > 0 {
        let first = encode_utf8(chunks[0].1).len();
        if first <= budget {
            let length = fitting(chunks, budget);
            lemma_fitting_is_longest(chunks.drop_first(), budget - first);
            assert(chunks.take(length).drop_first() == chunks.drop_first().take(length - 1));
            if length < chunks.len() {
                assert(chunks.take(length + 1).drop_first() == chunks.drop_first().take(length));
            }
        } else {
            assert(chunks.take(1).drop_first() == Seq::<(u64, Seq<char>)>::empty());
            assert(total_bytes(chunks.take(1).drop_first()) == 0);
        }
    }
}

/// A page for a client that has seen the chunks up to `after` holds the chunks that follow, in
/// order, as many as fit its budget and no fewer. Where the next one is gone, or `after` has never
/// been given out, the client must start over, and the page begins with the oldest chunk that is
/// kept. The page is complete if it ends with the newest chunk.
pub proof fn law_page_holds_all_that_fits(log: LogModel, after: u64, budget: int)
    requires
        log.valid(),
        budget >= 0,
    ensures
        ({
            let page = log.page(after, budget);
            let oldest = log.seq - log.chunks.len() + 1;
            let lost = after + 1 < oldest || after > log.seq;
            let from = if lost {
                0int
            } else {
                after + 1 - oldest
            };
            let to = from + page.chunks.len();
            &&& page.reset_required == lost
            &&& 0 <= from <= to <= log.chunks.len()
            &&& page.chunks == log.chunks.subrange(from, to)
            &&& bytes_of(page.chunks) <= budget
            &&& to < log.chunks.len() ==> bytes_of(log.chunks.subrange(from, to + 1)) > budget
            &&& page.complete <==> to == log.chunks.len()
            &&& page.next_seq == (if from == to {
                after as int
            } else {
                log.chunks[to - 1].0 as int
            })
        }),
{
    let page = log.page(after, budget);
    let from = log.cursor(after) - log.floor();
    let behind = log.behind(log.cursor(after));
    lemma_fitting_is_longest(behind, budget);
    let to = from + page.chunks.len();
    lemma_bytes_of(page.chunks);
    assert(behind.take(page.chunks.len() as int) == log.chunks.subrange(from, to));
    if to < log.chunks.len() {
        assert(behind.take(to + 1 - from) == log.chunks.subrange(from, to + 1));
        lemma_bytes_of(log.chunks.subrange(from, to + 1));
    }
}

/// A client that attaches is told of the run, and gets a page of its standard output within the
/// budget that it asked for, at least 16384 and at most 524288 bytes and as much where it asked for
/// none; and a page of its standard error output within what the first page left of that.
pub proof fn law_attachment_is_two_pages(
    result: AttachResult,
    run: RunModel,
    params: AttachParams,
)
    requires
        is_attachment(result, run, params),
        run.valid(),
    ensures
        ({
            let budget = match params.max_bytes {
                None => 524_288int,
                Some(bytes) => if bytes <= 16_384 {
                    16_384int
                } else if bytes >= 524_288 {
                    524_288int
                } else {
                    bytes as int
                },
            };
            &&& page_budget(params.max_bytes) == budget
            &&& result.state@ == run.image()
            &&& result.stdout@ == run.stdout.page(params.after_stdout_seq, budget)
            &&& result.stderr@ == run.stderr.page(
                params.after_stderr_seq,
                budget - bytes_of(result.stdout@.chunks),
            )
            &&& bytes_of(result.stdout@.chunks) + bytes_of(result.stderr@.chunks) <= budget
        }),
{
    let budget = page_budget(params.max_bytes);
    lemma_bytes_of(result.stdout@.chunks);
    lemma_bytes_of(result.stderr@.chunks);
    law_page_holds_all_that_fits(run.stdout, params.after_stdout_seq, budget);
    law_page_holds_all_that_fits(
        run.stderr,
        params.after_stderr_seq,
        budget - bytes_of(result.stdout@.chunks),
    );
}

/// The bytes that are said to be kept are those of all chunks of all runs.
pub proof fn law_kept_bytes_are_counted(runs: Seq<RunModel>, last: RunModel)
    ensures
        retained_by(runs.push(last)) == retained_by(runs) + bytes_of(last.stdout.chunks) + bytes_of(
            last.stderr.chunks,
        ),
        retained_by(Seq::empty()) == 0,
{
    assert(runs.push(last).drop_last() == runs);
    lemma_bytes_of(last.stdout.chunks);
    lemma_bytes_of(last.stderr.chunks);
}

/// A signal goes to the process of the run that was named, if it runs, by its number; only four are
/// sent, and one that is not named is to terminate.
pub proof fn law_signals_go_to_the_named_run(
    outcome: Outcome,
    call: Call,
    registry: RunsModel,
    around: Surroundings,
    index: int,
)
    requires
        is_outcome(outcome, call, registry, around),
        forall|i: int, j: int|
            0 <= i < j < registry.runs.len() ==> (#[trigger] registry.runs[i]).id != (
            #[trigger] registry.runs[j]).id,
        0 <= index < registry.runs.len(),
    ensures
        run_signal("SIGTERM"@) == Some(15i32),
        run_signal("SIGINT"@) == Some(2i32),
        run_signal("SIGKILL"@) == Some(9i32),
        run_signal("SIGHUP"@) == Some(1i32),
        forall|name: Seq<char>|
            name != "SIGTERM"@ && name != "SIGINT"@ && name != "SIGKILL"@ && name != "SIGHUP"@
                ==> #[trigger] run_signal(name) is None,
        ({
            let run = registry.runs[index];
            let order = |number: i32|
                if run.status == RunStatus::Running {
                    Some(SignalOrder { pid: run.pid, signo: number })
                } else {
                    None
                };
            match call {
                Call::Interrupt(Some(params)) => params.run_id@ == run.id ==> match run_signal(
                    match params.signal {
                        Some(signal) => signal@,
                        None => "SIGTERM"@,
                    },
                ) {
                    Some(number) => outcome == Outcome::Signal(order(number)),
                    None => outcome is Failed,
                },
                Call::Forget(Some(params)) => params.run_id@ == run.id ==> (
                outcome matches Outcome::Forget(id, sent) && id@ == run.id && sent == order(15i32)),
                _ => true,
            }
        }),
{
    reveal_strlit("SIGTERM");
    reveal_strlit("SIGINT");
    reveal_strlit("SIGKILL");
    reveal_strlit("SIGHUP");
    assert("SIGTERM"@[3] != "SIGINT"@[3]);
    assert("SIGKILL"@[3] != "SIGTERM"@[3]);
    assert("SIGKILL"@[3] != "SIGINT"@[3]);
    assert("SIGHUP"@[3] != "SIGTERM"@[3]);
    assert("SIGHUP"@[3] != "SIGINT"@[3]);
    assert("SIGHUP"@[3] != "SIGKILL"@[3]);
    law_each_run_is_found(registry.runs, index);
}

/// Only a shutdown changes the daemon by itself: from then on nothing new is launched, and it ends
/// at once or once nothing runs. To stop at once is to kill every process that runs, and to drain
/// is to kill none.
pub proof fn law_shutdown_is_as_asked(
    outcome: Outcome,
    call: Call,
    registry: RunsModel,
    around: Surroundings,
    stage: Stage,
)
    requires
        is_outcome(outcome, call, registry, around),
    ensures
        call == Call::Shutdown(Some(ShutdownMode::Now)) ==> {
            &&& outcome matches Outcome::Shutdown(kill) && forall|pid: u32|
                #![trigger kill@.contains(pid)]
                kill@.contains(pid) <==> exists|i: int|
                    0 <= i < registry.runs.len() && (#[trigger] registry.runs[i]).status
                        == RunStatus::Running && registry.runs[i].pid == pid
            &&& stage_after_call(call, stage) == Stage::Stopping
        },
        call == Call::Shutdown(Some(ShutdownMode::Drain)) ==> {
            &&& outcome matches Outcome::Shutdown(kill) && kill@.len() == 0
            &&& stage_after_call(call, stage) == Stage::Draining
        },
        after_call(call, registry).runs == registry.runs,
        after_call(call, registry).departed == registry.departed,
        after_call(call, registry).draining <==> registry.draining || (
        call matches Call::Shutdown(Some(_))),
        !(call matches Call::Shutdown(Some(_))) ==> stage_after_call(call, stage) == stage,
        forall|running: nat| #[trigger] ends(Stage::Stopping, running),
        forall|running: nat| #[trigger] ends(Stage::Draining, running) <==> running == 0,
        forall|running: nat| !#[trigger] ends(Stage::Serving, running),
        stage_after_signals(stage, 0) == stage,
        stage_after_signals(Stage::Serving, 1) == Stage::Draining,
        stage_after_signals(Stage::Draining, 1) == Stage::Stopping,
{
    if let Outcome::Shutdown(kill) = outcome {
        assert forall|pid: u32|
            call == Call::Shutdown(Some(ShutdownMode::Now)) implies (
        #[trigger] kill@.contains(pid) <==> exists|i: int|
            0 <= i < registry.runs.len() && (#[trigger] registry.runs[i]).status
                == RunStatus::Running && registry.runs[i].pid == pid) by {
            law_every_running_process_is_killed(registry.runs, pid);
        }
    }
}

/// A client that lists the runs is told of each of them, in order; one that attaches is told of the
/// run that it names; and one that asks for figures gets the number of runs, of those that run, and
/// of the bytes that are kept.
pub proof fn law_every_run_is_told_of(
    outcome: Outcome,
    call: Call,
    registry: RunsModel,
    around: Surroundings,
    index: int,
)
    requires
        is_outcome(outcome, call, registry, around),
        forall|i: int, j: int|
            0 <= i < j < registry.runs.len() ==> (#[trigger] registry.runs[i]).id != (
            #[trigger] registry.runs[j]).id,
        0 <= index < registry.runs.len(),
    ensures
        call is List ==> (outcome matches Outcome::List(list) && list.runs@.len()
            == registry.runs.len() && list.runs@[index]@ == registry.runs[index].image()),
        match call {
            Call::Attach(Some(params)) => params.run_id@ == registry.runs[index].id ==> (
            outcome matches Outcome::Attached(result) && is_attachment(
                result,
                registry.runs[index],
                params,
            )),
            _ => true,
        },
        call is Stats ==> (outcome matches Outcome::Stats(stats) && stats.runs
            == registry.runs.len() && stats.running_runs == registry.runs.filter(
            |run: RunModel| run.status == RunStatus::Running,
        ).len() && stats.rss_bytes == around.rss_bytes),
        call is Hello ==> (outcome matches Outcome::Hello(hello) && hello.pid == around.pid
            && hello.runs == registry.runs.len() && hello.protocol_version == 2),
{
    law_each_run_is_found(registry.runs, index);
    law_every_running_process_is_killed(registry.runs, 0);
}

/// Clients are told of every chunk of output with its stream, the data that was written and the
/// number that it is kept under, and of the end of a run with how it ended.
pub proof fn law_clients_are_told_what_happened(
    run: RunModel,
    stream: StreamName,
    data: Seq<char>,
)
    requires
        run.stdout.seq < u64::MAX && run.stderr.seq < u64::MAX,
    ensures
        run.output_notice(stream, data) matches RunNotice::Stream {
            run_id,
            incarnation_id,
            stream: named,
            seq,
            data: told,
        } && {
            &&& run_id == run.id
            &&& incarnation_id == run.incarnation
            &&& named == stream
            &&& told == data
            &&& stream == StreamName::Stdout ==> seq == run.stdout.seq + 1 && seq
                == run.stdout.appended(data).seq
            &&& stream == StreamName::Stderr ==> seq == run.stderr.seq + 1 && seq
                == run.stderr.appended(data).seq
        },
        run.exit_notice() matches RunNotice::Exit { run_id, incarnation_id, exit_code, signal }
            && run_id == run.id && incarnation_id == run.incarnation && exit_code == run.exit_code
            && signal == run.signal,
{
}

/// The state of a run, a page and an event that are handed out mean what they hold.
pub proof fn law_answers_mean_what_they_hold(state: RunState, page: ReplayStream, event: Event)
    ensures
        state@.run_id == state.run_id@ && state@.incarnation_id == state.incarnation_id@,
        state@.pid == state.pid && state@.status == state.status,
        state@.exit_code == state.exit_code && state@.signal == state.signal,
        state@.stdout_seq == state.stdout_seq && state@.stderr_seq == state.stderr_seq,
        state@.stdout_truncated == state.stdout_truncated && state@.stderr_truncated
            == state.stderr_truncated,
        page@.next_seq == page.next_seq && page@.complete == page.complete
            && page@.reset_required == page.reset_required,
        page@.chunks.len() == page.chunks@.len(),
        forall|i: int|
            0 <= i < page.chunks@.len() ==> page@.chunks[i] == (
                (#[trigger] page.chunks@[i]).seq,
                page.chunks@[i].data@,
            ),
        match (event@, event) {
            (
                RunNotice::Stream { run_id, incarnation_id, stream, seq, data },
                Event::Stream {
                    run_id: id,
                    incarnation_id: launch,
                    stream: name,
                    seq: number,
                    data: text,
                },
            ) => run_id == id@ && incarnation_id == launch@ && stream == name && seq == number
                && data == text@,
            (
                RunNotice::Exit { run_id, incarnation_id, exit_code, signal },
                Event::Exit { run_id: id, incarnation_id: launch, exit_code: code, signal: signo },
            ) => run_id == id@ && incarnation_id == launch@ && exit_code == code && signal == signo,
            (RunNotice::Reconcile { run_ids }, Event::Reconcile { run_ids: names }) => {
                &&& run_ids.len() == names@.len()
                &&& forall|i: int| 0 <= i < names@.len() ==> run_ids[i] == (#[trigger] names@[i])@
            },
            _ => false,
        },
{
}

/// A request to spawn is carried out as decided: a new run is launched with what was asked for, one
/// that is there is attached to, and any other request is refused. One of more than 16 MiB is refused
/// before that.
pub proof fn law_spawn_is_carried_out_as_decided(
    outcome: Outcome,
    params: SpawnParams,
    registry: RunsModel,
    around: Surroundings,
)
    requires
        is_outcome(outcome, Call::Spawn(Some(params)), registry, around),
    ensures
        around.size > 16_777_216 ==> (outcome matches Outcome::Failed(code, _) && code
            == ErrorCode::BadRequest),
        around.size <= 16_777_216 ==> ({
            let named = params.run_id@.len() > 0 && params.file@.len() > 0 && params.cwd@.len() > 0;
            let present = exists|i: int|
                0 <= i < registry.runs.len() && (#[trigger] registry.runs[i]).id == params.run_id@;
            if named && present {
                outcome matches Outcome::Spawned(result) && !result.is_new && result.state@.run_id
                    == params.run_id@
            } else if named && !registry.draining && registry.runs.len() < 8 {
                outcome == Outcome::Launch(params)
            } else {
                outcome matches Outcome::Failed(code, _) && code == ErrorCode::Conflict
            }
        }),
{
    law_spawn_launches_once(registry, params);
    law_runs_are_found_by_name(registry.runs, params.run_id@, Seq::empty());
}

/// A request that names no run that is there, or that cannot be read, is refused.
pub proof fn law_unknown_runs_are_refused(
    outcome: Outcome,
    call: Call,
    registry: RunsModel,
    around: Surroundings,
    id: Seq<char>,
)
    requires
        is_outcome(outcome, call, registry, around),
        forall|i: int| 0 <= i < registry.runs.len() ==> (#[trigger] registry.runs[i]).id != id,
    ensures
        match call {
            Call::Attach(Some(params)) => params.run_id@ == id ==> (
            outcome matches Outcome::Failed(code, _) && code == ErrorCode::NotFound),
            Call::Interrupt(Some(params)) => params.run_id@ == id ==> (
            outcome matches Outcome::Failed(code, _) && code == ErrorCode::BadRequest),
            Call::Forget(Some(params)) => params.run_id@ == id ==> (
            outcome matches Outcome::Failed(code, _) && code == ErrorCode::NotFound),
            Call::Attach(None) => outcome matches Outcome::Failed(code, _) && code
                == ErrorCode::BadRequest,
            Call::Interrupt(None) => outcome matches Outcome::Failed(code, _) && code
                == ErrorCode::BadRequest,
            Call::Forget(None) => outcome matches Outcome::Failed(code, _) && code
                == ErrorCode::BadRequest,
            Call::Spawn(None) => outcome matches Outcome::Failed(code, _) && code
                == ErrorCode::BadRequest,
            Call::Shutdown(None) => outcome matches Outcome::Failed(code, _) && code
                == ErrorCode::BadRequest,
            Call::Unknown => outcome matches Outcome::Failed(code, _) && code
                == ErrorCode::UnsupportedMethod,
            Call::Ping => outcome is Pong,
            _ => true,
        },
{
    law_runs_are_found_by_name(registry.runs, id, Seq::empty());
}

} // verus!
