//! The decisions of one measured run of a program.
//!
//! The operating system's part of a run (creating the output pipe, spawning
//! the child, awaiting it while the wall clock runs, reading the pipe) is
//! done by the caller. `Execution` holds where the run stands: it names the
//! next step to take, and `advance` turns what that step yielded into the
//! next stage, the finished measurement, or the error that ends the run.

use crate::duration::{timeval_converts, timeval_nanos, timeval_to_duration, Duration, TimeVal};
use crate::error::{EncodingSite, ExecutionError};
use crate::tags::{
    duplicate_tag_keys, output_pairs, output_warnings, parse_tags_from_stdout, string_views,
    TagMap,
};
use crate::text::{concat, has_nul, push_char};
use vstd::prelude::*;
use vstd::utf8::{decode_utf8, valid_utf8};

verus! {

/// What one run measured.
#[derive(Clone, Copy, Debug, PartialEq, Eq)]
pub struct ExecutionResult {
    /// CPU time the child spent in user mode.
    pub user_time: Duration,
    /// CPU time the child spent in kernel mode.
    pub system_time: Duration,
    /// Wall-clock time from just before the spawn to just after the wait.
    /// It is usually, not always, at least the sum of the two CPU times.
    pub real_time: Duration,
    /// The child's exit code; the negated signal number where a signal
    /// ended it.
    pub status_code: i64,
}

/// Whether a POSIX wait status says that the child exited with `code`.
pub open spec fn exits_with(wait_status: i32, code: i32) -> bool {
    wait_status & 0x7f == 0 && (wait_status >> 8) & 0xff == code
}

/// The status code that a POSIX wait status stands for: the exit code of a
/// child that exited, else the negated number of the signal that ended it.
pub open spec fn status_code_of(wait_status: i32) -> i64 {
    let low: i32 = wait_status & 0x7f;
    if low == 0 {
        ((wait_status >> 8) & 0xff) as i64
    } else {
        (0 - low) as i64
    }
}

/// Decodes a POSIX wait status into a status code.
pub fn status_code_from_wait(wait_status: i32) -> (c: i64)
    ensures
        c == status_code_of(wait_status),
{
    let low: i32 = wait_status & 0x7f;
    assert(0 <= wait_status & 0x7f <= 0x7f) by (bit_vector);
    if low == 0 {
        ((wait_status >> 8) & 0xff) as i64
    } else {
        -(low as i64)
    }
}

/// A child that exited with code 0 is reported with status code 0.
pub proof fn lemma_clean_exit_is_zero(wait_status: i32)
    requires
        exits_with(wait_status, 0),
    ensures
        status_code_of(wait_status) == 0,
{
}

/// A child that exited is reported with its exit code.
pub proof fn lemma_exit_code_kept(wait_status: i32, code: i32)
    requires
        exits_with(wait_status, code),
    ensures
        status_code_of(wait_status) == code,
{
}

/// The step of a run that the caller takes next.
#[derive(Clone, Copy, Debug, PartialEq, Eq)]
pub enum Action {
    /// Create the pipe that becomes the child's standard output.
    OpenPipe,
    /// Start the wall clock and spawn the child; close the parent's copy of
    /// the pipe's write end.
    Spawn,
    /// Await the child with its resource usage; stop the wall clock the
    /// moment the wait returns.
    Wait,
    /// Read the pipe to its end.
    ReadOutput,
}

/// What a step yielded.
pub enum Event {
    /// The pipe is ready.
    PipeOpened,
    /// The pipe could not be created; the operating system's code.
    PipeFailed(i32),
    /// The child is running.
    Spawned,
    /// No child was created; the operating system's code.
    SpawnFailed(i32),
    /// The child was awaited.
    Reaped { wait_status: i32, real_time: Duration, user_time: TimeVal, system_time: TimeVal },
    /// The child could not be awaited; the operating system's code.
    WaitFailed(i32),
    /// The whole output that the child wrote.
    OutputRead(Vec<u8>),
    /// The output could not be read; the operating system's code.
    ReadFailed(i32),
}

/// Where a run stands.
#[derive(Clone, Copy, Debug, PartialEq, Eq)]
pub enum Stage {
    OpeningPipe,
    Spawning,
    Waiting,
    /// The child has been awaited and measured; its output is still to read.
    Collecting(ExecutionResult),
}

/// The step that a stage asks for.
pub open spec fn action_of(stage: Stage) -> Action {
    match stage {
        Stage::OpeningPipe => Action::OpenPipe,
        Stage::Spawning => Action::Spawn,
        Stage::Waiting => Action::Wait,
        Stage::Collecting(_) => Action::ReadOutput,
    }
}

/// The environment entry `key=value`.
pub open spec fn env_entry(key: Seq<char>, value: Seq<char>) -> Seq<char> {
    key + seq!['='] + value
}

/// The entries of an environment, in order.
pub open spec fn env_entries(env: Seq<(String, String)>) -> Seq<Seq<char>> {
    env.map_values(|kv: (String, String)| env_entry(kv.0@, kv.1@))
}

/// Whether a string holds a NUL character, which no C string can.
pub open spec fn has_nul_char(s: Seq<char>) -> bool {
    s.contains('\0')
}

/// Whether `i` is the first position of `strings` whose string holds a NUL.
pub open spec fn first_with_nul(strings: Seq<Seq<char>>, i: int) -> bool {
    &&& 0 <= i < strings.len()
    &&& has_nul_char(strings[i])
    &&& forall|j: int| 0 <= j < i ==> !has_nul_char(strings[j])
}

/// Whether no string of `strings` holds a NUL.
pub open spec fn none_with_nul(strings: Seq<Seq<char>>) -> bool {
    forall|j: int| 0 <= j < strings.len() ==> !has_nul_char(strings[j])
}

/// The measurement that a reaped child gives, where both CPU times convert.
pub open spec fn measured(
    result: ExecutionResult,
    wait_status: i32,
    real_time: Duration,
    user_time: TimeVal,
    system_time: TimeVal,
) -> bool {
    &&& result.real_time == real_time
    &&& result.user_time@ == timeval_nanos(user_time)
    &&& result.system_time@ == timeval_nanos(system_time)
    &&& result.status_code == status_code_of(wait_status)
}

/// A finished run: its measurement, the output it captured, and the tags
/// and warnings found in that output.
pub struct Completed {
    pub result: ExecutionResult,
    pub output: String,
    pub tags: TagMap,
    pub warnings: Vec<String>,
}

/// A run that has not finished.
pub struct Execution {
    argv: Vec<String>,
    envp: Vec<String>,
    stage: Stage,
}

/// What `advance` leads to: the next stage of the run, or its end.
pub enum Progress {
    Next(Execution),
    Done(Completed),
}

/// Whether position `i` of `argv` is the first that holds a NUL.
fn first_nul(strings: &Vec<String>) -> (r: Option<usize>)
    ensures
        r matches Some(i) ==> first_with_nul(string_views(strings@), i as int),
        r is None ==> none_with_nul(string_views(strings@)),
{
    let mut i: usize = 0;
    while i < strings.len()
        invariant
            i <= strings.len(),
            forall|j: int| 0 <= j < i ==> !has_nul_char(#[trigger] string_views(strings@)[j]),
        decreases strings.len() - i,
    {
        if has_nul(strings[i].as_str()) {
            return Some(i);
        }
        i = i + 1;
    }
    None
}

/// The entries `key=value` of an environment.
fn environment_entries(env: &Vec<(String, String)>) -> (r: Vec<String>)
    ensures
        string_views(r@) == env_entries(env@),
{
    let mut r: Vec<String> = Vec::new();
    let mut i: usize = 0;
    while i < env.len()
        invariant
            i <= env.len(),
            string_views(r@) == env_entries(env@).take(i as int),
        decreases env.len() - i,
    {
        let mut entry = env[i].0.clone();
        push_char(&mut entry, '=');
        let entry = concat(&entry, env[i].1.as_str());
        assert(entry@ =~= env_entry(env@[i as int].0@, env@[i as int].1@));
        let ghost before = r@;
        r.push(entry);
        assert(string_views(r@) =~= env_entries(env@).take(i + 1)) by {
            assert(string_views(r@) =~= string_views(before).push(entry@));
        }
        i = i + 1;
    }
    assert(env_entries(env@).take(env.len() as int) =~= env_entries(env@));
    r
}

/// Relies on `String::from_utf8`: it succeeds exactly on valid UTF-8, with
/// the characters that the bytes encode.
#[verifier::external_body]
fn decode_output(bytes: Vec<u8>) -> (r: Option<String>)
    ensures
        r is Some <==> valid_utf8(bytes@),
        r matches Some(s) ==> s@ == decode_utf8(bytes@),
{
    String::from_utf8(bytes).ok()
}

impl Execution {
    #[verifier::type_invariant]
    spec fn well_formed(self) -> bool {
        &&& self.argv@.len() > 0
        &&& none_with_nul(string_views(self.argv@))
        &&& none_with_nul(string_views(self.envp@))
    }

    /// The stage the run is in.
    pub closed spec fn stage_of(&self) -> Stage {
        self.stage
    }

    /// The program and its arguments.
    pub closed spec fn argv_of(&self) -> Seq<Seq<char>> {
        string_views(self.argv@)
    }

    /// The environment entries handed to the child.
    pub closed spec fn envp_of(&self) -> Seq<Seq<char>> {
        string_views(self.envp@)
    }

    /// Begins a run of `command` with the environment `env`.
    ///
    /// An empty command is refused before anything else, as is any argument
    /// or environment entry that holds a NUL character. No step of the
    /// operating system has been taken when this returns.
    pub fn start(command: &Vec<String>, env: &Vec<(String, String)>) -> (r: Result<
        Execution,
        ExecutionError,
    >)
        ensures
            (r == Err::<Execution, ExecutionError>(ExecutionError::EmptyCommand)) <==> command@.len()
                == 0,
            r is Ok <==> command@.len() > 0 && none_with_nul(string_views(command@))
                && none_with_nul(env_entries(env@)),
            r matches Err(ExecutionError::InvalidEncoding(EncodingSite::Argument(i))) ==> first_with_nul(
                string_views(command@),
                i as int,
            ),
            r matches Err(ExecutionError::InvalidEncoding(EncodingSite::Environment(i))) ==> none_with_nul(
                string_views(command@),
            ) && first_with_nul(env_entries(env@), i as int),
            r matches Err(e) ==> e is EmptyCommand || e matches ExecutionError::InvalidEncoding(
                EncodingSite::Argument(_),
            ) || e matches ExecutionError::InvalidEncoding(EncodingSite::Environment(_)),
            r matches Ok(x) ==> x.stage_of() == Stage::OpeningPipe && x.argv_of() == string_views(
                command@,
            ) && x.envp_of() == env_entries(env@),
    {
        if command.len() == 0 {
            return Err(ExecutionError::EmptyCommand);
        }
        if let Some(i) = first_nul(command) {
            return Err(ExecutionError::InvalidEncoding(EncodingSite::Argument(i)));
        }
        let envp = environment_entries(env);
        if let Some(i) = first_nul(&envp) {
            return Err(ExecutionError::InvalidEncoding(EncodingSite::Environment(i)));
        }
        Ok(Execution { argv: command.clone(), envp, stage: Stage::OpeningPipe })
    }

    /// The program and its arguments, to be passed to the child as they are.
    pub fn argv(&self) -> (r: &Vec<String>)
        ensures
            string_views(r@) == self.argv_of(),
            r@.len() > 0,
            none_with_nul(string_views(r@)),
    {
        proof {
            use_type_invariant(self);
        }
        &self.argv
    }

    /// The environment entries `key=value` for the child.
    pub fn envp(&self) -> (r: &Vec<String>)
        ensures
            string_views(r@) == self.envp_of(),
            none_with_nul(string_views(r@)),
    {
        proof {
            use_type_invariant(self);
        }
        &self.envp
    }

    /// The step to take next.
    pub fn action(&self) -> (a: Action)
        ensures
            a == action_of(self.stage_of()),
    {
        match self.stage {
            Stage::OpeningPipe => Action::OpenPipe,
            Stage::Spawning => Action::Spawn,
            Stage::Waiting => Action::Wait,
            Stage::Collecting(_) => Action::ReadOutput,
        }
    }

    /// Takes in what the pending step yielded.
    ///
    /// A failed step ends the run with its error: a spawn that failed is
    /// never awaited, a wait that failed reports no time, and no error
    /// carries a partial measurement. An event that does not answer the
    /// pending step ends the run too.
    pub fn advance(self, event: Event) -> (r: Result<Progress, ExecutionError>)
        ensures
            ({
                let stage = self.stage_of();
                let moved_to = |s: Stage|
                    r matches Ok(Progress::Next(x)) && x.stage_of() == s && x.argv_of()
                        == self.argv_of() && x.envp_of() == self.envp_of();
                match (stage, event) {
                    (Stage::OpeningPipe, Event::PipeOpened) => moved_to(Stage::Spawning),
                    (Stage::OpeningPipe, Event::PipeFailed(c)) => r == Err::<
                        Progress,
                        ExecutionError,
                    >(ExecutionError::PipeSetupFailed(c)),
                    (Stage::Spawning, Event::Spawned) => moved_to(Stage::Waiting),
                    (Stage::Spawning, Event::SpawnFailed(c)) => r == Err::<
                        Progress,
                        ExecutionError,
                    >(ExecutionError::SpawnFailed(c)),
                    (
                        Stage::Waiting,
                        Event::Reaped { wait_status, real_time, user_time, system_time },
                    ) => if timeval_converts(user_time) && timeval_converts(system_time) {
                        r matches Ok(Progress::Next(x)) && x.stage_of() matches Stage::Collecting(
                            m,
                        ) && measured(m, wait_status, real_time, user_time, system_time)
                            && x.argv_of() == self.argv_of() && x.envp_of() == self.envp_of()
                    } else {
                        r == Err::<Progress, ExecutionError>(ExecutionError::TimeOutOfRange)
                    },
                    (Stage::Waiting, Event::WaitFailed(c)) => r == Err::<
                        Progress,
                        ExecutionError,
                    >(ExecutionError::WaitFailed(c)),
                    (Stage::Collecting(m), Event::OutputRead(bytes)) => if !valid_utf8(bytes@) {
                        r == Err::<Progress, ExecutionError>(
                            ExecutionError::InvalidEncoding(EncodingSite::Output),
                        )
                    } else {
                        let text = decode_utf8(bytes@);
                        if duplicate_tag_keys(text).len() == 0 {
                            r matches Ok(Progress::Done(c)) && c.result == m && c.output@ == text
                                && c.tags.pairs() == output_pairs(text) && string_views(
                                c.warnings@,
                            ) == output_warnings(text)
                        } else {
                            r matches Err(ExecutionError::DuplicateTagKey(keys)) && string_views(
                                keys@,
                            ) == duplicate_tag_keys(text)
                        }
                    },
                    (Stage::Collecting(_), Event::ReadFailed(c)) => r == Err::<
                        Progress,
                        ExecutionError,
                    >(ExecutionError::ReadFailed(c)),
                    _ => r == Err::<Progress, ExecutionError>(ExecutionError::UnexpectedEvent),
                }
            }),
    {
        proof {
            use_type_invariant(&self);
        }
        let Execution { argv, envp, stage } = self;
        match (stage, event) {
            (Stage::OpeningPipe, Event::PipeOpened) => Ok(
                Progress::Next(Execution { argv, envp, stage: Stage::Spawning }),
            ),
            (Stage::OpeningPipe, Event::PipeFailed(c)) => Err(ExecutionError::PipeSetupFailed(c)),
            (Stage::Spawning, Event::Spawned) => Ok(
                Progress::Next(Execution { argv, envp, stage: Stage::Waiting }),
            ),
            (Stage::Spawning, Event::SpawnFailed(c)) => Err(ExecutionError::SpawnFailed(c)),
            (
                Stage::Waiting,
                Event::Reaped { wait_status, real_time, user_time, system_time },
            ) => {
                let user = match timeval_to_duration(user_time) {
                    Some(d) => d,
                    None => return Err(ExecutionError::TimeOutOfRange),
                };
                let system = match timeval_to_duration(system_time) {
                    Some(d) => d,
                    None => return Err(ExecutionError::TimeOutOfRange),
                };
                let result = ExecutionResult {
                    user_time: user,
                    system_time: system,
                    real_time,
                    status_code: status_code_from_wait(wait_status),
                };
                Ok(Progress::Next(Execution { argv, envp, stage: Stage::Collecting(result) }))
            },
            (Stage::Waiting, Event::WaitFailed(c)) => Err(ExecutionError::WaitFailed(c)),
            (Stage::Collecting(result), Event::OutputRead(bytes)) => {
                let output = match decode_output(bytes) {
                    Some(s) => s,
                    None => return Err(ExecutionError::InvalidEncoding(EncodingSite::Output)),
                };
                match parse_tags_from_stdout(output.as_str()) {
                    Ok(extraction) => Ok(
                        Progress::Done(
                            Completed {
                                result,
                                output,
                                tags: extraction.tags,
                                warnings: extraction.warnings,
                            },
                        ),
                    ),
                    Err(e) => Err(e),
                }
            },
            (Stage::Collecting(_), Event::ReadFailed(c)) => Err(ExecutionError::ReadFailed(c)),
            _ => Err(ExecutionError::UnexpectedEvent),
        }
    }
}

} // verus!
