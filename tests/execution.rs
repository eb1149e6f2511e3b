use benchie::execution::status_code_from_wait;
use benchie::{
    Action, Completed, Duration, EncodingSite, Event, Execution, ExecutionError, Progress,
    TimeVal,
};

fn strings(items: &[&str]) -> Vec<String> {
    items.iter().map(|s| s.to_string()).collect()
}

fn next(run: Execution, event: Event) -> Execution {
    match run.advance(event) {
        Ok(Progress::Next(run)) => run,
        Ok(Progress::Done(_)) => panic!("the run ended early"),
        Err(e) => panic!("the run failed: {:?}", e),
    }
}

fn reaped(wait_status: i32) -> Event {
    Event::Reaped {
        wait_status,
        real_time: Duration::from_micros(1_500),
        user_time: TimeVal { sec: 0, usec: 700 },
        system_time: TimeVal { sec: 0, usec: 300 },
    }
}

fn run_to_wait(command: &[&str]) -> Execution {
    let run = Execution::start(&strings(command), &Vec::new()).expect("valid command");
    assert_eq!(run.action(), Action::OpenPipe);
    let run = next(run, Event::PipeOpened);
    assert_eq!(run.action(), Action::Spawn);
    let run = next(run, Event::Spawned);
    assert_eq!(run.action(), Action::Wait);
    run
}

fn finish(run: Execution, output: &[u8]) -> Result<Completed, ExecutionError> {
    assert_eq!(run.action(), Action::ReadOutput);
    match run.advance(Event::OutputRead(output.to_vec())) {
        Ok(Progress::Done(done)) => Ok(done),
        Ok(Progress::Next(_)) => panic!("the run did not end"),
        Err(e) => Err(e),
    }
}

#[test]
fn empty_command_is_refused_first() {
    let env = vec![("A".to_string(), "x\0y".to_string())];
    assert_eq!(
        Execution::start(&Vec::new(), &env).err(),
        Some(ExecutionError::EmptyCommand)
    );
}

#[test]
fn nul_in_argument_is_refused() {
    let err = Execution::start(&strings(&["echo", "a\0b", "c\0"]), &Vec::new()).err();
    assert_eq!(
        err,
        Some(ExecutionError::InvalidEncoding(EncodingSite::Argument(1)))
    );
}

#[test]
fn nul_in_environment_is_refused() {
    let env = vec![
        ("HOME".to_string(), "/root".to_string()),
        ("BAD".to_string(), "a\0".to_string()),
    ];
    let err = Execution::start(&strings(&["true"]), &env).err();
    assert_eq!(
        err,
        Some(ExecutionError::InvalidEncoding(EncodingSite::Environment(1)))
    );
}

#[test]
fn arguments_and_environment_are_kept() {
    let env = vec![
        ("HOME".to_string(), "/root".to_string()),
        ("EMPTY".to_string(), String::new()),
    ];
    let run = Execution::start(&strings(&["time", "--SHOW"]), &env).expect("valid");
    assert_eq!(run.argv(), &strings(&["time", "--SHOW"]));
    assert_eq!(run.envp(), &strings(&["HOME=/root", "EMPTY="]));
}

#[test]
fn echo_hello_end_to_end() {
    let run = run_to_wait(&["echo", "hello"]);
    let run = next(run, reaped(0));
    let done = finish(run, b"hello\n").expect("finished");
    assert_eq!(done.result.status_code, 0);
    assert_eq!(done.output, "hello\n");
    assert!(done.tags.is_empty());
    assert!(done.warnings.is_empty());
    assert!(done.result.real_time.as_nanos() > 0);
    assert_eq!(done.result.real_time.as_nanos(), 1_500_000);
    assert_eq!(done.result.user_time.as_nanos(), 700_000);
    assert_eq!(done.result.system_time.as_nanos(), 300_000);
}

#[test]
fn tags_and_echoed_output_end_to_end() {
    let run = next(run_to_wait(&["prog"]), reaped(0));
    let done = finish(run, b"@benchie key=value\nrest\n").expect("finished");
    assert_eq!(done.tags.get("key").map(|v| v.as_str()), Some("value"));
    assert!(done.output.contains("@benchie key=value\n"));
}

#[test]
fn spawn_failure_ends_the_run() {
    let run = Execution::start(&strings(&["adsl;fasdjfoigaids;ifgorajoaidfjoigajoidaa"]), &Vec::new())
        .expect("valid");
    let run = next(run, Event::PipeOpened);
    assert_eq!(
        run.advance(Event::SpawnFailed(2)).err(),
        Some(ExecutionError::SpawnFailed(2))
    );
}

#[test]
fn pipe_failure_ends_the_run() {
    let run = Execution::start(&strings(&["true"]), &Vec::new()).expect("valid");
    assert_eq!(
        run.advance(Event::PipeFailed(24)).err(),
        Some(ExecutionError::PipeSetupFailed(24))
    );
}

#[test]
fn wait_failure_ends_the_run() {
    let run = run_to_wait(&["true"]);
    assert_eq!(
        run.advance(Event::WaitFailed(10)).err(),
        Some(ExecutionError::WaitFailed(10))
    );
}

#[test]
fn read_failure_ends_the_run() {
    let run = next(run_to_wait(&["true"]), reaped(0));
    assert_eq!(
        run.advance(Event::ReadFailed(5)).err(),
        Some(ExecutionError::ReadFailed(5))
    );
}

#[test]
fn event_out_of_turn_is_refused() {
    let run = Execution::start(&strings(&["true"]), &Vec::new()).expect("valid");
    assert_eq!(
        run.advance(Event::Spawned).err(),
        Some(ExecutionError::UnexpectedEvent)
    );
    let run = run_to_wait(&["true"]);
    assert_eq!(
        run.advance(Event::OutputRead(Vec::new())).err(),
        Some(ExecutionError::UnexpectedEvent)
    );
}

#[test]
fn negative_cpu_time_is_refused() {
    let run = run_to_wait(&["true"]);
    let event = Event::Reaped {
        wait_status: 0,
        real_time: Duration::zero(),
        user_time: TimeVal { sec: -1, usec: 0 },
        system_time: TimeVal { sec: 0, usec: 0 },
    };
    assert_eq!(
        run.advance(event).err(),
        Some(ExecutionError::TimeOutOfRange)
    );
}

#[test]
fn output_that_is_not_utf8_is_refused() {
    let run = next(run_to_wait(&["true"]), reaped(0));
    assert_eq!(
        finish(run, &[0x66, 0xff, 0x0a]).err(),
        Some(ExecutionError::InvalidEncoding(EncodingSite::Output))
    );
}

#[test]
fn duplicate_tags_fail_the_run() {
    let run = next(run_to_wait(&["true"]), reaped(0));
    assert_eq!(
        finish(run, b"@benchie a=1\n@benchie a=2\n").err(),
        Some(ExecutionError::DuplicateTagKey(vec!["a".to_string()]))
    );
}

#[test]
fn malformed_tag_does_not_fail_the_run() {
    let run = next(run_to_wait(&["true"]), reaped(0));
    let done = finish(run, b"@benchie not-a-pair\n").expect("finished");
    assert!(done.tags.is_empty());
    assert_eq!(done.warnings, vec!["not-a-pair".to_string()]);
}

#[test]
fn exit_code_is_decoded_from_wait_status() {
    assert_eq!(status_code_from_wait(0), 0);
    assert_eq!(status_code_from_wait(1 << 8), 1);
    assert_eq!(status_code_from_wait(255 << 8), 255);
    assert_eq!(status_code_from_wait(9), -9);
    assert_eq!(status_code_from_wait(15 | 0x80), -15);
    let run = next(run_to_wait(&["false"]), reaped(1 << 8));
    let done = finish(run, b"").expect("finished");
    assert_eq!(done.result.status_code, 1);
}
