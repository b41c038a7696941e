use rsh::context::Context;
use rsh::env::init_environment;
use rsh::jobs::{Job, Status};
use rsh::rsh::{process_line, Event, Line, Phase, Request};

/// One process that the host was asked to start.
#[derive(Debug, PartialEq)]
struct Started {
    pid: u32,
    command: String,
    args: Vec<String>,
    input: Option<u32>,
    piped: bool,
}

/// A host that starts no process: it notes what it was asked for and
/// answers from what the test laid down.
struct Host {
    next_pid: u32,
    missing: Vec<String>,
    no_directory: Vec<String>,
    running: Vec<u32>,
    unknown: Vec<u32>,
    started: Vec<Started>,
    waited: Vec<u32>,
    directories: Vec<String>,
    saved: usize,
    stdout: Vec<String>,
    stderr: Vec<String>,
    requests: Vec<String>,
}

fn host() -> Host {
    Host {
        next_pid: 100,
        missing: Vec::new(),
        no_directory: Vec::new(),
        running: Vec::new(),
        unknown: Vec::new(),
        started: Vec::new(),
        waited: Vec::new(),
        directories: Vec::new(),
        saved: 0,
        stdout: Vec::new(),
        stderr: Vec::new(),
        requests: Vec::new(),
    }
}

fn status_of(host: &Host, pid: u32) -> Status {
    if host.unknown.contains(&pid) {
        Status::Failed(String::from("no such process"))
    } else if host.running.contains(&pid) {
        Status::Running
    } else {
        Status::Exited
    }
}

fn run_line(host: &mut Host, prompt: &mut String, ctx: &mut Context<u32>, input: &str) -> bool {
    let mut line: Line<u32> = Line::new(input);
    let mut event = Event::Ready;
    let mut turns = 0;
    loop {
        turns += 1;
        assert!(turns < 1000, "the line does not end");
        let reaction = process_line(prompt, ctx, &mut line, event);
        host.stdout.extend(reaction.stdout);
        host.stderr.extend(reaction.stderr);
        event = match reaction.request {
            Request::Proceed => {
                host.requests.push(String::from("proceed"));
                Event::Ready
            }
            Request::ChangeDirectory { path } => {
                host.requests.push(String::from("cd"));
                if host.no_directory.contains(&path) {
                    Event::Failed(format!("{}: No such file or directory", path))
                } else {
                    host.directories.push(path);
                    Event::Ready
                }
            }
            Request::Spawn { command, args, input, piped } => {
                host.requests.push(String::from("spawn"));
                if host.missing.contains(&command) {
                    Event::Failed(String::from("No such file or directory (os error 2)"))
                } else {
                    let pid = host.next_pid;
                    host.next_pid += 1;
                    host.started.push(Started {
                        pid,
                        command,
                        args,
                        input: input.map(|job| job.handle),
                        piped,
                    });
                    Event::Spawned(Job { pid, handle: pid })
                }
            }
            Request::Wait { process } => {
                host.requests.push(String::from("wait"));
                host.waited.push(process.handle);
                Event::Ready
            }
            Request::Check { process } => {
                host.requests.push(String::from("check"));
                let status = status_of(host, process.pid);
                Event::Checked(process, status)
            }
            Request::PollJobs => {
                host.requests.push(String::from("poll"));
                let mut statuses = Vec::new();
                let mut i = 0;
                while i < ctx.jobs.len() {
                    statuses.push(status_of(host, ctx.jobs.pid(i)));
                    i += 1;
                }
                Event::Polled(statuses)
            }
            Request::SaveHistory => {
                host.requests.push(String::from("save"));
                host.saved += 1;
                Event::Ready
            }
            Request::Finish { terminate } => {
                host.requests.push(String::from("finish"));
                assert_eq!(line.phase(), Phase::Finished { terminate });
                return terminate;
            }
        };
    }
}

fn texts(lines: &[&str]) -> Vec<String> {
    lines.iter().map(|line| String::from(*line)).collect()
}

#[test]
fn one_program_runs_in_the_foreground() {
    let (mut host, mut prompt, mut ctx) = (host(), String::from("> "), Context::new());
    assert!(!run_line(&mut host, &mut prompt, &mut ctx, "ls -l /tmp"));
    assert_eq!(
        host.started,
        vec![Started {
            pid: 100,
            command: String::from("ls"),
            args: texts(&["-l", "/tmp"]),
            input: None,
            piped: false,
        }]
    );
    assert_eq!(host.waited, vec![100]);
    assert_eq!(host.requests, texts(&["spawn", "wait", "poll", "finish"]));
    assert!(host.stdout.is_empty());
    assert!(host.stderr.is_empty());
    assert_eq!(ctx.jobs.len(), 0);
}

#[test]
fn three_stages_are_wired_in_a_chain() {
    let (mut host, mut prompt, mut ctx) = (host(), String::from("> "), Context::new());
    assert!(!run_line(&mut host, &mut prompt, &mut ctx, "cat file | grep x | wc -l"));
    assert_eq!(
        host.started,
        vec![
            Started {
                pid: 100,
                command: String::from("cat"),
                args: texts(&["file"]),
                input: None,
                piped: true,
            },
            Started {
                pid: 101,
                command: String::from("grep"),
                args: texts(&["x"]),
                input: Some(100),
                piped: true,
            },
            Started {
                pid: 102,
                command: String::from("wc"),
                args: texts(&["-l"]),
                input: Some(101),
                piped: false,
            },
        ]
    );
    assert_eq!(host.waited, vec![102]);
    assert_eq!(host.requests, texts(&["spawn", "spawn", "spawn", "wait", "poll", "finish"]));
}

#[test]
fn empty_line_only_polls_the_jobs() {
    let (mut host, mut prompt, mut ctx) = (host(), String::from("> "), Context::new());
    assert!(!run_line(&mut host, &mut prompt, &mut ctx, ""));
    assert!(!run_line(&mut host, &mut prompt, &mut ctx, "  \t "));
    assert_eq!(host.requests, texts(&["poll", "finish", "poll", "finish"]));
    assert!(host.started.is_empty());
}

#[test]
fn blank_stage_ends_the_line() {
    let (mut host, mut prompt, mut ctx) = (host(), String::from("> "), Context::new());
    assert!(!run_line(&mut host, &mut prompt, &mut ctx, "ls |  | wc"));
    assert_eq!(
        host.started,
        vec![Started {
            pid: 100,
            command: String::from("ls"),
            args: Vec::new(),
            input: None,
            piped: true,
        }]
    );
    assert_eq!(host.waited, vec![100]);
    assert!(host.stderr.is_empty());
}

#[test]
fn export_then_env_shows_the_binding() {
    let (mut host, mut prompt, mut ctx) = (host(), String::from("> "), Context::new());
    assert!(!run_line(&mut host, &mut prompt, &mut ctx, "export FOO=bar"));
    assert!(!run_line(&mut host, &mut prompt, &mut ctx, "env"));
    assert_eq!(host.stdout, texts(&["FOO=bar"]));
    assert!(!run_line(&mut host, &mut prompt, &mut ctx, "export FOO=baz"));
    host.stdout.clear();
    assert!(!run_line(&mut host, &mut prompt, &mut ctx, "env"));
    assert_eq!(host.stdout, texts(&["FOO=baz"]));
    assert_eq!(ctx.env.len(), 1);
    assert!(host.started.is_empty());
}

#[test]
fn env_shows_the_bootstrap_binding_and_later_ones() {
    let (mut host, mut prompt, mut ctx) = (host(), String::from("> "), Context::new());
    init_environment(&mut ctx.env, "alice");
    assert!(!run_line(&mut host, &mut prompt, &mut ctx, "export A=1 junk B=x=y"));
    assert!(!run_line(&mut host, &mut prompt, &mut ctx, "env"));
    assert_eq!(host.stdout, texts(&["USER=alice", "A=1", "B=x=y"]));
}

#[test]
fn export_and_env_in_one_line() {
    let (mut host, mut prompt, mut ctx) = (host(), String::from("> "), Context::new());
    assert!(!run_line(&mut host, &mut prompt, &mut ctx, "export A=1 | env"));
    assert_eq!(host.stdout, texts(&["A=1"]));
    assert_eq!(host.requests, texts(&["proceed", "proceed", "poll", "finish"]));
}

#[test]
fn failed_cd_says_why_and_the_shell_goes_on() {
    let (mut host, mut prompt, mut ctx) = (host(), String::from("> "), Context::new());
    host.no_directory.push(String::from("/nonexistent"));
    init_environment(&mut ctx.env, "alice");
    assert!(!run_line(&mut host, &mut prompt, &mut ctx, "cd /nonexistent"));
    assert_eq!(host.stderr, texts(&["/nonexistent: No such file or directory"]));
    assert!(host.directories.is_empty());
    assert!(host.started.is_empty());
    assert_eq!(prompt, "> ");
    assert_eq!(rsh::env::env(&ctx.env), texts(&["USER=alice"]));
    assert!(!run_line(&mut host, &mut prompt, &mut ctx, "cd /tmp"));
    assert_eq!(host.directories, texts(&["/tmp"]));
}

#[test]
fn cd_takes_its_first_argument_and_starts_no_process() {
    let (mut host, mut prompt, mut ctx) = (host(), String::from("> "), Context::new());
    assert!(!run_line(&mut host, &mut prompt, &mut ctx, "cd /tmp /var"));
    assert_eq!(host.directories, texts(&["/tmp"]));
    assert_eq!(host.requests, texts(&["cd", "poll", "finish"]));
    assert!(host.stderr.is_empty());
}

#[test]
fn cd_without_a_directory_is_an_error() {
    let (mut host, mut prompt, mut ctx) = (host(), String::from("> "), Context::new());
    assert!(!run_line(&mut host, &mut prompt, &mut ctx, "cd"));
    assert_eq!(host.stderr, texts(&["cd: missing directory"]));
    assert!(host.directories.is_empty());
}

#[test]
fn cd_lets_go_of_the_process_before_it() {
    let (mut host, mut prompt, mut ctx) = (host(), String::from("> "), Context::new());
    assert!(!run_line(&mut host, &mut prompt, &mut ctx, "ls | cd /tmp | wc"));
    assert_eq!(host.started.len(), 2);
    assert_eq!(host.started[0].piped, true);
    assert_eq!(host.started[1].command, "wc");
    assert_eq!(host.started[1].input, None);
    assert_eq!(host.waited, vec![101]);
}

#[test]
fn other_builtins_keep_the_process_before_them() {
    let (mut host, mut prompt, mut ctx) = (host(), String::from("> "), Context::new());
    assert!(!run_line(&mut host, &mut prompt, &mut ctx, "ls | export A=1 | wc"));
    assert_eq!(host.started.len(), 2);
    assert_eq!(host.started[1].input, Some(100));
    assert_eq!(host.waited, vec![101]);
}

#[test]
fn background_job_is_listed_and_reaped() {
    let (mut host, mut prompt, mut ctx) = (host(), String::from("> "), Context::new());
    host.running.push(100);
    assert!(!run_line(&mut host, &mut prompt, &mut ctx, "sleep 5 &"));
    assert_eq!(host.requests, texts(&["spawn", "check", "poll", "finish"]));
    assert_eq!(host.stdout, texts(&["[100]"]));
    assert!(host.waited.is_empty());
    assert_eq!(ctx.jobs.len(), 1);

    host.stdout.clear();
    assert!(!run_line(&mut host, &mut prompt, &mut ctx, "jobs"));
    assert_eq!(host.stdout, texts(&["[1] 100"]));

    host.running.clear();
    host.stdout.clear();
    assert!(!run_line(&mut host, &mut prompt, &mut ctx, "export A=1"));
    assert_eq!(host.stdout, texts(&["[1] 100 done"]));
    assert_eq!(ctx.jobs.len(), 0);

    host.stdout.clear();
    assert!(!run_line(&mut host, &mut prompt, &mut ctx, "jobs"));
    assert!(host.stdout.is_empty());
}

#[test]
fn jobs_are_renumbered_when_one_has_ended() {
    let (mut host, mut prompt, mut ctx) = (host(), String::from("> "), Context::new());
    host.running = vec![100, 101, 102];
    assert!(!run_line(&mut host, &mut prompt, &mut ctx, "sleep 1 &"));
    assert!(!run_line(&mut host, &mut prompt, &mut ctx, "sleep 2 &"));
    assert!(!run_line(&mut host, &mut prompt, &mut ctx, "sleep 3 &"));
    host.stdout.clear();
    assert!(!run_line(&mut host, &mut prompt, &mut ctx, "jobs"));
    assert_eq!(host.stdout, texts(&["[1] 100", "[2] 101", "[3] 102"]));

    host.running = vec![100, 102];
    host.stdout.clear();
    assert!(!run_line(&mut host, &mut prompt, &mut ctx, ""));
    assert_eq!(host.stdout, texts(&["[2] 101 done"]));

    host.stdout.clear();
    assert!(!run_line(&mut host, &mut prompt, &mut ctx, "jobs"));
    assert_eq!(host.stdout, texts(&["[1] 100", "[2] 102"]));
}

#[test]
fn background_process_that_has_ended_leaves_no_job() {
    let (mut host, mut prompt, mut ctx) = (host(), String::from("> "), Context::new());
    assert!(!run_line(&mut host, &mut prompt, &mut ctx, "true &"));
    assert_eq!(host.requests, texts(&["spawn", "check", "poll", "finish"]));
    assert!(host.stdout.is_empty());
    assert!(host.stderr.is_empty());
    assert_eq!(ctx.jobs.len(), 0);
}

#[test]
fn background_process_of_unknown_state_leaves_no_job() {
    let (mut host, mut prompt, mut ctx) = (host(), String::from("> "), Context::new());
    host.unknown.push(100);
    assert!(!run_line(&mut host, &mut prompt, &mut ctx, "true &"));
    assert_eq!(
        host.stderr,
        texts(&["Error collecting background process state no such process"])
    );
    assert_eq!(ctx.jobs.len(), 0);
}

#[test]
fn job_of_unknown_state_stays_in_the_table() {
    let (mut host, mut prompt, mut ctx) = (host(), String::from("> "), Context::new());
    host.running.push(100);
    assert!(!run_line(&mut host, &mut prompt, &mut ctx, "sleep 5 &"));
    host.unknown.push(100);
    host.stdout.clear();
    assert!(!run_line(&mut host, &mut prompt, &mut ctx, "jobs"));
    assert_eq!(host.stdout, texts(&["[1] 100"]));
    assert_eq!(
        host.stderr,
        texts(&["Error collecting background process state no such process"])
    );
    assert_eq!(ctx.jobs.len(), 1);
}

#[test]
fn arguments_are_resolved_before_the_program_starts() {
    let (mut host, mut prompt, mut ctx) = (host(), String::from("> "), Context::new());
    assert!(!run_line(&mut host, &mut prompt, &mut ctx, "export NAME=world"));
    assert!(!run_line(&mut host, &mut prompt, &mut ctx, "echo hello $NAME $UNSET x$NAME"));
    assert_eq!(host.started.len(), 1);
    assert_eq!(host.started[0].command, "echo");
    assert_eq!(host.started[0].args, texts(&["hello", "world", "xworld"]));
    assert_eq!(host.stderr, texts(&["Unknown variable: UNSET"]));
}

#[test]
fn program_that_cannot_start_breaks_the_pipe_and_the_line_goes_on() {
    let (mut host, mut prompt, mut ctx) = (host(), String::from("> "), Context::new());
    host.missing.push(String::from("nosuch"));
    assert!(!run_line(&mut host, &mut prompt, &mut ctx, "ls | nosuch -x | wc"));
    assert_eq!(
        host.stderr,
        texts(&["command: nosuch caused error No such file or directory (os error 2)"])
    );
    assert_eq!(host.started.len(), 2);
    assert_eq!(host.started[1].command, "wc");
    assert_eq!(host.started[1].input, None);
    assert_eq!(host.started[1].piped, false);
    assert_eq!(host.waited, vec![101]);
}

#[test]
fn program_that_cannot_start_alone_is_not_awaited() {
    let (mut host, mut prompt, mut ctx) = (host(), String::from("> "), Context::new());
    host.missing.push(String::from("nosuch"));
    assert!(!run_line(&mut host, &mut prompt, &mut ctx, "nosuch"));
    assert_eq!(host.requests, texts(&["spawn", "poll", "finish"]));
    assert!(host.waited.is_empty());
    assert_eq!(
        host.stderr,
        texts(&["command: nosuch caused error No such file or directory (os error 2)"])
    );
}

#[test]
fn exit_saves_the_history_and_ends_the_shell() {
    let (mut host, mut prompt, mut ctx) = (host(), String::from("> "), Context::new());
    assert!(run_line(&mut host, &mut prompt, &mut ctx, "exit"));
    assert_eq!(host.requests, texts(&["save", "finish"]));
    assert_eq!(host.saved, 1);
}

#[test]
fn exit_ends_the_shell_wherever_it_stands() {
    let (mut host, mut prompt, mut ctx) = (host(), String::from("> "), Context::new());
    assert!(run_line(&mut host, &mut prompt, &mut ctx, "  exit now &"));
    assert_eq!(host.saved, 1);
    let (mut host, mut prompt, mut ctx) = (self::host(), String::from("> "), Context::new());
    assert!(run_line(&mut host, &mut prompt, &mut ctx, "ls | exit | wc"));
    assert_eq!(host.requests, texts(&["spawn", "save", "finish"]));
    assert_eq!(host.started.len(), 1);
    assert!(host.waited.is_empty());
}

#[test]
fn other_lines_do_not_end_the_shell_or_save_the_history() {
    for input in ["", "ls", "cd /tmp", "env", "jobs", "export A=1", "setprompt x", "exits", "a | b &"] {
        let (mut host, mut prompt, mut ctx) = (host(), String::from("> "), Context::new());
        assert!(!run_line(&mut host, &mut prompt, &mut ctx, input), "{:?}", input);
        assert_eq!(host.saved, 0, "{:?}", input);
    }
}

#[test]
fn setprompt_replaces_the_prompt() {
    let (mut host, mut prompt, mut ctx) = (host(), String::from("> "), Context::new());
    assert!(!run_line(&mut host, &mut prompt, &mut ctx, "setprompt rsh$ ignored"));
    assert_eq!(prompt, "rsh$");
    assert!(!run_line(&mut host, &mut prompt, &mut ctx, "setprompt"));
    assert_eq!(prompt, "rsh$");
    assert!(host.started.is_empty());
    assert!(host.stderr.is_empty());
}

#[test]
fn finished_line_stays_finished() {
    let mut prompt = String::from("> ");
    let mut ctx: Context<u32> = Context::new();
    let mut line: Line<u32> = Line::new("");
    assert_eq!(line.phase(), Phase::Ready);
    let first = process_line(&mut prompt, &mut ctx, &mut line, Event::Ready);
    assert!(matches!(first.request, Request::PollJobs));
    assert_eq!(line.phase(), Phase::Polling);
    let second = process_line(&mut prompt, &mut ctx, &mut line, Event::Polled(Vec::new()));
    assert!(matches!(second.request, Request::Finish { terminate: false }));
    let third = process_line(&mut prompt, &mut ctx, &mut line, Event::Spawned(Job { pid: 1, handle: 1 }));
    assert!(matches!(third.request, Request::Finish { terminate: false }));
    assert_eq!(line.phase(), Phase::Finished { terminate: false });
    assert_eq!(ctx.jobs.len(), 0);
}

#[test]
fn reaped_jobs_are_handed_to_the_host() {
    let mut prompt = String::from("> ");
    let mut ctx: Context<u32> = Context::new();
    ctx.jobs.record(Job { pid: 7, handle: 70 }, &Status::Running);
    ctx.jobs.record(Job { pid: 8, handle: 80 }, &Status::Running);
    let mut line: Line<u32> = Line::new("");
    let first = process_line(&mut prompt, &mut ctx, &mut line, Event::Ready);
    assert!(matches!(first.request, Request::PollJobs));
    let second = process_line(
        &mut prompt,
        &mut ctx,
        &mut line,
        Event::Polled(vec![Status::Running, Status::Exited]),
    );
    assert_eq!(second.stdout, texts(&["[2] 8 done"]));
    let handles: Vec<u32> = second.finished.iter().map(|job| job.handle).collect();
    assert_eq!(handles, vec![80]);
    assert_eq!(ctx.jobs.list(), texts(&["[1] 7"]));
}

#[test]
fn new_context_is_empty() {
    let ctx: Context<u32> = Context::new();
    assert_eq!(ctx.env.len(), 0);
    assert_eq!(ctx.alias.len(), 0);
    assert_eq!(ctx.jobs.len(), 0);
}

#[test]
fn aliases_are_left_alone() {
    let (mut host, mut prompt, mut ctx) = (host(), String::from("> "), Context::new());
    ctx.alias.insert(String::from("ll"), String::from("ls -l"));
    assert!(!run_line(&mut host, &mut prompt, &mut ctx, "export ll=x | ll | env"));
    assert_eq!(rsh::env::env(&ctx.alias), texts(&["ll=ls -l"]));
    assert_eq!(host.started.len(), 1);
    assert_eq!(host.started[0].command, "ll");
    assert_eq!(host.stdout, texts(&["ll=x"]));
}

#[test]
fn every_line_ends_within_its_bound() {
    for input in ["a | b | c | d | e &", "cd x | cd y | cd z", "exit | exit", " |  | ", "env | jobs | export A=1"] {
        let mut prompt = String::from("> ");
        let mut ctx: Context<u32> = Context::new();
        let mut line: Line<u32> = Line::new(input);
        let stages = input.split(" | ").count();
        let mut event = Event::Ready;
        let mut turns = 0;
        loop {
            turns += 1;
            assert!(turns <= 2 * stages + 3, "{:?}", input);
            let reaction = process_line(&mut prompt, &mut ctx, &mut line, event);
            event = match reaction.request {
                Request::Finish { .. } => break,
                Request::Spawn { .. } => Event::Spawned(Job { pid: 1, handle: 1 }),
                Request::Check { process } => Event::Checked(process, Status::Running),
                Request::PollJobs => Event::Polled(vec![Status::Running]),
                _ => Event::Ready,
            };
        }
    }
}
