//! The execution of one line of input.
//!
//! A line runs as an exchange between the shell and its host. The shell
//! decides: `process_line` takes what the host reports of the last piece of
//! work, changes the shell's state, and answers with what is to be written and
//! the next piece of work. The host performs: it starts and awaits processes,
//! changes the directory, writes the lines, and reports back. `step` states
//! every decision as a function of the state and the report.

use crate::context::{Context, ContextView};
use crate::env::{
    env, exported, exported_names, listing, parse_environment, resolve_variables, resolved,
    unresolved,
};
use crate::jobs::{
    done_lines, failure_lines, finished, format_poll_failure, format_started, listed,
    poll_failure, running, started_line, Job, Status, StatusView,
};
use crate::pipeline::{parse_line, pipeline_of, Builtin, PipelineView, Stage, StageView};
use vstd::prelude::*;
use vstd::string::*;

verus! {

/// The work that the shell asks of its host.
pub enum Request<H> {
    /// Nothing; the line goes on.
    Proceed,
    /// Change the working directory to `path`.
    ChangeDirectory { path: String },
    /// Start `command` with `args`. Its standard input is the standard output
    /// of `input`, or the shell's own where there is none; its standard
    /// output is a pipe if `piped`, else the shell's own.
    Spawn { command: String, args: Vec<String>, input: Option<Job<H>>, piped: bool },
    /// Wait until `process` has ended.
    Wait { process: Job<H> },
    /// Check once, without waiting, whether `process` has ended.
    Check { process: Job<H> },
    /// Check once, without waiting, each job of the table, in its order.
    PollJobs,
    /// Save the history of lines.
    SaveHistory,
    /// The line is done; `terminate` says whether the shell ends with it.
    Finish { terminate: bool },
}

/// A `Request` over sequences of characters.
pub ghost enum RequestView<H> {
    Proceed,
    ChangeDirectory { path: Seq<char> },
    Spawn { command: Seq<char>, args: Seq<Seq<char>>, input: Option<Job<H>>, piped: bool },
    Wait { process: Job<H> },
    Check { process: Job<H> },
    PollJobs,
    SaveHistory,
    Finish { terminate: bool },
}

impl<H> View for Request<H> {
    type V = RequestView<H>;

    open spec fn view(&self) -> RequestView<H> {
        match self {
            Request::Proceed => RequestView::Proceed,
            Request::ChangeDirectory { path } => RequestView::ChangeDirectory { path: path@ },
            Request::Spawn { command, args, input, piped } => RequestView::Spawn {
                command: command@,
                args: args.deep_view(),
                input: *input,
                piped: *piped,
            },
            Request::Wait { process } => RequestView::Wait { process: *process },
            Request::Check { process } => RequestView::Check { process: *process },
            Request::PollJobs => RequestView::PollJobs,
            Request::SaveHistory => RequestView::SaveHistory,
            Request::Finish { terminate } => RequestView::Finish { terminate: *terminate },
        }
    }
}

/// What the host reports of the work it was asked for.
pub enum Event<H> {
    /// The work is done, or there was none.
    Ready,
    /// The work failed; the text says why.
    Failed(String),
    /// The process was started.
    Spawned(Job<H>),
    /// The state of the process was asked for.
    Checked(Job<H>, Status),
    /// The state of each job of the table was asked for, in its order.
    Polled(Vec<Status>),
}

/// An `Event` over sequences of characters.
pub ghost enum EventView<H> {
    Ready,
    Failed(Seq<char>),
    Spawned(Job<H>),
    Checked(Job<H>, StatusView),
    Polled(Seq<StatusView>),
}

impl<H> View for Event<H> {
    type V = EventView<H>;

    open spec fn view(&self) -> EventView<H> {
        match self {
            Event::Ready => EventView::Ready,
            Event::Failed(message) => EventView::Failed(message@),
            Event::Spawned(job) => EventView::Spawned(*job),
            Event::Checked(job, status) => EventView::Checked(*job, status@),
            Event::Polled(statuses) => EventView::Polled(statuses.deep_view()),
        }
    }
}

/// The shell's answer to an event.
pub struct Reaction<H> {
    /// The lines to write to standard output, in order.
    pub stdout: Vec<String>,
    /// The lines to write to standard error, in order.
    pub stderr: Vec<String>,
    /// The jobs that have ended and left the table.
    pub finished: Vec<Job<H>>,
    /// The work to do next.
    pub request: Request<H>,
}

/// A `Reaction` over sequences of characters.
pub ghost struct ReactionView<H> {
    pub stdout: Seq<Seq<char>>,
    pub stderr: Seq<Seq<char>>,
    pub finished: Seq<Job<H>>,
    pub request: RequestView<H>,
}

impl<H> View for Reaction<H> {
    type V = ReactionView<H>;

    open spec fn view(&self) -> ReactionView<H> {
        ReactionView {
            stdout: self.stdout.deep_view(),
            stderr: self.stderr.deep_view(),
            finished: self.finished@,
            request: self.request@,
        }
    }
}

/// How far a line has come.
#[derive(Clone, Copy, Debug, PartialEq, Eq, Structural)]
pub enum Phase {
    /// The stage at the cursor runs next.
    Ready,
    /// The host changes the directory for the stage at the cursor.
    ChangingDirectory,
    /// The host starts the program of the stage at the cursor.
    Spawning,
    /// The host saves the history, after which the shell ends.
    Leaving,
    /// The stages are done; the host waits for the last process.
    Waiting,
    /// The stages are done; the host checks the last process once.
    Checking,
    /// The host polls the jobs.
    Polling,
    /// The line is done.
    Finished { terminate: bool },
}

/// One line of input on its way through the shell: its stages, borrowed
/// from the line's text, and how far it has come.
pub struct Line<'a, H> {
    stages: Vec<Stage<'a>>,
    background: bool,
    cursor: usize,
    previous: Option<Job<H>>,
    phase: Phase,
}

/// A `Line` over sequences of characters.
pub ghost struct LineView<H> {
    /// The stages of the line.
    pub stages: Seq<StageView>,
    /// Whether the line runs in the background.
    pub background: bool,
    /// The position of the stage that runs next, or is being run.
    pub cursor: nat,
    /// The process of the last stage that started one, if no stage since
    /// has taken it over or let go of it.
    pub previous: Option<Job<H>>,
    /// How far the line has come.
    pub phase: Phase,
}

impl<H> LineView<H> {
    /// The cursor stands on a stage while the host works for that stage, and
    /// the host waits for the last process of a line in the foreground only,
    /// and checks that of a line in the background only.
    pub open spec fn wf(self) -> bool {
        &&& self.cursor <= self.stages.len()
        &&& self.phase is ChangingDirectory ==> self.cursor < self.stages.len()
        &&& self.phase is Spawning ==> self.cursor < self.stages.len()
            && self.stages[self.cursor as int] is External
        &&& self.phase is Waiting ==> !self.background
        &&& self.phase is Checking ==> self.background
    }

    /// The line with the cursor on the next stage, which runs with
    /// `previous` as the process before it.
    pub open spec fn advanced(self, previous: Option<Job<H>>) -> LineView<H> {
        LineView { cursor: self.cursor + 1, previous, phase: Phase::Ready, ..self }
    }

    /// The line in `phase`, with no process held.
    pub open spec fn handed_over(self, phase: Phase) -> LineView<H> {
        LineView { previous: None, phase, ..self }
    }
}

impl<'a, H> View for Line<'a, H> {
    type V = LineView<H>;

    closed spec fn view(&self) -> LineView<H> {
        LineView {
            stages: self.stages.deep_view(),
            background: self.background,
            cursor: self.cursor as nat,
            previous: self.previous,
            phase: self.phase,
        }
    }
}

/// A line on which nothing has run yet.
pub open spec fn start<H>(pipeline: PipelineView) -> LineView<H> {
    LineView {
        stages: pipeline.stages,
        background: pipeline.background,
        cursor: 0,
        previous: None,
        phase: Phase::Ready,
    }
}

/// The diagnostic for `cd` without a directory.
pub open spec fn missing_directory() -> Seq<char> {
    "cd: missing directory"@
}

/// The diagnostic for a program that could not be started.
pub open spec fn spawn_failure(command: Seq<char>, message: Seq<char>) -> Seq<char> {
    "command: "@ + command + " caused error "@ + message
}

/// The state after one exchange, and the shell's answer.
pub ghost struct Step<H> {
    pub prompt: Seq<char>,
    pub context: ContextView<H>,
    pub line: LineView<H>,
    pub reaction: ReactionView<H>,
}

/// The answer that asks for `request` and writes `stderr`.
pub open spec fn answer<H>(stderr: Seq<Seq<char>>, request: RequestView<H>) -> ReactionView<H> {
    ReactionView { stdout: Seq::empty(), stderr, finished: Seq::empty(), request }
}

/// What the end of the stages asks for: to await the last process of a line
/// in the foreground, to check the last process of a line in the background,
/// and, where no process is left, to poll the jobs.
pub open spec fn settle<H>(
    prompt: Seq<char>,
    context: ContextView<H>,
    line: LineView<H>,
    stderr: Seq<Seq<char>>,
) -> Step<H> {
    match line.previous {
        Some(process) => if line.background {
            Step {
                prompt,
                context,
                line: line.handed_over(Phase::Checking),
                reaction: answer(stderr, RequestView::Check { process }),
            }
        } else {
            Step {
                prompt,
                context,
                line: line.handed_over(Phase::Waiting),
                reaction: answer(stderr, RequestView::Wait { process }),
            }
        },
        None => Step {
            prompt,
            context,
            line: line.handed_over(Phase::Polling),
            reaction: answer(stderr, RequestView::PollJobs),
        },
    }
}

/// What a command of the shell does. `stderr` holds what is left to say of
/// the stage before.
pub open spec fn run_builtin<H>(
    prompt: Seq<char>,
    context: ContextView<H>,
    line: LineView<H>,
    stderr: Seq<Seq<char>>,
    command: Builtin,
    args: Seq<Seq<char>>,
) -> Step<H> {
    match command {
        Builtin::Cd => if args.len() == 0 {
            Step {
                prompt,
                context,
                line: line.advanced(None),
                reaction: answer(stderr.push(missing_directory()), RequestView::Proceed),
            }
        } else {
            Step {
                prompt,
                context,
                line: line.handed_over(Phase::ChangingDirectory),
                reaction: answer(stderr, RequestView::ChangeDirectory { path: args[0] }),
            }
        },
        Builtin::Exit => Step {
            prompt,
            context,
            line: LineView { phase: Phase::Leaving, ..line },
            reaction: answer(stderr, RequestView::SaveHistory),
        },
        Builtin::SetPrompt => Step {
            prompt: if args.len() == 0 {
                prompt
            } else {
                args[0]
            },
            context,
            line: line.advanced(line.previous),
            reaction: answer(stderr, RequestView::Proceed),
        },
        Builtin::Env => Step {
            prompt,
            context,
            line: line.advanced(line.previous),
            reaction: ReactionView {
                stdout: listing(context.names, context.env),
                ..answer(stderr, RequestView::Proceed)
            },
        },
        Builtin::Export => Step {
            prompt,
            context: ContextView {
                names: exported_names(args, context.names),
                env: exported(args, context.env),
                ..context
            },
            line: line.advanced(line.previous),
            reaction: answer(stderr, RequestView::Proceed),
        },
        Builtin::Jobs => Step {
            prompt,
            context,
            line: line.advanced(line.previous),
            reaction: ReactionView {
                stdout: listed(context.jobs),
                ..answer(stderr, RequestView::Proceed)
            },
        },
    }
}

/// What the stage at the cursor does; past the last stage, or on a stage
/// without a word, the stages are done. `stderr` holds what is left to say
/// of the stage before.
pub open spec fn run_stage<H>(
    prompt: Seq<char>,
    context: ContextView<H>,
    line: LineView<H>,
    stderr: Seq<Seq<char>>,
) -> Step<H> {
    if line.cursor >= line.stages.len() {
        settle(prompt, context, line, stderr)
    } else {
        match line.stages[line.cursor as int] {
            StageView::Blank => settle(prompt, context, line, stderr),
            StageView::Builtin { command, args } => run_builtin(
                prompt,
                context,
                line,
                stderr,
                command,
                args,
            ),
            StageView::External { name, args } => Step {
                prompt,
                context,
                line: line.handed_over(Phase::Spawning),
                reaction: answer(
                    stderr + unresolved(args, context.env),
                    RequestView::Spawn {
                        command: name,
                        args: resolved(args, context.env),
                        input: line.previous,
                        piped: line.cursor + 1 < line.stages.len(),
                    },
                ),
            },
        }
    }
}

/// The name of the program of the stage at the cursor.
pub open spec fn program<H>(line: LineView<H>) -> Seq<char> {
    line.stages[line.cursor as int]->External_name
}

/// One exchange: what the shell makes of `event`, the host's report of the
/// work that the shell asked for last.
pub open spec fn step<H>(
    prompt: Seq<char>,
    context: ContextView<H>,
    line: LineView<H>,
    event: EventView<H>,
) -> Step<H> {
    match line.phase {
        Phase::Ready => run_stage(prompt, context, line, Seq::empty()),
        Phase::ChangingDirectory => run_stage(
            prompt,
            context,
            line.advanced(None),
            match event {
                EventView::Failed(message) => seq![message],
                _ => Seq::empty(),
            },
        ),
        Phase::Spawning => match event {
            EventView::Spawned(job) => run_stage(
                prompt,
                context,
                line.advanced(Some(job)),
                Seq::empty(),
            ),
            EventView::Failed(message) => run_stage(
                prompt,
                context,
                line.advanced(None),
                seq![spawn_failure(program(line), message)],
            ),
            _ => run_stage(prompt, context, line.advanced(None), Seq::empty()),
        },
        Phase::Leaving => Step {
            prompt,
            context,
            line: LineView { phase: Phase::Finished { terminate: true }, ..line },
            reaction: answer(Seq::empty(), RequestView::Finish { terminate: true }),
        },
        Phase::Waiting => Step {
            prompt,
            context,
            line: LineView { phase: Phase::Polling, ..line },
            reaction: answer(Seq::empty(), RequestView::PollJobs),
        },
        Phase::Checking => match event {
            EventView::Checked(job, StatusView::Running) => Step {
                prompt,
                context: ContextView { jobs: context.jobs.push(job), ..context },
                line: LineView { phase: Phase::Polling, ..line },
                reaction: ReactionView {
                    stdout: seq![started_line(job.pid)],
                    ..answer(Seq::empty(), RequestView::PollJobs)
                },
            },
            EventView::Checked(job, StatusView::Failed(message)) => Step {
                prompt,
                context,
                line: LineView { phase: Phase::Polling, ..line },
                reaction: answer(seq![poll_failure(message)], RequestView::PollJobs),
            },
            _ => Step {
                prompt,
                context,
                line: LineView { phase: Phase::Polling, ..line },
                reaction: answer(Seq::empty(), RequestView::PollJobs),
            },
        },
        Phase::Polling => {
            let found = match event {
                EventView::Polled(statuses) => statuses,
                _ => Seq::empty(),
            };
            let n = context.jobs.len() as int;
            Step {
                prompt,
                context: ContextView { jobs: running(context.jobs, found, n), ..context },
                line: LineView { phase: Phase::Finished { terminate: false }, ..line },
                reaction: ReactionView {
                    stdout: done_lines(context.jobs, found, n),
                    stderr: failure_lines(found, n),
                    finished: finished(context.jobs, found, n),
                    request: RequestView::Finish { terminate: false },
                },
            }
        },
        Phase::Finished { terminate } => Step {
            prompt,
            context,
            line,
            reaction: answer(Seq::empty(), RequestView::Finish { terminate }),
        },
    }
}

impl<'a, H> Line<'a, H> {
    /// The line is in a state that `new` and `process_line` lead to.
    pub closed spec fn wf(&self) -> bool {
        self@.wf()
    }

    /// The line that `input` describes, with nothing run yet.
    pub fn new(input: &'a str) -> (line: Line<'a, H>)
        ensures
            line.wf(),
            line@ == start::<H>(pipeline_of(input@)),
    {
        let pipeline = parse_line(input);
        Line {
            stages: pipeline.stages,
            background: pipeline.background,
            cursor: 0,
            previous: None,
            phase: Phase::Ready,
        }
    }

    /// How far the line has come.
    pub fn phase(&self) -> (phase: Phase)
        ensures
            phase == self@.phase,
    {
        self.phase
    }
}

fn no_lines() -> (lines: Vec<String>)
    ensures
        lines.deep_view() == Seq::<Seq<char>>::empty(),
{
    let lines: Vec<String> = Vec::new();
    assert(lines.deep_view() =~= Seq::<Seq<char>>::empty());
    lines
}

fn one_line(text: String) -> (lines: Vec<String>)
    ensures
        lines.deep_view() == seq![text@],
{
    let mut lines: Vec<String> = Vec::new();
    lines.push(text);
    assert(lines.deep_view() =~= seq![text@]);
    lines
}

fn quiet<H>(stderr: Vec<String>, request: Request<H>) -> (reaction: Reaction<H>)
    ensures
        reaction@ == answer(stderr.deep_view(), request@),
{
    Reaction { stdout: no_lines(), stderr, finished: Vec::new(), request }
}

fn settle_line<'a, H>(line: &mut Line<'a, H>, stderr: Vec<String>) -> (reaction: Reaction<H>)
    requires
        old(line).wf(),
    ensures
        final(line).wf(),
        forall|prompt: Seq<char>, context: ContextView<H>|
            #![trigger settle(prompt, context, old(line)@, stderr.deep_view())]
            settle(prompt, context, old(line)@, stderr.deep_view()) == (Step {
                prompt,
                context,
                line: final(line)@,
                reaction: reaction@,
            }),
{
    let mut last: Option<Job<H>> = None;
    std::mem::swap(&mut line.previous, &mut last);
    match last {
        Some(process) => {
            if line.background {
                line.phase = Phase::Checking;
                quiet(stderr, Request::Check { process })
            } else {
                line.phase = Phase::Waiting;
                quiet(stderr, Request::Wait { process })
            }
        },
        None => {
            line.phase = Phase::Polling;
            quiet(stderr, Request::PollJobs)
        },
    }
}

fn run<'a, H>(
    prompt: &mut String,
    ctx: &mut Context<H>,
    line: &mut Line<'a, H>,
    stderr: Vec<String>,
) -> (reaction: Reaction<H>)
    requires
        old(ctx).wf(),
        old(line).wf(),
        old(line)@.phase is Ready,
    ensures
        final(ctx).wf(),
        final(line).wf(),
        final(ctx).alias == old(ctx).alias,
        run_stage(old(prompt)@, old(ctx)@, old(line)@, stderr.deep_view()) == (Step {
            prompt: final(prompt)@,
            context: final(ctx)@,
            line: final(line)@,
            reaction: reaction@,
        }),
{
    if line.cursor >= line.stages.len() {
        return settle_line(line, stderr);
    }
    let ghost stage = line.stages.deep_view()[line.cursor as int];
    assert(stage == line.stages[line.cursor as int]@);
    match &line.stages[line.cursor] {
        Stage::Blank => settle_line(line, stderr),
        Stage::Builtin { command: Builtin::Cd, args } => {
            if args.len() == 0 {
                let mut stderr = stderr;
                let ghost before = stderr.deep_view();
                let message = String::from_str("cd: missing directory");
                stderr.push(message);
                assert(stderr.deep_view() =~= before.push(missing_directory()));
                line.previous = None;
                line.cursor = line.cursor + 1;
                quiet(stderr, Request::Proceed)
            } else {
                let path = String::from_str(args[0]);
                assert(args.deep_view()[0] == args[0]@);
                line.previous = None;
                line.phase = Phase::ChangingDirectory;
                quiet(stderr, Request::ChangeDirectory { path })
            }
        },
        Stage::Builtin { command: Builtin::Exit, .. } => {
            line.phase = Phase::Leaving;
            quiet(stderr, Request::SaveHistory)
        },
        Stage::Builtin { command: Builtin::SetPrompt, args } => {
            if args.len() > 0 {
                assert(args.deep_view()[0] == args[0]@);
                *prompt = String::from_str(args[0]);
            }
            line.cursor = line.cursor + 1;
            quiet(stderr, Request::Proceed)
        },
        Stage::Builtin { command: Builtin::Env, .. } => {
            let stdout = env(&ctx.env);
            line.cursor = line.cursor + 1;
            Reaction { stdout, stderr, finished: Vec::new(), request: Request::Proceed }
        },
        Stage::Builtin { command: Builtin::Export, args } => {
            parse_environment(args, &mut ctx.env);
            line.cursor = line.cursor + 1;
            quiet(stderr, Request::Proceed)
        },
        Stage::Builtin { command: Builtin::Jobs, .. } => {
            let stdout = ctx.jobs.list();
            line.cursor = line.cursor + 1;
            Reaction { stdout, stderr, finished: Vec::new(), request: Request::Proceed }
        },
        Stage::External { name, args } => {
            let resolution = resolve_variables(args, &ctx.env);
            let mut stderr = stderr;
            let ghost before = stderr.deep_view();
            let mut diagnostics = resolution.diagnostics;
            let ghost added = diagnostics.deep_view();
            stderr.append(&mut diagnostics);
            assert(stderr.deep_view() =~= before + added);
            let command = String::from_str(name);
            let piped = line.cursor + 1 < line.stages.len();
            let mut input: Option<Job<H>> = None;
            std::mem::swap(&mut line.previous, &mut input);
            line.phase = Phase::Spawning;
            quiet(stderr, Request::Spawn { command, args: resolution.args, input, piped })
        },
    }
}

/// Takes one line of input one exchange further: takes in `event`, the
/// host's report of the work that the last answer asked for, and answers
/// with what is to be written and the work to do next. The first event of a
/// line is `Event::Ready`; the line is done with the request
/// `Request::Finish`, which says whether the shell ends.
pub fn process_line<'a, H>(
    prompt: &mut String,
    ctx: &mut Context<H>,
    line: &mut Line<'a, H>,
    event: Event<H>,
) -> (reaction: Reaction<H>)
    requires
        old(ctx).wf(),
        old(line).wf(),
    ensures
        final(ctx).wf(),
        final(line).wf(),
        final(ctx).alias == old(ctx).alias,
        step(old(prompt)@, old(ctx)@, old(line)@, event@) == (Step {
            prompt: final(prompt)@,
            context: final(ctx)@,
            line: final(line)@,
            reaction: reaction@,
        }),
{
    assert(line.stages.deep_view().len() == line.stages.len());
    match line.phase {
        Phase::Ready => run(prompt, ctx, line, no_lines()),
        Phase::ChangingDirectory => {
            let stderr = match event {
                Event::Failed(message) => one_line(message),
                _ => no_lines(),
            };
            line.previous = None;
            line.cursor = line.cursor + 1;
            line.phase = Phase::Ready;
            run(prompt, ctx, line, stderr)
        },
        Phase::Spawning => {
            let stderr = match event {
                Event::Spawned(job) => {
                    line.previous = Some(job);
                    no_lines()
                },
                Event::Failed(message) => {
                    let ghost stage = line.stages.deep_view()[line.cursor as int];
                    assert(stage == line.stages[line.cursor as int]@);
                    let mut text = String::from_str("command: ");
                    match &line.stages[line.cursor] {
                        Stage::External { name, .. } => {
                            text.append(name);
                        },
                        _ => {},
                    }
                    text.append(" caused error ");
                    text.append(message.as_str());
                    line.previous = None;
                    one_line(text)
                },
                _ => {
                    line.previous = None;
                    no_lines()
                },
            };
            line.cursor = line.cursor + 1;
            line.phase = Phase::Ready;
            run(prompt, ctx, line, stderr)
        },
        Phase::Leaving => {
            line.phase = Phase::Finished { terminate: true };
            quiet(no_lines(), Request::Finish { terminate: true })
        },
        Phase::Waiting => {
            line.phase = Phase::Polling;
            quiet(no_lines(), Request::PollJobs)
        },
        Phase::Checking => {
            line.phase = Phase::Polling;
            match event {
                Event::Checked(job, status) => {
                    let pid = job.pid;
                    match status {
                        Status::Running => {
                            ctx.jobs.record(job, &Status::Running);
                            Reaction {
                                stdout: one_line(format_started(pid)),
                                stderr: no_lines(),
                                finished: Vec::new(),
                                request: Request::PollJobs,
                            }
                        },
                        Status::Exited => quiet(no_lines(), Request::PollJobs),
                        Status::Failed(message) => quiet(
                            one_line(format_poll_failure(message.as_str())),
                            Request::PollJobs,
                        ),
                    }
                },
                _ => quiet(no_lines(), Request::PollJobs),
            }
        },
        Phase::Polling => {
            line.phase = Phase::Finished { terminate: false };
            let reaped = match event {
                Event::Polled(statuses) => ctx.jobs.reap(&statuses),
                _ => {
                    let none: Vec<Status> = Vec::new();
                    assert(none.deep_view() =~= Seq::<StatusView>::empty());
                    ctx.jobs.reap(&none)
                },
            };
            Reaction {
                stdout: reaped.reports,
                stderr: reaped.diagnostics,
                finished: reaped.finished,
                request: Request::Finish { terminate: false },
            }
        },
        Phase::Finished { terminate } => quiet(no_lines(), Request::Finish { terminate }),
    }
}

} // verus!
