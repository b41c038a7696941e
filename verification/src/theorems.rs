//! What holds of every line: theorems about `step`, the function that
//! `process_line` computes.

use crate::context::ContextView;
use crate::env::{
    binding_line, bound, lemma_bound_names, lemma_exported_names, resolved,
    theorem_export_shows_in_env, unresolved,
};
use crate::jobs::{
    done_line, done_lines, finished, job_line, lemma_all_running, listed, running, started_line,
    Job, StatusView,
};
use crate::pipeline::{
    marked_background, pipe, pipeline_of, stage_of, theorem_line_without_pipe_is_one_stage,
    theorem_three_stage_line, Builtin, StageView,
};
use crate::rsh::{run_stage, start, step, EventView, LineView, Phase, RequestView, Step};
use crate::text::{trimmed, words};
use vstd::prelude::*;

verus! {

/// The state and the answer that follow `before` when the host reports
/// `event`.
pub open spec fn then<H>(before: Step<H>, event: EventView<H>) -> Step<H> {
    step(before.prompt, before.context, before.line, event)
}

/// How many exchanges a line has before it at most: a bound that every
/// exchange lowers.
pub open spec fn exchanges_left<H>(line: LineView<H>) -> nat {
    let stages = (line.stages.len() - line.cursor) as nat;
    match line.phase {
        Phase::Ready => 2 * stages + 3,
        Phase::ChangingDirectory => 2 * stages + 2,
        Phase::Spawning => 2 * stages + 2,
        Phase::Leaving => 1,
        Phase::Waiting => 2,
        Phase::Checking => 2,
        Phase::Polling => 1,
        Phase::Finished { .. } => 0,
    }
}

/// A line stays well formed, and every exchange brings it nearer to its
/// end: the host's loop over one line ends.
pub proof fn theorem_line_ends<H>(
    prompt: Seq<char>,
    context: ContextView<H>,
    line: LineView<H>,
    event: EventView<H>,
)
    requires
        line.wf(),
    ensures
        step(prompt, context, line, event).line.wf(),
        step(prompt, context, line, event).line.stages == line.stages,
        step(prompt, context, line, event).line.background == line.background,
        !(line.phase is Finished) ==> exchanges_left(step(prompt, context, line, event).line)
            < exchanges_left(line),
        line.phase is Finished ==> step(prompt, context, line, event).line == line,
        step(prompt, context, line, event).reaction.request is Finish <==> step(
            prompt,
            context,
            line,
            event,
        ).line.phase is Finished,
{
}

/// A stage that runs a program asks the host to start it with its resolved
/// arguments, reading from the process before it, if there is one, and
/// writing to a pipe exactly if a stage follows. The process that the host
/// reports becomes the process before the next stage.
pub proof fn theorem_stage_wiring<H>(
    prompt: Seq<char>,
    context: ContextView<H>,
    line: LineView<H>,
    event: EventView<H>,
    job: Job<H>,
)
    requires
        line.wf(),
        line.phase is Ready,
        line.cursor < line.stages.len(),
        line.stages[line.cursor as int] is External,
    ensures
        ({
            let stage = line.stages[line.cursor as int];
            let first = step(prompt, context, line, event);
            &&& first.reaction.request == RequestView::Spawn {
                command: stage->External_name,
                args: resolved(stage->External_args, context.env),
                input: line.previous,
                piped: line.cursor + 1 < line.stages.len(),
            }
            &&& first.reaction.stderr == unresolved(stage->External_args, context.env)
            &&& first.reaction.stdout.len() == 0
            &&& first.context == context
            &&& first.prompt == prompt
            &&& first.line.phase is Spawning
            &&& then(first, EventView::Spawned(job)) == run_stage(
                prompt,
                context,
                line.advanced(Some(job)),
                Seq::empty(),
            )
        }),
{
    let first = step(prompt, context, line, event);
    assert(first.reaction.stderr =~= unresolved(
        line.stages[line.cursor as int]->External_args,
        context.env,
    ));
}

/// A line of one program in the foreground: the program is started on the
/// shell's own input and output, and the shell waits for it before it
/// polls the jobs and ends the line.
pub proof fn theorem_single_program_is_awaited<H>(
    prompt: Seq<char>,
    context: ContextView<H>,
    line: LineView<H>,
    job: Job<H>,
    any: EventView<H>,
)
    requires
        line.wf(),
        line.phase is Ready,
        line.cursor == 0,
        line.previous is None,
        !line.background,
        line.stages.len() == 1,
        line.stages[0] is External,
    ensures
        ({
            let first = step(prompt, context, line, any);
            let second = then(first, EventView::Spawned(job));
            let third = then(second, any);
            &&& first.reaction.request == RequestView::Spawn {
                command: line.stages[0]->External_name,
                args: resolved(line.stages[0]->External_args, context.env),
                input: None::<Job<H>>,
                piped: false,
            }
            &&& second.line.phase is Waiting
            &&& second.reaction.request == RequestView::Wait { process: job }
            &&& third.reaction.request == RequestView::<H>::PollJobs
            &&& third.context == context
            &&& third.prompt == prompt
        }),
{
}

/// A line of three programs `a`, `b` and `c`: `a` reads the shell's own
/// input and writes to a pipe, `b` reads from `a` and writes to a pipe, `c`
/// reads from `b` and writes to the shell's own output. In the foreground
/// the shell then waits for `c`, in the background it checks `c` once.
pub proof fn theorem_three_stages_are_chained<H>(
    prompt: Seq<char>,
    context: ContextView<H>,
    line: LineView<H>,
    a: Job<H>,
    b: Job<H>,
    c: Job<H>,
    any: EventView<H>,
)
    requires
        line.wf(),
        line.phase is Ready,
        line.cursor == 0,
        line.previous is None,
        line.stages.len() == 3,
        line.stages[0] is External,
        line.stages[1] is External,
        line.stages[2] is External,
    ensures
        ({
            let first = step(prompt, context, line, any);
            let second = then(first, EventView::Spawned(a));
            let third = then(second, EventView::Spawned(b));
            let fourth = then(third, EventView::Spawned(c));
            &&& first.reaction.request == RequestView::Spawn {
                command: line.stages[0]->External_name,
                args: resolved(line.stages[0]->External_args, context.env),
                input: None::<Job<H>>,
                piped: true,
            }
            &&& second.reaction.request == RequestView::Spawn {
                command: line.stages[1]->External_name,
                args: resolved(line.stages[1]->External_args, context.env),
                input: Some(a),
                piped: true,
            }
            &&& third.reaction.request == RequestView::Spawn {
                command: line.stages[2]->External_name,
                args: resolved(line.stages[2]->External_args, context.env),
                input: Some(b),
                piped: false,
            }
            &&& fourth.reaction.request == if line.background {
                RequestView::Check { process: c }
            } else {
                RequestView::Wait { process: c }
            }
        }),
{
}

/// A directory that cannot be entered: the host's message is written to
/// standard error first, nothing of the shell's state has changed when the
/// next stage runs, and the shell does not end.
pub proof fn theorem_failed_cd_is_reported<H>(
    prompt: Seq<char>,
    context: ContextView<H>,
    line: LineView<H>,
    message: Seq<char>,
)
    requires
        line.wf(),
        line.phase is ChangingDirectory,
    ensures
        ({
            let next = step(prompt, context, line, EventView::Failed(message));
            &&& next == run_stage(prompt, context, line.advanced(None), seq![message])
            &&& next.reaction.stderr.len() >= 1
            &&& next.reaction.stderr[0] == message
            &&& next.reaction.request != RequestView::<H>::Finish { terminate: true }
            &&& next.context.jobs == context.jobs
        }),
{
}

/// `exit` has the history saved and then ends the shell, whatever the host
/// reports in between and whatever else the line holds.
pub proof fn theorem_exit_saves_history_then_terminates<H>(
    prompt: Seq<char>,
    context: ContextView<H>,
    line: LineView<H>,
    stderr: Seq<Seq<char>>,
    event: EventView<H>,
)
    requires
        line.wf(),
        line.phase is Ready,
        line.cursor < line.stages.len(),
        line.stages[line.cursor as int] matches StageView::Builtin { command, .. } && command
            == Builtin::Exit,
    ensures
        ({
            let first = run_stage(prompt, context, line, stderr);
            let second = then(first, event);
            &&& first.reaction.request == RequestView::<H>::SaveHistory
            &&& first.context == context
            &&& second.reaction.request == RequestView::<H>::Finish { terminate: true }
            &&& second.context == context
        }),
{
}

/// The shell ends only after the history was saved: the answer that ends
/// the shell follows the request to save the history, or repeats itself;
/// and the history is saved for `exit` alone.
pub proof fn theorem_shell_ends_only_by_exit<H>(
    prompt: Seq<char>,
    context: ContextView<H>,
    line: LineView<H>,
    event: EventView<H>,
    after: EventView<H>,
)
    requires
        line.wf(),
    ensures
        ({
            let first = step(prompt, context, line, event);
            let second = then(first, after);
            &&& first.reaction.request == RequestView::<H>::Finish { terminate: true }
                ==> line.phase is Leaving || line.phase == (Phase::Finished { terminate: true })
            &&& first.line.phase is Leaving <==> first.reaction.request is SaveHistory
            &&& first.reaction.request is SaveHistory ==> second.reaction.request
                == RequestView::<H>::Finish { terminate: true }
            &&& first.reaction.request is SaveHistory ==> first.line.cursor
                < first.line.stages.len() && (first.line.stages[first.line.cursor as int]
                matches StageView::Builtin { command, .. } && command == Builtin::Exit)
        }),
{
}

/// Every line that does not end the shell polls the jobs once, right before
/// it is done: the answer that ends such a line follows the request to poll
/// the jobs, or repeats itself.
pub proof fn theorem_jobs_are_polled_after_every_line<H>(
    prompt: Seq<char>,
    context: ContextView<H>,
    line: LineView<H>,
    event: EventView<H>,
)
    requires
        line.wf(),
    ensures
        ({
            let next = step(prompt, context, line, event);
            &&& next.reaction.request == RequestView::<H>::Finish { terminate: false }
                ==> line.phase is Polling || line.phase == (Phase::Finished { terminate: false })
            &&& next.line.phase is Polling <==> next.reaction.request is PollJobs
        }),
{
}

/// The table of jobs changes in two ways only: it takes in the last process
/// of a line in the background that the first check found running, and it
/// lets go of the jobs that a poll found ended.
pub proof fn theorem_only_running_processes_become_jobs<H>(
    prompt: Seq<char>,
    context: ContextView<H>,
    line: LineView<H>,
    event: EventView<H>,
)
    requires
        line.wf(),
    ensures
        ({
            let next = step(prompt, context, line, event);
            &&& !(line.phase is Checking) && !(line.phase is Polling) ==> next.context.jobs
                == context.jobs
            &&& line.phase is Checking ==> line.background && next.context.jobs == (match event {
                EventView::Checked(job, StatusView::Running) => context.jobs.push(job),
                _ => context.jobs,
            })
            &&& line.phase is Polling ==> next.context.jobs.len() <= context.jobs.len()
        }),
{
    if line.phase is Polling {
        let found = match event {
            EventView::Polled(statuses) => statuses,
            _ => Seq::empty(),
        };
        crate::jobs::lemma_running_shape(context.jobs, found, context.jobs.len() as int);
    }
}

/// The names a context shows stay in step with its variables, whatever a
/// line does.
pub proof fn theorem_context_stays_well_formed<H>(
    prompt: Seq<char>,
    context: ContextView<H>,
    line: LineView<H>,
    event: EventView<H>,
)
    requires
        context.wf(),
        line.wf(),
    ensures
        step(prompt, context, line, event).context.wf(),
        context.env.dom().subset_of(step(prompt, context, line, event).context.env.dom()),
{
    let next = step(prompt, context, line, event);
    let ran = match line.phase {
        Phase::Ready => line,
        Phase::ChangingDirectory => line.advanced(None),
        Phase::Spawning => match event {
            EventView::Spawned(job) => line.advanced(Some(job)),
            _ => line.advanced(None),
        },
        _ => line,
    };
    if ran.cursor < ran.stages.len() {
        match ran.stages[ran.cursor as int] {
            StageView::Builtin { command: Builtin::Export, args } => {
                lemma_exported_names(args, context.names, context.env);
            },
            _ => {},
        }
    }
}

/// A line that holds neither `|` nor `&` and names a program: the program
/// is started on the shell's own input and output, with the resolved
/// arguments, and when the host reports the process, the shell has the
/// host wait for it.
pub proof fn theorem_plain_line_is_awaited<H>(
    input: Seq<char>,
    prompt: Seq<char>,
    context: ContextView<H>,
    job: Job<H>,
    any: EventView<H>,
)
    requires
        forall|j: int| 0 <= j < input.len() ==> input[j] != '|' && input[j] != '&',
        stage_of(words(input)) is External,
    ensures
        ({
            let line = start::<H>(pipeline_of(input));
            let first = step(prompt, context, line, any);
            let second = then(first, EventView::Spawned(job));
            &&& line.stages == seq![stage_of(words(input))]
            &&& first.reaction.request == RequestView::Spawn {
                command: stage_of(words(input))->External_name,
                args: resolved(stage_of(words(input))->External_args, context.env),
                input: None::<Job<H>>,
                piped: false,
            }
            &&& second.reaction.request == RequestView::Wait { process: job }
        }),
{
    theorem_line_without_pipe_is_one_stage(input);
    let line = start::<H>(pipeline_of(input));
    theorem_single_program_is_awaited(prompt, context, line, job, any);
}

/// A line `a | b | c` of three programs in the foreground: `a` reads the
/// shell's own input, `b` reads what `a` writes, `c` reads what `b` writes
/// and writes to the shell's own output, and the shell has the host wait
/// for `c`.
pub proof fn theorem_piped_line_is_chained<H>(
    input: Seq<char>,
    texts: (Seq<char>, Seq<char>, Seq<char>),
    prompt: Seq<char>,
    context: ContextView<H>,
    jobs: (Job<H>, Job<H>, Job<H>),
    any: EventView<H>,
)
    requires
        trimmed(input) == texts.0 + pipe() + texts.1 + pipe() + texts.2,
        !marked_background(trimmed(input)),
        forall|j: int| 0 <= j < texts.0.len() ==> texts.0[j] != '|',
        forall|j: int| 0 <= j < texts.1.len() ==> texts.1[j] != '|',
        forall|j: int| 0 <= j < texts.2.len() ==> texts.2[j] != '|',
        stage_of(words(texts.0)) is External,
        stage_of(words(texts.1)) is External,
        stage_of(words(texts.2)) is External,
    ensures
        ({
            let a = stage_of(words(texts.0));
            let b = stage_of(words(texts.1));
            let c = stage_of(words(texts.2));
            let first = step(prompt, context, start::<H>(pipeline_of(input)), any);
            let second = then(first, EventView::Spawned(jobs.0));
            let third = then(second, EventView::Spawned(jobs.1));
            let fourth = then(third, EventView::Spawned(jobs.2));
            &&& first.reaction.request == RequestView::Spawn {
                command: a->External_name,
                args: resolved(a->External_args, context.env),
                input: None::<Job<H>>,
                piped: true,
            }
            &&& second.reaction.request == RequestView::Spawn {
                command: b->External_name,
                args: resolved(b->External_args, context.env),
                input: Some(jobs.0),
                piped: true,
            }
            &&& third.reaction.request == RequestView::Spawn {
                command: c->External_name,
                args: resolved(c->External_args, context.env),
                input: Some(jobs.1),
                piped: false,
            }
            &&& fourth.reaction.request == RequestView::Wait { process: jobs.2 }
        }),
{
    theorem_three_stage_line(input, texts.0, texts.1, texts.2);
    let line = start::<H>(pipeline_of(input));
    theorem_three_stages_are_chained(prompt, context, line, jobs.0, jobs.1, jobs.2, any);
}

/// `export NAME=value` followed by `env`: `env` shows the line
/// `NAME=value`, every line it shows for `NAME` is that line, and it shows
/// as many lines as there are variables, so that a name that was bound
/// before is not shown twice.
pub proof fn theorem_export_then_env<H>(
    prompt: Seq<char>,
    context: ContextView<H>,
    exporting: LineView<H>,
    showing: LineView<H>,
    name: Seq<char>,
    value: Seq<char>,
    any: EventView<H>,
)
    requires
        context.wf(),
        exporting.wf(),
        exporting.phase is Ready,
        exporting.cursor < exporting.stages.len(),
        exporting.stages[exporting.cursor as int] == (StageView::Builtin {
            command: Builtin::Export,
            args: seq![name + seq!['='] + value],
        }),
        forall|j: int| 0 <= j < name.len() ==> name[j] != '=',
        showing.wf(),
        showing.phase is Ready,
        showing.cursor < showing.stages.len(),
        showing.stages[showing.cursor as int] matches StageView::Builtin { command, .. }
            && command == Builtin::Env,
    ensures
        ({
            let exported = step(prompt, context, exporting, any);
            let shown = step(exported.prompt, exported.context, showing, any).reaction.stdout;
            let names = exported.context.names;
            &&& exported.context.env == context.env.insert(name, value)
            &&& exported.context.wf()
            &&& shown.len() == names.len()
            &&& names.len() == exported.context.env.dom().len()
            &&& exists|k: int| 0 <= k < shown.len() && #[trigger] shown[k] == binding_line(
                name,
                value,
            )
            &&& forall|k: int|
                0 <= k < shown.len() && names[k] == name ==> #[trigger] shown[k] == binding_line(
                    name,
                    value,
                )
            &&& forall|k: int|
                0 <= k < shown.len() && names[k] != name ==> #[trigger] shown[k] == binding_line(
                    names[k],
                    context.env[names[k]],
                )
        }),
{
    theorem_export_shows_in_env(context.names, context.env, name, value);
    lemma_bound_names(context.names, context.env, name, value);
    let exported = step(prompt, context, exporting, any);
    let names = bound(context.names, name);
    assert(exported.context.names == names);
    assert(exported.context.env == context.env.insert(name, value));
    names.unique_seq_to_set();
    let shown = step(exported.prompt, exported.context, showing, any).reaction.stdout;
    let k = choose|k: int|
        0 <= k < shown.len() && names[k] == name && #[trigger] shown[k] == binding_line(
            name,
            value,
        );
    assert(shown[k] == binding_line(name, value));
}

/// The last process of a line in the background that is found running
/// becomes the last job of the table: it is announced by its process
/// identifier, and `jobs` lists it under the number of jobs there are, which
/// is 1 where the table was empty. When a poll then finds it ended, and the
/// other jobs not, it is reported under that index and leaves the table,
/// which is as it was before.
pub proof fn theorem_background_job_is_listed_until_it_ends<H>(
    prompt: Seq<char>,
    context: ContextView<H>,
    line: LineView<H>,
    job: Job<H>,
    found: Seq<StatusView>,
)
    requires
        line.wf(),
        line.phase is Checking,
        found.len() == context.jobs.len() + 1,
        forall|i: int| 0 <= i < context.jobs.len() ==> !(found[i] is Exited),
        found[context.jobs.len() as int] is Exited,
    ensures
        ({
            let checked = step(
                prompt,
                context,
                line,
                EventView::Checked(job, StatusView::Running),
            );
            let polled = then(checked, EventView::Polled(found));
            let index = (context.jobs.len() + 1) as nat;
            &&& checked.context.jobs == context.jobs.push(job)
            &&& checked.reaction.stdout == seq![started_line(job.pid)]
            &&& checked.reaction.request == RequestView::<H>::PollJobs
            &&& listed(checked.context.jobs).len() == index
            &&& listed(checked.context.jobs)[index - 1] == job_line(index, job.pid)
            &&& polled.context.jobs == context.jobs
            &&& polled.reaction.stdout == seq![done_line(index, job.pid)]
            &&& polled.reaction.finished == seq![job]
            &&& polled.reaction.request == RequestView::<H>::Finish { terminate: false }
        }),
{
    let jobs = context.jobs.push(job);
    let n = context.jobs.len() as int;
    lemma_all_running(jobs, found, n);
    assert(running(jobs, found, n) =~= context.jobs);
    assert(done_lines(jobs, found, n + 1) =~= seq![done_line((n + 1) as nat, job.pid)]);
    assert(finished(jobs, found, n + 1) =~= seq![job]);
}

} // verus!
