//! Walking a chain: what runs next, and what its outcome means.
//!
//! The library decides and the caller acts.  [`step`] says what has to be
//! done next; the caller does it and hands the exit status to [`settle`],
//! which updates the shell state and gives the outcome that the next
//! operator goes by.
use vstd::prelude::*;
use vstd::string::*;
use vstd::utf8::encode_utf8;
use crate::builtins::{
    builtin_of, cd_target, exit_code, exit_status, resolve, resolved_path, BuiltinError,
    BuiltinKind,
};
use crate::element::{
    element_views, is_operator, well_formed, Chain, Command, CommandView, Element, ElementView,
};
use crate::state::{log_text, ExecutionOutcome, ShellState};
use crate::tokenizer::texts;

verus! {

/// What the caller has to do next.
#[derive(Debug, PartialEq, Eq)]
pub enum Action {
    /// Start every command, each one's standard output feeding the next
    /// one's standard input, and only then wait for them all.  The status
    /// to report is that of the last one.
    Spawn { commands: Vec<Command> },
    /// Change the working directory to `path`.
    ChangeDir { path: String },
    /// Write the captured output to the shell's own streams.
    Emit { outcome: ExecutionOutcome },
    /// Report the error on standard error.
    Report { error: BuiltinError },
    /// Terminate the process with `status`.
    Exit { status: i32 },
    /// Nothing is left to do in this chain.
    Finished,
}

/// What an [`Action`] holds, as plain values.
pub enum ActionView {
    Spawn { commands: Seq<CommandView> },
    ChangeDir { path: Seq<char> },
    Emit { exit_status: i32, stdout: Seq<u8>, stderr: Seq<u8> },
    Report { error: BuiltinError },
    Exit { status: i32 },
    Finished,
}

/// The views of a sequence of commands, in order.
pub open spec fn command_views(v: Seq<Command>) -> Seq<CommandView> {
    Seq::new(v.len(), |i: int| v[i]@)
}

impl View for Action {
    type V = ActionView;

    open spec fn view(&self) -> ActionView {
        match self {
            Action::Spawn { commands } => ActionView::Spawn { commands: command_views(commands@) },
            Action::ChangeDir { path } => ActionView::ChangeDir { path: path@ },
            Action::Emit { outcome } => ActionView::Emit {
                exit_status: outcome.exit_status,
                stdout: outcome.stdout_bytes@,
                stderr: outcome.stderr_bytes@,
            },
            Action::Report { error } => ActionView::Report { error: *error },
            Action::Exit { status } => ActionView::Exit { status: *status },
            Action::Finished => ActionView::Finished,
        }
    }
}

/// Whether a pipe and then a command follow the element at `at`.
pub open spec fn piped_on(e: Seq<ElementView>, at: int) -> bool {
    at + 2 < e.len() && e[at + 1] is Pipe && e[at + 2] is Command
}

/// The position behind the pipeline that starts with the command at
/// `start`: the longest run of commands joined by pipes.
pub open spec fn pipeline_end(e: Seq<ElementView>, start: int) -> int
    decreases e.len() - start,
{
    if 0 <= start && piped_on(e, start) {
        pipeline_end(e, start + 2)
    } else {
        start + 1
    }
}

/// The commands of the pipeline that starts at `start`, in order.
pub open spec fn pipeline_commands(e: Seq<ElementView>, start: int) -> Seq<CommandView>
    decreases e.len() - start,
{
    if 0 <= start < e.len() && e[start] is Command {
        if piped_on(e, start) {
            seq![e[start]->Command_0] + pipeline_commands(e, start + 2)
        } else {
            seq![e[start]->Command_0]
        }
    } else {
        Seq::empty()
    }
}

/// Where the next pipeline starts, seen from the position `pos` behind the
/// one that ended with `last`.  A command starts one.  `&&` lets the next
/// command run after a success, `||` after a failure; otherwise, and at the
/// end, nothing more runs.
pub open spec fn next_start(e: Seq<ElementView>, pos: int, last: Option<bool>) -> Option<int> {
    if pos < 0 || pos >= e.len() {
        None
    } else {
        match e[pos] {
            ElementView::Command(_) => Some(pos),
            ElementView::And => if last == Some(true) && pos + 1 < e.len() && e[pos + 1]
                is Command {
                Some(pos + 1)
            } else {
                None
            },
            ElementView::Or => if last == Some(false) && pos + 1 < e.len() && e[pos + 1]
                is Command {
                Some(pos + 1)
            } else {
                None
            },
            ElementView::Pipe => None,
        }
    }
}

/// What a builtin asks for.
pub open spec fn builtin_action(
    kind: BuiltinKind,
    args: Seq<Seq<char>>,
    cwd: Seq<char>,
    history: Seq<Seq<char>>,
) -> ActionView {
    match kind {
        BuiltinKind::Cd => if args.len() == 1 {
            ActionView::ChangeDir { path: resolved_path(cwd, args[0]) }
        } else {
            ActionView::Report { error: BuiltinError::WrongArgumentCount }
        },
        BuiltinKind::Exit => ActionView::Exit { status: exit_status(args) as i32 },
        BuiltinKind::History => ActionView::Emit {
            exit_status: 0,
            stdout: encode_utf8(log_text(history)),
            stderr: Seq::empty(),
        },
    }
}

/// What running `commands` as one pipeline asks for.  A command that
/// stands alone and names a builtin is run by the shell; anything else is
/// spawned.
pub open spec fn pipeline_action(
    commands: Seq<CommandView>,
    cwd: Seq<char>,
    history: Seq<Seq<char>>,
) -> ActionView {
    if commands.len() == 1 {
        match builtin_of(commands[0].binary) {
            Some(kind) => builtin_action(kind, commands[0].args, cwd, history),
            None => ActionView::Spawn { commands },
        }
    } else {
        ActionView::Spawn { commands }
    }
}

/// The next action in a chain and the position behind it.  Once an exit
/// was requested nothing more runs.
pub open spec fn planned(
    e: Seq<ElementView>,
    cwd: Seq<char>,
    history: Seq<Seq<char>>,
    exiting: bool,
    pos: int,
    last: Option<bool>,
) -> (ActionView, int) {
    match next_start(e, pos, last) {
        Some(start) if !exiting => (
            pipeline_action(pipeline_commands(e, start), cwd, history),
            pipeline_end(e, start),
        ),
        _ => (ActionView::Finished, e.len() as int),
    }
}

/// The outcome that the next operator goes by, once `action` was carried
/// out and ended with `status` (`None` where it could not be carried out).
pub open spec fn settled(action: ActionView, status: Option<i32>) -> Option<bool> {
    match action {
        ActionView::Spawn { .. } => Some(status == Some(0i32)),
        ActionView::ChangeDir { .. } => Some(status == Some(0i32)),
        ActionView::Emit { exit_status, .. } => Some(exit_status == 0),
        ActionView::Report { .. } => Some(false),
        ActionView::Exit { .. } => None,
        ActionView::Finished => None,
    }
}

/// In a well-formed chain a pipeline ends within the chain, and behind it
/// the walk stops only at the end of the chain, at `&&` after a failure or
/// at `||` after a success: no operator is ever met without a command on
/// either side of it.  Where the walk goes on, it goes on with the command
/// that follows.
pub proof fn lemma_walk_stops_only_by_rule(e: Seq<ElementView>, start: int, ok: bool)
    requires
        well_formed(e),
        0 <= start < e.len(),
        e[start] is Command,
    ensures
        start < pipeline_end(e, start) <= e.len(),
        next_start(e, pipeline_end(e, start), Some(ok)) is None <==> {
            let end = pipeline_end(e, start);
            end == e.len() || (e[end] is And && !ok) || (e[end] is Or && ok)
        },
        next_start(e, pipeline_end(e, start), Some(ok)) is Some ==> {
            let end = pipeline_end(e, start);
            next_start(e, end, Some(ok)) == Some(
                if e[end] is Command {
                    end
                } else {
                    end + 1
                },
            )
        },
    decreases e.len() - start,
{
    if piped_on(e, start) {
        lemma_walk_stops_only_by_rule(e, start + 2, ok);
    }
}

/// The first pipeline of a well-formed chain starts at its first element.
pub proof fn lemma_walk_starts(e: Seq<ElementView>)
    requires
        well_formed(e),
    ensures
        next_start(e, 0, None) == Some(0int),
{
}

/// Finds where the next pipeline starts.
pub fn find_start(chain: &Chain, pos: usize, last: Option<bool>) -> (r: Option<usize>)
    ensures
        match r {
            Some(s) => next_start(chain@, pos as int, last) == Some(s as int) && s < chain@.len(),
            None => next_start(chain@, pos as int, last) is None,
        },
{
    let els = chain.elements();
    let n: usize = els.len();
    if pos >= n {
        return None;
    }
    match &els[pos] {
        Element::Command(_) => Some(pos),
        Element::And => {
            if matches!(last, Some(true)) && n - pos > 1 && !els[pos + 1].is_operator() {
                Some(pos + 1)
            } else {
                None
            }
        },
        Element::Or => {
            if matches!(last, Some(false)) && n - pos > 1 && !els[pos + 1].is_operator() {
                Some(pos + 1)
            } else {
                None
            }
        },
        Element::Pipe => None,
    }
}

/// Collects the commands of the pipeline that starts at `start`, and finds
/// the position behind it.
pub(crate) fn gather_pipeline(chain: &Chain, start: usize) -> (r: (Vec<Command>, usize))
    requires
        start < chain@.len(),
        chain@[start as int] is Command,
    ensures
        command_views(r.0@) == pipeline_commands(chain@, start as int),
        r.1 == pipeline_end(chain@, start as int),
        start < r.1 <= chain@.len(),
        r.0@.len() >= 1,
{
    let els = chain.elements();
    let n: usize = els.len();
    let ghost e = chain@;
    let mut commands: Vec<Command> = Vec::new();
    let mut cur: usize = start;
    let mut done: bool = false;
    while !done
        invariant
            n == els@.len(),
            e == chain@,
            e == element_views(els@),
            start <= cur < n,
            e[cur as int] is Command,
            !done ==> pipeline_end(e, start as int) == pipeline_end(e, cur as int),
            !done ==> pipeline_commands(e, start as int) == command_views(commands@)
                + pipeline_commands(e, cur as int),
            done ==> pipeline_end(e, start as int) == cur + 1,
            done ==> pipeline_commands(e, start as int) == command_views(commands@),
            done ==> commands@.len() >= 1,
        decreases n - cur + (if done { 0int } else { 1int }),
    {
        match &els[cur] {
            Element::Command(c) => {
                let copy = c.clone();
                commands.push(copy);
            },
            _ => {},
        }
        if n - cur > 2 {
            let piped: bool = matches!(els[cur + 1], Element::Pipe) && !els[cur + 2].is_operator();
            if piped {
                cur += 2;
            } else {
                done = true;
            }
        } else {
            done = true;
        }
    }
    (commands, cur + 1)
}

/// Decides what a builtin does with its arguments.
pub fn run_builtin(kind: BuiltinKind, args: &Vec<String>, state: &ShellState) -> (r: Action)
    ensures
        r@ == builtin_action(kind, texts(args@), state.cwd@, texts(state.history@)),
{
    match kind {
        BuiltinKind::Cd => match cd_target(state.cwd.as_str(), args) {
            Ok(path) => Action::ChangeDir { path },
            Err(error) => Action::Report { error },
        },
        BuiltinKind::Exit => Action::Exit { status: exit_code(args) },
        BuiltinKind::History => {
            let outcome = state.history_outcome();
            proof {
                assert(outcome.stderr_bytes@ =~= Seq::<u8>::empty());
            }
            Action::Emit { outcome }
        },
    }
}

/// Decides how the commands of one pipeline are run.
pub fn plan_pipeline(commands: Vec<Command>, state: &ShellState) -> (r: Action)
    ensures
        r@ == pipeline_action(command_views(commands@), state.cwd@, texts(state.history@)),
{
    if commands.len() == 1 {
        match resolve(commands[0].binary.as_str()) {
            Some(kind) => run_builtin(kind, &commands[0].args, state),
            None => Action::Spawn { commands },
        }
    } else {
        Action::Spawn { commands }
    }
}

/// Decides what happens next in `chain`, seen from the position `pos`
/// behind the pipeline that ended with `last`, and gives the position
/// behind it.  A walk starts at position 0 with no outcome.
pub fn step(chain: &Chain, state: &ShellState, pos: usize, last: Option<bool>) -> (r: (
    Action,
    usize,
))
    ensures
        (r.0@, r.1 as int) == planned(
            chain@,
            state.cwd@,
            texts(state.history@),
            state.exit_requested is Some,
            pos as int,
            last,
        ),
        r.1 <= chain@.len(),
        !(r.0@ is Finished) ==> pos < r.1,
{
    if state.exit_requested.is_some() {
        return (Action::Finished, chain.len());
    }
    match find_start(chain, pos, last) {
        None => (Action::Finished, chain.len()),
        Some(start) => {
            let (commands, end) = gather_pipeline(chain, start);
            (plan_pipeline(commands, state), end)
        },
    }
}

/// Takes note of how `action` ended: `status` is the exit status of what
/// was run, 0 for a directory that was changed, and `None` where the
/// action could not be carried out.  A changed directory becomes the
/// working directory, an exit is recorded as requested, and the result is
/// the outcome that the next operator goes by.
pub fn settle(state: &mut ShellState, action: &Action, status: Option<i32>) -> (r: Option<bool>)
    ensures
        r == settled(action@, status),
        final(state).history == old(state).history,
        final(state).cwd@ == (if action@ is ChangeDir && status == Some(0i32) {
            action@->ChangeDir_path
        } else {
            old(state).cwd@
        }),
        final(state).exit_requested == (if action@ is Exit {
            Some(action@->Exit_status)
        } else {
            old(state).exit_requested
        }),
{
    let ok: bool = matches!(status, Some(0));
    match action {
        Action::Spawn { .. } => Some(ok),
        Action::ChangeDir { path } => {
            if ok {
                state.cwd = path.clone();
            }
            Some(ok)
        },
        Action::Emit { outcome } => Some(outcome.success()),
        Action::Report { .. } => Some(false),
        Action::Exit { status } => {
            state.exit_requested = Some(*status);
            None
        },
        Action::Finished => None,
    }
}

} // verus!
