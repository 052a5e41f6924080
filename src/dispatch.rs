use vstd::prelude::*;

use crate::entry::{copy_strings, Run, RunView};
use crate::text::strings_view;

verus! {

/// Whether and how shell commands run.
#[derive(Clone, Copy, Debug, PartialEq, Eq, Structural)]
pub enum ShellMode {
    /// Shell commands are not run.
    Disabled,
    /// The command line is the shell's last argument.
    Argv,
    /// The command line is written to the shell's input.
    Piped,
}

/// The shell that runs shell commands, and how.
#[derive(Debug, PartialEq, Eq)]
pub struct Shell {
    pub mode: ShellMode,
    /// The interpreter.
    pub program: String,
    /// The arguments it is always given.
    pub args: Vec<String>,
}

/// A process to start, or the reason none is.
#[derive(Debug, PartialEq, Eq)]
pub enum Launch {
    /// Nothing to start: the action names no program.
    Nothing,
    /// Start `program` with `args`.
    Spawn { program: String, args: Vec<String> },
    /// Start `program` with `args` and write `input` to its standard input.
    Pipe { program: String, args: Vec<String>, input: String },
    /// A shell command that is not run, since the shell is disabled.
    Blocked(String),
}

/// A `Launch` as plain values.
pub ghost enum LaunchView {
    Nothing,
    Spawn { program: Seq<char>, args: Seq<Seq<char>> },
    Pipe { program: Seq<char>, args: Seq<Seq<char>>, input: Seq<char> },
    Blocked(Seq<char>),
}

impl View for Launch {
    type V = LaunchView;

    open spec fn view(&self) -> LaunchView {
        match self {
            Launch::Nothing => LaunchView::Nothing,
            Launch::Spawn { program, args } => LaunchView::Spawn {
                program: program@,
                args: strings_view(args@),
            },
            Launch::Pipe { program, args, input } => LaunchView::Pipe {
                program: program@,
                args: strings_view(args@),
                input: input@,
            },
            Launch::Blocked(line) => LaunchView::Blocked(line@),
        }
    }
}

/// What running `run` starts under the shell `mode`, `program` and `args`: a bare
/// action starts its first word with the others as arguments; a shell command is
/// blocked, handed to the shell as its last argument, or written to its input.
pub open spec fn launch_of(
    run: RunView,
    mode: ShellMode,
    program: Seq<char>,
    args: Seq<Seq<char>>,
) -> LaunchView {
    match run {
        RunView::Bare(words) => if words.len() == 0 {
            LaunchView::Nothing
        } else {
            LaunchView::Spawn { program: words[0], args: words.drop_first() }
        },
        RunView::Shell(line) => match mode {
            ShellMode::Disabled => LaunchView::Blocked(line),
            ShellMode::Argv => LaunchView::Spawn { program, args: args.push(line) },
            ShellMode::Piped => LaunchView::Pipe { program, args, input: line },
        },
    }
}

/// What running `run` starts under `shell`.
pub fn plan_launch(run: &Run, shell: &Shell) -> (r: Launch)
    ensures
        r@ == launch_of(run@, shell.mode, shell.program@, strings_view(shell.args@)),
{
    match run {
        Run::Bare(words) => {
            if words.len() == 0 {
                Launch::Nothing
            } else {
                let mut args: Vec<String> = Vec::new();
                let mut i: usize = 1;
                while i < words.len()
                    invariant
                        1 <= i <= words.len(),
                        args.len() == i - 1,
                        forall|k: int| 0 <= k < i - 1 ==> #[trigger] args@[k]@ == words@[k + 1]@,
                    decreases words.len() - i,
                {
                    args.push(words[i].clone());
                    i = i + 1;
                }
                proof {
                    assert(strings_view(args@) =~= strings_view(words@).drop_first());
                }
                Launch::Spawn { program: words[0].clone(), args }
            }
        },
        Run::Shell(line) => match shell.mode {
            ShellMode::Disabled => Launch::Blocked(line.clone()),
            ShellMode::Argv => {
                let mut args = copy_strings(&shell.args);
                args.push(line.clone());
                proof {
                    assert(strings_view(args@) =~= strings_view(shell.args@).push(line@));
                }
                Launch::Spawn { program: shell.program.clone(), args }
            },
            ShellMode::Piped => Launch::Pipe {
                program: shell.program.clone(),
                args: copy_strings(&shell.args),
                input: line.clone(),
            },
        },
    }
}

} // verus!
