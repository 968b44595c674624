//! What the command line front ends decide and print.
//!
//! `doctor` and `check` only read. `setup`, `fix` and `install` change the
//! environment, and each shares its flow with the matching editor action so the
//! terminal and the editor cannot disagree about what a command does.

pub mod commands;
pub mod doctor;
pub mod page;
pub mod repin;

use vstd::prelude::*;

use crate::text;

verus! {

/// What the first argument asks for.
#[derive(Debug, Clone, Copy, PartialEq, Eq, Structural)]
pub enum Mode {
    /// Run as a language server over stdio.
    Lsp,
    Doctor,
    Setup,
    Check,
    Fix,
    Install,
    UpdateData,
    MigrateConda,
    Version,
    Help,
}

/// The mode a word names.
pub open spec fn mode_of(word: Seq<char>) -> Option<Mode> {
    if word == "lsp"@ {
        Some(Mode::Lsp)
    } else if word == "doctor"@ {
        Some(Mode::Doctor)
    } else if word == "setup"@ {
        Some(Mode::Setup)
    } else if word == "check"@ {
        Some(Mode::Check)
    } else if word == "fix"@ {
        Some(Mode::Fix)
    } else if word == "install"@ {
        Some(Mode::Install)
    } else if word == "update-data"@ {
        Some(Mode::UpdateData)
    } else if word == "migrate-conda"@ {
        Some(Mode::MigrateConda)
    } else if word == "--version"@ || word == "-V"@ || word == "version"@ {
        Some(Mode::Version)
    } else if word == "--help"@ || word == "-h"@ || word == "help"@ {
        Some(Mode::Help)
    } else {
        None
    }
}

/// Read the mode; without a word it is `doctor`.
pub fn mode(word: Option<&str>) -> (r: Option<Mode>)
    ensures
        r == match word {
            Some(w) => mode_of(w@),
            None => Some(Mode::Doctor),
        },
{
    let word = match word {
        Some(w) => w,
        None => return Some(Mode::Doctor),
    };
    if text::same(word, "lsp") {
        Some(Mode::Lsp)
    } else if text::same(word, "doctor") {
        Some(Mode::Doctor)
    } else if text::same(word, "setup") {
        Some(Mode::Setup)
    } else if text::same(word, "check") {
        Some(Mode::Check)
    } else if text::same(word, "fix") {
        Some(Mode::Fix)
    } else if text::same(word, "install") {
        Some(Mode::Install)
    } else if text::same(word, "update-data") {
        Some(Mode::UpdateData)
    } else if text::same(word, "migrate-conda") {
        Some(Mode::MigrateConda)
    } else if text::same(word, "--version") || text::same(word, "-V") || text::same(
        word,
        "version",
    ) {
        Some(Mode::Version)
    } else if text::same(word, "--help") || text::same(word, "-h") || text::same(word, "help") {
        Some(Mode::Help)
    } else {
        None
    }
}

pub open spec fn is_path_flag(arg: Seq<char>) -> bool {
    arg == "--path"@ || arg == "-p"@
}

fn path_flag(arg: &str) -> (r: bool)
    ensures
        r == is_path_flag(arg@),
{
    text::same(arg, "--path") || text::same(arg, "-p")
}

/// The first argument from the `i`th on that is not a flag or a flag's value.
pub open spec fn positional_from(args: Seq<Seq<char>>, i: int) -> Option<Seq<char>>
    decreases args.len() - i,
{
    if i < 0 || i >= args.len() {
        None
    } else if is_path_flag(args[i]) {
        if i + 1 < args.len() {
            positional_from(args, i + 2)
        } else {
            None
        }
    } else if args[i].len() > 0 && args[i][0] == '-' {
        positional_from(args, i + 1)
    } else {
        Some(args[i])
    }
}

/// First argument that is not a flag or a flag's value.
pub fn positional(args: &[String]) -> (r: Option<String>)
    ensures
        text::opt_text(r) == positional_from(text::texts(args@), 0),
{
    let ghost all = text::texts(args@);
    let mut i: usize = 0;
    while i < args.len()
        invariant
            i <= args@.len(),
            all == text::texts(args@),
            positional_from(all, 0) == positional_from(all, i as int),
        decreases args@.len() - i,
    {
        let arg = args[i].as_str();
        proof {
            assert(all[i as int] == arg@);
        }
        if path_flag(arg) {
            if args.len() - i >= 2 {
                i += 2;
            } else {
                return None;
            }
        } else if arg.unicode_len() > 0 && arg.get_char(0) == '-' {
            i += 1;
        } else {
            return Some(arg.to_string());
        }
    }
    None
}

/// The directory the arguments from the `i`th on name as the workspace.
pub open spec fn path_from(args: Seq<Seq<char>>, i: int) -> Option<Seq<char>>
    decreases args.len() - i,
{
    if i < 0 || i >= args.len() {
        None
    } else if is_path_flag(args[i]) {
        if i + 1 < args.len() {
            Some(args[i + 1])
        } else {
            None
        }
    } else if text::starts(args[i], "--path="@) {
        Some(args[i].skip("--path="@.len() as int))
    } else {
        path_from(args, i + 1)
    }
}

/// Workspace directory from `--path <dir>`, if it is given; else the current
/// directory is meant.
pub fn workspace_from_args(args: &[String]) -> (r: Option<String>)
    ensures
        text::opt_text(r) == path_from(text::texts(args@), 0),
{
    let ghost all = text::texts(args@);
    let mut i: usize = 0;
    while i < args.len()
        invariant
            i <= args@.len(),
            all == text::texts(args@),
            path_from(all, 0) == path_from(all, i as int),
        decreases args@.len() - i,
    {
        let arg = args[i].as_str();
        proof {
            assert(all[i as int] == arg@);
        }
        if path_flag(arg) {
            if args.len() - i >= 2 {
                proof {
                    assert(all[i as int + 1] == args@[i as int + 1]@);
                }
                return Some(args[i + 1].clone());
            }
            return None;
        }
        if let Some(dir) = text::strip_prefix(arg, "--path=") {
            return Some(dir.to_string());
        }
        i += 1;
    }
    None
}

/// What a command is to do.
#[derive(Debug, PartialEq, Eq)]
pub enum Task {
    Doctor,
    Setup,
    Check(String),
    FixPython,
    FixCuda,
    Install(String),
    UpdateData,
    MigrateConda,
}

/// A task, mathematically.
#[verifier::ext_equal]
pub enum TaskView {
    Doctor,
    Setup,
    Check(Seq<char>),
    FixPython,
    FixCuda,
    Install(Seq<char>),
    UpdateData,
    MigrateConda,
}

impl View for Task {
    type V = TaskView;

    open spec fn view(&self) -> TaskView {
        match *self {
            Task::Doctor => TaskView::Doctor,
            Task::Setup => TaskView::Setup,
            Task::Check(p) => TaskView::Check(p@),
            Task::FixPython => TaskView::FixPython,
            Task::FixCuda => TaskView::FixCuda,
            Task::Install(p) => TaskView::Install(p@),
            Task::UpdateData => TaskView::UpdateData,
            Task::MigrateConda => TaskView::MigrateConda,
        }
    }
}

pub open spec fn unknown_target(other: Seq<char>) -> Seq<char> {
    "unknown target `"@ + other + "`. Try `pypilot fix python` or `pypilot fix cuda`."@
}

/// The task a mode and its arguments ask for, or why they ask for none.
pub open spec fn task_of(mode: Mode, args: Seq<Seq<char>>) -> Result<TaskView, Seq<char>> {
    let word = positional_from(args, 0);
    match mode {
        Mode::Doctor => Ok(TaskView::Doctor),
        Mode::Setup => Ok(TaskView::Setup),
        Mode::UpdateData => Ok(TaskView::UpdateData),
        Mode::MigrateConda => Ok(TaskView::MigrateConda),
        Mode::Check => match word {
            Some(package) => Ok(TaskView::Check(package)),
            None => Err("usage: pypilot check <package>"@),
        },
        Mode::Install => match word {
            Some(package) => Ok(TaskView::Install(package)),
            None => Err("usage: pypilot install <package>"@),
        },
        Mode::Fix => match word {
            None => Ok(TaskView::FixPython),
            Some(what) => if what == "python"@ {
                Ok(TaskView::FixPython)
            } else if what == "cuda"@ {
                Ok(TaskView::FixCuda)
            } else {
                Err(unknown_target(what))
            },
        },
        Mode::Lsp => Err("not a command"@),
        Mode::Version => Err("not a command"@),
        Mode::Help => Err("not a command"@),
    }
}

/// Work out the task of a mode.
pub fn task(mode: Mode, args: &[String]) -> (r: Result<Task, String>)
    ensures
        match r {
            Ok(t) => task_of(mode, text::texts(args@)) == Ok::<TaskView, Seq<char>>(t@),
            Err(e) => task_of(mode, text::texts(args@)) == Err::<TaskView, Seq<char>>(e@),
        },
{
    match mode {
        Mode::Doctor => Ok(Task::Doctor),
        Mode::Setup => Ok(Task::Setup),
        Mode::UpdateData => Ok(Task::UpdateData),
        Mode::MigrateConda => Ok(Task::MigrateConda),
        Mode::Check => match positional(args) {
            Some(package) => Ok(Task::Check(package)),
            None => Err("usage: pypilot check <package>".to_string()),
        },
        Mode::Install => match positional(args) {
            Some(package) => Ok(Task::Install(package)),
            None => Err("usage: pypilot install <package>".to_string()),
        },
        Mode::Fix => match positional(args) {
            None => Ok(Task::FixPython),
            Some(what) => if text::same(what.as_str(), "python") {
                Ok(Task::FixPython)
            } else if text::same(what.as_str(), "cuda") {
                Ok(Task::FixCuda)
            } else {
                let mut e = "unknown target `".to_string();
                e.append(what.as_str());
                e.append("`. Try `pypilot fix python` or `pypilot fix cuda`.");
                Err(e)
            },
        },
        Mode::Lsp | Mode::Version | Mode::Help => Err("not a command".to_string()),
    }
}

/// Whether a mode is a command, as against the server and the notices.
pub open spec fn is_command(mode: Mode) -> bool {
    !(mode is Lsp) && !(mode is Version) && !(mode is Help)
}

/// What an unknown command is answered.
pub open spec fn unknown_command(word: Seq<char>) -> Seq<char> {
    "unknown CLI mode `"@ + word + "`"@
}

/// The task a command and its arguments ask for. A word that is no command asks
/// for none, and the answer names it.
pub open spec fn dispatch_of(word: Seq<char>, args: Seq<Seq<char>>) -> Result<TaskView, Seq<char>> {
    match mode_of(word) {
        Some(mode) => if is_command(mode) {
            task_of(mode, args)
        } else {
            Err(unknown_command(word))
        },
        None => Err(unknown_command(word)),
    }
}

/// Work out the task of a command.
pub fn dispatch(word: &str, args: &[String]) -> (r: Result<Task, String>)
    ensures
        match r {
            Ok(t) => dispatch_of(word@, text::texts(args@)) == Ok::<TaskView, Seq<char>>(t@),
            Err(e) => dispatch_of(word@, text::texts(args@)) == Err::<TaskView, Seq<char>>(e@),
        },
{
    match mode(Some(word)) {
        Some(Mode::Lsp) | Some(Mode::Version) | Some(Mode::Help) | None => {
            let mut e = "unknown CLI mode `".to_string();
            e.append(word);
            e.append("`");
            Err(e)
        },
        Some(mode) => task(mode, args),
    }
}

/// What is said of a word that names no mode.
pub fn unknown_mode(word: &str) -> (r: String)
    ensures
        r@ == "pypilot: unknown mode `"@ + word@ + "`\n"@,
{
    let mut s = "pypilot: unknown mode `".to_string();
    s.append(word);
    s.append("`\n");
    s
}

/// The argument of a command is the first that is no flag, wherever the flags stand.
pub proof fn flags_are_passed_over(args: Seq<Seq<char>>, i: int, k: int)
    requires
        0 <= i <= k < args.len(),
        args[k].len() > 0,
        args[k][0] != '-',
        forall|j: int|
            i <= j < k ==> (#[trigger] args[j]).len() > 0 && args[j][0] == '-' && args[j]
                != "--path"@ && args[j] != "-p"@,
    ensures
        positional_from(args, i) == Some(args[k]),
    decreases k - i,
{
    reveal_strlit("--path");
    reveal_strlit("-p");
    if i < k {
        flags_are_passed_over(args, i + 1, k);
    } else {
        assert("--path"@[0] == '-' && "-p"@[0] == '-');
    }
}

/// The value of the path flag is no argument of the command, and is the workspace.
pub proof fn paths_are_no_arguments(args: Seq<Seq<char>>, flag: Seq<char>, dir: Seq<char>)
    requires
        flag == "--path"@ || flag == "-p"@,
    ensures
        positional_from(seq![flag, dir] + args, 0) == positional_from(args, 0),
        path_from(seq![flag, dir] + args, 0) == Some(dir),
        path_from(seq!["--path="@ + dir] + args, 0) == Some(dir),
{
    reveal_strlit("--path=");
    reveal_strlit("--path");
    reveal_strlit("-p");
    let all = seq![flag, dir] + args;
    assert(all[0] == flag && all[1] == dir);
    lemma_positional_shift(all, args, 0);
    let one = seq!["--path="@ + dir] + args;
    assert(one[0] == "--path="@ + dir);
    assert(one[0].take(7) =~= "--path="@);
    assert(one[0].skip(7) =~= dir);
    assert(one[0].len() >= 7 && "--path"@.len() == 6 && "-p"@.len() == 2);
}

proof fn lemma_positional_shift(all: Seq<Seq<char>>, args: Seq<Seq<char>>, i: int)
    requires
        0 <= i,
        all.len() == args.len() + 2,
        forall|j: int| 0 <= j < args.len() ==> all[j + 2] == #[trigger] args[j],
    ensures
        positional_from(all, i + 2) == positional_from(args, i),
    decreases args.len() - i,
{
    if i < args.len() {
        assert(all[i + 2] == args[i]);
        if is_path_flag(args[i]) {
            if i + 1 < args.len() {
                lemma_positional_shift(all, args, i + 2);
            }
        } else {
            lemma_positional_shift(all, args, i + 1);
        }
    }
}

/// The commands that take a package ask for the one they are given, and say how they are
/// used where they are given none.
pub proof fn commands_ask_for_what_they_are_given(package: Seq<char>)
    requires
        package.len() > 0,
        package[0] != '-',
    ensures
        dispatch_of("check"@, seq![package]) == Ok::<TaskView, Seq<char>>(TaskView::Check(package)),
        dispatch_of("install"@, seq![package]) == Ok::<TaskView, Seq<char>>(
            TaskView::Install(package),
        ),
        dispatch_of("check"@, seq![]) is Err,
        dispatch_of("install"@, seq![]) is Err,
        dispatch_of("fix"@, seq![]) == Ok::<TaskView, Seq<char>>(TaskView::FixPython),
        dispatch_of("fix"@, seq!["python"@]) == Ok::<TaskView, Seq<char>>(TaskView::FixPython),
        dispatch_of("fix"@, seq!["cuda"@]) == Ok::<TaskView, Seq<char>>(TaskView::FixCuda),
        package != "python"@ && package != "cuda"@ ==> dispatch_of("fix"@, seq![package]) is Err,
{
    reveal_strlit("lsp");
    reveal_strlit("doctor");
    reveal_strlit("setup");
    reveal_strlit("check");
    reveal_strlit("fix");
    reveal_strlit("install");
    reveal_strlit("python");
    reveal_strlit("cuda");
    assert("check"@[0] == 'c' && "fix"@[0] == 'f' && "install"@[0] == 'i' && "lsp"@[0] == 'l'
        && "doctor"@[0] == 'd' && "setup"@[0] == 's');
    assert("python"@[0] == 'p' && "cuda"@[0] == 'c');
    flags_are_passed_over(seq![package], 0, 0);
    flags_are_passed_over(seq!["python"@], 0, 0);
    flags_are_passed_over(seq!["cuda"@], 0, 0);
}

} // verus!
