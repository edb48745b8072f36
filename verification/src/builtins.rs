//! Builtin dispatcher: the commands that the shell runs itself.
//!
//! A builtin takes its arguments and the shell's state and gives back
//! what it prints and what the shell does next. Where a builtin needs the
//! system (the working directory, the file system, a signal, a wait), it
//! comes in two halves: the first says what is needed, the second takes
//! what came of it.

use vstd::prelude::*;
use vstd::string::StringExecFns;
use crate::env::Environment;
use crate::help::{help_text, help_text_spec, HELP_OVERVIEW};
use crate::job_control::WaitOutcome;
use crate::jobs::{done_line, done_report, Job, JobStatus, JobTable, JobTableView, JobView};
use crate::text::{
    chars_of,
    decimal,
    parse_i32,
    parse_i32_spec,
    parse_usize,
    parse_usize_spec,
    push_chars,
    push_decimal,
    push_str,
    slice_chars,
    str_eq,
    string_of,
};

verus! {

/// What the shell does after a builtin has run.
#[derive(Debug, Clone, Copy, PartialEq, Eq, Structural)]
pub enum BuiltinAction {
    /// Go on, with this exit code.
    Continue(i32),
    /// Leave the shell, with this exit code.
    Exit(i32),
}

/// What a builtin gives back: what the shell does next, and what goes to
/// the builtin's stdout and stderr.
#[derive(Debug)]
pub struct BuiltinOutput {
    pub action: BuiltinAction,
    pub stdout: String,
    pub stderr: String,
}

/// The mathematical value of a [`BuiltinOutput`].
pub struct OutputView {
    pub action: BuiltinAction,
    pub stdout: Seq<char>,
    pub stderr: Seq<char>,
}

impl View for BuiltinOutput {
    type V = OutputView;

    open spec fn view(&self) -> OutputView {
        OutputView { action: self.action, stdout: self.stdout@, stderr: self.stderr@ }
    }
}

impl OutputView {
    /// Success with a text on stdout.
    pub open spec fn printed(stdout: Seq<char>) -> OutputView {
        OutputView { action: BuiltinAction::Continue(0), stdout, stderr: Seq::empty() }
    }

    /// Failure, with exit code 1 and a text on stderr.
    pub open spec fn failed(stderr: Seq<char>) -> OutputView {
        OutputView { action: BuiltinAction::Continue(1), stdout: Seq::empty(), stderr }
    }
}

fn printed(stdout: String) -> (r: BuiltinOutput)
    ensures
        r@ == OutputView::printed(stdout@),
{
    BuiltinOutput { action: BuiltinAction::Continue(0), stdout, stderr: String::new() }
}

fn failed(stderr: String) -> (r: BuiltinOutput)
    ensures
        r@ == OutputView::failed(stderr@),
{
    BuiltinOutput { action: BuiltinAction::Continue(1), stdout: String::new(), stderr }
}

/// `a`, `b` and `c` in one string.
fn concat3(a: &str, b: &str, c: &str) -> (r: String)
    ensures
        r@ == a@ + b@ + c@,
{
    let mut out = String::from_str(a);
    out.append(b);
    out.append(c);
    out
}

/// Whether `name` is the name of a builtin.
pub open spec fn is_builtin_spec(name: Seq<char>) -> bool {
    name == "cd"@ || name == "pwd"@ || name == "exit"@ || name == "echo"@ || name == "export"@
        || name == "unset"@ || name == "type"@ || name == "jobs"@ || name == "fg"@ || name == "bg"@
        || name == "wait"@ || name == "help"@
}

/// Whether `name` is a builtin that changes the state of the shell: its
/// directory, its environment or its jobs.
pub open spec fn is_stateful_spec(name: Seq<char>) -> bool {
    name == "cd"@ || name == "export"@ || name == "unset"@ || name == "fg"@ || name == "bg"@
}

/// Returns true if the command name is a shell builtin.
pub fn is_builtin(name: &str) -> (r: bool)
    ensures
        r == is_builtin_spec(name@),
{
    str_eq(name, "cd") || str_eq(name, "pwd") || str_eq(name, "exit") || str_eq(name, "echo")
        || str_eq(name, "export") || str_eq(name, "unset") || str_eq(name, "type") || str_eq(
        name,
        "jobs",
    ) || str_eq(name, "fg") || str_eq(name, "bg") || str_eq(name, "wait") || str_eq(name, "help")
}

/// Returns true if the builtin changes the shell's own state, so that it
/// cannot run anywhere but on the shell's thread.
pub fn is_stateful_builtin(name: &str) -> (r: bool)
    ensures
        r == is_stateful_spec(name@),
{
    str_eq(name, "cd") || str_eq(name, "export") || str_eq(name, "unset") || str_eq(name, "fg")
        || str_eq(name, "bg")
}

// ── echo, exit, help ─────────────────────────────────────────────────────

/// The texts joined by single spaces.
pub open spec fn join_spaced(args: Seq<Seq<char>>) -> Seq<char>
    decreases args.len(),
{
    if args.len() == 0 {
        Seq::empty()
    } else if args.len() == 1 {
        args[0]
    } else {
        join_spaced(args.drop_last()) + seq![' '] + args.last()
    }
}

/// `echo`: prints the arguments joined by single spaces, and a newline.
pub fn builtin_echo(args: &[String]) -> (r: BuiltinOutput)
    ensures
        r@ == OutputView::printed(join_spaced(args.deep_view()) + seq!['\n']),
{
    let ghost texts = args.deep_view();
    let mut out: Vec<char> = Vec::new();
    let mut i: usize = 0;
    assert(out@ =~= join_spaced(texts.take(0)));
    while i < args.len()
        invariant
            i <= args.len(),
            texts == args.deep_view(),
            out@ == join_spaced(texts.take(i as int)),
        decreases args.len() - i,
    {
        let ghost before = out@;
        if i > 0 {
            out.push(' ');
        }
        push_str(&mut out, args[i].as_str());
        proof {
            assert(texts.take(i + 1).drop_last() =~= texts.take(i as int));
            assert(texts.take(i + 1).last() == args[i as int]@);
            if i == 0 {
                assert(before =~= Seq::<char>::empty());
                assert(texts.take(1)[0] == args[0]@);
                assert(out@ =~= args[0]@);
            } else {
                assert(out@ =~= before + seq![' '] + args[i as int]@);
            }
        }
        i += 1;
    }
    assert(texts.take(i as int) =~= texts);
    out.push('\n');
    assert(out@ =~= join_spaced(texts) + seq!['\n']);
    printed(string_of(&out))
}

/// What `exit` gives back: it leaves the shell with the code that the
/// first argument spells, with 0 if there is none, and with 2 and a
/// message if the argument is no number.
pub open spec fn exit_spec(args: Seq<Seq<char>>) -> OutputView {
    if args.len() == 0 {
        OutputView { action: BuiltinAction::Exit(0), stdout: Seq::empty(), stderr: Seq::empty() }
    } else {
        match parse_i32_spec(args[0]) {
            Some(code) => OutputView {
                action: BuiltinAction::Exit(code),
                stdout: Seq::empty(),
                stderr: Seq::empty(),
            },
            None => OutputView {
                action: BuiltinAction::Exit(2),
                stdout: Seq::empty(),
                stderr: "exit: "@ + args[0] + ": numeric argument required\n"@,
            },
        }
    }
}

/// `exit [n]`.
pub fn builtin_exit(args: &[String]) -> (r: BuiltinOutput)
    ensures
        r@ == exit_spec(args.deep_view()),
{
    if args.len() == 0 {
        return BuiltinOutput {
            action: BuiltinAction::Exit(0),
            stdout: String::new(),
            stderr: String::new(),
        };
    }
    assert(args.deep_view()[0] == args[0]@);
    match parse_i32(args[0].as_str()) {
        Some(code) => BuiltinOutput {
            action: BuiltinAction::Exit(code),
            stdout: String::new(),
            stderr: String::new(),
        },
        None => BuiltinOutput {
            action: BuiltinAction::Exit(2),
            stdout: String::new(),
            stderr: concat3("exit: ", args[0].as_str(), ": numeric argument required\n"),
        },
    }
}

/// What `help` gives back: the overview without an argument, the text of
/// the topic that the first argument names, or a failure for a word that
/// names none.
pub open spec fn help_spec(args: Seq<Seq<char>>) -> OutputView {
    if args.len() == 0 {
        OutputView::printed(HELP_OVERVIEW@)
    } else {
        match help_text_spec(args[0]) {
            Some(text) => OutputView::printed(text),
            None => OutputView::failed("help: no help for '"@ + args[0] + "'\n"@),
        }
    }
}

/// `help [topic]`.
pub fn builtin_help(args: &[String]) -> (r: BuiltinOutput)
    ensures
        r@ == help_spec(args.deep_view()),
{
    if args.len() == 0 {
        return printed(String::from_str(HELP_OVERVIEW));
    }
    assert(args.deep_view()[0] == args[0]@);
    match help_text(args[0].as_str()) {
        Some(text) => printed(String::from_str(text)),
        None => failed(concat3("help: no help for '", args[0].as_str(), "'\n")),
    }
}

// ── export, unset ────────────────────────────────────────────────────────

/// The place of the first `=` in `s`, or the length of `s`.
pub open spec fn equals_at(s: Seq<char>) -> int
    decreases s.len(),
{
    if s.len() == 0 || s[0] == '=' {
        0
    } else {
        1 + equals_at(s.skip(1))
    }
}

/// The variables after `export` has taken the arguments: each `NAME=value`
/// sets a variable, in order.
pub open spec fn export_vars(vars: Map<Seq<char>, Seq<char>>, args: Seq<Seq<char>>) -> Map<
    Seq<char>,
    Seq<char>,
>
    decreases args.len(),
{
    if args.len() == 0 {
        vars
    } else {
        let before = export_vars(vars, args.drop_last());
        let arg = args.last();
        let at = equals_at(arg);
        if at < arg.len() {
            before.insert(arg.take(at), arg.skip(at + 1))
        } else {
            before
        }
    }
}

/// What `export` writes to stderr: a usage line for each argument without
/// `=`.
pub open spec fn export_usage(args: Seq<Seq<char>>) -> Seq<char>
    decreases args.len(),
{
    if args.len() == 0 {
        Seq::empty()
    } else if equals_at(args.last()) < args.last().len() {
        export_usage(args.drop_last())
    } else {
        export_usage(args.drop_last()) + "export: usage: export VAR=value\n"@
    }
}

fn find_equals(s: &Vec<char>) -> (r: usize)
    ensures
        r == equals_at(s@),
        r <= s.len(),
        r < s.len() ==> s[r as int] == '=',
{
    let mut i: usize = 0;
    assert(s@.skip(0) =~= s@);
    while i < s.len() && s[i] != '='
        invariant
            i <= s.len(),
            equals_at(s@) == i + equals_at(s@.skip(i as int)),
        decreases s.len() - i,
    {
        proof {
            let rest = s@.skip(i as int);
            assert(rest[0] == s[i as int]);
            assert(rest.skip(1) =~= s@.skip(i + 1));
        }
        i += 1;
    }
    proof {
        let rest = s@.skip(i as int);
        if i < s.len() {
            assert(rest[0] == s[i as int]);
        }
    }
    i
}

/// `export NAME=value...`: sets each variable; an argument without `=`
/// only draws a usage line. The exit code is 0 in every case.
pub fn builtin_export(args: &[String], env: &mut Environment) -> (r: BuiltinOutput)
    ensures
        final(env).vars() == export_vars(old(env).vars(), args.deep_view()),
        final(env).shell_pid() == old(env).shell_pid(),
        r@ == (OutputView {
            action: BuiltinAction::Continue(0),
            stdout: Seq::empty(),
            stderr: export_usage(args.deep_view()),
        }),
{
    let ghost texts = args.deep_view();
    let ghost vars0 = env.vars();
    let mut errors: Vec<char> = Vec::new();
    let mut i: usize = 0;
    assert(errors@ =~= export_usage(texts.take(0)));
    while i < args.len()
        invariant
            i <= args.len(),
            texts == args.deep_view(),
            env.vars() == export_vars(vars0, texts.take(i as int)),
            env.shell_pid() == old(env).shell_pid(),
            errors@ == export_usage(texts.take(i as int)),
        decreases args.len() - i,
    {
        let arg = chars_of(args[i].as_str());
        proof {
            assert(texts.take(i + 1).drop_last() =~= texts.take(i as int));
            assert(texts.take(i + 1).last() == arg@);
        }
        let at = find_equals(&arg);
        if at < arg.len() {
            let key = slice_chars(&arg, 0, at);
            let value = slice_chars(&arg, at + 1, arg.len());
            assert(key@ =~= arg@.take(at as int));
            assert(value@ =~= arg@.skip(at + 1));
            env.set(string_of(&key), string_of(&value));
        } else {
            push_str(&mut errors, "export: usage: export VAR=value\n");
        }
        i += 1;
    }
    assert(texts.take(i as int) =~= texts);
    BuiltinOutput {
        action: BuiltinAction::Continue(0),
        stdout: String::new(),
        stderr: string_of(&errors),
    }
}

/// The variables after the named ones were removed, in order.
pub open spec fn unset_vars(vars: Map<Seq<char>, Seq<char>>, args: Seq<Seq<char>>) -> Map<
    Seq<char>,
    Seq<char>,
>
    decreases args.len(),
{
    if args.len() == 0 {
        vars
    } else {
        unset_vars(vars, args.drop_last()).remove(args.last())
    }
}

/// `unset NAME...`: removes each variable. The exit code is 0.
pub fn builtin_unset(args: &[String], env: &mut Environment) -> (r: BuiltinOutput)
    ensures
        final(env).vars() == unset_vars(old(env).vars(), args.deep_view()),
        final(env).shell_pid() == old(env).shell_pid(),
        r@ == OutputView::printed(Seq::empty()),
{
    let ghost texts = args.deep_view();
    let ghost vars0 = env.vars();
    let mut i: usize = 0;
    while i < args.len()
        invariant
            i <= args.len(),
            texts == args.deep_view(),
            env.vars() == unset_vars(vars0, texts.take(i as int)),
            env.shell_pid() == old(env).shell_pid(),
        decreases args.len() - i,
    {
        proof {
            assert(texts.take(i + 1).drop_last() =~= texts.take(i as int));
            assert(texts.take(i + 1).last() == args[i as int]@);
        }
        env.unset(args[i].as_str());
        i += 1;
    }
    assert(texts.take(i as int) =~= texts);
    printed(String::new())
}

// ── cd, pwd ──────────────────────────────────────────────────────────────

/// Where `cd` goes: the directory named, `$OLDPWD` for `-`, and without
/// an argument `$HOME`, else `$USERPROFILE`, else `.`. `None` where `-`
/// is given and `$OLDPWD` is not set.
pub open spec fn cd_target_spec(args: Seq<Seq<char>>, vars: Map<Seq<char>, Seq<char>>) -> Option<
    Seq<char>,
> {
    if args.len() == 0 {
        if vars.dom().contains("HOME"@) {
            Some(vars["HOME"@])
        } else if vars.dom().contains("USERPROFILE"@) {
            Some(vars["USERPROFILE"@])
        } else {
            Some("."@)
        }
    } else if args[0] == "-"@ {
        if vars.dom().contains("OLDPWD"@) {
            Some(vars["OLDPWD"@])
        } else {
            None
        }
    } else {
        Some(args[0])
    }
}

/// First half of `cd`: the directory to change to, or the failure that
/// `cd -` is without a previous directory.
pub fn cd_target(args: &[String], env: &Environment) -> (r: Result<String, BuiltinOutput>)
    ensures
        match cd_target_spec(args.deep_view(), env.vars()) {
            Some(target) => r is Ok && r->Ok_0@ == target,
            None => r is Err && r->Err_0@ == OutputView::failed("cd: OLDPWD not set\n"@),
        },
{
    if args.len() == 0 {
        return Ok(
            match env.get("HOME") {
                Some(home) => home.clone(),
                None => match env.get("USERPROFILE") {
                    Some(home) => home.clone(),
                    None => String::from_str("."),
                },
            },
        );
    }
    assert(args.deep_view()[0] == args[0]@);
    if str_eq(args[0].as_str(), "-") {
        match env.get("OLDPWD") {
            Some(previous) => Ok(previous.clone()),
            None => Err(failed(String::from_str("cd: OLDPWD not set\n"))),
        }
    } else {
        Ok(args[0].clone())
    }
}

/// Second half of `cd`, after the change to `target` was tried from the
/// directory `old_dir`: `error` holds what the system said if it failed.
///
/// On success `$OLDPWD` becomes the directory that the shell was in
/// before, where that is known; on failure nothing changes, and the
/// error is reported.
pub fn cd_finish(env: &mut Environment, target: &str, old_dir: Option<String>, error: Option<String>) -> (r:
    BuiltinOutput)
    ensures
        final(env).shell_pid() == old(env).shell_pid(),
        match error {
            Some(e) => final(env).vars() == old(env).vars() && r@ == OutputView::failed(
                "cd: "@ + target@ + ": "@ + e@ + "\n"@,
            ),
            None => r@ == OutputView::printed(Seq::empty()) && final(env).vars() == match old_dir {
                Some(dir) => old(env).vars().insert("OLDPWD"@, dir@),
                None => old(env).vars(),
            },
        },
{
    match error {
        Some(e) => {
            let mut msg = String::from_str("cd: ");
            msg.append(target);
            msg.append(": ");
            msg.append(e.as_str());
            msg.append("\n");
            failed(msg)
        },
        None => {
            match old_dir {
                Some(dir) => {
                    env.set(String::from_str("OLDPWD"), dir);
                },
                None => {},
            }
            printed(String::new())
        },
    }
}

/// `pwd`, given the working directory or what the system said instead.
pub fn builtin_pwd(cwd: Result<String, String>) -> (r: BuiltinOutput)
    ensures
        r@ == match cwd {
            Ok(path) => OutputView::printed(path@ + "\n"@),
            Err(e) => OutputView::failed("pwd: "@ + e@ + "\n"@),
        },
{
    match cwd {
        Ok(path) => {
            let mut out = path;
            out.append("\n");
            printed(out)
        },
        Err(e) => failed(concat3("pwd: ", e.as_str(), "\n")),
    }
}


// ── type ─────────────────────────────────────────────────────────────────

/// The path of `cmd` in the directory `dir`: an absolute `cmd` stands for
/// itself, and so does any `cmd` in the empty directory name.
pub open spec fn join_path(dir: Seq<char>, cmd: Seq<char>) -> Seq<char> {
    if (cmd.len() > 0 && cmd[0] == '/') || dir.len() == 0 {
        cmd
    } else if dir.last() == '/' {
        dir + cmd
    } else {
        dir + seq!['/'] + cmd
    }
}

/// The directories of a search path from `i` on, parted at `:`, after
/// `dirs` were read and `current` was begun.
pub open spec fn path_dirs_from(path: Seq<char>, i: int, dirs: Seq<Seq<char>>, current: Seq<char>) -> Seq<
    Seq<char>,
>
    decreases path.len() - i,
{
    if i < 0 || i >= path.len() {
        dirs.push(current)
    } else if path[i] == ':' {
        path_dirs_from(path, i + 1, dirs.push(current), Seq::empty())
    } else {
        path_dirs_from(path, i + 1, dirs, current.push(path[i]))
    }
}

/// Where `cmd` may be found along the search path, in the order in which
/// the places are tried.
pub open spec fn path_candidates_spec(path: Seq<char>, cmd: Seq<char>) -> Seq<Seq<char>> {
    path_dirs_from(path, 0, Seq::empty(), Seq::empty()).map_values(
        |dir: Seq<char>| join_path(dir, cmd),
    )
}

fn join_dir(dir: &Vec<char>, cmd: &Vec<char>) -> (r: String)
    ensures
        r@ == join_path(dir@, cmd@),
{
    if (cmd.len() > 0 && cmd[0] == '/') || dir.len() == 0 {
        return string_of(cmd);
    }
    let mut out: Vec<char> = Vec::new();
    push_chars(&mut out, dir);
    if dir[dir.len() - 1] != '/' {
        out.push('/');
    }
    push_chars(&mut out, cmd);
    proof {
        if dir@.last() == '/' {
            assert(out@ =~= dir@ + cmd@);
        } else {
            assert(out@ =~= dir@ + seq!['/'] + cmd@);
        }
    }
    string_of(&out)
}

/// The places to look for the program `cmd` along the search path
/// `path_var`, whose directories are parted by `:`. The first of them
/// that is an executable file is the program.
pub fn path_candidates(path_var: &str, cmd: &str) -> (r: Vec<String>)
    ensures
        r.deep_view() == path_candidates_spec(path_var@, cmd@),
{
    let path = chars_of(path_var);
    let name = chars_of(cmd);
    let ghost place = |dir: Seq<char>| join_path(dir, cmd@);
    let mut out: Vec<String> = Vec::new();
    let mut current: Vec<char> = Vec::new();
    let ghost mut dirs: Seq<Seq<char>> = Seq::empty();
    let mut i: usize = 0;
    assert(out.deep_view() =~= dirs.map_values(place));
    while i < path.len()
        invariant
            i <= path.len(),
            path@ == path_var@,
            name@ == cmd@,
            place == (|dir: Seq<char>| join_path(dir, cmd@)),
            out.deep_view() == dirs.map_values(place),
            path_dirs_from(path@, i as int, dirs, current@) == path_dirs_from(
                path@,
                0,
                Seq::empty(),
                Seq::empty(),
            ),
        decreases path.len() - i,
    {
        if path[i] == ':' {
            let ghost before = out.deep_view();
            let candidate = join_dir(&current, &name);
            out.push(candidate);
            proof {
                assert(out.deep_view() =~= before.push(join_path(current@, cmd@)));
                assert(dirs.push(current@).map_values(place) =~= dirs.map_values(place).push(
                    place(current@),
                ));
                dirs = dirs.push(current@);
            }
            current = Vec::new();
            assert(current@ =~= Seq::<char>::empty());
        } else {
            current.push(path[i]);
        }
        i += 1;
    }
    let ghost before = out.deep_view();
    out.push(join_dir(&current, &name));
    proof {
        assert(out.deep_view() =~= before.push(join_path(current@, cmd@)));
        assert(dirs.push(current@).map_values(place) =~= dirs.map_values(place).push(
            place(current@),
        ));
    }
    out
}

/// What `type` says of the first `n` names, where `found[i]` is the path
/// of the program that the `i`-th name was found to be: the lines on
/// stdout, the lines on stderr, and whether every name is known.
pub open spec fn type_report(args: Seq<Seq<char>>, found: Seq<Option<String>>, n: int) -> (
    Seq<char>,
    Seq<char>,
    bool,
)
    decreases n,
{
    if n <= 0 {
        (Seq::empty(), Seq::empty(), true)
    } else {
        let (out, err, ok) = type_report(args, found, n - 1);
        let name = args[n - 1];
        if is_builtin_spec(name) {
            (out + name + " is a shell builtin\n"@, err, ok)
        } else if n - 1 < found.len() && found[n - 1] is Some {
            (out + name + " is "@ + found[n - 1]->0@ + "\n"@, err, ok)
        } else {
            (out, err + name + ": not found\n"@, false)
        }
    }
}

/// `type name...`, given for each name the program that it was found to
/// be along the search path, if any. Each name is reported as a builtin,
/// as the path of its program, or as not found; the exit code is 1 if
/// any name is not found.
pub fn builtin_type(args: &[String], found: &[Option<String>]) -> (r: BuiltinOutput)
    ensures
        ({
            let (out, err, ok) = type_report(args.deep_view(), found@, args.len() as int);
            r@ == (OutputView {
                action: BuiltinAction::Continue(
                    if ok {
                        0
                    } else {
                        1
                    },
                ),
                stdout: out,
                stderr: err,
            })
        }),
{
    let ghost names = args.deep_view();
    let mut out: Vec<char> = Vec::new();
    let mut err: Vec<char> = Vec::new();
    let mut ok = true;
    let mut i: usize = 0;
    assert(out@ =~= type_report(names, found@, 0).0);
    assert(err@ =~= type_report(names, found@, 0).1);
    while i < args.len()
        invariant
            i <= args.len(),
            names == args.deep_view(),
            (out@, err@, ok) == type_report(names, found@, i as int),
        decreases args.len() - i,
    {
        let ghost out0 = out@;
        let ghost err0 = err@;
        let name = args[i].as_str();
        assert(names[i as int] == name@);
        if is_builtin(name) {
            push_str(&mut out, name);
            push_str(&mut out, " is a shell builtin\n");
            assert(out@ =~= out0 + name@ + " is a shell builtin\n"@);
        } else {
            let path = if i < found.len() {
                match &found[i] {
                    Some(path) => Some(path),
                    None => None,
                }
            } else {
                None
            };
            match path {
                Some(path) => {
                    push_str(&mut out, name);
                    push_str(&mut out, " is ");
                    push_str(&mut out, path.as_str());
                    push_str(&mut out, "\n");
                    assert(out@ =~= out0 + name@ + " is "@ + path@ + "\n"@);
                },
                None => {
                    push_str(&mut err, name);
                    push_str(&mut err, ": not found\n");
                    assert(err@ =~= err0 + name@ + ": not found\n"@);
                    ok = false;
                },
            }
        }
        i += 1;
    }
    BuiltinOutput {
        action: BuiltinAction::Continue(
            if ok {
                0
            } else {
                1
            },
        ),
        stdout: string_of(&out),
        stderr: string_of(&err),
    }
}

// ── jobs ─────────────────────────────────────────────────────────────────

/// How `jobs` writes a status, padded to its column.
pub open spec fn status_text(status: JobStatus) -> Seq<char> {
    match status {
        JobStatus::Running => "Running   "@,
        JobStatus::Stopped => "Stopped   "@,
        JobStatus::Done(_) => "Done      "@,
    }
}

/// The line of a job in the listing of `jobs`.
pub open spec fn job_line(job: JobView) -> Seq<char> {
    seq!['['] + decimal(job.id as nat) + "]  "@ + status_text(job.status) + seq![' '] + job.command
        + seq!['\n']
}

/// The listing of the first `n` jobs.
pub open spec fn job_listing(jobs: Seq<JobView>, n: int) -> Seq<char>
    decreases n,
{
    if n <= 0 {
        Seq::empty()
    } else {
        job_listing(jobs, n - 1) + job_line(jobs[n - 1])
    }
}

/// `jobs`, given the ids of the running jobs whose processes were found
/// to have ended. These are reaped first: the lines that report them are
/// returned apart, for the shell's own stdout. Then the jobs that are
/// left are listed in ascending order of id.
pub fn builtin_jobs(jobs: &mut JobTable, finished: &[usize]) -> (r: (Vec<String>, BuiltinOutput))
    ensures
        final(jobs)@ == old(jobs)@.reap(finished@),
        final(jobs)@.wf(),
        r.0.deep_view() == old(jobs)@.reaped(finished@).map_values(|job: JobView| done_line(job)),
        r.1@ == OutputView::printed(
            job_listing(final(jobs)@.jobs, final(jobs)@.jobs.len() as int),
        ),
{
    let notices = jobs.reap(finished);
    let list = jobs.jobs_sorted();
    let ghost all = jobs@.jobs;
    let mut out: Vec<char> = Vec::new();
    let mut i: usize = 0;
    assert(out@ =~= job_listing(all, 0));
    while i < list.len()
        invariant
            i <= list.len(),
            list.len() == all.len(),
            forall|k: int| 0 <= k < list.len() ==> (#[trigger] list[k])@ == all[k],
            out@ == job_listing(all, i as int),
        decreases list.len() - i,
    {
        let ghost before = out@;
        let job = list[i];
        assert(job@ == all[i as int]);
        out.push('[');
        push_decimal(&mut out, job.id as u64);
        push_str(&mut out, "]  ");
        push_str(
            &mut out,
            match job.status {
                JobStatus::Running => "Running   ",
                JobStatus::Stopped => "Stopped   ",
                JobStatus::Done(_) => "Done      ",
            },
        );
        out.push(' ');
        push_str(&mut out, job.command.as_str());
        out.push('\n');
        assert(out@ =~= before + job_line(all[i as int]));
        i += 1;
    }
    (notices, printed(string_of(&out)))
}

// ── fg, bg, wait ─────────────────────────────────────────────────────────

/// Number of `%` at the start of `s`.
pub open spec fn leading_percents(s: Seq<char>) -> int
    decreases s.len(),
{
    if s.len() > 0 && s[0] == '%' {
        1 + leading_percents(s.skip(1))
    } else {
        0
    }
}

/// The job id that an argument spells: a number, after any `%`.
pub open spec fn job_id_spec(arg: Seq<char>) -> Option<usize> {
    parse_usize_spec(arg.skip(leading_percents(arg)))
}

/// Reads a job id, written `N` or `%N`.
pub fn parse_job_id(arg: &str) -> (r: Option<usize>)
    ensures
        r == job_id_spec(arg@),
{
    let s = chars_of(arg);
    let mut i: usize = 0;
    assert(s@.skip(0) =~= s@);
    while i < s.len() && s[i] == '%'
        invariant
            i <= s.len(),
            leading_percents(s@) == i + leading_percents(s@.skip(i as int)),
        decreases s.len() - i,
    {
        proof {
            let rest = s@.skip(i as int);
            assert(rest[0] == s[i as int]);
            assert(rest.skip(1) =~= s@.skip(i + 1));
        }
        i += 1;
    }
    proof {
        let rest = s@.skip(i as int);
        if i < s.len() {
            assert(rest[0] == s[i as int]);
        }
    }
    let digits = slice_chars(&s, i, s.len());
    assert(digits@ =~= s@.skip(i as int));
    parse_usize(&digits)
}

/// The job that `fg` or `bg` is about: the one that the first argument
/// names, or without an argument the default; or the line that says why
/// there is none.
pub open spec fn resolve_job_id_spec(args: Seq<Seq<char>>, default: Option<usize>) -> Result<
    usize,
    Seq<char>,
> {
    if args.len() > 0 {
        match job_id_spec(args[0]) {
            Some(id) => Ok(id),
            None => Err("invalid job id: "@ + args[0] + "\n"@),
        }
    } else {
        match default {
            Some(id) => Ok(id),
            None => Err("no current job\n"@),
        }
    }
}

/// Reads the job id of the first argument (`%N` or `N`), falling back to
/// `default` when there is no argument.
pub fn resolve_job_id(args: &[String], default: Option<usize>) -> (r: Result<usize, String>)
    ensures
        match resolve_job_id_spec(args.deep_view(), default) {
            Ok(id) => r == Ok::<usize, String>(id),
            Err(line) => r is Err && r->Err_0@ == line,
        },
{
    if args.len() > 0 {
        assert(args.deep_view()[0] == args[0]@);
        match parse_job_id(args[0].as_str()) {
            Some(id) => Ok(id),
            None => Err(concat3("invalid job id: ", args[0].as_str(), "\n")),
        }
    } else {
        match default {
            Some(id) => Ok(id),
            None => Err(String::from_str("no current job\n")),
        }
    }
}

/// `prefix`, the number `id`, `middle`, `tail` and a newline.
fn job_message(prefix: &str, id: usize, middle: &str, tail: &str) -> (r: String)
    ensures
        r@ == prefix@ + decimal(id as nat) + middle@ + tail@ + "\n"@,
{
    let mut out: Vec<char> = Vec::new();
    push_str(&mut out, prefix);
    push_decimal(&mut out, id as u64);
    push_str(&mut out, middle);
    push_str(&mut out, tail);
    push_str(&mut out, "\n");
    assert(out@ =~= prefix@ + decimal(id as nat) + middle@ + tail@ + "\n"@);
    string_of(&out)
}

/// `prefix`, the number `id` and `tail`.
fn job_note(prefix: &str, id: usize, tail: &str) -> (r: String)
    ensures
        r@ == prefix@ + decimal(id as nat) + tail@,
{
    let mut out: Vec<char> = Vec::new();
    push_str(&mut out, prefix);
    push_decimal(&mut out, id as u64);
    push_str(&mut out, tail);
    string_of(&out)
}

/// A job to bring to the foreground: the caller prints `command` and a
/// newline, hands the terminal to the group `pgid`, sends the group a
/// continue and waits, stop-aware, for `pid`.
#[derive(Debug)]
pub struct ForegroundRequest {
    pub job_id: usize,
    pub pid: u32,
    pub pgid: u32,
    pub command: String,
}

/// What came of bringing a job to the foreground.
#[derive(Debug)]
pub struct ForegroundReport {
    /// What went wrong handing the terminal over, if anything did.
    pub terminal_error: Option<String>,
    /// What went wrong sending the continue, other than that the process
    /// is gone already.
    pub resume_error: Option<String>,
    /// What the wait found, or why it failed.
    pub wait: Result<WaitOutcome, String>,
}

/// The job that `fg` brings to the foreground: the one that the first
/// argument names, or the most recent one; or the line that says why
/// there is none.
pub open spec fn fg_target(args: Seq<Seq<char>>, jobs: JobTableView) -> Result<JobView, Seq<char>> {
    match resolve_job_id_spec(
        args,
        if jobs.jobs.len() > 0 {
            Some(jobs.jobs.last().id)
        } else {
            None
        },
    ) {
        Err(line) => Err(line),
        Ok(id) => match jobs.get(id) {
            None => Err("fg: "@ + decimal(id as nat) + ": no such job\n"@),
            Some(job) => Ok(job),
        },
    }
}

/// The job that `bg` resumes: the one that the first argument names, or
/// the most recent stopped one, which must be stopped; or the line that
/// says why there is none.
pub open spec fn bg_target(args: Seq<Seq<char>>, jobs: JobTableView) -> Result<JobView, Seq<char>> {
    let stopped = jobs.ids_with_status(JobStatus::Stopped);
    match resolve_job_id_spec(
        args,
        if stopped.len() > 0 {
            Some(stopped.last())
        } else {
            None
        },
    ) {
        Err(line) => Err(line),
        Ok(id) => match jobs.get(id) {
            None => Err("bg: "@ + decimal(id as nat) + ": no such job\n"@),
            Some(job) => {
                if job.status is Stopped {
                    Ok(job)
                } else {
                    Err("bg: job "@ + decimal(id as nat) + " is not stopped\n"@)
                }
            },
        },
    }
}

/// Whether a request is about this job.
pub open spec fn is_request_for(job_id: usize, pgid: u32, command: Seq<char>, job: JobView) -> bool {
    job_id == job.id && pgid == job.pgid && command == job.command
}

/// First half of `fg [%N]`: finds the job, the most recent one without
/// an argument, and marks it as running.
pub fn fg_start(args: &[String], jobs: &mut JobTable) -> (r: Result<ForegroundRequest, BuiltinOutput>)
    ensures
        final(jobs)@.wf(),
        match fg_target(args.deep_view(), old(jobs)@) {
            Err(line) => r is Err && r->Err_0@ == OutputView::failed(line) && final(jobs)@ == old(jobs)@,
            Ok(job) => {
                &&& r is Ok
                &&& final(jobs)@ == old(jobs)@.with_status(job.id, JobStatus::Running)
                &&& is_request_for(r->Ok_0.job_id, r->Ok_0.pgid, r->Ok_0.command@, job)
                &&& r->Ok_0.pid == job.pid
            },
        },
{
    let default = jobs.most_recent_id();
    let id = match resolve_job_id(args, default) {
        Ok(id) => id,
        Err(line) => {
            return Err(failed(line));
        },
    };
    let request = match jobs.get(id) {
        Some(job) => {
            proof {
                crate::jobs::lemma_get_has_id(jobs@, id);
            }
            ForegroundRequest { job_id: id, pid: job.pid, pgid: job.pgid, command: job.command.clone() }
        },
        None => {
            return Err(failed(job_note("fg: ", id, ": no such job\n")));
        },
    };
    jobs.mark_running(id);
    Ok(request)
}

/// What `fg` writes to stderr before the wait is looked at.
pub open spec fn fg_warnings(id: usize, terminal_error: Option<String>, resume_error: Option<String>) -> Seq<
    char,
> {
    (match terminal_error {
        Some(e) => "fg: failed to move terminal to job "@ + decimal(id as nat) + ": "@ + e@ + "\n"@,
        None => Seq::empty(),
    }) + (match resume_error {
        Some(e) => "fg: failed to resume job "@ + decimal(id as nat) + ": "@ + e@ + "\n"@,
        None => Seq::empty(),
    })
}

/// Second half of `fg`. A job that exited leaves the table, and its exit
/// code is the builtin's; a job that was stopped stays in the table as
/// stopped, is announced, and the builtin returns 0; a wait that failed
/// is reported, and the builtin returns 1.
pub fn fg_finish(jobs: &mut JobTable, request: &ForegroundRequest, report: ForegroundReport) -> (r:
    BuiltinOutput)
    ensures
        ({
            let id = request.job_id;
            let warnings = fg_warnings(id, report.terminal_error, report.resume_error);
            match report.wait {
                Err(e) => final(jobs)@ == old(jobs)@ && r@ == OutputView::failed(
                    warnings + "fg: error waiting for job "@ + decimal(id as nat) + ": "@ + e@
                        + "\n"@,
                ),
                Ok(WaitOutcome::Stopped) => final(jobs)@ == old(jobs)@.with_status(
                    id,
                    JobStatus::Stopped,
                ) && r@ == (OutputView {
                    action: BuiltinAction::Continue(0),
                    stdout: seq!['['] + decimal(id as nat) + "]  Stopped  "@ + request.command@
                        + "\n"@,
                    stderr: warnings,
                }),
                Ok(WaitOutcome::Exited(code)) => final(jobs)@ == old(jobs)@.remove(id) && r@ == (
                OutputView {
                    action: BuiltinAction::Continue(code),
                    stdout: Seq::empty(),
                    stderr: warnings,
                }),
            }
        }),
{
    let id = request.job_id;
    let mut err: Vec<char> = Vec::new();
    match &report.terminal_error {
        Some(e) => {
            let line = job_message("fg: failed to move terminal to job ", id, ": ", e.as_str());
            push_str(&mut err, line.as_str());
        },
        None => {},
    }
    let ghost first = err@;
    match &report.resume_error {
        Some(e) => {
            let line = job_message("fg: failed to resume job ", id, ": ", e.as_str());
            push_str(&mut err, line.as_str());
        },
        None => {},
    }
    assert(err@ =~= fg_warnings(id, report.terminal_error, report.resume_error));
    match report.wait {
        Err(e) => {
            let line = job_message("fg: error waiting for job ", id, ": ", e.as_str());
            let ghost warnings = err@;
            push_str(&mut err, line.as_str());
            assert(err@ =~= warnings + "fg: error waiting for job "@ + decimal(id as nat) + ": "@
                + e@ + "\n"@);
            failed(string_of(&err))
        },
        Ok(WaitOutcome::Stopped) => {
            jobs.mark_stopped(id);
            let mut out: Vec<char> = Vec::new();
            out.push('[');
            push_decimal(&mut out, id as u64);
            push_str(&mut out, "]  Stopped  ");
            push_str(&mut out, request.command.as_str());
            push_str(&mut out, "\n");
            assert(out@ =~= seq!['['] + decimal(id as nat) + "]  Stopped  "@ + request.command@
                + "\n"@);
            BuiltinOutput {
                action: BuiltinAction::Continue(0),
                stdout: string_of(&out),
                stderr: string_of(&err),
            }
        },
        Ok(WaitOutcome::Exited(code)) => {
            jobs.remove(id);
            BuiltinOutput {
                action: BuiltinAction::Continue(code),
                stdout: String::new(),
                stderr: string_of(&err),
            }
        },
    }
}

/// A stopped job to resume in the background: the caller sends the group
/// `pgid` a continue.
#[derive(Debug)]
pub struct ResumeRequest {
    pub job_id: usize,
    pub pgid: u32,
    pub command: String,
}

/// First half of `bg [%N]`: finds the job, the most recent stopped one
/// without an argument, which must be stopped.
pub fn bg_start(args: &[String], jobs: &JobTable) -> (r: Result<ResumeRequest, BuiltinOutput>)
    ensures
        match bg_target(args.deep_view(), jobs@) {
            Err(line) => r is Err && r->Err_0@ == OutputView::failed(line),
            Ok(job) => r is Ok && is_request_for(
                r->Ok_0.job_id,
                r->Ok_0.pgid,
                r->Ok_0.command@,
                job,
            ),
        },
{
    let default = jobs.most_recent_stopped_id();
    let id = match resolve_job_id(args, default) {
        Ok(id) => id,
        Err(line) => {
            return Err(failed(line));
        },
    };
    proof {
        crate::jobs::lemma_get_has_id(jobs@, id);
    }
    match jobs.get(id) {
        Some(job) => match job.status {
            JobStatus::Stopped => Ok(
                ResumeRequest { job_id: id, pgid: job.pgid, command: job.command.clone() },
            ),
            _ => {
                Err(failed(job_note("bg: job ", id, " is not stopped\n")))
            },
        },
        None => {
            Err(failed(job_note("bg: ", id, ": no such job\n")))
        },
    }
}

/// Second half of `bg`, where `error` holds what went wrong sending the
/// continue: on success the job is marked as running and announced.
pub fn bg_finish(jobs: &mut JobTable, request: &ResumeRequest, error: Option<String>) -> (r:
    BuiltinOutput)
    ensures
        match error {
            Some(e) => final(jobs)@ == old(jobs)@ && r@ == OutputView::failed(
                "bg: failed to resume job "@ + decimal(request.job_id as nat) + ": "@ + e@ + "\n"@,
            ),
            None => final(jobs)@ == old(jobs)@.with_status(request.job_id, JobStatus::Running)
                && r@ == OutputView::printed(
                seq!['['] + decimal(request.job_id as nat) + "]  "@ + request.command@ + " &\n"@,
            ),
        },
{
    match error {
        Some(e) => {
            failed(job_message("bg: failed to resume job ", request.job_id, ": ", e.as_str()))
        },
        None => {
            jobs.mark_running(request.job_id);
            let mut out: Vec<char> = Vec::new();
            out.push('[');
            push_decimal(&mut out, request.job_id as u64);
            push_str(&mut out, "]  ");
            push_str(&mut out, request.command.as_str());
            push_str(&mut out, " &\n");
            assert(out@ =~= seq!['['] + decimal(request.job_id as nat) + "]  "@ + request.command@
                + " &\n"@);
            printed(string_of(&out))
        },
    }
}


// ── wait ─────────────────────────────────────────────────────────────────

/// What `wait` is asked to wait for.
#[derive(Debug)]
pub enum WaitItem {
    /// An argument that spells no job id.
    Invalid(String),
    /// The job of this id.
    Job(usize),
}

/// The mathematical value of a [`WaitItem`].
pub enum WaitItemView {
    Invalid(Seq<char>),
    Job(usize),
}

impl View for WaitItem {
    type V = WaitItemView;

    open spec fn view(&self) -> WaitItemView {
        match *self {
            WaitItem::Invalid(arg) => WaitItemView::Invalid(arg@),
            WaitItem::Job(id) => WaitItemView::Job(id),
        }
    }
}

impl DeepView for WaitItem {
    type V = WaitItemView;

    open spec fn deep_view(&self) -> WaitItemView {
        self@
    }
}

/// A `wait` that is under way.
#[derive(Debug)]
pub struct WaitRun {
    items: Vec<WaitItem>,
    next: usize,
    last_status: i32,
    had_error: bool,
    stdout: Vec<char>,
    stderr: Vec<char>,
    waiting: Option<usize>,
}

/// The mathematical value of a [`WaitRun`].
pub struct WaitView {
    pub items: Seq<WaitItemView>,
    /// The place of the next item to look at.
    pub next: int,
    /// The exit code of the job that was waited for last.
    pub last_status: i32,
    pub had_error: bool,
    pub stdout: Seq<char>,
    pub stderr: Seq<char>,
    /// The job that is being waited for.
    pub waiting: Option<usize>,
}

/// What a `wait` asks of its caller.
#[derive(Debug)]
pub enum WaitAction {
    /// Wait for the process `pid` of the job to end, then report it.
    Wait { job_id: usize, pid: u32 },
    /// The builtin is done.
    Done(BuiltinOutput),
}

/// The mathematical value of a [`WaitAction`].
pub enum WaitActionView {
    Wait { job_id: usize, pid: u32 },
    Done(OutputView),
}

impl View for WaitAction {
    type V = WaitActionView;

    open spec fn view(&self) -> WaitActionView {
        match *self {
            WaitAction::Wait { job_id, pid } => WaitActionView::Wait { job_id, pid },
            WaitAction::Done(o) => WaitActionView::Done(o@),
        }
    }
}

/// The items of a `wait`: the running jobs if there is no argument, else
/// what each argument names.
pub open spec fn wait_items_spec(args: Seq<Seq<char>>, jobs: JobTableView) -> Seq<WaitItemView> {
    if args.len() == 0 {
        jobs.ids_with_status(JobStatus::Running).map_values(|id: usize| WaitItemView::Job(id))
    } else {
        args.map_values(
            |arg: Seq<char>|
                match job_id_spec(arg) {
                    Some(id) => WaitItemView::Job(id),
                    None => WaitItemView::Invalid(arg),
                },
        )
    }
}

impl WaitView {
    pub open spec fn start(items: Seq<WaitItemView>) -> WaitView {
        WaitView {
            items,
            next: 0,
            last_status: 0,
            had_error: false,
            stdout: Seq::empty(),
            stderr: Seq::empty(),
            waiting: None,
        }
    }

    /// What the builtin gives back in the end: the exit code of the job
    /// waited for last, or 1 if anything went wrong.
    pub open spec fn output(self) -> OutputView {
        OutputView {
            action: BuiltinAction::Continue(
                if self.had_error {
                    1
                } else {
                    self.last_status
                },
            ),
            stdout: self.stdout,
            stderr: self.stderr,
        }
    }

    /// The state with an error noted.
    pub open spec fn with_error(self, line: Seq<char>) -> WaitView {
        WaitView { stderr: self.stderr + line, had_error: true, ..self }
    }

    /// Goes through the items until one is a running job, which is to be
    /// waited for, or none is left. An argument that is no job id and a
    /// job that is not in the table are errors; a job that is not running
    /// counts as waited for, with exit code 0.
    pub open spec fn advance(self, jobs: JobTableView) -> (WaitView, WaitActionView)
        decreases self.items.len() - self.next,
    {
        if self.next < 0 || self.next >= self.items.len() {
            (self, WaitActionView::Done(self.output()))
        } else {
            let on = WaitView { next: self.next + 1, ..self };
            match self.items[self.next] {
                WaitItemView::Invalid(arg) => on.with_error(
                    "wait: invalid job id: "@ + arg + "\n"@,
                ).advance(jobs),
                WaitItemView::Job(id) => match jobs.get(id) {
                    None => on.with_error(
                        "wait: "@ + decimal(id as nat) + ": no such job\n"@,
                    ).advance(jobs),
                    Some(job) => {
                        if job.status is Running {
                            (
                                WaitView { waiting: Some(id), ..on },
                                WaitActionView::Wait { job_id: id, pid: job.pid },
                            )
                        } else {
                            WaitView { last_status: 0, ..on }.advance(jobs)
                        }
                    },
                },
            }
        }
    }

    /// The state and the job table after the wait for the job returned.
    /// A job that has ended is reported as done and leaves the table.
    pub open spec fn waited(self, jobs: JobTableView, result: Result<i32, String>) -> (
        WaitView,
        JobTableView,
    ) {
        match self.waiting {
            None => (self, jobs),
            Some(id) => {
                let idle = WaitView { waiting: None, ..self };
                match result {
                    Err(e) => (idle.with_error("wait: error: "@ + e@ + "\n"@), jobs),
                    Ok(code) => match jobs.get(id) {
                        Some(job) => (
                            WaitView {
                                stdout: self.stdout + done_line(job) + "\n"@,
                                last_status: code,
                                ..idle
                            },
                            jobs.remove(id),
                        ),
                        None => (WaitView { last_status: code, ..idle }, jobs),
                    },
                }
            },
        }
    }
}

impl View for WaitRun {
    type V = WaitView;

    closed spec fn view(&self) -> WaitView {
        WaitView {
            items: self.items.deep_view(),
            next: self.next as int,
            last_status: self.last_status,
            had_error: self.had_error,
            stdout: self.stdout@,
            stderr: self.stderr@,
            waiting: self.waiting,
        }
    }
}

/// First step of `wait [%N...]`: lists what is to be waited for.
pub fn wait_start(args: &[String], jobs: &JobTable) -> (r: WaitRun)
    ensures
        r@ == WaitView::start(wait_items_spec(args.deep_view(), jobs@)),
{
    let mut items: Vec<WaitItem> = Vec::new();
    if args.len() == 0 {
        let ids = jobs.running_ids();
        let mut i: usize = 0;
        while i < ids.len()
            invariant
                i <= ids.len(),
                items.len() == i,
                forall|k: int| 0 <= k < i ==> (#[trigger] items[k])@ == WaitItemView::Job(ids[k]),
            decreases ids.len() - i,
        {
            items.push(WaitItem::Job(ids[i]));
            i += 1;
        }
        assert(items.deep_view() =~= wait_items_spec(args.deep_view(), jobs@));
    } else {
        let mut i: usize = 0;
        while i < args.len()
            invariant
                i <= args.len(),
                items.len() == i,
                forall|k: int|
                    0 <= k < i ==> (#[trigger] items[k])@ == match job_id_spec(args[k]@) {
                        Some(id) => WaitItemView::Job(id),
                        None => WaitItemView::Invalid(args[k]@),
                    },
            decreases args.len() - i,
        {
            match parse_job_id(args[i].as_str()) {
                Some(id) => {
                    items.push(WaitItem::Job(id));
                },
                None => {
                    items.push(WaitItem::Invalid(args[i].clone()));
                },
            }
            i += 1;
        }
        assert(items.deep_view() =~= wait_items_spec(args.deep_view(), jobs@));
    }
    WaitRun {
        items,
        next: 0,
        last_status: 0,
        had_error: false,
        stdout: Vec::new(),
        stderr: Vec::new(),
        waiting: None,
    }
}

impl WaitRun {
    /// Says what to do next: wait for a job, or nothing more.
    pub fn advance(&mut self, jobs: &JobTable) -> (action: WaitAction)
        ensures
            final(self)@ == old(self)@.advance(jobs@).0,
            action@ == old(self)@.advance(jobs@).1,
    {
        while self.next < self.items.len()
            invariant
                self@.advance(jobs@) == old(self)@.advance(jobs@),
            decreases self.items.len() - self.next,
        {
            let ghost before = self@;
            assert(self.items.deep_view()[self.next as int] == self.items[self.next as int]@);
            let i = self.next;
            self.next = i + 1;
            match &self.items[i] {
                WaitItem::Invalid(arg) => {
                    push_str(&mut self.stderr, "wait: invalid job id: ");
                    push_str(&mut self.stderr, arg.as_str());
                    push_str(&mut self.stderr, "\n");
                    self.had_error = true;
                    assert(self.stderr@ =~= before.stderr + ("wait: invalid job id: "@ + arg@
                        + "\n"@));
                },
                WaitItem::Job(id) => match jobs.get(*id) {
                    None => {
                        let line = job_note("wait: ", *id, ": no such job\n");
                        push_str(&mut self.stderr, line.as_str());
                        self.had_error = true;
                    },
                    Some(job) => match job.status {
                        JobStatus::Running => {
                            self.waiting = Some(*id);
                            return WaitAction::Wait { job_id: *id, pid: job.pid };
                        },
                        _ => {
                            self.last_status = 0;
                        },
                    },
                },
            }
        }
        let code = if self.had_error {
            1
        } else {
            self.last_status
        };
        WaitAction::Done(
            BuiltinOutput {
                action: BuiltinAction::Continue(code),
                stdout: string_of(&self.stdout),
                stderr: string_of(&self.stderr),
            },
        )
    }

    /// Takes what the wait for the job found: its exit code, or what went
    /// wrong.
    pub fn waited(&mut self, jobs: &mut JobTable, result: Result<i32, String>)
        ensures
            final(self)@ == old(self)@.waited(old(jobs)@, result).0,
            final(jobs)@ == old(self)@.waited(old(jobs)@, result).1,
    {
        let id = match self.waiting {
            Some(id) => id,
            None => {
                return ;
            },
        };
        self.waiting = None;
        let ghost before = self@;
        match result {
            Err(e) => {
                push_str(&mut self.stderr, "wait: error: ");
                push_str(&mut self.stderr, e.as_str());
                push_str(&mut self.stderr, "\n");
                self.had_error = true;
                assert(self.stderr@ =~= before.stderr + ("wait: error: "@ + e@ + "\n"@));
            },
            Ok(code) => {
                match jobs.remove(id) {
                    Some(job) => {
                        let line = done_report(&job);
                        push_str(&mut self.stdout, line.as_str());
                        push_str(&mut self.stdout, "\n");
                        assert(self.stdout@ =~= before.stdout + done_line(job@) + "\n"@);
                    },
                    None => {},
                }
                self.last_status = code;
            },
        }
    }
}

// ── Dispatch ─────────────────────────────────────────────────────────────

/// The names of the builtins are twelve different words.
proof fn lemma_builtin_names_differ()
    ensures
        "cd"@.len() == 2,
        "pwd"@ =~= seq!['p', 'w', 'd'],
        "exit"@ =~= seq!['e', 'x', 'i', 't'],
        "echo"@ =~= seq!['e', 'c', 'h', 'o'],
        "export"@.len() == 6,
        "unset"@.len() == 5,
        "type"@ =~= seq!['t', 'y', 'p', 'e'],
        "jobs"@ =~= seq!['j', 'o', 'b', 's'],
        "fg"@ =~= seq!['f', 'g'],
        "bg"@ =~= seq!['b', 'g'],
        "cd"@ =~= seq!['c', 'd'],
        "wait"@ =~= seq!['w', 'a', 'i', 't'],
        "help"@ =~= seq!['h', 'e', 'l', 'p'],
{
    reveal_strlit("cd");
    reveal_strlit("pwd");
    reveal_strlit("exit");
    reveal_strlit("echo");
    reveal_strlit("export");
    reveal_strlit("unset");
    reveal_strlit("type");
    reveal_strlit("jobs");
    reveal_strlit("fg");
    reveal_strlit("bg");
    reveal_strlit("wait");
    reveal_strlit("help");
}

/// What running a builtin comes to: its output, or what it needs from the
/// system before its second half can give the output.
#[derive(Debug)]
pub enum BuiltinStep {
    /// The builtin is done.
    Done(BuiltinOutput),
    /// `cd`: change to `target`, noting the directory left; then
    /// [`cd_finish`].
    ChangeDir { target: String },
    /// `pwd`: read the working directory; then [`builtin_pwd`].
    CurrentDir,
    /// `type`: look each name that is no builtin up along the search path
    /// (see [`path_candidates`]); then [`builtin_type`].
    FindPrograms,
    /// `jobs`: poll the processes of these running jobs; then
    /// [`builtin_jobs`] with the ids of those that have ended.
    PollJobs { ids: Vec<usize> },
    /// `fg`: see [`ForegroundRequest`]; then [`fg_finish`].
    Foreground(ForegroundRequest),
    /// `bg`: see [`ResumeRequest`]; then [`bg_finish`].
    Resume(ResumeRequest),
    /// `wait`: see [`WaitRun`].
    Wait(WaitRun),
}

/// Runs the first half of the builtin `program` with `args`.
///
/// `echo`, `exit`, `help`, `export` and `unset` are done at once. The
/// others say what they need; a program that is no builtin fails with a
/// message. Only `export` and `unset` change the environment, and only
/// `fg` the job table.
pub fn execute(program: &str, args: &[String], env: &mut Environment, jobs: &mut JobTable) -> (r:
    BuiltinStep)
    ensures
        final(env).shell_pid() == old(env).shell_pid(),
        program@ == "echo"@ ==> (r matches BuiltinStep::Done(o) && o@ == OutputView::printed(
            join_spaced(args.deep_view()) + seq!['\n'],
        )),
        program@ == "exit"@ ==> (r matches BuiltinStep::Done(o) && o@ == exit_spec(
            args.deep_view(),
        )),
        program@ == "help"@ ==> (r matches BuiltinStep::Done(o) && o@ == help_spec(
            args.deep_view(),
        )),
        program@ == "export"@ ==> (r matches BuiltinStep::Done(o) && o@ == (OutputView {
            action: BuiltinAction::Continue(0),
            stdout: Seq::empty(),
            stderr: export_usage(args.deep_view()),
        })) && final(env).vars() == export_vars(old(env).vars(), args.deep_view()),
        program@ == "unset"@ ==> (r matches BuiltinStep::Done(o) && o@ == OutputView::printed(
            Seq::empty(),
        )) && final(env).vars() == unset_vars(old(env).vars(), args.deep_view()),
        program@ == "cd"@ ==> match cd_target_spec(args.deep_view(), old(env).vars()) {
            Some(target) => (r matches BuiltinStep::ChangeDir { target: t } && t@ == target),
            None => (r matches BuiltinStep::Done(o) && o@ == OutputView::failed(
                "cd: OLDPWD not set\n"@,
            )),
        },
        program@ == "pwd"@ ==> r is CurrentDir,
        program@ == "type"@ ==> r is FindPrograms,
        program@ == "jobs"@ ==> (r matches BuiltinStep::PollJobs { ids } && ids@ == old(jobs)@.ids_with_status(
            JobStatus::Running,
        )),
        program@ == "fg"@ ==> match fg_target(args.deep_view(), old(jobs)@) {
            Err(line) => (r matches BuiltinStep::Done(o) && o@ == OutputView::failed(line)) && final(jobs)@ == old(jobs)@,
            Ok(job) => (r matches BuiltinStep::Foreground(request) && is_request_for(
                request.job_id,
                request.pgid,
                request.command@,
                job,
            ) && request.pid == job.pid) && final(jobs)@ == old(jobs)@.with_status(
                job.id,
                JobStatus::Running,
            ),
        },
        program@ == "bg"@ ==> match bg_target(args.deep_view(), old(jobs)@) {
            Err(line) => (r matches BuiltinStep::Done(o) && o@ == OutputView::failed(line)),
            Ok(job) => (r matches BuiltinStep::Resume(request) && is_request_for(
                request.job_id,
                request.pgid,
                request.command@,
                job,
            )),
        },
        program@ == "wait"@ ==> (r matches BuiltinStep::Wait(run) && run@ == WaitView::start(
            wait_items_spec(args.deep_view(), old(jobs)@),
        )),
        !is_builtin_spec(program@) ==> (r matches BuiltinStep::Done(o) && o@ == OutputView::failed(
            "jsh: unknown builtin: "@ + program@ + "\n"@,
        )),
        !(program@ == "export"@ || program@ == "unset"@) ==> final(env).vars() == old(env).vars(),
        program@ != "fg"@ ==> final(jobs)@ == old(jobs)@,
{
    proof {
        lemma_builtin_names_differ();
    }
    if str_eq(program, "cd") {
        match cd_target(args, env) {
            Ok(target) => BuiltinStep::ChangeDir { target },
            Err(output) => BuiltinStep::Done(output),
        }
    } else if str_eq(program, "pwd") {
        BuiltinStep::CurrentDir
    } else if str_eq(program, "exit") {
        BuiltinStep::Done(builtin_exit(args))
    } else if str_eq(program, "echo") {
        BuiltinStep::Done(builtin_echo(args))
    } else if str_eq(program, "export") {
        BuiltinStep::Done(builtin_export(args, env))
    } else if str_eq(program, "unset") {
        BuiltinStep::Done(builtin_unset(args, env))
    } else if str_eq(program, "type") {
        BuiltinStep::FindPrograms
    } else if str_eq(program, "jobs") {
        BuiltinStep::PollJobs { ids: jobs.running_ids() }
    } else if str_eq(program, "fg") {
        match fg_start(args, jobs) {
            Ok(request) => BuiltinStep::Foreground(request),
            Err(output) => BuiltinStep::Done(output),
        }
    } else if str_eq(program, "bg") {
        match bg_start(args, jobs) {
            Ok(request) => BuiltinStep::Resume(request),
            Err(output) => BuiltinStep::Done(output),
        }
    } else if str_eq(program, "wait") {
        BuiltinStep::Wait(wait_start(args, jobs))
    } else if str_eq(program, "help") {
        BuiltinStep::Done(builtin_help(args))
    } else {
        BuiltinStep::Done(failed(concat3("jsh: unknown builtin: ", program, "\n")))
    }
}

} // verus!
