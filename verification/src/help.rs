//! The reference texts of the `help` builtin.

use vstd::prelude::*;
use crate::text::str_eq;

verus! {

/// The help text of the overview.
pub const HELP_OVERVIEW: &'static str = "jsh — James Shell  (type 'help <topic>' for details)\n\nBuiltins:\n  cd [dir|-]          Change directory (- goes to previous)\n  pwd                 Print working directory\n  echo [args...]      Print arguments\n  export VAR=value    Set and export environment variable\n  unset VAR           Remove environment variable\n  type name...        Show whether name is builtin or external\n  exit [code]         Exit the shell\n  jobs                List background jobs\n  fg [%N]             Bring job to foreground\n  bg [%N]             Resume stopped job in background\n  wait [%N]           Wait for background job(s)\n  Stateful builtins (cd/export/unset/fg/bg)\n    are not supported in non-terminal pipeline steps\n  help [topic]        Show this help or a topic reference\n\nTopics: variables  redirection  jobs  expansion  quotes  exit-codes\n";

/// The help text of the topic `cd`.
pub const HELP_CD: &'static str = "cd [dir|-]\n  Change the current directory.\n  No argument: go to $HOME.\n  '-': go to the previous directory ($OLDPWD).\n  Sets $OLDPWD to the directory you came from.\n";

/// The help text of the topic `pwd`.
pub const HELP_PWD: &'static str = "pwd\n  Print the absolute path of the current directory.\n  This command does not run as a background job.\n";

/// The help text of the topic `echo`.
pub const HELP_ECHO: &'static str = "echo [args...]\n  Print arguments separated by spaces, followed by a newline.\n";

/// The help text of the topic `export`.
pub const HELP_EXPORT: &'static str = "export VAR=value\n  Set VAR to value and export it to child processes.\n";

/// The help text of the topic `unset`.
pub const HELP_UNSET: &'static str = "unset VAR...\n  Remove one or more environment variables.\n";

/// The help text of the topic `type`.
pub const HELP_TYPE: &'static str = "type name...\n  For each name, report whether it is a shell builtin\n  or the full path of the external executable.\n  Exit code 1 if any name is not found.\n";

/// The help text of the topic `exit`.
pub const HELP_EXIT: &'static str = "exit [code]\n  Exit the shell with the given numeric exit code.\n  No argument: exit 0.  Non-numeric argument: exit 2.\n";

/// The help text of the topic `help`.
pub const HELP_HELP: &'static str = "help [topic|builtin]\n  No argument: list all builtins and topics.\n  Builtin name: show usage for that builtin.\n  Topic name: show a reference section.\n  Topics: variables  redirection  jobs  expansion  quotes  exit-codes\n";

/// The help text of the topic `jobs`.
pub const HELP_JOBS: &'static str = "jobs\n  List background and stopped jobs with their IDs.\n  Status column: Running | Stopped | Done\n\nJob control summary:\n  cmd &           Run command in background\n  fg [%N]         Bring job to foreground\n  bg [%N]         Resume stopped job in background\n  wait [%N]       Wait for job(s) to finish\n  Ctrl-Z          Suspend foreground job (Unix only)\n";

/// The help text of the topic `fg`.
pub const HELP_FG: &'static str = "fg [%N]\n  Bring job %N to the foreground and wait for it.\n  No argument: use the most recently backgrounded job.\n";

/// The help text of the topic `bg`.
pub const HELP_BG: &'static str = "bg [%N]\n  Resume stopped job %N in the background.\n  No argument: use the most recently stopped job.\n";

/// The help text of the topic `wait`.
pub const HELP_WAIT: &'static str = "wait [%N]\n  Wait for background job %N to finish.\n  No argument: wait for all background jobs.\n  Sets $? to the exit code of the waited job.\n";

/// The help text of the topic `variables`.
pub const HELP_VARIABLES: &'static str = "Special variables:\n  $?        Exit code of the last command\n  $$        PID of the shell process\n  $0        Shell name (always 'jsh')\n  $HOME     Home directory\n  $PATH     Command search path\n  $PWD      Current directory\n  $OLDPWD   Previous directory (set by cd)\n  $USER     Current user name\n  $VAR      Value of any exported environment variable\n  ${VAR}    Same as $VAR (brace form)\n";

/// The help text of the topic `redirection`.
pub const HELP_REDIRECTION: &'static str = "Redirection operators:\n  cmd > file      Write stdout to file (truncate)\n  cmd >> file     Append stdout to file\n  cmd < file      Read stdin from file\n  cmd 2> file     Write stderr to file\n  cmd 2>> file    Append stderr to file\n  cmd 2>&1        Merge stderr into stdout\n  cmd 1>&2        Merge stdout into stderr\n  cmd <<< word    Feed word as stdin (here-string)\n";

/// The help text of the topic `expansion`.
pub const HELP_EXPANSION: &'static str = "Word expansion (applied in order):\n  ~               Expands to $HOME\n  ~/path          Expands to $HOME/path\n  $VAR            Variable substitution\n  ${VAR}          Braced variable substitution\n  *               Matches any string of characters\n  ?               Matches any single character\n  [abc]           Matches any character in the set\n  Globs that match nothing are kept as literals.\n  Globs inside quotes are not expanded.\n";

/// The help text of the topic `quotes`.
pub const HELP_QUOTES: &'static str = "Quoting:\n  'text'    Single quotes: no expansion of any kind\n  \"text\"    Double quotes: $VAR expanded, globs suppressed\n  \\c        Backslash: treat next character literally\n  Mixing quote styles in one word is allowed.\n";

/// The help text of the topic `exit-codes`.
pub const HELP_EXIT_CODES: &'static str = "Exit codes:\n  0          Success\n  1          General error\n  2          Bad usage (wrong arguments)\n  126        Command found but not executable\n  127        Command not found\n  128+N      Command killed by signal N\n  $?         Holds the exit code of the last command\n";

/// The help text of a topic, if there is one.
pub open spec fn help_text_spec(topic: Seq<char>) -> Option<Seq<char>> {
    if topic == "cd"@ {
        Some(HELP_CD@)
    }     else if topic == "pwd"@ {
        Some(HELP_PWD@)
    }     else if topic == "echo"@ {
        Some(HELP_ECHO@)
    }     else if topic == "export"@ {
        Some(HELP_EXPORT@)
    }     else if topic == "unset"@ {
        Some(HELP_UNSET@)
    }     else if topic == "type"@ {
        Some(HELP_TYPE@)
    }     else if topic == "exit"@ {
        Some(HELP_EXIT@)
    }     else if topic == "help"@ {
        Some(HELP_HELP@)
    }     else if topic == "jobs"@ {
        Some(HELP_JOBS@)
    }     else if topic == "fg"@ {
        Some(HELP_FG@)
    }     else if topic == "bg"@ {
        Some(HELP_BG@)
    }     else if topic == "wait"@ {
        Some(HELP_WAIT@)
    }     else if topic == "variables"@ {
        Some(HELP_VARIABLES@)
    }     else if topic == "redirection"@ {
        Some(HELP_REDIRECTION@)
    }     else if topic == "expansion"@ {
        Some(HELP_EXPANSION@)
    }     else if topic == "quotes"@ {
        Some(HELP_QUOTES@)
    }     else if topic == "exit-codes"@ {
        Some(HELP_EXIT_CODES@)
    } else {
        None
    }
}

/// The help text of a topic: a builtin or a reference section.
pub fn help_text(topic: &str) -> (r: Option<&'static str>)
    ensures
        match help_text_spec(topic@) {
            Some(text) => r is Some && r->0@ == text,
            None => r is None,
        },
{
    if str_eq(topic, "cd") {
        Some(HELP_CD)
    }     else if str_eq(topic, "pwd") {
        Some(HELP_PWD)
    }     else if str_eq(topic, "echo") {
        Some(HELP_ECHO)
    }     else if str_eq(topic, "export") {
        Some(HELP_EXPORT)
    }     else if str_eq(topic, "unset") {
        Some(HELP_UNSET)
    }     else if str_eq(topic, "type") {
        Some(HELP_TYPE)
    }     else if str_eq(topic, "exit") {
        Some(HELP_EXIT)
    }     else if str_eq(topic, "help") {
        Some(HELP_HELP)
    }     else if str_eq(topic, "jobs") {
        Some(HELP_JOBS)
    }     else if str_eq(topic, "fg") {
        Some(HELP_FG)
    }     else if str_eq(topic, "bg") {
        Some(HELP_BG)
    }     else if str_eq(topic, "wait") {
        Some(HELP_WAIT)
    }     else if str_eq(topic, "variables") {
        Some(HELP_VARIABLES)
    }     else if str_eq(topic, "redirection") {
        Some(HELP_REDIRECTION)
    }     else if str_eq(topic, "expansion") {
        Some(HELP_EXPANSION)
    }     else if str_eq(topic, "quotes") {
        Some(HELP_QUOTES)
    }     else if str_eq(topic, "exit-codes") {
        Some(HELP_EXIT_CODES)
    } else {
        None
    }
}

} // verus!
