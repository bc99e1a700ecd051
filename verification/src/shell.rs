//! Session bootstrap decisions: which shell program to launch, with which
//! arguments, on each platform family. On POSIX-like systems a single
//! resolved shell is launched, with the interactive flag when its name
//! suggests a shell whose prompt hooks should run. On console-subsystem
//! systems an ordered fallback chain of candidates is produced, the two
//! PowerShell-family candidates carrying a prompt hook that announces the
//! current working directory before every prompt redraw.

use vstd::prelude::*;
use crate::text::{contains_seq, contains_str, flatten_script, flatten_script_spec};

verus! {

/// The shell-side prompt hook: wraps any existing prompt function so that the
/// current working directory is emitted as terminal escape sequences before
/// each prompt redraw, and once at installation.
pub const PROMPT_HOOK: &'static str = r#"
$esc = [char]27
$bel = [char]7
function __pty_core_emit_cwd {
  $p = (Get-Location).Path
  $uriPath = $p -replace '\\','/'
  [Console]::Write("$esc]777;cwd=$uriPath$bel")
  [Console]::Write("$esc]7;file:///$uriPath$bel")
}
if (-not (Test-Path function:__pty_core_original_prompt)) {
  if (Test-Path function:prompt) { $function:__pty_core_original_prompt = $function:prompt }
}
function prompt {
  __pty_core_emit_cwd
  if (Test-Path function:__pty_core_original_prompt) { & $__pty_core_original_prompt }
  else { "PS " + (Get-Location) + "> " }
}
__pty_core_emit_cwd
"#;

/// The single command-line string handed to a PowerShell-family candidate:
/// the hook script flattened to one semicolon-joined line, wrapped in a
/// call block.
pub open spec fn hook_command_spec() -> Seq<char> {
    "& { "@ + flatten_script_spec(PROMPT_HOOK@) + " }"@
}

/// Build the single-line hook command from the prompt hook script.
pub fn hook_command() -> (cmd: String)
    ensures
        cmd@ == hook_command_spec(),
{
    let flat = flatten_script(PROMPT_HOOK);
    let head: String = "& { ".to_owned();
    let mid = head.concat(flat.as_str());
    mid.concat(" }")
}

/// One shell program to try: the program name and its startup arguments.
pub struct Candidate {
    pub program: String,
    pub args: Vec<String>,
}

/// The argument views of a candidate's argument list.
pub open spec fn args_view(args: Seq<String>) -> Seq<Seq<char>> {
    args.map_values(|a: String| a@)
}

/// A resolved POSIX shell path gets the interactive flag exactly when its
/// name contains a known interactive shell's name.
pub open spec fn wants_interactive(path: Seq<char>) -> bool {
    contains_seq(path, "zsh"@) || contains_seq(path, "bash"@)
}

/// The candidate for a POSIX-like platform: launch exactly the resolved
/// shell, with `-i` when its path names a known interactive shell, so that
/// startup files and prompt hooks run.
pub fn posix_candidate(shell_path: String) -> (c: Candidate)
    ensures
        c.program@ == shell_path@,
        wants_interactive(shell_path@) ==> args_view(c.args@) == seq!["-i"@],
        !wants_interactive(shell_path@) ==> c.args@.len() == 0,
{
    let mut args: Vec<String> = Vec::new();
    if contains_str(shell_path.as_str(), "zsh") || contains_str(shell_path.as_str(), "bash") {
        args.push("-i".to_owned());
        proof {
            assert(args_view(args@) =~= seq!["-i"@]);
        }
    }
    Candidate { program: shell_path, args }
}

/// The startup arguments of a PowerShell-family candidate: suppress the logo
/// and profile, keep the session open, and run the hook command.
pub open spec fn powershell_args(cmd: Seq<char>) -> Seq<Seq<char>> {
    seq!["-NoLogo"@, "-NoProfile"@, "-NoExit"@, "-Command"@, cmd]
}

/// The startup arguments of the basic command interpreter: no autorun
/// scripts, and keep the session open.
pub open spec fn cmd_args_spec() -> Seq<Seq<char>> {
    seq!["/d"@, "/k"@]
}

fn powershell_arg_vec(hook: &String) -> (args: Vec<String>)
    ensures
        args_view(args@) == powershell_args(hook@),
{
    let mut args: Vec<String> = Vec::new();
    args.push("-NoLogo".to_owned());
    args.push("-NoProfile".to_owned());
    args.push("-NoExit".to_owned());
    args.push("-Command".to_owned());
    args.push(hook.clone());
    proof {
        assert(args_view(args@) =~= powershell_args(hook@));
    }
    args
}

/// The ordered fallback chain for console-subsystem platforms: the modern
/// cross-platform shell first, then the legacy shell — both with the prompt
/// hook — then the basic command interpreter as last resort.
pub fn console_candidates() -> (cs: Vec<Candidate>)
    ensures
        cs@.len() == 3,
        cs@[0].program@ == "pwsh.exe"@,
        cs@[1].program@ == "powershell.exe"@,
        cs@[2].program@ == "cmd.exe"@,
        args_view(cs@[0].args@) == powershell_args(hook_command_spec()),
        args_view(cs@[1].args@) == powershell_args(hook_command_spec()),
        args_view(cs@[2].args@) == cmd_args_spec(),
{
    let hook = hook_command();
    let mut cs: Vec<Candidate> = Vec::new();
    cs.push(Candidate { program: "pwsh.exe".to_owned(), args: powershell_arg_vec(&hook) });
    cs.push(Candidate { program: "powershell.exe".to_owned(), args: powershell_arg_vec(&hook) });
    let mut last: Vec<String> = Vec::new();
    last.push("/d".to_owned());
    last.push("/k".to_owned());
    proof {
        assert(args_view(last@) =~= cmd_args_spec());
    }
    cs.push(Candidate { program: "cmd.exe".to_owned(), args: last });
    cs
}

} // verus!
