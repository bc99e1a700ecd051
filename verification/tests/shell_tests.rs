use pty_core::shell::{console_candidates, hook_command, posix_candidate, PROMPT_HOOK};

#[test]
fn posix_zsh_gets_interactive_flag() {
    let c = posix_candidate("/bin/zsh".to_string());
    assert_eq!(c.program, "/bin/zsh");
    assert_eq!(c.args, vec!["-i".to_string()]);
}

#[test]
fn posix_bash_gets_interactive_flag() {
    let c = posix_candidate("/usr/local/bin/bash".to_string());
    assert_eq!(c.program, "/usr/local/bin/bash");
    assert_eq!(c.args, vec!["-i".to_string()]);
}

#[test]
fn posix_other_shell_gets_no_flag() {
    let c = posix_candidate("/bin/sh".to_string());
    assert_eq!(c.program, "/bin/sh");
    assert!(c.args.is_empty());
}

#[test]
fn hook_command_is_one_wrapped_line() {
    let cmd = hook_command();
    assert!(cmd.starts_with("& { "));
    assert!(cmd.ends_with(" }"));
    assert!(!cmd.contains('\n'));
    // every non-blank script line survives, semicolon-joined
    assert!(cmd.contains("$esc = [char]27; $bel = [char]7;"));
    assert!(cmd.contains("function __pty_core_emit_cwd {"));
    assert!(cmd.ends_with("__pty_core_emit_cwd }"));
    assert!(PROMPT_HOOK.contains('\n'));
}

#[test]
fn console_chain_is_ordered_with_hook() {
    let cs = console_candidates();
    assert_eq!(cs.len(), 3);
    assert_eq!(cs[0].program, "pwsh.exe");
    assert_eq!(cs[1].program, "powershell.exe");
    assert_eq!(cs[2].program, "cmd.exe");
    let hook = hook_command();
    let expect = vec![
        "-NoLogo".to_string(),
        "-NoProfile".to_string(),
        "-NoExit".to_string(),
        "-Command".to_string(),
        hook,
    ];
    assert_eq!(cs[0].args, expect);
    assert_eq!(cs[1].args, expect);
    assert_eq!(cs[2].args, vec!["/d".to_string(), "/k".to_string()]);
}
