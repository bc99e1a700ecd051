use pty_core::pty::{PtyError, PtyManager, ShellChoice};
use pty_core::relay::{relay_session, PtyReader};
use pty_core::shell::Candidate;
use std::sync::mpsc::channel;

/// Run the relay to end-of-stream and return everything the sink received.
fn drain(reader: PtyReader, id: &str) -> String {
    let (tx, rx) = channel::<(String, String)>();
    relay_session(reader, id.to_string(), move |sid, data| {
        let _ = tx.send((sid, data));
    });
    let mut all = String::new();
    while let Ok((sid, data)) = rx.try_recv() {
        assert_eq!(sid, id);
        all.push_str(&data);
    }
    all
}

fn sh_choice() -> ShellChoice {
    ShellChoice::Posix { shell_path: "/bin/sh".to_string() }
}

#[test]
fn write_on_unknown_id_fails_not_found() {
    let mut m = PtyManager::new();
    let r = m.write("ghost", "echo nope\n");
    assert!(matches!(r, Err(PtyError::NotFound(_))));
    if let Err(e) = m.write("ghost", "x") {
        assert_eq!(e.message(), "session ghost not found");
    } else {
        panic!("expected a not-found error");
    }
    assert_eq!(m.len(), 0);
}

#[test]
fn spawn_then_write_echoes_token() {
    let mut m = PtyManager::new();
    let reader = m.spawn("s1".to_string(), 80, 24, sh_choice()).expect("spawn");
    m.write("s1", "echo hello_token_123\n").expect("write");
    m.write("s1", "exit\n").expect("write exit");
    let out = drain(reader, "s1");
    assert!(out.contains("hello_token_123"), "output was: {out:?}");
    assert_eq!(m.len(), 1);
}

#[test]
fn other_geometries_work_too() {
    let mut m = PtyManager::new();
    let reader = m.spawn("wide".to_string(), 132, 50, sh_choice()).expect("spawn");
    m.write("wide", "echo geometry_ok\nexit\n").expect("write");
    let out = drain(reader, "wide");
    assert!(out.contains("geometry_ok"), "output was: {out:?}");
}

#[test]
fn sequential_commands_keep_output_order() {
    let mut m = PtyManager::new();
    let reader = m.spawn("ord".to_string(), 80, 24, sh_choice()).expect("spawn");
    m.write("ord", "echo AAA111\n").expect("write a");
    m.write("ord", "echo BBB222\n").expect("write b");
    m.write("ord", "exit\n").expect("write exit");
    let out = drain(reader, "ord");
    let a = out.find("AAA111").expect("first command's output missing");
    let b = out.find("BBB222").expect("second command's output missing");
    assert!(a < b, "output was: {out:?}");
}

#[test]
fn respawn_overwrites_and_routes_to_new_shell() {
    let mut m = PtyManager::new();
    let first = m.spawn("s1".to_string(), 80, 24, sh_choice()).expect("first spawn");
    m.write("s1", "exit\n").expect("write exit");
    let _old_out = drain(first, "s1");

    // respawn the same id with a different program: writes must reach it
    let second = m
        .spawn("s1".to_string(), 80, 24, ShellChoice::Posix { shell_path: "/bin/cat".to_string() })
        .expect("respawn");
    assert_eq!(m.len(), 1);
    m.write("s1", "NEW_MARKER_99\n").expect("write marker");
    m.write("s1", "\u{0004}").expect("write eof");
    let out = drain(second, "s1");
    assert!(out.contains("NEW_MARKER_99"), "output was: {out:?}");
}

#[test]
fn fallback_reaches_later_candidate() {
    let mut m = PtyManager::new();
    let candidates = vec![
        Candidate { program: "/nonexistent/alpha".to_string(), args: vec![] },
        Candidate { program: "/nonexistent/beta".to_string(), args: vec![] },
        Candidate { program: "/bin/sh".to_string(), args: vec![] },
    ];
    let reader = m.spawn_with_candidates("fb".to_string(), 80, 24, candidates).expect("fallback");
    m.write("fb", "echo FALLBACK_OK\nexit\n").expect("write");
    let out = drain(reader, "fb");
    assert!(out.contains("FALLBACK_OK"), "output was: {out:?}");
}

#[test]
fn exhausted_fallback_reports_last_failure() {
    let mut m = PtyManager::new();
    let candidates = vec![
        Candidate { program: "/nonexistent/alpha".to_string(), args: vec![] },
        Candidate { program: "/nonexistent/beta".to_string(), args: vec![] },
    ];
    let r = m.spawn_with_candidates("bad".to_string(), 80, 24, candidates);
    match r {
        Err(PtyError::Launch(msg)) => {
            assert!(msg.starts_with("/nonexistent/beta failed:"), "message was: {msg:?}");
        }
        _ => panic!("expected a launch error"),
    }
    assert_eq!(m.len(), 0);
}

#[test]
fn empty_candidate_list_makes_no_attempt() {
    let mut m = PtyManager::new();
    let r = m.spawn_with_candidates("none".to_string(), 80, 24, Vec::new());
    match r {
        Err(PtyError::Launch(msg)) => assert_eq!(msg, "no shell attempts were made"),
        _ => panic!("expected a launch error"),
    }
}

#[test]
fn failed_write_leaves_entry_in_place() {
    let mut m = PtyManager::new();
    let reader = m.spawn("gone".to_string(), 80, 24, sh_choice()).expect("spawn");
    m.write("gone", "exit\n").expect("write exit");
    let _ = drain(reader, "gone");
    // the shell has exited; the entry stays and a later write is not a
    // not-found error (it may succeed while the pipe buffers, or fail as I/O)
    let r = m.write("gone", "echo into the void\n");
    assert!(!matches!(r, Err(PtyError::NotFound(_))));
    assert_eq!(m.len(), 1);
}
