use hive_pty::{launch_plan, SessionError, TermSize, DEFAULT_COLS, DEFAULT_ROWS};

fn s(text: &str) -> String {
    text.to_string()
}

#[test]
fn initial_geometry() {
    let size = TermSize::initial();
    assert_eq!(size.rows, 32);
    assert_eq!(size.cols, 120);
    assert_eq!((DEFAULT_ROWS, DEFAULT_COLS), (32, 120));
}

#[test]
fn resize_geometry_keeps_order() {
    let size = TermSize::resized(80, 24);
    assert_eq!(size.cols, 80);
    assert_eq!(size.rows, 24);
}

#[test]
fn plan_with_extension() {
    let plan = launch_plan(&s("alice"), &s("worker"), &s("id-9"), Some(s("/p/src/index.ts")));
    assert_eq!(plan.program, "pi");
    assert_eq!(plan.args, vec![s("-e"), s("/p/src/index.ts")]);
    assert_eq!(
        plan.env,
        vec![
            (s("HIVE_NAME"), s("alice")),
            (s("HIVE_ROLE"), s("worker")),
            (s("HIVE_ID"), s("id-9")),
            (s("HIVE_INTERACTIVE"), s("1")),
        ]
    );
}

#[test]
fn plan_without_extension() {
    let plan = launch_plan(&s("b"), &s("r"), &s("i"), None);
    assert_eq!(plan.program, "pi");
    assert!(plan.args.is_empty());
    assert_eq!(plan.env.len(), 4);
}

#[test]
fn error_messages() {
    let cases = vec![
        (SessionError::LockFailed, "failed to lock session map"),
        (SessionError::OpenPty(s("e")), "failed to open PTY: e"),
        (SessionError::SpawnProcess(s("e")), "failed to spawn pi: e"),
        (SessionError::CloneReader(s("e")), "failed to clone PTY reader: e"),
        (SessionError::TakeWriter(s("e")), "failed to open PTY writer: e"),
        (SessionError::Write(s("e")), "write failed: e"),
        (SessionError::Flush(s("e")), "flush failed: e"),
        (SessionError::Resize(s("e")), "resize failed: e"),
        (SessionError::Kill(s("e")), "kill failed: e"),
    ];
    for (err, text) in cases {
        assert_eq!(err.message(), text);
        assert!(!err.is_unknown_id());
        assert!(!err.is_duplicate_name());
    }
}
