use hive_pty::{
    exited_event, ForwardStep, OutputForwarder, ReadOutcome, SessionRegistry, READ_CHUNK_SIZE,
};

fn s(text: &str) -> String {
    text.to_string()
}

fn emitted(step: ForwardStep) -> Vec<u8> {
    match step {
        ForwardStep::Emit(ev) => ev.data,
        ForwardStep::Stop => panic!("expected an output event"),
    }
}

#[test]
fn read_bytes_become_one_event() {
    let mut f = OutputForwarder::new(s("sess"));
    let mut buffer = [0u8; READ_CHUNK_SIZE];
    buffer[..4].copy_from_slice(b"hi\r\n");
    match f.on_read(ReadOutcome::Data(4), &buffer) {
        ForwardStep::Emit(ev) => {
            assert_eq!(ev.id, "sess");
            assert_eq!(ev.data, b"hi\r\n".to_vec());
        }
        ForwardStep::Stop => panic!("stopped on data"),
    }
    assert!(!f.is_stopped());
}

#[test]
fn chunks_arrive_in_order() {
    let produced = b"the quick brown fox".to_vec();
    for chunk in [1usize, 2, 5, 19] {
        let mut f = OutputForwarder::new(s("id"));
        let mut seen = Vec::new();
        for piece in produced.chunks(chunk) {
            let mut buffer = [0u8; 32];
            buffer[..piece.len()].copy_from_slice(piece);
            seen.extend(emitted(f.on_read(ReadOutcome::Data(piece.len()), &buffer)));
        }
        assert_eq!(seen, produced);
    }
}

#[test]
fn end_of_stream_stops() {
    let mut f = OutputForwarder::new(s("id"));
    let buffer = [7u8; 8];
    assert!(matches!(f.on_read(ReadOutcome::Data(0), &buffer), ForwardStep::Stop));
    assert!(f.is_stopped());
}

#[test]
fn failed_read_stops() {
    let mut f = OutputForwarder::new(s("id"));
    let buffer = [7u8; 8];
    assert!(matches!(f.on_read(ReadOutcome::Failed, &buffer), ForwardStep::Stop));
    assert!(f.is_stopped());
}

#[test]
fn finish_removes_session_and_reports_exit() {
    let mut reg: SessionRegistry<u8> = SessionRegistry::new();
    reg.insert(s("id-1"), s("a"), s("r"), 0).unwrap();
    reg.insert(s("id-2"), s("b"), s("r"), 0).unwrap();
    let mut f = OutputForwarder::new(s("id-1"));
    assert_eq!(f.id(), "id-1");
    let _ = f.on_read(ReadOutcome::Data(0), &[0u8; 1]);
    let ev = f.finish(&mut reg);
    assert_eq!(ev.id, "id-1");
    assert_eq!(ev.code, None);
    let rows = reg.list();
    assert_eq!(rows.len(), 1);
    assert_eq!(rows[0].id, "id-2");
    let again = f.finish(&mut reg);
    assert_eq!(again.id, "id-1");
    assert_eq!(reg.len(), 1);
}

#[test]
fn exit_event_has_no_code() {
    let ev = exited_event(&s("xyz"));
    assert_eq!(ev.id, "xyz");
    assert!(ev.code.is_none());
}
