use hive_pty::{AgentInfo, SessionError, SessionRegistry};

fn s(text: &str) -> String {
    text.to_string()
}

fn names(rows: &[AgentInfo]) -> Vec<String> {
    rows.iter().map(|r| r.name.clone()).collect()
}

#[test]
fn empty_registry_lists_nothing() {
    let reg: SessionRegistry<Vec<u8>> = SessionRegistry::new();
    assert_eq!(reg.len(), 0);
    assert!(reg.list().is_empty());
}

#[test]
fn spawned_session_is_listed_once() {
    let mut reg: SessionRegistry<Vec<u8>> = SessionRegistry::new();
    let id = reg.begin_spawn(&s("alice")).unwrap();
    let res = reg.insert(id.clone(), s("alice"), s("worker"), Vec::new()).unwrap();
    assert_eq!(res.id, id);
    assert_eq!(res.name, "alice");
    assert_eq!(res.role, "worker");
    let rows = reg.list();
    assert_eq!(rows.len(), 1);
    assert_eq!(rows.iter().filter(|r| r.id == id).count(), 1);
    assert_eq!(rows[0].name, "alice");
    assert_eq!(rows[0].role, "worker");
}

#[test]
fn distinct_names_get_distinct_ids() {
    let mut reg: SessionRegistry<Vec<u8>> = SessionRegistry::new();
    let mut ids = Vec::new();
    for name in ["a", "b", "c", "d"] {
        let id = reg.begin_spawn(&s(name)).unwrap();
        reg.insert(id.clone(), s(name), s("r"), Vec::new()).unwrap();
        ids.push(id);
    }
    for i in 0..ids.len() {
        for j in 0..ids.len() {
            if i != j {
                assert_ne!(ids[i], ids[j]);
            }
        }
    }
    assert_eq!(reg.len(), 4);
}

#[test]
fn drawn_ids_have_uuid_shape() {
    let reg: SessionRegistry<Vec<u8>> = SessionRegistry::new();
    let a = reg.begin_spawn(&s("x")).unwrap();
    let b = reg.begin_spawn(&s("x")).unwrap();
    assert_eq!(a.len(), 36);
    assert_eq!(a.as_bytes()[8], b'-');
    assert_eq!(a.as_bytes()[14], b'4');
    assert_ne!(a, b);
}

#[test]
fn duplicate_name_is_refused() {
    let mut reg: SessionRegistry<Vec<u8>> = SessionRegistry::new();
    let id = reg.begin_spawn(&s("alice")).unwrap();
    reg.insert(id, s("alice"), s("worker"), Vec::new()).unwrap();
    let err = reg.begin_spawn(&s("alice")).unwrap_err();
    assert!(err.is_duplicate_name());
    assert_eq!(err.message(), "agent name \"alice\" is already running");
    let rows = reg.list();
    assert_eq!(names(&rows), vec![s("alice")]);
    assert_eq!(rows[0].role, "worker");
}

#[test]
fn insert_refuses_duplicate_name_and_keeps_registry() {
    let mut reg: SessionRegistry<Vec<u8>> = SessionRegistry::new();
    reg.insert(s("id-1"), s("alice"), s("worker"), Vec::new()).unwrap();
    let err = match reg.insert(s("id-2"), s("alice"), s("other"), Vec::new()) {
        Err(e) => e,
        Ok(_) => panic!("second alice was accepted"),
    };
    assert!(matches!(err, SessionError::DuplicateName(ref n) if n == "alice"));
    let rows = reg.list();
    assert_eq!(rows.len(), 1);
    assert_eq!(rows[0].id, "id-1");
    assert_eq!(rows[0].role, "worker");
}

#[test]
fn insert_refuses_live_id() {
    let mut reg: SessionRegistry<Vec<u8>> = SessionRegistry::new();
    reg.insert(s("id-1"), s("alice"), s("worker"), Vec::new()).unwrap();
    let err = match reg.insert(s("id-1"), s("bob"), s("x"), Vec::new()) {
        Err(e) => e,
        Ok(_) => panic!("live id was accepted"),
    };
    assert!(matches!(err, SessionError::IdCollision(ref i) if i == "id-1"));
    assert_eq!(err.message(), "agent id id-1 is already in use");
    assert_eq!(reg.len(), 1);
}

#[test]
fn write_reaches_the_session_handle() {
    let mut reg: SessionRegistry<Vec<u8>> = SessionRegistry::new();
    let id = reg.begin_spawn(&s("bob")).unwrap();
    reg.insert(id.clone(), s("bob"), s("x"), Vec::new()).unwrap();
    let writer = reg.handle_mut(&id).unwrap();
    writer.extend_from_slice("echo hi\n".as_bytes());
    assert_eq!(reg.handle_mut(&id).unwrap().as_slice(), b"echo hi\n");
    assert_eq!(reg.len(), 1);
}

#[test]
fn kill_then_write_is_unknown_id() {
    let mut reg: SessionRegistry<Vec<u8>> = SessionRegistry::new();
    let id = reg.begin_spawn(&s("carl")).unwrap();
    reg.insert(id.clone(), s("carl"), s("x"), Vec::new()).unwrap();
    let killed = reg.take(&id).unwrap();
    assert_eq!(killed.id, id);
    assert_eq!(killed.name, "carl");
    assert_eq!(killed.role, "x");
    let err = reg.handle_mut(&id).unwrap_err();
    assert!(err.is_unknown_id());
    assert_eq!(err.message(), format!("unknown agent id {}", id));
    assert!(reg.list().iter().all(|r| r.id != id));
    assert!(reg.take(&id).unwrap_err().is_unknown_id());
}

#[test]
fn unknown_id_leaves_registry_alone() {
    let mut reg: SessionRegistry<Vec<u8>> = SessionRegistry::new();
    reg.insert(s("id-1"), s("dora"), s("lead"), Vec::new()).unwrap();
    let err = reg.handle_mut(&s("nonexistent-id")).unwrap_err();
    assert!(matches!(err, SessionError::UnknownId(ref i) if i == "nonexistent-id"));
    assert_eq!(err.message(), "unknown agent id nonexistent-id");
    assert!(reg.take(&s("nonexistent-id")).is_err());
    let rows = reg.list();
    assert_eq!(rows.len(), 1);
    assert_eq!(rows[0].id, "id-1");
    assert_eq!(rows[0].name, "dora");
}

#[test]
fn killed_name_can_be_spawned_again() {
    let mut reg: SessionRegistry<Vec<u8>> = SessionRegistry::new();
    reg.insert(s("id-1"), s("eve"), s("a"), Vec::new()).unwrap();
    reg.take(&s("id-1")).unwrap();
    let id = reg.begin_spawn(&s("eve")).unwrap();
    reg.insert(id.clone(), s("eve"), s("b"), Vec::new()).unwrap();
    let rows = reg.list();
    assert_eq!(rows.len(), 1);
    assert_eq!(rows[0].id, id);
    assert_eq!(rows[0].role, "b");
}

#[test]
fn take_from_middle_keeps_the_rest() {
    let mut reg: SessionRegistry<u32> = SessionRegistry::new();
    reg.insert(s("1"), s("a"), s("r"), 10).unwrap();
    reg.insert(s("2"), s("b"), s("r"), 20).unwrap();
    reg.insert(s("3"), s("c"), s("r"), 30).unwrap();
    assert_eq!(reg.take(&s("2")).unwrap().handle, 20);
    assert!(reg.contains_id(&s("1")));
    assert!(!reg.contains_id(&s("2")));
    assert!(reg.name_in_use(&s("c")));
    assert!(!reg.name_in_use(&s("b")));
    assert_eq!(*reg.handle_mut(&s("3")).unwrap(), 30);
    assert_eq!(reg.len(), 2);
}

#[test]
fn each_id_reaches_its_own_handle() {
    let mut reg: SessionRegistry<Vec<u8>> = SessionRegistry::new();
    reg.insert(s("1"), s("a"), s("r"), b"one".to_vec()).unwrap();
    reg.insert(s("2"), s("b"), s("r"), b"two".to_vec()).unwrap();
    reg.insert(s("3"), s("c"), s("r"), b"three".to_vec()).unwrap();
    reg.handle_mut(&s("2")).unwrap().extend_from_slice(b"!");
    assert_eq!(reg.handle_mut(&s("1")).unwrap().as_slice(), b"one");
    assert_eq!(reg.handle_mut(&s("2")).unwrap().as_slice(), b"two!");
    assert_eq!(reg.handle_mut(&s("3")).unwrap().as_slice(), b"three");
    assert_eq!(reg.take(&s("1")).unwrap().handle, b"one".to_vec());
    assert_eq!(reg.handle_mut(&s("3")).unwrap().as_slice(), b"three");
    assert_eq!(reg.take(&s("3")).unwrap().handle, b"three".to_vec());
    assert_eq!(reg.take(&s("2")).unwrap().handle, b"two!".to_vec());
}
