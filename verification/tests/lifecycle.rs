use pueue::startup::{exit_code, init_directories, needs_certificates, Directory, Exit};
use pueue::tls::{load_identity, select_identity};
use pueue::{
    Error, Group, GroupStatus, Lifecycle, NewTask, ShutdownKind, State, Task, TaskResult,
    TaskStatus, TlsError,
};

const LOST: &str = "The process was lost when the daemon stopped.";

fn stored_task(id: u64, group: &str, status: TaskStatus) -> Task {
    Task {
        id,
        command: "sleep 60".to_string(),
        path: "/".to_string(),
        envs: Vec::new(),
        group: group.to_string(),
        status,
        created_at: 1,
        enqueued_at: Some(1),
        start: None,
        end: None,
        label: None,
        dependencies: Vec::new(),
        print_clean: false,
        note: None,
    }
}

fn stored_group(name: &str, parallel: usize, status: GroupStatus) -> Group {
    Group { name: name.to_string(), parallel, status }
}

fn queued(command: &str) -> NewTask {
    NewTask {
        command: command.to_string(),
        path: "/".to_string(),
        envs: Vec::new(),
        group: "default".to_string(),
        label: None,
        dependencies: Vec::new(),
        print_clean: false,
        stashed: false,
        enqueue_at: None,
    }
}

fn pem(kind: &str, body: &str) -> Vec<u8> {
    format!("-----BEGIN {kind}-----\n{body}\n-----END {kind}-----\n").into_bytes()
}

#[test]
fn restore_takes_over_a_valid_state() {
    let tasks = vec![
        stored_task(0, "default", TaskStatus::Done(TaskResult::Success)),
        stored_task(3, "work", TaskStatus::Running),
        stored_task(4, "work", TaskStatus::Paused),
        stored_task(7, "default", TaskStatus::Queued),
    ];
    let groups = vec![
        stored_group("default", 1, GroupStatus::Paused),
        stored_group("work", 1, GroupStatus::Running),
    ];
    let state = State::restore(tasks, groups, 8, 50);
    assert_eq!(state.next_id, 8);
    assert_eq!(state.groups.len(), 2);
    assert_eq!(state.groups[0].status, GroupStatus::Paused);
    assert_eq!(state.tasks.len(), 4);
    assert_eq!(state.tasks[0].status, TaskStatus::Done(TaskResult::Success));
    assert_eq!(state.tasks[0].end, None);
    assert_eq!(state.tasks[1].status, TaskStatus::Done(TaskResult::Killed));
    assert_eq!(state.tasks[1].end, Some(50));
    assert_eq!(
        state.tasks[1].note,
        Some(LOST.to_string())
    );
    assert_eq!(state.tasks[0].note, None);
    assert_eq!(state.tasks[3].note, None);
    assert_eq!(state.tasks[2].status, TaskStatus::Done(TaskResult::Killed));
    assert_eq!(state.tasks[3].status, TaskStatus::Queued);
    assert!(state.is_valid());
    assert!(state.is_within_limits());
}

#[test]
fn restore_of_a_malformed_state_starts_anew() {
    let unknown_group = State::restore(
        vec![stored_task(0, "gone", TaskStatus::Queued)],
        vec![stored_group("default", 1, GroupStatus::Running)],
        1,
        5,
    );
    assert!(unknown_group.tasks.is_empty());
    assert_eq!(unknown_group.next_id, 0);
    assert_eq!(unknown_group.groups.len(), 1);
    assert_eq!(unknown_group.groups[0].name, "default");

    let id_at_counter = State::restore(
        vec![stored_task(1, "default", TaskStatus::Queued)],
        vec![stored_group("default", 1, GroupStatus::Running)],
        1,
        5,
    );
    assert!(id_at_counter.tasks.is_empty());

    let no_default = State::restore(Vec::new(), vec![stored_group("work", 1, GroupStatus::Running)], 0, 5);
    assert_eq!(no_default.groups[0].name, "default");
}

#[test]
fn validity_names_each_invariant() {
    let mut state = State::new();
    assert!(state.is_valid());
    state.tasks.push(stored_task(2, "default", TaskStatus::Queued));
    state.next_id = 3;
    assert!(state.is_valid());
    state.tasks.push(stored_task(2, "default", TaskStatus::Queued));
    assert!(!state.is_valid());
    state.tasks[1].id = 1;
    assert!(!state.is_valid());
    state.tasks[1].id = 3;
    assert!(!state.is_valid());
    state.next_id = 4;
    assert!(state.is_valid());
    state.groups.push(stored_group("default", 1, GroupStatus::Running));
    assert!(!state.is_valid());
    state.groups[1].name = "all".to_string();
    assert!(!state.is_valid());
    state.groups[1].name = String::new();
    assert!(!state.is_valid());
    state.groups[1].name = "x".to_string();
    assert!(state.is_valid());
    state.groups.swap(0, 1);
    assert!(!state.is_valid());
}

#[test]
fn limits_count_running_and_paused_tasks() {
    let mut state = State::new();
    state.tasks.push(stored_task(0, "default", TaskStatus::Running));
    state.next_id = 2;
    assert!(state.is_within_limits());
    state.tasks.push(stored_task(1, "default", TaskStatus::Paused));
    assert!(state.is_valid());
    assert!(!state.is_within_limits());
    assert_eq!(state.set_parallel(&"default".to_string(), 2), Ok(()));
    assert!(state.is_within_limits());
    assert_eq!(state.set_parallel(&"default".to_string(), 0), Ok(()));
    assert!(state.is_within_limits());
}

#[test]
fn emergency_shutdown_kills_at_once() {
    let mut state = State::new();
    let mut life = Lifecycle::new();
    assert_eq!(life.accepts(false), Ok(()));
    assert_eq!(state.add_task(queued("sleep 60"), 1), Ok(0));
    assert_eq!(state.add_task(queued("sleep 60"), 1), Ok(1));
    assert_eq!(state.schedule(2), vec![0]);
    assert_eq!(life.begin(&mut state, ShutdownKind::Emergency, 10_000, 3), vec![0]);
    assert!(life.shutting_down);
    assert_eq!(life.deadline, None);
    assert_eq!(life.accepts(false), Err(Error::Shutdown));
    assert_eq!(life.accepts(true), Ok(()));
    assert!(!life.starts_tasks());
    assert_eq!(state.tasks[0].status, TaskStatus::Done(TaskResult::Killed));
    assert_eq!(state.tasks[0].end, Some(3));
    assert_eq!(state.tasks[0].note, Some(LOST.to_string()));
    assert_eq!(state.tasks[1].status, TaskStatus::Queued);
    assert_eq!(state.tasks[1].note, None);
    assert_eq!(state.groups[0].status, GroupStatus::Running);
}

#[test]
fn task_running_at_shutdown_shows_the_note_after_restart() {
    let mut state = State::new();
    let mut life = Lifecycle::new();
    assert!(life.starts_tasks());
    assert_eq!(state.set_parallel(&"default".to_string(), 2), Ok(()));
    for id in 0..4 {
        assert_eq!(state.add_task(queued("sleep 60"), 1), Ok(id));
    }
    assert_eq!(state.schedule(2), vec![0, 1]);
    assert_eq!(life.exited(&mut state, 0, TaskResult::Success, 3), Ok(()));
    assert_eq!(state.tasks[0].status, TaskStatus::Done(TaskResult::Success));
    assert_eq!(state.tasks[0].note, None);
    assert_eq!(state.schedule(4), vec![2]);
    assert_eq!(life.begin(&mut state, ShutdownKind::Graceful, 100, 5), vec![1, 2]);
    assert_eq!(state.tasks[1].status, TaskStatus::Running);
    assert_eq!(life.exited(&mut state, 1, TaskResult::Failed(143), 6), Ok(()));
    assert_eq!(life.exited(&mut state, 1, TaskResult::Killed, 6), Err(Error::TaskWrongState));
    assert_eq!(life.exited(&mut state, 9, TaskResult::Killed, 6), Err(Error::TaskNotFound));
    assert!(!life.finished(&state));
    assert!(life.drain_over(105));
    assert_eq!(state.stop_all(105), vec![2]);
    assert!(life.finished(&state));
    let restored = State::restore(state.tasks, state.groups, state.next_id, 200);
    assert_eq!(restored.tasks[0].status, TaskStatus::Done(TaskResult::Success));
    assert_eq!(restored.tasks[0].note, None);
    assert_eq!(restored.tasks[1].status, TaskStatus::Done(TaskResult::Killed));
    assert_eq!(restored.tasks[1].end, Some(6));
    assert_eq!(restored.tasks[1].note, Some(LOST.to_string()));
    assert_eq!(restored.tasks[2].status, TaskStatus::Done(TaskResult::Killed));
    assert_eq!(restored.tasks[2].end, Some(105));
    assert_eq!(restored.tasks[2].note, Some(LOST.to_string()));
    assert_eq!(restored.tasks[3].status, TaskStatus::Queued);
    assert_eq!(restored.groups[0].status, GroupStatus::Running);
    assert_eq!(restored.next_id, 4);
}

#[test]
fn process_lost_sets_the_note() {
    let mut state = State::new();
    assert_eq!(state.add_task(queued("sleep 60"), 1), Ok(0));
    assert_eq!(state.process_lost(0, 2), Err(Error::TaskWrongState));
    assert_eq!(state.process_lost(3, 2), Err(Error::TaskNotFound));
    assert_eq!(state.active_ids(), Vec::<u64>::new());
    assert_eq!(state.schedule(2), vec![0]);
    assert_eq!(state.active_ids(), vec![0]);
    assert_eq!(state.process_lost(0, 3), Ok(()));
    assert_eq!(state.tasks[0].status, TaskStatus::Done(TaskResult::Killed));
    assert_eq!(state.tasks[0].end, Some(3));
    assert_eq!(state.tasks[0].note, Some(LOST.to_string()));
}

#[test]
fn graceful_shutdown_waits_for_the_window() {
    let mut state = State::new();
    let mut life = Lifecycle::new();
    assert!(!life.drain_over(u64::MAX));
    assert_eq!(state.add_task(queued("sleep 60"), 1), Ok(0));
    assert_eq!(state.schedule(2), vec![0]);
    assert_eq!(life.begin(&mut state, ShutdownKind::Graceful, 10_000, 3), vec![0]);
    assert_eq!(life.deadline, Some(10_003));
    assert_eq!(state.tasks[0].status, TaskStatus::Running);
    assert!(!life.drain_over(10_002));
    assert!(life.drain_over(10_003));
    assert_eq!(state.groups[0].status, GroupStatus::Running);
    assert_eq!(state.stop_all(10_003), vec![0]);
    assert_eq!(state.tasks[0].status, TaskStatus::Done(TaskResult::Killed));
    assert_eq!(state.tasks[0].note, Some(LOST.to_string()));
    let mut late = Lifecycle::new();
    let _ = late.begin(&mut state, ShutdownKind::Graceful, 5, u64::MAX - 1);
    assert_eq!(late.deadline, Some(u64::MAX));
}

#[test]
fn identity_is_all_certificates_and_the_first_key() {
    let mut certs = pem("CERTIFICATE", "AQID");
    certs.extend(pem("CERTIFICATE", "BAUG"));
    let mut keys = pem("RSA PRIVATE KEY", "BwgJ");
    keys.extend(pem("RSA PRIVATE KEY", "AQID"));
    let identity = load_identity(&certs, &keys).unwrap();
    assert_eq!(identity.chain, vec![vec![1u8, 2, 3], vec![4u8, 5, 6]]);
    assert_eq!(identity.key, vec![7u8, 8, 9]);
}

#[test]
fn identity_errors() {
    let good_cert = pem("CERTIFICATE", "AQID");
    let good_key = pem("RSA PRIVATE KEY", "BwgJ");
    let bad_cert = pem("CERTIFICATE", "!!!");
    let bad_key = pem("RSA PRIVATE KEY", "!!!");
    assert_eq!(load_identity(&bad_cert, &good_key).err(), Some(TlsError::CertificateParse));
    assert_eq!(load_identity(&bad_cert, &bad_key).err(), Some(TlsError::CertificateParse));
    assert_eq!(load_identity(&good_cert, &bad_key).err(), Some(TlsError::KeyParse));
    assert_eq!(load_identity(&good_cert, &Vec::new()).err(), Some(TlsError::NoKey));
    assert_eq!(load_identity(&good_cert, &good_cert).err(), Some(TlsError::NoKey));
    let empty_chain = load_identity(&Vec::new(), &good_key).unwrap();
    assert!(empty_chain.chain.is_empty());
    assert_eq!(empty_chain.key, vec![7u8, 8, 9]);
}

#[test]
fn selected_identity_follows_the_parse_results() {
    assert_eq!(select_identity(None, None).err(), Some(TlsError::CertificateParse));
    assert_eq!(select_identity(Some(Vec::new()), None).err(), Some(TlsError::KeyParse));
    assert_eq!(select_identity(Some(Vec::new()), Some(Vec::new())).err(), Some(TlsError::NoKey));
    let identity = select_identity(Some(vec![vec![9u8]]), Some(vec![vec![1u8], vec![2u8]])).unwrap();
    assert_eq!(identity.chain, vec![vec![9u8]]);
    assert_eq!(identity.key, vec![1u8]);
}

#[test]
fn shutdown_is_finished_when_no_process_is_left() {
    let mut state = State::new();
    let mut life = Lifecycle::new();
    assert!(!life.finished(&state));
    assert_eq!(state.add_task(queued("sleep 60"), 1), Ok(0));
    assert_eq!(state.schedule(2), vec![0]);
    assert_eq!(life.begin(&mut state, ShutdownKind::Graceful, 100, 3), vec![0]);
    assert!(!life.finished(&state));
    assert_eq!(state.process_exited(0, TaskResult::Killed, 4), Ok(()));
    assert!(life.finished(&state));
}

#[test]
fn missing_directories_are_created_in_order() {
    assert_eq!(
        init_directories(false, false, false, false),
        vec![Directory::Base, Directory::Log, Directory::Certs, Directory::TaskLogs]
    );
    assert_eq!(init_directories(true, true, true, true), Vec::<Directory>::new());
    assert_eq!(init_directories(true, false, true, false), vec![Directory::Log, Directory::TaskLogs]);
    assert_eq!(init_directories(true, true, false, true), vec![Directory::Certs]);
}

#[test]
fn certificates_are_made_when_both_files_are_missing() {
    assert!(needs_certificates(false, false));
    assert!(!needs_certificates(true, false));
    assert!(!needs_certificates(false, true));
    assert!(!needs_certificates(true, true));
}

#[test]
fn exit_codes() {
    assert_eq!(exit_code(Exit::Normal), 0);
    assert_eq!(exit_code(Exit::Failure), 1);
    assert_eq!(exit_code(Exit::ConfigError), 2);
    assert_eq!(exit_code(Exit::PidConflict), 3);
}
