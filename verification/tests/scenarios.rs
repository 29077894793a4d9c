use pueue::{Error, GroupStatus, NewTask, Selection, State, TaskResult, TaskStatus};

fn submission(command: &str, group: &str) -> NewTask {
    NewTask {
        command: command.to_string(),
        path: "/tmp".to_string(),
        envs: Vec::new(),
        group: group.to_string(),
        label: None,
        dependencies: Vec::new(),
        print_clean: false,
        stashed: false,
        enqueue_at: None,
    }
}

fn stashed_submission(command: &str, stashed: bool, enqueue_at: Option<u64>) -> NewTask {
    let mut new = submission(command, "default");
    new.stashed = stashed;
    new.enqueue_at = enqueue_at;
    new
}

fn default_name() -> String {
    "default".to_string()
}

fn kill_three(selection: Selection, group_should_pause: bool) {
    let mut state = State::new();
    assert_eq!(state.set_parallel(&default_name(), 3), Ok(()));
    for _ in 0..3 {
        assert!(state.add_task(submission("sleep 60", "default"), 10).is_ok());
    }
    assert_eq!(state.schedule(11), vec![0, 1, 2]);
    for id in 0..3 {
        assert_eq!(state.tasks[id].status, TaskStatus::Running);
    }
    let signalled = state.kill(&selection, None, 12);
    assert_eq!(signalled, vec![0, 1, 2]);
    for id in 0..3 {
        assert_eq!(state.tasks[id].status, TaskStatus::Done(TaskResult::Killed));
        assert_eq!(state.tasks[id].end, Some(12));
    }
    if group_should_pause {
        assert_eq!(state.groups[0].status, GroupStatus::Paused);
    } else {
        assert_eq!(state.groups[0].status, GroupStatus::Running);
    }
}

#[test]
fn test_kill_tasks() {
    kill_three(Selection::All, true);
    kill_three(Selection::Group(default_name()), true);
    kill_three(Selection::TaskIds(vec![0, 1, 2]), false);
}

fn enqueue_case(stashed: bool, enqueue_at: Option<u64>) {
    let now = 1_000;
    let mut state = State::new();
    assert_eq!(state.add_task(stashed_submission("sleep 10", stashed, enqueue_at), now), Ok(0));
    assert!(matches!(state.tasks[0].status, TaskStatus::Stashed { .. }));
    assert!(
        state.tasks[0].enqueued_at.is_none(),
        "Enqueued tasks shouldn't have an enqeued_at date set."
    );
    if enqueue_at.is_some() {
        assert_eq!(state.tasks[0].status, TaskStatus::Stashed { enqueue_at });
    }
    let pre_enqueue_time = now;
    assert_eq!(state.enqueue(0, None, now + 5), Ok(()));
    assert_eq!(state.schedule(now + 6), vec![0]);
    assert_eq!(state.tasks[0].status, TaskStatus::Running);
    assert!(
        state.tasks[0].enqueued_at.unwrap() > pre_enqueue_time,
        "Enqueued tasks should have an enqeued_at time set."
    );
}

#[test]
fn test_enqueued_tasks() {
    enqueue_case(true, None);
    enqueue_case(true, Some(1_000 + 120_000));
    enqueue_case(false, Some(1_000 + 120_000));
}

#[test]
fn test_delayed_tasks() {
    let now = 50_000;
    let mut state = State::new();
    assert_eq!(state.add_task(stashed_submission("sleep 10", true, Some(now + 1_000)), now), Ok(0));
    assert_eq!(state.tasks[0].status, TaskStatus::Stashed { enqueue_at: Some(now + 1_000) });
    state.tick(now + 800);
    assert!(state.schedule(now + 800).is_empty());
    assert_eq!(state.tasks[0].status, TaskStatus::Stashed { enqueue_at: Some(now + 1_000) });
    state.tick(now + 1_000);
    assert_eq!(state.tasks[0].status, TaskStatus::Queued);
    assert_eq!(state.tasks[0].enqueued_at, Some(now + 1_000));
    assert_eq!(state.schedule(now + 1_001), vec![0]);
    assert_eq!(state.tasks[0].status, TaskStatus::Running);
}

#[test]
fn test_stash_queued_task() {
    let mut state = State::new();
    assert!(state.pause(&Selection::All, false).is_empty());
    assert_eq!(state.groups[0].name, "default");
    assert_eq!(state.groups[0].status, GroupStatus::Paused);
    assert_eq!(state.add_task(submission("sleep 10", "default"), 7), Ok(0));
    assert!(state.schedule(8).is_empty());
    assert_eq!(state.stash(0), Ok(()));
    assert_eq!(state.tasks[0].status, TaskStatus::Stashed { enqueue_at: None });
    assert!(
        state.tasks[0].enqueued_at.is_none(),
        "Enqueued tasks shouldn't have an enqeued_at date set."
    );
}

#[test]
fn parallel_limit_is_kept_and_freed_slot_is_reused() {
    let mut state = State::new();
    assert_eq!(state.set_parallel(&default_name(), 2), Ok(()));
    for id in 0..3 {
        assert_eq!(state.add_task(submission("sleep 60", "default"), 1), Ok(id));
    }
    assert_eq!(state.schedule(2), vec![0, 1]);
    assert_eq!(state.tasks[0].status, TaskStatus::Running);
    assert_eq!(state.tasks[1].status, TaskStatus::Running);
    assert_eq!(state.tasks[2].status, TaskStatus::Queued);
    assert_eq!(state.occupied(&default_name()), 2);
    assert!(state.schedule(3).is_empty());
    assert_eq!(state.kill(&Selection::TaskIds(vec![0]), None, 4), vec![0]);
    assert_eq!(state.tasks[0].status, TaskStatus::Done(TaskResult::Killed));
    assert_eq!(state.groups[0].status, GroupStatus::Running);
    assert_eq!(state.schedule(5), vec![2]);
    assert_eq!(state.tasks[2].status, TaskStatus::Running);
    assert_eq!(state.tasks[2].start, Some(5));
}

#[test]
fn delayed_task_runs_after_its_time() {
    let now = 10_000;
    let mut state = State::new();
    assert_eq!(state.add_task(stashed_submission("sleep 10", true, Some(now + 1_000)), now), Ok(0));
    state.tick(now + 200);
    assert!(matches!(state.tasks[0].status, TaskStatus::Stashed { .. }));
    state.tick(now + 1_200);
    assert_eq!(state.tasks[0].status, TaskStatus::Queued);
    assert_eq!(state.schedule(now + 1_200), vec![0]);
    assert_eq!(state.tasks[0].status, TaskStatus::Running);
}

#[test]
fn kill_all_pauses_every_group() {
    let mut state = State::new();
    assert_eq!(state.add_group("build".to_string(), 2), Ok(()));
    assert_eq!(state.add_task(submission("sleep 60", "default"), 1), Ok(0));
    assert_eq!(state.add_task(submission("sleep 60", "build"), 1), Ok(1));
    assert_eq!(state.add_task(submission("sleep 60", "build"), 1), Ok(2));
    assert_eq!(state.schedule(2), vec![0, 1, 2]);
    assert_eq!(state.pause(&Selection::TaskIds(vec![1]), false), vec![1]);
    assert_eq!(state.tasks[1].status, TaskStatus::Paused);
    assert_eq!(state.groups[1].status, GroupStatus::Running);
    assert_eq!(state.kill(&Selection::All, None, 3), vec![0, 1, 2]);
    for task in state.tasks.iter() {
        assert_eq!(task.status, TaskStatus::Done(TaskResult::Killed));
    }
    for group in state.groups.iter() {
        assert_eq!(group.status, GroupStatus::Paused);
    }
    assert_eq!(state.add_task(submission("sleep 60", "default"), 4), Ok(3));
    assert!(state.schedule(5).is_empty());
}

#[test]
fn kill_with_signal_waits_for_the_exit() {
    let mut state = State::new();
    assert_eq!(state.add_task(submission("sleep 60", "default"), 1), Ok(0));
    assert_eq!(state.schedule(2), vec![0]);
    assert_eq!(state.kill(&Selection::All, Some(15), 3), vec![0]);
    assert_eq!(state.tasks[0].status, TaskStatus::Running);
    assert_eq!(state.groups[0].status, GroupStatus::Paused);
    assert_eq!(state.process_exited(0, TaskResult::Killed, 4), Ok(()));
    assert_eq!(state.tasks[0].status, TaskStatus::Done(TaskResult::Killed));
    assert_eq!(state.tasks[0].end, Some(4));
}

#[test]
fn restored_state_keeps_ended_and_queued_tasks() {
    let mut state = State::new();
    assert_eq!(state.add_task(submission("true", "default"), 1), Ok(0));
    assert_eq!(state.add_task(submission("true", "default"), 1), Ok(1));
    assert_eq!(state.schedule(2), vec![0]);
    assert_eq!(state.process_exited(0, TaskResult::Success, 3), Ok(()));
    state.settle_restored(9);
    assert_eq!(state.tasks[0].status, TaskStatus::Done(TaskResult::Success));
    assert_eq!(state.tasks[0].end, Some(3));
    assert_eq!(state.tasks[1].status, TaskStatus::Queued);
    assert_eq!(state.next_id, 2);
}

#[test]
fn restored_state_ends_tasks_that_had_a_process() {
    let mut state = State::new();
    assert_eq!(state.set_parallel(&default_name(), 0), Ok(()));
    assert_eq!(state.add_task(submission("true", "default"), 1), Ok(0));
    assert_eq!(state.add_task(submission("sleep 60", "default"), 1), Ok(1));
    assert_eq!(state.add_task(submission("sleep 60", "default"), 1), Ok(2));
    assert_eq!(state.schedule(2), vec![0, 1, 2]);
    assert_eq!(state.process_exited(0, TaskResult::Success, 3), Ok(()));
    assert_eq!(state.pause(&Selection::TaskIds(vec![2]), false), vec![2]);
    state.settle_restored(9);
    assert_eq!(state.tasks[0].status, TaskStatus::Done(TaskResult::Success));
    assert_eq!(state.tasks[1].status, TaskStatus::Done(TaskResult::Killed));
    assert_eq!(state.tasks[1].end, Some(9));
    assert_eq!(state.tasks[2].status, TaskStatus::Done(TaskResult::Killed));
    let before: Vec<TaskStatus> = state.tasks.iter().map(|t| t.status).collect();
    state.settle_restored(10);
    let after: Vec<TaskStatus> = state.tasks.iter().map(|t| t.status).collect();
    assert_eq!(before, after);
    assert_eq!(state.tasks[1].end, Some(9));
}

#[test]
fn group_in_use_cannot_be_removed() {
    let g = "g".to_string();
    let mut state = State::new();
    assert_eq!(state.add_group(g.clone(), 1), Ok(()));
    assert_eq!(state.add_task(submission("sleep 60", "g"), 1), Ok(0));
    assert_eq!(state.remove_group(&g), Err(Error::GroupInUse));
    assert_eq!(state.groups.len(), 2);
    assert_eq!(state.schedule(2), vec![0]);
    assert_eq!(state.kill(&Selection::TaskIds(vec![0]), None, 3), vec![0]);
    assert_eq!(state.remove_group(&g), Err(Error::GroupInUse));
    state.clean(false);
    assert!(state.tasks.is_empty());
    assert_eq!(state.remove_group(&g), Ok(()));
    assert_eq!(state.groups.len(), 1);
    assert_eq!(state.groups[0].name, "default");
}

#[test]
fn queue_order_is_fifo_then_id() {
    let mut state = State::new();
    assert_eq!(state.set_parallel(&default_name(), 2), Ok(()));
    assert!(state.pause(&Selection::All, false).is_empty());
    for id in 0..3 {
        assert_eq!(state.add_task(submission("true", "default"), 100), Ok(id));
    }
    assert!(state.schedule(101).is_empty());
    assert!(state.start(&Selection::All).is_empty());
    assert_eq!(state.schedule(102), vec![0, 1]);
    assert_eq!(state.process_exited(0, TaskResult::Success, 103), Ok(()));
    assert_eq!(state.schedule(104), vec![2]);
}

#[test]
fn earlier_enqueue_time_goes_first() {
    let mut state = State::new();
    assert!(state.pause(&Selection::All, true).is_empty());
    assert_eq!(state.add_task(stashed_submission("a", true, None), 10), Ok(0));
    assert_eq!(state.add_task(submission("b", "default"), 20), Ok(1));
    assert_eq!(state.add_task(submission("c", "default"), 20), Ok(2));
    assert_eq!(state.enqueue(0, None, 30), Ok(()));
    assert!(state.start(&Selection::All).is_empty());
    assert_eq!(state.start_next(40), Some(1));
    assert_eq!(state.process_exited(1, TaskResult::Failed(2), 41), Ok(()));
    assert_eq!(state.start_next(42), Some(2));
    assert_eq!(state.process_exited(2, TaskResult::Success, 43), Ok(()));
    assert_eq!(state.start_next(44), Some(0));
    assert_eq!(state.start_next(45), None);
}
