use lib::sched::{alive_tasks, current, init, spawn, task_exit, yield_now, Sched, State, MAX_TASKS, STACK_SIZE};

const BASE: u64 = 0x4100_0000;

fn booted() -> Sched {
    let mut s = Sched::new();
    init(&mut s);
    s
}

#[test]
fn new_table_is_empty() {
    let s = Sched::new();
    assert_eq!(s.tasks.len(), MAX_TASKS);
    assert!(s.tasks.iter().all(|t| t.state == State::Unused));
    assert_eq!(alive_tasks(&s), 0);
    assert_eq!(current(&s), 0);
}

#[test]
fn init_makes_kernel_task_running() {
    let s = booted();
    assert_eq!(s.tasks[0].state, State::Running);
    assert_eq!(current(&s), 0);
    assert_eq!(alive_tasks(&s), 1);
}

#[test]
fn spawn_takes_first_unused_slot() {
    let mut s = booted();
    let id = spawn(&mut s, 0x4008_1000, 0x4008_0800, BASE);
    assert_eq!(id, Some(1));
    let t = s.tasks[1];
    assert_eq!(t.state, State::Ready);
    assert_eq!(t.ctx.x19, 0x4008_1000);
    assert_eq!(t.ctx.lr, 0x4008_0800);
    assert_eq!(t.ctx.sp, BASE + 2 * STACK_SIZE as u64);
    assert_eq!(t.ctx.x20, 0);
    assert_eq!(t.ctx.fp, 0);
    assert_eq!(alive_tasks(&s), 2);
    assert_eq!(current(&s), 0);
}

#[test]
fn spawn_until_full() {
    let mut s = booted();
    for k in 1..MAX_TASKS {
        assert_eq!(spawn(&mut s, k as u64, 0, BASE), Some(k));
    }
    assert_eq!(spawn(&mut s, 99, 0, BASE), None);
    assert_eq!(alive_tasks(&s), MAX_TASKS);
}

#[test]
fn yield_switches_round_robin() {
    let mut s = booted();
    spawn(&mut s, 1, 0, BASE);
    assert_eq!(yield_now(&mut s), Some((0, 1)));
    assert_eq!(s.tasks[0].state, State::Ready);
    assert_eq!(s.tasks[1].state, State::Running);
    assert_eq!(current(&s), 1);
    assert_eq!(alive_tasks(&s), 2);
    assert_eq!(yield_now(&mut s), Some((1, 0)));
    assert_eq!(current(&s), 0);
    assert_eq!(s.tasks[1].state, State::Ready);
}

#[test]
fn yield_with_nothing_ready() {
    let mut s = booted();
    assert_eq!(yield_now(&mut s), None);
    assert_eq!(current(&s), 0);
    assert_eq!(s.tasks[0].state, State::Running);
}

#[test]
fn yield_picks_next_after_current_wrapping() {
    let mut s = Sched::new();
    s.tasks[2].state = State::Ready;
    s.tasks[5].state = State::Ready;
    s.current = 3;
    s.tasks[3].state = State::Running;
    assert_eq!(yield_now(&mut s), Some((3, 5)));
    s.tasks[6].state = State::Blocked;
    s.current = 6;
    s.tasks[5].state = State::Blocked;
    assert_eq!(yield_now(&mut s), Some((6, 2)));
    assert_eq!(s.tasks[6].state, State::Blocked);
    assert_eq!(s.tasks[2].state, State::Running);
}

#[test]
fn exit_then_yield() {
    let mut s = booted();
    spawn(&mut s, 1, 0, BASE);
    yield_now(&mut s);
    assert_eq!(current(&s), 1);
    task_exit(&mut s);
    assert_eq!(s.tasks[1].state, State::Exited);
    assert_eq!(alive_tasks(&s), 1);
    assert_eq!(yield_now(&mut s), Some((1, 0)));
    assert_eq!(s.tasks[1].state, State::Exited);
    assert_eq!(s.tasks[0].state, State::Running);
    assert_eq!(yield_now(&mut s), None);
}

#[test]
fn at_most_one_running_over_a_run() {
    let mut s = booted();
    for k in 1..4 {
        spawn(&mut s, k, 0, BASE);
    }
    for _ in 0..10 {
        yield_now(&mut s);
        let running: Vec<usize> = (0..MAX_TASKS).filter(|&j| s.tasks[j].state == State::Running).collect();
        assert_eq!(running, vec![current(&s)]);
        assert_eq!(alive_tasks(&s), 4);
    }
}
