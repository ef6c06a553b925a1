//! Cooperative round-robin scheduler: the task table and its transitions.
//!
//! The table lives in a `Sched`; switching stacks and registers is the
//! caller's part: `yield_now` says which task to leave and which to enter.
use vstd::prelude::*;
use crate::arch::aarch64::context::Context;

verus! {

pub const MAX_TASKS: usize = 8;
pub const STACK_SIZE: usize = 16384;

pub type TaskId = usize;

#[derive(Clone, Copy, PartialEq, Eq, Debug, Structural)]
pub enum State {
    Unused,
    Ready,
    Running,
    Blocked,
    Exited,
}

/// A task: its scheduling state and the context it starts from (entry in
/// `x19`, the trampoline in `lr`, its stack top in `sp`). The registers
/// saved at a switch are kept by whoever performs the switch; the table
/// does not follow them.
#[derive(Clone, Copy, PartialEq, Eq, Debug, Structural)]
pub struct Task {
    pub state: State,
    pub ctx: Context,
}

/// The task table and the id of the task on the CPU.
pub struct Sched {
    pub tasks: Vec<Task>,
    pub current: TaskId,
}

/// A task that counts as alive: ready, running or blocked.
pub open spec fn is_alive(s: State) -> bool {
    s == State::Ready || s == State::Running || s == State::Blocked
}

/// The number of alive tasks in `ts`.
pub open spec fn alive_count(ts: Seq<Task>) -> nat
    decreases ts.len(),
{
    if ts.len() == 0 {
        0
    } else {
        alive_count(ts.drop_last()) + if is_alive(ts.last().state) {
            1nat
        } else {
            0
        }
    }
}

/// How many steps forward from `cur` the round-robin order reaches `j`:
/// 1 for the task after `cur`, up to `MAX_TASKS` for `cur` itself.
pub open spec fn rr_offset(cur: int, j: int) -> int {
    if j > cur {
        j - cur
    } else {
        j + MAX_TASKS - cur
    }
}

/// The stack top of task `id` when the stacks are laid out one after the
/// other from `stacks_base` (an address, so computed modulo 2^64).
pub open spec fn stack_top(stacks_base: u64, id: int) -> int {
    (stacks_base + id * STACK_SIZE + STACK_SIZE) % 0x1_0000_0000_0000_0000
}

impl Sched {
    /// A table of `MAX_TASKS` entries and a current task in range.
    pub open spec fn wf(&self) -> bool {
        self.tasks.len() == MAX_TASKS && self.current < MAX_TASKS
    }

    /// At most one task is running, and only the current one.
    pub open spec fn one_running(&self) -> bool {
        forall|j: int| 0 <= j < self.tasks.len() && #[trigger] self.tasks@[j].state == State::Running
            ==> j == self.current
    }

    /// Every task unused, task 0 current.
    pub fn new() -> (r: Self)
        ensures
            r.wf(),
            r.current == 0,
            forall|j: int|
                0 <= j < MAX_TASKS ==> #[trigger] r.tasks@[j] == (Task {
                    state: State::Unused,
                    ctx: crate::arch::aarch64::context::initial_context(0, 0, 0),
                }),
    {
        let mut tasks: Vec<Task> = Vec::new();
        let mut i: usize = 0;
        while i < MAX_TASKS
            invariant
                i <= MAX_TASKS,
                tasks.len() == i,
                forall|j: int|
                    0 <= j < i ==> #[trigger] tasks@[j] == (Task {
                        state: State::Unused,
                        ctx: crate::arch::aarch64::context::initial_context(0, 0, 0),
                    }),
            decreases MAX_TASKS - i,
        {
            tasks.push(Task { state: State::Unused, ctx: Context::zeroed() });
            i = i + 1;
        }
        Sched { tasks, current: 0 }
    }
}

/// The alive count after replacing one task.
pub proof fn lemma_alive_count_update(ts: Seq<Task>, i: int, t: Task)
    requires
        0 <= i < ts.len(),
    ensures
        alive_count(ts.update(i, t)) + (if is_alive(ts[i].state) {
            1int
        } else {
            0
        }) == alive_count(ts) + (if is_alive(t.state) {
            1int
        } else {
            0
        }),
    decreases ts.len(),
{
    let u = ts.update(i, t);
    if i == ts.len() - 1 {
        assert(u.drop_last() =~= ts.drop_last());
    } else {
        lemma_alive_count_update(ts.drop_last(), i, t);
        assert(u.drop_last() =~= ts.drop_last().update(i, t));
    }
}

/// Ready, running and blocked tasks are alive; unused slots and exited
/// tasks are not. Every table counts at most one alive task per slot, and
/// a table of unused slots none.
pub proof fn lemma_alive_states(ts: Seq<Task>)
    ensures
        is_alive(State::Ready) && is_alive(State::Running) && is_alive(State::Blocked),
        !is_alive(State::Unused) && !is_alive(State::Exited),
        alive_count(ts) <= ts.len(),
        (forall|j: int| 0 <= j < ts.len() ==> #[trigger] ts[j].state == State::Unused) ==> alive_count(ts) == 0,
    decreases ts.len(),
{
    if ts.len() > 0 {
        lemma_alive_states(ts.drop_last());
        assert forall|j: int| 0 <= j < ts.drop_last().len() implies ts.drop_last()[j] == ts[j] by {}
    }
}

/// The round-robin order seen from task `cur`: the task `k` places after
/// it (wrapping past the last slot) is `k` steps away, for `k` from 1 to
/// `MAX_TASKS`; so every task is reached once, `cur` itself last, and
/// `yield_now` picks the first ready task after `cur` in slot order,
/// wrapping around.
pub proof fn lemma_rr_order(cur: int)
    requires
        0 <= cur < MAX_TASKS,
    ensures
        forall|k: int| 1 <= k <= MAX_TASKS ==> #[trigger] rr_offset(cur, (cur + k) % (MAX_TASKS as int)) == k,
        forall|j: int| 0 <= j < MAX_TASKS ==> 1 <= #[trigger] rr_offset(cur, j) <= MAX_TASKS,
        forall|j: int| 0 <= j < MAX_TASKS ==> (#[trigger] rr_offset(cur, j) == MAX_TASKS <==> j == cur),
        forall|i: int, j: int|
            0 <= i < MAX_TASKS && 0 <= j < MAX_TASKS && i != j ==> #[trigger] rr_offset(cur, i) != #[trigger] rr_offset(
                cur,
                j,
            ),
{
    assert forall|k: int| 1 <= k <= MAX_TASKS implies #[trigger] rr_offset(cur, (cur + k) % (MAX_TASKS as int))
        == k by {
        if cur + k < MAX_TASKS {
            assert((cur + k) % 8 == cur + k);
        } else {
            assert((cur + k) % 8 == cur + k - 8);
        }
    }
}

/// The stacks handed to tasks are the consecutive `STACK_SIZE` slots of the
/// stack area from `stacks_base`, in task order: task 0's stack ends one
/// slot above the base, each next task's one slot higher, so every task's
/// stack lies inside the area and no two tasks share stack space. (Where
/// the area fits below 2^64, as a real one does.)
pub proof fn lemma_stack_slots(stacks_base: u64)
    requires
        stacks_base + MAX_TASKS * STACK_SIZE <= u64::MAX,
    ensures
        stack_top(stacks_base, 0) == stacks_base + STACK_SIZE,
        forall|id: int|
            0 <= id < MAX_TASKS - 1 ==> #[trigger] stack_top(stacks_base, id + 1) == stack_top(stacks_base, id)
                + STACK_SIZE,
        forall|id: int|
            0 <= id < MAX_TASKS ==> stacks_base + STACK_SIZE <= #[trigger] stack_top(stacks_base, id)
                <= stacks_base + MAX_TASKS * STACK_SIZE,
        forall|i: int, j: int|
            0 <= i < MAX_TASKS && 0 <= j < MAX_TASKS && i != j ==> #[trigger] stack_top(stacks_base, i)
                - #[trigger] stack_top(stacks_base, j) >= STACK_SIZE || stack_top(stacks_base, j)
                - stack_top(stacks_base, i) >= STACK_SIZE,
{
    assert forall|id: int| 0 <= id < MAX_TASKS implies #[trigger] stack_top(stacks_base, id) == stacks_base
        + (id + 1) * STACK_SIZE by {
        assert(0 <= stacks_base + (id + 1) * STACK_SIZE < 0x1_0000_0000_0000_0000);
        vstd::arithmetic::div_mod::lemma_small_mod(
            (stacks_base + (id + 1) * STACK_SIZE) as nat,
            0x1_0000_0000_0000_0000nat,
        );
    }
    assert(stack_top(stacks_base, 0) == stacks_base + STACK_SIZE);
    assert forall|id: int| 0 <= id < MAX_TASKS - 1 implies #[trigger] stack_top(stacks_base, id + 1)
        == stack_top(stacks_base, id) + STACK_SIZE by {
        assert(stack_top(stacks_base, id) == stacks_base + (id + 1) * STACK_SIZE);
        assert(stack_top(stacks_base, id + 1) == stacks_base + (id + 2) * STACK_SIZE);
    }
    assert forall|i: int, j: int|
        0 <= i < MAX_TASKS && 0 <= j < MAX_TASKS && i != j implies #[trigger] stack_top(stacks_base, i)
        - #[trigger] stack_top(stacks_base, j) >= STACK_SIZE || stack_top(stacks_base, j) - stack_top(
        stacks_base,
        i,
    ) >= STACK_SIZE by {
        assert(stack_top(stacks_base, i) == stacks_base + (i + 1) * STACK_SIZE);
        assert(stack_top(stacks_base, j) == stacks_base + (j + 1) * STACK_SIZE);
    }
}

/// The main kernel thread becomes task 0, running and current.
pub fn init(s: &mut Sched)
    requires
        old(s).wf(),
    ensures
        final(s).wf(),
        final(s).current == 0,
        final(s).tasks@ == old(s).tasks@.update(0, Task { state: State::Running, ..old(s).tasks@[0] }),
        (forall|j: int| 0 < j < MAX_TASKS ==> #[trigger] old(s).tasks@[j].state != State::Running)
            ==> final(s).one_running(),
{
    let mut t = s.tasks[0];
    t.state = State::Running;
    s.tasks.set(0, t);
    s.current = 0;
}

/// Take the first unused slot for a task that starts at `entry`, with its
/// stack at slot `id` of the stacks laid out from `stacks_base`. `None`
/// when every slot is taken.
pub fn spawn(s: &mut Sched, entry: u64, trampoline: u64, stacks_base: u64) -> (r: Option<TaskId>)
    requires
        old(s).wf(),
    ensures
        final(s).wf(),
        final(s).current == old(s).current,
        match r {
            None => {
                &&& forall|j: int| 0 <= j < MAX_TASKS ==> #[trigger] old(s).tasks@[j].state != State::Unused
                &&& final(s).tasks@ == old(s).tasks@
            },
            Some(id) => {
                &&& id < MAX_TASKS
                &&& old(s).tasks@[id as int].state == State::Unused
                &&& forall|j: int| 0 <= j < id ==> #[trigger] old(s).tasks@[j].state != State::Unused
                &&& final(s).tasks@ == old(s).tasks@.update(
                    id as int,
                    Task {
                        state: State::Ready,
                        ctx: crate::arch::aarch64::context::initial_context(
                            entry,
                            trampoline,
                            stack_top(stacks_base, id as int) as u64,
                        ),
                    },
                )
                &&& alive_count(final(s).tasks@) == alive_count(old(s).tasks@) + 1
            },
        },
        old(s).one_running() ==> final(s).one_running(),
{
    let mut id: usize = 0;
    while id < MAX_TASKS && s.tasks[id].state != State::Unused
        invariant
            id <= MAX_TASKS,
            s.tasks.len() == MAX_TASKS,
            forall|j: int| 0 <= j < id ==> #[trigger] s.tasks@[j].state != State::Unused,
        decreases MAX_TASKS - id,
    {
        id = id + 1;
    }
    if id == MAX_TASKS {
        return None;
    }
    assert((id as u64) * (STACK_SIZE as u64) <= 7 * 16384) by (nonlinear_arith)
        requires
            id < 8,
    ;
    let top: u64 = stacks_base.wrapping_add((id as u64) * (STACK_SIZE as u64) + STACK_SIZE as u64);
    assert(top == stack_top(stacks_base, id as int));
    let t = Task { state: State::Ready, ctx: Context::new(entry, trampoline, top) };
    proof {
        lemma_alive_count_update(s.tasks@, id as int, t);
    }
    s.tasks.set(id, t);
    Some(id)
}

/// The id of the task on the CPU.
pub fn current(s: &Sched) -> (r: TaskId)
    ensures
        r == s.current,
{
    s.current
}

/// Pick the next task to run: the first ready task after the current one
/// in round-robin order. The current task, if running, goes back to ready
/// and the chosen one becomes running and current. Returns the pair
/// `(previous, next)` whose contexts the caller switches, or `None` when
/// no task is ready (nothing changes).
pub fn yield_now(s: &mut Sched) -> (r: Option<(TaskId, TaskId)>)
    requires
        old(s).wf(),
    ensures
        final(s).wf(),
        match r {
            None => {
                &&& forall|j: int| 0 <= j < MAX_TASKS ==> #[trigger] old(s).tasks@[j].state != State::Ready
                &&& final(s).tasks@ == old(s).tasks@
                &&& final(s).current == old(s).current
            },
            Some((prev, next)) => {
                &&& prev == old(s).current
                &&& next < MAX_TASKS
                &&& final(s).current == next
                &&& old(s).tasks@[next as int].state == State::Ready
                &&& forall|j: int|
                    0 <= j < MAX_TASKS && rr_offset(prev as int, j) < rr_offset(prev as int, next as int)
                        ==> #[trigger] old(s).tasks@[j].state != State::Ready
                &&& forall|j: int|
                    0 <= j < MAX_TASKS ==> #[trigger] final(s).tasks@[j] == (Task {
                        state: if j == next {
                            State::Running
                        } else if j == prev && old(s).tasks@[j].state == State::Running {
                            State::Ready
                        } else {
                            old(s).tasks@[j].state
                        },
                        ..old(s).tasks@[j]
                    })
            },
        },
        final(s).tasks.len() == old(s).tasks.len(),
        alive_count(final(s).tasks@) == alive_count(old(s).tasks@),
        old(s).one_running() ==> final(s).one_running(),
{
    let cur = s.current;
    let mut off: usize = 1;
    while off <= MAX_TASKS && s.tasks[(cur + off) % MAX_TASKS].state != State::Ready
        invariant
            1 <= off <= MAX_TASKS + 1,
            cur == s.current,
            s.wf(),
            forall|o: int|
                1 <= o < off ==> #[trigger] s.tasks@[(cur + o) % (MAX_TASKS as int)].state
                    != State::Ready,
        decreases MAX_TASKS + 1 - off,
    {
        off = off + 1;
    }
    if off > MAX_TASKS {
        assert forall|j: int| 0 <= j < MAX_TASKS implies #[trigger] s.tasks@[j].state
            != State::Ready by {
            let o = rr_offset(cur as int, j);
            assert((cur + o) % (MAX_TASKS as int) == j);
            assert(s.tasks@[(cur + o) % (MAX_TASKS as int)].state != State::Ready);
        }
        return None;
    }
    let next: usize = (cur + off) % MAX_TASKS;
    proof {
        assert(next == (cur + off) % (MAX_TASKS as int));
        assert(rr_offset(cur as int, next as int) == off);
        assert forall|j: int|
            0 <= j < MAX_TASKS && rr_offset(cur as int, j) < rr_offset(
                cur as int,
                next as int,
            ) implies #[trigger] s.tasks@[j].state != State::Ready by {
            let o = rr_offset(cur as int, j);
            assert((cur + o) % (MAX_TASKS as int) == j);
            assert(s.tasks@[(cur + o) % (MAX_TASKS as int)].state != State::Ready);
        }
    }
    let mut prev_task = s.tasks[cur];
    if prev_task.state == State::Running {
        prev_task.state = State::Ready;
        proof {
            lemma_alive_count_update(s.tasks@, cur as int, prev_task);
        }
        s.tasks.set(cur, prev_task);
    }
    let mut next_task = s.tasks[next];
    next_task.state = State::Running;
    proof {
        lemma_alive_count_update(s.tasks@, next as int, next_task);
    }
    s.tasks.set(next, next_task);
    s.current = next;
    Some((cur, next))
}

/// The number of tasks that are ready, running or blocked.
pub fn alive_tasks(s: &Sched) -> (r: usize)
    ensures
        r == alive_count(s.tasks@),
{
    let mut n: usize = 0;
    let mut i: usize = 0;
    while i < s.tasks.len()
        invariant
            i <= s.tasks.len(),
            n == alive_count(s.tasks@.subrange(0, i as int)),
            n <= i,
        decreases s.tasks.len() - i,
    {
        let st = s.tasks[i].state;
        proof {
            let pre = s.tasks@.subrange(0, i as int + 1);
            assert(pre.drop_last() =~= s.tasks@.subrange(0, i as int));
        }
        if st == State::Ready || st == State::Running || st == State::Blocked {
            n = n + 1;
        }
        i = i + 1;
    }
    assert(s.tasks@.subrange(0, s.tasks.len() as int) =~= s.tasks@);
    n
}

/// The current task has finished: it becomes exited (the caller then
/// yields for good).
pub fn task_exit(s: &mut Sched)
    requires
        old(s).wf(),
    ensures
        final(s).wf(),
        final(s).current == old(s).current,
        final(s).tasks@ == old(s).tasks@.update(
            old(s).current as int,
            Task { state: State::Exited, ..old(s).tasks@[old(s).current as int] },
        ),
        alive_count(final(s).tasks@) + (if is_alive(old(s).tasks@[old(s).current as int].state) {
            1int
        } else {
            0
        }) == alive_count(old(s).tasks@),
        old(s).one_running() ==> final(s).one_running(),
{
    let cur = s.current;
    let mut t = s.tasks[cur];
    t.state = State::Exited;
    proof {
        lemma_alive_count_update(s.tasks@, cur as int, t);
    }
    s.tasks.set(cur, t);
}

} // verus!
