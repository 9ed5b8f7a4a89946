//! Task control blocks and the kernel state that holds them: the task table,
//! the current task, the ready queue, the program table and the clock.
use vstd::prelude::*;
use crate::mm::{copy_vec, MemorySet};

verus! {

/// Number of system call numbers for which invocations are counted.
pub const MAX_SYSCALL_NUM: usize = 500;
/// Number of general-purpose registers in a saved context.
pub const REG_COUNT: usize = 32;
/// Register that carries a system call's return value.
pub const REG_A0: usize = 10;
/// Priority that a new task starts with.
pub const DEFAULT_PRIORITY: usize = 16;

/// Scheduling state of a task. `Zombie` is terminal.
#[derive(Clone, Copy, PartialEq, Eq, Structural, Debug)]
pub enum TaskStatus {
    Ready,
    Running,
    Zombie,
}

/// Saved registers of a task that is not running.
pub struct TrapContext {
    pub x: Vec<usize>,
    pub sepc: usize,
}

impl TrapContext {
    pub open spec fn wf(&self) -> bool {
        self.x@.len() == REG_COUNT
    }

    /// The context a program starts from: every register zero, at its entry.
    pub fn app_init() -> (r: Self)
        ensures
            r.wf(),
            r.x@ == Seq::new(REG_COUNT as nat, |i: int| 0usize),
            r.sepc == 0,
    {
        let mut x: Vec<usize> = Vec::new();
        let mut i: usize = 0;
        while i < REG_COUNT
            invariant
                i <= REG_COUNT,
                x@ == Seq::new(i as nat, |k: int| 0usize),
            decreases REG_COUNT - i,
        {
            x.push(0);
            i = i + 1;
            assert(x@ =~= Seq::new(i as nat, |k: int| 0usize));
        }
        TrapContext { x, sepc: 0 }
    }

    /// A copy of this context.
    pub fn duplicate(&self) -> (r: Self)
        ensures
            r.x@ == self.x@,
            r.sepc == self.sepc,
    {
        TrapContext { x: copy_vec(&self.x), sepc: self.sepc }
    }
}

/// Whether two byte vectors hold the same bytes.
pub fn bytes_eq(a: &Vec<u8>, b: &Vec<u8>) -> (r: bool)
    ensures
        r == (a@ == b@),
{
    if a.len() != b.len() {
        return false;
    }
    let mut i: usize = 0;
    while i < a.len()
        invariant
            i <= a.len(),
            a@.len() == b@.len(),
            forall|k: int| 0 <= k < i ==> a@[k] == b@[k],
        decreases a.len() - i,
    {
        if a[i] != b[i] {
            return false;
        }
        i = i + 1;
    }
    assert(a@ =~= b@);
    true
}

/// A vector of `n` zero counters.
pub fn zero_counts(n: usize) -> (r: Vec<u32>)
    ensures
        r@ == Seq::new(n as nat, |i: int| 0u32),
{
    let mut r: Vec<u32> = Vec::new();
    let mut i: usize = 0;
    while i < n
        invariant
            i <= n,
            r@ == Seq::new(i as nat, |k: int| 0u32),
        decreases n - i,
    {
        r.push(0);
        i = i + 1;
        assert(r@ =~= Seq::new(i as nat, |k: int| 0u32));
    }
    r
}

/// Everything the kernel knows of one task.
pub struct TaskControlBlock {
    pub pid: usize,
    pub parent: Option<usize>,
    pub status: TaskStatus,
    /// Meaningful once the task is a zombie.
    pub exit_code: i32,
    /// The program image the address space was built from.
    pub image: Vec<u8>,
    pub memory_set: MemorySet,
    pub trap_cx: TrapContext,
    /// Pids of the children, oldest first.
    pub children: Vec<usize>,
    /// Clock reading, in microseconds, when the task was created.
    pub start_time: usize,
    /// Invocations so far, by system call number.
    pub syscall_times: Vec<u32>,
    /// Microseconds the task ran, fixed when it exits.
    pub frozen_time: usize,
    pub priority: usize,
}

impl TaskControlBlock {
    pub open spec fn wf(&self) -> bool {
        &&& self.trap_cx.wf()
        &&& self.memory_set.wf()
        &&& self.syscall_times@.len() == MAX_SYSCALL_NUM
        &&& self.priority >= 2
    }

    /// A new ready task running `image` from its entry, with nothing mapped
    /// yet, no children and fresh accounting.
    pub fn new(pid: usize, parent: Option<usize>, image: Vec<u8>, now: usize) -> (r: Self)
        ensures
            r.wf(),
            r.pid == pid,
            r.parent == parent,
            r.status == TaskStatus::Ready,
            r.exit_code == 0,
            r.image@ == image@,
            r.memory_set.pages@.len() == 0,
            r.trap_cx.x@ == Seq::new(REG_COUNT as nat, |i: int| 0usize),
            r.trap_cx.sepc == 0,
            r.children@.len() == 0,
            r.start_time == now,
            r.syscall_times@ == Seq::new(MAX_SYSCALL_NUM as nat, |i: int| 0u32),
            r.frozen_time == 0,
            r.priority == DEFAULT_PRIORITY,
    {
        TaskControlBlock {
            pid,
            parent,
            status: TaskStatus::Ready,
            exit_code: 0,
            image,
            memory_set: MemorySet::new(),
            trap_cx: TrapContext::app_init(),
            children: Vec::new(),
            start_time: now,
            syscall_times: zero_counts(MAX_SYSCALL_NUM),
            frozen_time: 0,
            priority: DEFAULT_PRIORITY,
        }
    }
}

/// A program that can be started by name.
pub struct App {
    pub name: Vec<u8>,
    pub data: Vec<u8>,
}

/// The state that the system calls act on.
pub struct Kernel {
    /// Every task that exists, in creation order.
    pub tasks: Vec<TaskControlBlock>,
    /// Index in `tasks` of the running task, if any runs.
    pub current: Option<usize>,
    /// Pids of the tasks waiting to run, first to run first.
    pub ready_queue: Vec<usize>,
    /// The pid the next new task gets.
    pub next_pid: usize,
    /// The programs that exec and spawn can start.
    pub apps: Vec<App>,
    /// Last reading of the monotonic clock, in microseconds.
    pub time_us: usize,
}

impl Kernel {
    /// Task `i` of the table has pid `pid`.
    pub open spec fn is_task(&self, i: int, pid: usize) -> bool {
        0 <= i < self.tasks@.len() && self.tasks@[i].pid == pid
    }

    /// A kernel whose one task, pid 0, runs `init_image`, with the programs
    /// `apps` and the clock at `now`.
    pub fn new(apps: Vec<App>, init_image: Vec<u8>, now: usize) -> (r: Self)
        ensures
            r.wf(),
            r.current == Some(0usize),
            r.tasks@.len() == 1,
            r.cur().pid == 0,
            r.cur().parent is None,
            r.cur().image@ == init_image@,
            r.cur().children@.len() == 0,
            r.cur().memory_set.pages@.len() == 0,
            r.cur().priority == DEFAULT_PRIORITY,
            r.cur().start_time == now,
            r.ready_queue@.len() == 0,
            r.next_pid == 1,
            r.apps == apps,
            r.time_us == now,
    {
        let mut init = TaskControlBlock::new(0, None, init_image, now);
        init.status = TaskStatus::Running;
        let mut tasks: Vec<TaskControlBlock> = Vec::new();
        tasks.push(init);
        Kernel { tasks, current: Some(0), ready_queue: Vec::new(), next_pid: 1, apps, time_us: now }
    }

    /// Some task has pid `pid`.
    pub open spec fn has_pid(&self, pid: usize) -> bool {
        exists|i: int| #[trigger] self.is_task(i, pid)
    }

    /// Some task has pid `pid` and status `st`.
    pub open spec fn has_pid_with(&self, pid: usize, st: TaskStatus) -> bool {
        exists|i: int| #[trigger] self.is_task(i, pid) && self.tasks@[i].status == st
    }

    /// The table index of pid `pid`, where one exists.
    pub open spec fn index_of(&self, pid: usize) -> int {
        choose|i: int| #[trigger] self.is_task(i, pid)
    }

    /// The running task.
    pub open spec fn cur(&self) -> TaskControlBlock {
        self.tasks@[self.current.unwrap() as int]
    }

    /// Some task runs.
    pub open spec fn has_current(&self) -> bool {
        self.current.is_some()
    }

    pub open spec fn wf(&self) -> bool {
        &&& forall|i: int| 0 <= i < self.tasks@.len() ==> (#[trigger] self.tasks@[i]).wf()
        &&& forall|i: int| 0 <= i < self.tasks@.len() ==> (#[trigger] self.tasks@[i]).start_time <= self.time_us
        &&& forall|i: int| 0 <= i < self.tasks@.len() ==> (#[trigger] self.tasks@[i]).pid < self.next_pid
        &&& forall|i: int, j: int|
            0 <= i < self.tasks@.len() && 0 <= j < self.tasks@.len() && i != j
                ==> #[trigger] self.tasks@[i].pid != #[trigger] self.tasks@[j].pid
        &&& self.current.is_some() ==> {
            &&& self.current.unwrap() < self.tasks@.len()
            &&& self.cur().status == TaskStatus::Running
        }
        &&& forall|q: int| 0 <= q < self.ready_queue@.len()
            ==> self.has_pid_with(#[trigger] self.ready_queue@[q], TaskStatus::Ready)
        &&& self.ready_queue@.no_duplicates()
        &&& forall|i: int, k: int| 0 <= i < self.tasks@.len() && 0 <= k < self.tasks@[i].children@.len()
            ==> self.is_child(#[trigger] self.tasks@[i].children@[k], self.tasks@[i].pid)
        &&& forall|i: int| 0 <= i < self.tasks@.len() ==> (#[trigger] self.tasks@[i]).children@.no_duplicates()
    }

    /// Pid `c` is a task whose parent is `p`.
    pub open spec fn is_child(&self, c: usize, p: usize) -> bool {
        exists|j: int| #[trigger] self.is_task(j, c) && self.tasks@[j].parent == Some(p)
    }

    /// The table index of pid `pid`, or `None` where no task has it.
    pub fn find_index(&self, pid: usize) -> (r: Option<usize>)
        ensures
            r matches Some(i) ==> self.is_task(i as int, pid),
            r is None ==> !self.has_pid(pid),
    {
        let mut i: usize = 0;
        while i < self.tasks.len()
            invariant
                i <= self.tasks.len(),
                forall|j: int| 0 <= j < i ==> !#[trigger] self.is_task(j, pid),
            decreases self.tasks.len() - i,
        {
            if self.tasks[i].pid == pid {
                return Some(i);
            }
            i = i + 1;
        }
        None
    }

    /// The index in the program table of the program named `name`.
    pub fn find_app(&self, name: &Vec<u8>) -> (r: Option<usize>)
        ensures
            r matches Some(i) ==> i < self.apps@.len() && self.apps@[i as int].name@ == name@,
            r is None ==> forall|i: int| 0 <= i < self.apps@.len() ==> (#[trigger] self.apps@[i]).name@ != name@,
    {
        let mut i: usize = 0;
        while i < self.apps.len()
            invariant
                i <= self.apps.len(),
                forall|j: int| 0 <= j < i ==> (#[trigger] self.apps@[j]).name@ != name@,
            decreases self.apps.len() - i,
        {
            if bytes_eq(&self.apps[i].name, name) {
                return Some(i);
            }
            i = i + 1;
        }
        None
    }
}

} // verus!
