//! The process-management system calls, each a function of the kernel state.
use vstd::prelude::*;
use crate::mm::{
    first_vpn, fresh_pages, outside, page_count, perm_of, port_ok, range_ok, MemorySet, PAGE_SIZE,
    PERM_R, PERM_U, PERM_W, PERM_X,
};
use crate::task::{
    Kernel, TaskControlBlock, TaskStatus, TrapContext, DEFAULT_PRIORITY, MAX_SYSCALL_NUM,
    REG_A0, REG_COUNT,
};

verus! {

/// Microseconds in a second.
pub const USEC_PER_SEC: usize = 1_000_000;
/// Microseconds in a millisecond.
pub const USEC_PER_MSEC: usize = 1_000;

/// A clock reading split into seconds and microseconds.
#[derive(Clone, Copy, PartialEq, Eq, Structural, Debug)]
pub struct TimeVal {
    pub sec: usize,
    pub usec: usize,
}

/// A snapshot of a task's status, system call counts and running time.
pub struct TaskInfo {
    pub status: TaskStatus,
    pub syscall_times: Vec<u32>,
    /// Milliseconds.
    pub time: usize,
}

/// `us` microseconds as whole seconds and the remainder.
pub open spec fn split_time(us: usize) -> TimeVal {
    TimeVal { sec: us / USEC_PER_SEC, usec: us % USEC_PER_SEC }
}

/// `(a.sec, a.usec)` does not come after `(b.sec, b.usec)`.
pub open spec fn time_le(a: TimeVal, b: TimeVal) -> bool {
    a.sec < b.sec || (a.sec == b.sec && a.usec <= b.usec)
}

/// Running time of `t` in milliseconds when the clock reads `now`: the time
/// fixed at exit for a zombie, else the time since it started.
pub open spec fn info_time_ms(t: TaskControlBlock, now: usize) -> int {
    if t.status == TaskStatus::Zombie {
        (t.frozen_time / USEC_PER_MSEC) as int
    } else {
        (now - t.start_time) / (USEC_PER_MSEC as int)
    }
}

/// The two states have the same tasks, in the same places, with the same
/// identity, links and status, and the same scheduling state; only what a
/// task holds for itself may differ.
pub open spec fn same_shape(a: Kernel, b: Kernel) -> bool {
    &&& a.tasks@.len() == b.tasks@.len()
    &&& forall|i: int| 0 <= i < a.tasks@.len() ==> {
        &&& (#[trigger] b.tasks@[i]).pid == a.tasks@[i].pid
        &&& b.tasks@[i].parent == a.tasks@[i].parent
        &&& b.tasks@[i].status == a.tasks@[i].status
        &&& b.tasks@[i].children@ == a.tasks@[i].children@
        &&& b.tasks@[i].start_time == a.tasks@[i].start_time
        &&& b.tasks@[i].wf()
    }
    &&& a.current == b.current
    &&& a.ready_queue@ == b.ready_queue@
    &&& a.next_pid == b.next_pid
    &&& a.time_us == b.time_us
}

/// Tasks of `a` keep their place, pid, parent and status in `b`, which may
/// have more.
pub open spec fn extends(a: Kernel, b: Kernel) -> bool {
    &&& a.tasks@.len() <= b.tasks@.len()
    &&& forall|i: int| 0 <= i < a.tasks@.len() ==> {
        &&& (#[trigger] b.tasks@[i]).pid == a.tasks@[i].pid
        &&& b.tasks@[i].parent == a.tasks@[i].parent
        &&& b.tasks@[i].status == a.tasks@[i].status
    }
}

proof fn lemma_extends(a: Kernel, b: Kernel)
    requires
        extends(a, b),
    ensures
        forall|pid: usize, st: TaskStatus| a.has_pid_with(pid, st) ==> #[trigger] b.has_pid_with(pid, st),
        forall|c: usize, p: usize| a.is_child(c, p) ==> #[trigger] b.is_child(c, p),
        forall|pid: usize| a.has_pid(pid) ==> #[trigger] b.has_pid(pid),
{
    assert forall|pid: usize, st: TaskStatus| a.has_pid_with(pid, st) implies #[trigger] b.has_pid_with(pid, st) by {
        let i = choose|i: int| #[trigger] a.is_task(i, pid) && a.tasks@[i].status == st;
        assert(b.is_task(i, pid));
    }
    assert forall|c: usize, p: usize| a.is_child(c, p) implies #[trigger] b.is_child(c, p) by {
        let j = choose|j: int| #[trigger] a.is_task(j, c) && a.tasks@[j].parent == Some(p);
        assert(b.is_task(j, c));
    }
    assert forall|pid: usize| a.has_pid(pid) implies #[trigger] b.has_pid(pid) by {
        let i = choose|i: int| #[trigger] a.is_task(i, pid);
        assert(b.is_task(i, pid));
    }
}

proof fn lemma_same_shape_wf(a: Kernel, b: Kernel)
    requires
        a.wf(),
        same_shape(a, b),
    ensures
        b.wf(),
{
    lemma_extends(a, b);
    assert forall|i: int, k: int| 0 <= i < b.tasks@.len() && 0 <= k < b.tasks@[i].children@.len()
        implies b.is_child(#[trigger] b.tasks@[i].children@[k], b.tasks@[i].pid) by {
        assert(a.is_child(a.tasks@[i].children@[k], a.tasks@[i].pid));
    }
    assert forall|q: int| 0 <= q < b.ready_queue@.len()
        implies b.has_pid_with(#[trigger] b.ready_queue@[q], TaskStatus::Ready) by {
        assert(a.has_pid_with(a.ready_queue@[q], TaskStatus::Ready));
    }
}

/// The priority after `set_priority(prio)` on a task whose priority is `p`:
/// `prio` where it is at least 2, else `p` unchanged.
pub open spec fn next_priority(p: usize, prio: isize) -> usize {
    if prio < 2 {
        p
    } else {
        prio as usize
    }
}

/// The priority after the calls `set_priority(calls[0])`, ..., in order, on a
/// task whose priority is `p`.
pub open spec fn priority_after(p: usize, calls: Seq<isize>) -> usize
    decreases calls.len(),
{
    if calls.len() == 0 {
        p
    } else {
        next_priority(priority_after(p, calls.drop_last()), calls.last())
    }
}

/// Pid of the running task.
pub fn sys_getpid(k: &Kernel) -> (r: isize)
    requires
        k.wf(),
        k.has_current(),
        k.next_pid <= isize::MAX,
    ensures
        r == k.cur().pid,
{
    let c = k.current.unwrap();
    k.tasks[c].pid as isize
}

/// Sets the running task's priority to `prio` and returns it, or returns -1
/// and changes nothing where `prio` is below 2.
pub fn sys_set_priority(k: &mut Kernel, prio: isize) -> (r: isize)
    requires
        old(k).wf(),
        old(k).has_current(),
    ensures
        final(k).wf(),
        final(k).current == old(k).current,
        final(k).cur().priority == next_priority(old(k).cur().priority, prio),
        prio < 2 ==> r == -1 && *final(k) == *old(k),
        prio >= 2 ==> {
            &&& r == prio
            &&& final(k).tasks@ == old(k).tasks@.update(
                old(k).current.unwrap() as int,
                TaskControlBlock { priority: prio as usize, ..old(k).cur() },
            )
            &&& final(k).current == old(k).current
            &&& final(k).ready_queue@ == old(k).ready_queue@
            &&& final(k).apps == old(k).apps
            &&& final(k).next_pid == old(k).next_pid
            &&& final(k).time_us == old(k).time_us
        },
{
    if prio < 2 {
        -1
    } else {
        let c = k.current.unwrap();
        let ghost k0 = *k;
        k.tasks[c].priority = prio as usize;
        proof {
            lemma_same_shape_wf(k0, *k);
        }
        prio
    }
}

/// Writes the clock, split into seconds and microseconds, to `ts`.
pub fn sys_get_time(k: &Kernel, ts: &mut TimeVal, _tz: usize) -> (r: isize)
    ensures
        r == 0,
        *final(ts) == split_time(k.time_us),
{
    let us = k.time_us;
    *ts = TimeVal { sec: us / USEC_PER_SEC, usec: us % USEC_PER_SEC };
    0
}

/// The information `task_info` reports on task `t` when the clock reads `now`.
pub fn task_info_of(t: &TaskControlBlock, now: usize) -> (r: TaskInfo)
    requires
        t.start_time <= now,
    ensures
        r.status == t.status,
        r.syscall_times@ == t.syscall_times@,
        r.time == info_time_ms(*t, now),
{
    let time = match t.status {
        TaskStatus::Zombie => t.frozen_time,
        _ => now - t.start_time,
    };
    let counts = crate::mm::copy_vec(&t.syscall_times);
    TaskInfo { status: t.status, syscall_times: counts, time: time / USEC_PER_MSEC }
}

/// Writes the running task's status, system call counts and running time to `ti`.
pub fn sys_task_info(k: &Kernel, ti: &mut TaskInfo) -> (r: isize)
    requires
        k.wf(),
        k.has_current(),
    ensures
        r == 0,
        final(ti).status == k.cur().status,
        final(ti).syscall_times@ == k.cur().syscall_times@,
        final(ti).time == info_time_ms(k.cur(), k.time_us),
{
    let c = k.current.unwrap();
    *ti = task_info_of(&k.tasks[c], k.time_us);
    0
}

/// The task table of `k` with `m` in place of the running task's address space.
pub open spec fn with_memory(k: Kernel, m: MemorySet) -> Seq<TaskControlBlock> {
    k.tasks@.update(k.current.unwrap() as int, TaskControlBlock { memory_set: m, ..k.cur() })
}

/// `k2` is `k` but for the running task's address space.
pub open spec fn only_memory_changed(k: Kernel, k2: Kernel) -> bool {
    &&& k2.tasks@ == with_memory(k, k2.cur().memory_set)
    &&& k2.current == k.current
    &&& k2.ready_queue@ == k.ready_queue@
    &&& k2.apps == k.apps
    &&& k2.next_pid == k.next_pid
    &&& k2.time_us == k.time_us
}

/// Maps `[start, start + len)`, rounded up to whole pages, into the running
/// task's address space with the permissions of `port`. Returns 0, or -1 with
/// nothing changed where the mask, the alignment or the range is invalid or
/// a page of the range is mapped already.
pub fn sys_mmap(k: &mut Kernel, start: usize, len: usize, port: usize) -> (r: isize)
    requires
        old(k).wf(),
        old(k).has_current(),
    ensures
        final(k).wf(),
        r == 0 || r == -1,
        r == 0 <==> {
            &&& port_ok(port)
            &&& range_ok(start, len)
            &&& forall|v: int|
                first_vpn(start) <= v < first_vpn(start) + page_count(len)
                    ==> !old(k).cur().memory_set.is_mapped(v)
        },
        r == 0 ==> {
            &&& only_memory_changed(*old(k), *final(k))
            &&& final(k).cur().memory_set.pages@ == old(k).cur().memory_set.pages@ + fresh_pages(
                first_vpn(start),
                first_vpn(start) + page_count(len),
                perm_of(port),
            )
        },
        r == -1 ==> *final(k) == *old(k),
{
    if (port & !0x7) != 0 || (port & 0x7) == 0 {
        proof {
            assert(((port & !7usize) != 0usize || (port & 7usize) == 0usize) ==> !(1usize <= port
                <= 7usize)) by (bit_vector);
        }
        return -1;
    }
    proof {
        assert(((port & !7usize) == 0usize && (port & 7usize) != 0usize) ==> (1usize <= port
            <= 7usize)) by (bit_vector);
    }
    if len == 0 || start % PAGE_SIZE != 0 {
        return -1;
    }
    let npages = (len - 1) / PAGE_SIZE + 1;
    let lo = start / PAGE_SIZE;
    if npages > usize::MAX / PAGE_SIZE - lo + 1 {
        return -1;
    }
    let hi = lo + npages;
    let perm: u8 = PERM_U | (if port & 1 == 1 {
        PERM_R
    } else {
        0
    }) | (if (port >> 1) & 1 == 1 {
        PERM_W
    } else {
        0
    }) | (if (port >> 2) & 1 == 1 {
        PERM_X
    } else {
        0
    });
    let c = k.current.unwrap();
    if !k.tasks[c].memory_set.range_is_free(lo, hi) {
        return -1;
    }
    let ghost k0 = *k;
    k.tasks[c].memory_set.map_free_range(lo, hi, perm);
    proof {
        assert(k.tasks@ =~= with_memory(k0, k.cur().memory_set));
        lemma_same_shape_wf(k0, *k);
    }
    0
}

/// Unmaps `[start, start + len)`, rounded up to whole pages, from the running
/// task's address space. Returns 0, or -1 with nothing changed where the
/// alignment or the range is invalid or a page of the range is not mapped.
pub fn sys_munmap(k: &mut Kernel, start: usize, len: usize) -> (r: isize)
    requires
        old(k).wf(),
        old(k).has_current(),
    ensures
        final(k).wf(),
        r == 0 || r == -1,
        r == 0 <==> {
            &&& range_ok(start, len)
            &&& forall|v: int|
                first_vpn(start) <= v < first_vpn(start) + page_count(len)
                    ==> old(k).cur().memory_set.is_mapped(v)
        },
        r == 0 ==> {
            &&& only_memory_changed(*old(k), *final(k))
            &&& final(k).cur().memory_set.pages@ == outside(
                old(k).cur().memory_set.pages@,
                first_vpn(start),
                first_vpn(start) + page_count(len),
            )
        },
        r == -1 ==> *final(k) == *old(k),
{
    if len == 0 || start % PAGE_SIZE != 0 {
        return -1;
    }
    let npages = (len - 1) / PAGE_SIZE + 1;
    let lo = start / PAGE_SIZE;
    if npages > usize::MAX / PAGE_SIZE - lo + 1 {
        return -1;
    }
    let hi = lo + npages;
    let c = k.current.unwrap();
    if !k.tasks[c].memory_set.range_is_mapped(lo, hi) {
        return -1;
    }
    let ghost k0 = *k;
    k.tasks[c].memory_set.unmap_range(lo, hi);
    proof {
        assert(k.tasks@ =~= with_memory(k0, k.cur().memory_set));
        lemma_same_shape_wf(k0, *k);
    }
    0
}

/// Moves the clock forward to `now`.
pub fn advance_clock(k: &mut Kernel, now: usize)
    requires
        old(k).wf(),
        old(k).time_us <= now,
    ensures
        final(k).wf(),
        *final(k) == (Kernel { time_us: now, ..*old(k) }),
{
    let ghost k0 = *k;
    k.time_us = now;
    proof {
        lemma_extends(k0, *k);
        assert forall|i: int, j: int| 0 <= i < k.tasks@.len() && 0 <= j < k.tasks@[i].children@.len()
            implies k.is_child(#[trigger] k.tasks@[i].children@[j], k.tasks@[i].pid) by {
            assert(k0.is_child(k0.tasks@[i].children@[j], k0.tasks@[i].pid));
        }
        assert forall|q: int| 0 <= q < k.ready_queue@.len()
            implies k.has_pid_with(#[trigger] k.ready_queue@[q], TaskStatus::Ready) by {
            assert(k0.has_pid_with(k0.ready_queue@[q], TaskStatus::Ready));
        }
    }
}

/// Counts one invocation of system call `id` by the running task; a count
/// stays at the largest `u32` once there.
pub fn record_syscall(k: &mut Kernel, id: usize)
    requires
        old(k).wf(),
        old(k).has_current(),
        id < MAX_SYSCALL_NUM,
    ensures
        final(k).wf(),
        final(k).tasks@ == old(k).tasks@.update(
            old(k).current.unwrap() as int,
            TaskControlBlock {
                syscall_times: final(k).cur().syscall_times,
                ..old(k).cur()
            },
        ),
        final(k).cur().syscall_times@ == old(k).cur().syscall_times@.update(
            id as int,
            if old(k).cur().syscall_times@[id as int] < u32::MAX {
                (old(k).cur().syscall_times@[id as int] + 1) as u32
            } else {
                u32::MAX
            },
        ),
        final(k).current == old(k).current,
        final(k).ready_queue@ == old(k).ready_queue@,
        final(k).apps == old(k).apps,
        final(k).next_pid == old(k).next_pid,
        final(k).time_us == old(k).time_us,
{
    let c = k.current.unwrap();
    let ghost k0 = *k;
    let n = k.tasks[c].syscall_times[id];
    let m = if n < u32::MAX {
        n + 1
    } else {
        n
    };
    k.tasks[c].syscall_times.set(id, m);
    proof {
        assert(k.tasks@ =~= k0.tasks@.update(
            k0.current.unwrap() as int,
            TaskControlBlock { syscall_times: k.cur().syscall_times, ..k0.cur() },
        ));
        lemma_same_shape_wf(k0, *k);
    }
}

/// Replaces the running task's program with the one named `path`: its image,
/// a fresh address space and a context at the program's entry; pid, links,
/// accounting and priority stay. Returns 0, or -1 with nothing changed where
/// no program has that name.
pub fn sys_exec(k: &mut Kernel, path: &Vec<u8>) -> (r: isize)
    requires
        old(k).wf(),
        old(k).has_current(),
    ensures
        final(k).wf(),
        r == 0 || r == -1,
        r == 0 <==> exists|i: int| 0 <= i < old(k).apps@.len() && (#[trigger] old(k).apps@[i]).name@ == path@,
        r == 0 ==> {
            &&& exists|i: int| 0 <= i < old(k).apps@.len()
                && (#[trigger] old(k).apps@[i]).name@ == path@
                && final(k).cur().image@ == old(k).apps@[i].data@
            &&& final(k).cur().memory_set.pages@.len() == 0
            &&& final(k).cur().trap_cx.x@ == Seq::new(REG_COUNT as nat, |j: int| 0usize)
            &&& final(k).cur().trap_cx.sepc == 0
            &&& final(k).tasks@ == old(k).tasks@.update(
                old(k).current.unwrap() as int,
                TaskControlBlock {
                    image: final(k).cur().image,
                    memory_set: final(k).cur().memory_set,
                    trap_cx: final(k).cur().trap_cx,
                    ..old(k).cur()
                },
            )
            &&& final(k).current == old(k).current
            &&& final(k).ready_queue@ == old(k).ready_queue@
            &&& final(k).apps == old(k).apps
            &&& final(k).next_pid == old(k).next_pid
            &&& final(k).time_us == old(k).time_us
        },
        r == -1 ==> *final(k) == *old(k),
{
    match k.find_app(path) {
        Some(a) => {
            let data = crate::mm::copy_vec(&k.apps[a].data);
            let c = k.current.unwrap();
            let ghost k0 = *k;
            k.tasks[c].image = data;
            k.tasks[c].memory_set = MemorySet::new();
            k.tasks[c].trap_cx = TrapContext::app_init();
            proof {
                assert(k.tasks@ =~= k0.tasks@.update(
                    k0.current.unwrap() as int,
                    TaskControlBlock {
                        image: k.cur().image,
                        memory_set: k.cur().memory_set,
                        trap_cx: k.cur().trap_cx,
                        ..k0.cur()
                    },
                ));
                lemma_same_shape_wf(k0, *k);
            }
            0
        },
        None => -1,
    }
}

/// Task `i` of `a` is replaced by `t`, which keeps its pid, parent, children
/// and start time.
pub open spec fn one_task_updated(a: Kernel, b: Kernel, i: int, t: TaskControlBlock) -> bool {
    &&& 0 <= i < a.tasks@.len()
    &&& b.tasks@ == a.tasks@.update(i, t)
    &&& t.pid == a.tasks@[i].pid
    &&& t.parent == a.tasks@[i].parent
    &&& t.children@ == a.tasks@[i].children@
    &&& t.start_time == a.tasks@[i].start_time
    &&& t.wf()
}

proof fn lemma_one_task_updated(a: Kernel, b: Kernel, i: int, t: TaskControlBlock)
    requires
        a.wf(),
        one_task_updated(a, b, i, t),
    ensures
        forall|pid: usize, st: TaskStatus|
            a.has_pid_with(pid, st) && pid != a.tasks@[i].pid ==> #[trigger] b.has_pid_with(pid, st),
        forall|c: usize, p: usize| a.is_child(c, p) ==> #[trigger] b.is_child(c, p),
        forall|j: int| 0 <= j < b.tasks@.len() ==> (#[trigger] b.tasks@[j]).wf(),
        forall|j: int| 0 <= j < b.tasks@.len() ==> (#[trigger] b.tasks@[j]).pid < a.next_pid,
        forall|j: int| 0 <= j < b.tasks@.len() ==> (#[trigger] b.tasks@[j]).start_time <= a.time_us,
        forall|j: int| 0 <= j < b.tasks@.len() ==> (#[trigger] b.tasks@[j]).children@.no_duplicates(),
        forall|j: int, l: int|
            0 <= j < b.tasks@.len() && 0 <= l < b.tasks@.len() && j != l
                ==> #[trigger] b.tasks@[j].pid != #[trigger] b.tasks@[l].pid,
        forall|j: int, l: int| 0 <= j < b.tasks@.len() && 0 <= l < b.tasks@[j].children@.len()
            ==> a.is_child(#[trigger] b.tasks@[j].children@[l], b.tasks@[j].pid),
{
    assert forall|pid: usize, st: TaskStatus|
        a.has_pid_with(pid, st) && pid != a.tasks@[i].pid implies #[trigger] b.has_pid_with(pid, st) by {
        let j = choose|j: int| #[trigger] a.is_task(j, pid) && a.tasks@[j].status == st;
        assert(b.is_task(j, pid));
    }
    assert forall|c: usize, p: usize| a.is_child(c, p) implies #[trigger] b.is_child(c, p) by {
        let j = choose|j: int| #[trigger] a.is_task(j, c) && a.tasks@[j].parent == Some(p);
        assert(b.is_task(j, c));
    }
    assert forall|j: int, l: int| 0 <= j < b.tasks@.len() && 0 <= l < b.tasks@[j].children@.len()
        implies a.is_child(#[trigger] b.tasks@[j].children@[l], b.tasks@[j].pid) by {
        assert(a.is_child(a.tasks@[j].children@[l], a.tasks@[j].pid));
    }
}

/// What handing the processor to the first task of queue `q` does to the
/// table `t`, giving state `b`: with `q` empty nothing runs; else that task
/// runs and leaves the queue.
pub open spec fn runs_first(t: Seq<TaskControlBlock>, q: Seq<usize>, b: Kernel) -> bool {
    if q.len() == 0 {
        &&& b.tasks@ == t
        &&& b.current is None
        &&& b.ready_queue@ == q
    } else {
        &&& b.ready_queue@ == q.drop_first()
        &&& exists|j: int|
            0 <= j < t.len() && (#[trigger] t[j]).pid == q[0] && b.current == Some(j as usize)
                && b.tasks@ == t.update(j, TaskControlBlock { status: TaskStatus::Running, ..t[j] })
    }
}

/// Gives the processor, which no task holds, to the first ready task.
fn run_next(k: &mut Kernel)
    requires
        old(k).wf(),
        old(k).current is None,
    ensures
        final(k).wf(),
        runs_first(old(k).tasks@, old(k).ready_queue@, *final(k)),
        final(k).apps == old(k).apps,
        final(k).next_pid == old(k).next_pid,
        final(k).time_us == old(k).time_us,
{
    if k.ready_queue.len() == 0 {
        return;
    }
    let ghost k0 = *k;
    let pid = k.ready_queue.remove(0);
    proof {
        assert(k.ready_queue@ =~= k0.ready_queue@.drop_first());
        assert(k0.has_pid_with(k0.ready_queue@[0], TaskStatus::Ready));
        let i = choose|i: int| #[trigger] k0.is_task(i, pid) && k0.tasks@[i].status == TaskStatus::Ready;
        assert(k.is_task(i, pid));
        lemma_extends(k0, *k);
        assert forall|q: int| 0 <= q < k.ready_queue@.len()
            implies k.has_pid_with(#[trigger] k.ready_queue@[q], TaskStatus::Ready) by {
            assert(k0.ready_queue@[q + 1] == k.ready_queue@[q]);
            assert(k0.has_pid_with(k0.ready_queue@[q + 1], TaskStatus::Ready));
        }
        assert forall|q: int, r: int| 0 <= q < r < k.ready_queue@.len()
            implies k.ready_queue@[q] != k.ready_queue@[r] by {
            assert(k0.ready_queue@[q + 1] == k.ready_queue@[q]);
            assert(k0.ready_queue@[r + 1] == k.ready_queue@[r]);
        }
        assert forall|a: int, b: int| 0 <= a < k.tasks@.len() && 0 <= b < k.tasks@[a].children@.len()
            implies k.is_child(#[trigger] k.tasks@[a].children@[b], k.tasks@[a].pid) by {
            assert(k0.is_child(k0.tasks@[a].children@[b], k0.tasks@[a].pid));
        }
        assert(k.wf());
    }
    match k.find_index(pid) {
        Some(j) => {
            let ghost k1 = *k;
            k.tasks[j].status = TaskStatus::Running;
            k.current = Some(j);
            proof {
                let t = TaskControlBlock { status: TaskStatus::Running, ..k1.tasks@[j as int] };
                assert(k.tasks@ =~= k1.tasks@.update(j as int, t));
                assert(one_task_updated(k1, *k, j as int, t));
                lemma_one_task_updated(k1, *k, j as int, t);
                assert forall|q: int| 0 <= q < k.ready_queue@.len()
                    implies k.has_pid_with(#[trigger] k.ready_queue@[q], TaskStatus::Ready) by {
                    assert(k0.ready_queue@[q + 1] == k.ready_queue@[q]);
                    assert(k0.ready_queue@[0] != k0.ready_queue@[q + 1]);
                    assert(k1.has_pid_with(k.ready_queue@[q], TaskStatus::Ready));
                }
                assert(k.is_task(j as int, pid));
            }
        },
        None => {
            proof {
                assert(false);
            }
        },
    }
}

/// Gives up the processor: the running task becomes ready and joins the back
/// of the queue, and the first ready task runs. Returns 0.
pub fn sys_yield(k: &mut Kernel) -> (r: isize)
    requires
        old(k).wf(),
        old(k).has_current(),
    ensures
        final(k).wf(),
        r == 0,
        runs_first(
            old(k).tasks@.update(
                old(k).current.unwrap() as int,
                TaskControlBlock { status: TaskStatus::Ready, ..old(k).cur() },
            ),
            old(k).ready_queue@.push(old(k).cur().pid),
            *final(k),
        ),
        final(k).apps == old(k).apps,
        final(k).next_pid == old(k).next_pid,
        final(k).time_us == old(k).time_us,
{
    let c = k.current.unwrap();
    let ghost k0 = *k;
    k.tasks[c].status = TaskStatus::Ready;
    let pid = k.tasks[c].pid;
    k.ready_queue.push(pid);
    k.current = None;
    proof {
        let t = TaskControlBlock { status: TaskStatus::Ready, ..k0.cur() };
        assert(k.tasks@ =~= k0.tasks@.update(c as int, t));
        lemma_one_task_updated(k0, *k, c as int, t);
        assert(k.is_task(c as int, pid));
        assert forall|q: int| 0 <= q < k0.ready_queue@.len() implies k0.ready_queue@[q] != pid by {
            let i = choose|i: int| #[trigger] k0.is_task(i, k0.ready_queue@[q]) && k0.tasks@[i].status
                == TaskStatus::Ready;
        }
        assert forall|q: int| 0 <= q < k.ready_queue@.len()
            implies k.has_pid_with(#[trigger] k.ready_queue@[q], TaskStatus::Ready) by {
            if q < k0.ready_queue@.len() {
                assert(k0.has_pid_with(k0.ready_queue@[q], TaskStatus::Ready));
            }
        }
    }
    run_next(k);
    0
}

/// Ends the running task with `exit_code`: it becomes a zombie whose running
/// time is fixed at the time since it started, and the first ready task runs.
pub fn sys_exit(k: &mut Kernel, exit_code: i32)
    requires
        old(k).wf(),
        old(k).has_current(),
    ensures
        final(k).wf(),
        runs_first(
            old(k).tasks@.update(
                old(k).current.unwrap() as int,
                TaskControlBlock {
                    status: TaskStatus::Zombie,
                    exit_code: exit_code,
                    frozen_time: (old(k).time_us - old(k).cur().start_time) as usize,
                    ..old(k).cur()
                },
            ),
            old(k).ready_queue@,
            *final(k),
        ),
        final(k).apps == old(k).apps,
        final(k).next_pid == old(k).next_pid,
        final(k).time_us == old(k).time_us,
{
    let c = k.current.unwrap();
    let ghost k0 = *k;
    let elapsed = k.time_us - k.tasks[c].start_time;
    k.tasks[c].status = TaskStatus::Zombie;
    k.tasks[c].exit_code = exit_code;
    k.tasks[c].frozen_time = elapsed;
    k.current = None;
    proof {
        let t = TaskControlBlock {
            status: TaskStatus::Zombie,
            exit_code: exit_code,
            frozen_time: elapsed,
            ..k0.cur()
        };
        assert(k.tasks@ =~= k0.tasks@.update(c as int, t));
        lemma_one_task_updated(k0, *k, c as int, t);
        assert forall|q: int| 0 <= q < k.ready_queue@.len()
            implies k.has_pid_with(#[trigger] k.ready_queue@[q], TaskStatus::Ready) by {
            assert(k0.has_pid_with(k0.ready_queue@[q], TaskStatus::Ready));
            let i = choose|i: int| #[trigger] k0.is_task(i, k0.ready_queue@[q]) && k0.tasks@[i].status
                == TaskStatus::Ready;
        }
    }
    run_next(k);
}

/// Adds `child`, a new ready task, as the last child of the running task and
/// at the back of the ready queue, and returns its pid.
fn add_child(k: &mut Kernel, child: TaskControlBlock) -> (r: usize)
    requires
        old(k).wf(),
        old(k).has_current(),
        old(k).next_pid < usize::MAX,
        child.wf(),
        child.pid == old(k).next_pid,
        child.parent == Some(old(k).cur().pid),
        child.status == TaskStatus::Ready,
        child.children@.len() == 0,
        child.start_time <= old(k).time_us,
    ensures
        final(k).wf(),
        r == old(k).next_pid,
        final(k).tasks@.len() == old(k).tasks@.len() + 1,
        final(k).tasks@.last() == child,
        final(k).tasks@.drop_last() == old(k).tasks@.update(
            old(k).current.unwrap() as int,
            TaskControlBlock { children: final(k).cur().children, ..old(k).cur() },
        ),
        final(k).cur().children@ == old(k).cur().children@.push(r),
        final(k).current == old(k).current,
        final(k).ready_queue@ == old(k).ready_queue@.push(r),
        final(k).next_pid == old(k).next_pid + 1,
        final(k).apps == old(k).apps,
        final(k).time_us == old(k).time_us,
{
    let c = k.current.unwrap();
    let pid = child.pid;
    let ghost k0 = *k;
    proof {
        assert forall|l: int| 0 <= l < k0.cur().children@.len() implies k0.cur().children@[l] != pid by {
            assert(k0.is_child(k0.tasks@[c as int].children@[l], k0.tasks@[c as int].pid));
            let j = choose|j: int| #[trigger] k0.is_task(j, k0.cur().children@[l]) && k0.tasks@[j].parent
                == Some(k0.cur().pid);
        }
        assert forall|q: int| 0 <= q < k0.ready_queue@.len() implies k0.ready_queue@[q] != pid by {
            assert(k0.has_pid_with(k0.ready_queue@[q], TaskStatus::Ready));
            let i = choose|i: int| #[trigger] k0.is_task(i, k0.ready_queue@[q]) && k0.tasks@[i].status
                == TaskStatus::Ready;
        }
    }
    k.tasks[c].children.push(pid);
    let ghost k1 = *k;
    k.tasks.push(child);
    k.ready_queue.push(pid);
    k.next_pid = k.next_pid + 1;
    proof {
        let t = TaskControlBlock { children: k1.cur().children, ..k0.cur() };
        assert(k1.tasks@ =~= k0.tasks@.update(c as int, t));
        assert(k.tasks@.drop_last() =~= k1.tasks@);
        assert(extends(k0, *k));
        lemma_extends(k0, *k);
        let n = k0.tasks@.len() as int;
        assert(k.is_task(n, pid));
        assert forall|i: int, j: int|
            0 <= i < k.tasks@.len() && 0 <= j < k.tasks@.len() && i != j
                implies #[trigger] k.tasks@[i].pid != #[trigger] k.tasks@[j].pid by {
            if i < n && j < n {
                assert(k0.tasks@[i].pid != k0.tasks@[j].pid);
            } else if i < n {
                assert(k0.tasks@[i].pid < k0.next_pid);
            } else if j < n {
                assert(k0.tasks@[j].pid < k0.next_pid);
            }
        }
        assert forall|i: int| 0 <= i < k.tasks@.len() implies (#[trigger] k.tasks@[i]).wf() by {
            if i < n && i != c {
                assert(k.tasks@[i] == k0.tasks@[i]);
            }
        }
        assert forall|i: int| 0 <= i < k.tasks@.len() implies (#[trigger] k.tasks@[i]).children@.no_duplicates() by {
            if i < n && i != c {
                assert(k.tasks@[i] == k0.tasks@[i]);
            }
        }
        assert forall|i: int, l: int| 0 <= i < k.tasks@.len() && 0 <= l < k.tasks@[i].children@.len()
            implies k.is_child(#[trigger] k.tasks@[i].children@[l], k.tasks@[i].pid) by {
            if i < n && i != c {
                assert(k.tasks@[i] == k0.tasks@[i]);
                assert(k0.is_child(k0.tasks@[i].children@[l], k0.tasks@[i].pid));
            } else if i == c && l < k0.cur().children@.len() {
                assert(k0.is_child(k0.tasks@[i].children@[l], k0.tasks@[i].pid));
            }
        }
        assert forall|q: int| 0 <= q < k.ready_queue@.len()
            implies k.has_pid_with(#[trigger] k.ready_queue@[q], TaskStatus::Ready) by {
            if q < k0.ready_queue@.len() {
                assert(k0.has_pid_with(k0.ready_queue@[q], TaskStatus::Ready));
            }
        }
    }
    pid
}

/// Starts a copy of the running task: same program, same mapped pages, same
/// saved registers but for the return value, which is 0 in the copy. The copy
/// is the last child of the caller and joins the back of the ready queue.
/// Returns the copy's pid.
pub fn sys_fork(k: &mut Kernel) -> (r: isize)
    requires
        old(k).wf(),
        old(k).has_current(),
        old(k).next_pid < isize::MAX,
    ensures
        final(k).wf(),
        r == old(k).next_pid,
        r != old(k).cur().pid,
        !old(k).has_pid(r as usize),
        final(k).tasks@.len() == old(k).tasks@.len() + 1,
        final(k).tasks@.drop_last() == old(k).tasks@.update(
            old(k).current.unwrap() as int,
            TaskControlBlock { children: final(k).cur().children, ..old(k).cur() },
        ),
        final(k).cur().children@ == old(k).cur().children@.push(r as usize),
        ({
            let t = final(k).tasks@.last();
            &&& t.pid == r
            &&& t.parent == Some(old(k).cur().pid)
            &&& t.status == TaskStatus::Ready
            &&& t.image@ == old(k).cur().image@
            &&& t.memory_set.pages@ == old(k).cur().memory_set.pages@
            &&& t.trap_cx.x@ == old(k).cur().trap_cx.x@.update(REG_A0 as int, 0)
            &&& t.trap_cx.x@[REG_A0 as int] == 0
            &&& t.trap_cx.sepc == old(k).cur().trap_cx.sepc
            &&& t.children@.len() == 0
            &&& t.start_time == old(k).time_us
            &&& t.syscall_times@ == Seq::new(MAX_SYSCALL_NUM as nat, |i: int| 0u32)
            &&& t.priority == DEFAULT_PRIORITY
        }),
        final(k).current == old(k).current,
        final(k).ready_queue@ == old(k).ready_queue@.push(r as usize),
        final(k).next_pid == old(k).next_pid + 1,
        final(k).apps == old(k).apps,
        final(k).time_us == old(k).time_us,
{
    let c = k.current.unwrap();
    proof {
        assert(k.cur().pid < k.next_pid);
    }
    let image = crate::mm::copy_vec(&k.tasks[c].image);
    let mut child = TaskControlBlock::new(k.next_pid, Some(k.tasks[c].pid), image, k.time_us);
    child.memory_set = k.tasks[c].memory_set.duplicate();
    let mut cx = k.tasks[c].trap_cx.duplicate();
    cx.x.set(REG_A0, 0);
    child.trap_cx = cx;
    proof {
        if k.has_pid(k.next_pid) {
            let i = choose|i: int| #[trigger] k.is_task(i, k.next_pid);
        }
    }
    let pid = add_child(k, child);
    pid as isize
}

/// Starts the program named `path` as a new task: a fresh address space and a
/// context at the program's entry, without copying the caller. The new task
/// is the last child of the caller and joins the back of the ready queue.
/// Returns its pid, or -1 with nothing changed where no program has that name.
pub fn sys_spawn(k: &mut Kernel, path: &Vec<u8>) -> (r: isize)
    requires
        old(k).wf(),
        old(k).has_current(),
        old(k).next_pid < isize::MAX,
    ensures
        final(k).wf(),
        r == -1 || r == old(k).next_pid,
        r == old(k).next_pid <==> exists|i: int|
            0 <= i < old(k).apps@.len() && (#[trigger] old(k).apps@[i]).name@ == path@,
        r == -1 ==> *final(k) == *old(k),
        r != -1 ==> {
            &&& final(k).tasks@.len() == old(k).tasks@.len() + 1
            &&& final(k).tasks@.drop_last() == old(k).tasks@.update(
                old(k).current.unwrap() as int,
                TaskControlBlock { children: final(k).cur().children, ..old(k).cur() },
            )
            &&& final(k).cur().children@ == old(k).cur().children@.push(r as usize)
            &&& exists|i: int| 0 <= i < old(k).apps@.len()
                && (#[trigger] old(k).apps@[i]).name@ == path@
                && final(k).tasks@.last().image@ == old(k).apps@[i].data@
            &&& ({
                let t = final(k).tasks@.last();
                &&& t.pid == r
                &&& t.parent == Some(old(k).cur().pid)
                &&& t.status == TaskStatus::Ready
                &&& t.memory_set.pages@.len() == 0
                &&& t.trap_cx.x@ == Seq::new(REG_COUNT as nat, |i: int| 0usize)
                &&& t.trap_cx.sepc == 0
                &&& t.children@.len() == 0
                &&& t.start_time == old(k).time_us
                &&& t.syscall_times@ == Seq::new(MAX_SYSCALL_NUM as nat, |i: int| 0u32)
                &&& t.priority == DEFAULT_PRIORITY
            })
            &&& final(k).current == old(k).current
            &&& final(k).ready_queue@ == old(k).ready_queue@.push(r as usize)
            &&& final(k).next_pid == old(k).next_pid + 1
            &&& final(k).apps == old(k).apps
            &&& final(k).time_us == old(k).time_us
        },
{
    match k.find_app(path) {
        Some(a) => {
            let c = k.current.unwrap();
            let image = crate::mm::copy_vec(&k.apps[a].data);
            let child = TaskControlBlock::new(k.next_pid, Some(k.tasks[c].pid), image, k.time_us);
            let pid = add_child(k, child);
            pid as isize
        },
        None => -1,
    }
}

/// Child pid `c` is one that `waitpid(want)` looks for: any child for -1,
/// else the child whose pid is `want`.
pub open spec fn pid_matches(want: isize, c: usize) -> bool {
    want == -1 || want == c as int
}

/// The running task has a child that `want` names.
pub open spec fn has_match(k: Kernel, want: isize) -> bool {
    exists|l: int| 0 <= l < k.cur().children@.len() && pid_matches(want, #[trigger] k.cur().children@[l])
}

/// Entry `l` of the running task's children is named by `want` and has exited.
pub open spec fn reapable(k: Kernel, want: isize, l: int) -> bool {
    &&& 0 <= l < k.cur().children@.len()
    &&& pid_matches(want, k.cur().children@[l])
    &&& k.has_pid_with(k.cur().children@[l], TaskStatus::Zombie)
}

/// Entry `l` is the first of the running task's children that `waitpid(want)`
/// can reap.
pub open spec fn first_reapable(k: Kernel, want: isize, l: int) -> bool {
    &&& reapable(k, want, l)
    &&& forall|m: int| 0 <= m < l ==> !#[trigger] reapable(k, want, m)
}

/// Whether `waitpid(want)` names one of `children`.
fn matches_any(children: &Vec<usize>, want: isize) -> (r: bool)
    ensures
        r == exists|l: int| 0 <= l < children@.len() && pid_matches(want, #[trigger] children@[l]),
{
    let mut l: usize = 0;
    while l < children.len()
        invariant
            l <= children.len(),
            forall|m: int| 0 <= m < l ==> !pid_matches(want, #[trigger] children@[m]),
        decreases children.len() - l,
    {
        let c = children[l];
        if want == -1 || (want >= 0 && want as usize == c) {
            assert(pid_matches(want, children@[l as int]));
            return true;
        }
        l = l + 1;
    }
    false
}

/// The first child of the running task that `waitpid(want)` can reap: its
/// place among the children and its index in the table.
fn find_reapable(k: &Kernel, want: isize) -> (r: Option<(usize, usize)>)
    requires
        k.wf(),
        k.has_current(),
    ensures
        r matches Some((l, j)) ==> first_reapable(*k, want, l as int) && k.is_task(
            j as int,
            k.cur().children@[l as int],
        ) && k.tasks@[j as int].status == TaskStatus::Zombie,
        r is None ==> forall|l: int| 0 <= l < k.cur().children@.len() ==> !#[trigger] reapable(*k, want, l),
{
    let c = k.current.unwrap();
    let mut l: usize = 0;
    while l < k.tasks[c].children.len()
        invariant
            c == k.current.unwrap(),
            k.wf(),
            k.has_current(),
            l <= k.cur().children@.len(),
            forall|m: int| 0 <= m < l ==> !#[trigger] reapable(*k, want, m),
        decreases k.cur().children@.len() - l,
    {
        let cp = k.tasks[c].children[l];
        if want == -1 || (want >= 0 && want as usize == cp) {
            proof {
                assert(k.is_child(k.tasks@[c as int].children@[l as int], k.tasks@[c as int].pid));
            }
            match k.find_index(cp) {
                Some(j) => {
                    if k.tasks[j].status == TaskStatus::Zombie {
                        return Some((l, j));
                    }
                    proof {
                        if k.has_pid_with(cp, TaskStatus::Zombie) {
                            let i = choose|i: int| #[trigger] k.is_task(i, cp) && k.tasks@[i].status
                                == TaskStatus::Zombie;
                            assert(i == j);
                        }
                    }
                },
                None => {
                    proof {
                        let i = choose|i: int| #[trigger] k.is_task(i, cp) && k.tasks@[i].parent == Some(
                            k.cur().pid,
                        );
                        assert(k.has_pid(cp));
                    }
                },
            }
        }
        l = l + 1;
    }
    None
}

/// Waits, without blocking, for a child named by `pid` (-1 for any child).
/// Returns -1 where the running task has no such child, -2 where it has but
/// none has exited, and with nothing changed in both cases. Otherwise reaps
/// the first such child that has exited: it leaves the children and the task
/// table, nothing refers to its pid any more, its exit code goes to
/// `exit_code`, and its pid is returned.
pub fn sys_waitpid(k: &mut Kernel, pid: isize, exit_code: &mut i32) -> (r: isize)
    requires
        old(k).wf(),
        old(k).has_current(),
        old(k).next_pid <= isize::MAX,
    ensures
        final(k).wf(),
        final(k).has_current(),
        r == -1 || r == -2 || r >= 0,
        r == -1 <==> !has_match(*old(k), pid),
        r == -2 <==> has_match(*old(k), pid) && forall|l: int|
            0 <= l < old(k).cur().children@.len() ==> !#[trigger] reapable(*old(k), pid, l),
        r < 0 ==> *final(k) == *old(k) && *final(exit_code) == *old(exit_code),
        r >= 0 ==> exists|l: int, j: int| {
            &&& #[trigger] first_reapable(*old(k), pid, l)
            &&& #[trigger] old(k).is_task(j, old(k).cur().children@[l])
            &&& r == old(k).cur().children@[l]
            &&& *final(exit_code) == old(k).tasks@[j].exit_code
            &&& final(k).tasks@ == old(k).tasks@.update(
                old(k).current.unwrap() as int,
                TaskControlBlock { children: final(k).cur().children, ..old(k).cur() },
            ).remove(j)
            &&& final(k).cur().children@ == old(k).cur().children@.remove(l)
            &&& final(k).cur().pid == old(k).cur().pid
            &&& j != old(k).current.unwrap()
            &&& final(k).current == (if j < old(k).current.unwrap() {
                Some((old(k).current.unwrap() - 1) as usize)
            } else {
                old(k).current
            })
        },
        r >= 0 ==> {
            &&& !final(k).has_pid(r as usize)
            &&& !final(k).ready_queue@.contains(r as usize)
            &&& forall|i: int, l: int| 0 <= i < final(k).tasks@.len() && 0 <= l < final(k).tasks@[i].children@.len()
                ==> #[trigger] final(k).tasks@[i].children@[l] != r
        },
        final(k).ready_queue@ == old(k).ready_queue@,
        final(k).next_pid == old(k).next_pid,
        final(k).apps == old(k).apps,
        final(k).time_us == old(k).time_us,
{
    let c = k.current.unwrap();
    if !matches_any(&k.tasks[c].children, pid) {
        return -1;
    }
    match find_reapable(k, pid) {
        None => -2,
        Some((l, j)) => {
            let ghost k0 = *k;
            let ghost rp = k0.cur().children@[l as int];
            let ghost n = k0.tasks@.len() as int;
            proof {
                assert(j != c);
                assert(k0.cur().children@.remove(l as int).no_duplicates());
            }
            k.tasks[c].children.remove(l);
            let ghost k1 = *k;
            let child = k.tasks.remove(j);
            if j < c {
                k.current = Some(c - 1);
            }
            *exit_code = child.exit_code;
            proof {
                let t = TaskControlBlock { children: k1.cur().children, ..k0.cur() };
                assert(k1.tasks@ =~= k0.tasks@.update(c as int, t));
                assert(k.tasks@ =~= k1.tasks@.remove(j as int));
                assert(k.cur() == t);
                // where task i of the new table stood before
                assert forall|i: int| 0 <= i < k.tasks@.len() implies #[trigger] k.tasks@[i] == k1.tasks@[
                    if i < j { i } else { i + 1 }] by {}
                assert forall|i: int| 0 <= i < n && i != c implies #[trigger] k1.tasks@[i] == k0.tasks@[i] by {}
                assert forall|i: int| 0 <= i < n && i != j implies k1.tasks@[i].pid != rp by {
                    assert(k0.tasks@[i].pid != k0.tasks@[j as int].pid);
                }
                assert forall|p: usize, st: TaskStatus| k0.has_pid_with(p, st) && p != rp
                    implies #[trigger] k.has_pid_with(p, st) by {
                    let i = choose|i: int| #[trigger] k0.is_task(i, p) && k0.tasks@[i].status == st;
                    assert(i != j);
                    let ni = if i < j { i } else { i - 1 };
                    assert(k.tasks@[ni] == k1.tasks@[i]);
                    assert(k.is_task(ni, p));
                }
                assert forall|e: usize, p: usize| k0.is_child(e, p) && e != rp implies #[trigger] k.is_child(e, p) by {
                    let i = choose|i: int| #[trigger] k0.is_task(i, e) && k0.tasks@[i].parent == Some(p);
                    assert(i != j);
                    let ni = if i < j { i } else { i - 1 };
                    assert(k.tasks@[ni] == k1.tasks@[i]);
                    assert(k.is_task(ni, e));
                }
                assert(!k.has_pid(rp)) by {
                    if k.has_pid(rp) {
                        let i = choose|i: int| #[trigger] k.is_task(i, rp);
                        let oi = if i < j { i } else { i + 1 };
                        assert(k1.tasks@[oi].pid == rp);
                    }
                }
                assert forall|q: int| 0 <= q < k.ready_queue@.len()
                    implies k.has_pid_with(#[trigger] k.ready_queue@[q], TaskStatus::Ready) && k.ready_queue@[q] != rp by {
                    assert(k0.has_pid_with(k0.ready_queue@[q], TaskStatus::Ready));
                    let i = choose|i: int| #[trigger] k0.is_task(i, k0.ready_queue@[q]) && k0.tasks@[i].status
                        == TaskStatus::Ready;
                    if k0.ready_queue@[q] == rp {
                        assert(k0.tasks@[i].pid != k0.tasks@[j as int].pid || i == j);
                    }
                }
                assert forall|i: int, m: int| 0 <= i < k.tasks@.len() && 0 <= m < k.tasks@[i].children@.len()
                    implies k.is_child(#[trigger] k.tasks@[i].children@[m], k.tasks@[i].pid)
                        && k.tasks@[i].children@[m] != rp by {
                    let oi = if i < j { i } else { i + 1 };
                    let e = k.tasks@[i].children@[m];
                    if oi == c {
                        let m0 = if m < l { m } else { m + 1 };
                        assert(e == k0.cur().children@[m0]);
                        assert(k0.is_child(k0.tasks@[c as int].children@[m0], k0.tasks@[c as int].pid));
                        assert(k0.cur().children@[l as int] == rp);
                    } else {
                        assert(k0.is_child(k0.tasks@[oi].children@[m], k0.tasks@[oi].pid));
                        if e == rp {
                            let w = choose|w: int| #[trigger] k0.is_task(w, e) && k0.tasks@[w].parent == Some(
                                k0.tasks@[oi].pid,
                            );
                            assert(k0.is_child(k0.tasks@[c as int].children@[l as int], k0.tasks@[c as int].pid));
                            let w2 = choose|w2: int| #[trigger] k0.is_task(w2, rp) && k0.tasks@[w2].parent == Some(
                                k0.tasks@[c as int].pid,
                            );
                            assert(w == w2);
                            assert(k0.tasks@[oi].pid == k0.tasks@[c as int].pid);
                        }
                    }
                }
                assert(!k.ready_queue@.contains(rp));
                assert(exists|l2: int, j2: int| #[trigger] first_reapable(k0, pid, l2) && #[trigger] k0.is_task(j2, k0.cur().children@[l2])
                    && rp == k0.cur().children@[l2] && child.exit_code == k0.tasks@[j2].exit_code
                    && k.tasks@ == k0.tasks@.update(c as int, TaskControlBlock { children: k.cur().children, ..k0.cur() }).remove(j2)
                    && k.cur().children@ == k0.cur().children@.remove(l2)
                    && j2 != k0.current.unwrap()
                    && k.current == (if j2 < k0.current.unwrap() {
                        Some((k0.current.unwrap() - 1) as usize)
                    } else {
                        k0.current
                    })) by {
                    assert(first_reapable(k0, pid, l as int));
                    assert(k0.is_task(j as int, k0.cur().children@[l as int]));
                }
            }
            child.pid as isize
        },
    }
}

} // verus!
