use process_syscalls::mm::{MemorySet, PAGE_SIZE, PERM_R, PERM_U, PERM_W, PERM_X};
use process_syscalls::process::{
    advance_clock, record_syscall, sys_exec, sys_exit, sys_fork, sys_get_time, sys_getpid,
    sys_mmap, sys_munmap, sys_set_priority, sys_spawn, sys_task_info, sys_waitpid, sys_yield,
    task_info_of, TaskInfo, TimeVal,
};
use process_syscalls::task::{
    App, Kernel, TaskStatus, DEFAULT_PRIORITY, MAX_SYSCALL_NUM, REG_A0, REG_COUNT,
};

fn apps() -> Vec<App> {
    vec![
        App { name: b"hello".to_vec(), data: vec![1, 2, 3] },
        App { name: b"world".to_vec(), data: vec![9, 8] },
    ]
}

fn boot() -> Kernel {
    Kernel::new(apps(), vec![7, 7, 7], 0)
}

fn cur(k: &Kernel) -> usize {
    k.current.unwrap()
}

fn empty_info() -> TaskInfo {
    TaskInfo { status: TaskStatus::Ready, syscall_times: Vec::new(), time: 0 }
}

#[test]
fn boot_runs_init() {
    let k = boot();
    assert_eq!(sys_getpid(&k), 0);
    assert_eq!(k.tasks.len(), 1);
    assert_eq!(k.tasks[0].status, TaskStatus::Running);
    assert_eq!(k.tasks[0].priority, DEFAULT_PRIORITY);
    assert_eq!(k.tasks[0].trap_cx.x.len(), REG_COUNT);
}

#[test]
fn fork_returns_child_pid_and_child_sees_zero() {
    let mut k = boot();
    let c = cur(&k);
    k.tasks[c].trap_cx.x[REG_A0] = 99;
    k.tasks[c].trap_cx.x[3] = 5;
    k.tasks[c].trap_cx.sepc = 0x1000;
    assert_eq!(sys_mmap(&mut k, 0x10000, PAGE_SIZE, 0x3), 0);
    let pid = sys_fork(&mut k);
    assert_eq!(pid, 1);
    assert_ne!(pid, sys_getpid(&k));
    let child = k.tasks.last().unwrap();
    assert_eq!(child.pid, 1);
    assert_eq!(child.parent, Some(0));
    assert_eq!(child.status, TaskStatus::Ready);
    assert_eq!(child.trap_cx.x[REG_A0], 0);
    assert_eq!(child.trap_cx.x[3], 5);
    assert_eq!(child.trap_cx.sepc, 0x1000);
    assert_eq!(child.image, vec![7, 7, 7]);
    assert_eq!(child.memory_set.pages, k.tasks[c].memory_set.pages);
    assert_eq!(k.tasks[c].trap_cx.x[REG_A0], 99);
    assert_eq!(k.tasks[c].children, vec![1]);
    assert_eq!(k.ready_queue, vec![1]);
    assert_eq!(sys_fork(&mut k), 2);
    assert_eq!(k.tasks[c].children, vec![1, 2]);
}

#[test]
fn waitpid_without_children_fails() {
    let mut k = boot();
    let mut code: i32 = 42;
    assert_eq!(sys_waitpid(&mut k, -1, &mut code), -1);
    assert_eq!(sys_waitpid(&mut k, 3, &mut code), -1);
    assert_eq!(code, 42);
}

#[test]
fn waitpid_on_running_child_says_try_again() {
    let mut k = boot();
    let pid = sys_fork(&mut k);
    let mut code: i32 = 0;
    assert_eq!(sys_waitpid(&mut k, pid, &mut code), -2);
    assert_eq!(sys_waitpid(&mut k, pid, &mut code), -2);
    assert_eq!(sys_waitpid(&mut k, -1, &mut code), -2);
    assert_eq!(sys_waitpid(&mut k, pid + 5, &mut code), -1);
}

#[test]
fn waitpid_reaps_exited_child_once() {
    let mut k = boot();
    let pid = sys_fork(&mut k);
    assert_eq!(sys_yield(&mut k), 0);
    assert_eq!(sys_getpid(&k), pid);
    sys_exit(&mut k, 37);
    assert_eq!(sys_getpid(&k), 0);
    let mut code: i32 = 0;
    assert_eq!(sys_waitpid(&mut k, pid, &mut code), pid);
    assert_eq!(code, 37);
    assert_eq!(k.tasks.len(), 1);
    assert!(k.tasks[cur(&k)].children.is_empty());
    let mut again: i32 = -5;
    assert_eq!(sys_waitpid(&mut k, pid, &mut again), -1);
    assert_eq!(again, -5);
}

#[test]
fn waitpid_any_takes_first_exited_child() {
    let mut k = boot();
    let a = sys_fork(&mut k);
    let b = sys_fork(&mut k);
    let c = sys_fork(&mut k);
    // init yields: a runs and yields, b runs and exits, c runs and exits
    sys_yield(&mut k);
    assert_eq!(sys_getpid(&k), a);
    sys_yield(&mut k);
    assert_eq!(sys_getpid(&k), b);
    sys_exit(&mut k, 2);
    assert_eq!(sys_getpid(&k), c);
    sys_exit(&mut k, 3);
    assert_eq!(sys_getpid(&k), 0);
    let mut code: i32 = 0;
    assert_eq!(sys_waitpid(&mut k, -1, &mut code), b);
    assert_eq!(code, 2);
    assert_eq!(sys_waitpid(&mut k, -1, &mut code), c);
    assert_eq!(code, 3);
    assert_eq!(sys_waitpid(&mut k, -1, &mut code), -2);
    assert_eq!(k.tasks[cur(&k)].children, vec![a as usize]);
}

#[test]
fn reaping_keeps_the_current_task() {
    let mut k = boot();
    let a = sys_fork(&mut k);
    sys_yield(&mut k);
    assert_eq!(sys_getpid(&k), a);
    let g = sys_fork(&mut k);
    // queue: init, g; a goes to the back
    sys_yield(&mut k);
    assert_eq!(sys_getpid(&k), 0);
    sys_yield(&mut k);
    assert_eq!(sys_getpid(&k), g);
    sys_exit(&mut k, 11);
    assert_eq!(sys_getpid(&k), a);
    let mut code: i32 = 0;
    assert_eq!(sys_waitpid(&mut k, g, &mut code), g);
    assert_eq!(code, 11);
    assert_eq!(sys_getpid(&k), a);
    assert_eq!(k.tasks[cur(&k)].status, TaskStatus::Running);
    assert_eq!(k.tasks.len(), 2);
}

#[test]
fn exit_with_empty_queue_leaves_nothing_running() {
    let mut k = boot();
    sys_exit(&mut k, 0);
    assert!(k.current.is_none());
    assert_eq!(k.tasks[0].status, TaskStatus::Zombie);
}

#[test]
fn yield_alone_keeps_running() {
    let mut k = boot();
    assert_eq!(sys_yield(&mut k), 0);
    assert_eq!(sys_getpid(&k), 0);
    assert_eq!(k.tasks[0].status, TaskStatus::Running);
    assert!(k.ready_queue.is_empty());
}

#[test]
fn mmap_rejects_bad_masks() {
    let mut k = boot();
    assert_eq!(sys_mmap(&mut k, 0x10000, 4096, 0), -1);
    assert_eq!(sys_mmap(&mut k, 0x10000, 4096, 0x8), -1);
    assert_eq!(sys_mmap(&mut k, 0x10000, 4096, 0xf), -1);
    assert!(k.tasks[0].memory_set.pages.is_empty());
}

#[test]
fn mmap_rejects_misaligned_start() {
    let mut k = boot();
    assert_eq!(sys_mmap(&mut k, 0x10001, 4096, 0x3), -1);
    assert!(k.tasks[0].memory_set.pages.is_empty());
}

#[test]
fn mmap_rejects_empty_and_overflowing_ranges() {
    let mut k = boot();
    assert_eq!(sys_mmap(&mut k, 0x10000, 0, 0x3), -1);
    assert_eq!(sys_mmap(&mut k, usize::MAX - 4095, 8192, 0x3), -1);
    assert_eq!(sys_munmap(&mut k, 0x10000, 0), -1);
    assert!(k.tasks[0].memory_set.pages.is_empty());
}

#[test]
fn mmap_then_munmap_then_munmap_again() {
    let mut k = boot();
    assert_eq!(sys_mmap(&mut k, 0x10000, 5000, 0x3), 0);
    assert_eq!(
        k.tasks[0].memory_set.pages,
        vec![(0x10, PERM_U | PERM_R | PERM_W), (0x11, PERM_U | PERM_R | PERM_W)]
    );
    assert_eq!(sys_munmap(&mut k, 0x10000, 5000), 0);
    assert!(k.tasks[0].memory_set.pages.is_empty());
    assert_eq!(sys_munmap(&mut k, 0x10000, 5000), -1);
}

#[test]
fn mmap_rounds_length_to_pages() {
    let mut k = boot();
    assert_eq!(sys_mmap(&mut k, 0x20000, 1, 0x1), 0);
    assert_eq!(k.tasks[0].memory_set.pages, vec![(0x20, PERM_U | PERM_R)]);
    assert_eq!(sys_mmap(&mut k, 0x30000, 4097, 0x4), 0);
    assert_eq!(k.tasks[0].memory_set.pages.len(), 3);
    assert_eq!(k.tasks[0].memory_set.pages[2], (0x31, PERM_U | PERM_X));
    assert_eq!(sys_mmap(&mut k, 0x40000, 4096, 0x7), 0);
    assert_eq!(k.tasks[0].memory_set.pages[3], (0x40, PERM_U | PERM_R | PERM_W | PERM_X));
}

#[test]
fn mmap_rejects_overlap() {
    let mut k = boot();
    assert_eq!(sys_mmap(&mut k, 0x10000, 8192, 0x3), 0);
    assert_eq!(sys_mmap(&mut k, 0x11000, 8192, 0x3), -1);
    assert_eq!(k.tasks[0].memory_set.pages.len(), 2);
    assert_eq!(sys_mmap(&mut k, 0x12000, 4096, 0x2), 0);
    assert_eq!(k.tasks[0].memory_set.pages.len(), 3);
}

#[test]
fn munmap_rejects_partly_mapped_range() {
    let mut k = boot();
    assert_eq!(sys_mmap(&mut k, 0x10000, 4096, 0x3), 0);
    assert_eq!(sys_munmap(&mut k, 0x10000, 8192), -1);
    assert_eq!(k.tasks[0].memory_set.pages.len(), 1);
    assert_eq!(sys_munmap(&mut k, 0x10001, 4096), -1);
    assert_eq!(sys_munmap(&mut k, 0x10000, 4096), 0);
}

#[test]
fn munmap_part_of_a_mapping() {
    let mut k = boot();
    assert_eq!(sys_mmap(&mut k, 0x10000, 3 * 4096, 0x3), 0);
    assert_eq!(sys_munmap(&mut k, 0x11000, 4096), 0);
    let vpns: Vec<usize> = k.tasks[0].memory_set.pages.iter().map(|p| p.0).collect();
    assert_eq!(vpns, vec![0x10, 0x12]);
}

#[test]
fn memory_set_primitives() {
    let mut m = MemorySet::new();
    assert!(m.memory_map(1, 3, PERM_R));
    assert!(!m.memory_map(2, 4, PERM_R));
    assert!(m.contains_vpn(2));
    assert!(!m.contains_vpn(3));
    assert!(m.range_is_mapped(1, 3));
    assert!(m.range_is_free(3, 9));
    assert!(!m.memory_unmap(1, 4));
    assert!(m.memory_unmap(1, 2));
    assert_eq!(m.pages, vec![(2, PERM_R)]);
    assert_eq!(m.duplicate().pages, m.pages);
}

#[test]
fn set_priority_checks_and_stores() {
    let mut k = boot();
    assert_eq!(sys_set_priority(&mut k, 1), -1);
    assert_eq!(k.tasks[0].priority, DEFAULT_PRIORITY);
    assert_eq!(sys_set_priority(&mut k, -4), -1);
    assert_eq!(sys_set_priority(&mut k, 2), 2);
    assert_eq!(k.tasks[0].priority, 2);
    assert_eq!(sys_set_priority(&mut k, 10), 10);
    assert_eq!(k.tasks[0].priority, 10);
    assert_eq!(sys_set_priority(&mut k, 0), -1);
    assert_eq!(k.tasks[0].priority, 10);
}

#[test]
fn get_time_splits_clock() {
    let mut k = boot();
    advance_clock(&mut k, 3_500_123);
    let mut ts = TimeVal { sec: 0, usec: 0 };
    assert_eq!(sys_get_time(&k, &mut ts, 0), 0);
    assert_eq!(ts, TimeVal { sec: 3, usec: 500_123 });
}

#[test]
fn get_time_twice_is_non_decreasing() {
    let mut k = boot();
    advance_clock(&mut k, 1_999_999);
    let mut a = TimeVal { sec: 0, usec: 0 };
    sys_get_time(&k, &mut a, 0);
    advance_clock(&mut k, 2_000_000);
    let mut b = TimeVal { sec: 0, usec: 0 };
    sys_get_time(&k, &mut b, 0);
    assert!((a.sec, a.usec) <= (b.sec, b.usec));
    assert_eq!(a, TimeVal { sec: 1, usec: 999_999 });
    assert_eq!(b, TimeVal { sec: 2, usec: 0 });
    let mut c = TimeVal { sec: 0, usec: 0 };
    sys_get_time(&k, &mut c, 0);
    assert_eq!(b, c);
}

#[test]
fn task_info_reports_running_time_and_counts() {
    let mut k = Kernel::new(apps(), vec![1], 1_000);
    advance_clock(&mut k, 26_500);
    record_syscall(&mut k, 169);
    record_syscall(&mut k, 169);
    record_syscall(&mut k, 64);
    let mut ti = empty_info();
    assert_eq!(sys_task_info(&k, &mut ti), 0);
    assert_eq!(ti.status, TaskStatus::Running);
    assert_eq!(ti.time, 25);
    assert_eq!(ti.syscall_times.len(), MAX_SYSCALL_NUM);
    assert_eq!(ti.syscall_times[169], 2);
    assert_eq!(ti.syscall_times[64], 1);
    assert_eq!(ti.syscall_times[0], 0);
}

#[test]
fn syscall_count_stops_at_max() {
    let mut k = boot();
    k.tasks[0].syscall_times[5] = u32::MAX - 1;
    record_syscall(&mut k, 5);
    assert_eq!(k.tasks[0].syscall_times[5], u32::MAX);
    record_syscall(&mut k, 5);
    assert_eq!(k.tasks[0].syscall_times[5], u32::MAX);
}

#[test]
fn task_info_of_zombie_is_frozen() {
    let mut k = Kernel::new(apps(), vec![1], 0);
    let pid = sys_fork(&mut k);
    advance_clock(&mut k, 10_000);
    sys_yield(&mut k);
    assert_eq!(sys_getpid(&k), pid);
    advance_clock(&mut k, 42_000);
    sys_exit(&mut k, 0);
    let z = k.tasks.iter().position(|t| t.pid == pid as usize).unwrap();
    assert_eq!(k.tasks[z].status, TaskStatus::Zombie);
    assert_eq!(k.tasks[z].frozen_time, 42_000);
    let before = task_info_of(&k.tasks[z], k.time_us);
    advance_clock(&mut k, 900_000);
    let after = task_info_of(&k.tasks[z], k.time_us);
    assert_eq!(before.time, 42);
    assert_eq!(after.time, 42);
    assert_eq!(after.status, TaskStatus::Zombie);
}

#[test]
fn exec_replaces_image_in_place() {
    let mut k = boot();
    let child = sys_fork(&mut k);
    assert_eq!(sys_mmap(&mut k, 0x10000, 4096, 0x3), 0);
    sys_set_priority(&mut k, 5);
    k.tasks[0].trap_cx.x[4] = 8;
    assert_eq!(sys_exec(&mut k, &b"world".to_vec()), 0);
    let t = &k.tasks[0];
    assert_eq!(t.pid, 0);
    assert_eq!(t.image, vec![9, 8]);
    assert!(t.memory_set.pages.is_empty());
    assert_eq!(t.trap_cx.x, vec![0; REG_COUNT]);
    assert_eq!(t.priority, 5);
    assert_eq!(t.children, vec![child as usize]);
}

#[test]
fn exec_of_unknown_program_changes_nothing() {
    let mut k = boot();
    assert_eq!(sys_mmap(&mut k, 0x10000, 4096, 0x3), 0);
    assert_eq!(sys_exec(&mut k, &b"nope".to_vec()), -1);
    assert_eq!(sys_exec(&mut k, &b"hell".to_vec()), -1);
    assert_eq!(k.tasks[0].image, vec![7, 7, 7]);
    assert_eq!(k.tasks[0].memory_set.pages.len(), 1);
}

#[test]
fn spawn_starts_named_program() {
    let mut k = boot();
    assert_eq!(sys_mmap(&mut k, 0x10000, 4096, 0x3), 0);
    let pid = sys_spawn(&mut k, &b"hello".to_vec());
    assert_eq!(pid, 1);
    let t = k.tasks.last().unwrap();
    assert_eq!(t.pid, 1);
    assert_eq!(t.parent, Some(0));
    assert_eq!(t.image, vec![1, 2, 3]);
    assert!(t.memory_set.pages.is_empty());
    assert_eq!(t.status, TaskStatus::Ready);
    assert_eq!(k.ready_queue, vec![1]);
    assert_eq!(k.tasks[0].children, vec![1]);
}

#[test]
fn spawn_of_unknown_program_fails() {
    let mut k = boot();
    assert_eq!(sys_spawn(&mut k, &b"missing".to_vec()), -1);
    assert_eq!(k.tasks.len(), 1);
    assert_eq!(k.next_pid, 1);
    assert!(k.ready_queue.is_empty());
}
