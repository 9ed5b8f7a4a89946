//! Facts about the system calls that relate several calls, or a call to
//! every input of a kind.
use vstd::prelude::*;
use crate::mm::{MemorySet, fresh_pages, outside, not_in, port_ok};
use crate::process::{priority_after, has_match, reapable, first_reapable, info_time_ms, split_time, time_le,
    USEC_PER_SEC, USEC_PER_MSEC};
use crate::task::{Kernel, TaskControlBlock, TaskStatus};

verus! {

/// A task without children has no child that `waitpid` can name, so
/// `waitpid` returns -1 whatever pid it is given, -1 included.
pub proof fn law_wait_without_children(k: Kernel, want: isize)
    requires
        k.wf(),
        k.has_current(),
        k.cur().children@.len() == 0,
    ensures
        !has_match(k, want),
{
}

/// Where the child `x` exists and has not exited, `waitpid(x)` finds a match
/// and nothing to reap, so it returns -2; since that call changes nothing, a
/// second one returns -2 again.
pub proof fn law_wait_running_child(k: Kernel, x: usize)
    requires
        k.wf(),
        k.has_current(),
        k.cur().children@.contains(x),
        x <= isize::MAX,
        !k.has_pid_with(x, TaskStatus::Zombie),
    ensures
        has_match(k, x as isize),
        forall|l: int| 0 <= l < k.cur().children@.len() ==> !#[trigger] reapable(k, x as isize, l),
{
    let l = choose|l: int| 0 <= l < k.cur().children@.len() && k.cur().children@[l] == x;
    assert(crate::process::pid_matches(x as isize, k.cur().children@[l]));
}

/// Where the child `x` has exited, `waitpid(x)` reaps exactly `x`: the one
/// entry it can pick is `x`'s, and the exit code it reports is `x`'s.
pub proof fn law_wait_reaps_exited_child(k: Kernel, x: usize)
    requires
        k.wf(),
        k.has_current(),
        k.cur().children@.contains(x),
        x <= isize::MAX,
        k.has_pid_with(x, TaskStatus::Zombie),
    ensures
        has_match(k, x as isize),
        exists|l: int| #[trigger] first_reapable(k, x as isize, l),
        forall|l: int| #[trigger] first_reapable(k, x as isize, l) ==> k.cur().children@[l] == x,
        forall|j: int| #[trigger] k.is_task(j, x) ==> k.tasks@[j].status == TaskStatus::Zombie,
{
    let l = choose|l: int| 0 <= l < k.cur().children@.len() && k.cur().children@[l] == x;
    assert(crate::process::pid_matches(x as isize, k.cur().children@[l]));
    assert(reapable(k, x as isize, l));
    lemma_first_reapable_exists(k, x as isize, l);
    let w = choose|w: int| #[trigger] k.is_task(w, x) && k.tasks@[w].status == TaskStatus::Zombie;
    assert forall|j: int| #[trigger] k.is_task(j, x) implies k.tasks@[j].status == TaskStatus::Zombie by {
        assert(j == w);
    }
}

proof fn lemma_first_reapable_exists(k: Kernel, want: isize, l: int)
    requires
        reapable(k, want, l),
    ensures
        exists|m: int| #[trigger] first_reapable(k, want, m),
    decreases l,
{
    if exists|p: int| 0 <= p < l && #[trigger] reapable(k, want, p) {
        let p = choose|p: int| 0 <= p < l && #[trigger] reapable(k, want, p);
        lemma_first_reapable_exists(k, want, p);
    } else {
        assert(first_reapable(k, want, l));
    }
}

/// Once a child is reaped no children list holds its pid, so a second
/// `waitpid` for it returns -1.
pub proof fn law_wait_after_reap(k: Kernel, x: usize)
    requires
        k.wf(),
        k.has_current(),
        x <= isize::MAX,
        forall|l: int| 0 <= l < k.cur().children@.len() ==> #[trigger] k.cur().children@[l] != x,
    ensures
        !has_match(k, x as isize),
{
}

/// After a run of `set_priority` calls the priority is the value of the
/// last accepted call (one of at least 2): the rejected calls after it
/// change nothing.
pub proof fn law_priority_is_latest_accepted(p: usize, calls: Seq<isize>, j: int)
    requires
        0 <= j < calls.len(),
        calls[j] >= 2,
        forall|m: int| j < m < calls.len() ==> #[trigger] calls[m] < 2,
    ensures
        priority_after(p, calls) == calls[j] as usize,
    decreases calls.len(),
{
    if j < calls.len() - 1 {
        let d = calls.drop_last();
        assert forall|m: int| j < m < d.len() implies #[trigger] d[m] < 2 by {
            assert(d[m] == calls[m]);
        }
        law_priority_is_latest_accepted(p, d, j);
    }
}

/// A permission mask of 0 asks for nothing and is rejected.
pub proof fn law_empty_mask_rejected()
    ensures
        !port_ok(0),
{
}

/// Right after a range is mapped, every page of it is mapped, so unmapping
/// the same range succeeds.
pub proof fn law_mapped_after_map(a: MemorySet, b: MemorySet, lo: usize, hi: usize, perm: u8)
    requires
        lo <= hi,
        b.pages@ == a.pages@ + fresh_pages(lo as int, hi as int, perm),
    ensures
        forall|v: int| lo <= v < hi ==> #[trigger] b.is_mapped(v),
{
    assert forall|v: int| lo <= v < hi implies #[trigger] b.is_mapped(v) by {
        let i = a.pages@.len() + (v - lo);
        assert(b.pages@[i].0 == v);
    }
}

/// Right after a range is unmapped, no page of it is mapped, so unmapping it
/// again fails.
pub proof fn law_unmapped_after_unmap(a: MemorySet, b: MemorySet, lo: int, hi: int)
    requires
        b.pages@ == outside(a.pages@, lo, hi),
    ensures
        forall|v: int| lo <= v < hi ==> !#[trigger] b.is_mapped(v),
{
    broadcast use vstd::seq_lib::group_filter_ensures;

    assert forall|v: int| lo <= v < hi implies !#[trigger] b.is_mapped(v) by {
        if b.is_mapped(v) {
            let i = choose|i: int| 0 <= i < b.pages@.len() && b.pages@[i].0 == v;
            assert(not_in(lo, hi)(a.pages@.filter(not_in(lo, hi))[i]));
        }
    }
}

/// The running time reported for a zombie is the one fixed at exit, whatever
/// the clock reads later.
pub proof fn law_zombie_time_frozen(t: TaskControlBlock, now1: usize, now2: usize)
    requires
        t.status == TaskStatus::Zombie,
    ensures
        info_time_ms(t, now1) == info_time_ms(t, now2),
        info_time_ms(t, now1) == t.frozen_time / USEC_PER_MSEC,
{
}

/// Two clock readings in order split into (seconds, microseconds) pairs in
/// the same order.
pub proof fn law_time_split_monotone(t1: usize, t2: usize)
    requires
        t1 <= t2,
    ensures
        time_le(split_time(t1), split_time(t2)),
{
    let d = USEC_PER_SEC as int;
    vstd::arithmetic::div_mod::lemma_div_is_ordered(t1 as int, t2 as int, d);
    if t1 / USEC_PER_SEC == t2 / USEC_PER_SEC {
        vstd::arithmetic::div_mod::lemma_fundamental_div_mod(t1 as int, d);
        vstd::arithmetic::div_mod::lemma_fundamental_div_mod(t2 as int, d);
    }
}

} // verus!
