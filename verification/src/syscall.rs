//! Process-management syscalls: time query, task-info query, yield, exit,
//! mmap/munmap and the disabled priority slot, together with the wire
//! formats of the records they copy out to user memory.

use vstd::prelude::*;

use crate::boundary::{
    copy_into_fragments, frag_addrs, lemma_phys_addrs_no_dup, phys_addrs_of, range_addrs,
    scatter_post, translate_spanning, try_translate_contained, va_range_mapped, ByteRange,
};
use crate::task::{rr_choice_ok, TaskManager, TaskStatus};
use crate::MAX_SYSCALL_NUM;

verus! {

/// Byte size of the `TimeVal` wire format: two 8-byte fields.
pub const TIME_VAL_SIZE: usize = 16;

/// Byte size of the `TaskInfo` wire format: a 4-byte status code, one
/// 4-byte counter per syscall identifier, and an 8-byte elapsed time.
pub const TASK_INFO_SIZE: usize = 2012;

/// Wall-clock time split into whole seconds and leftover microseconds,
/// the record `get_time` writes to user memory.
#[derive(Clone, Copy, PartialEq, Eq, Structural, Debug)]
pub struct TimeVal {
    pub sec: usize,
    pub usec: usize,
}

/// Snapshot of one task for introspection: status, per-syscall dispatch
/// counts, and elapsed milliseconds since the task first ran.
#[derive(Debug)]
pub struct TaskInfo {
    pub status: TaskStatus,
    pub syscall_times: Vec<u32>,
    pub time: usize,
}

impl TaskInfo {
    /// A blank snapshot: uninitialized status, zero counters, zero time.
    pub fn empty() -> (ti: TaskInfo)
        ensures
            ti.status == TaskStatus::UnInit,
            ti.syscall_times.len() == MAX_SYSCALL_NUM,
            forall|k: int| 0 <= k < MAX_SYSCALL_NUM ==> ti.syscall_times[k] == 0u32,
            ti.time == 0,
    {
        let mut syscall_times: Vec<u32> = Vec::new();
        let mut k: usize = 0;
        while k < MAX_SYSCALL_NUM
            invariant
                k <= MAX_SYSCALL_NUM,
                syscall_times.len() == k,
                forall|j: int| 0 <= j < k ==> syscall_times[j] == 0u32,
            decreases MAX_SYSCALL_NUM - k,
        {
            syscall_times.push(0);
            k = k + 1;
        }
        TaskInfo { status: TaskStatus::UnInit, syscall_times, time: 0 }
    }
}

/// Byte `i` of the 4-byte little-endian encoding of `v`.
pub open spec fn u32_le_byte(v: u32, i: int) -> u8 {
    ((v >> ((8 * i) as u32)) & 0xff) as u8
}

/// The 4-byte little-endian encoding of `v`.
pub open spec fn u32_le_bytes(v: u32) -> Seq<u8> {
    Seq::new(4, |i: int| u32_le_byte(v, i))
}

/// Byte `i` of the 8-byte little-endian encoding of `v`.
pub open spec fn u64_le_byte(v: u64, i: int) -> u8 {
    ((v >> ((8 * i) as u64)) & 0xff) as u8
}

/// The 8-byte little-endian encoding of `v`.
pub open spec fn u64_le_bytes(v: u64) -> Seq<u8> {
    Seq::new(8, |i: int| u64_le_byte(v, i))
}

/// The numeric code a status is serialized as.
pub open spec fn status_code(s: TaskStatus) -> u32 {
    match s {
        TaskStatus::UnInit => 0u32,
        TaskStatus::Ready => 1u32,
        TaskStatus::Running => 2u32,
        TaskStatus::Exited => 3u32,
    }
}

/// The little-endian encodings of all counters, concatenated in order.
pub open spec fn counts_bytes(s: Seq<u32>) -> Seq<u8>
    decreases s.len(),
{
    if s.len() == 0 {
        Seq::empty()
    } else {
        u32_le_bytes(s[0]) + counts_bytes(s.drop_first())
    }
}

/// The wire format of a `TimeVal`.
pub open spec fn time_val_bytes(sec: usize, usec: usize) -> Seq<u8> {
    u64_le_bytes(sec as u64) + u64_le_bytes(usec as u64)
}

/// The wire format of the `TimeVal` denoting `us` microseconds.
pub open spec fn time_val_bytes_at(us: usize) -> Seq<u8> {
    time_val_bytes((us as int / 1_000_000) as usize, (us as int % 1_000_000) as usize)
}

/// The wire format of a `TaskInfo`.
pub open spec fn task_info_bytes(status: TaskStatus, counts: Seq<u32>, time: usize) -> Seq<u8> {
    u32_le_bytes(status_code(status)) + counts_bytes(counts) + u64_le_bytes(time as u64)
}

proof fn lemma_counts_bytes_push(s: Seq<u32>, v: u32)
    ensures
        counts_bytes(s.push(v)) == counts_bytes(s) + u32_le_bytes(v),
    decreases s.len(),
{
    if s.len() == 0 {
        assert(s.push(v).drop_first() =~= Seq::<u32>::empty());
        assert(s.push(v)[0] == v);
        assert(counts_bytes(s.push(v)) == u32_le_bytes(v) + counts_bytes(Seq::<u32>::empty()));
        assert(u32_le_bytes(v) + counts_bytes(Seq::<u32>::empty()) =~= counts_bytes(s)
            + u32_le_bytes(v));
    } else {
        assert(s.push(v).drop_first() =~= s.drop_first().push(v));
        lemma_counts_bytes_push(s.drop_first(), v);
        assert(counts_bytes(s.push(v)) =~= counts_bytes(s) + u32_le_bytes(v));
    }
}

/// The counter block is four bytes per counter.
pub proof fn lemma_counts_bytes_len(s: Seq<u32>)
    ensures
        counts_bytes(s).len() == 4 * s.len(),
    decreases s.len(),
{
    if s.len() != 0 {
        lemma_counts_bytes_len(s.drop_first());
    }
}

/// The numeric code of a status value.
pub fn status_to_code(s: TaskStatus) -> (c: u32)
    ensures
        c == status_code(s),
{
    match s {
        TaskStatus::UnInit => 0,
        TaskStatus::Ready => 1,
        TaskStatus::Running => 2,
        TaskStatus::Exited => 3,
    }
}

fn push_u32_le(out: &mut Vec<u8>, v: u32)
    ensures
        final(out)@ == old(out)@ + u32_le_bytes(v),
{
    out.push(((v >> 0u32) & 0xff) as u8);
    out.push(((v >> 8u32) & 0xff) as u8);
    out.push(((v >> 16u32) & 0xff) as u8);
    out.push(((v >> 24u32) & 0xff) as u8);
    proof {
        assert(out@ =~= old(out)@ + u32_le_bytes(v));
    }
}

fn push_u64_le(out: &mut Vec<u8>, v: u64)
    ensures
        final(out)@ == old(out)@ + u64_le_bytes(v),
{
    out.push(((v >> 0u64) & 0xff) as u8);
    out.push(((v >> 8u64) & 0xff) as u8);
    out.push(((v >> 16u64) & 0xff) as u8);
    out.push(((v >> 24u64) & 0xff) as u8);
    out.push(((v >> 32u64) & 0xff) as u8);
    out.push(((v >> 40u64) & 0xff) as u8);
    out.push(((v >> 48u64) & 0xff) as u8);
    out.push(((v >> 56u64) & 0xff) as u8);
    proof {
        assert(out@ =~= old(out)@ + u64_le_bytes(v));
    }
}

/// Serialize a `TimeVal` to its wire format.
pub fn time_val_to_bytes(tv: &TimeVal) -> (out: Vec<u8>)
    ensures
        out@ == time_val_bytes(tv.sec, tv.usec),
        out.len() == TIME_VAL_SIZE,
{
    let mut out: Vec<u8> = Vec::new();
    push_u64_le(&mut out, tv.sec as u64);
    push_u64_le(&mut out, tv.usec as u64);
    proof {
        assert(out@ =~= time_val_bytes(tv.sec, tv.usec));
    }
    out
}

/// Serialize a `TaskInfo` to its wire format.
pub fn task_info_to_bytes(ti: &TaskInfo) -> (out: Vec<u8>)
    ensures
        out@ == task_info_bytes(ti.status, ti.syscall_times@, ti.time),
        out.len() == 4 + 4 * ti.syscall_times.len() + 8,
{
    let mut out: Vec<u8> = Vec::new();
    push_u32_le(&mut out, status_to_code(ti.status));
    let n = ti.syscall_times.len();
    let mut i: usize = 0;
    while i < n
        invariant
            i <= n,
            out@ == u32_le_bytes(status_code(ti.status)) + counts_bytes(
                ti.syscall_times@.take(i as int),
            ),
        decreases n - i,
    {
        let ghost pre = ti.syscall_times@.take(i as int);
        push_u32_le(&mut out, ti.syscall_times[i]);
        proof {
            assert(ti.syscall_times@.take(i + 1) =~= pre.push(ti.syscall_times@[i as int]));
            lemma_counts_bytes_push(pre, ti.syscall_times@[i as int]);
            assert(out@ =~= u32_le_bytes(status_code(ti.status)) + counts_bytes(
                ti.syscall_times@.take(i + 1),
            ));
        }
        i = i + 1;
    }
    proof {
        assert(ti.syscall_times@.take(n as int) =~= ti.syscall_times@);
        lemma_counts_bytes_len(ti.syscall_times@);
    }
    push_u64_le(&mut out, ti.time as u64);
    proof {
        assert(out@ =~= task_info_bytes(ti.status, ti.syscall_times@, ti.time));
    }
    out
}

/// Fill `ti` with a by-value snapshot of the running task: its status, a
/// copy of its syscall counters, and its elapsed milliseconds.
pub fn get_current_task_info(tm: &TaskManager, ti: &mut TaskInfo) -> (r: isize)
    requires
        tm.wf(),
    ensures
        r == 0,
        final(ti).status == tm.tasks[tm.current_task as int].task_status,
        final(ti).syscall_times@ == tm.tasks[tm.current_task as int].syscall_stats@,
        final(ti).time == (tm.clock_us - tm.tasks[tm.current_task as int].start_time) as int
            / 1000,
    {
    let cur = tm.current_task;
    ti.status = tm.tasks[cur].task_status;
    let n = tm.tasks[cur].syscall_stats.len();
    let mut counts: Vec<u32> = Vec::new();
    let mut i: usize = 0;
    while i < n
        invariant
            i <= n,
            counts@ == tm.tasks[cur as int].syscall_stats@.take(i as int),
        decreases n - i,
    {
        counts.push(tm.tasks[cur].syscall_stats[i]);
        proof {
            assert(counts@ =~= tm.tasks[cur as int].syscall_stats@.take(i + 1));
        }
        i = i + 1;
    }
    proof {
        assert(tm.tasks[cur as int].syscall_stats@.take(n as int) =~= tm.tasks[
            cur as int].syscall_stats@);
    }
    ti.syscall_times = counts;
    let us = tm.clock_us;
    let st = tm.tasks[cur].start_time;
    ti.time = (us - st) / 1000;
    0
}

/// Scatter `data` into the running task's memory at user address `ptr`,
/// through the fast contained path when the range fits in one page and the
/// spanning path otherwise.
fn write_user_bytes(tm: &mut TaskManager, ptr: usize, data: &Vec<u8>)
    requires
        old(tm).wf(),
        data.len() >= 1,
        ptr + data.len() <= usize::MAX,
        va_range_mapped(
            old(tm).tasks[old(tm).current_task as int].memory_set,
            ptr as int,
            data.len() as int,
        ),
    ensures
        final(tm).wf(),
        final(tm).tasks@ == old(tm).tasks@,
        final(tm).current_task == old(tm).current_task,
        final(tm).clock_us == old(tm).clock_us,
        final(tm).num_app == old(tm).num_app,
        final(tm).mem.bytes.len() == old(tm).mem.bytes.len(),
        scatter_post(
            old(tm).mem.bytes@,
            final(tm).mem.bytes@,
            phys_addrs_of(
                old(tm).tasks[old(tm).current_task as int].memory_set,
                ptr as int,
                data.len() as int,
            ),
            data@,
        ),
{
    let cur = tm.current_task;
    let tcb = tm.tasks.remove(cur);
    let ghost aspace = tcb.memory_set;
    let ghost addrs = phys_addrs_of(aspace, ptr as int, data.len() as int);
    let frags = match try_translate_contained(&tcb.memory_set, &tm.mem, ptr, data.len()) {
        Some(pa) => {
            let mut v: Vec<ByteRange> = Vec::new();
            let f = ByteRange { start: pa, len: data.len() };
            v.push(f);
            proof {
                assert(v@[0] == f);
                assert(v@.drop_first() =~= Seq::<ByteRange>::empty());
                assert(frag_addrs(v@) == range_addrs(f) + frag_addrs(Seq::<ByteRange>::empty()));
                assert(frag_addrs(v@) =~= addrs);
            }
            v
        },
        None => translate_spanning(&tcb.memory_set, &tm.mem, ptr, data.len()),
    };
    proof {
        lemma_phys_addrs_no_dup(aspace, ptr as int, data.len() as int);
    }
    copy_into_fragments(&mut tm.mem, &frags, data);
    tm.tasks.insert(cur, tcb);
    proof {
        assert(tm.tasks@ =~= old(tm).tasks@);
    }
}

/// The microsecond reading a `TimeVal` denotes.
pub open spec fn time_val_total_us(sec: int, usec: int) -> int {
    sec * 1_000_000 + usec
}

/// The clock reading round-trips through the `TimeVal` split, so readings
/// taken at non-decreasing clock values denote non-decreasing timestamps.
pub proof fn lemma_get_time_monotonic(us1: int, us2: int)
    requires
        0 <= us1 <= us2,
    ensures
        time_val_total_us(us1 / 1_000_000, us1 % 1_000_000) == us1,
        time_val_total_us(us2 / 1_000_000, us2 % 1_000_000) == us2,
        time_val_total_us(us1 / 1_000_000, us1 % 1_000_000) <= time_val_total_us(
            us2 / 1_000_000,
            us2 % 1_000_000,
        ),
{
    vstd::arithmetic::div_mod::lemma_fundamental_div_mod(us1, 1_000_000);
    vstd::arithmetic::div_mod::lemma_fundamental_div_mod(us2, 1_000_000);
}

/// Read the clock, build the second/microsecond split, and write it to the
/// user pointer `ts` through the boundary translator.  Always returns 0.
pub fn sys_get_time(tm: &mut TaskManager, ts: usize, _tz: usize) -> (r: isize)
    requires
        old(tm).wf(),
        ts + TIME_VAL_SIZE <= usize::MAX,
        va_range_mapped(
            old(tm).tasks[old(tm).current_task as int].memory_set,
            ts as int,
            TIME_VAL_SIZE as int,
        ),
    ensures
        r == 0,
        final(tm).wf(),
        final(tm).tasks@ == old(tm).tasks@,
        final(tm).current_task == old(tm).current_task,
        final(tm).clock_us == old(tm).clock_us,
        final(tm).mem.bytes.len() == old(tm).mem.bytes.len(),
        scatter_post(
            old(tm).mem.bytes@,
            final(tm).mem.bytes@,
            phys_addrs_of(
                old(tm).tasks[old(tm).current_task as int].memory_set,
                ts as int,
                TIME_VAL_SIZE as int,
            ),
            time_val_bytes_at(old(tm).clock_us),
        ),
{
    let us = tm.get_time_us();
    let tv = TimeVal { sec: us / 1_000_000, usec: us % 1_000_000 };
    let data = time_val_to_bytes(&tv);
    proof {
        assert(data@ == time_val_bytes_at(us));
    }
    write_user_bytes(tm, ts, &data);
    0
}

/// Snapshot the running task and write the snapshot's wire format to the
/// user pointer `ti_ptr` through the boundary translator.  Returns the
/// snapshot's status code, 0.
pub fn sys_task_info(tm: &mut TaskManager, ti_ptr: usize) -> (r: isize)
    requires
        old(tm).wf(),
        ti_ptr + TASK_INFO_SIZE <= usize::MAX,
        va_range_mapped(
            old(tm).tasks[old(tm).current_task as int].memory_set,
            ti_ptr as int,
            TASK_INFO_SIZE as int,
        ),
    ensures
        r == 0,
        final(tm).wf(),
        final(tm).tasks@ == old(tm).tasks@,
        final(tm).current_task == old(tm).current_task,
        final(tm).clock_us == old(tm).clock_us,
        final(tm).mem.bytes.len() == old(tm).mem.bytes.len(),
        scatter_post(
            old(tm).mem.bytes@,
            final(tm).mem.bytes@,
            phys_addrs_of(
                old(tm).tasks[old(tm).current_task as int].memory_set,
                ti_ptr as int,
                TASK_INFO_SIZE as int,
            ),
            task_info_bytes(
                old(tm).tasks[old(tm).current_task as int].task_status,
                old(tm).tasks[old(tm).current_task as int].syscall_stats@,
                ((old(tm).clock_us - old(tm).tasks[old(tm).current_task as int].start_time) as int
                    / 1000) as usize,
            ),
        ),
{
    let mut ti = TaskInfo::empty();
    let ret = get_current_task_info(tm, &mut ti);
    let data = task_info_to_bytes(&ti);
    proof {
        assert(data.len() == TASK_INFO_SIZE);
    }
    write_user_bytes(tm, ti_ptr, &data);
    ret
}

/// The running task gives up the processor: it is demoted to ready and the
/// round-robin choice of ready task runs instead.  Returns 0 once the
/// caller is rescheduled.
pub fn sys_yield(tm: &mut TaskManager) -> (r: isize)
    requires
        old(tm).wf(),
        old(tm).only_current_runs(),
        old(tm).tasks[old(tm).current_task as int].task_status == TaskStatus::Running,
    ensures
        r == 0,
        final(tm).wf(),
        final(tm).only_current_runs(),
        rr_choice_ok(
            old(tm).statuses().update(old(tm).current_task as int, TaskStatus::Ready),
            old(tm).current_task as int,
            final(tm).current_task as int,
        ),
        final(tm).tasks[final(tm).current_task as int].task_status == TaskStatus::Running,
        TaskManager::statuses_step(*old(tm), *final(tm)),
        TaskManager::start_times_preserved(*old(tm), *final(tm)),
        final(tm).clock_us == old(tm).clock_us,
        final(tm).mem == old(tm).mem,
        final(tm).tasks.len() == old(tm).tasks.len(),
{
    tm.suspend_current_and_run_next();
    0
}

/// The running task terminates for good; `exit_code` is only diagnostic.
/// The result names the next task to run, or `None` when no task remains
/// ready and the kernel must halt instead of returning to user mode.
pub fn sys_exit(tm: &mut TaskManager, _exit_code: i32) -> (r: Option<usize>)
    requires
        old(tm).wf(),
        old(tm).only_current_runs(),
        old(tm).tasks[old(tm).current_task as int].task_status == TaskStatus::Running,
    ensures
        final(tm).wf(),
        final(tm).tasks[old(tm).current_task as int].task_status == TaskStatus::Exited,
        r is None <==> (forall|i: int|
            0 <= i < old(tm).tasks.len() && i != old(tm).current_task
                ==> (#[trigger] old(tm).tasks[i]).task_status != TaskStatus::Ready),
        match r {
            Some(j) => {
                &&& rr_choice_ok(
                    old(tm).statuses().update(old(tm).current_task as int, TaskStatus::Exited),
                    old(tm).current_task as int,
                    j as int,
                )
                &&& final(tm).only_current_runs()
                &&& final(tm).current_task == j
                &&& final(tm).tasks[j as int].task_status == TaskStatus::Running
            },
            None => true,
        },
        TaskManager::statuses_step(*old(tm), *final(tm)),
        TaskManager::start_times_preserved(*old(tm), *final(tm)),
        final(tm).clock_us == old(tm).clock_us,
        final(tm).mem == old(tm).mem,
        final(tm).tasks.len() == old(tm).tasks.len(),
{
    tm.exit_current_and_run_next()
}

/// Scheduling priority is not implemented in this configuration: always
/// fails.
pub fn sys_set_priority(_prio: isize) -> (r: isize)
    ensures
        r == -1,
{
    -1
}

/// Map `[start, start + len)` for the running task with the 3-bit `port`
/// permission mask.  Fails with `-1`, changing nothing, when `port` has
/// bits outside the three permission bits or the page range conflicts with
/// an existing mapping.
pub fn sys_mmap(tm: &mut TaskManager, start: usize, len: usize, port: usize) -> (r: isize)
    requires
        old(tm).wf(),
        start + len <= usize::MAX,
    ensures
        final(tm).wf(),
        r == 0 || r == -1,
        (r == -1) <==> ((port & !0x7usize) != 0 || old(tm).tasks[old(
            tm,
        ).current_task as int].memory_set.spec_conflict(
            (start as int) / (crate::PAGE_SIZE as int),
            crate::task::pages_for((start + len) as int),
        )),
        r == -1 ==> *final(tm) == *old(tm),
        r == 0 ==> forall|p: int|
            final(tm).tasks[old(tm).current_task as int].memory_set.page_mapped(p) <==> (old(
                tm,
            ).tasks[old(tm).current_task as int].memory_set.page_mapped(p) || (start as int) / (
            crate::PAGE_SIZE as int) <= p < crate::task::pages_for((start + len) as int)),
        final(tm).current_task == old(tm).current_task,
        final(tm).clock_us == old(tm).clock_us,
        final(tm).statuses() == old(tm).statuses(),
        final(tm).tasks.len() == old(tm).tasks.len(),
        forall|i: int|
            0 <= i < old(tm).tasks.len() && i != old(tm).current_task ==> final(tm).tasks[i]
                == old(tm).tasks[i],
{
    if port & !0x7usize != 0 {
        return -1;
    }
    tm.mmap(start, start + len, port)
}

/// Unmap the pages spanning `[start, start + len)` for the running task.
/// Fails with `-1`, changing nothing, unless every page in the span is
/// mapped.
pub fn sys_munmap(tm: &mut TaskManager, start: usize, len: usize) -> (r: isize)
    requires
        old(tm).wf(),
        start + len <= usize::MAX,
    ensures
        final(tm).wf(),
        r == 0 || r == -1,
        (r == 0) == old(tm).tasks[old(tm).current_task as int].memory_set.range_mapped(
            (start as int) / (crate::PAGE_SIZE as int),
            crate::task::pages_for((start + len) as int),
        ),
        r == -1 ==> final(tm).tasks@ == old(tm).tasks@,
        r == 0 ==> forall|p: int|
            final(tm).tasks[old(tm).current_task as int].memory_set.page_mapped(p) <==> (old(
                tm,
            ).tasks[old(tm).current_task as int].memory_set.page_mapped(p) && !((start as int) / (
            crate::PAGE_SIZE as int) <= p < crate::task::pages_for((start + len) as int))),
        final(tm).current_task == old(tm).current_task,
        final(tm).clock_us == old(tm).clock_us,
        final(tm).mem == old(tm).mem,
        final(tm).statuses() == old(tm).statuses(),
        final(tm).tasks.len() == old(tm).tasks.len(),
        forall|i: int|
            0 <= i < old(tm).tasks.len() && i != old(tm).current_task ==> final(tm).tasks[i]
                == old(tm).tasks[i],
{
    tm.munmap(start, start + len)
}

} // verus!
