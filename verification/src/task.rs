//! Task management: the task control blocks, the status state machine, and
//! the round-robin scheduler that decides which ready task runs next.

use vstd::prelude::*;

use crate::mm::{AddressSpace, MapPermission, MappedRegion, PhysMem};
use crate::{MAX_SYSCALL_NUM, PAGE_SIZE};

verus! {

/// The life cycle of a task.  A task starts uninitialized, is promoted to
/// ready when loaded, alternates between ready and running while scheduled,
/// and ends exited; exited is terminal.
#[derive(Clone, Copy, PartialEq, Eq, Structural, Debug)]
pub enum TaskStatus {
    UnInit,
    Ready,
    Running,
    Exited,
}

/// The allowed single transitions of a task's status.
pub open spec fn status_step(s1: TaskStatus, s2: TaskStatus) -> bool {
    ||| s1 == s2
    ||| (s1 == TaskStatus::UnInit && s2 == TaskStatus::Ready)
    ||| (s1 == TaskStatus::Ready && s2 == TaskStatus::Running)
    ||| (s1 == TaskStatus::Running && s2 == TaskStatus::Ready)
    ||| (s1 == TaskStatus::Running && s2 == TaskStatus::Exited)
}

/// `Exited` is absorbing: no allowed transition leaves it.
pub proof fn lemma_exited_absorbing(s: TaskStatus)
    requires
        status_step(TaskStatus::Exited, s),
    ensures
        s == TaskStatus::Exited,
{
}

/// An exited task is never selected by the round-robin scan again.
pub proof fn lemma_exited_never_chosen(statuses: Seq<TaskStatus>, cur: int, j: int, i: int)
    requires
        0 <= i < statuses.len(),
        statuses[i] == TaskStatus::Exited,
        rr_choice_ok(statuses, cur, j),
    ensures
        j != i,
{
}

/// An opaque saved-register/stack-pointer snapshot, meaningful only to the
/// context-switch primitive and only while its task is not running.
#[derive(Clone, Copy, PartialEq, Eq, Structural, Debug)]
pub struct TaskContext {
    pub ra: usize,
    pub sp: usize,
}

impl TaskContext {
    /// The throwaway bootstrap context: all registers zero.
    pub fn zero_init() -> (cx: TaskContext)
        ensures
            cx.ra == 0,
            cx.sp == 0,
    {
        TaskContext { ra: 0, sp: 0 }
    }
}

/// Per-task record: status, saved context, owned address space, trap frame
/// location, image size, first-run timestamp and per-syscall counters.
pub struct TaskControlBlock {
    pub task_status: TaskStatus,
    pub task_cx: TaskContext,
    pub memory_set: AddressSpace,
    pub trap_cx_ppn: usize,
    pub base_size: usize,
    pub start_time: usize,
    pub syscall_stats: Vec<u32>,
}

/// How many whole pages cover `bytes` bytes.
pub open spec fn pages_for(bytes: int) -> int {
    bytes / (PAGE_SIZE as int) + if bytes % (PAGE_SIZE as int) != 0 {
        1int
    } else {
        0int
    }
}

/// Round a byte count up to a whole number of pages.
pub fn ceil_pages(bytes: usize) -> (p: usize)
    ensures
        p == pages_for(bytes as int),
{
    bytes / PAGE_SIZE + if bytes % PAGE_SIZE != 0 {
        1
    } else {
        0
    }
}

impl TaskControlBlock {
    /// Build the control block of a freshly loaded task: ready to run, its
    /// program image of `image_size` bytes mapped read-write-execute from
    /// virtual page zero, a fresh trap frame page, and zeroed accounting.
    pub fn new(mem: &mut PhysMem, image_size: usize) -> (tcb: TaskControlBlock)
        requires
            old(mem).wf(),
        ensures
            final(mem).wf(),
            final(mem).frames() >= old(mem).frames(),
            forall|a: int| 0 <= a < old(mem).bytes.len() ==> final(mem).bytes[a] == old(
                mem,
            ).bytes[a],
            tcb.task_status == TaskStatus::Ready,
            tcb.start_time == 0,
            tcb.base_size == image_size,
            tcb.syscall_stats.len() == MAX_SYSCALL_NUM,
            forall|k: int| 0 <= k < MAX_SYSCALL_NUM ==> tcb.syscall_stats[k] == 0u32,
            tcb.memory_set.wf(),
            tcb.memory_set.backed_by(final(mem).frames()),
            forall|p: int|
                tcb.memory_set.page_mapped(p) <==> 0 <= p < pages_for(image_size as int),
    {
        let pages = ceil_pages(image_size);
        let mut memory_set = AddressSpace::empty();
        if pages > 0 {
            proof {
                assert(!memory_set.spec_conflict(0, pages as int));
            }
            memory_set.insert_framed_area(
                mem,
                0,
                pages,
                MapPermission { r: true, w: true, x: true, u: true },
            );
        }
        let trap_cx_ppn = mem.alloc_zeroed(1);
        let mut syscall_stats: Vec<u32> = Vec::new();
        let mut k: usize = 0;
        while k < MAX_SYSCALL_NUM
            invariant
                k <= MAX_SYSCALL_NUM,
                syscall_stats.len() == k,
                forall|j: int| 0 <= j < k ==> syscall_stats[j] == 0u32,
            decreases MAX_SYSCALL_NUM - k,
        {
            syscall_stats.push(0);
            k = k + 1;
        }
        TaskControlBlock {
            task_status: TaskStatus::Ready,
            task_cx: TaskContext::zero_init(),
            memory_set,
            trap_cx_ppn,
            base_size: image_size,
            start_time: 0,
            syscall_stats,
        }
    }
}

/// Circular scan distance from the slot after `cur` to slot `k`, in a table
/// of `n` slots: the task right after `cur` is at distance 0 and `cur`
/// itself at distance `n - 1`.
pub open spec fn circ_dist(cur: int, k: int, n: int) -> int {
    if k > cur {
        k - cur - 1
    } else {
        k - cur - 1 + n
    }
}

/// `j` is the round-robin choice among `statuses` after `cur`: ready, and
/// no ready slot is strictly nearer in circular order.
pub open spec fn rr_choice_ok(statuses: Seq<TaskStatus>, cur: int, j: int) -> bool {
    &&& 0 <= j < statuses.len()
    &&& statuses[j] == TaskStatus::Ready
    &&& forall|k: int|
        0 <= k < statuses.len() && statuses[k] == TaskStatus::Ready ==> circ_dist(
            cur,
            j,
            statuses.len() as int,
        ) <= circ_dist(cur, k, statuses.len() as int)
}

/// The task manager: the fixed table of control blocks, the index of the
/// running task, and the models of the machine's physical memory and of the
/// monotonic microsecond clock it consults.
pub struct TaskManager {
    pub num_app: usize,
    pub tasks: Vec<TaskControlBlock>,
    pub current_task: usize,
    pub clock_us: usize,
    pub mem: PhysMem,
}

impl TaskManager {
    /// Structural well-formedness: a fixed nonempty task table, a current
    /// index inside it, well-formed backed address spaces, full-size
    /// syscall tables, and start times no later than the clock.
    pub open spec fn wf(self) -> bool {
        &&& self.num_app == self.tasks.len()
        &&& self.tasks.len() >= 1
        &&& self.current_task < self.num_app
        &&& self.mem.wf()
        &&& forall|i: int|
            0 <= i < self.tasks.len() ==> (#[trigger] self.tasks[i]).memory_set.wf()
        &&& forall|i: int|
            0 <= i < self.tasks.len() ==> (#[trigger] self.tasks[i]).memory_set.backed_by(
                self.mem.frames(),
            )
        &&& forall|i: int|
            0 <= i < self.tasks.len() ==> (#[trigger] self.tasks[i]).syscall_stats.len()
                == MAX_SYSCALL_NUM
        &&& forall|i: int|
            0 <= i < self.tasks.len() ==> (#[trigger] self.tasks[i]).start_time <= self.clock_us
    }

    /// No task other than the current one is ever `Running`.
    pub open spec fn only_current_runs(self) -> bool {
        forall|i: int|
            0 <= i < self.tasks.len() && i != self.current_task ==> (#[trigger] self.tasks[i]).task_status
                != TaskStatus::Running
    }

    /// The statuses of all tasks, in slot order.
    pub open spec fn statuses(self) -> Seq<TaskStatus> {
        Seq::new(self.tasks.len() as nat, |i: int| self.tasks[i].task_status)
    }

    /// Some task is ready to run.
    pub open spec fn has_ready(self) -> bool {
        exists|i: int|
            0 <= i < self.tasks.len() && (#[trigger] self.tasks[i]).task_status
                == TaskStatus::Ready
    }

    /// Every task stepped along an allowed status transition.
    pub open spec fn statuses_step(pre: TaskManager, post: TaskManager) -> bool {
        &&& post.tasks.len() == pre.tasks.len()
        &&& forall|i: int|
            0 <= i < pre.tasks.len() ==> status_step(
                (#[trigger] pre.tasks[i]).task_status,
                post.tasks[i].task_status,
            )
    }

    /// A start time, once nonzero, never changes again.
    pub open spec fn start_times_preserved(pre: TaskManager, post: TaskManager) -> bool {
        forall|i: int|
            0 <= i < pre.tasks.len() && (#[trigger] pre.tasks[i]).start_time != 0
                ==> post.tasks[i].start_time == pre.tasks[i].start_time
    }

    /// Boot-time construction: one ready task per loaded application image,
    /// sized by `app_sizes`, with task 0 as the initial current index and
    /// the clock at zero.
    pub fn new(app_sizes: &Vec<usize>) -> (tm: TaskManager)
        requires
            app_sizes.len() >= 1,
        ensures
            tm.wf(),
            tm.only_current_runs(),
            tm.num_app == app_sizes.len(),
            tm.current_task == 0,
            tm.clock_us == 0,
            forall|i: int|
                0 <= i < tm.tasks.len() ==> (#[trigger] tm.tasks[i]).task_status
                    == TaskStatus::Ready,
            forall|i: int| 0 <= i < tm.tasks.len() ==> (#[trigger] tm.tasks[i]).start_time == 0,
            forall|i: int|
                0 <= i < tm.tasks.len() ==> (#[trigger] tm.tasks[i]).base_size == app_sizes[i],
            forall|i: int|
                0 <= i < tm.tasks.len() ==> forall|p: int|
                    (#[trigger] tm.tasks[i]).memory_set.page_mapped(p) <==> 0 <= p < pages_for(
                        app_sizes[i] as int,
                    ),
    {
        let mut mem = PhysMem::new();
        let mut tasks: Vec<TaskControlBlock> = Vec::new();
        let n = app_sizes.len();
        let mut i: usize = 0;
        while i < n
            invariant
                i <= n,
                tasks.len() == i,
                mem.wf(),
                forall|j: int|
                    0 <= j < i ==> (#[trigger] tasks[j]).task_status == TaskStatus::Ready,
                forall|j: int| 0 <= j < i ==> (#[trigger] tasks[j]).start_time == 0,
                forall|j: int| 0 <= j < i ==> (#[trigger] tasks[j]).base_size == app_sizes[j],
                forall|j: int|
                    0 <= j < i ==> forall|p: int|
                        (#[trigger] tasks[j]).memory_set.page_mapped(p) <==> 0 <= p < pages_for(
                            app_sizes[j] as int,
                        ),
                forall|j: int| 0 <= j < i ==> (#[trigger] tasks[j]).memory_set.wf(),
                forall|j: int|
                    0 <= j < i ==> (#[trigger] tasks[j]).memory_set.backed_by(mem.frames()),
                forall|j: int|
                    0 <= j < i ==> (#[trigger] tasks[j]).syscall_stats.len() == MAX_SYSCALL_NUM,
            decreases n - i,
        {
            let ghost pre_frames = mem.frames();
            let tcb = TaskControlBlock::new(&mut mem, app_sizes[i]);
            tasks.push(tcb);
            proof {
                assert forall|j: int|
                    0 <= j < i + 1 implies (#[trigger] tasks[j]).memory_set.backed_by(
                    mem.frames(),
                ) by {
                    if j < i {
                        crate::mm::lemma_backed_by_mono(tasks[j].memory_set, pre_frames, mem.frames());
                    }
                }
            }
            i = i + 1;
        }
        TaskManager { num_app: n, tasks, current_task: 0, clock_us: 0, mem }
    }

    /// Read the monotonic microsecond clock.
    pub fn get_time_us(&self) -> (t: usize)
        ensures
            t == self.clock_us,
    {
        self.clock_us
    }

    /// Advance the clock to `now`, a reading of the external monotonic
    /// microsecond counter; the clock never moves backwards.
    pub fn set_time_us(&mut self, now: usize)
        requires
            old(self).clock_us <= now,
        ensures
            *final(self) == (TaskManager { clock_us: now, ..*old(self) }),
            old(self).wf() ==> final(self).wf(),
    {
        self.clock_us = now;
    }

    /// Start the scheduler: task 0 becomes the running task, its start time
    /// is recorded on this first run, and the returned index is the slot to
    /// switch into from the throwaway bootstrap context.
    pub fn run_first_task(&mut self) -> (r: usize)
        requires
            old(self).wf(),
            forall|i: int|
                0 <= i < old(self).tasks.len() ==> (#[trigger] old(self).tasks[i]).task_status
                    == TaskStatus::Ready,
        ensures
            r == 0,
            final(self).wf(),
            final(self).only_current_runs(),
            final(self).current_task == 0,
            final(self).tasks[0].task_status == TaskStatus::Running,
            final(self).tasks[0].start_time == if old(self).tasks[0].start_time == 0 {
                old(self).clock_us
            } else {
                old(self).tasks[0].start_time
            },
            final(self).tasks[0] == (TaskControlBlock {
                task_status: TaskStatus::Running,
                start_time: final(self).tasks[0].start_time,
                ..old(self).tasks[0]
            }),
            forall|i: int|
                1 <= i < old(self).tasks.len() ==> final(self).tasks[i] == old(self).tasks[i],
            final(self).tasks.len() == old(self).tasks.len(),
            final(self).num_app == old(self).num_app,
            final(self).clock_us == old(self).clock_us,
            final(self).mem == old(self).mem,
            TaskManager::statuses_step(*old(self), *final(self)),
            TaskManager::start_times_preserved(*old(self), *final(self)),
    {
        self.tasks[0].task_status = TaskStatus::Running;
        if self.tasks[0].start_time == 0 {
            let now = self.clock_us;
            self.tasks[0].start_time = now;
        }
        self.current_task = 0;
        0
    }

    /// Demote the running task to `Ready`; its slot keeps everything else.
    pub fn mark_current_suspended(&mut self)
        requires
            old(self).wf(),
            old(self).tasks[old(self).current_task as int].task_status == TaskStatus::Running,
        ensures
            final(self).wf(),
            final(self).tasks[old(self).current_task as int] == (TaskControlBlock {
                task_status: TaskStatus::Ready,
                ..old(self).tasks[old(self).current_task as int]
            }),
            forall|i: int|
                0 <= i < old(self).tasks.len() && i != old(self).current_task ==> final(self).tasks[i] == old(self).tasks[i],
            final(self).tasks.len() == old(self).tasks.len(),
            final(self).num_app == old(self).num_app,
            final(self).current_task == old(self).current_task,
            final(self).clock_us == old(self).clock_us,
            final(self).mem == old(self).mem,
            TaskManager::statuses_step(*old(self), *final(self)),
            TaskManager::start_times_preserved(*old(self), *final(self)),
    {
        let cur = self.current_task;
        self.tasks[cur].task_status = TaskStatus::Ready;
    }

    /// Mark the running task `Exited`; this is terminal.
    pub fn mark_current_exited(&mut self)
        requires
            old(self).wf(),
            old(self).tasks[old(self).current_task as int].task_status == TaskStatus::Running,
        ensures
            final(self).wf(),
            final(self).tasks[old(self).current_task as int] == (TaskControlBlock {
                task_status: TaskStatus::Exited,
                ..old(self).tasks[old(self).current_task as int]
            }),
            forall|i: int|
                0 <= i < old(self).tasks.len() && i != old(self).current_task ==> final(self).tasks[i] == old(self).tasks[i],
            final(self).tasks.len() == old(self).tasks.len(),
            final(self).num_app == old(self).num_app,
            final(self).current_task == old(self).current_task,
            final(self).clock_us == old(self).clock_us,
            final(self).mem == old(self).mem,
            TaskManager::statuses_step(*old(self), *final(self)),
            TaskManager::start_times_preserved(*old(self), *final(self)),
    {
        let cur = self.current_task;
        self.tasks[cur].task_status = TaskStatus::Exited;
    }

    /// Find the next task to run: the first `Ready` slot in circular order
    /// strictly after the current one, the current slot itself coming last.
    pub fn find_next_task(&self) -> (r: Option<usize>)
        requires
            self.wf(),
        ensures
            match r {
                Some(j) => rr_choice_ok(self.statuses(), self.current_task as int, j as int),
                None => !self.has_ready(),
            },
    {
        let n = self.num_app;
        let cur = self.current_task;
        let mut o: usize = 0;
        while o < n
            invariant
                o <= n,
                forall|k: int|
                    0 <= k < self.tasks.len() && circ_dist(cur as int, k, n as int) < o
                        ==> (#[trigger] self.tasks[k]).task_status != TaskStatus::Ready,
            decreases n - o,
        {
            let id = if o < n - 1 - cur {
                cur + 1 + o
            } else {
                o - (n - 1 - cur)
            };
            proof {
                assert(circ_dist(cur as int, id as int, n as int) == o);
            }
            if self.tasks[id].task_status == TaskStatus::Ready {
                return Some(id);
            }
            proof {
                assert forall|k: int|
                    0 <= k < self.tasks.len() && circ_dist(cur as int, k, n as int) < o + 1
                        implies (#[trigger] self.tasks[k]).task_status != TaskStatus::Ready by {
                    if circ_dist(cur as int, k, n as int) == o {
                        assert(k == id);
                    }
                }
            }
            o = o + 1;
        }
        proof {
            assert forall|k: int|
                0 <= k < self.tasks.len() implies (#[trigger] self.tasks[k]).task_status
                != TaskStatus::Ready by {
                assert(0 <= circ_dist(cur as int, k, n as int) < n);
            }
        }
        None
    }

    /// Switch to the round-robin choice of ready task, recording its start
    /// time on its first run; `None` means no task is ready, the fatal
    /// all-applications-completed condition on which the kernel halts.
    pub fn run_next_task(&mut self) -> (r: Option<usize>)
        requires
            old(self).wf(),
            forall|i: int|
                0 <= i < old(self).tasks.len() ==> (#[trigger] old(self).tasks[i]).task_status
                    != TaskStatus::Running,
        ensures
            final(self).wf(),
            r is None <==> !old(self).has_ready(),
            r is None ==> *final(self) == *old(self),
            match r {
                Some(j) => {
                    &&& rr_choice_ok(old(self).statuses(), old(self).current_task as int, j as int)
                    &&& final(self).current_task == j
                    &&& final(self).only_current_runs()
                    &&& final(self).tasks[j as int].task_status == TaskStatus::Running
                    &&& final(self).tasks[j as int].start_time == if old(self).tasks[j as int].start_time == 0 {
                        old(self).clock_us
                    } else {
                        old(self).tasks[j as int].start_time
                    }
                    &&& final(self).tasks[j as int] == (TaskControlBlock {
                        task_status: TaskStatus::Running,
                        start_time: final(self).tasks[j as int].start_time,
                        ..old(self).tasks[j as int]
                    })
                    &&& forall|i: int|
                        0 <= i < old(self).tasks.len() && i != j ==> final(self).tasks[i] == old(self).tasks[i]
                    &&& final(self).tasks.len() == old(self).tasks.len()
                    &&& final(self).num_app == old(self).num_app
                    &&& final(self).clock_us == old(self).clock_us
                    &&& final(self).mem == old(self).mem
                },
                None => true,
            },
            TaskManager::statuses_step(*old(self), *final(self)),
            TaskManager::start_times_preserved(*old(self), *final(self)),
    {
        match self.find_next_task() {
            Some(next) => {
                self.tasks[next].task_status = TaskStatus::Running;
                if self.tasks[next].start_time == 0 {
                    let now = self.clock_us;
                    self.tasks[next].start_time = now;
                }
                self.current_task = next;
                Some(next)
            },
            None => None,
        }
    }

    /// Suspend the running task and switch to the round-robin choice of
    /// ready task.  The suspended task itself is again eligible, so a next
    /// task always exists; its slot index is returned.
    pub fn suspend_current_and_run_next(&mut self) -> (r: usize)
        requires
            old(self).wf(),
            old(self).only_current_runs(),
            old(self).tasks[old(self).current_task as int].task_status == TaskStatus::Running,
        ensures
            final(self).wf(),
            final(self).only_current_runs(),
            rr_choice_ok(
                old(self).statuses().update(old(self).current_task as int, TaskStatus::Ready),
                old(self).current_task as int,
                r as int,
            ),
            final(self).current_task == r,
            final(self).tasks[r as int].task_status == TaskStatus::Running,
            final(self).tasks[r as int].start_time == if old(self).tasks[r as int].start_time
                == 0 {
                old(self).clock_us
            } else {
                old(self).tasks[r as int].start_time
            },
            forall|i: int|
                0 <= i < old(self).tasks.len() && i != r && i != old(self).current_task
                    ==> final(self).tasks[i] == old(self).tasks[i],
            r != old(self).current_task ==> final(self).tasks[old(self).current_task as int] == (
            TaskControlBlock {
                task_status: TaskStatus::Ready,
                ..old(self).tasks[old(self).current_task as int]
            }),
            final(self).tasks.len() == old(self).tasks.len(),
            final(self).num_app == old(self).num_app,
            final(self).clock_us == old(self).clock_us,
            final(self).mem == old(self).mem,
            TaskManager::statuses_step(*old(self), *final(self)),
            TaskManager::start_times_preserved(*old(self), *final(self)),
    {
        let ghost pre = *self;
        self.mark_current_suspended();
        let ghost mid = *self;
        proof {
            assert(mid.statuses() =~= pre.statuses().update(
                pre.current_task as int,
                TaskStatus::Ready,
            ));
            assert(mid.tasks[mid.current_task as int].task_status == TaskStatus::Ready);
            assert(mid.has_ready());
        }
        match self.run_next_task() {
            Some(next) => next,
            None => {
                proof {
                    assert(false);
                }
                0
            },
        }
    }

    /// Exit the running task for good and switch to the round-robin choice
    /// of ready task.  `None` means no task remains ready: every
    /// application has finished and the kernel must halt.
    pub fn exit_current_and_run_next(&mut self) -> (r: Option<usize>)
        requires
            old(self).wf(),
            old(self).only_current_runs(),
            old(self).tasks[old(self).current_task as int].task_status == TaskStatus::Running,
        ensures
            final(self).wf(),
            final(self).tasks[old(self).current_task as int].task_status == TaskStatus::Exited,
            r is None <==> (forall|i: int|
                0 <= i < old(self).tasks.len() && i != old(self).current_task
                    ==> (#[trigger] old(self).tasks[i]).task_status != TaskStatus::Ready),
            match r {
                Some(j) => {
                    &&& rr_choice_ok(
                        old(self).statuses().update(
                            old(self).current_task as int,
                            TaskStatus::Exited,
                        ),
                        old(self).current_task as int,
                        j as int,
                    )
                    &&& final(self).only_current_runs()
                    &&& final(self).current_task == j
                    &&& final(self).tasks[j as int].task_status == TaskStatus::Running
                    &&& final(self).tasks[j as int].start_time == if old(
                        self,
                    ).tasks[j as int].start_time == 0 {
                        old(self).clock_us
                    } else {
                        old(self).tasks[j as int].start_time
                    }
                    &&& forall|i: int|
                        0 <= i < old(self).tasks.len() && i != j && i != old(self).current_task
                            ==> final(self).tasks[i] == old(self).tasks[i]
                },
                None => final(self).tasks[old(self).current_task as int] == (TaskControlBlock {
                    task_status: TaskStatus::Exited,
                    ..old(self).tasks[old(self).current_task as int]
                }) && forall|i: int|
                    0 <= i < old(self).tasks.len() && i != old(self).current_task ==> final(self).tasks[i] == old(self).tasks[i],
            },
            final(self).tasks.len() == old(self).tasks.len(),
            final(self).num_app == old(self).num_app,
            final(self).clock_us == old(self).clock_us,
            final(self).mem == old(self).mem,
            TaskManager::statuses_step(*old(self), *final(self)),
            TaskManager::start_times_preserved(*old(self), *final(self)),
    {
        let ghost pre = *self;
        self.mark_current_exited();
        let ghost mid = *self;
        proof {
            assert(mid.statuses() =~= pre.statuses().update(
                pre.current_task as int,
                TaskStatus::Exited,
            ));
        }
        let r = self.run_next_task();
        proof {
            if mid.has_ready() {
                let w = choose|i: int|
                    0 <= i < mid.tasks.len() && (#[trigger] mid.tasks[i]).task_status
                        == TaskStatus::Ready;
                assert(w != pre.current_task as int);
                assert(pre.tasks[w].task_status == TaskStatus::Ready);
            }
            if exists|i: int|
                0 <= i < pre.tasks.len() && i != pre.current_task && (#[trigger] pre.tasks[i]).task_status
                    == TaskStatus::Ready {
                let w = choose|i: int|
                    0 <= i < pre.tasks.len() && i != pre.current_task
                        && (#[trigger] pre.tasks[i]).task_status == TaskStatus::Ready;
                assert(mid.tasks[w].task_status == TaskStatus::Ready);
                assert(mid.has_ready());
            }
        }
        r
    }

    /// Identifier of the running task's address space; the translator uses
    /// it to pick the page table to translate against.
    pub fn current_user_token(&self) -> (t: usize)
        ensures
            t == self.current_task,
    {
        self.current_task
    }

    /// Physical page number of the running task's trap frame, where user
    /// register state is delivered and retrieved across traps.
    pub fn current_trap_cx(&self) -> (ppn: usize)
        requires
            self.wf(),
        ensures
            ppn == self.tasks[self.current_task as int].trap_cx_ppn,
    {
        self.tasks[self.current_task].trap_cx_ppn
    }

    /// Count one dispatch of syscall `syscall_id` against the running task.
    pub fn update_syscall_stats(&mut self, syscall_id: usize)
        requires
            old(self).wf(),
            syscall_id < MAX_SYSCALL_NUM,
            old(self).tasks[old(self).current_task as int].syscall_stats[syscall_id as int]
                < u32::MAX,
        ensures
            final(self).wf(),
            final(self).tasks[old(self).current_task as int].syscall_stats@ == old(
                self,
            ).tasks[old(self).current_task as int].syscall_stats@.update(
                syscall_id as int,
                (old(self).tasks[old(self).current_task as int].syscall_stats[syscall_id as int]
                    + 1) as u32,
            ),
            final(self).tasks[old(self).current_task as int] == (TaskControlBlock {
                syscall_stats: final(self).tasks[old(self).current_task as int].syscall_stats,
                ..old(self).tasks[old(self).current_task as int]
            }),
            forall|i: int|
                0 <= i < old(self).tasks.len() && i != old(self).current_task ==> final(self).tasks[i] == old(self).tasks[i],
            final(self).tasks.len() == old(self).tasks.len(),
            final(self).num_app == old(self).num_app,
            final(self).current_task == old(self).current_task,
            final(self).clock_us == old(self).clock_us,
            final(self).mem == old(self).mem,
    {
        let cur = self.current_task;
        let v = self.tasks[cur].syscall_stats[syscall_id];
        self.tasks[cur].syscall_stats[syscall_id] = v + 1;
    }

    /// Create a mapping for the virtual byte range `[start_va, end_va)` in
    /// the running task's address space, the end rounded up to the next
    /// page boundary and the start taken as given.  Fails with `-1`, and
    /// changes nothing, exactly when the page range conflicts with an
    /// existing region.
    pub fn mmap(&mut self, start_va: usize, end_va: usize, port: usize) -> (ret: isize)
        requires
            old(self).wf(),
            start_va <= end_va,
        ensures
            final(self).wf(),
            ret == 0 || ret == -1,
            (ret == -1) == old(self).tasks[old(self).current_task as int].memory_set.spec_conflict(
                (start_va / PAGE_SIZE) as int,
                pages_for(end_va as int),
            ),
            ret == -1 ==> *final(self) == *old(self),
            ret == 0 ==> forall|p: int|
                final(self).tasks[old(self).current_task as int].memory_set.page_mapped(p) <==> (
                old(self).tasks[old(self).current_task as int].memory_set.page_mapped(p) || (
                start_va / PAGE_SIZE) as int <= p < pages_for(end_va as int)),
            ret == 0 ==> forall|p: int|
                old(self).tasks[old(self).current_task as int].memory_set.page_mapped(p)
                    ==> final(self).tasks[old(self).current_task as int].memory_set.translate_page(
                    p,
                ) == old(self).tasks[old(self).current_task as int].memory_set.translate_page(p),
            ret == 0 && ((start_va / PAGE_SIZE) as int) < pages_for(end_va as int) ==> final(self).tasks[old(self).current_task as int].memory_set.regions@ == old(self).tasks[old(
                self,
            ).current_task as int].memory_set.regions@.push(
                MappedRegion {
                    start: ((start_va as int) / (PAGE_SIZE as int)) as usize,
                    end: pages_for(end_va as int) as usize,
                    perm: crate::mm::port_permission(port),
                    frame_base: old(self).mem.frames() as usize,
                },
            ),
            ret == 0 && (start_va / PAGE_SIZE) as int >= pages_for(end_va as int) ==> *final(self) == *old(self),
            forall|i: int|
                0 <= i < old(self).tasks.len() && i != old(self).current_task ==> final(self).tasks[i] == old(self).tasks[i],
            final(self).tasks[old(self).current_task as int] == (TaskControlBlock {
                memory_set: final(self).tasks[old(self).current_task as int].memory_set,
                ..old(self).tasks[old(self).current_task as int]
            }),
            final(self).tasks.len() == old(self).tasks.len(),
            final(self).num_app == old(self).num_app,
            final(self).current_task == old(self).current_task,
            final(self).clock_us == old(self).clock_us,
            forall|a: int|
                0 <= a < old(self).mem.bytes.len() ==> final(self).mem.bytes[a] == old(
                    self,
                ).mem.bytes[a],
            final(self).mem.frames() >= old(self).mem.frames(),
            final(self).statuses() == old(self).statuses(),
    {
        let cur = self.current_task;
        let l = start_va / PAGE_SIZE;
        let r = ceil_pages(end_va);
        let conflict = self.tasks[cur].memory_set.has_conflict_with_range(l, r);
        if conflict {
            return -1;
        }
        if l < r {
            let perm = MapPermission::from_port(port);
            let mut tcb = self.tasks.remove(cur);
            tcb.memory_set.insert_framed_area(&mut self.mem, l, r, perm);
            self.tasks.insert(cur, tcb);
            proof {
                assert(self.tasks@ =~= old(self).tasks@.update(cur as int, self.tasks@[cur as int]));
                assert forall|i: int| 0 <= i < self.tasks.len() implies (
                #[trigger] self.tasks[i]).memory_set.backed_by(self.mem.frames()) by {
                    if i != cur {
                        crate::mm::lemma_backed_by_mono(
                            self.tasks[i].memory_set,
                            old(self).mem.frames(),
                            self.mem.frames(),
                        );
                    }
                }
                assert(self.statuses() =~= old(self).statuses());
            }
        }
        0
    }

    /// Unmap the pages spanning `[start_va, end_va)`, the start rounded
    /// down and the end rounded up to page boundaries.  Fails with `-1`,
    /// and changes nothing, unless every page in the span is mapped.
    pub fn munmap(&mut self, start_va: usize, end_va: usize) -> (ret: isize)
        requires
            old(self).wf(),
            start_va <= end_va,
        ensures
            final(self).wf(),
            ret == 0 || ret == -1,
            (ret == 0) == old(self).tasks[old(self).current_task as int].memory_set.range_mapped(
                (start_va / PAGE_SIZE) as int,
                pages_for(end_va as int),
            ),
            ret == -1 ==> final(self).tasks@ == old(self).tasks@,
            ret == 0 ==> forall|p: int|
                final(self).tasks[old(self).current_task as int].memory_set.page_mapped(p) <==> (
                old(self).tasks[old(self).current_task as int].memory_set.page_mapped(p) && !((
                start_va / PAGE_SIZE) as int <= p < pages_for(end_va as int))),
            ret == 0 ==> forall|p: int|
                final(self).tasks[old(self).current_task as int].memory_set.page_mapped(p)
                    ==> final(self).tasks[old(self).current_task as int].memory_set.translate_page(
                    p,
                ) == old(self).tasks[old(self).current_task as int].memory_set.translate_page(p)
                    && final(self).tasks[old(self).current_task as int].memory_set.perm_at(p)
                    == old(self).tasks[old(self).current_task as int].memory_set.perm_at(p),
            forall|i: int|
                0 <= i < old(self).tasks.len() && i != old(self).current_task ==> final(self).tasks[i] == old(self).tasks[i],
            final(self).tasks[old(self).current_task as int] == (TaskControlBlock {
                memory_set: final(self).tasks[old(self).current_task as int].memory_set,
                ..old(self).tasks[old(self).current_task as int]
            }),
            final(self).tasks.len() == old(self).tasks.len(),
            final(self).num_app == old(self).num_app,
            final(self).current_task == old(self).current_task,
            final(self).clock_us == old(self).clock_us,
            final(self).mem == old(self).mem,
            final(self).statuses() == old(self).statuses(),
    {
        let cur = self.current_task;
        let l = start_va / PAGE_SIZE;
        let r = ceil_pages(end_va);
        proof {
            assert(l as int <= pages_for(end_va as int)) by {
                vstd::arithmetic::div_mod::lemma_div_is_ordered(
                    start_va as int,
                    end_va as int,
                    PAGE_SIZE as int,
                );
            }
            crate::mm::lemma_backed_by_mono(
                old(self).tasks[cur as int].memory_set,
                old(self).mem.frames(),
                usize::MAX as int,
            );
        }
        let mut tcb = self.tasks.remove(cur);
        let ret = tcb.memory_set.unmap_area_exact_range(l, r);
        self.tasks.insert(cur, tcb);
        proof {
            assert(self.tasks@ =~= old(self).tasks@.update(cur as int, self.tasks@[cur as int]));
            if ret == -1 {
                assert(self.tasks@ =~= old(self).tasks@);
            }
            assert(self.statuses() =~= old(self).statuses());
        }
        ret
    }
}

} // verus!
