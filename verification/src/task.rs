//! The batch-task layer: a fixed table of tasks dispatched round-robin.
//!
//! Each task owns an address space built from its ELF image and the trap
//! context to enter it with.  `run_next` scans cyclically from the task
//! after the current one and dispatches the first Ready task; the jump to
//! ring 3 itself is the assembly layer's part, so a dispatch here names the
//! user stack, entry point and page-table root to use.

use vstd::prelude::*;

use crate::elf;
use crate::memory::{get_app_kernel_stack, KERNEL_STACK_SLOTS};
use crate::memory_set;
use crate::memory_set::MemorySet;

verus! {

#[derive(Debug, Clone, Copy, PartialEq, Eq, Structural)]
pub enum TaskStatus {
    Ready,
    Running,
    Stop,
}

/// What entering the task in user mode takes: its stack top and entry
/// point.
#[derive(Debug, Clone, Copy, PartialEq, Eq, Structural)]
pub struct TrapContext {
    pub user_stack: usize,
    pub entry_point: usize,
}

/// What one dispatch asks the assembly layer to do: load the page table
/// and enter user mode on the task's stack at its entry point.
#[derive(Debug, Clone, Copy, PartialEq, Eq, Structural)]
pub struct UserJump {
    pub user_stack: usize,
    pub entry_point: usize,
    pub page_table_addr: u64,
}

pub struct Task {
    pub id: usize,
    pub task_status: TaskStatus,
    pub memory_set: MemorySet,
    pub trap_context: TrapContext,
}

impl Task {
    /// Builds task `app_id` from its ELF image: a fresh address space, and
    /// the trap context aimed at the image's entry on its user stack.
    pub fn new(elf_data: &Vec<u8>, app_id: usize, page_table_root: u64) -> (r: Self)
        requires
            elf::valid_elf(elf_data@),
            memory_set::spec_user_stack_top(elf_data@) <= usize::MAX,
            elf::spec_entry_point(elf_data@) <= usize::MAX,
        ensures
            r.id == app_id,
            r.task_status is Ready,
            r.memory_set.wf(),
            memory_set::spec_is_elf_layout(r.memory_set, elf_data@),
            r.trap_context.user_stack == memory_set::spec_user_stack_top(elf_data@),
            r.trap_context.entry_point == elf::spec_entry_point(elf_data@),
    {
        let (memory_set, user_stack, entry_point) = MemorySet::from_elf(elf_data, page_table_root);
        Self {
            id: app_id,
            task_status: TaskStatus::Ready,
            memory_set,
            trap_context: TrapContext {
                user_stack: user_stack as usize,
                entry_point: entry_point as usize,
            },
        }
    }
}

pub struct InnerTaskManager {
    pub tasks: Vec<Task>,
    pub current_task: usize,
}

impl InnerTaskManager {
    pub fn current_task(&self) -> (r: &Task)
        requires
            self.current_task < self.tasks@.len(),
        ensures
            *r == self.tasks@[self.current_task as int],
    {
        &self.tasks[self.current_task]
    }
}

pub struct TaskManager {
    pub task_num: usize,
    pub inner: InnerTaskManager,
}

/// The next Ready task at or after `k` steps past `cur`, scanning the
/// table cyclically.
pub open spec fn spec_find_next_from(tasks: Seq<Task>, cur: int, k: int) -> Option<int>
    decreases tasks.len() + 1 - k,
{
    if k < 1 || k > tasks.len() || tasks.len() == 0 {
        None
    } else {
        let id = (cur + k) % (tasks.len() as int);
        if tasks[id].task_status is Ready {
            Some(id)
        } else {
            spec_find_next_from(tasks, cur, k + 1)
        }
    }
}

impl TaskManager {
    pub open spec fn wf(self) -> bool {
        &&& self.inner.current_task < self.inner.tasks@.len()
        &&& self.inner.tasks@.len() < KERNEL_STACK_SLOTS
        &&& forall|i: int|
            0 <= i < self.inner.tasks@.len() ==> (#[trigger] self.inner.tasks@[i]).memory_set.wf()
    }

    /// Dispatches task `id`: names its user stack, entry point and
    /// page-table root for the jump to ring 3.
    pub fn run_task(&self, id: usize) -> (r: UserJump)
        requires
            self.wf(),
            id < self.inner.tasks@.len(),
        ensures
            r.user_stack == self.inner.tasks@[id as int].trap_context.user_stack,
            r.entry_point == self.inner.tasks@[id as int].trap_context.entry_point,
            r.page_table_addr == self.inner.tasks@[id as int].memory_set.page_table_root,
    {
        let task = &self.inner.tasks[id];
        UserJump {
            user_stack: task.trap_context.user_stack,
            entry_point: task.trap_context.entry_point,
            page_table_addr: task.memory_set.page_table_address(),
        }
    }

    /// Marks the current task stopped.
    pub fn stop_current(&mut self)
        requires
            old(self).wf(),
        ensures
            final(self).wf(),
            final(self).inner.current_task == old(self).inner.current_task,
            final(self).inner.tasks@.len() == old(self).inner.tasks@.len(),
            final(self).inner.tasks@[old(self).inner.current_task as int].task_status is Stop,
            forall|i: int|
                0 <= i < old(self).inner.tasks@.len() && i != old(self).inner.current_task ==> (
                #[trigger] final(self).inner.tasks@[i]) == old(self).inner.tasks@[i],
            final(self).inner.tasks@[old(self).inner.current_task as int] == (Task {
                task_status: TaskStatus::Stop,
                ..old(self).inner.tasks@[old(self).inner.current_task as int]
            }),
            final(self).task_num == old(self).task_num,
    {
        let cur = self.inner.current_task;
        let slot = &mut self.inner.tasks[cur];
        slot.task_status = TaskStatus::Stop;
    }

    /// The first Ready task after the current one, scanning cyclically.
    pub fn find_next_task(&self) -> (r: Option<usize>)
        requires
            self.wf(),
        ensures
            match spec_find_next_from(self.inner.tasks@, self.inner.current_task as int, 1) {
                Some(id) => r == Some(id as usize),
                None => r is None,
            },
    {
        let len = self.inner.tasks.len();
        let cur = self.inner.current_task;
        let mut k: usize = 1;
        while k <= len
            invariant
                self.wf(),
                len == self.inner.tasks@.len(),
                cur == self.inner.current_task,
                cur < len,
                1 <= k <= len + 1,
                spec_find_next_from(self.inner.tasks@, cur as int, 1) == spec_find_next_from(
                    self.inner.tasks@,
                    cur as int,
                    k as int,
                ),
            decreases len + 1 - k,
        {
            let id = (cur + k) % len;
            if self.inner.tasks[id].task_status == TaskStatus::Ready {
                return Some(id);
            }
            k = k + 1;
        }
        None
    }

    /// Makes the next Ready task current and dispatches it.  The callers
    /// guarantee some task is still Ready; with every task stopped the
    /// kernel halts the machine instead.
    pub fn run_next(&mut self) -> (r: UserJump)
        requires
            old(self).wf(),
            spec_find_next_from(
                old(self).inner.tasks@,
                old(self).inner.current_task as int,
                1,
            ) is Some,
        ensures
            final(self).wf(),
            final(self).inner.tasks == old(self).inner.tasks,
            final(self).inner.current_task as int == spec_find_next_from(
                old(self).inner.tasks@,
                old(self).inner.current_task as int,
                1,
            ).unwrap(),
            r.user_stack == final(self).inner.tasks@[final(self).inner.current_task as int].trap_context.user_stack,
            r.entry_point == final(self).inner.tasks@[final(self).inner.current_task as int].trap_context.entry_point,
            r.page_table_addr == final(self).inner.tasks@[final(self).inner.current_task as int].memory_set.page_table_root,
    {
        let next = self.find_next_task().unwrap();
        proof {
            lemma_find_next_in_range(
                self.inner.tasks@,
                self.inner.current_task as int,
                1,
            );
        }
        self.inner.current_task = next;
        self.run_task(next)
    }

    /// Top of the kernel stack slot of the current task.
    pub fn current_task_kernel_stack(&self) -> (r: u64)
        requires
            self.wf(),
        ensures
            r == crate::memory::KERNEL_STACK_END - (self.inner.current_task as int) * (
            crate::memory::KERNEL_STACK_SIZE + crate::memory::GUARD_SIZE),
    {
        get_app_kernel_stack(self.inner.current_task as u64)
    }
}

/// A found task index lies inside the table.
proof fn lemma_find_next_in_range(tasks: Seq<Task>, cur: int, k: int)
    requires
        spec_find_next_from(tasks, cur, k) is Some,
        0 <= cur,
    ensures
        0 <= spec_find_next_from(tasks, cur, k).unwrap() < tasks.len(),
        tasks[spec_find_next_from(tasks, cur, k).unwrap()].task_status is Ready,
    decreases tasks.len() + 1 - k,
{
    if !(k < 1 || k > tasks.len() || tasks.len() == 0) {
        let id = (cur + k) % (tasks.len() as int);
        if tasks[id].task_status is Ready {
        } else {
            lemma_find_next_in_range(tasks, cur, k + 1);
        }
    }
}

/// Enters user space for the first time, running task 0.
pub fn run_first(task_manager: &TaskManager) -> (r: UserJump)
    requires
        task_manager.wf(),
        task_manager.inner.tasks@.len() > 0,
    ensures
        r.user_stack == task_manager.inner.tasks@[0].trap_context.user_stack,
        r.entry_point == task_manager.inner.tasks@[0].trap_context.entry_point,
        r.page_table_addr == task_manager.inner.tasks@[0].memory_set.page_table_root,
{
    task_manager.run_task(0)
}

/// Boot-time entry into user space: dispatches the first task.
pub fn user_init(task_manager: &TaskManager) -> (r: UserJump)
    requires
        task_manager.wf(),
        task_manager.inner.tasks@.len() > 0,
    ensures
        r.user_stack == task_manager.inner.tasks@[0].trap_context.user_stack,
        r.entry_point == task_manager.inner.tasks@[0].trap_context.entry_point,
        r.page_table_addr == task_manager.inner.tasks@[0].memory_set.page_table_root,
{
    run_first(task_manager)
}

/// Stops the current task and dispatches the next Ready one.
pub fn stop_current_and_run_next(task_manager: &mut TaskManager) -> (r: UserJump)
    requires
        old(task_manager).wf(),
        spec_find_next_from(
            Seq::new(old(task_manager).inner.tasks@.len(), |i: int| if i == old(task_manager).inner.current_task as int {
                Task {
                    task_status: TaskStatus::Stop,
                    ..old(task_manager).inner.tasks@[i]
                }
            } else {
                old(task_manager).inner.tasks@[i]
            }),
            old(task_manager).inner.current_task as int,
            1,
        ) is Some,
    ensures
        final(task_manager).wf(),
        final(task_manager).inner.tasks@[old(task_manager).inner.current_task as int].task_status is Stop,
        r.user_stack == final(task_manager).inner.tasks@[final(task_manager).inner.current_task as int].trap_context.user_stack,
        r.entry_point == final(task_manager).inner.tasks@[final(task_manager).inner.current_task as int].trap_context.entry_point,
{
    let ghost pre = *old(task_manager);
    task_manager.stop_current();
    proof {
        assert(task_manager.inner.tasks@ =~= Seq::new(pre.inner.tasks@.len(), |i: int| if i == pre
            .inner.current_task as int {
            Task { task_status: TaskStatus::Stop, ..pre.inner.tasks@[i] }
        } else {
            pre.inner.tasks@[i]
        }));
    }
    task_manager.run_next()
}

} // verus!
