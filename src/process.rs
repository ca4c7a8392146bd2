use vstd::prelude::*;

use std::collections::VecDeque;

verus! {

/// Size of a process's kernel stack, in bytes.
pub const KERNEL_STACK_SIZE: u64 = 8192;

/// Priority a new process gets; the scheduler does not use it.
pub const DEFAULT_PRIORITY: u8 = 10;

/// Time slice, in ticks, a new process gets; the scheduler does not use it.
pub const DEFAULT_TIME_SLICE: usize = 10;

/// `rflags` of a new context: only IF, interrupts enabled.
pub const INITIAL_RFLAGS: u64 = 0x202;

#[derive(Debug, Clone, Copy, PartialEq, Eq, Structural)]
pub enum ProcessState {
    Ready,
    Running,
    Blocked,
    Terminated,
}

/// Saved registers, in the order of the context block: 8-byte slots at
/// offsets 0x00 (`rsp`) to 0x88 (`rflags`).
#[derive(Debug, Clone, Copy, PartialEq, Eq, Structural)]
pub struct ProcessContext {
    pub rsp: u64,
    pub rbp: u64,
    pub rax: u64,
    pub rbx: u64,
    pub rcx: u64,
    pub rdx: u64,
    pub rsi: u64,
    pub rdi: u64,
    pub r8: u64,
    pub r9: u64,
    pub r10: u64,
    pub r11: u64,
    pub r12: u64,
    pub r13: u64,
    pub r14: u64,
    pub r15: u64,
    pub rip: u64,
    pub rflags: u64,
}

/// A context with every register zero but `rflags`, which enables interrupts.
pub open spec fn blank_context() -> ProcessContext {
    ProcessContext {
        rsp: 0,
        rbp: 0,
        rax: 0,
        rbx: 0,
        rcx: 0,
        rdx: 0,
        rsi: 0,
        rdi: 0,
        r8: 0,
        r9: 0,
        r10: 0,
        r11: 0,
        r12: 0,
        r13: 0,
        r14: 0,
        r15: 0,
        rip: 0,
        rflags: INITIAL_RFLAGS,
    }
}

impl Default for ProcessContext {
    fn default() -> (r: Self)
        ensures
            r == blank_context(),
    {
        Self {
            rsp: 0,
            rbp: 0,
            rax: 0,
            rbx: 0,
            rcx: 0,
            rdx: 0,
            rsi: 0,
            rdi: 0,
            r8: 0,
            r9: 0,
            r10: 0,
            r11: 0,
            r12: 0,
            r13: 0,
            r14: 0,
            r15: 0,
            rip: 0,
            rflags: INITIAL_RFLAGS,
        }
    }
}

/// A kernel-mode task. Its kernel stack is the `KERNEL_STACK_SIZE` bytes at
/// `kernel_stack_base`; addresses are plain numbers.
#[derive(Debug, Clone, Copy, PartialEq, Eq, Structural)]
pub struct Process {
    pub pid: usize,
    pub state: ProcessState,
    pub context: ProcessContext,
    pub kernel_stack_base: u64,
    pub user_stack: Option<u64>,
    pub page_table: Option<u64>,
    pub priority: u8,
    pub time_slice: usize,
}

impl Process {
    /// A ready process that starts at `entry_point` on the top of its kernel
    /// stack.
    pub fn new(pid: usize, entry_point: u64, kernel_stack_base: u64) -> (r: Self)
        requires
            kernel_stack_base + KERNEL_STACK_SIZE <= u64::MAX,
        ensures
            r.pid == pid,
            r.state == ProcessState::Ready,
            r.context == (ProcessContext {
                rip: entry_point,
                rsp: (kernel_stack_base + KERNEL_STACK_SIZE) as u64,
                rbp: (kernel_stack_base + KERNEL_STACK_SIZE) as u64,
                ..blank_context()
            }),
            r.kernel_stack_base == kernel_stack_base,
            r.user_stack is None,
            r.page_table is None,
            r.priority == DEFAULT_PRIORITY,
            r.time_slice == DEFAULT_TIME_SLICE,
    {
        let mut context = ProcessContext::default();
        context.rip = entry_point;
        context.rsp = kernel_stack_base + KERNEL_STACK_SIZE;
        context.rbp = context.rsp;
        Self {
            pid,
            state: ProcessState::Ready,
            context,
            kernel_stack_base,
            user_stack: None,
            page_table: None,
            priority: DEFAULT_PRIORITY,
            time_slice: DEFAULT_TIME_SLICE,
        }
    }

    /// The process with a user stack whose top is `stack_top`, where it now
    /// starts.
    pub fn with_user_stack(self, stack_top: u64) -> (r: Self)
        ensures
            r == (Process {
                user_stack: Some(stack_top),
                context: ProcessContext { rsp: stack_top, ..self.context },
                ..self
            }),
    {
        let mut p = self;
        p.user_stack = Some(stack_top);
        p.context.rsp = stack_top;
        p
    }
}

/// The first position at or after `i` of a process with the given pid.
pub open spec fn index_from(procs: Seq<Process>, pid: usize, i: int) -> Option<int>
    decreases procs.len() - i,
{
    if i < 0 || i >= procs.len() {
        None
    } else if procs[i].pid == pid {
        Some(i)
    } else {
        index_from(procs, pid, i + 1)
    }
}

/// The position of the process with the given pid.
pub open spec fn index_of(procs: Seq<Process>, pid: usize) -> Option<int> {
    index_from(procs, pid, 0)
}

/// Whether the process with the given pid exists and is ready.
pub open spec fn is_ready(procs: Seq<Process>, pid: usize) -> bool {
    match index_of(procs, pid) {
        Some(i) => procs[i].state == ProcessState::Ready,
        None => false,
    }
}

/// The first position at or after `k` in the queue whose process is ready.
pub open spec fn first_ready(procs: Seq<Process>, q: Seq<usize>, k: int) -> Option<int>
    decreases q.len() - k,
{
    if k < 0 || k >= q.len() {
        None
    } else if is_ready(procs, q[k]) {
        Some(k)
    } else {
        first_ready(procs, q, k + 1)
    }
}

/// What the scheduler holds: the process table, the ready queue of pids,
/// the running pid, the tick count and the next pid to hand out.
pub struct SchedView {
    pub processes: Seq<Process>,
    pub ready: Seq<usize>,
    pub current: Option<usize>,
    pub ticks: nat,
    pub next_pid: nat,
}

impl SchedView {
    pub open spec fn wf(&self) -> bool {
        &&& self.next_pid >= 1
        &&& forall|i: int| 0 <= i < self.processes.len() ==> 1 <= #[trigger] self.processes[i].pid < self.next_pid
        &&& forall|i: int, j: int|
            0 <= i < self.processes.len() && 0 <= j < self.processes.len() && i != j
                ==> #[trigger] self.processes[i].pid != #[trigger] self.processes[j].pid
        &&& forall|i: int| 0 <= i < self.processes.len() && #[trigger] self.processes[i].state == ProcessState::Running
            ==> self.current == Some(self.processes[i].pid)
        &&& forall|i: int| 0 <= i < self.processes.len() && #[trigger] self.processes[i].state == ProcessState::Ready
            ==> self.ready.contains(self.processes[i].pid)
    }

    /// The table and queue once a running current process is put back at
    /// the tail of the queue as ready.
    pub open spec fn demoted(&self) -> (Seq<Process>, Seq<usize>) {
        match self.current {
            Some(pid) => match index_of(self.processes, pid) {
                Some(i) => if self.processes[i].state == ProcessState::Running {
                    (
                        self.processes.update(i, Process { state: ProcessState::Ready, ..self.processes[i] }),
                        self.ready.push(pid),
                    )
                } else {
                    (self.processes, self.ready)
                },
                None => (self.processes, self.ready),
            },
            None => (self.processes, self.ready),
        }
    }

    /// The current process, if any, terminated, and no process current.
    pub open spec fn terminated(&self) -> SchedView {
        match self.current {
            Some(pid) => SchedView {
                processes: match index_of(self.processes, pid) {
                    Some(i) => self.processes.update(i, Process { state: ProcessState::Terminated, ..self.processes[i] }),
                    None => self.processes,
                },
                current: None,
                ..*self
            },
            None => *self,
        }
    }

    /// One scheduling step: the running process goes back to the queue, and
    /// the first queued pid whose process is still ready runs next; stale
    /// pids before it leave the queue.
    pub open spec fn schedule_spec(&self, post: SchedView, r: Option<usize>) -> bool {
        let (procs, q) = self.demoted();
        &&& post.ticks == self.ticks + 1 || (post.ticks == self.ticks && self.ticks == usize::MAX)
        &&& post.next_pid == self.next_pid
        &&& match first_ready(procs, q, 0) {
            None => {
                &&& r is None
                &&& post.processes == procs
                &&& post.ready.len() == 0
                &&& post.current == self.current
            },
            Some(k) => {
                let pid = q[k];
                let i = index_of(procs, pid)->Some_0;
                &&& r == Some(pid)
                &&& post.processes == procs.update(i, Process { state: ProcessState::Running, ..procs[i] })
                &&& post.ready == q.subrange(k + 1, q.len() as int)
                &&& post.current == Some(pid)
            },
        }
    }
}

proof fn lemma_index_from(procs: Seq<Process>, pid: usize, i: int)
    requires
        0 <= i,
    ensures
        index_from(procs, pid, i) matches Some(k) ==> i <= k < procs.len() && procs[k].pid == pid,
        index_from(procs, pid, i) is None ==> forall|k: int| i <= k < procs.len() ==> procs[k].pid != pid,
    decreases procs.len() - i,
{
    if i < procs.len() && procs[i].pid != pid {
        lemma_index_from(procs, pid, i + 1);
    }
}

/// With unique pids, the position of a pid is the one process holding it.
proof fn lemma_index_unique(procs: Seq<Process>, k: int, i: int)
    requires
        0 <= i <= k < procs.len(),
        forall|a: int, b: int|
            0 <= a < procs.len() && 0 <= b < procs.len() && a != b ==> #[trigger] procs[a].pid != #[trigger] procs[b].pid,
    ensures
        index_from(procs, procs[k].pid, i) == Some(k),
    decreases k - i,
{
    if i < k {
        assert(procs[i].pid != procs[k].pid);
        lemma_index_unique(procs, k, i + 1);
    }
}

proof fn lemma_first_ready(procs: Seq<Process>, q: Seq<usize>, k: int)
    requires
        0 <= k,
    ensures
        first_ready(procs, q, k) matches Some(j) ==> k <= j < q.len() && is_ready(procs, q[j]),
        first_ready(procs, q, k) matches Some(j) ==> forall|m: int| k <= m < j ==> !is_ready(procs, #[trigger] q[m]),
        first_ready(procs, q, k) is None ==> forall|j: int| k <= j < q.len() ==> !is_ready(procs, #[trigger] q[j]),
    decreases q.len() - k,
{
    if k < q.len() && !is_ready(procs, q[k]) {
        lemma_first_ready(procs, q, k + 1);
    }
}

} // verus!

verus! {

/// The process table, the FIFO ready queue of pids and the running pid.
pub struct ProcessManager {
    processes: Vec<Process>,
    ready_queue: VecDeque<usize>,
    current_pid: Option<usize>,
    scheduler_ticks: usize,
    next_pid: usize,
}

impl View for ProcessManager {
    type V = SchedView;

    closed spec fn view(&self) -> SchedView {
        SchedView {
            processes: self.processes@,
            ready: self.ready_queue@,
            current: self.current_pid,
            ticks: self.scheduler_ticks as nat,
            next_pid: self.next_pid as nat,
        }
    }
}

impl ProcessManager {
    pub open spec fn wf(&self) -> bool {
        self@.wf()
    }

    /// An empty table; pids start at 1.
    pub fn new() -> (r: Self)
        ensures
            r.wf(),
            r@.processes.len() == 0,
            r@.ready.len() == 0,
            r@.current is None,
            r@.ticks == 0,
            r@.next_pid == 1,
    {
        Self {
            processes: Vec::new(),
            ready_queue: VecDeque::new(),
            current_pid: None,
            scheduler_ticks: 0,
            next_pid: 1,
        }
    }

    /// Hands out the next pid; pids only grow, so none is handed out twice.
    pub fn new_pid(&mut self) -> (r: Option<usize>)
        requires
            old(self).wf(),
        ensures
            final(self).wf(),
            r == if old(self)@.next_pid < usize::MAX { Some(old(self)@.next_pid as usize) } else { None::<usize> },
            final(self)@ == (SchedView { next_pid: if r is Some { old(self)@.next_pid + 1 } else { old(self)@.next_pid }, ..old(self)@ }),
    {
        if self.next_pid == usize::MAX {
            return None;
        }
        let pid = self.next_pid;
        self.next_pid = self.next_pid + 1;
        Some(pid)
    }

    /// Adds a ready process, with a pid handed out by `new_pid` and not in
    /// the table, at the tail of the ready queue.
    pub fn add_process(&mut self, process: Process) -> (r: usize)
        requires
            old(self).wf(),
            process.state == ProcessState::Ready,
            1 <= process.pid < old(self)@.next_pid,
            forall|i: int| 0 <= i < old(self)@.processes.len() ==> (#[trigger] old(self)@.processes[i]).pid != process.pid,
        ensures
            final(self).wf(),
            r == process.pid,
            final(self)@ == (SchedView {
                processes: old(self)@.processes.push(process),
                ready: old(self)@.ready.push(process.pid),
                ..old(self)@
            }),
    {
        let pid = process.pid;
        let ghost pre = self@;
        self.processes.push(process);
        self.ready_queue.push_back(pid);
        proof {
            let post = self@;
            assert(post.ready[pre.ready.len() as int] == pid);
            assert forall|i: int| 0 <= i < post.processes.len() && #[trigger] post.processes[i].state == ProcessState::Ready
                implies post.ready.contains(post.processes[i].pid) by {
                if i < pre.processes.len() {
                    assert(pre.processes[i] == post.processes[i]);
                    let k = choose|k: int| 0 <= k < pre.ready.len() && pre.ready[k] == pre.processes[i].pid;
                    assert(post.ready[k] == pre.ready[k]);
                }
            }
        }
        pid
    }

    /// Position of the process with `pid`.
    fn find(&self, pid: usize) -> (r: Option<usize>)
        ensures
            r matches Some(i) ==> index_of(self@.processes, pid) == Some(i as int),
            r is None ==> index_of(self@.processes, pid) is None,
            r matches Some(i) ==> i < self@.processes.len() && self@.processes[i as int].pid == pid,
    {
        proof {
            lemma_index_from(self@.processes, pid, 0);
        }
        let mut i: usize = 0;
        while i < self.processes.len()
            invariant
                i <= self@.processes.len(),
                index_of(self@.processes, pid) == index_from(self@.processes, pid, i as int),
            decreases self.processes.len() - i,
        {
            if self.processes[i].pid == pid {
                return Some(i);
            }
            i = i + 1;
        }
        None
    }

    /// The process with `pid`, if any.
    pub fn get_process(&self, pid: usize) -> (r: Option<&Process>)
        ensures
            match index_of(self@.processes, pid) {
                Some(i) => r matches Some(p) && *p == self@.processes[i],
                None => r is None,
            },
    {
        match self.find(pid) {
            Some(i) => Some(&self.processes[i]),
            None => None,
        }
    }

    /// The pid of the running process, if any.
    pub fn current_pid(&self) -> (r: Option<usize>)
        ensures
            r == self@.current,
    {
        self.current_pid
    }

    /// The running process, if any.
    pub fn get_current_process(&self) -> (r: Option<&Process>)
        ensures
            match self@.current {
                Some(pid) => match index_of(self@.processes, pid) {
                    Some(i) => r matches Some(p) && *p == self@.processes[i],
                    None => r is None,
                },
                None => r is None,
            },
    {
        match self.current_pid {
            Some(pid) => match self.find(pid) {
                Some(i) => Some(&self.processes[i]),
                None => None,
            },
            None => None,
        }
    }
}

} // verus!

verus! {

proof fn lemma_demoted(pre: SchedView)
    requires
        pre.wf(),
    ensures
        pre.demoted().0.len() == pre.processes.len(),
        forall|i: int| 0 <= i < pre.processes.len() ==> (#[trigger] pre.demoted().0[i]).pid == pre.processes[i].pid,
        forall|i: int| 0 <= i < pre.processes.len() ==> (#[trigger] pre.demoted().0[i]).state != ProcessState::Running,
        forall|i: int| 0 <= i < pre.processes.len() && (#[trigger] pre.demoted().0[i]).state == ProcessState::Ready
            ==> pre.demoted().1.contains(pre.processes[i].pid),
        forall|j: int| 0 <= j < pre.ready.len() ==> pre.demoted().1[j] == #[trigger] pre.ready[j],
        pre.demoted().1.len() >= pre.ready.len(),
{
    let (procs, q) = pre.demoted();
    if let Some(pid) = pre.current {
        lemma_index_from(pre.processes, pid, 0);
    }
    assert forall|i: int| 0 <= i < pre.processes.len() && (#[trigger] procs[i]).state == ProcessState::Ready
        implies q.contains(pre.processes[i].pid) by {
        if pre.processes[i].state == ProcessState::Ready {
            let k = choose|k: int| 0 <= k < pre.ready.len() && pre.ready[k] == pre.processes[i].pid;
            assert(q[k] == pre.ready[k]);
        } else {
            assert(q[q.len() - 1] == pre.processes[i].pid);
        }
    }
    assert forall|i: int| 0 <= i < pre.processes.len() implies (#[trigger] procs[i]).state != ProcessState::Running by {
        if pre.processes[i].state == ProcessState::Running {
            let pid = pre.current->Some_0;
            let j = index_of(pre.processes, pid)->Some_0;
            if i != j {
                assert(pre.processes[i].pid != pre.processes[j].pid);
            }
        }
    }
}

/// A scheduling step keeps the scheduler's invariant.
pub proof fn lemma_schedule_wf(pre: SchedView, post: SchedView, r: Option<usize>)
    requires
        pre.wf(),
        pre.schedule_spec(post, r),
    ensures
        post.wf(),
{
    lemma_demoted(pre);
    let (procs, q) = pre.demoted();
    lemma_first_ready(procs, q, 0);
    if let Some(k) = first_ready(procs, q, 0) {
        lemma_index_from(procs, q[k], 0);
    }
    assert(post.processes.len() == procs.len());
    assert forall|i: int| 0 <= i < post.processes.len() implies #[trigger] post.processes[i].pid == procs[i].pid by {
        if let Some(k) = first_ready(procs, q, 0) {
            let sel = index_of(procs, q[k])->Some_0;
            if i == sel {
                assert(post.processes[i].pid == procs[sel].pid);
            }
        }
    }
    assert forall|i: int, j: int|
        0 <= i < post.processes.len() && 0 <= j < post.processes.len() && i != j
            implies #[trigger] post.processes[i].pid != #[trigger] post.processes[j].pid by {
        assert(pre.processes[i].pid != pre.processes[j].pid);
        assert(procs[i].pid == pre.processes[i].pid);
        assert(procs[j].pid == pre.processes[j].pid);
    }
    assert forall|i: int| 0 <= i < post.processes.len() implies 1 <= #[trigger] post.processes[i].pid < post.next_pid by {
        assert(procs[i].pid == pre.processes[i].pid);
    }
    match first_ready(procs, q, 0) {
        None => {
            assert forall|i: int| 0 <= i < post.processes.len() implies #[trigger] post.processes[i].state != ProcessState::Ready by {
                if procs[i].state == ProcessState::Ready {
                    let k = choose|k: int| 0 <= k < q.len() && q[k] == pre.processes[i].pid;
                    lemma_index_unique(procs, i, 0);
                    assert(is_ready(procs, q[k]));
                }
            }
        },
        Some(k) => {
            let pid = q[k];
            lemma_index_from(procs, pid, 0);
            let sel = index_of(procs, pid)->Some_0;
            assert forall|i: int| 0 <= i < post.processes.len() && #[trigger] post.processes[i].state == ProcessState::Running
                implies post.current == Some(post.processes[i].pid) by {
                if i != sel {
                    assert(procs[i].state != ProcessState::Running);
                }
            }
            assert forall|i: int| 0 <= i < post.processes.len() && #[trigger] post.processes[i].state == ProcessState::Ready
                implies post.ready.contains(post.processes[i].pid) by {
                assert(i != sel);
                let j = choose|j: int| 0 <= j < q.len() && q[j] == pre.processes[i].pid;
                lemma_index_unique(procs, i, 0);
                assert(is_ready(procs, q[j]));
                if j == k {
                    assert(procs[sel].pid == procs[i].pid);
                    assert(pre.processes[sel].pid == pre.processes[i].pid);
                }
                assert(j > k);
                assert(post.ready[j - k - 1] == q[j]);
            }
        },
    }
}

} // verus!

verus! {

impl ProcessManager {
    /// One scheduling step (see `SchedView::schedule_spec`): the pid of the
    /// process that runs next, if any.
    pub fn schedule(&mut self) -> (r: Option<usize>)
        requires
            old(self).wf(),
        ensures
            final(self).wf(),
            old(self)@.schedule_spec(final(self)@, r),
    {
        let ghost pre = self@;
        self.scheduler_ticks = self.scheduler_ticks.saturating_add(1);
        if let Some(pid) = self.current_pid {
            if let Some(i) = self.find(pid) {
                if self.processes[i].state == ProcessState::Running {
                    let mut p = self.processes[i];
                    p.state = ProcessState::Ready;
                    self.processes.set(i, p);
                    self.ready_queue.push_back(pid);
                }
            }
        }
        let ghost procs = self.processes@;
        let ghost q = self.ready_queue@;
        assert((procs, q) == pre.demoted());
        let ghost mut k: int = 0;
        assert(q.subrange(0, q.len() as int) == q);
        let mut chosen: Option<usize> = None;
        let mut searching = true;
        while searching
            invariant
                pre.wf(),
                (procs, q) == pre.demoted(),
                0 <= k <= q.len(),
                self.current_pid == if chosen is Some { chosen } else { pre.current },
                self.next_pid == pre.next_pid,
                self.scheduler_ticks == pre.ticks + 1 || (self.scheduler_ticks == pre.ticks && pre.ticks == usize::MAX),
                searching ==> self.processes@ == procs,
                searching ==> self.ready_queue@ == q.subrange(k, q.len() as int),
                searching ==> first_ready(procs, q, 0) == first_ready(procs, q, k),
                searching ==> chosen is None,
                !searching ==> pre.schedule_spec(self@, chosen),
            decreases q.len() - k, if searching { 1int } else { 0int },
        {
            match self.ready_queue.pop_front() {
                None => {
                    proof {
                        assert(k == q.len());
                        assert(first_ready(procs, q, k) is None);
                    }
                    searching = false;
                },
                Some(pid) => {
                    assert(pid == q[k]);
                    let mut selected = false;
                    if let Some(i) = self.find(pid) {
                        if self.processes[i].state == ProcessState::Ready {
                            let mut p = self.processes[i];
                            p.state = ProcessState::Running;
                            self.processes.set(i, p);
                            self.current_pid = Some(pid);
                            chosen = Some(pid);
                            selected = true;
                            proof {
                                assert(is_ready(procs, q[k]));
                                assert(first_ready(procs, q, k) == Some(k));
                                assert(self.ready_queue@ == q.subrange(k + 1, q.len() as int));
                            }
                            searching = false;
                        }
                    }
                    if !selected {
                        proof {
                            assert(!is_ready(procs, q[k]));
                            assert(first_ready(procs, q, k) == first_ready(procs, q, k + 1));
                            k = k + 1;
                        }
                        assert(self.ready_queue@ == q.subrange(k, q.len() as int));
                    }
                },
            }
        }
        proof {
            lemma_schedule_wf(pre, self@, chosen);
        }
        chosen
    }

    /// Ends the current process, if any: it is terminated for good.
    pub fn terminate_current(&mut self)
        requires
            old(self).wf(),
        ensures
            final(self).wf(),
            final(self)@ == old(self)@.terminated(),
    {
        if let Some(pid) = self.current_pid {
            self.set_current_state(pid, ProcessState::Terminated);
            self.current_pid = None;
        }
    }

    /// Blocks the current process, if any; no process is current afterwards.
    pub fn block_current(&mut self)
        requires
            old(self).wf(),
        ensures
            final(self).wf(),
            final(self)@ == (SchedView {
                processes: match old(self)@.current {
                    Some(pid) => match index_of(old(self)@.processes, pid) {
                        Some(i) => old(self)@.processes.update(
                            i,
                            Process { state: ProcessState::Blocked, ..old(self)@.processes[i] },
                        ),
                        None => old(self)@.processes,
                    },
                    None => old(self)@.processes,
                },
                current: None,
                ..old(self)@
            }),
    {
        if let Some(pid) = self.current_pid {
            self.set_current_state(pid, ProcessState::Blocked);
        }
        self.current_pid = None;
    }

    /// Sets the state of the current process (`pid`) to one that is neither
    /// ready nor running; the caller then clears `current`.
    fn set_current_state(&mut self, pid: usize, state: ProcessState)
        requires
            old(self).wf(),
            old(self)@.current == Some(pid),
            state == ProcessState::Terminated || state == ProcessState::Blocked,
        ensures
            (SchedView { current: None, ..final(self)@ }).wf(),
            final(self)@ == (SchedView {
                processes: match index_of(old(self)@.processes, pid) {
                    Some(i) => old(self)@.processes.update(i, Process { state, ..old(self)@.processes[i] }),
                    None => old(self)@.processes,
                },
                ..old(self)@
            }),
    {
        let ghost pre = self@;
        if let Some(i) = self.find(pid) {
            let mut p = self.processes[i];
            p.state = state;
            self.processes.set(i, p);
            proof {
                let post = SchedView { current: None, ..self@ };
                assert forall|j: int| 0 <= j < post.processes.len() && #[trigger] post.processes[j].state == ProcessState::Running
                    implies post.current == Some(post.processes[j].pid) by {
                    if j != i {
                        assert(pre.processes[j].state == ProcessState::Running);
                        assert(pre.processes[j].pid != pre.processes[i as int].pid);
                    }
                }
                assert forall|a: int, b: int|
                    0 <= a < post.processes.len() && 0 <= b < post.processes.len() && a != b
                        implies #[trigger] post.processes[a].pid != #[trigger] post.processes[b].pid by {
                    assert(pre.processes[a].pid != pre.processes[b].pid);
                }
                assert forall|j: int| 0 <= j < post.processes.len() implies 1 <= #[trigger] post.processes[j].pid < post.next_pid by {
                    assert(1 <= pre.processes[j].pid < pre.next_pid);
                }
            }
        } else {
            proof {
                let post = SchedView { current: None, ..self@ };
                assert forall|j: int| 0 <= j < post.processes.len() implies #[trigger] post.processes[j].state != ProcessState::Running by {
                    lemma_index_from(pre.processes, pid, 0);
                    if pre.processes[j].state == ProcessState::Running {
                        assert(pre.processes[j].pid == pid);
                    }
                }
            }
        }
    }

    /// Makes a blocked process ready again, at the tail of the queue; any
    /// other pid is left alone.
    pub fn unblock_process(&mut self, pid: usize)
        requires
            old(self).wf(),
        ensures
            final(self).wf(),
            final(self)@ == match index_of(old(self)@.processes, pid) {
                Some(i) => if old(self)@.processes[i].state == ProcessState::Blocked {
                    SchedView {
                        processes: old(self)@.processes.update(
                            i,
                            Process { state: ProcessState::Ready, ..old(self)@.processes[i] },
                        ),
                        ready: old(self)@.ready.push(pid),
                        ..old(self)@
                    }
                } else {
                    old(self)@
                },
                None => old(self)@,
            },
    {
        let ghost pre = self@;
        if let Some(i) = self.find(pid) {
            if self.processes[i].state == ProcessState::Blocked {
                let mut p = self.processes[i];
                p.state = ProcessState::Ready;
                self.processes.set(i, p);
                self.ready_queue.push_back(pid);
                proof {
                    let post = self@;
                    assert(post.ready[pre.ready.len() as int] == pid);
                    assert forall|j: int| 0 <= j < post.processes.len() && #[trigger] post.processes[j].state == ProcessState::Ready
                        implies post.ready.contains(post.processes[j].pid) by {
                        if j != i {
                            assert(pre.processes[j].state == ProcessState::Ready);
                            let k = choose|k: int| 0 <= k < pre.ready.len() && pre.ready[k] == pre.processes[j].pid;
                            assert(post.ready[k] == pre.ready[k]);
                        }
                    }
                    assert forall|a: int, b: int|
                        0 <= a < post.processes.len() && 0 <= b < post.processes.len() && a != b
                            implies #[trigger] post.processes[a].pid != #[trigger] post.processes[b].pid by {
                        assert(pre.processes[a].pid != pre.processes[b].pid);
                    }
                    assert forall|j: int| 0 <= j < post.processes.len() implies 1 <= #[trigger] post.processes[j].pid < post.next_pid by {
                        assert(1 <= pre.processes[j].pid < pre.next_pid);
                    }
                    assert forall|j: int| 0 <= j < post.processes.len() && #[trigger] post.processes[j].state == ProcessState::Running
                        implies post.current == Some(post.processes[j].pid) by {
                        assert(pre.processes[j].state == ProcessState::Running);
                    }
                }
            }
        }
    }
}

} // verus!

verus! {

/// Size of the user stack a spawned process gets: four pages.
pub const USER_STACK_SIZE: u64 = 0x4000;

/// No two processes share a pid, and every pid is below the next one to be
/// handed out, so a pid handed out later is not in use: pids are never
/// reused.
pub proof fn lemma_pids_unique(s: SchedView)
    requires
        s.wf(),
    ensures
        forall|i: int, j: int|
            0 <= i < s.processes.len() && 0 <= j < s.processes.len() && i != j
                ==> s.processes[i].pid != s.processes[j].pid,
        forall|i: int| 0 <= i < s.processes.len() ==> #[trigger] s.processes[i].pid < s.next_pid,
{
}

/// At most one process is running.
pub proof fn lemma_at_most_one_running(s: SchedView)
    requires
        s.wf(),
    ensures
        forall|i: int, j: int|
            0 <= i < s.processes.len() && 0 <= j < s.processes.len()
                && #[trigger] s.processes[i].state == ProcessState::Running
                && #[trigger] s.processes[j].state == ProcessState::Running ==> i == j,
{
    assert forall|i: int, j: int|
        0 <= i < s.processes.len() && 0 <= j < s.processes.len()
            && #[trigger] s.processes[i].state == ProcessState::Running
            && #[trigger] s.processes[j].state == ProcessState::Running implies i == j by {
        if i != j {
            assert(s.processes[i].pid != s.processes[j].pid);
        }
    }
}

/// With a single process that is ready or running, a scheduling step runs
/// it, and leaves it the single running process, so the next step runs it
/// again: it is selected on every tick.
pub proof fn lemma_single_process_scheduled(pre: SchedView, post: SchedView, r: Option<usize>)
    requires
        pre.wf(),
        pre.processes.len() == 1,
        pre.processes[0].state == ProcessState::Ready || pre.processes[0].state == ProcessState::Running,
        pre.schedule_spec(post, r),
    ensures
        r == Some(pre.processes[0].pid),
        post.wf(),
        post.processes.len() == 1,
        post.processes[0].pid == pre.processes[0].pid,
        post.processes[0].state == ProcessState::Running,
{
    lemma_demoted(pre);
    lemma_schedule_wf(pre, post, r);
    let (procs, q) = pre.demoted();
    let pid = pre.processes[0].pid;
    if let Some(c) = pre.current {
        lemma_index_from(pre.processes, c, 0);
    }
    assert(procs[0].state == ProcessState::Ready);
    assert(index_of(procs, pid) == Some(0int));
    assert(is_ready(procs, pid));
    let j = choose|j: int| 0 <= j < q.len() && q[j] == pid;
    lemma_first_ready(procs, q, 0);
    assert(is_ready(procs, q[j]));
    let k = first_ready(procs, q, 0)->Some_0;
    lemma_index_from(procs, q[k], 0);
    assert(q[k] == pid);
}

/// An empty process manager.
pub fn init() -> (r: ProcessManager)
    ensures
        r.wf(),
        r@.processes.len() == 0,
        r@.next_pid == 1,
{
    ProcessManager::new()
}

/// Whether the process slot holds a well-formed manager, if any.
pub open spec fn slot_wf(m: Option<ProcessManager>) -> bool {
    m matches Some(v) ==> v.wf()
}

/// Spawns a ready process that starts at `entry_point` on the user stack
/// whose pages begin at `user_stack_base`; its kernel stack is at
/// `kernel_stack_base`. The new pid, or `None` without a manager or once
/// pids run out.
pub fn spawn_process(
    manager: &mut Option<ProcessManager>,
    entry_point: u64,
    kernel_stack_base: u64,
    user_stack_base: u64,
) -> (r: Option<usize>)
    requires
        slot_wf(*old(manager)),
        kernel_stack_base + KERNEL_STACK_SIZE <= u64::MAX,
        user_stack_base + USER_STACK_SIZE <= u64::MAX,
    ensures
        slot_wf(*final(manager)),
        match *old(manager) {
            None => r is None && *final(manager) is None,
            Some(m) => *final(manager) matches Some(n) && if m@.next_pid < usize::MAX {
                let p = (*final(manager))->Some_0@.processes.last();
                &&& r == Some(m@.next_pid as usize)
                &&& n@.next_pid == m@.next_pid + 1
                &&& n@.processes.len() == m@.processes.len() + 1
                &&& n@.processes.subrange(0, m@.processes.len() as int) == m@.processes
                &&& n@.ready == m@.ready.push(m@.next_pid as usize)
                &&& n@.current == m@.current
                &&& p.pid == m@.next_pid
                &&& p.state == ProcessState::Ready
                &&& p.context.rip == entry_point
                &&& p.context.rsp == user_stack_base + USER_STACK_SIZE
                &&& p.user_stack == Some((user_stack_base + USER_STACK_SIZE) as u64)
                &&& p.kernel_stack_base == kernel_stack_base
            } else {
                r is None && n@ == m@
            },
        },
{
    match manager {
        Some(m) => {
            let pid = match m.new_pid() {
                Some(pid) => pid,
                None => {
                    return None;
                },
            };
            let process = Process::new(pid, entry_point, kernel_stack_base).with_user_stack(
                user_stack_base + USER_STACK_SIZE,
            );
            proof {
                lemma_pids_unique(m@);
            }
            let r = m.add_process(process);
            assert(m@.processes.subrange(0, m@.processes.len() - 1) == old(manager)->Some_0@.processes);
            Some(r)
        },
        None => None,
    }
}

/// Terminates the current process; the exit code is not kept.
pub fn exit(manager: &mut Option<ProcessManager>, _code: i32)
    requires
        slot_wf(*old(manager)),
    ensures
        slot_wf(*final(manager)),
        match *old(manager) {
            None => *final(manager) is None,
            Some(m) => *final(manager) matches Some(n) && n@ == m@.terminated(),
        },
{
    if let Some(m) = manager {
        m.terminate_current();
    }
}

/// The scheduler's tick: one scheduling step; the pid to run, if any.
pub fn tick(manager: &mut Option<ProcessManager>) -> (r: Option<usize>)
    requires
        slot_wf(*old(manager)),
    ensures
        slot_wf(*final(manager)),
        match *old(manager) {
            None => r is None && *final(manager) is None,
            Some(m) => *final(manager) matches Some(n) && m@.schedule_spec(n@, r),
        },
{
    match manager {
        Some(m) => m.schedule(),
        None => None,
    }
}

} // verus!
