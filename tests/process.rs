use rustos::process::{
    exit, init, spawn_process, tick, Process, ProcessContext, ProcessManager, ProcessState, KERNEL_STACK_SIZE,
    USER_STACK_SIZE,
};

fn running_pid(m: &ProcessManager) -> Option<usize> {
    m.get_current_process().filter(|p| p.state == ProcessState::Running).map(|p| p.pid)
}

#[test]
fn default_context_enables_interrupts() {
    let c = ProcessContext::default();
    assert_eq!(c.rflags, 0x202);
    assert_eq!(c.rip, 0);
    assert_eq!(c.rsp, 0);
}

#[test]
fn new_process_starts_on_top_of_its_kernel_stack() {
    let p = Process::new(7, 0x1000, 0x20_0000);
    assert_eq!(p.pid, 7);
    assert_eq!(p.state, ProcessState::Ready);
    assert_eq!(p.context.rip, 0x1000);
    assert_eq!(p.context.rsp, 0x20_0000 + KERNEL_STACK_SIZE);
    assert_eq!(p.context.rbp, p.context.rsp);
    assert_eq!(p.priority, 10);
    assert_eq!(p.time_slice, 10);
    let p = p.with_user_stack(0x5000);
    assert_eq!(p.user_stack, Some(0x5000));
    assert_eq!(p.context.rsp, 0x5000);
}

#[test]
fn pids_start_at_one_and_are_never_reused() {
    let mut slot = Some(init());
    let a = spawn_process(&mut slot, 0x1000, 0x10000, 0x40000).unwrap();
    let b = spawn_process(&mut slot, 0x2000, 0x20000, 0x50000).unwrap();
    assert_eq!((a, b), (1, 2));
    assert_eq!(tick(&mut slot), Some(1));
    exit(&mut slot, 0);
    let c = spawn_process(&mut slot, 0x3000, 0x30000, 0x60000).unwrap();
    assert_eq!(c, 3);
    assert_eq!(spawn_process(&mut None, 0, 0, 0), None);
}

#[test]
fn spawned_process_runs_on_its_user_stack() {
    let mut slot = Some(init());
    spawn_process(&mut slot, 0xabc, 0x10000, 0x40000).unwrap();
    assert_eq!(tick(&mut slot), Some(1));
    let p = slot.as_ref().unwrap().get_current_process().unwrap();
    assert_eq!(p.context.rip, 0xabc);
    assert_eq!(p.context.rsp, 0x40000 + USER_STACK_SIZE);
    assert_eq!(p.state, ProcessState::Running);
}

#[test]
fn single_process_is_selected_on_every_tick() {
    let mut m = ProcessManager::new();
    let pid = m.new_pid().unwrap();
    m.add_process(Process::new(pid, 0x1000, 0x10000));
    for _ in 0..20 {
        assert_eq!(m.schedule(), Some(pid));
        assert_eq!(running_pid(&m), Some(pid));
    }
}

#[test]
fn round_robin_interleaves_until_both_terminate() {
    let mut slot = Some(init());
    let a = spawn_process(&mut slot, 0x1000, 0x10000, 0x40000).unwrap();
    let b = spawn_process(&mut slot, 0x2000, 0x20000, 0x50000).unwrap();
    let mut remaining = [5usize, 5usize];
    let mut order = Vec::new();
    let mut ticks = 0;
    while remaining != [0, 0] {
        ticks += 1;
        assert!(ticks <= 20);
        let pid = tick(&mut slot).unwrap();
        order.push(pid);
        let i = if pid == a { 0 } else { 1 };
        remaining[i] -= 1;
        if remaining[i] == 0 {
            exit(&mut slot, 0);
        }
    }
    assert_eq!(order, vec![a, b, a, b, a, b, a, b, a, b]);
    assert_eq!(tick(&mut slot), None);
    let m = slot.as_ref().unwrap();
    assert!(m.get_current_process().is_none());
    assert_eq!(m.get_process(a).unwrap().state, ProcessState::Terminated);
    assert_eq!(m.get_process(b).unwrap().state, ProcessState::Terminated);
    assert!(m.get_process(3).is_none());
}

#[test]
fn at_most_one_process_runs() {
    let mut m = ProcessManager::new();
    for k in 0..3u64 {
        let pid = m.new_pid().unwrap();
        m.add_process(Process::new(pid, k, 0x10000 * (k + 1)));
    }
    let first = m.schedule().unwrap();
    let second = m.schedule().unwrap();
    assert_ne!(first, second);
    assert_eq!(m.get_current_process().unwrap().pid, second);
    assert_eq!(m.get_current_process().unwrap().state, ProcessState::Running);
}

#[test]
fn blocked_process_is_skipped_until_unblocked() {
    let mut m = ProcessManager::new();
    let a = m.new_pid().unwrap();
    m.add_process(Process::new(a, 0, 0x10000));
    let b = m.new_pid().unwrap();
    m.add_process(Process::new(b, 0, 0x20000));
    assert_eq!(m.schedule(), Some(a));
    m.block_current();
    assert!(m.get_current_process().is_none());
    assert_eq!(m.schedule(), Some(b));
    assert_eq!(m.schedule(), Some(b));
    m.unblock_process(a);
    assert_eq!(m.schedule(), Some(a));
    m.unblock_process(a);
    m.unblock_process(99);
    assert_eq!(m.schedule(), Some(b));
}

#[test]
fn terminated_process_never_runs_again() {
    let mut m = ProcessManager::new();
    let a = m.new_pid().unwrap();
    m.add_process(Process::new(a, 0, 0x10000));
    assert_eq!(m.schedule(), Some(a));
    m.terminate_current();
    assert_eq!(m.schedule(), None);
    m.unblock_process(a);
    assert_eq!(m.schedule(), None);
}
