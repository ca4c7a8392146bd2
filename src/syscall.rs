use vstd::prelude::*;
use vstd::string::StringSliceAdditionalSpecFns;
use vstd::utf8::valid_utf8;

use crate::console::{decimal, decimal_bytes, digits, unsigned_decimal_bytes, Console, ScreenView};
use crate::filesystem::{slot_close, slot_open, slot_read, slot_write, VirtualFileSystem};
use crate::keyboard::{drained, KeyboardDriver};
use crate::memory::{unmapped, MemoryManager, MemoryRegion, PageAllocation};
use crate::process::ProcessManager;
use crate::timer::Timer;

verus! {

pub const SYS_READ: u64 = 0;

pub const SYS_WRITE: u64 = 1;

pub const SYS_OPEN: u64 = 2;

pub const SYS_CLOSE: u64 = 3;

pub const SYS_MMAP: u64 = 9;

pub const SYS_MUNMAP: u64 = 11;

pub const SYS_SLEEP: u64 = 35;

pub const SYS_GETPID: u64 = 39;

pub const SYS_FORK: u64 = 57;

pub const SYS_EXECVE: u64 = 59;

pub const SYS_EXIT: u64 = 60;

/// Longest path `open` reads, in bytes.
pub const MAX_PATH: usize = 4096;

/// Call numbers counted one by one; the rest count only in the total.
pub const STATS_SLOTS: usize = 256;

/// `n + 1`, held at the largest `u64`.
pub open spec fn bump(n: u64) -> u64 {
    if n < u64::MAX {
        (n + 1) as u64
    } else {
        n
    }
}

/// How often each system call was made, and in all.
pub struct SyscallStats {
    total_calls: u64,
    calls_by_type: Vec<u64>,
}

impl SyscallStats {
    pub closed spec fn total(&self) -> u64 {
        self.total_calls
    }

    pub closed spec fn by_type(&self) -> Seq<u64> {
        self.calls_by_type@
    }

    pub open spec fn wf(&self) -> bool {
        self.by_type().len() == STATS_SLOTS
    }

    /// All counts zero.
    pub fn new() -> (r: Self)
        ensures
            r.wf(),
            r.total() == 0,
            forall|i: int| 0 <= i < STATS_SLOTS ==> #[trigger] r.by_type()[i] == 0,
    {
        let mut calls_by_type: Vec<u64> = Vec::new();
        let mut i: usize = 0;
        while i < STATS_SLOTS
            invariant
                i <= STATS_SLOTS,
                calls_by_type@.len() == i,
                forall|k: int| 0 <= k < i ==> #[trigger] calls_by_type@[k] == 0,
            decreases STATS_SLOTS - i,
        {
            calls_by_type.push(0);
            i = i + 1;
        }
        SyscallStats { total_calls: 0, calls_by_type }
    }

    /// Counts a call of `number`. Counts never decrease; they stop at the
    /// largest `u64`.
    pub fn record(&mut self, number: u64)
        requires
            old(self).wf(),
        ensures
            final(self).wf(),
            final(self).total() == bump(old(self).total()),
            final(self).by_type() == if number < STATS_SLOTS {
                old(self).by_type().update(number as int, bump(old(self).by_type()[number as int]))
            } else {
                old(self).by_type()
            },
    {
        self.total_calls = self.total_calls.saturating_add(1);
        if number < STATS_SLOTS as u64 {
            let n = number as usize;
            let c = self.calls_by_type[n];
            self.calls_by_type.set(n, c.saturating_add(1));
        }
    }

    /// Calls made in all.
    pub fn total_calls(&self) -> (r: u64)
        ensures
            r == self.total(),
    {
        self.total_calls
    }

    /// Calls made of `number`; 0 for numbers not counted one by one.
    pub fn calls(&self, number: u64) -> (r: u64)
        requires
            self.wf(),
        ensures
            r == if number < STATS_SLOTS { self.by_type()[number as int] } else { 0 },
    {
        if number < STATS_SLOTS as u64 {
            self.calls_by_type[number as usize]
        } else {
            0
        }
    }
}

/// A system call with its arguments taken from the registers.
#[derive(Debug, Clone, Copy, PartialEq, Eq, Structural)]
pub enum Syscall {
    Read { fd: i32, buf: u64, count: usize },
    Write { fd: i32, buf: u64, count: usize },
    Open { path: u64, flags: i32, mode: u32 },
    Close { fd: i32 },
    Mmap { addr: u64, length: usize },
    Munmap { addr: u64, length: usize },
    Sleep { nanoseconds: u64 },
    GetPid,
    Fork,
    Execve { path: u64 },
    Exit { status: i32 },
    Unknown { number: u64 },
}

/// The call that a number and the argument registers `rdi, rsi, rdx`
/// (with `r10, r8, r9` unused by the calls served) name.
pub open spec fn decode_spec(number: u64, a1: u64, a2: u64, a3: u64) -> Syscall {
    if number == SYS_READ {
        Syscall::Read { fd: a1 as i32, buf: a2, count: a3 as usize }
    } else if number == SYS_WRITE {
        Syscall::Write { fd: a1 as i32, buf: a2, count: a3 as usize }
    } else if number == SYS_OPEN {
        Syscall::Open { path: a1, flags: a2 as i32, mode: a3 as u32 }
    } else if number == SYS_CLOSE {
        Syscall::Close { fd: a1 as i32 }
    } else if number == SYS_MMAP {
        Syscall::Mmap { addr: a1, length: a2 as usize }
    } else if number == SYS_MUNMAP {
        Syscall::Munmap { addr: a1, length: a2 as usize }
    } else if number == SYS_SLEEP {
        Syscall::Sleep { nanoseconds: a1 }
    } else if number == SYS_GETPID {
        Syscall::GetPid
    } else if number == SYS_FORK {
        Syscall::Fork
    } else if number == SYS_EXECVE {
        Syscall::Execve { path: a1 }
    } else if number == SYS_EXIT {
        Syscall::Exit { status: a1 as i32 }
    } else {
        Syscall::Unknown { number }
    }
}

/// Decodes a call from its number and argument registers.
pub fn decode(number: u64, a1: u64, a2: u64, a3: u64) -> (r: Syscall)
    ensures
        r == decode_spec(number, a1, a2, a3),
{
    let fd = #[verifier::truncate] (a1 as i32);
    let flags = #[verifier::truncate] (a2 as i32);
    let mode = #[verifier::truncate] (a3 as u32);
    if number == SYS_READ {
        Syscall::Read { fd, buf: a2, count: a3 as usize }
    } else if number == SYS_WRITE {
        Syscall::Write { fd, buf: a2, count: a3 as usize }
    } else if number == SYS_OPEN {
        Syscall::Open { path: a1, flags, mode }
    } else if number == SYS_CLOSE {
        Syscall::Close { fd }
    } else if number == SYS_MMAP {
        Syscall::Mmap { addr: a1, length: a2 as usize }
    } else if number == SYS_MUNMAP {
        Syscall::Munmap { addr: a1, length: a2 as usize }
    } else if number == SYS_SLEEP {
        Syscall::Sleep { nanoseconds: a1 }
    } else if number == SYS_GETPID {
        Syscall::GetPid
    } else if number == SYS_FORK {
        Syscall::Fork
    } else if number == SYS_EXECVE {
        Syscall::Execve { path: a1 }
    } else if number == SYS_EXIT {
        Syscall::Exit { status: fd }
    } else {
        Syscall::Unknown { number }
    }
}

/// The user memory a call reads or fills: its address and length. A path
/// is read up to `MAX_PATH` bytes, stopping after its terminating NUL.
pub fn user_buffer(call: Syscall) -> (r: Option<(u64, usize)>)
    ensures
        r == match call {
            Syscall::Read { buf, count, .. } => Some((buf, count)),
            Syscall::Write { buf, count, .. } => Some((buf, count)),
            Syscall::Open { path, .. } => Some((path, MAX_PATH)),
            _ => None::<(u64, usize)>,
        },
{
    match call {
        Syscall::Read { buf, count, .. } => Some((buf, count)),
        Syscall::Write { buf, count, .. } => Some((buf, count)),
        Syscall::Open { path, .. } => Some((path, MAX_PATH)),
        _ => None,
    }
}

/// Relies on `core::str::from_utf8`: the bytes as a string slice exactly
/// when they are valid UTF-8.
#[verifier::external_body]
fn utf8_str(b: &[u8]) -> (r: Option<&str>)
    ensures
        r is Some <==> valid_utf8(b@),
        r matches Some(s) ==> s.spec_bytes() == b@,
{
    core::str::from_utf8(b).ok()
}

/// Position of the first NUL at or after `i`, or the length.
pub open spec fn first_nul_from(b: Seq<u8>, i: int) -> int
    decreases b.len() - i,
{
    if i < 0 || i >= b.len() {
        b.len() as int
    } else if b[i] == 0 {
        i
    } else {
        first_nul_from(b, i + 1)
    }
}

/// The bytes of a path before its first NUL, or all of them.
pub open spec fn c_string(b: Seq<u8>) -> Seq<u8> {
    b.subrange(0, first_nul_from(b, 0))
}

/// Length of the path before its first NUL.
fn c_string_len(b: &[u8]) -> (r: usize)
    ensures
        r == first_nul_from(b@, 0),
        r <= b@.len(),
{
    let mut i: usize = 0;
    while i < b.len() && b[i] != 0
        invariant
            i <= b@.len(),
            first_nul_from(b@, 0) == first_nul_from(b@, i as int),
        decreases b.len() - i,
    {
        i = i + 1;
    }
    i
}

} // verus!

verus! {

/// What the caller must do to finish a call, beyond returning its value.
pub enum SyscallAction {
    /// Nothing.
    Resume,
    /// Spin this many times on the CPU's pause hint.
    Pause(u64),
    /// Map these user pages to these frames, present, writable and user
    /// accessible; on a mapping failure release them and return -1.
    MapPages(PageAllocation),
    /// Unmap these pages.
    UnmapPages(Vec<u64>),
}

/// The value a call returns in `rax`, and what is left to do.
pub struct SyscallOutcome {
    pub value: i64,
    pub action: SyscallAction,
}

/// The kernel's state: the console, the devices, the memory manager, the
/// scheduler, the filesystem and the call counts. A slot is `None` until its
/// part is brought up.
pub struct Kernel {
    pub console: Console,
    pub keyboard: Option<KeyboardDriver>,
    pub memory: Option<MemoryManager>,
    pub processes: Option<ProcessManager>,
    pub filesystem: Option<VirtualFileSystem>,
    pub timer: Timer,
    pub stats: SyscallStats,
}

/// Pages that `length` bytes span.
pub open spec fn pages_for(length: usize) -> int {
    (length + 4095) / 4096
}

/// The console after a log line: `text`, then a number in decimal, then
/// `tail`.
pub open spec fn logged(s: ScreenView, text: Seq<u8>, n: int, tail: Seq<u8>) -> ScreenView {
    s.written(text).written(decimal(n)).written(tail)
}

impl Kernel {
    pub open spec fn wf(&self) -> bool {
        &&& self.console.wf()
        &&& crate::keyboard::slot_wf(self.keyboard)
        &&& crate::memory::slot_wf(self.memory)
        &&& crate::process::slot_wf(self.processes)
        &&& crate::filesystem::slot_wf(self.filesystem)
        &&& self.stats.wf()
    }

    /// The parts of the kernel other than the ones listed are unchanged
    /// (the call counts are not compared).
    pub open spec fn keeps(&self, post: Kernel, console: bool, keyboard: bool, memory: bool, processes: bool, filesystem: bool) -> bool {
        &&& console ==> post.console == self.console
        &&& keyboard ==> post.keyboard == self.keyboard
        &&& memory ==> post.memory == self.memory
        &&& processes ==> post.processes == self.processes
        &&& filesystem ==> post.filesystem == self.filesystem
        &&& post.timer == self.timer
    }

    /// `read` into a buffer `buf` at `buf_addr`, `out` being the buffer
    /// afterwards.
    pub open spec fn read_effect(&self, fd: i32, buf_addr: u64, buf: Seq<u8>, post: Kernel, out: Seq<u8>, r: i64) -> bool {
        if fd < 0 || buf_addr == 0 {
            r == -1 && out == buf && self.keeps(post, true, true, true, true, true)
        } else if fd == 0 {
            drained(self.keyboard, buf, post.keyboard, out, r as int) && self.keeps(post, true, false, true, true, true)
        } else {
            slot_read(self.filesystem, fd, buf, post.filesystem, out, r) && self.keeps(post, true, true, true, true, false)
        }
    }

    /// `write` of the bytes `b` at `buf_addr`.
    pub open spec fn write_effect(&self, fd: i32, buf_addr: u64, b: Seq<u8>, post: Kernel, r: i64) -> bool {
        if fd < 0 || buf_addr == 0 {
            r == -1 && self.keeps(post, true, true, true, true, true)
        } else if fd == 1 || fd == 2 {
            self.keeps(post, false, true, true, true, true) && if valid_utf8(b) {
                r == b.len() as i64 && post.console@ == self.console@.written(b)
            } else {
                r == -1 && post.console == self.console
            }
        } else {
            slot_write(self.filesystem, fd, b, post.filesystem, r) && self.keeps(post, true, true, true, true, false)
        }
    }

    /// `open` of the path whose bytes start at `path_addr`; `path` holds up
    /// to `MAX_PATH` of them.
    pub open spec fn open_effect(&self, path_addr: u64, path: Seq<u8>, flags: i32, post: Kernel, r: i64) -> bool {
        &&& self.keeps(post, true, true, true, true, false)
        &&& if path_addr == 0 || !valid_utf8(c_string(path)) {
            r == -1 && post.filesystem == self.filesystem
        } else {
            exists|p: &str| p.spec_bytes() == c_string(path) && #[trigger] slot_open(self.filesystem, p@, flags, post.filesystem, r)
        }
    }

    /// `close`.
    pub open spec fn close_effect(&self, fd: i32, post: Kernel, r: i64) -> bool {
        slot_close(self.filesystem, fd, post.filesystem, r) && self.keeps(post, true, true, true, true, false)
    }

    /// What `getpid` returns: the running pid, or -1.
    pub open spec fn getpid_value(&self) -> i64 {
        match self.processes {
            Some(m) => match m@.current {
                Some(pid) => pid as i64,
                None => -1i64,
            },
            None => -1i64,
        }
    }

    /// Brings the kernel's parts up in order: console, memory manager,
    /// scheduler, filesystem, devices, call counts.
    pub fn boot(memory_map: Vec<MemoryRegion>) -> (r: Self)
        requires
            crate::memory::map_wf(memory_map@),
        ensures
            r.wf(),
            r.keyboard is Some,
            r.memory is Some,
            r.processes is Some,
            r.filesystem is Some,
            r.memory->Some_0.frames().regions() == memory_map@,
            r.memory->Some_0.frames().cursor() == 0,
            r.processes->Some_0@.processes.len() == 0,
            r.timer.ticks() == 0,
            r.stats.total() == 0,
    {
        let console = Console::init();
        let memory = crate::memory::init(memory_map);
        let processes = crate::process::init();
        let filesystem = crate::filesystem::init();
        let keyboard = crate::keyboard::init();
        Kernel {
            console,
            keyboard: Some(keyboard),
            memory: Some(memory),
            processes: Some(processes),
            filesystem: Some(filesystem),
            timer: Timer::new(),
            stats: SyscallStats::new(),
        }
    }

    /// Writes a log line: `text`, a number, then `tail`.
    fn log(&mut self, text: &str, n: i64, tail: &str)
        requires
            old(self).wf(),
        ensures
            final(self).wf(),
            final(self).console@ == logged(old(self).console@, text.spec_bytes(), n as int, tail.spec_bytes()),
            final(self).keyboard == old(self).keyboard,
            final(self).memory == old(self).memory,
            final(self).processes == old(self).processes,
            final(self).filesystem == old(self).filesystem,
            final(self).timer == old(self).timer,
            final(self).stats == old(self).stats,
    {
        self.console.write_str(text);
        let digits = decimal_bytes(n);
        self.console.write_bytes(digits.as_slice());
        self.console.write_str(tail);
    }

    /// `read`: descriptor 0 drains the keyboard FIFO; any other goes to the
    /// filesystem. -1 for a negative descriptor or a null buffer.
    pub fn sys_read(&mut self, fd: i32, buf_addr: u64, buf: &mut [u8]) -> (r: i64)
        requires
            old(self).wf(),
        ensures
            final(self).wf(),
            final(self).stats == old(self).stats,
            old(self).read_effect(fd, buf_addr, old(buf)@, *final(self), final(buf)@, r),
    {
        if fd < 0 || buf_addr == 0 {
            return -1;
        }
        if fd == 0 {
            crate::keyboard::read_bytes(&mut self.keyboard, buf) as i64
        } else {
            crate::filesystem::read(&mut self.filesystem, fd, buf)
        }
    }

    /// `write`: descriptors 1 and 2 write valid UTF-8 to the console; any
    /// other goes to the filesystem. -1 for a negative descriptor, a null
    /// buffer or text that is not UTF-8.
    pub fn sys_write(&mut self, fd: i32, buf_addr: u64, buf: &[u8]) -> (r: i64)
        requires
            old(self).wf(),
        ensures
            final(self).wf(),
            final(self).stats == old(self).stats,
            old(self).write_effect(fd, buf_addr, buf@, *final(self), r),
    {
        if fd < 0 || buf_addr == 0 {
            return -1;
        }
        if fd == 1 || fd == 2 {
            match utf8_str(buf) {
                Some(s) => {
                    self.console.write_str(s);
                    buf.len() as i64
                },
                None => -1,
            }
        } else {
            crate::filesystem::write(&mut self.filesystem, fd, buf)
        }
    }

    /// `open`: the path is the bytes before the first NUL of `path`, which
    /// must be UTF-8. -1 for a null path or one that is not UTF-8.
    pub fn sys_open(&mut self, path_addr: u64, path: &[u8], flags: i32, mode: u32) -> (r: i64)
        requires
            old(self).wf(),
        ensures
            final(self).wf(),
            final(self).stats == old(self).stats,
            old(self).open_effect(path_addr, path@, flags, *final(self), r),
    {
        if path_addr == 0 {
            return -1;
        }
        let len = c_string_len(path);
        let bytes = slice_prefix(path, len);
        match utf8_str(bytes) {
            Some(p) => crate::filesystem::open(&mut self.filesystem, p, flags, mode),
            None => -1,
        }
    }

    /// `close`.
    pub fn sys_close(&mut self, fd: i32) -> (r: i64)
        requires
            old(self).wf(),
        ensures
            final(self).wf(),
            final(self).stats == old(self).stats,
            old(self).close_effect(fd, *final(self), r),
    {
        crate::filesystem::close(&mut self.filesystem, fd)
    }

    /// `getpid`: the running process's pid, or -1 when none runs.
    pub fn sys_getpid(&self) -> (r: i64)
        ensures
            r == self.getpid_value(),
    {
        match &self.processes {
            Some(m) => match m.current_pid() {
                Some(pid) => pid as i64,
                None => -1,
            },
            None => -1,
        }
    }
}

/// The first `len` bytes of a slice.
fn slice_prefix(b: &[u8], len: usize) -> (r: &[u8])
    requires
        len <= b@.len(),
    ensures
        r@ == b@.subrange(0, len as int),
{
    &b[0..len]
}


/// Pages that `length` bytes span, rounded up.
fn page_count(length: usize) -> (r: usize)
    ensures
        r == pages_for(length),
{
    length / 4096 + if length % 4096 == 0 { 0 } else { 1 }
}

impl Kernel {
    /// Writes a line to the console.
    fn log_line(&mut self, text: &str)
        requires
            old(self).wf(),
        ensures
            final(self).wf(),
            final(self).console@ == old(self).console@.written(text.spec_bytes()),
            old(self).keeps(*final(self), false, true, true, true, true),
            final(self).stats == old(self).stats,
    {
        self.console.write_str(text);
    }

    /// `exit`: logs the status and terminates the running process. The
    /// value is never seen by the process.
    pub fn sys_exit(&mut self, status: i32) -> (r: i64)
        requires
            old(self).wf(),
        ensures
            final(self).wf(),
            final(self).stats == old(self).stats,
            old(self).exit_effect(status, *final(self), r),
    {
        self.log("Process exiting with status: ", status as i64, "\n");
        crate::process::exit(&mut self.processes, status);
        0
    }

    /// `fork`: not provided; logs and returns -1.
    pub fn sys_fork(&mut self) -> (r: i64)
        requires
            old(self).wf(),
        ensures
            final(self).wf(),
            final(self).stats == old(self).stats,
            old(self).keeps(*final(self), false, true, true, true, true),
            final(self).console@ == old(self).console@.written("fork() called - not fully implemented\n".spec_bytes()),
            r == -1,
    {
        self.log_line("fork() called - not fully implemented\n");
        -1
    }

    /// `execve`: not provided; -1, after a log line unless the path is null.
    pub fn sys_execve(&mut self, path_addr: u64) -> (r: i64)
        requires
            old(self).wf(),
        ensures
            final(self).wf(),
            final(self).stats == old(self).stats,
            old(self).keeps(*final(self), path_addr == 0, true, true, true, true),
            path_addr != 0 ==> final(self).console@ == old(self).console@.written(
                "execve() called - not fully implemented\n".spec_bytes(),
            ),
            r == -1,
    {
        if path_addr == 0 {
            return -1;
        }
        self.log_line("execve() called - not fully implemented\n");
        -1
    }

    /// `sleep`: logs, then spins once per microsecond asked for; 0.
    pub fn sys_sleep(&mut self, nanoseconds: u64) -> (r: SyscallOutcome)
        requires
            old(self).wf(),
        ensures
            final(self).wf(),
            final(self).stats == old(self).stats,
            old(self).keeps(*final(self), false, true, true, true, true),
            final(self).console@ == old(self).console@.written("sleep(".spec_bytes()).written(digits(nanoseconds as nat)).written(
                ") called\n".spec_bytes(),
            ),
            r.value == 0,
            r.action matches SyscallAction::Pause(n) && n == nanoseconds / 1000,
    {
        self.log_unsigned("sleep(", nanoseconds, ") called\n");
        SyscallOutcome { value: 0, action: SyscallAction::Pause(nanoseconds / 1000) }
    }

    /// Writes a log line with an unsigned number.
    fn log_unsigned(&mut self, text: &str, n: u64, tail: &str)
        requires
            old(self).wf(),
        ensures
            final(self).wf(),
            final(self).console@ == old(self).console@.written(text.spec_bytes()).written(digits(n as nat)).written(tail.spec_bytes()),
            old(self).keeps(*final(self), false, true, true, true, true),
            final(self).stats == old(self).stats,
    {
        self.console.write_str(text);
        let d = unsigned_decimal_bytes(n);
        self.console.write_bytes(d.as_slice());
        self.console.write_str(tail);
    }

    /// `mmap`: reserves the pages `length` spans, rounded up, and frames
    /// for them; the base address and the mapping to make, or -1. The hint
    /// address is not used.
    pub fn sys_mmap(&mut self, addr: u64, length: usize) -> (r: SyscallOutcome)
        requires
            old(self).wf(),
        ensures
            final(self).wf(),
            final(self).stats == old(self).stats,
            old(self).keeps(*final(self), true, true, false, true, true),
            old(self).memory is Some <==> final(self).memory is Some,
            r.value == -1 <==> !old(self).can_map(length),
            r.action matches SyscallAction::MapPages(a) ==> r.value == a.base as i64 && a.frames@.len() == pages_for(length),
            r.value != -1 ==> r.action is MapPages,
    {
        let pages = page_count(length);
        match crate::memory::allocate_pages(&mut self.memory, pages) {
            Some(a) => SyscallOutcome { value: a.base as i64, action: SyscallAction::MapPages(a) },
            None => SyscallOutcome { value: -1, action: SyscallAction::Resume },
        }
    }

    /// `munmap`: frees the pages `length` spans from the page holding
    /// `addr`; 0, and the pages to unmap.
    pub fn sys_munmap(&mut self, addr: u64, length: usize) -> (r: SyscallOutcome)
        requires
            old(self).wf(),
        ensures
            final(self).wf(),
            final(self).stats == old(self).stats,
            old(self).keeps(*final(self), true, true, false, true, true),
            r.value == 0,
            r.action matches SyscallAction::UnmapPages(pages) && (old(self).memory is Some ==> unmapped(addr, pages_for(length), pages@))
                && (old(self).memory is None ==> pages@.len() == 0),
            old(self).memory is Some <==> final(self).memory is Some,
    {
        let pages = page_count(length);
        let list = crate::memory::deallocate_pages(&mut self.memory, addr, pages);
        SyscallOutcome { value: 0, action: SyscallAction::UnmapPages(list) }
    }

    /// Whether `mmap` of `length` bytes succeeds.
    pub open spec fn can_map(&self, length: usize) -> bool {
        match self.memory {
            Some(m) => crate::memory::allocation_possible(m, pages_for(length)),
            None => false,
        }
    }

    /// `exit` of a process: the log line, then the running process ends.
    pub open spec fn exit_effect(&self, status: i32, post: Kernel, r: i64) -> bool {
        &&& r == 0
        &&& post.console@ == logged(self.console@, "Process exiting with status: ".spec_bytes(), status as int, "\n".spec_bytes())
        &&& self.keeps(post, false, true, true, false, true)
        &&& match self.processes {
            None => post.processes is None,
            Some(m) => post.processes matches Some(n) && n@ == m@.terminated(),
        }
    }
}


impl Kernel {
    /// Dispatches a system call: counts it, decodes it from its number and
    /// argument registers (`r10, r8, r9` are not used by the calls served)
    /// and runs it. `user` is the user memory that `user_buffer` names for
    /// the call; a `read` fills it.
    pub fn syscall_handler(
        &mut self,
        number: u64,
        arg1: u64,
        arg2: u64,
        arg3: u64,
        _arg4: u64,
        _arg5: u64,
        _arg6: u64,
        user: &mut [u8],
    ) -> (r: SyscallOutcome)
        requires
            old(self).wf(),
        ensures
            final(self).wf(),
            final(self).stats.total() == bump(old(self).stats.total()),
            final(self).stats.by_type() == if number < STATS_SLOTS {
                old(self).stats.by_type().update(number as int, bump(old(self).stats.by_type()[number as int]))
            } else {
                old(self).stats.by_type()
            },
            match decode_spec(number, arg1, arg2, arg3) {
                Syscall::Read { fd, buf, .. } => old(self).read_effect(fd, buf, old(user)@, *final(self), final(user)@, r.value),
                Syscall::Write { fd, buf, .. } => old(self).write_effect(fd, buf, old(user)@, *final(self), r.value),
                Syscall::Open { path, flags, .. } => old(self).open_effect(path, old(user)@, flags, *final(self), r.value),
                Syscall::Close { fd } => old(self).close_effect(fd, *final(self), r.value),
                Syscall::Exit { status } => old(self).exit_effect(status, *final(self), r.value),
                Syscall::GetPid => r.value == old(self).getpid_value() && old(self).keeps(*final(self), true, true, true, true, true),
                Syscall::Fork => r.value == -1 && old(self).keeps(*final(self), false, true, true, true, true),
                Syscall::Execve { path } => r.value == -1 && old(self).keeps(*final(self), path == 0, true, true, true, true),
                Syscall::Sleep { nanoseconds } => r.value == 0 && (r.action matches SyscallAction::Pause(n) && n == nanoseconds / 1000),
                Syscall::Mmap { length, .. } => (r.value == -1 <==> !old(self).can_map(length))
                    && (r.value != -1 ==> r.action is MapPages),
                Syscall::Munmap { addr, length } => r.value == 0 && (r.action matches SyscallAction::UnmapPages(pages)
                    && (old(self).memory is Some ==> unmapped(addr, pages_for(length), pages@))),
                Syscall::Unknown { number } => r.value == -1 && final(self).console@ == old(self).console@.written(
                    "Unknown syscall: ".spec_bytes(),
                ).written(digits(number as nat)).written("\n".spec_bytes()),
            },
            !(decode_spec(number, arg1, arg2, arg3) is Read) ==> final(user)@ == old(user)@,
    {
        self.stats.record(number);
        let call = decode(number, arg1, arg2, arg3);
        match call {
            Syscall::Read { fd, buf, .. } => SyscallOutcome { value: self.sys_read(fd, buf, user), action: SyscallAction::Resume },
            Syscall::Write { fd, buf, .. } => SyscallOutcome { value: self.sys_write(fd, buf, user), action: SyscallAction::Resume },
            Syscall::Open { path, flags, mode } => SyscallOutcome {
                value: self.sys_open(path, user, flags, mode),
                action: SyscallAction::Resume,
            },
            Syscall::Close { fd } => SyscallOutcome { value: self.sys_close(fd), action: SyscallAction::Resume },
            Syscall::Exit { status } => SyscallOutcome { value: self.sys_exit(status), action: SyscallAction::Resume },
            Syscall::GetPid => SyscallOutcome { value: self.sys_getpid(), action: SyscallAction::Resume },
            Syscall::Fork => SyscallOutcome { value: self.sys_fork(), action: SyscallAction::Resume },
            Syscall::Execve { path } => SyscallOutcome { value: self.sys_execve(path), action: SyscallAction::Resume },
            Syscall::Sleep { nanoseconds } => self.sys_sleep(nanoseconds),
            Syscall::Mmap { addr, length } => self.sys_mmap(addr, length),
            Syscall::Munmap { addr, length } => self.sys_munmap(addr, length),
            Syscall::Unknown { number } => {
                self.log_unsigned("Unknown syscall: ", number, "\n");
                SyscallOutcome { value: -1, action: SyscallAction::Resume }
            },
        }
    }

    /// Writes the call counts to the console: the total, then `read`,
    /// `write`, `open` and `close`.
    pub fn print_stats(&mut self)
        requires
            old(self).wf(),
        ensures
            final(self).wf(),
            old(self).keeps(*final(self), false, true, true, true, true),
            final(self).stats == old(self).stats,
            ({
                let t = old(self).stats.by_type();
                let nl = "\n".spec_bytes();
                final(self).console@ == old(self).console@.written("Syscall Statistics:\n".spec_bytes()).written(
                    "  Total calls: ".spec_bytes(),
                ).written(digits(old(self).stats.total() as nat)).written(nl).written("  read():  ".spec_bytes()).written(
                    digits(t[SYS_READ as int] as nat),
                ).written(nl).written("  write(): ".spec_bytes()).written(digits(t[SYS_WRITE as int] as nat)).written(nl).written(
                    "  open():  ".spec_bytes(),
                ).written(digits(t[SYS_OPEN as int] as nat)).written(nl).written("  close(): ".spec_bytes()).written(
                    digits(t[SYS_CLOSE as int] as nat),
                ).written(nl)
            }),
    {
        self.log_line("Syscall Statistics:\n");
        let total = self.stats.total_calls();
        self.log_unsigned("  Total calls: ", total, "\n");
        let reads = self.stats.calls(SYS_READ);
        self.log_unsigned("  read():  ", reads, "\n");
        let writes = self.stats.calls(SYS_WRITE);
        self.log_unsigned("  write(): ", writes, "\n");
        let opens = self.stats.calls(SYS_OPEN);
        self.log_unsigned("  open():  ", opens, "\n");
        let closes = self.stats.calls(SYS_CLOSE);
        self.log_unsigned("  close(): ", closes, "\n");
    }
}

} // verus!
