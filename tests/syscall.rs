use rustos::console::BUFFER_WIDTH;
use rustos::memory::{MemoryRegion, MemoryRegionType, USER_SPACE_START};
use rustos::syscall::{
    decode, user_buffer, Kernel, Syscall, SyscallAction, SyscallStats, SYS_CLOSE, SYS_EXECVE, SYS_FORK,
    SYS_GETPID, SYS_MMAP, SYS_MUNMAP, SYS_OPEN, SYS_READ, SYS_SLEEP, SYS_WRITE,
};

const BUF: u64 = 0x4000;

fn kernel() -> Kernel {
    Kernel::boot(vec![MemoryRegion { start: 0x100000, end: 0x800000, region_type: MemoryRegionType::Usable }])
}

fn row_text(k: &Kernel, row: usize) -> String {
    (0..BUFFER_WIDTH)
        .map(|col| k.console.get_char(row, col).ascii_character as char)
        .collect::<String>()
        .trim_end()
        .to_string()
}

fn call(k: &mut Kernel, number: u64, a1: u64, a2: u64, a3: u64, user: &mut [u8]) -> i64 {
    k.syscall_handler(number, a1, a2, a3, 0, 0, 0, user).value
}

#[test]
fn write_to_stdout_and_unknown_call() {
    let mut k = kernel();
    let mut out = b"ok\n".to_vec();
    assert_eq!(call(&mut k, SYS_WRITE, 1, BUF, 3, &mut out), 3);
    assert_eq!(row_text(&k, 0), "ok");
    assert_eq!(call(&mut k, 999, 0, 0, 0, &mut []), -1);
    assert_eq!(row_text(&k, 1), "Unknown syscall: 999");
    assert_eq!(k.stats.total_calls(), 2);
    assert_eq!(k.stats.calls(SYS_WRITE), 1);
    assert_eq!(k.stats.calls(999), 0);
}

#[test]
fn write_rejects_bad_arguments_and_invalid_utf8() {
    let mut k = kernel();
    assert_eq!(k.sys_write(2, BUF, &[0xff, 0xfe]), -1);
    assert_eq!(k.sys_write(1, 0, b"x"), -1);
    assert_eq!(k.sys_write(-1, BUF, b"x"), -1);
    assert_eq!(row_text(&k, 0), "");
    assert_eq!(k.sys_write(2, BUF, "é!".as_bytes()), 3);
    assert_eq!(k.console.get_char(0, 2).ascii_character, b'!');
}

#[test]
fn file_calls_go_to_the_filesystem() {
    let mut k = kernel();
    let mut path = b"/hello.txt\0garbage".to_vec();
    let fd = call(&mut k, SYS_OPEN, BUF, 0, 0, &mut path);
    assert_eq!(fd, 0);
    let fd = call(&mut k, SYS_OPEN, BUF, 0, 0, &mut path);
    assert_eq!(fd, 1);
    let fd = call(&mut k, SYS_OPEN, BUF, 0, 0, &mut path);
    assert_eq!(fd, 2);
    let fd = call(&mut k, SYS_OPEN, BUF, 0, 0, &mut path);
    assert_eq!(fd, 3);
    let mut data = b"abc".to_vec();
    assert_eq!(call(&mut k, SYS_WRITE, 3, BUF, 3, &mut data), 3);
    let fd4 = call(&mut k, SYS_OPEN, BUF, 0, 0, &mut path);
    let mut back = vec![0u8; 8];
    assert_eq!(call(&mut k, SYS_READ, fd4 as u64, BUF, 8, &mut back), 3);
    assert_eq!(&back[..3], b"abc");
    assert_eq!(call(&mut k, SYS_CLOSE, 3, 0, 0, &mut []), 0);
    assert_eq!(call(&mut k, SYS_CLOSE, 3, 0, 0, &mut []), -1);
    let mut missing = b"/nope\0".to_vec();
    assert_eq!(call(&mut k, SYS_OPEN, BUF, 0, 0, &mut missing), -1);
    assert_eq!(call(&mut k, SYS_OPEN, 0, 0, 0, &mut path), -1);
    let mut bad = vec![b'/', 0xff, 0];
    assert_eq!(call(&mut k, SYS_OPEN, BUF, 0, 0, &mut bad), -1);
    assert_eq!(k.stats.calls(SYS_OPEN), 8);
}

#[test]
fn stdin_reads_the_keyboard() {
    let mut k = kernel();
    k.keyboard.as_mut().unwrap().accept_key(Some('q'));
    let mut buf = vec![0u8; 4];
    assert_eq!(call(&mut k, SYS_READ, 0, BUF, 4, &mut buf), 1);
    assert_eq!(buf[0], b'q');
    assert_eq!(call(&mut k, SYS_READ, 0, 0, 4, &mut buf), -1);
}

#[test]
fn getpid_fork_execve() {
    let mut k = kernel();
    assert_eq!(call(&mut k, SYS_GETPID, 0, 0, 0, &mut []), -1);
    rustos::process::spawn_process(&mut k.processes, 0x1000, 0x10000, 0x40000).unwrap();
    rustos::process::tick(&mut k.processes);
    assert_eq!(call(&mut k, SYS_GETPID, 0, 0, 0, &mut []), 1);
    assert_eq!(call(&mut k, SYS_FORK, 0, 0, 0, &mut []), -1);
    assert_eq!(row_text(&k, 0), "fork() called - not fully implemented");
    assert_eq!(call(&mut k, SYS_EXECVE, 0, 0, 0, &mut []), -1);
    assert_eq!(row_text(&k, 1), "");
    assert_eq!(call(&mut k, SYS_EXECVE, BUF, 0, 0, &mut []), -1);
    assert_eq!(row_text(&k, 1), "execve() called - not fully implemented");
    assert_eq!(call(&mut k, 60, 7, 0, 0, &mut []), 0);
    assert_eq!(row_text(&k, 2), "Process exiting with status: 7");
    assert_eq!(call(&mut k, SYS_GETPID, 0, 0, 0, &mut []), -1);
}

#[test]
fn mmap_and_munmap() {
    let mut k = kernel();
    let out = k.syscall_handler(SYS_MMAP, 0, 5000, 0, 0, 0, 0, &mut []);
    assert_eq!(out.value, USER_SPACE_START as i64);
    match out.action {
        SyscallAction::MapPages(a) => {
            assert_eq!(a.base, USER_SPACE_START);
            assert_eq!(a.frames, vec![0x100000, 0x101000]);
        },
        _ => panic!("expected pages to map"),
    }
    let again = k.syscall_handler(SYS_MMAP, 0, 1, 0, 0, 0, 0, &mut []);
    assert_eq!(again.value, (USER_SPACE_START + 2 * 4096) as i64);
    assert_eq!(k.syscall_handler(SYS_MMAP, 0, 0, 0, 0, 0, 0, &mut []).value, -1);
    let un = k.syscall_handler(SYS_MUNMAP, USER_SPACE_START, 8192, 0, 0, 0, 0, &mut []);
    assert_eq!(un.value, 0);
    match un.action {
        SyscallAction::UnmapPages(p) => assert_eq!(p, vec![USER_SPACE_START, USER_SPACE_START + 4096]),
        _ => panic!("expected pages to unmap"),
    }
    let reuse = k.syscall_handler(SYS_MMAP, 0, 4096, 0, 0, 0, 0, &mut []);
    assert_eq!(reuse.value, USER_SPACE_START as i64);
}

#[test]
fn sleep_logs_and_spins() {
    let mut k = kernel();
    let out = k.syscall_handler(SYS_SLEEP, 5000, 0, 0, 0, 0, 0, &mut []);
    assert_eq!(out.value, 0);
    assert!(matches!(out.action, SyscallAction::Pause(5)));
    assert_eq!(row_text(&k, 0), "sleep(5000) called");
}

#[test]
fn decoding_and_user_buffers() {
    assert_eq!(decode(0, 0xffff_ffff, 7, 9), Syscall::Read { fd: -1, buf: 7, count: 9 });
    assert_eq!(decode(2, 5, 6, 0o644), Syscall::Open { path: 5, flags: 6, mode: 0o644 });
    assert_eq!(decode(60, 3, 0, 0), Syscall::Exit { status: 3 });
    assert_eq!(decode(12345, 0, 0, 0), Syscall::Unknown { number: 12345 });
    assert_eq!(user_buffer(Syscall::Write { fd: 1, buf: 8, count: 3 }), Some((8, 3)));
    assert_eq!(user_buffer(Syscall::Open { path: 9, flags: 0, mode: 0 }), Some((9, 4096)));
    assert_eq!(user_buffer(Syscall::GetPid), None);
}

#[test]
fn stats_count_each_call() {
    let mut s = SyscallStats::new();
    s.record(1);
    s.record(1);
    s.record(3);
    s.record(300);
    assert_eq!(s.total_calls(), 4);
    assert_eq!(s.calls(1), 2);
    assert_eq!(s.calls(3), 1);
    assert_eq!(s.calls(300), 0);
}

#[test]
fn stats_report_on_the_console() {
    let mut k = kernel();
    call(&mut k, SYS_CLOSE, 9, 0, 0, &mut []);
    k.print_stats();
    assert_eq!(row_text(&k, 0), "Syscall Statistics:");
    assert_eq!(row_text(&k, 1), "  Total calls: 1");
    assert_eq!(row_text(&k, 5), "  close(): 1");
}
