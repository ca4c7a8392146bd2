use rustos::filesystem::{
    close, create_file, init, list_directory, open, read, FileMode, FsError, VirtualFileSystem, MAX_FILE_SIZE,
    MAX_OPEN_FILES,
};

fn rw() -> FileMode {
    FileMode { read: true, write: true, execute: false }
}

fn names(v: Vec<String>) -> Vec<String> {
    v
}

#[test]
fn mode_bits_decode_owner_permissions() {
    let m = FileMode::from_bits(0o644);
    assert!(m.read && m.write && !m.execute);
    let m = FileMode::from_bits(0o500);
    assert!(m.read && !m.write && m.execute);
    let m = FileMode::from_bits(0o077);
    assert!(!m.read && !m.write && !m.execute);
}

#[test]
fn init_seeds_root_entries_in_name_order() {
    let fs = init();
    let root = fs.list_dir("/").unwrap();
    assert_eq!(names(root), vec!["dev", "hello.txt", "home", "tmp"]);
    assert_eq!(fs.list_dir("/tmp").unwrap().len(), 0);
}

#[test]
fn create_write_then_read_from_fresh_descriptor() {
    let mut slot = Some(init());
    assert_eq!(create_file(&mut slot, "/tmp/a.txt"), Ok(()));
    let fd = open(&mut slot, "/tmp/a.txt", 2, 0);
    assert!(fd >= 0);
    assert_eq!(rustos::filesystem::write(&mut slot, fd as i32, b"hello"), 5);
    let fd2 = open(&mut slot, "/tmp/a.txt", 0, 0);
    assert!(fd2 >= 0 && fd2 != fd);
    let mut buf = [0u8; 5];
    assert_eq!(read(&mut slot, fd2 as i32, &mut buf), 5);
    assert_eq!(&buf, b"hello");
    let listed = list_directory(&slot, "/tmp").unwrap();
    assert!(listed.iter().any(|n| n == "a.txt"));
}

#[test]
fn written_bytes_land_at_the_offset() {
    let mut fs = init();
    fs.create("/f", rw()).unwrap();
    let fd = fs.open("/f", 0).unwrap();
    assert_eq!(fs.write(fd, b"abcdef"), Ok(6));
    let fd2 = fs.open("/f", 0).unwrap();
    let mut two = [0u8; 2];
    assert_eq!(fs.read(fd2, &mut two), Ok(2));
    assert_eq!(fs.write(fd2, b"XY"), Ok(2));
    let fd3 = fs.open("/f", 0).unwrap();
    let mut all = [0u8; 10];
    assert_eq!(fs.read(fd3, &mut all), Ok(6));
    assert_eq!(&all[..6], b"abXYef");
    assert_eq!(all[6..], [0u8; 4]);
}

#[test]
fn read_stops_at_end_of_file_and_advances() {
    let mut fs = init();
    fs.create("/f", rw()).unwrap();
    let w = fs.open("/f", 0).unwrap();
    fs.write(w, b"xyz").unwrap();
    let r = fs.open("/f", 0).unwrap();
    let mut buf = [7u8; 2];
    assert_eq!(fs.read(r, &mut buf), Ok(2));
    assert_eq!(buf, *b"xy");
    let mut buf = [7u8; 4];
    assert_eq!(fs.read(r, &mut buf), Ok(1));
    assert_eq!(buf, [b'z', 7, 7, 7]);
    assert_eq!(fs.read(r, &mut buf), Ok(0));
}

#[test]
fn descriptor_table_holds_1024_open_files() {
    let mut slot = Some(init());
    for i in 0..MAX_OPEN_FILES {
        assert_eq!(open(&mut slot, "/hello.txt", 0, 0), i as i64);
    }
    assert_eq!(open(&mut slot, "/hello.txt", 0, 0), -1);
    assert_eq!(slot.as_mut().unwrap().open("/hello.txt", 0), Err(FsError::TooManyOpenFiles));
    assert_eq!(close(&mut slot, 17), 0);
    assert_eq!(open(&mut slot, "/hello.txt", 0, 0), 17);
}

#[test]
fn closing_twice_fails_the_second_time() {
    let mut slot = Some(init());
    let fd = open(&mut slot, "/hello.txt", 0, 0) as i32;
    assert_eq!(close(&mut slot, fd), 0);
    assert_eq!(close(&mut slot, fd), -1);
    let mut fs = init();
    let fd = fs.open("/hello.txt", 0).unwrap();
    assert_eq!(fs.close(fd), Ok(()));
    assert_eq!(fs.close(fd), Err(FsError::NotOpen));
}

#[test]
fn descriptor_errors() {
    let mut fs = init();
    assert_eq!(fs.close(-1), Err(FsError::InvalidDescriptor));
    assert_eq!(fs.close(MAX_OPEN_FILES as i32), Err(FsError::InvalidDescriptor));
    let mut buf = [0u8; 1];
    assert_eq!(fs.read(3, &mut buf), Err(FsError::NotOpen));
    assert_eq!(fs.write(-5, b"a"), Err(FsError::InvalidDescriptor));
}

#[test]
fn path_errors() {
    let mut fs = init();
    assert_eq!(fs.create("/", rw()), Err(FsError::InvalidPath));
    assert_eq!(fs.create("///", rw()), Err(FsError::InvalidPath));
    assert_eq!(fs.create("/hello.txt", rw()), Err(FsError::AlreadyExists));
    assert_eq!(fs.mkdir("/tmp", rw()), Err(FsError::AlreadyExists));
    assert_eq!(fs.create("/hello.txt/x", rw()), Err(FsError::NotADirectory));
    assert_eq!(fs.create("/nope/x", rw()), Err(FsError::PathNotFound));
    assert_eq!(fs.open("/nope", 0), Err(FsError::PathNotFound));
    assert_eq!(fs.list_dir("/hello.txt"), Err(FsError::NotADirectory));
    assert_eq!(list_directory(&None, "/"), Err(FsError::NotInitialized));
    assert_eq!(create_file(&mut None, "/a"), Err(FsError::NotInitialized));
    assert_eq!(open(&mut None, "/", 0, 0), -1);
}

#[test]
fn segments_ignore_empty_parts_and_leading_slash() {
    let mut fs = init();
    fs.mkdir("/home/user", rw()).unwrap();
    fs.create("home//user///notes", rw()).unwrap();
    assert_eq!(fs.list_dir("home/user/").unwrap(), vec!["notes"]);
    assert!(fs.open("/home/user/notes", 0).is_ok());
}

#[test]
fn permissions_are_checked() {
    let mut fs = init();
    fs.create("/ro", FileMode { read: true, write: false, execute: false }).unwrap();
    fs.create("/wo", FileMode { read: false, write: true, execute: false }).unwrap();
    let ro = fs.open("/ro", 0).unwrap();
    let wo = fs.open("/wo", 0).unwrap();
    assert_eq!(fs.write(ro, b"x"), Err(FsError::PermissionDenied));
    let mut buf = [0u8; 1];
    assert_eq!(fs.read(wo, &mut buf), Err(FsError::PermissionDenied));
    assert_eq!(fs.write(wo, b"x"), Ok(1));
}

#[test]
fn file_size_is_capped_at_one_mebibyte() {
    let mut fs = init();
    fs.create("/big", rw()).unwrap();
    let fd = fs.open("/big", 0).unwrap();
    let data = vec![1u8; MAX_FILE_SIZE];
    assert_eq!(fs.write(fd, &data), Ok(MAX_FILE_SIZE));
    assert_eq!(fs.write(fd, b"x"), Err(FsError::FileTooLarge));
    let fd2 = fs.open("/big", 0).unwrap();
    assert_eq!(fs.write(fd2, &vec![2u8; MAX_FILE_SIZE + 1]), Err(FsError::FileTooLarge));
}

#[test]
fn inodes_run_out() {
    let mut fs = VirtualFileSystem::new();
    for i in 1..1024 {
        assert_eq!(fs.create(&format!("/f{}", i), rw()), Ok(i));
    }
    assert_eq!(fs.create("/last", rw()), Err(FsError::OutOfInodes));
    assert_eq!(fs.mkdir("/d", rw()), Err(FsError::OutOfInodes));
}

#[test]
fn entries_come_out_in_name_order_whatever_the_insertion_order() {
    let mut a = VirtualFileSystem::new();
    let mut b = VirtualFileSystem::new();
    for n in ["zeta", "alpha", "Mid", "beta"] {
        a.mkdir(&format!("/{}", n), rw()).unwrap();
    }
    for n in ["beta", "Mid", "zeta", "alpha"] {
        b.mkdir(&format!("/{}", n), rw()).unwrap();
    }
    assert_eq!(a.list_dir("/").unwrap(), vec!["Mid", "alpha", "beta", "zeta"]);
    assert_eq!(a.list_dir("/").unwrap(), b.list_dir("/").unwrap());
    a.create("/alpha/x", rw()).unwrap();
    b.create("/alpha/x", rw()).unwrap();
    assert!(a.open("/alpha/x", 0).is_ok() && b.open("/alpha/x", 0).is_ok());
    assert_eq!(a.open("/beta/x", 0), b.open("/beta/x", 0));
}

#[test]
fn error_messages() {
    assert_eq!(FsError::AlreadyExists.message(), "File already exists");
    assert_eq!(FsError::InvalidDescriptor.message(), "Invalid file descriptor");
    assert_eq!(FsError::NotInitialized.message(), "Filesystem not initialized");
}
