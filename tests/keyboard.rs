use rustos::keyboard::{handle_interrupt, has_data, init, read_bytes, KeyboardDriver, KEYBOARD_BUFFER_SIZE};

#[test]
fn scancodes_decode_to_queued_characters() {
    let mut slot = Some(init());
    assert!(!has_data(&slot));
    handle_interrupt(&mut slot, 0x1e);
    handle_interrupt(&mut slot, 0x9e);
    handle_interrupt(&mut slot, 0x30);
    handle_interrupt(&mut slot, 0xb0);
    assert!(has_data(&slot));
    let mut buf = [0u8; 8];
    assert_eq!(read_bytes(&mut slot, &mut buf), 2);
    assert_eq!(&buf[..2], b"ab");
    assert_eq!(read_bytes(&mut slot, &mut buf), 0);
}

#[test]
fn shift_gives_capitals() {
    let mut k = KeyboardDriver::new();
    k.process_scancode(0x2a);
    k.process_scancode(0x1e);
    k.process_scancode(0x9e);
    k.process_scancode(0xaa);
    k.process_scancode(0x1e);
    assert_eq!(k.read_byte(), Some(b'A'));
    assert_eq!(k.read_byte(), Some(b'a'));
    assert_eq!(k.read_byte(), None);
}

#[test]
fn fifo_keeps_order_and_drops_when_full() {
    let mut k = KeyboardDriver::new();
    for i in 0..(KEYBOARD_BUFFER_SIZE + 10) {
        k.add_byte(i as u8);
    }
    let mut slot = Some(k);
    let mut buf = vec![0u8; 300];
    assert_eq!(read_bytes(&mut slot, &mut buf), KEYBOARD_BUFFER_SIZE);
    for i in 0..KEYBOARD_BUFFER_SIZE {
        assert_eq!(buf[i], i as u8);
    }
    assert_eq!(buf[KEYBOARD_BUFFER_SIZE], 0);
}

#[test]
fn short_buffer_drains_part_of_the_fifo() {
    let mut k = KeyboardDriver::new();
    k.accept_key(Some('x'));
    k.accept_key(None);
    k.accept_key(Some('y'));
    k.accept_key(Some('\u{141}'));
    let mut slot = Some(k);
    let mut one = [0u8; 1];
    assert_eq!(read_bytes(&mut slot, &mut one), 1);
    assert_eq!(one[0], b'x');
    let mut rest = [0u8; 4];
    assert_eq!(read_bytes(&mut slot, &mut rest), 2);
    assert_eq!(&rest[..2], &[b'y', 0x41]);
    assert_eq!(read_bytes(&mut None, &mut rest), 0);
    assert!(!has_data(&None));
}
