use vstd::prelude::*;

use pc_keyboard::{layouts, DecodedKey, HandleControl, KeyEvent, Keyboard, ScancodeSet1};
use std::collections::VecDeque;

verus! {

/// Bytes the keyboard FIFO holds; further bytes are dropped.
pub const KEYBOARD_BUFFER_SIZE: usize = 256;

/// PS/2 data port.
pub const DATA_PORT: u16 = 0x60;

/// pc_keyboard's `Keyboard` for scancode set 1 and the US 104-key layout,
/// held opaque: its generic declaration names pc_keyboard's traits as
/// bounds, which Verus does not take.
#[verifier::external_body]
pub struct ScancodeDecoder {
    inner: Keyboard<layouts::Us104Key, ScancodeSet1>,
}

#[verifier::external_type_specification]
#[verifier::external_body]
pub struct ExKeyEvent(KeyEvent);

/// Relies on pc_keyboard's `Keyboard::new`: a scancode-set-1 decoder with
/// the US 104-key layout that leaves Ctrl combinations alone.
#[verifier::external_body]
fn new_decoder() -> ScancodeDecoder {
    ScancodeDecoder { inner: Keyboard::new(ScancodeSet1::new(), layouts::Us104Key, HandleControl::Ignore) }
}

/// Relies on pc_keyboard's `Keyboard::add_byte`: feeds one scancode to the
/// decoder, which yields a key event once a sequence is complete; a code it
/// does not know yields none.
#[verifier::external_body]
fn feed_scancode(decoder: &mut ScancodeDecoder, byte: u8) -> Option<KeyEvent> {
    match decoder.inner.add_byte(byte) {
        Ok(ev) => ev,
        Err(_) => None,
    }
}

/// Relies on pc_keyboard's `Keyboard::process_keyevent`: the character a key
/// event gives under the current modifiers, if it gives one.
#[verifier::external_body]
fn decode_event(decoder: &mut ScancodeDecoder, ev: KeyEvent) -> Option<char> {
    match decoder.inner.process_keyevent(ev) {
        Some(DecodedKey::Unicode(c)) => Some(c),
        Some(DecodedKey::RawKey(_)) => None,
        None => None,
    }
}

/// The byte a decoded character is queued as: its low eight bits.
pub open spec fn low_byte(c: char) -> u8 {
    ((c as u32) % 256) as u8
}

/// The FIFO after a byte arrives: kept if there is room, else dropped.
pub open spec fn pushed(buffer: Seq<u8>, b: u8) -> Seq<u8> {
    if buffer.len() < KEYBOARD_BUFFER_SIZE {
        buffer.push(b)
    } else {
        buffer
    }
}

/// The scancode decoder and the FIFO of bytes typed but not yet read.
pub struct KeyboardDriver {
    keyboard: ScancodeDecoder,
    buffer: VecDeque<u8>,
}

impl KeyboardDriver {
    /// The bytes waiting, oldest first.
    pub closed spec fn queued(&self) -> Seq<u8> {
        self.buffer@
    }

    pub open spec fn wf(&self) -> bool {
        self.queued().len() <= KEYBOARD_BUFFER_SIZE
    }

    /// A fresh decoder and an empty FIFO.
    pub fn new() -> (r: Self)
        ensures
            r.wf(),
            r.queued().len() == 0,
    {
        Self { keyboard: new_decoder(), buffer: VecDeque::with_capacity(KEYBOARD_BUFFER_SIZE) }
    }

    /// Queues a byte, or drops it when the FIFO is full.
    pub fn add_byte(&mut self, byte: u8)
        requires
            old(self).wf(),
        ensures
            final(self).wf(),
            final(self).queued() == pushed(old(self).queued(), byte),
    {
        if self.buffer.len() < KEYBOARD_BUFFER_SIZE {
            self.buffer.push_back(byte);
        }
    }

    /// Takes the oldest byte, if any.
    pub fn read_byte(&mut self) -> (r: Option<u8>)
        requires
            old(self).wf(),
        ensures
            final(self).wf(),
            old(self).queued().len() == 0 ==> r is None && final(self).queued() == old(self).queued(),
            old(self).queued().len() > 0 ==> r == Some(old(self).queued()[0])
                && final(self).queued() == old(self).queued().drop_first(),
    {
        self.buffer.pop_front()
    }

    /// Queues the low byte of a decoded character; no character, no byte.
    pub fn accept_key(&mut self, key: Option<char>)
        requires
            old(self).wf(),
        ensures
            final(self).wf(),
            final(self).queued() == match key {
                Some(c) => pushed(old(self).queued(), low_byte(c)),
                None => old(self).queued(),
            },
    {
        if let Some(c) = key {
            self.add_byte(((c as u32) % 256) as u8);
        }
    }

    /// Feeds a scancode to the decoder and queues the character it gives,
    /// if any.
    pub fn process_scancode(&mut self, scancode: u8)
        requires
            old(self).wf(),
        ensures
            final(self).wf(),
            final(self).queued() == old(self).queued() || exists|b: u8| final(self).queued() == pushed(old(self).queued(), b),
    {
        if let Some(ev) = feed_scancode(&mut self.keyboard, scancode) {
            let key = decode_event(&mut self.keyboard, ev);
            self.accept_key(key);
        }
    }

    /// Whether a byte is waiting.
    pub fn has_data(&self) -> (r: bool)
        ensures
            r == (self.queued().len() > 0),
    {
        self.buffer.len() > 0
    }
}

/// Whether the keyboard slot holds a well-formed driver, if any.
pub open spec fn slot_wf(k: Option<KeyboardDriver>) -> bool {
    k matches Some(v) ==> v.wf()
}

/// Draining the FIFO of a slot into a buffer `buf`, `out` being the buffer
/// afterwards and `r` the count: the oldest bytes, as many as fit.
pub open spec fn drained(pre: Option<KeyboardDriver>, buf: Seq<u8>, post: Option<KeyboardDriver>, out: Seq<u8>, r: int) -> bool {
    match pre {
        None => r == 0 && post is None && out == buf,
        Some(k) => {
            let q = k.queued();
            let n = if buf.len() < q.len() { buf.len() as int } else { q.len() as int };
            &&& r == n
            &&& post matches Some(k2) && k2.queued() == q.subrange(n, q.len() as int)
            &&& out == q.subrange(0, n) + buf.subrange(n, buf.len() as int)
        },
    }
}

/// A fresh keyboard driver.
pub fn init() -> (r: KeyboardDriver)
    ensures
        r.wf(),
        r.queued().len() == 0,
{
    KeyboardDriver::new()
}

/// Handles a keyboard interrupt given the scancode read from the data port.
pub fn handle_interrupt(keyboard: &mut Option<KeyboardDriver>, scancode: u8)
    requires
        slot_wf(*old(keyboard)),
    ensures
        slot_wf(*final(keyboard)),
        *old(keyboard) is None <==> *final(keyboard) is None,
        *old(keyboard) matches Some(k) ==> *final(keyboard) matches Some(k2) && (k2.queued() == k.queued()
            || exists|b: u8| k2.queued() == pushed(k.queued(), b)),
{
    if let Some(k) = keyboard {
        k.process_scancode(scancode);
    }
}

/// Drains up to `buf.len()` waiting bytes into `buf`, oldest first, without
/// waiting; the count drained.
pub fn read_bytes(keyboard: &mut Option<KeyboardDriver>, buf: &mut [u8]) -> (r: usize)
    requires
        slot_wf(*old(keyboard)),
    ensures
        slot_wf(*final(keyboard)),
        drained(*old(keyboard), old(buf)@, *final(keyboard), final(buf)@, r as int),
{
    match keyboard {
        Some(k) => {
            let ghost q = k.queued();
            let ghost old_buf = buf@;
            let mut count: usize = 0;
            let mut more = true;
            while more && count < buf.len()
                invariant
                    k.wf(),
                    count <= buf@.len(),
                    count <= q.len(),
                    buf@.len() == old_buf.len(),
                    k.queued() == q.subrange(count as int, q.len() as int),
                    !more ==> count == q.len(),
                    forall|j: int| 0 <= j < count ==> buf@[j] == q[j],
                    forall|j: int| count <= j < buf@.len() ==> buf@[j] == old_buf[j],
                decreases buf@.len() - count, if more { 1int } else { 0int },
            {
                match k.read_byte() {
                    Some(b) => {
                        buf[count] = b;
                        count = count + 1;
                    },
                    None => {
                        more = false;
                    },
                }
            }
            assert(buf@ == q.subrange(0, count as int) + old_buf.subrange(count as int, old_buf.len() as int));
            count
        },
        None => 0,
    }
}

/// Whether the driver of the slot has a byte waiting.
pub fn has_data(keyboard: &Option<KeyboardDriver>) -> (r: bool)
    ensures
        r == match *keyboard {
            Some(k) => k.queued().len() > 0,
            None => false,
        },
{
    match keyboard {
        Some(k) => k.has_data(),
        None => false,
    }
}

} // verus!
