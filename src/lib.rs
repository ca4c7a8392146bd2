//! A small x86_64 teaching kernel, modelled as verified state machines: the
//! text console, keyboard FIFO, timer, trap-vector routing, frame and page
//! allocation, the round-robin scheduler, the system-call dispatcher and an
//! in-memory filesystem. Hardware access (ports, page tables, the frame
//! buffer) stays with the caller, which hands these modules plain values.

pub mod path;
pub mod filesystem;
pub mod process;
pub mod memory;
pub mod console;
pub mod keyboard;
pub mod timer;
pub mod interrupts;
pub mod syscall;
