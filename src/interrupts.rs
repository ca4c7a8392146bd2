use vstd::prelude::*;

verus! {

/// Vector of the primary interrupt controller's first line after remapping.
pub const PIC_1_OFFSET: u8 = 32;

/// Vector of the secondary controller's first line after remapping.
pub const PIC_2_OFFSET: u8 = 40;

/// Command port of the primary interrupt controller.
pub const PIC_1_COMMAND_PORT: u16 = 0x20;

/// End-of-interrupt command byte.
pub const EOI: u8 = 0x20;

pub const BREAKPOINT_VECTOR: u8 = 3;

pub const DOUBLE_FAULT_VECTOR: u8 = 8;

pub const GENERAL_PROTECTION_VECTOR: u8 = 13;

pub const PAGE_FAULT_VECTOR: u8 = 14;

/// Vector of the system-call trap (`int 0x80`).
pub const SYSCALL_VECTOR: u8 = 0x80;

/// Hardware interrupt lines in use, by vector.
#[derive(Debug, Clone, Copy, PartialEq, Eq, Structural)]
pub enum InterruptIndex {
    Timer,
    Keyboard,
}

impl InterruptIndex {
    pub open spec fn vector(self) -> u8 {
        match self {
            InterruptIndex::Timer => PIC_1_OFFSET,
            InterruptIndex::Keyboard => (PIC_1_OFFSET + 1) as u8,
        }
    }

    pub fn as_u8(self) -> (r: u8)
        ensures
            r == self.vector(),
    {
        match self {
            InterruptIndex::Timer => PIC_1_OFFSET,
            InterruptIndex::Keyboard => PIC_1_OFFSET + 1,
        }
    }

    pub fn as_usize(self) -> (r: usize)
        ensures
            r == self.vector(),
    {
        self.as_u8() as usize
    }
}

/// What a trap vector is routed to.
#[derive(Debug, Clone, Copy, PartialEq, Eq, Structural)]
pub enum Handler {
    /// Log and return.
    Breakpoint,
    /// Print and halt, on its own stack.
    DoubleFault,
    /// Print the faulting address and error code, then halt.
    PageFault,
    /// Print the error code, then halt.
    GeneralProtection,
    Timer,
    Keyboard,
    Syscall,
    /// No handler installed.
    Unhandled,
}

/// The vector table.
pub open spec fn route(vector: u8) -> Handler {
    if vector == BREAKPOINT_VECTOR {
        Handler::Breakpoint
    } else if vector == DOUBLE_FAULT_VECTOR {
        Handler::DoubleFault
    } else if vector == PAGE_FAULT_VECTOR {
        Handler::PageFault
    } else if vector == GENERAL_PROTECTION_VECTOR {
        Handler::GeneralProtection
    } else if vector == InterruptIndex::Timer.vector() {
        Handler::Timer
    } else if vector == InterruptIndex::Keyboard.vector() {
        Handler::Keyboard
    } else if vector == SYSCALL_VECTOR {
        Handler::Syscall
    } else {
        Handler::Unhandled
    }
}

/// The handler a trap vector is routed to.
pub fn handler_for(vector: u8) -> (r: Handler)
    ensures
        r == route(vector),
{
    if vector == BREAKPOINT_VECTOR {
        Handler::Breakpoint
    } else if vector == DOUBLE_FAULT_VECTOR {
        Handler::DoubleFault
    } else if vector == PAGE_FAULT_VECTOR {
        Handler::PageFault
    } else if vector == GENERAL_PROTECTION_VECTOR {
        Handler::GeneralProtection
    } else if vector == InterruptIndex::Timer.as_u8() {
        Handler::Timer
    } else if vector == InterruptIndex::Keyboard.as_u8() {
        Handler::Keyboard
    } else if vector == SYSCALL_VECTOR {
        Handler::Syscall
    } else {
        Handler::Unhandled
    }
}

impl Handler {
    /// Faults after which the machine halts for good.
    pub fn is_fatal(self) -> (r: bool)
        ensures
            r == (self == Handler::DoubleFault || self == Handler::PageFault || self == Handler::GeneralProtection),
    {
        match self {
            Handler::DoubleFault | Handler::PageFault | Handler::GeneralProtection => true,
            _ => false,
        }
    }

    /// Hardware interrupts, which the primary controller must be told have
    /// ended.
    pub fn needs_eoi(self) -> (r: bool)
        ensures
            r == (self == Handler::Timer || self == Handler::Keyboard),
    {
        match self {
            Handler::Timer | Handler::Keyboard => true,
            _ => false,
        }
    }

    /// Whether the handler runs on the stack reserved for it in the task
    /// state segment rather than the current one.
    pub fn uses_dedicated_stack(self) -> (r: bool)
        ensures
            r == (self == Handler::DoubleFault),
    {
        match self {
            Handler::DoubleFault => true,
            _ => false,
        }
    }
}

} // verus!
