use rustos::interrupts::{handler_for, Handler, InterruptIndex};

#[test]
fn vector_table_routes() {
    assert_eq!(handler_for(3), Handler::Breakpoint);
    assert_eq!(handler_for(8), Handler::DoubleFault);
    assert_eq!(handler_for(13), Handler::GeneralProtection);
    assert_eq!(handler_for(14), Handler::PageFault);
    assert_eq!(handler_for(32), Handler::Timer);
    assert_eq!(handler_for(33), Handler::Keyboard);
    assert_eq!(handler_for(0x80), Handler::Syscall);
    assert_eq!(handler_for(34), Handler::Unhandled);
    assert_eq!(handler_for(0), Handler::Unhandled);
}

#[test]
fn interrupt_indices() {
    assert_eq!(InterruptIndex::Timer.as_u8(), 32);
    assert_eq!(InterruptIndex::Keyboard.as_usize(), 33);
}

#[test]
fn breakpoint_resumes_and_faults_halt() {
    assert!(!Handler::Breakpoint.is_fatal());
    assert!(Handler::DoubleFault.is_fatal());
    assert!(Handler::PageFault.is_fatal());
    assert!(Handler::GeneralProtection.is_fatal());
    assert!(Handler::DoubleFault.uses_dedicated_stack());
    assert!(!Handler::PageFault.uses_dedicated_stack());
    assert!(Handler::Timer.needs_eoi() && Handler::Keyboard.needs_eoi());
    assert!(!Handler::Syscall.needs_eoi());
}
