//! Kernel runtime logic: heap allocators, physical frame allocation, the
//! text console model, the command shell and the task bookkeeping, each
//! specified and proved with Verus.
use vstd::prelude::*;

pub mod allocator;
pub mod boot_splash;
pub mod cli;
pub mod gdt;
pub mod interrupts;
pub mod log;
pub mod memory;
pub mod task;
pub mod vga_buffer;

verus! {

/// What the kernel reports to QEMU's exit device when its tests end.
#[derive(Clone, Copy, PartialEq, Eq, Structural, Debug)]
pub enum QemuExitCode {
    Success,
    Failed,
}

impl QemuExitCode {
    /// The value written to the exit port.
    pub fn as_u32(self) -> (r: u32)
        ensures
            r == match self {
                QemuExitCode::Success => 0x10u32,
                QemuExitCode::Failed => 0x11u32,
            },
    {
        match self {
            QemuExitCode::Success => 0x10,
            QemuExitCode::Failed => 0x11,
        }
    }
}

} // verus!
