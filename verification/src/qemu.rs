//! Exit codes handed to QEMU's debug exit device.
use vstd::prelude::*;

verus! {

/// Port of QEMU's debug exit device.
pub const QEMU_EXIT_PORT: u16 = 0xf4;

/// How a test kernel ended.
#[derive(Debug, Clone, Copy, PartialEq, Eq, Structural)]
pub enum QemuExitCode {
    Success,
    Failed,
}

impl QemuExitCode {
    /// The value written to the exit device.
    pub fn value(self) -> (r: u32)
        ensures
            self == QemuExitCode::Success ==> r == 0x10,
            self == QemuExitCode::Failed ==> r == 0x11,
    {
        match self {
            QemuExitCode::Success => 0x10,
            QemuExitCode::Failed => 0x11,
        }
    }
}

} // verus!
