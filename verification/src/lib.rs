//! The core of a small cooperative kernel: a text console, tasks that share one
//! processor by suspending themselves, and the bridge that brings keyboard
//! interrupts to those tasks.
//!
//! Everything here works on values that the caller owns. The kernel around it
//! holds those values in one place each, creates them before it turns
//! interrupts on, and does what touches the hardware: it copies the console's
//! cells to the screen, turns interrupts off and on, and halts the processor.

pub mod task;
pub mod vga_buffer;

use vstd::prelude::*;

verus! {

/// A test that the kernel's test run can execute. A test that fails does not
/// return.
pub trait Testable {
    /// What a run of the test has shown once it has returned. A test that does
    /// not say what it shows leaves this as it is.
    open spec fn passed(&self) -> bool {
        true
    }

    /// Runs the test.
    fn run(&self)
        ensures
            self.passed(),
    ;
}

/// What a test run tells the emulator when it ends.
#[derive(Debug, Clone, Copy, PartialEq, Eq, Structural)]
pub enum QemuExitCode {
    Success,
    Failed,
}

impl QemuExitCode {
    /// The number that stands for the exit code on the emulator's exit device.
    pub open spec fn code(self) -> u32 {
        match self {
            QemuExitCode::Success => 0x10,
            QemuExitCode::Failed => 0x11,
        }
    }

    /// The number that stands for the exit code on the emulator's exit device.
    #[verifier::when_used_as_spec(code)]
    pub fn value(self) -> (value: u32)
        ensures
            value == self.code(),
    {
        match self {
            QemuExitCode::Success => 0x10,
            QemuExitCode::Failed => 0x11,
        }
    }
}

/// The input/output address of the emulator's exit device.
pub const QEMU_EXIT_PORT: u16 = 0xf4;

/// A value to be written to an input/output address.
#[derive(Debug, Clone, Copy, PartialEq, Eq, Structural)]
pub struct PortWrite {
    pub port: u16,
    pub value: u32,
}

/// The write that makes the emulator exit with the given code.
pub fn exit_qemu(exit_code: QemuExitCode) -> (write: PortWrite)
    ensures
        write == (PortWrite { port: QEMU_EXIT_PORT, value: exit_code.code() }),
{
    PortWrite { port: QEMU_EXIT_PORT, value: exit_code.value() }
}

/// Runs the tests in their order and gives the exit code of a run in which
/// every test returned: when it reports success, each of the tests has run and
/// shown what it shows.
pub fn test_runner(tests: &[&dyn Testable]) -> (exit_code: QemuExitCode)
    ensures
        exit_code == QemuExitCode::Success,
        forall|i: int| 0 <= i < tests@.len() ==> (#[trigger] tests@[i]).passed(),
{
    for i in 0..tests.len()
        invariant
            forall|j: int| 0 <= j < i ==> (#[trigger] tests@[j]).passed(),
    {
        tests[i].run();
    }
    QemuExitCode::Success
}

} // verus!
