//! Virtual-memory bootstrap of a small x86-64 kernel: a bump allocator of
//! physical frames over the boot memory map, a four-level page-table mapper
//! with its read-only page walk, and the mapping of the kernel heap.

use vstd::prelude::*;

pub mod addr;
pub mod allocator;
pub mod boot;
pub mod entry;
pub mod memory;
pub mod x86;

verus! {

/// How a run under the emulator ends.
#[derive(Clone, Copy, PartialEq, Eq, Structural, Debug)]
pub enum QemuExitCode {
    Success,
    Failed,
}

impl QemuExitCode {
    /// The number that is written to the exit port of the emulator.
    pub fn code(self) -> (code: u32)
        ensures
            code == match self {
                QemuExitCode::Success => 0x10u32,
                QemuExitCode::Failed => 0x11u32,
            },
    {
        match self {
            QemuExitCode::Success => 0x10,
            QemuExitCode::Failed => 0x11,
        }
    }
}

/// Runs each of `tests` once, in order, and gives the exit code of a run in
/// which every test came back.
pub fn test_runner<F: Fn()>(tests: &[F]) -> (code: QemuExitCode)
    requires
        forall|i: int| 0 <= i < tests.len() ==> call_requires(#[trigger] tests[i], ()),
    ensures
        code == QemuExitCode::Success,
        forall|i: int| 0 <= i < tests.len() ==> call_ensures(#[trigger] tests[i], (), ()),
{
    let mut i: usize = 0;
    while i < tests.len()
        invariant
            i <= tests.len(),
            forall|j: int| 0 <= j < tests.len() ==> call_requires(#[trigger] tests[j], ()),
            forall|j: int| 0 <= j < i ==> call_ensures(#[trigger] tests[j], (), ()),
        decreases tests.len() - i,
    {
        (tests[i])();
        i += 1;
    }
    QemuExitCode::Success
}

} // verus!
