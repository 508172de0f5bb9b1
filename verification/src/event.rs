//! What the manager is told, and what it asks for.

use vstd::prelude::*;

verus! {

/// Whether a page fault came from a read or from a write.
#[derive(Clone, Copy, Debug, PartialEq, Eq, Structural)]
pub enum ReadWrite {
    Read,
    Write,
}

/// What made an access fault.
#[derive(Clone, Copy, Debug, PartialEq, Eq, Structural)]
pub enum FaultKind {
    /// The page is not present.
    Missing,
    /// The page is present and write-protected.
    WriteProtected,
}

/// An event read from a userfaultfd descriptor.
#[derive(Clone, Copy, Debug, PartialEq, Eq)]
pub enum Event {
    Pagefault { kind: FaultKind, rw: ReadWrite, addr: u64 },
    Fork,
    Remap { from: u64, to: u64, len: usize },
    Remove { start: u64, end: u64 },
    Unmap { start: u64, end: u64 },
}

/// A page fault of a VM.
#[derive(Clone, Copy, Debug, PartialEq, Eq)]
pub struct UffdEvent {
    pub address: u64,
    pub kind: FaultKind,
    pub rw: ReadWrite,
}

impl UffdEvent {
    /// Whether the page has to be supplied. Any other fault is a write to a protected page.
    pub open spec fn wants_page(self) -> bool {
        self.rw == ReadWrite::Read || self.kind == FaultKind::Missing
    }

    /// The page fault that a userfaultfd event reports. No other event is handled.
    pub fn from(val: Event) -> (event: UffdEvent)
        requires
            val is Pagefault,
        ensures
            val == (Event::Pagefault { kind: event.kind, rw: event.rw, addr: event.address }),
    {
        match val {
            Event::Pagefault { kind, rw, addr } => UffdEvent { address: addr, kind, rw },
            _ => vstd::pervasive::unreached(),
        }
    }
}

/// A VM that the manager serves.
#[derive(Clone, Copy, Debug, PartialEq, Eq)]
pub struct Vm {
    pub vm_idx: u16,
    /// Where the mapping starts whose faults are handled.
    pub uffd_address: u64,
    /// Where the mapping of the same memory starts that never faults.
    pub memfd_address: u64,
    /// Bytes of memory.
    pub memfd_size: u64,
    /// The VM that this one is a child of.
    pub source_vm_idx: Option<u16>,
}

/// A message to the manager.
#[derive(Clone, Copy, Debug, PartialEq, Eq)]
pub enum UffdMessage {
    /// Adds a VM to those that are tracked.
    AddVm(Vm),
    /// A page fault of a tracked VM.
    UffdEvent { vm_idx: u16, event: UffdEvent },
}

/// What the manager is handed at each step.
#[derive(Clone, Copy, Debug, PartialEq, Eq)]
pub enum Input {
    /// A message came in.
    Message(UffdMessage),
    /// The requested call succeeded; it has no result.
    Done,
    /// The requested call filled this many bytes.
    Transferred(usize),
}

/// What has to be done before the next step.
#[derive(Clone, Copy, Debug, PartialEq, Eq)]
pub enum Action {
    /// Write-protect `size` bytes of a VM; answered by `Done`.
    WriteProtect { vm_idx: u16, address: u64, size: u64 },
    /// Tell the sender that its VM is tracked now; answered by `Done`.
    Ready { vm_idx: u16 },
    /// Wake the threads that wait for a page; answered by `Done`.
    Wake { vm_idx: u16, page_idx: u64, address: u64, len: usize },
    /// Fill pages of a VM with zeroes; answered by `Transferred`.
    ZeroPages { vm_idx: u16, page_idx: u64, address: u64, len: usize, wake: bool },
    /// Fill pages of a VM from those of another; answered by `Transferred`.
    CopyPages {
        vm_idx: u16,
        source_vm_idx: u16,
        page_idx: u64,
        source_address: u64,
        address: u64,
        len: usize,
        wake: bool,
        write_protect: bool,
    },
    /// Remove the write protection of a range of a VM; answered by `Done`.
    RemoveWriteProtection { vm_idx: u16, page_idx: u64, address: u64, len: usize, wake: bool },
    /// Wait for a message; answered by `Message`.
    Receive,
}

} // verus!
