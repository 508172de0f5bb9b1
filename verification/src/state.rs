//! The manager as a state machine: what it knows, what it accepts and what it does.

use vstd::prelude::*;

use crate::backend::{max_range, VmBackend, MAX_PAGES_RW, PAGE_SIZE};
use crate::event::{Action, Input, UffdEvent, UffdMessage, Vm};

verus! {

/// Why an input is not accepted.
#[derive(Clone, Copy, Debug, PartialEq, Eq, Structural)]
pub enum Refusal {
    /// The input does not answer the action that was asked for.
    Unexpected,
    /// The VM to clone is not tracked.
    ParentVmNotFound,
    /// The page table of the new VM would not fit in memory.
    TableTooLarge,
    /// The VM that faulted is not tracked.
    VmNotFound,
    /// The faulting address lies below the memory of the VM.
    AddressBelowVm,
    /// The faulting page lies beyond the table of the VM.
    PageOutOfRange,
    /// The faulting page lies beyond the table of another VM that is looked at.
    OtherPageOutOfRange,
    /// The address of the page in another mapping is not representable.
    AddressOverflow,
    /// More was filled than the table of the VM holds.
    TransferTooLong,
}

impl Refusal {
    /// What is reported when the input was handed over nevertheless.
    pub fn message(&self) -> (text: &'static str)
        ensures
            text@ == match *self {
                Refusal::Unexpected => "unexpected input"@,
                Refusal::ParentVmNotFound => "parent vm not found"@,
                Refusal::TableTooLarge => "capacity overflow"@,
                Refusal::VmNotFound => "vm not found"@,
                Refusal::AddressBelowVm => "attempt to subtract with overflow"@,
                Refusal::PageOutOfRange => "index out of bounds"@,
                Refusal::OtherPageOutOfRange => "index out of bounds"@,
                Refusal::AddressOverflow => "attempt to add with overflow"@,
                Refusal::TransferTooLong => "index out of bounds"@,
            },
    {
        match self {
            Refusal::Unexpected => "unexpected input",
            Refusal::ParentVmNotFound => "parent vm not found",
            Refusal::TableTooLarge => "capacity overflow",
            Refusal::VmNotFound => "vm not found",
            Refusal::AddressBelowVm => "attempt to subtract with overflow",
            Refusal::PageOutOfRange => "index out of bounds",
            Refusal::OtherPageOutOfRange => "index out of bounds",
            Refusal::AddressOverflow => "attempt to add with overflow",
            Refusal::TransferTooLong => "index out of bounds",
        }
    }
}

/// A write fault being handled: the page is handed to each child in turn.
pub struct Sharing {
    /// The VM that wrote.
    pub vm_idx: u16,
    /// The page that it wrote to.
    pub page_idx: u64,
    /// The faulting address.
    pub address: u64,
    /// The VMs that still took this page from the writing VM when the fault came in.
    pub children: Seq<u16>,
    /// The child that is being copied to.
    pub next: int,
    /// The fewest bytes that a child received so far.
    pub least: Option<usize>,
}

/// What the manager waits for.
pub enum Awaiting {
    Message,
    /// The parent of this new VM is being write-protected.
    Protection(Vm),
    Signal,
    Waking,
    /// Pages of a VM, from this one on, are being filled.
    Filling { vm_idx: u16, page_idx: u64 },
    Copying(Sharing),
    Unprotection,
}

/// The manager's knowledge.
pub struct State {
    /// The tracked VMs.
    pub vms: Map<u16, Vm>,
    /// For each VM and each of its pages, where the page is fetched from.
    pub sources: Map<u16, Seq<VmBackend>>,
    pub awaiting: Awaiting,
}

/// The smaller of a count and those before it.
pub open spec fn least_of(least: Option<usize>, bytes: usize) -> usize {
    match least {
        Some(before) => if before < bytes {
            before
        } else {
            bytes
        },
        None => bytes,
    }
}

/// The pages that a child received with these many bytes: the page that is about to be written,
/// and those that were copied along.
pub open spec fn pages_received(bytes: usize) -> int {
    if bytes < PAGE_SIZE {
        1
    } else {
        bytes as int / PAGE_SIZE as int
    }
}

/// The number of the page that holds `address`, in a mapping that starts at `start`.
pub open spec fn page_in(start: u64, address: u64) -> int {
    (address - start) / (PAGE_SIZE as int)
}

/// The page of `vm` that faults at `address`.
pub open spec fn page_at(vm: Vm, address: u64) -> int {
    page_in(vm.uffd_address, address)
}

/// `sources` with the `count` entries from `page_idx` on naming `vm_idx`.
pub open spec fn owned(sources: Seq<VmBackend>, page_idx: int, count: int, vm_idx: u16) -> Seq<
    VmBackend,
> {
    Seq::new(
        sources.len(),
        |j: int|
            if page_idx <= j < page_idx + count {
                VmBackend::Vm(vm_idx)
            } else {
                sources[j]
            },
    )
}

/// `children` lists, each once, the VMs other than `vm_idx` that take the page from it.
pub open spec fn lists_children(
    sources: Map<u16, Seq<VmBackend>>,
    vm_idx: u16,
    page_idx: int,
    children: Seq<u16>,
) -> bool {
    &&& children.no_duplicates()
    &&& forall|c: u16| #[trigger]
        children.contains(c) <==> takes_from(sources, c, vm_idx, page_idx)
}

/// `child`, a VM other than `vm_idx`, takes the page from it.
pub open spec fn takes_from(
    sources: Map<u16, Seq<VmBackend>>,
    child: u16,
    vm_idx: u16,
    page_idx: int,
) -> bool {
    &&& child != vm_idx
    &&& sources.contains_key(child)
    &&& 0 <= page_idx < sources[child].len()
    &&& sources[child][page_idx] == VmBackend::Vm(vm_idx)
}

/// How many pages are filled at once from `page_idx` on where both tables have a say:
/// as long as neither changes its source.
pub open spec fn common_range(a: Seq<VmBackend>, b: Seq<VmBackend>, page_idx: int) -> nat {
    let in_a = max_range(a, page_idx, MAX_PAGES_RW as nat);
    let in_b = max_range(b, page_idx, MAX_PAGES_RW as nat);
    if in_a < in_b {
        in_a
    } else {
        in_b
    }
}

impl State {
    /// The tables belong to the tracked VMs and name tracked VMs only, and what is
    /// awaited fits them.
    pub open spec fn wf(self) -> bool {
        &&& self.vms.dom() =~= self.sources.dom()
        &&& forall|i: u16| #[trigger] self.vms.contains_key(i) ==> self.vms[i].vm_idx == i
        &&& forall|i: u16, k: int|
            #![trigger self.sources[i][k]]
            self.sources.contains_key(i) && 0 <= k < self.sources[i].len() ==> (
            self.sources[i][k] matches VmBackend::Vm(p) ==> self.vms.contains_key(p))
        &&& self.awaiting_wf()
    }

    pub open spec fn awaiting_wf(self) -> bool {
        match self.awaiting {
            Awaiting::Protection(vm) => vm.source_vm_idx matches Some(parent)
                && self.vms.contains_key(parent),
            Awaiting::Filling { vm_idx, page_idx } => {
                &&& self.vms.contains_key(vm_idx)
                &&& page_idx < self.sources[vm_idx].len()
            },
            Awaiting::Copying(s) => self.sharing_wf(s),
            _ => true,
        }
    }

    /// The children before `next` own the page by now, and as many after it as the one that
    /// received least; those from `next` on, and no other VM, still take the page from the
    /// writing VM.
    pub open spec fn sharing_wf(self, s: Sharing) -> bool {
        &&& self.vms.contains_key(s.vm_idx)
        &&& s.page_idx < self.sources[s.vm_idx].len()
        &&& 0 <= s.next < s.children.len()
        &&& s.next == 0 <==> s.least is None
        &&& s.children.no_duplicates()
        &&& forall|i: int|
            #![trigger s.children[i]]
            0 <= i < s.children.len() ==> {
                &&& s.children[i] != s.vm_idx
                &&& self.vms.contains_key(s.children[i])
                &&& s.page_idx < self.sources[s.children[i]].len()
                &&& self.sources[s.children[i]][s.page_idx as int] == if i < s.next {
                    VmBackend::Vm(s.children[i])
                } else {
                    VmBackend::Vm(s.vm_idx)
                }
                &&& !self.copy_overflows(s.vm_idx, s.children[i], s.page_idx as int)
            }
        &&& forall|i: int, j: int|
            #![trigger self.sources[s.children[i]][j]]
            0 <= i < s.next && s.page_idx <= j < s.page_idx + pages_received(s.least->0) ==> {
                &&& j < self.sources[s.children[i]].len()
                &&& self.sources[s.children[i]][j] == VmBackend::Vm(s.children[i])
            }
        &&& forall|c: u16| #[trigger]
            takes_from(self.sources, c, s.vm_idx, s.page_idx as int) ==> s.children.contains(c)
    }

    /// An address that a copy of the page from `from` to `to` names is not representable.
    pub open spec fn copy_overflows(self, from: u16, to: u16, page_idx: int) -> bool {
        ||| self.vms[from].memfd_address + page_idx * PAGE_SIZE > u64::MAX
        ||| self.vms[to].uffd_address + page_idx * PAGE_SIZE > u64::MAX
    }

    /// Why the VM cannot be added.
    pub open spec fn vm_refusal(self, vm: Vm) -> Option<Refusal> {
        match vm.source_vm_idx {
            Some(parent) => if self.vms.contains_key(parent) {
                None
            } else {
                Some(Refusal::ParentVmNotFound)
            },
            None => if vm.memfd_size / PAGE_SIZE <= usize::MAX {
                None
            } else {
                Some(Refusal::TableTooLarge)
            },
        }
    }

    /// Why the page cannot be supplied.
    pub open spec fn missing_refusal(self, vm_idx: u16, page_idx: int) -> Option<Refusal> {
        match self.sources[vm_idx][page_idx] {
            VmBackend::Zero => None,
            VmBackend::Vm(source) => if source == vm_idx {
                None
            } else if page_idx >= self.sources[source].len() {
                Some(Refusal::OtherPageOutOfRange)
            } else if self.copy_overflows(source, vm_idx, page_idx) {
                Some(Refusal::AddressOverflow)
            } else {
                None
            },
        }
    }

    /// Why the page cannot be made writable.
    pub open spec fn write_refusal(self, vm_idx: u16, page_idx: int) -> Option<Refusal> {
        if exists|c: u16| #[trigger]
            self.sources.contains_key(c) && c != vm_idx && page_idx >= self.sources[c].len() {
            Some(Refusal::OtherPageOutOfRange)
        } else if exists|c: u16| #[trigger]
            takes_from(self.sources, c, vm_idx, page_idx) && self.copy_overflows(
                vm_idx,
                c,
                page_idx,
            ) {
            Some(Refusal::AddressOverflow)
        } else {
            None
        }
    }

    /// Why the fault cannot be handled.
    pub open spec fn event_refusal(self, vm_idx: u16, event: UffdEvent) -> Option<Refusal> {
        let page_idx = page_at(self.vms[vm_idx], event.address);
        if !self.vms.contains_key(vm_idx) {
            Some(Refusal::VmNotFound)
        } else if event.address < self.vms[vm_idx].uffd_address {
            Some(Refusal::AddressBelowVm)
        } else if page_idx >= self.sources[vm_idx].len() {
            Some(Refusal::PageOutOfRange)
        } else if event.wants_page() {
            self.missing_refusal(vm_idx, page_idx)
        } else {
            self.write_refusal(vm_idx, page_idx)
        }
    }

    /// Why the input is not accepted; nothing where it is.
    pub open spec fn refusal(self, input: Input) -> Option<Refusal> {
        match (self.awaiting, input) {
            (Awaiting::Message, Input::Message(UffdMessage::AddVm(vm))) => self.vm_refusal(vm),
            (
                Awaiting::Message,
                Input::Message(UffdMessage::UffdEvent { vm_idx, event }),
            ) => self.event_refusal(vm_idx, event),
            (Awaiting::Protection(_), Input::Done) => None,
            (Awaiting::Signal, Input::Done) => None,
            (Awaiting::Waking, Input::Done) => None,
            (Awaiting::Unprotection, Input::Done) => None,
            (Awaiting::Filling { vm_idx, page_idx }, Input::Transferred(bytes)) => if page_idx
                + bytes as int / PAGE_SIZE as int > self.sources[vm_idx].len() {
                Some(Refusal::TransferTooLong)
            } else {
                None
            },
            (Awaiting::Copying(s), Input::Transferred(bytes)) => if s.page_idx + pages_received(
                bytes,
            ) > self.sources[s.children[s.next]].len() {
                Some(Refusal::TransferTooLong)
            } else {
                None
            },
            _ => Some(Refusal::Unexpected),
        }
    }

    pub open spec fn accepts(self, input: Input) -> bool {
        self.refusal(input) is None
    }

    /// The same knowledge, waiting for something else.
    pub open spec fn now_awaiting(self, awaiting: Awaiting) -> State {
        State { awaiting, ..self }
    }

    /// `vm` tracked with this table.
    pub open spec fn with_vm(self, vm: Vm, table: Seq<VmBackend>) -> State {
        State {
            vms: self.vms.insert(vm.vm_idx, vm),
            sources: self.sources.insert(vm.vm_idx, table),
            awaiting: Awaiting::Signal,
        }
    }

    /// `vm_idx` owning the `count` pages from `page_idx` on.
    pub open spec fn with_owned(self, vm_idx: u16, page_idx: int, count: int) -> State {
        State {
            sources: self.sources.insert(
                vm_idx,
                owned(self.sources[vm_idx], page_idx, count, vm_idx),
            ),
            ..self
        }
    }

    /// The request that copies the page, and those after it that can go along, from `from`
    /// to `to`.
    pub open spec fn copy_action(self, from: u16, to: u16, page_idx: u64, wake: bool) -> Action {
        Action::CopyPages {
            vm_idx: to,
            source_vm_idx: from,
            page_idx,
            source_address: (self.vms[from].memfd_address + page_idx * PAGE_SIZE) as u64,
            address: (self.vms[to].uffd_address + page_idx * PAGE_SIZE) as u64,
            len: (common_range(self.sources[to], self.sources[from], page_idx as int)
                * PAGE_SIZE) as usize,
            wake,
            write_protect: false,
        }
    }

    /// A page is supplied. What the VM owns already only needs its waiters woken; what was
    /// never filled is zeroed, as far as the table has no other source; what another VM
    /// holds is copied from it.
    pub open spec fn supplies(
        self,
        vm_idx: u16,
        event: UffdEvent,
        post: State,
        action: Action,
    ) -> bool {
        let page_idx = page_at(self.vms[vm_idx], event.address) as u64;
        let table = self.sources[vm_idx];
        let filling = Awaiting::Filling { vm_idx, page_idx };
        match table[page_idx as int] {
            VmBackend::Zero => {
                &&& post == self.now_awaiting(filling)
                &&& action == Action::ZeroPages {
                    vm_idx,
                    page_idx,
                    address: event.address,
                    len: (max_range(table, page_idx as int, MAX_PAGES_RW as nat)
                        * PAGE_SIZE) as usize,
                    wake: true,
                }
            },
            VmBackend::Vm(source) => if source == vm_idx {
                &&& post == self.now_awaiting(Awaiting::Waking)
                &&& action == Action::Wake {
                    vm_idx,
                    page_idx,
                    address: event.address,
                    len: PAGE_SIZE as usize,
                }
            } else {
                &&& post == self.now_awaiting(filling)
                &&& action == self.copy_action(source, vm_idx, page_idx, true)
            },
        }
    }

    /// The next child is served or, when there is none, the write protection is removed
    /// from as many bytes as each child received, or from one page if there was no child.
    pub open spec fn serves(self, s: Sharing, post: State, action: Action) -> bool {
        if s.next < s.children.len() {
            &&& post == self.now_awaiting(Awaiting::Copying(s))
            &&& action == self.copy_action(s.vm_idx, s.children[s.next], s.page_idx, false)
        } else {
            &&& post == self.now_awaiting(Awaiting::Unprotection)
            &&& action == Action::RemoveWriteProtection {
                vm_idx: s.vm_idx,
                page_idx: s.page_idx,
                address: s.address,
                len: match s.least {
                    Some(bytes) => bytes,
                    None => PAGE_SIZE as usize,
                },
                wake: true,
            }
        }
    }

    /// A page is about to be written: every VM that takes it from here is listed, in any
    /// order, and the first one is served.
    pub open spec fn shares(
        self,
        vm_idx: u16,
        event: UffdEvent,
        post: State,
        action: Action,
    ) -> bool {
        let page_idx = page_at(self.vms[vm_idx], event.address) as u64;
        exists|children: Seq<u16>|
            {
                &&& #[trigger] lists_children(self.sources, vm_idx, page_idx as int, children)
                &&& self.serves(
                    Sharing {
                        vm_idx,
                        page_idx,
                        address: event.address,
                        children,
                        next: 0,
                        least: None,
                    },
                    post,
                    action,
                )
            }
    }

    /// From this state the accepted input leads to `post` and asks for `action`.
    pub open spec fn step(self, input: Input, post: State, action: Action) -> bool {
        match (self.awaiting, input) {
            (Awaiting::Message, Input::Message(UffdMessage::AddVm(vm))) => match vm.source_vm_idx {
                Some(parent) => {
                    &&& post == self.now_awaiting(Awaiting::Protection(vm))
                    &&& action == Action::WriteProtect {
                        vm_idx: parent,
                        address: self.vms[parent].uffd_address,
                        size: self.vms[parent].memfd_size,
                    }
                },
                None => {
                    &&& post == self.with_vm(
                        vm,
                        Seq::new((vm.memfd_size / PAGE_SIZE) as nat, |k: int| VmBackend::Zero),
                    )
                    &&& action == Action::Ready { vm_idx: vm.vm_idx }
                },
            },
            (
                Awaiting::Message,
                Input::Message(UffdMessage::UffdEvent { vm_idx, event }),
            ) => if event.wants_page() {
                self.supplies(vm_idx, event, post, action)
            } else {
                self.shares(vm_idx, event, post, action)
            },
            (Awaiting::Protection(vm), Input::Done) => {
                &&& post == self.with_vm(vm, self.sources[vm.source_vm_idx->0])
                &&& action == Action::Ready { vm_idx: vm.vm_idx }
            },
            (Awaiting::Filling { vm_idx, page_idx }, Input::Transferred(bytes)) => {
                &&& post == self.with_owned(
                    vm_idx,
                    page_idx as int,
                    bytes as int / PAGE_SIZE as int,
                ).now_awaiting(Awaiting::Message)
                &&& action == Action::Receive
            },
            (Awaiting::Copying(s), Input::Transferred(bytes)) => self.with_owned(
                s.children[s.next],
                s.page_idx as int,
                pages_received(bytes),
            ).serves(
                Sharing { next: s.next + 1, least: Some(least_of(s.least, bytes)), ..s },
                post,
                action,
            ),
            _ => {
                &&& post == self.now_awaiting(Awaiting::Message)
                &&& action == Action::Receive
            },
        }
    }
}

} // verus!
