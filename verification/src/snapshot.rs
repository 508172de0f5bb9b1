//! What guests see: a child keeps reading what its parent held when it was cloned.
//!
//! The memory of the VMs is modelled page by page, together with what the kernel does to it
//! when an action is performed. The laws relate the manager's steps to that model.

use vstd::prelude::*;

use crate::backend::{lemma_run_of, max_range, VmBackend, MAX_PAGES_RW, PAGE_SIZE};
use crate::event::{Action, FaultKind, Input, ReadWrite, UffdEvent, UffdMessage, Vm};
use crate::laws::{lemma_listed, lemma_step_keeps_wf, lemma_unprotects_when_shared};
use crate::state::{page_at, page_in, takes_from, Awaiting, Sharing, State};

verus! {

/// The pages of all VMs.
pub struct Memory {
    /// The bytes of each page that is present, by VM and page number.
    pub pages: Map<(u16, int), Seq<u8>>,
    /// The pages whose writes fault.
    pub protected: Set<(u16, int)>,
}

/// A page that was never filled.
pub open spec fn zero_page() -> Seq<u8> {
    Seq::new(PAGE_SIZE as nat, |i: int| 0u8)
}

/// `page` is one of the `count` pages of `vm_idx` from `first` on.
pub open spec fn in_range(page: (u16, int), vm_idx: u16, first: int, count: int) -> bool {
    page.0 == vm_idx && first <= page.1 < first + count
}

impl Memory {
    pub open spec fn present(self, vm_idx: u16, page_idx: int) -> bool {
        self.pages.contains_key((vm_idx, page_idx))
    }

    pub open spec fn absent(self, vm_idx: u16, first: int, count: int) -> bool {
        forall|j: int| first <= j < first + count ==> !#[trigger] self.present(vm_idx, j)
    }

    /// Write protection of the pages of a range that are present.
    pub open spec fn protect(self, vm_idx: u16, first: int, count: int) -> Memory {
        Memory {
            protected: Set::new(
                |page: (u16, int)|
                    self.protected.contains(page) || (in_range(page, vm_idx, first, count)
                        && self.pages.contains_key(page)),
            ),
            ..self
        }
    }

    pub open spec fn unprotect(self, vm_idx: u16, first: int, count: int) -> Memory {
        Memory {
            protected: Set::new(
                |page: (u16, int)|
                    self.protected.contains(page) && !in_range(page, vm_idx, first, count),
            ),
            ..self
        }
    }

    /// The pages of a range filled with new, writable contents.
    pub open spec fn fill(
        self,
        vm_idx: u16,
        first: int,
        count: int,
        contents: spec_fn(int) -> Seq<u8>,
    ) -> Memory {
        Memory {
            pages: Map::new(
                |page: (u16, int)|
                    self.pages.contains_key(page) || in_range(page, vm_idx, first, count),
                |page: (u16, int)|
                    if in_range(page, vm_idx, first, count) {
                        contents(page.1)
                    } else {
                        self.pages[page]
                    },
            ),
            protected: Set::new(
                |page: (u16, int)|
                    self.protected.contains(page) && !in_range(page, vm_idx, first, count),
            ),
        }
    }

    /// A guest changing one of its pages.
    pub open spec fn write(self, vm_idx: u16, page_idx: int, contents: Seq<u8>) -> Memory {
        Memory { pages: self.pages.insert((vm_idx, page_idx), contents), ..self }
    }

    /// A write of the guest goes through without a fault.
    pub open spec fn writable(self, vm_idx: u16, page_idx: int) -> bool {
        self.present(vm_idx, page_idx) && !self.protected.contains((vm_idx, page_idx))
    }
}

/// The manager, the action that it asked for last, and the memory.
pub struct World {
    pub manager: State,
    pub action: Action,
    pub memory: Memory,
}

/// What the guest of `vm_idx` finds in a page: its own copy, or what the page is fetched from.
pub open spec fn reads(w: World, vm_idx: u16, page_idx: int) -> Seq<u8> {
    if w.memory.present(vm_idx, page_idx) {
        w.memory.pages[(vm_idx, page_idx)]
    } else {
        match w.manager.sources[vm_idx][page_idx] {
            VmBackend::Zero => zero_page(),
            VmBackend::Vm(source) => w.memory.pages[(source, page_idx)],
        }
    }
}

/// The kernel performed the action: `input` is its outcome and `after` the memory left. Only
/// absent pages of the VM's memory are filled, at least one, whole pages at a time, and no more
/// than asked for.
pub open spec fn performed(w: World, input: Input, after: Memory) -> bool {
    let vms = w.manager.vms;
    let before = w.memory;
    match w.action {
        Action::WriteProtect { vm_idx, address, size } => {
            &&& input == Input::Done
            &&& after == before.protect(
                vm_idx,
                page_in(vms[vm_idx].uffd_address, address),
                (size / PAGE_SIZE) as int,
            )
        },
        Action::Ready { vm_idx } => input == Input::Done && after == before,
        Action::Wake { .. } => input == Input::Done && after == before,
        Action::ZeroPages { vm_idx, address, len, .. } => {
            let first = page_in(vms[vm_idx].uffd_address, address);
            &&& input matches Input::Transferred(bytes)
            &&& PAGE_SIZE <= bytes <= len
            &&& bytes as int % PAGE_SIZE as int == 0
            &&& first + bytes as int / PAGE_SIZE as int <= vms[vm_idx].memfd_size / PAGE_SIZE
            &&& before.absent(vm_idx, first, bytes as int / PAGE_SIZE as int)
            &&& after == before.fill(
                vm_idx,
                first,
                bytes as int / PAGE_SIZE as int,
                |j: int| zero_page(),
            )
        },
        Action::CopyPages { vm_idx, source_vm_idx, source_address, address, len, .. } => {
            let first = page_in(vms[vm_idx].uffd_address, address);
            let source_first = page_in(vms[source_vm_idx].memfd_address, source_address);
            &&& input matches Input::Transferred(bytes)
            &&& PAGE_SIZE <= bytes <= len
            &&& bytes as int % PAGE_SIZE as int == 0
            &&& first + bytes as int / PAGE_SIZE as int <= vms[vm_idx].memfd_size / PAGE_SIZE
            &&& before.absent(vm_idx, first, bytes as int / PAGE_SIZE as int)
            &&& after == before.fill(
                vm_idx,
                first,
                bytes as int / PAGE_SIZE as int,
                |j: int| before.pages[(source_vm_idx, source_first + (j - first))],
            )
        },
        Action::RemoveWriteProtection { vm_idx, address, len, .. } => {
            &&& input == Input::Done
            &&& after == before.unprotect(
                vm_idx,
                page_in(vms[vm_idx].uffd_address, address),
                len as int / PAGE_SIZE as int,
            )
        },
        Action::Receive => input is Message && after == before,
    }
}

/// The tables tell where the pages are.
pub open spec fn tables_hold(s: State, m: Memory) -> bool {
    // A VM owns the pages that are present in its memory, and no others.
    &&& forall|v: u16, k: int|
        #![trigger s.sources[v][k]]
        #![trigger m.present(v, k)]
        s.sources.contains_key(v) && 0 <= k < s.sources[v].len() ==> {
            &&& m.present(v, k) <==> s.sources[v][k] == VmBackend::Vm(v)
            &&& m.present(v, k) ==> k < s.vms[v].memfd_size / PAGE_SIZE
        }
    // A VM that pages are fetched from owns them.
    &&& forall|v: u16, k: int|
        #![trigger s.sources[v][k]]
        s.sources.contains_key(v) && 0 <= k < s.sources[v].len() ==> (
        s.sources[v][k] matches VmBackend::Vm(p) ==> {
            &&& s.sources.contains_key(p)
            &&& k < s.sources[p].len()
            &&& s.sources[p][k] == VmBackend::Vm(p)
        })
}

/// A page that some other VM will still fetch cannot be written.
pub open spec fn guarded(s: State, m: Memory) -> bool {
    forall|child: u16, v: u16, k: int| #[trigger]
        takes_from(s.sources, child, v, k) ==> m.protected.contains((v, k))
}

/// The action is the one that the awaited input answers, and what was done for it holds.
pub open spec fn asked(w: World) -> bool {
    let s = w.manager;
    match s.awaiting {
        Awaiting::Message => w.action == Action::Receive,
        Awaiting::Protection(vm) => {
            &&& vm.source_vm_idx matches Some(parent)
            &&& w.action == Action::WriteProtect {
                vm_idx: parent,
                address: s.vms[parent].uffd_address,
                size: s.vms[parent].memfd_size,
            }
        },
        Awaiting::Signal => w.action is Ready,
        Awaiting::Waking => {
            &&& w.action matches Action::Wake { vm_idx, page_idx, .. }
            &&& s.sources.contains_key(vm_idx)
            &&& page_idx < s.sources[vm_idx].len()
            &&& s.sources[vm_idx][page_idx as int] == VmBackend::Vm(vm_idx)
        },
        Awaiting::Filling { vm_idx, page_idx } => match s.sources[vm_idx][page_idx as int] {
            VmBackend::Zero => {
                &&& w.action matches Action::ZeroPages { vm_idx: to, address, len, .. }
                &&& to == vm_idx
                &&& page_in(s.vms[vm_idx].uffd_address, address) == page_idx
                &&& len == max_range(
                    s.sources[vm_idx],
                    page_idx as int,
                    MAX_PAGES_RW as nat,
                ) * PAGE_SIZE
            },
            VmBackend::Vm(source) => {
                &&& source != vm_idx
                &&& w.action == s.copy_action(source, vm_idx, page_idx, true)
                &&& !s.copy_overflows(source, vm_idx, page_idx as int)
            },
        },
        Awaiting::Copying(sharing) => {
            &&& w.action == s.copy_action(
                sharing.vm_idx,
                sharing.children[sharing.next],
                sharing.page_idx,
                false,
            )
            // Each child that was served received one page at least.
            &&& (sharing.least matches Some(bytes) ==> bytes >= PAGE_SIZE)
            &&& page_in(s.vms[sharing.vm_idx].uffd_address, sharing.address) == sharing.page_idx
        },
        Awaiting::Unprotection => {
            &&& w.action matches Action::RemoveWriteProtection { vm_idx, address, len, .. }
            &&& len >= PAGE_SIZE
            &&& unneeded(
                s,
                vm_idx,
                page_in(s.vms[vm_idx].uffd_address, address),
                len as int / PAGE_SIZE as int,
            )
        },
    }
}

/// No other VM will still fetch any of these pages.
pub open spec fn unneeded(s: State, vm_idx: u16, first: int, count: int) -> bool {
    forall|child: u16, j: int|
        first <= j < first + count ==> !#[trigger] takes_from(s.sources, child, vm_idx, j)
}

/// The whole is in order.
pub open spec fn sound(w: World) -> bool {
    &&& w.manager.wf()
    &&& tables_hold(w.manager, w.memory)
    &&& guarded(w.manager, w.memory)
    &&& asked(w)
}

/// `vm` is new and none of its pages is present.
pub open spec fn admits(w: World, vm: Vm) -> bool {
    &&& !w.manager.vms.contains_key(vm.vm_idx)
    &&& forall|k: int| !#[trigger] w.memory.present(vm.vm_idx, k)
}

/// The inputs that leave every guest's view alone: a VM that is added is admitted, and
/// protection is removed only from pages that no VM will still fetch.
pub open spec fn harmless(w: World, input: Input, after: World) -> bool {
    &&& ((w.manager.awaiting, input) matches (
        Awaiting::Message,
        Input::Message(UffdMessage::AddVm(vm)),
    ) ==> vm.source_vm_idx is None ==> admits(w, vm))
    &&& ((w.manager.awaiting, input) matches (Awaiting::Protection(vm), Input::Done) ==> admits(
        w,
        vm,
    ))
    &&& (w.manager.awaiting matches Awaiting::Copying(sharing) ==> after.action matches Action::RemoveWriteProtection {
        len,
        ..
    } ==> no_bystander(after, sharing, len as int / PAGE_SIZE as int))
}

/// Every VM that will still fetch one of the `count` pages from `page_idx` on was listed as a
/// child when the write to `page_idx` faulted.
pub open spec fn no_bystander(w: World, sharing: Sharing, count: int) -> bool {
    forall|child: u16, j: int|
        sharing.page_idx <= j < sharing.page_idx + count && #[trigger] takes_from(
            w.manager.sources,
            child,
            sharing.vm_idx,
            j,
        ) ==> sharing.children.contains(child)
}

/// The manager took the outcome of its action and asks for the next one.
pub open spec fn manager_step(w: World, input: Input, after: World) -> bool {
    &&& w.manager.accepts(input)
    &&& performed(w, input, after.memory)
    &&& w.manager.step(input, after.manager, after.action)
}

/// Two worlds in which every VM tracked in the first finds the same in all of its pages.
pub open spec fn same_views(w: World, after: World) -> bool {
    forall|v: u16, k: int|
        #![trigger reads(after, v, k)]
        w.manager.sources.contains_key(v) && 0 <= k < w.manager.sources[v].len() ==> reads(
            after,
            v,
            k,
        ) == reads(w, v, k)
}

/// Filling pages that a VM does not own with what its guest would have found there, and making
/// them its own, changes no view.
proof fn lemma_fill(
    w: World,
    after: World,
    vm_idx: u16,
    first: int,
    count: int,
    contents: spec_fn(int) -> Seq<u8>,
)
    requires
        tables_hold(w.manager, w.memory),
        guarded(w.manager, w.memory),
        w.manager.sources.contains_key(vm_idx),
        0 <= first,
        first + count <= w.manager.sources[vm_idx].len(),
        first + count <= w.manager.vms[vm_idx].memfd_size / PAGE_SIZE,
        forall|j: int|
            first <= j < first + count ==> #[trigger] w.manager.sources[vm_idx][j] != VmBackend::Vm(
                vm_idx,
            ),
        forall|j: int| first <= j < first + count ==> #[trigger] contents(j) == reads(w, vm_idx, j),
        after.memory == w.memory.fill(vm_idx, first, count, contents),
        after.manager.vms == w.manager.vms,
        after.manager.sources == w.manager.with_owned(vm_idx, first, count).sources,
    ensures
        tables_hold(after.manager, after.memory),
        guarded(after.manager, after.memory),
        same_views(w, after),
{
    let s = w.manager;
    let m = w.memory;
    let s2 = after.manager;
    let m2 = after.memory;
    assert(s2.sources.dom() =~= s.sources.dom());
    // No page of the range is fetched from this VM, which does not own it yet.
    assert forall|v: u16, j: int|
        s.sources.contains_key(v) && 0 <= j < s.sources[v].len() && first <= j < first
            + count implies #[trigger] s.sources[v][j] != VmBackend::Vm(vm_idx) by {
        assert(s.sources[vm_idx][j] != VmBackend::Vm(vm_idx));
    }
    assert forall|v: u16, k: int|
        #![trigger s2.sources[v][k]]
        s.sources.contains_key(v) && 0 <= k < s.sources[v].len() implies s2.sources[v][k] == (
    if in_range((v, k), vm_idx, first, count) {
        VmBackend::Vm(vm_idx)
    } else {
        s.sources[v][k]
    }) by {}
    assert forall|v: u16, k: int|
        #![trigger m2.present(v, k)]
        m2.present(v, k) <==> m.present(v, k) || in_range((v, k), vm_idx, first, count) by {}
    assert forall|v: u16, k: int|
        s2.sources.contains_key(v) && 0 <= k < s2.sources[v].len() implies {
        &&& #[trigger] m2.present(v, k) <==> #[trigger] s2.sources[v][k] == VmBackend::Vm(v)
        &&& m2.present(v, k) ==> k < s2.vms[v].memfd_size / PAGE_SIZE
        &&& s2.sources[v][k] matches VmBackend::Vm(p) ==> {
            &&& s2.sources.contains_key(p)
            &&& k < s2.sources[p].len()
            &&& s2.sources[p][k] == VmBackend::Vm(p)
        }
    } by {
        let _ = s.sources[v][k];
    }
    assert(tables_hold(s2, m2)) by {
        assert forall|v: u16, k: int|
            #![trigger s2.sources[v][k]]
            #![trigger m2.present(v, k)]
            s2.sources.contains_key(v) && 0 <= k < s2.sources[v].len() implies {
            &&& m2.present(v, k) <==> s2.sources[v][k] == VmBackend::Vm(v)
            &&& m2.present(v, k) ==> k < s2.vms[v].memfd_size / PAGE_SIZE
        } by {
            let _ = (m2.present(v, k), s2.sources[v][k]);
        }
    }
    assert forall|child: u16, v: u16, k: int| #[trigger]
        takes_from(s2.sources, child, v, k) implies m2.protected.contains((v, k)) by {
        let _ = s2.sources[child][k];
        let _ = s.sources[child][k];
        assert(takes_from(s.sources, child, v, k));
    }
    assert forall|v: u16, k: int|
        #![trigger reads(after, v, k)]
        s.sources.contains_key(v) && 0 <= k < s.sources[v].len() implies reads(after, v, k)
        == reads(w, v, k) by {
        let _ = s.sources[v][k];
        let _ = s2.sources[v][k];
        assert(m2.present(v, k) <==> m.present(v, k) || in_range((v, k), vm_idx, first, count));
        if in_range((v, k), vm_idx, first, count) {
            assert(contents(k) == reads(w, vm_idx, k));
        }
    }
}

/// A VM that is admitted finds what its parent finds, or zeroes, and changes no other view.
proof fn lemma_added(w: World, after: World, vm: Vm)
    requires
        sound(w),
        admits(w, vm),
        match vm.source_vm_idx {
            Some(parent) => {
                &&& w.manager.vms.contains_key(parent)
                &&& after.memory == w.memory.protect(
                    parent,
                    0,
                    (w.manager.vms[parent].memfd_size / PAGE_SIZE) as int,
                )
                &&& after.manager == w.manager.with_vm(vm, w.manager.sources[parent])
            },
            None => {
                &&& after.memory == w.memory
                &&& after.manager == w.manager.with_vm(
                    vm,
                    Seq::new((vm.memfd_size / PAGE_SIZE) as nat, |k: int| VmBackend::Zero),
                )
            },
        },
    ensures
        tables_hold(after.manager, after.memory),
        guarded(after.manager, after.memory),
        same_views(w, after),
        forall|k: int|
            #![trigger reads(after, vm.vm_idx, k)]
            0 <= k < after.manager.sources[vm.vm_idx].len() ==> reads(after, vm.vm_idx, k) == (
            match vm.source_vm_idx {
                Some(parent) => reads(w, parent, k),
                None => zero_page(),
            }),
{
    let s = w.manager;
    let m = w.memory;
    let s2 = after.manager;
    let m2 = after.memory;
    assert forall|v: u16, k: int|
        #![trigger m2.present(v, k)]
        m2.present(v, k) == m.present(v, k) by {}
    // The table of the new VM, and the entries of the parent that it repeats.
    assert forall|k: int|
        #![trigger s2.sources[vm.vm_idx][k]]
        0 <= k < s2.sources[vm.vm_idx].len() implies s2.sources[vm.vm_idx][k] == (
    match vm.source_vm_idx {
        Some(parent) => s.sources[parent][k],
        None => VmBackend::Zero,
    }) by {}
    assert forall|v: u16, k: int|
        #![trigger s2.sources[v][k]]
        #![trigger m2.present(v, k)]
        s2.sources.contains_key(v) && 0 <= k < s2.sources[v].len() implies {
        &&& m2.present(v, k) <==> s2.sources[v][k] == VmBackend::Vm(v)
        &&& m2.present(v, k) ==> k < s2.vms[v].memfd_size / PAGE_SIZE
        &&& s2.sources[v][k] matches VmBackend::Vm(p) ==> {
            &&& s2.sources.contains_key(p)
            &&& k < s2.sources[p].len()
            &&& s2.sources[p][k] == VmBackend::Vm(p)
        }
    } by {
        assert(m2.present(v, k) == m.present(v, k));
        let _ = s2.sources[v][k];
        if v == vm.vm_idx {
            if let Some(parent) = vm.source_vm_idx {
                let _ = s.sources[parent][k];
            }
        } else {
            let _ = s.sources[v][k];
        }
    }
    assert forall|child: u16, v: u16, k: int| #[trigger]
        takes_from(s2.sources, child, v, k) implies m2.protected.contains((v, k)) by {
        if child == vm.vm_idx {
            let _ = s2.sources[child][k];
            if let Some(parent) = vm.source_vm_idx {
                let _ = s.sources[parent][k];
                if v == parent {
                    assert(m.present(parent, k));
                    assert(in_range(
                        (parent, k),
                        parent,
                        0,
                        (s.vms[parent].memfd_size / PAGE_SIZE) as int,
                    ));
                } else {
                    assert(takes_from(s.sources, parent, v, k));
                }
            }
        } else {
            assert(takes_from(s.sources, child, v, k));
        }
    }
    assert forall|v: u16, k: int|
        #![trigger reads(after, v, k)]
        s2.sources.contains_key(v) && 0 <= k < s2.sources[v].len() implies reads(after, v, k) == (
    if v != vm.vm_idx {
        reads(w, v, k)
    } else {
        match vm.source_vm_idx {
            Some(parent) => reads(w, parent, k),
            None => zero_page(),
        }
    }) by {
        let _ = s2.sources[v][k];
        assert(m2.present(v, k) == m.present(v, k));
        if v == vm.vm_idx {
            if let Some(parent) = vm.source_vm_idx {
                let _ = s.sources[parent][k];
                assert(m2.present(parent, k) == m.present(parent, k));
            }
        }
    }
}

/// Where the memory stays the same but for protection, and what is still fetched stays guarded,
/// nothing changes.
proof fn lemma_unchanged(w: World, after: World)
    requires
        tables_hold(w.manager, w.memory),
        guarded(after.manager, after.memory),
        after.memory.pages == w.memory.pages,
        after.manager.vms == w.manager.vms,
        after.manager.sources == w.manager.sources,
    ensures
        tables_hold(after.manager, after.memory),
        same_views(w, after),
{
    assert forall|v: u16, k: int|
        #![trigger after.memory.present(v, k)]
        after.memory.present(v, k) == w.memory.present(v, k) by {}
    assert forall|v: u16, k: int|
        #![trigger after.manager.sources[v][k]]
        after.memory.present(v, k) == w.memory.present(v, k) by {}
}

/// A fault that comes in changes no view: the manager only decides.
proof fn lemma_fault(w: World, input: Input, after: World, vm_idx: u16, event: UffdEvent)
    requires
        sound(w),
        manager_step(w, input, after),
        w.manager.awaiting is Message,
        input == Input::Message(UffdMessage::UffdEvent { vm_idx, event }),
    ensures
        sound(after),
        same_views(w, after),
{
    let s = w.manager;
    let page_idx = page_at(s.vms[vm_idx], event.address) as u64;
    lemma_step_keeps_wf(s, input, after.manager, after.action);
    lemma_unchanged(w, after);
    if event.wants_page() {
        lemma_run_of(
            s.sources[vm_idx],
            page_idx as int,
            s.sources[vm_idx][page_idx as int],
            MAX_PAGES_RW as nat,
        );
    } else {
        let sharing = lemma_listed(s, vm_idx, event, after.manager, after.action);
        if sharing.children.len() == 0 {
            assert forall|c: u16, j: int| page_idx <= j < page_idx + 1 implies !#[trigger] takes_from(
                after.manager.sources,
                c,
                vm_idx,
                j,
            ) by {
                assert(!sharing.children.contains(c));
            }
        }
    }
}

/// The pages that a VM faulted on were filled: no view changes.
proof fn lemma_filled(w: World, input: Input, after: World, vm_idx: u16, page_idx: u64, bytes: usize)
    requires
        sound(w),
        manager_step(w, input, after),
        w.manager.awaiting == (Awaiting::Filling { vm_idx, page_idx }),
        input == Input::Transferred(bytes),
    ensures
        sound(after),
        same_views(w, after),
{
    let s = w.manager;
    let table = s.sources[vm_idx];
    let first = page_idx as int;
    let count = bytes as int / PAGE_SIZE as int;
    let limit = MAX_PAGES_RW as nat;
    lemma_step_keeps_wf(s, input, after.manager, after.action);
    lemma_run_of(table, first, table[first], limit);
    match table[first] {
        VmBackend::Zero => {
            let contents = |j: int| zero_page();
            assert forall|j: int| first <= j < first + count implies #[trigger] contents(j)
                == reads(w, vm_idx, j) by {
                assert(table[j] == table[first]);
            }
            lemma_fill(w, after, vm_idx, first, count, contents);
        },
        VmBackend::Vm(source) => {
            let contents = |j: int| w.memory.pages[(source, first + (j - first))];
            assert forall|j: int| first <= j < first + count implies #[trigger] contents(j)
                == reads(w, vm_idx, j) by {
                assert(table[j] == table[first]);
            }
            lemma_fill(w, after, vm_idx, first, count, contents);
        },
    }
}

/// A child was handed the pages that are about to be written: no view changes.
proof fn lemma_copied(w: World, input: Input, after: World, sharing: Sharing, bytes: usize)
    requires
        sound(w),
        manager_step(w, input, after),
        harmless(w, input, after),
        w.manager.awaiting == Awaiting::Copying(sharing),
        input == Input::Transferred(bytes),
    ensures
        sound(after),
        same_views(w, after),
{
    let s = w.manager;
    let child = sharing.children[sharing.next];
    let table = s.sources[child];
    let source = sharing.vm_idx;
    let first = sharing.page_idx as int;
    let count = bytes as int / PAGE_SIZE as int;
    lemma_step_keeps_wf(s, input, after.manager, after.action);
    lemma_run_of(table, first, table[first], MAX_PAGES_RW as nat);
    let contents = |j: int| w.memory.pages[(source, first + (j - first))];
    assert forall|j: int| first <= j < first + count implies #[trigger] contents(j) == reads(
        w,
        child,
        j,
    ) by {
        assert(table[j] == table[first]);
    }
    lemma_fill(w, after, child, first, count, contents);
    lemma_unprotects_when_shared(s, input, after.manager, after.action);
}

/// Handling faults and cloning keep every guest's view: whatever the manager is handed, each
/// VM goes on finding in each page what it found there before, a new child finds what its
/// parent finds, and a new VM without a parent finds zeroes.
pub proof fn lemma_step_keeps_views(w: World, input: Input, after: World)
    requires
        sound(w),
        manager_step(w, input, after),
        harmless(w, input, after),
    ensures
        sound(after),
        same_views(w, after),
        (w.manager.awaiting, input) matches (Awaiting::Protection(vm), Input::Done) ==> forall|k: int|
            #![trigger reads(after, vm.vm_idx, k)]
            0 <= k < after.manager.sources[vm.vm_idx].len() ==> reads(after, vm.vm_idx, k) == reads(
                w,
                vm.source_vm_idx->0,
                k,
            ),
        (w.manager.awaiting, input) matches (
            Awaiting::Message,
            Input::Message(UffdMessage::AddVm(vm)),
        ) ==> vm.source_vm_idx is None ==> forall|k: int|
            #![trigger reads(after, vm.vm_idx, k)]
            0 <= k < after.manager.sources[vm.vm_idx].len() ==> reads(after, vm.vm_idx, k)
                == zero_page(),
{
    lemma_step_keeps_wf(w.manager, input, after.manager, after.action);
    match (w.manager.awaiting, input) {
        (Awaiting::Message, Input::Message(UffdMessage::AddVm(vm))) => {
            if vm.source_vm_idx is None {
                lemma_added(w, after, vm);
            } else {
                lemma_unchanged(w, after);
            }
        },
        (Awaiting::Message, Input::Message(UffdMessage::UffdEvent { vm_idx, event })) => {
            lemma_fault(w, input, after, vm_idx, event);
        },
        (Awaiting::Protection(vm), Input::Done) => {
            lemma_added(w, after, vm);
        },
        (Awaiting::Filling { vm_idx, page_idx }, Input::Transferred(bytes)) => {
            lemma_filled(w, input, after, vm_idx, page_idx, bytes);
        },
        (Awaiting::Copying(sharing), Input::Transferred(bytes)) => {
            lemma_copied(w, input, after, sharing, bytes);
        },
        (Awaiting::Unprotection, Input::Done) => {
            lemma_unchanged(w, after);
        },
        _ => {
            lemma_unchanged(w, after);
        },
    }
}

/// Faults are resolved: a page that a guest waits for is present when the guest is woken or the
/// page was filled, and a page that a guest writes to is no longer protected at the end.
pub proof fn lemma_faults_are_resolved(w: World, input: Input, after: World)
    requires
        sound(w),
        manager_step(w, input, after),
    ensures
        match w.manager.awaiting {
            Awaiting::Filling { vm_idx, page_idx } => after.memory.present(vm_idx, page_idx as int),
            Awaiting::Waking => w.action matches Action::Wake { vm_idx, page_idx, .. }
                && after.memory.present(vm_idx, page_idx as int),
            Awaiting::Unprotection => w.action matches Action::RemoveWriteProtection {
                vm_idx,
                address,
                ..
            } && !after.memory.protected.contains(
                (vm_idx, page_in(w.manager.vms[vm_idx].uffd_address, address)),
            ),
            _ => true,
        },
{
    match w.manager.awaiting {
        Awaiting::Filling { vm_idx, page_idx } => {
            assert(in_range((vm_idx, page_idx as int), vm_idx, page_idx as int, 1));
        },
        Awaiting::Waking => {
            if let Action::Wake { vm_idx, page_idx, .. } = w.action {
                assert(w.manager.sources[vm_idx][page_idx as int] == VmBackend::Vm(vm_idx));
            }
        },
        _ => {},
    }
}

/// A guest that writes to a page without a fault changes that page of its own view and
/// nothing else: no other VM notices.
pub proof fn lemma_write_is_private(w: World, vm_idx: u16, page_idx: int, contents: Seq<u8>)
    requires
        sound(w),
        w.manager.vms.contains_key(vm_idx),
        w.memory.writable(vm_idx, page_idx),
    ensures
        ({
            let after = World { memory: w.memory.write(vm_idx, page_idx, contents), ..w };
            &&& sound(after)
            &&& reads(after, vm_idx, page_idx) == contents
            &&& forall|v: u16, k: int|
                #![trigger reads(after, v, k)]
                w.manager.sources.contains_key(v) && 0 <= k < w.manager.sources[v].len() && (v, k)
                    != (vm_idx, page_idx) ==> reads(after, v, k) == reads(w, v, k)
        }),
{
    let after = World { memory: w.memory.write(vm_idx, page_idx, contents), ..w };
    let s = w.manager;
    let m = w.memory;
    assert forall|v: u16, k: int|
        #![trigger after.memory.present(v, k)]
        after.memory.present(v, k) == m.present(v, k) by {}
    assert(tables_hold(s, after.memory)) by {
        assert forall|v: u16, k: int|
            #![trigger s.sources[v][k]]
            after.memory.present(v, k) == m.present(v, k) by {}
    }
    assert forall|v: u16, k: int|
        #![trigger reads(after, v, k)]
        s.sources.contains_key(v) && 0 <= k < s.sources[v].len() && (v, k) != (
            vm_idx,
            page_idx,
        ) implies reads(after, v, k) == reads(w, v, k) by {
        assert(after.memory.present(v, k) == m.present(v, k));
        let _ = s.sources[v][k];
        if !m.present(v, k) {
            if let VmBackend::Vm(p) = s.sources[v][k] {
                if p == vm_idx && k == page_idx {
                    assert(takes_from(s.sources, v, p, k));
                }
            }
        }
    }
}

/// A manager that tracks no VM is in order, whatever memory there is.
pub proof fn lemma_start_is_sound(w: World)
    requires
        w.manager == (State {
            vms: Map::empty(),
            sources: Map::empty(),
            awaiting: Awaiting::Message,
        }),
        w.action == Action::Receive,
    ensures
        sound(w),
{
}

/// From one world to the next: a harmless step of the manager, or a write that goes through
/// anywhere but in this page of `child`.
pub open spec fn follows(w: World, after: World, child: u16, page_idx: int) -> bool {
    ||| exists|input: Input| #[trigger]
        manager_step(w, input, after) && harmless(w, input, after)
    ||| other_write(w, after, child, page_idx)
}

/// A guest wrote to a page, other than this one of `child`.
pub open spec fn other_write(w: World, after: World, child: u16, page_idx: int) -> bool {
    exists|v: u16, k: int, contents: Seq<u8>|
        {
            &&& (v, k) != (child, page_idx)
            &&& w.manager.vms.contains_key(v)
            &&& w.memory.writable(v, k)
            &&& after == (World { memory: #[trigger] w.memory.write(v, k, contents), ..w })
        }
}

proof fn lemma_other_write(w: World, after: World, child: u16, page_idx: int)
    requires
        sound(w),
        w.manager.vms.contains_key(child),
        0 <= page_idx < w.manager.sources[child].len(),
        other_write(w, after, child, page_idx),
    ensures
        sound(after),
        after.manager == w.manager,
        reads(after, child, page_idx) == reads(w, child, page_idx),
{
    let (v, k, contents) = choose|v: u16, k: int, contents: Seq<u8>|
        {
            &&& (v, k) != (child, page_idx)
            &&& w.manager.vms.contains_key(v)
            &&& w.memory.writable(v, k)
            &&& after == (World { memory: #[trigger] w.memory.write(v, k, contents), ..w })
        };
    lemma_write_is_private(w, v, k, contents);
}

/// The tables of the tracked VMs keep their length.
proof fn lemma_tables_stay(w: World, input: Input, after: World)
    requires
        w.manager.wf(),
        manager_step(w, input, after),
        harmless(w, input, after),
    ensures
        forall|v: u16| #[trigger]
            w.manager.vms.contains_key(v) ==> {
                &&& after.manager.vms.contains_key(v)
                &&& after.manager.sources[v].len() == w.manager.sources[v].len()
            },
{
}

/// Snapshots last: however many faults are handled, VMs are added and guests write, a VM goes on
/// finding in a page that it does not write itself what it found there at the start.
pub proof fn lemma_view_lasts(trace: Seq<World>, child: u16, page_idx: int)
    requires
        trace.len() > 0,
        sound(trace[0]),
        trace[0].manager.vms.contains_key(child),
        0 <= page_idx < trace[0].manager.sources[child].len(),
        forall|i: int|
            #![trigger trace[i]]
            0 <= i < trace.len() - 1 ==> follows(trace[i], trace[i + 1], child, page_idx),
    ensures
        sound(trace.last()),
        trace.last().manager.vms.contains_key(child),
        trace.last().manager.sources[child].len() == trace[0].manager.sources[child].len(),
        reads(trace.last(), child, page_idx) == reads(trace[0], child, page_idx),
    decreases trace.len(),
{
    if trace.len() > 1 {
        let front = trace.drop_last();
        assert forall|i: int|
            #![trigger front[i]]
            0 <= i < front.len() - 1 implies follows(front[i], front[i + 1], child, page_idx) by {
            assert(front[i] == trace[i]);
            assert(front[i + 1] == trace[i + 1]);
        }
        lemma_view_lasts(front, child, page_idx);
        let w = front.last();
        let after = trace.last();
        assert(w == trace[trace.len() - 2]);
        assert(follows(w, after, child, page_idx));
        if other_write(w, after, child, page_idx) {
            lemma_other_write(w, after, child, page_idx);
        } else {
            let input = choose|input: Input| #[trigger]
                manager_step(w, input, after) && harmless(w, input, after);
            lemma_step_keeps_views(w, input, after);
            lemma_tables_stay(w, input, after);
            assert(reads(after, child, page_idx) == reads(w, child, page_idx));
        }
    }
}

/// `parent` and `child` are the only VMs, and none is being added.
pub open spec fn only_pair(s: State, parent: u16, child: u16) -> bool {
    &&& forall|v: u16| #[trigger] s.vms.contains_key(v) ==> v == parent || v == child
    &&& !(s.awaiting is Protection)
}

/// With two VMs every step but the adding of a VM is harmless.
pub proof fn lemma_pair_is_harmless(
    w: World,
    input: Input,
    after: World,
    parent: u16,
    child: u16,
)
    requires
        sound(w),
        only_pair(w.manager, parent, child),
        manager_step(w, input, after),
        !(input matches Input::Message(UffdMessage::AddVm(_))),
    ensures
        harmless(w, input, after),
        only_pair(after.manager, parent, child),
        after.manager.vms == w.manager.vms,
{
    lemma_step_keeps_wf(w.manager, input, after.manager, after.action);
    if let Awaiting::Copying(sharing) = w.manager.awaiting {
        assert forall|c: u16, j: int| #[trigger]
            takes_from(
                after.manager.sources,
                c,
                sharing.vm_idx,
                j,
            ) implies sharing.children.contains(c) by {
            assert(after.manager.vms.contains_key(c));
            assert(w.manager.vms.contains_key(sharing.children[sharing.next]));
        }
    }
}

/// From one world to the next, without a VM being added: a step of the manager, or a write that
/// goes through anywhere but in this page of `child`.
pub open spec fn goes_on(w: World, after: World, child: u16, page_idx: int) -> bool {
    ||| exists|input: Input| #[trigger]
        manager_step(w, input, after) && !(input matches Input::Message(UffdMessage::AddVm(_)))
    ||| other_write(w, after, child, page_idx)
}

/// A child is isolated from its parent: as long as no other VM is added, whatever faults are
/// handled, whatever the parent writes and whatever the child writes elsewhere, the child finds
/// in a page that it does not write what it found there when it was cloned.
pub proof fn lemma_child_is_isolated(trace: Seq<World>, parent: u16, child: u16, page_idx: int)
    requires
        trace.len() > 0,
        sound(trace[0]),
        only_pair(trace[0].manager, parent, child),
        trace[0].manager.vms.contains_key(child),
        0 <= page_idx < trace[0].manager.sources[child].len(),
        forall|i: int|
            #![trigger trace[i]]
            0 <= i < trace.len() - 1 ==> goes_on(trace[i], trace[i + 1], child, page_idx),
    ensures
        sound(trace.last()),
        only_pair(trace.last().manager, parent, child),
        trace.last().manager.vms == trace[0].manager.vms,
        trace.last().manager.sources[child].len() == trace[0].manager.sources[child].len(),
        reads(trace.last(), child, page_idx) == reads(trace[0], child, page_idx),
    decreases trace.len(),
{
    if trace.len() > 1 {
        let front = trace.drop_last();
        assert forall|i: int|
            #![trigger front[i]]
            0 <= i < front.len() - 1 implies goes_on(front[i], front[i + 1], child, page_idx) by {
            assert(front[i] == trace[i]);
            assert(front[i + 1] == trace[i + 1]);
        }
        lemma_child_is_isolated(front, parent, child, page_idx);
        let w = front.last();
        let after = trace.last();
        assert(w == trace[trace.len() - 2]);
        assert(goes_on(w, after, child, page_idx));
        if other_write(w, after, child, page_idx) {
            lemma_other_write(w, after, child, page_idx);
        } else {
            let input = choose|input: Input| #[trigger]
                manager_step(w, input, after) && !(input matches Input::Message(
                    UffdMessage::AddVm(_),
                ));
            lemma_pair_is_harmless(w, input, after, parent, child);
            lemma_step_keeps_views(w, input, after);
            lemma_tables_stay(w, input, after);
            assert(reads(after, child, page_idx) == reads(w, child, page_idx));
        }
    }
}

/// What the only child of the only VM reads is from before the parent's changes: in a page that
/// it did not write itself it finds, at any later time, what the parent found when the child was
/// cloned.
pub proof fn lemma_child_reads_the_past(
    w: World,
    trace: Seq<World>,
    parent: u16,
    vm: Vm,
    page_idx: int,
)
    requires
        sound(w),
        w.manager.awaiting == Awaiting::Protection(vm),
        vm.source_vm_idx == Some(parent),
        vm.vm_idx != parent,
        forall|v: u16| #[trigger] w.manager.vms.contains_key(v) ==> v == parent,
        forall|k: int| !#[trigger] w.memory.present(vm.vm_idx, k),
        0 <= page_idx < w.manager.sources[parent].len(),
        trace.len() > 0,
        manager_step(w, Input::Done, trace[0]),
        forall|i: int|
            #![trigger trace[i]]
            0 <= i < trace.len() - 1 ==> goes_on(trace[i], trace[i + 1], vm.vm_idx, page_idx),
    ensures
        trace.last().manager.sources[vm.vm_idx].len() == w.manager.sources[parent].len(),
        reads(trace.last(), vm.vm_idx, page_idx) == reads(w, parent, page_idx),
{
    lemma_step_keeps_views(w, Input::Done, trace[0]);
    lemma_child_is_isolated(trace, parent, vm.vm_idx, page_idx);
}

/// The manager never asks for the impossible: every page that it wants filled is absent, and
/// every page that it wants copied is present where it is copied from. With tables that fit the
/// memory, what it asks for can be performed.
pub proof fn lemma_requests_are_possible(w: World)
    requires
        sound(w),
    ensures
        w.action matches Action::ZeroPages { vm_idx, address, len, .. } ==> w.memory.absent(
            vm_idx,
            page_in(w.manager.vms[vm_idx].uffd_address, address),
            len as int / PAGE_SIZE as int,
        ),
        w.action matches Action::CopyPages {
            vm_idx,
            source_vm_idx,
            source_address,
            address,
            len,
            ..
        } ==> {
            let source_first = page_in(
                w.manager.vms[source_vm_idx].memfd_address,
                source_address,
            );
            &&& w.memory.absent(
                vm_idx,
                page_in(w.manager.vms[vm_idx].uffd_address, address),
                len as int / PAGE_SIZE as int,
            )
            &&& forall|j: int|
                source_first <= j < source_first + len as int / PAGE_SIZE as int
                    ==> #[trigger] w.memory.present(source_vm_idx, j)
        },
        crate::laws::tables_fit(w.manager) ==> exists|input: Input, after: Memory|
            performed(w, input, after),
{
    let s = w.manager;
    let m = w.memory;
    let limit = MAX_PAGES_RW as nat;
    match w.action {
        Action::ZeroPages { vm_idx, address, len, .. } => {
            let first = page_in(s.vms[vm_idx].uffd_address, address);
            let table = s.sources[vm_idx];
            let count = len as int / PAGE_SIZE as int;
            lemma_run_of(table, first, table[first], limit);
            assert forall|j: int| first <= j < first + count implies !#[trigger] m.present(
                vm_idx,
                j,
            ) by {
                assert(table[j] == table[first]);
            }
            let after = m.fill(vm_idx, first, count, |j: int| zero_page());
            if crate::laws::tables_fit(s) {
                assert(s.vms.contains_key(vm_idx));
                assert(performed(w, Input::Transferred(len), after));
            }
        },
        Action::CopyPages { vm_idx, source_vm_idx, source_address, address, len, .. } => {
            let first = page_in(s.vms[vm_idx].uffd_address, address);
            let source_first = page_in(s.vms[source_vm_idx].memfd_address, source_address);
            let table = s.sources[vm_idx];
            let source_table = s.sources[source_vm_idx];
            let count = len as int / PAGE_SIZE as int;
            lemma_run_of(table, first, table[first], limit);
            lemma_run_of(source_table, first, source_table[first], limit);
            let _ = s.sources[vm_idx][first];
            assert forall|j: int| first <= j < first + count implies !#[trigger] m.present(
                vm_idx,
                j,
            ) && m.present(source_vm_idx, j) by {
                assert(table[j] == table[first]);
                assert(source_table[j] == source_table[first]);
            }
            let after = m.fill(
                vm_idx,
                first,
                count,
                |j: int| m.pages[(source_vm_idx, source_first + (j - first))],
            );
            if crate::laws::tables_fit(s) {
                assert(s.vms.contains_key(vm_idx));
                assert(performed(w, Input::Transferred(len), after));
            }
        },
        Action::WriteProtect { vm_idx, address, size } => {
            let after = m.protect(
                vm_idx,
                page_in(s.vms[vm_idx].uffd_address, address),
                (size / PAGE_SIZE) as int,
            );
            assert(performed(w, Input::Done, after));
        },
        Action::RemoveWriteProtection { vm_idx, address, len, .. } => {
            let after = m.unprotect(
                vm_idx,
                page_in(s.vms[vm_idx].uffd_address, address),
                len as int / PAGE_SIZE as int,
            );
            assert(performed(w, Input::Done, after));
        },
        Action::Receive => {
            let event = UffdEvent {
                address: 0,
                kind: FaultKind::Missing,
                rw: ReadWrite::Read,
            };
            let message = UffdMessage::UffdEvent { vm_idx: 0, event };
            assert(performed(w, Input::Message(message), m));
        },
        _ => {
            assert(performed(w, Input::Done, m));
        },
    }
}

} // verus!
