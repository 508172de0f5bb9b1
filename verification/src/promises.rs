//! What the manager promises of each message and each outcome, told in addresses, pages and
//! bytes: which inputs are accepted, what is asked of the kernel, and what the tables say
//! afterwards.

use vstd::prelude::*;

use crate::backend::{lemma_run_of, VmBackend};
use crate::event::{Action, FaultKind, Input, ReadWrite, UffdEvent, UffdMessage, Vm};
use crate::laws::{lemma_child_served, lemma_listed, lemma_step_keeps_wf};
use crate::state::{takes_from, Awaiting, Refusal, Sharing, State};

verus! {

/// `bytes` are whole pages, from `first` on, that have one source in the table; no more than
/// 1024 of them, and no fewer than there are.
pub open spec fn spans_one_source(table: Seq<VmBackend>, first: int, bytes: int) -> bool {
    let end = first + bytes / 4096;
    &&& bytes % 4096 == 0
    &&& 4096 <= bytes <= 1024 * 4096
    &&& end <= table.len()
    &&& forall|j: int| first <= j < end ==> #[trigger] table[j] == table[first]
    &&& bytes == 1024 * 4096 || end == table.len() || table[end] != table[first]
}

/// `bytes` are whole pages, from `first` on, that have one source in each of two tables; no more
/// than 1024 of them, and no fewer than there are.
pub open spec fn spans_one_source_in_both(
    a: Seq<VmBackend>,
    b: Seq<VmBackend>,
    first: int,
    bytes: int,
) -> bool {
    let end = first + bytes / 4096;
    &&& bytes % 4096 == 0
    &&& 4096 <= bytes <= 1024 * 4096
    &&& end <= a.len()
    &&& end <= b.len()
    &&& forall|j: int| first <= j < end ==> #[trigger] a[j] == a[first]
    &&& forall|j: int| first <= j < end ==> #[trigger] b[j] == b[first]
    &&& {
        ||| bytes == 1024 * 4096
        ||| end == a.len()
        ||| end == b.len()
        ||| a[end] != a[first]
        ||| b[end] != b[first]
    }
}

/// Between two messages a state is consistent exactly if each tracked VM has a table and no other
/// index has one, each VM is tracked under its own index, and the tables name tracked VMs only.
pub proof fn lemma_consistent_between_messages(s: State)
    requires
        s.awaiting is Message,
    ensures
        s.wf() <==> {
            &&& forall|i: u16| #[trigger] s.vms.contains_key(i) <==> s.sources.contains_key(i)
            &&& forall|i: u16| #[trigger] s.vms.contains_key(i) ==> s.vms[i].vm_idx == i
            &&& forall|i: u16, k: int|
                s.sources.contains_key(i) && 0 <= k < s.sources[i].len() ==> (
                #[trigger] s.sources[i][k] matches VmBackend::Vm(p) ==> s.vms.contains_key(p))
        },
{
    if forall|i: u16| #[trigger] s.vms.contains_key(i) <==> s.sources.contains_key(i) {
        assert(s.vms.dom() =~= s.sources.dom());
    }
    if s.wf() {
        assert forall|i: u16| #[trigger]
            s.vms.contains_key(i) <==> s.sources.contains_key(i) by {
            assert(s.vms.dom().contains(i) == s.sources.dom().contains(i));
        }
    }
}

/// A VM with a parent is accepted exactly if the parent is tracked, whatever its size; one without
/// a parent exactly if the pages of its memory can be counted.
pub proof fn lemma_accepts_vm(s: State, vm: Vm)
    requires
        s.awaiting is Message,
    ensures
        match vm.source_vm_idx {
            Some(parent) => {
                &&& s.vms.contains_key(parent) ==> s.refusal(
                    Input::Message(UffdMessage::AddVm(vm)),
                ) is None
                &&& !s.vms.contains_key(parent) ==> s.refusal(
                    Input::Message(UffdMessage::AddVm(vm)),
                ) == Some(Refusal::ParentVmNotFound)
            },
            None => {
                &&& vm.memfd_size / 4096 <= usize::MAX ==> s.refusal(
                    Input::Message(UffdMessage::AddVm(vm)),
                ) is None
                &&& vm.memfd_size / 4096 > usize::MAX ==> s.refusal(
                    Input::Message(UffdMessage::AddVm(vm)),
                ) == Some(Refusal::TableTooLarge)
            },
        },
{
}

/// A fault of an untracked VM, below the memory of the VM or beyond its table is refused.
pub proof fn lemma_refuses_stray_fault(s: State, vm_idx: u16, event: UffdEvent)
    requires
        s.awaiting is Message,
    ensures
        ({
            let refusal = s.refusal(Input::Message(UffdMessage::UffdEvent { vm_idx, event }));
            let base = s.vms[vm_idx].uffd_address;
            &&& !s.vms.contains_key(vm_idx) ==> refusal == Some(Refusal::VmNotFound)
            &&& s.vms.contains_key(vm_idx) && event.address < base ==> refusal == Some(
                Refusal::AddressBelowVm,
            )
            &&& s.vms.contains_key(vm_idx) && event.address >= base && (event.address - base) / 4096
                >= s.sources[vm_idx].len() ==> refusal == Some(Refusal::PageOutOfRange)
        }),
{
}

/// A fault that reads, or that is on a missing page, is accepted on every page of the table that
/// was never filled or that the VM owns; where another VM holds the page, exactly if that VM's
/// table reaches so far and both addresses of the copy exist.
pub proof fn lemma_accepts_missing_fault(s: State, vm_idx: u16, event: UffdEvent)
    requires
        s.awaiting is Message,
        s.vms.contains_key(vm_idx),
        event.rw == ReadWrite::Read || event.kind == FaultKind::Missing,
        event.address >= s.vms[vm_idx].uffd_address,
        (event.address - s.vms[vm_idx].uffd_address) / 4096 < s.sources[vm_idx].len(),
    ensures
        ({
            let refusal = s.refusal(Input::Message(UffdMessage::UffdEvent { vm_idx, event }));
            let page = (event.address - s.vms[vm_idx].uffd_address) / 4096;
            match s.sources[vm_idx][page] {
                VmBackend::Zero => refusal is None,
                VmBackend::Vm(source) => {
                    let reaches = page < s.sources[source].len();
                    let exists_there = s.vms[source].memfd_address + page * 4096 <= u64::MAX;
                    &&& source == vm_idx ==> refusal is None
                    &&& source != vm_idx && !reaches ==> refusal == Some(
                        Refusal::OtherPageOutOfRange,
                    )
                    &&& source != vm_idx && reaches && !exists_there ==> refusal == Some(
                        Refusal::AddressOverflow,
                    )
                    &&& source != vm_idx && reaches && exists_there ==> refusal is None
                },
            }
        }),
{
}

/// A write to a protected page is accepted exactly if the tables of all other VMs reach so far
/// and, for each of them that takes the page from the writing VM, both addresses of the copy
/// exist.
pub proof fn lemma_accepts_write_fault(s: State, vm_idx: u16, event: UffdEvent)
    requires
        s.awaiting is Message,
        s.vms.contains_key(vm_idx),
        event.rw == ReadWrite::Write,
        event.kind == FaultKind::WriteProtected,
        event.address >= s.vms[vm_idx].uffd_address,
        (event.address - s.vms[vm_idx].uffd_address) / 4096 < s.sources[vm_idx].len(),
    ensures
        ({
            let refusal = s.refusal(Input::Message(UffdMessage::UffdEvent { vm_idx, event }));
            let page = (event.address - s.vms[vm_idx].uffd_address) / 4096;
            let reach = forall|c: u16| #[trigger]
                s.sources.contains_key(c) && c != vm_idx ==> page < s.sources[c].len();
            let exist = forall|c: u16| #[trigger]
                s.sources.contains_key(c) && c != vm_idx && page < s.sources[c].len()
                    && s.sources[c][page] == VmBackend::Vm(vm_idx) ==> s.vms[vm_idx].memfd_address
                    + page * 4096 <= u64::MAX && s.vms[c].uffd_address + page * 4096 <= u64::MAX;
            &&& !reach ==> refusal == Some(Refusal::OtherPageOutOfRange)
            &&& reach && !exist ==> refusal == Some(Refusal::AddressOverflow)
            &&& reach && exist ==> refusal is None
        }),
{
    let page = (event.address - s.vms[vm_idx].uffd_address) / 4096;
    assert forall|c: u16|
        takes_from(s.sources, c, vm_idx, page) == (#[trigger] s.sources.contains_key(c)
            && c != vm_idx && page < s.sources[c].len() && s.sources[c][page] == VmBackend::Vm(
            vm_idx,
        )) by {}
}

/// While an outcome is awaited no message is accepted, a call without a result is answered by
/// `Done` only and a fill by `Transferred` only, up to the end of the table that is filled.
pub proof fn lemma_accepts_outcome(s: State, message: UffdMessage, bytes: usize)
    ensures
        s.awaiting is Message ==> {
            &&& s.refusal(Input::Done) == Some(Refusal::Unexpected)
            &&& s.refusal(Input::Transferred(bytes)) == Some(Refusal::Unexpected)
        },
        !(s.awaiting is Message) ==> s.refusal(Input::Message(message)) == Some(
            Refusal::Unexpected,
        ),
        s.awaiting is Protection || s.awaiting is Signal || s.awaiting is Waking
            || s.awaiting is Unprotection ==> {
            &&& s.refusal(Input::Done) is None
            &&& s.refusal(Input::Transferred(bytes)) == Some(Refusal::Unexpected)
        },
        s.awaiting matches Awaiting::Filling { vm_idx, page_idx } ==> {
            let fits = page_idx + bytes as int / 4096 <= s.sources[vm_idx].len();
            &&& s.refusal(Input::Done) == Some(Refusal::Unexpected)
            &&& fits ==> s.refusal(Input::Transferred(bytes)) is None
            &&& !fits ==> s.refusal(Input::Transferred(bytes)) == Some(Refusal::TransferTooLong)
        },
        s.awaiting matches Awaiting::Copying(sharing) ==> {
            let child = sharing.children[sharing.next];
            let fits = sharing.page_idx + bytes as int / 4096 <= s.sources[child].len()
                && sharing.page_idx < s.sources[child].len();
            &&& s.refusal(Input::Done) == Some(Refusal::Unexpected)
            &&& fits ==> s.refusal(Input::Transferred(bytes)) is None
            &&& !fits ==> s.refusal(Input::Transferred(bytes)) == Some(Refusal::TransferTooLong)
        },
{
}

/// A VM without a parent is tracked at once, with one entry for each page of its memory, none of
/// them ever filled; no other VM is touched.
pub proof fn lemma_new_vm_is_all_zero(pre: State, vm: Vm, post: State, action: Action)
    requires
        pre.awaiting is Message,
        vm.source_vm_idx is None,
        pre.step(Input::Message(UffdMessage::AddVm(vm)), post, action),
    ensures
        action == (Action::Ready { vm_idx: vm.vm_idx }),
        post.awaiting is Signal,
        post.vms == pre.vms.insert(vm.vm_idx, vm),
        post.sources.dom() == pre.sources.dom().insert(vm.vm_idx),
        post.sources[vm.vm_idx].len() == vm.memfd_size / 4096,
        forall|k: int|
            0 <= k < vm.memfd_size / 4096 ==> #[trigger] post.sources[vm.vm_idx][k]
                == VmBackend::Zero,
        forall|v: u16| v != vm.vm_idx ==> #[trigger] post.sources[v] == pre.sources[v],
{
}

/// Every page of a VM without a parent can be faulted on: once it is added and its sender told, a
/// missing fault at any address of its pages is accepted, and answered by zeroing.
pub proof fn lemma_new_vm_serves_every_page(
    pre: State,
    vm: Vm,
    added: State,
    ready: Action,
    idle: State,
    receive: Action,
    event: UffdEvent,
    post: State,
    action: Action,
)
    requires
        pre.awaiting is Message,
        vm.source_vm_idx is None,
        pre.step(Input::Message(UffdMessage::AddVm(vm)), added, ready),
        added.step(Input::Done, idle, receive),
        event.rw == ReadWrite::Read || event.kind == FaultKind::Missing,
        vm.uffd_address <= event.address,
        (event.address - vm.uffd_address) / 4096 < vm.memfd_size / 4096,
        idle.step(
            Input::Message(UffdMessage::UffdEvent { vm_idx: vm.vm_idx, event }),
            post,
            action,
        ),
    ensures
        receive == Action::Receive,
        idle.accepts(Input::Message(UffdMessage::UffdEvent { vm_idx: vm.vm_idx, event })),
        action is ZeroPages,
{
    lemma_new_vm_is_all_zero(pre, vm, added, ready);
    lemma_accepts_missing_fault(idle, vm.vm_idx, event);
}

/// A VM with a parent: first the whole memory of the parent is write-protected, and nothing else
/// changes.
pub proof fn lemma_clone_protects_parent(
    pre: State,
    vm: Vm,
    parent: u16,
    post: State,
    action: Action,
)
    requires
        pre.awaiting is Message,
        vm.source_vm_idx == Some(parent),
        pre.step(Input::Message(UffdMessage::AddVm(vm)), post, action),
    ensures
        action == (Action::WriteProtect {
            vm_idx: parent,
            address: pre.vms[parent].uffd_address,
            size: pre.vms[parent].memfd_size,
        }),
        post.awaiting == Awaiting::Protection(vm),
        post.vms == pre.vms,
        post.sources == pre.sources,
{
}

/// Once the parent is protected the clone is tracked with the sources that the parent has, and its
/// sender is told; no other VM is touched.
pub proof fn lemma_clone_is_tracked(pre: State, vm: Vm, parent: u16, post: State, action: Action)
    requires
        pre.awaiting == Awaiting::Protection(vm),
        vm.source_vm_idx == Some(parent),
        pre.step(Input::Done, post, action),
    ensures
        action == (Action::Ready { vm_idx: vm.vm_idx }),
        post.awaiting is Signal,
        post.vms == pre.vms.insert(vm.vm_idx, vm),
        post.sources == pre.sources.insert(vm.vm_idx, pre.sources[parent]),
{
}

/// Once a sender was told, a process woken or a protection removed, the next message is waited
/// for, and nothing changes.
pub proof fn lemma_done_waits_for_message(pre: State, post: State, action: Action)
    requires
        pre.awaiting is Signal || pre.awaiting is Waking || pre.awaiting is Unprotection,
        pre.step(Input::Done, post, action),
    ensures
        action == Action::Receive,
        post.awaiting is Message,
        post.vms == pre.vms,
        post.sources == pre.sources,
{
}

/// A fault that reads, or that is on a missing page, is answered for the page that it is on. What
/// the VM owns needs its process woken only. What was never filled is zeroed, from this page on as
/// far as nothing else is in the table. What another VM holds is copied from that VM to the same
/// page of this one, with the pages after it that have one source in both tables. In each case the
/// process is woken, and the tables stay until the outcome is known.
pub proof fn lemma_missing_fault_is_answered(
    pre: State,
    vm_idx: u16,
    event: UffdEvent,
    post: State,
    action: Action,
)
    requires
        pre.wf(),
        pre.awaiting is Message,
        event.rw == ReadWrite::Read || event.kind == FaultKind::Missing,
        pre.accepts(Input::Message(UffdMessage::UffdEvent { vm_idx, event })),
        pre.step(Input::Message(UffdMessage::UffdEvent { vm_idx, event }), post, action),
    ensures
        post.vms == pre.vms,
        post.sources == pre.sources,
        ({
            let vm = pre.vms[vm_idx];
            let page = (event.address - vm.uffd_address) / 4096;
            let table = pre.sources[vm_idx];
            match table[page] {
                VmBackend::Zero => {
                    &&& post.awaiting matches Awaiting::Filling { vm_idx: v, page_idx }
                    &&& v == vm_idx && page_idx == page
                    &&& action matches Action::ZeroPages {
                        vm_idx: to,
                        page_idx: first,
                        address,
                        len,
                        wake,
                    }
                    &&& to == vm_idx && first == page && address == event.address && wake
                    &&& spans_one_source(table, page, len as int)
                },
                VmBackend::Vm(source) => if source == vm_idx {
                    &&& post.awaiting is Waking
                    &&& action matches Action::Wake { vm_idx: to, page_idx: first, address, len }
                    &&& to == vm_idx && first == page && address == event.address && len == 4096
                } else {
                    &&& post.awaiting matches Awaiting::Filling { vm_idx: v, page_idx }
                    &&& v == vm_idx && page_idx == page
                    &&& action matches Action::CopyPages {
                        vm_idx: to,
                        source_vm_idx,
                        page_idx: first,
                        source_address,
                        address,
                        len,
                        wake,
                        write_protect,
                    }
                    &&& to == vm_idx && source_vm_idx == source && first == page
                    &&& source_address == pre.vms[source].memfd_address + page * 4096
                    &&& address == vm.uffd_address + page * 4096
                    &&& wake && !write_protect
                    &&& spans_one_source_in_both(table, pre.sources[source], page, len as int)
                },
            }
        }),
{
    let page = (event.address - pre.vms[vm_idx].uffd_address) / 4096;
    let table = pre.sources[vm_idx];
    lemma_run_of(table, page, table[page], 1024);
    if let VmBackend::Vm(source) = table[page] {
        let other = pre.sources[source];
        if source != vm_idx {
            lemma_run_of(other, page, other[page], 1024);
        }
    }
}

/// What was filled after a fault becomes the VM's own, page by page from the one that faulted;
/// every other entry of every table stays, and the next message is waited for.
pub proof fn lemma_filled_pages_become_own(
    pre: State,
    vm_idx: u16,
    page_idx: u64,
    bytes: usize,
    post: State,
    action: Action,
)
    requires
        pre.wf(),
        pre.awaiting == (Awaiting::Filling { vm_idx, page_idx }),
        pre.step(Input::Transferred(bytes), post, action),
    ensures
        action == Action::Receive,
        post.awaiting is Message,
        post.vms == pre.vms,
        post.sources.dom() == pre.sources.dom(),
        forall|v: u16| #[trigger]
            pre.sources.contains_key(v) ==> post.sources[v].len() == pre.sources[v].len(),
        forall|v: u16, k: int|
            pre.sources.contains_key(v) && 0 <= k < pre.sources[v].len()
                ==> #[trigger] post.sources[v][k] == (if v == vm_idx && page_idx <= k && k - page_idx
                < bytes as int / 4096 {
                VmBackend::Vm(vm_idx)
            } else {
                pre.sources[v][k]
            }),
{
    assert(post.sources.dom() =~= pre.sources.dom());
}

/// The request that hands the page, and those after it that have one source in both tables, to a
/// child: from the writing VM to the same page of the child, without waking anyone.
pub open spec fn hands_over(s: State, from: u16, to: u16, page: int, action: Action) -> bool {
    &&& action matches Action::CopyPages {
        vm_idx,
        source_vm_idx,
        page_idx,
        source_address,
        address,
        len,
        wake,
        write_protect,
    }
    &&& vm_idx == to && source_vm_idx == from && page_idx == page
    &&& source_address == s.vms[from].memfd_address + page * 4096
    &&& address == s.vms[to].uffd_address + page * 4096
    &&& !wake && !write_protect
    &&& spans_one_source_in_both(s.sources[from], s.sources[to], page, len as int)
}

proof fn lemma_hands_over(s: State, sharing: Sharing)
    requires
        s.sharing_wf(sharing),
        s.vms.dom() =~= s.sources.dom(),
    ensures
        hands_over(
            s,
            sharing.vm_idx,
            sharing.children[sharing.next],
            sharing.page_idx as int,
            s.copy_action(
                sharing.vm_idx,
                sharing.children[sharing.next],
                sharing.page_idx,
                false,
            ),
        ),
{
    let page = sharing.page_idx as int;
    let from = s.sources[sharing.vm_idx];
    let to = s.sources[sharing.children[sharing.next]];
    lemma_run_of(from, page, from[page], 1024);
    lemma_run_of(to, page, to[page], 1024);
}

/// A write to a protected page, at whatever address: if some VM takes the page from the writing
/// VM, all such VMs are listed, each once, and the first is handed the page; if none does, the
/// protection is removed from the page at once. The tables stay until the outcome is known.
pub proof fn lemma_write_fault_is_answered(
    pre: State,
    vm_idx: u16,
    event: UffdEvent,
    post: State,
    action: Action,
)
    requires
        pre.wf(),
        pre.awaiting is Message,
        event.rw == ReadWrite::Write,
        event.kind == FaultKind::WriteProtected,
        pre.accepts(Input::Message(UffdMessage::UffdEvent { vm_idx, event })),
        pre.step(Input::Message(UffdMessage::UffdEvent { vm_idx, event }), post, action),
    ensures
        post.vms == pre.vms,
        post.sources == pre.sources,
        ({
            let page = (event.address - pre.vms[vm_idx].uffd_address) / 4096;
            let shared = exists|c: u16| #[trigger]
                pre.sources.contains_key(c) && c != vm_idx && pre.sources[c][page] == VmBackend::Vm(
                    vm_idx,
                );
            if shared {
                &&& post.awaiting matches Awaiting::Copying(s)
                &&& s.vm_idx == vm_idx && s.page_idx == page && s.address == event.address
                &&& s.next == 0 && s.least is None
                &&& forall|i: int, j: int|
                    0 <= i < j < s.children.len() ==> #[trigger] s.children[i]
                        != #[trigger] s.children[j]
                &&& forall|c: u16| #[trigger]
                    s.children.contains(c) <==> pre.sources.contains_key(c) && c != vm_idx
                        && pre.sources[c][page] == VmBackend::Vm(vm_idx)
                &&& s.children.len() > 0
                &&& hands_over(pre, vm_idx, s.children[0], page, action)
            } else {
                &&& post.awaiting is Unprotection
                &&& action matches Action::RemoveWriteProtection {
                    vm_idx: v,
                    page_idx,
                    address,
                    len,
                    wake,
                }
                &&& v == vm_idx && page_idx == page && address == event.address && len == 4096
                    && wake
            }
        }),
{
    let page = (event.address - pre.vms[vm_idx].uffd_address) / 4096;
    let s = lemma_listed(pre, vm_idx, event, post, action);
    assert forall|c: u16| #[trigger]
        s.children.contains(c) <==> pre.sources.contains_key(c) && c != vm_idx
            && pre.sources[c][page] == VmBackend::Vm(vm_idx) by {
        if pre.sources.contains_key(c) && c != vm_idx {
            assert(page < pre.sources[c].len());
        }
    }
    if s.children.len() > 0 {
        assert(s.children.contains(s.children[0]));
        assert(pre.sources.contains_key(s.children[0]));
        lemma_hands_over(pre, s);
    } else {
        assert forall|c: u16| #[trigger] pre.sources.contains_key(c) && c != vm_idx implies
            pre.sources[c][page] != VmBackend::Vm(vm_idx) by {
            assert(!s.children.contains(c));
        }
    }
}

/// What a child was handed becomes its own, the page that is about to be written in any case and
/// the pages after it as far as bytes arrived; every other entry of every table stays. Then the
/// next child on the list is handed the page or, after the last one, the protection is removed
/// from the address of the fault on, from the fewest bytes that a child received.
pub proof fn lemma_child_is_served(
    pre: State,
    s: Sharing,
    bytes: usize,
    post: State,
    action: Action,
)
    requires
        pre.wf(),
        pre.awaiting == Awaiting::Copying(s),
        pre.accepts(Input::Transferred(bytes)),
        pre.step(Input::Transferred(bytes), post, action),
    ensures
        post.vms == pre.vms,
        post.sources.dom() == pre.sources.dom(),
        forall|v: u16| #[trigger]
            pre.sources.contains_key(v) ==> post.sources[v].len() == pre.sources[v].len(),
        forall|v: u16, k: int|
            pre.sources.contains_key(v) && 0 <= k < pre.sources[v].len()
                ==> #[trigger] post.sources[v][k] == (if v == s.children[s.next] && (k == s.page_idx
                || (s.page_idx <= k && k - s.page_idx < bytes as int / 4096)) {
                VmBackend::Vm(v)
            } else {
                pre.sources[v][k]
            }),
        ({
            let fewest: int = if s.next > 0 && (s.least->0) < bytes {
                s.least->0 as int
            } else {
                bytes as int
            };
            if s.next + 1 < s.children.len() {
                &&& post.awaiting matches Awaiting::Copying(t)
                &&& t.vm_idx == s.vm_idx && t.page_idx == s.page_idx && t.address == s.address
                &&& t.children == s.children && t.next == s.next + 1
                &&& t.least matches Some(least) && least == fewest
                &&& hands_over(
                    post,
                    s.vm_idx,
                    s.children[s.next + 1],
                    s.page_idx as int,
                    action,
                )
            } else {
                &&& post.awaiting is Unprotection
                &&& action matches Action::RemoveWriteProtection {
                    vm_idx,
                    page_idx,
                    address,
                    len,
                    wake,
                }
                &&& vm_idx == s.vm_idx && page_idx == s.page_idx && address == s.address
                &&& len == fewest && wake
            }
        }),
{
    lemma_step_keeps_wf(pre, Input::Transferred(bytes), post, action);
    lemma_child_served(pre, s, bytes);
    assert(post.sources.dom() =~= pre.sources.dom());
    if s.next + 1 < s.children.len() {
        lemma_hands_over(post, post.awaiting->Copying_0);
    }
}

} // verus!
