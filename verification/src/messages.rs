//! What dealing with one whole message comes to, from the message up to the point where the next
//! one is waited for.

use vstd::prelude::*;

use crate::backend::VmBackend;
use crate::event::{Action, FaultKind, Input, ReadWrite, UffdEvent, UffdMessage, Vm};
use crate::laws::lemma_step_keeps_wf;
use crate::promises::{
    hands_over, lemma_accepts_outcome, lemma_child_is_served, lemma_clone_is_tracked,
    lemma_clone_protects_parent, lemma_done_waits_for_message, lemma_filled_pages_become_own,
    lemma_missing_fault_is_answered, lemma_new_vm_is_all_zero, lemma_write_fault_is_answered,
};
use crate::runs::{deals_with, lemma_run_keeps_wf, state_after, Taken};
use crate::snapshot::{lemma_faults_are_resolved, lemma_step_keeps_views, manager_step, sound, World};
use crate::state::{Awaiting, State};

verus! {

/// The first step of dealing with a message is taken while a message is waited for.
proof fn lemma_starts_idle(start: State, steps: Seq<Taken>, message: UffdMessage)
    requires
        deals_with(start, steps, message),
    ensures
        start.awaiting is Message,
        start.accepts(Input::Message(message)),
        start.step(Input::Message(message), steps[0].state, steps[0].action),
{
    assert(state_after(start, steps, 0) == start);
    assert(start.accepts(steps[0].input));
    lemma_accepts_outcome(start, message, 0);
}

/// Only the last step asks for the next message.
proof fn lemma_ends(steps: Seq<Taken>, i: int)
    requires
        steps.last().action == Action::Receive,
        forall|j: int|
            0 <= j < steps.len() - 1 ==> #[trigger] steps[j].action != Action::Receive,
        0 <= i < steps.len(),
    ensures
        i < steps.len() - 1 <==> steps[i].action != Action::Receive,
{
}

/// A step after the first one.
proof fn lemma_goes_on(start: State, steps: Seq<Taken>, message: UffdMessage, i: int)
    requires
        deals_with(start, steps, message),
        0 < i < steps.len(),
    ensures
        steps[i - 1].state.accepts(steps[i].input),
        steps[i - 1].state.step(steps[i].input, steps[i].state, steps[i].action),
        i < steps.len() - 1 <==> steps[i].action != Action::Receive,
{
    lemma_ends(steps, i);
    assert(state_after(start, steps, i) == steps[i - 1].state);
}

/// The answer to an action that has no result is `Done`.
proof fn lemma_only_done(s: State, input: Input)
    requires
        s.awaiting is Protection || s.awaiting is Signal || s.awaiting is Waking
            || s.awaiting is Unprotection,
        s.accepts(input),
    ensures
        input == Input::Done,
{
    match input {
        Input::Message(message) => {
            lemma_accepts_outcome(s, message, 0);
        },
        Input::Done => {},
        Input::Transferred(bytes) => {
            lemma_accepts_outcome(s, arbitrary(), bytes);
        },
    }
}

/// The answer to a fill is the number of bytes.
proof fn lemma_only_transferred(s: State, input: Input)
    requires
        s.awaiting is Filling || s.awaiting is Copying,
        s.accepts(input),
    ensures
        input is Transferred,
{
    match input {
        Input::Message(message) => {
            lemma_accepts_outcome(s, message, 0);
        },
        Input::Done => {
            lemma_accepts_outcome(s, arbitrary(), 0);
        },
        Input::Transferred(bytes) => {},
    }
}

/// Adding a VM without a parent: its sender is told, and that is all that is asked for. From then
/// on the VM has one entry for each page of its memory, none of them ever filled.
pub proof fn lemma_adding_a_vm(start: State, steps: Seq<Taken>, vm: Vm)
    requires
        vm.source_vm_idx is None,
        deals_with(start, steps, UffdMessage::AddVm(vm)),
    ensures
        steps.len() == 2,
        steps[0].action == (Action::Ready { vm_idx: vm.vm_idx }),
        steps[1].state.awaiting is Message,
        steps[1].state.vms == start.vms.insert(vm.vm_idx, vm),
        steps[1].state.sources.dom() == start.sources.dom().insert(vm.vm_idx),
        steps[1].state.sources[vm.vm_idx].len() == vm.memfd_size / 4096,
        forall|k: int|
            0 <= k < vm.memfd_size / 4096 ==> #[trigger] steps[1].state.sources[vm.vm_idx][k]
                == VmBackend::Zero,
        forall|v: u16|
            v != vm.vm_idx ==> #[trigger] steps[1].state.sources[v] == start.sources[v],
{
    let message = UffdMessage::AddVm(vm);
    lemma_starts_idle(start, steps, message);
    lemma_new_vm_is_all_zero(start, vm, steps[0].state, steps[0].action);
    assert(steps.last() == steps[steps.len() - 1]);
    lemma_goes_on(start, steps, message, 1);
    lemma_only_done(steps[0].state, steps[1].input);
    lemma_done_waits_for_message(steps[0].state, steps[1].state, steps[1].action);
}

/// Adding a VM with a parent: the whole memory of the parent is write-protected, then the sender
/// is told. From then on the VM has the sources that its parent has.
pub proof fn lemma_cloning_a_vm(start: State, steps: Seq<Taken>, vm: Vm, parent: u16)
    requires
        vm.source_vm_idx == Some(parent),
        deals_with(start, steps, UffdMessage::AddVm(vm)),
    ensures
        steps.len() == 3,
        steps[0].action == (Action::WriteProtect {
            vm_idx: parent,
            address: start.vms[parent].uffd_address,
            size: start.vms[parent].memfd_size,
        }),
        steps[1].action == (Action::Ready { vm_idx: vm.vm_idx }),
        steps[2].state.awaiting is Message,
        steps[2].state.vms == start.vms.insert(vm.vm_idx, vm),
        steps[2].state.sources == start.sources.insert(vm.vm_idx, start.sources[parent]),
{
    let message = UffdMessage::AddVm(vm);
    lemma_starts_idle(start, steps, message);
    lemma_clone_protects_parent(start, vm, parent, steps[0].state, steps[0].action);
    assert(steps.last() == steps[steps.len() - 1]);
    lemma_goes_on(start, steps, message, 1);
    lemma_only_done(steps[0].state, steps[1].input);
    lemma_clone_is_tracked(steps[0].state, vm, parent, steps[1].state, steps[1].action);
    lemma_goes_on(start, steps, message, 2);
    lemma_only_done(steps[1].state, steps[2].input);
    lemma_done_waits_for_message(steps[1].state, steps[2].state, steps[2].action);
}

/// A fault that reads, or that is on a missing page: one action is asked for, which wakes the VM
/// that faulted and, unless the VM owns the page, fills from the page of the fault on. Once a page
/// or more was filled, the page of the fault is the VM's own; what was not filled keeps its source.
pub proof fn lemma_supplying_a_page(
    start: State,
    steps: Seq<Taken>,
    vm_idx: u16,
    event: UffdEvent,
)
    requires
        start.wf(),
        event.rw == ReadWrite::Read || event.kind == FaultKind::Missing,
        deals_with(start, steps, UffdMessage::UffdEvent { vm_idx, event }),
    ensures
        steps.len() == 2,
        steps[1].state.awaiting is Message,
        steps[1].state.vms == start.vms,
        ({
            let page = (event.address - start.vms[vm_idx].uffd_address) / 4096;
            let before = start.sources;
            let after = steps[1].state.sources;
            &&& match steps[0].action {
                Action::Wake { vm_idx: to, page_idx, .. } => {
                    &&& to == vm_idx && page_idx == page
                    &&& before[vm_idx][page] == VmBackend::Vm(vm_idx)
                    &&& after == before
                },
                Action::ZeroPages { vm_idx: to, page_idx, wake, .. } => {
                    &&& to == vm_idx && page_idx == page && wake
                    &&& before[vm_idx][page] == VmBackend::Zero
                    &&& steps[1].input is Transferred
                },
                Action::CopyPages { vm_idx: to, page_idx, wake, source_vm_idx, .. } => {
                    &&& to == vm_idx && page_idx == page && wake
                    &&& source_vm_idx != vm_idx
                    &&& before[vm_idx][page] == VmBackend::Vm(source_vm_idx)
                    &&& steps[1].input is Transferred
                },
                _ => false,
            }
            &&& (steps[1].input matches Input::Transferred(bytes) ==> {
                &&& bytes >= 4096 ==> after[vm_idx][page] == VmBackend::Vm(vm_idx)
                &&& after.dom() == before.dom()
                &&& forall|v: u16, k: int|
                    before.contains_key(v) && 0 <= k < before[v].len()
                        ==> #[trigger] after[v][k] == (if v == vm_idx && page <= k && k - page
                        < bytes as int / 4096 {
                        VmBackend::Vm(vm_idx)
                    } else {
                        before[v][k]
                    })
                &&& forall|v: u16| #[trigger]
                    before.contains_key(v) ==> after[v].len() == before[v].len()
            })
        }),
{
    let message = UffdMessage::UffdEvent { vm_idx, event };
    lemma_starts_idle(start, steps, message);
    let asked = steps[0].state;
    lemma_missing_fault_is_answered(start, vm_idx, event, asked, steps[0].action);
    lemma_step_keeps_wf(start, Input::Message(message), asked, steps[0].action);
    assert(steps.last() == steps[steps.len() - 1]);
    lemma_goes_on(start, steps, message, 1);
    if asked.awaiting is Waking {
        lemma_only_done(asked, steps[1].input);
        lemma_done_waits_for_message(asked, steps[1].state, steps[1].action);
    } else {
        lemma_only_transferred(asked, steps[1].input);
        let bytes = steps[1].input->Transferred_0;
        let page_idx = asked.awaiting->Filling_page_idx;
        lemma_filled_pages_become_own(
            asked,
            vm_idx,
            page_idx,
            bytes,
            steps[1].state,
            steps[1].action,
        );
        lemma_accepts_outcome(asked, message, bytes);
    }
}

/// The page of a fault that reads, or that is on a missing page, is present once what was asked
/// for is performed.
pub proof fn lemma_fault_brings_the_page(
    w: World,
    vm_idx: u16,
    event: UffdEvent,
    asked: World,
    outcome: Input,
    after: World,
)
    requires
        sound(w),
        w.manager.awaiting is Message,
        event.rw == ReadWrite::Read || event.kind == FaultKind::Missing,
        manager_step(w, Input::Message(UffdMessage::UffdEvent { vm_idx, event }), asked),
        manager_step(asked, outcome, after),
    ensures
        after.memory.pages.contains_key(
            (vm_idx, (event.address - w.manager.vms[vm_idx].uffd_address) / 4096),
        ),
{
    let message = Input::Message(UffdMessage::UffdEvent { vm_idx, event });
    lemma_step_keeps_views(w, message, asked);
    lemma_missing_fault_is_answered(w.manager, vm_idx, event, asked.manager, asked.action);
    lemma_faults_are_resolved(asked, outcome, after);
}

/// The VMs that are handed the page, in the order in which they are.
spec fn listed(steps: Seq<Taken>) -> Seq<u16> {
    match steps[0].state.awaiting {
        Awaiting::Copying(s) => s.children,
        _ => seq![],
    }
}

/// `bytes` is the fewest that an answer from the first up to the `i`-th told of.
pub open spec fn fewest(steps: Seq<Taken>, i: int, bytes: int) -> bool {
    &&& forall|t: int|
        1 <= t <= i ==> bytes <= (#[trigger] steps[t].input)->Transferred_0
    &&& exists|t: int| 1 <= t <= i && bytes == (#[trigger] steps[t].input)->Transferred_0
}

/// The `t`-th copy went to this VM and brought it this page.
pub open spec fn brought(steps: Seq<Taken>, t: int, vm_idx: u16, page: int, k: int) -> bool {
    &&& steps[t].action matches Action::CopyPages { vm_idx: to, .. }
    &&& to == vm_idx
    &&& k == page || (page <= k && k - page < steps[t + 1].input->Transferred_0 as int / 4096)
}

/// How far a write fault is dealt with after step `i`.
spec fn progress(start: State, steps: Seq<Taken>, vm_idx: u16, event: UffdEvent, i: int) -> bool {
    let page = (event.address - start.vms[vm_idx].uffd_address) / 4096;
    let children = listed(steps);
    let now = steps[i].state;
    &&& i <= children.len()
    &&& i > 0 ==> steps[i].input is Transferred
    &&& now.vms == start.vms
    &&& now.sources.dom() == start.sources.dom()
    &&& forall|v: u16| #[trigger]
        start.sources.contains_key(v) ==> now.sources[v].len() == start.sources[v].len()
    &&& forall|v: u16, k: int|
        start.sources.contains_key(v) && 0 <= k < start.sources[v].len()
            ==> #[trigger] now.sources[v][k] == (if exists|t: int|
            0 <= t < i && #[trigger] brought(steps, t, v, page, k) {
            VmBackend::Vm(v)
        } else {
            start.sources[v][k]
        })
    &&& if i < children.len() {
        &&& now.awaiting matches Awaiting::Copying(s)
        &&& s.vm_idx == vm_idx && s.page_idx == page && s.address == event.address
        &&& s.children == children && s.next == i
        &&& i > 0 ==> s.least is Some && fewest(steps, i, s.least->0 as int)
        &&& hands_over(now, vm_idx, children[i], page, steps[i].action)
    } else {
        &&& now.awaiting is Unprotection
        &&& steps[i].action matches Action::RemoveWriteProtection {
            vm_idx: v,
            page_idx,
            address,
            len,
            wake,
        }
        &&& v == vm_idx && page_idx == page && address == event.address && wake
        &&& if i == 0 {
            len == 4096
        } else {
            fewest(steps, i, len as int)
        }
    }
}

proof fn lemma_next_child(
    start: State,
    steps: Seq<Taken>,
    vm_idx: u16,
    event: UffdEvent,
    i: int,
)
    requires
        0 < i < steps.len(),
        progress(start, steps, vm_idx, event, i - 1),
        steps[i - 1].state.wf(),
        steps[i - 1].state.accepts(steps[i].input),
        steps[i - 1].state.step(steps[i].input, steps[i].state, steps[i].action),
        steps[i].action != Action::Receive,
    ensures
        progress(start, steps, vm_idx, event, i),
{
    let page = (event.address - start.vms[vm_idx].uffd_address) / 4096;
    let now = steps[i].state;
    let pre = steps[i - 1].state;
    if pre.awaiting is Unprotection {
        lemma_only_done(pre, steps[i].input);
        lemma_done_waits_for_message(pre, now, steps[i].action);
    } else {
        let s = pre.awaiting->Copying_0;
        lemma_only_transferred(pre, steps[i].input);
        let bytes = steps[i].input->Transferred_0;
        lemma_child_is_served(pre, s, bytes, now, steps[i].action);
        assert forall|v: u16, k: int|
            start.sources.contains_key(v) && 0 <= k
                < start.sources[v].len() implies #[trigger] now.sources[v][k] == (if exists|t: int|
            0 <= t < i && #[trigger] brought(steps, t, v, page, k) {
            VmBackend::Vm(v)
        } else {
            start.sources[v][k]
        }) by {
            assert(pre.sources[v][k] == (if exists|t: int|
                0 <= t < i - 1 && #[trigger] brought(steps, t, v, page, k) {
                VmBackend::Vm(v)
            } else {
                start.sources[v][k]
            }));
            assert(pre.sources.contains_key(v));
            assert(brought(steps, i - 1, v, page, k) <==> v == s.children[s.next] && (k == page || (
            page <= k && k - page < bytes as int / 4096)));
        }
        let least: int = if s.next > 0 && (s.least->0) < bytes {
            s.least->0 as int
        } else {
            bytes as int
        };
        assert(fewest(steps, i, least)) by {
            assert(steps[i].input->Transferred_0 == bytes);
            if i > 1 {
                let t = choose|t: int|
                    1 <= t <= i - 1 && s.least->0 as int == (
                    #[trigger] steps[t].input)->Transferred_0;
                assert(steps[t].input->Transferred_0 == s.least->0);
            }
        }
    }
}

proof fn lemma_progress(
    start: State,
    steps: Seq<Taken>,
    vm_idx: u16,
    event: UffdEvent,
    i: int,
)
    requires
        start.wf(),
        event.rw == ReadWrite::Write,
        event.kind == FaultKind::WriteProtected,
        deals_with(start, steps, UffdMessage::UffdEvent { vm_idx, event }),
        0 <= i < steps.len() - 1 || i == 0,
    ensures
        progress(start, steps, vm_idx, event, i),
    decreases i,
{
    let message = UffdMessage::UffdEvent { vm_idx, event };
    if i == 0 {
        lemma_starts_idle(start, steps, message);
        lemma_write_fault_is_answered(start, vm_idx, event, steps[0].state, steps[0].action);
    } else {
        lemma_progress(start, steps, vm_idx, event, i - 1);
        lemma_goes_on(start, steps, message, i);
        lemma_run_keeps_wf(start, steps, i);
        lemma_next_child(start, steps, vm_idx, event, i);
    }
}

/// A write to a protected page, at whatever address. The page is handed to exactly those VMs that
/// take it from the writing VM, to each once, and nobody is woken by that. The last thing asked for
/// is that the protection be removed from the page of the fault, which wakes the writing VM: from as
/// many bytes as every child received, or from one page if there was no child. Each child owns what
/// it was brought; every other entry of every table stays.
pub proof fn lemma_writing_a_protected_page(
    start: State,
    steps: Seq<Taken>,
    vm_idx: u16,
    event: UffdEvent,
)
    requires
        start.wf(),
        event.rw == ReadWrite::Write,
        event.kind == FaultKind::WriteProtected,
        deals_with(start, steps, UffdMessage::UffdEvent { vm_idx, event }),
    ensures
        steps.len() >= 2,
        ({
            let page = (event.address - start.vms[vm_idx].uffd_address) / 4096;
            let copies = steps.len() - 2;
            let end = steps.last().state;
            &&& forall|t: int|
                0 <= t < copies ==> {
                    &&& #[trigger] steps[t].action matches Action::CopyPages { vm_idx: to, .. }
                    &&& hands_over(steps[t].state, vm_idx, to, page, steps[t].action)
                    &&& start.sources.contains_key(to)
                    &&& to != vm_idx
                    &&& start.sources[to][page] == VmBackend::Vm(vm_idx)
                    &&& steps[t + 1].input is Transferred
                }
            &&& forall|t: int, u: int|
                0 <= t < u < copies ==> (#[trigger] steps[t].action)->CopyPages_vm_idx != (
                #[trigger] steps[u].action)->CopyPages_vm_idx
            &&& forall|c: u16| #[trigger]
                start.sources.contains_key(c) && c != vm_idx && start.sources[c][page]
                    == VmBackend::Vm(vm_idx) ==> exists|t: int|
                    0 <= t < copies && (#[trigger] steps[t].action)->CopyPages_vm_idx == c
            &&& steps[copies].action matches Action::RemoveWriteProtection {
                vm_idx: v,
                page_idx,
                address,
                len,
                wake,
            }
            &&& v == vm_idx && page_idx == page && address == event.address && wake
            &&& copies == 0 ==> len == 4096
            &&& copies > 0 ==> fewest(steps, copies, len as int)
            &&& end.awaiting is Message
            &&& end.vms == start.vms
            &&& end.sources.dom() == start.sources.dom()
            &&& forall|v: u16| #[trigger]
                start.sources.contains_key(v) ==> end.sources[v].len() == start.sources[v].len()
            &&& forall|v: u16, k: int|
                start.sources.contains_key(v) && 0 <= k < start.sources[v].len()
                    ==> #[trigger] end.sources[v][k] == (if exists|t: int|
                    0 <= t < copies && #[trigger] brought(steps, t, v, page, k) {
                    VmBackend::Vm(v)
                } else {
                    start.sources[v][k]
                })
        }),
{
    let message = UffdMessage::UffdEvent { vm_idx, event };
    let page = (event.address - start.vms[vm_idx].uffd_address) / 4096;
    let n = steps.len() as int;
    let children = listed(steps);
    lemma_starts_idle(start, steps, message);
    lemma_write_fault_is_answered(start, vm_idx, event, steps[0].state, steps[0].action);
    assert(steps.last() == steps[n - 1]);
    assert(n >= 2);
    let last = steps[n - 2].state;
    lemma_progress(start, steps, vm_idx, event, n - 2);
    lemma_goes_on(start, steps, message, n - 1);
    lemma_run_keeps_wf(start, steps, n - 1);
    assert(state_after(start, steps, n - 1) == last);
    if last.awaiting is Copying {
        let s = last.awaiting->Copying_0;
        lemma_only_transferred(last, steps[n - 1].input);
        lemma_child_is_served(
            last,
            s,
            steps[n - 1].input->Transferred_0,
            steps[n - 1].state,
            steps[n - 1].action,
        );
        assert(false);
    }
    lemma_only_done(last, steps[n - 1].input);
    lemma_done_waits_for_message(last, steps[n - 1].state, steps[n - 1].action);
    assert(children.len() == n - 2);
    assert forall|t: int| 0 <= t < n - 2 implies {
        &&& #[trigger] steps[t].action matches Action::CopyPages { vm_idx: to, .. }
        &&& hands_over(steps[t].state, vm_idx, to, page, steps[t].action)
        &&& start.sources.contains_key(to)
        &&& to != vm_idx
        &&& start.sources[to][page] == VmBackend::Vm(vm_idx)
        &&& to == children[t]
        &&& steps[t + 1].input is Transferred
    } by {
        lemma_progress(start, steps, vm_idx, event, t);
        lemma_progress(start, steps, vm_idx, event, t + 1);
        assert(children.contains(children[t]));
    }
    assert forall|c: u16| #[trigger]
        start.sources.contains_key(c) && c != vm_idx && start.sources[c][page] == VmBackend::Vm(
            vm_idx,
        ) implies exists|t: int|
        0 <= t < n - 2 && (#[trigger] steps[t].action)->CopyPages_vm_idx == c by {
        assert(children.contains(c));
        let t = choose|t: int| 0 <= t < children.len() && children[t] == c;
        assert(steps[t].action->CopyPages_vm_idx == c);
    }
}

} // verus!
