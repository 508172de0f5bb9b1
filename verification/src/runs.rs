//! What holds of the manager over any number of steps.

use vstd::prelude::*;

use crate::backend::{VmBackend, PAGE_SIZE};
use crate::event::{Action, Input, UffdEvent, UffdMessage, Vm};
use crate::laws::{
    at_page_start, clone_fits, lemma_entry_stays_or_becomes_own, lemma_listed,
    lemma_request_within_memory, lemma_step_keeps_wf, lemma_tables_go_on_fitting, tables_fit,
    within_memory,
};
use crate::state::{page_at, pages_received, Awaiting, Sharing, State};

verus! {

/// A step that was taken: what was handed over, and the state and the action that came of it.
pub struct Taken {
    pub input: Input,
    pub state: State,
    pub action: Action,
}

/// The state after the first `i` steps.
pub open spec fn state_after(start: State, steps: Seq<Taken>, i: int) -> State {
    if i == 0 {
        start
    } else {
        steps[i - 1].state
    }
}

/// Each step was taken from the state that the one before it left.
pub open spec fn is_run(start: State, steps: Seq<Taken>) -> bool {
    forall|i: int|
        #![trigger steps[i]]
        0 <= i < steps.len() ==> {
            let pre = state_after(start, steps, i);
            pre.accepts(steps[i].input) && pre.step(
                steps[i].input,
                steps[i].state,
                steps[i].action,
            )
        }
}

/// No step from `from` up to, not with, `to` adds a VM under this index.
pub open spec fn never_adds(steps: Seq<Taken>, from: int, to: int, vm_idx: u16) -> bool {
    forall|i: int|
        from <= i < to ==> #[trigger] steps[i].action != (Action::Ready { vm_idx })
}

/// The tables stay consistent over any run.
pub proof fn lemma_run_keeps_wf(start: State, steps: Seq<Taken>, i: int)
    requires
        start.wf(),
        is_run(start, steps),
        0 <= i <= steps.len(),
    ensures
        state_after(start, steps, i).wf(),
    decreases i,
{
    if i > 0 {
        lemma_run_keeps_wf(start, steps, i - 1);
        let taken = steps[i - 1];
        lemma_step_keeps_wf(
            state_after(start, steps, i - 1),
            taken.input,
            taken.state,
            taken.action,
        );
    }
}

/// Over any run an entry of a table keeps its source until it becomes the VM's own, and then it
/// stays the VM's own, unless a VM is added under that index.
pub proof fn lemma_entry_over_run(
    start: State,
    steps: Seq<Taken>,
    from: int,
    to: int,
    v: u16,
    k: int,
)
    requires
        start.wf(),
        is_run(start, steps),
        0 <= from <= to <= steps.len(),
        never_adds(steps, from, to, v),
        state_after(start, steps, from).sources.contains_key(v),
        0 <= k < state_after(start, steps, from).sources[v].len(),
    ensures
        ({
            let before = state_after(start, steps, from).sources;
            let after = state_after(start, steps, to).sources;
            &&& after.contains_key(v)
            &&& after[v].len() == before[v].len()
            &&& after[v][k] == before[v][k] || after[v][k] == VmBackend::Vm(v)
        }),
    decreases to - from,
{
    if from < to {
        lemma_entry_over_run(start, steps, from, to - 1, v, k);
        lemma_run_keeps_wf(start, steps, to - 1);
        let taken = steps[to - 1];
        lemma_entry_stays_or_becomes_own(
            state_after(start, steps, to - 1),
            taken.input,
            taken.state,
            taken.action,
            v,
            k,
        );
    }
}

/// Every clone that is added is no smaller than the table of its parent.
pub open spec fn clones_fit(start: State, steps: Seq<Taken>) -> bool {
    forall|i: int|
        0 <= i < steps.len() ==> clone_fits(#[trigger] state_after(start, steps, i))
}

/// Tables that fit the memory of their VMs go on fitting over any run with clones that fit.
pub proof fn lemma_tables_fit_over_run(start: State, steps: Seq<Taken>, i: int)
    requires
        start.wf(),
        is_run(start, steps),
        tables_fit(start),
        clones_fit(start, steps),
        0 <= i <= steps.len(),
    ensures
        tables_fit(state_after(start, steps, i)),
    decreases i,
{
    if i > 0 {
        lemma_tables_fit_over_run(start, steps, i - 1);
        lemma_run_keeps_wf(start, steps, i - 1);
        let taken = steps[i - 1];
        lemma_tables_go_on_fitting(
            state_after(start, steps, i - 1),
            taken.input,
            taken.state,
            taken.action,
        );
    }
}

/// Over any run requests stay within memory: with tables that fit at the start, clones that fit,
/// and a fault at the start of a page, the request of a step fills and copies bytes of the memory
/// of its VMs only.
pub proof fn lemma_run_stays_within_memory(start: State, steps: Seq<Taken>, i: int)
    requires
        start.wf(),
        is_run(start, steps),
        tables_fit(start),
        clones_fit(start, steps),
        0 <= i < steps.len(),
        at_page_start(state_after(start, steps, i), steps[i].input),
    ensures
        within_memory(steps[i].state, steps[i].action),
{
    lemma_tables_fit_over_run(start, steps, i);
    lemma_run_keeps_wf(start, steps, i);
    lemma_request_within_memory(
        state_after(start, steps, i),
        steps[i].input,
        steps[i].state,
        steps[i].action,
    );
}

/// The step resolves the page for the VM: the page was filled on a fault of the VM, or handed to
/// the VM before another one writes to it.
pub open spec fn resolves(pre: State, input: Input, v: u16, k: int) -> bool {
    match (pre.awaiting, input) {
        (Awaiting::Filling { vm_idx, page_idx }, Input::Transferred(bytes)) => {
            &&& v == vm_idx
            &&& page_idx <= k < page_idx + bytes as int / PAGE_SIZE as int
        },
        (Awaiting::Copying(s), Input::Transferred(bytes)) => {
            &&& v == s.children[s.next]
            &&& s.page_idx <= k < s.page_idx + pages_received(bytes)
        },
        _ => false,
    }
}

/// A page that was resolved for a VM becomes its own source, and a clone made of the VM at any
/// later time fetches the page from it.
pub proof fn lemma_clone_fetches_resolved_page(
    start: State,
    steps: Seq<Taken>,
    v: u16,
    k: int,
    child: Vm,
)
    requires
        start.wf(),
        is_run(start, steps),
        steps.len() >= 3,
        resolves(start, steps[0].input, v, k),
        never_adds(steps, 0, steps.len() - 1, v),
        child.source_vm_idx == Some(v),
        steps[steps.len() - 2].input == Input::Message(UffdMessage::AddVm(child)),
        steps.last().input == Input::Done,
    ensures
        steps[0].state.sources[v][k] == VmBackend::Vm(v),
        steps.last().state.sources[child.vm_idx][k] == VmBackend::Vm(v),
{
    let n = steps.len() as int;
    let first = steps[0];
    assert(start.accepts(first.input) && start.step(first.input, first.state, first.action));
    assert(state_after(start, steps, 1) == first.state);
    lemma_run_keeps_wf(start, steps, 1);
    lemma_entry_over_run(start, steps, 1, n - 2, v, k);
    assert(steps[n - 2].input == Input::Message(UffdMessage::AddVm(child)));
    assert(steps[n - 1].input == Input::Done);
}

/// An unresolved page of a clone keeps the source that the parent had when the clone was made,
/// over any run that does not add the clone anew.
pub proof fn lemma_clone_keeps_sources(start: State, steps: Seq<Taken>, vm: Vm, parent: u16, k: int)
    requires
        start.wf(),
        start.awaiting == Awaiting::Protection(vm),
        vm.source_vm_idx == Some(parent),
        0 <= k < start.sources[parent].len(),
        is_run(start, steps),
        steps.len() > 0,
        never_adds(steps, 1, steps.len() as int, vm.vm_idx),
    ensures
        ({
            let now = steps.last().state.sources[vm.vm_idx];
            &&& now.len() == start.sources[parent].len()
            &&& now[k] == VmBackend::Vm(vm.vm_idx) || now[k] == start.sources[parent][k]
        }),
{
    let first = steps[0];
    assert(start.accepts(first.input) && start.step(first.input, first.state, first.action));
    assert(state_after(start, steps, 1) == first.state);
    lemma_entry_over_run(start, steps, 1, steps.len() as int, vm.vm_idx, k);
}

/// The run deals with one message: it starts with it and ends when the next is waited for.
pub open spec fn deals_with(start: State, steps: Seq<Taken>, message: UffdMessage) -> bool {
    &&& is_run(start, steps)
    &&& steps.len() > 0
    &&& steps[0].input == Input::Message(message)
    &&& steps.last().action == Action::Receive
    &&& forall|i: int|
        0 <= i < steps.len() - 1 ==> #[trigger] steps[i].action != Action::Receive
}

/// The step asks for a copy of the page to a child, or for the removal of its protection.
pub open spec fn handles_write(taken: Taken, vm_idx: u16, page_idx: int, address: u64) -> bool {
    match taken.state.awaiting {
        Awaiting::Copying(s) => {
            &&& s.vm_idx == vm_idx && s.page_idx == page_idx && s.address == address
            &&& taken.action matches Action::CopyPages {
                source_vm_idx,
                page_idx: page,
                wake,
                ..
            }
            &&& source_vm_idx == vm_idx && page == page_idx && !wake
        },
        Awaiting::Unprotection => {
            &&& taken.action matches Action::RemoveWriteProtection {
                vm_idx: v,
                page_idx: page,
                address: at,
                wake,
                ..
            }
            &&& v == vm_idx && page == page_idx && at == address && wake
        },
        _ => false,
    }
}

proof fn lemma_write_is_handled(
    start: State,
    steps: Seq<Taken>,
    vm_idx: u16,
    event: UffdEvent,
    i: int,
)
    requires
        start.wf(),
        !event.wants_page(),
        deals_with(start, steps, UffdMessage::UffdEvent { vm_idx, event }),
        0 <= i < steps.len() - 1 || i == 0,
    ensures
        handles_write(
            steps[i],
            vm_idx,
            page_at(start.vms[vm_idx], event.address),
            event.address,
        ),
    decreases i,
{
    let pre = state_after(start, steps, i);
    let taken = steps[i];
    assert(pre.accepts(taken.input) && pre.step(taken.input, taken.state, taken.action));
    if i == 0 {
        let s: Sharing = lemma_listed(start, vm_idx, event, taken.state, taken.action);
    } else {
        lemma_write_is_handled(start, steps, vm_idx, event, i - 1);
    }
}

/// For each write fault the protection is removed exactly once, as the last call, of the page of
/// the VM that wrote and from the address of the fault on. Before it there are only copies to
/// children, which wake nobody.
pub proof fn lemma_write_fault_unprotects_once(
    start: State,
    steps: Seq<Taken>,
    vm_idx: u16,
    event: UffdEvent,
)
    requires
        start.wf(),
        !event.wants_page(),
        deals_with(start, steps, UffdMessage::UffdEvent { vm_idx, event }),
    ensures
        steps.len() >= 2,
        ({
            let page_idx = page_at(start.vms[vm_idx], event.address);
            let n = steps.len() as int;
            &&& steps[n - 2].action matches Action::RemoveWriteProtection {
                vm_idx: v,
                page_idx: page,
                address,
                wake,
                ..
            }
            &&& v == vm_idx && page == page_idx && address == event.address && wake
            &&& forall|i: int|
                0 <= i < n - 2 ==> (#[trigger] steps[i].action matches Action::CopyPages {
                    source_vm_idx,
                    page_idx: page,
                    wake,
                    ..
                } && source_vm_idx == vm_idx && page == page_idx && !wake)
        }),
{
    let n = steps.len() as int;
    lemma_write_is_handled(start, steps, vm_idx, event, 0);
    assert(steps.last() == steps[n - 1]);
    lemma_write_is_handled(start, steps, vm_idx, event, n - 2);
    assert(state_after(start, steps, n - 1) == steps[n - 2].state);
    assert forall|i: int| 0 <= i < n - 2 implies (#[trigger] steps[i].action matches Action::CopyPages {
        source_vm_idx,
        page_idx: page,
        wake,
        ..
    } && source_vm_idx == vm_idx && page == page_at(start.vms[vm_idx], event.address) && !wake) by {
        lemma_write_is_handled(start, steps, vm_idx, event, i);
        assert(state_after(start, steps, i + 1) == steps[i].state);
        assert(steps[i + 1].action != Action::Receive);
    }
}

proof fn lemma_no_write_is_handled(
    start: State,
    steps: Seq<Taken>,
    message: UffdMessage,
    i: int,
)
    requires
        start.wf(),
        message matches UffdMessage::UffdEvent { event, .. } ==> event.wants_page(),
        deals_with(start, steps, message),
        0 <= i < steps.len(),
    ensures
        !(steps[i].action is RemoveWriteProtection),
        !(steps[i].state.awaiting is Copying),
        !(steps[i].state.awaiting is Message) || i == steps.len() - 1,
    decreases i,
{
    let pre = state_after(start, steps, i);
    let taken = steps[i];
    assert(pre.accepts(taken.input) && pre.step(taken.input, taken.state, taken.action));
    if i > 0 {
        lemma_no_write_is_handled(start, steps, message, i - 1);
    }
    if i < steps.len() - 1 {
        assert(steps[i].action != Action::Receive);
    }
}

/// No protection is removed on any other message: not when a VM is added, and not when a page is
/// supplied.
pub proof fn lemma_only_write_faults_unprotect(
    start: State,
    steps: Seq<Taken>,
    message: UffdMessage,
)
    requires
        start.wf(),
        message matches UffdMessage::UffdEvent { event, .. } ==> event.wants_page(),
        deals_with(start, steps, message),
    ensures
        forall|i: int|
            0 <= i < steps.len() ==> !(#[trigger] steps[i].action is RemoveWriteProtection),
{
    assert forall|i: int| 0 <= i < steps.len() implies !(
    #[trigger] steps[i].action is RemoveWriteProtection) by {
        lemma_no_write_is_handled(start, steps, message, i);
    }
}

} // verus!
