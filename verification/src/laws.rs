//! What holds of the manager over several steps.

use vstd::prelude::*;

use crate::backend::{lemma_run_of, VmBackend, MAX_PAGES_RW, PAGE_SIZE};
use crate::event::{Action, Input, UffdEvent, UffdMessage, Vm};
use crate::state::{least_of, lists_children, page_at, pages_received, takes_from, Awaiting, Sharing, State};

verus! {

/// The page numbers of an accepted fault fit in 64 bits.
proof fn lemma_page_at(vm: Vm, address: u64)
    requires
        address >= vm.uffd_address,
    ensures
        0 <= page_at(vm, address) <= u64::MAX,
        page_at(vm, address) * PAGE_SIZE <= address - vm.uffd_address,
{
}

/// Serving a list of children, of which those before `next` own the page, keeps the
/// tables consistent.
proof fn lemma_serves_keeps_wf(pre: State, s: Sharing, post: State, action: Action)
    requires
        pre.now_awaiting(Awaiting::Message).wf(),
        pre.serves(s, post, action),
        s.next < s.children.len() ==> pre.sharing_wf(s),
    ensures
        post.wf(),
{
}

/// Once a child owns what it received, the children after it are those that still take the page.
pub(crate) proof fn lemma_child_served(pre: State, s: Sharing, bytes: usize)
    requires
        pre.now_awaiting(Awaiting::Message).wf(),
        pre.sharing_wf(s),
        s.page_idx + pages_received(bytes) <= pre.sources[s.children[s.next]].len(),
    ensures
        ({
            let mid = pre.with_owned(
                s.children[s.next],
                s.page_idx as int,
                pages_received(bytes),
            );
            let after = Sharing { next: s.next + 1, least: Some(least_of(s.least, bytes)), ..s };
            &&& mid.now_awaiting(Awaiting::Message).wf()
            &&& after.next < after.children.len() ==> mid.sharing_wf(after)
        }),
{
    let mid = pre.with_owned(s.children[s.next], s.page_idx as int, pages_received(bytes));
    assert forall|c: u16| #[trigger]
        takes_from(mid.sources, c, s.vm_idx, s.page_idx as int) implies takes_from(
        pre.sources,
        c,
        s.vm_idx,
        s.page_idx as int,
    ) by {}
}

/// The list of children with which the handling of a write fault begins.
pub(crate) proof fn lemma_listed(
    pre: State,
    vm_idx: u16,
    event: UffdEvent,
    post: State,
    action: Action,
) -> (s: Sharing)
    requires
        pre.wf(),
        pre.event_refusal(vm_idx, event) is None,
        !event.wants_page(),
        pre.shares(vm_idx, event, post, action),
    ensures
        s.vm_idx == vm_idx,
        s.page_idx == page_at(pre.vms[vm_idx], event.address),
        s.address == event.address,
        s.next == 0,
        s.least is None,
        lists_children(pre.sources, vm_idx, s.page_idx as int, s.children),
        pre.serves(s, post, action),
        s.children.len() > 0 ==> pre.sharing_wf(s),
{
    lemma_page_at(pre.vms[vm_idx], event.address);
    let page_idx = page_at(pre.vms[vm_idx], event.address) as u64;
    let children = choose|children: Seq<u16>|
        {
            &&& #[trigger] lists_children(pre.sources, vm_idx, page_idx as int, children)
            &&& pre.serves(
                Sharing {
                    vm_idx,
                    page_idx,
                    address: event.address,
                    children,
                    next: 0,
                    least: None,
                },
                post,
                action,
            )
        };
    assert forall|i: int| #![trigger children[i]] 0 <= i < children.len() implies takes_from(
        pre.sources,
        children[i],
        vm_idx,
        page_idx as int,
    ) by {
        assert(children.contains(children[i]));
    }
    Sharing { vm_idx, page_idx, address: event.address, children, next: 0, least: None }
}

/// The tables stay consistent: whatever input is accepted, each tracked VM keeps exactly one
/// table, and no table names a VM that is not tracked.
pub proof fn lemma_step_keeps_wf(pre: State, input: Input, post: State, action: Action)
    requires
        pre.wf(),
        pre.accepts(input),
        pre.step(input, post, action),
    ensures
        post.wf(),
{
    match (pre.awaiting, input) {
        (Awaiting::Message, Input::Message(UffdMessage::AddVm(vm))) => {},
        (Awaiting::Message, Input::Message(UffdMessage::UffdEvent { vm_idx, event })) => {
            lemma_page_at(pre.vms[vm_idx], event.address);
            if !event.wants_page() {
                let s = lemma_listed(pre, vm_idx, event, post, action);
                lemma_serves_keeps_wf(pre, s, post, action);
            }
        },
        (Awaiting::Protection(vm), Input::Done) => {},
        (Awaiting::Filling { vm_idx, page_idx }, Input::Transferred(bytes)) => {},
        (Awaiting::Copying(s), Input::Transferred(bytes)) => {
            let mid = pre.with_owned(s.children[s.next], s.page_idx as int, pages_received(bytes));
            let after = Sharing { next: s.next + 1, least: Some(least_of(s.least, bytes)), ..s };
            lemma_child_served(pre, s, bytes);
            lemma_serves_keeps_wf(mid, after, post, action);
        },
        _ => {},
    }
}

/// A clone starts with the page sources of its parent. Before it is tracked the whole memory
/// of the parent is write-protected, and no other VM is touched.
pub proof fn lemma_clone_copies_sources(
    pre: State,
    vm: Vm,
    parent: u16,
    mid: State,
    asked: Action,
    post: State,
    answered: Action,
)
    requires
        pre.wf(),
        pre.awaiting is Message,
        vm.source_vm_idx == Some(parent),
        pre.accepts(Input::Message(UffdMessage::AddVm(vm))),
        pre.step(Input::Message(UffdMessage::AddVm(vm)), mid, asked),
        mid.step(Input::Done, post, answered),
    ensures
        mid.accepts(Input::Done),
        mid.vms == pre.vms,
        mid.sources == pre.sources,
        asked == (Action::WriteProtect {
            vm_idx: parent,
            address: pre.vms[parent].uffd_address,
            size: pre.vms[parent].memfd_size,
        }),
        answered == (Action::Ready { vm_idx: vm.vm_idx }),
        post.vms == pre.vms.insert(vm.vm_idx, vm),
        post.sources[vm.vm_idx] == pre.sources[parent],
        forall|v: u16| v != vm.vm_idx ==> #[trigger] post.sources[v] == pre.sources[v],
{
}

/// Filling pages touches the filled pages of one table only: every other entry stays.
pub proof fn lemma_filling_is_local(
    pre: State,
    vm_idx: u16,
    page_idx: u64,
    bytes: usize,
    post: State,
    action: Action,
    v: u16,
    k: int,
)
    requires
        pre.wf(),
        pre.awaiting == (Awaiting::Filling { vm_idx, page_idx }),
        pre.accepts(Input::Transferred(bytes)),
        pre.step(Input::Transferred(bytes), post, action),
        pre.sources.contains_key(v),
        0 <= k < pre.sources[v].len(),
        v != vm_idx || k < page_idx || k >= page_idx + bytes as int / PAGE_SIZE as int,
    ensures
        post.sources.contains_key(v),
        post.sources[v].len() == pre.sources[v].len(),
        post.sources[v][k] == pre.sources[v][k],
{
}

/// A fault on a page that the VM owns is answered by waking the process, and nothing is
/// filled or copied.
pub proof fn lemma_owned_page_wakes(
    pre: State,
    vm_idx: u16,
    event: UffdEvent,
    post: State,
    action: Action,
)
    requires
        pre.wf(),
        pre.awaiting is Message,
        event.wants_page(),
        pre.accepts(Input::Message(UffdMessage::UffdEvent { vm_idx, event })),
        pre.sources[vm_idx][page_at(pre.vms[vm_idx], event.address)] == VmBackend::Vm(vm_idx),
        pre.step(Input::Message(UffdMessage::UffdEvent { vm_idx, event }), post, action),
    ensures
        action is Wake,
        post.sources == pre.sources,
        post.awaiting is Waking,
{
    lemma_page_at(pre.vms[vm_idx], event.address);
}

/// An entry of a table keeps its source or becomes the VM's own, unless a VM is added under that
/// index.
pub proof fn lemma_entry_stays_or_becomes_own(
    pre: State,
    input: Input,
    post: State,
    action: Action,
    v: u16,
    k: int,
)
    requires
        pre.wf(),
        pre.accepts(input),
        pre.step(input, post, action),
        pre.sources.contains_key(v),
        0 <= k < pre.sources[v].len(),
        action != (Action::Ready { vm_idx: v }),
    ensures
        post.sources.contains_key(v),
        post.sources[v].len() == pre.sources[v].len(),
        post.sources[v][k] == pre.sources[v][k] || post.sources[v][k] == VmBackend::Vm(v),
{
}

/// When write protection is removed, no VM takes the page that was written from the writing VM
/// any more, and no VM that was listed for it takes any page of the range.
pub proof fn lemma_unprotects_when_shared(pre: State, input: Input, post: State, action: Action)
    requires
        pre.wf(),
        pre.accepts(input),
        pre.step(input, post, action),
    ensures
        action matches Action::RemoveWriteProtection { vm_idx, page_idx, len, .. } ==> {
            &&& forall|c: u16| !#[trigger] takes_from(post.sources, c, vm_idx, page_idx as int)
            &&& pre.awaiting matches Awaiting::Copying(s) ==> forall|c: u16, j: int|
                s.children.contains(c) && page_idx <= j < page_idx + len as int
                    / PAGE_SIZE as int ==> !#[trigger] takes_from(post.sources, c, vm_idx, j)
        },
{
    match (pre.awaiting, input) {
        (Awaiting::Message, Input::Message(UffdMessage::UffdEvent { vm_idx, event })) => {
            lemma_page_at(pre.vms[vm_idx], event.address);
            if !event.wants_page() {
                let s = lemma_listed(pre, vm_idx, event, post, action);
                assert forall|c: u16| s.children.len() == 0 implies !#[trigger] takes_from(
                    post.sources,
                    c,
                    vm_idx,
                    s.page_idx as int,
                ) by {
                    assert(!s.children.contains(c));
                }
            }
        },
        (Awaiting::Copying(s), Input::Transferred(bytes)) => {
            if s.next + 1 == s.children.len() {
                assert forall|c: u16, j: int|
                    s.children.contains(c) && s.page_idx <= j < s.page_idx + pages_received(
                        least_of(s.least, bytes),
                    ) implies !#[trigger] takes_from(post.sources, c, s.vm_idx, j) by {
                    let i = choose|i: int| 0 <= i < s.children.len() && s.children[i] == c;
                    if i < s.next {
                        assert(pre.sources[s.children[i]][j] == VmBackend::Vm(s.children[i]));
                    }
                }
                assert forall|c: u16| !#[trigger] takes_from(
                    post.sources,
                    c,
                    s.vm_idx,
                    s.page_idx as int,
                ) by {
                    if takes_from(post.sources, c, s.vm_idx, s.page_idx as int) {
                        assert(takes_from(pre.sources, c, s.vm_idx, s.page_idx as int));
                    }
                }
            }
        },
        _ => {},
    }
}

/// A child owns every page that it was handed from then on, the one that is about to be written
/// and those that were copied along. No other entry changes.
pub proof fn lemma_child_owns_shared_pages(
    pre: State,
    s: Sharing,
    bytes: usize,
    post: State,
    action: Action,
)
    requires
        pre.wf(),
        pre.awaiting == Awaiting::Copying(s),
        pre.accepts(Input::Transferred(bytes)),
        pre.step(Input::Transferred(bytes), post, action),
    ensures
        post.sources.dom() == pre.sources.dom(),
        forall|v: u16, k: int|
            #![trigger post.sources[v][k]]
            pre.sources.contains_key(v) && 0 <= k < pre.sources[v].len() ==> post.sources[v][k] == (
            if v == s.children[s.next] && s.page_idx <= k < s.page_idx + pages_received(bytes) {
                VmBackend::Vm(v)
            } else {
                pre.sources[v][k]
            }),
{
}

/// The pages that a request fills, whole ones, at least one and at most `MAX_PAGES_RW`, lie within the
/// table of the VM that they are filled in and, where they are copied, of the VM that they are
/// copied from.
pub proof fn lemma_request_within_tables(pre: State, input: Input, post: State, action: Action)
    requires
        pre.wf(),
        pre.accepts(input),
        pre.step(input, post, action),
    ensures
        action matches Action::ZeroPages { vm_idx, page_idx, len, .. } ==> {
            &&& PAGE_SIZE <= len <= MAX_PAGES_RW * PAGE_SIZE
            &&& len as int % PAGE_SIZE as int == 0
            &&& page_idx + len as int / PAGE_SIZE as int <= post.sources[vm_idx].len()
        },
        action matches Action::CopyPages { vm_idx, source_vm_idx, page_idx, len, .. } ==> {
            &&& PAGE_SIZE <= len <= MAX_PAGES_RW * PAGE_SIZE
            &&& len as int % PAGE_SIZE as int == 0
            &&& page_idx + len as int / PAGE_SIZE as int <= post.sources[vm_idx].len()
            &&& page_idx + len as int / PAGE_SIZE as int <= post.sources[source_vm_idx].len()
        },
{
    lemma_step_keeps_wf(pre, input, post, action);
    if let Input::Message(UffdMessage::UffdEvent { vm_idx, event }) = input {
        if pre.awaiting is Message {
            lemma_page_at(pre.vms[vm_idx], event.address);
        }
    }
    match action {
        Action::ZeroPages { vm_idx, page_idx, .. } => {
            let table = post.sources[vm_idx];
            lemma_run_of(table, page_idx as int, table[page_idx as int], MAX_PAGES_RW as nat);
        },
        Action::CopyPages { vm_idx, source_vm_idx, page_idx, .. } => {
            let to = post.sources[vm_idx];
            let from = post.sources[source_vm_idx];
            lemma_run_of(to, page_idx as int, to[page_idx as int], MAX_PAGES_RW as nat);
            lemma_run_of(from, page_idx as int, from[page_idx as int], MAX_PAGES_RW as nat);
        },
        _ => {},
    }
}

/// The outcome of what was asked for is always accepted: that a call was done, and any number
/// of bytes that does not exceed the request.
pub proof fn lemma_answer_is_accepted(
    pre: State,
    input: Input,
    post: State,
    action: Action,
    bytes: usize,
)
    requires
        pre.wf(),
        pre.accepts(input),
        pre.step(input, post, action),
    ensures
        match action {
            Action::ZeroPages { len, .. } => bytes <= len ==> post.accepts(
                Input::Transferred(bytes),
            ),
            Action::CopyPages { len, .. } => bytes <= len ==> post.accepts(
                Input::Transferred(bytes),
            ),
            Action::Receive => post.awaiting is Message,
            _ => post.accepts(Input::Done),
        },
{
    lemma_request_within_tables(pre, input, post, action);
}

/// How many outcomes are still awaited before the next message is.
pub open spec fn outcomes_left(s: State) -> nat {
    match s.awaiting {
        Awaiting::Message => 0,
        Awaiting::Protection(_) => 2,
        Awaiting::Copying(sharing) => (sharing.children.len() - sharing.next + 1) as nat,
        _ => 1,
    }
}

/// Every message is dealt with: each outcome brings the manager one step nearer to the next
/// message, which it asks for exactly when nothing else is left.
pub proof fn lemma_messages_are_dealt_with(pre: State, input: Input, post: State, action: Action)
    requires
        pre.wf(),
        pre.accepts(input),
        pre.step(input, post, action),
    ensures
        !(input is Message) ==> outcomes_left(post) + 1 == outcomes_left(pre),
        action == Action::Receive <==> outcomes_left(post) == 0,
        input is Message <==> outcomes_left(pre) == 0,
{
    lemma_step_keeps_wf(pre, input, post, action);
}

/// No table is longer than the memory of its VM.
pub open spec fn tables_fit(s: State) -> bool {
    forall|v: u16| #[trigger]
        s.vms.contains_key(v) ==> s.sources[v].len() * PAGE_SIZE <= s.vms[v].memfd_size
}

/// Tables go on fitting the memory of their VMs, as long as no clone is smaller than the table of
/// its parent.
pub proof fn lemma_tables_go_on_fitting(pre: State, input: Input, post: State, action: Action)
    requires
        pre.wf(),
        pre.accepts(input),
        pre.step(input, post, action),
        tables_fit(pre),
        clone_fits(pre),
    ensures
        tables_fit(post),
{
}

/// The bytes that the action fills lie within the memory of the VM that they are filled in, and
/// those that it copies within the memory of the VM that they are copied from.
pub open spec fn within_memory(s: State, action: Action) -> bool {
    match action {
        Action::ZeroPages { vm_idx, address, len, .. } => {
            let vm = s.vms[vm_idx];
            vm.uffd_address <= address && address + len <= vm.uffd_address + vm.memfd_size
        },
        Action::CopyPages { vm_idx, source_vm_idx, source_address, address, len, .. } => {
            let to = s.vms[vm_idx];
            let from = s.vms[source_vm_idx];
            &&& to.uffd_address <= address
            &&& address + len <= to.uffd_address + to.memfd_size
            &&& from.memfd_address <= source_address
            &&& source_address + len <= from.memfd_address + from.memfd_size
        },
        _ => true,
    }
}

/// A fault is reported at the start of a page of its VM.
pub open spec fn at_page_start(s: State, input: Input) -> bool {
    input matches Input::Message(UffdMessage::UffdEvent { vm_idx, event }) ==> (event.address
        - s.vms[vm_idx].uffd_address) % (PAGE_SIZE as int) == 0
}

/// A clone that is being added is no smaller than the table of its parent.
pub open spec fn clone_fits(s: State) -> bool {
    s.awaiting matches Awaiting::Protection(vm) ==> s.sources[vm.source_vm_idx->0].len() * PAGE_SIZE
        <= vm.memfd_size
}

/// Requests stay within memory: with tables that fit, and a fault at the start of a page, the
/// bytes that are filled and those that are copied lie within the memory of their VMs.
pub proof fn lemma_request_within_memory(pre: State, input: Input, post: State, action: Action)
    requires
        pre.wf(),
        pre.accepts(input),
        pre.step(input, post, action),
        tables_fit(pre),
        at_page_start(pre, input),
    ensures
        within_memory(post, action),
{
    lemma_step_keeps_wf(pre, input, post, action);
    lemma_request_within_tables(pre, input, post, action);
    if !(pre.awaiting is Protection) {
        lemma_tables_go_on_fitting(pre, input, post, action);
    }
    if let Input::Message(UffdMessage::UffdEvent { vm_idx, event }) = input {
        if pre.awaiting is Message {
            lemma_page_at(pre.vms[vm_idx], event.address);
        }
    }
    match action {
        Action::ZeroPages { vm_idx, page_idx, address, len, .. } => {
            let vm = post.vms[vm_idx];
            assert(post.vms.contains_key(vm_idx));
            assert(address == vm.uffd_address + page_idx * PAGE_SIZE);
            assert(page_idx * PAGE_SIZE + len <= vm.memfd_size);
        },
        Action::CopyPages { vm_idx, source_vm_idx, page_idx, source_address, address, len, .. } => {
            let to = post.vms[vm_idx];
            let from = post.vms[source_vm_idx];
            assert(post.vms.contains_key(vm_idx));
            assert(post.vms.contains_key(source_vm_idx));
            assert(address == to.uffd_address + page_idx * PAGE_SIZE);
            assert(source_address == from.memfd_address + page_idx * PAGE_SIZE);
            assert(page_idx * PAGE_SIZE + len <= to.memfd_size);
            assert(page_idx * PAGE_SIZE + len <= from.memfd_size);
        },
        _ => {},
    }
}

} // verus!
