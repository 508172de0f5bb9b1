//! The manager: it receives the faults of all VMs and decides how each is resolved.

use std::collections::HashMap;

use vstd::prelude::*;

use crate::backend::{get_max_range, VmBackend, MAX_PAGES_RW, PAGE_SIZE};
use crate::event::{Action, FaultKind, Input, ReadWrite, UffdEvent, UffdMessage, Vm};
use crate::laws::{lemma_child_served, lemma_step_keeps_wf};
use crate::state::{
    lists_children, owned, pages_received, takes_from, Awaiting, Refusal, Sharing, State,
};

verus! {

/// What the manager waits for.
enum Pending {
    Message,
    Protection(Vm),
    Signal,
    Waking,
    Filling { vm_idx: u16, page_idx: u64 },
    Copying(Share),
    Unprotection,
}

/// A write fault being handled.
struct Share {
    vm_idx: u16,
    page_idx: u64,
    address: u64,
    children: Vec<u16>,
    next: usize,
    least: Option<usize>,
}

impl Share {
    spec fn model(self) -> Sharing {
        Sharing {
            vm_idx: self.vm_idx,
            page_idx: self.page_idx,
            address: self.address,
            children: self.children@,
            next: self.next as int,
            least: self.least,
        }
    }
}

impl Pending {
    spec fn model(self) -> Awaiting {
        match self {
            Pending::Message => Awaiting::Message,
            Pending::Protection(vm) => Awaiting::Protection(vm),
            Pending::Signal => Awaiting::Signal,
            Pending::Waking => Awaiting::Waking,
            Pending::Filling { vm_idx, page_idx } => Awaiting::Filling { vm_idx, page_idx },
            Pending::Copying(s) => Awaiting::Copying(s.model()),
            Pending::Unprotection => Awaiting::Unprotection,
        }
    }
}

/// The pages that a child received with these many bytes.
fn received(bytes: usize) -> (pages: usize)
    ensures
        pages == pages_received(bytes),
{
    if bytes < PAGE_SIZE as usize {
        1
    } else {
        bytes / PAGE_SIZE as usize
    }
}

/// What a sequence holds after a push.
proof fn lemma_push_contains(s: Seq<u16>, x: u16)
    ensures
        forall|y: u16| #[trigger] s.push(x).contains(y) <==> s.contains(y) || x == y,
{
    assert forall|y: u16| #[trigger] s.push(x).contains(y) <==> s.contains(y) || x == y by {
        if s.contains(y) {
            let i = choose|i: int| 0 <= i < s.len() && s[i] == y;
            assert(s.push(x)[i] == y);
        }
        assert(s.push(x)[s.len() as int] == x);
    }
}

/// Tracks the VMs and, for each page of each VM, where the page is fetched from.
pub struct Manager {
    vms: HashMap<u16, Vm>,
    page_sources: HashMap<u16, Vec<VmBackend>>,
    pending: Pending,
}

impl View for Manager {
    type V = State;

    closed spec fn view(&self) -> State {
        State {
            vms: self.vms@,
            sources: self.page_sources@.map_values(|table: Vec<VmBackend>| table@),
            awaiting: self.pending.model(),
        }
    }
}

impl Manager {
    /// A manager that tracks no VM.
    pub fn new() -> (manager: Manager)
        ensures
            manager@ == (State {
                vms: Map::empty(),
                sources: Map::empty(),
                awaiting: Awaiting::Message,
            }),
            manager@.wf(),
    {
        let manager = Manager {
            vms: HashMap::new(),
            page_sources: HashMap::new(),
            pending: Pending::Message,
        };
        assert(manager@.sources =~= Map::empty());
        manager
    }

    /// The table of a tracked VM.
    fn table(&self, vm_idx: u16) -> (table: &Vec<VmBackend>)
        requires
            self@.sources.contains_key(vm_idx),
        ensures
            table@ == self@.sources[vm_idx],
    {
        broadcast use vstd::std_specs::hash::group_hash_axioms;

        self.page_sources.get(&vm_idx).unwrap()
    }

    /// The description of a tracked VM.
    fn vm(&self, vm_idx: u16) -> (vm: Vm)
        requires
            self@.vms.contains_key(vm_idx),
        ensures
            vm == self@.vms[vm_idx],
    {
        broadcast use vstd::std_specs::hash::group_hash_axioms;

        *self.vms.get(&vm_idx).unwrap()
    }

    /// Tracks `vm` with this table.
    fn track(&mut self, vm: Vm, table: Vec<VmBackend>)
        ensures
            final(self)@ == old(self)@.with_vm(vm, table@),
    {
        broadcast use vstd::std_specs::hash::group_hash_axioms;

        self.page_sources.insert(vm.vm_idx, table);
        self.vms.insert(vm.vm_idx, vm);
        self.pending = Pending::Signal;
        assert(self@.sources =~= old(self)@.sources.insert(vm.vm_idx, table@));
    }

    /// Marks the `count` pages of `vm_idx` from `page_idx` on as its own.
    fn own(&mut self, vm_idx: u16, page_idx: usize, count: usize)
        requires
            old(self)@.sources.contains_key(vm_idx),
            page_idx + count <= old(self)@.sources[vm_idx].len(),
        ensures
            final(self)@ == old(self)@.with_owned(vm_idx, page_idx as int, count as int),
    {
        broadcast use vstd::std_specs::hash::group_hash_axioms;

        let mut table: Vec<VmBackend> = self.page_sources.remove(&vm_idx).unwrap();
        let ghost before = table@;
        let total: usize = table.len();
        let mut i: usize = 0;
        while i < count
            invariant
                i <= count,
                page_idx + count <= total,
                total == before.len(),
                before.len() == table@.len(),
                table@ == owned(before, page_idx as int, i as int, vm_idx),
            decreases count - i,
        {
            let at: usize = page_idx + i;
            table.set(at, VmBackend::Vm(vm_idx));
            i = i + 1;
            assert(table@ =~= owned(before, page_idx as int, i as int, vm_idx));
        }
        assert(owned(before, page_idx as int, 0, vm_idx) =~= before);
        self.page_sources.insert(vm_idx, table);
        assert(self@.sources =~= old(self)@.sources.insert(
            vm_idx,
            owned(before, page_idx as int, count as int, vm_idx),
        ));
    }

    /// The request that copies the page from `from` to `to`.
    fn copy_request(&self, from: u16, to: u16, page_idx: u64, wake: bool) -> (action: Action)
        requires
            self@.vms.dom() =~= self@.sources.dom(),
            self@.vms.contains_key(from),
            self@.vms.contains_key(to),
            page_idx < self@.sources[from].len(),
            page_idx < self@.sources[to].len(),
            !self@.copy_overflows(from, to, page_idx as int),
        ensures
            action == self@.copy_action(from, to, page_idx, wake),
    {
        let source_table: &[VmBackend] = self.table(from).as_slice();
        let dest_table: &[VmBackend] = self.table(to).as_slice();
        assert(page_idx < source_table.len());
        let index: usize = page_idx as usize;
        let in_source: usize = get_max_range(source_table, index, MAX_PAGES_RW);
        let in_dest: usize = get_max_range(dest_table, index, MAX_PAGES_RW);
        let pages: usize = if in_dest < in_source {
            in_dest
        } else {
            in_source
        };
        let relative_address: u64 = page_idx * PAGE_SIZE;
        Action::CopyPages {
            vm_idx: to,
            source_vm_idx: from,
            page_idx,
            source_address: self.vm(from).memfd_address + relative_address,
            address: self.vm(to).uffd_address + relative_address,
            len: pages * PAGE_SIZE as usize,
            wake,
            write_protect: false,
        }
    }

    /// The tracked VMs, each once, in any order.
    fn known_vms(&self) -> (ids: Vec<u16>)
        ensures
            ids@.no_duplicates(),
            forall|c: u16| #[trigger] ids@.contains(c) <==> self@.sources.contains_key(c),
    {
        broadcast use vstd::std_specs::hash::group_hash_axioms;

        let mut ids: Vec<u16> = Vec::new();
        for key in keys: self.page_sources.keys()
            invariant
                keys.seq().unref().to_set() == self.page_sources@.dom(),
                keys.seq().no_duplicates(),
                ids@ == keys.seq().unref().take(keys.index() as int),
                forall|c: u16| #[trigger]
                    self.page_sources@.contains_key(c) ==> ids@.contains(c) || exists|i: int|
                        keys.index() <= i < keys.seq().len() && #[trigger] keys.seq().unref()[i]
                            == c,
                ids@.no_duplicates(),
                forall|c: u16| #[trigger] ids@.contains(c) ==> self.page_sources@.contains_key(c),
        {
            let ghost before = ids@;
            let ghost all = keys.seq().unref();
            let ghost at = keys.index() as int;
            proof {
                assert(all[at] == *key);
                assert(all.to_set().contains(*key));
                if before.contains(*key) {
                    let i = choose|i: int| 0 <= i < before.len() && before[i] == *key;
                    assert(keys.seq()[i] == keys.seq()[at]);
                }
            }
            ids.push(*key);
            proof {
                assert(ids@ =~= all.take(at + 1));
                lemma_push_contains(before, *key);
            }
        }
        ids
    }

    /// The VMs other than `vm_idx` that take the page from it.
    fn children_of(&self, vm_idx: u16, page_idx: u64) -> (children: Vec<u16>)
        requires
            forall|c: u16| #[trigger]
                self@.sources.contains_key(c) && c != vm_idx ==> page_idx < self@.sources[c].len(),
        ensures
            lists_children(self@.sources, vm_idx, page_idx as int, children@),
    {
        let ids: Vec<u16> = self.known_vms();
        let mut children: Vec<u16> = Vec::new();
        let mut i: usize = 0;
        assert(ids@.take(0) =~= Seq::empty());
        while i < ids.len()
            invariant
                i <= ids.len(),
                ids@.no_duplicates(),
                forall|c: u16| #[trigger] ids@.contains(c) <==> self@.sources.contains_key(c),
                forall|c: u16| #[trigger]
                    self@.sources.contains_key(c) && c != vm_idx ==> page_idx
                        < self@.sources[c].len(),
                children@.no_duplicates(),
                forall|c: u16| #[trigger]
                    children@.contains(c) <==> ids@.take(i as int).contains(c) && takes_from(
                        self@.sources,
                        c,
                        vm_idx,
                        page_idx as int,
                    ),
            decreases ids.len() - i,
        {
            let child: u16 = ids[i];
            let ghost before = children@;
            let ghost seen = ids@.take(i as int);
            proof {
                assert(ids@.contains(child));
                assert(self@.sources.contains_key(child));
                assert(!seen.contains(child));
                assert(!before.contains(child));
                assert(ids@.take(i + 1) =~= seen.push(child));
                lemma_push_contains(seen, child);
                lemma_push_contains(before, child);
            }
            if child != vm_idx {
                let table: &Vec<VmBackend> = self.table(child);
                assert(page_idx < table.len());
                if table[page_idx as usize] == VmBackend::Vm(vm_idx) {
                    children.push(child);
                }
            }
            i = i + 1;
        }
        assert(ids@.take(ids@.len() as int) =~= ids@);
        children
    }

    /// Asks for the next copy of a page that is about to be written, or for the removal of
    /// its write protection.
    fn serve(&mut self, share: Share) -> (action: Action)
        requires
            old(self)@.now_awaiting(Awaiting::Message).wf(),
            share.next < share.children@.len() ==> old(self)@.sharing_wf(share.model()),
        ensures
            old(self)@.serves(share.model(), final(self)@, action),
    {
        if share.next < share.children.len() {
            let child: u16 = share.children[share.next];
            let action: Action = self.copy_request(share.vm_idx, child, share.page_idx, false);
            self.pending = Pending::Copying(share);
            action
        } else {
            let len: usize = match share.least {
                Some(bytes) => bytes,
                None => PAGE_SIZE as usize,
            };
            self.pending = Pending::Unprotection;
            Action::RemoveWriteProtection {
                vm_idx: share.vm_idx,
                page_idx: share.page_idx,
                address: share.address,
                len,
                wake: true,
            }
        }
    }

    /// Decides how a page is supplied.
    fn supply(&mut self, vm_idx: u16, event: UffdEvent) -> (action: Action)
        requires
            old(self)@.wf(),
            old(self)@.event_refusal(vm_idx, event) is None,
            event.wants_page(),
        ensures
            old(self)@.supplies(vm_idx, event, final(self)@, action),
    {
        let page_idx: u64 = (event.address - self.vm(vm_idx).uffd_address) / PAGE_SIZE;
        let table: &[VmBackend] = self.table(vm_idx).as_slice();
        assert(page_idx < table.len());
        let index: usize = page_idx as usize;
        match table[index] {
            VmBackend::Zero => {
                let pages: usize = get_max_range(table, index, MAX_PAGES_RW);
                self.pending = Pending::Filling { vm_idx, page_idx };
                Action::ZeroPages {
                    vm_idx,
                    page_idx,
                    address: event.address,
                    len: pages * PAGE_SIZE as usize,
                    wake: true,
                }
            },
            VmBackend::Vm(source) => {
                if source == vm_idx {
                    // The page is here already: only the process has to be woken.
                    self.pending = Pending::Waking;
                    Action::Wake {
                        vm_idx,
                        page_idx,
                        address: event.address,
                        len: PAGE_SIZE as usize,
                    }
                } else {
                    let action: Action = self.copy_request(source, vm_idx, page_idx, true);
                    self.pending = Pending::Filling { vm_idx, page_idx };
                    action
                }
            },
        }
    }

    /// Lists the VMs that a page has to be copied to before it is written.
    fn share(&mut self, vm_idx: u16, event: UffdEvent) -> (action: Action)
        requires
            old(self)@.wf(),
            old(self)@.event_refusal(vm_idx, event) is None,
            !event.wants_page(),
        ensures
            old(self)@.shares(vm_idx, event, final(self)@, action),
    {
        let page_idx: u64 = (event.address - self.vm(vm_idx).uffd_address) / PAGE_SIZE;
        let children: Vec<u16> = self.children_of(vm_idx, page_idx);
        let share = Share {
            vm_idx,
            page_idx,
            address: event.address,
            children,
            next: 0,
            least: None,
        };
        proof {
            assert forall|i: int|
                #![trigger children@[i]]
                0 <= i < children@.len() implies takes_from(
                self@.sources,
                children@[i],
                vm_idx,
                page_idx as int,
            ) by {
                assert(children@.contains(children@[i]));
            }
        }
        self.serve(share)
    }

    /// Whether an address that a copy of the page names is not representable.
    fn overflows(&self, from: u16, to: u16, page_idx: u64) -> (overflows: bool)
        requires
            self@.vms.contains_key(from),
            self@.vms.contains_key(to),
            page_idx * PAGE_SIZE <= u64::MAX,
        ensures
            overflows == self@.copy_overflows(from, to, page_idx as int),
    {
        let relative_address: u64 = page_idx * PAGE_SIZE;
        self.vm(from).memfd_address > u64::MAX - relative_address || self.vm(to).uffd_address
            > u64::MAX - relative_address
    }

    /// Why the page of `vm_idx` cannot be supplied.
    fn check_missing(&self, vm_idx: u16, page_idx: u64) -> (refusal: Option<Refusal>)
        requires
            self@.wf(),
            self@.vms.contains_key(vm_idx),
            page_idx < self@.sources[vm_idx].len(),
            page_idx * PAGE_SIZE <= u64::MAX,
        ensures
            refusal == self@.missing_refusal(vm_idx, page_idx as int),
    {
        let table: &Vec<VmBackend> = self.table(vm_idx);
        assert(page_idx < table.len());
        match table[page_idx as usize] {
            VmBackend::Zero => None,
            VmBackend::Vm(source) => {
                if source == vm_idx {
                    None
                } else if page_idx >= self.table(source).len() as u64 {
                    Some(Refusal::OtherPageOutOfRange)
                } else if self.overflows(source, vm_idx, page_idx) {
                    Some(Refusal::AddressOverflow)
                } else {
                    None
                }
            },
        }
    }

    /// Why the page of `vm_idx` cannot be made writable.
    fn check_write(&self, vm_idx: u16, page_idx: u64) -> (refusal: Option<Refusal>)
        requires
            self@.wf(),
            self@.vms.contains_key(vm_idx),
            page_idx * PAGE_SIZE <= u64::MAX,
        ensures
            refusal == self@.write_refusal(vm_idx, page_idx as int),
    {
        let ids: Vec<u16> = self.known_vms();
        let mut overflow: bool = false;
        let mut i: usize = 0;
        while i < ids.len()
            invariant
                i <= ids.len(),
                self@.wf(),
                self@.vms.contains_key(vm_idx),
                page_idx * PAGE_SIZE <= u64::MAX,
                forall|c: u16| #[trigger] ids@.contains(c) <==> self@.sources.contains_key(c),
                forall|j: int|
                    0 <= j < i && #[trigger] ids@[j] != vm_idx ==> page_idx
                        < self@.sources[ids@[j]].len(),
                overflow <==> exists|j: int|
                    0 <= j < i && takes_from(
                        self@.sources,
                        #[trigger] ids@[j],
                        vm_idx,
                        page_idx as int,
                    ) && self@.copy_overflows(vm_idx, ids@[j], page_idx as int),
            decreases ids.len() - i,
        {
            let child: u16 = ids[i];
            assert(ids@.contains(child));
            assert(self@.sources.contains_key(child));
            if child != vm_idx {
                let table: &Vec<VmBackend> = self.table(child);
                if page_idx >= table.len() as u64 {
                    return Some(Refusal::OtherPageOutOfRange);
                }
                if table[page_idx as usize] == VmBackend::Vm(vm_idx) && self.overflows(
                    vm_idx,
                    child,
                    page_idx,
                ) {
                    assert(takes_from(self@.sources, ids@[i as int], vm_idx, page_idx as int));
                    overflow = true;
                }
            }
            i = i + 1;
        }
        proof {
            assert forall|c: u16| #[trigger]
                self@.sources.contains_key(c) && c != vm_idx implies page_idx
                < self@.sources[c].len() by {
                assert(ids@.contains(c));
                let j = choose|j: int| 0 <= j < ids@.len() && ids@[j] == c;
                assert(ids@[j] == c);
            }
            if exists|c: u16| #[trigger]
                takes_from(self@.sources, c, vm_idx, page_idx as int) && self@.copy_overflows(
                    vm_idx,
                    c,
                    page_idx as int,
                ) {
                let c = choose|c: u16| #[trigger]
                    takes_from(self@.sources, c, vm_idx, page_idx as int) && self@.copy_overflows(
                        vm_idx,
                        c,
                        page_idx as int,
                    );
                assert(ids@.contains(c));
                let j = choose|j: int| 0 <= j < ids@.len() && ids@[j] == c;
                assert(ids@[j] == c);
            }
        }
        if overflow {
            Some(Refusal::AddressOverflow)
        } else {
            None
        }
    }

    /// Why the fault of `vm_idx` cannot be handled.
    fn check_event(&self, vm_idx: u16, event: UffdEvent) -> (refusal: Option<Refusal>)
        requires
            self@.wf(),
        ensures
            refusal == self@.event_refusal(vm_idx, event),
    {
        broadcast use vstd::std_specs::hash::group_hash_axioms;

        if !self.vms.contains_key(&vm_idx) {
            return Some(Refusal::VmNotFound);
        }
        let base: u64 = self.vm(vm_idx).uffd_address;
        if event.address < base {
            return Some(Refusal::AddressBelowVm);
        }
        let page_idx: u64 = (event.address - base) / PAGE_SIZE;
        if page_idx >= self.table(vm_idx).len() as u64 {
            Some(Refusal::PageOutOfRange)
        } else if event.rw == ReadWrite::Read || event.kind == FaultKind::Missing {
            self.check_missing(vm_idx, page_idx)
        } else {
            self.check_write(vm_idx, page_idx)
        }
    }

    /// Why `step` cannot be called with this input; nothing where it can.
    pub fn check(&self, input: &Input) -> (refusal: Option<Refusal>)
        requires
            self@.wf(),
        ensures
            refusal == self@.refusal(*input),
    {
        broadcast use vstd::std_specs::hash::group_hash_axioms;

        match (&self.pending, input) {
            (Pending::Message, Input::Message(UffdMessage::AddVm(vm))) => {
                match vm.source_vm_idx {
                    Some(parent) => {
                        if self.vms.contains_key(&parent) {
                            None
                        } else {
                            Some(Refusal::ParentVmNotFound)
                        }
                    },
                    None => {
                        if vm.memfd_size / PAGE_SIZE <= usize::MAX as u64 {
                            None
                        } else {
                            Some(Refusal::TableTooLarge)
                        }
                    },
                }
            },
            (Pending::Message, Input::Message(UffdMessage::UffdEvent { vm_idx, event })) => {
                self.check_event(*vm_idx, *event)
            },
            (Pending::Protection(_), Input::Done) => None,
            (Pending::Signal, Input::Done) => None,
            (Pending::Waking, Input::Done) => None,
            (Pending::Unprotection, Input::Done) => None,
            (Pending::Filling { vm_idx, page_idx }, Input::Transferred(bytes)) => {
                let table: &Vec<VmBackend> = self.table(*vm_idx);
                assert(*page_idx < table.len());
                let room: usize = table.len() - *page_idx as usize;
                if *bytes / PAGE_SIZE as usize > room {
                    Some(Refusal::TransferTooLong)
                } else {
                    None
                }
            },
            (Pending::Copying(share), Input::Transferred(bytes)) => {
                let table: &Vec<VmBackend> = self.table(share.children[share.next]);
                assert(share.page_idx < table.len());
                let room: usize = table.len() - share.page_idx as usize;
                if received(*bytes) > room {
                    Some(Refusal::TransferTooLong)
                } else {
                    None
                }
            },
            _ => Some(Refusal::Unexpected),
        }
    }

    /// Takes the outcome of the action that was asked for, or the message that was waited
    /// for, and decides what has to be done next.
    pub fn step(&mut self, input: Input) -> (action: Action)
        requires
            old(self)@.wf(),
            old(self)@.accepts(input),
        ensures
            old(self)@.step(input, final(self)@, action),
            final(self)@.wf(),
    {
        let ghost pre = self@;
        let action: Action = self.decide(input);
        proof {
            lemma_step_keeps_wf(pre, input, self@, action);
        }
        action
    }

    /// Does what the input calls for.
    fn decide(&mut self, input: Input) -> (action: Action)
        requires
            old(self)@.wf(),
            old(self)@.accepts(input),
        ensures
            old(self)@.step(input, final(self)@, action),
    {
        let mut pending = Pending::Message;
        std::mem::swap(&mut self.pending, &mut pending);
        match (pending, input) {
            (Pending::Message, Input::Message(UffdMessage::AddVm(vm))) => {
                match vm.source_vm_idx {
                    Some(parent) => {
                        let parent_vm: Vm = self.vm(parent);
                        self.pending = Pending::Protection(vm);
                        Action::WriteProtect {
                            vm_idx: parent,
                            address: parent_vm.uffd_address,
                            size: parent_vm.memfd_size,
                        }
                    },
                    None => {
                        let pages: usize = (vm.memfd_size / PAGE_SIZE) as usize;
                        let table: Vec<VmBackend> = vec![VmBackend::Zero; pages];
                        assert(table@ =~= Seq::new(pages as nat, |k: int| VmBackend::Zero));
                        self.track(vm, table);
                        Action::Ready { vm_idx: vm.vm_idx }
                    },
                }
            },
            (Pending::Message, Input::Message(UffdMessage::UffdEvent { vm_idx, event })) => {
                if event.rw == ReadWrite::Read || event.kind == FaultKind::Missing {
                    self.supply(vm_idx, event)
                } else {
                    self.share(vm_idx, event)
                }
            },
            (Pending::Protection(vm), Input::Done) => {
                // The new VM starts with the sources that its parent has now.
                let table: Vec<VmBackend> = match vm.source_vm_idx {
                    Some(parent) => self.table(parent).clone(),
                    None => Vec::new(),
                };
                assert(table@ =~= old(self)@.sources[vm.source_vm_idx->0]);
                self.track(vm, table);
                Action::Ready { vm_idx: vm.vm_idx }
            },
            (Pending::Filling { vm_idx, page_idx }, Input::Transferred(bytes)) => {
                // What was filled belongs to this VM now, so that its clones load from it.
                let table: &Vec<VmBackend> = self.table(vm_idx);
                assert(page_idx < table.len());
                self.own(vm_idx, page_idx as usize, bytes / PAGE_SIZE as usize);
                Action::Receive
            },
            (Pending::Copying(share), Input::Transferred(bytes)) => {
                let child: u16 = share.children[share.next];
                let table: &Vec<VmBackend> = self.table(child);
                assert(share.page_idx < table.len());
                assert(share.next < share.children.len());
                proof {
                    lemma_child_served(self@, share.model(), bytes);
                }
                // What the child received is its own now, so that its clones load from it.
                self.own(child, share.page_idx as usize, received(bytes));
                let least: usize = match share.least {
                    Some(before) => if before < bytes {
                        before
                    } else {
                        bytes
                    },
                    None => bytes,
                };
                let mut share = share;
                share.next = share.next + 1;
                share.least = Some(least);
                self.serve(share)
            },
            _ => Action::Receive,
        }
    }
}

} // verus!
