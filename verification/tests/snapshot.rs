//! The manager against a small model of the kernel.

use std::collections::{HashMap, HashSet};

use uffd_handler::backend::PAGE_SIZE;
use uffd_handler::event::{Action, FaultKind, Input, ReadWrite, UffdEvent, UffdMessage, Vm};
use uffd_handler::manager_thread::Manager;

const PAGES: u64 = 40;

fn base(vm_idx: u16) -> u64 {
    0x1000_0000 * (vm_idx as u64 + 1)
}

#[derive(Default)]
struct Machine {
    pages: HashMap<(u16, u64), u8>,
    protected: HashSet<(u16, u64)>,
}

impl Machine {
    fn perform(&mut self, action: Action) -> Input {
        match action {
            Action::WriteProtect {
                vm_idx,
                address,
                size,
            } => {
                let first = (address - base(vm_idx)) / PAGE_SIZE;
                for page in first..first + size / PAGE_SIZE {
                    if self.pages.contains_key(&(vm_idx, page)) {
                        self.protected.insert((vm_idx, page));
                    }
                }
                Input::Done
            }
            Action::ZeroPages {
                vm_idx,
                address,
                len,
                ..
            } => {
                let first = (address - base(vm_idx)) / PAGE_SIZE;
                for page in first..first + len as u64 / PAGE_SIZE {
                    assert!(self.pages.insert((vm_idx, page), 0).is_none());
                }
                Input::Transferred(len)
            }
            Action::CopyPages {
                vm_idx,
                source_vm_idx,
                source_address,
                address,
                len,
                ..
            } => {
                let first = (address - base(vm_idx)) / PAGE_SIZE;
                let source_first = (source_address - base(source_vm_idx) * 2) / PAGE_SIZE;
                for i in 0..len as u64 / PAGE_SIZE {
                    let byte = self.pages[&(source_vm_idx, source_first + i)];
                    assert!(self.pages.insert((vm_idx, first + i), byte).is_none());
                }
                Input::Transferred(len)
            }
            Action::RemoveWriteProtection {
                vm_idx,
                address,
                len,
                ..
            } => {
                let first = (address - base(vm_idx)) / PAGE_SIZE;
                for page in first..first + len as u64 / PAGE_SIZE {
                    self.protected.remove(&(vm_idx, page));
                }
                Input::Done
            }
            Action::Wake { .. } | Action::Ready { .. } => Input::Done,
            Action::Receive => panic!("nothing to perform"),
        }
    }
}

struct World {
    manager: Manager,
    machine: Machine,
}

impl World {
    fn new() -> World {
        World {
            manager: Manager::new(),
            machine: Machine::default(),
        }
    }

    fn send(&mut self, message: UffdMessage) {
        let mut input = Input::Message(message);
        loop {
            assert_eq!(self.manager.check(&input), None);
            let action = self.manager.step(input);
            if action == Action::Receive {
                return;
            }
            input = self.machine.perform(action);
        }
    }

    fn add(&mut self, vm_idx: u16, source: Option<u16>) {
        self.send(UffdMessage::AddVm(Vm {
            vm_idx,
            uffd_address: base(vm_idx),
            memfd_address: base(vm_idx) * 2,
            memfd_size: PAGES * PAGE_SIZE,
            source_vm_idx: source,
        }));
    }

    fn fault(&mut self, vm_idx: u16, page: u64, kind: FaultKind, rw: ReadWrite) {
        let address = base(vm_idx) + page * PAGE_SIZE;
        self.send(UffdMessage::UffdEvent {
            vm_idx,
            event: UffdEvent { address, kind, rw },
        });
    }

    fn read(&mut self, vm_idx: u16, page: u64) -> u8 {
        if !self.machine.pages.contains_key(&(vm_idx, page)) {
            self.fault(vm_idx, page, FaultKind::Missing, ReadWrite::Read);
        }
        self.machine.pages[&(vm_idx, page)]
    }

    fn write(&mut self, vm_idx: u16, page: u64, byte: u8) {
        if !self.machine.pages.contains_key(&(vm_idx, page)) {
            self.fault(vm_idx, page, FaultKind::Missing, ReadWrite::Write);
        }
        if self.machine.protected.contains(&(vm_idx, page)) {
            self.fault(vm_idx, page, FaultKind::WriteProtected, ReadWrite::Write);
        }
        assert!(!self.machine.protected.contains(&(vm_idx, page)));
        self.machine.pages.insert((vm_idx, page), byte);
    }
}

/// The pages in an order that jumps about.
fn scattered(step: u64) -> Vec<u64> {
    (0..PAGES).map(|i| i * step % PAGES).collect()
}

#[test]
fn a_child_reads_what_its_parent_held() {
    let mut world = World::new();
    world.add(0, None);
    for page in 0..PAGES {
        world.write(0, page, 1);
    }
    world.add(1, Some(0));
    let writes = scattered(7);
    let reads = scattered(11);
    for i in 0..PAGES as usize {
        world.write(0, writes[i], 2);
        assert_eq!(world.read(1, reads[i]), 1);
    }
    for page in 0..PAGES {
        assert_eq!(world.read(0, page), 2);
        assert_eq!(world.read(1, page), 1);
    }
}

#[test]
fn a_parent_does_not_see_what_its_child_writes() {
    let mut world = World::new();
    world.add(0, None);
    for page in 0..PAGES {
        world.write(0, page, page as u8);
    }
    world.add(1, Some(0));
    for page in scattered(3) {
        world.write(1, page, 200);
        assert_eq!(world.read(0, page), page as u8);
    }
}

#[test]
fn pages_that_were_never_written_read_as_zeroes() {
    let mut world = World::new();
    world.add(0, None);
    world.write(0, 5, 9);
    world.add(1, Some(0));
    world.write(0, 5, 10);
    world.write(0, 6, 10);
    assert_eq!(world.read(1, 4), 0);
    assert_eq!(world.read(1, 5), 9);
    assert_eq!(world.read(1, 6), 0);
    assert_eq!(world.read(0, 5), 10);
}

#[test]
fn a_child_that_writes_keeps_its_other_pages() {
    let mut world = World::new();
    world.add(0, None);
    for page in 0..PAGES {
        world.write(0, page, 1);
    }
    world.add(1, Some(0));
    for page in scattered(9) {
        if page % 3 == 0 {
            world.write(1, page, 3);
        }
        world.write(0, page, 2);
    }
    for page in 0..PAGES {
        let expected = if page % 3 == 0 { 3 } else { 1 };
        assert_eq!(world.read(1, page), expected);
        assert_eq!(world.read(0, page), 2);
    }
}

#[test]
fn a_clone_of_a_child_reads_what_the_child_held() {
    let mut world = World::new();
    world.add(0, None);
    for page in 0..PAGES {
        world.write(0, page, 1);
    }
    world.add(1, Some(0));
    // All pages go to the child with the first write.
    for page in 0..PAGES {
        world.write(0, page, 2);
    }
    world.add(2, Some(1));
    for page in scattered(7) {
        world.write(1, page, 3);
        assert_eq!(world.read(2, page), 1);
        assert_eq!(world.read(0, page), 2);
    }
}

#[test]
fn a_fault_that_waited_is_answered_by_waking() {
    let mut world = World::new();
    world.add(0, None);
    for page in 0..PAGES {
        world.write(0, page, 1);
    }
    world.add(1, Some(0));
    world.write(0, 0, 2);
    // The child faulted on this page before it was copied along.
    world.fault(1, 5, FaultKind::Missing, ReadWrite::Read);
    assert_eq!(world.read(1, 5), 1);
}
