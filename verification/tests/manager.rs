use uffd_handler::event::{Action, FaultKind, Input, ReadWrite, UffdEvent, UffdMessage, Vm};
use uffd_handler::manager_thread::Manager;
use uffd_handler::state::Refusal;

const PAGE: u64 = 4096;

fn uffd_base(vm_idx: u16) -> u64 {
    0x1000_0000 * (vm_idx as u64 + 1)
}

fn memfd_base(vm_idx: u16) -> u64 {
    0x10_0000_0000 + uffd_base(vm_idx)
}

fn vm_to_add(
    vm_idx: u16,
    uffd_address: u64,
    memfd_address: u64,
    memfd_size: u64,
    source_vm_idx: Option<u16>,
) -> UffdMessage {
    UffdMessage::AddVm(Vm {
        vm_idx,
        uffd_address,
        memfd_address,
        memfd_size,
        source_vm_idx,
    })
}

fn vm_message(vm_idx: u16, pages: u64, source: Option<u16>) -> Input {
    Input::Message(vm_to_add(
        vm_idx,
        uffd_base(vm_idx),
        memfd_base(vm_idx),
        pages * PAGE,
        source,
    ))
}

fn fault(vm_idx: u16, page: u64, kind: FaultKind, rw: ReadWrite) -> Input {
    Input::Message(UffdMessage::UffdEvent {
        vm_idx,
        event: UffdEvent {
            address: uffd_base(vm_idx) + page * PAGE,
            kind,
            rw,
        },
    })
}

fn missing(vm_idx: u16, page: u64) -> Input {
    fault(vm_idx, page, FaultKind::Missing, ReadWrite::Read)
}

fn written(vm_idx: u16, page: u64) -> Input {
    fault(vm_idx, page, FaultKind::WriteProtected, ReadWrite::Write)
}

fn step(manager: &mut Manager, input: Input) -> Action {
    assert_eq!(manager.check(&input), None);
    manager.step(input)
}

fn add(manager: &mut Manager, vm_idx: u16, pages: u64, source: Option<u16>) {
    let mut action = step(manager, vm_message(vm_idx, pages, source));
    if let Some(parent) = source {
        assert!(matches!(action, Action::WriteProtect { vm_idx, .. } if vm_idx == parent));
        action = step(manager, Input::Done);
    }
    assert_eq!(action, Action::Ready { vm_idx });
    assert_eq!(step(manager, Input::Done), Action::Receive);
}

/// A manager with VM 0 of this many pages, all of them filled.
fn with_filled_vm(pages: u64) -> Manager {
    let mut manager = Manager::new();
    add(&mut manager, 0, pages, None);
    let mut page = 0;
    while page < pages {
        match step(&mut manager, missing(0, page)) {
            Action::ZeroPages { len, .. } => {
                assert_eq!(
                    step(&mut manager, Input::Transferred(len)),
                    Action::Receive
                );
                page += len as u64 / PAGE;
            }
            other => panic!("{:?}", other),
        }
    }
    manager
}

fn copy(to: u16, from: u16, page: u64, pages: u64, wake: bool) -> Action {
    Action::CopyPages {
        vm_idx: to,
        source_vm_idx: from,
        page_idx: page,
        source_address: memfd_base(from) + page * PAGE,
        address: uffd_base(to) + page * PAGE,
        len: (pages * PAGE) as usize,
        wake,
        write_protect: false,
    }
}

fn unprotect(vm_idx: u16, page: u64, pages: u64) -> Action {
    Action::RemoveWriteProtection {
        vm_idx,
        page_idx: page,
        address: uffd_base(vm_idx) + page * PAGE,
        len: (pages * PAGE) as usize,
        wake: true,
    }
}

fn wakes(manager: &mut Manager, vm_idx: u16, page: u64) {
    assert_eq!(
        step(manager, missing(vm_idx, page)),
        Action::Wake {
            vm_idx,
            page_idx: page,
            address: uffd_base(vm_idx) + page * PAGE,
            len: 4096,
        }
    );
    assert_eq!(step(manager, Input::Done), Action::Receive);
}

#[test]
fn a_new_vm_is_zeroed_up_to_its_end() {
    let mut manager = Manager::new();
    add(&mut manager, 0, 5, None);
    assert_eq!(
        step(&mut manager, missing(0, 2)),
        Action::ZeroPages {
            vm_idx: 0,
            page_idx: 2,
            address: uffd_base(0) + 2 * PAGE,
            len: 3 * 4096,
            wake: true,
        }
    );
}

#[test]
fn a_request_is_cut_at_the_page_limit() {
    let mut manager = Manager::new();
    add(&mut manager, 0, 3000, None);
    match step(&mut manager, missing(0, 7)) {
        Action::ZeroPages { len, .. } => assert_eq!(len, 1024 * 4096),
        other => panic!("{:?}", other),
    }
}

#[test]
fn a_missing_page_is_supplied_for_writes_too() {
    let mut manager = Manager::new();
    add(&mut manager, 0, 1, None);
    let write = fault(0, 0, FaultKind::Missing, ReadWrite::Write);
    assert!(matches!(
        step(&mut manager, write),
        Action::ZeroPages { .. }
    ));
}

#[test]
fn a_read_of_a_protected_page_is_supplied() {
    let mut manager = with_filled_vm(2);
    let read = fault(0, 1, FaultKind::WriteProtected, ReadWrite::Read);
    assert!(matches!(step(&mut manager, read), Action::Wake { .. }));
}

#[test]
fn an_address_within_a_page_keeps_its_offset() {
    let mut manager = Manager::new();
    add(&mut manager, 0, 2, None);
    let input = Input::Message(UffdMessage::UffdEvent {
        vm_idx: 0,
        event: UffdEvent {
            address: uffd_base(0) + PAGE + 17,
            kind: FaultKind::Missing,
            rw: ReadWrite::Read,
        },
    });
    assert_eq!(
        step(&mut manager, input),
        Action::ZeroPages {
            vm_idx: 0,
            page_idx: 1,
            address: uffd_base(0) + PAGE + 17,
            len: 4096,
            wake: true,
        }
    );
}

#[test]
fn only_filled_pages_become_own() {
    let mut manager = Manager::new();
    add(&mut manager, 0, 4, None);
    step(&mut manager, missing(0, 0));
    // Two pages and a bit were filled.
    step(&mut manager, Input::Transferred(2 * 4096 + 100));
    wakes(&mut manager, 0, 0);
    wakes(&mut manager, 0, 1);
    assert_eq!(
        step(&mut manager, missing(0, 2)),
        Action::ZeroPages {
            vm_idx: 0,
            page_idx: 2,
            address: uffd_base(0) + 2 * PAGE,
            len: 2 * 4096,
            wake: true,
        }
    );
}

#[test]
fn a_clone_protects_the_whole_parent_first() {
    let mut manager = with_filled_vm(4);
    assert_eq!(
        step(&mut manager, vm_message(1, 4, Some(0))),
        Action::WriteProtect {
            vm_idx: 0,
            address: uffd_base(0),
            size: 4 * PAGE,
        }
    );
    assert_eq!(
        step(&mut manager, Input::Done),
        Action::Ready { vm_idx: 1 }
    );
}

#[test]
fn a_clone_has_the_sources_of_its_parent() {
    let mut manager = Manager::new();
    add(&mut manager, 0, 6, None);
    step(&mut manager, missing(0, 2));
    step(&mut manager, Input::Transferred(2 * 4096));
    // Sources of VM 0: zero, zero, own, own, zero, zero.
    add(&mut manager, 1, 6, Some(0));
    assert!(matches!(
        step(&mut manager, missing(1, 0)),
        Action::ZeroPages { len: 8192, .. }
    ));
    step(&mut manager, Input::Transferred(8192));
    assert_eq!(step(&mut manager, missing(1, 2)), copy(1, 0, 2, 2, true));
    step(&mut manager, Input::Transferred(8192));
    wakes(&mut manager, 1, 3);
}

#[test]
fn a_grandchild_fetches_from_where_the_page_is() {
    let mut manager = with_filled_vm(3);
    add(&mut manager, 1, 3, Some(0));
    assert_eq!(step(&mut manager, missing(1, 0)), copy(1, 0, 0, 3, true));
    step(&mut manager, Input::Transferred(4096));
    // VM 1 owns page 0 and takes the others from VM 0.
    add(&mut manager, 2, 3, Some(1));
    assert_eq!(step(&mut manager, missing(2, 0)), copy(2, 1, 0, 1, true));
    step(&mut manager, Input::Transferred(4096));
    assert_eq!(step(&mut manager, missing(2, 1)), copy(2, 0, 1, 2, true));
}

#[test]
fn a_write_without_children_frees_one_page() {
    let mut manager = with_filled_vm(3);
    assert_eq!(step(&mut manager, written(0, 1)), unprotect(0, 1, 1));
    assert_eq!(step(&mut manager, Input::Done), Action::Receive);
}

#[test]
fn a_write_hands_the_page_to_the_child_first() {
    let mut manager = with_filled_vm(5);
    add(&mut manager, 1, 5, Some(0));
    assert_eq!(step(&mut manager, written(0, 1)), copy(1, 0, 1, 4, false));
    assert_eq!(
        step(&mut manager, Input::Transferred(4 * 4096)),
        unprotect(0, 1, 4)
    );
    assert_eq!(step(&mut manager, Input::Done), Action::Receive);
    // The page that was written is the child's own now, and so are those that went along: a
    // fault on one of them that was waiting only wakes.
    for page in 1..5 {
        wakes(&mut manager, 1, page);
    }
    assert_eq!(step(&mut manager, written(0, 1)), unprotect(0, 1, 1));
    step(&mut manager, Input::Done);
    assert_eq!(step(&mut manager, missing(1, 0)), copy(1, 0, 0, 1, true));
}

#[test]
fn a_clone_of_a_child_fetches_what_was_copied_along() {
    let mut manager = Manager::new();
    let sizes = 0x2000;
    let first = vm_to_add(0, 0x10000, 0x80000, sizes, None);
    let second = vm_to_add(1, 0x20000, 0x90000, sizes, Some(0));
    let third = vm_to_add(2, 0x30000, 0xa0000, sizes, Some(1));
    let event = |vm_idx, address, kind, rw| {
        Input::Message(UffdMessage::UffdEvent {
            vm_idx,
            event: UffdEvent { address, kind, rw },
        })
    };
    step(&mut manager, Input::Message(first));
    step(&mut manager, Input::Done);
    step(
        &mut manager,
        event(0, 0x10000, FaultKind::Missing, ReadWrite::Write),
    );
    step(&mut manager, Input::Transferred(0x2000));
    step(&mut manager, Input::Message(second));
    step(&mut manager, Input::Done);
    step(&mut manager, Input::Done);
    let action = step(
        &mut manager,
        event(0, 0x10000, FaultKind::WriteProtected, ReadWrite::Write),
    );
    assert!(matches!(action, Action::CopyPages { len: 0x2000, .. }));
    step(&mut manager, Input::Transferred(0x2000));
    step(&mut manager, Input::Done);
    step(&mut manager, Input::Message(third));
    step(&mut manager, Input::Done);
    step(&mut manager, Input::Done);
    assert_eq!(
        step(
            &mut manager,
            event(2, 0x31000, FaultKind::Missing, ReadWrite::Read)
        ),
        Action::CopyPages {
            vm_idx: 2,
            source_vm_idx: 1,
            page_idx: 1,
            source_address: 0x91000,
            address: 0x31000,
            len: 0x1000,
            wake: true,
            write_protect: false,
        }
    );
}

#[test]
fn a_child_owns_only_what_it_received() {
    let mut manager = with_filled_vm(5);
    add(&mut manager, 1, 5, Some(0));
    assert_eq!(step(&mut manager, written(0, 0)), copy(1, 0, 0, 5, false));
    assert_eq!(
        step(&mut manager, Input::Transferred(2 * 4096)),
        unprotect(0, 0, 2)
    );
    step(&mut manager, Input::Done);
    wakes(&mut manager, 1, 0);
    wakes(&mut manager, 1, 1);
    assert_eq!(step(&mut manager, missing(1, 2)), copy(1, 0, 2, 3, true));
}

#[test]
fn a_child_owns_the_written_page_even_if_less_arrived() {
    let mut manager = with_filled_vm(3);
    add(&mut manager, 1, 3, Some(0));
    step(&mut manager, written(0, 0));
    step(&mut manager, Input::Transferred(0));
    step(&mut manager, Input::Done);
    wakes(&mut manager, 1, 0);
    assert_eq!(step(&mut manager, missing(1, 1)), copy(1, 0, 1, 2, true));
}

#[test]
fn the_fewest_bytes_decide_what_becomes_writable() {
    let mut manager = with_filled_vm(6);
    for child in 1..4 {
        add(&mut manager, child, 6, Some(0));
    }
    let bytes = |vm_idx: u16| [0, 3 * 4096, 2 * 4096, 5 * 4096][vm_idx as usize];
    let mut served = vec![];
    let mut action = step(&mut manager, written(0, 0));
    while let Action::CopyPages { vm_idx, .. } = action {
        assert_eq!(action, copy(vm_idx, 0, 0, 6, false));
        served.push(vm_idx);
        action = step(&mut manager, Input::Transferred(bytes(vm_idx)));
    }
    served.sort();
    assert_eq!(served, vec![1, 2, 3]);
    assert_eq!(action, unprotect(0, 0, 2));
    step(&mut manager, Input::Done);
    for child in 1..4 {
        wakes(&mut manager, child, 0);
    }
}

#[test]
fn children_that_hold_the_page_are_left_alone() {
    let mut manager = with_filled_vm(4);
    add(&mut manager, 1, 4, Some(0));
    add(&mut manager, 2, 4, Some(0));
    step(&mut manager, missing(1, 0));
    step(&mut manager, Input::Transferred(4 * 4096));
    assert_eq!(step(&mut manager, written(0, 0)), copy(2, 0, 0, 4, false));
    assert_eq!(
        step(&mut manager, Input::Transferred(4 * 4096)),
        unprotect(0, 0, 4)
    );
}

#[test]
fn a_vm_added_again_starts_anew() {
    let mut manager = with_filled_vm(2);
    add(&mut manager, 0, 3, None);
    assert!(matches!(
        step(&mut manager, missing(0, 0)),
        Action::ZeroPages { len: 12288, .. }
    ));
}

#[test]
fn an_unknown_parent_is_refused() {
    let manager = with_filled_vm(1);
    let refusal = manager.check(&vm_message(1, 1, Some(7)));
    assert_eq!(refusal, Some(Refusal::ParentVmNotFound));
    assert_eq!(refusal.unwrap().message(), "parent vm not found");
}

#[test]
fn an_unknown_vm_is_refused() {
    let manager = with_filled_vm(1);
    let refusal = manager.check(&missing(1, 0));
    assert_eq!(refusal, Some(Refusal::VmNotFound));
    assert_eq!(refusal.unwrap().message(), "vm not found");
}

#[test]
fn addresses_outside_the_table_are_refused() {
    let manager = with_filled_vm(2);
    let below = Input::Message(UffdMessage::UffdEvent {
        vm_idx: 0,
        event: UffdEvent {
            address: uffd_base(0) - 1,
            kind: FaultKind::Missing,
            rw: ReadWrite::Read,
        },
    });
    assert_eq!(manager.check(&below), Some(Refusal::AddressBelowVm));
    assert_eq!(
        manager.check(&missing(0, 2)),
        Some(Refusal::PageOutOfRange)
    );
    assert_eq!(
        manager.check(&written(0, 2)),
        Some(Refusal::PageOutOfRange)
    );
    assert_eq!(manager.check(&missing(0, 1)), None);
}

#[test]
fn a_shorter_vm_makes_a_write_fail() {
    let mut manager = with_filled_vm(4);
    add(&mut manager, 1, 2, None);
    assert_eq!(
        manager.check(&written(0, 3)),
        Some(Refusal::OtherPageOutOfRange)
    );
    assert_eq!(manager.check(&written(0, 1)), None);
}

#[test]
fn a_source_that_shrank_cannot_supply() {
    let mut manager = with_filled_vm(4);
    add(&mut manager, 1, 4, Some(0));
    add(&mut manager, 0, 2, None);
    assert_eq!(
        manager.check(&missing(1, 3)),
        Some(Refusal::OtherPageOutOfRange)
    );
    assert_eq!(manager.check(&missing(1, 1)), None);
}

#[test]
fn addresses_beyond_the_last_are_refused() {
    let mut manager = with_filled_vm(4);
    let message = vm_to_add(1, u64::MAX - 5000, memfd_base(1), 4 * PAGE, Some(0));
    step(&mut manager, Input::Message(message));
    step(&mut manager, Input::Done);
    step(&mut manager, Input::Done);
    assert_eq!(
        manager.check(&written(0, 2)),
        Some(Refusal::AddressOverflow)
    );
    assert_eq!(manager.check(&written(0, 1)), None);
}

#[test]
fn a_source_address_beyond_the_last_is_refused() {
    let mut manager = Manager::new();
    let message = vm_to_add(0, uffd_base(0), u64::MAX - 5000, 4 * PAGE, None);
    step(&mut manager, Input::Message(message));
    step(&mut manager, Input::Done);
    step(&mut manager, missing(0, 0));
    step(&mut manager, Input::Transferred(4 * 4096));
    add(&mut manager, 1, 4, Some(0));
    assert_eq!(
        manager.check(&missing(1, 3)),
        Some(Refusal::AddressOverflow)
    );
}

#[test]
fn a_transfer_beyond_the_table_is_refused() {
    let mut manager = Manager::new();
    add(&mut manager, 0, 2, None);
    step(&mut manager, missing(0, 1));
    assert_eq!(manager.check(&Input::Transferred(4096)), None);
    assert_eq!(manager.check(&Input::Transferred(8191)), None);
    assert_eq!(
        manager.check(&Input::Transferred(8192)),
        Some(Refusal::TransferTooLong)
    );
}

#[test]
fn a_transfer_beyond_the_table_of_a_child_is_refused() {
    let mut manager = with_filled_vm(3);
    add(&mut manager, 1, 3, Some(0));
    step(&mut manager, written(0, 1));
    assert_eq!(manager.check(&Input::Transferred(0)), None);
    assert_eq!(manager.check(&Input::Transferred(2 * 4096)), None);
    assert_eq!(
        manager.check(&Input::Transferred(3 * 4096)),
        Some(Refusal::TransferTooLong)
    );
}

#[test]
fn only_the_awaited_input_is_accepted() {
    let mut manager = with_filled_vm(1);
    assert_eq!(manager.check(&Input::Done), Some(Refusal::Unexpected));
    assert_eq!(
        manager.check(&Input::Transferred(4096)),
        Some(Refusal::Unexpected)
    );
    step(&mut manager, missing(0, 0));
    assert_eq!(
        manager.check(&missing(0, 0)),
        Some(Refusal::Unexpected)
    );
    assert_eq!(manager.check(&Input::Done), None);
}
