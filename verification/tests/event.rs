use uffd_handler::event::{Event, FaultKind, ReadWrite, UffdEvent};

#[test]
fn a_pagefault_is_taken_over() {
    let event = UffdEvent::from(Event::Pagefault {
        kind: FaultKind::WriteProtected,
        rw: ReadWrite::Write,
        addr: 0x7f00_1000,
    });
    assert_eq!(event.address, 0x7f00_1000);
    assert_eq!(event.kind, FaultKind::WriteProtected);
    assert_eq!(event.rw, ReadWrite::Write);
}
