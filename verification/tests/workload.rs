use uffd_handler::workload::{
    check_read, memory_bytes, Chunk, Mismatch, Walk, DEFAULT_MEMORY_MIB, MAX_MEMORY_MIB,
    READ_LIMIT, WRITE_LIMIT,
};

#[test]
fn memory_is_counted_in_mebibytes() {
    assert_eq!(memory_bytes(DEFAULT_MEMORY_MIB), 268435456);
    assert_eq!(memory_bytes(1), 1048576);
    assert_eq!(memory_bytes(0), 0);
    assert_eq!(memory_bytes(MAX_MEMORY_MIB), 18446744073708503040);
}

#[test]
fn a_chunk_is_as_long_as_drawn_or_as_what_is_left() {
    let mut walk = Walk::new(0x5000, 8192, 10000);
    let first = walk.take(6000);
    assert_eq!(
        first,
        Chunk {
            address: 0x5000,
            offset: 0,
            len: 6000,
            page_idx: 2
        }
    );
    assert_eq!(first.pages(), "(2),(3)");
    let second = walk.take(6000);
    assert_eq!(
        second,
        Chunk {
            address: 0x5000 + 6000,
            offset: 6000,
            len: 4000,
            page_idx: 3
        }
    );
    assert_eq!(second.pages(), "(3)");
    assert_eq!(walk.offset, 10000);
    assert!(walk.next_write().is_none());
    assert!(walk.next_read().is_none());
    assert_eq!(walk.offset, 10000);
}

#[test]
fn an_empty_walk_has_no_chunk() {
    assert!(Walk::new(0, 0, 0).next_write().is_none());
}

fn walk_all(len: usize, limit: usize, write: bool) -> Vec<usize> {
    let mut walk = Walk::new(4096, 0, len);
    let mut lens = vec![];
    let mut expected_offset = 0;
    loop {
        let chunk = if write {
            walk.next_write()
        } else {
            walk.next_read()
        };
        let chunk = match chunk {
            Some(chunk) => chunk,
            None => break,
        };
        assert_eq!(chunk.offset, expected_offset);
        assert_eq!(chunk.address, 4096 + expected_offset as u64);
        assert_eq!(chunk.page_idx, expected_offset as u64 / 4096);
        assert!(chunk.len >= 1 && chunk.len < limit);
        expected_offset += chunk.len;
        lens.push(chunk.len);
    }
    assert_eq!(expected_offset, len);
    lens
}

#[test]
fn random_walks_cover_every_byte_once() {
    let writes = walk_all(4 << 20, WRITE_LIMIT, true);
    let reads = walk_all(4 << 20, READ_LIMIT, false);
    // Lengths vary, and writes reach beyond what a read may take.
    assert!(writes.iter().any(|&len| len != writes[0]));
    assert!(reads.iter().any(|&len| len != reads[0]));
    assert!(writes.iter().any(|&len| len > READ_LIMIT));
}

#[test]
fn a_read_walk_finds_what_a_write_walk_wrote() {
    let len = 300_000;
    let mut memory = vec![1u8; len];
    let mut walk = Walk::new(0, 0, len);
    while let Some(chunk) = walk.next_write() {
        for byte in &mut memory[chunk.offset..chunk.offset + chunk.len] {
            *byte = 2;
        }
    }
    let mut walk = Walk::new(0, 0, len);
    while let Some(chunk) = walk.next_read() {
        let read = &memory[chunk.offset..chunk.offset + chunk.len];
        assert_eq!(check_read(0, 0, &chunk, read, 2), None);
        assert_eq!(check_read(0, 0, &chunk, read, 1).unwrap().index, 0);
    }
}

#[test]
fn a_read_of_a_part_finds_what_was_written() {
    let len = 100_000;
    let base: u64 = 0x4000;
    let mut memory = vec![1u8; len];
    let mut walk = Walk::new(base, 0, len);
    while let Some(chunk) = walk.next_write() {
        for byte in &mut memory[chunk.offset..chunk.offset + chunk.len] {
            *byte = 7;
        }
    }
    for (start, part) in [(0, 10), (1234, 50_000), (99_999, 1), (40_000, 60_000)] {
        let mut walk = Walk::new(base + start, 0, part);
        while let Some(chunk) = walk.next_read() {
            let at = (chunk.address - base) as usize;
            let read = &memory[at..at + chunk.len];
            assert_eq!(check_read(0, walk.addr, &chunk, read, 7), None);
            let wrong = check_read(0, walk.addr, &chunk, read, 1).unwrap();
            assert_eq!((wrong.index, wrong.value), (0, 7));
        }
    }
}

#[test]
fn the_right_bytes_pass() {
    let chunk = Chunk {
        address: 0,
        offset: 0,
        len: 4,
        page_idx: 0,
    };
    assert_eq!(check_read(1, 0, &chunk, &[1, 1, 1, 1], 1), None);
}

#[test]
fn the_first_wrong_byte_is_reported() {
    let chunk = Chunk {
        address: 0x1000 + 8190,
        offset: 8190,
        len: 4,
        page_idx: 1,
    };
    let wrong = check_read(1, 0x1000, &chunk, &[1, 1, 2, 3], 1).unwrap();
    assert_eq!(
        wrong,
        Mismatch {
            idx: 1,
            addr: 0x1000,
            index: 2,
            value: 2,
            len: 4,
            page: 1,
            two_pages: true,
        }
    );
    assert_eq!(
        wrong.message(),
        "[1] could not read from base addr 4096 relative position 2, wrong val: 2, len: 4, \
         page: 1, two pages: true"
    );
}

#[test]
fn a_chunk_that_ends_with_its_page_is_on_one_page() {
    let chunk = Chunk {
        address: 4092,
        offset: 4092,
        len: 4,
        page_idx: 0,
    };
    let wrong = check_read(0, 0, &chunk, &[9, 1, 1, 1], 1).unwrap();
    assert!(!wrong.two_pages);
    assert_eq!(
        wrong.message(),
        "[0] could not read from base addr 0 relative position 0, wrong val: 9, len: 4, \
         page: 0, two pages: false"
    );
}
