//! The test workload: guest memory is written and read in chunks of random length, and what
//! is read is compared with what has to be there.

use vstd::prelude::*;
use vstd::string::StringExecFns;

use crate::backend::PAGE_SIZE;
use crate::text::{append_decimal, decimal, pages_text, print_pages_pretty};

verus! {

/// Chunks that are written are shorter than this many bytes.
pub const WRITE_LIMIT: usize = 8192;

/// Chunks that are read are shorter than this many bytes.
pub const READ_LIMIT: usize = 4096;

/// Bytes in a mebibyte.
pub const MEBIBYTE: u64 = 1048576;

/// The memory of each VM, in mebibytes, unless another size is asked for.
pub const DEFAULT_MEMORY_MIB: u64 = 256;

/// The most mebibytes whose bytes can be counted.
pub const MAX_MEMORY_MIB: u64 = 17592186044415;

/// The bytes in `mib` mebibytes.
pub fn memory_bytes(mib: u64) -> (bytes: u64)
    requires
        mib <= MAX_MEMORY_MIB,
    ensures
        bytes == mib * MEBIBYTE,
        bytes == mib * 1024 * 1024,
{
    mib * MEBIBYTE
}

/// A number of mebibytes is within the limit exactly if its bytes can be counted, and the size that
/// is taken when none is asked for is a quarter of a gibibyte.
pub proof fn lemma_memory_limit(mib: u64)
    ensures
        mib <= MAX_MEMORY_MIB <==> mib * 1024 * 1024 <= u64::MAX,
        4 * DEFAULT_MEMORY_MIB * 1024 * 1024 == 1024 * 1024 * 1024,
{
}

/// Draws a number by `rand::Rng::gen_range` from the generator of `rand::thread_rng`. Any
/// number from `low` up to, not with, `high` can come out; nothing more is claimed of it. On
/// an empty range the outside function panics.
#[verifier::external_body]
fn random_in(low: usize, high: usize) -> (drawn: usize)
    requires
        low < high,
    ensures
        low <= drawn < high,
{
    rand::Rng::gen_range(&mut rand::thread_rng(), low..high)
}

/// A part of the memory that is written or read at once.
#[derive(Clone, Copy, Debug, PartialEq, Eq)]
pub struct Chunk {
    /// Where it starts in memory.
    pub address: u64,
    /// Where it starts in the walk.
    pub offset: usize,
    /// Bytes in it.
    pub len: usize,
    /// The page that it starts in.
    pub page_idx: u64,
}

impl Chunk {
    /// The pages that are reported for the chunk: the one that it starts in, and one more for
    /// each full page of its length.
    pub fn pages(&self) -> (text: String)
        requires
            self.page_idx + self.len as int / PAGE_SIZE as int + 1 <= u64::MAX,
        ensures
            text@ == pages_text(
                self.page_idx as nat,
                (self.page_idx + self.len as int / PAGE_SIZE as int + 1) as nat,
            ),
            text@ == pages_text(
                self.page_idx as nat,
                (self.page_idx + 1 + self.len as int / 4096) as nat,
            ),
    {
        print_pages_pretty(self.page_idx..self.page_idx + self.len as u64 / PAGE_SIZE + 1)
    }

    /// The chunk reaches into the page after the one that it starts in.
    pub open spec fn crosses_page(self) -> bool {
        self.offset as int % PAGE_SIZE as int + self.len > PAGE_SIZE
    }
}

/// A walk over `len` bytes that start at `addr`.
#[derive(Clone, Copy, Debug, PartialEq, Eq)]
pub struct Walk {
    pub addr: u64,
    /// Where the walk starts in the memory of the VM.
    pub base_offset: u64,
    pub len: usize,
    /// The bytes that were walked over.
    pub offset: usize,
}

impl Walk {
    /// Every byte of the walk has an address and a place in the memory of the VM.
    pub open spec fn wf(self) -> bool {
        &&& self.addr + self.len <= u64::MAX + 1
        &&& self.base_offset + self.len <= u64::MAX + 1
    }

    /// The next chunk, where `drawn` bytes were drawn: what is left if that is less.
    pub open spec fn chunk(self, drawn: usize) -> Chunk {
        Chunk {
            address: (self.addr + self.offset) as u64,
            offset: self.offset,
            len: if self.len - self.offset < drawn {
                (self.len - self.offset) as usize
            } else {
                drawn
            },
            page_idx: ((self.base_offset + self.offset) / (PAGE_SIZE as int)) as u64,
        }
    }

    /// The walk with the chunk done.
    pub open spec fn past(self, chunk: Chunk) -> Walk {
        Walk { offset: (self.offset + chunk.len) as usize, ..self }
    }

    /// `chunk` starts where the walk stood, at the address and in the page of that byte, and the walk
    /// stands behind it, no further than its end.
    pub open spec fn goes_past(self, after: Walk, chunk: Chunk) -> bool {
        &&& chunk.offset == self.offset
        &&& chunk.address == self.addr + self.offset
        &&& chunk.page_idx == (self.base_offset + self.offset) / 4096
        &&& after.offset == self.offset + chunk.len
        &&& after.offset <= self.len
        &&& after.addr == self.addr
        &&& after.base_offset == self.base_offset
        &&& after.len == self.len
    }

    /// A walk over `len` bytes at `addr`, `base_offset` bytes into the memory of the VM.
    pub fn new(addr: u64, base_offset: u64, len: usize) -> (walk: Walk)
        requires
            addr + len <= u64::MAX + 1,
            base_offset + len <= u64::MAX + 1,
        ensures
            walk == (Walk { addr, base_offset, len, offset: 0 }),
            walk.wf(),
    {
        Walk { addr, base_offset, len, offset: 0 }
    }

    /// Takes the next chunk of at most `drawn` bytes.
    pub fn take(&mut self, drawn: usize) -> (chunk: Chunk)
        requires
            old(self).wf(),
            old(self).offset < old(self).len,
        ensures
            chunk == old(self).chunk(drawn),
            *final(self) == old(self).past(chunk),
            final(self).wf(),
            final(self).offset <= final(self).len,
            drawn > 0 ==> chunk.len > 0,
            chunk.page_idx + chunk.len as int / PAGE_SIZE as int + 1 <= u64::MAX,
            old(self).goes_past(*final(self), chunk),
            chunk.len <= drawn,
            chunk.len == drawn || final(self).offset == final(self).len,
    {
        let left: usize = self.len - self.offset;
        let len: usize = if left < drawn {
            left
        } else {
            drawn
        };
        let chunk = Chunk {
            address: self.addr + self.offset as u64,
            offset: self.offset,
            len,
            page_idx: (self.base_offset + self.offset as u64) / PAGE_SIZE,
        };
        self.offset = self.offset + len;
        chunk
    }

    /// The next chunk of random length below `limit`; nothing once the walk is done.
    fn take_random(&mut self, limit: usize) -> (chunk: Option<Chunk>)
        requires
            old(self).wf(),
            limit > 1,
        ensures
            old(self).took(limit, *final(self), chunk),
    {
        if self.offset < self.len {
            let drawn: usize = random_in(1, limit);
            Some(self.take(drawn))
        } else {
            None
        }
    }

    /// The walk was done and stands still, or `chunk` was taken: some number of bytes, one at
    /// least and fewer than `limit`, was drawn for it.
    pub open spec fn took(self, limit: usize, after: Walk, chunk: Option<Chunk>) -> bool {
        match chunk {
            None => self.offset >= self.len && after == self,
            Some(chunk) => {
                &&& self.offset < self.len
                &&& exists|drawn: usize|
                    1 <= drawn < limit && chunk == #[trigger] self.chunk(drawn)
                &&& after == self.past(chunk)
                &&& after.wf()
                &&& after.offset <= after.len
                &&& chunk.len > 0
                &&& chunk.page_idx + chunk.len as int / PAGE_SIZE as int + 1 <= u64::MAX
            },
        }
    }

    /// The next chunk to write.
    pub fn next_write(&mut self) -> (chunk: Option<Chunk>)
        requires
            old(self).wf(),
        ensures
            old(self).took(WRITE_LIMIT, *final(self), chunk),
            chunk is None <==> old(self).offset >= old(self).len,
            chunk is None ==> *final(self) == *old(self),
            chunk matches Some(taken) ==> old(self).goes_past(*final(self), taken) && 1 <= taken.len
                <= 8191,
    {
        self.take_random(WRITE_LIMIT)
    }

    /// The next chunk to read.
    pub fn next_read(&mut self) -> (chunk: Option<Chunk>)
        requires
            old(self).wf(),
        ensures
            old(self).took(READ_LIMIT, *final(self), chunk),
            chunk is None <==> old(self).offset >= old(self).len,
            chunk is None ==> *final(self) == *old(self),
            chunk matches Some(taken) ==> old(self).goes_past(*final(self), taken) && 1 <= taken.len
                <= 4095,
    {
        self.take_random(READ_LIMIT)
    }
}

/// Any length below two pages may be drawn for a chunk to write, and any length below one page for a
/// chunk to read: that many bytes are taken, or what is left if that is less.
pub proof fn lemma_any_length_may_come(walk: Walk, drawn: usize, limit: usize)
    requires
        walk.wf(),
        walk.offset < walk.len,
        1 <= drawn,
        limit == WRITE_LIMIT && drawn < 2 * 4096 || limit == READ_LIMIT && drawn < 4096,
    ensures
        exists|after: Walk, chunk: Chunk|
            #![trigger walk.goes_past(after, chunk)]
            {
                &&& walk.took(limit, after, Some(chunk))
                &&& walk.goes_past(after, chunk)
                &&& chunk.len == if drawn < walk.len - walk.offset {
                    drawn as int
                } else {
                    walk.len - walk.offset
                }
            },
{
    let chunk = walk.chunk(drawn);
    assert(walk.took(limit, walk.past(chunk), Some(chunk)));
    assert(walk.goes_past(walk.past(chunk), chunk));
}

/// The first byte of a chunk that was not what had to be there.
#[derive(Clone, Copy, Debug, PartialEq, Eq)]
pub struct Mismatch {
    pub idx: u16,
    /// Where the walk starts in memory.
    pub addr: u64,
    /// Which byte of the chunk is wrong.
    pub index: usize,
    /// What was read there.
    pub value: u8,
    /// Bytes in the chunk.
    pub len: usize,
    /// The page that the chunk starts in.
    pub page: u64,
    /// Whether the chunk reaches into the next page.
    pub two_pages: bool,
}

/// `index` is the first place where `read` does not hold `expected_byte`.
pub open spec fn first_wrong(read: Seq<u8>, expected_byte: u8, index: int) -> bool {
    &&& 0 <= index < read.len()
    &&& read[index] != expected_byte
    &&& forall|i: int| 0 <= i < index ==> #[trigger] read[i] == expected_byte
}

/// Compares what was read of a chunk with the byte that all of it has to hold.
pub fn check_read(
    idx: u16,
    addr: u64,
    chunk: &Chunk,
    read: &[u8],
    expected_byte: u8,
) -> (mismatch: Option<Mismatch>)
    requires
        read@.len() == chunk.len,
        chunk.offset + chunk.len <= usize::MAX,
    ensures
        match mismatch {
            None => forall|i: int| 0 <= i < read@.len() ==> #[trigger] read@[i] == expected_byte,
            Some(wrong) => {
                &&& first_wrong(read@, expected_byte, wrong.index as int)
                &&& wrong == (Mismatch {
                    idx,
                    addr,
                    index: wrong.index,
                    value: read@[wrong.index as int],
                    len: chunk.len,
                    page: chunk.page_idx,
                    two_pages: chunk.crosses_page(),
                })
            },
        },
        mismatch is None <==> forall|i: int|
            0 <= i < read@.len() ==> #[trigger] read@[i] == expected_byte,
        mismatch matches Some(wrong) ==> {
            &&& wrong.index < read@.len()
            &&& wrong.value == read@[wrong.index as int]
            &&& wrong.value != expected_byte
            &&& forall|i: int| 0 <= i < wrong.index ==> #[trigger] read@[i] == expected_byte
            // The first and the last byte of the chunk lie in different pages of the walk.
            &&& wrong.two_pages <==> chunk.offset as int / 4096 != (chunk.offset + chunk.len - 1)
                / 4096
        },
{
    let mut index: usize = 0;
    while index < read.len()
        invariant
            index <= read@.len(),
            read@.len() == chunk.len,
            chunk.offset + chunk.len <= usize::MAX,
            forall|i: int| 0 <= i < index ==> #[trigger] read@[i] == expected_byte,
        decreases read@.len() - index,
    {
        if read[index] != expected_byte {
            return Some(
                Mismatch {
                    idx,
                    addr,
                    index,
                    value: read[index],
                    len: chunk.len,
                    page: chunk.page_idx,
                    two_pages: chunk.offset % PAGE_SIZE as usize + chunk.len > PAGE_SIZE as usize,
                },
            );
        }
        index = index + 1;
    }
    None
}

impl Mismatch {
    /// The report of the wrong byte.
    pub open spec fn report(self) -> Seq<char> {
        "["@ + decimal(self.idx as nat) + "] could not read from base addr "@
            + decimal(self.addr as nat) + " relative position "@
            + decimal(self.index as nat) + ", wrong val: "@ + decimal(
            self.value as nat,
        ) + ", len: "@ + decimal(self.len as nat) + ", page: "@
            + decimal(self.page as nat) + ", two pages: "@ + if self.two_pages {
            "true"@
        } else {
            "false"@
        }
    }

    /// Reports the wrong byte.
    pub fn message(&self) -> (text: String)
        ensures
            text@ == self.report(),
    {
        let mut text = String::new();
        text.append("[");
        append_decimal(&mut text, self.idx as u64);
        text.append("] could not read from base addr ");
        append_decimal(&mut text, self.addr);
        text.append(" relative position ");
        append_decimal(&mut text, self.index as u64);
        text.append(", wrong val: ");
        append_decimal(&mut text, self.value as u64);
        text.append(", len: ");
        append_decimal(&mut text, self.len as u64);
        text.append(", page: ");
        append_decimal(&mut text, self.page);
        text.append(", two pages: ");
        text.append(if self.two_pages { "true" } else { "false" });
        assert(text@ =~= self.report());
        text
    }
}

/// The report names, in this order, the VM, the start of the walk, the place, the value found, the
/// length and the page of the chunk, each in decimal, and whether two pages are concerned.
pub proof fn lemma_report_names_all(wrong: Mismatch)
    ensures
        wrong.two_pages ==> wrong.report() == "["@ + decimal(wrong.idx as nat)
            + "] could not read from base addr "@ + decimal(wrong.addr as nat)
            + " relative position "@ + decimal(wrong.index as nat) + ", wrong val: "@ + decimal(
            wrong.value as nat,
        ) + ", len: "@ + decimal(wrong.len as nat) + ", page: "@ + decimal(wrong.page as nat)
            + ", two pages: "@ + "true"@,
        !wrong.two_pages ==> wrong.report() == "["@ + decimal(wrong.idx as nat)
            + "] could not read from base addr "@ + decimal(wrong.addr as nat)
            + " relative position "@ + decimal(wrong.index as nat) + ", wrong val: "@ + decimal(
            wrong.value as nat,
        ) + ", len: "@ + decimal(wrong.len as nat) + ", page: "@ + decimal(wrong.page as nat)
            + ", two pages: "@ + "false"@,
{
}

/// The chunks that a walk takes when these lengths are drawn one after another.
pub open spec fn chunks(walk: Walk, draws: Seq<usize>) -> Seq<Chunk>
    decreases draws.len(),
{
    if draws.len() == 0 || walk.offset >= walk.len {
        seq![]
    } else {
        let chunk = walk.chunk(draws[0]);
        seq![chunk] + chunks(walk.past(chunk), draws.drop_first())
    }
}

/// The byte at `offset` of the walk lies in the chunk.
pub open spec fn holds_byte(chunk: Chunk, offset: int) -> bool {
    chunk.offset <= offset < chunk.offset + chunk.len
}

/// The byte at `offset` of the walk lies in one of the chunks.
pub open spec fn covered(taken: Seq<Chunk>, offset: int) -> bool {
    exists|i: int| 0 <= i < taken.len() && holds_byte(#[trigger] taken[i], offset)
}

/// A walk covers its bytes: whatever positive lengths are drawn, the chunks lie within the
/// walk, follow one another without overlap and, when as many lengths are drawn as there are
/// bytes left, leave no byte out.
pub proof fn lemma_walk_covers(walk: Walk, draws: Seq<usize>)
    requires
        walk.wf(),
        walk.offset <= walk.len,
        forall|i: int| 0 <= i < draws.len() ==> #[trigger] draws[i] > 0,
    ensures
        forall|i: int|
            0 <= i < chunks(walk, draws).len() ==> {
                let chunk = #[trigger] chunks(walk, draws)[i];
                &&& chunk.len > 0
                &&& walk.offset <= chunk.offset
                &&& chunk.offset + chunk.len <= walk.len
                &&& chunk.address == walk.addr + chunk.offset
            },
        forall|i: int, j: int|
            0 <= i < j < chunks(walk, draws).len() ==> #[trigger] chunks(walk, draws)[i].offset
                + chunks(walk, draws)[i].len <= #[trigger] chunks(walk, draws)[j].offset,
        draws.len() >= walk.len - walk.offset ==> forall|b: int|
            walk.offset <= b < walk.len ==> #[trigger] covered(chunks(walk, draws), b),
    decreases draws.len(),
{
    if draws.len() > 0 && walk.offset < walk.len {
        let chunk = walk.chunk(draws[0]);
        let rest = draws.drop_first();
        let later = chunks(walk.past(chunk), rest);
        let all = chunks(walk, draws);
        lemma_walk_covers(walk.past(chunk), rest);
        assert(all =~= seq![chunk] + later);
        assert(all[0] == chunk);
        assert forall|i: int| 1 <= i < all.len() implies #[trigger] all[i] == later[i - 1] by {}
        assert forall|b: int|
            walk.offset <= b < walk.len && draws.len() >= walk.len
                - walk.offset implies #[trigger] covered(all, b) by {
            if b < walk.offset + chunk.len {
                assert(holds_byte(all[0], b));
            } else {
                assert(covered(later, b));
                let i = choose|i: int| 0 <= i < later.len() && holds_byte(#[trigger] later[i], b);
                assert(holds_byte(all[i + 1], b));
            }
        }
    }
}

/// The bytes of a walk with `byte` written to a chunk of it.
pub open spec fn written(bytes: Seq<u8>, chunk: Chunk, byte: u8) -> Seq<u8> {
    Seq::new(
        bytes.len(),
        |i: int|
            if holds_byte(chunk, i) {
                byte
            } else {
                bytes[i]
            },
    )
}

/// The bytes of a walk with `byte` written to these chunks of it, one after another.
pub open spec fn written_all(bytes: Seq<u8>, taken: Seq<Chunk>, byte: u8) -> Seq<u8>
    decreases taken.len(),
{
    if taken.len() == 0 {
        bytes
    } else {
        written(written_all(bytes, taken.drop_last(), byte), taken.last(), byte)
    }
}

/// What is covered by the chunks holds the byte.
proof fn lemma_written_all(bytes: Seq<u8>, taken: Seq<Chunk>, byte: u8, i: int)
    requires
        0 <= i < bytes.len(),
    ensures
        written_all(bytes, taken, byte).len() == bytes.len(),
        covered(taken, i) ==> written_all(bytes, taken, byte)[i] == byte,
    decreases taken.len(),
{
    if taken.len() > 0 {
        let front = taken.drop_last();
        lemma_written_all(bytes, front, byte, i);
        if covered(taken, i) && !holds_byte(taken.last(), i) {
            let j = choose|j: int| 0 <= j < taken.len() && holds_byte(#[trigger] taken[j], i);
            assert(front[j] == taken[j]);
            assert(covered(front, i));
        }
    }
}

/// A walk that reads any part of what a walk wrote finds no wrong byte if it expects the byte that
/// was written and, if it expects any other, finds the first byte of every chunk wrong. `bytes`
/// is what the memory of the write walk held before.
pub proof fn lemma_reads_what_was_written(
    bytes: Seq<u8>,
    write: Walk,
    write_draws: Seq<usize>,
    byte: u8,
    read: Walk,
    read_draws: Seq<usize>,
    expected_byte: u8,
    i: int,
)
    requires
        write.wf(),
        read.wf(),
        write.offset <= write.len,
        write.len == bytes.len(),
        read.offset <= read.len,
        // What is left to read lies within what was left to write.
        write.addr + write.offset <= read.addr + read.offset,
        read.addr + read.len <= write.addr + write.len,
        forall|j: int| 0 <= j < write_draws.len() ==> #[trigger] write_draws[j] > 0,
        forall|j: int| 0 <= j < read_draws.len() ==> #[trigger] read_draws[j] > 0,
        write_draws.len() >= write.len - write.offset,
        0 <= i < chunks(read, read_draws).len(),
    ensures
        ({
            let chunk = chunks(read, read_draws)[i];
            let at = chunk.address - write.addr;
            let found = written_all(bytes, chunks(write, write_draws), byte).subrange(
                at,
                at + chunk.len,
            );
            &&& found.len() == chunk.len
            &&& chunk.len > 0
            &&& byte == expected_byte ==> forall|index: int|
                !#[trigger] first_wrong(found, expected_byte, index)
            &&& byte != expected_byte ==> first_wrong(found, expected_byte, 0)
        }),
{
    let taken = chunks(write, write_draws);
    let all = written_all(bytes, taken, byte);
    lemma_walk_covers(write, write_draws);
    lemma_walk_covers(read, read_draws);
    let chunk = chunks(read, read_draws)[i];
    lemma_written_all(bytes, taken, byte, chunk.address - write.addr);
    assert forall|b: int| write.offset <= b < write.len implies #[trigger] all[b] == byte by {
        assert(covered(taken, b));
        lemma_written_all(bytes, taken, byte, b);
    }
}

} // verus!
