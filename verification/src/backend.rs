//! Page sources: where the contents of each page of a virtual machine come from.

use vstd::prelude::*;

verus! {

/// Bytes in a page.
pub const PAGE_SIZE: u64 = 4096;

/// The most pages that one zeroing or copying request covers.
pub const MAX_PAGES_RW: usize = 1024;

/// Where a page has to be fetched from.
#[derive(Clone, Copy, Debug, PartialEq, Eq, Hash, Structural)]
pub enum VmBackend {
    /// The page was never filled: it reads as zeroes.
    Zero,
    /// The page lives in the memory of the VM with this index.
    Vm(u16),
}

/// How many entries, counted from `at` and up to `limit` of them, equal `source`
/// without a gap.
pub open spec fn run_of(sources: Seq<VmBackend>, at: int, source: VmBackend, limit: nat) -> nat
    decreases limit,
{
    if limit == 0 || at < 0 || at >= sources.len() || sources[at] != source {
        0
    } else {
        1 + run_of(sources, at + 1, source, (limit - 1) as nat)
    }
}

/// The length of the run of equal page sources that starts at `index`, cut at `limit`.
pub open spec fn max_range(sources: Seq<VmBackend>, index: int, limit: nat) -> nat {
    run_of(sources, index, sources[index], limit)
}

/// A run stays within the table and the limit, holds one source only, and ends
/// where the table ends, the limit is reached or the source changes.
pub proof fn lemma_run_of(sources: Seq<VmBackend>, at: int, source: VmBackend, limit: nat)
    requires
        0 <= at <= sources.len(),
    ensures
        run_of(sources, at, source, limit) <= limit,
        at + run_of(sources, at, source, limit) <= sources.len(),
        forall|j: int|
            at <= j < at + run_of(sources, at, source, limit) ==> #[trigger] sources[j] == source,
        ({
            let end = at + run_of(sources, at, source, limit);
            ||| end == at + limit
            ||| end == sources.len()
            ||| sources[end] != source
        }),
    decreases limit,
{
    if limit > 0 && at < sources.len() && sources[at] == source {
        lemma_run_of(sources, at + 1, source, (limit - 1) as nat);
    }
}

/// Finds how long this specific source exists after `index`.
pub fn get_max_range(page_sources: &[VmBackend], index: usize, limit: usize) -> (range: usize)
    requires
        index < page_sources@.len(),
    ensures
        range == max_range(page_sources@, index as int, limit as nat),
        range <= limit,
        index + range <= page_sources@.len(),
        limit > 0 ==> range >= 1,
        forall|j: int|
            index <= j < index + range ==> #[trigger] page_sources@[j] == page_sources@[index as int],
        range == limit || index + range == page_sources@.len() || page_sources@[index + range]
            != page_sources@[index as int],
{
    let checked_source = page_sources[index];
    let total: usize = page_sources.len();
    let mut max_range: usize = 0;
    proof {
        lemma_run_of(page_sources@, index as int, checked_source, limit as nat);
    }
    while max_range < limit && index + max_range < total
        && page_sources[index + max_range] == checked_source
        invariant
            max_range <= limit,
            total == page_sources@.len(),
            index + max_range <= total,
            run_of(page_sources@, index as int, checked_source, limit as nat) == max_range + run_of(
                page_sources@,
                index + max_range,
                checked_source,
                (limit - max_range) as nat,
            ),
        decreases limit - max_range,
    {
        max_range = max_range + 1;
    }
    max_range
}

} // verus!
