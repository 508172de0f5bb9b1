# uffd_handler

A page-fault manager for virtual machines whose memory is handled by
userfaultfd, with its decisions verified by Verus, and a test that clones a VM,
writes to the parent and reads from the child at the same time.

For every VM the manager keeps a table that tells, for each page, where the page
is fetched from: nowhere yet (`Zero`), or the memory of a VM (`Vm(index)`). A
clone starts with a copy of its parent's table. A page that is filled for a VM,
on its own fault or because another VM is about to write to it, becomes that
VM's own, so that later clones fetch it from there. Before a VM writes to a
protected page, the VMs that fetch this page from it are given a copy, together
with pages after it where their tables allow it, and the protection is removed
from as many pages as each of them received.

- `src/backend.rs`: page sources and runs of equal ones
- `src/event.rs`: messages to the manager, and the actions that it asks for
- `src/state.rs`: the manager as a state machine
- `src/manager_thread.rs`: the manager
- `src/laws.rs`: what holds of its steps
- `src/runs.rs`: what holds of any number of steps
- `src/snapshot.rs`: what the guests see. With a VM and one clone, the clone keeps
  seeing the past. With more VMs this holds as long as each step is `harmless`:
  a VM that fetches a page after the one that is written, but not that one
  itself, is not given a copy when the protection of both is removed
- `src/text.rs`: page numbers as text
- `src/workload.rs`: the test's walks over memory
- `app/`: the program: descriptors, mappings, threads and channels
