//! Decisions of a userfaultfd page-fault manager.
//!
//! The crate holds what the manager decides: where a page of a virtual machine
//! comes from, what is asked of the kernel on each page fault, and how the test
//! workload walks over guest memory. The calls into the kernel are made by the
//! program around it, which performs an action and hands back its outcome.

pub mod backend;
pub mod event;
pub mod laws;
pub mod manager_thread;
pub mod messages;
pub mod promises;
pub mod runs;
pub mod snapshot;
pub mod state;
pub mod text;
pub mod workload;
