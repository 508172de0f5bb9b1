use uffd_handler::backend::{get_max_range, VmBackend};

const Z: VmBackend = VmBackend::Zero;

#[test]
fn run_ends_where_the_source_changes() {
    let a = VmBackend::Vm(1);
    let b = VmBackend::Vm(2);
    let sources = [Z, Z, a, a, a, b, Z];
    assert_eq!(get_max_range(&sources, 0, 1024), 2);
    assert_eq!(get_max_range(&sources, 1, 1024), 1);
    assert_eq!(get_max_range(&sources, 2, 1024), 3);
    assert_eq!(get_max_range(&sources, 5, 1024), 1);
}

#[test]
fn run_ends_with_the_table() {
    assert_eq!(get_max_range(&[Z; 5], 2, 1024), 3);
    assert_eq!(get_max_range(&[Z; 5], 4, usize::MAX), 1);
}

#[test]
fn run_is_cut_at_the_limit() {
    assert_eq!(get_max_range(&[Z; 3000], 10, 1024), 1024);
    assert_eq!(get_max_range(&[Z; 3000], 2500, 1024), 500);
    assert_eq!(get_max_range(&[Z; 5], 0, 0), 0);
}
