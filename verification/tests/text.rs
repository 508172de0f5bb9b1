use uffd_handler::text::print_pages_pretty;

#[test]
fn pages_are_listed_with_commas() {
    assert_eq!(print_pages_pretty(3..6), "(3),(4),(5)");
    assert_eq!(print_pages_pretty(9..12), "(9),(10),(11)");
}

#[test]
fn one_page_stands_alone() {
    assert_eq!(print_pages_pretty(0..1), "(0)");
    assert_eq!(
        print_pages_pretty(u64::MAX - 1..u64::MAX),
        "(18446744073709551614)"
    );
}

#[test]
fn empty_ranges_list_nothing() {
    assert_eq!(print_pages_pretty(7..7), "");
    let (start, end) = (8, 2);
    assert_eq!(print_pages_pretty(start..end), "");
}
