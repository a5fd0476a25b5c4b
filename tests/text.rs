use rddsv::text::{i32_text, usize_text};
use rddsv::algorithm::AdjacencyList;

#[test]
fn decimal_text() {
    assert_eq!(usize_text(0), "0");
    assert_eq!(usize_text(9), "9");
    assert_eq!(usize_text(10), "10");
    assert_eq!(usize_text(4096), "4096");
    assert_eq!(i32_text(-7), "-7");
    assert_eq!(i32_text(i32::MIN), "-2147483648");
    assert_eq!(i32_text(i32::MAX), "2147483647");
}

#[test]
fn adjacency_list() {
    let mut a = AdjacencyList::new();
    assert!(AdjacencyList::has_edge(3));
    a.insert(0, 5);
    a.insert(4, 1);
    a.insert(0, 6);
    assert_eq!(a.row(0), &vec![5, 6]);
}
