use omthub::pagination::select_page_range;

#[test]
fn select_page_range_works() {
    assert_eq!(select_page_range(2, 1, 6), vec![2]);
    assert_eq!(select_page_range(2, 6, 6), vec![0, 1, 2, 3, 4, 5]);
    assert_eq!(select_page_range(2, 7, 6), vec![0, 1, 2, 3, 4, 5]);
    assert_eq!(select_page_range(0, 5, 10), vec![0, 1, 2, 3, 4]);
    assert_eq!(select_page_range(2, 4, 10), vec![1, 2, 3, 4]);
    assert_eq!(select_page_range(8, 5, 10), vec![5, 6, 7, 8, 9]);
    assert_eq!(select_page_range(6, 4, 10), vec![5, 6, 7, 8]);
}

#[test]
fn select_page_range_empty_table() {
    assert_eq!(select_page_range(0, 5, 0), Vec::<u32>::new());
}

#[test]
fn select_page_range_single_page_out_of_range_current() {
    assert_eq!(select_page_range(9, 1, 3), vec![9]);
}
