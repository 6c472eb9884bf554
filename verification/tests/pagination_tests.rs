use nippo::pagination::{clamp_page, page_offset, total_pages};

#[test]
fn page_zero_is_clamped_to_one() {
    assert_eq!(clamp_page(0), 1);
    assert_eq!(clamp_page(-5), 1);
    assert_eq!(clamp_page(1), 1);
    assert_eq!(clamp_page(3), 3);
}

#[test]
fn offsets_are_one_based() {
    assert_eq!(page_offset(1, 10), 0);
    assert_eq!(page_offset(2, 10), 10);
    assert_eq!(page_offset(3, 10), 20);
    assert_eq!(page_offset(0, 10), 0);
}

#[test]
fn total_pages_pins_the_integer_division_formula() {
    // 20 items at 10 per page show 3 pages, not the "intuitive" 2:
    // the count / page_size + 1 formula over-counts on exact multiples.
    assert_eq!(total_pages(20, 10), 3);
    assert_eq!(total_pages(15, 10), 2);
    assert_eq!(total_pages(0, 10), 1);
    assert_eq!(total_pages(9, 10), 1);
    assert_eq!(total_pages(10, 10), 2);
}
