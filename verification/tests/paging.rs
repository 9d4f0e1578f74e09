use table_rs::paging::advance_page;
use table_rs::paging::clamp_page;
use table_rs::paging::total_pages;
use table_rs::types::PageDirection;

#[test]
fn total_pages_is_the_ceiling_and_at_least_one() {
    assert_eq!(total_pages(0, 10), 1);
    assert_eq!(total_pages(1, 10), 1);
    assert_eq!(total_pages(10, 10), 1);
    assert_eq!(total_pages(11, 10), 2);
    assert_eq!(total_pages(25, 10), 3);
}

#[test]
fn page_size_below_one_acts_as_one() {
    assert_eq!(total_pages(7, 0), 7);
    assert_eq!(total_pages(0, 0), 1);
}

#[test]
fn clamp_keeps_valid_pages_and_pulls_back_stale_ones() {
    assert_eq!(clamp_page(0, 3), 0);
    assert_eq!(clamp_page(2, 3), 2);
    assert_eq!(clamp_page(3, 3), 2);
    assert_eq!(clamp_page(99, 3), 2);
    // Clamping an already valid page is a no-op.
    assert_eq!(clamp_page(clamp_page(99, 3), 3), clamp_page(99, 3));
}

#[test]
fn previous_at_first_page_stays_put() {
    assert_eq!(advance_page(0, 3, PageDirection::Previous), 0);
    assert_eq!(advance_page(2, 3, PageDirection::Previous), 1);
}

#[test]
fn next_at_last_page_stays_put() {
    assert_eq!(advance_page(2, 3, PageDirection::Next), 2);
    assert_eq!(advance_page(0, 3, PageDirection::Next), 1);
    assert_eq!(advance_page(0, 1, PageDirection::Next), 0);
}
