//! Pagination that always ends.

use rustrade::massive::error::MassiveError;
use rustrade::massive::pagination::{PaginationGuard, MAX_PAGES};

#[test]
fn distinct_urls_under_the_cap_are_accepted() {
    let mut guard = PaginationGuard::default();
    for i in 0..MAX_PAGES {
        assert!(
            guard.observe(&format!("https://api.massive.com/page/{i}")).is_ok(),
            "page {i} within the cap should be accepted"
        );
    }
}

#[test]
fn exceeding_the_page_cap_is_a_terminal_error() {
    let mut guard = PaginationGuard::default();
    for i in 0..MAX_PAGES {
        guard.observe(&format!("https://api.massive.com/page/{i}")).expect("within cap");
    }
    let err = guard
        .observe("https://api.massive.com/page/over")
        .expect_err("page MAX_PAGES + 1 must be rejected");
    assert_eq!(
        err,
        MassiveError::PaginationLimitExceeded {
            pages: MAX_PAGES + 1,
            limit: MAX_PAGES,
        }
    );
    assert_eq!(
        err.message(),
        "Massive pagination exceeded 10000-page limit (fetched 10001 pages) — result may be incomplete"
    );
}

#[test]
fn revisiting_a_url_is_detected_as_a_cycle() {
    let mut guard = PaginationGuard::default();
    let url = "https://api.massive.com/v2/aggs/ticker/X:BTCUSD/range/1/minute/0/1?cursor=abc";
    guard.observe(url).expect("first visit is fine");
    let err = guard.observe(url).expect_err("second visit is a cycle");
    assert_eq!(err, MassiveError::CyclicPagination { url: url.to_owned() });
    assert_eq!(guard.count_pages(), 2);
}

#[test]
fn cycle_detection_is_url_exact() {
    let mut guard = PaginationGuard::default();
    guard.observe("https://api.massive.com/x?cursor=a").expect("page 1");
    guard.observe("https://api.massive.com/x?cursor=b").expect("page 2 is a different URL");
}
