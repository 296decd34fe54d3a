use adequate_booru_viewer::model::{Query, Sort};
use adequate_booru_viewer::warm::{WarmOrder, WarmPager, WarmState, DANBOORU_SEARCH_PAGE_LIMIT};
use adequate_booru_viewer::workbench::WarmKey;

fn key(text: &str) -> WarmKey {
    WarmKey::new(&Query::parse(text), Sort::Score)
}

fn sent(order: WarmOrder) -> (u32, u32, String) {
    match order {
        WarmOrder::Send { first_page, pages, status } => (first_page, pages, status),
        other => panic!("expected a request, got {other:?}"),
    }
}

#[test]
fn warm_requests_go_out_one_at_a_time() {
    let mut pager = WarmPager::new(key("solo"));
    let (first, pages, status) = sent(pager.dispatch(key("solo"), 3));
    assert_eq!((first, pages), (1, 3));
    assert_eq!(status, "query warm score solo p1..p3");
    assert_eq!(pager.state, WarmState::InFlight);
    assert!(matches!(pager.dispatch(key("solo"), 1), WarmOrder::Hold));
    assert_eq!(pager.stride, 3);
}

#[test]
fn a_finished_request_moves_the_next_page_on() {
    let mut pager = WarmPager::new(key("solo"));
    let _ = sent(pager.dispatch(key("solo"), 3));
    let update = pager.warmed(&key("solo"), 1, 3, 120, false);
    assert_eq!(update.status.as_deref(), Some("query warm +120 score solo; next p4"));
    assert!(update.again);
    assert_eq!(pager.next_page, 4);
    assert_eq!(pager.state, WarmState::Idle);
    let (first, pages, status) = sent(pager.dispatch(key("solo"), 1));
    assert_eq!((first, pages), (4, 3));
    assert_eq!(status, "query warm score solo p4..p6");
    let update = pager.warmed(&key("solo"), 4, 3, 0, true);
    assert_eq!(update.status.as_deref(), Some("query warm exhausted after score solo p6"));
    assert!(!update.again);
    assert!(matches!(pager.dispatch(key("solo"), 1), WarmOrder::Hold));
}

#[test]
fn a_request_of_another_key_is_ignored_and_a_new_key_starts_over() {
    let mut pager = WarmPager::new(key("solo"));
    let _ = sent(pager.dispatch(key("solo"), 2));
    let update = pager.warmed(&key("1girl"), 1, 2, 40, false);
    assert!(update.status.is_none());
    assert!(!update.again);
    assert_eq!(pager.state, WarmState::InFlight);
    let (first, pages, status) = sent(pager.dispatch(key(""), 1));
    assert_eq!((first, pages), (1, 1));
    assert_eq!(status, "query warm score ∅ p1..p1");
}

#[test]
fn warm_requests_stop_at_the_page_cap() {
    let mut near = WarmPager { key: key("solo"), next_page: 999, stride: 5, state: WarmState::Idle };
    let (first, pages, status) = sent(near.dispatch(key("solo"), 1));
    assert_eq!((first, pages), (999, 2));
    assert_eq!(status, "query warm score solo p999..p1000");
    let mut past = WarmPager {
        key: key("solo"),
        next_page: DANBOORU_SEARCH_PAGE_LIMIT + 1,
        stride: 1,
        state: WarmState::Idle,
    };
    match past.dispatch(key("solo"), 1) {
        WarmOrder::Capped { status } => {
            assert_eq!(status, "query warm hit Danbooru page cap after score solo p1000")
        }
        other => panic!("expected the cap, got {other:?}"),
    }
    assert_eq!(past.state, WarmState::Exhausted);
}

#[test]
fn a_refused_request_leaves_the_pager_idle() {
    let mut pager = WarmPager::new(key("solo"));
    let _ = sent(pager.dispatch(key("solo"), 1));
    assert_eq!(pager.send_failed(), "query warm fault");
    assert_eq!(pager.state, WarmState::Idle);
    assert!(matches!(pager.dispatch(key("solo"), 0), WarmOrder::Hold));
}
