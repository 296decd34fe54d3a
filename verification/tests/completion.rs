use adequate_booru_viewer::completion::{
    admitted_count, nth_admitted, GroupCycle, TagCompletion,
};

#[test]
fn a_prefix_is_asked_for_once() {
    let mut completion: TagCompletion<&str> = TagCompletion::new();
    let mut serial = 7;
    assert!(completion.demand("blu", &mut serial));
    assert_eq!(serial, 8);
    assert_eq!(completion.ticket, 8);
    assert!(!completion.demand("blu", &mut serial));
    assert_eq!(serial, 8);
    assert!(completion.demand("blue", &mut serial));
    assert_eq!(serial, 9);
    assert_eq!(completion.pick, 0);
}

#[test]
fn only_the_awaited_answer_is_taken_in() {
    let mut completion: TagCompletion<&str> = TagCompletion::new();
    let mut serial = 0;
    assert!(completion.demand("blu", &mut serial));
    assert!(completion.demand("blue", &mut serial));
    assert!(!completion.absorb(1, vec!["blush"]));
    assert!(completion.absorb(2, vec!["blue_eyes", "blue_hair", "blue_sky"]));
    let (prefix, hits) = completion.memo.as_ref().unwrap();
    assert_eq!(prefix, "blue");
    assert_eq!(hits.len(), 3);
    completion.clear();
    assert!(!completion.absorb(2, vec!["blue_eyes"]));
    assert!(completion.memo.is_none());
}

#[test]
fn the_cursor_wraps_among_admitted_suggestions() {
    let mut completion: TagCompletion<&str> = TagCompletion::new();
    assert_eq!(completion.choose_pick(3, None), None);
    let mut serial = 0;
    completion.demand("blue", &mut serial);
    completion.absorb(1, vec!["blue_eyes", "blue_hair", "blue_sky"]);
    assert_eq!(completion.choose_pick(0, Some(GroupCycle::Forward)), None);
    assert_eq!(completion.choose_pick(3, Some(GroupCycle::Backward)), Some(2));
    assert_eq!(completion.choose_pick(3, Some(GroupCycle::Forward)), Some(0));
    assert_eq!(completion.choose_pick(3, Some(GroupCycle::Forward)), Some(1));
    assert_eq!(completion.choose_pick(1, None), Some(0));
}

#[test]
fn a_shorter_answer_keeps_the_cursor_in_range() {
    let mut completion: TagCompletion<u32> = TagCompletion::new();
    let mut serial = 0;
    completion.demand("a", &mut serial);
    completion.absorb(1, vec![1, 2, 3, 4]);
    completion.pick = 3;
    completion.demand("ab", &mut serial);
    assert_eq!(completion.pick, 0);
    completion.pick = 3;
    assert!(completion.absorb(2, vec![5, 6]));
    assert_eq!(completion.pick, 1);
}

#[test]
fn slots_count_admitted_suggestions_only() {
    let passes = [false, true, false, true, true];
    assert_eq!(admitted_count(&passes), 3);
    assert_eq!(nth_admitted(&passes, 0), Some(1));
    assert_eq!(nth_admitted(&passes, 2), Some(4));
    assert_eq!(nth_admitted(&passes, 3), None);
    assert_eq!(nth_admitted(&[], 0), None);
}
