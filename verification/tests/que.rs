use backend::que::RiderQue;

fn line(q: &RiderQue) -> Vec<String> {
    q.page(None).tags
}

#[test]
fn new_queue_is_empty() {
    let q = RiderQue::new();
    let page = q.page(Some(1));
    assert!(!page.qued);
    assert!(page.tags.is_empty());
    assert!(page.current.is_none());
}

#[test]
fn add_puts_riders_in_arrival_order() {
    let mut q = RiderQue::new();
    q.add(1, "anna".to_string());
    q.add(2, "ben".to_string());
    q.add(3, "cleo".to_string());
    assert_eq!(line(&q), vec!["anna", "ben", "cleo"]);
}

#[test]
fn add_twice_keeps_one_entry() {
    let mut q = RiderQue::new();
    q.add(1, "anna".to_string());
    q.add(2, "ben".to_string());
    q.add(1, "anna".to_string());
    assert_eq!(line(&q), vec!["anna", "ben"]);
}

#[test]
fn same_id_with_other_tag_is_another_entry() {
    let mut q = RiderQue::new();
    q.add(1, "anna".to_string());
    q.add(1, "anna2".to_string());
    assert_eq!(line(&q), vec!["anna", "anna2"]);
}

#[test]
fn pop_calls_the_first_rider() {
    let mut q = RiderQue::new();
    q.add(5, "eve".to_string());
    q.add(6, "finn".to_string());
    {
        let (id, tag) = q.pop().unwrap();
        assert_eq!((*id, tag.as_str()), (5, "eve"));
    }
    assert_eq!(line(&q), vec!["finn"]);
    assert_eq!(q.page(None).current, Some(("eve".to_string(), "ready to start")));
}

#[test]
fn riders_are_called_in_order_of_joining() {
    let mut q = RiderQue::new();
    for (id, tag) in [(3, "c"), (1, "a"), (2, "b")] {
        q.add(id, tag.to_string());
    }
    let mut order = Vec::new();
    while let Some((id, _)) = q.pop() {
        order.push(*id);
    }
    assert_eq!(order, vec![3, 1, 2]);
}

#[test]
fn pop_on_empty_line_changes_nothing() {
    let mut q = RiderQue::new();
    q.add(5, "eve".to_string());
    q.pop();
    assert!(q.pop().is_none());
    assert_eq!(q.page(None).current, Some(("eve".to_string(), "ready to start")));
}

#[test]
fn set_status_marks_the_run_started() {
    let mut q = RiderQue::new();
    q.add(5, "eve".to_string());
    q.pop();
    q.set_status(true);
    assert_eq!(q.page(None).current, Some(("eve".to_string(), "currently racing")));
    q.set_status(false);
    assert_eq!(q.page(None).current, Some(("eve".to_string(), "ready to start")));
}

#[test]
fn set_status_without_called_rider_changes_nothing() {
    let mut q = RiderQue::new();
    q.add(5, "eve".to_string());
    q.set_status(true);
    assert!(q.page(None).current.is_none());
    assert_eq!(line(&q), vec!["eve"]);
}

#[test]
fn remove_current_ends_the_turn() {
    let mut q = RiderQue::new();
    q.add(5, "eve".to_string());
    q.add(6, "finn".to_string());
    q.pop();
    q.set_status(true);
    q.remove_current();
    assert!(q.page(None).current.is_none());
    assert_eq!(line(&q), vec!["finn"]);
}

#[test]
fn remove_takes_the_rider_out() {
    let mut q = RiderQue::new();
    q.add(1, "anna".to_string());
    q.add(2, "ben".to_string());
    q.add(3, "cleo".to_string());
    assert!(q.removal_stays_in_bounds(&2));
    q.remove(&2);
    assert_eq!(line(&q), vec!["anna", "cleo"]);
    assert!(!q.page(Some(2)).qued);
}

#[test]
fn remove_of_absent_rider_changes_nothing() {
    let mut q = RiderQue::new();
    q.add(1, "anna".to_string());
    assert!(q.removal_stays_in_bounds(&9));
    q.remove(&9);
    assert_eq!(line(&q), vec!["anna"]);
}

#[test]
fn remove_keeps_the_called_rider() {
    let mut q = RiderQue::new();
    q.add(1, "anna".to_string());
    q.pop();
    q.remove(&1);
    assert_eq!(q.page(None).current, Some(("anna".to_string(), "ready to start")));
}

#[test]
fn remove_counts_positions_before_removal() {
    // Two entries of one id side by side: the second removal uses the
    // position the entry had before the first one left.
    let mut q = RiderQue::new();
    q.add(1, "a".to_string());
    q.add(1, "b".to_string());
    q.add(3, "c".to_string());
    assert!(q.removal_stays_in_bounds(&1));
    q.remove(&1);
    assert_eq!(line(&q), vec!["b"]);
}

#[test]
fn remove_beyond_the_shortened_line_is_refused() {
    let mut q = RiderQue::new();
    q.add(1, "a".to_string());
    q.add(2, "b".to_string());
    q.add(1, "c".to_string());
    assert!(!q.removal_stays_in_bounds(&1));
    assert!(q.removal_stays_in_bounds(&2));
}

#[test]
fn page_shows_whether_the_viewer_waits() {
    let mut q = RiderQue::new();
    q.add(1, "anna".to_string());
    q.add(2, "ben".to_string());
    assert!(q.page(Some(2)).qued);
    assert!(!q.page(Some(3)).qued);
    assert!(!q.page(None).qued);
}

#[test]
fn joined_rider_is_shown_waiting() {
    let mut q = RiderQue::new();
    q.add(4, "dora".to_string());
    q.add(4, "dora".to_string());
    assert!(q.page(Some(4)).qued);
}
