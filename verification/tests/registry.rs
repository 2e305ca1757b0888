use task_registry::task::Task;
use task_registry::task::TaskError;
use task_registry::task_manager::Filter;
use task_registry::task_manager::TaskManager;

fn ids(tasks: &Vec<Task>) -> Vec<u32> {
    let mut r = Vec::new();
    for t in tasks {
        r.push(t.id());
    }
    r
}

fn sorted_ids(tasks: &Vec<Task>) -> Vec<u32> {
    let mut r = ids(tasks);
    r.sort();
    r
}

#[test]
fn add_returns_strictly_increasing_ids() {
    let mut m = TaskManager::new();
    let mut last = 0u32;
    for p in [1u8, 2, 3, 4, 5, 3, 1] {
        let id = m.add_task(format!("task at {}", p), p).unwrap();
        assert!(id > last);
        last = id;
    }
}

#[test]
fn rejected_add_does_not_advance_the_counter() {
    let mut m = TaskManager::new();
    assert_eq!(
        m.add_task(String::from("too low"), 0).unwrap_err(),
        TaskError::InvalidPriority
    );
    assert_eq!(
        m.add_task(String::from("too high"), 6).unwrap_err(),
        TaskError::InvalidPriority
    );
    assert_eq!(m.add_task(String::from("fine"), 3), Ok(1));
    assert_eq!(
        m.add_task(String::from("too high again"), 200).unwrap_err(),
        TaskError::InvalidPriority
    );
    assert_eq!(m.add_task(String::from("fine too"), 1), Ok(2));
}

#[test]
fn listing_orders_by_priority_descending_then_id_ascending() {
    let mut m = TaskManager::new();
    for p in [3u8, 5, 1, 5] {
        m.add_task(format!("priority {}", p), p).unwrap();
    }
    let all = m.list_tasks(Filter::All);
    assert_eq!(ids(&all), vec![2, 4, 1, 3]);
    let priorities: Vec<u8> = all.iter().map(|t| t.priority()).collect();
    assert_eq!(priorities, vec![5, 5, 3, 1]);
}

#[test]
fn listing_an_empty_registry_gives_an_empty_list() {
    let m = TaskManager::new();
    assert!(m.list_tasks(Filter::All).is_empty());
    assert!(m.list_tasks(Filter::CompletedOnly).is_empty());
    assert!(m.list_tasks(Filter::IncompleteOnly).is_empty());
}

#[test]
fn listing_filters_by_completion() {
    let mut m = TaskManager::new();
    for p in [2u8, 4, 1] {
        m.add_task(format!("priority {}", p), p).unwrap();
    }
    m.complete_task(2).unwrap();
    let done = m.list_tasks(Filter::CompletedOnly);
    assert_eq!(ids(&done), vec![2]);
    assert!(done[0].is_completed());
    let open = m.list_tasks(Filter::IncompleteOnly);
    assert_eq!(ids(&open), vec![1, 3]);
    assert!(open.iter().all(|t| !t.is_completed()));
}

#[test]
fn complete_unknown_id_is_not_found() {
    let mut m = TaskManager::new();
    assert_eq!(m.complete_task(1).unwrap_err(), TaskError::NotFound);
    m.add_task(String::from("a"), 3).unwrap();
    assert_eq!(m.complete_task(2).unwrap_err(), TaskError::NotFound);
}

#[test]
fn complete_twice_equals_complete_once() {
    let mut m = TaskManager::new();
    for p in [2u8, 5, 3] {
        m.add_task(format!("priority {}", p), p).unwrap();
    }
    assert_eq!(m.complete_task(3), Ok(()));
    let once: Vec<(u32, String, u8, bool)> = m
        .list_tasks(Filter::All)
        .iter()
        .map(|t| (t.id(), t.description().to_string(), t.priority(), t.is_completed()))
        .collect();
    assert_eq!(m.complete_task(3), Ok(()));
    let twice: Vec<(u32, String, u8, bool)> = m
        .list_tasks(Filter::All)
        .iter()
        .map(|t| (t.id(), t.description().to_string(), t.priority(), t.is_completed()))
        .collect();
    assert_eq!(once, twice);
}

#[test]
fn edit_with_invalid_priority_changes_nothing() {
    let mut m = TaskManager::new();
    m.add_task(String::from("keep me"), 2).unwrap();
    assert_eq!(
        m.edit_task(1, None, Some(6)).unwrap_err(),
        TaskError::InvalidPriority
    );
    assert_eq!(
        m.edit_task(1, Some(String::from("discarded")), Some(0)).unwrap_err(),
        TaskError::InvalidPriority
    );
    let all = m.list_tasks(Filter::All);
    assert_eq!(all.len(), 1);
    assert_eq!(all[0].description(), "keep me");
    assert_eq!(all[0].priority(), 2);
}

#[test]
fn edit_unknown_id_is_not_found_even_with_bad_priority() {
    let mut m = TaskManager::new();
    assert_eq!(
        m.edit_task(9, Some(String::from("x")), Some(6)).unwrap_err(),
        TaskError::NotFound
    );
}

#[test]
fn edit_replaces_the_fields_handed_in() {
    let mut m = TaskManager::new();
    m.add_task(String::from("old words"), 2).unwrap();
    m.add_task(String::from("other"), 3).unwrap();
    assert_eq!(m.edit_task(1, Some(String::from("new words")), None), Ok(()));
    assert_eq!(m.edit_task(2, None, Some(1)), Ok(()));
    let all = m.list_tasks(Filter::All);
    assert_eq!(ids(&all), vec![1, 2]);
    assert_eq!(all[0].description(), "new words");
    assert_eq!(all[0].priority(), 2);
    assert_eq!(all[1].description(), "other");
    assert_eq!(all[1].priority(), 1);
}

#[test]
fn edit_reorders_the_listing_at_once() {
    let mut m = TaskManager::new();
    m.add_task(String::from("a"), 5).unwrap();
    m.add_task(String::from("b"), 1).unwrap();
    assert_eq!(ids(&m.list_tasks(Filter::All)), vec![1, 2]);
    assert_eq!(m.edit_task(2, None, Some(5)), Ok(()));
    assert_eq!(ids(&m.list_tasks(Filter::All)), vec![1, 2]);
    assert_eq!(m.edit_task(1, None, Some(4)), Ok(()));
    assert_eq!(ids(&m.list_tasks(Filter::All)), vec![2, 1]);
}

#[test]
fn remove_unknown_id_is_not_found() {
    let mut m = TaskManager::new();
    assert_eq!(m.remove_task(4).unwrap_err(), TaskError::NotFound);
}

#[test]
fn removed_id_stays_gone_and_is_never_reissued() {
    let mut m = TaskManager::new();
    m.add_task(String::from("a"), 3).unwrap();
    m.add_task(String::from("b"), 4).unwrap();
    assert_eq!(m.remove_task(1), Ok(()));
    assert_eq!(m.complete_task(1).unwrap_err(), TaskError::NotFound);
    assert_eq!(
        m.edit_task(1, Some(String::from("x")), None).unwrap_err(),
        TaskError::NotFound
    );
    assert_eq!(m.remove_task(1).unwrap_err(), TaskError::NotFound);
    assert_eq!(m.add_task(String::from("c"), 2), Ok(3));
    assert_eq!(ids(&m.list_tasks(Filter::All)), vec![2, 3]);
}

#[test]
fn filtered_listings_partition_the_full_listing() {
    let mut m = TaskManager::new();
    for p in [3u8, 1, 5, 2, 4, 5] {
        m.add_task(format!("priority {}", p), p).unwrap();
    }
    m.complete_task(2).unwrap();
    m.complete_task(5).unwrap();
    m.remove_task(3).unwrap();
    let mut union = sorted_ids(&m.list_tasks(Filter::CompletedOnly));
    union.extend(sorted_ids(&m.list_tasks(Filter::IncompleteOnly)));
    union.sort();
    assert_eq!(union, sorted_ids(&m.list_tasks(Filter::All)));
}

#[test]
fn next_id_tracks_successful_adds_only() {
    let mut m = TaskManager::new();
    assert_eq!(m.next_id(), 1);
    assert_eq!(m.len(), 0);
    m.add_task(String::from("a"), 3).unwrap();
    assert_eq!(m.next_id(), 2);
    assert_eq!(m.len(), 1);
    let _ = m.add_task(String::from("b"), 0);
    assert_eq!(m.next_id(), 2);
    assert_eq!(m.len(), 1);
    m.remove_task(1).unwrap();
    assert_eq!(m.next_id(), 2);
    assert_eq!(m.len(), 0);
}

#[test]
fn listing_returns_snapshots_not_live_references() {
    let mut m = TaskManager::new();
    m.add_task(String::from("a"), 3).unwrap();
    let snapshot = m.list_tasks(Filter::All);
    m.complete_task(1).unwrap();
    assert!(!snapshot[0].is_completed());
    assert!(m.list_tasks(Filter::All)[0].is_completed());
}
