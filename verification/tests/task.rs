use task_registry::task::Task;
use task_registry::task::TaskError;

#[test]
fn new_task_accepts_the_whole_range() {
    for p in 1..=5u8 {
        let t = Task::new(7, String::from("water the plants"), p).unwrap();
        assert_eq!(t.id(), 7);
        assert_eq!(t.description(), "water the plants");
        assert_eq!(t.priority(), p);
        assert!(!t.is_completed());
    }
}

#[test]
fn new_task_rejects_out_of_range_priorities() {
    assert_eq!(
        Task::new(1, String::from("a"), 0).unwrap_err(),
        TaskError::InvalidPriority
    );
    assert_eq!(
        Task::new(1, String::from("a"), 6).unwrap_err(),
        TaskError::InvalidPriority
    );
    assert_eq!(
        Task::new(1, String::from("a"), 255).unwrap_err(),
        TaskError::InvalidPriority
    );
}

#[test]
fn complete_is_idempotent_on_the_task() {
    let mut t = Task::new(1, String::from("a"), 3).unwrap();
    assert!(!t.is_completed());
    t.complete();
    assert!(t.is_completed());
    t.complete();
    assert!(t.is_completed());
}

#[test]
fn set_description_accepts_any_string() {
    let mut t = Task::new(1, String::from("a"), 3).unwrap();
    t.set_description(String::from(""));
    assert_eq!(t.description(), "");
    t.set_description(String::from("read the mail"));
    assert_eq!(t.description(), "read the mail");
}

#[test]
fn set_priority_rejects_and_leaves_the_field_alone() {
    let mut t = Task::new(1, String::from("a"), 3).unwrap();
    assert_eq!(t.set_priority(0).unwrap_err(), TaskError::InvalidPriority);
    assert_eq!(t.priority(), 3);
    assert_eq!(t.set_priority(6).unwrap_err(), TaskError::InvalidPriority);
    assert_eq!(t.priority(), 3);
    assert_eq!(t.set_priority(5), Ok(()));
    assert_eq!(t.priority(), 5);
}

#[test]
fn precedes_orders_by_priority_then_id() {
    let high = Task::new(4, String::from("a"), 5).unwrap();
    let low = Task::new(1, String::from("b"), 2).unwrap();
    let high_later = Task::new(9, String::from("c"), 5).unwrap();
    assert!(high.precedes(&low));
    assert!(!low.precedes(&high));
    assert!(high.precedes(&high_later));
    assert!(!high_later.precedes(&high));
}

#[test]
fn clone_keeps_every_field() {
    let mut t = Task::new(3, String::from("first words"), 2).unwrap();
    t.complete();
    let c = t.clone();
    assert_eq!(c.id(), 3);
    assert_eq!(c.description(), "first words");
    assert_eq!(c.priority(), 2);
    assert!(c.is_completed());
}
