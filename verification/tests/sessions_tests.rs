use codememory::sessions::{active_task_from_row, choose_session, SessionChoice};

#[test]
fn existing_session_is_reused() {
    let c = choose_session(Some("s-1".to_string()));
    assert!(!c.is_new());
    assert_eq!(c.id(), "s-1");
    assert!(matches!(c, SessionChoice::Existing(_)));
}

#[test]
fn new_session_gets_a_random_uuid() {
    let c = choose_session(None);
    assert!(c.is_new());
    let id = c.id().clone();
    assert_eq!(id.len(), 36);
    for (i, ch) in id.chars().enumerate() {
        if [8, 13, 18, 23].contains(&i) {
            assert_eq!(ch, '-');
        } else {
            assert!(ch.is_ascii_hexdigit() && !ch.is_ascii_uppercase());
        }
    }
    assert_eq!(id.chars().nth(14), Some('4'));
    assert!("89ab".contains(id.chars().nth(19).unwrap()));
    let other = choose_session(None);
    assert_ne!(other.id(), &id);
}

#[test]
fn active_task_of_row() {
    assert_eq!(active_task_from_row(None), None);
    assert_eq!(active_task_from_row(Some(None)), None);
    assert_eq!(active_task_from_row(Some(Some("fix".to_string()))), Some("fix".to_string()));
}
