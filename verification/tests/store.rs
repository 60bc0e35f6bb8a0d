use fortress::record::{Experience, Timestamp};
use fortress::store::{ExperienceStore, StoreError};

fn row(id: i32, name: &str) -> Experience {
    Experience {
        experience_id: id,
        share_code: format!("code-{}", id),
        playground_name: name.to_string(),
        playground_description: String::new(),
        playground_created_at: Timestamp { seconds: 0, nanos: 0 },
        playground_updated_at: Timestamp { seconds: 0, nanos: 0 },
        playground_data: String::new(),
        tags: String::new(),
        maps: vec![],
        game_sizes: vec![],
        modes: vec![],
        progression_mode: String::new(),
        created_at: Timestamp { seconds: 0, nanos: 0 },
        updated_at: Timestamp { seconds: 0, nanos: 0 },
    }
}

#[test]
fn cursor_initializes_to_one() {
    let mut store = ExperienceStore::new();
    assert_eq!(store.cursor, None);
    assert_eq!(store.current_experience(), 1);
    assert_eq!(store.cursor, Some(1));
    assert_eq!(store.current_experience(), 1);
}

#[test]
fn cursor_is_read_back_as_written() {
    let mut store = ExperienceStore::new();
    store.set_current_experience(41);
    assert_eq!(store.current_experience(), 41);
    store.set_current_experience(42);
    assert_eq!(store.current_experience(), 42);
}

#[test]
fn upsert_twice_leaves_one_row_with_latest_values() {
    let mut store = ExperienceStore::new();
    store.add_or_update_experience(row(7, "first"));
    store.add_or_update_experience(row(7, "second"));
    assert_eq!(store.rows.len(), 1);
    assert_eq!(store.rows[0].experience_id, 7);
    assert_eq!(store.rows[0].playground_name, "second");
    store.add_or_update_experience(row(7, "second"));
    assert_eq!(store.rows.len(), 1);
    assert_eq!(store.rows[0].playground_name, "second");
}

#[test]
fn upsert_keeps_other_rows() {
    let mut store = ExperienceStore::new();
    store.add_or_update_experience(row(1, "one"));
    store.add_or_update_experience(row(2, "two"));
    store.add_or_update_experience(row(1, "one again"));
    assert_eq!(store.rows.len(), 2);
    assert_eq!(store.rows[0].playground_name, "one again");
    assert_eq!(store.rows[1].playground_name, "two");
}

#[test]
fn has_experience_finds_share_codes() {
    let mut store = ExperienceStore::new();
    store.add_or_update_experience(row(3, "three"));
    assert!(store.has_experience("code-3".to_string()));
    assert!(!store.has_experience("code-4".to_string()));
}

#[test]
fn last_experience_is_the_largest_id() {
    let mut store = ExperienceStore::new();
    assert_eq!(store.get_last_experience(), Err(StoreError::Empty));
    store.add_or_update_experience(row(5, "five"));
    store.add_or_update_experience(row(11, "eleven"));
    store.add_or_update_experience(row(2, "two"));
    assert_eq!(store.get_last_experience(), Ok(11));
}

#[test]
fn update_experience_overwrites_every_row_but_keeps_ids() {
    let mut store = ExperienceStore::new();
    store.add_or_update_experience(row(1, "one"));
    store.add_or_update_experience(row(2, "two"));
    store.update_experience(row(9, "bulk"));
    assert_eq!(store.rows.len(), 2);
    assert_eq!(store.rows[0].experience_id, 1);
    assert_eq!(store.rows[1].experience_id, 2);
    assert_eq!(store.rows[0].playground_name, "bulk");
    assert_eq!(store.rows[1].playground_name, "bulk");
    assert_eq!(store.rows[0].share_code, "code-9");
}
