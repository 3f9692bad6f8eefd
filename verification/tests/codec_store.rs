use td_tui::codec::LoadError;
use td_tui::codec::decode;
use td_tui::codec::encode;
use td_tui::session::AppState;
use td_tui::store::Task;
use td_tui::store::TaskStore;

fn le64(x: u64) -> Vec<u8> {
    x.to_le_bytes().to_vec()
}

#[test]
fn round_trip_preserves_titles_and_instants() {
    let tasks = vec![
        Task { title: "plain".to_string(), time_created: 1 },
        Task { title: "".to_string(), time_created: 0 },
        Task { title: "naïve ☕ título".to_string(), time_created: u64::MAX },
    ];
    let bytes = encode(&tasks);
    let back = decode(&bytes).unwrap();
    assert_eq!(back.len(), tasks.len());
    for (a, b) in tasks.iter().zip(back.iter()) {
        assert_eq!(a.title, b.title);
        assert_eq!(a.time_created, b.time_created);
    }
}

#[test]
fn round_trip_of_an_empty_store() {
    let tasks: Vec<Task> = Vec::new();
    let bytes = encode(&tasks);
    assert_eq!(bytes.len(), 8, "an empty snapshot is just the count");
    assert_eq!(decode(&bytes).unwrap().len(), 0);
}

#[test]
fn exact_encoding_of_one_task() {
    let tasks = vec![Task { title: "ab".to_string(), time_created: 258 }];
    let mut expected = le64(1);
    expected.extend(le64(2));
    expected.extend(b"ab");
    expected.extend(le64(258));
    assert_eq!(encode(&tasks), expected);
}

#[test]
fn truncated_snapshots_are_rejected() {
    assert!(matches!(decode(&Vec::new()), Err(LoadError::Truncated)));
    assert!(matches!(decode(&vec![1, 0, 0]), Err(LoadError::Truncated)));
    // count says one task, but no record follows
    assert!(matches!(decode(&le64(1)), Err(LoadError::Truncated)));
    // record cut off inside the title
    let mut bytes = le64(1);
    bytes.extend(le64(100));
    bytes.extend(b"short");
    assert!(matches!(decode(&bytes), Err(LoadError::Truncated)));
}

#[test]
fn invalid_title_bytes_are_rejected() {
    let mut bytes = le64(1);
    bytes.extend(le64(1));
    bytes.push(0xff);  // not valid UTF-8
    bytes.extend(le64(0));
    assert!(matches!(decode(&bytes), Err(LoadError::InvalidText)));
}

#[test]
fn trailing_bytes_are_rejected() {
    let mut bytes = encode(&Vec::new());
    bytes.push(0);
    assert!(matches!(decode(&bytes), Err(LoadError::TrailingData)));
}

#[test]
fn load_failure_surfaces_the_parse_error() {
    let r = AppState::create("db".to_string(), Some(vec![9, 9]), 0);
    assert!(matches!(r, Err(LoadError::Truncated)));
}

#[test]
fn loading_bytes_restores_the_store() {
    let tasks = vec![
        Task { title: "keep".to_string(), time_created: 44 },
        Task { title: "me".to_string(), time_created: 45 },
    ];
    let bytes = encode(&tasks);
    let state = AppState::create("db".to_string(), Some(bytes.clone()), 7).unwrap();
    assert!(!state.dirty, "a clean load needs no immediate write");
    assert_eq!(state.saved_image, bytes);
    let snap = state.database.snapshot();
    assert_eq!(snap.len(), 2);
    assert_eq!(snap[0].title, "keep");
    assert_eq!(snap[1].time_created, 45);
}

#[test]
fn handles_stay_valid_until_their_task_is_removed() {
    let mut store = TaskStore::new();
    let h1 = store.insert(Task { title: "one".to_string(), time_created: 1 });
    let h2 = store.insert(Task { title: "two".to_string(), time_created: 2 });
    assert_eq!(store.count(), 2);
    let removed = store.remove(h1).unwrap();
    assert_eq!(removed.title, "one");
    // removing h1 invalidated only h1; h2 still resolves
    assert!(store.get(h1).is_none());
    assert_eq!(store.get(h2).unwrap().title, "two");
    assert_eq!(store.count(), 1);
    // a second removal through a stale handle does nothing
    assert!(store.remove(h1).is_none());
    assert_eq!(store.count(), 1);
}
