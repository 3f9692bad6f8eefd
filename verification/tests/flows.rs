use td_tui::component::Component;
use td_tui::component::DrawCmd;
use td_tui::keys::KeyCode;
use td_tui::keys::KeyEvent;
use td_tui::root::LayoutRoot;
use td_tui::root::LoopAction;
use td_tui::root::loop_step;
use td_tui::session::AppState;
use td_tui::store::Task;

fn fresh_state(clock_ms: u64) -> AppState {
    AppState::create("test-db.bin".to_string(), None, clock_ms).unwrap()
}

fn press(root: &mut LayoutRoot, state: &mut AppState, code: KeyCode) -> LoopAction {
    loop_step(root, state, KeyEvent::plain(code))
}

fn type_text(root: &mut LayoutRoot, state: &mut AppState, text: &str) {
    for c in text.chars() {
        press(root, state, KeyCode::Char(c));
    }
}

fn titles_in_store(state: &AppState) -> Vec<String> {
    state.database.snapshot().into_iter().map(|t| t.title).collect()
}

#[test]
fn startup_with_no_database_creates_empty_store() {
    let state = fresh_state(10);
    assert_eq!(state.database.count(), 0);
    assert!(state.dirty, "a fresh store must be marked for writing");
    let decoded = td_tui::codec::decode(&state.saved_image).unwrap();
    assert_eq!(decoded.len(), 0);
}

#[test]
fn startup_renders_empty_list_with_no_highlight() {
    let state = fresh_state(10);
    let root = LayoutRoot::new();
    let cmds = root.render(&state);
    assert_eq!(cmds.len(), 2);
    match &cmds[0] {
        DrawCmd::TabBar { labels, active } => {
            assert_eq!(labels, &vec!["Tasks".to_string(), "Tasks (rev)".to_string()]);
            assert_eq!(*active, 0);
        }
        _ => panic!("expected the tab bar first"),
    }
    match &cmds[1] {
        DrawCmd::TaskList { title, rows, selected } => {
            assert_eq!(title, "Basic Task List");
            assert!(rows.is_empty());
            assert!(selected.is_none(), "an empty list highlights no row");
        }
        _ => panic!("expected the task list"),
    }
}

#[test]
fn create_flow_adds_one_task_and_persists() {
    let mut state = fresh_state(1000);
    let mut root = LayoutRoot::new();
    press(&mut root, &mut state, KeyCode::Char('c'));
    // time moves on while the user types
    state.clock_ms = 2000;
    type_text(&mut root, &mut state, "Buy milk");
    state.dirty = false;
    press(&mut root, &mut state, KeyCode::Enter);
    assert_eq!(state.database.count(), 1);
    let tasks = state.database.snapshot();
    assert_eq!(tasks[0].title, "Buy milk");
    assert_eq!(tasks[0].time_created, 2000);
    assert!(tasks[0].time_created >= 1000, "created no earlier than `c` was pressed");
    assert!(state.dirty, "the store is persisted immediately after the create");
    let decoded = td_tui::codec::decode(&state.saved_image).unwrap();
    assert_eq!(decoded.len(), 1);
    assert_eq!(decoded[0].title, "Buy milk");
    assert_eq!(decoded[0].time_created, 2000);
}

#[test]
fn create_flow_with_backspace_edits_the_buffer() {
    let mut state = fresh_state(5);
    let mut root = LayoutRoot::new();
    press(&mut root, &mut state, KeyCode::Char('c'));
    type_text(&mut root, &mut state, "ab");
    press(&mut root, &mut state, KeyCode::Backspace);
    press(&mut root, &mut state, KeyCode::Enter);
    assert_eq!(titles_in_store(&state), vec!["a".to_string()]);
}

#[test]
fn escape_discards_the_create_modal() {
    let mut state = fresh_state(5);
    let mut root = LayoutRoot::new();
    press(&mut root, &mut state, KeyCode::Char('c'));
    type_text(&mut root, &mut state, "abandoned");
    press(&mut root, &mut state, KeyCode::Esc);
    assert_eq!(state.database.count(), 0);
    // a later Enter no longer creates anything
    press(&mut root, &mut state, KeyCode::Enter);
    assert_eq!(state.database.count(), 0);
}

fn three_task_state() -> AppState {
    let mut state = fresh_state(0);
    // inserted out of time order, so display order differs from slot order
    state.database.insert(Task { title: "second".to_string(), time_created: 20 });
    state.database.insert(Task { title: "first".to_string(), time_created: 10 });
    state.database.insert(Task { title: "third".to_string(), time_created: 30 });
    state.persist();
    state.dirty = false;
    state
}

#[test]
fn delete_flow_removes_the_displayed_row() {
    let mut state = three_task_state();
    let mut root = LayoutRoot::new();
    press(&mut root, &mut state, KeyCode::Down);  // selection 0 -> 1
    press(&mut root, &mut state, KeyCode::Char('d'));
    // sorted position 1 is "second"; the other two stay intact
    let mut left = titles_in_store(&state);
    left.sort();
    assert_eq!(left, vec!["first".to_string(), "third".to_string()]);
    assert!(state.dirty, "the store is persisted immediately after the delete");
}

#[test]
fn delete_of_last_row_reclamps_the_selection() {
    let mut state = three_task_state();
    let mut root = LayoutRoot::new();
    press(&mut root, &mut state, KeyCode::Down);
    press(&mut root, &mut state, KeyCode::Down);  // selection at last row (2)
    press(&mut root, &mut state, KeyCode::Char('d'));  // removes "third"
    let cmds = root.render(&state);
    match &cmds[1] {
        DrawCmd::TaskList { rows, selected, .. } => {
            assert_eq!(rows, &vec!["first".to_string(), "second".to_string()]);
            assert_eq!(*selected, Some(1), "selection re-clamped onto the new last row");
        }
        _ => panic!("expected the task list"),
    }
}

#[test]
fn delete_on_empty_store_falls_through() {
    let mut state = fresh_state(0);
    let mut root = LayoutRoot::new();
    assert_eq!(press(&mut root, &mut state, KeyCode::Char('d')), LoopAction::Continue);
    assert_eq!(state.database.count(), 0);
}

#[test]
fn rows_are_sorted_by_creation_time() {
    let state = three_task_state();
    let root = LayoutRoot::new();
    let cmds = root.render(&state);
    match &cmds[1] {
        DrawCmd::TaskList { rows, .. } => {
            assert_eq!(
                rows,
                &vec!["first".to_string(), "second".to_string(), "third".to_string()]
            );
        }
        _ => panic!("expected the task list"),
    }
}

#[test]
fn reversed_tab_shows_exactly_the_reverse_order() {
    let mut state = three_task_state();
    let mut root = LayoutRoot::new();
    press(&mut root, &mut state, KeyCode::Right);  // switch to the reversed tab
    let cmds = root.render(&state);
    match &cmds[1] {
        DrawCmd::TaskList { title, rows, .. } => {
            assert_eq!(title, "Basic Task List (reversed)");
            assert_eq!(
                rows,
                &vec!["third".to_string(), "second".to_string(), "first".to_string()]
            );
        }
        _ => panic!("expected the reversed task list"),
    }
}

#[test]
fn equal_times_keep_insertion_order() {
    let mut state = fresh_state(0);
    state.database.insert(Task { title: "earlier slot".to_string(), time_created: 7 });
    state.database.insert(Task { title: "later slot".to_string(), time_created: 7 });
    let root = LayoutRoot::new();
    let cmds = root.render(&state);
    match &cmds[1] {
        DrawCmd::TaskList { rows, .. } => {
            assert_eq!(
                rows,
                &vec!["earlier slot".to_string(), "later slot".to_string()]
            );
        }
        _ => panic!("expected the task list"),
    }
}

#[test]
fn tab_switching_clamps_at_the_ends() {
    let mut state = fresh_state(0);
    let mut root = LayoutRoot::new();
    press(&mut root, &mut state, KeyCode::Left);  // already at the first tab
    let cmds = root.render(&state);
    assert!(matches!(&cmds[0], DrawCmd::TabBar { active: 0, .. }));
    press(&mut root, &mut state, KeyCode::Right);
    press(&mut root, &mut state, KeyCode::Right);  // already at the last tab
    let cmds = root.render(&state);
    assert!(matches!(&cmds[0], DrawCmd::TabBar { active: 1, .. }));
}

#[test]
fn selection_stays_clamped_across_mutations() {
    let mut state = three_task_state();
    let mut root = LayoutRoot::new();
    press(&mut root, &mut state, KeyCode::Down);
    press(&mut root, &mut state, KeyCode::Down);
    press(&mut root, &mut state, KeyCode::Down);  // ceiling: stays at the last row
    press(&mut root, &mut state, KeyCode::Char('d'));
    press(&mut root, &mut state, KeyCode::Char('d'));
    press(&mut root, &mut state, KeyCode::Char('d'));
    assert_eq!(state.database.count(), 0);
    press(&mut root, &mut state, KeyCode::Up);  // floor on an empty list
    let cmds = root.render(&state);
    assert!(matches!(&cmds[1], DrawCmd::TaskList { selected: None, .. }));
}

#[test]
fn quit_keys_fire_only_when_unhandled() {
    let mut state = fresh_state(0);
    let mut root = LayoutRoot::new();
    assert_eq!(press(&mut root, &mut state, KeyCode::Char('q')), LoopAction::Quit);
    assert_eq!(press(&mut root, &mut state, KeyCode::Esc), LoopAction::Quit);
    let ctrl_c = KeyEvent { code: KeyCode::Char('c'), ctrl: true, alt: false, shift: false };
    assert_eq!(loop_step(&mut root, &mut state, ctrl_c), LoopAction::Quit);
    // the reserved save key is a no-op, not a quit
    assert_eq!(press(&mut root, &mut state, KeyCode::Char('s')), LoopAction::Continue);
}

#[test]
fn open_modal_swallows_quit_and_delete_keys() {
    let mut state = three_task_state();
    let mut root = LayoutRoot::new();
    press(&mut root, &mut state, KeyCode::Char('c'));
    // while the modal is open, 'q' and 'd' are text, not commands
    assert_eq!(press(&mut root, &mut state, KeyCode::Char('q')), LoopAction::Continue);
    assert_eq!(press(&mut root, &mut state, KeyCode::Char('d')), LoopAction::Continue);
    assert_eq!(state.database.count(), 3, "no delete fired through the modal");
    press(&mut root, &mut state, KeyCode::Enter);
    assert_eq!(titles_in_store(&state).contains(&"qd".to_string()), true);
}

#[test]
fn modal_renders_above_the_list_while_open() {
    let mut state = fresh_state(0);
    let mut root = LayoutRoot::new();
    press(&mut root, &mut state, KeyCode::Char('c'));
    type_text(&mut root, &mut state, "typing");
    let cmds = root.render(&state);
    assert_eq!(cmds.len(), 3);
    match &cmds[2] {
        DrawCmd::ModalBox { prompt, content } => {
            assert_eq!(prompt, "Enter new task");
            assert_eq!(content, "typing");
        }
        _ => panic!("the modal must be drawn last, above the list"),
    }
}
