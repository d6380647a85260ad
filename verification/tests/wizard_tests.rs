use devkit::catalog::get_stack_config;
use devkit::state::AppState;
use devkit::store::FileStore;
use devkit::tree::DirSnapshot;
use devkit::wizard::App;
use devkit::wizard::InputEvent;

#[test]
fn full_session_scenario() {
    let mut app = App::new();
    let mut store = FileStore::new();
    assert_eq!(app.state, AppState::SelectingPath);

    for c in "demo".chars() {
        let refresh = app.handle_event(InputEvent::Char(c), &mut store);
        assert!(refresh);
    }
    assert_eq!(app.path_input, "demo");

    app.handle_event(InputEvent::Confirm, &mut store);
    assert_eq!(app.target_path, "demo");
    assert_eq!(app.path_input, "");
    assert_eq!(app.state, AppState::SelectingStack);

    app.handle_event(InputEvent::Down, &mut store);
    app.handle_event(InputEvent::Down, &mut store);
    assert_eq!(app.selected, 2);
    app.handle_event(InputEvent::Down, &mut store);
    assert_eq!(app.selected, 2, "the cursor saturates at the last stack");

    app.handle_event(InputEvent::Confirm, &mut store);
    assert_eq!(app.selected_stack, "fastapi");
    assert_eq!(app.state, AppState::Confirming);
    assert_eq!(store.num_entries(), 0, "nothing is written before the confirmation");

    app.handle_event(InputEvent::Confirm, &mut store);
    assert_eq!(app.state, AppState::ContinueOrQuit);
    assert_eq!(store.num_entries(), 3);
    let fastapi = get_stack_config("fastapi").unwrap();
    assert_eq!(store.lookup("demo/fastapi.mk"), Some(fastapi.files[0].content.clone()));
    assert_eq!(store.lookup("demo/Dockerfile"), Some(fastapi.files[1].content.clone()));
    assert_eq!(store.lookup("demo/.dockerignore"), Some(fastapi.files[2].content.clone()));
}

#[test]
fn cancel_in_path_phase_terminates_whatever_the_buffer_holds() {
    let mut store = FileStore::new();
    let mut app = App::new();
    app.handle_event(InputEvent::Char('x'), &mut store);
    app.handle_event(InputEvent::Char('y'), &mut store);
    app.handle_event(InputEvent::Cancel, &mut store);
    assert!(app.should_quit);

    let mut empty_buffer = App::new();
    empty_buffer.handle_event(InputEvent::Cancel, &mut store);
    assert!(empty_buffer.should_quit);
}

#[test]
fn cancel_in_stack_phase_terminates() {
    let mut store = FileStore::new();
    let mut app = App::with_path("proj".to_string());
    assert_eq!(app.state, AppState::SelectingStack);
    app.handle_event(InputEvent::Cancel, &mut store);
    assert!(app.should_quit);
}

#[test]
fn cancel_in_confirmation_returns_to_stack_choice() {
    let mut store = FileStore::new();
    let mut app = App::with_path("proj".to_string());
    app.handle_event(InputEvent::Confirm, &mut store);
    assert_eq!(app.state, AppState::Confirming);
    app.handle_event(InputEvent::Cancel, &mut store);
    assert_eq!(app.state, AppState::SelectingStack);
    assert_eq!(app.selected_stack, "", "cancel discards the pending stack");
    assert!(!app.should_quit);
    assert_eq!(store.num_entries(), 0);
}

#[test]
fn restart_returns_to_path_entry_with_target_cleared() {
    let mut store = FileStore::new();
    let mut app = App::with_path("proj".to_string());
    app.handle_event(InputEvent::Confirm, &mut store);
    app.handle_event(InputEvent::Confirm, &mut store);
    assert_eq!(app.state, AppState::ContinueOrQuit);
    let refresh = app.handle_event(InputEvent::Confirm, &mut store);
    assert!(refresh);
    assert_eq!(app.state, AppState::SelectingPath);
    assert_eq!(app.target_path, "");
    assert_eq!(app.path_input, "");
    assert_eq!(app.selected_stack, "", "the reset discards the pending stack");
    assert_eq!(app.selected, 0);
    assert_eq!(app.continue_selected, 0);
    assert!(!app.should_quit);
}

#[test]
fn quit_option_terminates() {
    let mut store = FileStore::new();
    let mut app = App::with_path("proj".to_string());
    app.handle_event(InputEvent::Confirm, &mut store);
    app.handle_event(InputEvent::Confirm, &mut store);
    app.handle_event(InputEvent::Down, &mut store);
    assert_eq!(app.continue_selected, 1);
    app.handle_event(InputEvent::Confirm, &mut store);
    assert!(app.should_quit);
}

#[test]
fn cursors_stay_in_bounds_under_any_event_sequence() {
    let mut store = FileStore::new();
    let mut app = App::with_path("proj".to_string());
    for _ in 0..5 {
        app.handle_event(InputEvent::Down, &mut store);
        assert!(app.selected <= 2);
    }
    for _ in 0..5 {
        app.handle_event(InputEvent::Up, &mut store);
        assert!(app.selected <= 2);
    }
    assert_eq!(app.selected, 0);

    app.handle_event(InputEvent::Confirm, &mut store);
    app.handle_event(InputEvent::Confirm, &mut store);
    for _ in 0..4 {
        app.handle_event(InputEvent::Down, &mut store);
        assert!(app.continue_selected <= 1);
    }
    for _ in 0..4 {
        app.handle_event(InputEvent::Up, &mut store);
        assert!(app.continue_selected <= 1);
    }
    assert_eq!(app.continue_selected, 0);
}

#[test]
fn backspace_edits_the_buffer() {
    let mut store = FileStore::new();
    let mut app = App::new();
    app.handle_event(InputEvent::Char('a'), &mut store);
    app.handle_event(InputEvent::Char('b'), &mut store);
    app.handle_event(InputEvent::Backspace, &mut store);
    assert_eq!(app.path_input, "a");
    app.handle_event(InputEvent::Backspace, &mut store);
    assert_eq!(app.path_input, "");
    app.handle_event(InputEvent::Backspace, &mut store);
    assert_eq!(app.path_input, "", "deleting from an empty buffer is harmless");
}

#[test]
fn empty_buffer_confirms_to_current_directory() {
    let mut store = FileStore::new();
    let mut app = App::new();
    app.handle_event(InputEvent::Confirm, &mut store);
    assert_eq!(app.target_path, ".");
    assert_eq!(app.state, AppState::SelectingStack);
}

#[test]
fn selecting_a_stack_directly() {
    let mut app = App::with_path("proj".to_string());
    app.next();
    assert_eq!(app.selected, 1);
    app.previous();
    app.previous();
    assert_eq!(app.selected, 0, "the cursor saturates at the first stack");
    app.select().unwrap();
    assert_eq!(app.selected_stack, "vue");
    assert_eq!(app.state, AppState::Confirming);
}

#[test]
fn update_tree_renders_the_buffer_path() {
    let mut app = App::new();
    let mut store = FileStore::new();
    app.handle_event(InputEvent::Char('d'), &mut store);
    let snap = DirSnapshot::Listed(vec![]);
    app.update_tree(&snap);
    assert_eq!(app.tree_lines, vec!["\u{1f4c2} d (./)".to_string()]);

    let missing = DirSnapshot::Missing;
    app.update_tree(&missing);
    assert_eq!(app.tree_lines, vec!["  (path does not exist)".to_string()]);
}

#[test]
fn update_tree_renders_the_committed_target() {
    let mut app = App::with_path("proj".to_string());
    assert_eq!(app.tree_query(), "proj");
    let snap = DirSnapshot::Listed(vec![]);
    app.update_tree(&snap);
    assert_eq!(app.tree_lines, vec!["\u{1f4c2} proj (./)".to_string()]);

    let mut fresh = App::new();
    assert_eq!(fresh.tree_query(), ".", "an empty buffer shows the current directory");
    let mut store = FileStore::new();
    fresh.handle_event(InputEvent::Char('d'), &mut store);
    assert_eq!(fresh.tree_query(), "d");
}

#[test]
fn new_session_starts_at_path_entry() {
    let app = App::new();
    assert_eq!(app.state, AppState::SelectingPath);
    assert_eq!(app.stacks, vec!["vue".to_string(), "nuxt".to_string(), "fastapi".to_string()]);
    assert_eq!(app.selected, 0);
    assert!(!app.should_quit);
    assert!(app.tree_lines.is_empty());
}

#[test]
fn known_path_skips_to_stack_choice() {
    let app = App::with_path("somewhere".to_string());
    assert_eq!(app.state, AppState::SelectingStack);
    assert_eq!(app.target_path, "somewhere");
}
