use stock_cli::navigation::{Key, KeyCode};
use stock_cli::thresholds::{EditorAction, EditorMode, SaveStatus, ThresholdEditor};

fn plain(code: KeyCode) -> Key {
    Key { code, ctrl: false }
}

fn ch(c: char) -> Key {
    plain(KeyCode::Char(c))
}

fn names(editor: &ThresholdEditor) -> Vec<(String, bool)> {
    editor.items().iter().map(|i| (i.name.clone(), i.valid)).collect()
}

fn pairs(list: &[(&str, bool)]) -> Vec<(String, bool)> {
    list.iter().map(|(n, v)| (n.to_string(), *v)).collect()
}

fn sample_editor(can_save: bool) -> ThresholdEditor {
    let known = vec!["pe".to_string(), "pb".to_string(), "roe".to_string()];
    let entries = pairs(&[("pb", true), ("zeta", false), ("alpha", true)]);
    ThresholdEditor::new(&known, &entries, can_save)
}

#[test]
fn editor_lists_enabled_metrics_first_then_by_name() {
    let editor = sample_editor(true);
    assert_eq!(
        names(&editor),
        pairs(&[("alpha", true), ("pb", true), ("pe", false), ("roe", false), ("zeta", false)])
    );
    assert_eq!(editor.selected(), 0);
    assert!(matches!(editor.mode(), EditorMode::List));
    assert!(editor.status().is_none());
    assert!(editor.can_save());
}

#[test]
fn list_navigation_wraps_over_back_row() {
    let mut editor = sample_editor(true);
    assert!(matches!(editor.handle_key(plain(KeyCode::Up)), EditorAction::Redraw));
    assert_eq!(editor.selected(), 5);
    assert!(matches!(editor.handle_key(ch('j')), EditorAction::Redraw));
    assert_eq!(editor.selected(), 0);
    editor.handle_key(ch('k'));
    assert!(matches!(editor.handle_key(plain(KeyCode::Enter)), EditorAction::Exit));
    assert!(matches!(editor.handle_key(plain(KeyCode::Esc)), EditorAction::Exit));
    assert!(matches!(editor.handle_key(Key { code: KeyCode::Char('c'), ctrl: true }), EditorAction::Exit));
}

#[test]
fn toggling_reorders_and_follows_metric() {
    let mut editor = sample_editor(true);
    match editor.handle_key(ch(' ')) {
        EditorAction::SetValid { name, valid } => {
            assert_eq!(name, "alpha");
            assert!(!valid);
        },
        _ => panic!("expected SetValid"),
    }
    assert_eq!(
        names(&editor),
        pairs(&[("pb", true), ("alpha", false), ("pe", false), ("roe", false), ("zeta", false)])
    );
    assert_eq!(editor.selected(), 1);
    editor.handle_key(plain(KeyCode::Down));
    editor.handle_key(plain(KeyCode::Down));
    match editor.handle_key(ch('t')) {
        EditorAction::SetValid { name, valid } => {
            assert_eq!(name, "roe");
            assert!(valid);
        },
        _ => panic!("expected SetValid"),
    }
    assert_eq!(
        names(&editor),
        pairs(&[("pb", true), ("roe", true), ("alpha", false), ("pe", false), ("zeta", false)])
    );
    assert_eq!(editor.selected(), 1);
}

#[test]
fn edit_dialog_collects_bounds_and_commits() {
    let mut editor = sample_editor(true);
    editor.handle_key(plain(KeyCode::Down));
    assert!(matches!(editor.handle_key(plain(KeyCode::Enter)), EditorAction::Redraw));
    match editor.mode() {
        EditorMode::Edit { name, lower, upper, valid, field } => {
            assert_eq!(name, "pb");
            assert!(lower.is_empty() && upper.is_empty());
            assert!(*valid);
            assert_eq!(*field, 0);
        },
        _ => panic!("expected edit mode"),
    }
    for c in ['1', 'x', '.', '5'] {
        editor.handle_key(ch(c));
    }
    editor.handle_key(plain(KeyCode::Tab));
    for c in ['-', '2', '9'] {
        editor.handle_key(ch(c));
    }
    editor.handle_key(plain(KeyCode::Backspace));
    editor.handle_key(plain(KeyCode::Down));
    editor.handle_key(ch('7'));
    editor.handle_key(ch(' '));
    match editor.mode() {
        EditorMode::Edit { lower, upper, valid, field, .. } => {
            assert_eq!(lower, "1.5");
            assert_eq!(upper, "-2");
            assert!(!*valid);
            assert_eq!(*field, 2);
        },
        _ => panic!("expected edit mode"),
    }
    match editor.handle_key(plain(KeyCode::Enter)) {
        EditorAction::Commit { name, lower, upper, valid } => {
            assert_eq!((name.as_str(), lower.as_str(), upper.as_str(), valid), ("pb", "1.5", "-2", false));
        },
        _ => panic!("expected Commit"),
    }
    assert!(matches!(editor.mode(), EditorMode::List));
    assert_eq!(
        names(&editor),
        pairs(&[("alpha", true), ("pb", false), ("pe", false), ("roe", false), ("zeta", false)])
    );
    assert_eq!(editor.selected(), 1);
}

#[test]
fn edit_dialog_escape_drops_changes() {
    let mut editor = sample_editor(true);
    editor.handle_key(plain(KeyCode::Enter));
    editor.handle_key(plain(KeyCode::Up));
    editor.handle_key(ch('v'));
    assert!(matches!(editor.handle_key(plain(KeyCode::Esc)), EditorAction::Redraw));
    assert!(matches!(editor.mode(), EditorMode::List));
    assert_eq!(names(&editor)[0], ("alpha".to_string(), true));
    assert_eq!(editor.selected(), 0);
}

#[test]
fn saving_unavailable_sets_error_status() {
    let mut editor = sample_editor(false);
    assert!(matches!(editor.handle_key(ch('s')), EditorAction::Redraw));
    assert!(matches!(editor.mode(), EditorMode::List));
    match editor.status() {
        Some(SaveStatus::Error(m)) => assert_eq!(m, "Saving presets is unavailable in this context."),
        _ => panic!("expected error status"),
    }
    editor.handle_key(plain(KeyCode::Down));
    assert!(editor.status().is_none());
}

#[test]
fn save_dialog_asks_caller_and_reports_result() {
    let mut editor = sample_editor(true);
    editor.handle_key(ch('S'));
    for c in [' ', 'T', 'o', 'p', '!', ' '] {
        editor.handle_key(ch(c));
    }
    match editor.mode() {
        EditorMode::Save { buffer, error } => {
            assert_eq!(buffer, " Top ");
            assert!(error.is_none());
        },
        _ => panic!("expected save mode"),
    }
    match editor.handle_key(plain(KeyCode::Enter)) {
        EditorAction::Save { name } => assert_eq!(name, "Top"),
        _ => panic!("expected Save"),
    }
    editor.save_finished(Err("disk full".to_string()));
    match editor.mode() {
        EditorMode::Save { buffer, error } => {
            assert_eq!(buffer, " Top ");
            assert_eq!(error.as_deref(), Some("disk full"));
        },
        _ => panic!("expected save mode"),
    }
    editor.save_finished(Ok("top".to_string()));
    assert!(matches!(editor.mode(), EditorMode::List));
    match editor.status() {
        Some(SaveStatus::Info(m)) => assert_eq!(m, "Saved filters as 'top'"),
        _ => panic!("expected info status"),
    }
}

#[test]
fn save_dialog_refuses_blank_name_and_cancels() {
    let mut editor = sample_editor(true);
    editor.handle_key(ch('s'));
    editor.handle_key(ch(' '));
    assert!(matches!(editor.handle_key(plain(KeyCode::Enter)), EditorAction::Redraw));
    match editor.mode() {
        EditorMode::Save { error, .. } => assert_eq!(error.as_deref(), Some("Name cannot be empty")),
        _ => panic!("expected save mode"),
    }
    editor.handle_key(plain(KeyCode::Backspace));
    match editor.mode() {
        EditorMode::Save { buffer, error } => {
            assert!(buffer.is_empty());
            assert!(error.is_none());
        },
        _ => panic!("expected save mode"),
    }
    assert!(matches!(editor.handle_key(plain(KeyCode::Esc)), EditorAction::Redraw));
    assert!(matches!(editor.mode(), EditorMode::List));
}

#[test]
fn toggling_twice_restores_list() {
    let mut editor = sample_editor(true);
    editor.handle_key(plain(KeyCode::Down));
    editor.handle_key(plain(KeyCode::Down));
    let before = names(&editor);
    assert_eq!(editor.selected(), 2);
    editor.handle_key(ch('v'));
    assert_eq!(
        names(&editor),
        pairs(&[("alpha", true), ("pb", true), ("pe", true), ("roe", false), ("zeta", false)])
    );
    editor.handle_key(ch('v'));
    assert_eq!(names(&editor), before);
    assert_eq!(editor.selected(), 2);
}
