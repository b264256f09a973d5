use stock_cli::navigation::{key_is_ctrl_c, key_is_down, key_is_up, move_down, move_up, Key, KeyCode, UiRoute};

fn plain(code: KeyCode) -> Key {
    Key { code, ctrl: false }
}

#[test]
fn route_titles_match_labels() {
    assert_eq!(UiRoute::MainMenu.title(), "Main Menu");
    assert_eq!(UiRoute::FiltersMenu.title(), "Filters");
    assert_eq!(UiRoute::Results.title(), "Filtered Results");
    assert_eq!(UiRoute::CsvPicker.title(), "Load CSV");
    assert_eq!(UiRoute::PresetPicker.title(), "Load Filters");
    assert_eq!(UiRoute::SavePreset.title(), "Save Filters");
    assert_eq!(UiRoute::Thresholds.title(), "Edit Thresholds");
    assert_eq!(UiRoute::FetchProgress.title(), "Fetching Data");
    assert_eq!(UiRoute::MarketPicker.title(), "Select Market");
    assert_eq!(UiRoute::Exit.title(), "Exit");
}

#[test]
fn key_predicates_recognise_vim_keys_and_ctrl_c() {
    assert!(key_is_up(plain(KeyCode::Up)));
    assert!(key_is_up(plain(KeyCode::Char('k'))));
    assert!(!key_is_up(plain(KeyCode::Char('j'))));
    assert!(key_is_down(plain(KeyCode::Down)));
    assert!(key_is_down(plain(KeyCode::Char('j'))));
    assert!(!key_is_down(plain(KeyCode::PageDown)));
    assert!(key_is_ctrl_c(Key { code: KeyCode::Char('c'), ctrl: true }));
    assert!(!key_is_ctrl_c(plain(KeyCode::Char('c'))));
    assert!(!key_is_ctrl_c(Key { code: KeyCode::Char('x'), ctrl: true }));
}

#[test]
fn list_moves_wrap_around() {
    assert_eq!(move_up(0, 3), 2);
    assert_eq!(move_up(2, 3), 1);
    assert_eq!(move_down(2, 3), 0);
    assert_eq!(move_down(0, 3), 1);
    assert_eq!(move_down(0, 1), 0);
    assert_eq!(move_up(0, 1), 0);
}

#[test]
fn up_undoes_down_on_every_row() {
    for len in 1..6usize {
        for sel in 0..len {
            assert_eq!(move_up(move_down(sel, len), len), sel);
            assert_eq!(move_down(move_up(sel, len), len), sel);
        }
    }
}
