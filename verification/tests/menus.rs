use stock_cli::menus::{
    char_is_preset_char, file_picker, file_picker_step, filters_menu, filters_menu_items, key_cancels_fetch,
    key_dismisses_summary, main_menu, main_menu_header, main_menu_items, market_picker, market_picker_step,
    progress_done, trim_name, DialogOutcome, MarketPickError, MenuStep, PickerOutcome, SavePresetDialog,
};
use stock_cli::navigation::{FilterMenuAction, Key, KeyCode, MenuAction};

fn plain(code: KeyCode) -> Key {
    Key { code, ctrl: false }
}

fn ctrl_c() -> Key {
    Key { code: KeyCode::Char('c'), ctrl: true }
}

#[test]
fn main_menu_rows_with_region_switch() {
    let items = main_menu_items(true);
    let labels: Vec<&str> = items.iter().map(|i| i.label).collect();
    assert_eq!(labels, vec!["Show Filtered", "Refresh Data", "Filters", "Load CSV", "Switch Market", "Quit"]);
    assert_eq!(items[4].action, MenuAction::SwitchRegion);
    assert_eq!(items[4].description, "Change the active market region");
    assert_eq!(items[0].description, "Review the latest data using current filters");
}

#[test]
fn main_menu_rows_without_region_switch() {
    let items = main_menu_items(false);
    let actions: Vec<MenuAction> = items.iter().map(|i| i.action).collect();
    assert_eq!(
        actions,
        vec![MenuAction::Filter, MenuAction::Update, MenuAction::Filters, MenuAction::Load, MenuAction::Exit]
    );
}

#[test]
fn filters_menu_rows() {
    let items = filters_menu_items();
    let labels: Vec<(&str, &str)> = items.iter().map(|i| (i.label, i.description)).collect();
    assert_eq!(
        labels,
        vec![
            ("Set Filters", "Adjust threshold ranges"),
            ("Save Filters", "Store current thresholds as a preset"),
            ("Load Filters", "Apply a saved preset"),
            ("Back", "Return to the main menu"),
        ]
    );
}

#[test]
fn main_menu_navigation_and_choice() {
    let mut menu = main_menu(true);
    assert_eq!(menu.selected(), 0);
    assert_eq!(menu.handle_key(plain(KeyCode::Up)), MenuStep::Continue);
    assert_eq!(menu.selected(), 5);
    assert_eq!(menu.handle_key(plain(KeyCode::Char('j'))), MenuStep::Continue);
    assert_eq!(menu.selected(), 0);
    assert_eq!(menu.handle_key(plain(KeyCode::Down)), MenuStep::Continue);
    assert_eq!(menu.handle_key(plain(KeyCode::Char('x'))), MenuStep::Continue);
    assert_eq!(menu.selected(), 1);
    assert_eq!(menu.handle_key(plain(KeyCode::Enter)), MenuStep::Done(MenuAction::Update));
}

#[test]
fn main_menu_escape_and_ctrl_c_exit() {
    let mut menu = main_menu(false);
    assert_eq!(menu.handle_key(plain(KeyCode::Esc)), MenuStep::Done(MenuAction::Exit));
    assert_eq!(menu.handle_key(ctrl_c()), MenuStep::Done(MenuAction::Exit));
}

#[test]
fn filters_menu_escape_goes_back() {
    let mut menu = filters_menu();
    assert_eq!(menu.items().len(), 4);
    assert_eq!(menu.handle_key(plain(KeyCode::Esc)), MenuStep::Done(FilterMenuAction::Back));
    menu.handle_key(plain(KeyCode::Down));
    assert_eq!(menu.handle_key(plain(KeyCode::Enter)), MenuStep::Done(FilterMenuAction::Save));
}

#[test]
fn main_menu_header_lines() {
    assert_eq!(
        main_menu_header(Some("snap.csv"), "CN", "China A-shares"),
        "Stock CLI — Main Menu\nRegion: CN — China A-shares\nData file: snap.csv"
    );
    assert_eq!(main_menu_header(None, "HK", "Hong Kong"), "Stock CLI — Main Menu\nRegion: HK — Hong Kong\nData file: None");
    assert_eq!(main_menu_header(Some(""), "US", "United States"), "Stock CLI — Main Menu\nRegion: US — United States\nData file: None");
}

#[test]
fn market_picker_refuses_empty_list() {
    assert!(matches!(market_picker(0), Err(MarketPickError::NoMarkets)));
    assert_eq!(MarketPickError::NoMarkets.message(), "No stock markets are available");
    assert_eq!(MarketPickError::Cancelled.message(), "Market selection cancelled");
}

#[test]
fn market_picker_chooses_and_cancels() {
    let codes = vec!["CN".to_string(), "HK".to_string(), "US".to_string()];
    let mut picker = market_picker(codes.len()).ok().unwrap();
    assert_eq!(picker.selected(), 0);
    assert_eq!(market_picker_step(&mut picker, &codes, plain(KeyCode::Char('k'))), None);
    assert_eq!(picker.selected(), 2);
    assert_eq!(market_picker_step(&mut picker, &codes, plain(KeyCode::Enter)), Some(Ok("US".to_string())));
    assert_eq!(
        market_picker_step(&mut picker, &codes, plain(KeyCode::Esc)),
        Some(Err(MarketPickError::Cancelled))
    );
    assert_eq!(market_picker_step(&mut picker, &codes, ctrl_c()), Some(Err(MarketPickError::Cancelled)));
}

#[test]
fn file_picker_returns_path_or_cancellation() {
    assert!(file_picker(0).is_none());
    let paths = vec!["/a/new.csv".to_string(), "/a/old.csv".to_string()];
    let mut picker = file_picker(paths.len()).unwrap();
    assert_eq!(picker.handle_key(plain(KeyCode::Down)), PickerOutcome::Continue);
    assert_eq!(file_picker_step(&mut picker, &paths, plain(KeyCode::Enter)), Some(Some("/a/old.csv".to_string())));
    assert_eq!(file_picker_step(&mut picker, &paths, plain(KeyCode::Char('q'))), None);
    assert_eq!(file_picker_step(&mut picker, &paths, plain(KeyCode::Esc)), Some(None));
}

#[test]
fn preset_chars_and_trimming() {
    assert!(char_is_preset_char('a'));
    assert!(char_is_preset_char('Z'));
    assert!(char_is_preset_char('7'));
    assert!(char_is_preset_char(' '));
    assert!(char_is_preset_char('-'));
    assert!(char_is_preset_char('_'));
    assert!(!char_is_preset_char('.'));
    assert!(!char_is_preset_char('é'));
    assert_eq!(trim_name("  my set  "), "my set");
    assert_eq!(trim_name("   "), "");
    assert_eq!(trim_name("x"), "x");
}

#[test]
fn save_dialog_types_and_saves_trimmed_name() {
    let mut dialog = SavePresetDialog::new();
    assert_eq!(dialog.message(), "Enter to save • Esc to cancel • Backspace delete");
    for c in [' ', 'M', 'y', ' ', 'S', 'e', 't', ' '] {
        assert_eq!(dialog.handle_key(plain(KeyCode::Char(c))), DialogOutcome::Continue);
    }
    assert_eq!(dialog.buffer(), " My Set ");
    assert_eq!(dialog.handle_key(plain(KeyCode::Enter)), DialogOutcome::Saved("My Set".to_string()));
}

#[test]
fn save_dialog_rejects_bad_chars_and_blank_names() {
    let mut dialog = SavePresetDialog::new();
    assert_eq!(dialog.handle_key(plain(KeyCode::Char('!'))), DialogOutcome::Continue);
    assert_eq!(dialog.buffer(), "");
    assert_eq!(dialog.message(), "Unsupported character");
    assert_eq!(dialog.handle_key(plain(KeyCode::Char(' '))), DialogOutcome::Continue);
    assert_eq!(dialog.message(), "Enter to save • Esc to cancel • Backspace delete");
    assert_eq!(dialog.handle_key(plain(KeyCode::Enter)), DialogOutcome::Continue);
    assert_eq!(dialog.message(), "Name cannot be empty");
    assert_eq!(dialog.handle_key(plain(KeyCode::Backspace)), DialogOutcome::Continue);
    assert_eq!(dialog.buffer(), "");
    assert_eq!(dialog.handle_key(plain(KeyCode::Backspace)), DialogOutcome::Continue);
    assert_eq!(dialog.buffer(), "");
    assert_eq!(dialog.handle_key(plain(KeyCode::Esc)), DialogOutcome::Cancelled);
    assert_eq!(dialog.handle_key(ctrl_c()), DialogOutcome::Cancelled);
}

#[test]
fn fetch_progress_keys_and_count() {
    assert!(key_cancels_fetch(plain(KeyCode::Esc)));
    assert!(key_cancels_fetch(ctrl_c()));
    assert!(!key_cancels_fetch(plain(KeyCode::Enter)));
    assert!(key_dismisses_summary(plain(KeyCode::Enter)));
    assert!(key_dismisses_summary(plain(KeyCode::Char('\n'))));
    assert!(key_dismisses_summary(plain(KeyCode::Char('\r'))));
    assert!(key_dismisses_summary(plain(KeyCode::Esc)));
    assert!(key_dismisses_summary(ctrl_c()));
    assert!(!key_dismisses_summary(plain(KeyCode::Char('q'))));
    assert_eq!(progress_done(3, 10), 3);
    assert_eq!(progress_done(12, 10), 10);
    assert_eq!(progress_done(10, 10), 10);
}

#[test]
fn save_dialog_buffer_keeps_only_accepted_chars() {
    let mut dialog = SavePresetDialog::new();
    for c in ['a', '#', ' ', '-', 'é', '_', '9'] {
        dialog.handle_key(plain(KeyCode::Char(c)));
    }
    assert_eq!(dialog.buffer(), "a -_9");
    assert!(dialog.buffer().chars().all(char_is_preset_char));
}
