use vstd::prelude::*;

verus! {

/// Central routing types for the terminal flows.
#[derive(Debug, Clone, Copy, PartialEq, Eq, Structural)]
pub enum UiRoute {
    MainMenu,
    FiltersMenu,
    Results,
    CsvPicker,
    PresetPicker,
    SavePreset,
    Thresholds,
    FetchProgress,
    MarketPicker,
    Exit,
}

/// The label shown for each route in headers and logs.
pub open spec fn route_title(route: UiRoute) -> Seq<char> {
    match route {
        UiRoute::MainMenu => "Main Menu"@,
        UiRoute::FiltersMenu => "Filters"@,
        UiRoute::Results => "Filtered Results"@,
        UiRoute::CsvPicker => "Load CSV"@,
        UiRoute::PresetPicker => "Load Filters"@,
        UiRoute::SavePreset => "Save Filters"@,
        UiRoute::Thresholds => "Edit Thresholds"@,
        UiRoute::FetchProgress => "Fetching Data"@,
        UiRoute::MarketPicker => "Select Market"@,
        UiRoute::Exit => "Exit"@,
    }
}

impl UiRoute {
    /// Human readable label used by headers and logs.
    pub fn title(self) -> (t: &'static str)
        ensures
            t@ == route_title(self),
    {
        match self {
            UiRoute::MainMenu => "Main Menu",
            UiRoute::FiltersMenu => "Filters",
            UiRoute::Results => "Filtered Results",
            UiRoute::CsvPicker => "Load CSV",
            UiRoute::PresetPicker => "Load Filters",
            UiRoute::SavePreset => "Save Filters",
            UiRoute::Thresholds => "Edit Thresholds",
            UiRoute::FetchProgress => "Fetching Data",
            UiRoute::MarketPicker => "Select Market",
            UiRoute::Exit => "Exit",
        }
    }
}

} // verus!

verus! {

/// Navigation outcomes from the main menu screen.
#[derive(Debug, Clone, Copy, PartialEq, Eq, Structural)]
pub enum MenuAction {
    Update,
    Filter,
    Filters,
    Load,
    SwitchRegion,
    Exit,
}

/// Secondary menu outcomes when managing filters.
#[derive(Debug, Clone, Copy, PartialEq, Eq, Structural)]
pub enum FilterMenuAction {
    Adjust,
    Save,
    Load,
    Back,
}

/// The key that was pressed, as the screens read it.
#[derive(Debug, Clone, Copy, PartialEq, Eq, Structural)]
pub enum KeyCode {
    Up,
    Down,
    Left,
    Right,
    Enter,
    Esc,
    Tab,
    Backspace,
    PageUp,
    PageDown,
    Home,
    End,
    Char(char),
    Other,
}

/// A key press and whether Control was held.
#[derive(Debug, Clone, Copy, PartialEq, Eq, Structural)]
pub struct Key {
    pub code: KeyCode,
    pub ctrl: bool,
}

/// Ctrl+C.
pub open spec fn is_ctrl_c(key: Key) -> bool {
    key.code == KeyCode::Char('c') && key.ctrl
}

/// Up arrow or `k`.
pub open spec fn is_up_key(key: Key) -> bool {
    key.code == KeyCode::Up || key.code == KeyCode::Char('k')
}

/// Down arrow or `j`.
pub open spec fn is_down_key(key: Key) -> bool {
    key.code == KeyCode::Down || key.code == KeyCode::Char('j')
}

pub fn key_is_ctrl_c(key: Key) -> (r: bool)
    ensures
        r == is_ctrl_c(key),
{
    match key.code {
        KeyCode::Char(c) => c == 'c' && key.ctrl,
        _ => false,
    }
}

pub fn key_is_up(key: Key) -> (r: bool)
    ensures
        r == is_up_key(key),
{
    match key.code {
        KeyCode::Up => true,
        KeyCode::Char(c) => c == 'k',
        _ => false,
    }
}

pub fn key_is_down(key: Key) -> (r: bool)
    ensures
        r == is_down_key(key),
{
    match key.code {
        KeyCode::Down => true,
        KeyCode::Char(c) => c == 'j',
        _ => false,
    }
}

// ---------------------------------------------------------------------------
// Wrap-around list navigation
// ---------------------------------------------------------------------------

/// One row up, from the first row to the last.
pub open spec fn wrap_up(selected: int, len: int) -> int {
    if selected == 0 {
        len - 1
    } else {
        selected - 1
    }
}

/// One row down, from the last row to the first.
pub open spec fn wrap_down(selected: int, len: int) -> int {
    (selected + 1) % len
}

pub fn move_up(selected: usize, len: usize) -> (r: usize)
    requires
        len > 0,
    ensures
        r == wrap_up(selected as int, len as int),
{
    if selected == 0 {
        len - 1
    } else {
        selected - 1
    }
}

pub fn move_down(selected: usize, len: usize) -> (r: usize)
    requires
        len > 0,
        selected < usize::MAX,
    ensures
        r == wrap_down(selected as int, len as int),
{
    (selected + 1) % len
}

/// Law: wrap-around navigation stays on the list, and one step up undoes one
/// step down (and the other way round).
pub proof fn lemma_wrap_navigation(selected: int, len: int)
    requires
        0 <= selected < len,
    ensures
        0 <= wrap_up(selected, len) < len,
        0 <= wrap_down(selected, len) < len,
        wrap_up(wrap_down(selected, len), len) == selected,
        wrap_down(wrap_up(selected, len), len) == selected,
        selected == 0 ==> wrap_up(selected, len) == len - 1,
        selected == len - 1 ==> wrap_down(selected, len) == 0,
{
    if selected + 1 < len {
        vstd::arithmetic::div_mod::lemma_small_mod((selected + 1) as nat, len as nat);
    } else {
        vstd::arithmetic::div_mod::lemma_mod_self_0(len);
    }
    if selected == 0 {
        vstd::arithmetic::div_mod::lemma_mod_self_0(len);
    } else {
        vstd::arithmetic::div_mod::lemma_small_mod(selected as nat, len as nat);
    }
}

} // verus!

verus! {

/// Law: the route labels.
pub proof fn lemma_route_titles()
    ensures
        route_title(UiRoute::MainMenu) == "Main Menu"@,
        route_title(UiRoute::FiltersMenu) == "Filters"@,
        route_title(UiRoute::Results) == "Filtered Results"@,
        route_title(UiRoute::CsvPicker) == "Load CSV"@,
        route_title(UiRoute::PresetPicker) == "Load Filters"@,
        route_title(UiRoute::SavePreset) == "Save Filters"@,
        route_title(UiRoute::Thresholds) == "Edit Thresholds"@,
        route_title(UiRoute::FetchProgress) == "Fetching Data"@,
        route_title(UiRoute::MarketPicker) == "Select Market"@,
        route_title(UiRoute::Exit) == "Exit"@,
{
}

/// Law: Up and `k` move up, Down and `j` move down, with or without
/// Control; Ctrl+C is `c` with Control held and nothing else.
pub proof fn lemma_movement_keys(ctrl: bool, c: char)
    ensures
        is_up_key(Key { code: KeyCode::Up, ctrl }) && is_up_key(Key { code: KeyCode::Char('k'), ctrl }),
        is_down_key(Key { code: KeyCode::Down, ctrl }) && is_down_key(Key { code: KeyCode::Char('j'), ctrl }),
        !is_up_key(Key { code: KeyCode::Down, ctrl }) && !is_down_key(Key { code: KeyCode::Up, ctrl }),
        c != 'k' ==> !is_up_key(Key { code: KeyCode::Char(c), ctrl }),
        c != 'j' ==> !is_down_key(Key { code: KeyCode::Char(c), ctrl }),
        is_ctrl_c(Key { code: KeyCode::Char(c), ctrl }) <==> (c == 'c' && ctrl),
{
}

/// Law: moving down goes to the next row, from the last to the first; moving
/// up to the previous row, from the first to the last.
pub proof fn lemma_wrap_steps(selected: int, len: int)
    requires
        0 <= selected < len,
    ensures
        selected + 1 < len ==> wrap_down(selected, len) == selected + 1,
        selected + 1 == len ==> wrap_down(selected, len) == 0,
        selected > 0 ==> wrap_up(selected, len) == selected - 1,
        selected == 0 ==> wrap_up(selected, len) == len - 1,
{
    lemma_wrap_navigation(selected, len);
    if selected + 1 < len {
        vstd::arithmetic::div_mod::lemma_small_mod((selected + 1) as nat, len as nat);
    }
}

} // verus!
