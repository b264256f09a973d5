use vstd::prelude::*;
use crate::navigation::{
    FilterMenuAction, Key, KeyCode, MenuAction, is_ctrl_c, is_down_key, is_up_key, key_is_ctrl_c,
    key_is_down, key_is_up, move_down, move_up, wrap_down, wrap_up,
};
use crate::text::{chars_of, is_ascii_alphanumeric, char_is_ascii_alphanumeric, pop_char, push_char, string_from_chars};

verus! {

// ---------------------------------------------------------------------------
// A selectable list with wrap-around navigation
// ---------------------------------------------------------------------------

/// What a key press did to a selectable list.
#[derive(Debug, Clone, Copy, PartialEq, Eq, Structural)]
pub enum PickerOutcome {
    /// Keep the list open.
    Continue,
    /// Enter on the row at this index.
    Chosen(usize),
    /// Esc or Ctrl+C.
    Cancelled,
}

/// The cursor of a non-empty list.
pub struct Picker {
    selected: usize,
    len: usize,
}

/// The outcome and cursor after a key press on a list of `len` rows.
pub open spec fn picker_step(selected: int, len: int, key: Key) -> (int, PickerOutcome) {
    if is_up_key(key) {
        (wrap_up(selected, len), PickerOutcome::Continue)
    } else if is_down_key(key) {
        (wrap_down(selected, len), PickerOutcome::Continue)
    } else if key.code == KeyCode::Enter {
        (selected, PickerOutcome::Chosen(selected as usize))
    } else if key.code == KeyCode::Esc || is_ctrl_c(key) {
        (selected, PickerOutcome::Cancelled)
    } else {
        (selected, PickerOutcome::Continue)
    }
}

impl Picker {
    /// The selected row is on the list.
    pub closed spec fn wf(&self) -> bool {
        self.selected < self.len
    }

    pub closed spec fn selected_spec(&self) -> int {
        self.selected as int
    }

    pub closed spec fn len_spec(&self) -> int {
        self.len as int
    }

    /// A list of `len` rows with the first selected.
    pub fn new(len: usize) -> (p: Self)
        requires
            len > 0,
        ensures
            p.wf(),
            p.selected_spec() == 0,
            p.len_spec() == len,
    {
        Picker { selected: 0, len }
    }

    pub fn selected(&self) -> (s: usize)
        ensures
            s == self.selected_spec(),
    {
        self.selected
    }

    /// Up/`k` and Down/`j` move with wrap-around, Enter chooses the selected
    /// row, Esc and Ctrl+C cancel, other keys do nothing.
    pub fn handle_key(&mut self, key: Key) -> (outcome: PickerOutcome)
        requires
            old(self).wf(),
        ensures
            final(self).wf(),
            final(self).len_spec() == old(self).len_spec(),
            (final(self).selected_spec(), outcome) == picker_step(
                old(self).selected_spec(),
                old(self).len_spec(),
                key,
            ),
    {
        if key_is_up(key) {
            self.selected = move_up(self.selected, self.len);
            PickerOutcome::Continue
        } else if key_is_down(key) {
            self.selected = move_down(self.selected, self.len);
            PickerOutcome::Continue
        } else if key.code == KeyCode::Enter {
            PickerOutcome::Chosen(self.selected)
        } else if key.code == KeyCode::Esc || key_is_ctrl_c(key) {
            PickerOutcome::Cancelled
        } else {
            PickerOutcome::Continue
        }
    }
}

// ---------------------------------------------------------------------------
// Main menu and filters menu
// ---------------------------------------------------------------------------

/// One row of a menu.
pub struct MenuItem<A> {
    pub label: &'static str,
    pub description: &'static str,
    pub action: A,
}

/// The actions of the main menu rows, top to bottom.
pub open spec fn main_menu_actions(allow_region_switch: bool) -> Seq<MenuAction> {
    if allow_region_switch {
        seq![
            MenuAction::Filter,
            MenuAction::Update,
            MenuAction::Filters,
            MenuAction::Load,
            MenuAction::SwitchRegion,
            MenuAction::Exit,
        ]
    } else {
        seq![MenuAction::Filter, MenuAction::Update, MenuAction::Filters, MenuAction::Load, MenuAction::Exit]
    }
}

/// The label of the main menu row for an action.
pub open spec fn main_menu_label(action: MenuAction) -> Seq<char> {
    match action {
        MenuAction::Filter => "Show Filtered"@,
        MenuAction::Update => "Refresh Data"@,
        MenuAction::Filters => "Filters"@,
        MenuAction::Load => "Load CSV"@,
        MenuAction::SwitchRegion => "Switch Market"@,
        MenuAction::Exit => "Quit"@,
    }
}

/// The description of the main menu row for an action.
pub open spec fn main_menu_description(action: MenuAction) -> Seq<char> {
    match action {
        MenuAction::Filter => "Review the latest data using current filters"@,
        MenuAction::Update => "Fetch the newest stock snapshot"@,
        MenuAction::Filters => "Adjust, save, or load threshold presets"@,
        MenuAction::Load => "Pick a saved dataset from assets/snapshots/"@,
        MenuAction::SwitchRegion => "Change the active market region"@,
        MenuAction::Exit => "Exit Stock CLI"@,
    }
}

fn main_menu_item(action: MenuAction) -> (item: MenuItem<MenuAction>)
    ensures
        item.action == action,
        item.label@ == main_menu_label(action),
        item.description@ == main_menu_description(action),
{
    match action {
        MenuAction::Filter => MenuItem {
            label: "Show Filtered",
            description: "Review the latest data using current filters",
            action,
        },
        MenuAction::Update => MenuItem {
            label: "Refresh Data",
            description: "Fetch the newest stock snapshot",
            action,
        },
        MenuAction::Filters => MenuItem {
            label: "Filters",
            description: "Adjust, save, or load threshold presets",
            action,
        },
        MenuAction::Load => MenuItem {
            label: "Load CSV",
            description: "Pick a saved dataset from assets/snapshots/",
            action,
        },
        MenuAction::SwitchRegion => MenuItem {
            label: "Switch Market",
            description: "Change the active market region",
            action,
        },
        MenuAction::Exit => MenuItem { label: "Quit", description: "Exit Stock CLI", action },
    }
}

/// The rows of the main menu; "Switch Market" only where switching regions is allowed.
pub fn main_menu_items(allow_region_switch: bool) -> (items: Vec<MenuItem<MenuAction>>)
    ensures
        items@.len() == main_menu_actions(allow_region_switch).len(),
        forall|i: int| 0 <= i < items@.len() ==> {
            &&& (#[trigger] items@[i]).action == main_menu_actions(allow_region_switch)[i]
            &&& items@[i].label@ == main_menu_label(items@[i].action)
            &&& items@[i].description@ == main_menu_description(items@[i].action)
        },
{
    let mut items: Vec<MenuItem<MenuAction>> = Vec::new();
    items.push(main_menu_item(MenuAction::Filter));
    items.push(main_menu_item(MenuAction::Update));
    items.push(main_menu_item(MenuAction::Filters));
    items.push(main_menu_item(MenuAction::Load));
    if allow_region_switch {
        items.push(main_menu_item(MenuAction::SwitchRegion));
    }
    items.push(main_menu_item(MenuAction::Exit));
    items
}

/// The actions of the filters menu rows, top to bottom.
pub open spec fn filters_menu_actions() -> Seq<FilterMenuAction> {
    seq![FilterMenuAction::Adjust, FilterMenuAction::Save, FilterMenuAction::Load, FilterMenuAction::Back]
}

/// The label and description of the filters menu row for an action.
pub open spec fn filters_menu_text(action: FilterMenuAction) -> (Seq<char>, Seq<char>) {
    match action {
        FilterMenuAction::Adjust => ("Set Filters"@, "Adjust threshold ranges"@),
        FilterMenuAction::Save => ("Save Filters"@, "Store current thresholds as a preset"@),
        FilterMenuAction::Load => ("Load Filters"@, "Apply a saved preset"@),
        FilterMenuAction::Back => ("Back"@, "Return to the main menu"@),
    }
}

/// The rows of the filters menu.
pub fn filters_menu_items() -> (items: Vec<MenuItem<FilterMenuAction>>)
    ensures
        items@.len() == filters_menu_actions().len(),
        forall|i: int| 0 <= i < items@.len() ==> {
            &&& (#[trigger] items@[i]).action == filters_menu_actions()[i]
            &&& (items@[i].label@, items@[i].description@) == filters_menu_text(items@[i].action)
        },
{
    let mut items: Vec<MenuItem<FilterMenuAction>> = Vec::new();
    items.push(
        MenuItem {
            label: "Set Filters",
            description: "Adjust threshold ranges",
            action: FilterMenuAction::Adjust,
        },
    );
    items.push(
        MenuItem {
            label: "Save Filters",
            description: "Store current thresholds as a preset",
            action: FilterMenuAction::Save,
        },
    );
    items.push(
        MenuItem {
            label: "Load Filters",
            description: "Apply a saved preset",
            action: FilterMenuAction::Load,
        },
    );
    items.push(
        MenuItem { label: "Back", description: "Return to the main menu", action: FilterMenuAction::Back },
    );
    items
}

/// What a key press on a menu decided.
#[derive(Debug, Clone, Copy, PartialEq, Eq, Structural)]
pub enum MenuStep<A> {
    Continue,
    Done(A),
}

/// A menu screen: its rows and the cursor.
pub struct Menu<A> {
    items: Vec<MenuItem<A>>,
    picker: Picker,
    cancel: A,
}

impl<A: Copy> Menu<A> {
    pub closed spec fn wf(&self) -> bool {
        self.picker.wf() && self.picker.len_spec() == self.items@.len()
    }

    /// The rows, top to bottom.
    pub closed spec fn rows(&self) -> Seq<MenuItem<A>> {
        self.items@
    }

    /// The action of each row, top to bottom.
    pub open spec fn actions(&self) -> Seq<A> {
        self.rows().map_values(|it: MenuItem<A>| it.action)
    }

    pub closed spec fn selected_spec(&self) -> int {
        self.picker.selected_spec()
    }

    /// The action Esc and Ctrl+C leave with.
    pub closed spec fn cancel_action(&self) -> A {
        self.cancel
    }

    /// A menu over `items` (at least one) with the first row selected.
    pub fn new(items: Vec<MenuItem<A>>, cancel: A) -> (m: Self)
        requires
            items@.len() > 0,
        ensures
            m.wf(),
            m.selected_spec() == 0,
            m.rows() == items@,
            m.cancel_action() == cancel,
    {
        let n = items.len();
        Menu { items, picker: Picker::new(n), cancel }
    }

    pub fn items(&self) -> (items: &Vec<MenuItem<A>>)
        ensures
            items@ == self.rows(),
    {
        &self.items
    }

    pub fn selected(&self) -> (s: usize)
        ensures
            s == self.selected_spec(),
    {
        self.picker.selected()
    }

    /// Move with Up/Down (and `k`/`j`), choose with Enter, leave with the
    /// cancel action on Esc or Ctrl+C.
    pub fn handle_key(&mut self, key: Key) -> (step: MenuStep<A>)
        requires
            old(self).wf(),
        ensures
            final(self).wf(),
            final(self).rows() == old(self).rows(),
            final(self).cancel_action() == old(self).cancel_action(),
            ({
                let (sel, outcome) = picker_step(old(self).selected_spec(), old(self).rows().len() as int, key);
                &&& final(self).selected_spec() == sel
                &&& step == match outcome {
                    PickerOutcome::Continue => MenuStep::Continue,
                    PickerOutcome::Chosen(i) => MenuStep::Done(old(self).actions()[i as int]),
                    PickerOutcome::Cancelled => MenuStep::Done(old(self).cancel_action()),
                }
            }),
    {
        match self.picker.handle_key(key) {
            PickerOutcome::Continue => MenuStep::Continue,
            PickerOutcome::Chosen(i) => MenuStep::Done(self.items[i].action),
            PickerOutcome::Cancelled => MenuStep::Done(self.cancel),
        }
    }
}

/// The main menu: Esc and Ctrl+C exit.
pub fn main_menu(allow_region_switch: bool) -> (m: Menu<MenuAction>)
    ensures
        m.wf(),
        m.selected_spec() == 0,
        m.actions() == main_menu_actions(allow_region_switch),
        forall|i: int| 0 <= i < m.rows().len() ==> {
            &&& (#[trigger] m.rows()[i]).label@ == main_menu_label(m.rows()[i].action)
            &&& m.rows()[i].description@ == main_menu_description(m.rows()[i].action)
        },
        m.cancel_action() == MenuAction::Exit,
{
    let items = main_menu_items(allow_region_switch);
    let m = Menu::new(items, MenuAction::Exit);
    assert(m.actions() =~= main_menu_actions(allow_region_switch));
    m
}

/// The filters menu: Esc and Ctrl+C go back.
pub fn filters_menu() -> (m: Menu<FilterMenuAction>)
    ensures
        m.wf(),
        m.selected_spec() == 0,
        m.actions() == filters_menu_actions(),
        forall|i: int| 0 <= i < m.rows().len() ==> ((#[trigger] m.rows()[i]).label@, m.rows()[i].description@)
            == filters_menu_text(m.rows()[i].action),
        m.cancel_action() == FilterMenuAction::Back,
{
    let items = filters_menu_items();
    let m = Menu::new(items, FilterMenuAction::Back);
    assert(m.actions() =~= filters_menu_actions());
    m
}

/// The header of the main menu: the region, and the loaded data file or "None".
pub open spec fn main_menu_header_spec(loaded_file: Option<Seq<char>>, region_code: Seq<char>, region_name: Seq<char>) -> Seq<char> {
    let file = match loaded_file {
        Some(name) => if name.len() > 0 {
            name
        } else {
            "None"@
        },
        None => "None"@,
    };
    "Stock CLI — Main Menu\nRegion: "@ + region_code + " — "@ + region_name + "\nData file: "@ + file
}

/// The three header lines of the main menu.
pub fn main_menu_header(loaded_file: Option<&str>, region_code: &str, region_name: &str) -> (h: String)
    ensures
        h@ == main_menu_header_spec(
            match loaded_file {
                Some(f) => Some(f@),
                None => None,
            },
            region_code@,
            region_name@,
        ),
{
    let mut h = String::new();
    h.append("Stock CLI — Main Menu\nRegion: ");
    h.append(region_code);
    h.append(" — ");
    h.append(region_name);
    h.append("\nData file: ");
    match loaded_file {
        Some(name) => {
            if name.is_empty() {
                h.append("None");
            } else {
                h.append(name);
            }
        },
        None => h.append("None"),
    }
    h
}

// ---------------------------------------------------------------------------
// Pickers over markets and files
// ---------------------------------------------------------------------------

/// Why the market picker ended without a market.
#[derive(Debug, Clone, Copy, PartialEq, Eq, Structural)]
pub enum MarketPickError {
    /// The list of markets is empty.
    NoMarkets,
    /// The user pressed Esc or Ctrl+C.
    Cancelled,
}

impl MarketPickError {
    /// The message shown for the error.
    pub fn message(self) -> (m: &'static str)
        ensures
            m@ == (match self {
                MarketPickError::NoMarkets => "No stock markets are available"@,
                MarketPickError::Cancelled => "Market selection cancelled"@,
            }),
    {
        match self {
            MarketPickError::NoMarkets => "No stock markets are available",
            MarketPickError::Cancelled => "Market selection cancelled",
        }
    }
}

/// The picker over the available markets, refused when there are none.
pub fn market_picker(option_count: usize) -> (r: Result<Picker, MarketPickError>)
    ensures
        option_count == 0 <==> r is Err,
        r matches Err(e) ==> e == MarketPickError::NoMarkets,
        r matches Ok(p) ==> p.wf() && p.selected_spec() == 0 && p.len_spec() == option_count,
{
    if option_count == 0 {
        Err(MarketPickError::NoMarkets)
    } else {
        Ok(Picker::new(option_count))
    }
}

/// What the market picker returns for a key: the chosen market code, a
/// cancellation, or nothing yet.
pub fn market_picker_step(picker: &mut Picker, codes: &Vec<String>, key: Key) -> (r: Option<Result<String, MarketPickError>>)
    requires
        old(picker).wf(),
        old(picker).len_spec() == codes@.len(),
    ensures
        final(picker).wf(),
        final(picker).len_spec() == old(picker).len_spec(),
        ({
            let (sel, outcome) = picker_step(old(picker).selected_spec(), old(picker).len_spec(), key);
            &&& final(picker).selected_spec() == sel
            &&& match outcome {
                PickerOutcome::Continue => r is None,
                PickerOutcome::Chosen(i) => r matches Some(Ok(code)) && code@ == codes@[i as int]@,
                PickerOutcome::Cancelled => r == Some(Err::<String, MarketPickError>(MarketPickError::Cancelled)),
            }
        }),
{
    match picker.handle_key(key) {
        PickerOutcome::Continue => None,
        PickerOutcome::Chosen(i) => Some(Ok(codes[i].clone())),
        PickerOutcome::Cancelled => Some(Err(MarketPickError::Cancelled)),
    }
}

/// The picker over a file listing, `None` when the listing is empty (the
/// screen then only shows that nothing is there).
pub fn file_picker(file_count: usize) -> (r: Option<Picker>)
    ensures
        r is None <==> file_count == 0,
        r matches Some(p) ==> p.wf() && p.selected_spec() == 0 && p.len_spec() == file_count,
{
    if file_count == 0 {
        None
    } else {
        Some(Picker::new(file_count))
    }
}

/// What a file picker returns for a key: `Some(Some(path))` when a file is
/// chosen, `Some(None)` when the picker is cancelled, `None` to keep going.
pub fn file_picker_step(picker: &mut Picker, paths: &Vec<String>, key: Key) -> (r: Option<Option<String>>)
    requires
        old(picker).wf(),
        old(picker).len_spec() == paths@.len(),
    ensures
        final(picker).wf(),
        final(picker).len_spec() == old(picker).len_spec(),
        ({
            let (sel, outcome) = picker_step(old(picker).selected_spec(), old(picker).len_spec(), key);
            &&& final(picker).selected_spec() == sel
            &&& match outcome {
                PickerOutcome::Continue => r is None,
                PickerOutcome::Chosen(i) => r matches Some(Some(p)) && p@ == paths@[i as int]@,
                PickerOutcome::Cancelled => r == Some(None::<String>),
            }
        }),
{
    match picker.handle_key(key) {
        PickerOutcome::Continue => None,
        PickerOutcome::Chosen(i) => Some(Some(paths[i].clone())),
        PickerOutcome::Cancelled => Some(None),
    }
}

// ---------------------------------------------------------------------------
// Preset names typed by the user
// ---------------------------------------------------------------------------

/// A char the preset name field accepts: ASCII letters and digits, space, `-`, `_`.
pub open spec fn is_preset_char(c: char) -> bool {
    is_ascii_alphanumeric(c) || c == ' ' || c == '-' || c == '_'
}

pub fn char_is_preset_char(c: char) -> (r: bool)
    ensures
        r == is_preset_char(c),
{
    char_is_ascii_alphanumeric(c) || c == ' ' || c == '-' || c == '_'
}

/// Leading spaces removed.
pub open spec fn trim_start_spaces(s: Seq<char>) -> Seq<char>
    decreases s.len(),
{
    if s.len() > 0 && s[0] == ' ' {
        trim_start_spaces(s.drop_first())
    } else {
        s
    }
}

/// Trailing spaces removed.
pub open spec fn trim_end_spaces(s: Seq<char>) -> Seq<char>
    decreases s.len(),
{
    if s.len() > 0 && s.last() == ' ' {
        trim_end_spaces(s.drop_last())
    } else {
        s
    }
}

/// Leading and trailing spaces removed (the only whitespace a preset name holds).
pub open spec fn trim_spaces(s: Seq<char>) -> Seq<char> {
    trim_end_spaces(trim_start_spaces(s))
}

proof fn lemma_trim_start_skip(s: Seq<char>, a: int)
    requires
        0 <= a <= s.len(),
        forall|i: int| 0 <= i < a ==> s[i] == ' ',
        a == s.len() || s[a] != ' ',
    ensures
        trim_start_spaces(s) == s.skip(a),
    decreases a,
{
    if a > 0 {
        lemma_trim_start_skip(s.drop_first(), a - 1);
        assert(s.drop_first().skip(a - 1) =~= s.skip(a));
    } else {
        assert(s.skip(0) =~= s);
    }
}

proof fn lemma_trim_end_take(s: Seq<char>, b: int)
    requires
        0 <= b <= s.len(),
        forall|i: int| b <= i < s.len() ==> s[i] == ' ',
        b == 0 || s[b - 1] != ' ',
    ensures
        trim_end_spaces(s) == s.take(b),
    decreases s.len() - b,
{
    if b < s.len() {
        lemma_trim_end_take(s.drop_last(), b);
        assert(s.drop_last().take(b) =~= s.take(b));
    } else {
        assert(s.take(b) =~= s);
    }
}

/// The name with leading and trailing spaces removed.
pub fn trim_name(s: &str) -> (t: String)
    ensures
        t@ == trim_spaces(s@),
{
    let chars = chars_of(s);
    let n = chars.len();
    let mut a: usize = 0;
    while a < n && chars[a] == ' '
        invariant
            a <= n,
            n == chars@.len(),
            forall|i: int| 0 <= i < a ==> chars@[i] == ' ',
        decreases n - a,
    {
        a = a + 1;
    }
    let mut b: usize = n;
    while b > a && chars[b - 1] == ' '
        invariant
            a <= b <= n,
            n == chars@.len(),
            forall|i: int| b <= i < n ==> chars@[i] == ' ',
        decreases b,
    {
        b = b - 1;
    }
    let mut out: Vec<char> = Vec::new();
    let mut i: usize = a;
    while i < b
        invariant
            a <= i <= b,
            b <= n,
            n == chars@.len(),
            out@ == chars@.subrange(a as int, i as int),
        decreases b - i,
    {
        out.push(chars[i]);
        assert(chars@.subrange(a as int, i + 1) =~= chars@.subrange(a as int, i as int).push(chars@[i as int]));
        i = i + 1;
    }
    proof {
        lemma_trim_start_skip(chars@, a as int);
        let rest = chars@.skip(a as int);
        if a < n {
            // b > a here, and rest ends with a non-space at b - 1 - a
            lemma_trim_end_take(rest, (b - a) as int);
            assert(rest.take((b - a) as int) =~= chars@.subrange(a as int, b as int));
        } else {
            assert(rest.len() == 0);
            assert(chars@.subrange(a as int, b as int) =~= rest);
        }
    }
    string_from_chars(&out)
}

/// What a key press did in the preset name dialog.
#[derive(Debug, Clone, PartialEq, Eq)]
pub enum DialogOutcome {
    Continue,
    /// Enter on a name that is not blank: the name without surrounding spaces.
    Saved(String),
    /// Esc or Ctrl+C.
    Cancelled,
}

/// The messages of the preset name dialog.
pub open spec fn empty_name_message() -> Seq<char> {
    "Name cannot be empty"@
}

pub open spec fn unsupported_char_message() -> Seq<char> {
    "Unsupported character"@
}

pub open spec fn dialog_hint_message() -> Seq<char> {
    "Enter to save • Esc to cancel • Backspace delete"@
}

/// The dialog that asks for a preset name.
pub struct SavePresetDialog {
    buffer: String,
    error: Option<&'static str>,
}

impl SavePresetDialog {
    /// The name typed so far holds only accepted chars.
    pub closed spec fn wf(&self) -> bool {
        forall|i: int| 0 <= i < self.buffer@.len() ==> is_preset_char(#[trigger] self.buffer@[i])
    }

    /// Law: the name typed into a valid dialog holds only accepted chars.
    pub proof fn lemma_buffer_accepted(&self)
        requires
            self.wf(),
        ensures
            forall|i: int| 0 <= i < self.buffer_spec().len() ==> is_preset_char(#[trigger] self.buffer_spec()[i]),
    {
    }

    pub closed spec fn buffer_spec(&self) -> Seq<char> {
        self.buffer@
    }

    pub closed spec fn error_spec(&self) -> Option<Seq<char>> {
        match self.error {
            Some(e) => Some(e@),
            None => None,
        }
    }

    pub fn new() -> (d: Self)
        ensures
            d.wf(),
            d.buffer_spec().len() == 0,
            d.error_spec() is None,
    {
        SavePresetDialog { buffer: String::new(), error: None }
    }

    /// The name typed so far.
    pub fn buffer(&self) -> (b: &str)
        ensures
            b@ == self.buffer_spec(),
            self.wf() ==> forall|i: int| 0 <= i < b@.len() ==> is_preset_char(#[trigger] b@[i]),
    {
        self.buffer.as_str()
    }

    /// The line under the input: the current error, or the key hints.
    pub fn message(&self) -> (m: &'static str)
        ensures
            m@ == match self.error_spec() {
                Some(e) => e,
                None => dialog_hint_message(),
            },
    {
        match self.error {
            Some(e) => e,
            None => "Enter to save • Esc to cancel • Backspace delete",
        }
    }

    /// Esc and Ctrl+C cancel; Enter saves the name without surrounding spaces
    /// unless it is blank; Backspace deletes the last char; accepted chars are
    /// typed, others rejected with a message.
    pub fn handle_key(&mut self, key: Key) -> (outcome: DialogOutcome)
        requires
            old(self).wf(),
        ensures
            final(self).wf(),
            key.code == KeyCode::Esc || is_ctrl_c(key) ==> outcome == DialogOutcome::Cancelled
                && final(self).buffer_spec() == old(self).buffer_spec(),
            !(key.code == KeyCode::Esc || is_ctrl_c(key)) ==> match key.code {
                KeyCode::Enter => {
                    let name = trim_spaces(old(self).buffer_spec());
                    &&& final(self).buffer_spec() == old(self).buffer_spec()
                    &&& if name.len() == 0 {
                        outcome == DialogOutcome::Continue && final(self).error_spec() == Some(empty_name_message())
                    } else {
                        outcome matches DialogOutcome::Saved(s) && s@ == name
                    }
                },
                KeyCode::Backspace => {
                    &&& outcome == DialogOutcome::Continue
                    &&& final(self).buffer_spec() == (if old(self).buffer_spec().len() == 0 {
                        old(self).buffer_spec()
                    } else {
                        old(self).buffer_spec().drop_last()
                    })
                    &&& final(self).error_spec() is None
                },
                KeyCode::Char(c) => {
                    &&& outcome == DialogOutcome::Continue
                    &&& if is_preset_char(c) {
                        final(self).buffer_spec() == old(self).buffer_spec().push(c)
                            && final(self).error_spec() is None
                    } else {
                        final(self).buffer_spec() == old(self).buffer_spec()
                            && final(self).error_spec() == Some(unsupported_char_message())
                    }
                },
                _ => outcome == DialogOutcome::Continue && final(self).buffer_spec() == old(self).buffer_spec()
                    && final(self).error_spec() == old(self).error_spec(),
            },
    {
        if key.code == KeyCode::Esc || key_is_ctrl_c(key) {
            return DialogOutcome::Cancelled;
        }
        match key.code {
            KeyCode::Enter => {
                let trimmed = trim_name(self.buffer.as_str());
                if trimmed.as_str().is_empty() {
                    self.error = Some("Name cannot be empty");
                    DialogOutcome::Continue
                } else {
                    DialogOutcome::Saved(trimmed)
                }
            },
            KeyCode::Backspace => {
                let _ = pop_char(&mut self.buffer);
                self.error = None;
                proof {
                    assert forall|i: int| 0 <= i < self.buffer@.len() implies is_preset_char(
                        #[trigger] self.buffer@[i],
                    ) by {
                        assert(self.buffer@[i] == old(self).buffer@[i]);
                    }
                }
                DialogOutcome::Continue
            },
            KeyCode::Char(ch) => {
                if char_is_preset_char(ch) {
                    push_char(&mut self.buffer, ch);
                    self.error = None;
                    proof {
                        assert forall|i: int| 0 <= i < self.buffer@.len() implies is_preset_char(
                            #[trigger] self.buffer@[i],
                        ) by {
                            if i < old(self).buffer@.len() {
                                assert(self.buffer@[i] == old(self).buffer@[i]);
                            }
                        }
                    }
                } else {
                    self.error = Some("Unsupported character");
                }
                DialogOutcome::Continue
            },
            _ => DialogOutcome::Continue,
        }
    }
}

// ---------------------------------------------------------------------------
// Fetch progress screen
// ---------------------------------------------------------------------------

/// Esc or Ctrl+C cancel a running fetch.
pub open spec fn is_cancel_key(key: Key) -> bool {
    key.code == KeyCode::Esc || is_ctrl_c(key)
}

/// Enter (or a raw newline or carriage return), Esc or Ctrl+C dismiss the
/// summary after a fetch.
pub open spec fn is_dismiss_key(key: Key) -> bool {
    key.code == KeyCode::Enter || key.code == KeyCode::Char('\n') || key.code == KeyCode::Char('\r')
        || is_cancel_key(key)
}

pub fn key_cancels_fetch(key: Key) -> (r: bool)
    ensures
        r == is_cancel_key(key),
{
    key.code == KeyCode::Esc || key_is_ctrl_c(key)
}

pub fn key_dismisses_summary(key: Key) -> (r: bool)
    ensures
        r == is_dismiss_key(key),
{
    match key.code {
        KeyCode::Enter => true,
        KeyCode::Char(c) => c == '\n' || c == '\r' || key_is_ctrl_c(key),
        KeyCode::Esc => true,
        _ => false,
    }
}

/// The progress shown while fetching: completed stocks never exceed the total.
pub fn progress_done(done: usize, total: usize) -> (shown: usize)
    ensures
        shown == if done < total {
            done
        } else {
            total
        },
{
    if done < total {
        done
    } else {
        total
    }
}

} // verus!

verus! {

/// Law: a preset name accepts exactly the ASCII letters and digits, space,
/// `-` and `_`.
pub proof fn lemma_preset_chars(c: char)
    ensures
        is_preset_char(c) <==> (('0' <= c && c <= '9') || ('A' <= c && c <= 'Z') || ('a' <= c && c <= 'z') || c
            == ' ' || c == '-' || c == '_'),
{
}

} // verus!

verus! {

/// Law: the main menu's rows, top to bottom: Show Filtered, Refresh Data,
/// Filters, Load CSV, then Switch Market where switching is allowed, and Quit
/// last.
pub proof fn lemma_main_menu_rows(allow_region_switch: bool)
    ensures
        main_menu_actions(allow_region_switch)[0] == MenuAction::Filter && main_menu_label(MenuAction::Filter)
            == "Show Filtered"@,
        main_menu_actions(allow_region_switch)[1] == MenuAction::Update && main_menu_label(MenuAction::Update)
            == "Refresh Data"@,
        main_menu_actions(allow_region_switch)[2] == MenuAction::Filters && main_menu_label(MenuAction::Filters)
            == "Filters"@,
        main_menu_actions(allow_region_switch)[3] == MenuAction::Load && main_menu_label(MenuAction::Load)
            == "Load CSV"@,
        allow_region_switch ==> main_menu_actions(allow_region_switch).len() == 6 && main_menu_actions(
            allow_region_switch,
        )[4] == MenuAction::SwitchRegion && main_menu_label(MenuAction::SwitchRegion) == "Switch Market"@,
        !allow_region_switch ==> main_menu_actions(allow_region_switch).len() == 5,
        main_menu_actions(allow_region_switch).last() == MenuAction::Exit && main_menu_label(MenuAction::Exit)
            == "Quit"@,
        filters_menu_actions() == seq![
            FilterMenuAction::Adjust,
            FilterMenuAction::Save,
            FilterMenuAction::Load,
            FilterMenuAction::Back,
        ],
        filters_menu_text(FilterMenuAction::Adjust).0 == "Set Filters"@,
        filters_menu_text(FilterMenuAction::Save).0 == "Save Filters"@,
        filters_menu_text(FilterMenuAction::Load).0 == "Load Filters"@,
        filters_menu_text(FilterMenuAction::Back).0 == "Back"@,
{
}

/// Law: on a list, Enter chooses the selected row, Esc and Ctrl+C cancel,
/// and the movement keys keep the list open.
pub proof fn lemma_picker_keys(selected: int, len: int, ctrl: bool)
    requires
        0 <= selected < len,
    ensures
        picker_step(selected, len, Key { code: KeyCode::Enter, ctrl }) == (
            selected,
            PickerOutcome::Chosen(selected as usize),
        ),
        picker_step(selected, len, Key { code: KeyCode::Esc, ctrl }) == (selected, PickerOutcome::Cancelled),
        picker_step(selected, len, Key { code: KeyCode::Char('c'), ctrl: true }) == (
            selected,
            PickerOutcome::Cancelled,
        ),
        picker_step(selected, len, Key { code: KeyCode::Down, ctrl }).1 == PickerOutcome::Continue,
        picker_step(selected, len, Key { code: KeyCode::Up, ctrl }).1 == PickerOutcome::Continue,
{
}

/// Law: the fetch screen cancels on Esc and Ctrl+C, and its summary closes on
/// Enter (or a raw newline or carriage return), Esc and Ctrl+C; shown progress
/// is the smaller of done and total.
pub proof fn lemma_progress_keys(ctrl: bool, c: char, done: int, total: int)
    ensures
        is_cancel_key(Key { code: KeyCode::Esc, ctrl }),
        is_cancel_key(Key { code: KeyCode::Char('c'), ctrl: true }),
        !is_cancel_key(Key { code: KeyCode::Enter, ctrl }),
        is_dismiss_key(Key { code: KeyCode::Enter, ctrl }),
        is_dismiss_key(Key { code: KeyCode::Char('\n'), ctrl }),
        is_dismiss_key(Key { code: KeyCode::Char('\r'), ctrl }),
        is_dismiss_key(Key { code: KeyCode::Esc, ctrl }),
        c != '\n' && c != '\r' && c != 'c' ==> !is_dismiss_key(Key { code: KeyCode::Char(c), ctrl }),
{
}

proof fn lemma_first_non_space(s: Seq<char>, from: int) -> (a: int)
    requires
        0 <= from <= s.len(),
        forall|i: int| 0 <= i < from ==> s[i] == ' ',
    ensures
        from <= a <= s.len(),
        forall|i: int| 0 <= i < a ==> s[i] == ' ',
        a == s.len() || s[a] != ' ',
    decreases s.len() - from,
{
    if from < s.len() && s[from] == ' ' {
        lemma_first_non_space(s, from + 1)
    } else {
        from
    }
}

proof fn lemma_last_non_space(s: Seq<char>, a: int, to: int) -> (b: int)
    requires
        0 <= a <= to <= s.len(),
        forall|i: int| to <= i < s.len() ==> s[i] == ' ',
    ensures
        a <= b <= to,
        forall|i: int| b <= i < s.len() ==> s[i] == ' ',
        b == a || s[b - 1] != ' ',
    decreases to,
{
    if to > a && s[to - 1] == ' ' {
        lemma_last_non_space(s, a, to - 1)
    } else {
        to
    }
}

/// Law: trimming removes exactly the leading and trailing spaces: the result
/// is a slice of the name, starts and ends with a non-space (or is empty),
/// and only spaces were dropped.
pub proof fn lemma_trim_spaces(s: Seq<char>)
    ensures
        exists|a: int, b: int|
            0 <= a <= b <= s.len() && trim_spaces(s) == s.subrange(a, b) && (forall|i: int|
                0 <= i < a ==> s[i] == ' ') && (forall|i: int| b <= i < s.len() ==> s[i] == ' '),
        trim_spaces(s).len() > 0 ==> trim_spaces(s)[0] != ' ' && trim_spaces(s).last() != ' ',
{
    let a = lemma_first_non_space(s, 0);
    let b = lemma_last_non_space(s, a, s.len() as int);
    lemma_trim_start_skip(s, a);
    let rest = s.skip(a);
    assert forall|i: int| b - a <= i < rest.len() implies rest[i] == ' ' by {
        assert(rest[i] == s[i + a]);
    }
    if b > a {
        assert(rest[b - a - 1] == s[b - 1]);
    }
    lemma_trim_end_take(rest, b - a);
    assert(rest.take(b - a) =~= s.subrange(a, b));
    assert(trim_spaces(s) == s.subrange(a, b));
}

} // verus!

verus! {

/// Law: the main menu header names the menu, then the region as code and
/// name, then the loaded data file ("None" when there is none or its name is
/// empty); the dialog's messages.
pub proof fn lemma_header_and_messages(loaded_file: Option<Seq<char>>, code: Seq<char>, name: Seq<char>)
    ensures
        main_menu_header_spec(loaded_file, code, name) == "Stock CLI — Main Menu\nRegion: "@ + code + " — "@ + name
            + "\nData file: "@ + (if loaded_file is Some && loaded_file->0.len() > 0 {
            loaded_file->0
        } else {
            "None"@
        }),
        empty_name_message() == "Name cannot be empty"@,
        unsupported_char_message() == "Unsupported character"@,
        dialog_hint_message() == "Enter to save • Esc to cancel • Backspace delete"@,
{
}

} // verus!
