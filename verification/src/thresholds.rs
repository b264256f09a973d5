use vstd::prelude::*;
use crate::menus::{is_preset_char, char_is_preset_char, trim_name, trim_spaces};
use crate::navigation::{Key, KeyCode, is_ctrl_c, is_down_key, is_up_key, key_is_ctrl_c, key_is_down, key_is_up};
use crate::sorting::{SortKey, is_stable_order, is_stable_order_by, lemma_stable_order_transfer, stable_order};
use crate::text::{
    chars_equal, chars_le, chars_less, chars_of, is_ascii_digit, char_is_ascii_digit, lemma_chars_lt_total,
    chars_lt, lemma_chars_lt_asymmetric, lemma_chars_lt_transitive, pop_char, push_char,
};

verus! {

/// A metric of the editor and whether its filter is on.
pub struct ThresholdItem {
    pub name: String,
    pub valid: bool,
}

/// The editor's order: metrics that are on first, then by name.
pub open spec fn item_before(a: ThresholdItem, b: ThresholdItem) -> bool {
    (a.valid && !b.valid) || (a.valid == b.valid && chars_le(a.name@, b.name@))
}

/// Names in ascending order.
pub open spec fn name_before(a: String, b: String) -> bool {
    chars_le(a@, b@)
}

/// The editor's order as a relation.
pub open spec fn editor_order() -> spec_fn(ThresholdItem, ThresholdItem) -> bool {
    |a: ThresholdItem, b: ThresholdItem| item_before(a, b)
}

/// Ascending names as a relation.
pub open spec fn name_order() -> spec_fn(String, String) -> bool {
    |a: String, b: String| name_before(a, b)
}

/// `sorted` is `items` in the stable order of `before`.
pub open spec fn is_sorted_by<A>(items: Seq<A>, sorted: Seq<A>, before: spec_fn(A, A) -> bool) -> bool {
    exists|order: Seq<usize>|
        #![trigger is_stable_order_by(items, order, before)]
        is_stable_order_by(items, order, before) && sorted == order.map_values(|k: usize| items[k as int])
}

/// The first position whose metric is named `name`.
pub open spec fn position_of(items: Seq<ThresholdItem>, name: Seq<char>, from: int) -> Option<int>
    decreases items.len() - from,
{
    if from < 0 || from >= items.len() {
        None
    } else if items[from].name@ == name {
        Some(from)
    } else {
        position_of(items, name, from + 1)
    }
}

/// Whether the metric named `name` is on in the caller's thresholds (the
/// first entry with that name; off when there is none).
pub open spec fn valid_in(entries: Seq<(String, bool)>, name: Seq<char>) -> bool
    decreases entries.len(),
{
    if entries.len() == 0 {
        false
    } else if entries[0].0@ == name {
        entries[0].1
    } else {
        valid_in(entries.drop_first(), name)
    }
}

/// The thresholds' names that are not among the known metrics, in the order given.
pub open spec fn extra_names(known: Seq<String>, entries: Seq<(String, bool)>) -> Seq<String>
    decreases entries.len(),
{
    if entries.len() == 0 {
        Seq::empty()
    } else {
        let rest = extra_names(known, entries.drop_last());
        if exists|i: int| 0 <= i < known.len() && #[trigger] known[i]@ == entries.last().0@ {
            rest
        } else {
            rest.push(entries.last().0)
        }
    }
}

/// The metric of a name, on or off as the caller's thresholds say.
pub open spec fn item_for(entries: Seq<(String, bool)>, name: String) -> ThresholdItem {
    ThresholdItem { name, valid: valid_in(entries, name@) }
}

/// The editor's metrics before ordering: the known metrics, then the other
/// names of the thresholds in ascending order.
pub open spec fn initial_items(known: Seq<String>, entries: Seq<(String, bool)>, sorted_extra: Seq<String>) -> Seq<ThresholdItem> {
    (known + sorted_extra).map_values(|n: String| item_for(entries, n))
}

/// How the editor is showing: the list, the edit dialog of one metric (typed
/// bounds, on/off, focused field 0 lower, 1 upper, 2 status), or the dialog
/// that names a preset.
pub enum EditorMode {
    List,
    Edit { name: String, lower: String, upper: String, valid: bool, field: usize },
    Save { buffer: String, error: Option<String> },
}

/// The line under the list after a save.
pub enum SaveStatus {
    Info(String),
    Error(String),
}

/// What the caller does after a key.
pub enum EditorAction {
    /// Nothing beyond drawing again.
    Redraw,
    /// Leave the editor.
    Exit,
    /// Switch the metric's filter on or off.
    SetValid { name: String, valid: bool },
    /// Store the metric's bounds: parse the typed texts (an empty or invalid
    /// text keeps the stored bound), put the smaller first, and store them with
    /// the on/off flag.
    Commit { name: String, lower: String, upper: String, valid: bool },
    /// Save the thresholds as a preset under this name and report with `save_finished`.
    Save { name: String },
}

/// The message when saving presets is not offered.
pub open spec fn save_unavailable_message() -> Seq<char> {
    "Saving presets is unavailable in this context."@
}

/// A char accepted in a bound: digits, `.` and `-`.
pub open spec fn is_bound_char(c: char) -> bool {
    is_ascii_digit(c) || c == '.' || c == '-'
}

/// The editor of filter thresholds.
pub struct ThresholdEditor {
    items: Vec<ThresholdItem>,
    selected: usize,
    mode: EditorMode,
    status: Option<SaveStatus>,
    can_save: bool,
}

/// A metric's rank in the editor's order.
struct ItemRank {
    valid: bool,
    name: Vec<char>,
}

impl SortKey for ItemRank {
    closed spec fn precedes(&self, other: &Self) -> bool {
        (self.valid && !other.valid) || (self.valid == other.valid && chars_le(self.name@, other.name@))
    }

    proof fn lemma_precedes_reflexive(a: &Self) {
    }

    proof fn lemma_precedes_transitive(a: &Self, b: &Self, c: &Self) {
        if a.valid == b.valid && b.valid == c.valid && a.name@ != b.name@ && b.name@ != c.name@ {
            lemma_chars_lt_transitive(a.name@, b.name@, c.name@);
        }
    }

    proof fn lemma_precedes_total(a: &Self, b: &Self) {
        lemma_chars_lt_total(a.name@, b.name@);
    }

    fn precedes_exec(&self, other: &Self) -> (r: bool) {
        (self.valid && !other.valid) || (self.valid == other.valid && (chars_equal(&self.name, &other.name)
            || chars_less(&self.name, &other.name)))
    }
}

/// A name's rank in ascending order.
struct NameRank {
    name: Vec<char>,
}

impl SortKey for NameRank {
    closed spec fn precedes(&self, other: &Self) -> bool {
        chars_le(self.name@, other.name@)
    }

    proof fn lemma_precedes_reflexive(a: &Self) {
    }

    proof fn lemma_precedes_transitive(a: &Self, b: &Self, c: &Self) {
        if a.name@ != b.name@ && b.name@ != c.name@ {
            lemma_chars_lt_transitive(a.name@, b.name@, c.name@);
        }
    }

    proof fn lemma_precedes_total(a: &Self, b: &Self) {
        lemma_chars_lt_total(a.name@, b.name@);
    }

    fn precedes_exec(&self, other: &Self) -> (r: bool) {
        chars_equal(&self.name, &other.name) || chars_less(&self.name, &other.name)
    }
}

fn copy_item(it: &ThresholdItem) -> (r: ThresholdItem)
    ensures
        r == *it,
{
    ThresholdItem { name: it.name.clone(), valid: it.valid }
}

/// The metrics in the editor's order.
fn sort_items(items: &Vec<ThresholdItem>) -> (sorted: Vec<ThresholdItem>)
    ensures
        is_sorted_by(items@, sorted@, editor_order()),
{
    let mut ranks: Vec<ItemRank> = Vec::new();
    let mut i: usize = 0;
    while i < items.len()
        invariant
            i <= items.len(),
            ranks@.len() == i,
            forall|k: int| 0 <= k < i ==> (#[trigger] ranks@[k]).valid == items@[k].valid && ranks@[k].name@ == items@[k].name@,
        decreases items.len() - i,
    {
        ranks.push(ItemRank { valid: items[i].valid, name: chars_of(items[i].name.as_str()) });
        i = i + 1;
    }
    let order = stable_order(&ranks);
    let ghost before = editor_order();
    proof {
        lemma_stable_order_transfer(ranks@, items@, order@, before);
    }
    let mut sorted: Vec<ThresholdItem> = Vec::new();
    let mut j: usize = 0;
    while j < order.len()
        invariant
            j <= order.len(),
            is_stable_order_by(items@, order@, before),
            sorted@ == order@.take(j as int).map_values(|k: usize| items@[k as int]),
        decreases order.len() - j,
    {
        sorted.push(copy_item(&items[order[j]]));
        assert(order@.take(j + 1).map_values(|k: usize| items@[k as int]) =~= order@.take(
            j as int,
        ).map_values(|k: usize| items@[k as int]).push(items@[order@[j as int] as int]));
        j = j + 1;
    }
    assert(order@.take(order.len() as int) =~= order@);
    sorted
}

/// The names in ascending order.
fn sort_names(names: &Vec<String>) -> (sorted: Vec<String>)
    ensures
        is_sorted_by(names@, sorted@, name_order()),
{
    let mut ranks: Vec<NameRank> = Vec::new();
    let mut i: usize = 0;
    while i < names.len()
        invariant
            i <= names.len(),
            ranks@.len() == i,
            forall|k: int| 0 <= k < i ==> (#[trigger] ranks@[k]).name@ == names@[k]@,
        decreases names.len() - i,
    {
        ranks.push(NameRank { name: chars_of(names[i].as_str()) });
        i = i + 1;
    }
    let order = stable_order(&ranks);
    let ghost before = name_order();
    proof {
        lemma_stable_order_transfer(ranks@, names@, order@, before);
    }
    let mut sorted: Vec<String> = Vec::new();
    let mut j: usize = 0;
    while j < order.len()
        invariant
            j <= order.len(),
            is_stable_order_by(names@, order@, before),
            sorted@ == order@.take(j as int).map_values(|k: usize| names@[k as int]),
        decreases order.len() - j,
    {
        sorted.push(names[order[j]].clone());
        assert(order@.take(j + 1).map_values(|k: usize| names@[k as int]) =~= order@.take(
            j as int,
        ).map_values(|k: usize| names@[k as int]).push(names@[order@[j as int] as int]));
        j = j + 1;
    }
    assert(order@.take(order.len() as int) =~= order@);
    sorted
}

/// The first position whose metric is named `name`.
fn find_item(items: &Vec<ThresholdItem>, name: &String) -> (r: Option<usize>)
    ensures
        r == match position_of(items@, name@, 0) {
            Some(i) => Some(i as usize),
            None => None::<usize>,
        },
{
    let mut i: usize = 0;
    while i < items.len()
        invariant
            i <= items.len(),
            position_of(items@, name@, 0) == position_of(items@, name@, i as int),
        decreases items.len() - i,
    {
        if items[i].name == *name {
            return Some(i);
        }
        i = i + 1;
    }
    None
}

proof fn lemma_position_in_range(items: Seq<ThresholdItem>, name: Seq<char>, from: int)
    requires
        from >= 0,
    ensures
        position_of(items, name, from) matches Some(i) ==> from <= i < items.len() && items[i].name@ == name,
        (exists|k: int| from <= k < items.len() && #[trigger] items[k].name@ == name) ==> position_of(items, name, from) is Some,
    decreases items.len() - from,
{
    if 0 <= from < items.len() && items[from].name@ != name {
        lemma_position_in_range(items, name, from + 1);
    }
}

} // verus!

verus! {

/// Every metric named `name` switched on or off.
pub open spec fn set_valid(items: Seq<ThresholdItem>, name: Seq<char>, valid: bool) -> Seq<ThresholdItem> {
    items.map_values(
        |it: ThresholdItem|
            if it.name@ == name {
                ThresholdItem { name: it.name, valid }
            } else {
                it
            },
    )
}

/// The selection after the list was reordered: the metric's new row, if any.
pub open spec fn follow(items: Seq<ThresholdItem>, name: Seq<char>, sel: int) -> int {
    match position_of(items, name, 0) {
        Some(p) => p,
        None => sel,
    }
}

/// The list order of the editor's metrics.
pub open spec fn in_editor_order(items: Seq<ThresholdItem>, sorted: Seq<ThresholdItem>) -> bool {
    is_sorted_by(items, sorted, editor_order())
}

/// The message after a preset was saved.
pub open spec fn saved_message(name: Seq<char>) -> Seq<char> {
    "Saved filters as '"@ + name + "'"@
}

impl ThresholdEditor {
    /// The metrics, top to bottom (the row after them is "Back").
    pub closed spec fn items_spec(&self) -> Seq<ThresholdItem> {
        self.items@
    }

    pub closed spec fn selected_spec(&self) -> int {
        self.selected as int
    }

    pub closed spec fn mode_spec(&self) -> EditorMode {
        self.mode
    }

    pub closed spec fn status_spec(&self) -> Option<SaveStatus> {
        self.status
    }

    pub closed spec fn can_save_spec(&self) -> bool {
        self.can_save
    }

    /// The selection is on the list or on "Back"; typed bounds hold only
    /// bound chars, the focused field is one of three, and a preset name only
    /// accepted chars.
    pub closed spec fn wf(&self) -> bool {
        &&& self.items@.len() < usize::MAX
        &&& forall|i: int, j: int| #![trigger self.items@[i], self.items@[j]]
            0 <= i < j < self.items@.len() ==> item_before(self.items@[i], self.items@[j])
        &&& self.selected <= self.items@.len()
        &&& match self.mode {
            EditorMode::List => true,
            EditorMode::Edit { name, lower, upper, valid, field } => {
                &&& field < 3
                &&& forall|i: int| 0 <= i < lower@.len() ==> is_bound_char(#[trigger] lower@[i])
                &&& forall|i: int| 0 <= i < upper@.len() ==> is_bound_char(#[trigger] upper@[i])
            },
            EditorMode::Save { buffer, error } => forall|i: int|
                0 <= i < buffer@.len() ==> is_preset_char(#[trigger] buffer@[i]),
        }
    }

    /// The editor over the known metrics and the caller's thresholds
    /// (`entries`: each name once, with whether its filter is on): the known
    /// metrics and the other names in ascending order, listed with the metrics
    /// that are on first, then by name; the first row selected.
    pub fn new(known: &Vec<String>, entries: &Vec<(String, bool)>, can_save: bool) -> (e: Self)
        requires
            forall|i: int, j: int| 0 <= i < j < entries@.len() ==> entries@[i].0@ != entries@[j].0@,
            known@.len() + entries@.len() < usize::MAX,
        ensures
            e.wf(),
            exists|sorted_extra: Seq<String>|
                #![trigger initial_items(known@, entries@, sorted_extra)]
                is_sorted_by(extra_names(known@, entries@), sorted_extra, name_order())
                    && in_editor_order(initial_items(known@, entries@, sorted_extra), e.items_spec()),
            e.selected_spec() == 0,
            e.mode_spec() is List,
            e.status_spec() is None,
            e.can_save_spec() == can_save,
    {
        let mut extras: Vec<String> = Vec::new();
        let mut i: usize = 0;
        while i < entries.len()
            invariant
                i <= entries.len(),
                extras@ == extra_names(known@, entries@.take(i as int)),
                extras@.len() <= i,
            decreases entries.len() - i,
        {
            assert(entries@.take(i + 1).drop_last() =~= entries@.take(i as int));
            let name = &entries[i].0;
            let mut k: usize = 0;
            let mut is_known = false;
            while k < known.len()
                invariant_except_break
                    !is_known,
                invariant
                    k <= known.len(),
                    forall|q: int| 0 <= q < k ==> known@[q]@ != name@,
                ensures
                    is_known == exists|q: int| 0 <= q < known@.len() && #[trigger] known@[q]@ == name@,
                decreases known.len() - k,
            {
                if known[k] == *name {
                    is_known = true;
                    break;
                }
                k = k + 1;
            }
            if !is_known {
                extras.push(name.clone());
            }
            i = i + 1;
        }
        assert(entries@.take(entries.len() as int) =~= entries@);
        let sorted_extra = sort_names(&extras);
        let ghost names = known@ + sorted_extra@;
        let mut items: Vec<ThresholdItem> = Vec::new();
        let mut j: usize = 0;
        let total = known.len() + sorted_extra.len();
        proof {
            let order = choose|order: Seq<usize>|
                #![trigger is_stable_order_by(extras@, order, name_order())]
                is_stable_order_by(extras@, order, name_order())
                    && sorted_extra@ == order.map_values(|k: usize| extras@[k as int]);
            assert(sorted_extra@.len() == extras@.len());
        }
        while j < total
            invariant
                j <= total,
                total == names.len(),
                names == known@ + sorted_extra@,
                items@ == names.take(j as int).map_values(|n: String| item_for(entries@, n)),
            decreases total - j,
        {
            let name: &String = if j < known.len() {
                &known[j]
            } else {
                &sorted_extra[j - known.len()]
            };
            assert(*name == names[j as int]);
            let mut q: usize = 0;
            let mut valid = false;
            let mut found = false;
            assert(entries@.skip(0) =~= entries@);
            while q < entries.len()
                invariant_except_break
                    !found,
                    !valid,
                invariant
                    q <= entries.len(),
                    valid_in(entries@, name@) == valid_in(entries@.skip(q as int), name@),
                ensures
                    found ==> valid == valid_in(entries@, name@),
                    !found ==> q == entries.len() && !valid,
                    valid_in(entries@, name@) == valid_in(entries@.skip(q as int), name@),
                decreases entries.len() - q,
            {
                assert(entries@.skip(q as int).drop_first() =~= entries@.skip(q + 1));
                if entries[q].0 == *name {
                    valid = entries[q].1;
                    found = true;
                    assert(entries@.skip(q as int)[0] == entries@[q as int]);
                    break;
                }
                q = q + 1;
            }
            proof {
                if !found {
                    assert(entries@.skip(q as int) =~= Seq::<(String, bool)>::empty());
                }
            }
            items.push(ThresholdItem { name: name.clone(), valid });
            assert(names.take(j + 1).map_values(|n: String| item_for(entries@, n)) =~= names.take(
                j as int,
            ).map_values(|n: String| item_for(entries@, n)).push(item_for(entries@, names[j as int])));
            j = j + 1;
        }
        assert(names.take(total as int) =~= names);
        let sorted = sort_items(&items);
        proof {
            let order = choose|order: Seq<usize>|
                #![trigger is_stable_order_by(items@, order, editor_order())]
                is_stable_order_by(items@, order, editor_order())
                    && sorted@ == order.map_values(|k: usize| items@[k as int]);
            assert(sorted@.len() == items@.len());
            assert(initial_items(known@, entries@, sorted_extra@) == items@);
            lemma_editor_order(items@, sorted@);
        }
        ThresholdEditor { items: sorted, selected: 0, mode: EditorMode::List, status: None, can_save }
    }
}

} // verus!

verus! {

/// The char of a char key.
pub open spec fn key_char(key: Key) -> Option<char> {
    match key.code {
        KeyCode::Char(c) => Some(c),
        _ => None,
    }
}

/// The last char removed, if any.
pub open spec fn pop_seq(s: Seq<char>) -> Seq<char> {
    if s.len() == 0 {
        s
    } else {
        s.drop_last()
    }
}

/// The edit dialog with these contents.
pub open spec fn is_edit_mode(m: EditorMode, name: Seq<char>, lower: Seq<char>, upper: Seq<char>, valid: bool, field: int) -> bool {
    m matches EditorMode::Edit { name: n, lower: l, upper: u, valid: v, field: f } && n@ == name && l@ == lower
        && u@ == upper && v == valid && f == field
}

/// The preset dialog with these contents.
pub open spec fn is_save_mode(m: EditorMode, buffer: Seq<char>, error: Option<Seq<char>>) -> bool {
    m matches EditorMode::Save { buffer: b, error: e } && b@ == buffer && match (e, error) {
        (Some(x), Some(y)) => x@ == y,
        (None, None) => true,
        _ => false,
    }
}

/// Nothing changed but the status line, which is `status`.
pub open spec fn only_status(before: ThresholdEditor, after: ThresholdEditor, status_cleared: bool) -> bool {
    &&& after.items_spec() == before.items_spec()
    &&& after.selected_spec() == before.selected_spec()
    &&& after.mode_spec() == before.mode_spec()
    &&& after.can_save_spec() == before.can_save_spec()
    &&& if status_cleared {
        after.status_spec() is None
    } else {
        after.status_spec() == before.status_spec()
    }
}

/// Items and selection after a metric was switched: reordered, the metric followed.
pub open spec fn reordered(before: ThresholdEditor, after: ThresholdEditor, name: Seq<char>, valid: Option<bool>) -> bool {
    let items = match valid {
        Some(v) => set_valid(before.items_spec(), name, v),
        None => before.items_spec(),
    };
    &&& in_editor_order(items, after.items_spec())
    &&& after.selected_spec() == follow(after.items_spec(), name, before.selected_spec())
}

/// A key in the list: Up/`k` and Down/`j` move over the metrics and "Back"
/// with wrap-around; Enter edits the selected metric (or leaves on "Back");
/// Space, `t` or `v` switch the selected metric on or off; `s` or `S` open the
/// preset dialog where saving is offered; Esc and Ctrl+C leave.
pub open spec fn list_step(before: ThresholdEditor, after: ThresholdEditor, key: Key, action: EditorAction) -> bool {
    let items = before.items_spec();
    let n = items.len() as int;
    let sel = before.selected_spec();
    if is_up_key(key) || is_down_key(key) {
        &&& action is Redraw
        &&& after.items_spec() == items
        &&& after.mode_spec() is List
        &&& after.status_spec() is None
        &&& after.can_save_spec() == before.can_save_spec()
        &&& after.selected_spec() == if is_up_key(key) {
            if sel == 0 {
                n
            } else {
                sel - 1
            }
        } else {
            (sel + 1) % (n + 1)
        }
    } else if key.code == KeyCode::Enter {
        if sel < n {
            &&& action is Redraw
            &&& is_edit_mode(after.mode_spec(), items[sel].name@, Seq::empty(), Seq::empty(), items[sel].valid, 0)
            &&& after.items_spec() == items
            &&& after.selected_spec() == sel
            &&& after.status_spec() is None
            &&& after.can_save_spec() == before.can_save_spec()
        } else {
            action is Exit && only_status(before, after, true)
        }
    } else if key.code == KeyCode::Char(' ') || key.code == KeyCode::Char('t') || key.code == KeyCode::Char('v') {
        if sel < n {
            let name = items[sel].name@;
            let v = !items[sel].valid;
            &&& action matches EditorAction::SetValid { name: nm, valid } && nm@ == name && valid == v
            &&& reordered(before, after, name, Some(v))
            &&& after.mode_spec() is List
            &&& after.status_spec() is None
            &&& after.can_save_spec() == before.can_save_spec()
        } else {
            action is Redraw && only_status(before, after, true)
        }
    } else if key.code == KeyCode::Char('s') || key.code == KeyCode::Char('S') {
        &&& action is Redraw
        &&& after.items_spec() == items
        &&& after.selected_spec() == sel
        &&& after.can_save_spec() == before.can_save_spec()
        &&& if before.can_save_spec() {
            is_save_mode(after.mode_spec(), Seq::empty(), None) && after.status_spec() is None
        } else {
            &&& after.mode_spec() is List
            &&& after.status_spec() matches Some(SaveStatus::Error(m)) && m@ == save_unavailable_message()
        }
    } else if key.code == KeyCode::Esc || is_ctrl_c(key) {
        action is Exit && only_status(before, after, false)
    } else {
        action is Redraw && only_status(before, after, false)
    }
}

/// A key in the edit dialog: Tab, Down/`j` and Up/`k` move the focus over
/// lower, upper and status; Backspace deletes in a focused bound; digits, `.`
/// and `-` type into it; Space, `t` or `v` switch the status when focused;
/// Enter stores the edit; Esc drops it.
pub open spec fn edit_step(before: ThresholdEditor, after: ThresholdEditor, key: Key, action: EditorAction) -> bool {
    match before.mode_spec() {
        EditorMode::Edit { name, lower, upper, valid, field } => {
            let same_list = after.items_spec() == before.items_spec() && after.selected_spec()
                == before.selected_spec();
            &&& after.status_spec() is None
            &&& after.can_save_spec() == before.can_save_spec()
            &&& if key.code == KeyCode::Tab || is_down_key(key) || is_up_key(key) {
                let f = if key.code == KeyCode::Tab || is_down_key(key) {
                    (field + 1) % 3
                } else {
                    (field + 2) % 3
                };
                action is Redraw && same_list && is_edit_mode(after.mode_spec(), name@, lower@, upper@, valid, f)
            } else if key.code == KeyCode::Backspace {
                &&& action is Redraw
                &&& same_list
                &&& is_edit_mode(
                    after.mode_spec(),
                    name@,
                    if field == 0 { pop_seq(lower@) } else { lower@ },
                    if field == 1 { pop_seq(upper@) } else { upper@ },
                    valid,
                    field as int,
                )
            } else if key_char(key) is Some && is_bound_char(key_char(key)->0) && field <= 1 {
                let c = key_char(key)->0;
                &&& action is Redraw
                &&& same_list
                &&& is_edit_mode(
                    after.mode_spec(),
                    name@,
                    if field == 0 { lower@.push(c) } else { lower@ },
                    if field == 1 { upper@.push(c) } else { upper@ },
                    valid,
                    field as int,
                )
            } else if key.code == KeyCode::Char(' ') || key.code == KeyCode::Char('t') || key.code == KeyCode::Char('v') {
                &&& action is Redraw
                &&& same_list
                &&& is_edit_mode(after.mode_spec(), name@, lower@, upper@, if field == 2 { !valid } else { valid }, field as int)
            } else if key.code == KeyCode::Enter {
                &&& action matches EditorAction::Commit { name: n, lower: l, upper: u, valid: v }
                    && n@ == name@ && l@ == lower@ && u@ == upper@ && v == valid
                &&& reordered(before, after, name@, Some(valid))
                &&& after.mode_spec() is List
            } else if key.code == KeyCode::Esc {
                &&& action is Redraw
                &&& reordered(before, after, name@, None)
                &&& after.mode_spec() is List
            } else {
                action is Redraw && same_list && after.mode_spec() == before.mode_spec()
            }
        },
        _ => false,
    }
}

/// A key in the preset dialog: Backspace deletes; a char without Control is
/// typed when accepted, rejected with a message otherwise; Enter asks the
/// caller to save under the name without surrounding spaces (refused when
/// blank or when saving is not offered); Esc and Ctrl+C close the dialog.
pub open spec fn save_step(before: ThresholdEditor, after: ThresholdEditor, key: Key, action: EditorAction) -> bool {
    match before.mode_spec() {
        EditorMode::Save { buffer, error } => {
            let same_list = after.items_spec() == before.items_spec() && after.selected_spec()
                == before.selected_spec() && after.can_save_spec() == before.can_save_spec();
            if key.code == KeyCode::Backspace {
                action is Redraw && same_list && after.status_spec() == before.status_spec()
                    && is_save_mode(after.mode_spec(), pop_seq(buffer@), None)
            } else if key_char(key) is Some && !key.ctrl {
                let c = key_char(key)->0;
                &&& action is Redraw
                &&& same_list
                &&& after.status_spec() == before.status_spec()
                &&& if is_preset_char(c) {
                    is_save_mode(after.mode_spec(), buffer@.push(c), None)
                } else {
                    is_save_mode(after.mode_spec(), buffer@, Some(crate::menus::unsupported_char_message()))
                }
            } else if key.code == KeyCode::Enter {
                let name = trim_spaces(buffer@);
                &&& same_list
                &&& after.status_spec() == before.status_spec()
                &&& if name.len() == 0 {
                    action is Redraw && is_save_mode(after.mode_spec(), buffer@, Some(crate::menus::empty_name_message()))
                } else if before.can_save_spec() {
                    action matches EditorAction::Save { name: n } && n@ == name && after.mode_spec()
                        == before.mode_spec()
                } else {
                    action is Redraw && is_save_mode(after.mode_spec(), buffer@, Some(save_unavailable_message()))
                }
            } else if key.code == KeyCode::Esc || is_ctrl_c(key) {
                action is Redraw && same_list && after.mode_spec() is List && after.status_spec() is None
            } else {
                action is Redraw && same_list && after.mode_spec() == before.mode_spec()
                    && after.status_spec() == before.status_spec()
            }
        },
        _ => false,
    }
}

} // verus!

verus! {

proof fn lemma_sorted_len<A>(items: Seq<A>, sorted: Seq<A>, before: spec_fn(A, A) -> bool)
    requires
        is_sorted_by(items, sorted, before),
    ensures
        sorted.len() == items.len(),
{
    let order = choose|order: Seq<usize>|
        #![trigger is_stable_order_by(items, order, before)]
        is_stable_order_by(items, order, before) && sorted == order.map_values(|k: usize| items[k as int]);
}

fn set_valid_items(items: &Vec<ThresholdItem>, name: &String, valid: bool) -> (r: Vec<ThresholdItem>)
    ensures
        r@ == set_valid(items@, name@, valid),
{
    let mut r: Vec<ThresholdItem> = Vec::new();
    let mut i: usize = 0;
    while i < items.len()
        invariant
            i <= items.len(),
            r@ == set_valid(items@.take(i as int), name@, valid),
        decreases items.len() - i,
    {
        let it = &items[i];
        if it.name == *name {
            r.push(ThresholdItem { name: it.name.clone(), valid });
        } else {
            r.push(copy_item(it));
        }
        assert(set_valid(items@.take(i + 1), name@, valid) =~= set_valid(items@.take(i as int), name@, valid).push(
            set_valid(items@, name@, valid)[i as int],
        ));
        i = i + 1;
    }
    assert(items@.take(items.len() as int) =~= items@);
    r
}

fn copy_items(items: &Vec<ThresholdItem>) -> (r: Vec<ThresholdItem>)
    ensures
        r@ == items@,
{
    let mut r: Vec<ThresholdItem> = Vec::new();
    let mut i: usize = 0;
    while i < items.len()
        invariant
            i <= items.len(),
            r@ == items@.take(i as int),
        decreases items.len() - i,
    {
        r.push(copy_item(&items[i]));
        assert(items@.take(i + 1) =~= items@.take(i as int).push(items@[i as int]));
        i = i + 1;
    }
    assert(items@.take(items.len() as int) =~= items@);
    r
}

impl ThresholdEditor {
    /// Reorder the metrics after `name` was switched (or left as it is) and
    /// keep it selected.
    fn reorder(&mut self, name: &String, valid: Option<bool>)
        requires
            old(self).wf(),
        ensures
            final(self).wf(),
            reordered(*old(self), *final(self), name@, valid),
            final(self).mode_spec() == old(self).mode_spec(),
            final(self).status_spec() == old(self).status_spec(),
            final(self).can_save_spec() == old(self).can_save_spec(),
    {
        let items = match valid {
            Some(v) => set_valid_items(&self.items, name, v),
            None => copy_items(&self.items),
        };
        let sorted = sort_items(&items);
        proof {
            lemma_sorted_len(items@, sorted@, editor_order());
            lemma_editor_order(items@, sorted@);
        }
        self.items = sorted;
        match find_item(&self.items, name) {
            Some(p) => {
                proof {
                    lemma_position_in_range(self.items@, name@, 0);
                }
                self.selected = p;
            },
            None => {},
        }
    }

    /// Handle a key in the current mode.
    pub fn handle_key(&mut self, key: Key) -> (action: EditorAction)
        requires
            old(self).wf(),
        ensures
            final(self).wf(),
            match old(self).mode_spec() {
                EditorMode::List => list_step(*old(self), *final(self), key, action),
                EditorMode::Edit { .. } => edit_step(*old(self), *final(self), key, action),
                EditorMode::Save { .. } => save_step(*old(self), *final(self), key, action),
            },
    {
        match &self.mode {
            EditorMode::List => self.list_key(key),
            EditorMode::Edit { .. } => self.edit_key(key),
            EditorMode::Save { .. } => self.save_key(key),
        }
    }

    fn list_key(&mut self, key: Key) -> (action: EditorAction)
        requires
            old(self).wf(),
            old(self).mode_spec() is List,
        ensures
            final(self).wf(),
            list_step(*old(self), *final(self), key, action),
    {
        let n = self.items.len();
        if key_is_up(key) {
            self.status = None;
            self.selected = if self.selected == 0 {
                n
            } else {
                self.selected - 1
            };
            return EditorAction::Redraw;
        }
        if key_is_down(key) {
            self.status = None;
            self.selected = (self.selected + 1) % (n + 1);
            return EditorAction::Redraw;
        }
        match key.code {
            KeyCode::Enter => {
                self.status = None;
                if self.selected < n {
                    let item = &self.items[self.selected];
                    self.mode = EditorMode::Edit {
                        name: item.name.clone(),
                        lower: String::new(),
                        upper: String::new(),
                        valid: item.valid,
                        field: 0,
                    };
                    EditorAction::Redraw
                } else {
                    EditorAction::Exit
                }
            },
            KeyCode::Char(c) => {
                if c == ' ' || c == 't' || c == 'v' {
                    self.status = None;
                    if self.selected < n {
                        let name = self.items[self.selected].name.clone();
                        let valid = !self.items[self.selected].valid;
                        self.reorder(&name, Some(valid));
                        EditorAction::SetValid { name, valid }
                    } else {
                        EditorAction::Redraw
                    }
                } else if c == 's' || c == 'S' {
                    if self.can_save {
                        self.status = None;
                        self.mode = EditorMode::Save { buffer: String::new(), error: None };
                    } else {
                        self.status = Some(
                            SaveStatus::Error(String::from_str("Saving presets is unavailable in this context.")),
                        );
                    }
                    EditorAction::Redraw
                } else if c == 'c' && key.ctrl {
                    EditorAction::Exit
                } else {
                    EditorAction::Redraw
                }
            },
            KeyCode::Esc => EditorAction::Exit,
            _ => EditorAction::Redraw,
        }
    }

    fn edit_key(&mut self, key: Key) -> (action: EditorAction)
        requires
            old(self).wf(),
            old(self).mode_spec() is Edit,
        ensures
            final(self).wf(),
            edit_step(*old(self), *final(self), key, action),
    {
        self.status = None;
        let (name, mut lower, mut upper, mut valid, mut field) = match &self.mode {
            EditorMode::Edit { name, lower, upper, valid, field } => (
                name.clone(),
                lower.clone(),
                upper.clone(),
                *valid,
                *field,
            ),
            _ => {
                proof {
                    assert(false);
                }
                return EditorAction::Redraw;
            },
        };
        let ghost lower0 = lower@;
        let ghost upper0 = upper@;
        if key.code == KeyCode::Tab || key_is_down(key) {
            field = (field + 1) % 3;
        } else if key_is_up(key) {
            field = (field + 2) % 3;
        } else if key.code == KeyCode::Backspace {
            if field == 0 {
                let _ = pop_char(&mut lower);
            } else if field == 1 {
                let _ = pop_char(&mut upper);
            }
        } else if key.code == KeyCode::Enter {
            self.mode = EditorMode::List;
            self.reorder(&name, Some(valid));
            return EditorAction::Commit { name, lower, upper, valid };
        } else if key.code == KeyCode::Esc {
            self.mode = EditorMode::List;
            self.reorder(&name, None);
            return EditorAction::Redraw;
        } else {
            match key.code {
                KeyCode::Char(c) => {
                    if (char_is_ascii_digit(c) || c == '.' || c == '-') && field <= 1 {
                        if field == 0 {
                            push_char(&mut lower, c);
                        } else {
                            push_char(&mut upper, c);
                        }
                    } else if c == ' ' || c == 't' || c == 'v' {
                        if field == 2 {
                            valid = !valid;
                        }
                    }
                },
                _ => {},
            }
        }
        proof {
            assert forall|i: int| 0 <= i < lower@.len() implies is_bound_char(#[trigger] lower@[i]) by {
                if i < lower0.len() {
                    assert(lower@[i] == lower0[i]);
                }
            }
            assert forall|i: int| 0 <= i < upper@.len() implies is_bound_char(#[trigger] upper@[i]) by {
                if i < upper0.len() {
                    assert(upper@[i] == upper0[i]);
                }
            }
        }
        self.mode = EditorMode::Edit { name, lower, upper, valid, field };
        EditorAction::Redraw
    }

    fn save_key(&mut self, key: Key) -> (action: EditorAction)
        requires
            old(self).wf(),
            old(self).mode_spec() is Save,
        ensures
            final(self).wf(),
            save_step(*old(self), *final(self), key, action),
    {
        let (mut buffer, error) = match &self.mode {
            EditorMode::Save { buffer, error } => (buffer.clone(), error.clone()),
            _ => {
                proof {
                    assert(false);
                }
                return EditorAction::Redraw;
            },
        };
        let ghost buffer0 = buffer@;
        if key.code == KeyCode::Backspace {
            let _ = pop_char(&mut buffer);
            proof {
                assert forall|i: int| 0 <= i < buffer@.len() implies is_preset_char(#[trigger] buffer@[i]) by {
                    assert(buffer@[i] == buffer0[i]);
                }
            }
            self.mode = EditorMode::Save { buffer, error: None };
            return EditorAction::Redraw;
        }
        if key.code == KeyCode::Esc || key_is_ctrl_c(key) {
            self.mode = EditorMode::List;
            self.status = None;
            return EditorAction::Redraw;
        }
        match key.code {
            KeyCode::Char(ch) => {
                if !key.ctrl {
                    if char_is_preset_char(ch) {
                        push_char(&mut buffer, ch);
                        proof {
                            assert forall|i: int| 0 <= i < buffer@.len() implies is_preset_char(#[trigger] buffer@[i]) by {
                                if i < buffer0.len() {
                                    assert(buffer@[i] == buffer0[i]);
                                }
                            }
                        }
                        self.mode = EditorMode::Save { buffer, error: None };
                    } else {
                        self.mode = EditorMode::Save {
                            buffer,
                            error: Some(String::from_str("Unsupported character")),
                        };
                    }
                }
                EditorAction::Redraw
            },
            KeyCode::Enter => {
                let trimmed = trim_name(buffer.as_str());
                if trimmed.as_str().is_empty() {
                    self.mode = EditorMode::Save {
                        buffer,
                        error: Some(String::from_str("Name cannot be empty")),
                    };
                    EditorAction::Redraw
                } else if self.can_save {
                    EditorAction::Save { name: trimmed }
                } else {
                    self.mode = EditorMode::Save {
                        buffer,
                        error: Some(String::from_str("Saving presets is unavailable in this context.")),
                    };
                    EditorAction::Redraw
                }
            },
            _ => EditorAction::Redraw,
        }
    }
}

} // verus!

verus! {

impl ThresholdEditor {
    /// Report how saving the preset went: on success the dialog closes and
    /// the list shows which preset was saved; on failure the dialog shows the error.
    pub fn save_finished(&mut self, result: Result<String, String>)
        requires
            old(self).wf(),
            old(self).mode_spec() is Save,
        ensures
            final(self).wf(),
            final(self).items_spec() == old(self).items_spec(),
            final(self).selected_spec() == old(self).selected_spec(),
            final(self).can_save_spec() == old(self).can_save_spec(),
            match result {
                Ok(saved) => final(self).mode_spec() is List && (final(self).status_spec() matches Some(SaveStatus::Info(m))
                    && m@ == saved_message(saved@)),
                Err(e) => match old(self).mode_spec() {
                    EditorMode::Save { buffer, .. } => is_save_mode(final(self).mode_spec(), buffer@, Some(e@))
                        && final(self).status_spec() == old(self).status_spec(),
                    _ => false,
                },
            },
    {
        match result {
            Ok(saved) => {
                let mut message = String::new();
                message.append("Saved filters as '");
                message.append(saved.as_str());
                message.append("'");
                self.status = Some(SaveStatus::Info(message));
                self.mode = EditorMode::List;
            },
            Err(e) => {
                let buffer = match &self.mode {
                    EditorMode::Save { buffer, .. } => buffer.clone(),
                    _ => {
                        proof {
                            assert(false);
                        }
                        String::new()
                    },
                };
                self.mode = EditorMode::Save { buffer, error: Some(e) };
            },
        }
    }

    /// The metrics, top to bottom.
    pub fn items(&self) -> (r: &Vec<ThresholdItem>)
        ensures
            r@ == self.items_spec(),
    {
        &self.items
    }

    /// The selected row (the row after the metrics is "Back").
    pub fn selected(&self) -> (r: usize)
        ensures
            r == self.selected_spec(),
    {
        self.selected
    }

    pub fn mode(&self) -> (r: &EditorMode)
        ensures
            *r == self.mode_spec(),
    {
        &self.mode
    }

    pub fn status(&self) -> (r: &Option<SaveStatus>)
        ensures
            *r == self.status_spec(),
    {
        &self.status
    }

    /// Whether saving presets is offered.
    pub fn can_save(&self) -> (r: bool)
        ensures
            r == self.can_save_spec(),
    {
        self.can_save
    }
}

} // verus!

verus! {

/// Law: the editor lists metrics that are on before those that are off, and
/// each group by name.
pub proof fn lemma_editor_order(items: Seq<ThresholdItem>, sorted: Seq<ThresholdItem>)
    requires
        in_editor_order(items, sorted),
    ensures
        forall|i: int, j: int| #![trigger sorted[i], sorted[j]]
            0 <= i < j < sorted.len() ==> item_before(sorted[i], sorted[j]),
        forall|i: int, j: int| #![trigger sorted[i], sorted[j]]
            0 <= i < j < sorted.len() && !sorted[i].valid ==> !sorted[j].valid,
{
    let order = choose|order: Seq<usize>|
        #![trigger is_stable_order_by(items, order, editor_order())]
        is_stable_order_by(items, order, editor_order()) && sorted == order.map_values(|k: usize| items[k as int]);
    assert forall|i: int, j: int| #![trigger sorted[i], sorted[j]] 0 <= i < j < sorted.len() implies item_before(sorted[i], sorted[j]) by {
        assert(editor_order()(items[order[i] as int], items[order[j] as int]));
    }
}

/// Law: switching a metric on or off (in the list or by storing an edit)
/// keeps that metric selected, now with its new state.
pub proof fn lemma_switch_follows_metric(before: ThresholdEditor, after: ThresholdEditor, k: int, v: bool)
    requires
        0 <= k < before.items_spec().len(),
        reordered(before, after, before.items_spec()[k].name@, Some(v)),
    ensures
        0 <= after.selected_spec() < after.items_spec().len(),
        after.items_spec()[after.selected_spec()].name@ == before.items_spec()[k].name@,
        after.items_spec()[after.selected_spec()].valid == v,
{
    let name = before.items_spec()[k].name@;
    let items = set_valid(before.items_spec(), name, v);
    let sorted = after.items_spec();
    let order = choose|order: Seq<usize>|
        #![trigger is_stable_order_by(items, order, editor_order())]
        is_stable_order_by(items, order, editor_order()) && sorted == order.map_values(|q: usize| items[q as int]);
    crate::sorting::lemma_permutation_onto::<ThresholdItem>(order, items.len() as int);
    assert(crate::sorting::occurs(order, k));
    let i = choose|i: int| 0 <= i < order.len() && order[i] as int == k;
    assert(sorted[i] == items[k]);
    assert(items[k].name@ == name);
    assert(sorted[i].name@ == name);
    lemma_position_in_range(sorted, name, 0);
    let p = position_of(sorted, name, 0)->0;
    assert(0 <= p < sorted.len());
    assert(sorted[p].name@ == name);
    let kp = order[p] as int;
    assert(sorted[p] == items[kp]);
    assert(items[kp] == (if before.items_spec()[kp].name@ == name {
        ThresholdItem { name: before.items_spec()[kp].name, valid: v }
    } else {
        before.items_spec()[kp]
    }));
}

} // verus!

verus! {

/// No two metrics share a name.
pub open spec fn names_distinct(items: Seq<ThresholdItem>) -> bool {
    forall|i: int, j: int| 0 <= i < j < items.len() ==> items[i].name@ != items[j].name@
}

proof fn lemma_position_of_distinct(items: Seq<ThresholdItem>, k: int)
    requires
        names_distinct(items),
        0 <= k < items.len(),
    ensures
        position_of(items, items[k].name@, 0) == Some(k),
{
    lemma_position_in_range(items, items[k].name@, 0);
    let p = position_of(items, items[k].name@, 0)->0;
    if p < k {
        assert(items[p].name@ != items[k].name@);
    } else if p > k {
        assert(items[k].name@ != items[p].name@);
    }
}

/// Law: switching a metric twice gives back the list as it was, with the
/// metric still selected (when no two metrics share a name).
pub proof fn lemma_switch_twice_restores(e0: ThresholdEditor, e1: ThresholdEditor, e2: ThresholdEditor, k: int)
    requires
        e0.wf(),
        names_distinct(e0.items_spec()),
        0 <= k < e0.items_spec().len(),
        reordered(e0, e1, e0.items_spec()[k].name@, Some(!e0.items_spec()[k].valid)),
        reordered(e1, e2, e0.items_spec()[k].name@, Some(e0.items_spec()[k].valid)),
    ensures
        e2.items_spec() == e0.items_spec(),
        e2.selected_spec() == k,
{
    let i0 = e0.items_spec();
    let n = i0.len() as int;
    let name = i0[k].name@;
    let v0 = i0[k].valid;
    let a = set_valid(i0, name, !v0);
    let s1 = e1.items_spec();
    let o1 = choose|order: Seq<usize>|
        #![trigger is_stable_order_by(a, order, editor_order())]
        is_stable_order_by(a, order, editor_order()) && s1 == order.map_values(|q: usize| a[q as int]);
    let b = set_valid(s1, name, v0);
    let s2 = e2.items_spec();
    let o2 = choose|order: Seq<usize>|
        #![trigger is_stable_order_by(b, order, editor_order())]
        is_stable_order_by(b, order, editor_order()) && s2 == order.map_values(|q: usize| b[q as int]);
    // Switching back undoes the switch: b is i0 rearranged by o1.
    assert forall|i: int| 0 <= i < n implies #[trigger] b[i] == i0[o1[i] as int] by {
        let x = i0[o1[i] as int];
        if x.name@ == name {
            if o1[i] as int != k {
                if (o1[i] as int) < k {
                    assert(i0[o1[i] as int].name@ != i0[k].name@);
                } else {
                    assert(i0[k].name@ != i0[o1[i] as int].name@);
                }
            }
        }
    }
    // The composite rearrangement c takes i0 to s2.
    let c = Seq::new(n as nat, |i: int| o1[o2[i] as int]);
    assert forall|i: int| 0 <= i < n implies #[trigger] s2[i] == i0[c[i] as int] by {
        assert(s2[i] == b[o2[i] as int]);
    }
    assert(crate::sorting::is_index_permutation::<ThresholdItem>(c, n)) by {
        assert forall|i: int| 0 <= i < n implies #[trigger] c[i] < n by {
            assert(o2[i] < n);
        }
        assert forall|i: int, j: int| 0 <= i < j < n implies c[i] != c[j] by {
            assert(o2[i] != o2[j]);
            if o2[i] < o2[j] {
                assert(o1[o2[i] as int] != o1[o2[j] as int]);
            } else {
                assert(o1[o2[j] as int] != o1[o2[i] as int]);
            }
        }
    }
    lemma_editor_order(b, s2);
    assert(is_stable_order_by(i0, c, editor_order())) by {
        assert forall|i: int, j: int| 0 <= i < j < c.len() implies #[trigger] (editor_order())(
            i0[c[i] as int],
            i0[c[j] as int],
        ) by {
            assert(item_before(s2[i], s2[j]));
        }
        assert forall|i: int, j: int|
            0 <= i < j < c.len() && (editor_order())(i0[c[j] as int], i0[c[i] as int]) implies #[trigger] c[i]
            < #[trigger] c[j] by {
            let x = i0[c[i] as int];
            let y = i0[c[j] as int];
            assert(item_before(s2[i], s2[j]));
            assert(item_before(x, y) && item_before(y, x));
            if x.name@ != y.name@ {
                if chars_lt(x.name@, y.name@) {
                    lemma_chars_lt_asymmetric(x.name@, y.name@);
                }
            }
            assert(x.name@ == y.name@);
            if c[i] < c[j] {
            } else {
                assert(c[i] != c[j]);
                assert(i0[c[j] as int].name@ != i0[c[i] as int].name@);
            }
        }
    }
    let id = Seq::new(n as nat, |i: int| i as usize);
    assert(is_stable_order_by(i0, id, editor_order())) by {
        assert forall|i: int, j: int| 0 <= i < j < id.len() implies #[trigger] (editor_order())(
            i0[id[i] as int],
            i0[id[j] as int],
        ) by {
            assert(id[i] as int == i && id[j] as int == j);
        }
    }
    crate::sorting::lemma_stable_order_unique(i0, c, id, editor_order());
    assert(s2 =~= i0) by {
        assert forall|i: int| 0 <= i < n implies #[trigger] s2[i] == i0[i] by {
            assert(c[i] == id[i]);
        }
    }
    lemma_position_of_distinct(i0, k);
}

} // verus!

verus! {

/// Law: a bound accepts exactly the ASCII digits `0`-`9`, `.` and `-`.
pub proof fn lemma_bound_chars(c: char)
    ensures
        is_bound_char(c) <==> (('0' <= c && c <= '9') || c == '.' || c == '-'),
{
}

} // verus!

verus! {

/// Law: the editor lists the metrics that are on before those that are off,
/// and within each group in ascending order of name.
pub proof fn lemma_editor_order_meaning(a: ThresholdItem, b: ThresholdItem)
    ensures
        a.valid && !b.valid ==> item_before(a, b) && !item_before(b, a),
        a.valid == b.valid ==> (item_before(a, b) <==> (a.name@ == b.name@ || chars_lt(a.name@, b.name@))),
{
}

/// Law: switching a metric changes the state of the metrics with that name
/// and nothing else.
pub proof fn lemma_set_valid_meaning(items: Seq<ThresholdItem>, name: Seq<char>, valid: bool)
    ensures
        set_valid(items, name, valid).len() == items.len(),
        forall|i: int| 0 <= i < items.len() ==> (#[trigger] set_valid(items, name, valid)[i]).name == items[i].name,
        forall|i: int| 0 <= i < items.len() ==> (#[trigger] set_valid(items, name, valid)[i]).valid == (if items[i].name@
            == name {
            valid
        } else {
            items[i].valid
        }),
{
}

/// Law: the saved-preset message names the preset in quotes.
pub proof fn lemma_saved_message(name: Seq<char>)
    ensures
        saved_message(name) == "Saved filters as '"@ + name + "'"@,
        save_unavailable_message() == "Saving presets is unavailable in this context."@,
{
}

} // verus!
