use vstd::prelude::*;
use crate::navigation::{Key, KeyCode, is_down_key, is_up_key, is_ctrl_c, key_is_ctrl_c};
use crate::chart::{ChartState, same_chart, TIMEFRAME_COUNT, next_timeframe_index, prev_timeframe_index};
use crate::sorting::{SortKey, is_stable_order, is_stable_order_by, lemma_stable_order_transfer, stable_order};
use crate::text::{
    decimal_digits, push_decimal,
    chars_equal, chars_le, chars_less, chars_lt, chars_of, lemma_chars_lt_asymmetric,
    lemma_chars_lt_irreflexive, lemma_chars_lt_total, lemma_chars_lt_transitive,
};

verus! {

/// What the results table orders a stock by: its code, its market, and each
/// metric as an order-preserving integer (larger metric, larger key).
pub struct StockKeys {
    pub code: String,
    pub market: String,
    pub last_price: i64,
    pub prev_close: i64,
    pub open_price: i64,
    pub change: i64,
    pub day_high: i64,
    pub day_low: i64,
    pub turnover: i64,
    pub amplitude: i64,
    pub total_market: i64,
}

/// The column the results are sorted by.
#[derive(Clone, Copy, Debug, PartialEq, Eq, Structural)]
pub enum SortField {
    LastPrice,
    PrevClose,
    OpenPrice,
    Change,
    DayHigh,
    DayLow,
    Turnover,
    Amplitude,
    TotalMarket,
}

/// Three-way comparison result.
#[derive(Clone, Copy, Debug, PartialEq, Eq, Structural)]
pub enum Comparison {
    Less,
    Equal,
    Greater,
}

/// The key a stock has for a field.
pub open spec fn field_key(field: SortField, s: StockKeys) -> i64 {
    match field {
        SortField::LastPrice => s.last_price,
        SortField::PrevClose => s.prev_close,
        SortField::OpenPrice => s.open_price,
        SortField::Change => s.change,
        SortField::DayHigh => s.day_high,
        SortField::DayLow => s.day_low,
        SortField::Turnover => s.turnover,
        SortField::Amplitude => s.amplitude,
        SortField::TotalMarket => s.total_market,
    }
}

/// The field after `f` in column order, wrapping from the last to the first.
pub open spec fn field_next(f: SortField) -> SortField {
    match f {
        SortField::LastPrice => SortField::PrevClose,
        SortField::PrevClose => SortField::OpenPrice,
        SortField::OpenPrice => SortField::Change,
        SortField::Change => SortField::DayHigh,
        SortField::DayHigh => SortField::DayLow,
        SortField::DayLow => SortField::Turnover,
        SortField::Turnover => SortField::Amplitude,
        SortField::Amplitude => SortField::TotalMarket,
        SortField::TotalMarket => SortField::LastPrice,
    }
}

/// The column header of a field.
pub open spec fn field_label(f: SortField) -> Seq<char> {
    match f {
        SortField::LastPrice => "Last Price"@,
        SortField::PrevClose => "Prev Close"@,
        SortField::OpenPrice => "Open Price"@,
        SortField::Change => "Change (%)"@,
        SortField::DayHigh => "Day High"@,
        SortField::DayLow => "Day Low"@,
        SortField::Turnover => "Turnover"@,
        SortField::Amplitude => "Amplitude"@,
        SortField::TotalMarket => "Total Market"@,
    }
}

pub open spec fn three_way(a: int, b: int) -> Comparison {
    if a < b {
        Comparison::Less
    } else if a == b {
        Comparison::Equal
    } else {
        Comparison::Greater
    }
}

impl SortField {
    pub fn label(self) -> (l: &'static str)
        ensures
            l@ == field_label(self),
    {
        match self {
            SortField::LastPrice => "Last Price",
            SortField::PrevClose => "Prev Close",
            SortField::OpenPrice => "Open Price",
            SortField::Change => "Change (%)",
            SortField::DayHigh => "Day High",
            SortField::DayLow => "Day Low",
            SortField::Turnover => "Turnover",
            SortField::Amplitude => "Amplitude",
            SortField::TotalMarket => "Total Market",
        }
    }

    pub fn next(self) -> (n: Self)
        ensures
            n == field_next(self),
    {
        match self {
            SortField::LastPrice => SortField::PrevClose,
            SortField::PrevClose => SortField::OpenPrice,
            SortField::OpenPrice => SortField::Change,
            SortField::Change => SortField::DayHigh,
            SortField::DayHigh => SortField::DayLow,
            SortField::DayLow => SortField::Turnover,
            SortField::Turnover => SortField::Amplitude,
            SortField::Amplitude => SortField::TotalMarket,
            SortField::TotalMarket => SortField::LastPrice,
        }
    }

    /// The key of a stock for this field.
    pub fn key(self, s: &StockKeys) -> (k: i64)
        ensures
            k == field_key(self, *s),
    {
        match self {
            SortField::LastPrice => s.last_price,
            SortField::PrevClose => s.prev_close,
            SortField::OpenPrice => s.open_price,
            SortField::Change => s.change,
            SortField::DayHigh => s.day_high,
            SortField::DayLow => s.day_low,
            SortField::Turnover => s.turnover,
            SortField::Amplitude => s.amplitude,
            SortField::TotalMarket => s.total_market,
        }
    }

    /// Compare two stocks by this field.
    pub fn compare(self, a: &StockKeys, b: &StockKeys) -> (c: Comparison)
        ensures
            c == three_way(field_key(self, *a) as int, field_key(self, *b) as int),
    {
        let ka = self.key(a);
        let kb = self.key(b);
        if ka < kb {
            Comparison::Less
        } else if ka == kb {
            Comparison::Equal
        } else {
            Comparison::Greater
        }
    }
}

/// Law: cycling the sort field visits all nine columns and comes back.
pub proof fn lemma_field_cycle(f: SortField)
    ensures
        field_next(
            field_next(
                field_next(
                    field_next(field_next(field_next(field_next(field_next(field_next(f)))))),
                ),
            ),
        ) == f,
{
}

/// The field and direction the results are sorted by.
#[derive(Clone, Copy, Debug, PartialEq, Eq, Structural)]
pub struct SortState {
    pub field: SortField,
    pub descending: bool,
}

impl SortState {
    /// Last price, largest first.
    pub fn new() -> (s: Self)
        ensures
            s.field == SortField::LastPrice,
            s.descending,
    {
        SortState { field: SortField::LastPrice, descending: true }
    }

    pub fn cycle_field(&mut self)
        ensures
            final(self).field == field_next(old(self).field),
            final(self).descending == old(self).descending,
    {
        self.field = self.field.next();
    }

    pub fn toggle_direction(&mut self)
        ensures
            final(self).field == old(self).field,
            final(self).descending == !old(self).descending,
    {
        self.descending = !self.descending;
    }

    /// The arrow shown beside the sorted column.
    pub fn direction_icon(self) -> (icon: &'static str)
        ensures
            icon@ == (if self.descending {
                "↓"@
            } else {
                "↑"@
            }),
    {
        if self.descending {
            "↓"
        } else {
            "↑"
        }
    }
}

// ---------------------------------------------------------------------------
// Sorted rows
// ---------------------------------------------------------------------------

/// Ascending order of stocks: by the field's key, then by code.
pub open spec fn ascending_before(field: SortField, a: StockKeys, b: StockKeys) -> bool {
    field_key(field, a) < field_key(field, b) || (field_key(field, a) == field_key(field, b)
        && chars_le(a.code@, b.code@))
}

/// The order of the table: ascending, or its reverse when descending.
pub open spec fn row_before(sort: SortState) -> spec_fn(StockKeys, StockKeys) -> bool {
    |a: StockKeys, b: StockKeys|
        if sort.descending {
            ascending_before(sort.field, b, a)
        } else {
            ascending_before(sort.field, a, b)
        }
}

/// The first position at or after `from` whose stock has code `code`.
pub open spec fn find_code(db: Seq<StockKeys>, code: Seq<char>, from: int) -> Option<int>
    decreases db.len() - from,
{
    if from < 0 || from >= db.len() {
        None
    } else if db[from].code@ == code {
        Some(from)
    } else {
        find_code(db, code, from + 1)
    }
}

/// For each requested code in turn, the first stock of the database with that
/// code; codes without a stock are skipped.
pub open spec fn matched_rows(db: Seq<StockKeys>, codes: Seq<String>) -> Seq<usize>
    decreases codes.len(),
{
    if codes.len() == 0 {
        Seq::empty()
    } else {
        let rest = matched_rows(db, codes.drop_last());
        match find_code(db, codes.last()@, 0) {
            Some(i) => rest.push(i as usize),
            None => rest,
        }
    }
}

/// The matched stocks themselves.
pub open spec fn matched_stocks(db: Seq<StockKeys>, codes: Seq<String>) -> Seq<StockKeys> {
    matched_rows(db, codes).map_values(|i: usize| db[i as int])
}

/// `rows` are the matched stocks (as database positions) in the stable order of the table.
pub open spec fn is_sorted_rows(db: Seq<StockKeys>, codes: Seq<String>, sort: SortState, rows: Seq<usize>) -> bool {
    exists|order: Seq<usize>|
        #![trigger is_stable_order_by(matched_stocks(db, codes), order, row_before(sort))]
        is_stable_order_by(matched_stocks(db, codes), order, row_before(sort))
            && rows == order.map_values(|k: usize| matched_rows(db, codes)[k as int])
}

proof fn lemma_find_code_in_range(db: Seq<StockKeys>, code: Seq<char>, from: int)
    ensures
        find_code(db, code, from) matches Some(i) ==> from <= i < db.len() && db[i].code@ == code,
        from >= 0 && (exists|k: int| from <= k < db.len() && #[trigger] db[k].code@ == code) ==> find_code(db, code, from) is Some,
    decreases db.len() - from,
{
    if 0 <= from < db.len() && db[from].code@ != code {
        lemma_find_code_in_range(db, code, from + 1);
    }
}

proof fn lemma_matched_rows_len(db: Seq<StockKeys>, codes: Seq<String>)
    ensures
        matched_rows(db, codes).len() <= codes.len(),
        forall|k: int| 0 <= k < matched_rows(db, codes).len() ==> #[trigger] matched_rows(db, codes)[k] < db.len(),
    decreases codes.len(),
{
    if codes.len() > 0 {
        lemma_matched_rows_len(db, codes.drop_last());
        lemma_find_code_in_range(db, codes.last()@, 0);
    }
}

/// A stock's sort position: its key for the sorted field, its code, and where
/// it sits in the matched rows.
struct RankedRow {
    key: i64,
    code: Vec<char>,
}

impl SortKey for RankedRow {
    closed spec fn precedes(&self, other: &Self) -> bool {
        self.key < other.key || (self.key == other.key && chars_le(self.code@, other.code@))
    }

    proof fn lemma_precedes_reflexive(a: &Self) {
    }

    proof fn lemma_precedes_transitive(a: &Self, b: &Self, c: &Self) {
        if a.key == b.key && b.key == c.key {
            if a.code@ != b.code@ && b.code@ != c.code@ {
                lemma_chars_lt_transitive(a.code@, b.code@, c.code@);
            }
        }
    }

    proof fn lemma_precedes_total(a: &Self, b: &Self) {
        lemma_chars_lt_total(a.code@, b.code@);
    }

    fn precedes_exec(&self, other: &Self) -> (r: bool) {
        self.key < other.key || (self.key == other.key && (chars_equal(&self.code, &other.code)
            || chars_less(&self.code, &other.code)))
    }
}

/// The reverse of an order.
struct Descending<T>(T);

impl<T: SortKey> SortKey for Descending<T> {
    closed spec fn precedes(&self, other: &Self) -> bool {
        other.0.precedes(&self.0)
    }

    proof fn lemma_precedes_reflexive(a: &Self) {
        T::lemma_precedes_reflexive(&a.0);
    }

    proof fn lemma_precedes_transitive(a: &Self, b: &Self, c: &Self) {
        T::lemma_precedes_transitive(&c.0, &b.0, &a.0);
    }

    proof fn lemma_precedes_total(a: &Self, b: &Self) {
        T::lemma_precedes_total(&a.0, &b.0);
    }

    fn precedes_exec(&self, other: &Self) -> (r: bool) {
        other.0.precedes_exec(&self.0)
    }
}

/// The first position of the database whose stock has code `code`.
fn find_stock(db: &Vec<StockKeys>, code: &String) -> (r: Option<usize>)
    ensures
        r == match find_code(db@, code@, 0) {
            Some(i) => Some(i as usize),
            None => None::<usize>,
        },
{
    let mut i: usize = 0;
    while i < db.len()
        invariant
            i <= db.len(),
            find_code(db@, code@, 0) == find_code(db@, code@, i as int),
        decreases db.len() - i,
    {
        if db[i].code == *code {
            proof {
                lemma_find_code_in_range(db@, code@, i as int);
            }
            return Some(i);
        }
        i = i + 1;
    }
    None
}

/// The requested stocks, as positions of the database, in the table's order:
/// by the sorted field and then by code, reversed when descending, stocks that
/// compare equal kept in the order their codes were requested.
pub fn build_sorted_rows(database: &Vec<StockKeys>, codes: &Vec<String>, sort: SortState) -> (rows: Vec<usize>)
    ensures
        is_sorted_rows(database@, codes@, sort, rows@),
        rows@.len() <= codes@.len(),
        forall|k: int| 0 <= k < rows@.len() ==> #[trigger] rows@[k] < database@.len(),
{
    let mut matched: Vec<usize> = Vec::new();
    let mut i: usize = 0;
    while i < codes.len()
        invariant
            i <= codes.len(),
            matched@ == matched_rows(database@, codes@.take(i as int)),
        decreases codes.len() - i,
    {
        assert(codes@.take(i + 1).drop_last() =~= codes@.take(i as int));
        match find_stock(database, &codes[i]) {
            Some(idx) => matched.push(idx),
            None => {},
        }
        i = i + 1;
    }
    assert(codes@.take(codes.len() as int) =~= codes@);
    proof {
        lemma_matched_rows_len(database@, codes@);
    }
    let ghost views = matched@.map_values(|m: usize| database@[m as int]);
    let mut ranked: Vec<RankedRow> = Vec::new();
    let mut j: usize = 0;
    while j < matched.len()
        invariant
            j <= matched.len(),
            matched@ == matched_rows(database@, codes@),
            forall|k: int| 0 <= k < matched@.len() ==> #[trigger] matched@[k] < database@.len(),
            views == matched@.map_values(|m: usize| database@[m as int]),
            ranked@.len() == j,
            forall|k: int| 0 <= k < j ==> {
                &&& (#[trigger] ranked@[k]).key == field_key(sort.field, views[k])
                &&& ranked@[k].code@ == views[k].code@
            },
        decreases matched.len() - j,
    {
        let s = &database[matched[j]];
        ranked.push(RankedRow { key: sort.field.key(s), code: chars_of(s.code.as_str()) });
        j = j + 1;
    }
    let order: Vec<usize> = if sort.descending {
        let mut desc: Vec<Descending<RankedRow>> = Vec::new();
        let mut k: usize = 0;
        while k < ranked.len()
            invariant
                k <= ranked.len(),
                desc@.len() == k,
                forall|q: int| 0 <= q < k ==> (#[trigger] desc@[q]).0.key == ranked@[q].key
                    && desc@[q].0.code@ == ranked@[q].code@,
            decreases ranked.len() - k,
        {
            let r = &ranked[k];
            desc.push(Descending(RankedRow { key: r.key, code: r.code.clone() }));
            assert(desc@[k as int].0.code@ == ranked@[k as int].code@);
            k = k + 1;
        }
        let o = stable_order(&desc);
        proof {
            lemma_stable_order_transfer(desc@, views, o@, row_before(sort));
        }
        o
    } else {
        let o = stable_order(&ranked);
        proof {
            lemma_stable_order_transfer(ranked@, views, o@, row_before(sort));
        }
        o
    };
    let mut rows: Vec<usize> = Vec::new();
    let mut q: usize = 0;
    while q < order.len()
        invariant
            q <= order.len(),
            is_stable_order_by(views, order@, row_before(sort)),
            views.len() == matched@.len(),
            forall|k: int| 0 <= k < matched@.len() ==> #[trigger] matched@[k] < database@.len(),
            rows@ == order@.take(q as int).map_values(|k: usize| matched@[k as int]),
        decreases order.len() - q,
    {
        rows.push(matched[order[q]]);
        assert(order@.take(q + 1).map_values(|k: usize| matched@[k as int]) =~= order@.take(
            q as int,
        ).map_values(|k: usize| matched@[k as int]).push(matched@[order@[q as int] as int]));
        q = q + 1;
    }
    assert(order@.take(order.len() as int) =~= order@);
    assert(is_stable_order_by(matched_stocks(database@, codes@), order@, row_before(sort)));
    rows
}

} // verus!

verus! {

// ---------------------------------------------------------------------------
// The results table screen
// ---------------------------------------------------------------------------

/// `a - b`, or 0 when `b` is larger.
pub open spec fn sat_sub(a: int, b: int) -> int {
    if a > b {
        a - b
    } else {
        0
    }
}

/// Rows that fit in a table area of `height` lines (borders and header take three).
pub open spec fn capacity_for_height_spec(height: u16) -> int {
    let c = sat_sub(height as int, 3);
    if c < 1 {
        1
    } else {
        c
    }
}

pub fn capacity_for_height(height: u16) -> (c: usize)
    ensures
        c == capacity_for_height_spec(height),
        1 <= c <= u16::MAX,
{
    let c: u16 = height.saturating_sub(3);
    if c < 1 {
        1
    } else {
        c as usize
    }
}

/// One row down (wrapping), scrolling just enough to keep it in view.
pub open spec fn nav_down(sel: int, off: int, total: int, cap: int) -> (int, int) {
    let s = (sel + 1) % total;
    if s >= off + cap {
        (s, s + 1 - cap)
    } else if s < off {
        (s, s)
    } else {
        (s, off)
    }
}

/// One row up (wrapping), scrolling just enough to keep it in view.
pub open spec fn nav_up(sel: int, off: int, total: int, cap: int) -> (int, int) {
    let s = if sel == 0 {
        total - 1
    } else {
        sel - 1
    };
    if s < off {
        (s, s)
    } else if s >= off + cap {
        (s, s + 1 - cap)
    } else {
        (s, off)
    }
}

/// One page down, stopping at the last row.
pub open spec fn nav_page_down(sel: int, off: int, total: int, cap: int) -> (int, int) {
    let s = if sel + cap < total - 1 {
        sel + cap
    } else {
        total - 1
    };
    if s == sel {
        (sel, off)
    } else if s >= off + cap {
        (s, s + 1 - cap)
    } else {
        (s, off)
    }
}

/// One page up, stopping at the first row.
pub open spec fn nav_page_up(sel: int, off: int, cap: int) -> (int, int) {
    let s = sat_sub(sel, cap);
    if s == sel {
        (sel, off)
    } else if s < off {
        (s, s)
    } else {
        (s, off)
    }
}

/// The last row, at the bottom of the view.
pub open spec fn nav_end(total: int, cap: int) -> (int, int) {
    (total - 1, sat_sub(total - 1, sat_sub(cap, 1)))
}

/// Right arrow or `l`.
pub open spec fn is_right_key(key: Key) -> bool {
    key.code == KeyCode::Right || key.code == KeyCode::Char('l')
}

/// Left arrow or `h`.
pub open spec fn is_left_key(key: Key) -> bool {
    key.code == KeyCode::Left || key.code == KeyCode::Char('h')
}

/// The selection and scroll offset a navigation key leads to on a non-empty
/// table, or `None` for other keys.
pub open spec fn navigate(key: Key, sel: int, off: int, total: int, cap: int) -> Option<(int, int)> {
    if is_down_key(key) {
        Some(nav_down(sel, off, total, cap))
    } else if is_up_key(key) {
        Some(nav_up(sel, off, total, cap))
    } else if key.code == KeyCode::PageDown {
        Some(nav_page_down(sel, off, total, cap))
    } else if key.code == KeyCode::PageUp {
        Some(nav_page_up(sel, off, cap))
    } else if key.code == KeyCode::Home {
        Some((0, 0))
    } else if key.code == KeyCode::End {
        Some(nav_end(total, cap))
    } else {
        None
    }
}

/// After resorting: the row of the stock that was selected, else the old
/// position clamped to the table.
pub open spec fn reselect(stocks: Seq<StockKeys>, current: Option<Seq<char>>, sel: int) -> int {
    let clamped = if stocks.len() > 0 {
        if sel < stocks.len() - 1 {
            sel
        } else {
            stocks.len() - 1
        }
    } else {
        0
    };
    match current {
        Some(c) => match find_code(stocks, c, 0) {
            Some(i) => i,
            None => clamped,
        },
        None => clamped,
    }
}

/// Scroll so that the selected row is not below the view, nor above it.
pub open spec fn keep_visible(sel: int, off: int, cap: int) -> int {
    let o = if sel >= off + cap {
        sat_sub(sel, sat_sub(cap, 1))
    } else {
        off
    };
    if sel < o {
        sel
    } else {
        o
    }
}

/// What the results screen does after a key.
#[derive(Clone, Copy, Debug, PartialEq, Eq, Structural)]
pub enum ResultsStep {
    /// Keep showing the table.
    Continue,
    /// Leave the screen.
    Exit,
    /// Keep showing the table, and bring the chart's history for the stock at
    /// this database position up to date.
    Prepare(usize),
}

/// The filtered results: the requested stocks in sorted order, the selected
/// row, the first visible row and the sort order.
pub struct ResultsTable {
    database: Vec<StockKeys>,
    codes: Vec<String>,
    rows: Vec<usize>,
    selected: usize,
    offset: usize,
    sort: SortState,
}

impl ResultsTable {
    pub closed spec fn db_spec(&self) -> Seq<StockKeys> {
        self.database@
    }

    pub closed spec fn codes_spec(&self) -> Seq<String> {
        self.codes@
    }

    /// The table's rows, as database positions, top to bottom.
    pub closed spec fn rows_spec(&self) -> Seq<usize> {
        self.rows@
    }

    pub closed spec fn selected_spec(&self) -> int {
        self.selected as int
    }

    pub closed spec fn offset_spec(&self) -> int {
        self.offset as int
    }

    pub closed spec fn sort_spec(&self) -> SortState {
        self.sort
    }

    /// The stocks of the rows, top to bottom.
    pub open spec fn row_stocks(&self) -> Seq<StockKeys> {
        self.rows_spec().map_values(|i: usize| self.db_spec()[i as int])
    }

    /// The rows are the sorted requested stocks; the selection is on a row
    /// (or 0 on an empty table) and not above the view.
    pub closed spec fn wf(&self) -> bool {
        &&& is_sorted_rows(self.database@, self.codes@, self.sort, self.rows@)
        &&& forall|k: int| 0 <= k < self.rows@.len() ==> #[trigger] self.rows@[k] < self.database@.len()
        &&& self.rows@.len() <= self.codes@.len()
        &&& self.codes@.len() <= usize::MAX - u16::MAX
        &&& (self.rows@.len() == 0 ==> self.selected == 0)
        &&& (self.rows@.len() > 0 ==> self.selected < self.rows@.len())
        &&& self.offset <= self.selected
    }

    /// The table of the requested codes, sorted by last price, largest first,
    /// with the first row selected.
    pub fn new(database: Vec<StockKeys>, codes: Vec<String>) -> (t: Self)
        requires
            codes@.len() <= usize::MAX - u16::MAX,
        ensures
            t.wf(),
            t.db_spec() == database@,
            t.codes_spec() == codes@,
            t.sort_spec() == SortState::new_spec(),
            is_sorted_rows(database@, codes@, SortState::new_spec(), t.rows_spec()),
            t.selected_spec() == 0,
            t.offset_spec() == 0,
    {
        let sort = SortState::new();
        let rows = build_sorted_rows(&database, &codes, sort);
        ResultsTable { database, codes, rows, selected: 0, offset: 0, sort }
    }

    pub fn rows(&self) -> (r: &Vec<usize>)
        ensures
            r@ == self.rows_spec(),
    {
        &self.rows
    }

    pub fn database(&self) -> (d: &Vec<StockKeys>)
        ensures
            d@ == self.db_spec(),
    {
        &self.database
    }

    /// The selected row: on the table (0 when it is empty), not above the view.
    pub fn selected(&self) -> (s: usize)
        ensures
            s == self.selected_spec(),
            self.wf() ==> self.selection_on_table(),
    {
        self.selected
    }

    pub fn offset(&self) -> (o: usize)
        ensures
            o == self.offset_spec(),
            self.wf() ==> self.selection_on_table(),
    {
        self.offset
    }

    pub fn sort(&self) -> (s: SortState)
        ensures
            s == self.sort_spec(),
    {
        self.sort
    }

    /// One past the last visible row for a view of `capacity` rows.
    pub fn visible_end(&self, capacity: usize) -> (end: usize)
        requires
            self.wf(),
            1 <= capacity <= u16::MAX,
        ensures
            end == (if self.offset_spec() + capacity < self.rows_spec().len() {
                self.offset_spec() + capacity
            } else {
                self.rows_spec().len() as int
            }),
    {
        if self.offset + capacity < self.rows.len() {
            self.offset + capacity
        } else {
            self.rows.len()
        }
    }

    /// Fit the view to `capacity` rows before drawing: the selection stays on
    /// the table and the view does not scroll past its end.
    pub fn fit(&mut self, capacity: usize)
        requires
            old(self).wf(),
            1 <= capacity <= u16::MAX,
        ensures
            final(self).wf(),
            final(self).db_spec() == old(self).db_spec(),
            final(self).codes_spec() == old(self).codes_spec(),
            final(self).rows_spec() == old(self).rows_spec(),
            final(self).sort_spec() == old(self).sort_spec(),
            final(self).selected_spec() == old(self).selected_spec(),
            final(self).offset_spec() == (if old(self).offset_spec() > sat_sub(
                old(self).rows_spec().len() as int,
                capacity as int,
            ) {
                sat_sub(old(self).rows_spec().len() as int, capacity as int)
            } else {
                old(self).offset_spec()
            }),
    {
        let total = self.rows.len();
        if total == 0 {
            self.selected = 0;
        } else if self.selected >= total {
            self.selected = total - 1;
        }
        let max_offset = total.saturating_sub(capacity);
        if self.offset > max_offset {
            self.offset = max_offset;
        }
    }

    /// Where the chart should focus before drawing: the selected stock while
    /// the chart is shown (its focus is cleared when the table is empty).
    pub fn focus_chart<H, R>(&self, chart: &mut crate::chart::ChartState<H, R>) -> (r: Option<usize>)
        requires
            self.wf(),
            old(chart).wf(),
        ensures
            final(chart).wf(),
            !old(chart).shown() ==> r is None && *final(chart) == *old(chart),
            old(chart).shown() && self.rows_spec().len() > 0 ==> r == Some(
                self.rows_spec()[self.selected_spec()],
            ) && *final(chart) == *old(chart),
            old(chart).shown() && self.rows_spec().len() == 0 ==> r is None && final(chart).shown()
                && final(chart).timeframe() == old(chart).timeframe() && final(chart).active() is None
                && final(chart).error() is None && final(chart).cache() == old(chart).cache()
                && final(chart).pending() == old(chart).pending(),
    {
        if chart.is_shown() {
            if self.selected < self.rows.len() {
                Some(self.rows[self.selected])
            } else {
                chart.clear_active();
                None
            }
        } else {
            None
        }
    }
}

/// `after` is `before` sorted by `sort` again: the selected stock stays
/// selected when it is listed (else the old position, clamped), scrolled into view.
pub open spec fn is_resorted(before: ResultsTable, after: ResultsTable, sort: SortState, cap: int) -> bool {
    &&& after.db_spec() == before.db_spec()
    &&& after.codes_spec() == before.codes_spec()
    &&& after.sort_spec() == sort
    &&& is_sorted_rows(before.db_spec(), before.codes_spec(), sort, after.rows_spec())
    &&& after.rows_spec().len() == before.rows_spec().len()
    &&& after.selected_spec() == reselect(after.row_stocks(), before.current_code(), before.selected_spec())
    &&& after.offset_spec() == keep_visible(after.selected_spec(), before.offset_spec(), cap)
}

/// The chart lost its focus and error, and kept everything else.
pub open spec fn focus_cleared<H, R>(before: ChartState<H, R>, after: ChartState<H, R>) -> bool {
    &&& after.shown() == before.shown()
    &&& after.timeframe() == before.timeframe()
    &&& after.active() is None
    &&& after.error() is None
    &&& after.cache() == before.cache()
    &&& after.pending() == before.pending()
}

/// While the chart is shown it follows the selected row: the caller is asked
/// to focus it there, or its focus is cleared when the table is empty.
pub open spec fn chart_follows_selection<H, R>(
    before: ChartState<H, R>,
    after: ChartState<H, R>,
    table: ResultsTable,
    step: ResultsStep,
) -> bool {
    if !before.shown() {
        step == ResultsStep::Continue && after == before
    } else if table.rows_spec().len() > 0 {
        step == ResultsStep::Prepare(table.rows_spec()[table.selected_spec()]) && after == before
    } else {
        step == ResultsStep::Continue && focus_cleared(before, after)
    }
}

/// Whether a navigation key asks for the chart to follow: page keys only when
/// the selection moved.
pub open spec fn nav_refreshes(key: Key, sel: int, new_sel: int) -> bool {
    (key.code != KeyCode::PageDown && key.code != KeyCode::PageUp) || new_sel != sel
}

/// The chart moved to another timeframe and kept everything else.
pub open spec fn timeframe_moved<H, R>(before: ChartState<H, R>, after: ChartState<H, R>, tf: int) -> bool {
    &&& after.timeframe() == tf
    &&& after.shown() == before.shown()
    &&& after.active() == before.active()
    &&& after.error() == before.error()
    &&& after.cache() == before.cache()
    &&& after.pending() == before.pending()
}

impl ResultsTable {
    /// The selection is a row of the table (0 when the table is empty), and
    /// the first visible row is not below it.
    pub open spec fn selection_on_table(&self) -> bool {
        &&& (self.rows_spec().len() == 0 ==> self.selected_spec() == 0)
        &&& (self.rows_spec().len() > 0 ==> self.selected_spec() < self.rows_spec().len())
        &&& 0 <= self.offset_spec() <= self.selected_spec()
    }

    /// Law: a valid table's selection is one of its rows, at or below the
    /// first visible row.
    pub proof fn lemma_selection_on_table(&self)
        requires
            self.wf(),
        ensures
            self.selection_on_table(),
    {
    }

    /// The code of the selected stock, if the table has rows.
    pub open spec fn current_code(&self) -> Option<Seq<char>> {
        if self.selected_spec() < self.rows_spec().len() {
            Some(self.db_spec()[self.rows_spec()[self.selected_spec()] as int].code@)
        } else {
            None
        }
    }

    proof fn lemma_sorted_rows_len(&self, sort: SortState, rows: Seq<usize>)
        requires
            is_sorted_rows(self.database@, self.codes@, sort, rows),
        ensures
            rows.len() == matched_rows(self.database@, self.codes@).len(),
    {
        let order = choose|order: Seq<usize>|
            #![trigger is_stable_order_by(matched_stocks(self.database@, self.codes@), order, row_before(sort))]
            is_stable_order_by(matched_stocks(self.database@, self.codes@), order, row_before(sort))
                && rows == order.map_values(|k: usize| matched_rows(self.database@, self.codes@)[k as int]);
    }

    /// Sort by `sort` again, keep the selected stock selected when it is still
    /// listed (else the old position, clamped), scroll it into view, and tell
    /// the caller to focus the chart on it while the chart is shown.
    fn rebuild_sorted_rows<H, R>(&mut self, sort: SortState, capacity: usize, chart: &mut ChartState<H, R>) -> (step: ResultsStep)
        requires
            old(self).wf(),
            1 <= capacity <= u16::MAX,
            old(chart).wf(),
        ensures
            final(self).wf(),
            is_resorted(*old(self), *final(self), sort, capacity as int),
            final(chart).wf(),
            chart_follows_selection(*old(chart), *final(chart), *final(self), step),
    {
        let ghost old_self = *self;
        let current: Option<String> = if self.selected < self.rows.len() {
            Some(self.database[self.rows[self.selected]].code.clone())
        } else {
            None
        };
        let rows = build_sorted_rows(&self.database, &self.codes, sort);
        proof {
            old_self.lemma_sorted_rows_len(old_self.sort, old_self.rows@);
            old_self.lemma_sorted_rows_len(sort, rows@);
        }
        self.rows = rows;
        self.sort = sort;
        let total = self.rows.len();
        let ghost stocks = self.rows@.map_values(|i: usize| self.database@[i as int]);
        let clamped: usize = if total > 0 {
            if self.selected < total - 1 {
                self.selected
            } else {
                total - 1
            }
        } else {
            0
        };
        let mut new_selected = clamped;
        match &current {
            Some(code) => {
                let mut k: usize = 0;
                let mut found = false;
                while k < total
                    invariant_except_break
                        !found,
                        new_selected == clamped,
                    invariant
                        k <= total,
                        total == self.rows@.len(),
                        stocks == self.rows@.map_values(|i: usize| self.database@[i as int]),
                        forall|q: int| 0 <= q < self.rows@.len() ==> #[trigger] self.rows@[q] < self.database@.len(),
                        find_code(stocks, code@, 0) == find_code(stocks, code@, k as int),
                    ensures
                        found ==> find_code(stocks, code@, 0) == Some(new_selected as int),
                        !found ==> find_code(stocks, code@, 0) is None && new_selected == clamped,
                    decreases total - k,
                {
                    if self.database[self.rows[k]].code == *code {
                        new_selected = k;
                        found = true;
                        assert(stocks[k as int].code@ == code@);
                        break;
                    }
                    k = k + 1;
                }
            },
            None => {},
        }
        proof {
            if let Some(code) = current {
                crate::results::lemma_find_code_in_range(stocks, code@, 0);
            }
        }
        self.selected = new_selected;
        if self.selected >= self.offset + capacity {
            self.offset = self.selected.saturating_sub(capacity.saturating_sub(1));
        }
        if self.selected < self.offset {
            self.offset = self.selected;
        }
        if chart.is_shown() {
            if self.selected < self.rows.len() {
                ResultsStep::Prepare(self.rows[self.selected])
            } else {
                chart.clear_active();
                ResultsStep::Continue
            }
        } else {
            ResultsStep::Continue
        }
    }
}

impl ResultsTable {
    /// Handle a key on the results screen (`capacity`: rows of the last drawn view).
    /// Enter opens the chart on the selected stock, or moves it to the next
    /// timeframe; Esc and Ctrl+C leave; `x` closes the chart; `s` sorts by the
    /// next column and `d` flips the direction; Right/`l` and Left/`h` change
    /// the timeframe of a shown chart; Up/Down (`k`/`j`, wrapping), PageUp/
    /// PageDown, Home and End move the selection and keep it in view.
    pub fn handle_key<H, R>(&mut self, key: Key, capacity: usize, chart: &mut ChartState<H, R>) -> (step: ResultsStep)
        requires
            old(self).wf(),
            1 <= capacity <= u16::MAX,
            old(chart).wf(),
            old(chart).timeframe() < TIMEFRAME_COUNT,
        ensures
            final(self).wf(),
            final(chart).wf(),
            final(chart).timeframe() < TIMEFRAME_COUNT,
            final(self).selection_on_table(),
            old(self).selected_spec() < old(self).offset_spec() + capacity ==> final(self).selected_spec()
                < final(self).offset_spec() + capacity,
            ({
                let total = old(self).rows_spec().len() as int;
                let sel = old(self).selected_spec();
                let off = old(self).offset_spec();
                if key.code == KeyCode::Enter {
                    &&& *final(self) == *old(self)
                    &&& if old(chart).shown() {
                        step == ResultsStep::Continue && timeframe_moved(*old(chart), *final(chart), next_timeframe_index(old(chart).timeframe()))
                    } else if total > 0 {
                        &&& step == ResultsStep::Prepare(old(self).rows_spec()[sel])
                        &&& final(chart).shown()
                        &&& final(chart).timeframe() == 0
                        &&& final(chart).active() == old(chart).active()
                        &&& final(chart).error() == old(chart).error()
                        &&& final(chart).cache() == old(chart).cache()
                        &&& final(chart).pending() == old(chart).pending()
                    } else {
                        step == ResultsStep::Continue && *final(chart) == *old(chart)
                    }
                } else if key.code == KeyCode::Esc || is_ctrl_c(key) {
                    step == ResultsStep::Exit && *final(self) == *old(self) && *final(chart) == *old(chart)
                } else if key.code == KeyCode::Char('x') {
                    &&& step == ResultsStep::Continue
                    &&& *final(self) == *old(self)
                    &&& !final(chart).shown()
                    &&& final(chart).timeframe() == old(chart).timeframe()
                    &&& final(chart).active() is None
                    &&& final(chart).error() is None
                    &&& final(chart).cache() == old(chart).cache()
                    &&& final(chart).pending() == old(chart).pending()
                } else if key.code == KeyCode::Char('s') || key.code == KeyCode::Char('d') {
                    let sort = if key.code == KeyCode::Char('s') {
                        SortState { field: field_next(old(self).sort_spec().field), ..old(self).sort_spec() }
                    } else {
                        SortState { descending: !old(self).sort_spec().descending, ..old(self).sort_spec() }
                    };
                    &&& is_resorted(*old(self), *final(self), sort, capacity as int)
                    &&& chart_follows_selection(*old(chart), *final(chart), *final(self), step)
                } else if is_right_key(key) || is_left_key(key) {
                    &&& step == ResultsStep::Continue
                    &&& *final(self) == *old(self)
                    &&& if old(chart).shown() {
                        timeframe_moved(*old(chart), *final(chart), if is_right_key(key) {
                            next_timeframe_index(old(chart).timeframe())
                        } else {
                            prev_timeframe_index(old(chart).timeframe())
                        })
                    } else {
                        *final(chart) == *old(chart)
                    }
                } else {
                    &&& *final(chart) == *old(chart)
                    &&& final(self).db_spec() == old(self).db_spec()
                    &&& final(self).codes_spec() == old(self).codes_spec()
                    &&& final(self).rows_spec() == old(self).rows_spec()
                    &&& final(self).sort_spec() == old(self).sort_spec()
                    &&& match navigate(key, sel, off, total, capacity as int) {
                        Some((s, o)) => if total > 0 {
                            &&& final(self).selected_spec() == s
                            &&& final(self).offset_spec() == o
                            &&& step == (if old(chart).shown() && nav_refreshes(key, sel, s) {
                                ResultsStep::Prepare(old(self).rows_spec()[s])
                            } else {
                                ResultsStep::Continue
                            })
                        } else {
                            *final(self) == *old(self) && step == ResultsStep::Continue
                        },
                        None => *final(self) == *old(self) && step == ResultsStep::Continue,
                    }
                }
            }),
    {
        let total = self.rows.len();
        let is_char = |c: char| -> (r: bool)
            ensures
                r == (key.code == KeyCode::Char(c)),
        {
            match key.code {
                KeyCode::Char(k) => k == c,
                _ => false,
            }
        };
        if key.code == KeyCode::Enter {
            if !chart.is_shown() {
                if self.selected < total {
                    chart.show_panel();
                    return ResultsStep::Prepare(self.rows[self.selected]);
                }
                return ResultsStep::Continue;
            } else {
                chart.next_timeframe();
                return ResultsStep::Continue;
            }
        }
        if key.code == KeyCode::Esc || key_is_ctrl_c(key) {
            return ResultsStep::Exit;
        }
        if is_char('x') {
            chart.hide_chart();
            return ResultsStep::Continue;
        }
        if is_char('s') {
            let mut sort = self.sort;
            sort.cycle_field();
            return self.rebuild_sorted_rows(sort, capacity, chart);
        }
        if is_char('d') {
            let mut sort = self.sort;
            sort.toggle_direction();
            return self.rebuild_sorted_rows(sort, capacity, chart);
        }
        if key.code == KeyCode::Right || is_char('l') {
            if chart.is_shown() {
                chart.next_timeframe();
            }
            return ResultsStep::Continue;
        }
        if key.code == KeyCode::Left || is_char('h') {
            if chart.is_shown() {
                chart.prev_timeframe();
            }
            return ResultsStep::Continue;
        }
        if total == 0 {
            return ResultsStep::Continue;
        }
        let sel = self.selected;
        let off = self.offset;
        let refresh: bool;
        if crate::navigation::key_is_down(key) {
            let s = (sel + 1) % total;
            self.selected = s;
            if s >= off + capacity {
                self.offset = s + 1 - capacity;
            } else if s < off {
                self.offset = s;
            }
            refresh = true;
        } else if crate::navigation::key_is_up(key) {
            let s = if sel == 0 {
                total - 1
            } else {
                sel - 1
            };
            self.selected = s;
            if s < off {
                self.offset = s;
            } else if s >= off + capacity {
                self.offset = s + 1 - capacity;
            }
            refresh = true;
        } else if key.code == KeyCode::PageDown {
            let s = if sel + capacity < total - 1 {
                sel + capacity
            } else {
                total - 1
            };
            if s != sel {
                self.selected = s;
                if s >= off + capacity {
                    self.offset = s + 1 - capacity;
                }
                refresh = true;
            } else {
                refresh = false;
            }
        } else if key.code == KeyCode::PageUp {
            let s = sel.saturating_sub(capacity);
            if s != sel {
                self.selected = s;
                if s < off {
                    self.offset = s;
                }
                refresh = true;
            } else {
                refresh = false;
            }
        } else if key.code == KeyCode::Home {
            self.selected = 0;
            self.offset = 0;
            refresh = true;
        } else if key.code == KeyCode::End {
            self.selected = total - 1;
            self.offset = self.selected.saturating_sub(capacity.saturating_sub(1));
            refresh = true;
        } else {
            return ResultsStep::Continue;
        }
        proof {
            if sel < off + capacity {
                lemma_navigation_keeps_selection_in_view(key, sel as int, off as int, total as int, capacity as int);
            }
        }
        if refresh && chart.is_shown() {
            ResultsStep::Prepare(self.rows[self.selected])
        } else {
            ResultsStep::Continue
        }
    }
}

impl SortState {
    pub open spec fn new_spec() -> SortState {
        SortState { field: SortField::LastPrice, descending: true }
    }
}

} // verus!

verus! {

/// Law: a navigation key keeps the selection on the table and in view, when
/// it was in view before.
pub proof fn lemma_navigation_keeps_selection_in_view(key: Key, sel: int, off: int, total: int, cap: int)
    requires
        0 <= off <= sel < total,
        sel < off + cap,
        cap >= 1,
        navigate(key, sel, off, total, cap) is Some,
    ensures
        ({
            let (s, o) = navigate(key, sel, off, total, cap)->0;
            0 <= o <= s < total && s < o + cap
        }),
{
    if sel + 1 < total {
        vstd::arithmetic::div_mod::lemma_small_mod((sel + 1) as nat, total as nat);
    } else {
        vstd::arithmetic::div_mod::lemma_mod_self_0(total);
    }
}

/// Law: moving down and then up comes back to the same row.
pub proof fn lemma_down_then_up(sel: int, off: int, total: int, cap: int)
    requires
        0 <= off <= sel < total,
        cap >= 1,
    ensures
        ({
            let (s1, o1) = nav_down(sel, off, total, cap);
            nav_up(s1, o1, total, cap).0 == sel
        }),
        ({
            let (s1, o1) = nav_up(sel, off, total, cap);
            nav_down(s1, o1, total, cap).0 == sel
        }),
{
    if sel + 1 < total {
        vstd::arithmetic::div_mod::lemma_small_mod((sel + 1) as nat, total as nat);
    } else {
        vstd::arithmetic::div_mod::lemma_mod_self_0(total);
    }
    if sel == 0 {
        vstd::arithmetic::div_mod::lemma_mod_self_0(total);
    } else {
        vstd::arithmetic::div_mod::lemma_small_mod(sel as nat, total as nat);
    }
}

/// Law: the rows are in the table's order — by the sorted column, largest
/// first when descending, smallest first otherwise; equal values by code.
pub proof fn lemma_rows_in_sort_order(db: Seq<StockKeys>, codes: Seq<String>, sort: SortState, rows: Seq<usize>)
    requires
        is_sorted_rows(db, codes, sort, rows),
    ensures
        forall|i: int, j: int| #![trigger rows[i], rows[j]] 0 <= i < j < rows.len() ==> {
            let a = db[rows[i] as int];
            let b = db[rows[j] as int];
            if sort.descending {
                field_key(sort.field, a) >= field_key(sort.field, b)
            } else {
                field_key(sort.field, a) <= field_key(sort.field, b)
            }
        },
        forall|i: int, j: int| #![trigger rows[i], rows[j]] 0 <= i < j < rows.len() && field_key(sort.field, db[rows[i] as int])
            == field_key(sort.field, db[rows[j] as int]) ==> if sort.descending {
            chars_le(db[rows[j] as int].code@, db[rows[i] as int].code@)
        } else {
            chars_le(db[rows[i] as int].code@, db[rows[j] as int].code@)
        },
{
    let matched = matched_rows(db, codes);
    let order = choose|order: Seq<usize>|
        #![trigger is_stable_order_by(matched_stocks(db, codes), order, row_before(sort))]
        is_stable_order_by(matched_stocks(db, codes), order, row_before(sort))
            && rows == order.map_values(|k: usize| matched[k as int]);
    let items = matched_stocks(db, codes);
    assert forall|i: int, j: int| #![trigger rows[i], rows[j]] 0 <= i < j < rows.len() implies (row_before(sort))(
        db[rows[i] as int],
        db[rows[j] as int],
    ) by {
        assert(row_before(sort)(items[order[i] as int], items[order[j] as int]));
        assert(items[order[i] as int] == db[rows[i] as int]);
        assert(items[order[j] as int] == db[rows[j] as int]);
    }
}

} // verus!

verus! {

/// Law: sorting by another column or direction keeps the selected stock
/// selected.
pub proof fn lemma_resort_keeps_selected_stock(before: ResultsTable, after: ResultsTable, sort: SortState, cap: int)
    requires
        before.wf(),
        is_resorted(before, after, sort, cap),
        before.rows_spec().len() > 0,
    ensures
        after.current_code() == before.current_code(),
{
    let db = before.db_spec();
    let codes = before.codes_spec();
    let matched = matched_rows(db, codes);
    let items = matched_stocks(db, codes);
    let sel = before.selected_spec();
    let order1 = choose|order: Seq<usize>|
        #![trigger is_stable_order_by(matched_stocks(db, codes), order, row_before(before.sort_spec()))]
        is_stable_order_by(matched_stocks(db, codes), order, row_before(before.sort_spec()))
            && before.rows_spec() == order.map_values(|k: usize| matched[k as int]);
    let order2 = choose|order: Seq<usize>|
        #![trigger is_stable_order_by(matched_stocks(db, codes), order, row_before(sort))]
        is_stable_order_by(matched_stocks(db, codes), order, row_before(sort))
            && after.rows_spec() == order.map_values(|k: usize| matched[k as int]);
    let m = order1[sel] as int;
    let c = db[before.rows_spec()[sel] as int].code@;
    crate::sorting::lemma_permutation_onto::<StockKeys>(order2, items.len() as int);
    assert(crate::sorting::occurs(order2, m));
    let k = choose|i: int| 0 <= i < order2.len() && order2[i] as int == m;
    let stocks = after.row_stocks();
    assert(stocks[k].code@ == c);
    lemma_find_code_in_range(stocks, c, 0);
    let p = find_code(stocks, c, 0)->0;
    assert(after.selected_spec() == p);
}

} // verus!

verus! {

/// Number of columns of the results table.
pub const RESULT_COLUMNS: usize = 12;

/// The field shown in a column: name, code and a divider first, then the
/// nine sortable metrics in order.
pub open spec fn column_field(col: int) -> Option<SortField> {
    if col == 3 {
        Some(SortField::LastPrice)
    } else if col == 4 {
        Some(SortField::PrevClose)
    } else if col == 5 {
        Some(SortField::OpenPrice)
    } else if col == 6 {
        Some(SortField::Change)
    } else if col == 7 {
        Some(SortField::DayHigh)
    } else if col == 8 {
        Some(SortField::DayLow)
    } else if col == 9 {
        Some(SortField::Turnover)
    } else if col == 10 {
        Some(SortField::Amplitude)
    } else if col == 11 {
        Some(SortField::TotalMarket)
    } else {
        None
    }
}

/// The header text of a column; the sorted column carries the direction arrow.
pub open spec fn header_text(col: int, sort: SortState) -> Seq<char> {
    match column_field(col) {
        Some(f) => if f == sort.field {
            (if sort.descending {
                "↓"@
            } else {
                "↑"@
            }) + " "@ + field_label(f)
        } else {
            field_label(f)
        },
        None => if col == 0 {
            "Stock Name"@
        } else if col == 1 {
            "Code"@
        } else {
            ""@
        },
    }
}

fn column_field_exec(col: usize) -> (f: Option<SortField>)
    ensures
        f == column_field(col as int),
{
    if col == 3 {
        Some(SortField::LastPrice)
    } else if col == 4 {
        Some(SortField::PrevClose)
    } else if col == 5 {
        Some(SortField::OpenPrice)
    } else if col == 6 {
        Some(SortField::Change)
    } else if col == 7 {
        Some(SortField::DayHigh)
    } else if col == 8 {
        Some(SortField::DayLow)
    } else if col == 9 {
        Some(SortField::Turnover)
    } else if col == 10 {
        Some(SortField::Amplitude)
    } else if col == 11 {
        Some(SortField::TotalMarket)
    } else {
        None
    }
}

/// The header cells of the results table, each with whether it is the sorted
/// column (drawn bold).
pub fn header_cells(sort: SortState) -> (cells: Vec<(String, bool)>)
    ensures
        cells@.len() == RESULT_COLUMNS,
        forall|c: int| 0 <= c < RESULT_COLUMNS ==> {
            &&& (#[trigger] cells@[c]).0@ == header_text(c, sort)
            &&& cells@[c].1 == (column_field(c) == Some(sort.field))
        },
{
    let mut cells: Vec<(String, bool)> = Vec::new();
    let mut c: usize = 0;
    while c < RESULT_COLUMNS
        invariant
            c <= RESULT_COLUMNS,
            cells@.len() == c,
            forall|k: int| 0 <= k < c ==> {
                &&& (#[trigger] cells@[k]).0@ == header_text(k, sort)
                &&& cells@[k].1 == (column_field(k) == Some(sort.field))
            },
        decreases RESULT_COLUMNS - c,
    {
        match column_field_exec(c) {
            Some(f) => {
                if f == sort.field {
                    let mut text = String::new();
                    text.append(sort.direction_icon());
                    text.append(" ");
                    text.append(f.label());
                    cells.push((text, true));
                } else {
                    cells.push((String::from_str(f.label()), false));
                }
            },
            None => {
                let label = if c == 0 {
                    "Stock Name"
                } else if c == 1 {
                    "Code"
                } else {
                    ""
                };
                cells.push((String::from_str(label), false));
            },
        }
        c = c + 1;
    }
    cells
}

} // verus!

verus! {

/// The arrow of a sort direction.
pub open spec fn direction_icon_spec(sort: SortState) -> Seq<char> {
    if sort.descending {
        "↓"@
    } else {
        "↑"@
    }
}

/// The footer under the results table: the selected row and the visible
/// range (counted from 1), the sort order and the keys.
pub open spec fn footer_spec(
    total: nat,
    selected: nat,
    offset: nat,
    visible_end: nat,
    sort: SortState,
    chart_shown: bool,
) -> Seq<char> {
    let sort_text = direction_icon_spec(sort) + " "@ + field_label(sort.field);
    if total == 0 {
        "No rows • Sort: "@ + sort_text + " • s next • d flip • Esc back"@
    } else {
        "Row "@ + decimal_digits(selected + 1) + "/"@ + decimal_digits(total) + " • "@ + decimal_digits(offset + 1)
            + "-"@ + decimal_digits(visible_end) + " of "@ + decimal_digits(total) + " • Sort: "@ + sort_text + (
        if chart_shown {
            " • s next • d flip • ↑/↓ move • PgUp/PgDn page • Home/End jump • Enter/←/→/h/l timeframe • X close • Esc back"@
        } else {
            " • s next • d flip • ↑/↓ move • PgUp/PgDn page • Home/End jump • Enter chart • Esc back"@
        })
    }
}

impl ResultsTable {
    /// The footer for a view of `capacity` rows.
    pub fn footer_text(&self, capacity: usize, chart_shown: bool) -> (text: String)
        requires
            self.wf(),
            1 <= capacity <= u16::MAX,
        ensures
            text@ == footer_spec(
                self.rows_spec().len(),
                self.selected_spec() as nat,
                self.offset_spec() as nat,
                (if self.offset_spec() + capacity < self.rows_spec().len() {
                    self.offset_spec() + capacity
                } else {
                    self.rows_spec().len() as int
                }) as nat,
                self.sort_spec(),
                chart_shown,
            ),
    {
        let total = self.rows.len();
        let end = self.visible_end(capacity);
        let mut t = String::new();
        if total == 0 {
            t.append("No rows • Sort: ");
            t.append(self.sort.direction_icon());
            t.append(" ");
            t.append(self.sort.field.label());
            t.append(" • s next • d flip • Esc back");
        } else {
            t.append("Row ");
            push_decimal(&mut t, self.selected + 1);
            t.append("/");
            push_decimal(&mut t, total);
            t.append(" • ");
            push_decimal(&mut t, self.offset + 1);
            t.append("-");
            push_decimal(&mut t, end);
            t.append(" of ");
            push_decimal(&mut t, total);
            t.append(" • Sort: ");
            t.append(self.sort.direction_icon());
            t.append(" ");
            t.append(self.sort.field.label());
            if chart_shown {
                t.append(" • s next • d flip • ↑/↓ move • PgUp/PgDn page • Home/End jump • Enter/←/→/h/l timeframe • X close • Esc back");
            } else {
                t.append(" • s next • d flip • ↑/↓ move • PgUp/PgDn page • Home/End jump • Enter chart • Esc back");
            }
        }
        proof {
            assert(t@ =~= footer_spec(
                total as nat,
                self.selected as nat,
                self.offset as nat,
                end as nat,
                self.sort,
                chart_shown,
            ));
        }
        t
    }
}

} // verus!

verus! {

/// Law: the table's rows are determined by the database, the requested codes
/// and the sort order.
pub proof fn lemma_sorted_rows_unique(
    db: Seq<StockKeys>,
    codes: Seq<String>,
    sort: SortState,
    rows1: Seq<usize>,
    rows2: Seq<usize>,
)
    requires
        is_sorted_rows(db, codes, sort, rows1),
        is_sorted_rows(db, codes, sort, rows2),
    ensures
        rows1 == rows2,
{
    let items = matched_stocks(db, codes);
    let matched = matched_rows(db, codes);
    let o1 = choose|order: Seq<usize>|
        #![trigger is_stable_order_by(matched_stocks(db, codes), order, row_before(sort))]
        is_stable_order_by(matched_stocks(db, codes), order, row_before(sort))
            && rows1 == order.map_values(|k: usize| matched[k as int]);
    let o2 = choose|order: Seq<usize>|
        #![trigger is_stable_order_by(matched_stocks(db, codes), order, row_before(sort))]
        is_stable_order_by(matched_stocks(db, codes), order, row_before(sort))
            && rows2 == order.map_values(|k: usize| matched[k as int]);
    crate::sorting::lemma_stable_order_unique(items, o1, o2, row_before(sort));
}

/// The sort order with the direction flipped.
pub open spec fn flipped(sort: SortState) -> SortState {
    SortState { descending: !sort.descending, ..sort }
}

/// Law: flipping the sort direction twice gives back the same rows, with the
/// same stock selected.
pub proof fn lemma_flip_twice_restores_rows(t0: ResultsTable, t1: ResultsTable, t2: ResultsTable, cap: int)
    requires
        t0.wf(),
        t1.wf(),
        t0.rows_spec().len() > 0,
        is_resorted(t0, t1, flipped(t0.sort_spec()), cap),
        is_resorted(t1, t2, flipped(t1.sort_spec()), cap),
    ensures
        t2.sort_spec() == t0.sort_spec(),
        t2.rows_spec() == t0.rows_spec(),
        t2.current_code() == t0.current_code(),
{
    assert(flipped(flipped(t0.sort_spec())) == t0.sort_spec());
    lemma_sorted_rows_unique(t0.db_spec(), t0.codes_spec(), t0.sort_spec(), t0.rows_spec(), t2.rows_spec());
    lemma_resort_keeps_selected_stock(t0, t1, flipped(t0.sort_spec()), cap);
    lemma_resort_keeps_selected_stock(t1, t2, flipped(t1.sort_spec()), cap);
}

} // verus!

verus! {

/// Law: each sort field orders stocks by the metric it is named after.
pub proof fn lemma_sort_keys_are_named_metrics(s: StockKeys)
    ensures
        field_key(SortField::LastPrice, s) == s.last_price,
        field_key(SortField::PrevClose, s) == s.prev_close,
        field_key(SortField::OpenPrice, s) == s.open_price,
        field_key(SortField::Change, s) == s.change,
        field_key(SortField::DayHigh, s) == s.day_high,
        field_key(SortField::DayLow, s) == s.day_low,
        field_key(SortField::Turnover, s) == s.turnover,
        field_key(SortField::Amplitude, s) == s.amplitude,
        field_key(SortField::TotalMarket, s) == s.total_market,
{
}

/// Law: sorted by Day High, largest first, the rows have non-increasing day
/// highs; sorted by Day Low, largest first, non-increasing day lows.
pub proof fn lemma_day_range_sort(db: Seq<StockKeys>, codes: Seq<String>, rows: Seq<usize>)
    ensures
        is_sorted_rows(db, codes, SortState { field: SortField::DayHigh, descending: true }, rows) ==> forall|
            i: int,
            j: int,
        | #![trigger rows[i], rows[j]]
            0 <= i < j < rows.len() ==> db[rows[i] as int].day_high >= db[rows[j] as int].day_high,
        is_sorted_rows(db, codes, SortState { field: SortField::DayLow, descending: true }, rows) ==> forall|
            i: int,
            j: int,
        | #![trigger rows[i], rows[j]]
            0 <= i < j < rows.len() ==> db[rows[i] as int].day_low >= db[rows[j] as int].day_low,
{
    let high = SortState { field: SortField::DayHigh, descending: true };
    let low = SortState { field: SortField::DayLow, descending: true };
    if is_sorted_rows(db, codes, high, rows) {
        lemma_rows_in_sort_order(db, codes, high, rows);
    }
    if is_sorted_rows(db, codes, low, rows) {
        lemma_rows_in_sort_order(db, codes, low, rows);
    }
}

/// Law: the header columns, left to right: name, code, a divider, then the
/// nine metrics in table order, each labelled by and sorting by its metric;
/// a column is marked as sorted exactly when its metric is the sort field.
pub proof fn lemma_columns_show_named_metrics(s: StockKeys, sort: SortState)
    ensures
        column_field(0) is None && header_text(0, sort) == "Stock Name"@,
        column_field(1) is None && header_text(1, sort) == "Code"@,
        column_field(2) is None && header_text(2, sort) == ""@,
        column_field(3) matches Some(f) && field_label(f) == "Last Price"@ && field_key(f, s) == s.last_price,
        column_field(4) matches Some(f) && field_label(f) == "Prev Close"@ && field_key(f, s) == s.prev_close,
        column_field(5) matches Some(f) && field_label(f) == "Open Price"@ && field_key(f, s) == s.open_price,
        column_field(6) matches Some(f) && field_label(f) == "Change (%)"@ && field_key(f, s) == s.change,
        column_field(7) matches Some(f) && field_label(f) == "Day High"@ && field_key(f, s) == s.day_high,
        column_field(8) matches Some(f) && field_label(f) == "Day Low"@ && field_key(f, s) == s.day_low,
        column_field(9) matches Some(f) && field_label(f) == "Turnover"@ && field_key(f, s) == s.turnover,
        column_field(10) matches Some(f) && field_label(f) == "Amplitude"@ && field_key(f, s) == s.amplitude,
        column_field(11) matches Some(f) && field_label(f) == "Total Market"@ && field_key(f, s) == s.total_market,
        forall|c: int| 3 <= c < 11 ==> (#[trigger] column_field(c + 1)) == Some(field_next(column_field(c)->0)),
        forall|c: int| 3 <= c < RESULT_COLUMNS ==> (#[trigger] header_text(c, sort)) == if column_field(c)
            == Some(sort.field) {
            direction_icon_spec(sort) + " "@ + field_label(sort.field)
        } else {
            field_label(column_field(c)->0)
        },
{
    assert forall|c: int| 3 <= c < 11 implies (#[trigger] column_field(c + 1)) == Some(
        field_next(column_field(c)->0),
    ) by {
        if c == 3 {
        } else if c == 4 {
        } else if c == 5 {
        } else if c == 6 {
        } else if c == 7 {
        } else if c == 8 {
        } else if c == 9 {
        } else {
        }
    }
}

} // verus!

verus! {

/// Law: the table shows the rows that fit between its borders and header
/// (three lines), and at least one.
pub proof fn lemma_capacity_leaves_three_lines(height: u16)
    ensures
        height >= 4 ==> capacity_for_height_spec(height) == height - 3,
        height < 4 ==> capacity_for_height_spec(height) == 1,
{
}

/// Law: where each navigation key moves the selection on a table of `total`
/// rows: Down/`j` to the next row (the last wraps to the first), Up/`k` to the
/// previous one (the first wraps to the last), PageDown `cap` rows down
/// stopping at the last, PageUp `cap` rows up stopping at the first, Home to
/// the first and End to the last.
pub proof fn lemma_navigation_targets(sel: int, off: int, total: int, cap: int)
    requires
        0 <= off <= sel < total,
        cap >= 1,
    ensures
        nav_down(sel, off, total, cap).0 == (if sel + 1 < total { sel + 1 } else { 0 }),
        nav_up(sel, off, total, cap).0 == (if sel > 0 { sel - 1 } else { total - 1 }),
        nav_page_down(sel, off, total, cap).0 == (if sel + cap < total - 1 { sel + cap } else { total - 1 }),
        nav_page_up(sel, off, cap).0 == (if sel >= cap { sel - cap } else { 0 }),
        nav_end(total, cap).0 == total - 1,
        navigate(Key { code: KeyCode::Home, ctrl: false }, sel, off, total, cap) == Some((0int, 0int)),
{
    if sel + 1 < total {
        vstd::arithmetic::div_mod::lemma_small_mod((sel + 1) as nat, total as nat);
    } else {
        vstd::arithmetic::div_mod::lemma_mod_self_0(total);
    }
}

} // verus!

verus! {

/// Law: the sorted column's arrow points down when the largest values come
/// first and up otherwise; the table starts sorted by last price, largest first.
pub proof fn lemma_direction_arrow(sort: SortState)
    ensures
        sort.descending ==> direction_icon_spec(sort) == "↓"@,
        !sort.descending ==> direction_icon_spec(sort) == "↑"@,
        SortState::new_spec().field == SortField::LastPrice && SortState::new_spec().descending,
{
}

} // verus!
