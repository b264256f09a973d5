use stock_cli::chart::ChartState;
use stock_cli::navigation::{Key, KeyCode};
use stock_cli::results::{
    build_sorted_rows, capacity_for_height, header_cells, ResultsStep, ResultsTable, SortField, SortState, StockKeys,
};

fn plain(code: KeyCode) -> Key {
    Key { code, ctrl: false }
}

fn stock(code: &str, last_price: i64, prev_close: i64) -> StockKeys {
    StockKeys {
        code: code.to_string(),
        market: "CN".to_string(),
        last_price,
        prev_close,
        open_price: 0,
        change: 0,
        day_high: 0,
        day_low: 0,
        turnover: 0,
        amplitude: 0,
        total_market: 0,
    }
}

fn codes(list: &[&str]) -> Vec<String> {
    list.iter().map(|c| c.to_string()).collect()
}

fn sample_db() -> Vec<StockKeys> {
    vec![stock("A", 10, 3), stock("B", 30, 1), stock("C", 20, 2)]
}

#[test]
fn default_sort_is_last_price_descending() {
    let sort = SortState::new();
    assert_eq!(sort.field, SortField::LastPrice);
    assert!(sort.descending);
    assert_eq!(sort.direction_icon(), "↓");
    let rows = build_sorted_rows(&sample_db(), &codes(&["A", "B", "C"]), sort);
    assert_eq!(rows, vec![1, 2, 0]);
}

#[test]
fn ascending_sort_and_other_field() {
    let db = sample_db();
    let asc = SortState { field: SortField::LastPrice, descending: false };
    assert_eq!(asc.direction_icon(), "↑");
    assert_eq!(build_sorted_rows(&db, &codes(&["A", "B", "C"]), asc), vec![0, 2, 1]);
    let prev = SortState { field: SortField::PrevClose, descending: false };
    assert_eq!(build_sorted_rows(&db, &codes(&["A", "B", "C"]), prev), vec![1, 2, 0]);
}

#[test]
fn unknown_codes_are_skipped() {
    let rows = build_sorted_rows(&sample_db(), &codes(&["C", "X", "A"]), SortState::new());
    assert_eq!(rows, vec![2, 0]);
    let none = build_sorted_rows(&sample_db(), &codes(&[]), SortState::new());
    assert!(none.is_empty());
}

#[test]
fn equal_values_are_ordered_by_code() {
    let db = vec![stock("B", 10, 0), stock("A", 10, 0), stock("C", 5, 0)];
    let asc = SortState { field: SortField::LastPrice, descending: false };
    assert_eq!(build_sorted_rows(&db, &codes(&["B", "A", "C"]), asc), vec![2, 1, 0]);
    assert_eq!(build_sorted_rows(&db, &codes(&["B", "A", "C"]), SortState::new()), vec![0, 1, 2]);
}

#[test]
fn sort_field_cycle_and_labels() {
    let mut f = SortField::LastPrice;
    let mut labels = Vec::new();
    for _ in 0..9 {
        labels.push(f.label());
        f = f.next();
    }
    assert_eq!(f, SortField::LastPrice);
    assert_eq!(
        labels,
        vec![
            "Last Price", "Prev Close", "Open Price", "Change (%)", "Day High", "Day Low", "Turnover", "Amplitude",
            "Total Market"
        ]
    );
    let mut s = SortState::new();
    s.cycle_field();
    assert_eq!(s.field, SortField::PrevClose);
    s.toggle_direction();
    assert!(!s.descending);
}

#[test]
fn header_marks_sorted_column() {
    let cells = header_cells(SortState::new());
    assert_eq!(cells.len(), 12);
    assert_eq!(cells[0], ("Stock Name".to_string(), false));
    assert_eq!(cells[1], ("Code".to_string(), false));
    assert_eq!(cells[2], ("".to_string(), false));
    assert_eq!(cells[3], ("↓ Last Price".to_string(), true));
    assert_eq!(cells[4], ("Prev Close".to_string(), false));
    assert_eq!(cells[11], ("Total Market".to_string(), false));
    let asc = header_cells(SortState { field: SortField::Turnover, descending: false });
    assert_eq!(asc[9], ("↑ Turnover".to_string(), true));
    assert_eq!(asc[3], ("Last Price".to_string(), false));
}

#[test]
fn capacity_leaves_room_for_borders() {
    assert_eq!(capacity_for_height(10), 7);
    assert_eq!(capacity_for_height(4), 1);
    assert_eq!(capacity_for_height(3), 1);
    assert_eq!(capacity_for_height(0), 1);
}

#[test]
fn table_navigation_wraps_and_scrolls() {
    let mut table = ResultsTable::new(sample_db(), codes(&["A", "B", "C"]));
    let mut chart: ChartState<Vec<i64>, u8> = ChartState::new();
    assert_eq!(table.rows(), &vec![1, 2, 0]);
    assert_eq!(table.selected(), 0);
    assert_eq!(table.handle_key(plain(KeyCode::Down), 2, &mut chart), ResultsStep::Continue);
    assert_eq!((table.selected(), table.offset()), (1, 0));
    assert_eq!(table.handle_key(plain(KeyCode::Char('j')), 2, &mut chart), ResultsStep::Continue);
    assert_eq!((table.selected(), table.offset()), (2, 1));
    assert_eq!(table.handle_key(plain(KeyCode::Down), 2, &mut chart), ResultsStep::Continue);
    assert_eq!((table.selected(), table.offset()), (0, 0));
    assert_eq!(table.handle_key(plain(KeyCode::Up), 2, &mut chart), ResultsStep::Continue);
    assert_eq!((table.selected(), table.offset()), (2, 1));
    assert_eq!(table.handle_key(plain(KeyCode::Home), 2, &mut chart), ResultsStep::Continue);
    assert_eq!((table.selected(), table.offset()), (0, 0));
    assert_eq!(table.handle_key(plain(KeyCode::End), 2, &mut chart), ResultsStep::Continue);
    assert_eq!((table.selected(), table.offset()), (2, 1));
    assert_eq!(table.visible_end(2), 3);
    assert_eq!(table.handle_key(plain(KeyCode::PageUp), 2, &mut chart), ResultsStep::Continue);
    assert_eq!((table.selected(), table.offset()), (0, 0));
    assert_eq!(table.handle_key(plain(KeyCode::PageDown), 2, &mut chart), ResultsStep::Continue);
    assert_eq!((table.selected(), table.offset()), (2, 1));
    assert_eq!(table.handle_key(plain(KeyCode::Esc), 2, &mut chart), ResultsStep::Exit);
    assert_eq!(table.handle_key(Key { code: KeyCode::Char('c'), ctrl: true }, 2, &mut chart), ResultsStep::Exit);
}

#[test]
fn fit_clamps_offset_to_table() {
    let mut table = ResultsTable::new(sample_db(), codes(&["A", "B", "C"]));
    let mut chart: ChartState<Vec<i64>, u8> = ChartState::new();
    table.handle_key(plain(KeyCode::End), 1, &mut chart);
    assert_eq!((table.selected(), table.offset()), (2, 2));
    table.fit(5);
    assert_eq!((table.selected(), table.offset()), (2, 0));
    assert_eq!(table.visible_end(5), 3);
}

#[test]
fn resort_keeps_selected_stock() {
    let mut table = ResultsTable::new(sample_db(), codes(&["A", "B", "C"]));
    let mut chart: ChartState<Vec<i64>, u8> = ChartState::new();
    table.handle_key(plain(KeyCode::Down), 3, &mut chart);
    let selected_code = table.database()[table.rows()[table.selected()]].code.clone();
    assert_eq!(selected_code, "C");
    assert_eq!(table.handle_key(plain(KeyCode::Char('d')), 3, &mut chart), ResultsStep::Continue);
    assert_eq!(table.rows(), &vec![0, 2, 1]);
    assert_eq!(table.database()[table.rows()[table.selected()]].code, "C");
    assert_eq!(table.handle_key(plain(KeyCode::Char('s')), 3, &mut chart), ResultsStep::Continue);
    assert_eq!(table.sort(), SortState { field: SortField::PrevClose, descending: false });
    assert_eq!(table.rows(), &vec![1, 2, 0]);
    assert_eq!(table.database()[table.rows()[table.selected()]].code, "C");
}

#[test]
fn enter_opens_chart_and_cycles_timeframes() {
    let mut table = ResultsTable::new(sample_db(), codes(&["A", "B", "C"]));
    let mut chart: ChartState<Vec<i64>, u8> = ChartState::new();
    assert_eq!(table.focus_chart(&mut chart), None);
    assert_eq!(table.handle_key(plain(KeyCode::Enter), 3, &mut chart), ResultsStep::Prepare(1));
    assert!(chart.is_shown());
    assert_eq!(chart.timeframe_index(), 0);
    assert_eq!(table.focus_chart(&mut chart), Some(1));
    assert_eq!(table.handle_key(plain(KeyCode::Down), 3, &mut chart), ResultsStep::Prepare(2));
    assert_eq!(table.handle_key(plain(KeyCode::Enter), 3, &mut chart), ResultsStep::Continue);
    assert_eq!(chart.timeframe_index(), 1);
    assert_eq!(table.handle_key(plain(KeyCode::Char('l')), 3, &mut chart), ResultsStep::Continue);
    assert_eq!(chart.timeframe_index(), 2);
    assert_eq!(table.handle_key(plain(KeyCode::Left), 3, &mut chart), ResultsStep::Continue);
    assert_eq!(table.handle_key(plain(KeyCode::Char('h')), 3, &mut chart), ResultsStep::Continue);
    assert_eq!(table.handle_key(plain(KeyCode::Char('h')), 3, &mut chart), ResultsStep::Continue);
    assert_eq!(chart.timeframe_index(), 4);
    assert_eq!(table.handle_key(plain(KeyCode::Char('s')), 3, &mut chart), ResultsStep::Prepare(2));
    assert_eq!(table.handle_key(plain(KeyCode::Char('x')), 3, &mut chart), ResultsStep::Continue);
    assert!(!chart.is_shown());
    assert_eq!(table.handle_key(plain(KeyCode::Right), 3, &mut chart), ResultsStep::Continue);
    assert_eq!(chart.timeframe_index(), 4);
}

#[test]
fn page_keys_do_not_refresh_chart_without_moving() {
    let mut table = ResultsTable::new(sample_db(), codes(&["A", "B", "C"]));
    let mut chart: ChartState<Vec<i64>, u8> = ChartState::new();
    table.handle_key(plain(KeyCode::Enter), 3, &mut chart);
    assert_eq!(table.handle_key(plain(KeyCode::PageUp), 3, &mut chart), ResultsStep::Continue);
    assert_eq!(table.handle_key(plain(KeyCode::PageDown), 3, &mut chart), ResultsStep::Prepare(0));
    assert_eq!(table.handle_key(plain(KeyCode::PageDown), 3, &mut chart), ResultsStep::Continue);
}

#[test]
fn empty_table_ignores_navigation_and_clears_chart_focus() {
    let mut table = ResultsTable::new(sample_db(), codes(&["Z"]));
    let mut chart: ChartState<Vec<i64>, u8> = ChartState::new();
    assert!(table.rows().is_empty());
    assert_eq!(table.handle_key(plain(KeyCode::Enter), 3, &mut chart), ResultsStep::Continue);
    assert!(!chart.is_shown());
    assert_eq!(table.handle_key(plain(KeyCode::Down), 3, &mut chart), ResultsStep::Continue);
    assert_eq!(table.selected(), 0);
    chart.show_panel();
    chart.prepare_history("CN", "A", None);
    assert_eq!(table.focus_chart(&mut chart), None);
    assert_eq!(chart.last_error("CN", "A"), None);
}

#[test]
fn footer_counts_rows_from_one() {
    let mut table = ResultsTable::new(sample_db(), codes(&["A", "B", "C"]));
    let mut chart: ChartState<Vec<i64>, u8> = ChartState::new();
    assert_eq!(
        table.footer_text(2, false),
        "Row 1/3 • 1-2 of 3 • Sort: ↓ Last Price • s next • d flip • ↑/↓ move • PgUp/PgDn page • Home/End jump • Enter chart • Esc back"
    );
    table.handle_key(plain(KeyCode::End), 2, &mut chart);
    assert_eq!(
        table.footer_text(2, true),
        "Row 3/3 • 2-3 of 3 • Sort: ↓ Last Price • s next • d flip • ↑/↓ move • PgUp/PgDn page • Home/End jump • Enter/←/→/h/l timeframe • X close • Esc back"
    );
    let empty = ResultsTable::new(sample_db(), codes(&[]));
    assert_eq!(empty.footer_text(5, false), "No rows • Sort: ↓ Last Price • s next • d flip • Esc back");
}

#[test]
fn footer_writes_multi_digit_counts() {
    let db: Vec<StockKeys> = (0..125).map(|i| stock(&format!("S{:03}", i), i, 0)).collect();
    let list: Vec<String> = (0..125).map(|i| format!("S{:03}", i)).collect();
    let mut table = ResultsTable::new(db, list);
    let mut chart: ChartState<Vec<i64>, u8> = ChartState::new();
    table.handle_key(plain(KeyCode::End), 10, &mut chart);
    assert!(table.footer_text(10, false).starts_with("Row 125/125 • 116-125 of 125 • Sort: ↓ Last Price"));
}

#[test]
fn flipping_twice_restores_rows_and_selection() {
    let db = vec![stock("B", 10, 0), stock("A", 10, 0), stock("C", 5, 0), stock("D", 7, 0)];
    let mut table = ResultsTable::new(db, codes(&["B", "A", "C", "D"]));
    let mut chart: ChartState<Vec<i64>, u8> = ChartState::new();
    table.handle_key(plain(KeyCode::Down), 2, &mut chart);
    let rows_before = table.rows().clone();
    let code_before = table.database()[table.rows()[table.selected()]].code.clone();
    table.handle_key(plain(KeyCode::Char('d')), 2, &mut chart);
    assert_eq!(table.rows(), &vec![2, 3, 1, 0]);
    table.handle_key(plain(KeyCode::Char('d')), 2, &mut chart);
    assert_eq!(table.rows(), &rows_before);
    assert_eq!(table.database()[table.rows()[table.selected()]].code, code_before);
}

#[test]
fn every_key_keeps_selection_visible() {
    let db: Vec<StockKeys> = (0..9).map(|i| stock(&format!("S{}", i), i, 9 - i)).collect();
    let list: Vec<String> = (0..9).map(|i| format!("S{}", i)).collect();
    let mut table = ResultsTable::new(db, list);
    let mut chart: ChartState<Vec<i64>, u8> = ChartState::new();
    let keys = [
        KeyCode::Up, KeyCode::Up, KeyCode::PageUp, KeyCode::Char('s'), KeyCode::Down, KeyCode::End,
        KeyCode::Char('d'), KeyCode::PageDown, KeyCode::Home, KeyCode::Char('k'), KeyCode::Char('j'),
        KeyCode::Down, KeyCode::Char('s'), KeyCode::PageUp,
    ];
    for code in keys {
        table.handle_key(plain(code), 3, &mut chart);
        let (sel, off) = (table.selected(), table.offset());
        assert!(sel < table.rows().len());
        assert!(off <= sel && sel < off + 3);
    }
}
