use stock_cli::chart::{
    cache_key, timeframe_days, timeframe_label, timeframe_legend, ChartState, FetchPoll, PrepareStep, TIMEFRAME_COUNT,
};

type Chart = ChartState<Vec<i64>, u32>;

#[test]
fn cache_key_joins_market_and_code() {
    assert_eq!(cache_key("CN", "600519"), "CN:600519");
    assert_eq!(cache_key("", ""), ":");
}

#[test]
fn timeframes_labels_and_days() {
    let labels: Vec<&str> = (0..TIMEFRAME_COUNT).map(timeframe_label).collect();
    assert_eq!(labels, vec!["1Y", "6M", "3M", "1M", "1W"]);
    let days: Vec<i64> = (0..TIMEFRAME_COUNT).map(timeframe_days).collect();
    assert_eq!(days, vec![364, 182, 91, 30, 7]);
}

#[test]
fn timeframes_wrap_both_ways() {
    let mut chart = Chart::new();
    assert_eq!(chart.timeframe_index(), 0);
    chart.prev_timeframe();
    assert_eq!(chart.timeframe_index(), 4);
    chart.next_timeframe();
    assert_eq!(chart.timeframe_index(), 0);
    for _ in 0..TIMEFRAME_COUNT {
        chart.next_timeframe();
    }
    assert_eq!(chart.timeframe_index(), 0);
}

#[test]
fn first_preparation_asks_for_a_fetch() {
    let mut chart = Chart::new();
    chart.show_panel();
    assert!(chart.is_shown());
    assert_eq!(chart.prepare_history("CN", "A", None), PrepareStep::StartFetch);
    assert!(chart.history_for("CN", "A").is_none());
    chart.begin_fetch("CN", "A", 7);
    assert_eq!(chart.pending_receiver("CN", "A"), Some(&7));
    assert_eq!(chart.prepare_history("CN", "A", Some(FetchPoll::Pending)), PrepareStep::Waiting);
    assert_eq!(chart.prepare_history("CN", "A", None), PrepareStep::Waiting);
}

#[test]
fn delivered_history_is_cached_and_read_back() {
    let mut chart = Chart::new();
    chart.prepare_history("CN", "A", None);
    chart.begin_fetch("CN", "A", 1);
    assert_eq!(chart.prepare_history("CN", "A", Some(FetchPoll::Ready(vec![1, 2, 3]))), PrepareStep::Fetched);
    assert_eq!(chart.history_for("CN", "A"), Some(&vec![1, 2, 3]));
    assert!(chart.pending_receiver("CN", "A").is_none());
    assert_eq!(chart.prepare_history("CN", "A", Some(FetchPoll::Ready(vec![9]))), PrepareStep::Cached);
    assert_eq!(chart.history_for("CN", "A"), Some(&vec![1, 2, 3]));
    assert!(chart.history_for("HK", "A").is_none());
}

#[test]
fn failed_fetch_is_shown_and_not_retried_while_focused() {
    let mut chart = Chart::new();
    chart.prepare_history("CN", "A", None);
    chart.begin_fetch("CN", "A", 1);
    assert_eq!(
        chart.prepare_history("CN", "A", Some(FetchPoll::Failed("timeout".to_string()))),
        PrepareStep::FetchFailed
    );
    assert_eq!(chart.last_error("CN", "A"), Some("timeout"));
    assert_eq!(chart.last_error("CN", "B"), None);
    assert_eq!(chart.prepare_history("CN", "A", None), PrepareStep::Blocked);
    assert_eq!(chart.last_error("CN", "A"), Some("timeout"));
    assert_eq!(chart.prepare_history("CN", "B", None), PrepareStep::StartFetch);
    assert_eq!(chart.last_error("CN", "B"), None);
    assert_eq!(chart.prepare_history("CN", "A", None), PrepareStep::StartFetch);
}

#[test]
fn disconnected_fetch_records_message() {
    let mut chart = Chart::new();
    chart.prepare_history("CN", "A", None);
    chart.begin_fetch("CN", "A", 1);
    assert_eq!(chart.prepare_history("CN", "A", Some(FetchPoll::Disconnected)), PrepareStep::FetchFailed);
    assert_eq!(chart.last_error("CN", "A"), Some("History fetch task ended unexpectedly"));
    chart.begin_fetch("CN", "A", 2);
    assert_eq!(chart.last_error("CN", "A"), None);
    assert_eq!(chart.pending_receiver("CN", "A"), Some(&2));
}

#[test]
fn hiding_and_clearing_forget_focus() {
    let mut chart = Chart::new();
    chart.show_panel();
    chart.next_timeframe();
    chart.prepare_history("CN", "A", None);
    chart.begin_fetch("CN", "A", 1);
    chart.prepare_history("CN", "A", Some(FetchPoll::Failed("boom".to_string())));
    chart.clear_active();
    assert!(chart.is_shown());
    assert_eq!(chart.last_error("CN", "A"), None);
    chart.prepare_history("CN", "A", Some(FetchPoll::Failed("again".to_string())));
    chart.hide_chart();
    assert!(!chart.is_shown());
    assert_eq!(chart.timeframe_index(), 1);
    assert_eq!(chart.last_error("CN", "A"), None);
    chart.show_panel();
    assert_eq!(chart.timeframe_index(), 0);
}

#[test]
fn legend_brackets_selected_timeframe() {
    assert_eq!(timeframe_legend(0), "[1Y]  6M  3M  1M  1W");
    assert_eq!(timeframe_legend(3), "1Y  6M  3M  [1M]  1W");
    assert_eq!(timeframe_legend(4), "1Y  6M  3M  1M  [1W]");
}

#[test]
fn default_chart_is_hidden_and_empty() {
    let chart: Chart = ChartState::default();
    assert!(!chart.is_shown());
    assert_eq!(chart.timeframe_index(), 0);
    assert!(chart.history_for("CN", "A").is_none());
    assert!(chart.pending_receiver("CN", "A").is_none());
    assert_eq!(chart.last_error("CN", "A"), None);
}

#[test]
fn panel_shows_history_error_or_loading() {
    let mut chart = Chart::new();
    assert!(matches!(chart.panel(None), stock_cli::chart::ChartPanel::NoStock));
    chart.prepare_history("CN", "A", None);
    assert!(matches!(chart.panel(Some(("CN", "A"))), stock_cli::chart::ChartPanel::Loading));
    chart.begin_fetch("CN", "A", 1);
    chart.prepare_history("CN", "A", Some(FetchPoll::Failed("timeout".to_string())));
    assert!(matches!(chart.panel(Some(("CN", "A"))), stock_cli::chart::ChartPanel::Failed("timeout")));
    assert!(matches!(chart.panel(Some(("CN", "B"))), stock_cli::chart::ChartPanel::Loading));
    chart.prepare_history("CN", "B", None);
    chart.begin_fetch("CN", "B", 2);
    chart.prepare_history("CN", "B", Some(FetchPoll::Ready(vec![4, 5])));
    match chart.panel(Some(("CN", "B"))) {
        stock_cli::chart::ChartPanel::History(h) => assert_eq!(h, &vec![4, 5]),
        _ => panic!("expected history"),
    }
}
