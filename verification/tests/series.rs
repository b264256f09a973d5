use stock_cli::series::{compress_to_width, compute_date_ticks, date_tick_count, filter_history, DateLabel};

#[test]
fn window_keeps_recent_samples() {
    let stamps: Vec<i128> = vec![10, 20, 30, 40];
    assert_eq!(filter_history(&stamps, 25), vec![2, 3]);
    assert_eq!(filter_history(&stamps, 10), vec![0, 1, 2, 3]);
}

#[test]
fn window_falls_back_to_whole_history() {
    let stamps: Vec<i128> = vec![10, 20, 30, 40];
    assert_eq!(filter_history(&stamps, 35), vec![0, 1, 2, 3]);
    assert_eq!(filter_history(&stamps, 100), vec![0, 1, 2, 3]);
    assert!(filter_history(&Vec::new(), 0).is_empty());
}

#[test]
fn short_series_is_not_compressed() {
    assert_eq!(compress_to_width(6, 3), None);
    assert_eq!(compress_to_width(0, 0), None);
    assert_eq!(compress_to_width(2, 0), None);
}

#[test]
fn long_series_is_merged_in_chunks() {
    assert_eq!(compress_to_width(10, 3), Some(vec![(0, 2), (2, 4), (4, 6), (6, 8), (8, 10)]));
    assert_eq!(compress_to_width(5, 0), Some(vec![(0, 3), (3, 5)]));
    let chunks = compress_to_width(1000, 40).unwrap();
    assert!(chunks.len() <= 80);
    assert_eq!(chunks.first(), Some(&(0, 13)));
    assert_eq!(chunks.last(), Some(&(988, 1000)));
    for w in chunks.windows(2) {
        assert_eq!(w[0].1, w[1].0);
    }
}

#[test]
fn tick_count_is_clamped() {
    assert_eq!(date_tick_count(5, 10), 5);
    assert_eq!(date_tick_count(1, 10), 2);
    assert_eq!(date_tick_count(20, 10), 10);
    assert_eq!(date_tick_count(0, 2), 2);
}

#[test]
fn date_ticks_include_both_ends_once() {
    let ticks = compute_date_ticks(10, &vec![0, 3, 6, 9], 400);
    assert_eq!(
        ticks,
        vec![(0, DateLabel::Full), (3, DateLabel::YearMonth), (6, DateLabel::YearMonth), (9, DateLabel::Full)]
    );
    let short = compute_date_ticks(10, &vec![3, 3, 12], 100);
    assert_eq!(short, vec![(0, DateLabel::Full), (3, DateLabel::MonthDay), (9, DateLabel::Full)]);
}

#[test]
fn date_ticks_of_tiny_series() {
    assert!(compute_date_ticks(0, &vec![], 10).is_empty());
    assert_eq!(compute_date_ticks(1, &vec![0, 0], 10), vec![(0, DateLabel::Full)]);
    assert_eq!(compute_date_ticks(2, &vec![], 365), vec![(0, DateLabel::Full), (1, DateLabel::Full)]);
}
