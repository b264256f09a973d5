use stock_cli::layout::{centered_rect, Area, RestoreLatch};
use stock_cli::width::{column_widths, select_list_layout, SelectItem, SelectLine};

#[test]
fn centered_rect_takes_middle_percentages() {
    let r = Area { x: 0, y: 0, width: 100, height: 50 };
    assert_eq!(centered_rect(60, 40, r), Area { x: 20, y: 15, width: 60, height: 20 });
    let full = centered_rect(100, 100, r);
    assert_eq!(full, r);
}

#[test]
fn centered_rect_respects_offset_parent() {
    let r = Area { x: 10, y: 5, width: 40, height: 20 };
    assert_eq!(centered_rect(50, 50, r), Area { x: 20, y: 10, width: 20, height: 10 });
}

#[test]
fn restore_latch_fires_once() {
    let mut latch = RestoreLatch::new();
    assert!(latch.needs_restore());
    latch.mark_restored();
    assert!(!latch.needs_restore());
    latch.mark_restored();
    assert!(!latch.needs_restore());
}

#[test]
fn column_widths_pad_widest_cell() {
    let header = vec!["Name".to_string(), "Code".to_string()];
    let rows = vec![
        vec!["Alpha".to_string(), "1".to_string()],
        vec!["Be".to_string(), "12345".to_string()],
    ];
    assert_eq!(column_widths(&header, &rows), vec![7, 7]);
    assert_eq!(column_widths(&header, &vec![]), vec![6, 6]);
}

#[test]
fn column_widths_count_wide_characters_twice() {
    let header = vec!["N".to_string()];
    let rows = vec![vec!["贵州茅台".to_string()]];
    assert_eq!(column_widths(&header, &rows), vec![10]);
}

#[test]
fn select_list_pads_labels_and_fills_line() {
    let items = vec![
        SelectItem { label: "Load CSV".to_string(), description: "desc a".to_string() },
        SelectItem { label: "Quit".to_string(), description: "x".to_string() },
    ];
    let lines = select_list_layout(&items, 1, 40);
    assert_eq!(
        lines,
        vec![
            SelectLine { selected: false, label_pad: 0, fill: 19 },
            SelectLine { selected: true, label_pad: 4, fill: 24 },
        ]
    );
    let narrow = select_list_layout(&items, 0, 10);
    assert_eq!(narrow[0].fill, 0);
    assert!(narrow[0].selected);
}
