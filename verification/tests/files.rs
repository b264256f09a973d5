use stock_cli::files::{list_csv_files, list_files_with_extension, list_json_files, DirEntryInfo, EntryMetadata};

fn entry(name: &str, ext: Option<&str>, modified: Option<i128>, size: u64) -> DirEntryInfo {
    DirEntryInfo {
        name: Some(name.to_string()),
        extension: ext.map(|e| e.to_string()),
        path: format!("/data/{}", name),
        metadata: Some(EntryMetadata { modified, size }),
    }
}

fn sample_listing() -> Vec<DirEntryInfo> {
    vec![
        entry("old.csv", Some("csv"), Some(100), 10),
        entry("notes.txt", Some("txt"), Some(500), 1),
        entry("new.csv", Some("csv"), Some(300), 20),
        entry("preset.json", Some("json"), Some(200), 5),
        entry("mid.csv", Some("csv"), Some(200), 30),
        entry("README", None, Some(900), 2),
        entry("upper.CSV", Some("CSV"), Some(950), 3),
    ]
}

#[test]
fn csv_listing_is_filtered_and_newest_first() {
    let files = list_csv_files(&sample_listing());
    let names: Vec<&str> = files.iter().map(|f| f.name.as_str()).collect();
    assert_eq!(names, vec!["new.csv", "mid.csv", "old.csv"]);
    assert_eq!(files[0].path, "/data/new.csv");
    assert_eq!(files[0].modified, 300);
    assert_eq!(files[1].size, 30);
}

#[test]
fn json_listing_uses_its_extension() {
    let files = list_json_files(&sample_listing());
    assert_eq!(files.len(), 1);
    assert_eq!(files[0].name, "preset.json");
    assert_eq!(files[0].size, 5);
}

#[test]
fn unreadable_entries_are_skipped() {
    let mut listing = sample_listing();
    listing.push(DirEntryInfo {
        name: Some("broken.csv".to_string()),
        extension: Some("csv".to_string()),
        path: "/data/broken.csv".to_string(),
        metadata: None,
    });
    listing.push(DirEntryInfo {
        name: None,
        extension: Some("csv".to_string()),
        path: "/data/\u{fffd}.csv".to_string(),
        metadata: Some(EntryMetadata { modified: Some(999), size: 1 }),
    });
    let names: Vec<String> = list_csv_files(&listing).into_iter().map(|f| f.name).collect();
    assert_eq!(names, vec!["new.csv", "mid.csv", "old.csv"]);
}

#[test]
fn missing_times_count_as_epoch_and_ties_keep_directory_order() {
    let listing = vec![
        entry("b.csv", Some("csv"), Some(50), 1),
        entry("a.csv", Some("csv"), None, 1),
        entry("c.csv", Some("csv"), Some(50), 1),
        entry("d.csv", Some("csv"), Some(-5), 1),
    ];
    let files = list_files_with_extension(&listing, "csv");
    let names: Vec<&str> = files.iter().map(|f| f.name.as_str()).collect();
    assert_eq!(names, vec!["b.csv", "c.csv", "a.csv", "d.csv"]);
    assert_eq!(files[2].modified, 0);
}

#[test]
fn empty_listing_gives_no_files() {
    assert!(list_csv_files(&Vec::new()).is_empty());
    assert!(list_files_with_extension(&sample_listing(), "parquet").is_empty());
}
