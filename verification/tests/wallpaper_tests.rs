use expression::wallpaper::{
    get_collections, get_special_items, get_wallpaper_items, get_wallpapers, EntryKind, ScanEntry,
    ScanError,
};

fn file_entry(dir: &str, name: &str) -> ScanEntry {
    let (stem, extension) = match name.rfind('.') {
        Some(i) => (name[..i].to_string(), Some(name[i + 1..].to_string())),
        None => (name.to_string(), None),
    };
    ScanEntry {
        path: format!("{}/{}", dir, name),
        stem,
        extension,
        kind: EntryKind::File,
    }
}

fn dir_entry(dir: &str, name: &str) -> ScanEntry {
    ScanEntry {
        path: format!("{}/{}", dir, name),
        stem: name.to_string(),
        extension: None,
        kind: EntryKind::Directory,
    }
}

fn exts(list: &[&str]) -> Vec<String> {
    list.iter().map(|e| e.to_string()).collect()
}

#[test]
fn wallpaper_tests_test_get_wallpapers() {
    let test_dir = "/tmp/test_get_wallpapers";
    let entries = vec![
        file_entry(test_dir, "wall1.jpg"),
        file_entry(test_dir, "wall2.png"),
        file_entry(test_dir, "ignore.txt"),
    ];

    let wallpapers = get_wallpapers(&entries, &exts(&["jpg", "png"])).unwrap();

    assert_eq!(wallpapers.len(), 2, "Expected 2 wallpapers");
    assert!(wallpapers.iter().any(|p| p.ends_with("wall1.jpg")));
    assert!(wallpapers.iter().any(|p| p.ends_with("wall2.png")));
}

#[test]
fn wallpaper_tests_test_get_wallpapers_empty() {
    let entries: Vec<ScanEntry> = Vec::new();

    let result = get_wallpapers(&entries, &exts(&["jpg", "png"]));

    assert!(
        result.is_err(),
        "Expected an error for empty wallpaper directory"
    );
    assert_eq!(result.unwrap_err(), ScanError::Empty);
}

#[test]
fn wallpaper_tests_test_get_collections() {
    let test_dir = "/tmp/test_get_collections";
    let entries = vec![
        file_entry(test_dir, "file1.jpg"),
        dir_entry(test_dir, "A_collection"),
        dir_entry(test_dir, "B_collection"),
        dir_entry(test_dir, "12"),
    ];

    let collections = get_collections(&entries);

    assert_eq!(collections.len(), 2, "Expected 2 valid collections");
    assert!(collections.iter().any(|p| p.ends_with("A_collection")));
    assert!(collections.iter().any(|p| p.ends_with("B_collection")));
}

#[test]
fn wallpaper_tests_test_get_collections_empty() {
    let entries: Vec<ScanEntry> = Vec::new();

    let result = get_collections(&entries);

    assert!(
        result.is_empty(),
        "Expected no collections in an empty directory"
    );
}

#[test]
fn test_get_wallpaper_entries() {
    let test_dir = "/tmp/test_get_wallpaper_entries";
    let entries = vec![
        file_entry(test_dir, "00.jpg"),
        file_entry(test_dir, "12.png"),
        file_entry(test_dir, "23.jpeg"),
        dir_entry(test_dir, "10"),
        dir_entry(test_dir, "20"),
    ];

    let items = get_wallpaper_items(&entries, &exts(&["jpg", "png"]), None).unwrap();

    assert_eq!(
        items.buckets.len(),
        4,
        "Expected 4 wallpaper entries (files & dirs)"
    );
}

#[test]
fn test_get_wallpaper_entries_with_filter() {
    let test_dir = "/tmp/test_get_wallpaper_entries_filter";
    let entries = vec![
        file_entry(test_dir, "00.jpg"),
        file_entry(test_dir, "12.png"),
        file_entry(test_dir, "23.jpg"),
    ];

    let items = get_wallpaper_items(&entries, &exts(&["jpg", "png"]), Some(12)).unwrap();

    assert_eq!(
        items.buckets.len(),
        2,
        "Expected 2 wallpapers after filtering by hour"
    );
}

#[test]
fn test_get_special_items_by_name() {
    let test_dir = "/tmp/test_special_items";
    let entries = vec![
        file_entry(test_dir, "birthday.png"),
        dir_entry(test_dir, "rainy"),
        file_entry(test_dir, "notes.txt"),
    ];

    let special = get_special_items(&entries, &exts(&["jpg", "png"])).unwrap();

    // "notes" is no bucket: its extension is unsupported.
    assert_eq!(special.buckets.len(), 2);
    assert!(special.get(&"birthday".to_string()).is_some());
    assert!(special.get(&"rainy".to_string()).is_some());
    assert!(special.get(&"notes".to_string()).is_none());
}

#[test]
fn test_get_special_items_keys_sorted() {
    let test_dir = "/tmp/test_special_sorted";
    let entries = vec![
        file_entry(test_dir, "zebra.png"),
        file_entry(test_dir, "apple.png"),
        dir_entry(test_dir, "mango"),
    ];

    let special = get_special_items(&entries, &exts(&["jpg", "png"])).unwrap();

    let names: Vec<String> = special.buckets.iter().map(|b| b.0.clone()).collect();
    assert_eq!(names, vec!["apple", "mango", "zebra"]);
}

#[test]
fn test_get_special_items_empty() {
    let test_dir = "/tmp/test_special_empty";
    let entries = vec![file_entry(test_dir, "readme.md")];

    let result = get_special_items(&entries, &exts(&["jpg", "png"]));

    match result {
        Err(e) => assert_eq!(e, ScanError::Empty),
        Ok(_) => panic!("expected an empty override collection to be an error"),
    }
}

#[test]
fn test_get_special_items_same_name_group_first() {
    let test_dir = "/tmp/test_special_same_name";
    let entries = vec![
        file_entry(test_dir, "holiday.png"),
        dir_entry(test_dir, "holiday"),
    ];

    let special = get_special_items(&entries, &exts(&["jpg", "png"])).unwrap();
    let bucket = special.get(&"holiday".to_string()).unwrap();
    assert_eq!(bucket.len(), 2);
    assert!(matches!(
        bucket[0],
        expression::wallpaper::WallpaperItem::Group(_)
    ));
}
