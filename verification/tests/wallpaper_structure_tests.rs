use expression::wallpaper::{
    get_collections, get_wallpaper_items, get_wallpapers, EntryKind, ScanEntry, WallpaperItem,
};

fn file_entry(dir: &str, name: &str) -> ScanEntry {
    let (stem, extension) = match name.rfind('.') {
        Some(i) => (name[..i].to_string(), Some(name[i + 1..].to_string())),
        None => (name.to_string(), None),
    };
    ScanEntry {
        path: format!("{}/{}", dir, name),
        stem,
        extension,
        kind: EntryKind::File,
    }
}

fn dir_entry(dir: &str, name: &str) -> ScanEntry {
    ScanEntry {
        path: format!("{}/{}", dir, name),
        stem: name.to_string(),
        extension: None,
        kind: EntryKind::Directory,
    }
}

fn exts(list: &[&str]) -> Vec<String> {
    list.iter().map(|e| e.to_string()).collect()
}

#[test]
fn wallpaper_structure_tests_test_get_wallpapers() {
    let test_dir = "/tmp/test_get_wallpapers";
    let entries = vec![
        file_entry(test_dir, "wall1.jpg"),
        file_entry(test_dir, "wall2.png"),
        file_entry(test_dir, "ignore.txt"),
    ];

    let wallpapers = get_wallpapers(&entries, &exts(&["jpg", "png"])).unwrap();

    assert_eq!(wallpapers.len(), 2, "Expected 2 wallpapers");
    assert!(wallpapers.iter().any(|p| p.ends_with("wall1.jpg")));
    assert!(wallpapers.iter().any(|p| p.ends_with("wall2.png")));
}

#[test]
fn wallpaper_structure_tests_test_get_wallpapers_empty() {
    let entries: Vec<ScanEntry> = Vec::new();

    let result = get_wallpapers(&entries, &exts(&["jpg", "png"]));

    assert!(
        result.is_err(),
        "Expected an error for empty wallpaper directory"
    );
}

#[test]
fn wallpaper_structure_tests_test_get_collections() {
    let test_dir = "/tmp/test_get_collections";
    let entries = vec![
        file_entry(test_dir, "file1.jpg"),
        dir_entry(test_dir, "A_collection"),
        dir_entry(test_dir, "B_collection"),
        dir_entry(test_dir, "12"),
    ];

    let collections = get_collections(&entries);

    assert_eq!(collections.len(), 2, "Expected 2 valid collections");
    assert!(collections.iter().any(|p| p.ends_with("A_collection")));
    assert!(collections.iter().any(|p| p.ends_with("B_collection")));
}

#[test]
fn wallpaper_structure_tests_test_get_collections_empty() {
    let entries: Vec<ScanEntry> = Vec::new();

    let result = get_collections(&entries);

    assert!(
        result.is_empty(),
        "Expected no collections in an empty directory"
    );
}

#[test]
fn test_get_wallpaper_items() {
    let test_dir = "/tmp/test_get_wallpaper_items";
    let entries = vec![
        file_entry(test_dir, "00.jpg"),
        file_entry(test_dir, "12.png"),
        file_entry(test_dir, "23.jpeg"),
        dir_entry(test_dir, "10"),
        dir_entry(test_dir, "20"),
    ];

    let items = get_wallpaper_items(&entries, &exts(&["jpg", "png"]), None).unwrap();

    assert_eq!(
        items.buckets.len(),
        4,
        "Expected 4 wallpaper items (files & dirs)"
    );
}

#[test]
fn test_get_wallpaper_items_with_filter() {
    let test_dir = "/tmp/test_get_wallpaper_items_filter";
    let entries = vec![
        file_entry(test_dir, "00.jpg"),
        file_entry(test_dir, "12.png"),
        file_entry(test_dir, "23.jpg"),
    ];

    let items = get_wallpaper_items(&entries, &exts(&["jpg", "png"]), Some(12)).unwrap();

    assert_eq!(
        items.buckets.len(),
        2,
        "Expected 2 wallpapers after filtering by hour"
    );
}

#[test]
fn test_group_listed_after_file_still_comes_first() {
    // A directory and a file for the same hour, the file scanned first: the
    // group still stands before the entry in the bucket.
    let test_dir = "/tmp/test_group_before_entry";
    let entries = vec![
        file_entry(test_dir, "09.jpg"),
        dir_entry(test_dir, "09"),
    ];

    let items = get_wallpaper_items(&entries, &exts(&["jpg", "png"]), None).unwrap();
    assert_eq!(items.buckets.len(), 1);

    let bucket = items.get(9).expect("hour 9 should have a bucket");
    assert_eq!(bucket.len(), 2);
    assert!(matches!(bucket[0], WallpaperItem::Group(_)));
    assert!(matches!(bucket[1], WallpaperItem::Entry(_)));
}

#[test]
fn test_hour_map_keys_ascend_and_get_finds_buckets() {
    let test_dir = "/tmp/test_hour_map_keys";
    let entries = vec![
        file_entry(test_dir, "23.png"),
        file_entry(test_dir, "07.jpg"),
        dir_entry(test_dir, "15"),
    ];

    let items = get_wallpaper_items(&entries, &exts(&["jpg", "png"]), None).unwrap();

    let hours: Vec<u8> = items.buckets.iter().map(|b| b.0).collect();
    assert_eq!(hours, vec![7, 15, 23]);
    assert!(items.get(7).is_some());
    assert!(items.get(15).is_some());
    assert!(items.get(8).is_none());
}

#[test]
fn test_hour_map_ignores_invalid_names() {
    let test_dir = "/tmp/test_hour_map_invalid";
    let entries = vec![
        file_entry(test_dir, "24.jpg"),
        file_entry(test_dir, "99.png"),
        file_entry(test_dir, "monday.png"),
        dir_entry(test_dir, "Nature"),
        file_entry(test_dir, "12.gif"),
    ];

    let result = get_wallpaper_items(&entries, &exts(&["jpg", "png"]), None);
    assert!(result.is_err(), "No valid hour bucket should remain");
}
