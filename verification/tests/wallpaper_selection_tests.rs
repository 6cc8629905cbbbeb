use expression::wallpaper::{select_random_entry, select_wallpaper_item, WallpaperItem};

#[test]
fn test_select_random_entry_valid() {
    let dir = "/tmp/test_select_random_entry_valid";
    let sub_entries = vec![
        format!("{}/img1.jpg", dir),
        format!("{}/img2.png", dir),
    ];

    let result = select_random_entry(&sub_entries);
    assert!(result.is_some(), "Expected a selected wallpaper");

    let (path, index, total) = result.unwrap();
    assert!(path.ends_with(".jpg") || path.ends_with(".png"));
    assert!(index < total && total == 2);
    assert_eq!(path, sub_entries[index]);
}

#[test]
fn test_select_random_entry_empty_dir() {
    let sub_entries: Vec<String> = Vec::new();

    let result = select_random_entry(&sub_entries);
    assert!(result.is_none(), "Expected None for empty dir");
}

#[test]
fn test_select_wallpaper_with_group_entry() {
    let dir = "/tmp/test_select_wallpaper_with_group_entry";
    let items = vec![WallpaperItem::Group(dir.to_string())];
    let listings = vec![Some(vec![
        format!("{}/wallpaper1.jpg", dir),
        format!("{}/wallpaper2.png", dir),
    ])];

    let selected = select_wallpaper_item(&items, &listings);

    assert!(
        selected.len() == 2,
        "Expected selected wallpaper from group"
    );
}

#[test]
fn test_select_wallpaper_with_direct_entry() {
    let wallpaper_path = "/tmp/test_select_wallpaper_with_direct_entry/specific_wall.jpg";
    let items = vec![WallpaperItem::Entry(wallpaper_path.to_string())];
    let listings = vec![None];

    let selected = select_wallpaper_item(&items, &listings);

    assert_eq!(selected[0], wallpaper_path.to_string());
}

#[test]
fn test_select_falls_through_empty_group_to_entry() {
    // A group whose directory yields nothing is skipped, not fatal: the
    // selection falls through to the single file after it.
    let items = vec![
        WallpaperItem::Group("/pics/09/empty".to_string()),
        WallpaperItem::Entry("/pics/09/fallback.png".to_string()),
    ];
    let listings = vec![None, None];

    let selected = select_wallpaper_item(&items, &listings);

    assert_eq!(selected, vec!["/pics/09/fallback.png".to_string()]);
}

#[test]
fn test_select_group_listing_comes_out_sorted() {
    // The winning group's files are sorted for determinism, whatever order
    // the directory listed them in.
    let items = vec![WallpaperItem::Group("/pics/07".to_string())];
    let listings = vec![Some(vec![
        "/pics/07/c.png".to_string(),
        "/pics/07/a.png".to_string(),
        "/pics/07/b.png".to_string(),
    ])];

    let selected = select_wallpaper_item(&items, &listings);

    assert_eq!(
        selected,
        vec![
            "/pics/07/a.png".to_string(),
            "/pics/07/b.png".to_string(),
            "/pics/07/c.png".to_string(),
        ]
    );
}

#[test]
fn test_select_nothing_available() {
    let items: Vec<WallpaperItem> = Vec::new();
    let listings: Vec<Option<Vec<String>>> = Vec::new();
    let selected = select_wallpaper_item(&items, &listings);
    assert!(selected.is_empty());
}

#[test]
fn test_select_prefers_first_nonempty_group() {
    let items = vec![
        WallpaperItem::Group("/pics/03/one".to_string()),
        WallpaperItem::Group("/pics/03/two".to_string()),
    ];
    let listings = vec![
        Some(vec!["/pics/03/one/x.jpg".to_string()]),
        Some(vec!["/pics/03/two/y.jpg".to_string()]),
    ];
    let selected = select_wallpaper_item(&items, &listings);
    assert_eq!(selected, vec!["/pics/03/one/x.jpg".to_string()]);
}
