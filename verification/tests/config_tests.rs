use expression::backends::str_eq;
use expression::config::{
    effective_strategy, DirectoryConfig, GeneralGroupConfig, GroupConfig, GroupSelectionStrategy,
};
use expression::wallpaper::{first_selectable_index, parse_hour, str_lt, WallpaperItem};

#[test]
fn test_directory_defaults_fill_empty_fields() {
    let mut dirs = DirectoryConfig {
        wallpaper: "/home/me/pics".to_string(),
        special: String::new(),
        collections: String::new(),
    };
    dirs.apply_defaults();
    assert_eq!(dirs.wallpaper, "/home/me/pics");
    assert_eq!(dirs.special, "/home/me/pics/special");
    assert_eq!(dirs.collections, "/home/me/pics");
}

#[test]
fn test_directory_defaults_keep_configured_fields() {
    let mut dirs = DirectoryConfig {
        wallpaper: "/home/me/pics".to_string(),
        special: "/elsewhere/special".to_string(),
        collections: "/elsewhere/collections".to_string(),
    };
    dirs.apply_defaults();
    assert_eq!(dirs.special, "/elsewhere/special");
    assert_eq!(dirs.collections, "/elsewhere/collections");
}

#[test]
fn test_effective_strategy_override_rules() {
    let base = GroupSelectionStrategy::Random;

    assert_eq!(effective_strategy(base, &None), base);
    assert_eq!(
        effective_strategy(base, &Some(GroupConfig { general: None })),
        base
    );
    assert_eq!(
        effective_strategy(
            base,
            &Some(GroupConfig {
                general: Some(GeneralGroupConfig {
                    selection_strategy: None
                })
            })
        ),
        base
    );
    assert_eq!(
        effective_strategy(
            base,
            &Some(GroupConfig {
                general: Some(GeneralGroupConfig {
                    selection_strategy: Some(GroupSelectionStrategy::Spread)
                })
            })
        ),
        GroupSelectionStrategy::Spread
    );
}

#[test]
fn test_first_selectable_index_names_the_winner() {
    // The empty first group is skipped; the second group delivers, and its
    // directory is the one whose local override counts.
    let items = vec![
        WallpaperItem::Group("/pics/09/empty".to_string()),
        WallpaperItem::Group("/pics/09/full".to_string()),
        WallpaperItem::Entry("/pics/09.png".to_string()),
    ];
    let listings = vec![None, Some(vec!["/pics/09/full/a.jpg".to_string()]), None];
    assert_eq!(first_selectable_index(&items, &listings), Some(1));

    let no_items: Vec<WallpaperItem> = Vec::new();
    let no_listings: Vec<Option<Vec<String>>> = Vec::new();
    assert_eq!(first_selectable_index(&no_items, &no_listings), None);
}

#[test]
fn test_parse_hour_accepts_hours_only() {
    assert_eq!(parse_hour("00"), Some(0));
    assert_eq!(parse_hour("5"), Some(5));
    assert_eq!(parse_hour("09"), Some(9));
    assert_eq!(parse_hour("23"), Some(23));
    assert_eq!(parse_hour("023"), Some(23));

    assert_eq!(parse_hour("24"), None);
    assert_eq!(parse_hour("99"), None);
    assert_eq!(parse_hour("300"), None);
    assert_eq!(parse_hour(""), None);
    assert_eq!(parse_hour("1a"), None);
    assert_eq!(parse_hour("monday"), None);
    assert_eq!(parse_hour("-1"), None);
}

#[test]
fn test_string_order_and_equality() {
    assert!(str_lt("apple", "banana"));
    assert!(str_lt("app", "apple"));
    assert!(!str_lt("apple", "apple"));
    assert!(!str_lt("banana", "apple"));

    assert!(str_eq("same", "same"));
    assert!(!str_eq("same", "sam"));
    assert!(!str_eq("same", "samo"));
}
