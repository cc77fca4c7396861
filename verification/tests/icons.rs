use qrender::icons::{icon_name, lookup, ICON_COUNT};

#[test]
fn table_is_sorted_for_binary_search() {
    let names: Vec<&str> = (0..ICON_COUNT).map(icon_name).collect();
    assert!(names.windows(2).all(|w| w[0] < w[1]));
}

#[test]
fn lookup_finds_known_icons_only() {
    let i = lookup("groups").expect("groups is an icon");
    assert_eq!(icon_name(i), "groups");
    assert_eq!(lookup("3d_rotation"), Some(0));
    assert_eq!(lookup("woman"), Some(ICON_COUNT - 1));
    assert_eq!(lookup("no_such_icon"), None);
}
