use sandbox_engine::asset_listing::{hidden, join_path, scan_directory, FileKind, ListedEntry};
use sandbox_engine::assets::{AssetBrowser, AssetEntry};

fn listed(name: &str, kind: FileKind, children: Vec<ListedEntry>) -> ListedEntry {
    ListedEntry { raw_name: name.as_bytes().to_vec(), name: name.to_string(), kind, children }
}

fn listed_file(name: &str) -> ListedEntry {
    listed(name, FileKind::File, vec![])
}

fn listed_dir(name: &str, children: Vec<ListedEntry>) -> ListedEntry {
    listed(name, FileKind::Directory, children)
}

fn paths(entries: &[AssetEntry]) -> Vec<String> {
    entries.iter().map(|entry| entry.path.clone()).collect()
}

#[test]
fn hidden_names_begin_with_a_dot() {
    assert!(hidden(".gitkeep"));
    assert!(hidden(".git"));
    assert!(hidden("."));
    assert!(!hidden(""));
    assert!(!hidden("a.b"));
    assert!(!hidden("file."));
}

#[test]
fn join_path_puts_a_slash_between() {
    assert_eq!(join_path("", "textures"), "textures");
    assert_eq!(join_path("textures", "ship.png"), "textures/ship.png");
    assert_eq!(join_path("a/b", "c"), "a/b/c");
    assert_eq!(join_path("a", ""), "a/");
}

#[test]
fn scan_of_empty_listing_is_empty() {
    assert!(scan_directory(&vec![], "").is_empty());
}

#[test]
fn scan_puts_directories_first_then_names_in_byte_order() {
    let listing = vec![
        listed_file("zebra.png"),
        listed_dir("textures", vec![]),
        listed_file("Apple.png"),
        listed_dir("audio", vec![]),
        listed_file("apple.png"),
    ];
    let entries = scan_directory(&listing, "");
    assert_eq!(paths(&entries), vec!["audio", "textures", "Apple.png", "apple.png", "zebra.png"]);
    assert!(entries[0].is_directory);
    assert!(entries[1].is_directory);
    assert!(!entries[2].is_directory);
    for entry in &entries {
        assert!(!entry.expanded);
        assert_eq!(entry.name, entry.path);
    }
}

#[test]
fn scan_orders_a_prefix_before_the_longer_name() {
    let listing = vec![listed_file("ab"), listed_file("a"), listed_file("abc"), listed_file("aa")];
    assert_eq!(paths(&scan_directory(&listing, "")), vec!["a", "aa", "ab", "abc"]);
}

#[test]
fn scan_leaves_out_hidden_and_other_entries() {
    let listing = vec![
        listed_file(".gitkeep"),
        listed_dir(".git", vec![listed_file("config")]),
        listed("link", FileKind::Other, vec![]),
        listed_file("kept.txt"),
    ];
    let entries = scan_directory(&listing, "");
    assert_eq!(paths(&entries), vec!["kept.txt"]);
}

#[test]
fn scan_builds_paths_below_the_base() {
    let listing = vec![listed_file("ship.png"), listed_dir("enemies", vec![listed_file("ufo.png")])];
    let entries = scan_directory(&listing, "textures");
    assert_eq!(paths(&entries), vec!["textures/enemies", "textures/ship.png"]);
    assert_eq!(entries[0].name, "enemies");
    assert_eq!(paths(&entries[0].children), vec!["textures/enemies/ufo.png"]);
    assert_eq!(entries[0].children[0].name, "ufo.png");
    assert_eq!(entries[1].name, "ship.png");
}

#[test]
fn scan_orders_every_level() {
    let listing = vec![listed_dir(
        "a",
        vec![
            listed_file("z"),
            listed_dir("m", vec![listed_file("2"), listed_file("1"), listed_file(".hidden")]),
            listed_file("b"),
        ],
    )];
    let entries = scan_directory(&listing, "");
    assert_eq!(paths(&entries), vec!["a"]);
    assert_eq!(paths(&entries[0].children), vec!["a/m", "a/b", "a/z"]);
    assert_eq!(paths(&entries[0].children[0].children), vec!["a/m/1", "a/m/2"]);
}

#[test]
fn scan_gives_files_no_children() {
    let listing = vec![listed("odd", FileKind::File, vec![listed_file("inner")])];
    let entries = scan_directory(&listing, "");
    assert_eq!(entries.len(), 1);
    assert!(entries[0].children.is_empty());
}

#[test]
fn scan_orders_by_raw_name_not_by_shown_name() {
    let listing = vec![
        ListedEntry { raw_name: vec![0x62], name: "first".to_string(), kind: FileKind::File, children: vec![] },
        ListedEntry { raw_name: vec![0x61, 0xff], name: "second".to_string(), kind: FileKind::File, children: vec![] },
        ListedEntry { raw_name: vec![0x61], name: "third".to_string(), kind: FileKind::File, children: vec![] },
    ];
    assert_eq!(paths(&scan_directory(&listing, "")), vec!["third", "second", "first"]);
}

#[test]
fn scan_keeps_listing_order_among_equal_names() {
    let listing = vec![
        ListedEntry { raw_name: vec![1], name: "one".to_string(), kind: FileKind::File, children: vec![] },
        ListedEntry { raw_name: vec![1], name: "two".to_string(), kind: FileKind::File, children: vec![] },
        ListedEntry { raw_name: vec![0], name: "zero".to_string(), kind: FileKind::File, children: vec![] },
        ListedEntry { raw_name: vec![1], name: "three".to_string(), kind: FileKind::File, children: vec![] },
    ];
    assert_eq!(paths(&scan_directory(&listing, "")), vec!["zero", "one", "two", "three"]);
}

#[test]
fn scan_agrees_with_a_stable_sort() {
    let names = ["m", "B", "a", "zz", "z", "Z", "0", "a0", "_", "b.png", "B.PNG", "é", "e", "mm"];
    let mut listing = Vec::new();
    for (i, name) in names.iter().enumerate() {
        let kind = if i % 3 == 0 { FileKind::Directory } else { FileKind::File };
        listing.push(listed(name, kind, vec![]));
    }
    let mut expected: Vec<(bool, Vec<u8>, String)> = listing
        .iter()
        .map(|entry| (entry.kind == FileKind::Directory, entry.raw_name.clone(), entry.name.clone()))
        .collect();
    expected.sort_by(|a, b| match (a.0, b.0) {
        (true, false) => std::cmp::Ordering::Less,
        (false, true) => std::cmp::Ordering::Greater,
        _ => a.1.cmp(&b.1),
    });
    let expected: Vec<String> = expected.into_iter().map(|entry| entry.2).collect();
    assert_eq!(paths(&scan_directory(&listing, "")), expected);
}

#[test]
fn browser_new_scans_the_listing() {
    let listing = vec![listed_file("b.png"), listed_dir("a", vec![listed_file("c.ogg")])];
    let browser = AssetBrowser::new(&listing);
    assert_eq!(paths(&browser.files), vec!["a", "b.png"]);
    assert_eq!(paths(&browser.files[0].children), vec!["a/c.ogg"]);
    assert!(browser.selected_path.is_none());
    assert!(!browser.needs_rescan);
    assert!(browser.playing_audio_path.is_none());
    assert!(browser.audio_playback_entity.is_none());
}

#[test]
fn rescan_replaces_the_tree_and_clears_the_flag() {
    let mut browser = AssetBrowser::new(&vec![listed_dir("old", vec![])]);
    browser.toggle_directory("old");
    browser.needs_rescan = true;
    browser.selected_path = Some("old/x".to_string());
    browser.scan_assets_directory(&vec![listed_file("new.png")]);
    assert_eq!(paths(&browser.files), vec!["new.png"]);
    assert!(!browser.needs_rescan);
    assert_eq!(browser.selected_path.as_deref(), Some("old/x"));
    browser.needs_rescan = true;
    browser.scan_assets_directory(&vec![]);
    assert!(browser.files.is_empty());
    assert!(!browser.needs_rescan);
}
