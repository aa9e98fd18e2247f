use radiance::library::{
    custom_library_items, filename_to_library_item, filter_library, library_contents,
    node_type_index, LibraryItem, LibraryMemory, LibraryResponse, NodeKind,
};

fn view(items: &[LibraryItem]) -> Vec<(&str, NodeKind, bool)> {
    items.iter().map(|i| (i.name.as_str(), i.kind, i.custom)).collect()
}

#[test]
fn files_to_items() {
    let img = filename_to_library_item("logo.png").unwrap();
    assert_eq!((img.name.as_str(), img.kind, img.custom), ("logo.png", NodeKind::ImageNode, false));
    let movie = filename_to_library_item("clip.mkv").unwrap();
    assert_eq!((movie.name.as_str(), movie.kind), ("clip.mkv", NodeKind::MovieNode));
    let effect = filename_to_library_item("droste.wgsl").unwrap();
    assert_eq!((effect.name.as_str(), effect.kind), ("droste", NodeKind::EffectNode));
    assert!(filename_to_library_item("notes.txt").is_none());
    assert!(filename_to_library_item("png").is_none());
}

#[test]
fn type_indices() {
    assert_eq!(node_type_index(NodeKind::EffectNode), 0);
    assert_eq!(node_type_index(NodeKind::PlaceholderNode), 6);
}

#[test]
fn contents_are_sorted_then_builtins() {
    let files = vec![
        "zoomin.wgsl".to_string(),
        "logo.png".to_string(),
        "readme.md".to_string(),
        "droste.wgsl".to_string(),
        "droste.png".to_string(),
        "droste".to_string(),
    ];
    let contents = library_contents(files);
    assert_eq!(
        view(&contents),
        vec![
            ("droste", NodeKind::EffectNode, false),
            ("droste.png", NodeKind::ImageNode, false),
            ("logo.png", NodeKind::ImageNode, false),
            ("zoomin", NodeKind::EffectNode, false),
            ("UiBg", NodeKind::UiBgNode, false),
            ("ScreenOutput", NodeKind::ScreenOutputNode, false),
            ("ProjectionMappedOutput", NodeKind::ProjectionMappedOutputNode, false),
        ]
    );
}

#[test]
fn custom_items() {
    assert!(custom_library_items("").is_empty());
    let items = custom_library_items("https://example.com/a.gif");
    assert_eq!(
        view(&items),
        vec![
            ("https://example.com/a.gif", NodeKind::MovieNode, true),
            ("https://example.com/a.gif", NodeKind::ImageNode, true),
        ]
    );
}

#[test]
fn items_equal_by_name_and_kind() {
    let a = LibraryItem { name: "x".to_string(), kind: NodeKind::ImageNode, custom: false };
    let b = LibraryItem { name: "x".to_string(), kind: NodeKind::ImageNode, custom: true };
    let c = LibraryItem { name: "x".to_string(), kind: NodeKind::MovieNode, custom: false };
    assert!(a == b);
    assert!(a != c);
}

fn item(name: &str, kind: NodeKind) -> LibraryItem {
    LibraryItem { name: name.to_string(), kind, custom: false }
}

#[test]
fn filtering_ranks_by_where_the_match_starts() {
    let contents = vec![item("Wwave", NodeKind::EffectNode), item("zoomin", NodeKind::EffectNode), item("wave", NodeKind::EffectNode)];
    let lowered = vec!["wwave".to_string(), "zoomin".to_string(), "wave".to_string()];
    let (items, best) = filter_library(&contents, &lowered, "wave", &"wave".to_string());
    assert_eq!(
        view(&items),
        vec![
            ("Wwave", NodeKind::EffectNode, false),
            ("wave", NodeKind::EffectNode, false),
            ("wave", NodeKind::MovieNode, true),
            ("wave", NodeKind::ImageNode, true),
        ]
    );
    assert_eq!(best, Some(1));
}

#[test]
fn filtering_counts_bytes() {
    // "é" takes two bytes: the match in "éab" starts later than in "xab".
    let contents = vec![item("éab", NodeKind::ImageNode), item("xab", NodeKind::ImageNode)];
    let lowered = vec!["éab".to_string(), "xab".to_string()];
    let (_, best) = filter_library(&contents, &lowered, "ab", &"ab".to_string());
    assert_eq!(best, Some(2));
}

#[test]
fn custom_items_are_not_repeated() {
    let contents = vec![item("a.gif", NodeKind::ImageNode)];
    let lowered = vec!["a.gif".to_string()];
    let (items, best) = filter_library(&contents, &lowered, "a.gif", &"a.gif".to_string());
    assert_eq!(
        view(&items),
        vec![("a.gif", NodeKind::ImageNode, false), ("a.gif", NodeKind::MovieNode, true)]
    );
    assert_eq!(best, Some(0));
}

#[test]
fn panel_filters_in_lower_case() {
    let mut memory = LibraryMemory::new();
    memory.reopen(vec![item("Purple", NodeKind::EffectNode), item("droste", NodeKind::EffectNode)]);
    assert_eq!(memory.filtered_items.len(), 2);
    assert_eq!(memory.selected_index, None);
    memory.textedit = "PURP".to_string();
    memory.refresh_filter();
    assert_eq!(memory.last_filter_text, "purp");
    assert_eq!(
        view(&memory.filtered_items),
        vec![
            ("Purple", NodeKind::EffectNode, false),
            ("PURP", NodeKind::MovieNode, true),
            ("PURP", NodeKind::ImageNode, true),
        ]
    );
    assert_eq!(memory.selected_index, Some(0));
    // Same filter: nothing changes.
    memory.selected_index = Some(2);
    memory.refresh_filter();
    assert_eq!(memory.selected_index, Some(2));
    // Cleared text: everything listed, nothing selected.
    memory.textedit.clear();
    memory.refresh_filter();
    assert_eq!(memory.filtered_items.len(), 2);
    assert_eq!(memory.selected_index, None);
}

#[test]
fn arrows_and_enter() {
    let mut memory = LibraryMemory::new();
    memory.reopen(vec![item("a", NodeKind::EffectNode), item("b", NodeKind::EffectNode), item("c", NodeKind::EffectNode)]);
    assert!(matches!(memory.enter(), LibraryResponse::Close));
    memory.arrow_up();
    assert_eq!(memory.selected_index, Some(2));
    memory.arrow_down();
    assert_eq!(memory.selected_index, Some(0));
    memory.arrow_down();
    memory.arrow_down();
    memory.arrow_down();
    assert_eq!(memory.selected_index, Some(0));
    memory.arrow_down();
    memory.arrow_up();
    assert_eq!(memory.selected_index, Some(0));
    memory.arrow_down();
    match memory.enter() {
        LibraryResponse::AddNode(it) => assert_eq!(it.name, "b"),
        other => panic!("unexpected {:?}", other),
    }
    let mut empty = LibraryMemory::new();
    empty.arrow_down();
    empty.arrow_up();
    assert_eq!(empty.selected_index, None);
}
