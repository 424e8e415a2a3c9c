use blend_render::blend_search::{BlendSearch, DirEntry, EntryKind};

fn entry(name: &str, kind: EntryKind) -> DirEntry {
    DirEntry { name: name.to_string(), kind }
}

fn listing(dir: &str) -> Vec<DirEntry> {
    match dir {
        "" => vec![
            entry("z.blend", EntryKind::File),
            entry("temp_chunks", EntryKind::Directory),
            entry("sub", EntryKind::Directory),
            entry("a.BLEND", EntryKind::File),
            entry("link.blend", EntryKind::Other),
            entry(".blend", EntryKind::File),
            entry("b.blend1", EntryKind::File),
        ],
        "sub" => vec![
            entry("deep.blend", EntryKind::Directory),
            entry("c.blend", EntryKind::File),
        ],
        "sub/deep.blend" => vec![entry("..blend", EntryKind::File)],
        "temp_chunks" => panic!("the chunks are not searched"),
        _ => vec![],
    }
}

#[test]
fn scenes_are_found_in_the_order_of_the_listings() {
    let mut search = BlendSearch::new();
    let mut listed: Vec<String> = Vec::new();
    while let Some(dir) = search.next_directory() {
        search.list(&dir, listing(&dir));
        listed.push(dir);
    }
    assert_eq!(listed, ["", "sub", "sub/deep.blend"]);
    assert_eq!(
        search.into_scenes(),
        ["z.blend", "sub/deep.blend/..blend", "sub/c.blend", "a.BLEND"]
    );
}

#[test]
fn empty_directory_has_no_scenes() {
    let mut search = BlendSearch::new();
    assert_eq!(search.next_directory(), Some("".to_string()));
    search.list("", vec![]);
    assert_eq!(search.next_directory(), None);
    assert!(search.into_scenes().is_empty());
}
