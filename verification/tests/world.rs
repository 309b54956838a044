use bpt::world::World;

#[test]
fn ro_missing_file_returns_empty() {
    let world = World::new();
    assert!(world.entries().is_empty());
}

#[test]
fn ro_empty_file() {
    let world = World::from_contents("");
    assert!(world.entries().is_empty());
}

#[test]
fn ro_parses_entries() {
    let world = World::from_contents("bpt@1.0.0:x86_64\ngcc@11.2.0:aarch64\n");
    assert_eq!(world.entries().len(), 2);
    assert!(world.contains_entry("bpt@1.0.0:x86_64"));
    assert!(world.contains_entry("gcc@11.2.0:aarch64"));
}

#[test]
fn ro_preserves_comments_and_blanks() {
    let world = World::from_contents("# header comment\n\nbpt@1.0.0:x86_64\n");
    assert_eq!(world.entries().len(), 1);
    assert_eq!(world.contents().len(), 3);
    assert!(world.contents()[0].1.is_none());
    assert!(world.contents()[1].1.is_none());
    assert!(world.contents()[2].1.is_some());
}

#[test]
fn ro_strips_inline_comments() {
    let world = World::from_contents("bpt # explicitly requested\n");
    assert_eq!(world.entries().len(), 1);
    assert!(world.contains_entry("bpt"));
}

#[test]
fn ro_name_only_partid() {
    let world = World::from_contents("bpt\n");
    assert!(world.contains_entry("bpt"));
}

#[test]
fn rw_reads_existing_entries() {
    let world = World::from_contents("bpt@1.0.0:x86_64\n");
    assert_eq!(world.entries().len(), 1);
    assert!(world.contains_entry("bpt@1.0.0:x86_64"));
}

#[test]
fn save_writes_entries_to_disk() {
    let mut world = World::from_contents("");
    world.add_entry("bpt@1.0.0:x86_64".to_owned());
    let text = world.save();

    let reloaded = World::from_contents(&text);
    assert!(reloaded.contains_entry("bpt@1.0.0:x86_64"));
}

#[test]
fn save_creates_world_file_if_missing() {
    let mut world = World::new();
    world.add_entry("bpt@1.0.0:x86_64".to_owned());
    let text = world.save();
    assert_eq!(text, "bpt@1.0.0:x86_64\n");

    let reloaded = World::from_contents(&text);
    assert!(reloaded.contains_entry("bpt@1.0.0:x86_64"));
}

#[test]
fn save_removes_deleted_entries() {
    let mut world = World::from_contents("bpt@1.0.0:x86_64\ngcc@11.2.0:aarch64\n");
    world.remove_entry("gcc@11.2.0:aarch64");
    let text = world.save();

    let reloaded = World::from_contents(&text);
    assert_eq!(reloaded.entries().len(), 1);
    assert!(reloaded.contains_entry("bpt@1.0.0:x86_64"));
    assert!(!reloaded.contains_entry("gcc@11.2.0:aarch64"));
}

#[test]
fn save_preserves_comments() {
    let mut world = World::from_contents("# keep this\nbpt@1.0.0:x86_64\n");
    let content = world.save();
    assert!(content.contains("# keep this"));
    assert!(content.contains("bpt@1.0.0:x86_64"));
}

#[test]
fn save_roundtrip_preserves_inline_comments() {
    let mut world = World::from_contents("bpt # explicitly requested\n");
    let content = world.save();
    assert!(content.contains("bpt # explicitly requested"));
}

#[test]
fn ro_deduplicates_entries() {
    let world = World::from_contents("bpt@1.0.0:x86_64\nbpt@1.0.0:x86_64\n");
    assert_eq!(world.entries().len(), 1);
}

#[test]
fn save_appends_new_entries_after_kept_lines() {
    let mut world = World::from_contents("# top\nold\n\nkeep # why\n");
    world.remove_entry("old");
    world.add_entry("new".to_owned());
    world.add_entry("keep".to_owned());
    assert_eq!(world.save(), "# top\n\nkeep # why\nnew\n");
}

#[test]
fn saved_world_reads_back_as_saved() {
    let mut world = World::from_contents("# top\nold\n\nkeep # why\n");
    world.remove_entry("old");
    world.add_entry("new".to_owned());
    let text = world.save();

    let reloaded = World::from_contents(&text);
    assert_eq!(reloaded.contents(), world.contents());
    let mut read = reloaded.entries().clone();
    read.sort();
    let mut saved = world.entries().clone();
    saved.sort();
    assert_eq!(read, saved);
}

#[test]
fn entries_read_back_from_their_own_lines() {
    let world = World::from_contents("  bpt@1.0.0:x86_64   # pinned\n# gcc\n\tgcc\r\n");
    assert_eq!(world.entries(), &vec!["bpt@1.0.0:x86_64".to_owned(), "gcc".to_owned()]);
    for e in world.entries() {
        let line = format!("{e}\n");
        assert_eq!(World::from_contents(&line).entries(), &vec![e.clone()]);
    }
}
