use blend_render::archive::{plan_entry, EntryPlan};

fn path(s: &str) -> Option<String> {
    Some(s.to_string())
}

#[test]
fn entries_of_an_archive() {
    assert_eq!(
        plan_entry("scene/", path("scene"), Some(0o755)),
        EntryPlan::Directory("scene".to_string(), Some(0o755))
    );
    assert_eq!(
        plan_entry("./scene/a.blend", path("scene/a.blend"), None),
        EntryPlan::File("scene/a.blend".to_string(), None)
    );
    assert_eq!(plan_entry("../a.blend", None, Some(0o644)), EntryPlan::Skip);
    assert_eq!(plan_entry("../", None, None), EntryPlan::Skip);
}
