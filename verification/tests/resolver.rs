use cutter::naming::derive_path;
use cutter::resolver::select_sources;

fn entries_of(items: &[&str]) -> Vec<String> {
    items.iter().map(|s| s.to_string()).collect()
}

#[test]
fn sources_are_the_entries_without_underscore() {
    let entries = entries_of(&[
        "/in/b.jpg",
        "/in/a_200x200px_200w.jpg",
        "/in/a.jpg",
        "/in/IMG_0001.jpg",
        "/in/c.png",
    ]);
    assert_eq!(select_sources(&entries), entries_of(&["/in/b.jpg", "/in/a.jpg", "/in/c.png"]));
}

#[test]
fn an_empty_directory_has_no_sources() {
    assert_eq!(select_sources(&Vec::new()), Vec::<String>::new());
}

#[test]
fn a_directory_with_an_underscore_in_its_path_has_no_sources() {
    let entries = entries_of(&["/my_photos/a.jpg", "/my_photos/b.jpg"]);
    assert_eq!(select_sources(&entries), Vec::<String>::new());
}

#[test]
fn duplicates_and_order_are_kept() {
    let entries = entries_of(&["z", "a", "z", "m_", "a"]);
    assert_eq!(select_sources(&entries), entries_of(&["z", "a", "z", "a"]));
}

#[test]
fn own_output_is_never_a_source() {
    let mut entries = Vec::new();
    for stem in ["a", "b", "holiday.2020", ""] {
        for (w, h) in [(1u32, 1u32), (200, 200), (1920, 1080)] {
            entries.push(derive_path(stem, w, h, "/out", "jpg"));
        }
    }
    assert_eq!(entries.len(), 12);
    assert_eq!(select_sources(&entries), Vec::<String>::new());
}
