use noter::note::Note;

#[test]
fn test_find_links() {
    let note = Note::new("[[link1]]\n[[link2]]".to_string());
    let notes_dir = "/home/user/notes";
    let links = note.find_links(notes_dir);
    assert_eq!(links.len(), 2);
    assert_eq!(links[0].as_str(), "link1");
    assert_eq!(links[1].as_str(), "link2");
}

#[test]
fn test_find_links_no_links() {
    let note = Note::new("no links".to_string());
    let notes_dir = "/home/user/notes";
    let links = note.find_links(notes_dir);
    assert_eq!(links.len(), 0);
}

#[test]
fn test_multiple_links_inline() {
    let note = Note::new("[[link1]] and [[link2]]".to_string());
    let notes_dir = "/home/user/notes";
    let links = note.find_links(notes_dir);
    assert_eq!(links.len(), 2);
}

#[test]
fn test_nested_links() {
    let note = Note::new("[[link1 [[link2]]]]".to_string());
    let notes_dir = "/home/user/notes";
    let links = note.find_links(notes_dir);
    assert_eq!(links[0].as_str(), "link2");
}

#[test]
fn test_non_ascii_chars() {
    let note = Note::new("[[Certifikační autorita]]".to_string());
    let notes_dir = "/home/user/notes";
    let links = note.find_links(notes_dir);
    assert_eq!(links[0].as_str(), "Certifikační autorita");
}

#[test]
fn test_nested_links_yield_exactly_one() {
    let note = Note::new("[[link1 [[link2]]]]".to_string());
    let notes_dir = "/home/user/notes";
    let links = note.find_links(notes_dir);
    assert_eq!(links.len(), 1);
    assert_eq!(links[0].as_str(), "link2");
}

#[test]
fn test_unclosed_link_is_dropped() {
    let note = Note::new("[[open forever\n[[closed]]".to_string());
    let notes_dir = "/home/user/notes";
    let links = note.find_links(notes_dir);
    assert_eq!(links.len(), 1);
    assert_eq!(links[0].as_str(), "closed");
}

#[test]
fn test_link_escaping_root_is_dropped() {
    let note = Note::new("[[/etc/passwd]] and [[fine]]".to_string());
    let notes_dir = "/home/user/notes";
    let links = note.find_links(notes_dir);
    assert_eq!(links.len(), 1);
    assert_eq!(links[0].as_str(), "fine");
}

#[test]
fn test_get_body() {
    let note = Note::new("some body".to_string());
    assert_eq!(note.get_body().as_str(), "some body");
}
