use drink_images::errors::ReconcileError;
use drink_images::path::extract_names;
use drink_images::path::split_str;

#[test]
fn two_segment_path_parses() {
    let names = extract_names("A/B.ext").unwrap();
    assert_eq!(names.0, "A");
    assert_eq!(names.1, "B");
}

#[test]
fn three_segment_path_uses_last_two() {
    let names = extract_names("A/B/C.ext").unwrap();
    assert_eq!(names.0, "B");
    assert_eq!(names.1, "C");
}

#[test]
fn drink_image_key_parses() {
    let names = extract_names("mojito-bar/margarita.png").unwrap();
    assert_eq!(names.0, "mojito-bar");
    assert_eq!(names.1, "margarita");
}

#[test]
fn child_name_stops_at_first_dot() {
    let names = extract_names("bar/drink.tar.gz").unwrap();
    assert_eq!(names.0, "bar");
    assert_eq!(names.1, "drink");
}

#[test]
fn empty_parent_and_child_are_kept() {
    let names = extract_names("/.png").unwrap();
    assert_eq!(names.0, "");
    assert_eq!(names.1, "");
}

#[test]
fn single_segment_is_malformed() {
    assert_eq!(extract_names("margarita.png"), Err(ReconcileError::MalformedPath));
}

#[test]
fn empty_path_is_malformed() {
    assert_eq!(extract_names(""), Err(ReconcileError::MalformedPath));
}

#[test]
fn missing_extension_is_malformed() {
    assert_eq!(extract_names("mojito-bar/margarita"), Err(ReconcileError::MalformedPath));
}

#[test]
fn dot_in_earlier_segment_does_not_help() {
    assert_eq!(extract_names("mojito.bar/margarita"), Err(ReconcileError::MalformedPath));
}

#[test]
fn split_keeps_empty_segments() {
    assert_eq!(split_str("a//b", '/'), vec!["a", "", "b"]);
    assert_eq!(split_str("", '/'), vec![""]);
    assert_eq!(split_str("/", '/'), vec!["", ""]);
    assert_eq!(split_str("abc", '/'), vec!["abc"]);
}
