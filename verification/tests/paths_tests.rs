use librarygrid::layout::{Layout, APP_DIR, ASSETS_DIR, CONFIG_FILE, VERSION_FILE};
use librarygrid::paths::{copy_parts, parse_relative, Location, DOT, SEPARATOR};

fn names(parts: &[&str]) -> Vec<Vec<u8>> {
    parts.iter().map(|p| p.as_bytes().to_vec()).collect()
}

fn place(base: &str, parts: &[&str]) -> Location {
    Location { base: base.as_bytes().to_vec(), parts: names(parts) }
}

#[test]
fn separator_and_dot_are_the_ascii_bytes() {
    assert_eq!(SEPARATOR, b'/');
    assert_eq!(DOT, b'.');
}

#[test]
fn plain_name_is_one_component() {
    assert_eq!(parse_relative(b"index.html"), Some(names(&["index.html"])));
}

#[test]
fn nested_path_is_split_at_separators() {
    assert_eq!(parse_relative(b"css/site/main.css"), Some(names(&["css", "site", "main.css"])));
}

#[test]
fn current_directory_prefix_is_dropped() {
    assert_eq!(parse_relative(b"./index.html"), Some(names(&["index.html"])));
}

#[test]
fn empty_and_dot_components_are_dropped() {
    assert_eq!(parse_relative(b"./a//b/./c/"), Some(names(&["a", "b", "c"])));
}

#[test]
fn empty_path_names_the_destination() {
    assert_eq!(parse_relative(b""), Some(names(&[])));
    assert_eq!(parse_relative(b"."), Some(names(&[])));
    assert_eq!(parse_relative(b"./"), Some(names(&[])));
}

#[test]
fn leading_parent_component_is_refused() {
    assert_eq!(parse_relative(b"../evil"), None);
}

#[test]
fn inner_parent_component_is_refused() {
    assert_eq!(parse_relative(b"a/../b"), None);
    assert_eq!(parse_relative(b"a/b/../../../etc/passwd"), None);
}

#[test]
fn trailing_parent_component_is_refused() {
    assert_eq!(parse_relative(b"a/.."), None);
    assert_eq!(parse_relative(b".."), None);
    assert_eq!(parse_relative(b"a/../"), None);
}

#[test]
fn absolute_path_is_refused() {
    assert_eq!(parse_relative(b"/etc/passwd"), None);
    assert_eq!(parse_relative(b"/"), None);
}

#[test]
fn names_that_only_resemble_dots_are_kept() {
    assert_eq!(parse_relative(b"..."), Some(names(&["..."])));
    assert_eq!(parse_relative(b"a/..b/c.."), Some(names(&["a", "..b", "c.."])));
    assert_eq!(parse_relative(b".hidden"), Some(names(&[".hidden"])));
}

#[test]
fn new_location_has_no_components() {
    let here = Location::new(b"/home/u".to_vec());
    assert_eq!(here, place("/home/u", &[]));
}

#[test]
fn child_appends_one_component() {
    let here = place("/home/u", &["a"]);
    assert_eq!(here.child(b"b"), place("/home/u", &["a", "b"]));
    assert_eq!(here, place("/home/u", &["a"]));
}

#[test]
fn join_appends_all_components_in_order() {
    let here = place("/home/u", &["a"]);
    assert_eq!(here.join(&names(&["b", "c"])), place("/home/u", &["a", "b", "c"]));
    assert_eq!(here.join(&names(&[])), place("/home/u", &["a"]));
}

#[test]
fn parent_drops_the_last_component() {
    assert_eq!(place("/home/u", &["a", "b"]).parent(), Some(place("/home/u", &["a"])));
    assert_eq!(place("/home/u", &["a"]).parent(), Some(place("/home/u", &[])));
    assert_eq!(place("/home/u", &[]).parent(), None);
}

#[test]
fn clone_is_an_equal_location() {
    let here = place("/home/u", &["a", "b"]);
    assert_eq!(here.clone(), here);
}

#[test]
fn copy_parts_copies_every_component() {
    let parts = names(&["x", "", "yz"]);
    assert_eq!(copy_parts(&parts), parts);
}

#[test]
fn layout_names_are_the_documented_ones() {
    assert_eq!(&APP_DIR[..], b"librarygrid");
    assert_eq!(&ASSETS_DIR[..], b"web");
    assert_eq!(&VERSION_FILE[..], b"version.txt");
    assert_eq!(&CONFIG_FILE[..], b"config.toml");
}

#[test]
fn layout_under_home_places_everything_below_the_application_directory() {
    let layout = Layout::under_home(b"/home/u".to_vec());
    assert_eq!(layout.root(), place("/home/u", &["librarygrid"]));
    assert_eq!(layout.assets_dir(), place("/home/u", &["librarygrid", "web"]));
    assert_eq!(layout.version_marker(), place("/home/u", &["librarygrid", "web", "version.txt"]));
    assert_eq!(layout.config_file(), place("/home/u", &["librarygrid", "config.toml"]));
}
