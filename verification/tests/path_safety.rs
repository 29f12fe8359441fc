use biliup_common::path_safety::{check_user_path, filename_stem, resolve_within, PathRejection};

fn place(path: &str) -> Vec<String> {
    path.split('/').filter(|name| !name.is_empty()).map(str::to_string).collect()
}

fn root() -> Vec<String> {
    place("/tmp/fixture/root")
}

#[test]
fn accepts_plain_filename_inside_root() {
    let target = place("/tmp/fixture/root/inside.log");
    assert_eq!(
        resolve_within(Some(&root()), "inside.log", Some(&target), None),
        Ok(place("/tmp/fixture/root/inside.log"))
    );
}

#[test]
fn accepts_nested_path_inside_root() {
    let target = place("/tmp/fixture/root/sub/nested.mp4");
    assert_eq!(
        resolve_within(Some(&root()), "sub/nested.mp4", Some(&target), None),
        Ok(target)
    );
}

#[test]
fn rejects_parent_dir_traversal() {
    let target = place("/tmp/fixture/outside.txt");
    assert_eq!(
        resolve_within(Some(&root()), "../outside.txt", Some(&target), None),
        Err(PathRejection::Traversal)
    );
}

#[test]
fn rejects_traversal_buried_mid_path() {
    let target = place("/tmp/fixture/outside.txt");
    assert_eq!(
        resolve_within(Some(&root()), "sub/../../outside.txt", Some(&target), None),
        Err(PathRejection::Traversal)
    );
}

#[test]
fn rejects_absolute_path() {
    let target = place("/tmp/fixture/outside.txt");
    assert_eq!(
        resolve_within(Some(&root()), "/tmp/fixture/outside.txt", Some(&target), None),
        Err(PathRejection::Absolute)
    );
}

#[test]
fn rejects_symlink_escaping_root() {
    let target = place("/tmp/fixture/outside.txt");
    assert_eq!(
        resolve_within(Some(&root()), "escape.txt", Some(&target), None),
        Err(PathRejection::Escapes)
    );
}

#[test]
fn accepts_symlink_staying_inside_root() {
    let target = place("/tmp/fixture/root/inside.log");
    assert_eq!(
        resolve_within(Some(&root()), "alias.log", Some(&target), None),
        Ok(place("/tmp/fixture/root/inside.log"))
    );
}

#[test]
fn accepts_not_yet_existing_target_inside_root() {
    assert_eq!(
        resolve_within(Some(&root()), "new-upload.jpg", None, Some(&root())),
        Ok(place("/tmp/fixture/root/new-upload.jpg"))
    );
}

#[test]
fn rejects_not_yet_existing_target_outside_root() {
    assert_eq!(
        resolve_within(Some(&root()), "../new-upload.jpg", None, Some(&place("/tmp/fixture"))),
        Err(PathRejection::Traversal)
    );
}

#[test]
fn rejects_not_yet_existing_target_under_escaping_symlink_dir() {
    let outside = place("/tmp/fixture/outside_dir");
    assert_eq!(
        resolve_within(Some(&root()), "link/new-upload.jpg", None, Some(&outside)),
        Err(PathRejection::Escapes)
    );
}

#[test]
fn reports_root_unavailable_when_root_missing() {
    assert_eq!(
        resolve_within(None, "a.log", None, None),
        Err(PathRejection::RootUnavailable)
    );
}

#[test]
fn a_missing_directory_cannot_take_a_new_file() {
    assert_eq!(
        resolve_within(Some(&root()), "gone/a.log", None, None),
        Err(PathRejection::RootUnavailable)
    );
}

#[test]
fn same_function_isolates_different_roots() {
    let logs = place("/tmp/fixture/logs");
    let images = place("/tmp/fixture/images");
    assert!(resolve_within(Some(&logs), "a.log", Some(&place("/tmp/fixture/logs/a.log")), None)
        .is_ok());
    assert!(resolve_within(
        Some(&images),
        "b.jpg",
        Some(&place("/tmp/fixture/images/b.jpg")),
        None
    )
    .is_ok());
    assert_eq!(
        resolve_within(Some(&logs), "b.jpg", None, Some(&logs)),
        Ok(place("/tmp/fixture/logs/b.jpg"))
    );
    assert_eq!(
        resolve_within(
            Some(&logs),
            "../images/b.jpg",
            Some(&place("/tmp/fixture/images/b.jpg")),
            None
        ),
        Err(PathRejection::Traversal)
    );
}

#[test]
fn a_root_whose_name_goes_on_is_another_root() {
    assert_eq!(
        resolve_within(Some(&root()), "x", Some(&place("/tmp/fixture/root2/x")), None),
        Err(PathRejection::Escapes)
    );
}

#[test]
fn the_names_of_a_path_leave_out_what_names_nothing() {
    assert_eq!(check_user_path("./a//b/."), Ok(place("a/b")));
    assert_eq!(check_user_path(""), Ok(Vec::new()));
    assert_eq!(check_user_path("a..b"), Ok(vec!["a..b".to_string()]));
    assert_eq!(check_user_path("/"), Err(PathRejection::Absolute));
    assert_eq!(check_user_path(".."), Err(PathRejection::Traversal));
}

#[test]
fn the_stem_of_a_path_is_that_of_its_last_name() {
    for path in [
        "/m/a.flv", "a.b.c", ".hidden", ".hidden.x", "a/", "a/.", "a/./.", "a/..", "..", ".", "",
        "/", "//x//y.z//", "a./", "...", "a..", "x/.../", "./b.c", "\u{4e00}.mp4",
    ] {
        let stem = std::path::Path::new(path)
            .file_stem()
            .map(|stem| stem.to_string_lossy().into_owned())
            .unwrap_or_default();
        assert_eq!(filename_stem(path), stem, "{path}");
    }
    assert_eq!(filename_stem("/m/part-0.v2.flv"), "part-0.v2");
}
