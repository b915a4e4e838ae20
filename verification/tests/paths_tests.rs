use imdirdiff::paths::file_stem;
use imdirdiff::paths::is_image_path;
use imdirdiff::paths::join_path;
use imdirdiff::paths::parent_path;
use imdirdiff::paths::thumb_path;

fn s(t: &str) -> String {
    t.to_string()
}

#[test]
fn indexes_lower_case_extension() {
    assert!(is_image_path(&s("photo.png")));
    assert!(is_image_path(&s("a/b/c.jpg")));
    assert!(is_image_path(&s("x.jpeg")));
    assert!(is_image_path(&s("x.gif")));
    assert!(is_image_path(&s("x.webp")));
}

#[test]
fn extension_filter_is_case_insensitive() {
    assert!(is_image_path(&s("Photo.PNG")));
    assert!(is_image_path(&s("photo.png")));
    assert!(is_image_path(&s("shots/Scene.JPeG")));
}

#[test]
fn never_indexes_other_extensions() {
    assert!(!is_image_path(&s("notes.txt")));
    assert!(!is_image_path(&s("archive.tar.gz")));
    assert!(!is_image_path(&s("Makefile")));
    assert!(!is_image_path(&s("")));
}

#[test]
fn hidden_files_have_no_extension() {
    assert!(!is_image_path(&s(".png")));
    assert!(is_image_path(&s("dir/..png")));
}

#[test]
fn extension_is_taken_after_last_dot() {
    assert!(is_image_path(&s("a.tar.png")));
    assert!(!is_image_path(&s("a.png.bak")));
    assert!(!is_image_path(&s("dir.png/file")));
}

#[test]
fn thumbnail_path_replaces_extension() {
    assert_eq!(thumb_path(&s("x.png")), "x.sm.jpg");
    assert_eq!(thumb_path(&s("shots/scene.jpeg")), "shots/scene.sm.jpg");
}

#[test]
fn thumbnail_path_appends_when_no_extension() {
    assert_eq!(thumb_path(&s("x")), "x.sm.jpg");
    assert_eq!(thumb_path(&s(".hidden")), ".hidden.sm.jpg");
}

#[test]
fn stem_and_parent() {
    assert_eq!(file_stem(&s("a/b/scene.png")), "scene");
    assert_eq!(file_stem(&s("scene.png")), "scene");
    assert_eq!(file_stem(&s("scene")), "scene");
    assert_eq!(parent_path(&s("a/b/scene.png")), "a/b");
    assert_eq!(parent_path(&s("scene.png")), "");
}

#[test]
fn join_uses_forward_slash() {
    assert_eq!(join_path(&s("root"), &s("x.png")), "root/x.png");
}
