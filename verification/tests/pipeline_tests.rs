//! Whole-pipeline scenarios over in-memory inputs: index, reconcile,
//! compare, classify, render.

use imdirdiff::artifacts::compare_with_artifacts;
use imdirdiff::imageset::index_paths;
use imdirdiff::records::changed_record;
use imdirdiff::records::only_in_a_records;
use imdirdiff::records::only_in_b_records;
use imdirdiff::records::DiffResult;
use imdirdiff::report::render_report;
use imdirdiff::Config;

fn png_bytes(width: u32, height: u32, pixel: [u8; 3]) -> Vec<u8> {
    let mut img = image::RgbImage::new(width, height);
    for p in img.pixels_mut() {
        *p = image::Rgb(pixel);
    }
    let mut bytes: Vec<u8> = Vec::new();
    image::DynamicImage::ImageRgb8(img)
        .write_to(&mut std::io::Cursor::new(&mut bytes), image::ImageFormat::Png)
        .unwrap();
    bytes
}

fn run(
    walked_a: &[&str],
    walked_b: &[&str],
    bytes_of: impl Fn(char, &str) -> Vec<u8>,
) -> Vec<DiffResult> {
    let cfg = Config::standard();
    let set_a = index_paths(&walked_a.iter().map(|p| p.to_string()).collect::<Vec<String>>());
    let set_b = index_paths(&walked_b.iter().map(|p| p.to_string()).collect::<Vec<String>>());
    let mut results = only_in_a_records(&set_a.difference(&set_b));
    results.extend(only_in_b_records(&set_b.difference(&set_a)));
    for path in set_a.intersection(&set_b) {
        let a = bytes_of('a', &path);
        let b = bytes_of('b', &path);
        let (score, _files) = compare_with_artifacts(&cfg, &path, &a, &b).unwrap();
        if let Some(r) = changed_record(&path, score) {
            results.push(r);
        }
    }
    results
}

#[test]
fn identical_trees_make_no_records_and_an_empty_report() {
    let img = png_bytes(4, 4, [12, 200, 40]);
    let results = run(&["x.png"], &["x.png"], |_, _| img.clone());
    assert!(results.is_empty());
    let html = render_report(&results, "", "");
    assert_eq!(html, "<style></style><div></div><div class=\"diffs\"></div><script></script>");
}

#[test]
fn mixed_trees_classify_into_all_three_categories() {
    let img = png_bytes(4, 4, [1, 1, 1]);
    let results = run(&["a.png", "shared.jpg"], &["shared.jpg", "b.png"], |_, _| img.clone());
    assert_eq!(results.len(), 2);
    assert!(results.iter().any(|r| r.path == "a.png"));
    assert!(results.iter().any(|r| r.path == "b.png"));
    assert!(!results.iter().any(|r| r.path == "shared.jpg"));
}

#[test]
fn changed_content_makes_one_changed_record() {
    let results = run(
        &["x.png"],
        &["x.png"],
        |side, _| {
            if side == 'a' {
                png_bytes(4, 4, [255, 255, 255])
            } else {
                png_bytes(4, 4, [0, 0, 0])
            }
        },
    );
    assert_eq!(results.len(), 1);
    assert_eq!(results[0].path, "x.png");
    let html = render_report(&results, "", "");
    assert!(html.contains("<div class=\"diff\">x.png "));
}
