use imdirdiff::artifacts::compare_with_artifacts;
use imdirdiff::artifacts::flip_artifacts;
use imdirdiff::artifacts::ArtifactData;
use imdirdiff::compare::compare_rgb_bytes;
use imdirdiff::records::changed_record;
use imdirdiff::Config;
use imdirdiff::ImDirDiffError;
use imdirdiff::SCORE_ONE;

fn png_bytes(width: u32, height: u32, pixel: [u8; 3]) -> Vec<u8> {
    let mut img = image::RgbImage::new(width, height);
    for p in img.pixels_mut() {
        *p = image::Rgb(pixel);
    }
    encode(img)
}

fn encode(img: image::RgbImage) -> Vec<u8> {
    let mut bytes: Vec<u8> = Vec::new();
    image::DynamicImage::ImageRgb8(img)
        .write_to(&mut std::io::Cursor::new(&mut bytes), image::ImageFormat::Png)
        .unwrap();
    bytes
}

#[test]
fn identical_copies_score_one_and_make_no_record() {
    let bytes = png_bytes(4, 4, [200, 30, 30]);
    let copy = bytes.clone();
    let out = compare_rgb_bytes(&bytes, &copy).unwrap();
    assert_eq!(out.score.micros, SCORE_ONE);
    assert!(changed_record(&"x.png".to_string(), out.score).is_none());
}

#[test]
fn different_content_scores_below_one() {
    let a = png_bytes(8, 8, [255, 255, 255]);
    let b = png_bytes(8, 8, [0, 0, 0]);
    let out = compare_rgb_bytes(&a, &b).unwrap();
    assert!(out.score.micros < SCORE_ONE);
    assert!(out.score.micros >= 0);
    let rec = changed_record(&"x.png".to_string(), out.score).unwrap();
    assert_eq!(rec.path, "x.png");
    assert_eq!(out.diff.width, 8);
    assert_eq!(out.diff.height, 8);
}

#[test]
fn padding_makes_sizes_comparable_and_strictly_different() {
    let small = png_bytes(4, 4, [120, 180, 60]);
    let wide = png_bytes(6, 4, [120, 180, 60]);
    let out = compare_rgb_bytes(&small, &wide).unwrap();
    assert!(out.score.micros < SCORE_ONE);
    assert_eq!(out.diff.width, 6);
    assert_eq!(out.diff.height, 4);
}

#[test]
fn decode_failure_is_an_image_error() {
    let good = png_bytes(2, 2, [1, 2, 3]);
    let bad: Vec<u8> = vec![0, 1, 2, 3, 4];
    let e = compare_rgb_bytes(&bad, &good).unwrap_err();
    assert!(matches!(e, ImDirDiffError::ImageError(_)));
    let e2 = compare_rgb_bytes(&good, &bad).unwrap_err();
    assert!(matches!(e2, ImDirDiffError::ImageError(_)));
}

#[test]
fn oversized_joint_canvas_is_rejected() {
    // Both decode fine, but padding joins them into a canvas whose pixel
    // count does not fit the metric's 32-bit index.
    let wide = png_bytes(65_536, 64, [0, 0, 0]);
    let tall = png_bytes(64, 65_536, [0, 0, 0]);
    let e = compare_rgb_bytes(&wide, &tall).unwrap_err();
    assert!(matches!(e, ImDirDiffError::ImagesTooLarge));
}

#[test]
fn comparison_is_stable_across_runs() {
    let a = png_bytes(5, 3, [10, 200, 10]);
    let b = png_bytes(5, 3, [10, 10, 200]);
    let first = compare_rgb_bytes(&a, &b).unwrap().score;
    let second = compare_rgb_bytes(&a, &b).unwrap().score;
    assert_eq!(first, second);
}

#[test]
fn changed_pair_leaves_six_artifacts() {
    let cfg = Config::standard();
    let a = png_bytes(4, 4, [250, 250, 250]);
    let b = png_bytes(4, 4, [5, 5, 5]);
    let (score, files) = compare_with_artifacts(&cfg, &"x.png".to_string(), &a, &b).unwrap();
    assert!(score.micros < SCORE_ONE);
    let paths: Vec<&str> = files.iter().map(|f| f.path.as_str()).collect();
    assert_eq!(
        paths,
        vec![
            "./imdirdiff-out/a/x.png",
            "./imdirdiff-out/a/x.sm.jpg",
            "./imdirdiff-out/b/x.png",
            "./imdirdiff-out/b/x.sm.jpg",
            "./imdirdiff-out/diff/x.png",
            "./imdirdiff-out/diff/x.sm.jpg",
        ]
    );
    match &files[0].data {
        ArtifactData::Copy(bytes) => assert_eq!(bytes, &a),
        ArtifactData::Picture(_) => panic!("expected a verbatim copy"),
    }
    match &files[1].data {
        ArtifactData::Picture(img) => {
            assert_eq!(img.data.len(), 3 * img.width as usize * img.height as usize)
        }
        ArtifactData::Copy(_) => panic!("expected a thumbnail"),
    }
    match &files[4].data {
        ArtifactData::Picture(img) => {
            assert_eq!(img.width, 4);
            assert_eq!(img.height, 4);
        }
        ArtifactData::Copy(_) => panic!("expected the diff image"),
    }
}

#[test]
fn thumbnails_are_height_bounded() {
    let cfg = Config::standard();
    let a = png_bytes(300, 200, [9, 9, 9]);
    let b = png_bytes(300, 200, [250, 9, 9]);
    let (_, files) = compare_with_artifacts(&cfg, &"big.png".to_string(), &a, &b).unwrap();
    match &files[1].data {
        ArtifactData::Picture(img) => {
            assert_eq!(img.height, 80);
            assert_eq!(img.width, 120);
        }
        ArtifactData::Copy(_) => panic!("expected a thumbnail"),
    }
}

#[test]
fn flip_artifacts_cover_copies_and_thumbnails() {
    let cfg = Config::standard();
    let a = png_bytes(4, 4, [1, 2, 3]);
    let b = png_bytes(4, 4, [3, 2, 1]);
    let d = png_bytes(4, 4, [90, 90, 90]);
    let files = flip_artifacts(&cfg, &"s/x.png".to_string(), &a, &b, &d).unwrap();
    let paths: Vec<&str> = files.iter().map(|f| f.path.as_str()).collect();
    assert_eq!(
        paths,
        vec![
            "./imdirdiff-out/a/s/x.png",
            "./imdirdiff-out/a/s/x.sm.jpg",
            "./imdirdiff-out/b/s/x.png",
            "./imdirdiff-out/b/s/x.sm.jpg",
            "./imdirdiff-out/diff/s/x.sm.jpg",
        ]
    );
}

#[test]
fn flip_artifact_decode_failure_is_a_report_image_error() {
    let cfg = Config::standard();
    let good = png_bytes(4, 4, [1, 2, 3]);
    let bad: Vec<u8> = vec![9, 9];
    let e = flip_artifacts(&cfg, &"x.png".to_string(), &good, &good, &bad).unwrap_err();
    assert!(matches!(e, ImDirDiffError::ReportImageError(_)));
}
