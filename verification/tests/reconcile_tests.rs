use imdirdiff::imageset::ImageSet;
use imdirdiff::imageset::index_paths;
use imdirdiff::records::Diff;
use imdirdiff::records::changed_record;
use imdirdiff::records::glyph;
use imdirdiff::records::only_in_a_records;
use imdirdiff::records::only_in_b_records;
use imdirdiff::Score;
use imdirdiff::SCORE_ONE;

fn set_of(paths: &[&str]) -> ImageSet {
    ImageSet::from_paths(paths.iter().map(|p| p.to_string()).collect())
}

#[test]
fn two_sided_reconciliation() {
    let a = set_of(&["a.png", "shared.jpg"]);
    let b = set_of(&["shared.jpg", "b.png"]);
    assert_eq!(a.difference(&b), vec!["a.png".to_string()]);
    assert_eq!(b.difference(&a), vec!["b.png".to_string()]);
    assert_eq!(a.intersection(&b), vec!["shared.jpg".to_string()]);
}

#[test]
fn identical_sets_have_empty_differences() {
    let a = set_of(&["x.png"]);
    let b = set_of(&["x.png"]);
    assert!(a.difference(&b).is_empty());
    assert!(b.difference(&a).is_empty());
    assert_eq!(a.intersection(&b), vec!["x.png".to_string()]);
}

#[test]
fn categories_are_pairwise_disjoint() {
    let a = set_of(&["1.png", "2.png", "3.png"]);
    let b = set_of(&["2.png", "3.png", "4.png"]);
    let only_a = a.difference(&b);
    let only_b = b.difference(&a);
    let common = a.intersection(&b);
    for p in &only_a {
        assert!(!only_b.contains(p));
        assert!(!common.contains(p));
    }
    for p in &only_b {
        assert!(!common.contains(p));
    }
    let mut union: Vec<String> = only_a;
    union.extend(only_b);
    union.extend(common);
    union.sort();
    assert_eq!(union, vec!["1.png", "2.png", "3.png", "4.png"]);
}

#[test]
fn duplicates_collapse_to_one() {
    let a = set_of(&["x.png", "x.png", "y.png"]);
    assert_eq!(a.len(), 2);
    assert_eq!(a.as_vec(), &vec!["x.png".to_string(), "y.png".to_string()]);
}

#[test]
fn reconciliation_is_idempotent() {
    let walk = ["b.png", "a.png", "c.png"];
    let other = ["c.png", "d.png"];
    let first = (
        set_of(&walk).difference(&set_of(&other)),
        set_of(&other).difference(&set_of(&walk)),
        set_of(&walk).intersection(&set_of(&other)),
    );
    let second = (
        set_of(&walk).difference(&set_of(&other)),
        set_of(&other).difference(&set_of(&walk)),
        set_of(&walk).intersection(&set_of(&other)),
    );
    assert_eq!(first, second);
}

#[test]
fn indexing_filters_and_dedupes() {
    let walked = vec![
        "Photo.PNG".to_string(),
        "photo.png".to_string(),
        "notes.txt".to_string(),
        "photo.png".to_string(),
        "sub/pic.jpg".to_string(),
    ];
    let set = index_paths(&walked);
    assert_eq!(
        set.as_vec(),
        &vec!["Photo.PNG".to_string(), "photo.png".to_string(), "sub/pic.jpg".to_string()]
    );
}

#[test]
fn one_sided_records_keep_order() {
    let paths = vec!["p.png".to_string(), "q.png".to_string()];
    let ra = only_in_a_records(&paths);
    assert_eq!(ra.len(), 2);
    assert_eq!(ra[0].path, "p.png");
    assert!(matches!(ra[0].diff, Diff::OnlyInA));
    let rb = only_in_b_records(&paths);
    assert!(matches!(rb[1].diff, Diff::OnlyInB));
    assert_eq!(rb[1].path, "q.png");
}

#[test]
fn changed_record_only_below_one() {
    let p = "x.png".to_string();
    assert!(changed_record(&p, Score { micros: SCORE_ONE }).is_none());
    let r = changed_record(&p, Score { micros: SCORE_ONE - 1 }).unwrap();
    assert_eq!(r.path, "x.png");
    assert!(matches!(r.diff, Diff::Different { similarity } if similarity.micros == SCORE_ONE - 1));
}

#[test]
fn category_glyphs() {
    assert_eq!(glyph(&Diff::OnlyInA), "-");
    assert_eq!(glyph(&Diff::OnlyInB), "+");
    assert_eq!(glyph(&Diff::Different { similarity: Score { micros: 0 } }), "≠");
}
