use imdirdiff::records::Diff;
use imdirdiff::records::DiffResult;
use imdirdiff::report::render_report;
use imdirdiff::Score;

#[test]
fn empty_run_renders_an_empty_report() {
    let html = render_report(&vec![], "S{}", "J();");
    assert_eq!(
        html,
        "<style>S{}</style><div></div><div class=\"diffs\"></div><script>J();</script>"
    );
}

#[test]
fn one_sided_records_become_preamble_lines() {
    let records = vec![
        DiffResult { diff: Diff::OnlyInA, path: "gone.png".to_string() },
        DiffResult { diff: Diff::OnlyInB, path: "new.png".to_string() },
    ];
    let html = render_report(&records, "", "");
    assert_eq!(
        html,
        "<style></style><div><div>gone.png is only present in A</div><div>new.png is only present in B</div></div><div class=\"diffs\"></div><script></script>"
    );
}

#[test]
fn changed_records_become_thumbnail_blocks() {
    let records = vec![DiffResult {
        diff: Diff::Different { similarity: Score { micros: 500_000 } },
        path: "x.png".to_string(),
    }];
    let html = render_report(&records, "", "");
    let block = "<div class=\"diff\">x.png <span class=\"x\">x</span><div>\
<a href=\"a/x.png\"><img loading=\"lazy\" src=\"a/x.sm.jpg\"></a>\
<a href=\"b/x.png\"><img loading=\"lazy\" src=\"b/x.sm.jpg\"></a>\
<a href=\"diff/x.png\"><img loading=\"lazy\" src=\"diff/x.sm.jpg\"></a>\
</div></div>";
    let expected = format!(
        "<style></style><div></div><div class=\"diffs\">{}</div><script></script>",
        block
    );
    assert_eq!(html, expected);
}

#[test]
fn record_order_is_kept() {
    let records = vec![
        DiffResult { diff: Diff::OnlyInA, path: "1.png".to_string() },
        DiffResult {
            diff: Diff::Different { similarity: Score { micros: 1 } },
            path: "2.png".to_string(),
        },
        DiffResult { diff: Diff::OnlyInA, path: "3.png".to_string() },
    ];
    let html = render_report(&records, "", "");
    let first = html.find("1.png").unwrap();
    let third = html.find("3.png").unwrap();
    let second = html.find("2.png").unwrap();
    assert!(first < third);
    assert!(third < second, "changed blocks follow the preamble");
}
