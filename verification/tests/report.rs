use bitkit::cdp::TargetInfo;
use bitkit::report::{inspect_text, snapshot_text, tabs_text, ElementRow, InspectReport, SnapshotReport};

fn row(r: Option<&str>, k: Option<&str>, t: Option<&str>, h: Option<&str>) -> ElementRow {
    ElementRow {
        reference: r.map(String::from),
        kind: k.map(String::from),
        text: t.map(String::from),
        href: h.map(String::from),
    }
}

#[test]
fn snapshot_lists_elements_with_defaults() {
    let r = SnapshotReport {
        url: Some("https://example.com/".into()),
        title: None,
        elements: vec![
            row(Some("e1"), Some("link"), Some("Home"), Some("https://example.com/")),
            row(None, None, None, None),
            row(Some("e3"), Some("button"), Some("say \"hi\""), None),
        ],
    };
    assert_eq!(
        snapshot_text(&r),
        "url: https://example.com/\ntitle: \n\n@e1 link \"Home\"\n@? el \"\"\n@e3 button \"say \\\"hi\\\"\"\n"
    );
}

#[test]
fn snapshot_of_empty_page() {
    let r = SnapshotReport { url: None, title: None, elements: vec![] };
    assert_eq!(snapshot_text(&r), "url: \ntitle: \n\n");
}

#[test]
fn inspect_prints_sections_that_have_content() {
    let r = InspectReport {
        url: Some("u".into()),
        title: Some("t".into()),
        ready_state: Some("complete".into()),
        query: Some("".into()),
        text: Some("body text".into()),
        headings: vec![Some("H1".into()), None],
        elements: vec![
            row(Some("e1"), Some("link"), Some("Go"), Some("/next")),
            row(Some("e2"), Some("button"), Some("Ok"), Some("")),
        ],
    };
    assert_eq!(
        inspect_text(&r),
        "url: u\ntitle: t\nreadyState: complete\n\ntext:\nbody text\n\nheadings:\n- H1\n- \n\nelements:\n@e1 link \"Go\" -> /next\n@e2 button \"Ok\"\n"
    );
}

#[test]
fn inspect_with_query_and_nothing_else() {
    let r = InspectReport {
        url: None,
        title: None,
        ready_state: None,
        query: Some("price".into()),
        text: None,
        headings: vec![],
        elements: vec![],
    };
    assert_eq!(inspect_text(&r), "url: \ntitle: \nreadyState: \n\nquery: price\n\n");
}

fn target(id: Option<&str>, kind: Option<&str>, url: &str, title: &str) -> TargetInfo {
    TargetInfo {
        target_id: id.map(String::from),
        kind: kind.map(String::from),
        url: url.into(),
        title: title.into(),
    }
}

#[test]
fn tabs_number_only_pages() {
    let xs = vec![
        target(Some("A"), Some("page"), "https://a/", "A page"),
        target(Some("W"), Some("service_worker"), "https://w/", ""),
        target(None, Some("page"), "about:blank", ""),
        target(Some("F"), Some("iframe"), "https://f/", "f"),
        target(Some("C"), Some("page"), "chrome://newtab/", "New \"Tab\""),
    ];
    assert_eq!(
        tabs_text(&xs),
        "0 A \"A page\" \"https://a/\"\n1  \"\" \"about:blank\"\n2 C \"New \\\"Tab\\\"\" \"chrome://newtab/\"\n"
    );
    assert_eq!(tabs_text(&[]), "");
}
