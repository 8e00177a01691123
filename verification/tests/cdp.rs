use bitkit::cdp::{
    active_port_ws, choose_page_ws, choose_tab, endpoint, exception_message, is_internal_url,
    nth_page, port_hint, resolve_target, tab_ref, timeout_secs, ExceptionDetails, PageEntry,
    PortFileError, TabError, TabRef, TargetError, TargetInfo,
};

#[test]
fn flags_internal_urls() {
    assert!(is_internal_url("chrome://settings"));
    assert!(is_internal_url("devtools://devtools/bundled"));
    assert!(is_internal_url("chrome-extension://abc/page.html"));
    assert!(!is_internal_url("https://example.com"));
    assert!(!is_internal_url("about:blank"));
}

fn t(id: &str, kind: &str, url: &str, title: &str) -> TargetInfo {
    TargetInfo {
        target_id: Some(id.to_string()),
        kind: Some(kind.to_string()),
        url: url.to_string(),
        title: title.to_string(),
    }
}

#[test]
fn chooses_tabs() {
    let xs = vec![
        t("A", "page", "about:blank", ""),
        t("B", "page", "https://a.example", "A"),
        t("C", "page", "chrome://settings", ""),
        t("D", "page", "https://b.example", "B"),
        t("E", "iframe", "https://frame", ""),
    ];
    assert_eq!(choose_tab(&xs, None), Some("D".to_string()));
    assert_eq!(choose_tab(&xs, Some("A")), Some("A".to_string()));
    assert_eq!(choose_tab(&xs, Some("E")), Some("D".to_string()));
    let blank = vec![t("X", "page", "about:blank", ""), t("Y", "page", "", "")];
    assert_eq!(choose_tab(&blank, None), Some("X".to_string()));
    assert_eq!(choose_tab(&[], None), None);
}

#[test]
fn tab_and_target_arguments() {
    assert!(matches!(tab_ref("1"), Ok(TabRef::Index(1))));
    assert!(matches!(tab_ref("123456789"), Ok(TabRef::Index(123456789))));
    match tab_ref("ABCDEF0123") {
        Ok(TabRef::Id(s)) => assert_eq!(s, "ABCDEF0123"),
        _ => panic!(),
    }
    assert_eq!(tab_ref("abc").err(), Some(TabError::BadTarget("abc".into())));
    let xs = vec![t("A", "iframe", "u1", ""), t("B", "page", "u2", "Home"), t("C", "page", "u3", "")];
    assert_eq!(nth_page(&xs, 1), Ok("C".to_string()));
    assert_eq!(nth_page(&xs, 2), Err(TabError::NotFound));
    let kinds = ["iframe", "page"];
    assert_eq!(resolve_target("C", &kinds, &xs), Ok("C".to_string()));
    assert_eq!(resolve_target("0", &kinds, &xs), Ok("A".to_string()));
    assert_eq!(resolve_target("9", &kinds, &xs), Err(TargetError::NotFound));
    assert_eq!(resolve_target("Hom", &kinds, &xs), Ok("B".to_string()));
    assert_eq!(resolve_target("zzz", &kinds, &xs), Err(TargetError::NotFoundNamed("zzz".into())));
}

#[test]
fn exception_messages() {
    let d = ExceptionDetails {
        description: Some("ReferenceError: x".into()),
        value: None,
        class_name: Some("ReferenceError".into()),
        text: Some("Uncaught".into()),
        line: Some(0),
        column: Some(12),
    };
    assert_eq!(exception_message(&d), "ReferenceError: x (line 0, column 12)");
    let e = ExceptionDetails {
        description: None,
        value: None,
        class_name: None,
        text: None,
        line: Some(3),
        column: None,
    };
    assert_eq!(exception_message(&e), "JavaScript evaluation failed");
}

#[test]
fn endpoint_hints() {
    assert_eq!(port_hint("http://127.0.0.1:9222"), Some(9222));
    assert_eq!(port_hint("http://127.0.0.1:9222/"), Some(9222));
    assert_eq!(port_hint("http://127.0.0.1:0"), None);
    assert_eq!(port_hint("localhost"), None);
    assert_eq!(
        active_port_ws("9222\n/devtools/browser/abc\n", None),
        Ok(Some("ws://127.0.0.1:9222/devtools/browser/abc".to_string()))
    );
    assert_eq!(active_port_ws("9222\r\n/x\r\n", Some(9222)), Ok(Some("ws://127.0.0.1:9222/x".to_string())));
    assert_eq!(active_port_ws("9222\n/x", Some(9223)), Ok(None));
    assert_eq!(active_port_ws("", None), Err(PortFileError::MissingPort));
    assert_eq!(active_port_ws("abc\n/x", None), Err(PortFileError::BadPort));
    assert_eq!(active_port_ws("9222\n", None), Err(PortFileError::MissingPath));
    assert_eq!(endpoint("http://h:1//", "/json/list"), "http://h:1/json/list");
    assert_eq!(timeout_secs(Some("30")), 30);
    assert_eq!(timeout_secs(Some("x")), 15);
    assert_eq!(timeout_secs(None), 15);
}

#[test]
fn page_websocket_choice() {
    let e = |id: &str, kind: &str, ws: Option<&str>| PageEntry {
        id: Some(id.into()),
        kind: Some(kind.into()),
        ws_url: ws.map(|s| s.to_string()),
    };
    let xs = vec![e("w", "worker", Some("ws://w")), e("p", "page", Some("ws://p")), e("q", "page", None)];
    assert_eq!(choose_page_ws(&xs, None), Some("ws://p".to_string()));
    assert_eq!(choose_page_ws(&xs, Some("w")), Some("ws://w".to_string()));
    assert_eq!(choose_page_ws(&xs, Some("q")), None);
    assert_eq!(choose_page_ws(&xs, Some("nope")), Some("ws://p".to_string()));
}

#[test]
fn automatic_tab_choice_skips_internal_pages() {
    let xs = vec![
        t("I", "page", "chrome://newtab/", ""),
        t("J", "page", "devtools://devtools/bundled/inspector.html", ""),
        t("K", "page", "chrome-extension://abc/popup.html", ""),
    ];
    assert_eq!(choose_tab(&xs, None), None);
    assert_eq!(choose_tab(&xs, Some("J")), Some("J".to_string()));
    let mut more = xs;
    more.push(t("P", "page", "about:blank", ""));
    assert_eq!(choose_tab(&more, None), Some("P".to_string()));
}
