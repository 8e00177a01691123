use bitkit::js::{action_script, element_check_script, fill_js, inspect_js, inspect_script, point_js, scroll_by_js, select_js, wait_element_js, wrap_return, ACTION_JS, VISIBLE_CHECK_0, VISIBLE_CHECK_1};

#[test]
fn wraps_top_level_return() {
    assert_eq!(
        wrap_return("const x=1; return x"),
        "(()=>{const x=1; return x})()"
    );
    assert_eq!(wrap_return("document.title"), "document.title");
    assert_eq!(wrap_return("'return'"), "'return'");
    assert_eq!(wrap_return("// return\n1"), "// return\n1");
    assert_eq!(wrap_return("/* return */ 1"), "/* return */ 1");
    assert_eq!(wrap_return("returned"), "returned");
    let already = "(()=>{return 1})()";
    assert_eq!(wrap_return(already), already);
}

#[test]
fn inspect_js_embeds_query_safely() {
    let js = inspect_js(Some(r#"x"y"#), 7, 123).unwrap();
    assert!(js.contains(r#"const needle="x\"y".toLowerCase()"#));
    assert!(js.contains("limit=7"));
    assert!(js.contains("textLimit=123"));
}

#[test]
fn return_detection_edges() {
    assert_eq!(wrap_return("`return`"), "`return`");
    assert_eq!(wrap_return("'a\\'return'"), "'a\\'return'");
    assert_eq!(wrap_return("x;return"), "(()=>{x;return})()");
    assert_eq!(wrap_return("_return 1"), "_return 1");
    assert_eq!(wrap_return("/* a */ return 2"), "(()=>{/* a */ return 2})()");
    assert_eq!(wrap_return("  (function(){return 1})()"), "  (function(){return 1})()");
    assert_eq!(wrap_return("éreturn"), "éreturn");
    assert_eq!(wrap_return(""), "");
}

#[test]
fn action_scripts_quote_arguments() {
    let p = point_js("a\"b").unwrap();
    assert_eq!(p, format!("({}).point(\"a\\\"b\")", ACTION_JS));
    let f = fill_js("#q", "hi").unwrap();
    assert_eq!(f, format!("({}).fill(\"#q\",\"hi\")", ACTION_JS));
    assert_eq!(wait_element_js("#x", false).unwrap(), "!!document.querySelector(\"#x\")");
    assert!(wait_element_js("#x", true).unwrap().starts_with("(()=>{const e=document.querySelector(\"#x\");"));
    assert_eq!(scroll_by_js(0, -300), "window.scrollBy(0,-300); true");
}

#[test]
fn inspect_js_without_query_uses_empty_needle() {
    let js = inspect_js(None, 50, 2500).unwrap();
    assert!(js.starts_with("(()=>{const needle=\"\".toLowerCase(),limit=50,textLimit=2500;"));
    assert!(js.ends_with(",text,headings,elements:elements.slice(0,limit)}})()"));
    assert!(js.contains("query:\"\",text"));
}

#[test]
fn scripts_from_quoted_arguments() {
    assert_eq!(action_script("click", "\"#a\""), format!("({}).click(\"#a\")", ACTION_JS));
    assert_eq!(
        select_js("#country", "US").unwrap(),
        format!("({}).select(\"#country\",\"US\")", ACTION_JS)
    );
    assert_eq!(element_check_script("'s'", false), "!!document.querySelector('s')");
    assert_eq!(
        element_check_script("\"#x\"", true),
        format!("{}\"#x\"{}", VISIBLE_CHECK_0, VISIBLE_CHECK_1)
    );
    let direct = inspect_script("\"q\"", 3, 4);
    assert_eq!(direct, inspect_js(Some("q"), 3, 4).unwrap());
    assert!(direct.starts_with("(()=>{const needle=\"q\".toLowerCase(),limit=3,textLimit=4;"));
}

#[test]
fn wrapping_twice_wraps_once() {
    for e in ["const x=1; return x", "return 2", "document.title", "  return 3 "] {
        let once = wrap_return(e);
        assert_eq!(wrap_return(&once), once);
    }
}

#[test]
fn embedded_strings_use_json_escapes() {
    assert_eq!(
        wait_element_js("a\"b\\c\u{8}\t\n\u{c}\r\u{1}\u{1f} é/", false).unwrap(),
        "!!document.querySelector(\"a\\\"b\\\\c\\b\\t\\n\\f\\r\\u0001\\u001f é/\")"
    );
}
