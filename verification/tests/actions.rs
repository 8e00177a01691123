use bitkit::actions::{editing_command, is_mouse_button, key_down, key_info, parse_key_combo, ref_selector, xy, KeyComboError};

#[test]
fn parses_coordinates() {
    assert_eq!(xy("10,20"), Some((10, 20)));
    assert_eq!(xy(" 1 , -2 "), Some((1, -2)));
    assert_eq!(xy("nope"), None);
}

#[test]
fn maps_common_keys_without_zero_fallback() {
    assert_eq!(
        key_info("Enter"),
        Some((13, "Enter".into(), Some("\r".into())))
    );
    assert_eq!(key_info("ArrowDown"), Some((40, "ArrowDown".into(), None)));
    assert_eq!(
        key_info("a"),
        Some(('A' as u64, "KeyA".into(), Some("a".into())))
    );
    assert_eq!(
        key_info("Z"),
        Some(('Z' as u64, "KeyZ".into(), Some("Z".into())))
    );
    assert_eq!(
        key_info("1"),
        Some(('1' as u64, "Digit1".into(), Some("1".into())))
    );
    assert_eq!(key_info("DefinitelyNotAKey"), None);
}

#[test]
fn parses_key_combos() {
    assert_eq!(parse_key_combo("a").unwrap(), (0, "a".into()));
    assert_eq!(parse_key_combo("Enter").unwrap(), (0, "Enter".into()));
    assert_eq!(parse_key_combo("+").unwrap(), (0, "+".into()));
    assert_eq!(parse_key_combo("ctrl+a").unwrap(), (2, "a".into()));
    assert_eq!(parse_key_combo("cmd+shift+t").unwrap(), (12, "t".into()));
    assert_eq!(
        parse_key_combo("alt+ArrowLeft").unwrap(),
        (1, "ArrowLeft".into())
    );
    assert_eq!(parse_key_combo("ctrl++").unwrap(), (2, "+".into()));
    assert!(parse_key_combo("hyper+a").is_err());
}

#[test]
fn maps_editing_commands() {
    assert_eq!(editing_command(2, "a"), Some("selectAll"));
    assert_eq!(editing_command(4, "A"), Some("selectAll"));
    assert_eq!(editing_command(4 | 8, "z"), Some("redo"));
    assert_eq!(editing_command(2, "z"), Some("undo"));
    assert_eq!(editing_command(8, "a"), None); // shift alone is typing
    assert_eq!(editing_command(2, "q"), None);
}

#[test]
fn ref_targets_become_attribute_selectors() {
    assert_eq!(ref_selector("@e3"), r#"[data-browser-control-ref="e3"]"#);
    assert_eq!(ref_selector("#submit"), "#submit");
}

#[test]
fn coordinates_reject_bad_numbers() {
    assert_eq!(xy("+5,7"), Some((5, 7)));
    assert_eq!(xy("1,2,3"), None);
    assert_eq!(xy("1,"), None);
    assert_eq!(xy("9223372036854775807,-9223372036854775808"), Some((i64::MAX, i64::MIN)));
    assert_eq!(xy("9223372036854775808,0"), None);
    assert_eq!(xy("- 1,0"), None);
    assert_eq!(xy("\u{3000}4\t,\n5 "), Some((4, 5)));
}

#[test]
fn key_combo_reports_unknown_modifier_lowercased() {
    assert_eq!(
        parse_key_combo("Hyper+a"),
        Err(KeyComboError::UnknownModifier("hyper".into()))
    );
    assert_eq!(parse_key_combo("CTRL+Option+x").unwrap(), (3, "x".into()));
    assert_eq!(parse_key_combo("ctrl++shift+k").unwrap(), (10, "k".into()));
    assert_eq!(parse_key_combo("win+command+super+q").unwrap(), (4, "q".into()));
}

#[test]
fn key_info_special_and_plain_characters() {
    assert_eq!(key_info(" "), Some((32, "Space".into(), Some(" ".into()))));
    assert_eq!(key_info("Esc"), Some((27, "Escape".into(), None)));
    assert_eq!(key_info("Tab"), Some((9, "Tab".into(), Some("\t".into()))));
    assert_eq!(key_info("/"), Some(('/' as u64, "/".into(), Some("/".into()))));
    assert_eq!(key_info("é"), Some(('é' as u64, "é".into(), Some("é".into()))));
    assert_eq!(key_info(""), None);
}

#[test]
fn editing_commands_need_ctrl_or_meta() {
    assert_eq!(editing_command(1, "a"), None);
    assert_eq!(editing_command(2, "y"), Some("redo"));
    assert_eq!(editing_command(2 | 8, "y"), None);
    assert_eq!(editing_command(2, "C"), Some("copy"));
    assert_eq!(editing_command(4, "x"), Some("cut"));
    assert_eq!(editing_command(4, "v"), Some("paste"));
}

#[test]
fn mouse_buttons_are_the_five_named_ones() {
    for b in ["left", "right", "middle", "back", "forward"] {
        assert!(is_mouse_button(b));
    }
    assert!(!is_mouse_button("Left"));
    assert!(!is_mouse_button(""));
    assert!(!is_mouse_button("wheel"));
}

#[test]
fn key_down_of_shortcuts_and_plain_keys() {
    let d = key_down(2, "a", Some("a".into()));
    assert!(d.raw);
    assert_eq!(d.command, Some("selectAll"));
    assert_eq!(d.text, None);

    let d = key_down(1, "a", Some("a".into()));
    assert!(d.raw);
    assert_eq!(d.command, None);
    assert_eq!(d.text, None);

    let d = key_down(8, "A", Some("A".into()));
    assert!(!d.raw);
    assert_eq!(d.command, None);
    assert_eq!(d.text, Some("A".to_string()));

    let d = key_down(0, "ArrowDown", None);
    assert!(!d.raw);
    assert_eq!(d.text, None);
}
