use stock_cli::text::sanitize_preset_name;

#[test]
fn sanitize_lowercases_alphanumerics() {
    assert_eq!(sanitize_preset_name("MyPreset1"), Some("mypreset1".to_string()));
}

#[test]
fn sanitize_turns_spaces_into_underscores_and_keeps_dashes() {
    assert_eq!(sanitize_preset_name("High Div-yield_2"), Some("high_div-yield_2".to_string()));
    assert_eq!(sanitize_preset_name("  a  "), Some("__a__".to_string()));
}

#[test]
fn sanitize_drops_other_characters() {
    assert_eq!(sanitize_preset_name("a.b/c!"), Some("abc".to_string()));
    assert_eq!(sanitize_preset_name("市盈率PE"), Some("pe".to_string()));
}

#[test]
fn sanitize_refuses_names_without_safe_characters() {
    assert_eq!(sanitize_preset_name(""), None);
    assert_eq!(sanitize_preset_name("!!!"), None);
    assert_eq!(sanitize_preset_name("中文"), None);
}

#[test]
fn sanitize_twice_gives_the_same_slug() {
    for name in ["Big Caps!", "x-Y_z 9", "Ünïcode Name"] {
        let once = sanitize_preset_name(name).unwrap();
        assert_eq!(sanitize_preset_name(&once), Some(once.clone()));
    }
}
