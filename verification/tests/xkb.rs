use cosmic_ext_applet_per_app_layout::xkb::{
    active_layout, available_layouts, default_repeat_delay, default_repeat_rate,
    make_layout_active, parse_variants, XkbConfig,
};

fn make_xkb(layout: &str, variant: &str) -> XkbConfig {
    XkbConfig {
        layout: layout.to_string(),
        variant: variant.to_string(),
        ..Default::default()
    }
}

#[test]
fn test_available_layouts_two() {
    let xkb = make_xkb("ru,us", ",");
    assert_eq!(available_layouts(&xkb), vec!["ru", "us"]);
}

#[test]
fn test_available_layouts_single() {
    let xkb = make_xkb("us", "");
    assert_eq!(available_layouts(&xkb), vec!["us"]);
}

#[test]
fn test_available_layouts_empty() {
    let xkb = make_xkb("", "");
    assert!(available_layouts(&xkb).is_empty());
}

#[test]
fn test_active_layout() {
    let xkb = make_xkb("ru,us", ",");
    assert_eq!(active_layout(&xkb), Some("ru".to_string()));
}

#[test]
fn test_active_layout_empty() {
    let xkb = make_xkb("", "");
    assert_eq!(active_layout(&xkb), None);
}

#[test]
fn test_make_layout_active_swap() {
    let xkb = make_xkb("ru,us", ",");
    let result = make_layout_active(&xkb, "us").unwrap();
    assert_eq!(result.layout, "us,ru");
    assert_eq!(result.variant, ",");
}

#[test]
fn test_make_layout_active_already_first() {
    let xkb = make_xkb("us,ru", ",");
    let result = make_layout_active(&xkb, "us").unwrap();
    assert_eq!(result.layout, "us,ru");
}

#[test]
fn test_make_layout_active_not_found() {
    let xkb = make_xkb("us,ru", ",");
    assert!(make_layout_active(&xkb, "de").is_none());
}

#[test]
fn test_make_layout_active_three_layouts() {
    let xkb = make_xkb("us,ru,de", ",,nodeadkeys");
    let result = make_layout_active(&xkb, "de").unwrap();
    assert_eq!(result.layout, "de,us,ru");
    assert_eq!(result.variant, "nodeadkeys,,");
}

#[test]
fn test_make_layout_active_preserves_other_fields() {
    let mut xkb = make_xkb("us,ru", ",");
    xkb.repeat_delay = 300;
    xkb.repeat_rate = 50;
    let result = make_layout_active(&xkb, "ru").unwrap();
    assert_eq!(result.repeat_delay, 300);
    assert_eq!(result.repeat_rate, 50);
}

#[test]
fn default_config_values() {
    let xkb = XkbConfig::default();
    assert_eq!(xkb.repeat_delay, 600);
    assert_eq!(xkb.repeat_rate, 25);
    assert_eq!(default_repeat_delay(), 600);
    assert_eq!(default_repeat_rate(), 25);
    assert_eq!(xkb.options, None);
    assert!(xkb.rules.is_empty() && xkb.model.is_empty());
    assert!(xkb.layout.is_empty() && xkb.variant.is_empty());
}

#[test]
fn available_layouts_trims_and_skips_empty_entries() {
    let xkb = make_xkb(" ru , us ,, \tde\n,", "");
    assert_eq!(available_layouts(&xkb), vec!["ru", "us", "de"]);
}

#[test]
fn available_layouts_trims_unicode_white_space() {
    let xkb = make_xkb("\u{3000}us\u{a0},\u{2003}ru", "");
    assert_eq!(available_layouts(&xkb), vec!["us", "ru"]);
    assert_eq!(active_layout(&xkb), Some("us".to_string()));
}

#[test]
fn available_layouts_only_separators() {
    let xkb = make_xkb(", ,  ,", "");
    assert!(available_layouts(&xkb).is_empty());
    assert_eq!(active_layout(&xkb), None);
}

#[test]
fn parse_variants_keeps_empty_entries() {
    assert_eq!(parse_variants(&make_xkb("", ",,nodeadkeys")), vec!["", "", "nodeadkeys"]);
    assert_eq!(parse_variants(&make_xkb("", "")), vec![""]);
    assert_eq!(parse_variants(&make_xkb("", " intl , ")), vec!["intl", ""]);
}

#[test]
fn make_layout_active_pads_missing_variants() {
    let xkb = make_xkb("us,ru,de", "");
    let result = make_layout_active(&xkb, "ru").unwrap();
    assert_eq!(result.layout, "ru,us,de");
    assert_eq!(result.variant, ",,");
}

#[test]
fn make_layout_active_drops_extra_variants() {
    let xkb = make_xkb("us,ru", "a,b,c");
    let result = make_layout_active(&xkb, "ru").unwrap();
    assert_eq!(result.layout, "ru,us");
    assert_eq!(result.variant, "b,a");
}

#[test]
fn make_layout_active_normalises_spacing() {
    let xkb = make_xkb(" us , ru ", " , phonetic ");
    let result = make_layout_active(&xkb, "ru").unwrap();
    assert_eq!(result.layout, "ru,us");
    assert_eq!(result.variant, "phonetic,");
}

#[test]
fn make_layout_active_uses_first_occurrence() {
    let xkb = make_xkb("us,ru,us", "a,b,c");
    let result = make_layout_active(&xkb, "us").unwrap();
    assert_eq!(result.layout, "us,ru,us");
    assert_eq!(result.variant, "a,b,c");
}

#[test]
fn make_layout_active_on_empty_layout() {
    let xkb = make_xkb("", "");
    assert!(make_layout_active(&xkb, "").is_none());
    assert!(make_layout_active(&xkb, "us").is_none());
}

#[test]
fn make_layout_active_preserves_rules_model_options() {
    let mut xkb = make_xkb("us,ru", ",");
    xkb.rules = "evdev".to_string();
    xkb.model = "pc105".to_string();
    xkb.options = Some("grp:alt_shift_toggle".to_string());
    let result = make_layout_active(&xkb, "ru").unwrap();
    assert_eq!(result.rules, "evdev");
    assert_eq!(result.model, "pc105");
    assert_eq!(result.options, Some("grp:alt_shift_toggle".to_string()));
}

#[test]
fn make_layout_active_twice_is_once() {
    let xkb = make_xkb("us, ru ,de", "intl,,nodeadkeys");
    let once = make_layout_active(&xkb, "de").unwrap();
    let twice = make_layout_active(&once, "de").unwrap();
    assert_eq!(once, twice);
    assert_eq!(once.layout, "de,us,ru");
    assert_eq!(once.variant, "nodeadkeys,intl,");
}

#[test]
fn make_layout_active_then_active_layout_is_target() {
    let xkb = make_xkb("us,ru,de,fr", ",,,");
    for target in ["us", "ru", "de", "fr"] {
        let result = make_layout_active(&xkb, target).unwrap();
        assert_eq!(active_layout(&result), Some(target.to_string()));
        let mut names = available_layouts(&result);
        names.sort();
        assert_eq!(names, vec!["de", "fr", "ru", "us"]);
    }
}
