use cosmic_ext_applet_per_app_layout::applet::{initial_layout, restored_config, AppletState};
use cosmic_ext_applet_per_app_layout::focus::{toplevel_key, FocusTracker, ToplevelInfo, WaylandUpdate};
use cosmic_ext_applet_per_app_layout::panel::{with_plugin, without_plugin};
use cosmic_ext_applet_per_app_layout::text_map::TextMap;
use cosmic_ext_applet_per_app_layout::xkb::{active_layout, XkbConfig};

fn make_xkb(layout: &str, variant: &str) -> XkbConfig {
    XkbConfig {
        layout: layout.to_string(),
        variant: variant.to_string(),
        ..Default::default()
    }
}

fn focused(update: Option<WaylandUpdate>) -> Option<(String, String)> {
    match update {
        Some(WaylandUpdate::Focused { app_id, identifier }) => Some((app_id, identifier)),
        _ => None,
    }
}

#[test]
fn toplevel_key_prefers_identifier() {
    assert_eq!(toplevel_key("firefox", "w1"), "w1");
    assert_eq!(toplevel_key("firefox", ""), "firefox");
}

#[test]
fn focus_is_passed_on_once_per_window() {
    let mut t = FocusTracker::new();
    assert_eq!(
        focused(t.send_focus("term", "a", 1_000_000)),
        Some(("term".to_string(), "a".to_string()))
    );
    assert_eq!(focused(t.send_focus("term", "a", 9_000_000)), None);
    assert_eq!(
        focused(t.send_focus("editor", "", 9_000_000)),
        Some(("editor".to_string(), "editor".to_string()))
    );
}

#[test]
fn focus_reports_in_one_batch_are_debounced() {
    let mut t = FocusTracker::new();
    assert!(t.send_focus("term", "a", 1_000_000).is_some());
    assert!(t.send_focus("term", "b", 1_000_100).is_none());
    assert!(t.send_focus("term", "b", 1_004_999).is_none());
    assert!(t.send_focus("term", "b", 1_005_000).is_some());
    // A clock reading before the last report counts as no time passed.
    assert!(t.send_focus("term", "c", 900_000).is_none());
    assert_eq!(t.last_focused_app, Some("b".to_string()));
    assert_eq!(t.last_focus_time, Some(1_005_000));
}

#[test]
fn toplevel_events_pass_on_activated_windows_only() {
    let mut t = FocusTracker::new();
    let idle = ToplevelInfo { app_id: "term".to_string(), identifier: "a".to_string(), activated: false };
    let active = ToplevelInfo { app_id: "term".to_string(), identifier: "a".to_string(), activated: true };
    assert!(t.new_toplevel(Some(&idle), 0).is_none());
    assert!(t.new_toplevel(None, 0).is_none());
    assert_eq!(focused(t.update_toplevel(Some(&active), 10)), Some(("term".to_string(), "a".to_string())));
    match t.toplevel_closed(Some(&active)) {
        Some(WaylandUpdate::Closed { identifier }) => assert_eq!(identifier, "a"),
        other => panic!("unexpected {:?}", other),
    }
    assert!(t.toplevel_closed(None).is_none());
    match t.send_closed("editor", "") {
        WaylandUpdate::Closed { identifier } => assert_eq!(identifier, "editor"),
        other => panic!("unexpected {:?}", other),
    }
}

#[test]
fn text_map_keeps_keys_sorted() {
    let mut m = TextMap::new();
    m.insert("b".to_string(), "2".to_string());
    m.insert("a".to_string(), "1".to_string());
    m.insert("c".to_string(), "3".to_string());
    m.insert("b".to_string(), "22".to_string());
    let keys: Vec<(String, String)> = m.entries().clone();
    assert_eq!(
        keys,
        vec![
            ("a".to_string(), "1".to_string()),
            ("b".to_string(), "22".to_string()),
            ("c".to_string(), "3".to_string())
        ]
    );
    assert_eq!(m.get("b"), Some("22".to_string()));
    m.remove("b");
    m.remove("zz");
    assert_eq!(m.get("b"), None);
    assert_eq!(m.entries().len(), 2);
}

#[test]
fn initial_layout_falls_back_to_us() {
    assert_eq!(initial_layout(None), "us");
    assert_eq!(initial_layout(Some(make_xkb("", ""))), "us");
    assert_eq!(initial_layout(Some(make_xkb("ru,us", ","))), "ru");
}

#[test]
fn window_gets_its_layout_back() {
    let mut s = AppletState::new("us".to_string());
    assert_eq!(s.toplevel_focused("term".to_string(), "a".to_string()), None);
    // The user switches to ru while the terminal has focus.
    assert!(s.poll_due(0));
    s.layout_polled(Some(make_xkb("ru,us", ",")));
    assert_eq!(s.current_layout, "ru");
    // The editor gains focus; nothing is remembered for it.
    assert_eq!(s.toplevel_focused("editor".to_string(), "b".to_string()), None);
    s.layout_polled(Some(make_xkb("us,ru", ",")));
    assert_eq!(s.current_layout, "us");
    // Back to the terminal: ru is restored.
    let desired = s.toplevel_focused("term".to_string(), "a".to_string());
    assert_eq!(desired, Some("ru".to_string()));
    let cfg = restored_config(Some(make_xkb("us,ru", ",")), "ru").unwrap();
    assert_eq!(cfg.layout, "ru,us");
    s.layout_restored("ru".to_string(), 1_000_000);
    assert_eq!(s.current_layout, "ru");
    assert!(!s.poll_due(1_200_000));
    assert!(s.poll_due(1_500_000));
    // Reading back the written configuration changes nothing.
    s.layout_polled(Some(cfg.clone()));
    assert_eq!(s.current_layout, "ru");
    assert_eq!(active_layout(&cfg), Some("ru".to_string()));
    // The editor got us remembered.
    assert_eq!(s.layout_map.get("b"), Some("us".to_string()));
    assert_eq!(s.layout_map.get("a"), Some("ru".to_string()));
}

#[test]
fn closed_window_is_forgotten() {
    let mut s = AppletState::new("us".to_string());
    s.toplevel_focused("term".to_string(), "a".to_string());
    s.toplevel_focused("editor".to_string(), "b".to_string());
    assert_eq!(s.layout_map.get("a"), Some("us".to_string()));
    s.toplevel_closed("a");
    assert_eq!(s.layout_map.get("a"), None);
    assert_eq!(s.app_names.get("a"), None);
    assert_eq!(s.app_names.get("b"), Some("editor".to_string()));
}

#[test]
fn restored_config_needs_a_config_that_lists_the_layout() {
    assert!(restored_config(None, "ru").is_none());
    assert!(restored_config(Some(make_xkb("us", "")), "ru").is_none());
    let cfg = restored_config(Some(make_xkb("us,de,ru", ",nodeadkeys,")), "de").unwrap();
    assert_eq!(cfg.layout, "de,us,ru");
    assert_eq!(cfg.variant, "nodeadkeys,,");
}

#[test]
fn poll_without_change_or_config_changes_nothing() {
    let mut s = AppletState::new("us".to_string());
    s.toplevel_focused("term".to_string(), "a".to_string());
    s.layout_polled(None);
    s.layout_polled(Some(make_xkb("", "")));
    s.layout_polled(Some(make_xkb("us,ru", ",")));
    assert_eq!(s.current_layout, "us");
    assert_eq!(s.layout_map.get("a"), None);
}

#[test]
fn panel_label_is_upper_case() {
    let s = AppletState::new("ru".to_string());
    assert_eq!(s.panel_label(), "RU");
}

#[test]
fn popup_rows_are_sorted_by_window() {
    let mut s = AppletState::new("us".to_string());
    s.toplevel_focused("zed".to_string(), "w2".to_string());
    s.layout_polled(Some(make_xkb("de,us", ",")));
    s.toplevel_focused("alacritty".to_string(), "w1".to_string());
    s.toplevel_focused("zed".to_string(), "w2".to_string());
    s.toplevel_closed("missing");
    let rows = s.popup_rows();
    let rows: Vec<(String, String)> = rows.into_iter().map(|r| (r.name, r.layout)).collect();
    assert_eq!(
        rows,
        vec![("alacritty".to_string(), "DE".to_string()), ("zed".to_string(), "DE".to_string())]
    );
}

#[test]
fn popup_row_without_name_shows_question_mark() {
    let mut s = AppletState::new("us".to_string());
    s.toplevel_focused("term".to_string(), "a".to_string());
    s.toplevel_focused("editor".to_string(), "b".to_string());
    s.app_names.remove("a");
    let rows = s.popup_rows();
    assert_eq!(rows.len(), 1);
    assert_eq!(rows[0].name, "?");
    assert_eq!(rows[0].layout, "US");
}

fn pair(a: &str, b: &str) -> (String, String) {
    (a.to_string(), b.to_string())
}

#[test]
fn saved_layouts_are_per_application_and_sorted() {
    let mut s = AppletState::new("us".to_string());
    s.toplevel_focused("zed".to_string(), "w1".to_string());
    s.layout_polled(Some(make_xkb("ru,us", ",")));
    s.toplevel_focused("alacritty".to_string(), "w2".to_string());
    s.layout_polled(Some(make_xkb("de,us", ",")));
    s.toplevel_focused("zed".to_string(), "w3".to_string());
    assert_eq!(
        s.saved_layouts(),
        vec![pair("alacritty", "de"), pair("zed", "ru")]
    );
}

#[test]
fn saved_layouts_survive_a_restart() {
    let saved = vec![pair("zed", "ru"), pair("alacritty", "de"), pair("zed", "fr")];
    let mut s = AppletState::with_saved_layouts("us".to_string(), saved);
    assert_eq!(s.saved_layouts(), vec![pair("alacritty", "de"), pair("zed", "fr")]);
    assert!(s.layout_map.entries().is_empty());
    assert_eq!(s.current_app, None);
    // A new window of a known application gets its saved layout.
    assert_eq!(
        s.toplevel_focused("zed".to_string(), "new-window".to_string()),
        Some("fr".to_string())
    );
    s.layout_restored("fr".to_string(), 10);
    // An unknown application gets nothing.
    assert_eq!(s.toplevel_focused("term".to_string(), "t".to_string()), None);
    assert_eq!(s.app_layouts.get("term"), None);
    assert_eq!(
        s.toplevel_focused("alacritty".to_string(), "a".to_string()),
        Some("de".to_string())
    );
    s.layout_restored("de".to_string(), 20);
    // Leaving the unknown application's window remembered its layout.
    assert_eq!(s.app_layouts.get("term"), Some("fr".to_string()));
    assert_eq!(
        s.toplevel_focused("zed".to_string(), "new-window".to_string()),
        Some("fr".to_string())
    );
}

#[test]
fn closed_window_falls_back_to_its_application() {
    let mut s = AppletState::new("us".to_string());
    s.toplevel_focused("term".to_string(), "a".to_string());
    s.layout_polled(Some(make_xkb("ru,us", ",")));
    s.toplevel_focused("editor".to_string(), "b".to_string());
    s.layout_polled(Some(make_xkb("us,ru", ",")));
    s.toplevel_closed("a");
    assert_eq!(s.layout_map.get("a"), None);
    assert_eq!(s.app_layouts.get("term"), Some("ru".to_string()));
    assert_eq!(s.toplevel_focused("term".to_string(), "a".to_string()), Some("ru".to_string()));
}

#[test]
fn panel_registration() {
    let list = vec!["a".to_string(), "b".to_string()];
    assert_eq!(with_plugin(&list, "me"), vec!["a", "b", "me"]);
    assert_eq!(with_plugin(&list, "a"), vec!["a", "b"]);
    let with = vec!["me".to_string(), "a".to_string(), "me".to_string()];
    assert_eq!(without_plugin(&with, "me"), vec!["a"]);
    assert_eq!(without_plugin(&list, "me"), vec!["a", "b"]);
    assert!(without_plugin(&Vec::new(), "me").is_empty());
}

#[test]
fn window_memory_wins_over_application_memory() {
    let mut s = AppletState::new("us".to_string());
    s.toplevel_focused("zed".to_string(), "w1".to_string());
    s.layout_polled(Some(make_xkb("ru,us", ",")));
    s.toplevel_focused("zed".to_string(), "w2".to_string());
    s.layout_polled(Some(make_xkb("de,us", ",")));
    s.toplevel_focused("term".to_string(), "t".to_string());
    assert_eq!(s.app_layouts.get("zed"), Some("de".to_string()));
    assert_eq!(s.toplevel_focused("zed".to_string(), "w1".to_string()), Some("ru".to_string()));
}
