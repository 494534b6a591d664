use wbwime::gui_config::{GuiConfig, PageKeyRole, PageKeys};

fn themed(name: &str) -> GuiConfig {
    let mut config = GuiConfig::default();
    config.theme = name.to_string();
    config.apply_theme(name);
    config
}

#[test]
fn test_default_config() {
    let config = GuiConfig::default();
    assert_eq!(config.page_size, 10);
    assert!(!config.window.background_color.is_empty());
    assert_eq!(config.candidate_item.selected_background_color, "#0078D4");
    assert!(config.window.font_family.contains("Microsoft YaHei"));
    assert!(config.window.font_feature_settings.is_empty());
    assert_eq!(config.pagination.position, "both");
    assert_eq!(config.pagination.prev_icon, "◀");
    assert_eq!(config.pagination.next_icon, "▶");
    assert_eq!(config.behavior.page_keys.previous, vec!["PageUp".to_string()]);
    assert_eq!(config.behavior.page_keys.next, vec!["PageDown".to_string()]);
}

#[test]
fn test_theme_dark_preset() {
    let config = themed("dark");
    assert_eq!(config.window.background_color, "#1E1E1E");
    assert_eq!(config.buffer_bar.background_color, "#252526");
    assert_eq!(config.candidate_bar.background_color, "#252526");
    assert_eq!(config.candidate_item.selected_background_color, "#0E639C");
}

#[test]
fn test_theme_dark_plus_preset() {
    let config = themed("dark_plus");
    assert_eq!(config.window.background_color, "#1E1E1E");
    assert_eq!(config.candidate_item.selected_background_color, "#094771");
}

#[test]
fn test_theme_light_preset() {
    let config = themed("light");
    assert_eq!(config.window.background_color, "#FFFFFF");
    assert_eq!(config.candidate_item.text_color, "#000000");
    assert_eq!(config.candidate_item.selected_background_color, "#0066FF");
}

#[test]
fn test_theme_unknown_keeps_default() {
    let config = themed("custom");
    assert_eq!(config.window.background_color, "#FFFFFF");
    assert_eq!(config.candidate_item.selected_background_color, "#0078D4");
}

#[test]
fn test_theme_only_overrides_colors() {
    let mut config = GuiConfig::default();
    config.page_size = 7;
    config.candidate_item.font_size = 20;
    config.apply_theme("dark");
    assert_eq!(config.page_size, 7);
    assert_eq!(config.candidate_item.font_size, 20);
    assert_eq!(config.window.background_color, "#1E1E1E");
}

#[test]
fn theme_light_plus_and_all_colors() {
    let config = themed("light_plus");
    assert_eq!(config.window.border_color, "#C8C8C8");
    assert_eq!(config.buffer_bar.text_color, "#333333");
    assert_eq!(config.buffer_bar.background_color, "#F3F3F3");
    assert_eq!(config.candidate_item.selected_text_color, "#FFFFFF");
    assert_eq!(config.candidate_item.selected_background_color, "#005FB8");
    assert_eq!(config.candidate_item.index_color, "#606060");
    assert_eq!(config.pagination.icon_color, "#007ACC");
    assert_eq!(config.pagination.info_color, "#808080");
}

#[test]
fn theme_applied_twice_is_applied_once() {
    let mut once = GuiConfig::default();
    once.apply_theme("dark_plus");
    let mut twice = once.clone();
    twice.apply_theme("dark_plus");
    assert_eq!(once.window.background_color, twice.window.background_color);
    assert_eq!(once.pagination.icon_color, twice.pagination.icon_color);
    assert_eq!(twice.pagination.info_color, "#6E6E6E");
}

#[test]
fn theme_name_is_case_sensitive() {
    let config = themed("Dark");
    assert_eq!(config.window.background_color, "#FFFFFF");
    let config = themed("");
    assert_eq!(config.buffer_bar.background_color, "#F5F5F5");
}

#[test]
fn page_keys_roles() {
    let keys = PageKeys::default();
    assert_eq!(keys.role_of("PageUp"), PageKeyRole::Previous);
    assert_eq!(keys.role_of("PageDown"), PageKeyRole::Next);
    assert_eq!(keys.role_of("Left"), PageKeyRole::Keep);
    let custom = PageKeys { previous: vec!["Left".into(), "Minus".into()], next: vec!["Right".into(), "Minus".into()] };
    assert_eq!(custom.role_of("Minus"), PageKeyRole::Previous);
    assert_eq!(custom.role_of("Right"), PageKeyRole::Next);
    assert_eq!(custom.role_of("PageUp"), PageKeyRole::Keep);
}
