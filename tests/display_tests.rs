use caboose::display::{
    ColorRole, FooterBuilder, IconManager, Icons, KeyBinding, ScrollIndicator, TerminalInfo, Theme, ThemeManager,
    Sparkline, ThemeName, ViewMode, VisualBar, navigation_footer, search_footer, standard_footer,
};
use caboose::formatting::{
    format_bytes, format_duration, format_ms, format_number, format_relative_time, pad_or_truncate, truncate,
};

#[test]
fn test_format_number() {
    assert_eq!(format_number(0), "0");
    assert_eq!(format_number(123), "123");
    assert_eq!(format_number(1234), "1,234");
    assert_eq!(format_number(1234567), "1,234,567");
}

#[test]
fn test_format_duration() {
    assert_eq!(format_duration(0), "0s");
    assert_eq!(format_duration(45), "45s");
    assert_eq!(format_duration(60), "1m 0s");
    assert_eq!(format_duration(90), "1m 30s");
    assert_eq!(format_duration(3661), "1h 1m");
}

#[test]
fn test_format_bytes() {
    assert_eq!(format_bytes(0), "0 B");
    assert_eq!(format_bytes(1023), "1023.00 B");
    assert_eq!(format_bytes(1024), "1.00 KB");
    assert_eq!(format_bytes(1048576), "1.00 MB");
}

#[test]
fn format_bytes_rounds_to_hundredths() {
    assert_eq!(format_bytes(1536), "1.50 KB");
    assert_eq!(format_bytes(1100), "1.07 KB");
}

#[test]
fn test_truncate() {
    assert_eq!(truncate("hello", 10), "hello");
    assert_eq!(truncate("hello world", 8), "hello...");
    assert_eq!(truncate("hi", 1), "...");
}

#[test]
fn test_pad_or_truncate() {
    assert_eq!(pad_or_truncate("hello", 10), "hello     ");
    assert_eq!(pad_or_truncate("hello world", 8), "hello...");
}

#[test]
fn relative_times() {
    assert_eq!(format_relative_time(30), "<1 min");
    assert_eq!(format_relative_time(90), "1 min ago");
    assert_eq!(format_relative_time(150), "2 mins ago");
    assert_eq!(format_relative_time(3700), "1 hr ago");
    assert_eq!(format_relative_time(90000), "1 day ago");
    assert_eq!(format_relative_time(200000), "2 days ago");
}

#[test]
fn test_scroll_indicator_no_scroll() {
    let indicator = ScrollIndicator::new(0, 10, 20);
    assert!(!indicator.needs_scrolling());
    assert_eq!(indicator.render(), "");
}

#[test]
fn test_scroll_indicator_format() {
    let indicator = ScrollIndicator::new(45, 100, 10);
    assert_eq!(indicator.render_with_format("[{}%]"), "[50%]");
}

#[test]
fn scroll_percent_bounds() {
    assert_eq!(ScrollIndicator::new(0, 100, 10).percent(), 0);
    assert_eq!(ScrollIndicator::new(90, 100, 10).percent(), 100);
    assert_eq!(ScrollIndicator::new(200, 100, 10).percent(), 100);
    assert_eq!(ScrollIndicator::new(45, 100, 10).render(), " 50%");
}

#[test]
fn test_icon_manager_toggle() {
    let mut manager = IconManager::new(false);
    let initial = manager.using_nerd_fonts();
    let toggled = manager.toggle();
    assert_eq!(toggled, !initial);
    let toggled_back = manager.toggle();
    assert_eq!(toggled_back, initial);
}

#[test]
fn test_icon_manager_set() {
    let mut manager = IconManager::new(false);
    manager.set_nerd_fonts(true);
    assert!(manager.using_nerd_fonts());
    manager.set_nerd_fonts(false);
    assert!(!manager.using_nerd_fonts());
}

#[test]
fn icon_set_detection() {
    let info = |setting: Option<&str>, program: Option<&str>, term: Option<&str>| TerminalInfo {
        nerd_fonts_setting: setting.map(|s| s.to_string()),
        term_program: program.map(|s| s.to_string()),
        term: term.map(|s| s.to_string()),
        wsl_distro: None,
        wt_session: None,
    };
    assert!(IconManager::detect(&info(Some("TRUE"), None, None)).using_nerd_fonts());
    assert!(!IconManager::detect(&info(Some("0"), Some("kitty"), None)).using_nerd_fonts());
    assert!(IconManager::detect(&info(None, Some("WezTerm"), None)).using_nerd_fonts());
    assert!(IconManager::detect(&info(None, None, Some("xterm-256color"))).using_nerd_fonts());
    assert!(!IconManager::detect(&info(None, Some("Terminal.app"), Some("xterm"))).using_nerd_fonts());
}

#[test]
fn test_icons_runtime_detection() {
    let mut manager = IconManager::new(true);
    manager.set_nerd_fonts(false);
    let icons = Icons::new(&manager);
    assert_eq!(icons.success(), "[✓]");
    assert_eq!(icons.error(), "[✗]");
    assert_eq!(icons.git(), "[git]");
    assert_eq!(icons.database(), "[db]");
    manager.set_nerd_fonts(true);
    let icons = Icons::new(&manager);
    assert_eq!(icons.success(), "✔");
    assert_eq!(icons.error(), "✖");
    manager.set_nerd_fonts(false);
}

#[test]
fn test_theme_names() {
    assert_eq!(ThemeName::MaterialDesign.as_str(), "material");
    assert_eq!(ThemeName::Dracula.display_name(), "Dracula");
}

#[test]
fn test_theme_from_str() {
    assert_eq!(ThemeName::from_str("material"), Some(ThemeName::MaterialDesign));
    assert_eq!(ThemeName::from_str("dracula"), Some(ThemeName::Dracula));
    assert_eq!(ThemeName::from_str("invalid"), None);
}

#[test]
fn test_theme_manager() {
    let mut manager = ThemeManager::new();
    manager.set(ThemeName::Dracula);
    assert_eq!(manager.current(), ThemeName::Dracula);
    manager.next();
    assert_eq!(manager.current(), ThemeName::Nord);
}

#[test]
fn theme_cycle_wraps_and_names_resolve() {
    let mut manager = ThemeManager::new();
    manager.set(ThemeName::Catppuccin);
    manager.next();
    assert_eq!(manager.current(), ThemeName::MaterialDesign);
    assert_eq!(manager.set_by_name("Tokyo"), Ok(ThemeName::TokyoNight));
    assert_eq!(manager.current(), ThemeName::TokyoNight);
    let err = manager.set_by_name("neon").unwrap_err();
    assert_eq!(
        err,
        "Unknown theme: 'neon'. Available themes: material, solarized, dracula, nord, tokyo-night, catppuccin"
    );
    assert_eq!(ThemeName::all().len(), 6);
}

#[test]
fn view_modes_by_index() {
    assert_eq!(ViewMode::from_index(2), Some(ViewMode::DatabaseHealth));
    assert_eq!(ViewMode::from_index(5), None);
    assert_eq!(ViewMode::RequestDetail(3).as_str(), "Request Detail");
    assert_eq!(ViewMode::all_variants().len(), 5);
}

#[test]
fn test_footer_builder() {
    let footer = FooterBuilder::new().add_binding("q", "Quit");
    assert!(!footer.bindings.is_empty());
    assert_eq!(footer.build_text(), "  q | Quit");
}

#[test]
fn standard_footer_text() {
    let footer = FooterBuilder::new().with_quit().with_toggle().with_escape();
    assert_eq!(footer.build_text(), "  q | Quit   t | Cycle Views   Esc | Back");
    let nav = FooterBuilder::new().with_navigation().with_search();
    assert_eq!(nav.bindings.len(), 2);
    assert_eq!(KeyBinding::new("Enter", "Apply").key, "Enter");
}

#[test]
fn test_health_color_ranges() {
    assert_eq!(Theme::health_color(100), ColorRole::SuccessBright);
    assert_eq!(Theme::health_color(85), ColorRole::Success);
    assert_eq!(Theme::health_color(75), ColorRole::Warning);
    assert_eq!(Theme::health_color(50), ColorRole::Caution);
    assert_eq!(Theme::health_color(20), ColorRole::Danger);
}

#[test]
fn test_duration_color() {
    assert_eq!(Theme::duration_color(25_000), ColorRole::Success);
    assert_eq!(Theme::duration_color(75_000), ColorRole::Warning);
    assert_eq!(Theme::duration_color(150_000), ColorRole::Caution);
    assert_eq!(Theme::duration_color(500_000), ColorRole::Danger);
}

#[test]
fn test_status_code_color() {
    assert_eq!(Theme::status_code_color(200), ColorRole::Success);
    assert_eq!(Theme::status_code_color(404), ColorRole::Warning);
    assert_eq!(Theme::status_code_color(500), ColorRole::Danger);
}

#[test]
fn test_standard_footer() {
    let footer = standard_footer();
    assert!(!footer.is_empty());
    assert_eq!(footer, "  q | Quit   t | Cycle Views   Esc | Back");
}

#[test]
fn test_navigation_footer() {
    let footer = navigation_footer();
    assert!(!footer.is_empty());
    assert!(footer.ends_with("Enter | View Details"));
    assert_eq!(search_footer(), "  Type to search |    Esc | Cancel   Enter | Apply");
}

#[test]
fn test_scroll_indicator_needs_scroll() {
    let indicator = ScrollIndicator::new(0, 100, 10);
    assert!(indicator.needs_scrolling());
    assert_eq!(indicator.percent(), 0);
}

#[test]
fn test_scroll_indicator_middle() {
    let indicator = ScrollIndicator::new(45, 100, 10);
    assert!(indicator.needs_scrolling());
    assert_eq!(indicator.percent(), 50);
}

#[test]
fn test_scroll_indicator_end() {
    let indicator = ScrollIndicator::new(90, 100, 10);
    assert!(indicator.needs_scrolling());
    assert_eq!(indicator.percent(), 100);
}

#[test]
fn test_format_ms() {
    assert_eq!(format_ms(500), "0.50ms");
    assert_eq!(format_ms(50_000), "50.0ms");
    assert_eq!(format_ms(1_500_000), "1.50s");
}

#[test]
fn test_sparkline_empty() {
    let sparkline = Sparkline::new(vec![]);
    assert_eq!(sparkline.render(), "");
}

#[test]
fn test_sparkline_all_zeros() {
    let sparkline = Sparkline::new(vec![0, 0, 0]);
    assert_eq!(sparkline.render(), "▁▁▁");
}

#[test]
fn test_sparkline_values() {
    let sparkline = Sparkline::new(vec![1, 2, 3, 2, 1]);
    let result = sparkline.render();
    assert_eq!(result.chars().count(), 5);
    assert!(result.chars().nth(2).unwrap() > result.chars().nth(0).unwrap());
    assert_eq!(result, "▃▅█▅▃");
}

#[test]
fn test_visual_bar() {
    let bar = VisualBar::new(50, 100, 10);
    assert_eq!(bar.render_compact(), "▅▅▅▅▅");
}

#[test]
fn test_visual_bar_full() {
    let bar = VisualBar::new(100, 100, 10);
    assert_eq!(bar.render_compact(), "▅▅▅▅▅▅▅▅▅▅");
}

#[test]
fn test_visual_bar_empty() {
    let bar = VisualBar::new(0, 100, 10);
    assert_eq!(bar.render_compact(), "");
}

#[test]
fn test_visual_bar_custom_char() {
    let bar = VisualBar::new(50, 100, 10).char('█');
    assert_eq!(bar.render_compact(), "█████");
}

#[test]
fn test_visual_bar_padded() {
    let bar = VisualBar::new(50, 100, 10);
    let rendered = bar.render();
    assert_eq!(rendered.chars().count(), 10);
    assert!(rendered.starts_with("▅▅▅▅▅"));
    assert_eq!(VisualBar::new(1, 1000, 10).render_compact(), "▅");
}

#[test]
fn truncate_counts_bytes() {
    assert_eq!(truncate("ééé", 5), "é...");
    assert_eq!(truncate("ééé", 6), "ééé");
    assert_eq!(pad_or_truncate("é", 4), "é   ");
    assert_eq!(pad_or_truncate("ééé", 5), "é...");
}

#[test]
fn theme_cycle_from_out_of_range_index() {
    let mut manager = ThemeManager { index: 9 };
    assert_eq!(manager.current(), ThemeName::MaterialDesign);
    manager.next();
    assert_eq!(manager.current(), ThemeName::SolarizedDark);
}
