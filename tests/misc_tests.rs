use softwarehub::theme::{
    decoration_theme_from, parse_color, titlebar_color_from,
    get_button_icons, icon_file_data_url, system_icon_candidates, theme_dir, theme_icon_candidates,
    ButtonIcons,
};
use softwarehub::util::{window_step, SpeedCalculator, Throughput, WindowStep};

#[test]
fn speed_reports_after_window() {
    let early = window_step(0, 500, 50_000);
    assert_eq!(early, WindowStep { throughput: Throughput { bytes: 0, micros: 0 }, restart: false });
    let full = window_step(0, 2_000_000, 1_000_000);
    assert_eq!(full, WindowStep { throughput: Throughput { bytes: 2_000_000, micros: 1_000_000 }, restart: true });
    let shrunk = window_step(2_000_000, 1_000, 1_000_000);
    assert_eq!(shrunk.throughput, Throughput { bytes: 0, micros: 1_000_000 });
    assert!(shrunk.restart);
    let mut live = SpeedCalculator::new();
    let t = live.calculate_speed(10);
    assert!(t.bytes <= 10);
}

#[test]
fn theme_icon_paths_in_order() {
    let dir = theme_dir("Breeze");
    assert_eq!(dir, "/usr/share/kwin/decorations/Breeze");
    let c = theme_icon_candidates(&dir, "close");
    assert_eq!(c[0], "/usr/share/kwin/decorations/Breeze/close22.svg");
    assert_eq!(c[3], "/usr/share/kwin/decorations/Breeze/close24.png");
    let s = system_icon_candidates("window-close");
    assert_eq!(s.len(), 18);
    assert_eq!(s[0], "/usr/share/icons/breeze/actions/22/window-close.svg");
    assert_eq!(s[3], "/usr/share/icons/breeze/actions/16/window-close.png");
    assert_eq!(s[17], "/usr/share/icons/Adwaita/actions/24/window-close.png");
}

#[test]
fn button_icons_fall_back_to_system() {
    let theme = ButtonIcons { close: Some("t".to_string()), maximize: None, minimize: None, restore: None };
    let system = ButtonIcons { close: Some("s".to_string()), maximize: Some("m".to_string()), minimize: None, restore: None };
    let r = get_button_icons(&theme, &system);
    assert_eq!(r.close.as_deref(), Some("t"));
    assert_eq!(r.maximize.as_deref(), Some("m"));
    assert_eq!(r.minimize, None);
    assert_eq!(icon_file_data_url(true, &b"hello".to_vec()), "data:image/svg+xml;base64,aGVsbG8=");
}

#[test]
fn colors_parse_from_settings() {
    assert_eq!(parse_color("  #ff0000 "), "#ff0000");
    assert_eq!(parse_color("61,174,233"), "#3daee9");
    assert_eq!(parse_color(" 255, 0 ,+16"), "#ff0010");
    assert_eq!(parse_color("256,0,0"), "#3daee9");
    assert_eq!(parse_color("1,2"), "#3daee9");
    assert_eq!(parse_color("a,b,c"), "#3daee9");
    assert_eq!(parse_color(""), "#3daee9");
}

#[test]
fn decoration_theme_from_section() {
    let lines: Vec<String> = vec![
        "theme=Outside".to_string(),
        "[org.kde.kdecoration2]".to_string(),
        "library=org.kde.breeze".to_string(),
        "theme= Oxygen ".to_string(),
        "[Other]".to_string(),
    ];
    assert_eq!(decoration_theme_from(Some(&lines)), "Oxygen");
    assert_eq!(decoration_theme_from(None), "Breeze");
    let closed = vec!["[org.kde.kdecoration2]".to_string(), "[Next]".to_string(), "theme=X".to_string()];
    assert_eq!(decoration_theme_from(Some(&closed)), "Breeze");
}

#[test]
fn titlebar_color_from_wm_section() {
    let lines: Vec<String> = vec![
        "[General]".to_string(),
        "activeBackground=1,1,1".to_string(),
        "[WM]".to_string(),
        "activeBackground=71,80,87".to_string(),
    ];
    assert_eq!(titlebar_color_from(Some(&lines)).titlebar_bg, "#475057");
    assert_eq!(titlebar_color_from(None).titlebar_bg, "#3daee9");
}
