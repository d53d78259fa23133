use fsp::color::{color_to_hex, parse_color, Rgba};
use fsp::ini::parse_ini;
use fsp::settings::{expand_env_vars, AnnotationPreset, EnvVars, Settings};
use fsp::text::parse_u64;

fn default_settings() -> Settings<f32> {
    Settings::new_default("Screenshots".to_string(), 3.0, 2.0, 2.5, 4.0)
}

#[test]
fn test_parse_color() {
    assert_eq!(parse_color("#FF0000"), Some(Rgba([255, 0, 0, 255])));
    assert_eq!(parse_color("00FF00"), Some(Rgba([0, 255, 0, 255])));
    assert_eq!(parse_color("0000FF"), Some(Rgba([0, 0, 255, 255])));
    assert_eq!(parse_color("invalid"), None);
}

#[test]
fn test_color_to_hex() {
    assert_eq!(color_to_hex(&Rgba([255, 0, 0, 255])), "#FF0000");
    assert_eq!(color_to_hex(&Rgba([0, 255, 0, 255])), "#00FF00");
    assert_eq!(color_to_hex(&Rgba([0, 0, 255, 255])), "#0000FF");
}

#[test]
fn test_parse_ini() {
    let content = r#"
[Section1]
key1=value1
key2=value2

[Section2]
key3=value3
"#;

    let config = parse_ini(content);
    assert_eq!(config.len(), 2);
    assert_eq!(config.get("Section1").unwrap().get("key1").unwrap(), "value1");
    assert_eq!(config.get("Section2").unwrap().get("key3").unwrap(), "value3");
}

#[test]
fn test_default_settings() {
    let settings = default_settings();
    assert_eq!(settings.presets.len(), 4);
    assert_eq!(settings.current_preset, 0);
    assert_eq!(settings.show_tray_icon, true);
    assert_eq!(settings.hotkey_enabled, true);
}

#[test]
fn parse_color_accepts_lowercase_plus_and_many_hashes() {
    assert_eq!(parse_color("##ff6464"), Some(Rgba([255, 100, 100, 255])));
    assert_eq!(parse_color("+F+F+F"), Some(Rgba([15, 15, 15, 255])));
    assert_eq!(parse_color("#FF00"), None);
    assert_eq!(parse_color("#FF00000"), None);
    assert_eq!(parse_color("#-10000"), None);
    assert_eq!(parse_color(""), None);
}

#[test]
fn color_hex_roundtrip_drops_alpha() {
    let c = Rgba([18, 52, 171, 7]);
    let text = color_to_hex(&c);
    assert_eq!(text, "#1234AB");
    assert_eq!(parse_color(&text), Some(Rgba([18, 52, 171, 255])));
}

#[test]
fn ini_skips_comments_and_keys_outside_sections() {
    let content = "orphan=1\r\n; comment\r\n# another\r\n[ A ]\r\n  k = v w  \r\nk=again\r\nnovalue\r\nx=a=b\r\n[]\r\ny=2\r\n";
    let config = parse_ini(content);
    assert_eq!(config.len(), 2);
    let a = config.get(" A ").unwrap();
    assert_eq!(a.len(), 2);
    assert_eq!(a.get("k").unwrap(), "again");
    assert_eq!(a.get("x").unwrap(), "a=b");
    let empty = config.get("").unwrap();
    assert_eq!(empty.len(), 0);
    assert!(config.get("A").is_none());
}

#[test]
fn ini_reopened_section_keeps_its_keys() {
    let config = parse_ini("[S]\na=1\n[T]\nb=2\n[S]\nc=3");
    let s = config.get("S").unwrap();
    assert_eq!(s.len(), 2);
    assert_eq!(s.get("a").unwrap(), "1");
    assert_eq!(s.get("c").unwrap(), "3");
    assert_eq!(config.len(), 2);
}

#[test]
fn parse_u64_follows_std() {
    assert_eq!(parse_u64("24"), Some(24));
    assert_eq!(parse_u64("+7"), Some(7));
    assert_eq!(parse_u64("007"), Some(7));
    assert_eq!(parse_u64(""), None);
    assert_eq!(parse_u64("+"), None);
    assert_eq!(parse_u64("-1"), None);
    assert_eq!(parse_u64("1 "), None);
    assert_eq!(parse_u64("18446744073709551615"), Some(u64::MAX));
    assert_eq!(parse_u64("18446744073709551616"), None);
}

#[test]
fn expand_env_vars_replaces_set_variables() {
    let env = EnvVars { userprofile: Some("C:\\Users\\me".to_string()), appdata: None };
    assert_eq!(
        expand_env_vars("%USERPROFILE%\\Pictures\\%APPDATA%", &env),
        "C:\\Users\\me\\Pictures\\%APPDATA%"
    );
    let both = EnvVars { userprofile: Some("U".to_string()), appdata: Some("A".to_string()) };
    assert_eq!(expand_env_vars("%APPDATA%/%USERPROFILE%%USERPROFILE%", &both), "A/UU");
}

#[test]
fn presets_have_their_colors() {
    let p = AnnotationPreset::dark_mode(3.0f32);
    assert_eq!(p.name, "Dark Mode");
    assert_eq!(p.rectangle_color, Rgba([255, 100, 100, 255]));
    assert_eq!(p.line_width, 3.0);
    let q = AnnotationPreset::custom_2(4.0f32);
    assert_eq!(q.text_color, Rgba([30, 144, 255, 255]));
}

#[test]
fn current_preset_and_updates() {
    let mut s = default_settings();
    s.set_current_preset(7);
    assert_eq!(s.current_preset, 0);
    s.set_current_preset(2);
    assert_eq!(s.get_current_preset().name, "Custom 1");
    s.current_preset = 9;
    assert_eq!(s.get_current_preset().name, "Custom 2");
    s.update_preset(1, Some(Rgba([1, 2, 3, 4])), None, None, Some(9.5));
    assert_eq!(s.presets[1].rectangle_color, Rgba([1, 2, 3, 4]));
    assert_eq!(s.presets[1].arrow_color, Rgba([0, 150, 0, 255]));
    assert_eq!(s.presets[1].line_width, 9.5);
    s.update_preset(8, Some(Rgba([1, 2, 3, 4])), None, None, None);
}

#[test]
fn settings_text_layout() {
    let s = default_settings();
    let text = s.to_ini_text(|w: &f32| format!("{}", w));
    assert!(text.starts_with("[DarkMode]\nrectangle=#FF6464\narrow=#64FF64\ntext=#FFFFFF\nline_width=3\n\n[LightMode]\n"));
    assert!(text.ends_with("[Output]\nDefaultPath=Screenshots\nFilePattern=screenshot_{timestamp}.png\n\n[Behavior]\nAutoStart=false\nShowTrayIcon=true\nHotkeyEnabled=true\nCleanupOldFiles=true\nMaxFileAgeHours=24\n"));
}

#[test]
fn settings_roundtrip_through_text() {
    let mut s = default_settings();
    s.update_preset(0, Some(Rgba([1, 2, 3, 4])), Some(Rgba([10, 20, 30, 255])), None, Some(1.25));
    s.update_preset(3, None, None, Some(Rgba([200, 100, 0, 255])), Some(6.0));
    s.output_path = "%USERPROFILE%\\Shots".to_string();
    s.file_pattern = "cap_{timestamp}.png".to_string();
    s.auto_start = true;
    s.cleanup_old_files = false;
    s.max_file_age_hours = 72;
    let text = s.to_ini_text(|w: &f32| format!("{}", w));

    let mut loaded = default_settings();
    let env = EnvVars { userprofile: Some("C:\\Users\\me".to_string()), appdata: None };
    loaded.apply_config(&parse_ini(&text), &env, |t: &str| t.parse::<f32>().ok());
    assert_eq!(loaded.presets[0].rectangle_color, Rgba([1, 2, 3, 255]));
    assert_eq!(loaded.presets[0].arrow_color, Rgba([10, 20, 30, 255]));
    assert_eq!(loaded.presets[0].line_width, 1.25);
    assert_eq!(loaded.presets[3].text_color, Rgba([200, 100, 0, 255]));
    assert_eq!(loaded.presets[3].line_width, 6.0);
    assert_eq!(loaded.output_path, "C:\\Users\\me\\Shots");
    assert_eq!(loaded.file_pattern, "cap_{timestamp}.png");
    assert!(loaded.auto_start);
    assert!(!loaded.cleanup_old_files);
    assert_eq!(loaded.max_file_age_hours, 72);
}

#[test]
fn apply_config_ignores_bad_values() {
    let text = "[DarkMode]\nrectangle=nothex\nline_width=wide\narrow=#010203\n[Behavior]\nAutoStart=TRUE\nMaxFileAgeHours=-3\nShowTrayIcon=false\n";
    let mut s = default_settings();
    s.apply_config(&parse_ini(text), &EnvVars { userprofile: None, appdata: None }, |t: &str| t.parse::<f32>().ok());
    assert_eq!(s.presets[0].rectangle_color, Rgba([255, 100, 100, 255]));
    assert_eq!(s.presets[0].arrow_color, Rgba([1, 2, 3, 255]));
    assert_eq!(s.presets[0].line_width, 3.0);
    assert!(!s.auto_start);
    assert!(!s.show_tray_icon);
    assert_eq!(s.max_file_age_hours, 24);
}

#[test]
fn blank_and_comment_lines_do_not_change_the_result() {
    let plain = "[A]\nx=1\ny=2\n[B]\nz=3\n";
    let noisy = "; heading\n\n[A]\n   \nx=1\n# note\n  ;another\ny=2\n\n[B]\n#\nz=3\n\n";
    let a = parse_ini(plain);
    let b = parse_ini(noisy);
    assert_eq!(a.len(), b.len());
    for (sec, key, val) in [("A", "x", "1"), ("A", "y", "2"), ("B", "z", "3")] {
        assert_eq!(a.get(sec).unwrap().get(key).unwrap(), val);
        assert_eq!(b.get(sec).unwrap().get(key).unwrap(), val);
        assert_eq!(a.get(sec).unwrap().len(), b.get(sec).unwrap().len());
    }
}

#[test]
fn apply_config_checked_refuses_unreadable_files() {
    let env = EnvVars { userprofile: None, appdata: None };
    let mut s = default_settings();
    let cut = parse_ini("[DarkMode]\nrectangle=a\u{20ac}bc\n[Behavior]\nAutoStart=true\n");
    assert!(!s.apply_config_checked(&cut, &env, |t: &str| t.parse::<f32>().ok()));
    assert!(!s.auto_start);
    assert_eq!(s.presets[0].rectangle_color, Rgba([255, 100, 100, 255]));

    let mut one = default_settings();
    one.presets.truncate(1);
    let past = parse_ini("[LightMode]\nline_width=9\n");
    assert!(!one.apply_config_checked(&past, &env, |t: &str| t.parse::<f32>().ok()));
    assert_eq!(one.presets.len(), 1);

    let good = parse_ini("[DarkMode]\nrectangle=#010203\n[Behavior]\nAutoStart=true\n");
    assert!(s.apply_config_checked(&good, &env, |t: &str| t.parse::<f32>().ok()));
    assert!(s.auto_start);
    assert_eq!(s.presets[0].rectangle_color, Rgba([1, 2, 3, 255]));
}
