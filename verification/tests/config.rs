use visualizer::config::{
    config_path, orbit_texts, part_name, read_line, Entry, OrbitField, PathPart, Settings,
};
use visualizer::single::Single;

fn single(x: f32) -> Single {
    Single { bits: x.to_bits() }
}

fn number(s: Single) -> f32 {
    f32::from_bits(s.bits)
}

fn save(s: &Settings) -> String {
    s.save_to(
        &number(s.globe_yaw).to_string(),
        &number(s.globe_pitch).to_string(),
        &number(s.globe_zoom).to_string(),
    )
}

fn load(contents: Option<&str>) -> Settings {
    let numbers: Vec<Option<Single>> = match contents {
        Some(t) => orbit_texts(t).iter().map(|n| n.parse::<f32>().ok().map(single)).collect(),
        None => Vec::new(),
    };
    Settings::load_from(contents, &numbers)
}

#[test]
fn roundtrip() {
    let s = Settings {
        accent: 3,
        globe: true,
        overlay_mode: 2,
        globe_yaw: single(1.25),
        globe_pitch: single(-0.5),
        globe_zoom: single(1.75),
    };
    let text = save(&s);
    let loaded = load(Some(&text));
    assert_eq!(loaded.accent, 3);
    assert!(loaded.globe);
    assert_eq!(loaded.overlay_mode, 2);
    assert!((number(loaded.globe_yaw) - 1.25).abs() < 1e-6);
    assert!((number(loaded.globe_pitch) + 0.5).abs() < 1e-6);
    assert!((number(loaded.globe_zoom) - 1.75).abs() < 1e-6);
    assert_eq!(loaded, s);
}

#[test]
fn missing_file_is_default() {
    let loaded = load(None);
    assert_eq!(loaded.accent, 0);
    assert!(!loaded.globe);
    assert_eq!(loaded, Settings::default());
}

#[test]
fn defaults_are_exact() {
    let s = Settings::default();
    assert_eq!(s.overlay_mode, 0);
    assert_eq!(number(s.globe_yaw), 0.0);
    assert_eq!(number(s.globe_pitch), 0.0);
    assert_eq!(number(s.globe_zoom), 1.0);
}

#[test]
fn saved_text_is_exact() {
    let s = Settings {
        accent: 12,
        globe: false,
        overlay_mode: 255,
        globe_yaw: single(0.0),
        globe_pitch: single(-1.3),
        globe_zoom: single(4.0),
    };
    assert_eq!(
        save(&s),
        "accent=12\nglobe=false\noverlay_mode=255\nglobe_yaw=0\nglobe_pitch=-1.3\nglobe_zoom=4\n"
    );
}

#[test]
fn bad_lines_are_passed_over() {
    let text = "nonsense\n\naccent = x\n overlay_mode=256\nunknown=1\nglobe_zoom=wide\r\n\
                accent=+4\nglobe=TRUE\nglobe_yaw = 2.5 \r\naccent=-1";
    let s = load(Some(text));
    assert_eq!(s.accent, 4);
    assert_eq!(s.overlay_mode, 0);
    assert!(!s.globe);
    assert_eq!(number(s.globe_yaw), 2.5);
    assert_eq!(number(s.globe_zoom), 1.0);
}

#[test]
fn later_lines_win() {
    let s = load(Some("accent=1\nglobe=true\naccent=2\nglobe=no\nglobe_pitch=1\nglobe_pitch=2\n"));
    assert_eq!(s.accent, 2);
    assert!(!s.globe);
    assert_eq!(number(s.globe_pitch), 2.0);
}

#[test]
fn value_begins_at_the_first_equals_sign() {
    assert!(matches!(read_line("globe_yaw=1=2"), Some(Entry::Orbit(OrbitField::Yaw, t)) if t == "1=2"));
    assert!(matches!(read_line("\taccent\u{a0}=\u{3000}7 "), Some(Entry::Accent(7))));
    assert!(read_line("accent").is_none());
    assert!(read_line("=1").is_none());
    assert!(read_line("accent=").is_none());
    assert!(matches!(read_line("globe="), Some(Entry::Globe(false))));
    assert!(matches!(read_line("overlay_mode=007"), Some(Entry::OverlayMode(7))));
}

#[test]
fn orbit_texts_come_in_order() {
    let texts = orbit_texts("globe_zoom= 3 \naccent=1\nglobe_yaw=a b\nglobe_pitch=");
    assert_eq!(texts, vec!["3".to_string(), "a b".to_string(), String::new()]);
}

#[test]
fn two_texts_below_each_other() {
    let a = load(Some("accent=1\nglobe_yaw=1"));
    let both = load(Some("accent=1\nglobe_yaw=1\nglobe=true"));
    assert_eq!(both, Settings { globe: true, ..a });
}

#[test]
fn settings_path_parts() {
    assert_eq!(
        config_path(true, true),
        Some(vec![PathPart::ConfigHome, PathPart::Visualizer, PathPart::SettingsFile])
    );
    assert_eq!(
        config_path(false, true),
        Some(vec![
            PathPart::Home,
            PathPart::DotConfig,
            PathPart::Visualizer,
            PathPart::SettingsFile
        ])
    );
    assert_eq!(config_path(false, false), None);
}

#[test]
fn parts_of_the_path_have_names() {
    assert_eq!(part_name(PathPart::ConfigHome), None);
    assert_eq!(part_name(PathPart::Home), None);
    assert_eq!(part_name(PathPart::DotConfig), Some(".config"));
    assert_eq!(part_name(PathPart::Visualizer), Some("visualizer"));
    assert_eq!(part_name(PathPart::SettingsFile), Some("settings.conf"));
}

#[test]
fn junk_and_order_make_no_difference() {
    let plain = load(Some("accent=3\nglobe_zoom=2\naccent=5\nglobe=true"));
    for junk in ["", "hello", "colour=red", "accent=-1", "globe_zoom=far", "overlay_mode=300"] {
        let text = format!("{junk}\naccent=3\nglobe_zoom=2\n{junk}\naccent=5\nglobe=true\n{junk}");
        assert_eq!(load(Some(&text)), plain);
    }
    assert_eq!(load(Some("globe=true\naccent=3\naccent=5\nglobe_zoom=2")), plain);
    assert_eq!(load(Some("accent=3\naccent=5\nglobe_zoom=2\nglobe=true")), plain);
    assert_ne!(load(Some("accent=5\nglobe_zoom=2\naccent=3\nglobe=true")), plain);
}
