use visualizer::app::{
    accent_name, accent_rgb, back_off, fade_phase, find_accent, parse_options, source_line,
    start_text, App, FadePhase, Key, KeyAction, OverlayMode, Response, Visibility, WindowEvent,
    ACCENT_COUNT,
};
use visualizer::audio::{Command, SourceInfo};
use visualizer::single::Single;

fn single(x: f32) -> Single {
    Single { bits: x.to_bits() }
}

fn args(list: &[&str]) -> Vec<String> {
    list.iter().map(|s| s.to_string()).collect()
}

fn key(s: &str) -> Key {
    Key::Character(s.to_string())
}

fn sources() -> Vec<SourceInfo> {
    vec![
        SourceInfo { id: 31, name: "Speakers".to_string(), is_sink: true },
        SourceInfo { id: 47, name: "Mic".to_string(), is_sink: false },
        SourceInfo { id: 5, name: "Line".to_string(), is_sink: false },
    ]
}

#[test]
fn overlay_modes() {
    assert_eq!(OverlayMode::Occasional.next(), OverlayMode::Permanent);
    assert_eq!(OverlayMode::Permanent.next(), OverlayMode::Never);
    assert_eq!(OverlayMode::Never.next(), OverlayMode::Occasional);
    assert_eq!(OverlayMode::Occasional.label(), "occasional");
    assert_eq!(OverlayMode::Permanent.label(), "permanent");
    assert_eq!(OverlayMode::Never.label(), "never");
}

#[test]
fn accents_have_names_and_colours() {
    let names = ["neon-red", "amber", "green", "cyan", "violet", "white"];
    for (i, n) in names.iter().enumerate() {
        assert_eq!(accent_name(i), *n);
        assert_eq!(find_accent(n), Some(i));
    }
    assert_eq!(find_accent("Cyan"), None);
    assert_eq!(accent_rgb(0), (100, 10, 22));
    assert_eq!(accent_rgb(1), (100, 45, 5));
    assert_eq!(accent_rgb(2), (25, 100, 30));
    assert_eq!(accent_rgb(3), (0, 85, 100));
    assert_eq!(accent_rgb(4), (55, 20, 100));
    assert_eq!(accent_rgb(5), (100, 100, 100));
}

#[test]
fn command_line() {
    let o = parse_options(&args(&["visualizer"]));
    assert_eq!((o.list_sources, o.accent, o.capture_system_output), (false, 0, true));
    let o = parse_options(&args(&["visualizer", "--mic", "--accent", "cyan"]));
    assert_eq!((o.list_sources, o.accent, o.capture_system_output), (false, 3, false));
    assert_eq!(start_text(&o), "Capturing default microphone/input.  Accent: cyan");
    let o = parse_options(&args(&["visualizer", "--accent", "pink", "--accent", "cyan"]));
    assert_eq!(o.accent, 0);
    assert_eq!(start_text(&o), "Capturing system output (default sink monitor).  Accent: neon-red");
    let o = parse_options(&args(&["visualizer", "--list-sources", "--accent"]));
    assert_eq!((o.list_sources, o.accent), (true, 0));
}

#[test]
fn listing_is_aligned() {
    assert_eq!(source_line(&sources()[0]), "  id=31    output/monitor Speakers");
    assert_eq!(source_line(&sources()[1]), "  id=47    input          Mic");
}

#[test]
fn keys_and_actions() {
    let app = App::new(48000, 5);
    assert_eq!(app.key_action(&Key::Escape), KeyAction::Exit);
    assert_eq!(app.key_action(&Key::Tab), KeyAction::CycleSource);
    assert_eq!(app.key_action(&Key::Space), KeyAction::CycleOverlayMode);
    assert_eq!(app.key_action(&Key::F11), KeyAction::ToggleFullscreen);
    assert_eq!(app.key_action(&Key::Other), KeyAction::Ignore);
    assert_eq!(app.key_action(&key("f")), KeyAction::ToggleFullscreen);
    assert_eq!(app.key_action(&key("F")), KeyAction::ToggleFullscreen);
    assert_eq!(app.key_action(&key("ff")), KeyAction::Ignore);
    assert_eq!(app.key_action(&key("C")), KeyAction::SetAccent(6));
    assert_eq!(app.key_action(&key("1")), KeyAction::SetAccent(0));
    assert_eq!(app.key_action(&key("6x")), KeyAction::SetAccent(5));
    assert_eq!(app.key_action(&key("7")), KeyAction::Ignore);
    assert_eq!(app.key_action(&key("0")), KeyAction::Ignore);
    assert_eq!(app.key_action(&key("")), KeyAction::Ignore);
    assert_eq!(app.key_action(&key("x")), KeyAction::Ignore);
}

#[test]
fn accents_cycle_round() {
    let mut app = App::new(48000, 0);
    for i in 1..=ACCENT_COUNT {
        let r = app.key_pressed(&key("c"), true, &sources());
        assert_eq!(app.accent, i % ACCENT_COUNT);
        assert!(
            matches!(r, Response::AccentChanged { message } if message == format!("→ accent: {}", accent_name(i % 6)))
        );
    }
}

#[test]
fn tab_cycles_through_all_sources() {
    let mut app = App::new(48000, 0);
    let r = app.cycle_source(&sources());
    assert!(matches!(r, Response::Capture { message, command: Command::Connect { target: Some(47), capture_sink: false } }
        if message == "→ capturing [47] Mic (input)"));
    app.cycle_source(&sources());
    assert_eq!(app.sel, 2);
    let r = app.cycle_source(&sources());
    assert_eq!(app.sel, 0);
    assert!(matches!(r, Response::Capture { message, command: Command::Connect { target: Some(31), capture_sink: true } }
        if message == "→ capturing [31] Speakers (output/monitor)"));
    let r = app.cycle_source(&Vec::new());
    assert!(matches!(r, Response::NoSources { message } if message == "No audio sources discovered yet."));
    assert_eq!(app.sel, 0);
}

#[test]
fn fullscreen_toggles() {
    let mut app = App::new(48000, 0);
    assert_eq!(app.toggle_fullscreen(false), None);
    assert_eq!(app.toggle_fullscreen(true), Some(true));
    assert_eq!(app.toggle_fullscreen(true), Some(false));
}

#[test]
fn window_events() {
    let mut app = App::new(48000, 0);
    let s = sources();
    assert!(matches!(app.window_event(&WindowEvent::CloseRequested, true, &s), Response::Exit));
    let e = WindowEvent::Resized { width: 3, height: 0 };
    assert!(matches!(app.window_event(&e, true, &s), Response::Resize { width: 3, height: 0 }));
    assert!(matches!(app.window_event(&WindowEvent::RedrawRequested, true, &s), Response::Redraw));
    assert!(matches!(app.window_event(&WindowEvent::Other, true, &s), Response::Nothing));
    let e = WindowEvent::Keyboard { key: Key::Escape, pressed: false, repeat: false };
    assert!(matches!(app.window_event(&e, true, &s), Response::Nothing));
    let e = WindowEvent::Keyboard { key: Key::Space, pressed: true, repeat: true };
    assert!(matches!(app.window_event(&e, true, &s), Response::Nothing));
    assert_eq!(app.overlay_mode, OverlayMode::Occasional);
    let e = WindowEvent::Keyboard { key: Key::Space, pressed: true, repeat: false };
    assert!(matches!(app.window_event(&e, true, &s), Response::OverlayChanged { message }
        if message == "→ now-playing overlay: permanent"));
    let e = WindowEvent::Keyboard { key: key("F"), pressed: true, repeat: false };
    assert!(matches!(app.window_event(&e, true, &s), Response::Fullscreen(true)));
    assert!(matches!(app.window_event(&e, false, &s), Response::Nothing));
}

#[test]
fn analysis_follows_the_rate() {
    let mut app = App::new(48000, 0);
    assert!(!app.update_rate(48000));
    assert!(app.update_rate(44100));
    assert!(!app.update_rate(44100));
    assert_eq!(app.last_rate, 44100);
}

#[test]
fn overlay_comes_up_for_songs() {
    let song = |s: &str| Some(s.to_string());
    let mut app = App::new(48000, 0);
    assert!(!app.update_track(None, single(99.0)));
    assert_eq!(app.overlay_visibility(single(1.0)), Visibility::Hidden);
    assert!(app.update_track(song("a"), single(0.0)));
    assert!(!app.update_track(song("a"), single(29.9)));
    assert!(app.update_track(song("a"), single(30.0)));
    assert!(app.update_track(song("b"), single(1.0)));
    assert_eq!(app.overlay_visibility(single(1.0)), Visibility::Fading(FadePhase::Up));
    app.cycle_overlay_mode();
    assert!(!app.update_track(song("b"), single(31.0)));
    assert_eq!(app.overlay_visibility(single(100.0)), Visibility::Full);
    app.cycle_overlay_mode();
    assert_eq!(app.overlay_visibility(single(1.0)), Visibility::Hidden);
    assert!(!app.update_track(None, single(1.0)));
    assert!(app.track.is_none());
}

#[test]
fn fades_in_and_out() {
    assert_eq!(fade_phase(single(0.0)), FadePhase::FadingIn);
    assert_eq!(fade_phase(single(0.49)), FadePhase::FadingIn);
    assert_eq!(fade_phase(single(0.5)), FadePhase::Up);
    assert_eq!(fade_phase(single(5.4)), FadePhase::Up);
    assert_eq!(fade_phase(single(0.5 + 5.0)), FadePhase::FadingOut);
    assert_eq!(fade_phase(single(6.6)), FadePhase::FadingOut);
    assert_eq!(fade_phase(single(0.5f32 + 5.0f32 + 1.2f32)), FadePhase::Hidden);
    assert_eq!(fade_phase(single(100.0)), FadePhase::Hidden);
    assert_eq!(fade_phase(single(f32::NAN)), FadePhase::Hidden);
}

#[test]
fn hidden_frames_wait() {
    assert_eq!(back_off(true), 0);
    assert_eq!(back_off(false), 8);
}

#[test]
fn tab_visits_each_source_once() {
    let mut app = App::new(48000, 0);
    app.cycle_source(&sources());
    let start = app.sel;
    let mut seen = Vec::new();
    for _ in 0..sources().len() {
        app.cycle_source(&sources());
        seen.push(app.sel);
    }
    assert_eq!(app.sel, start);
    seen.sort();
    assert_eq!(seen, vec![0, 1, 2]);
}
