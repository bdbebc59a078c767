use visualizer::audio::{
    classify_node, connect_command, copy_source, decode_frames, deliver, enumerate_global,
    enumeration_done, handle_command, param_changed, stream_properties, AudioEngine, CaptureState,
    Command, GlobalObject, LoopAction, NodeProps, ParamChange, SourceInfo, StreamProperty,
    RING_CAPACITY,
};

fn text(s: Option<&str>) -> Option<String> {
    s.map(|t| t.to_string())
}

fn node(id: u32, class: Option<&str>, names: [Option<&str>; 3]) -> GlobalObject {
    GlobalObject {
        id,
        is_node: true,
        props: Some(NodeProps {
            media_class: text(class),
            description: text(names[0]),
            nick: text(names[1]),
            name: text(names[2]),
        }),
    }
}

#[test]
fn classifies_sinks_and_sources() {
    let s = classify_node(&node(3, Some("Audio/Sink"), [Some("Speakers"), Some("n"), Some("m")]));
    let s = s.unwrap();
    assert_eq!((s.id, s.name.as_str(), s.is_sink), (3, "Speakers", true));
    let s = classify_node(&node(4, Some("Audio/Source/Virtual"), [None, Some("Mic"), Some("m")]));
    let s = s.unwrap();
    assert_eq!((s.id, s.name.as_str(), s.is_sink), (4, "Mic", false));
    let s = classify_node(&node(5, Some("Audio/Source"), [None, None, Some("m")])).unwrap();
    assert_eq!(s.name, "m");
    let s = classify_node(&node(6, Some("Audio/Source"), [None, None, None])).unwrap();
    assert_eq!(s.name, "(unnamed)");
    let s = classify_node(&node(6, Some("Audio/Source"), [Some(""), Some("x"), None])).unwrap();
    assert_eq!(s.name, "");
}

#[test]
fn other_objects_are_no_targets() {
    assert!(classify_node(&node(1, Some("Video/Source"), [Some("Cam"), None, None])).is_none());
    assert!(classify_node(&node(1, None, [Some("x"), None, None])).is_none());
    assert!(classify_node(&GlobalObject { id: 1, is_node: true, props: None }).is_none());
    let mut g = node(1, Some("Audio/Sink"), [None, None, None]);
    g.is_node = false;
    assert!(classify_node(&g).is_none());
}

#[test]
fn targets_are_listed_once() {
    let mut state = CaptureState::new();
    assert_eq!(state.sample_rate, 48000);
    state.global_added(&node(1, Some("Audio/Sink"), [Some("A"), None, None]));
    state.global_added(&node(2, Some("Audio/Source"), [Some("B"), None, None]));
    state.global_added(&node(1, Some("Audio/Source"), [Some("C"), None, None]));
    state.global_added(&node(9, Some("Video/Sink"), [Some("D"), None, None]));
    let names: Vec<&str> = state.sources.iter().map(|s| s.name.as_str()).collect();
    assert_eq!(names, ["A", "B"]);
    state.global_removed(7);
    assert_eq!(state.sources.len(), 2);
    state.global_removed(1);
    assert_eq!(state.sources[0].name, "B");
    assert_eq!(state.sources.len(), 1);
    state.global_added(&node(1, Some("Audio/Source"), [Some("C"), None, None]));
    state.global_removed(1);
    assert_eq!(state.sources.len(), 1);
    let (engine, _capture) = AudioEngine::start(true);
    assert_eq!(engine.sources(&state)[0].id, 2);
}

#[test]
fn rates_are_negotiated() {
    let mut state = CaptureState::new();
    let (engine, _capture) = AudioEngine::start(true);
    state.rate_negotiated(0);
    assert_eq!(engine.sample_rate(&state), 48000);
    state.rate_negotiated(44100);
    assert_eq!(engine.sample_rate(&state), 44100);
    let good = ParamChange {
        has_value: true,
        is_format: true,
        is_raw_audio: true,
        rate: Some(96000),
    };
    assert_eq!(param_changed(&good), Some(96000));
    assert_eq!(param_changed(&ParamChange { has_value: false, ..good }), None);
    assert_eq!(param_changed(&ParamChange { is_format: false, ..good }), None);
    assert_eq!(param_changed(&ParamChange { is_raw_audio: false, ..good }), None);
    assert_eq!(param_changed(&ParamChange { rate: Some(0), ..good }), None);
    assert_eq!(param_changed(&ParamChange { rate: None, ..good }), None);
}

#[test]
fn enumeration_keeps_every_target() {
    let mut found = Vec::new();
    enumerate_global(&mut found, &node(1, Some("Audio/Sink"), [Some("A"), None, None]));
    enumerate_global(&mut found, &node(1, Some("Audio/Sink"), [Some("A"), None, None]));
    enumerate_global(&mut found, &node(1, None, [None, None, None]));
    assert_eq!(found.len(), 2);
    assert!(enumeration_done(0, 5, 0, 5));
    assert!(!enumeration_done(1, 5, 0, 5));
    assert!(!enumeration_done(0, 4, 0, 5));
}

#[test]
fn streams_and_commands() {
    assert_eq!(stream_properties(false).len(), 3);
    assert_eq!(stream_properties(true)[3], StreamProperty::CaptureSink);
    let src = SourceInfo { id: 8, name: "x".to_string(), is_sink: true };
    let command = connect_command(&copy_source(&src));
    assert_eq!(command, Command::Connect { target: Some(8), capture_sink: true });
    let connect = LoopAction::Connect { target: Some(8), capture_sink: true };
    assert_eq!(handle_command(command, true), vec![LoopAction::Disconnect, connect]);
    assert_eq!(handle_command(command, false), vec![connect]);
    let (engine, capture) = AudioEngine::start(false);
    assert_eq!(capture.initial, Command::Connect { target: None, capture_sink: false });
    assert_eq!(engine.connect_to(&src), command);
}

#[test]
fn decodes_interleaved_frames() {
    let mut bytes = Vec::new();
    for x in [0.5f32, -1.0, 0.25, 2.0, 3.0] {
        bytes.extend_from_slice(&x.to_le_bytes());
    }
    let f = decode_frames(&bytes, 20, 2).unwrap();
    assert_eq!(f.channels, 2);
    let values: Vec<f32> = f.samples.iter().map(|&b| f32::from_bits(b)).collect();
    assert_eq!(values, [0.5, -1.0, 0.25, 2.0]);
    let f = decode_frames(&bytes, 7, 0).unwrap();
    assert_eq!((f.channels, f.samples.len()), (1, 1));
    let f = decode_frames(&bytes, 20, 6).unwrap();
    assert_eq!(f.samples.len(), 0);
    assert!(decode_frames(&bytes, 24, 1).is_none());
    assert!(decode_frames(&bytes, 3, 1).is_none());
    assert!(decode_frames(&[], 0, 1).is_none());
}

#[test]
fn samples_come_out_as_they_went_in() {
    let (mut engine, mut capture) = AudioEngine::start(true);
    let mut out = vec![9, 9];
    engine.drain_samples(&mut out);
    assert!(out.is_empty());
    assert_eq!(deliver(&mut capture.producer, &vec![1, 2, 3]), 3);
    assert_eq!(deliver(&mut capture.producer, &vec![4]), 1);
    engine.drain_samples(&mut out);
    assert_eq!(out, vec![1, 2, 3, 4]);
    engine.drain_samples(&mut out);
    assert!(out.is_empty());
}

#[test]
fn samples_without_a_place_are_dropped() {
    let (mut engine, mut capture) = AudioEngine::start(true);
    let first: Vec<u32> = (0..RING_CAPACITY as u32 - 2).collect();
    assert_eq!(deliver(&mut capture.producer, &first), RING_CAPACITY - 2);
    assert_eq!(deliver(&mut capture.producer, &vec![7, 8, 9]), 2);
    assert_eq!(deliver(&mut capture.producer, &vec![7]), 0);
    let mut out = Vec::new();
    engine.drain_samples(&mut out);
    assert_eq!(out.len(), RING_CAPACITY);
    assert_eq!(&out[RING_CAPACITY - 3..], &[RING_CAPACITY as u32 - 3, 7, 8]);
    assert_eq!(deliver(&mut capture.producer, &vec![5]), 1);
    engine.drain_samples(&mut out);
    assert_eq!(out, vec![5]);
}

#[test]
fn the_list_follows_the_registry() {
    let sink = |id: u32, name: &'static str| node(id, Some("Audio/Sink"), [Some(name), None, None]);
    let mut state = CaptureState::new();
    state.global_added(&sink(1, "A"));
    state.global_added(&sink(2, "B"));
    state.global_added(&sink(3, "C"));
    state.global_removed(1);
    state.global_added(&sink(2, "again"));
    state.global_added(&sink(1, "back"));
    state.global_removed(3);
    let list: Vec<(u32, &str)> = state.sources.iter().map(|s| (s.id, s.name.as_str())).collect();
    assert_eq!(list, [(2, "B"), (1, "back")]);
}

#[test]
fn a_drain_holds_no_more_than_the_ring() {
    let (mut engine, mut capture) = AudioEngine::start(true);
    let many: Vec<u32> = vec![6; 3 * RING_CAPACITY];
    assert_eq!(deliver(&mut capture.producer, &many), RING_CAPACITY);
    let mut out = vec![1; 2 * RING_CAPACITY];
    engine.drain_samples(&mut out);
    assert_eq!(out, vec![6; RING_CAPACITY]);
}

#[test]
fn an_enumeration_lists_every_target() {
    let mut found = Vec::new();
    for g in [
        node(4, Some("Audio/Sink"), [Some("A"), None, None]),
        node(5, Some("Video/Source"), [Some("B"), None, None]),
        node(6, Some("Audio/Source"), [Some("C"), None, None]),
        node(4, Some("Audio/Source"), [Some("D"), None, None]),
    ] {
        enumerate_global(&mut found, &g);
    }
    let list: Vec<(u32, &str, bool)> =
        found.iter().map(|s| (s.id, s.name.as_str(), s.is_sink)).collect();
    assert_eq!(list, [(4, "A", true), (6, "C", false), (4, "D", false)]);
}
