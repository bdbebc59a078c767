use visualizer::grid::segments;
use visualizer::render::{
    blur_directions, blur_size, build_targets, color_target, entry_points, frame_action, group_entries,
    group_layout, layout_entries, pick_format, pick_sample_count, pipeline_plan, FrameAction,
    FrameNumbers, Group, Layout, OutputFormat, Pipeline, Renderer, Resource, SurfaceStatus, Target,
    TextPlan, ROWS,
};
use visualizer::single::Single;

fn single(x: f32) -> Single {
    Single { bits: x.to_bits() }
}

fn number(s: Single) -> f32 {
    f32::from_bits(s.bits)
}

fn words(bytes: &[u8]) -> Vec<u32> {
    bytes.chunks(4).map(|b| u32::from_ne_bytes([b[0], b[1], b[2], b[3]])).collect()
}

fn renderer() -> Renderer {
    Renderer::new((800, 600), &vec![false, true], true, true, 4).0
}

#[test]
fn grid_of_segments() {
    assert_eq!(segments(3, 2), vec![0, 1, 0, 3, 1, 2, 1, 4, 2, 5, 3, 4, 4, 5]);
    assert_eq!(segments(1, 1), Vec::<u32>::new());
    assert_eq!(segments(1, 3), vec![0, 1, 1, 2]);
    let s = segments(10, 7);
    assert_eq!(s.len() / 2, 7 * 9 + 6 * 10);
    for p in s.chunks(2) {
        assert!(p[1] < 70 && (p[1] == p[0] + 10 || (p[1] == p[0] + 1 && p[1] % 10 != 0)));
    }
}

#[test]
fn renderer_starts() {
    let (r, bytes) = Renderer::new((0, 5), &vec![false, false], false, true, 3);
    assert_eq!((r.width, r.height, r.size), (1, 5, (0, 5)));
    assert_eq!((r.format, r.sample_count, r.head), (0, 2, 0));
    assert_eq!(words(&bytes), segments(3, ROWS));
    assert_eq!(r.instance_count as usize * 8, bytes.len());
    assert_eq!(r.globe_orbit(), (single(0.0), single(0.0), single(1.0)));
}

#[test]
fn formats_and_samples() {
    assert_eq!(pick_format(&vec![false, true, true]), 1);
    assert_eq!(pick_format(&vec![false, false]), 0);
    assert_eq!(pick_sample_count(true, false), 4);
    assert_eq!(pick_sample_count(false, true), 2);
    assert_eq!(pick_sample_count(false, false), 1);
}

#[test]
fn sizes_follow_the_window() {
    let mut r = renderer();
    assert!(!r.resize(0, 10));
    assert!(!r.resize(10, 0));
    assert_eq!(r.size, (800, 600));
    assert!(r.resize(1, 7));
    assert_eq!((r.width, r.height, r.size), (1, 7, (1, 7)));
    let t = build_targets(1, 7, 4);
    assert_eq!((t.scene.width, t.scene.height, t.scene.sample_count), (1, 7, 1));
    assert_eq!((t.bloom_a.width, t.bloom_a.height), (1, 3));
    assert_eq!(t.bloom_a, t.bloom_b);
    assert_eq!(t.scene_msaa, Some(color_target(1, 7, 4)));
    assert_eq!(build_targets(800, 600, 1).scene_msaa, None);
    assert_eq!(blur_size(800, 600), (400, 300));
    assert_eq!(blur_size(0, 1), (1, 1));
    assert_eq!(color_target(0, 0, 1).width, 1);
}

#[test]
fn orbit_is_limited() {
    let mut r = renderer();
    r.globe_rotate(single(9.0), single(2.0));
    assert_eq!(r.globe_orbit(), (single(9.0), single(1.3), single(1.0)));
    r.globe_rotate(single(-9.0), single(-2.0));
    assert_eq!(number(r.globe_pitch), -1.3);
    r.globe_zoom(single(0.1));
    assert_eq!(number(r.globe_zoom), 0.4);
    r.globe_zoom(single(8.0));
    assert_eq!(number(r.globe_zoom), 4.0);
    r.set_globe_orbit(single(1.25), single(-0.5), single(1.75));
    assert_eq!(r.globe_orbit(), (single(1.25), single(-0.5), single(1.75)));
    r.set_globe_orbit(single(0.0), single(7.0), single(0.0));
    assert_eq!(r.globe_orbit(), (single(0.0), single(1.3), single(0.4)));
}

#[test]
fn rows_scroll() {
    let mut r = renderer();
    let black = (single(0.0), single(0.0), single(0.0));
    for i in 0..ROWS + 3 {
        let w = r.render(&[i, 258, 3, 4, 5], single(0.5), black);
        assert_eq!(w.offset, (i % ROWS) as u64 * 16);
        assert_eq!(words(&w.bytes), vec![i, 258, 3, 4]);
    }
    assert_eq!(r.head, 3);
    let w = r.render(&[7, 8], single(0.25), (single(1.0), single(0.5), single(0.0)));
    assert_eq!(words(&w.bytes), vec![7, 8]);
    assert_eq!(r.bob, single(0.25));
    assert_eq!(r.accent_cur.1, single(0.5));
    assert!(r.render(&[], single(0.0), black).bytes.is_empty());
}

#[test]
fn uniforms_are_in_order() {
    let mut r = renderer();
    r.render(&[], single(0.0), (single(0.1), single(0.2), single(0.3)));
    let mut view_proj = [single(0.0); 16];
    for (i, v) in view_proj.iter_mut().enumerate() {
        *v = single(i as f32);
    }
    let n = FrameNumbers {
        view_proj,
        level: single(0.4),
        beat: single(0.5),
        cols: single(4.0),
        rows: single(96.0),
        head: single(1.0),
        width_front: single(11.0),
        width_back: single(12.0),
        time: single(13.0),
        fade_near: single(14.0),
        fade_far: single(15.0),
        width: single(800.0),
        height: single(600.0),
    };
    let got: Vec<f32> = words(&r.uniforms(&n, true)).iter().map(|&b| f32::from_bits(b)).collect();
    let mut want: Vec<f32> = (0..16).map(|i| i as f32).collect();
    want.extend([0.1, 0.2, 0.3, 0.4, 4.0, 96.0, 1.0, 0.5, 24.0, 11.0, 12.0, 5.0]);
    want.extend([13.0, 1.0, 14.0, 15.0, 800.0, 600.0, 2.2, 0.0]);
    assert_eq!(got, want);
    assert_eq!(words(&r.uniforms(&n, false))[29], 0);
}

#[test]
fn text_is_laid_out_once() {
    let mut r = renderer();
    assert_eq!(r.prepare_text(None, single(1.0)), TextPlan::Skip);
    assert_eq!(r.prepare_text(Some("a"), single(0.01)), TextPlan::Skip);
    let plan = |layout| TextPlan::Prepare { layout, width: 800, height: 600 };
    assert_eq!(r.prepare_text(Some("a"), single(0.5)), plan(true));
    assert_eq!(r.prepare_text(Some("a"), single(0.5)), plan(false));
    assert_eq!(r.prepare_text(None, single(0.5)), TextPlan::Skip);
    assert_eq!(r.prepare_text(Some("b"), single(0.5)), plan(true));
    assert_eq!(r.prepare_text(Some("a"), single(0.5)), plan(true));
}

#[test]
fn passes_of_a_frame() {
    let r = renderer();
    let p = r.passes(true, single(0.5));
    assert_eq!(p.len(), 5);
    assert_eq!((p[0].view, p[0].resolve), (Target::SceneMsaa, Some(Target::Scene)));
    assert_eq!(p[0].second.unwrap().instances, 96 * 3 + 95 * 4);
    let views: Vec<Target> = p[1..].iter().map(|x| x.view).collect();
    assert_eq!(views, [Target::BloomA, Target::BloomB, Target::BloomA, Target::Surface]);
    assert!(p[4].text);
    assert!(!r.passes(true, single(0.01))[4].text);
    assert!(!r.passes(false, single(0.5))[4].text);
    for pass in &p {
        assert_eq!(pipeline_plan(pass.first.pipeline).layout, group_layout(pass.group));
        for e in group_entries(pass.group) {
            assert_ne!(e.resource, Resource::Texture(pass.view));
        }
    }
    let plain = Renderer::new((8, 8), &vec![true], false, false, 4).0.passes(false, single(0.0));
    assert_eq!((plain[0].view, plain[0].resolve), (Target::Scene, None));
}

#[test]
fn bindings_and_pipelines() {
    for g in [Group::Scene, Group::Bright, Group::BlurH, Group::BlurV, Group::Composite] {
        let places: Vec<u32> = layout_entries(group_layout(g)).iter().map(|e| e.binding).collect();
        let bound: Vec<u32> = group_entries(g).iter().map(|e| e.binding).collect();
        assert_eq!(places, bound);
    }
    assert_eq!(layout_entries(Layout::Composite)[2].binding, 4);
    assert_eq!(entry_points(Pipeline::Lines), ("vs_main", "fs_main"));
    assert_eq!(entry_points(Pipeline::Backdrop), ("vs_bg", "fs_bg"));
    assert_eq!(entry_points(Pipeline::Bright), ("vs_fullscreen", "fs_bright"));
    assert_eq!(entry_points(Pipeline::Blur), ("vs_fullscreen", "fs_blur"));
    assert_eq!(entry_points(Pipeline::Composite), ("vs_fullscreen", "fs_composite"));
    assert!(pipeline_plan(Pipeline::Lines).blends);
    assert_eq!(pipeline_plan(Pipeline::Composite).output, OutputFormat::Surface);
}

#[test]
fn frames_without_a_surface() {
    assert_eq!(frame_action(SurfaceStatus::Success), FrameAction::Draw);
    assert_eq!(frame_action(SurfaceStatus::Suboptimal), FrameAction::Draw);
    assert_eq!(frame_action(SurfaceStatus::Outdated), FrameAction::Reconfigure);
    assert_eq!(frame_action(SurfaceStatus::Lost), FrameAction::Reconfigure);
    assert_eq!(frame_action(SurfaceStatus::Unavailable), FrameAction::Skip);
}

#[test]
fn blur_goes_both_ways() {
    let (h, v) = blur_directions(single(0.25), single(0.5));
    assert_eq!(words(&h), vec![0.25f32.to_bits(), 0, 0, 0]);
    assert_eq!(words(&v), vec![0, 0.5f32.to_bits(), 0, 0]);
}

#[test]
fn segments_are_listed_once() {
    let s = segments(9, 6);
    let pairs: Vec<(u32, u32)> = s.chunks(2).map(|p| (p[0], p[1])).collect();
    for i in 1..pairs.len() {
        assert!(pairs[i - 1] < pairs[i]);
    }
}

#[test]
fn the_map_holds_the_newest_rows() {
    let mut r = renderer();
    let black = (single(0.0), single(0.0), single(0.0));
    let mut map = vec![0u8; 16 * ROWS as usize];
    let frames = ROWS + 40;
    for i in 0..frames {
        let w = r.render(&[i, i + 1, i + 2, i + 3], single(0.0), black);
        let at = w.offset as usize;
        map[at..at + w.bytes.len()].copy_from_slice(&w.bytes);
    }
    let kept = words(&map);
    for i in 40..frames {
        let row = 4 * (i % ROWS) as usize;
        assert_eq!(&kept[row..row + 4], &[i, i + 1, i + 2, i + 3]);
    }
    for _ in 0..ROWS {
        r.render(&[1], single(0.0), black);
    }
    assert_eq!(r.head, 40);
}

#[test]
fn bytes_that_no_frame_covers_stay() {
    let mut r = renderer();
    let black = (single(0.0), single(0.0), single(0.0));
    let mut map = vec![9u8; 16 * ROWS as usize];
    for _ in 0..3 {
        let w = r.render(&[1, 2], single(0.0), black);
        let at = w.offset as usize;
        map[at..at + w.bytes.len()].copy_from_slice(&w.bytes);
    }
    for (i, b) in map.iter().enumerate() {
        assert_eq!(*b == 9, i >= 48 || i % 16 >= 8);
    }
}
