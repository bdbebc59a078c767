//! Rendering: the state of the renderer and the plan of its work.
//!
//! Pass chain per frame: (1) the scene, a graded backdrop and thick line quads,
//! into a target of high dynamic range; (2) its bright parts at half resolution;
//! (3, 4) a separable blur, horizontal then vertical, for bloom; (5) scene and
//! bloom composed onto the surface, then the now-playing text.
//!
//! The library decides what is made, in which size, what is bound where and what
//! is drawn in which order. The graphics calls and the arithmetic of the camera are
//! done outside.

use crate::audio;
use crate::grid;
use crate::single;
use crate::single::Single;
use crate::text;
use vstd::prelude::*;

verus! {

/// Rows of the height map: as many spectra as are visible at once.
pub const ROWS: u32 = 96;

/// The bit pattern of 24.0, the depth of the terrain.
pub const DEPTH: u32 = 0x41c0_0000;

/// The bit pattern of 5.0, the height of the terrain.
pub const HEIGHT_SCALE: u32 = 0x40a0_0000;

/// The bit pattern of 2.2, the thickness of lines in pixels.
pub const LINE_THICKNESS_PX: u32 = 0x400c_cccd;

/// The bit patterns of -1.3 and 1.3, the limits of the globe's pitch.
pub const PITCH_MIN: u32 = 0xbfa6_6666;

pub const PITCH_MAX: u32 = 0x3fa6_6666;

/// The bit patterns of 0.4 and 4.0, the limits of the globe's zoom.
pub const ZOOM_MIN: u32 = 0x3ecc_cccd;

pub const ZOOM_MAX: u32 = 0x4080_0000;

/// The bit pattern of 0.01, up to which text counts as invisible.
pub const TEXT_FLOOR: u32 = 0x3c23_d70a;

// ---- Bytes for the graphics device.

/// The words, each as four bytes with the lowest first.
pub open spec fn lowest_first(bytes: Seq<u8>, words: Seq<u32>) -> bool {
    forall|k: int|
        0 <= k < words.len() ==> #[trigger] words[k] == audio::word_at(bytes, 4 * k)
}

/// The words, each as four bytes with the highest first.
pub open spec fn highest_first(bytes: Seq<u8>, words: Seq<u32>) -> bool {
    forall|k: int|
        0 <= k < words.len() ==> #[trigger] words[k] == bytes[4 * k + 3] + 0x100 * bytes[4 * k + 2]
            + 0x1_0000 * bytes[4 * k + 1] + 0x100_0000 * bytes[4 * k]
}

/// The bytes of words as a machine of either byte order keeps them.
pub open spec fn in_memory(bytes: Seq<u8>, words: Seq<u32>) -> bool {
    &&& bytes.len() == 4 * words.len()
    &&& lowest_first(bytes, words) || highest_first(bytes, words)
}

/// The bytes of words in memory: `bytemuck::cast_slice`, copied.
///
/// The call looks at the words where they lie, so that each becomes its four
/// bytes, in the byte order of the machine. Which of the two orders that is, is
/// not stated.
#[verifier::external_body]
pub(crate) fn words_to_bytes(words: &Vec<u32>) -> (bytes: Vec<u8>)
    ensures
        in_memory(bytes@, words@),
{
    bytemuck::cast_slice::<u32, u8>(words.as_slice()).to_vec()
}

/// The directions of the horizontal and the vertical blur, given the steps `x` and
/// `y` to the next pixel, as bytes.
pub fn blur_directions(x: Single, y: Single) -> (r: (Vec<u8>, Vec<u8>))
    ensures
        in_memory(r.0@, seq![x.bits, 0, 0, 0]),
        in_memory(r.1@, seq![0, y.bits, 0, 0]),
{
    let horizontal: Vec<u32> = vec![x.bits, 0, 0, 0];
    let vertical: Vec<u32> = vec![0, y.bits, 0, 0];
    assert(horizontal@ =~= seq![x.bits, 0, 0, 0]);
    assert(vertical@ =~= seq![0, y.bits, 0, 0]);
    (words_to_bytes(&horizontal), words_to_bytes(&vertical))
}

// ---- The surface.

/// The best number of samples per pixel for the scene, given whether its format
/// can have four or two.
pub open spec fn best_sample_count(four: bool, two: bool) -> u32 {
    if four {
        4
    } else if two {
        2
    } else {
        1
    }
}

/// Picks the best number of samples per pixel.
pub fn pick_sample_count(four: bool, two: bool) -> (r: u32)
    ensures
        r == best_sample_count(four, two),
{
    if four {
        4
    } else if two {
        2
    } else {
        1
    }
}

/// `i` is the first format that encodes colours as displays do, or the first of
/// all if none does.
pub open spec fn is_best_format(srgb: Seq<bool>, i: int) -> bool {
    if exists|j: int| 0 <= j < srgb.len() && #[trigger] srgb[j] {
        0 <= i < srgb.len() && srgb[i] && forall|j: int| 0 <= j < i ==> !#[trigger] srgb[j]
    } else {
        i == 0
    }
}

/// Picks the format of the surface, given which formats encode colours as
/// displays do.
pub fn pick_format(srgb: &Vec<bool>) -> (r: usize)
    requires
        srgb@.len() > 0,
    ensures
        is_best_format(srgb@, r as int),
        r < srgb@.len(),
{
    let mut i: usize = 0;
    while i < srgb.len()
        invariant
            i <= srgb@.len(),
            forall|j: int| 0 <= j < i ==> !#[trigger] srgb@[j],
        decreases srgb@.len() - i,
    {
        if srgb[i] {
            return i;
        }
        i = i + 1;
    }
    0
}

/// A length of at least one pixel.
pub open spec fn at_least_one(n: u32) -> u32 {
    if n < 1 {
        1
    } else {
        n
    }
}

fn one_or_more(n: u32) -> (r: u32)
    ensures
        r == at_least_one(n),
{
    if n < 1 {
        1
    } else {
        n
    }
}

/// What came of the attempt to get a texture of the surface to draw to.
#[derive(Clone, Copy, Debug, PartialEq, Eq, Structural)]
pub enum SurfaceStatus {
    Success,
    Suboptimal,
    Outdated,
    Lost,
    /// Timed out, occluded or invalid.
    Unavailable,
}

/// What to do about a frame.
#[derive(Clone, Copy, Debug, PartialEq, Eq, Structural)]
pub enum FrameAction {
    /// Draw it and show it.
    Draw,
    /// Configure the surface anew, and leave the frame out.
    Reconfigure,
    /// Leave the frame out.
    Skip,
}

/// Decides about a frame. A frame is shown only if it is drawn.
pub fn frame_action(status: SurfaceStatus) -> (r: FrameAction)
    ensures
        r == (match status {
            SurfaceStatus::Success | SurfaceStatus::Suboptimal => FrameAction::Draw,
            SurfaceStatus::Outdated | SurfaceStatus::Lost => FrameAction::Reconfigure,
            SurfaceStatus::Unavailable => FrameAction::Skip,
        }),
{
    match status {
        SurfaceStatus::Success => FrameAction::Draw,
        SurfaceStatus::Suboptimal => FrameAction::Draw,
        SurfaceStatus::Outdated => FrameAction::Reconfigure,
        SurfaceStatus::Lost => FrameAction::Reconfigure,
        SurfaceStatus::Unavailable => FrameAction::Skip,
    }
}

// ---- Targets.

/// Something that is drawn to.
#[derive(Clone, Copy, Debug, PartialEq, Eq, Structural)]
pub enum Target {
    /// The scene with several samples per pixel.
    SceneMsaa,
    Scene,
    BloomA,
    BloomB,
    Surface,
}

/// The size of a target.
#[derive(Clone, Copy, Debug, PartialEq, Eq, Structural)]
pub struct TargetPlan {
    pub width: u32,
    pub height: u32,
    pub sample_count: u32,
}

/// The targets that depend on the size of the surface.
#[derive(Clone, Copy, Debug, PartialEq, Eq, Structural)]
pub struct Targets {
    pub scene_msaa: Option<TargetPlan>,
    pub scene: TargetPlan,
    pub bloom_a: TargetPlan,
    pub bloom_b: TargetPlan,
}

/// Half a length, of at least one pixel.
pub open spec fn half(n: u32) -> u32 {
    at_least_one((n / 2) as u32)
}

/// The plan of a target of at least one pixel.
pub open spec fn target_plan(width: u32, height: u32, sample_count: u32) -> TargetPlan {
    TargetPlan { width: at_least_one(width), height: at_least_one(height), sample_count }
}

/// The targets for a surface.
pub open spec fn targets_for(width: u32, height: u32, sample_count: u32) -> Targets {
    Targets {
        scene_msaa: if sample_count > 1 {
            Some(target_plan(width, height, sample_count))
        } else {
            None
        },
        scene: target_plan(width, height, 1),
        bloom_a: target_plan(half(width), half(height), 1),
        bloom_b: target_plan(half(width), half(height), 1),
    }
}

/// Plans a target.
pub fn color_target(width: u32, height: u32, sample_count: u32) -> (r: TargetPlan)
    ensures
        r == target_plan(width, height, sample_count),
{
    TargetPlan { width: one_or_more(width), height: one_or_more(height), sample_count }
}

/// The resolution of the blur: half that of the surface.
pub fn blur_size(width: u32, height: u32) -> (r: (u32, u32))
    ensures
        r == (half(width), half(height)),
{
    (one_or_more(width / 2), one_or_more(height / 2))
}

/// Plans the targets for a surface. The scene has a second target only if it has
/// several samples per pixel to resolve.
pub fn build_targets(width: u32, height: u32, sample_count: u32) -> (r: Targets)
    ensures
        r == targets_for(width, height, sample_count),
{
    let (bw, bh) = blur_size(width, height);
    Targets {
        scene_msaa: if sample_count > 1 {
            Some(color_target(width, height, sample_count))
        } else {
            None
        },
        scene: color_target(width, height, 1),
        bloom_a: color_target(bw, bh, 1),
        bloom_b: color_target(bw, bh, 1),
    }
}

/// No target is empty, the blur steps by the pixels of its targets, and the
/// resolved scene has the size of the one it comes from.
pub proof fn targets_fit(width: u32, height: u32, sample_count: u32)
    ensures
        ({
            let t = targets_for(width, height, sample_count);
            &&& t.scene.width > 0 && t.scene.height > 0
            &&& t.bloom_a.width == half(width) && t.bloom_a.height == half(height)
            &&& t.bloom_b == t.bloom_a
            &&& t.bloom_a.width > 0 && t.bloom_a.height > 0
            &&& t.scene_msaa matches Some(m) ==> m.width == t.scene.width && m.height
                == t.scene.height && m.sample_count > 1
        }),
{
}

// ---- Bindings.

/// A layout of bindings.
#[derive(Clone, Copy, Debug, PartialEq, Eq, Structural)]
pub enum Layout {
    Scene,
    Bright,
    Blur,
    Composite,
}

/// The shader stages that see a binding.
#[derive(Clone, Copy, Debug, PartialEq, Eq, Structural)]
pub enum Stages {
    Vertex,
    Fragment,
    VertexAndFragment,
}

/// What can be bound.
#[derive(Clone, Copy, Debug, PartialEq, Eq, Structural)]
pub enum BindingKind {
    UniformBuffer,
    /// A buffer that shaders only read.
    StorageBuffer,
    Texture,
    Sampler,
}

/// A place in a layout.
#[derive(Clone, Copy, Debug, PartialEq, Eq, Structural)]
pub struct LayoutEntry {
    pub binding: u32,
    pub stages: Stages,
    pub kind: BindingKind,
}

/// A group of bound things.
#[derive(Clone, Copy, Debug, PartialEq, Eq, Structural)]
pub enum Group {
    Scene,
    Bright,
    BlurH,
    BlurV,
    Composite,
}

/// A thing to bind.
#[derive(Clone, Copy, Debug, PartialEq, Eq, Structural)]
pub enum Resource {
    Uniforms,
    Heights,
    Sampler,
    /// The direction of the horizontal blur.
    DirectionH,
    /// The direction of the vertical blur.
    DirectionV,
    Texture(Target),
}

/// A thing bound at a place.
#[derive(Clone, Copy, Debug, PartialEq, Eq, Structural)]
pub struct GroupEntry {
    pub binding: u32,
    pub resource: Resource,
}

/// A place for a sampler.
pub open spec fn sampler_place() -> LayoutEntry {
    LayoutEntry { binding: 0, stages: Stages::Fragment, kind: BindingKind::Sampler }
}

/// A place for a texture.
pub open spec fn texture_place(binding: u32) -> LayoutEntry {
    LayoutEntry { binding, stages: Stages::Fragment, kind: BindingKind::Texture }
}

/// The places of a layout.
pub open spec fn places(layout: Layout) -> Seq<LayoutEntry> {
    match layout {
        Layout::Scene => seq![
            LayoutEntry {
                binding: 0,
                stages: Stages::VertexAndFragment,
                kind: BindingKind::UniformBuffer,
            },
            LayoutEntry { binding: 1, stages: Stages::Vertex, kind: BindingKind::StorageBuffer },
        ],
        Layout::Bright => seq![sampler_place(), texture_place(1)],
        Layout::Blur => seq![
            sampler_place(),
            texture_place(1),
            LayoutEntry { binding: 2, stages: Stages::Fragment, kind: BindingKind::UniformBuffer },
        ],
        Layout::Composite => seq![sampler_place(), texture_place(3), texture_place(4)],
    }
}

/// The layout of a group.
pub open spec fn layout_of(group: Group) -> Layout {
    match group {
        Group::Scene => Layout::Scene,
        Group::Bright => Layout::Bright,
        Group::BlurH => Layout::Blur,
        Group::BlurV => Layout::Blur,
        Group::Composite => Layout::Composite,
    }
}

/// What a thing is bound as.
pub open spec fn kind_of(resource: Resource) -> BindingKind {
    match resource {
        Resource::Uniforms => BindingKind::UniformBuffer,
        Resource::Heights => BindingKind::StorageBuffer,
        Resource::Sampler => BindingKind::Sampler,
        Resource::DirectionH => BindingKind::UniformBuffer,
        Resource::DirectionV => BindingKind::UniformBuffer,
        Resource::Texture(_) => BindingKind::Texture,
    }
}

/// The things that a group binds.
pub open spec fn members(group: Group) -> Seq<GroupEntry> {
    match group {
        Group::Scene => seq![
            GroupEntry { binding: 0, resource: Resource::Uniforms },
            GroupEntry { binding: 1, resource: Resource::Heights },
        ],
        Group::Bright => seq![
            GroupEntry { binding: 0, resource: Resource::Sampler },
            GroupEntry { binding: 1, resource: Resource::Texture(Target::Scene) },
        ],
        Group::BlurH => seq![
            GroupEntry { binding: 0, resource: Resource::Sampler },
            GroupEntry { binding: 1, resource: Resource::Texture(Target::BloomA) },
            GroupEntry { binding: 2, resource: Resource::DirectionH },
        ],
        Group::BlurV => seq![
            GroupEntry { binding: 0, resource: Resource::Sampler },
            GroupEntry { binding: 1, resource: Resource::Texture(Target::BloomB) },
            GroupEntry { binding: 2, resource: Resource::DirectionV },
        ],
        Group::Composite => seq![
            GroupEntry { binding: 0, resource: Resource::Sampler },
            GroupEntry { binding: 3, resource: Resource::Texture(Target::Scene) },
            GroupEntry { binding: 4, resource: Resource::Texture(Target::BloomA) },
        ],
    }
}

/// Lists the places of a layout.
pub fn layout_entries(layout: Layout) -> (r: Vec<LayoutEntry>)
    ensures
        r@ == places(layout),
{
    let sampler = LayoutEntry { binding: 0, stages: Stages::Fragment, kind: BindingKind::Sampler };
    let r: Vec<LayoutEntry> = match layout {
        Layout::Scene => vec![
            LayoutEntry {
                binding: 0,
                stages: Stages::VertexAndFragment,
                kind: BindingKind::UniformBuffer,
            },
            LayoutEntry { binding: 1, stages: Stages::Vertex, kind: BindingKind::StorageBuffer },
        ],
        Layout::Bright => vec![
            sampler,
            LayoutEntry { binding: 1, stages: Stages::Fragment, kind: BindingKind::Texture },
        ],
        Layout::Blur => vec![
            sampler,
            LayoutEntry { binding: 1, stages: Stages::Fragment, kind: BindingKind::Texture },
            LayoutEntry { binding: 2, stages: Stages::Fragment, kind: BindingKind::UniformBuffer },
        ],
        Layout::Composite => vec![
            sampler,
            LayoutEntry { binding: 3, stages: Stages::Fragment, kind: BindingKind::Texture },
            LayoutEntry { binding: 4, stages: Stages::Fragment, kind: BindingKind::Texture },
        ],
    };
    assert(r@ =~= places(layout));
    r
}

/// Finds the layout of a group.
pub fn group_layout(group: Group) -> (r: Layout)
    ensures
        r == layout_of(group),
{
    match group {
        Group::Scene => Layout::Scene,
        Group::Bright => Layout::Bright,
        Group::BlurH => Layout::Blur,
        Group::BlurV => Layout::Blur,
        Group::Composite => Layout::Composite,
    }
}

/// Lists the things that a group binds.
pub fn group_entries(group: Group) -> (r: Vec<GroupEntry>)
    ensures
        r@ == members(group),
{
    let sampler = GroupEntry { binding: 0, resource: Resource::Sampler };
    let r: Vec<GroupEntry> = match group {
        Group::Scene => vec![
            GroupEntry { binding: 0, resource: Resource::Uniforms },
            GroupEntry { binding: 1, resource: Resource::Heights },
        ],
        Group::Bright => vec![
            sampler,
            GroupEntry { binding: 1, resource: Resource::Texture(Target::Scene) },
        ],
        Group::BlurH => vec![
            sampler,
            GroupEntry { binding: 1, resource: Resource::Texture(Target::BloomA) },
            GroupEntry { binding: 2, resource: Resource::DirectionH },
        ],
        Group::BlurV => vec![
            sampler,
            GroupEntry { binding: 1, resource: Resource::Texture(Target::BloomB) },
            GroupEntry { binding: 2, resource: Resource::DirectionV },
        ],
        Group::Composite => vec![
            sampler,
            GroupEntry { binding: 3, resource: Resource::Texture(Target::Scene) },
            GroupEntry { binding: 4, resource: Resource::Texture(Target::BloomA) },
        ],
    };
    assert(r@ =~= members(group));
    r
}

/// Every group fills the places of its layout, each with a thing of the kind that
/// belongs there.
pub proof fn groups_fit_their_layouts(group: Group)
    ensures
        members(group).len() == places(layout_of(group)).len(),
        forall|i: int|
            0 <= i < members(group).len() ==> {
                &&& (#[trigger] members(group)[i]).binding == places(layout_of(group))[i].binding
                &&& kind_of(members(group)[i].resource) == places(layout_of(group))[i].kind
            },
{
}

// ---- Pipelines.

/// A way of drawing.
#[derive(Clone, Copy, Debug, PartialEq, Eq, Structural)]
pub enum Pipeline {
    Lines,
    Backdrop,
    Bright,
    Blur,
    Composite,
}

/// A shader module.
#[derive(Clone, Copy, Debug, PartialEq, Eq, Structural)]
pub enum Shader {
    Scene,
    Post,
}

/// The format of what is drawn to.
#[derive(Clone, Copy, Debug, PartialEq, Eq, Structural)]
pub enum OutputFormat {
    /// High dynamic range.
    Hdr,
    /// That of the surface.
    Surface,
}

/// How a pipeline is made.
#[derive(Clone, Copy, Debug, PartialEq, Eq, Structural)]
pub struct PipelinePlan {
    pub layout: Layout,
    pub shader: Shader,
    /// It reads a segment per instance.
    pub reads_segments: bool,
    /// It blends over what is there, rather than replace it.
    pub blends: bool,
    pub output: OutputFormat,
    /// It draws with the samples per pixel of the scene, rather than one.
    pub scene_samples: bool,
}

/// How a pipeline is made.
pub open spec fn pipeline_plan_of(pipeline: Pipeline) -> PipelinePlan {
    let in_scene = pipeline == Pipeline::Lines || pipeline == Pipeline::Backdrop;
    PipelinePlan {
        layout: match pipeline {
            Pipeline::Lines => Layout::Scene,
            Pipeline::Backdrop => Layout::Scene,
            Pipeline::Bright => Layout::Bright,
            Pipeline::Blur => Layout::Blur,
            Pipeline::Composite => Layout::Composite,
        },
        shader: if in_scene {
            Shader::Scene
        } else {
            Shader::Post
        },
        reads_segments: pipeline == Pipeline::Lines,
        blends: pipeline == Pipeline::Lines,
        output: if pipeline == Pipeline::Composite {
            OutputFormat::Surface
        } else {
            OutputFormat::Hdr
        },
        scene_samples: in_scene,
    }
}

/// The vertex and fragment entry points of a pipeline.
pub open spec fn entry_names(pipeline: Pipeline) -> (Seq<char>, Seq<char>) {
    match pipeline {
        Pipeline::Lines => ("vs_main"@, "fs_main"@),
        Pipeline::Backdrop => ("vs_bg"@, "fs_bg"@),
        Pipeline::Bright => ("vs_fullscreen"@, "fs_bright"@),
        Pipeline::Blur => ("vs_fullscreen"@, "fs_blur"@),
        Pipeline::Composite => ("vs_fullscreen"@, "fs_composite"@),
    }
}

/// Plans a pipeline.
pub fn pipeline_plan(pipeline: Pipeline) -> (r: PipelinePlan)
    ensures
        r == pipeline_plan_of(pipeline),
{
    match pipeline {
        Pipeline::Lines => PipelinePlan {
            layout: Layout::Scene,
            shader: Shader::Scene,
            reads_segments: true,
            blends: true,
            output: OutputFormat::Hdr,
            scene_samples: true,
        },
        Pipeline::Backdrop => PipelinePlan {
            layout: Layout::Scene,
            shader: Shader::Scene,
            reads_segments: false,
            blends: false,
            output: OutputFormat::Hdr,
            scene_samples: true,
        },
        Pipeline::Bright => post_plan(Layout::Bright, OutputFormat::Hdr),
        Pipeline::Blur => post_plan(Layout::Blur, OutputFormat::Hdr),
        Pipeline::Composite => post_plan(Layout::Composite, OutputFormat::Surface),
    }
}

fn post_plan(layout: Layout, output: OutputFormat) -> (r: PipelinePlan)
    ensures
        r == (PipelinePlan {
            layout,
            shader: Shader::Post,
            reads_segments: false,
            blends: false,
            output,
            scene_samples: false,
        }),
{
    PipelinePlan {
        layout,
        shader: Shader::Post,
        reads_segments: false,
        blends: false,
        output,
        scene_samples: false,
    }
}

/// The vertex and fragment entry points of a pipeline.
pub fn entry_points(pipeline: Pipeline) -> (r: (&'static str, &'static str))
    ensures
        (r.0@, r.1@) == entry_names(pipeline),
{
    match pipeline {
        Pipeline::Lines => ("vs_main", "fs_main"),
        Pipeline::Backdrop => ("vs_bg", "fs_bg"),
        Pipeline::Bright => ("vs_fullscreen", "fs_bright"),
        Pipeline::Blur => ("vs_fullscreen", "fs_blur"),
        Pipeline::Composite => ("vs_fullscreen", "fs_composite"),
    }
}

// ---- Passes.

/// A draw call.
#[derive(Clone, Copy, Debug, PartialEq, Eq, Structural)]
pub struct Draw {
    pub pipeline: Pipeline,
    pub vertices: u32,
    pub instances: u32,
}

/// A pass: it clears its target and draws to it.
#[derive(Clone, Copy, Debug, PartialEq, Eq, Structural)]
pub struct PassPlan {
    pub view: Target,
    /// What several samples per pixel are resolved to.
    pub resolve: Option<Target>,
    pub group: Group,
    pub first: Draw,
    pub second: Option<Draw>,
    /// The text is drawn on top.
    pub text: bool,
}

/// One triangle over everything.
pub open spec fn covering(pipeline: Pipeline) -> Draw {
    Draw { pipeline, vertices: 3, instances: 1 }
}

/// A pass over the whole picture.
pub open spec fn post_pass_plan(view: Target, group: Group, pipeline: Pipeline, text: bool) -> PassPlan {
    PassPlan { view, resolve: None, group, first: covering(pipeline), second: None, text }
}

/// The pass of the scene.
pub open spec fn scene_pass_plan(sample_count: u32, instances: u32) -> PassPlan {
    PassPlan {
        view: if sample_count > 1 {
            Target::SceneMsaa
        } else {
            Target::Scene
        },
        resolve: if sample_count > 1 {
            Some(Target::Scene)
        } else {
            None
        },
        group: Group::Scene,
        first: covering(Pipeline::Backdrop),
        second: Some(Draw { pipeline: Pipeline::Lines, vertices: 6, instances }),
        text: false,
    }
}

/// The passes of a frame.
pub open spec fn frame_passes(sample_count: u32, instances: u32, text: bool) -> Seq<PassPlan> {
    seq![
        scene_pass_plan(sample_count, instances),
        post_pass_plan(Target::BloomA, Group::Bright, Pipeline::Bright, false),
        post_pass_plan(Target::BloomB, Group::BlurH, Pipeline::Blur, false),
        post_pass_plan(Target::BloomA, Group::BlurV, Pipeline::Blur, false),
        post_pass_plan(Target::Surface, Group::Composite, Pipeline::Composite, text),
    ]
}

fn post_pass(view: Target, group: Group, pipeline: Pipeline, text: bool) -> (r: PassPlan)
    ensures
        r == post_pass_plan(view, group, pipeline, text),
{
    PassPlan {
        view,
        resolve: None,
        group,
        first: Draw { pipeline, vertices: 3, instances: 1 },
        second: None,
        text,
    }
}

/// A group holds a target as a texture.
pub open spec fn reads(group: Group, target: Target) -> bool {
    exists|i: int|
        0 <= i < members(group).len() && (#[trigger] members(group)[i]).resource
            == Resource::Texture(target)
}

/// A pass leaves a picture in a target.
pub open spec fn leaves(pass: PassPlan, target: Target) -> bool {
    pass.resolve == Some(target) || (pass.resolve is None && pass.view == target)
}

/// Every target that a pass reads was drawn by an earlier pass of the same frame,
/// and is not the one that it draws to.
pub proof fn passes_read_what_was_drawn(
    sample_count: u32,
    instances: u32,
    text: bool,
    i: int,
    target: Target,
)
    requires
        0 <= i < frame_passes(sample_count, instances, text).len(),
        reads(frame_passes(sample_count, instances, text)[i].group, target),
    ensures
        frame_passes(sample_count, instances, text)[i].view != target,
        exists|j: int|
            0 <= j < i && #[trigger] leaves(
                frame_passes(sample_count, instances, text)[j],
                target,
            ),
{
    let p = frame_passes(sample_count, instances, text);
    assert(leaves(p[0], Target::Scene));
    assert(leaves(p[1], Target::BloomA));
    assert(leaves(p[2], Target::BloomB));
    let k = choose|k: int|
        0 <= k < members(p[i].group).len() && (#[trigger] members(p[i].group)[k]).resource
            == Resource::Texture(target);
    assert(members(p[i].group)[k].resource == Resource::Texture(target));
}

/// What a pipeline draws suits the pass: it reads the group that the pass binds,
/// in the format and with the samples per pixel of what it draws to.
pub open spec fn suits(pipeline: Pipeline, pass: PassPlan) -> bool {
    let plan = pipeline_plan_of(pipeline);
    &&& plan.layout == layout_of(pass.group)
    &&& (plan.output == OutputFormat::Surface) == (pass.view == Target::Surface)
    &&& plan.scene_samples == (pass.view == Target::SceneMsaa || pass.view == Target::Scene)
}

/// Every draw call of a frame suits its pass.
pub proof fn draws_suit_their_passes(sample_count: u32, instances: u32, text: bool, i: int)
    requires
        0 <= i < frame_passes(sample_count, instances, text).len(),
    ensures
        ({
            let pass = frame_passes(sample_count, instances, text)[i];
            &&& suits(pass.first.pipeline, pass)
            &&& pass.second matches Some(d) ==> suits(d.pipeline, pass)
        }),
{
}

/// Only the last pass draws to the surface, and only it draws text.
pub proof fn the_surface_is_drawn_last(sample_count: u32, instances: u32, text: bool, i: int)
    requires
        0 <= i < frame_passes(sample_count, instances, text).len(),
    ensures
        ({
            let p = frame_passes(sample_count, instances, text);
            &&& (p[i].view == Target::Surface) == (i == p.len() - 1)
            &&& p[i].text == (text && i == p.len() - 1)
        }),
{
}

// ---- The renderer.

/// The state of the renderer.
pub struct Renderer {
    /// Columns of the height map: the values of a spectrum.
    pub cols: u32,
    /// Samples per pixel of the scene.
    pub sample_count: u32,
    /// Index of the format of the surface.
    pub format: usize,
    /// The size of the surface.
    pub width: u32,
    pub height: u32,
    /// The size of the window.
    pub size: (u32, u32),
    /// Segments of the wireframe.
    pub instance_count: u32,
    /// The row that the next spectrum goes to.
    pub head: u32,
    /// The text that was laid out last.
    pub text_cache: Option<String>,
    pub globe_yaw: Single,
    pub globe_pitch: Single,
    pub globe_zoom: Single,
    /// Eased beat for the bob of the camera.
    pub bob: Single,
    /// Eased accent colour.
    pub accent_cur: (Single, Single, Single),
}

/// A row of the height map to write.
pub struct RowWrite {
    /// Where it goes, in bytes.
    pub offset: u64,
    pub bytes: Vec<u8>,
}

/// The row that a spectrum becomes, and the row that the next one goes to.
pub open spec fn row_written(
    before: Renderer,
    spectrum: Seq<u32>,
    after: Renderer,
    r: RowWrite,
) -> bool {
    &&& r.offset == 4 * (before.head * before.cols)
    &&& in_memory(r.bytes@, spectrum.take(lesser(spectrum.len() as int, before.cols as int)))
    &&& after.head == (before.head + 1) % ROWS as int
    &&& after.cols == before.cols
}

/// What the text needs before a frame.
#[derive(Clone, Copy, Debug, PartialEq, Eq, Structural)]
pub enum TextPlan {
    /// Nothing: it is not to be seen.
    Skip,
    /// It is prepared for a surface of this size, and laid out anew if `layout`
    /// holds.
    Prepare { layout: bool, width: u32, height: u32 },
}

/// The numbers of a frame, computed outside.
#[derive(Clone, Copy, Debug)]
pub struct FrameNumbers {
    /// View and projection, column by column.
    pub view_proj: [Single; 16],
    pub level: Single,
    pub beat: Single,
    /// Columns, rows and head as numbers.
    pub cols: Single,
    pub rows: Single,
    pub head: Single,
    pub width_front: Single,
    pub width_back: Single,
    pub time: Single,
    pub fade_near: Single,
    pub fade_far: Single,
    /// The size of the window as numbers.
    pub width: Single,
    pub height: Single,
}

/// A finite number of the orbit lies inside its limits.
pub open spec fn inside(x: Single, lo: u32, hi: u32) -> bool {
    x.nan() || (Single { bits: lo }.at_most(x) && x.at_most(Single { bits: hi }))
}

/// The smaller of two numbers.
pub open spec fn lesser(a: int, b: int) -> int {
    if a <= b {
        a
    } else {
        b
    }
}

/// Bit patterns of numbers.
pub open spec fn patterns(xs: Seq<Single>) -> Seq<u32> {
    xs.map_values(|x: Single| x.bits)
}

/// The text is to be drawn.
pub open spec fn text_visible(alpha: Single, present: bool) -> bool {
    present && Single { bits: TEXT_FLOOR }.less(alpha)
}

/// The text needs nothing.
pub open spec fn text_skipped(alpha: Single, present: bool) -> bool {
    !present || alpha.at_most(Single { bits: TEXT_FLOOR })
}

impl Renderer {
    /// The grid can be addressed, the surface is not empty, the head is a row, and
    /// the orbit lies inside its limits.
    pub open spec fn wf(&self) -> bool {
        &&& 0 < self.cols
        &&& 4 * (self.cols * ROWS) <= u32::MAX
        &&& self.width > 0
        &&& self.height > 0
        &&& self.head < ROWS
        &&& self.instance_count == grid::segment_count(self.cols as int, ROWS as int)
        &&& inside(self.globe_pitch, PITCH_MIN, PITCH_MAX)
        &&& inside(self.globe_zoom, ZOOM_MIN, ZOOM_MAX)
    }

    /// The bytes of the height map.
    pub open spec fn heights_len(&self) -> int {
        4 * (self.cols * ROWS)
    }

    /// The values of the uniforms, in the order in which shaders find them.
    pub open spec fn uniform_values(&self, n: FrameNumbers, globe: bool) -> Seq<Single> {
        let zero = Single { bits: single::ZERO };
        n.view_proj@ + seq![self.accent_cur.0, self.accent_cur.1, self.accent_cur.2, n.level]
            + seq![n.cols, n.rows, n.head, n.beat] + seq![
            Single { bits: DEPTH },
            n.width_front,
            n.width_back,
            Single { bits: HEIGHT_SCALE },
        ] + seq![
            n.time,
            if globe {
                Single { bits: single::ONE }
            } else {
                zero
            },
            n.fade_near,
            n.fade_far,
        ] + seq![n.width, n.height, Single { bits: LINE_THICKNESS_PX }, zero]
    }

    /// A renderer for a window of the given size, with spectra of `cols` values.
    /// `srgb` says which formats of the surface encode colours as displays do;
    /// `four` and `two` say which numbers of samples per pixel the scene can have.
    ///
    /// Returns the segments of the wireframe too, as bytes.
    pub fn new(
        size: (u32, u32),
        srgb: &Vec<bool>,
        four: bool,
        two: bool,
        cols: u32,
    ) -> (r: (Renderer, Vec<u8>))
        requires
            0 < cols,
            4 * (cols * ROWS) <= u32::MAX,
            srgb@.len() > 0,
        ensures
            r.0.wf(),
            r.0.cols == cols,
            r.0.sample_count == best_sample_count(four, two),
            is_best_format(srgb@, r.0.format as int),
            r.0.width == at_least_one(size.0),
            r.0.height == at_least_one(size.1),
            r.0.size == size,
            r.0.head == 0,
            r.0.text_cache is None,
            r.0.globe_yaw.bits == single::ZERO,
            r.0.globe_pitch.bits == single::ZERO,
            r.0.globe_zoom.bits == single::ONE,
            r.0.bob.bits == single::ZERO,
            r.0.accent_cur.0.bits == single::ZERO,
            r.0.accent_cur.1.bits == single::ZERO,
            r.0.accent_cur.2.bits == single::ZERO,
            in_memory(r.1@, grid::all_segments(cols as int, ROWS as int)),
    {
        let segments: Vec<u32> = grid::segments(cols, ROWS);
        proof {
            grid::segments_are_counted(cols as int, ROWS as int);
        }
        let zero = Single { bits: single::ZERO };
        let renderer = Renderer {
            cols,
            sample_count: pick_sample_count(four, two),
            format: pick_format(srgb),
            width: one_or_more(size.0),
            height: one_or_more(size.1),
            size,
            instance_count: (segments.len() / 2) as u32,
            head: 0,
            text_cache: None,
            globe_yaw: zero,
            globe_pitch: zero,
            globe_zoom: Single { bits: single::ONE },
            bob: zero,
            accent_cur: (zero, zero, zero),
        };
        (renderer, words_to_bytes(&segments))
    }

    /// Takes note of the size of the window; whether the surface and its targets
    /// have to be made anew. An empty window changes nothing.
    pub fn resize(&mut self, width: u32, height: u32) -> (r: bool)
        requires
            old(self).wf(),
        ensures
            final(self).wf(),
            r == (width > 0 && height > 0),
            *final(self) == (if r {
                Renderer { width, height, size: (width, height), ..*old(self) }
            } else {
                *old(self)
            }),
    {
        if width == 0 || height == 0 {
            return false;
        }
        self.size = (width, height);
        self.width = width;
        self.height = height;
        true
    }

    /// Turns the globe to a yaw and a pitch, the one free and the other limited.
    pub fn globe_rotate(&mut self, yaw: Single, pitch: Single)
        requires
            old(self).wf(),
        ensures
            final(self).wf(),
            *final(self) == (Renderer {
                globe_yaw: yaw,
                globe_pitch: pitch.clamped(Single { bits: PITCH_MIN }, Single { bits: PITCH_MAX }),
                ..*old(self)
            }),
    {
        self.globe_yaw = yaw;
        self.globe_pitch = pitch.clamp(Single { bits: PITCH_MIN }, Single { bits: PITCH_MAX });
    }

    /// Zooms the globe, inside the limits.
    pub fn globe_zoom(&mut self, zoom: Single)
        requires
            old(self).wf(),
        ensures
            final(self).wf(),
            *final(self) == (Renderer {
                globe_zoom: zoom.clamped(Single { bits: ZOOM_MIN }, Single { bits: ZOOM_MAX }),
                ..*old(self)
            }),
    {
        self.globe_zoom = zoom.clamp(Single { bits: ZOOM_MIN }, Single { bits: ZOOM_MAX });
    }

    /// Yaw, pitch and zoom of the globe.
    pub fn globe_orbit(&self) -> (r: (Single, Single, Single))
        ensures
            r == (self.globe_yaw, self.globe_pitch, self.globe_zoom),
    {
        (self.globe_yaw, self.globe_pitch, self.globe_zoom)
    }

    /// Sets yaw, pitch and zoom of the globe, inside the limits.
    pub fn set_globe_orbit(&mut self, yaw: Single, pitch: Single, zoom: Single)
        requires
            old(self).wf(),
        ensures
            final(self).wf(),
            *final(self) == (Renderer {
                globe_yaw: yaw,
                globe_pitch: pitch.clamped(Single { bits: PITCH_MIN }, Single { bits: PITCH_MAX }),
                globe_zoom: zoom.clamped(Single { bits: ZOOM_MIN }, Single { bits: ZOOM_MAX }),
                ..*old(self)
            }),
    {
        self.globe_rotate(yaw, pitch);
        self.globe_zoom(zoom);
    }

    /// Begins a frame: the newest spectrum becomes a row of the scrolling height
    /// map, as far as it has columns, and the eased motion is taken over.
    ///
    /// Returns the row to write.
    pub fn render(
        &mut self,
        spectrum: &[u32],
        bob: Single,
        accent: (Single, Single, Single),
    ) -> (r: RowWrite)
        requires
            old(self).wf(),
        ensures
            final(self).wf(),
            *final(self) == (Renderer {
                head: ((old(self).head + 1) % ROWS as int) as u32,
                bob,
                accent_cur: accent,
                ..*old(self)
            }),
            row_written(*old(self), spectrum@, *final(self), r),
    {
        let n: usize = if spectrum.len() < self.cols as usize {
            spectrum.len()
        } else {
            self.cols as usize
        };
        let mut row: Vec<u32> = Vec::new();
        let mut i: usize = 0;
        while i < n
            invariant
                i <= n <= spectrum@.len(),
                row@ == spectrum@.take(i as int),
            decreases n - i,
        {
            row.push(spectrum[i]);
            i = i + 1;
            assert(row@ =~= spectrum@.take(i as int));
        }
        proof {
            lemma_row_inside(self.head as int, self.cols as int);
        }
        let offset: u64 = 4 * (self.head as u64 * self.cols as u64);
        self.head = (self.head + 1) % ROWS;
        self.bob = bob;
        self.accent_cur = accent;
        RowWrite { offset, bytes: words_to_bytes(&row) }
    }

    /// The uniforms of a frame, as bytes.
    pub fn uniforms(&self, n: &FrameNumbers, globe: bool) -> (r: Vec<u8>)
        ensures
            in_memory(r@, patterns(self.uniform_values(*n, globe))),
    {
        let mut words: Vec<u32> = Vec::new();
        let mut i: usize = 0;
        while i < 16
            invariant
                i <= 16,
                words@ == patterns(n.view_proj@.take(i as int)),
            decreases 16 - i,
        {
            words.push(n.view_proj[i].bits);
            i = i + 1;
            assert(words@ =~= patterns(n.view_proj@.take(i as int)));
        }
        assert(n.view_proj@.take(16) =~= n.view_proj@);
        push_four(&mut words, self.accent_cur.0, self.accent_cur.1, self.accent_cur.2, n.level);
        push_four(&mut words, n.cols, n.rows, n.head, n.beat);
        push_four(
            &mut words,
            Single { bits: DEPTH },
            n.width_front,
            n.width_back,
            Single { bits: HEIGHT_SCALE },
        );
        let scene = Single {
            bits: if globe {
                single::ONE
            } else {
                single::ZERO
            },
        };
        push_four(&mut words, n.time, scene, n.fade_near, n.fade_far);
        push_four(
            &mut words,
            n.width,
            n.height,
            Single { bits: LINE_THICKNESS_PX },
            Single { bits: single::ZERO },
        );
        assert(words@ =~= patterns(self.uniform_values(*n, globe)));
        words_to_bytes(&words)
    }

    /// Prepares the text of a frame: it is laid out anew only if it changed.
    pub fn prepare_text(&mut self, now_playing: Option<&str>, alpha: Single) -> (r: TextPlan)
        requires
            old(self).wf(),
        ensures
            final(self).wf(),
            text_skipped(alpha, now_playing is Some) ==> r == TextPlan::Skip && *final(self) == *old(
                self,
            ),
            !text_skipped(alpha, now_playing is Some) ==> {
                let cached = old(self).text_cache matches Some(t) && t@ == now_playing->0@;
                &&& r == (TextPlan::Prepare {
                    layout: !cached,
                    width: old(self).width,
                    height: old(self).height,
                })
                &&& *final(self) == (Renderer { text_cache: final(self).text_cache, ..*old(self) })
                &&& final(self).text_cache matches Some(t) && t@ == now_playing->0@
            },
    {
        match now_playing {
            None => TextPlan::Skip,
            Some(t) => {
                if alpha.le(Single { bits: TEXT_FLOOR }) {
                    return TextPlan::Skip;
                }
                let cached: bool = match &self.text_cache {
                    Some(c) => text::same_text(c.as_str(), t),
                    None => false,
                };
                if !cached {
                    self.text_cache = Some(t.to_owned());
                }
                TextPlan::Prepare { layout: !cached, width: self.width, height: self.height }
            },
        }
    }

    /// Plans the passes of a frame. The text is drawn if there is one that can be
    /// seen.
    pub fn passes(&self, has_text: bool, alpha: Single) -> (r: Vec<PassPlan>)
        ensures
            r@ == frame_passes(
                self.sample_count,
                self.instance_count,
                text_visible(alpha, has_text),
            ),
    {
        let text: bool = has_text && Single { bits: TEXT_FLOOR }.lt(alpha);
        let (view, resolve): (Target, Option<Target>) = if self.sample_count > 1 {
            (Target::SceneMsaa, Some(Target::Scene))
        } else {
            (Target::Scene, None)
        };
        let scene = PassPlan {
            view,
            resolve,
            group: Group::Scene,
            first: Draw { pipeline: Pipeline::Backdrop, vertices: 3, instances: 1 },
            second: Some(
                Draw { pipeline: Pipeline::Lines, vertices: 6, instances: self.instance_count },
            ),
            text: false,
        };
        let r: Vec<PassPlan> = vec![
            scene,
            post_pass(Target::BloomA, Group::Bright, Pipeline::Bright, false),
            post_pass(Target::BloomB, Group::BlurH, Pipeline::Blur, false),
            post_pass(Target::BloomA, Group::BlurV, Pipeline::Blur, false),
            post_pass(Target::Surface, Group::Composite, Pipeline::Composite, text),
        ];
        assert(r@ =~= frame_passes(
            self.sample_count,
            self.instance_count,
            text_visible(alpha, has_text),
        ));
        r
    }
}

fn push_four(words: &mut Vec<u32>, a: Single, b: Single, c: Single, d: Single)
    ensures
        final(words)@ == old(words)@ + patterns(seq![a, b, c, d]),
{
    let ghost before = words@;
    words.push(a.bits);
    words.push(b.bits);
    words.push(c.bits);
    words.push(d.bits);
    assert(words@ =~= before + patterns(seq![a, b, c, d]));
}

proof fn lemma_row_inside(head: int, cols: int)
    requires
        0 <= head < ROWS,
        0 < cols,
    ensures
        0 <= head * cols,
        head * cols + cols <= cols * ROWS,
{
    assert(0 <= head * cols) by (nonlinear_arith)
        requires
            0 <= head,
            0 < cols,
    ;
    assert(head * cols + cols <= cols * ROWS) by (nonlinear_arith)
        requires
            head + 1 <= ROWS,
            0 < cols,
    ;
}

/// A row of any spectrum lies inside the height map.
pub proof fn rows_lie_inside_the_map(renderer: Renderer, values: int)
    requires
        renderer.wf(),
        0 <= values,
    ensures
        0 <= 4 * (renderer.head * renderer.cols),
        4 * (renderer.head * renderer.cols) + 4 * lesser(values, renderer.cols as int)
            <= renderer.heights_len(),
{
    lemma_row_inside(renderer.head as int, renderer.cols as int);
}

/// The row that holds the spectrum of `age` frames before the newest one, while
/// `head` is the next row to write.
pub open spec fn row_of_age(head: int, age: int) -> int {
    (head - 1 - age) % ROWS as int
}

/// The height map scrolls: a frame puts its spectrum into the row of the oldest
/// one, and every other spectrum stays in its row and grows older by one frame.
pub proof fn the_map_scrolls(head: int, age: int)
    requires
        0 <= head < ROWS,
        0 <= age,
        age + 1 < ROWS,
    ensures
        row_of_age(head, ROWS - 1) == head,
        row_of_age((head + 1) % ROWS as int, 0) == head,
        row_of_age((head + 1) % ROWS as int, age + 1) == row_of_age(head, age),
        row_of_age(head, age) != head,
{
}

/// `states` are the states that frames with `spectra` lead through, and `rows` the
/// rows that they write.
pub open spec fn frame_run(
    states: Seq<Renderer>,
    spectra: Seq<Seq<u32>>,
    rows: Seq<RowWrite>,
) -> bool {
    &&& states.len() == rows.len() + 1
    &&& spectra.len() == rows.len()
    &&& states[0].wf()
    &&& forall|k: int|
        0 <= k < rows.len() ==> row_written(states[k], spectra[k], states[k + 1], #[trigger] rows[k])
}

proof fn lemma_frame_run(
    states: Seq<Renderer>,
    spectra: Seq<Seq<u32>>,
    rows: Seq<RowWrite>,
    k: int,
)
    requires
        frame_run(states, spectra, rows),
        0 <= k <= rows.len(),
    ensures
        states[k].head == (states[0].head + k) % ROWS as int,
        states[k].cols == states[0].cols,
        k < rows.len() ==> rows[k].offset == 4 * (states[k].head * states[0].cols)
            && rows[k].bytes@.len() <= 4 * states[0].cols,
    decreases k,
{
    if k > 0 {
        lemma_frame_run(states, spectra, rows, k - 1);
        assert(row_written(states[k - 1], spectra[k - 1], states[k], rows[k - 1]));
    }
    if k < rows.len() {
        assert(row_written(states[k], spectra[k], states[k + 1], rows[k]));
    }
}

/// Two rows share no byte of the map.
pub open spec fn apart(r: RowWrite, other: RowWrite) -> bool {
    r.offset + r.bytes@.len() <= other.offset || other.offset + other.bytes@.len() <= r.offset
}

/// Frames write inside the height map, and two that are fewer frames apart than the
/// map has rows write apart from each other.
pub proof fn frames_write_different_rows(
    states: Seq<Renderer>,
    spectra: Seq<Seq<u32>>,
    rows: Seq<RowWrite>,
    i: int,
    j: int,
)
    requires
        frame_run(states, spectra, rows),
        0 <= i < j < rows.len(),
        j - i < ROWS,
    ensures
        rows[i].offset + rows[i].bytes@.len() <= states[0].heights_len(),
        rows[j].offset + rows[j].bytes@.len() <= states[0].heights_len(),
        apart(rows[i], rows[j]),
{
    lemma_frame_run(states, spectra, rows, i);
    lemma_frame_run(states, spectra, rows, j);
    let a = states[i].head as int;
    let b = states[j].head as int;
    let cols = states[0].cols as int;
    lemma_row_inside(a, cols);
    lemma_row_inside(b, cols);
    assert(a != b);
    if a < b {
        assert(a * cols + cols <= b * cols) by (nonlinear_arith)
            requires
                a + 1 <= b,
                0 < cols,
        ;
    } else {
        assert(b * cols + cols <= a * cols) by (nonlinear_arith)
            requires
                b + 1 <= a,
                0 < cols,
        ;
    }
}

/// As many frames as the map has rows write every row once, and the next frame
/// goes where the first one went.
pub proof fn a_full_turn_writes_every_row(
    states: Seq<Renderer>,
    spectra: Seq<Seq<u32>>,
    rows: Seq<RowWrite>,
    row: int,
)
    requires
        frame_run(states, spectra, rows),
        rows.len() == ROWS,
        0 <= row < ROWS,
    ensures
        states.last().head == states[0].head,
        exists|k: int|
            0 <= k < ROWS && (#[trigger] rows[k]).offset == 4 * (row * states[0].cols),
{
    let head = states[0].head as int;
    lemma_frame_run(states, spectra, rows, ROWS as int);
    let k = if head <= row {
        row - head
    } else {
        row + ROWS - head
    };
    lemma_frame_run(states, spectra, rows, k);
    assert(states[k].head == row);
    assert(rows[k].offset == 4 * (row * states[0].cols));
}

/// Bytes after a row was written over them.
pub open spec fn overwritten(map: Seq<u8>, r: RowWrite) -> Seq<u8> {
    map.take(r.offset as int) + r.bytes@ + map.skip(r.offset + r.bytes@.len())
}

/// Bytes after rows were written over them, one after the other.
pub open spec fn map_after(map: Seq<u8>, rows: Seq<RowWrite>) -> Seq<u8>
    decreases rows.len(),
{
    if rows.len() == 0 {
        map
    } else {
        overwritten(map_after(map, rows.drop_last()), rows.last())
    }
}

/// Writing a row leaves the length, puts its bytes where it goes, and changes
/// nothing apart from it.
proof fn lemma_overwritten(map: Seq<u8>, r: RowWrite, from: int, to: int)
    requires
        r.offset + r.bytes@.len() <= map.len(),
        0 <= from <= to <= map.len(),
    ensures
        overwritten(map, r).len() == map.len(),
        overwritten(map, r).subrange(r.offset as int, r.offset + r.bytes@.len()) == r.bytes@,
        to <= r.offset || r.offset + r.bytes@.len() <= from ==> overwritten(map, r).subrange(
            from,
            to,
        ) == map.subrange(from, to),
{
    let after = overwritten(map, r);
    assert(after.subrange(r.offset as int, r.offset + r.bytes@.len()) =~= r.bytes@);
    if to <= r.offset || r.offset + r.bytes@.len() <= from {
        assert(after.subrange(from, to) =~= map.subrange(from, to));
    }
}

/// What a run of frames led to before its last frame.
proof fn lemma_shorter_run(
    states: Seq<Renderer>,
    spectra: Seq<Seq<u32>>,
    rows: Seq<RowWrite>,
    map: Seq<u8>,
)
    requires
        frame_run(states, spectra, rows),
        map.len() == states[0].heights_len(),
        rows.len() > 0,
    ensures
        frame_run(states.drop_last(), spectra.drop_last(), rows.drop_last()),
        map_after(map, rows) == overwritten(map_after(map, rows.drop_last()), rows.last()),
        map_after(map, rows.drop_last()).len() == map.len(),
        rows.last().offset + rows.last().bytes@.len() <= map.len(),
{
    let n = rows.len() as int;
    let front = rows.drop_last();
    let earlier = states.drop_last();
    let shown = spectra.drop_last();
    assert forall|k: int| 0 <= k < front.len() implies row_written(
        earlier[k],
        shown[k],
        earlier[k + 1],
        #[trigger] front[k],
    ) by {
        assert(front[k] == rows[k]);
    }
    lemma_map_len(states, spectra, rows, map, n - 1);
    assert(rows.take(n - 1) == front);
    lemma_frame_run(states, spectra, rows, n - 1);
    lemma_row_inside(states[n - 1].head as int, states[0].cols as int);
}

/// The height map always holds the newest spectra, as many as it has rows: what a
/// frame wrote stays until that many frames have followed.
#[verifier::spinoff_prover]
pub proof fn the_newest_spectra_are_in_the_map(
    states: Seq<Renderer>,
    spectra: Seq<Seq<u32>>,
    rows: Seq<RowWrite>,
    map: Seq<u8>,
    i: int,
)
    requires
        frame_run(states, spectra, rows),
        map.len() == states[0].heights_len(),
        0 <= i < rows.len(),
        rows.len() - i <= ROWS,
    ensures
        map_after(map, rows).len() == map.len(),
        map_after(map, rows).subrange(
            rows[i].offset as int,
            rows[i].offset + rows[i].bytes@.len(),
        ) == rows[i].bytes@,
    decreases rows.len(),
{
    let n = rows.len() as int;
    let front = rows.drop_last();
    let before = map_after(map, front);
    lemma_shorter_run(states, spectra, rows, map);
    if i < n - 1 {
        the_newest_spectra_are_in_the_map(states.drop_last(), spectra.drop_last(), front, map, i);
        frames_write_different_rows(states, spectra, rows, i, n - 1);
        lemma_overwritten(
            before,
            rows[n - 1],
            rows[i].offset as int,
            rows[i].offset + rows[i].bytes@.len(),
        );
    } else {
        lemma_overwritten(before, rows[n - 1], 0, 0);
    }
}

/// A byte of the map lies in a row.
pub open spec fn covers(r: RowWrite, at: int) -> bool {
    r.offset <= at < r.offset + r.bytes@.len()
}

/// A byte of the height map that no frame of a run covers stays as it was.
#[verifier::spinoff_prover]
pub proof fn bytes_that_no_frame_covers_stay(
    states: Seq<Renderer>,
    spectra: Seq<Seq<u32>>,
    rows: Seq<RowWrite>,
    map: Seq<u8>,
    at: int,
)
    requires
        frame_run(states, spectra, rows),
        map.len() == states[0].heights_len(),
        0 <= at < map.len(),
        forall|k: int| 0 <= k < rows.len() ==> !covers(#[trigger] rows[k], at),
    ensures
        map_after(map, rows).len() == map.len(),
        map_after(map, rows)[at] == map[at],
    decreases rows.len(),
{
    if rows.len() > 0 {
        let n = rows.len() as int;
        let front = rows.drop_last();
        let before = map_after(map, front);
        lemma_shorter_run(states, spectra, rows, map);
        assert forall|k: int| 0 <= k < front.len() implies !covers(#[trigger] front[k], at) by {
            assert(front[k] == rows[k]);
        }
        bytes_that_no_frame_covers_stay(states.drop_last(), spectra.drop_last(), front, map, at);
        assert(!covers(rows[n - 1], at));
        lemma_overwritten(before, rows[n - 1], at, at + 1);
        assert(map_after(map, rows).subrange(at, at + 1)[0] == before.subrange(at, at + 1)[0]);
    }
}

proof fn lemma_map_len(
    states: Seq<Renderer>,
    spectra: Seq<Seq<u32>>,
    rows: Seq<RowWrite>,
    map: Seq<u8>,
    k: int,
)
    requires
        frame_run(states, spectra, rows),
        map.len() == states[0].heights_len(),
        0 <= k <= rows.len(),
    ensures
        map_after(map, rows.take(k)).len() == map.len(),
    decreases k,
{
    if k > 0 {
        lemma_map_len(states, spectra, rows, map, k - 1);
        lemma_frame_run(states, spectra, rows, k - 1);
        lemma_row_inside(states[k - 1].head as int, states[0].cols as int);
        assert(rows.take(k).drop_last() == rows.take(k - 1));
    }
}

/// An orbit that was set is the orbit that is given back, as long as it lies inside
/// the limits.
pub proof fn orbits_inside_the_limits_are_kept(pitch: Single, zoom: Single)
    requires
        inside(pitch, PITCH_MIN, PITCH_MAX),
        inside(zoom, ZOOM_MIN, ZOOM_MAX),
    ensures
        pitch.clamped(Single { bits: PITCH_MIN }, Single { bits: PITCH_MAX }) == pitch,
        zoom.clamped(Single { bits: ZOOM_MIN }, Single { bits: ZOOM_MAX }) == zoom,
{
}

/// A blur direction is four words: the horizontal one has its step first, the
/// vertical one second, and the others are zero.
pub proof fn blurs_go_along_one_axis(x: Single, y: Single, r: (Vec<u8>, Vec<u8>), i: int)
    requires
        call_ensures(blur_directions, (x, y), r),
    ensures
        r.0@.len() == 16,
        r.1@.len() == 16,
        4 <= i < 16 ==> r.0@[i] == 0,
        0 <= i < 4 || 8 <= i < 16 ==> r.1@[i] == 0,
        in_memory(r.0@.take(4), seq![x.bits]),
        in_memory(r.1@.subrange(4, 8), seq![y.bits]),
{
    let h = seq![x.bits, 0u32, 0u32, 0u32];
    let v = seq![0u32, y.bits, 0u32, 0u32];
    assert(h[0] == x.bits && h[1] == 0 && h[2] == 0 && h[3] == 0);
    assert(v[0] == 0 && v[1] == y.bits && v[2] == 0 && v[3] == 0);
    let a = r.0@.take(4);
    let b = r.1@.subrange(4, 8);
    assert(seq![x.bits][0] == x.bits);
    assert(seq![y.bits][0] == y.bits);
    if lowest_first(r.0@, h) {
        assert(lowest_first(a, seq![x.bits]));
    } else {
        assert(highest_first(a, seq![x.bits]));
    }
    if lowest_first(r.1@, v) {
        assert(lowest_first(b, seq![y.bits]));
    } else {
        assert(highest_first(b, seq![y.bits]));
    }
}

/// As many samples per pixel as can be had are taken: four, or two, or one.
pub proof fn the_most_samples_are_taken(four: bool, two: bool, r: u32)
    requires
        call_ensures(pick_sample_count, (four, two), r),
    ensures
        four ==> r == 4,
        !four && two ==> r == 2,
        !four && !two ==> r == 1,
{
}

/// The first format that encodes colours as displays do is taken, and the first of
/// all if none does.
pub proof fn the_first_fitting_format_is_taken(srgb: &Vec<bool>, r: usize)
    requires
        srgb@.len() > 0,
        call_ensures(pick_format, (srgb,), r),
    ensures
        r < srgb@.len(),
        forall|j: int| 0 <= j < r ==> !#[trigger] srgb@[j],
        !srgb@[r as int] ==> r == 0 && forall|j: int| 0 <= j < srgb@.len() ==> !#[trigger] srgb@[j],
{
}

/// Frames are drawn on a usable surface, an outdated or lost one is configured anew,
/// and on any other the frame is left out.
pub proof fn surfaces_decide_on_frames(status: SurfaceStatus, r: FrameAction)
    requires
        call_ensures(frame_action, (status,), r),
    ensures
        status is Success || status is Suboptimal <==> r is Draw,
        status is Outdated || status is Lost <==> r is Reconfigure,
        status is Unavailable <==> r is Skip,
{
}

/// The scene has the size of the surface, the blur half of it, and neither is ever
/// empty. Only a scene of several samples per pixel has a second target.
pub proof fn targets_follow_the_surface(
    width: u32,
    height: u32,
    sample_count: u32,
    r: Targets,
    blur: (u32, u32),
)
    requires
        call_ensures(build_targets, (width, height, sample_count), r),
        call_ensures(blur_size, (width, height), blur),
    ensures
        width > 0 ==> r.scene.width == width,
        height > 0 ==> r.scene.height == height,
        width == 0 ==> r.scene.width == 1,
        height == 0 ==> r.scene.height == 1,
        r.scene.sample_count == 1,
        width >= 2 ==> r.bloom_a.width == width as int / 2,
        height >= 2 ==> r.bloom_a.height == height as int / 2,
        width < 2 ==> r.bloom_a.width == 1,
        height < 2 ==> r.bloom_a.height == 1,
        r.bloom_a.sample_count == 1,
        r.bloom_b == r.bloom_a,
        blur == (r.bloom_a.width, r.bloom_a.height),
        r.scene_msaa is Some <==> sample_count > 1,
        r.scene_msaa matches Some(m) ==> m.width == r.scene.width && m.height == r.scene.height
            && m.sample_count == sample_count,
{
}

/// A target has the size asked for, but for at least one pixel each way.
pub proof fn targets_are_never_empty(width: u32, height: u32, sample_count: u32, r: TargetPlan)
    requires
        call_ensures(color_target, (width, height, sample_count), r),
    ensures
        width > 0 ==> r.width == width,
        width == 0 ==> r.width == 1,
        height > 0 ==> r.height == height,
        height == 0 ==> r.height == 1,
        r.sample_count == sample_count,
{
}

/// What the groups bind: the scene its uniforms and heights, every other group the
/// sampler and the pictures that it works on, and a blur its direction.
pub proof fn groups_bind_what_they_work_on(group: Group, r: Vec<GroupEntry>, layout: Layout)
    requires
        call_ensures(group_entries, (group,), r),
        call_ensures(group_layout, (group,), layout),
    ensures
        group is Scene ==> layout is Scene && r@.len() == 2 && r@[0].resource is Uniforms
            && r@[1].resource is Heights && r@[0].binding == 0 && r@[1].binding == 1,
        !(group is Scene) ==> r@.len() >= 2 && r@[0].resource is Sampler && r@[0].binding == 0,
        group is Bright ==> layout is Bright && r@.len() == 2 && r@[1] == (GroupEntry {
            binding: 1,
            resource: Resource::Texture(Target::Scene),
        }),
        group is BlurH ==> layout is Blur && r@.len() == 3 && r@[1] == (GroupEntry {
            binding: 1,
            resource: Resource::Texture(Target::BloomA),
        }) && r@[2] == (GroupEntry { binding: 2, resource: Resource::DirectionH }),
        group is BlurV ==> layout is Blur && r@.len() == 3 && r@[1] == (GroupEntry {
            binding: 1,
            resource: Resource::Texture(Target::BloomB),
        }) && r@[2] == (GroupEntry { binding: 2, resource: Resource::DirectionV }),
        group is Composite ==> layout is Composite && r@.len() == 3 && r@[1] == (GroupEntry {
            binding: 3,
            resource: Resource::Texture(Target::Scene),
        }) && r@[2] == (GroupEntry { binding: 4, resource: Resource::Texture(Target::BloomA) }),
{
}

/// Every place of a layout is seen by the fragment stage alone, but for those of the
/// scene: both stages see its uniforms, and the vertex stage its heights.
pub proof fn stages_see_what_they_need(layout: Layout, r: Vec<LayoutEntry>)
    requires
        call_ensures(layout_entries, (layout,), r),
    ensures
        layout is Scene ==> r@.len() == 2 && r@[0] == (LayoutEntry {
            binding: 0,
            stages: Stages::VertexAndFragment,
            kind: BindingKind::UniformBuffer,
        }) && r@[1] == (LayoutEntry {
            binding: 1,
            stages: Stages::Vertex,
            kind: BindingKind::StorageBuffer,
        }),
        !(layout is Scene) ==> r@.len() >= 2 && r@[0].binding == 0 && r@[0].kind is Sampler
            && r@[1].kind is Texture && forall|i: int|
            0 <= i < r@.len() ==> (#[trigger] r@[i]).stages is Fragment,
        layout is Bright ==> r@.len() == 2 && r@[1].binding == 1,
        layout is Blur ==> r@.len() == 3 && r@[1].binding == 1 && r@[2].binding == 2
            && r@[2].kind is UniformBuffer,
        layout is Composite ==> r@.len() == 3 && r@[1].binding == 3 && r@[2].binding == 4
            && r@[2].kind is Texture,
{
}

/// How the pipelines are made, and where their shaders begin.
pub proof fn pipelines_are_made_for_their_work(
    pipeline: Pipeline,
    r: PipelinePlan,
    names: (&'static str, &'static str),
)
    requires
        call_ensures(pipeline_plan, (pipeline,), r),
        call_ensures(entry_points, (pipeline,), names),
    ensures
        pipeline is Lines ==> r.layout is Scene && names.0@ == "vs_main"@ && names.1@ == "fs_main"@,
        pipeline is Backdrop ==> r.layout is Scene && names.0@ == "vs_bg"@ && names.1@ == "fs_bg"@,
        pipeline is Bright ==> r.layout is Bright && names.1@ == "fs_bright"@,
        pipeline is Blur ==> r.layout is Blur && names.1@ == "fs_blur"@,
        pipeline is Composite ==> r.layout is Composite && names.1@ == "fs_composite"@,
        pipeline is Bright || pipeline is Blur || pipeline is Composite ==> names.0@
            == "vs_fullscreen"@,
        pipeline is Lines || pipeline is Backdrop <==> r.shader is Scene,
        pipeline is Lines || pipeline is Backdrop <==> r.scene_samples,
        pipeline is Lines <==> r.reads_segments,
        pipeline is Lines <==> r.blends,
        pipeline is Composite <==> r.output is Surface,
{
}

/// A renderer is made for the window, with a wireframe of 96 rows, an empty map and
/// the orbit of the globe at rest.
pub proof fn a_renderer_is_made_for_its_window(
    size: (u32, u32),
    srgb: &Vec<bool>,
    four: bool,
    two: bool,
    cols: u32,
    samples: u32,
    segments: Vec<u32>,
    r: (Renderer, Vec<u8>),
)
    requires
        0 < cols,
        4 * (cols * 96) <= u32::MAX,
        srgb@.len() > 0,
        call_ensures(Renderer::new, (size, srgb, four, two, cols), r),
        call_ensures(pick_sample_count, (four, two), samples),
        call_ensures(grid::segments, (cols, 96u32), segments),
    ensures
        r.0.cols == cols,
        r.0.sample_count == samples,
        r.0.format < srgb@.len(),
        forall|j: int| 0 <= j < r.0.format ==> !#[trigger] srgb@[j],
        !srgb@[r.0.format as int] ==> r.0.format == 0 && forall|j: int|
            0 <= j < srgb@.len() ==> !#[trigger] srgb@[j],
        size.0 > 0 ==> r.0.width == size.0,
        size.1 > 0 ==> r.0.height == size.1,
        size.0 == 0 ==> r.0.width == 1,
        size.1 == 0 ==> r.0.height == 1,
        r.0.size == size,
        r.0.instance_count == 96 * (cols - 1) + 95 * cols,
        r.0.head == 0,
        r.0.text_cache is None,
        r.0.globe_yaw.bits == 0,
        r.0.globe_pitch.bits == 0,
        r.0.globe_zoom.bits == 0x3f80_0000,
        r.0.bob.bits == 0,
        r.0.accent_cur.0.bits == 0 && r.0.accent_cur.1.bits == 0 && r.0.accent_cur.2.bits == 0,
        in_memory(r.1@, segments@),
{
}

/// A window that is not empty is followed, an empty one ignored, and nothing but the
/// size changes.
pub proof fn sizes_are_followed(renderer: &mut Renderer, width: u32, height: u32, r: bool)
    requires
        call_ensures(Renderer::resize, (renderer, width, height), r),
    ensures
        width == 0 || height == 0 ==> !r && *final(renderer) == *old(renderer),
        width > 0 && height > 0 ==> {
            &&& r
            &&& final(renderer).width == width
            &&& final(renderer).height == height
            &&& final(renderer).size == (width, height)
        },
        final(renderer).cols == old(renderer).cols,
        final(renderer).head == old(renderer).head,
        final(renderer).sample_count == old(renderer).sample_count,
        final(renderer).format == old(renderer).format,
        final(renderer).instance_count == old(renderer).instance_count,
        final(renderer).text_cache == old(renderer).text_cache,
{
}

/// The orbit is what it was set to, as far as the pitch lies between -1.3 and 1.3 and
/// the zoom between 0.4 and 4.0; beyond that it is the limit.
pub proof fn orbits_are_set_inside_the_limits(
    renderer: &mut Renderer,
    yaw: Single,
    pitch: Single,
    zoom: Single,
    after: &Renderer,
    r: (Single, Single, Single),
)
    requires
        call_ensures(Renderer::set_globe_orbit, (renderer, yaw, pitch, zoom), ()),
        *after == *final(renderer),
        call_ensures(Renderer::globe_orbit, (after,), r),
    ensures
        r.0 == yaw,
        pitch.less(Single { bits: 0xbfa6_6666 }) ==> r.1.bits == 0xbfa6_6666,
        (Single { bits: 0x3fa6_6666 }).less(pitch) ==> r.1.bits == 0x3fa6_6666,
        !pitch.less(Single { bits: 0xbfa6_6666 }) && !(Single { bits: 0x3fa6_6666 }).less(pitch)
            ==> r.1 == pitch,
        zoom.less(Single { bits: 0x3ecc_cccd }) ==> r.2.bits == 0x3ecc_cccd,
        (Single { bits: 0x4080_0000 }).less(zoom) ==> r.2.bits == 0x4080_0000,
        !zoom.less(Single { bits: 0x3ecc_cccd }) && !(Single { bits: 0x4080_0000 }).less(zoom)
            ==> r.2 == zoom,
        final(renderer).head == old(renderer).head,
        final(renderer).text_cache == old(renderer).text_cache,
{
}

/// Turning leaves the zoom alone, and zooming the angles; both keep to the limits
/// that setting the orbit keeps to.
pub proof fn turning_and_zooming_are_set_apart(
    turned: &mut Renderer,
    zoomed: &mut Renderer,
    yaw: Single,
    pitch: Single,
    zoom: Single,
)
    requires
        call_ensures(Renderer::globe_rotate, (turned, yaw, pitch), ()),
        call_ensures(Renderer::globe_zoom, (zoomed, zoom), ()),
    ensures
        final(turned).globe_yaw == yaw,
        pitch.less(Single { bits: 0xbfa6_6666 }) ==> final(turned).globe_pitch.bits == 0xbfa6_6666,
        (Single { bits: 0x3fa6_6666 }).less(pitch) ==> final(turned).globe_pitch.bits
            == 0x3fa6_6666,
        !pitch.less(Single { bits: 0xbfa6_6666 }) && !(Single { bits: 0x3fa6_6666 }).less(pitch)
            ==> final(turned).globe_pitch == pitch,
        final(turned).globe_zoom == old(turned).globe_zoom,
        zoom.less(Single { bits: 0x3ecc_cccd }) ==> final(zoomed).globe_zoom.bits == 0x3ecc_cccd,
        (Single { bits: 0x4080_0000 }).less(zoom) ==> final(zoomed).globe_zoom.bits == 0x4080_0000,
        !zoom.less(Single { bits: 0x3ecc_cccd }) && !(Single { bits: 0x4080_0000 }).less(zoom)
            ==> final(zoomed).globe_zoom == zoom,
        final(zoomed).globe_yaw == old(zoomed).globe_yaw,
        final(zoomed).globe_pitch == old(zoomed).globe_pitch,
{
}

/// A frame writes its spectrum, as far as there are columns, into the row at the
/// head, and moves the head to the next of 96 rows. Motion and accent are taken over.
pub proof fn a_frame_writes_its_spectrum_at_the_head(
    renderer: &mut Renderer,
    spectrum: &[u32],
    bob: Single,
    accent: (Single, Single, Single),
    r: RowWrite,
)
    requires
        old(renderer).wf(),
        call_ensures(Renderer::render, (renderer, spectrum, bob, accent), r),
    ensures
        r.offset == 4 * (old(renderer).head * old(renderer).cols),
        spectrum@.len() <= old(renderer).cols ==> in_memory(r.bytes@, spectrum@),
        spectrum@.len() > old(renderer).cols ==> in_memory(
            r.bytes@,
            spectrum@.take(old(renderer).cols as int),
        ),
        old(renderer).head < 95 ==> final(renderer).head == old(renderer).head + 1,
        old(renderer).head == 95 ==> final(renderer).head == 0,
        final(renderer).bob == bob,
        final(renderer).accent_cur == accent,
        final(renderer).cols == old(renderer).cols,
        final(renderer).width == old(renderer).width,
        final(renderer).height == old(renderer).height,
        final(renderer).sample_count == old(renderer).sample_count,
        final(renderer).instance_count == old(renderer).instance_count,
        final(renderer).text_cache == old(renderer).text_cache,
        final(renderer).globe_yaw == old(renderer).globe_yaw,
        final(renderer).globe_pitch == old(renderer).globe_pitch,
        final(renderer).globe_zoom == old(renderer).globe_zoom,
{
    assert(spectrum@.take(spectrum@.len() as int) =~= spectrum@);
}

/// The uniforms are 36 words: the view, accent and level, the grid, the shape with
/// depth 24.0 and height 5.0, time, scene and fading, and the size with lines of 2.2
/// pixels. The scene, word 29, is 1.0 for the globe and 0.0 for the terrain.
pub proof fn uniforms_stand_in_their_places(
    renderer: &Renderer,
    n: &FrameNumbers,
    globe: bool,
    r: Vec<u8>,
) -> (w: Seq<u32>)
    requires
        call_ensures(Renderer::uniforms, (renderer, n, globe), r),
    ensures
        in_memory(r@, w),
        w.len() == 36,
        forall|i: int| 0 <= i < 16 ==> #[trigger] w[i] == n.view_proj@[i].bits,
        w[16] == renderer.accent_cur.0.bits,
        w[17] == renderer.accent_cur.1.bits,
        w[18] == renderer.accent_cur.2.bits,
        w[19] == n.level.bits,
        w[20] == n.cols.bits,
        w[21] == n.rows.bits,
        w[22] == n.head.bits,
        w[23] == n.beat.bits,
        w[24] == 0x41c0_0000,
        w[25] == n.width_front.bits,
        w[26] == n.width_back.bits,
        w[27] == 0x40a0_0000,
        w[28] == n.time.bits,
        globe ==> w[29] == 0x3f80_0000,
        !globe ==> w[29] == 0,
        w[30] == n.fade_near.bits,
        w[31] == n.fade_far.bits,
        w[32] == n.width.bits,
        w[33] == n.height.bits,
        w[34] == 0x400c_cccd,
        w[35] == 0,
{
    patterns(renderer.uniform_values(*n, globe))
}

/// The uniforms of the globe and of the terrain differ in the word of the scene
/// alone.
pub proof fn scenes_differ_in_one_word(
    renderer: &Renderer,
    n: &FrameNumbers,
    globe: Vec<u8>,
    terrain: Vec<u8>,
) -> (w: (Seq<u32>, Seq<u32>))
    requires
        call_ensures(Renderer::uniforms, (renderer, n, true), globe),
        call_ensures(Renderer::uniforms, (renderer, n, false), terrain),
    ensures
        in_memory(globe@, w.0),
        in_memory(terrain@, w.1),
        w.0.len() == 36 && w.1.len() == 36,
        forall|i: int| 0 <= i < 36 && i != 29 ==> #[trigger] w.0[i] == w.1[i],
        w.0[29] == 0x3f80_0000,
        w.1[29] == 0,
        w.0[24] == 0x41c0_0000 && w.0[27] == 0x40a0_0000,
{
    let g = patterns(renderer.uniform_values(*n, true));
    let t = patterns(renderer.uniform_values(*n, false));
    assert forall|i: int| 0 <= i < 36 && i != 29 implies #[trigger] g[i] == t[i] by {}
    (g, t)
}

/// A text that is there is prepared unless it is 0.01 opaque at most, for the size of
/// the surface; it is laid out anew exactly if it is not the one laid out last, and
/// then is. Without a text, or with one that cannot be seen, nothing happens.
pub proof fn visible_text_is_prepared(
    renderer: &mut Renderer,
    now_playing: Option<&str>,
    alpha: Single,
    r: TextPlan,
)
    requires
        call_ensures(Renderer::prepare_text, (renderer, now_playing, alpha), r),
    ensures
        now_playing is None || alpha.at_most(Single { bits: 0x3c23_d70a }) ==> r is Skip
            && *final(renderer) == *old(renderer),
        now_playing is Some && !alpha.at_most(Single { bits: 0x3c23_d70a }) ==> {
            &&& r matches TextPlan::Prepare { layout, width, height }
            &&& width == old(renderer).width
            &&& height == old(renderer).height
            &&& !layout <==> (old(renderer).text_cache is Some && old(renderer).text_cache->0@
                == now_playing->0@)
            &&& final(renderer).text_cache is Some
            &&& final(renderer).text_cache->0@ == now_playing->0@
        },
        final(renderer).head == old(renderer).head,
        final(renderer).cols == old(renderer).cols,
        final(renderer).width == old(renderer).width,
        final(renderer).height == old(renderer).height,
{
}

/// The passes of a frame, in order: the scene, its bright parts, the two blurs and
/// the picture on the surface. The last draws the text exactly if there is one and
/// it is more than 0.01 opaque; no other does.
pub proof fn visible_text_is_drawn_last(
    renderer: &Renderer,
    has_text: bool,
    alpha: Single,
    r: Vec<PassPlan>,
)
    requires
        call_ensures(Renderer::passes, (renderer, has_text, alpha), r),
    ensures
        r@.len() == 5,
        r@[4].text <==> has_text && 0x3c23_d70a < alpha.bits <= 0x7f80_0000,
        !r@[0].text && !r@[1].text && !r@[2].text && !r@[3].text,
        r@[1].view is BloomA && r@[1].group is Bright && r@[1].first.pipeline is Bright,
        r@[2].view is BloomB && r@[2].group is BlurH && r@[2].first.pipeline is Blur,
        r@[3].view is BloomA && r@[3].group is BlurV && r@[3].first.pipeline is Blur,
        r@[4].view is Surface && r@[4].group is Composite && r@[4].first.pipeline is Composite,
        forall|i: int|
            1 <= i < 5 ==> {
                &&& (#[trigger] r@[i]).resolve is None
                &&& r@[i].second is None
                &&& r@[i].first.vertices == 3
                &&& r@[i].first.instances == 1
            },
{
}

/// The first pass draws the backdrop and over it all segments of the wireframe, six
/// vertices each, and resolves several samples per pixel.
pub proof fn the_scene_is_drawn_first(
    renderer: &Renderer,
    has_text: bool,
    alpha: Single,
    r: Vec<PassPlan>,
)
    requires
        call_ensures(Renderer::passes, (renderer, has_text, alpha), r),
    ensures
        r@[0].group is Scene,
        renderer.sample_count > 1 ==> r@[0].view is SceneMsaa && r@[0].resolve == Some(
            Target::Scene,
        ),
        renderer.sample_count <= 1 ==> r@[0].view is Scene && r@[0].resolve is None,
        r@[0].first == (Draw { pipeline: Pipeline::Backdrop, vertices: 3, instances: 1 }),
        r@[0].second == Some(
            Draw { pipeline: Pipeline::Lines, vertices: 6, instances: renderer.instance_count },
        ),
{
}

/// Text that is drawn was prepared, text that is prepared with a number for its
/// opacity is drawn, and more opaque text is drawn where less opaque text is.
pub proof fn prepared_text_is_drawn(
    before: &mut Renderer,
    after: &Renderer,
    now_playing: Option<&str>,
    alpha: Single,
    more: Single,
    plan: TextPlan,
    r: Vec<PassPlan>,
    s: Vec<PassPlan>,
)
    requires
        call_ensures(Renderer::prepare_text, (before, now_playing, alpha), plan),
        call_ensures(Renderer::passes, (after, now_playing is Some, alpha), r),
        call_ensures(Renderer::passes, (after, now_playing is Some, more), s),
        alpha.at_most(more),
    ensures
        r@.last().text ==> plan is Prepare,
        plan is Prepare ==> r@.last().text,
        r@.last().text ==> s@.last().text,
{
}

/// The bytes of one word are its four bytes, from the lowest on or from the highest
/// on.
pub proof fn a_word_is_four_bytes(bytes: Seq<u8>, word: u32)
    requires
        in_memory(bytes, seq![word]),
    ensures
        bytes.len() == 4,
        word == bytes[0] + 256 * bytes[1] + 65536 * bytes[2] + 16777216 * bytes[3] || word
            == bytes[3] + 256 * bytes[2] + 65536 * bytes[1] + 16777216 * bytes[0],
{
    assert(seq![word][0] == word);
}

/// Every frame, size, orbit and text is taken in by a renderer whose wireframe can be
/// addressed, whose surface is not empty, whose head is one of its 96 rows, and whose
/// orbit lies inside the limits.
pub proof fn every_frame_is_taken_in(
    renderer: &mut Renderer,
    spectrum: &[u32],
    x: Single,
    y: Single,
    z: Single,
    width: u32,
    height: u32,
    song: Option<&str>,
)
    requires
        0 < old(renderer).cols,
        4 * (old(renderer).cols * 96) <= u32::MAX,
        old(renderer).width > 0,
        old(renderer).height > 0,
        old(renderer).head < 96,
        old(renderer).instance_count == 96 * (old(renderer).cols - 1) + 95 * old(renderer).cols,
        (Single { bits: 0xbfa6_6666 }).at_most(old(renderer).globe_pitch),
        old(renderer).globe_pitch.at_most(Single { bits: 0x3fa6_6666 }),
        (Single { bits: 0x3ecc_cccd }).at_most(old(renderer).globe_zoom),
        old(renderer).globe_zoom.at_most(Single { bits: 0x4080_0000 }),
    ensures
        call_requires(Renderer::render, (renderer, spectrum, x, (x, y, z))),
        call_requires(Renderer::resize, (renderer, width, height)),
        call_requires(Renderer::globe_rotate, (renderer, x, y)),
        call_requires(Renderer::globe_zoom, (renderer, z)),
        call_requires(Renderer::set_globe_orbit, (renderer, x, y, z)),
        call_requires(Renderer::prepare_text, (renderer, song, x)),
{
}

/// A renderer that was made takes in frames, and after a frame it takes in the next.
pub proof fn frames_can_follow_each_other(
    size: (u32, u32),
    srgb: &Vec<bool>,
    four: bool,
    two: bool,
    cols: u32,
    made: (Renderer, Vec<u8>),
    first: &mut Renderer,
    second: &mut Renderer,
    spectrum: &[u32],
    bob: Single,
    accent: (Single, Single, Single),
    r: RowWrite,
)
    requires
        0 < cols,
        4 * (cols * 96) <= u32::MAX,
        srgb@.len() > 0,
        call_ensures(Renderer::new, (size, srgb, four, two, cols), made),
        *old(first) == made.0,
        call_ensures(Renderer::render, (first, spectrum, bob, accent), r),
        *old(second) == *final(first),
    ensures
        call_requires(Renderer::new, (size, srgb, four, two, cols)),
        call_requires(Renderer::render, (first, spectrum, bob, accent)),
        call_requires(Renderer::render, (second, spectrum, bob, accent)),
{
}

} // verus!
