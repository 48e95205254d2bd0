//! The frame model both GPU command decoders fill: framebuffers, draw calls
//! (fixed-function TEV stages or a translated shader) and mid-frame raster
//! events.
use vstd::prelude::*;

verus! {

pub struct GenericFrame {
    pub framebuffers: Vec<FramebufferDesc>,
    pub draw_calls: Vec<DrawCall>,
    pub raster_events: Vec<RasterEvent>,
}

pub struct FramebufferDesc {
    pub width: u32,
    pub height: u32,
    pub format: PixelFormat,
}

#[derive(Clone, Copy, Debug, PartialEq, Eq, Structural)]
pub enum PixelFormat {
    Rgba8,
    Rgb565,
    Indexed8,
}

pub struct DrawCall {
    pub vertex_source: VertexSource,
    pub pipeline_state: PipelineState,
}

pub enum VertexSource {
    FixedFunctionTev { stages: Vec<TevStage> },
    Shader { translated_module: ShaderModuleHandle },
}

pub struct TevStage {}

pub struct ShaderModuleHandle(pub u64);

pub struct PipelineState {
    pub blend_mode: BlendMode,
    pub depth_test: bool,
}

#[derive(Clone, Copy, Debug, PartialEq, Eq, Structural)]
pub enum BlendMode {
    Opaque,
    AlphaBlend,
    Additive,
}

pub struct RasterEvent {
    pub scanline: u32,
    pub state_diff: Vec<StateDiff>,
}

pub enum StateDiff {
    PaletteSwap { index: u32, rgba: [u8; 4] },
    ScrollRegister { reg: u32, value: u32 },
}

} // verus!
