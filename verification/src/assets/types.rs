//! Asset type definitions that hold no floating-point data.
use vstd::prelude::*;

verus! {

/// Which attributes a vertex buffer holds; selects the shader permutation.
#[derive(Debug, Clone, Copy, PartialEq, Eq, Structural)]
pub struct VertexLayout {
    pub has_normals: bool,
    pub has_tangents: bool,
    pub has_uv0: bool,
    pub has_uv1: bool,
    pub has_vertex_color: bool,
}

impl VertexLayout {
    /// Every attribute present.
    pub fn full() -> (l: Self)
        ensures
            l.has_normals && l.has_tangents && l.has_uv0 && l.has_uv1 && l.has_vertex_color,
    {
        VertexLayout { has_normals: true, has_tangents: true, has_uv0: true, has_uv1: true, has_vertex_color: true }
    }

    /// Positions only.
    pub fn position_only() -> (l: Self)
        ensures
            !l.has_normals && !l.has_tangents && !l.has_uv0 && !l.has_uv1 && !l.has_vertex_color,
    {
        VertexLayout { has_normals: false, has_tangents: false, has_uv0: false, has_uv1: false, has_vertex_color: false }
    }
}

/// Compression format of texture data.
#[derive(Debug, Clone, Copy, PartialEq, Eq, Structural)]
pub enum TextureFormat {
    /// Raw RGBA8, used during development.
    Rgba8,
    /// BC7 block compression for desktop GPUs.
    Bc7,
    /// ASTC 4x4 for mobile and Apple GPUs.
    Astc4x4,
    /// BC5 two-channel (RG), for normal maps.
    Bc5,
}

/// One texture asset: the mip chain packed from largest to smallest.
#[derive(Debug, Clone)]
pub struct Texture {
    pub width: u32,
    pub height: u32,
    pub mip_count: u8,
    pub format: TextureFormat,
    /// Compressed texture data, all mips.
    pub data: Vec<u8>,
    /// Byte offset of each mip level within `data`.
    pub mip_offsets: Vec<u32>,
}

impl Texture {
    /// Bytes held in memory: the texture data.
    pub fn memory_bytes(&self) -> (n: usize)
        ensures
            n == self.data@.len(),
    {
        self.data.len()
    }
}

} // verus!
