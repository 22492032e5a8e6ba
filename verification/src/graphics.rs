//! Renderer-side resource descriptions produced by the importer.
//!
//! Everything here is plain data: decoded pixels, vertex attributes as
//! IEEE-754 bit patterns, and sampler settings as closed enums mapped
//! explicitly to the graphics API's numeric constants. The device upload
//! itself is a collaborator outside this crate.

use vstd::prelude::*;

use crate::catalog::Id;

verus! {

/// Pixel layout of a decoded image.
#[derive(Debug, Clone, Copy, PartialEq, Eq, Structural)]
pub enum TextureFormat {
    RGB,
    RGBA,
}

impl TextureFormat {
    /// Bytes one pixel occupies in this format.
    pub open spec fn spec_bytes_per_pixel(self) -> int {
        match self {
            TextureFormat::RGB => 3,
            TextureFormat::RGBA => 4,
        }
    }

    pub fn bytes_per_pixel(self) -> (r: u32)
        ensures
            r == self.spec_bytes_per_pixel(),
    {
        match self {
            TextureFormat::RGB => 3,
            TextureFormat::RGBA => 4,
        }
    }
}

/// Texture coordinate wrapping mode, one variant per glTF sampler mode.
#[derive(Debug, Clone, Copy, PartialEq, Eq, Structural)]
pub enum TextureWrap {
    ClampToEdge,
    MirroredRepeat,
    Repeat,
}

impl TextureWrap {
    pub open spec fn spec_into_gl(self) -> u32 {
        match self {
            TextureWrap::ClampToEdge => 33071,
            TextureWrap::MirroredRepeat => 33648,
            TextureWrap::Repeat => 10497,
        }
    }

    /// The matching OpenGL wrap-mode constant.
    pub fn into_gl(self) -> (r: u32)
        ensures
            r == self.spec_into_gl(),
    {
        match self {
            TextureWrap::ClampToEdge => 33071,
            TextureWrap::MirroredRepeat => 33648,
            TextureWrap::Repeat => 10497,
        }
    }

    /// The wrap mode a glTF sampler field selects; an absent or unrecognized
    /// value falls back to clamp-to-edge.
    pub open spec fn spec_from_gltf(v: Option<u32>) -> TextureWrap {
        match v {
            Some(33648u32) => TextureWrap::MirroredRepeat,
            Some(10497u32) => TextureWrap::Repeat,
            _ => TextureWrap::ClampToEdge,
        }
    }

    pub fn from_gltf(v: Option<u32>) -> (r: TextureWrap)
        ensures
            r == TextureWrap::spec_from_gltf(v),
    {
        match v {
            Some(33648u32) => TextureWrap::MirroredRepeat,
            Some(10497u32) => TextureWrap::Repeat,
            _ => TextureWrap::ClampToEdge,
        }
    }
}

/// Minification filter, one variant per glTF sampler mode.
#[derive(Debug, Clone, Copy, PartialEq, Eq, Structural)]
pub enum MinFilter {
    Nearest,
    Linear,
    NearestMipmapNearest,
    LinearMipmapNearest,
    NearestMipmapLinear,
    LinearMipmapLinear,
}

impl MinFilter {
    pub open spec fn spec_into_gl(self) -> u32 {
        match self {
            MinFilter::Nearest => 9728,
            MinFilter::Linear => 9729,
            MinFilter::NearestMipmapNearest => 9984,
            MinFilter::LinearMipmapNearest => 9985,
            MinFilter::NearestMipmapLinear => 9986,
            MinFilter::LinearMipmapLinear => 9987,
        }
    }

    /// The matching OpenGL filter constant.
    pub fn into_gl(self) -> (r: u32)
        ensures
            r == self.spec_into_gl(),
    {
        match self {
            MinFilter::Nearest => 9728,
            MinFilter::Linear => 9729,
            MinFilter::NearestMipmapNearest => 9984,
            MinFilter::LinearMipmapNearest => 9985,
            MinFilter::NearestMipmapLinear => 9986,
            MinFilter::LinearMipmapLinear => 9987,
        }
    }

    /// The filter a glTF sampler field selects; an absent or unrecognized
    /// value falls back to linear.
    pub open spec fn spec_from_gltf(v: Option<u32>) -> MinFilter {
        match v {
            Some(9728u32) => MinFilter::Nearest,
            Some(9984u32) => MinFilter::NearestMipmapNearest,
            Some(9985u32) => MinFilter::LinearMipmapNearest,
            Some(9986u32) => MinFilter::NearestMipmapLinear,
            Some(9987u32) => MinFilter::LinearMipmapLinear,
            _ => MinFilter::Linear,
        }
    }

    pub fn from_gltf(v: Option<u32>) -> (r: MinFilter)
        ensures
            r == MinFilter::spec_from_gltf(v),
    {
        match v {
            Some(9728u32) => MinFilter::Nearest,
            Some(9984u32) => MinFilter::NearestMipmapNearest,
            Some(9985u32) => MinFilter::LinearMipmapNearest,
            Some(9986u32) => MinFilter::NearestMipmapLinear,
            Some(9987u32) => MinFilter::LinearMipmapLinear,
            _ => MinFilter::Linear,
        }
    }
}

/// Magnification filter, one variant per glTF sampler mode.
#[derive(Debug, Clone, Copy, PartialEq, Eq, Structural)]
pub enum MagFilter {
    Nearest,
    Linear,
}

impl MagFilter {
    pub open spec fn spec_into_gl(self) -> u32 {
        match self {
            MagFilter::Nearest => 9728,
            MagFilter::Linear => 9729,
        }
    }

    /// The matching OpenGL filter constant.
    pub fn into_gl(self) -> (r: u32)
        ensures
            r == self.spec_into_gl(),
    {
        match self {
            MagFilter::Nearest => 9728,
            MagFilter::Linear => 9729,
        }
    }

    /// The filter a glTF sampler field selects; an absent or unrecognized
    /// value falls back to linear.
    pub open spec fn spec_from_gltf(v: Option<u32>) -> MagFilter {
        match v {
            Some(9728u32) => MagFilter::Nearest,
            _ => MagFilter::Linear,
        }
    }

    pub fn from_gltf(v: Option<u32>) -> (r: MagFilter)
        ensures
            r == MagFilter::spec_from_gltf(v),
    {
        match v {
            Some(9728u32) => MagFilter::Nearest,
            _ => MagFilter::Linear,
        }
    }
}

/// A decoded image together with the sampler settings it is to be uploaded
/// with. Multiple materials may reference the same texture through its
/// catalog handle.
#[derive(Debug, Clone)]
pub struct Texture {
    pub pixels: Vec<u8>,
    pub width: u32,
    pub height: u32,
    pub format: TextureFormat,
    pub wrap_s: TextureWrap,
    pub wrap_t: TextureWrap,
    pub min_filter: MinFilter,
    pub mag_filter: MagFilter,
}

impl Texture {
    /// The pixel buffer holds exactly one full image in its format.
    pub open spec fn wf(&self) -> bool {
        self.pixels@.len() == self.format.spec_bytes_per_pixel() * self.width * self.height
    }
}

/// Builds a [`Texture`], defaulting to clamp-to-edge wrapping and linear
/// filtering when no sampler settings are given.
#[derive(Debug, Clone)]
pub struct TextureBuilder {
    pub data: Vec<u8>,
    pub width: u32,
    pub height: u32,
    pub format: TextureFormat,
    pub wrap_s: TextureWrap,
    pub wrap_t: TextureWrap,
    pub min_filter: MinFilter,
    pub mag_filter: MagFilter,
}

impl TextureBuilder {
    pub fn new(data: Vec<u8>, width: u32, height: u32, format: TextureFormat) -> (r: Self)
        requires
            data@.len() == format.spec_bytes_per_pixel() * width * height,
        ensures
            r == (TextureBuilder {
                data,
                width,
                height,
                format,
                wrap_s: TextureWrap::ClampToEdge,
                wrap_t: TextureWrap::ClampToEdge,
                min_filter: MinFilter::Linear,
                mag_filter: MagFilter::Linear,
            }),
    {
        TextureBuilder {
            data,
            width,
            height,
            format,
            wrap_s: TextureWrap::ClampToEdge,
            wrap_t: TextureWrap::ClampToEdge,
            min_filter: MinFilter::Linear,
            mag_filter: MagFilter::Linear,
        }
    }

    pub fn wrap_s(self, wrap: TextureWrap) -> (r: Self)
        ensures
            r == (TextureBuilder { wrap_s: wrap, ..self }),
    {
        TextureBuilder { wrap_s: wrap, ..self }
    }

    pub fn wrap_t(self, wrap: TextureWrap) -> (r: Self)
        ensures
            r == (TextureBuilder { wrap_t: wrap, ..self }),
    {
        TextureBuilder { wrap_t: wrap, ..self }
    }

    pub fn min_filter(self, filter: MinFilter) -> (r: Self)
        ensures
            r == (TextureBuilder { min_filter: filter, ..self }),
    {
        TextureBuilder { min_filter: filter, ..self }
    }

    pub fn mag_filter(self, filter: MagFilter) -> (r: Self)
        ensures
            r == (TextureBuilder { mag_filter: filter, ..self }),
    {
        TextureBuilder { mag_filter: filter, ..self }
    }

    /// The assembled texture; well-formed by the builder's construction
    /// contract.
    pub fn build(self) -> (r: Texture)
        requires
            self.data@.len() == self.format.spec_bytes_per_pixel() * self.width * self.height,
        ensures
            r == (Texture {
                pixels: self.data,
                width: self.width,
                height: self.height,
                format: self.format,
                wrap_s: self.wrap_s,
                wrap_t: self.wrap_t,
                min_filter: self.min_filter,
                mag_filter: self.mag_filter,
            }),
            r.wf(),
    {
        Texture {
            pixels: self.data,
            width: self.width,
            height: self.height,
            format: self.format,
            wrap_s: self.wrap_s,
            wrap_t: self.wrap_t,
            min_filter: self.min_filter,
            mag_filter: self.mag_filter,
        }
    }
}

/// A shading description: optional diffuse and normal textures and a base
/// color factor carried verbatim as component bit patterns.
#[derive(Debug, Clone)]
pub struct Material {
    pub normal: Option<Id<Texture>>,
    pub diffuse: Option<Id<Texture>>,
    pub base_diffuse_color: [u32; 4],
    pub shaded: bool,
}

/// One drawable batch of a mesh: vertex attributes, a 16-bit index buffer and
/// the material it is drawn with.
#[derive(Debug, Clone)]
pub struct MeshPrimitive {
    pub positions: Vec<[u32; 3]>,
    pub normals: Vec<[u32; 3]>,
    pub uvs: Vec<[u32; 2]>,
    pub indices: Vec<u16>,
    pub material: Id<Material>,
}

impl MeshPrimitive {
    /// Positions, normals and texture coordinates cover the same vertices.
    pub open spec fn wf(&self) -> bool {
        self.positions@.len() == self.normals@.len() && self.positions@.len() == self.uvs@.len()
    }
}

/// A renderable unit: the primitives of one imported glTF mesh.
#[derive(Debug, Clone)]
pub struct Mesh {
    pub primitives: Vec<MeshPrimitive>,
}

impl Mesh {
    pub open spec fn wf(&self) -> bool {
        forall|k: int| 0 <= k < self.primitives@.len() ==> (#[trigger] self.primitives@[k]).wf()
    }
}

} // verus!
