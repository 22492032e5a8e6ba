//! A passive, decoded representation of the glTF JSON schema.
//!
//! The surrounding application parses the JSON text and hands over this plain
//! model; floating-point fields travel as IEEE-754 bit patterns, and the
//! small closed string sets of the schema (accessor types) arrive as tagged
//! variants. Geometry stays in the separate binary buffers until the importer
//! decodes it.

use vstd::prelude::*;

verus! {

/// Shape of an accessor's elements, from the schema's closed `type` set.
/// `Other` stands for any string outside the set.
#[derive(Debug, Clone, Copy, PartialEq, Eq, Structural)]
pub enum AccessorType {
    Scalar,
    Vec2,
    Vec3,
    Vec4,
    Mat2,
    Mat3,
    Mat4,
    Other,
}

/// A typed window into a buffer view.
#[derive(Debug, Clone)]
pub struct Accesor {
    pub buffer_view: Option<usize>,
    pub byte_offset: usize,
    /// Numeric component code of the schema: 5121 unsigned byte, 5123
    /// unsigned short, 5125 unsigned int, 5126 float, among others.
    pub component_type: usize,
    pub normalized: bool,
    pub count: usize,
    pub _type: AccessorType,
}

/// A contiguous byte range of one buffer.
#[derive(Debug, Clone)]
pub struct BufferView {
    pub buffer: usize,
    pub byte_length: usize,
    pub byte_offset: usize,
}

/// A binary payload: either an external or embedded URI, or, when `uri` is
/// absent, the binary chunk of a container file.
#[derive(Debug, Clone)]
pub struct Buffer {
    pub byte_length: usize,
    pub uri: Option<String>,
}

/// An image to decode: a URI, or a buffer view holding the encoded bytes.
#[derive(Debug, Clone)]
pub struct Image {
    pub uri: Option<String>,
    pub mime_type: Option<String>,
    pub buffer_view: Option<usize>,
}

/// Texture sampling parameters, as the schema's numeric constants.
#[derive(Debug, Clone)]
pub struct Sampler {
    pub wrap_s: Option<u32>,
    pub wrap_t: Option<u32>,
    pub min_filter: Option<u32>,
    pub mag_filter: Option<u32>,
}

/// A sampled source image.
#[derive(Debug, Clone)]
pub struct Texture {
    pub sampler: Option<usize>,
    pub source: usize,
}

/// Reference from a material to a texture.
#[derive(Debug, Clone)]
pub struct TextureInfo {
    pub index: usize,
    pub scale: Option<u32>,
}

#[derive(Debug, Clone)]
pub struct PbrMetallicRoughness {
    /// RGBA factor, as component bit patterns.
    pub base_color_factor: [u32; 4],
    pub base_color_texture: Option<TextureInfo>,
}

#[derive(Debug, Clone)]
pub struct Material {
    pub alpha_mode: Option<String>,
    pub double_sided: Option<bool>,
    pub pbr_metallic_roughness: PbrMetallicRoughness,
    pub normal_texture: Option<TextureInfo>,
}

/// One drawable batch of a mesh. The attribute fields hold accessor indices;
/// an absent required attribute makes the import fail.
#[derive(Debug, Clone)]
pub struct Primitive {
    pub indices: Option<usize>,
    pub material: Option<usize>,
    pub mode: Option<usize>,
    pub position: Option<usize>,
    pub normal: Option<usize>,
    pub texcoord_0: Option<usize>,
}

#[derive(Debug, Clone)]
pub struct Mesh {
    pub primitives: Vec<Primitive>,
    pub weights: Vec<i64>,
    pub name: Option<String>,
}

/// One entry of the document's node hierarchy. Transform fields carry bit
/// patterns; all of them are optional and default to the identity.
#[derive(Debug, Clone)]
pub struct Node {
    pub camera: Option<usize>,
    pub children: Vec<usize>,
    pub skin: Option<usize>,
    pub matrix: Option<[u32; 16]>,
    pub mesh: Option<usize>,
    pub translation: Option<[u32; 3]>,
    pub rotation: Option<[u32; 4]>,
    pub scale: Option<[u32; 3]>,
    pub weights: Vec<usize>,
    pub name: Option<String>,
}

/// Skeletal binding data: joint node indices, an optional skeleton root and
/// an optional accessor of inverse-bind matrices.
#[derive(Debug, Clone)]
pub struct Skin {
    pub joints: Vec<usize>,
    pub skeleton: Option<usize>,
    pub inverse_bind_matrices: Option<usize>,
}

#[derive(Debug, Clone)]
pub struct Scene {
    pub nodes: Vec<usize>,
}

#[derive(Debug, Clone)]
pub struct Asset {
    pub generator: String,
    pub version: String,
}

#[derive(Debug, Clone)]
pub struct Camera {
}

#[derive(Debug, Clone)]
pub struct Animation {
}

/// The whole decoded document.
#[derive(Debug, Clone)]
pub struct Document {
    pub extensions_used: Vec<String>,
    pub extensions_required: Vec<String>,
    pub accessors: Vec<Accesor>,
    pub animations: Vec<Animation>,
    pub asset: Asset,
    pub buffers: Vec<Buffer>,
    pub buffer_views: Vec<BufferView>,
    pub cameras: Vec<Camera>,
    pub images: Vec<Image>,
    pub materials: Vec<Material>,
    pub meshes: Vec<Mesh>,
    pub nodes: Vec<Node>,
    pub samplers: Vec<Sampler>,
    pub scene: Option<usize>,
    pub scenes: Vec<Scene>,
    pub skins: Vec<Skin>,
    pub textures: Vec<Texture>,
}

impl Document {
    /// The scene the document declares as its default, when the index is
    /// valid.
    pub open spec fn spec_default_scene(&self) -> Option<Scene> {
        match self.scene {
            Some(s) => if s < self.scenes@.len() {
                Some(self.scenes@[s as int])
            } else {
                None
            },
            None => None,
        }
    }

    pub fn default_scene(&self) -> (r: Option<&Scene>)
        ensures
            match r {
                Some(s) => self.spec_default_scene() == Some(*s),
                None => self.spec_default_scene() is None,
            },
    {
        match self.scene {
            Some(s) => if s < self.scenes.len() {
                Some(&self.scenes[s])
            } else {
                None
            },
            None => None,
        }
    }
}

} // verus!
