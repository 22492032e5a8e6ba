use ayude::gltf::Accesor;
use ayude::gltf::AccessorType;
use ayude::gltf::Asset;
use ayude::gltf::Buffer;
use ayude::gltf::BufferView;
use ayude::gltf::Document;
use ayude::gltf::Image;
use ayude::gltf::Material;
use ayude::gltf::Mesh;
use ayude::gltf::Node;
use ayude::gltf::PbrMetallicRoughness;
use ayude::gltf::Primitive;
use ayude::gltf::Scene;
use ayude::gltf::Texture;
use ayude::gltf::TextureInfo;
use ayude::import_gltf::import_default_scene;
use ayude::import_gltf::local_transform;
use ayude::transform::Transform;

fn geometry_blob() -> Vec<u8> {
    let mut bytes = Vec::new();
    let positions = [[0.0f32, 0.0, 0.0], [1.0, 0.0, 0.0], [0.0, 1.0, 0.0]];
    let normals = [[0.0f32, 0.0, 1.0]; 3];
    let uvs = [[0.0f32, 0.0], [1.0, 0.0], [0.0, 1.0]];
    for v in positions.iter().chain(normals.iter()) {
        for c in v {
            bytes.extend_from_slice(&c.to_le_bytes());
        }
    }
    for v in &uvs {
        for c in v {
            bytes.extend_from_slice(&c.to_le_bytes());
        }
    }
    for idx in [0u16, 1, 2] {
        bytes.extend_from_slice(&idx.to_le_bytes());
    }
    bytes
}

fn empty_node() -> Node {
    Node {
        camera: None,
        children: vec![],
        skin: None,
        matrix: None,
        mesh: None,
        translation: None,
        rotation: None,
        scale: None,
        weights: vec![],
        name: None,
    }
}

fn base_primitive() -> Primitive {
    Primitive {
        indices: Some(3),
        material: None,
        mode: None,
        position: Some(0),
        normal: Some(1),
        texcoord_0: Some(2),
    }
}

fn base_doc() -> Document {
    let blob = geometry_blob();
    Document {
        extensions_used: vec![],
        extensions_required: vec![],
        accessors: vec![
            Accesor {
                buffer_view: Some(0),
                byte_offset: 0,
                component_type: 5126,
                normalized: false,
                count: 3,
                _type: AccessorType::Vec3,
            },
            Accesor {
                buffer_view: Some(1),
                byte_offset: 0,
                component_type: 5126,
                normalized: false,
                count: 3,
                _type: AccessorType::Vec3,
            },
            Accesor {
                buffer_view: Some(2),
                byte_offset: 0,
                component_type: 5126,
                normalized: false,
                count: 3,
                _type: AccessorType::Vec2,
            },
            Accesor {
                buffer_view: Some(3),
                byte_offset: 0,
                component_type: 5123,
                normalized: false,
                count: 3,
                _type: AccessorType::Scalar,
            },
        ],
        animations: vec![],
        asset: Asset { generator: String::from("tests"), version: String::from("2.0") },
        buffers: vec![Buffer { byte_length: blob.len(), uri: None }],
        buffer_views: vec![
            BufferView { buffer: 0, byte_length: 36, byte_offset: 0 },
            BufferView { buffer: 0, byte_length: 36, byte_offset: 36 },
            BufferView { buffer: 0, byte_length: 24, byte_offset: 72 },
            BufferView { buffer: 0, byte_length: 6, byte_offset: 96 },
        ],
        cameras: vec![],
        images: vec![],
        materials: vec![],
        meshes: vec![Mesh { primitives: vec![base_primitive()], weights: vec![], name: None }],
        nodes: vec![],
        samplers: vec![],
        scene: Some(0),
        scenes: vec![Scene { nodes: vec![0] }],
        skins: vec![],
        textures: vec![],
    }
}

fn import(doc: &Document) -> ayude::import_gltf::ImportOutput {
    import_default_scene(doc, &Some(geometry_blob()), &vec![], &vec![]).expect("import")
}

#[test]
fn end_to_end_two_nodes() {
    let mut doc = base_doc();
    let mut root = empty_node();
    root.children = vec![1];
    let mut child = empty_node();
    child.mesh = Some(0);
    child.translation = Some([2.0f32.to_bits(), 0, 0]);
    doc.nodes = vec![root, child];

    let out = import(&doc);
    let scene = &out.scene;
    assert_eq!(scene.root_nodes, vec![0u16]);
    assert_eq!(scene.nodes.len(), 2);
    assert!(scene.nodes[0].parent.is_none());
    assert_eq!(scene.nodes[0].children, vec![1u16]);
    assert_eq!(scene.nodes[1].parent, Some(0));
    assert_eq!(scene.nodes[1].meshes.len(), 1);

    let world = scene.world_transform(1);
    let t0 = to_glam(&scene.nodes[0].transform);
    let t1 = to_glam(&scene.nodes[1].transform);
    let base = to_glam(&scene.transform);
    assert_eq!(world.mat4(), from_glam(base * t0 * t1));
    assert_eq!(world.mat4(), from_glam(t0 * t1));

    let draws = scene.draw_items();
    assert_eq!(draws.len(), 1);
    assert_eq!(draws[0].0.index(), scene.nodes[1].meshes[0].0.index());
    assert_eq!(draws[0].2.mat4(), world.mat4());
}

fn to_glam(t: &Transform) -> glam::Mat4 {
    let bits = t.mat4();
    let mut cols = [0f32; 16];
    for (i, v) in bits.iter().enumerate() {
        cols[i] = f32::from_bits(*v);
    }
    glam::Mat4::from_cols_array(&cols)
}

fn from_glam(m: glam::Mat4) -> [u32; 16] {
    let cols = m.to_cols_array();
    let mut out = [0u32; 16];
    for (i, v) in cols.iter().enumerate() {
        out[i] = v.to_bits();
    }
    out
}

#[test]
fn node_without_transform_fields_gets_identity() {
    let node = empty_node();
    assert_eq!(local_transform(&node).mat4(), Transform::identity().mat4());

    let mut doc = base_doc();
    doc.nodes = vec![empty_node()];
    let out = import(&doc);
    assert_eq!(out.scene.nodes[0].transform.mat4(), Transform::identity().mat4());
}

#[test]
fn node_transform_composes_translation_rotation_scale() {
    let mut node = empty_node();
    node.translation = Some([1.0f32.to_bits(), 2.0f32.to_bits(), 3.0f32.to_bits()]);
    node.scale = Some([2.0f32.to_bits(), 2.0f32.to_bits(), 2.0f32.to_bits()]);
    let expected = glam::Mat4::from_translation(glam::Vec3::new(1.0, 2.0, 3.0))
        * glam::Mat4::from_quat(glam::Quat::IDENTITY)
        * glam::Mat4::from_scale(glam::Vec3::new(2.0, 2.0, 2.0));
    assert_eq!(local_transform(&node).mat4(), from_glam(expected));
}

#[test]
fn shared_mesh_is_uploaded_once() {
    let mut doc = base_doc();
    let mut a = empty_node();
    a.mesh = Some(0);
    let mut b = empty_node();
    b.mesh = Some(0);
    doc.nodes = vec![a, b];
    doc.scenes = vec![Scene { nodes: vec![0, 1] }];

    let out = import(&doc);
    assert_eq!(out.meshes.len(), 1);
    let ha = out.scene.nodes[0].meshes[0].0;
    let hb = out.scene.nodes[1].meshes[0].0;
    assert_eq!(ha.index(), hb.index());
}

#[test]
fn mesh_primitive_has_equal_attribute_lengths() {
    let mut doc = base_doc();
    let mut node = empty_node();
    node.mesh = Some(0);
    doc.nodes = vec![node];
    let out = import(&doc);
    let handle = out.scene.nodes[0].meshes[0].0;
    let mesh = out.meshes.get(handle).expect("mesh");
    assert_eq!(mesh.primitives.len(), 1);
    let prim = &mesh.primitives[0];
    assert_eq!(prim.positions.len(), 3);
    assert_eq!(prim.positions.len(), prim.normals.len());
    assert_eq!(prim.positions.len(), prim.uvs.len());
    assert_eq!(prim.indices, vec![0, 1, 2]);
    assert_eq!(f32::from_bits(prim.positions[1][0]), 1.0);
    assert_eq!(f32::from_bits(prim.uvs[2][1]), 1.0);
}

#[test]
fn skin_without_matrices_defaults_to_identities() {
    let mut doc = base_doc();
    let mut root = empty_node();
    root.children = vec![1];
    let mut jointed = empty_node();
    jointed.skin = Some(0);
    doc.nodes = vec![root, jointed];
    doc.skins = vec![ayude::gltf::Skin {
        joints: vec![0, 1],
        skeleton: Some(0),
        inverse_bind_matrices: None,
    }];

    let out = import(&doc);
    let skin = out.scene.nodes[1].skin.as_ref().expect("skin");
    assert_eq!(skin.joints, vec![0u16, 1u16]);
    assert_eq!(skin.skeleton, Some(0));
    assert_eq!(skin.joints.len(), skin.inverse_bind_matrices.len());
    for m in &skin.inverse_bind_matrices {
        assert_eq!(m.mat4(), Transform::identity().mat4());
    }
}

fn png_bytes() -> Vec<u8> {
    let img = image::RgbaImage::from_raw(2, 2, vec![
        255, 0, 0, 255, 0, 255, 0, 255, 0, 0, 255, 255, 9, 9, 9, 255,
    ])
    .expect("image");
    let mut out = std::io::Cursor::new(Vec::new());
    image::DynamicImage::ImageRgba8(img)
        .write_to(&mut out, image::ImageOutputFormat::Png)
        .expect("encode");
    out.into_inner()
}

#[test]
fn data_uri_texture_decodes_and_is_shared() {
    let mut doc = base_doc();
    let uri = format!("data:image/png;base64,{}", base64::encode(png_bytes()));
    doc.images = vec![Image { uri: Some(uri), mime_type: None, buffer_view: None }];
    doc.textures = vec![Texture { sampler: None, source: 0 }];
    doc.materials = vec![Material {
        alpha_mode: None,
        double_sided: None,
        pbr_metallic_roughness: PbrMetallicRoughness {
            base_color_factor: [1.0f32.to_bits(); 4],
            base_color_texture: Some(TextureInfo { index: 0, scale: None }),
        },
        normal_texture: Some(TextureInfo { index: 0, scale: None }),
    }];
    doc.meshes[0].primitives[0].material = Some(0);
    let mut node = empty_node();
    node.mesh = Some(0);
    node.name = Some(String::from("drawn"));
    doc.nodes = vec![node];

    let out = import(&doc);
    assert_eq!(out.textures.len(), 1, "normal and diffuse share one texture upload");
    let mat_handle = out.scene.nodes[0].meshes[0].1;
    let mat = out.materials.get(mat_handle).expect("material");
    let tex_handle = mat.diffuse.expect("diffuse");
    assert_eq!(tex_handle, mat.normal.expect("normal"));
    let tex = out.textures.get(tex_handle).expect("texture");
    assert_eq!((tex.width, tex.height), (2, 2));
    assert_eq!(tex.pixels.len(), 16);
    assert_eq!(&tex.pixels[0..4], &[255, 0, 0, 255]);
    assert_eq!(out.scene.nodes[0].name.as_deref(), Some("drawn"));
}

#[test]
fn primitive_without_material_gets_default_white() {
    let mut doc = base_doc();
    let mut node = empty_node();
    node.mesh = Some(0);
    doc.nodes = vec![node];
    let out = import(&doc);
    let mat = out.materials.get(out.scene.nodes[0].meshes[0].1).expect("material");
    assert!(mat.diffuse.is_none());
    assert!(mat.normal.is_none());
    assert!(mat.shaded);
    assert_eq!(mat.base_diffuse_color, [1.0f32.to_bits(); 4]);
}

#[test]
fn external_buffer_file_is_used() {
    let mut doc = base_doc();
    doc.buffers[0].uri = Some(String::from("geometry.bin"));
    let mut node = empty_node();
    node.mesh = Some(0);
    doc.nodes = vec![node];
    let out = import_default_scene(&doc, &None, &vec![Some(geometry_blob())], &vec![])
        .expect("import");
    assert_eq!(out.meshes.len(), 1);
}

#[test]
fn parent_chain_is_consistent_for_deep_hierarchies() {
    let mut doc = base_doc();
    let depth = 20usize;
    let mut nodes = Vec::new();
    for i in 0..depth {
        let mut node = empty_node();
        if i + 1 < depth {
            node.children = vec![i + 1];
        }
        nodes.push(node);
    }
    doc.nodes = nodes;
    let out = import(&doc);
    for i in 1..depth {
        assert_eq!(out.scene.nodes[i].parent, Some((i - 1) as u16));
        assert_eq!(out.scene.nodes[i - 1].children, vec![i as u16]);
    }
    let world = out.scene.world_transform((depth - 1) as u16);
    assert_eq!(world.mat4(), Transform::identity().mat4());
}
