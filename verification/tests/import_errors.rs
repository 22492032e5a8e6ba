use ayude::gltf::Accesor;
use ayude::gltf::AccessorType;
use ayude::gltf::Asset;
use ayude::gltf::Buffer;
use ayude::gltf::BufferView;
use ayude::gltf::Document;
use ayude::gltf::Image;
use ayude::gltf::Mesh;
use ayude::gltf::Node;
use ayude::gltf::Primitive;
use ayude::gltf::Scene;
use ayude::gltf::Texture;
use ayude::import_gltf::import_default_scene;
use ayude::import_gltf::ImportGltfError;

fn geometry_blob() -> Vec<u8> {
    let mut bytes = Vec::new();
    let positions = [[0.0f32, 0.0, 0.0], [1.0, 0.0, 0.0], [0.0, 1.0, 0.0]];
    let normals = [[0.0f32, 0.0, 1.0]; 3];
    let uvs = [[0.0f32, 0.0], [1.0, 0.0], [0.0, 1.0]];
    for v in positions.iter().chain(normals.iter()) {
        for c in v {
            bytes.extend_from_slice(&c.to_le_bytes());
        }
    }
    for v in &uvs {
        for c in v {
            bytes.extend_from_slice(&c.to_le_bytes());
        }
    }
    for idx in [0u16, 1, 2] {
        bytes.extend_from_slice(&idx.to_le_bytes());
    }
    bytes
}

fn empty_node() -> Node {
    Node {
        camera: None,
        children: vec![],
        skin: None,
        matrix: None,
        mesh: None,
        translation: None,
        rotation: None,
        scale: None,
        weights: vec![],
        name: None,
    }
}

fn base_doc() -> Document {
    let blob = geometry_blob();
    let mut drawn = empty_node();
    drawn.mesh = Some(0);
    Document {
        extensions_used: vec![],
        extensions_required: vec![],
        accessors: vec![
            Accesor {
                buffer_view: Some(0),
                byte_offset: 0,
                component_type: 5126,
                normalized: false,
                count: 3,
                _type: AccessorType::Vec3,
            },
            Accesor {
                buffer_view: Some(1),
                byte_offset: 0,
                component_type: 5126,
                normalized: false,
                count: 3,
                _type: AccessorType::Vec3,
            },
            Accesor {
                buffer_view: Some(2),
                byte_offset: 0,
                component_type: 5126,
                normalized: false,
                count: 3,
                _type: AccessorType::Vec2,
            },
            Accesor {
                buffer_view: Some(3),
                byte_offset: 0,
                component_type: 5123,
                normalized: false,
                count: 3,
                _type: AccessorType::Scalar,
            },
        ],
        animations: vec![],
        asset: Asset { generator: String::from("tests"), version: String::from("2.0") },
        buffers: vec![Buffer { byte_length: blob.len(), uri: None }],
        buffer_views: vec![
            BufferView { buffer: 0, byte_length: 36, byte_offset: 0 },
            BufferView { buffer: 0, byte_length: 36, byte_offset: 36 },
            BufferView { buffer: 0, byte_length: 24, byte_offset: 72 },
            BufferView { buffer: 0, byte_length: 6, byte_offset: 96 },
        ],
        cameras: vec![],
        images: vec![],
        materials: vec![],
        meshes: vec![Mesh {
            primitives: vec![Primitive {
                indices: Some(3),
                material: None,
                mode: None,
                position: Some(0),
                normal: Some(1),
                texcoord_0: Some(2),
            }],
            weights: vec![],
            name: None,
        }],
        nodes: vec![drawn],
        samplers: vec![],
        scene: Some(0),
        scenes: vec![Scene { nodes: vec![0] }],
        skins: vec![],
        textures: vec![],
    }
}

fn import_err(doc: &Document) -> ImportGltfError {
    import_default_scene(doc, &Some(geometry_blob()), &vec![], &vec![])
        .err()
        .expect("import should fail")
}

#[test]
fn missing_normal_attribute_reports_required_property() {
    let mut doc = base_doc();
    doc.meshes[0].primitives[0].normal = None;
    let e = import_err(&doc);
    assert!(matches!(e, ImportGltfError::RequiredMeshPropertyMissing("normals", 0, 0)), "{:?}", e);
}

#[test]
fn missing_positions_uvs_indices_report_required_property() {
    let mut doc = base_doc();
    doc.meshes[0].primitives[0].position = None;
    assert!(matches!(
        import_err(&doc),
        ImportGltfError::RequiredMeshPropertyMissing("positions", 0, 0)
    ));

    let mut doc = base_doc();
    doc.meshes[0].primitives[0].texcoord_0 = None;
    assert!(matches!(
        import_err(&doc),
        ImportGltfError::RequiredMeshPropertyMissing("uvs", 0, 0)
    ));

    let mut doc = base_doc();
    doc.meshes[0].primitives[0].indices = None;
    assert!(matches!(
        import_err(&doc),
        ImportGltfError::RequiredMeshPropertyMissing("indices", 0, 0)
    ));
}

#[test]
fn bmp_mime_type_is_rejected_not_decoded() {
    let mut doc = base_doc();
    doc.images = vec![Image {
        uri: Some(String::from("data:image/bmp;base64,AAAA")),
        mime_type: None,
        buffer_view: None,
    }];
    let e = import_err(&doc);
    match e {
        ImportGltfError::UnknownImageFormat(mime, index) => {
            assert_eq!(mime, b"image/bmp".to_vec());
            assert_eq!(index, 0);
        },
        other => panic!("unexpected error {:?}", other),
    }
}

#[test]
fn node_index_beyond_sixteen_bits_is_out_of_range() {
    let mut doc = base_doc();
    doc.scenes = vec![Scene { nodes: vec![70000] }];
    assert!(matches!(import_err(&doc), ImportGltfError::NodeIndexOutOfRange(70000)));
}

#[test]
fn dangling_root_is_unknown_node() {
    let mut doc = base_doc();
    doc.scenes = vec![Scene { nodes: vec![5] }];
    assert!(matches!(import_err(&doc), ImportGltfError::UnknownNodeIndex(5)));
}

#[test]
fn doubly_referenced_node_is_rejected() {
    let mut doc = base_doc();
    doc.scenes = vec![Scene { nodes: vec![0, 0] }];
    assert!(matches!(import_err(&doc), ImportGltfError::DuplicateNodeReference(0)));
}

#[test]
fn missing_binary_chunk_is_reported() {
    let doc = base_doc();
    let e = import_default_scene(&doc, &None, &vec![], &vec![]).err().expect("fail");
    assert!(matches!(e, ImportGltfError::BinSectionNotFound));
}

#[test]
fn missing_external_buffer_file_is_io_error() {
    let mut doc = base_doc();
    doc.buffers[0].uri = Some(String::from("missing.bin"));
    let e = import_default_scene(&doc, &None, &vec![], &vec![]).err().expect("fail");
    match e {
        ImportGltfError::IOError(uri) => assert_eq!(uri, "missing.bin"),
        other => panic!("unexpected error {:?}", other),
    }
}

#[test]
fn invalid_base64_payload_is_reported() {
    let mut doc = base_doc();
    doc.buffers[0].uri = Some(String::from("data:application/octet-stream;base64,!!notb64!!"));
    let e = import_default_scene(&doc, &None, &vec![], &vec![]).err().expect("fail");
    assert!(matches!(e, ImportGltfError::Base64Error));
}

#[test]
fn undecodable_png_bytes_fail_image_loading() {
    let mut doc = base_doc();
    doc.images = vec![Image {
        uri: Some(format!("data:image/png;base64,{}", base64::encode([1u8, 2, 3, 4]))),
        mime_type: None,
        buffer_view: None,
    }];
    assert!(matches!(import_err(&doc), ImportGltfError::ImageLoadingFailed(0)));
}

#[test]
fn image_without_source_is_reported() {
    let mut doc = base_doc();
    doc.images = vec![Image { uri: None, mime_type: None, buffer_view: None }];
    assert!(matches!(import_err(&doc), ImportGltfError::ImageSourceMissing(0)));
}

#[test]
fn view_range_outside_buffer_is_reported() {
    let mut doc = base_doc();
    doc.buffer_views[3] = BufferView { buffer: 0, byte_length: 500, byte_offset: 96 };
    assert!(matches!(import_err(&doc), ImportGltfError::BufferRangeOutOfBounds(0, 96, 500)));
}

#[test]
fn dangling_buffer_reference_is_reported() {
    let mut doc = base_doc();
    doc.buffer_views[0].buffer = 9;
    assert!(matches!(import_err(&doc), ImportGltfError::UnknownBufferIndex(9)));
}

#[test]
fn dangling_cross_references_are_reported() {
    let mut doc = base_doc();
    doc.nodes[0].mesh = Some(7);
    assert!(matches!(import_err(&doc), ImportGltfError::UnknownMeshIndex(7)));

    let mut doc = base_doc();
    doc.meshes[0].primitives[0].material = Some(9);
    assert!(matches!(import_err(&doc), ImportGltfError::UnknownMaterialIndex(9)));

    let mut doc = base_doc();
    doc.nodes[0].skin = Some(3);
    assert!(matches!(import_err(&doc), ImportGltfError::UnknownSkinIndex(3)));

    let mut doc = base_doc();
    doc.meshes[0].primitives[0].position = Some(99);
    assert!(matches!(import_err(&doc), ImportGltfError::UnknownAccessorIndex(99)));

    let mut doc = base_doc();
    doc.accessors[0].buffer_view = Some(42);
    assert!(matches!(import_err(&doc), ImportGltfError::UnknownBufferViewIndex(42)));

}

fn png_data_uri() -> String {
    let img = image::RgbaImage::from_raw(1, 1, vec![1, 2, 3, 255]).expect("image");
    let mut out = std::io::Cursor::new(Vec::new());
    image::DynamicImage::ImageRgba8(img)
        .write_to(&mut out, image::ImageOutputFormat::Png)
        .expect("encode");
    format!("data:image/png;base64,{}", base64::encode(out.into_inner()))
}

fn doc_with_material_texture(texture: Texture) -> Document {
    let mut doc = base_doc();
    doc.images = vec![Image { uri: Some(png_data_uri()), mime_type: None, buffer_view: None }];
    doc.textures = vec![texture];
    doc.materials = vec![ayude::gltf::Material {
        alpha_mode: None,
        double_sided: None,
        pbr_metallic_roughness: ayude::gltf::PbrMetallicRoughness {
            base_color_factor: [1.0f32.to_bits(); 4],
            base_color_texture: Some(ayude::gltf::TextureInfo { index: 0, scale: None }),
        },
        normal_texture: None,
    }];
    doc.meshes[0].primitives[0].material = Some(0);
    doc
}

#[test]
fn dangling_image_reference_is_reported() {
    let doc = doc_with_material_texture(Texture { sampler: None, source: 9 });
    assert!(matches!(import_err(&doc), ImportGltfError::UnknownImageIndex(9)));
}

#[test]
fn dangling_sampler_reference_is_reported() {
    let doc = doc_with_material_texture(Texture { sampler: Some(4), source: 0 });
    assert!(matches!(import_err(&doc), ImportGltfError::UnknownSamplerIndex(4)));
}

#[test]
fn dangling_texture_reference_is_reported() {
    let mut doc = doc_with_material_texture(Texture { sampler: None, source: 0 });
    doc.materials[0].pbr_metallic_roughness.base_color_texture =
        Some(ayude::gltf::TextureInfo { index: 8, scale: None });
    assert!(matches!(import_err(&doc), ImportGltfError::UnknownTextureIndex(8)));
}

#[test]
fn wrongly_typed_accessor_is_unsupported() {
    let mut doc = base_doc();
    doc.accessors[0].component_type = 5123;
    assert!(matches!(import_err(&doc), ImportGltfError::UnsupportedAccessorFormat(0)));
}

#[test]
fn attribute_count_mismatch_is_reported() {
    let mut doc = base_doc();
    doc.accessors[1].count = 2;
    assert!(matches!(import_err(&doc), ImportGltfError::AttributeCountMismatch(0, 0)));
}

#[test]
fn joint_index_beyond_sixteen_bits_is_out_of_range() {
    let mut doc = base_doc();
    doc.skins = vec![ayude::gltf::Skin {
        joints: vec![70001],
        skeleton: None,
        inverse_bind_matrices: None,
    }];
    doc.nodes[0].skin = Some(0);
    assert!(matches!(import_err(&doc), ImportGltfError::NodeIndexOutOfRange(70001)));
}
