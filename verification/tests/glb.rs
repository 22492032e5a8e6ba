use ayude::import_gltf::parse_glb;
use ayude::import_gltf::ImportGltfError;

fn container(json: &[u8], bin: Option<&[u8]>) -> Vec<u8> {
    let mut out = Vec::new();
    let mut json_chunk = json.to_vec();
    while json_chunk.len() % 4 != 0 {
        json_chunk.push(b' ');
    }
    let mut total = 12 + 8 + json_chunk.len();
    if let Some(b) = bin {
        total += 8 + b.len();
    }
    out.extend_from_slice(&0x46546C67u32.to_le_bytes());
    out.extend_from_slice(&2u32.to_le_bytes());
    out.extend_from_slice(&(total as u32).to_le_bytes());
    out.extend_from_slice(&(json_chunk.len() as u32).to_le_bytes());
    out.extend_from_slice(&0x4E4F534Au32.to_le_bytes());
    out.extend_from_slice(&json_chunk);
    if let Some(b) = bin {
        out.extend_from_slice(&(b.len() as u32).to_le_bytes());
        out.extend_from_slice(&0x004E4942u32.to_le_bytes());
        out.extend_from_slice(b);
    }
    out
}

#[test]
fn splits_json_and_binary_chunks() {
    let bytes = container(b"{\"asset\":{}}", Some(&[1, 2, 3, 4, 5]));
    let (json, bin) = parse_glb(&bytes).expect("parse");
    assert_eq!(&json[0..12], b"{\"asset\":{}}");
    assert_eq!(bin.as_deref(), Some(&[1u8, 2, 3, 4, 5][..]));
}

#[test]
fn json_only_container_has_no_blob() {
    let bytes = container(b"{}", None);
    let (json, bin) = parse_glb(&bytes).expect("parse");
    assert_eq!(&json[0..2], b"{}");
    assert!(bin.is_none());
}

#[test]
fn json_chunk_padding_is_preserved_in_offsets() {
    // 13-byte JSON forces 3 bytes of padding before the binary chunk.
    let bytes = container(b"{\"scenes\":[]}", Some(&[9, 9]));
    let (json, bin) = parse_glb(&bytes).expect("parse");
    assert_eq!(&json[0..13], b"{\"scenes\":[]}");
    assert_eq!(bin.as_deref(), Some(&[9u8, 9][..]));
}

#[test]
fn truncated_or_foreign_bytes_are_rejected() {
    assert!(matches!(parse_glb(&[1, 2, 3]), Err(ImportGltfError::GltfError(_))));
    assert!(matches!(parse_glb(&[0u8; 32]), Err(ImportGltfError::GltfError(_))));

    let mut wrong_version = container(b"{}", None);
    wrong_version[4] = 1;
    assert!(matches!(parse_glb(&wrong_version), Err(ImportGltfError::GltfError(_))));
}

#[test]
fn overrunning_chunks_are_rejected() {
    let mut bytes = container(b"{}", Some(&[1, 2, 3]));
    // Declare a binary chunk longer than the remaining data.
    let bin_len_offset = 12 + 8 + 4;
    bytes[bin_len_offset] = 200;
    assert!(matches!(parse_glb(&bytes), Err(ImportGltfError::GltfError(_))));

    let mut short_json = container(b"{}", None);
    let json_len_offset = 12;
    short_json[json_len_offset] = 100;
    assert!(matches!(parse_glb(&short_json), Err(ImportGltfError::GltfError(_))));
}
