//! Imports a decoded glTF document into a scene and resource catalogs.
//!
//! The caller supplies the document, the container's binary chunk (if any)
//! and the bytes of any externally referenced files; everything else —
//! buffer resolution, vertex and matrix decoding, image decoding, resource
//! deduplication and the scene-graph build — happens here. Any failure
//! aborts the whole import with a typed error.

use vstd::prelude::*;
use vstd::string::StringExecFns;

use crate::catalog::Catalog;
use crate::catalog::Id;
use crate::gltf::AccessorType;
use crate::gltf::Document;
use crate::graphics::MagFilter;
use crate::graphics::Material;
use crate::graphics::Mesh;
use crate::graphics::MinFilter;
use crate::graphics::Texture;
use crate::graphics::TextureBuilder;
use crate::graphics::TextureFormat;
use crate::graphics::TextureWrap;

verus! {

/// Why an import failed. Every importer-internal step reports its failure
/// through this type; nothing is retried or silently substituted.
#[derive(Debug, Clone, PartialEq, Eq)]
pub enum ImportGltfError {
    /// An externally referenced file was needed but not supplied; carries
    /// the URI.
    IOError(String),
    /// A `data:` URI payload was not valid base64, or had no payload.
    Base64Error,
    /// The document text itself could not be decoded.
    GltfError(String),
    /// Image bytes failed to decode as their declared format; carries the
    /// image index.
    ImageLoadingFailed(usize),
    /// A MIME type other than PNG or JPEG; carries the type's bytes and the
    /// image index.
    UnknownImageFormat(Vec<u8>, usize),
    /// An image entry with neither a URI nor a buffer view.
    ImageSourceMissing(usize),
    /// A buffer declared itself as the embedded binary chunk but none was
    /// supplied.
    BinSectionNotFound,
    /// A required vertex attribute is absent: attribute name, mesh index,
    /// primitive index.
    RequiredMeshPropertyMissing(&'static str, usize, usize),
    UnknownBufferIndex(usize),
    /// A byte range `[offset, offset + length)` does not fit its buffer:
    /// buffer index, offset, length.
    BufferRangeOutOfBounds(usize, usize, usize),
    UnknownImageIndex(usize),
    UnknownMaterialIndex(usize),
    UnknownNodeIndex(usize),
    UnknownMeshIndex(usize),
    UnknownTextureIndex(usize),
    UnknownSkinIndex(usize),
    UnknownSamplerIndex(usize),
    UnknownAccessorIndex(usize),
    UnknownBufferViewIndex(usize),
    /// An accessor whose component type or element type is not the one the
    /// attribute requires; carries the accessor index.
    UnsupportedAccessorFormat(usize),
    /// Positions, normals and texture coordinates of a primitive disagree in
    /// length: mesh index, primitive index.
    AttributeCountMismatch(usize, usize),
    /// A node is referenced as a root or child more than once, so the
    /// hierarchy is not a forest; carries the node index.
    DuplicateNodeReference(usize),
    /// A referenced node index exceeds the 16-bit budget of the dense node
    /// array.
    NodeIndexOutOfRange(usize),
}

/// Structural equality of errors, with `String` payloads compared by
/// contents.
pub open spec fn same_error(a: ImportGltfError, b: ImportGltfError) -> bool {
    match (a, b) {
        (ImportGltfError::IOError(x), ImportGltfError::IOError(y)) => x@ == y@,
        (ImportGltfError::GltfError(x), ImportGltfError::GltfError(y)) => x@ == y@,
        (ImportGltfError::UnknownImageFormat(x, i), ImportGltfError::UnknownImageFormat(y, j)) => x@
            == y@ && i == j,
        _ => a == b,
    }
}

/// What `base64::decode` yields on the given input: the decoded bytes, or
/// nothing when the input is not valid base64.
pub uninterp spec fn base64_decoded_of(s: Seq<u8>) -> Option<Seq<u8>>;

/// Relies on `base64::decode` (standard alphabet): the outcome is a function
/// of the input bytes alone.
#[verifier::external_body]
fn base64_decode(input: &[u8]) -> (r: Option<Vec<u8>>)
    ensures
        match r {
            Some(v) => base64_decoded_of(input@) == Some(v@),
            None => base64_decoded_of(input@) is None,
        },
{
    base64::decode(input).ok()
}

/// What decoding the given bytes as PNG (or JPEG, when `png` is false) and
/// converting to RGBA yields: pixel bytes, width and height, or nothing when
/// the bytes do not decode.
pub uninterp spec fn decoded_rgba_of(bytes: Seq<u8>, png: bool) -> Option<(Seq<u8>, u32, u32)>;

/// Relies on `image::load_from_memory_with_format` and
/// `DynamicImage::into_rgba8`: the outcome is a function of the encoded
/// bytes and the declared format alone, and an RGBA image buffer holds
/// exactly `4 * width * height` bytes.
#[verifier::external_body]
fn decode_image_rgba(bytes: &[u8], png: bool) -> (r: Option<(Vec<u8>, u32, u32)>)
    ensures
        match r {
            Some(t) => {
                &&& decoded_rgba_of(bytes@, png) == Some((t.0@, t.1, t.2))
                &&& t.0@.len() == 4 * t.1 * t.2
            },
            None => decoded_rgba_of(bytes@, png) is None,
        },
{
    let format = if png {
        image::ImageFormat::Png
    } else {
        image::ImageFormat::Jpeg
    };
    match image::load_from_memory_with_format(bytes, format) {
        Ok(decoded) => {
            let rgba = decoded.into_rgba8();
            let width = rgba.width();
            let height = rgba.height();
            Some((rgba.into_raw(), width, height))
        },
        Err(_) => None,
    }
}

/// The unsigned 32-bit value stored little-endian at `off`.
pub open spec fn u32_le_at(b: Seq<u8>, off: int) -> u32 {
    (b[off] + b[off + 1] * 0x100 + b[off + 2] * 0x1_0000 + b[off + 3] * 0x100_0000) as u32
}

/// The unsigned 16-bit value stored little-endian at `off`.
pub open spec fn u16_le_at(b: Seq<u8>, off: int) -> u16 {
    (b[off] + b[off + 1] * 0x100) as u16
}

fn read_u32_le(b: &[u8], off: usize) -> (r: u32)
    requires
        off + 4 <= b@.len(),
    ensures
        r == u32_le_at(b@, off as int),
{
    let b0 = b[off] as u32;
    let b1 = b[off + 1] as u32;
    let b2 = b[off + 2] as u32;
    let b3 = b[off + 3] as u32;
    b0 + b1 * 0x100 + b2 * 0x1_0000 + b3 * 0x100_0000
}

fn read_u16_le(b: &[u8], off: usize) -> (r: u16)
    requires
        off + 2 <= b@.len(),
    ensures
        r == u16_le_at(b@, off as int),
{
    let b0 = b[off] as u16;
    let b1 = b[off + 1] as u16;
    b0 + b1 * 0x100
}

/// The first position at or after `from` holding `target`.
pub open spec fn spec_find_byte(s: Seq<u8>, from: int, target: u8) -> Option<int>
    decreases s.len() - from,
{
    if from < 0 || from >= s.len() {
        None
    } else if s[from] == target {
        Some(from)
    } else {
        spec_find_byte(s, from + 1, target)
    }
}

/// The bytes of the scheme prefix `data:`.
pub open spec fn data_uri_prefix() -> Seq<u8> {
    seq![100u8, 97u8, 116u8, 97u8, 58u8]
}

/// Whether the URI bytes start with `data:`.
pub open spec fn is_data_uri(s: Seq<u8>) -> bool {
    s.len() >= 5 && s.subrange(0, 5) == data_uri_prefix()
}

fn check_data_uri(s: &[u8]) -> (r: bool)
    ensures
        r == is_data_uri(s@),
{
    if s.len() >= 5 {
        let r = s[0] == 100 && s[1] == 97 && s[2] == 116 && s[3] == 97 && s[4] == 58;
        proof {
            assert(s@.subrange(0, 5) =~= data_uri_prefix() <==> (s@[0] == 100 && s@[1] == 97
                && s@[2] == 116 && s@[3] == 97 && s@[4] == 58));
        }
        r
    } else {
        false
    }
}

/// The base64 payload of a `data:` URI: everything after the first comma.
pub open spec fn spec_data_uri_payload(s: Seq<u8>) -> Option<Seq<u8>> {
    match spec_find_byte(s, 0, 44u8) {
        Some(c) => Some(s.subrange(c + 1, s.len() as int)),
        None => None,
    }
}

/// The MIME type of a `data:` URI: the bytes between the scheme and the
/// first `;` or `,`, whichever comes first (to the end when neither occurs).
pub open spec fn spec_data_uri_mime(s: Seq<u8>) -> Seq<u8> {
    let semi = match spec_find_byte(s, 5, 59u8) {
        Some(i) => i,
        None => s.len() as int,
    };
    let comma = match spec_find_byte(s, 5, 44u8) {
        Some(i) => i,
        None => s.len() as int,
    };
    let end = if semi <= comma {
        semi
    } else {
        comma
    };
    s.subrange(5, end)
}

/// Decodes the payload of a `data:` URI; fails when there is no payload or
/// it is not valid base64.
fn decode_data_uri_payload(s: &[u8]) -> (r: Result<Vec<u8>, ImportGltfError>)
    ensures
        match r {
            Ok(v) => {
                &&& spec_data_uri_payload(s@) is Some
                &&& base64_decoded_of(spec_data_uri_payload(s@).unwrap()) == Some(v@)
            },
            Err(e) => {
                &&& e == ImportGltfError::Base64Error
                &&& match spec_data_uri_payload(s@) {
                    Some(p) => base64_decoded_of(p) is None,
                    None => true,
                }
            },
        },
{
    let n = s.len();
    match find_byte(s, 0, 44) {
        Some(c) => {
            let payload = vstd::slice::slice_subrange(s, c + 1, n);
            match base64_decode(payload) {
                Some(v) => Ok(v),
                None => Err(ImportGltfError::Base64Error),
            }
        },
        None => Err(ImportGltfError::Base64Error),
    }
}

/// The MIME bytes of a `data:` URI, as [`spec_data_uri_mime`].
fn data_uri_mime(s: &[u8]) -> (r: Vec<u8>)
    requires
        s@.len() >= 5,
    ensures
        r@ == spec_data_uri_mime(s@),
{
    let semi = match find_byte(s, 5, 59) {
        Some(i) => i,
        None => s.len(),
    };
    let comma = match find_byte(s, 5, 44) {
        Some(i) => i,
        None => s.len(),
    };
    let end = if semi <= comma {
        semi
    } else {
        comma
    };
    vstd::slice::slice_to_vec(vstd::slice::slice_subrange(s, 5, end))
}

fn find_byte(s: &[u8], from: usize, target: u8) -> (r: Option<usize>)
    ensures
        match r {
            Some(i) => from <= i < s@.len() && spec_find_byte(s@, from as int, target) == Some(
                i as int,
            ),
            None => spec_find_byte(s@, from as int, target) is None,
        },
{
    let n = s.len();
    let mut i = from;
    while i < n
        invariant
            n == s@.len(),
            from <= i,
            spec_find_byte(s@, from as int, target) == spec_find_byte(s@, i as int, target),
        decreases n - i,
    {
        if s[i] == target {
            return Some(i);
        }
        i = i + 1;
    }
    None
}

/// The UTF-8 bytes of a string value.
pub open spec fn string_bytes(s: String) -> Seq<u8> {
    vstd::utf8::encode_utf8(s@)
}

/// The supplied file bytes for slot `i`, when any.
pub open spec fn spec_file_at(files: Seq<Option<Seq<u8>>>, i: int) -> Option<Seq<u8>> {
    if 0 <= i < files.len() {
        files[i]
    } else {
        None
    }
}

/// What resolving one buffer yields: the embedded binary chunk when the
/// buffer has no URI, the decoded payload of a `data:` URI, or the supplied
/// bytes of the external file.
pub open spec fn spec_resolve_buffer(
    buf: crate::gltf::Buffer,
    blob: Option<Seq<u8>>,
    file: Option<Seq<u8>>,
) -> Result<Seq<u8>, ImportGltfError> {
    match buf.uri {
        None => match blob {
            Some(b) => Ok(b),
            None => Err(ImportGltfError::BinSectionNotFound),
        },
        Some(u) => if is_data_uri(string_bytes(u)) {
            match spec_data_uri_payload(string_bytes(u)) {
                Some(p) => match base64_decoded_of(p) {
                    Some(d) => Ok(d),
                    None => Err(ImportGltfError::Base64Error),
                },
                None => Err(ImportGltfError::Base64Error),
            }
        } else {
            match file {
                Some(bytes) => Ok(bytes),
                None => Err(ImportGltfError::IOError(u)),
            }
        },
    }
}

/// Resolves the buffers in document order, handing the binary chunk to the
/// first buffer that asks for it. `Ok` holds the resolved payloads and the
/// chunk if it is still unclaimed; an error is the first buffer's failure.
pub open spec fn spec_load_buffers(
    bufs: Seq<crate::gltf::Buffer>,
    files: Seq<Option<Seq<u8>>>,
    blob: Option<Seq<u8>>,
    i: int,
) -> Result<(Seq<Seq<u8>>, Option<Seq<u8>>), ImportGltfError>
    decreases bufs.len() - i,
{
    if i < 0 || i >= bufs.len() {
        Ok((Seq::empty(), blob))
    } else {
        let blob_after = if bufs[i].uri is None {
            None
        } else {
            blob
        };
        match spec_resolve_buffer(bufs[i], blob, spec_file_at(files, i)) {
            Err(e) => Err(e),
            Ok(b) => match spec_load_buffers(bufs, files, blob_after, i + 1) {
                Err(e) => Err(e),
                Ok((rest, bl)) => Ok((seq![b] + rest, bl)),
            },
        }
    }
}

fn resolve_buffer(
    buf: &crate::gltf::Buffer,
    blob: Option<&Vec<u8>>,
    file: Option<&Vec<u8>>,
) -> (r: Result<Vec<u8>, ImportGltfError>)
    ensures
        match spec_resolve_buffer(*buf, option_ref_view(blob), option_ref_view(file)) {
            Ok(b) => r matches Ok(v) && v@ == b,
            Err(e0) => r matches Err(e) && same_error(e, e0),
        },
{
    match &buf.uri {
        None => match blob {
            Some(b) => Ok(b.clone()),
            None => Err(ImportGltfError::BinSectionNotFound),
        },
        Some(u) => {
            let ub = u.as_str().as_bytes();
            if check_data_uri(ub) {
                decode_data_uri_payload(ub)
            } else {
                match file {
                    Some(bytes) => Ok(bytes.clone()),
                    None => Err(ImportGltfError::IOError(u.clone())),
                }
            }
        },
    }
}

/// The element views of an optional byte vector.
pub open spec fn option_view(o: Option<Vec<u8>>) -> Option<Seq<u8>> {
    match o {
        Some(v) => Some(v@),
        None => None,
    }
}

/// The element views of an optional borrowed byte vector.
pub open spec fn option_ref_view(o: Option<&Vec<u8>>) -> Option<Seq<u8>> {
    match o {
        Some(v) => Some(v@),
        None => None,
    }
}

/// Resolves every buffer of the document, in order. The embedded binary
/// chunk goes to the first buffer that asks for it.
fn load_buffers(doc: &Document, blob: &Option<Vec<u8>>, files: &Vec<Option<Vec<u8>>>) -> (r:
    Result<Vec<Vec<u8>>, ImportGltfError>)
    ensures
        match spec_load_buffers(doc.buffers@, files.deep_view(), option_view(*blob), 0) {
            Ok(p) => r matches Ok(v) && v.deep_view() == p.0,
            Err(e0) => r matches Err(e) && same_error(e, e0),
        },
{
    let ghost bufs = doc.buffers@;
    let ghost fls = files.deep_view();
    let ghost blob0 = option_view(*blob);
    let mut blob_used = false;
    let mut out: Vec<Vec<u8>> = Vec::new();
    let n = doc.buffers.len();
    let mut i: usize = 0;
    while i < n
        invariant
            n == bufs.len(),
            bufs == doc.buffers@,
            fls == files.deep_view(),
            blob0 == option_view(*blob),
            0 <= i <= n,
            out@.len() == i,
            match spec_load_buffers(bufs, fls, if blob_used {
                None
            } else {
                blob0
            }, i as int) {
                Ok(p) => spec_load_buffers(bufs, fls, blob0, 0) == Ok::<
                    (Seq<Seq<u8>>, Option<Seq<u8>>),
                    ImportGltfError,
                >((out.deep_view() + p.0, p.1)),
                Err(e) => spec_load_buffers(bufs, fls, blob0, 0) == Err::<
                    (Seq<Seq<u8>>, Option<Seq<u8>>),
                    ImportGltfError,
                >(e),
            },
        decreases n - i,
    {
        let ghost blob_before: Option<Seq<u8>> = if blob_used {
            None
        } else {
            blob0
        };
        let ghost i0 = i as int;
        let avail = if blob_used {
            None
        } else {
            blob.as_ref()
        };
        let file = file_at(files, i);
        let resolved = resolve_buffer(&doc.buffers[i], avail, file);
        if doc.buffers[i].uri.is_none() {
            blob_used = true;
        }
        match resolved {
            Ok(b) => {
                let ghost old_deep = out.deep_view();
                let ghost bv = b@;
                out.push(b);
                proof {
                    assert(out.deep_view() =~~= old_deep + seq![bv]);
                    let blob_after: Option<Seq<u8>> = if blob_used {
                        None
                    } else {
                        blob0
                    };
                    match spec_load_buffers(bufs, fls, blob_after, i0 + 1) {
                        Ok(p) => {
                            assert(spec_load_buffers(bufs, fls, blob_before, i0) == Ok::<
                                (Seq<Seq<u8>>, Option<Seq<u8>>),
                                ImportGltfError,
                            >((seq![bv] + p.0, p.1)));
                            assert(old_deep + (seq![bv] + p.0) =~~= (old_deep + seq![bv]) + p.0);
                        },
                        Err(e) => {
                            assert(spec_load_buffers(bufs, fls, blob_before, i0) == Err::<
                                (Seq<Seq<u8>>, Option<Seq<u8>>),
                                ImportGltfError,
                            >(e));
                        },
                    }
                }
                i = i + 1;
            },
            Err(e) => {
                proof {
                    match spec_resolve_buffer(bufs[i0], blob_before, spec_file_at(fls, i0)) {
                        Err(se) => {
                            assert(same_error(e, se));
                            assert(spec_load_buffers(bufs, fls, blob_before, i0) == Err::<
                                (Seq<Seq<u8>>, Option<Seq<u8>>),
                                ImportGltfError,
                            >(se));
                            assert(spec_load_buffers(bufs, fls, blob0, 0) == Err::<
                                (Seq<Seq<u8>>, Option<Seq<u8>>),
                                ImportGltfError,
                            >(se));
                        },
                        Ok(_) => {
                            assert(false);
                        },
                    }
                }
                return Err(e);
            },
        }
    }
    Ok(out)
}

/// Whether `s` ends with `suffix`.
pub open spec fn spec_ends_with(s: Seq<u8>, suffix: Seq<u8>) -> bool {
    s.len() >= suffix.len() && s.subrange(s.len() - suffix.len(), s.len() as int) == suffix
}

fn ends_with(s: &[u8], suffix: &[u8]) -> (r: bool)
    ensures
        r == spec_ends_with(s@, suffix@),
{
    let n = s.len();
    let m = suffix.len();
    if n < m {
        proof {
            assert(!spec_ends_with(s@, suffix@));
        }
        return false;
    }
    let tail = vstd::slice::slice_subrange(s, n - m, n);
    let r = bytes_eq(tail, suffix);
    proof {
        assert(tail@ == s@.subrange(s@.len() - suffix@.len(), s@.len() as int));
    }
    r
}

fn bytes_eq(a: &[u8], b: &[u8]) -> (r: bool)
    ensures
        r == (a@ == b@),
{
    let n = a.len();
    if n != b.len() {
        proof {
            assert(a@.len() != b@.len());
        }
        return false;
    }
    let mut i: usize = 0;
    while i < n
        invariant
            n == a@.len(),
            n == b@.len(),
            0 <= i <= n,
            forall|j: int| 0 <= j < i ==> a@[j] == b@[j],
        decreases n - i,
    {
        if a[i] != b[i] {
            proof {
                assert(a@[i as int] != b@[i as int]);
            }
            return false;
        }
        i = i + 1;
    }
    proof {
        assert(a@ =~= b@);
    }
    true
}

/// The bytes of `image/png`.
pub open spec fn mime_png() -> Seq<u8> {
    seq![105u8, 109u8, 97u8, 103u8, 101u8, 47u8, 112u8, 110u8, 103u8]
}

/// The bytes of `image/jpeg`.
pub open spec fn mime_jpeg() -> Seq<u8> {
    seq![105u8, 109u8, 97u8, 103u8, 101u8, 47u8, 106u8, 112u8, 101u8, 103u8]
}

/// The bytes of `application/octet-stream`, the fallback for files whose
/// extension names no supported image format.
pub open spec fn mime_octet_stream() -> Seq<u8> {
    seq![
        97u8, 112u8, 112u8, 108u8, 105u8, 99u8, 97u8, 116u8, 105u8, 111u8, 110u8, 47u8,
        111u8, 99u8, 116u8, 101u8, 116u8, 45u8, 115u8, 116u8, 114u8, 101u8, 97u8, 109u8,
    ]
}

fn mime_png_bytes() -> (r: Vec<u8>)
    ensures
        r@ == mime_png(),
{
    let v = vec![105u8, 109u8, 97u8, 103u8, 101u8, 47u8, 112u8, 110u8, 103u8];
    proof {
        assert(v@ =~= mime_png());
    }
    v
}

fn mime_jpeg_bytes() -> (r: Vec<u8>)
    ensures
        r@ == mime_jpeg(),
{
    let v = vec![105u8, 109u8, 97u8, 103u8, 101u8, 47u8, 106u8, 112u8, 101u8, 103u8];
    proof {
        assert(v@ =~= mime_jpeg());
    }
    v
}

fn mime_octet_stream_bytes() -> (r: Vec<u8>)
    ensures
        r@ == mime_octet_stream(),
{
    let v = vec![
        97u8, 112u8, 112u8, 108u8, 105u8, 99u8, 97u8, 116u8, 105u8, 111u8, 110u8, 47u8,
        111u8, 99u8, 116u8, 101u8, 116u8, 45u8, 115u8, 116u8, 114u8, 101u8, 97u8, 109u8,
    ];
    proof {
        assert(v@ =~= mime_octet_stream());
    }
    v
}

/// The MIME type a file URI's extension suggests: `.png` and `.jpg`/`.jpeg`
/// name the two supported formats, anything else the opaque fallback.
pub open spec fn spec_ext_mime(uri: Seq<u8>) -> Seq<u8> {
    if spec_ends_with(uri, seq![46u8, 112u8, 110u8, 103u8]) {
        mime_png()
    } else if spec_ends_with(uri, seq![46u8, 106u8, 112u8, 103u8]) || spec_ends_with(
        uri,
        seq![46u8, 106u8, 112u8, 101u8, 103u8],
    ) {
        mime_jpeg()
    } else {
        mime_octet_stream()
    }
}

fn ext_mime(uri: &[u8]) -> (r: Vec<u8>)
    ensures
        r@ == spec_ext_mime(uri@),
{
    let png_ext: [u8; 4] = [46, 112, 110, 103];
    let jpg_ext: [u8; 4] = [46, 106, 112, 103];
    let jpeg_ext: [u8; 5] = [46, 106, 112, 101, 103];
    proof {
        assert(png_ext@ =~= seq![46u8, 112u8, 110u8, 103u8]);
        assert(jpg_ext@ =~= seq![46u8, 106u8, 112u8, 103u8]);
        assert(jpeg_ext@ =~= seq![46u8, 106u8, 112u8, 101u8, 103u8]);
    }
    if ends_with(uri, png_ext.as_slice()) {
        mime_png_bytes()
    } else if ends_with(uri, jpg_ext.as_slice()) || ends_with(uri, jpeg_ext.as_slice()) {
        mime_jpeg_bytes()
    } else {
        mime_octet_stream_bytes()
    }
}

/// Where image `i`'s encoded bytes come from, and the MIME type that source
/// suggests: a `data:` URI carries both, an external file pairs the supplied
/// bytes with the extension's type, and a buffer view slices an already
/// resolved buffer (its type comes from the `mime_type` field alone, so the
/// suggestion is empty).
pub open spec fn spec_image_source(
    doc: Document,
    buffers: Seq<Seq<u8>>,
    files: Seq<Option<Seq<u8>>>,
    i: int,
) -> Result<(Seq<u8>, Seq<u8>), ImportGltfError> {
    let img = doc.images@[i];
    match img.uri {
        Some(u) => {
            let ub = string_bytes(u);
            if is_data_uri(ub) {
                match spec_data_uri_payload(ub) {
                    Some(p) => match base64_decoded_of(p) {
                        Some(d) => Ok((d, spec_data_uri_mime(ub))),
                        None => Err(ImportGltfError::Base64Error),
                    },
                    None => Err(ImportGltfError::Base64Error),
                }
            } else {
                match spec_file_at(files, i) {
                    Some(bytes) => Ok((bytes, spec_ext_mime(ub))),
                    None => Err(ImportGltfError::IOError(u)),
                }
            }
        },
        None => match img.buffer_view {
            Some(v) => if v >= doc.buffer_views@.len() {
                Err(ImportGltfError::UnknownBufferViewIndex(v))
            } else {
                let view = doc.buffer_views@[v as int];
                if view.buffer >= buffers.len() {
                    Err(ImportGltfError::UnknownBufferIndex(view.buffer))
                } else if view.byte_offset + view.byte_length > buffers[view.buffer as int].len() {
                    Err(ImportGltfError::BufferRangeOutOfBounds(
                        view.buffer,
                        view.byte_offset,
                        view.byte_length,
                    ))
                } else {
                    Ok((
                        buffers[view.buffer as int].subrange(
                            view.byte_offset as int,
                            view.byte_offset + view.byte_length,
                        ),
                        Seq::empty(),
                    ))
                }
            },
            None => Err(ImportGltfError::ImageSourceMissing(i as usize)),
        },
    }
}

/// The MIME type that decides image `i`'s decoder: the document's
/// `mime_type` field when present, else the source's suggestion.
pub open spec fn spec_image_mime(doc: Document, i: int, parsed: Seq<u8>) -> Seq<u8> {
    match doc.images@[i].mime_type {
        Some(m) => string_bytes(m),
        None => parsed,
    }
}

/// The decoded RGBA pixels of image `i`, when its source resolves, its MIME
/// type is supported and its bytes decode.
pub open spec fn spec_image_ok(
    doc: Document,
    buffers: Seq<Seq<u8>>,
    files: Seq<Option<Seq<u8>>>,
    i: int,
) -> Option<(Seq<u8>, u32, u32)> {
    match spec_image_source(doc, buffers, files, i) {
        Err(_) => None,
        Ok((bytes, parsed)) => {
            let mime = spec_image_mime(doc, i, parsed);
            if mime == mime_png() {
                decoded_rgba_of(bytes, true)
            } else if mime == mime_jpeg() {
                decoded_rgba_of(bytes, false)
            } else {
                None
            }
        },
    }
}

/// Whether `e` is exactly the error importing image `i` produces.
pub open spec fn spec_image_err_matches(
    doc: Document,
    buffers: Seq<Seq<u8>>,
    files: Seq<Option<Seq<u8>>>,
    i: int,
    e: ImportGltfError,
) -> bool {
    match spec_image_source(doc, buffers, files, i) {
        Err(e0) => same_error(e, e0),
        Ok((bytes, parsed)) => {
            let mime = spec_image_mime(doc, i, parsed);
            if mime == mime_png() {
                decoded_rgba_of(bytes, true) is None && e == ImportGltfError::ImageLoadingFailed(
                    i as usize,
                )
            } else if mime == mime_jpeg() {
                decoded_rgba_of(bytes, false) is None && e == ImportGltfError::ImageLoadingFailed(
                    i as usize,
                )
            } else {
                e matches ImportGltfError::UnknownImageFormat(m, j) && m@ == mime && j == i
            }
        },
    }
}

/// Resolves and decodes one image.
fn import_image(
    doc: &Document,
    buffers: &Vec<Vec<u8>>,
    files: &Vec<Option<Vec<u8>>>,
    i: usize,
) -> (r: Result<(Vec<u8>, u32, u32), ImportGltfError>)
    requires
        i < doc.images@.len(),
    ensures
        match r {
            Ok(t) => spec_image_ok(*doc, buffers.deep_view(), files.deep_view(), i as int)
                == Some((t.0@, t.1, t.2)) && t.0@.len() == 4 * t.1 * t.2,
            Err(e) => {
                &&& spec_image_ok(*doc, buffers.deep_view(), files.deep_view(), i as int) is None
                &&& spec_image_err_matches(*doc, buffers.deep_view(), files.deep_view(),
                i as int, e)
            },
        },
{
    let ghost bufs = buffers.deep_view();
    let ghost fls = files.deep_view();
    let img = &doc.images[i];
    let source: Result<(Vec<u8>, Vec<u8>), ImportGltfError> = match &img.uri {
        Some(u) => {
            let ub = u.as_str().as_bytes();
            if check_data_uri(ub) {
                match decode_data_uri_payload(ub) {
                    Ok(d) => Ok((d, data_uri_mime(ub))),
                    Err(e) => Err(e),
                }
            } else {
                match file_at(files, i) {
                    Some(bytes) => Ok((bytes.clone(), ext_mime(ub))),
                    None => Err(ImportGltfError::IOError(u.clone())),
                }
            }
        },
        None => match img.buffer_view {
            Some(v) => if v >= doc.buffer_views.len() {
                Err(ImportGltfError::UnknownBufferViewIndex(v))
            } else {
                let view = &doc.buffer_views[v];
                if view.buffer >= buffers.len() {
                    Err(ImportGltfError::UnknownBufferIndex(view.buffer))
                } else {
                    let buf = &buffers[view.buffer];
                    if view.byte_offset > buf.len() || view.byte_length > buf.len()
                        - view.byte_offset {
                        Err(ImportGltfError::BufferRangeOutOfBounds(
                            view.buffer,
                            view.byte_offset,
                            view.byte_length,
                        ))
                    } else {
                        let data = vstd::slice::slice_to_vec(vstd::slice::slice_subrange(
                            buf.as_slice(),
                            view.byte_offset,
                            view.byte_offset + view.byte_length,
                        ));
                        proof {
                            assert(data@ == bufs[view.buffer as int].subrange(
                                view.byte_offset as int,
                                view.byte_offset + view.byte_length,
                            ));
                        }
                        Ok((data, Vec::new()))
                    }
                }
            },
            None => Err(ImportGltfError::ImageSourceMissing(i)),
        },
    };
    match source {
        Err(e) => Err(e),
        Ok((bytes, parsed)) => {
            let mime: Vec<u8> = match &img.mime_type {
                Some(m) => m.as_str().as_bytes_vec(),
                None => parsed,
            };
            let png = mime_png_bytes();
            let jpeg = mime_jpeg_bytes();
            if bytes_eq(mime.as_slice(), png.as_slice()) {
                match decode_image_rgba(bytes.as_slice(), true) {
                    Some(t) => Ok(t),
                    None => Err(ImportGltfError::ImageLoadingFailed(i)),
                }
            } else if bytes_eq(mime.as_slice(), jpeg.as_slice()) {
                match decode_image_rgba(bytes.as_slice(), false) {
                    Some(t) => Ok(t),
                    None => Err(ImportGltfError::ImageLoadingFailed(i)),
                }
            } else {
                Err(ImportGltfError::UnknownImageFormat(mime, i))
            }
        },
    }
}

proof fn lemma_count_fits_iff_div(count: int, elem: int, avail: int)
    requires
        elem >= 1,
        avail >= 0,
        count >= 0,
    ensures
        (count * elem <= avail) <==> (count <= avail / elem),
{
    vstd::arithmetic::div_mod::lemma_fundamental_div_mod(avail, elem);
    let q = avail / elem;
    let m = avail % elem;
    assert(avail == elem * q + m);
    if count <= q {
        assert(count * elem <= q * elem) by (nonlinear_arith)
            requires
                count <= q,
                elem >= 1,
        ;
        assert(q * elem == elem * q) by (nonlinear_arith);
    }
    if count > q {
        assert(count * elem >= (q + 1) * elem) by (nonlinear_arith)
            requires
                count >= q + 1,
                elem >= 1,
        ;
        assert((q + 1) * elem == elem * q + elem) by (nonlinear_arith);
    }
}

proof fn lemma_elem_slot_in_range(e: int, count: int, elem: int)
    requires
        0 <= e < count,
        elem >= 1,
    ensures
        e * elem + elem <= count * elem,
        e * elem >= 0,
{
    assert(e * elem + elem <= count * elem && e * elem >= 0) by (nonlinear_arith)
        requires
            0 <= e < count,
            elem >= 1,
    ;
}

/// Validates that accessor `a`'s data window — `count` elements of
/// `elem` bytes starting `byte_offset` into its buffer view — lies inside
/// the view and the view inside its buffer. `None` means valid.
pub open spec fn spec_accessor_region_check(
    doc: Document,
    buffers: Seq<Seq<u8>>,
    a: int,
    elem: int,
) -> Option<ImportGltfError> {
    let acc = doc.accessors@[a];
    let v = acc.buffer_view.unwrap();
    if v >= doc.buffer_views@.len() {
        Some(ImportGltfError::UnknownBufferViewIndex(v))
    } else {
        let view = doc.buffer_views@[v as int];
        if view.buffer >= buffers.len() {
            Some(ImportGltfError::UnknownBufferIndex(view.buffer))
        } else if view.byte_offset + view.byte_length > buffers[view.buffer as int].len() {
            Some(ImportGltfError::BufferRangeOutOfBounds(
                view.buffer,
                view.byte_offset,
                view.byte_length,
            ))
        } else if acc.byte_offset + acc.count * elem > view.byte_length {
            Some(ImportGltfError::BufferRangeOutOfBounds(
                view.buffer,
                view.byte_offset,
                view.byte_length,
            ))
        } else {
            None
        }
    }
}

/// Validates accessor `a` as `count` elements of component type `comp` and
/// element type `ty`, each `elem` bytes. `None` means valid.
pub open spec fn spec_accessor_check(
    doc: Document,
    buffers: Seq<Seq<u8>>,
    a: int,
    comp: int,
    ty: AccessorType,
    elem: int,
) -> Option<ImportGltfError> {
    if a < 0 || a >= doc.accessors@.len() {
        Some(ImportGltfError::UnknownAccessorIndex(a as usize))
    } else {
        let acc = doc.accessors@[a];
        if acc.buffer_view is None || acc.component_type != comp || acc._type != ty {
            Some(ImportGltfError::UnsupportedAccessorFormat(a as usize))
        } else {
            spec_accessor_region_check(doc, buffers, a, elem)
        }
    }
}

/// The buffer index accessor `a` reads from.
pub open spec fn spec_accessor_buffer(doc: Document, a: int) -> int {
    doc.buffer_views@[doc.accessors@[a].buffer_view.unwrap() as int].buffer as int
}

/// The position of accessor `a`'s first byte inside its buffer.
pub open spec fn spec_accessor_start(doc: Document, a: int) -> int {
    let acc = doc.accessors@[a];
    doc.buffer_views@[acc.buffer_view.unwrap() as int].byte_offset + acc.byte_offset
}

/// Runs the region checks of a validated accessor and hands back its buffer
/// index and starting byte.
fn accessor_region(doc: &Document, buffers: &Vec<Vec<u8>>, a: usize, elem: usize) -> (r: Result<
    (usize, usize),
    ImportGltfError,
>)
    requires
        a < doc.accessors@.len(),
        doc.accessors@[a as int].buffer_view is Some,
        elem >= 1,
    ensures
        match r {
            Ok(p) => {
                &&& spec_accessor_region_check(*doc, buffers.deep_view(), a as int, elem as int)
                    is None
                &&& p.0 == spec_accessor_buffer(*doc, a as int)
                &&& p.1 == spec_accessor_start(*doc, a as int)
                &&& p.0 < buffers@.len()
                &&& p.1 + doc.accessors@[a as int].count * elem <= buffers@[p.0 as int]@.len()
            },
            Err(e) => spec_accessor_region_check(*doc, buffers.deep_view(), a as int, elem as int)
                == Some(e),
        },
{
    let acc = &doc.accessors[a];
    let v = acc.buffer_view.unwrap();
    if v >= doc.buffer_views.len() {
        return Err(ImportGltfError::UnknownBufferViewIndex(v));
    }
    let view = &doc.buffer_views[v];
    if view.buffer >= buffers.len() {
        return Err(ImportGltfError::UnknownBufferIndex(view.buffer));
    }
    let buf_len = buffers[view.buffer].len();
    if view.byte_offset > buf_len || view.byte_length > buf_len - view.byte_offset {
        return Err(ImportGltfError::BufferRangeOutOfBounds(
            view.buffer,
            view.byte_offset,
            view.byte_length,
        ));
    }
    let range_error = if acc.byte_offset > view.byte_length {
        true
    } else {
        acc.count > (view.byte_length - acc.byte_offset) / elem
    };
    proof {
        lemma_count_fits_iff_div(acc.count as int, elem as int, if acc.byte_offset
            <= view.byte_length {
            view.byte_length - acc.byte_offset
        } else {
            0
        });
        if acc.byte_offset <= view.byte_length {
            assert(range_error <==> acc.byte_offset + acc.count * elem > view.byte_length);
        } else {
            assert(acc.count * elem >= 0) by (nonlinear_arith)
                requires
                    acc.count >= 0,
                    elem >= 0,
            ;
        }
    }
    if range_error {
        return Err(ImportGltfError::BufferRangeOutOfBounds(
            view.buffer,
            view.byte_offset,
            view.byte_length,
        ));
    }
    let start = view.byte_offset + acc.byte_offset;
    proof {
        assert(buffers@[view.buffer as int]@.len() == buffers.deep_view()[view.buffer as int].len());
        assert(start + acc.count * elem <= view.byte_offset + view.byte_length);
    }
    Ok((view.buffer, start))
}

/// The bytes of the buffer accessor `a` reads from.
pub open spec fn spec_accessor_data(doc: Document, buffers: Seq<Seq<u8>>, a: int) -> Seq<u8> {
    buffers[spec_accessor_buffer(doc, a)]
}

/// Reads a float vec3 accessor: component bit patterns, tightly packed
/// little-endian.
fn read_vec3_accessor(doc: &Document, buffers: &Vec<Vec<u8>>, a: usize) -> (r: Result<
    Vec<[u32; 3]>,
    ImportGltfError,
>)
    ensures
        match r {
            Ok(v) => {
                let data = spec_accessor_data(*doc, buffers.deep_view(), a as int);
                let start = spec_accessor_start(*doc, a as int);
                &&& spec_accessor_check(*doc, buffers.deep_view(), a as int, 5126,
                AccessorType::Vec3, 12) is None
                &&& v@.len() == doc.accessors@[a as int].count
                &&& forall|e: int| 0 <= e < v@.len() ==> {
                    &&& (#[trigger] v@[e])@[0] == u32_le_at(data, start + e * 12)
                    &&& v@[e]@[1] == u32_le_at(data, start + e * 12 + 4)
                    &&& v@[e]@[2] == u32_le_at(data, start + e * 12 + 8)
                }
            },
            Err(e) => spec_accessor_check(*doc, buffers.deep_view(), a as int, 5126,
                AccessorType::Vec3, 12) == Some(e),
        },
{
    if a >= doc.accessors.len() {
        return Err(ImportGltfError::UnknownAccessorIndex(a));
    }
    let acc = &doc.accessors[a];
    if acc.buffer_view.is_none() || acc.component_type != 5126 || acc._type != AccessorType::Vec3 {
        return Err(ImportGltfError::UnsupportedAccessorFormat(a));
    }
    let (b, start) = match accessor_region(doc, buffers, a, 12) {
        Ok(p) => p,
        Err(e) => {
            return Err(e);
        },
    };
    let ghost data = spec_accessor_data(*doc, buffers.deep_view(), a as int);
    let count = acc.count;
    let buf = &buffers[b];
    let buf_len = buf.len();
    proof {
        assert(buf@ =~= data);
    }
    let mut v: Vec<[u32; 3]> = Vec::new();
    let mut e: usize = 0;
    while e < count
        invariant
            a < doc.accessors@.len(),
            buf_len == buf@.len(),
            count == doc.accessors@[a as int].count,
            b == spec_accessor_buffer(*doc, a as int),
            b < buffers@.len(),
            buf == &buffers@[b as int],
            buf@ == data,
            start == spec_accessor_start(*doc, a as int),
            start + count * 12 <= buf@.len(),
            0 <= e <= count,
            v@.len() == e,
            forall|k: int| 0 <= k < e ==> {
                &&& (#[trigger] v@[k])@[0] == u32_le_at(data, start + k * 12)
                &&& v@[k]@[1] == u32_le_at(data, start + k * 12 + 4)
                &&& v@[k]@[2] == u32_le_at(data, start + k * 12 + 8)
            },
        decreases count - e,
    {
        proof {
            lemma_elem_slot_in_range(e as int, count as int, 12);
        }
        let off = start + e * 12;
        let x = read_u32_le(buf.as_slice(), off);
        let y = read_u32_le(buf.as_slice(), off + 4);
        let z = read_u32_le(buf.as_slice(), off + 8);
        v.push([x, y, z]);
        e = e + 1;
    }
    Ok(v)
}

/// Reads a float vec2 accessor.
fn read_vec2_accessor(doc: &Document, buffers: &Vec<Vec<u8>>, a: usize) -> (r: Result<
    Vec<[u32; 2]>,
    ImportGltfError,
>)
    ensures
        match r {
            Ok(v) => {
                let data = spec_accessor_data(*doc, buffers.deep_view(), a as int);
                let start = spec_accessor_start(*doc, a as int);
                &&& spec_accessor_check(*doc, buffers.deep_view(), a as int, 5126,
                AccessorType::Vec2, 8) is None
                &&& v@.len() == doc.accessors@[a as int].count
                &&& forall|e: int| 0 <= e < v@.len() ==> {
                    &&& (#[trigger] v@[e])@[0] == u32_le_at(data, start + e * 8)
                    &&& v@[e]@[1] == u32_le_at(data, start + e * 8 + 4)
                }
            },
            Err(e) => spec_accessor_check(*doc, buffers.deep_view(), a as int, 5126,
                AccessorType::Vec2, 8) == Some(e),
        },
{
    if a >= doc.accessors.len() {
        return Err(ImportGltfError::UnknownAccessorIndex(a));
    }
    let acc = &doc.accessors[a];
    if acc.buffer_view.is_none() || acc.component_type != 5126 || acc._type != AccessorType::Vec2 {
        return Err(ImportGltfError::UnsupportedAccessorFormat(a));
    }
    let (b, start) = match accessor_region(doc, buffers, a, 8) {
        Ok(p) => p,
        Err(e) => {
            return Err(e);
        },
    };
    let ghost data = spec_accessor_data(*doc, buffers.deep_view(), a as int);
    let count = acc.count;
    let buf = &buffers[b];
    let buf_len = buf.len();
    proof {
        assert(buf@ =~= data);
    }
    let mut v: Vec<[u32; 2]> = Vec::new();
    let mut e: usize = 0;
    while e < count
        invariant
            a < doc.accessors@.len(),
            buf_len == buf@.len(),
            count == doc.accessors@[a as int].count,
            b < buffers@.len(),
            buf == &buffers@[b as int],
            buf@ == data,
            start == spec_accessor_start(*doc, a as int),
            start + count * 8 <= buf@.len(),
            0 <= e <= count,
            v@.len() == e,
            forall|k: int| 0 <= k < e ==> {
                &&& (#[trigger] v@[k])@[0] == u32_le_at(data, start + k * 8)
                &&& v@[k]@[1] == u32_le_at(data, start + k * 8 + 4)
            },
        decreases count - e,
    {
        proof {
            lemma_elem_slot_in_range(e as int, count as int, 8);
        }
        let off = start + e * 8;
        let x = read_u32_le(buf.as_slice(), off);
        let y = read_u32_le(buf.as_slice(), off + 4);
        v.push([x, y]);
        e = e + 1;
    }
    Ok(v)
}

/// Reads a float mat4 accessor: sixteen column-major components per element.
fn read_mat4_accessor(doc: &Document, buffers: &Vec<Vec<u8>>, a: usize) -> (r: Result<
    Vec<[u32; 16]>,
    ImportGltfError,
>)
    ensures
        match r {
            Ok(v) => {
                let data = spec_accessor_data(*doc, buffers.deep_view(), a as int);
                let start = spec_accessor_start(*doc, a as int);
                &&& spec_accessor_check(*doc, buffers.deep_view(), a as int, 5126,
                AccessorType::Mat4, 64) is None
                &&& v@.len() == doc.accessors@[a as int].count
                &&& forall|e: int, c: int| 0 <= e < v@.len() && 0 <= c < 16 ==> (#[trigger] v@[
                e]@[c]) == u32_le_at(data, start + e * 64 + c * 4)
            },
            Err(e) => spec_accessor_check(*doc, buffers.deep_view(), a as int, 5126,
                AccessorType::Mat4, 64) == Some(e),
        },
{
    if a >= doc.accessors.len() {
        return Err(ImportGltfError::UnknownAccessorIndex(a));
    }
    let acc = &doc.accessors[a];
    if acc.buffer_view.is_none() || acc.component_type != 5126 || acc._type != AccessorType::Mat4 {
        return Err(ImportGltfError::UnsupportedAccessorFormat(a));
    }
    let (b, start) = match accessor_region(doc, buffers, a, 64) {
        Ok(p) => p,
        Err(e) => {
            return Err(e);
        },
    };
    let ghost data = spec_accessor_data(*doc, buffers.deep_view(), a as int);
    let count = acc.count;
    let buf = &buffers[b];
    let buf_len = buf.len();
    proof {
        assert(buf@ =~= data);
    }
    let mut v: Vec<[u32; 16]> = Vec::new();
    let mut e: usize = 0;
    while e < count
        invariant
            a < doc.accessors@.len(),
            buf_len == buf@.len(),
            count == doc.accessors@[a as int].count,
            b < buffers@.len(),
            buf == &buffers@[b as int],
            buf@ == data,
            start == spec_accessor_start(*doc, a as int),
            start + count * 64 <= buf@.len(),
            0 <= e <= count,
            v@.len() == e,
            forall|k: int, c: int| 0 <= k < e && 0 <= c < 16 ==> (#[trigger] v@[k]@[c])
                == u32_le_at(data, start + k * 64 + c * 4),
        decreases count - e,
    {
        proof {
            lemma_elem_slot_in_range(e as int, count as int, 64);
        }
        let off = start + e * 64;
        let mut m: [u32; 16] = [0; 16];
        let mut c: usize = 0;
        while c < 16
            invariant
                off == start + e * 64,
                start + count * 64 <= buf@.len(),
                buf_len == buf@.len(),
                buf@ == data,
                0 <= e < count,
                e * 64 + 64 <= count * 64,
                0 <= c <= 16,
                forall|j: int| 0 <= j < c ==> (#[trigger] m@[j]) == u32_le_at(data, off + j * 4),
            decreases 16 - c,
        {
            let x = read_u32_le(buf.as_slice(), off + c * 4);
            m[c] = x;
            c = c + 1;
        }
        v.push(m);
        e = e + 1;
    }
    Ok(v)
}

/// Reads an index accessor: 16-bit indices directly, or 32-bit source
/// indices narrowed to 16 bits (a known, accepted truncation).
fn read_index_accessor(doc: &Document, buffers: &Vec<Vec<u8>>, a: usize) -> (r: Result<
    Vec<u16>,
    ImportGltfError,
>)
    ensures
        match r {
            Ok(v) => {
                let data = spec_accessor_data(*doc, buffers.deep_view(), a as int);
                let start = spec_accessor_start(*doc, a as int);
                let ct = doc.accessors@[a as int].component_type;
                &&& spec_index_accessor_check(*doc, buffers.deep_view(), a as int) is None
                &&& v@.len() == doc.accessors@[a as int].count
                &&& ct == 5123 ==> forall|e: int| 0 <= e < v@.len() ==> (#[trigger] v@[e])
                    == u16_le_at(data, start + e * 2)
                &&& ct == 5125 ==> forall|e: int| 0 <= e < v@.len() ==> (#[trigger] v@[e])
                    == u32_le_at(data, start + e * 4) as u16
            },
            Err(e) => spec_index_accessor_check(*doc, buffers.deep_view(), a as int) == Some(e),
        },
{
    if a >= doc.accessors.len() {
        return Err(ImportGltfError::UnknownAccessorIndex(a));
    }
    let acc = &doc.accessors[a];
    if acc.buffer_view.is_none() || acc._type != AccessorType::Scalar || (acc.component_type
        != 5123 && acc.component_type != 5125) {
        return Err(ImportGltfError::UnsupportedAccessorFormat(a));
    }
    let wide = acc.component_type == 5125;
    let elem: usize = if wide {
        4
    } else {
        2
    };
    let (b, start) = match accessor_region(doc, buffers, a, elem) {
        Ok(p) => p,
        Err(e) => {
            return Err(e);
        },
    };
    let ghost data = spec_accessor_data(*doc, buffers.deep_view(), a as int);
    let count = acc.count;
    let buf = &buffers[b];
    let buf_len = buf.len();
    proof {
        assert(buf@ =~= data);
    }
    let mut v: Vec<u16> = Vec::new();
    let mut e: usize = 0;
    while e < count
        invariant
            a < doc.accessors@.len(),
            buf_len == buf@.len(),
            count == doc.accessors@[a as int].count,
            b < buffers@.len(),
            buf == &buffers@[b as int],
            buf@ == data,
            start == spec_accessor_start(*doc, a as int),
            elem == if wide {
                4int
            } else {
                2int
            },
            wide == (doc.accessors@[a as int].component_type == 5125),
            start + count * elem <= buf@.len(),
            0 <= e <= count,
            v@.len() == e,
            !wide ==> forall|k: int| 0 <= k < e ==> (#[trigger] v@[k]) == u16_le_at(data,
                start + k * 2),
            wide ==> forall|k: int| 0 <= k < e ==> (#[trigger] v@[k]) == u32_le_at(data,
                start + k * 4) as u16,
        decreases count - e,
    {
        proof {
            lemma_elem_slot_in_range(e as int, count as int, elem as int);
        }
        if wide {
            let off = start + e * 4;
            let x = read_u32_le(buf.as_slice(), off);
            v.push(#[verifier::truncate] (x as u16));
        } else {
            let off = start + e * 2;
            let x = read_u16_le(buf.as_slice(), off);
            v.push(x);
        }
        e = e + 1;
    }
    Ok(v)
}

/// Validates an index accessor: a scalar of unsigned 16-bit or 32-bit
/// components. `None` means valid.
pub open spec fn spec_index_accessor_check(
    doc: Document,
    buffers: Seq<Seq<u8>>,
    a: int,
) -> Option<ImportGltfError> {
    if a < 0 || a >= doc.accessors@.len() {
        Some(ImportGltfError::UnknownAccessorIndex(a as usize))
    } else {
        let acc = doc.accessors@[a];
        if acc.buffer_view is None || acc._type != AccessorType::Scalar || (acc.component_type
            != 5123 && acc.component_type != 5125) {
            Some(ImportGltfError::UnsupportedAccessorFormat(a as usize))
        } else {
            spec_accessor_region_check(doc, buffers, a, if acc.component_type == 5123 {
                2
            } else {
                4
            })
        }
    }
}

/// Walks the document's resources, decoding and uploading each referenced
/// texture, material and mesh once, memoized by source index.
struct Importer {
    buffers: Vec<Vec<u8>>,
    images: Vec<(Vec<u8>, u32, u32)>,
    texture_memo: Vec<Option<Id<Texture>>>,
    material_memo: Vec<Option<Id<Material>>>,
    mesh_memo: Vec<Option<Id<Mesh>>>,
    textures: Catalog<Texture>,
    materials: Catalog<Material>,
    meshes: Catalog<Mesh>,
}

/// The decoded-image views of the importer's image table.
pub open spec fn images_view(images: Seq<(Vec<u8>, u32, u32)>) -> Seq<(Seq<u8>, u32, u32)> {
    Seq::new(images.len(), |i: int| (images[i].0@, images[i].1, images[i].2))
}

/// Validates texture `t`'s cross references. `None` means valid.
pub open spec fn spec_texture_check(doc: Document, images_len: int, t: int) -> Option<
    ImportGltfError,
> {
    if t < 0 || t >= doc.textures@.len() {
        Some(ImportGltfError::UnknownTextureIndex(t as usize))
    } else if doc.textures@[t].source >= images_len {
        Some(ImportGltfError::UnknownImageIndex(doc.textures@[t].source))
    } else {
        match doc.textures@[t].sampler {
            Some(s) => if s >= doc.samplers@.len() {
                Some(ImportGltfError::UnknownSamplerIndex(s))
            } else {
                None
            },
            None => None,
        }
    }
}

/// Whether `tex` is exactly the texture that importing document texture `t`
/// produces: the decoded RGBA image it references, under the sampler modes
/// its sampler selects (or the clamp-to-edge / linear defaults).
pub open spec fn texture_matches(
    tex: Texture,
    doc: Document,
    images: Seq<(Seq<u8>, u32, u32)>,
    t: int,
) -> bool {
    let dt = doc.textures@[t];
    let img = images[dt.source as int];
    &&& tex.pixels@ == img.0
    &&& tex.width == img.1
    &&& tex.height == img.2
    &&& tex.format == TextureFormat::RGBA
    &&& match dt.sampler {
        Some(s) => {
            let sm = doc.samplers@[s as int];
            &&& tex.wrap_s == TextureWrap::spec_from_gltf(sm.wrap_s)
            &&& tex.wrap_t == TextureWrap::spec_from_gltf(sm.wrap_t)
            &&& tex.min_filter == MinFilter::spec_from_gltf(sm.min_filter)
            &&& tex.mag_filter == MagFilter::spec_from_gltf(sm.mag_filter)
        },
        None => {
            &&& tex.wrap_s == TextureWrap::ClampToEdge
            &&& tex.wrap_t == TextureWrap::ClampToEdge
            &&& tex.min_filter == MinFilter::Linear
            &&& tex.mag_filter == MagFilter::Linear
        },
    }
}

/// Whether `mat` is exactly the material that importing document material
/// `m` produces, its texture references resolved through the memo table.
pub open spec fn material_matches(
    mat: Material,
    doc: Document,
    tmemo: Seq<Option<Id<Texture>>>,
    m: int,
) -> bool {
    let dm = doc.materials@[m];
    &&& mat.shaded == true
    &&& mat.base_diffuse_color@ == dm.pbr_metallic_roughness.base_color_factor@
    &&& match dm.normal_texture {
        Some(info) => {
            &&& 0 <= info.index < tmemo.len()
            &&& tmemo[info.index as int] is Some
            &&& mat.normal == tmemo[info.index as int]
        },
        None => mat.normal is None,
    }
    &&& match dm.pbr_metallic_roughness.base_color_texture {
        Some(info) => {
            &&& 0 <= info.index < tmemo.len()
            &&& tmemo[info.index as int] is Some
            &&& mat.diffuse == tmemo[info.index as int]
        },
        None => mat.diffuse is None,
    }
}

/// The anonymous material a primitive without a material reference gets: no
/// textures, an opaque white base color, shaded.
pub open spec fn default_material_matches(mat: Material) -> bool {
    &&& mat.shaded == true
    &&& mat.normal is None
    &&& mat.diffuse is None
    &&& mat.base_diffuse_color@ == seq![
        crate::transform::ONE_BITS, crate::transform::ONE_BITS, crate::transform::ONE_BITS,
        crate::transform::ONE_BITS,
    ]
}

/// The first defect of material `m`'s cross references, texture references
/// checked in normal-then-base-color order. `None` means valid.
pub open spec fn spec_material_check(doc: Document, images_len: int, m: int) -> Option<
    ImportGltfError,
> {
    if m < 0 || m >= doc.materials@.len() {
        Some(ImportGltfError::UnknownMaterialIndex(m as usize))
    } else {
        let dm = doc.materials@[m];
        let normal_err = match dm.normal_texture {
            Some(info) => spec_texture_check(doc, images_len, info.index as int),
            None => None,
        };
        match normal_err {
            Some(e) => Some(e),
            None => match dm.pbr_metallic_roughness.base_color_texture {
                Some(info) => spec_texture_check(doc, images_len, info.index as int),
                None => None,
            },
        }
    }
}

impl Importer {
    /// The importer's running invariant against the document: memo tables
    /// have one slot per document entry, every decoded image is a whole RGBA
    /// surface, and every memoized handle resolves to the value its source
    /// index dictates.
    spec fn wf(&self, doc: Document) -> bool {
        &&& self.texture_memo@.len() == doc.textures@.len()
        &&& self.material_memo@.len() == doc.materials@.len()
        &&& self.mesh_memo@.len() == doc.meshes@.len()
        &&& forall|i: int| 0 <= i < self.images@.len() ==> (#[trigger] self.images@[i]).0@.len()
            == 4 * self.images@[i].1 * self.images@[i].2
        &&& forall|t: int|
            0 <= t < self.texture_memo@.len() && (#[trigger] self.texture_memo@[t]) is Some ==> {
                let h = self.texture_memo@[t].unwrap();
                &&& spec_texture_check(doc, self.images@.len() as int, t) is None
                &&& self.textures.contains_id(h)
                &&& texture_matches(self.textures@[h.spec_index()], doc, images_view(self.images@),
                    t)
            }
        &&& forall|m: int|
            0 <= m < self.material_memo@.len() && (#[trigger] self.material_memo@[m]) is Some
                ==> {
                let h = self.material_memo@[m].unwrap();
                &&& spec_material_check(doc, self.images@.len() as int, m) is None
                &&& self.materials.contains_id(h)
                &&& material_matches(self.materials@[h.spec_index()], doc, self.texture_memo@, m)
            }
        &&& forall|me: int|
            0 <= me < self.mesh_memo@.len() && (#[trigger] self.mesh_memo@[me]) is Some ==> {
                let h = self.mesh_memo@[me].unwrap();
                &&& self.meshes.contains_id(h)
                &&& self.meshes@[h.spec_index()].wf()
                &&& self.meshes@[h.spec_index()].primitives@.len() == doc.meshes@[
                me].primitives@.len()
            }
        &&& forall|h: int| 0 <= h < self.textures@.len() ==> (#[trigger] self.textures@[
        h]).wf()
        &&& forall|h: int|
            0 <= h < self.materials@.len() ==> {
                let mat = #[trigger] self.materials@[h];
                &&& match mat.diffuse {
                    Some(t) => 0 <= t.spec_index() < self.textures@.len(),
                    None => true,
                }
                &&& match mat.normal {
                    Some(t) => 0 <= t.spec_index() < self.textures@.len(),
                    None => true,
                }
            }
        &&& forall|h: int| 0 <= h < self.meshes@.len() ==> (#[trigger] self.meshes@[h]).wf()
        &&& forall|h: int, k: int|
            0 <= h < self.meshes@.len() && 0 <= k < self.meshes@[h].primitives@.len() ==> 0 <= (
            #[trigger] self.meshes@[h].primitives@[k]).material.spec_index()
                < self.materials@.len()
    }

    /// Imports document texture `t`, memoized: a repeat reference returns
    /// the same handle and changes nothing.
    fn import_gltf_texture(&mut self, doc: &Document, t: usize) -> (r: Result<
        Id<Texture>,
        ImportGltfError,
    >)
        requires
            old(self).wf(*doc),
        ensures
            final(self).wf(*doc),
            final(self).buffers == old(self).buffers,
            final(self).images == old(self).images,
            final(self).material_memo == old(self).material_memo,
            final(self).mesh_memo == old(self).mesh_memo,
            final(self).materials == old(self).materials,
            final(self).meshes == old(self).meshes,
            match r {
                Ok(h) => {
                    &&& spec_texture_check(*doc, old(self).images@.len() as int, t as int) is None
                    &&& final(self).texture_memo@[t as int] == Some(h)
                    &&& final(self).textures.contains_id(h)
                    &&& texture_matches(final(self).textures@[h.spec_index()], *doc,
                        images_view(old(self).images@), t as int)
                    &&& match old(self).texture_memo@[t as int] {
                        Some(h0) => h == h0 && *final(self) == *old(self),
                        None => {
                            &&& final(self).textures@ == old(self).textures@.push(
                                final(self).textures@[h.spec_index()])
                            &&& h.spec_index() == old(self).textures@.len()
                            &&& final(self).texture_memo@ == old(self).texture_memo@.update(
                                t as int, Some(h))
                        },
                    }
                },
                Err(e) => {
                    &&& spec_texture_check(*doc, old(self).images@.len() as int, t as int)
                        == Some(e)
                    &&& *final(self) == *old(self)
                },
            },
    {
        if t >= self.texture_memo.len() {
            return Err(ImportGltfError::UnknownTextureIndex(t));
        }
        if let Some(h) = self.texture_memo[t] {
            return Ok(h);
        }
        let source = doc.textures[t].source;
        if source >= self.images.len() {
            return Err(ImportGltfError::UnknownImageIndex(source));
        }
        let sampler = match doc.textures[t].sampler {
            Some(s) => {
                if s >= doc.samplers.len() {
                    return Err(ImportGltfError::UnknownSamplerIndex(s));
                }
                Some(&doc.samplers[s])
            },
            None => None,
        };
        let image = &self.images[source];
        let mut builder = TextureBuilder::new(image.0.clone(), image.1, image.2,
            TextureFormat::RGBA);
        match sampler {
            Some(sm) => {
                builder = builder.wrap_s(TextureWrap::from_gltf(sm.wrap_s)).wrap_t(
                    TextureWrap::from_gltf(sm.wrap_t)).min_filter(MinFilter::from_gltf(
                    sm.min_filter)).mag_filter(MagFilter::from_gltf(sm.mag_filter));
            },
            None => {},
        }
        let texture = builder.build();
        let h = self.textures.add(texture);
        self.texture_memo[t] = Some(h);
        proof {
            assert(final(self).texture_memo@ == old(self).texture_memo@.update(t as int, Some(h)));
            assert forall|t2: int|
                0 <= t2 < self.texture_memo@.len() && (#[trigger] self.texture_memo@[t2]) is Some
                    implies {
                    let h2 = self.texture_memo@[t2].unwrap();
                    &&& spec_texture_check(*doc, self.images@.len() as int, t2) is None
                    &&& self.textures.contains_id(h2)
                    &&& texture_matches(self.textures@[h2.spec_index()], *doc,
                        images_view(self.images@), t2)
                } by {
                if t2 != t as int {
                    assert(old(self).texture_memo@[t2] == self.texture_memo@[t2]);
                }
            }
        }
        Ok(h)
    }

    /// Imports document material `m`, memoized, resolving its optional
    /// normal and base-color textures first (in that order).
    fn import_gltf_material(&mut self, doc: &Document, m: usize) -> (r: Result<
        Id<Material>,
        ImportGltfError,
    >)
        requires
            old(self).wf(*doc),
        ensures
            final(self).wf(*doc),
            final(self).buffers == old(self).buffers,
            final(self).images == old(self).images,
            final(self).mesh_memo == old(self).mesh_memo,
            final(self).meshes == old(self).meshes,
            old(self).textures@.is_prefix_of(final(self).textures@),
            old(self).materials@.is_prefix_of(final(self).materials@),
            forall|t: int|
                0 <= t < old(self).texture_memo@.len() && (#[trigger] old(self).texture_memo@[
                t]) is Some ==> final(self).texture_memo@[t] == old(self).texture_memo@[t],
            final(self).texture_memo@.len() == old(self).texture_memo@.len(),
            match r {
                Ok(h) => {
                    &&& spec_material_check(*doc, old(self).images@.len() as int, m as int)
                        is None
                    &&& final(self).material_memo@[m as int] == Some(h)
                    &&& final(self).materials.contains_id(h)
                    &&& material_matches(final(self).materials@[h.spec_index()], *doc,
                        final(self).texture_memo@, m as int)
                    &&& match old(self).material_memo@[m as int] {
                        Some(h0) => h == h0 && *final(self) == *old(self),
                        None => final(self).material_memo@ == old(self).material_memo@.update(
                            m as int, Some(h)),
                    }
                },
                Err(e) => {
                    &&& spec_material_check(*doc, old(self).images@.len() as int, m as int)
                        == Some(e)
                    &&& final(self).material_memo == old(self).material_memo
                    &&& final(self).materials == old(self).materials
                },
            },
    {
        if m >= self.material_memo.len() {
            return Err(ImportGltfError::UnknownMaterialIndex(m));
        }
        if let Some(h) = self.material_memo[m] {
            return Ok(h);
        }
        let normal: Option<Id<Texture>> = match &doc.materials[m].normal_texture {
            Some(info) => match self.import_gltf_texture(doc, info.index) {
                Ok(h) => Some(h),
                Err(e) => {
                    return Err(e);
                },
            },
            None => None,
        };
        let diffuse: Option<Id<Texture>> = match &doc.materials[m].pbr_metallic_roughness
            .base_color_texture {
            Some(info) => match self.import_gltf_texture(doc, info.index) {
                Ok(h) => Some(h),
                Err(e) => {
                    return Err(e);
                },
            },
            None => None,
        };
        let material = Material {
            normal,
            diffuse,
            base_diffuse_color: doc.materials[m].pbr_metallic_roughness.base_color_factor,
            shaded: true,
        };
        let h = self.materials.add(material);
        self.material_memo[m] = Some(h);
        proof {
            assert forall|m2: int|
                0 <= m2 < self.material_memo@.len() && (#[trigger] self.material_memo@[m2])
                    is Some implies {
                    let h2 = self.material_memo@[m2].unwrap();
                    &&& spec_material_check(*doc, self.images@.len() as int, m2) is None
                    &&& self.materials.contains_id(h2)
                    &&& material_matches(self.materials@[h2.spec_index()], *doc,
                        self.texture_memo@, m2)
                } by {
                if m2 != m as int {
                    assert(old(self).material_memo@[m2] == self.material_memo@[m2]);
                }
            }
        }
        Ok(h)
    }

    /// Imports document mesh `m`, memoized: decodes the four required vertex
    /// attributes of each primitive and resolves its material.
    fn import_gltf_mesh(&mut self, doc: &Document, m: usize) -> (r: Result<
        Id<Mesh>,
        ImportGltfError,
    >)
        requires
            old(self).wf(*doc),
        ensures
            final(self).wf(*doc),
            final(self).buffers == old(self).buffers,
            final(self).images == old(self).images,
            old(self).textures@.is_prefix_of(final(self).textures@),
            old(self).materials@.is_prefix_of(final(self).materials@),
            old(self).meshes@.is_prefix_of(final(self).meshes@),
            forall|t: int|
                0 <= t < old(self).texture_memo@.len() && (#[trigger] old(self).texture_memo@[
                t]) is Some ==> final(self).texture_memo@[t] == old(self).texture_memo@[t],
            forall|m0: int|
                0 <= m0 < old(self).material_memo@.len() && (#[trigger] old(self).material_memo@[
                m0]) is Some ==> final(self).material_memo@[m0] == old(self).material_memo@[m0],
            forall|m0: int|
                0 <= m0 < old(self).mesh_memo@.len() && (#[trigger] old(self).mesh_memo@[
                m0]) is Some ==> final(self).mesh_memo@[m0] == old(self).mesh_memo@[m0],
            match r {
                Ok(h) => {
                    &&& m < doc.meshes@.len()
                    &&& final(self).mesh_memo@[m as int] == Some(h)
                    &&& final(self).meshes.contains_id(h)
                    &&& final(self).meshes@[h.spec_index()].wf()
                    &&& final(self).meshes@[h.spec_index()].primitives@.len() == doc.meshes@[
                    m as int].primitives@.len()
                    &&& match old(self).mesh_memo@[m as int] {
                        Some(h0) => h == h0 && *final(self) == *old(self),
                        None => {
                            &&& forall|k: int| 0 <= k < doc.meshes@[m as int].primitives@.len()
                                ==> primitive_ok(*doc, old(self).buffers.deep_view(),
                                old(self).images@.len() as int, m as int, k)
                            &&& mesh_matches(final(self).meshes@[h.spec_index()], *doc,
                                final(self).buffers.deep_view(), final(self).material_memo@,
                                final(self).materials@, m as int)
                            &&& final(self).mesh_memo@ == old(self).mesh_memo@.update(m as int,
                                Some(h))
                        },
                    }
                },
                Err(e) => {
                    &&& final(self).meshes == old(self).meshes
                    &&& final(self).mesh_memo == old(self).mesh_memo
                    &&& if m >= doc.meshes@.len() {
                        e == ImportGltfError::UnknownMeshIndex(m)
                    } else {
                        exists|k: int|
                            0 <= k < doc.meshes@[m as int].primitives@.len() && (
                            #[trigger] primitive_error_matches(*doc,
                                old(self).buffers.deep_view(), old(self).images@.len() as int,
                                m as int, k, e)) && forall|j: int| 0 <= j < k ==> primitive_ok(
                                *doc,
                                old(self).buffers.deep_view(),
                                old(self).images@.len() as int,
                                m as int,
                                j,
                            )
                    }
                },
            },
    {
        if m >= self.mesh_memo.len() {
            return Err(ImportGltfError::UnknownMeshIndex(m));
        }
        if let Some(h) = self.mesh_memo[m] {
            return Ok(h);
        }
        let ghost bufs = self.buffers.deep_view();
        let ghost images_len = self.images@.len() as int;
        let prim_count = doc.meshes[m].primitives.len();
        let mut prims: Vec<crate::graphics::MeshPrimitive> = Vec::new();
        let mut k: usize = 0;
        while k < prim_count
            invariant
                old(self).wf(*doc),
                self.wf(*doc),
                m < doc.meshes@.len(),
                old(self).mesh_memo@[m as int] is None,
                prim_count == doc.meshes@[m as int].primitives@.len(),
                bufs == self.buffers.deep_view(),
                images_len == self.images@.len() as int,
                self.buffers == old(self).buffers,
                self.images == old(self).images,
                self.mesh_memo == old(self).mesh_memo,
                self.meshes == old(self).meshes,
                old(self).textures@.is_prefix_of(self.textures@),
                old(self).materials@.is_prefix_of(self.materials@),
                forall|t: int|
                    0 <= t < old(self).texture_memo@.len() && (#[trigger] old(
                    self).texture_memo@[t]) is Some ==> self.texture_memo@[t] == old(
                        self,
                    ).texture_memo@[t],
                forall|m0: int|
                    0 <= m0 < old(self).material_memo@.len() && (#[trigger] old(
                    self).material_memo@[m0]) is Some ==> self.material_memo@[m0] == old(
                        self,
                    ).material_memo@[m0],
                0 <= k <= prim_count,
                prims@.len() == k,
                forall|j: int| 0 <= j < k ==> primitive_ok(*doc, bufs, images_len, m as int, j),
                forall|j: int| 0 <= j < k ==> (#[trigger] prims@[j]).wf(),
                forall|j: int| 0 <= j < k ==> primitive_matches(#[trigger] prims@[j], *doc,
                    bufs, self.material_memo@, self.materials@, m as int, j),
            decreases prim_count - k,
        {
            let dp = &doc.meshes[m].primitives[k];
            let pa = match dp.position {
                Some(a) => a,
                None => {
                    let e = ImportGltfError::RequiredMeshPropertyMissing("positions", m, k);
                    proof {
                        assert(primitive_error_matches(*doc, bufs, images_len, m as int, k as int, e));
                    }
                    return Err(e);
                },
            };
            let positions = match read_vec3_accessor(doc, &self.buffers, pa) {
                Ok(v) => v,
                Err(e) => {
                    proof {
                        assert(primitive_error_matches(*doc, bufs, images_len, m as int, k as int, e));
                    }
                    return Err(e);
                },
            };
            let na = match dp.normal {
                Some(a) => a,
                None => {
                    let e = ImportGltfError::RequiredMeshPropertyMissing("normals", m, k);
                    proof {
                        assert(primitive_error_matches(*doc, bufs, images_len, m as int, k as int, e));
                    }
                    return Err(e);
                },
            };
            let normals = match read_vec3_accessor(doc, &self.buffers, na) {
                Ok(v) => v,
                Err(e) => {
                    proof {
                        assert(primitive_error_matches(*doc, bufs, images_len, m as int, k as int, e));
                    }
                    return Err(e);
                },
            };
            let ta = match dp.texcoord_0 {
                Some(a) => a,
                None => {
                    let e = ImportGltfError::RequiredMeshPropertyMissing("uvs", m, k);
                    proof {
                        assert(primitive_error_matches(*doc, bufs, images_len, m as int, k as int, e));
                    }
                    return Err(e);
                },
            };
            let uvs = match read_vec2_accessor(doc, &self.buffers, ta) {
                Ok(v) => v,
                Err(e) => {
                    proof {
                        assert(primitive_error_matches(*doc, bufs, images_len, m as int, k as int, e));
                    }
                    return Err(e);
                },
            };
            if positions.len() != normals.len() || positions.len() != uvs.len() {
                let e = ImportGltfError::AttributeCountMismatch(m, k);
                proof {
                    assert(primitive_error_matches(*doc, bufs, images_len, m as int, k as int, e));
                }
                return Err(e);
            }
            let ia = match dp.indices {
                Some(a) => a,
                None => {
                    let e = ImportGltfError::RequiredMeshPropertyMissing("indices", m, k);
                    proof {
                        assert(primitive_error_matches(*doc, bufs, images_len, m as int, k as int, e));
                    }
                    return Err(e);
                },
            };
            let indices = match read_index_accessor(doc, &self.buffers, ia) {
                Ok(v) => v,
                Err(e) => {
                    proof {
                        assert(primitive_error_matches(*doc, bufs, images_len, m as int, k as int, e));
                    }
                    return Err(e);
                },
            };
            let ghost mid = *self;
            let material: Id<Material> = match dp.material {
                Some(mi) => match self.import_gltf_material(doc, mi) {
                    Ok(h) => h,
                    Err(e) => {
                        proof {
                            assert(primitive_error_matches(*doc, bufs, images_len, m as int, k as int, e));
                        }
                        return Err(e);
                    },
                },
                None => {
                    let default = Material {
                        normal: None,
                        diffuse: None,
                        base_diffuse_color: [
                            crate::transform::ONE_BITS,
                            crate::transform::ONE_BITS,
                            crate::transform::ONE_BITS,
                            crate::transform::ONE_BITS,
                        ],
                        shaded: true,
                    };
                    proof {
                        assert(default.base_diffuse_color@ =~= seq![
                            crate::transform::ONE_BITS, crate::transform::ONE_BITS,
                            crate::transform::ONE_BITS, crate::transform::ONE_BITS,
                        ]);
                    }
                    self.materials.add(default)
                },
            };
            proof {
                lemma_prefix_trans(old(self).textures@, mid.textures@, self.textures@);
                lemma_prefix_trans(old(self).materials@, mid.materials@, self.materials@);
                assert forall|j: int| 0 <= j < k implies primitive_matches(
                    #[trigger] prims@[j],
                    *doc,
                    bufs,
                    self.material_memo@,
                    self.materials@,
                    m as int,
                    j,
                ) by {
                    assert(primitive_matches(prims@[j], *doc, bufs, mid.material_memo@,
                        mid.materials@, m as int, j));
                    let dpj = doc.meshes@[m as int].primitives@[j];
                    match dpj.material {
                        Some(_) => {},
                        None => {
                            lemma_prefix_index(mid.materials@, self.materials@,
                                prims@[j].material.spec_index());
                        },
                    }
                }
            }
            let prim = crate::graphics::MeshPrimitive {
                positions,
                normals,
                uvs,
                indices,
                material,
            };
            prims.push(prim);
            k = k + 1;
        }
        let mesh = Mesh { primitives: prims };
        let ghost prims_view = mesh.primitives@;
        let h = self.meshes.add(mesh);
        self.mesh_memo[m] = Some(h);
        proof {
            assert(self.mesh_memo@ == old(self).mesh_memo@.update(m as int, Some(h)));
            assert forall|h2: int, k2: int|
                0 <= h2 < self.meshes@.len() && 0 <= k2 < self.meshes@[h2].primitives@.len()
                    implies 0 <= (#[trigger] self.meshes@[h2].primitives@[
                k2]).material.spec_index() < self.materials@.len() by {
                if h2 == self.meshes@.len() - 1 {
                    assert(self.meshes@[h2].primitives@ == prims_view);
                    assert(primitive_matches(prims_view[k2], *doc, bufs, self.material_memo@,
                        self.materials@, m as int, k2));
                    match doc.meshes@[m as int].primitives@[k2].material {
                        Some(mi) => {
                            assert(self.material_memo@[mi as int] is Some);
                        },
                        None => {},
                    }
                }
            }
            assert forall|me: int|
                0 <= me < self.mesh_memo@.len() && (#[trigger] self.mesh_memo@[me]) is Some
                    implies {
                    let h2 = self.mesh_memo@[me].unwrap();
                    &&& self.meshes.contains_id(h2)
                    &&& self.meshes@[h2.spec_index()].wf()
                    &&& self.meshes@[h2.spec_index()].primitives@.len() == doc.meshes@[
                    me].primitives@.len()
                } by {
                if me != m as int {
                    assert(old(self).mesh_memo@[me] == self.mesh_memo@[me]);
                }
            }
        }
        Ok(h)
    }
}

/// Whether `v` holds exactly the vec3 elements of accessor `a`.
pub open spec fn vec3_matches(v: Seq<[u32; 3]>, doc: Document, buffers: Seq<Seq<u8>>, a: int) -> bool {
    let data = spec_accessor_data(doc, buffers, a);
    let start = spec_accessor_start(doc, a);
    &&& v.len() == doc.accessors@[a].count
    &&& forall|e: int| 0 <= e < v.len() ==> {
        &&& (#[trigger] v[e])@[0] == u32_le_at(data, start + e * 12)
        &&& v[e]@[1] == u32_le_at(data, start + e * 12 + 4)
        &&& v[e]@[2] == u32_le_at(data, start + e * 12 + 8)
    }
}

/// Whether `v` holds exactly the vec2 elements of accessor `a`.
pub open spec fn vec2_matches(v: Seq<[u32; 2]>, doc: Document, buffers: Seq<Seq<u8>>, a: int) -> bool {
    let data = spec_accessor_data(doc, buffers, a);
    let start = spec_accessor_start(doc, a);
    &&& v.len() == doc.accessors@[a].count
    &&& forall|e: int| 0 <= e < v.len() ==> {
        &&& (#[trigger] v[e])@[0] == u32_le_at(data, start + e * 8)
        &&& v[e]@[1] == u32_le_at(data, start + e * 8 + 4)
    }
}

/// Whether `v` holds exactly the indices of accessor `a`, 32-bit sources
/// narrowed to 16 bits.
pub open spec fn indices_matches(v: Seq<u16>, doc: Document, buffers: Seq<Seq<u8>>, a: int) -> bool {
    let data = spec_accessor_data(doc, buffers, a);
    let start = spec_accessor_start(doc, a);
    let ct = doc.accessors@[a].component_type;
    &&& v.len() == doc.accessors@[a].count
    &&& ct == 5123 ==> forall|e: int| 0 <= e < v.len() ==> (#[trigger] v[e]) == u16_le_at(
        data,
        start + e * 2,
    )
    &&& ct == 5125 ==> forall|e: int| 0 <= e < v.len() ==> (#[trigger] v[e]) == u32_le_at(
        data,
        start + e * 4,
    ) as u16
}

/// Whether `e` reports attribute `name` as missing for the given mesh and
/// primitive.
pub open spec fn is_rmpm(e: ImportGltfError, name: Seq<char>, m: int, k: int) -> bool {
    e matches ImportGltfError::RequiredMeshPropertyMissing(n, mm, kk) && n@ == name && mm == m
        && kk == k
}

/// Whether primitive `k` of mesh `m` passes every import check: all four
/// required attributes present and well-typed, matching vertex counts, and a
/// valid material reference.
pub open spec fn primitive_ok(
    doc: Document,
    buffers: Seq<Seq<u8>>,
    images_len: int,
    m: int,
    k: int,
) -> bool {
    let dp = doc.meshes@[m].primitives@[k];
    &&& dp.position matches Some(pa) && spec_accessor_check(doc, buffers, pa as int, 5126,
        AccessorType::Vec3, 12) is None
    &&& dp.normal matches Some(na) && spec_accessor_check(doc, buffers, na as int, 5126,
        AccessorType::Vec3, 12) is None
    &&& dp.texcoord_0 matches Some(ta) && spec_accessor_check(doc, buffers, ta as int, 5126,
        AccessorType::Vec2, 8) is None
    &&& doc.accessors@[dp.position.unwrap() as int].count == doc.accessors@[dp.normal.unwrap()
        as int].count
    &&& doc.accessors@[dp.position.unwrap() as int].count == doc.accessors@[dp.texcoord_0.unwrap()
        as int].count
    &&& dp.indices matches Some(ia) && spec_index_accessor_check(doc, buffers, ia as int) is None
    &&& match dp.material {
        Some(mi) => spec_material_check(doc, images_len, mi as int) is None,
        None => true,
    }
}

/// Whether `e` is exactly the first defect of primitive `k` of mesh `m`,
/// checks run in attribute order: positions, normals, texture coordinates,
/// matching counts, indices, material.
pub open spec fn primitive_error_matches(
    doc: Document,
    buffers: Seq<Seq<u8>>,
    images_len: int,
    m: int,
    k: int,
    e: ImportGltfError,
) -> bool {
    let dp = doc.meshes@[m].primitives@[k];
    match dp.position {
        None => is_rmpm(e, "positions"@, m, k),
        Some(pa) => match spec_accessor_check(doc, buffers, pa as int, 5126, AccessorType::Vec3,
            12) {
            Some(e0) => e == e0,
            None => match dp.normal {
                None => is_rmpm(e, "normals"@, m, k),
                Some(na) => match spec_accessor_check(doc, buffers, na as int, 5126,
                    AccessorType::Vec3, 12) {
                    Some(e0) => e == e0,
                    None => match dp.texcoord_0 {
                        None => is_rmpm(e, "uvs"@, m, k),
                        Some(ta) => match spec_accessor_check(doc, buffers, ta as int, 5126,
                            AccessorType::Vec2, 8) {
                            Some(e0) => e == e0,
                            None => if doc.accessors@[pa as int].count != doc.accessors@[na
                                as int].count || doc.accessors@[pa as int].count
                                != doc.accessors@[ta as int].count {
                                e == ImportGltfError::AttributeCountMismatch(
                                    m as usize,
                                    k as usize,
                                )
                            } else {
                                match dp.indices {
                                    None => is_rmpm(e, "indices"@, m, k),
                                    Some(ia) => match spec_index_accessor_check(doc, buffers,
                                        ia as int) {
                                        Some(e0) => e == e0,
                                        None => match dp.material {
                                            Some(mi) => match spec_material_check(doc,
                                                images_len, mi as int) {
                                                Some(e0) => e == e0,
                                                None => false,
                                            },
                                            None => false,
                                        },
                                    },
                                }
                            },
                        },
                    },
                },
            },
        },
    }
}

/// Whether `p` holds exactly the decoded data of primitive `k` of mesh `m`,
/// its material resolved through the memo table (or a fresh anonymous
/// default material).
pub open spec fn primitive_matches(
    p: crate::graphics::MeshPrimitive,
    doc: Document,
    buffers: Seq<Seq<u8>>,
    mmemo: Seq<Option<Id<Material>>>,
    materials: Seq<Material>,
    m: int,
    k: int,
) -> bool {
    let dp = doc.meshes@[m].primitives@[k];
    &&& dp.position matches Some(pa) && vec3_matches(p.positions@, doc, buffers, pa as int)
    &&& dp.normal matches Some(na) && vec3_matches(p.normals@, doc, buffers, na as int)
    &&& dp.texcoord_0 matches Some(ta) && vec2_matches(p.uvs@, doc, buffers, ta as int)
    &&& dp.indices matches Some(ia) && indices_matches(p.indices@, doc, buffers, ia as int)
    &&& match dp.material {
        Some(mi) => {
            &&& 0 <= mi < mmemo.len()
            &&& mmemo[mi as int] is Some
            &&& p.material == mmemo[mi as int].unwrap()
        },
        None => {
            &&& 0 <= p.material.spec_index() < materials.len()
            &&& default_material_matches(materials[p.material.spec_index()])
        },
    }
}

/// Whether `mesh` holds exactly the imported primitives of mesh `m`.
pub open spec fn mesh_matches(
    mesh: Mesh,
    doc: Document,
    buffers: Seq<Seq<u8>>,
    mmemo: Seq<Option<Id<Material>>>,
    materials: Seq<Material>,
    m: int,
) -> bool {
    &&& mesh.primitives@.len() == doc.meshes@[m].primitives@.len()
    &&& forall|k: int| 0 <= k < mesh.primitives@.len() ==> primitive_matches(
        #[trigger] mesh.primitives@[k],
        doc,
        buffers,
        mmemo,
        materials,
        m,
        k,
    )
}

proof fn lemma_prefix_index<T>(a: Seq<T>, b: Seq<T>, i: int)
    requires
        a.is_prefix_of(b),
        0 <= i < a.len(),
    ensures
        a[i] == b[i],
{
    assert(a[i] == b.subrange(0, a.len() as int)[i]);
}

proof fn lemma_prefix_trans<T>(a: Seq<T>, b: Seq<T>, c: Seq<T>)
    requires
        a.is_prefix_of(b),
        b.is_prefix_of(c),
    ensures
        a.is_prefix_of(c),
{
    assert forall|i: int| 0 <= i < a.len() implies a[i] == c.subrange(0, a.len() as int)[i] by {
        lemma_prefix_index(a, b, i);
        lemma_prefix_index(b, c, i);
    }
    assert(a =~= c.subrange(0, a.len() as int));
}

/// The default translation: the zero vector, as bit patterns.
pub open spec fn default_translation() -> Seq<u32> {
    seq![0u32, 0u32, 0u32]
}

/// The default rotation: the identity quaternion, as bit patterns.
pub open spec fn default_rotation() -> Seq<u32> {
    seq![0u32, 0u32, 0u32, crate::transform::ONE_BITS]
}

/// The default scale: the unit vector, as bit patterns.
pub open spec fn default_scale() -> Seq<u32> {
    seq![crate::transform::ONE_BITS, crate::transform::ONE_BITS, crate::transform::ONE_BITS]
}

/// The local transform a document node declares: its explicit matrix when
/// present; the identity when it has no transform fields at all; otherwise
/// translation x rotation x scale with absent components defaulted.
pub open spec fn spec_local_transform(n: crate::gltf::Node) -> Seq<u32> {
    match n.matrix {
        Some(mx) => mx@,
        None => if n.translation is None && n.rotation is None && n.scale is None {
            crate::transform::identity_bits()
        } else {
            crate::transform::trs_matrix(
                match n.translation {
                    Some(t) => t@,
                    None => default_translation(),
                },
                match n.rotation {
                    Some(q) => q@,
                    None => default_rotation(),
                },
                match n.scale {
                    Some(s) => s@,
                    None => default_scale(),
                },
            )
        },
    }
}

/// Computes a node's local transform. A node with no matrix, translation,
/// rotation or scale yields exactly the identity transform.
pub fn local_transform(n: &crate::gltf::Node) -> (r: crate::transform::Transform)
    ensures
        r@ == spec_local_transform(*n),
        (n.matrix is None && n.translation is None && n.rotation is None && n.scale is None)
            ==> r@ == crate::transform::identity_bits(),
{
    match &n.matrix {
        Some(mx) => crate::transform::Transform::from_mat4(*mx),
        None => {
            if n.translation.is_none() && n.rotation.is_none() && n.scale.is_none() {
                crate::transform::Transform::identity()
            } else {
                let t: [u32; 3] = match n.translation {
                    Some(t) => t,
                    None => [0, 0, 0],
                };
                let q: [u32; 4] = match n.rotation {
                    Some(q) => q,
                    None => [0, 0, 0, crate::transform::ONE_BITS],
                };
                let s: [u32; 3] = match n.scale {
                    Some(s) => s,
                    None => [
                        crate::transform::ONE_BITS,
                        crate::transform::ONE_BITS,
                        crate::transform::ONE_BITS,
                    ],
                };
                proof {
                    if n.translation is None {
                        assert(t@ =~= default_translation());
                    }
                    if n.rotation is None {
                        assert(q@ =~= default_rotation());
                    }
                    if n.scale is None {
                        assert(s@ =~= default_scale());
                    }
                }
                crate::transform::Transform::from_translation_rotation_scale(&t, &q, &s)
            }
        },
    }
}

/// Whether node `x` is referenced by the root list or a children list.
pub open spec fn spec_node_referenced(doc: Document, roots: Seq<usize>, x: int) -> bool {
    ||| roots.contains(x as usize)
    ||| exists|p: int, k: int|
        0 <= p < doc.nodes@.len() && 0 <= k < doc.nodes@[p].children@.len() && #[trigger] doc.nodes@[
        p].children@[k] == x as usize
}

/// Whether node `x` is referenced at least twice (counting repeats inside
/// one list), so the hierarchy cannot be a forest.
pub open spec fn spec_node_multiply_referenced(doc: Document, roots: Seq<usize>, x: int) -> bool {
    ||| exists|k1: int, k2: int|
        0 <= k1 < k2 < roots.len() && #[trigger] roots[k1] == x as usize && #[trigger] roots[k2]
            == x as usize
    ||| (roots.contains(x as usize) && exists|p: int, k: int|
        0 <= p < doc.nodes@.len() && 0 <= k < doc.nodes@[p].children@.len() && #[trigger] doc.nodes@[
        p].children@[k] == x as usize)
    ||| exists|p1: int, k1: int, p2: int, k2: int|
        0 <= p1 < doc.nodes@.len() && 0 <= k1 < doc.nodes@[p1].children@.len() && 0 <= p2
            < doc.nodes@.len() && 0 <= k2 < doc.nodes@[p2].children@.len() && (p1, k1) != (p2, k2)
            && #[trigger] doc.nodes@[p1].children@[k1] == x as usize && #[trigger] doc.nodes@[
        p2].children@[k2] == x as usize
}

/// The hierarchy references are all valid and form a forest shape: every
/// root and child index addresses a node and fits 16 bits, every node with
/// children fits 16 bits itself, and no node is referenced twice.
pub open spec fn spec_structure_ok(doc: Document, roots: Seq<usize>) -> bool {
    let n = doc.nodes@.len();
    &&& forall|k: int| 0 <= k < roots.len() ==> (#[trigger] roots[k]) < n && roots[k] < 0x10000
    &&& forall|p: int, k: int|
        0 <= p < n && 0 <= k < doc.nodes@[p].children@.len() ==> (#[trigger] doc.nodes@[
        p].children@[k]) < n && doc.nodes@[p].children@[k] < 0x10000
    &&& forall|p: int| 0 <= p < n && (#[trigger] doc.nodes@[p].children@.len()) > 0 ==> p
        < 0x10000
    &&& forall|x: int| 0 <= x < n ==> !spec_node_multiply_referenced(doc, roots, x)
}

/// The outcome of the structural scan: for each node, whether it is a
/// declared root, and the parent that references it, if one does.
struct NodeLinks {
    parent_of: Vec<Option<u16>>,
    is_root: Vec<bool>,
}

/// What the structural scan guarantees of its outcome: one slot per node,
/// roots flagged, and `parent_of` the exact inverse of the children lists.
spec fn links_wf(links: NodeLinks, doc: Document, roots: Seq<usize>) -> bool {
    let n = doc.nodes@.len();
    &&& links.parent_of@.len() == n
    &&& links.is_root@.len() == n
    &&& forall|k: int| 0 <= k < roots.len() ==> links.is_root@[(#[trigger] roots[k]) as int]
    &&& forall|x: int| 0 <= x < n && (#[trigger] links.is_root@[x]) ==> roots.contains(x as usize)
        && links.parent_of@[x] is None
    &&& forall|x: int|
        0 <= x < n && (#[trigger] links.parent_of@[x]) is Some ==> {
            let p = links.parent_of@[x].unwrap() as int;
            &&& 0 <= p < n
            &&& x < 0x10000
            &&& doc.nodes@[p].children@.contains(x as u16 as usize)
            &&& !links.is_root@[x]
        }
    &&& forall|p: int, k: int|
        0 <= p < n && 0 <= k < doc.nodes@[p].children@.len() ==> links.parent_of@[(
        #[trigger] doc.nodes@[p].children@[k]) as int] == Some(p as u16)
}

/// Scans the root list and every children list, rejecting out-of-budget,
/// dangling and repeated references, and records each node's unique parent.
fn validate_structure(doc: &Document, roots: &Vec<usize>) -> (r: Result<
    NodeLinks,
    ImportGltfError,
>)
    ensures
        match r {
            Ok(links) => spec_structure_ok(*doc, roots@) && links_wf(links, *doc, roots@),
            Err(e) => {
                let n = doc.nodes@.len();
                match e {
                    ImportGltfError::NodeIndexOutOfRange(x) => (x >= 0x10000
                        && spec_node_referenced(*doc, roots@, x as int)) || (x >= 0x10000 && x < n
                        && doc.nodes@[x as int].children@.len() > 0),
                    ImportGltfError::UnknownNodeIndex(x) => x >= n && spec_node_referenced(*doc,
                        roots@, x as int),
                    ImportGltfError::DuplicateNodeReference(x) => spec_node_multiply_referenced(
                        *doc,
                        roots@,
                        x as int,
                    ),
                    _ => false,
                }
            },
        },
{
    let n = doc.nodes.len();
    let mut parent_of: Vec<Option<u16>> = Vec::new();
    let mut is_root: Vec<bool> = Vec::new();
    let mut i: usize = 0;
    while i < n
        invariant
            0 <= i <= n,
            parent_of@.len() == i,
            is_root@.len() == i,
            forall|x: int| 0 <= x < i ==> (#[trigger] parent_of@[x]) is None,
            forall|x: int| 0 <= x < i ==> !(#[trigger] is_root@[x]),
        decreases n - i,
    {
        parent_of.push(None);
        is_root.push(false);
        i = i + 1;
    }
    let mut k: usize = 0;
    while k < roots.len()
        invariant
            n == doc.nodes@.len(),
            parent_of@.len() == n,
            is_root@.len() == n,
            0 <= k <= roots@.len(),
            forall|x: int| 0 <= x < n ==> (#[trigger] parent_of@[x]) is None,
            forall|j: int| 0 <= j < k ==> (#[trigger] roots@[j]) < n && roots@[j] < 0x10000,
            forall|j: int| 0 <= j < k ==> is_root@[(#[trigger] roots@[j]) as int],
            forall|x: int| 0 <= x < n && (#[trigger] is_root@[x]) ==> exists|j: int|
                0 <= j < k && roots@[j] == x as usize,
            forall|j1: int, j2: int| 0 <= j1 < j2 < k ==> (#[trigger] roots@[j1]) != (
            #[trigger] roots@[j2]),
        decreases roots@.len() - k,
    {
        let x = roots[k];
        if x >= 0x10000 {
            return Err(ImportGltfError::NodeIndexOutOfRange(x));
        }
        if x >= n {
            return Err(ImportGltfError::UnknownNodeIndex(x));
        }
        if is_root[x] {
            proof {
                let j = choose|j: int| 0 <= j < k && roots@[j] == x as usize;
                assert(0 <= j < k < roots@.len() && roots@[j] == x as usize && roots@[k as int]
                    == x as usize);
            }
            return Err(ImportGltfError::DuplicateNodeReference(x));
        }
        is_root[x] = true;
        k = k + 1;
    }
    let mut p: usize = 0;
    while p < n
        invariant
            n == doc.nodes@.len(),
            parent_of@.len() == n,
            is_root@.len() == n,
            0 <= p <= n,
            forall|j: int| 0 <= j < roots@.len() ==> (#[trigger] roots@[j]) < n && roots@[j]
                < 0x10000,
            forall|j: int| 0 <= j < roots@.len() ==> is_root@[(#[trigger] roots@[j]) as int],
            forall|x: int| 0 <= x < n && (#[trigger] is_root@[x]) ==> roots@.contains(x as usize),
            forall|j1: int, j2: int| 0 <= j1 < j2 < roots@.len() ==> (#[trigger] roots@[j1]) != (
            #[trigger] roots@[j2]),
            forall|q: int| 0 <= q < p && (#[trigger] doc.nodes@[q].children@.len()) > 0 ==> q
                < 0x10000,
            forall|q: int, j: int|
                0 <= q < p && 0 <= j < doc.nodes@[q].children@.len() ==> (#[trigger] doc.nodes@[
                q].children@[j]) < n && doc.nodes@[q].children@[j] < 0x10000,
            forall|q: int, j: int|
                0 <= q < p && 0 <= j < doc.nodes@[q].children@.len() ==> parent_of@[(
                #[trigger] doc.nodes@[q].children@[j]) as int] == Some(q as u16),
            forall|x: int|
                0 <= x < n && (#[trigger] parent_of@[x]) is Some ==> {
                    let q = parent_of@[x].unwrap() as int;
                    &&& 0 <= q < p
                    &&& x < 0x10000
                    &&& doc.nodes@[q].children@.contains(x as u16 as usize)
                    &&& !is_root@[x]
                },
            forall|x: int| 0 <= x < n && (#[trigger] is_root@[x]) ==> parent_of@[x] is None,
            forall|q1: int, j1: int, q2: int, j2: int|
                0 <= q1 < p && 0 <= j1 < doc.nodes@[q1].children@.len() && 0 <= q2 < p && 0 <= j2
                    < doc.nodes@[q2].children@.len() && (q1, j1) != (q2, j2) ==> (
                #[trigger] doc.nodes@[q1].children@[j1]) != (#[trigger] doc.nodes@[
                q2].children@[j2]),
        decreases n - p,
    {
        let child_count = doc.nodes[p].children.len();
        if child_count > 0 && p >= 0x10000 {
            return Err(ImportGltfError::NodeIndexOutOfRange(p));
        }
        let mut j: usize = 0;
        while j < child_count
            invariant
                n == doc.nodes@.len(),
                parent_of@.len() == n,
                is_root@.len() == n,
                0 <= p < n,
                p < 0x10000 || child_count == 0,
                child_count == doc.nodes@[p as int].children@.len(),
                0 <= j <= child_count,
                forall|x: int| 0 <= x < n && (#[trigger] is_root@[x]) ==> roots@.contains(
                    x as usize,
                ),
                forall|q: int, jj: int|
                    0 <= q < p && 0 <= jj < doc.nodes@[q].children@.len() ==> (
                    #[trigger] doc.nodes@[q].children@[jj]) < n && doc.nodes@[q].children@[jj]
                        < 0x10000,
                forall|jj: int| 0 <= jj < j ==> (#[trigger] doc.nodes@[p as int].children@[jj])
                    < n && doc.nodes@[p as int].children@[jj] < 0x10000,
                forall|q: int, jj: int|
                    0 <= q < p && 0 <= jj < doc.nodes@[q].children@.len() ==> parent_of@[(
                    #[trigger] doc.nodes@[q].children@[jj]) as int] == Some(q as u16),
                forall|jj: int| 0 <= jj < j ==> parent_of@[(#[trigger] doc.nodes@[
                p as int].children@[jj]) as int] == Some(p as u16),
                forall|x: int|
                    0 <= x < n && (#[trigger] parent_of@[x]) is Some ==> {
                        let q = parent_of@[x].unwrap() as int;
                        &&& 0 <= q <= p
                        &&& (q == p as int ==> exists|jj: int|
                            0 <= jj < j && doc.nodes@[p as int].children@[jj] == x as usize)
                        &&& x < 0x10000
                        &&& doc.nodes@[q].children@.contains(x as u16 as usize)
                        &&& !is_root@[x]
                    },
                forall|x: int| 0 <= x < n && (#[trigger] is_root@[x]) ==> parent_of@[x] is None,
                forall|q1: int, j1: int, q2: int, j2: int|
                    0 <= q1 < p && 0 <= j1 < doc.nodes@[q1].children@.len() && 0 <= q2 < p && 0
                        <= j2 < doc.nodes@[q2].children@.len() && (q1, j1) != (q2, j2) ==> (
                    #[trigger] doc.nodes@[q1].children@[j1]) != (#[trigger] doc.nodes@[
                    q2].children@[j2]),
                forall|q1: int, j1: int, j2: int|
                    0 <= q1 < p && 0 <= j1 < doc.nodes@[q1].children@.len() && 0 <= j2 < j && (
                    #[trigger] doc.nodes@[q1].children@[j1]) == (#[trigger] doc.nodes@[
                    p as int].children@[j2]) ==> false,
                forall|j1: int, j2: int| 0 <= j1 < j2 < j ==> (#[trigger] doc.nodes@[
                p as int].children@[j1]) != (#[trigger] doc.nodes@[p as int].children@[j2]),
            decreases child_count - j,
        {
            let c = doc.nodes[p].children[j];
            if c >= 0x10000 {
                return Err(ImportGltfError::NodeIndexOutOfRange(c));
            }
            if c >= n {
                return Err(ImportGltfError::UnknownNodeIndex(c));
            }
            if is_root[c] {
                proof {
                    assert(roots@.contains(c as usize));
                    assert(spec_node_multiply_referenced(*doc, roots@, c as int));
                }
                return Err(ImportGltfError::DuplicateNodeReference(c));
            }
            if parent_of[c].is_some() {
                proof {
                    let x = c as int;
                    let q = parent_of@[x].unwrap() as int;
                    if q == p as int {
                        let jj = choose|jj: int|
                            0 <= jj < j && doc.nodes@[p as int].children@[jj] == c as usize;
                        assert(doc.nodes@[p as int].children@[jj] == c as usize && doc.nodes@[
                        p as int].children@[j as int] == c as usize && jj != j as int);
                        assert(spec_node_multiply_referenced(*doc, roots@, c as int));
                    } else {
                        let jj = choose|jj: int|
                            0 <= jj < doc.nodes@[q].children@.len() && doc.nodes@[q].children@[jj]
                                == c as u16 as usize;
                        assert(doc.nodes@[q].children@[jj] == c as usize && doc.nodes@[
                        p as int].children@[j as int] == c as usize && (q, jj) != (
                        p as int,
                        j as int,
                        ));
                        assert(spec_node_multiply_referenced(*doc, roots@, c as int));
                    }
                }
                return Err(ImportGltfError::DuplicateNodeReference(c));
            }
            parent_of[c] = Some(p as u16);
            j = j + 1;
        }
        p = p + 1;
    }
    proof {
        assert forall|x: int| 0 <= x < n implies !spec_node_multiply_referenced(*doc, roots@, x)
            by {
            if spec_node_multiply_referenced(*doc, roots@, x) {
                assert(false);
            }
        }
    }
    Ok(NodeLinks { parent_of, is_root })
}

/// Whether node `i` can be reached from the root set in at most `f` hops
/// along children lists.
pub open spec fn spec_reachable_fuel(doc: Document, roots: Seq<usize>, i: int, f: nat) -> bool
    decreases f,
{
    if roots.contains(i as usize) {
        true
    } else if f == 0 {
        false
    } else {
        exists|p: int, k: int|
            0 <= p < doc.nodes@.len() && 0 <= k < doc.nodes@[p].children@.len()
                && #[trigger] doc.nodes@[p].children@[k] == i as usize && spec_reachable_fuel(
                doc,
                roots,
                p,
                (f - 1) as nat,
            )
    }
}

/// Whether node `i` is in the scene: reachable from the declared root set.
pub open spec fn spec_reachable(doc: Document, roots: Seq<usize>, i: int) -> bool {
    exists|f: nat| spec_reachable_fuel(doc, roots, i, f)
}

/// A visited table that covers the roots and is closed under children
/// covers everything reachable.
proof fn lemma_reachable_visited(
    doc: Document,
    roots: Seq<usize>,
    vis: Seq<bool>,
    i: int,
    f: nat,
)
    requires
        vis.len() == doc.nodes@.len(),
        forall|j: int| 0 <= j < roots.len() && (#[trigger] roots[j]) < doc.nodes@.len()
            ==> vis[roots[j] as int],
        forall|k: int| 0 <= k < roots.len() ==> (#[trigger] roots[k]) < doc.nodes@.len(),
        forall|p: int, k: int|
            0 <= p < doc.nodes@.len() && vis[p] && 0 <= k < doc.nodes@[p].children@.len() && (
            #[trigger] doc.nodes@[p].children@[k]) < doc.nodes@.len() ==> vis[doc.nodes@[
        p].children@[k] as int],
        forall|p: int, k: int|
            0 <= p < doc.nodes@.len() && 0 <= k < doc.nodes@[p].children@.len() ==> (
            #[trigger] doc.nodes@[p].children@[k]) < doc.nodes@.len(),
        spec_reachable_fuel(doc, roots, i, f),
        0 <= i < doc.nodes@.len(),
        doc.nodes@.len() <= usize::MAX,
    ensures
        vis[i],
    decreases f,
{
    if roots.contains(i as usize) {
        let j = choose|j: int| 0 <= j < roots.len() && roots[j] == i as usize;
        assert(vis[roots[j] as int]);
    } else {
        let (p, k) = choose|p: int, k: int|
            0 <= p < doc.nodes@.len() && 0 <= k < doc.nodes@[p].children@.len()
                && #[trigger] doc.nodes@[p].children@[k] == i as usize && spec_reachable_fuel(
                doc,
                roots,
                p,
                (f - 1) as nat,
            );
        lemma_reachable_visited(doc, roots, vis, p, (f - 1) as nat);
    }
}

/// Marks every node reachable from the root set, and returns a ranking in
/// which every visited node stands strictly above its recorded parent.
fn reachable_set(doc: &Document, roots: &Vec<usize>, links: &NodeLinks) -> (r: (
    Vec<bool>,
    Ghost<Map<int, nat>>,
))
    requires
        spec_structure_ok(*doc, roots@),
        links_wf(*links, *doc, roots@),
    ensures
        ({
            let (vis, rank) = r;
            let n = doc.nodes@.len();
            &&& vis@.len() == n
            &&& forall|i: int| 0 <= i < n ==> ((#[trigger] vis@[i]) <==> spec_reachable(*doc,
                roots@, i))
            &&& forall|p: int, k: int|
                0 <= p < n && vis@[p] && 0 <= k < doc.nodes@[p].children@.len() ==> vis@[(
                #[trigger] doc.nodes@[p].children@[k]) as int]
            &&& forall|i: int|
                0 <= i < n && (#[trigger] vis@[i]) ==> {
                    &&& rank@.contains_key(i)
                    &&& rank@[i] < n
                    &&& match links.parent_of@[i] {
                        Some(q) => vis@[q as int] && rank@.contains_key(q as int) && rank@[
                            q as int] < rank@[i],
                        None => true,
                    }
                }
        }),
{
    let n = doc.nodes.len();
    let mut vis: Vec<bool> = Vec::new();
    let mut i: usize = 0;
    while i < n
        invariant
            0 <= i <= n,
            vis@.len() == i,
            forall|x: int| 0 <= x < i ==> !(#[trigger] vis@[x]),
        decreases n - i,
    {
        vis.push(false);
        i = i + 1;
    }
    let mut stack: Vec<usize> = Vec::new();
    let ghost mut seen: Set<int> = Set::empty();
    let mut k: usize = 0;
    while k < roots.len()
        invariant
            spec_structure_ok(*doc, roots@),
            links_wf(*links, *doc, roots@),
            n == doc.nodes@.len(),
            vis@.len() == n,
            0 <= k <= roots@.len(),
            seen.finite(),
            seen.len() == stack@.len(),
            seen.len() <= n,
            forall|x: int| seen.contains(x) ==> 0 <= x < n,
            forall|x: int| 0 <= x < n ==> ((#[trigger] vis@[x]) <==> seen.contains(x)),
            forall|j: int| 0 <= j < stack@.len() ==> (#[trigger] stack@[j]) < n && seen.contains(
                stack@[j] as int,
            ),
            forall|j1: int, j2: int| 0 <= j1 < j2 < stack@.len() ==> (#[trigger] stack@[j1]) != (
            #[trigger] stack@[j2]),
            forall|j: int| 0 <= j < k ==> seen.contains((#[trigger] roots@[j]) as int),
            forall|x: int| seen.contains(x) ==> spec_reachable(*doc, roots@, x),
            forall|j: int| 0 <= j < stack@.len() ==> links.parent_of@[(#[trigger] stack@[
            j]) as int] is None,
        decreases roots@.len() - k,
    {
        let x = roots[k];
        if !vis[x] {
            vis[x] = true;
            stack.push(x);
            proof {
                assert(!seen.contains(x as int));
                seen = seen.insert(x as int);
                assert(spec_reachable_fuel(*doc, roots@, x as int, 0));
                vstd::set_lib::lemma_int_range(0, n as int);
                assert(seen.subset_of(vstd::set_lib::set_int_range(0, n as int)));
                vstd::set_lib::lemma_len_subset(seen, vstd::set_lib::set_int_range(0, n as int));
            }
        } else {
            proof {
                assert(seen.contains(x as int));
            }
        }
        k = k + 1;
    }
    let ghost mut popped: Set<int> = Set::empty();
    let ghost mut rank: Map<int, nat> = Map::empty();
    let ghost mut pc: nat = 0;
    loop
        invariant
            spec_structure_ok(*doc, roots@),
            links_wf(*links, *doc, roots@),
            n == doc.nodes@.len(),
            vis@.len() == n,
            seen.finite(),
            popped.finite(),
            popped.len() == pc,
            seen.len() == pc + stack@.len(),
            seen.len() <= n,
            forall|x: int| seen.contains(x) ==> 0 <= x < n,
            forall|x: int| popped.contains(x) ==> seen.contains(x),
            forall|x: int| 0 <= x < n ==> ((#[trigger] vis@[x]) <==> seen.contains(x)),
            forall|j: int| 0 <= j < stack@.len() ==> (#[trigger] stack@[j]) < n && seen.contains(
                stack@[j] as int,
            ) && !popped.contains(stack@[j] as int),
            forall|j1: int, j2: int| 0 <= j1 < j2 < stack@.len() ==> (#[trigger] stack@[j1]) != (
            #[trigger] stack@[j2]),
            forall|j: int| 0 <= j < roots@.len() ==> seen.contains((#[trigger] roots@[j]) as int),
            forall|x: int| seen.contains(x) ==> spec_reachable(*doc, roots@, x),
            forall|j: int|
                0 <= j < stack@.len() ==> match links.parent_of@[(#[trigger] stack@[j]) as int] {
                    Some(q) => popped.contains(q as int),
                    None => true,
                },
            forall|x: int|
                popped.contains(x) ==> {
                    &&& rank.contains_key(x)
                    &&& rank[x] < pc
                    &&& match links.parent_of@[x] {
                        Some(q) => popped.contains(q as int) && rank.contains_key(q as int)
                            && rank[q as int] < rank[x],
                        None => true,
                    }
                },
            forall|p: int, k2: int|
                popped.contains(p) && 0 <= k2 < doc.nodes@[p].children@.len() ==> seen.contains((
                #[trigger] doc.nodes@[p].children@[k2]) as int),
        ensures
            stack@.len() == 0,
            seen.finite(),
            popped.finite(),
            popped.len() == pc,
            seen.len() == pc,
            forall|x: int| seen.contains(x) ==> 0 <= x < n,
            forall|x: int| popped.contains(x) ==> seen.contains(x),
            forall|x: int| 0 <= x < n ==> ((#[trigger] vis@[x]) <==> seen.contains(x)),
            forall|x: int| seen.contains(x) ==> spec_reachable(*doc, roots@, x),
            forall|x: int|
                popped.contains(x) ==> {
                    &&& rank.contains_key(x)
                    &&& rank[x] < pc
                    &&& match links.parent_of@[x] {
                        Some(q) => popped.contains(q as int) && rank.contains_key(q as int)
                            && rank[q as int] < rank[x],
                        None => true,
                    }
                },
            forall|p: int, k2: int|
                popped.contains(p) && 0 <= k2 < doc.nodes@[p].children@.len() ==> seen.contains((
                #[trigger] doc.nodes@[p].children@[k2]) as int),
        decreases 2 * (n - pc) - stack@.len(),
    {
        let x = match stack.pop() {
            Some(x) => x,
            None => {
                break;
            },
        };
        proof {
            assert(!popped.contains(x as int));
            rank = rank.insert(x as int, pc);
            popped = popped.insert(x as int);
            pc = pc + 1;
        }
        let child_count = doc.nodes[x].children.len();
        let ghost s0 = stack@.len();
        let mut j: usize = 0;
        while j < child_count
            invariant
                stack@.len() >= s0,
                spec_structure_ok(*doc, roots@),
                links_wf(*links, *doc, roots@),
                n == doc.nodes@.len(),
                vis@.len() == n,
                x < n,
                popped.contains(x as int),
                child_count == doc.nodes@[x as int].children@.len(),
                0 <= j <= child_count,
                seen.finite(),
                popped.finite(),
                popped.len() == pc,
                pc >= 1,
                seen.len() == pc + stack@.len(),
                seen.len() <= n,
                forall|x2: int| seen.contains(x2) ==> 0 <= x2 < n,
                forall|x2: int| popped.contains(x2) ==> seen.contains(x2),
                forall|x2: int| 0 <= x2 < n ==> ((#[trigger] vis@[x2]) <==> seen.contains(x2)),
                forall|jj: int| 0 <= jj < stack@.len() ==> (#[trigger] stack@[jj]) < n
                    && seen.contains(stack@[jj] as int) && !popped.contains(stack@[jj] as int),
                forall|j1: int, j2: int| 0 <= j1 < j2 < stack@.len() ==> (#[trigger] stack@[
                j1]) != (#[trigger] stack@[j2]),
                forall|jj: int| 0 <= jj < roots@.len() ==> seen.contains((#[trigger] roots@[
                jj]) as int),
                forall|x2: int| seen.contains(x2) ==> spec_reachable(*doc, roots@, x2),
                forall|jj: int|
                    0 <= jj < stack@.len() ==> match links.parent_of@[(#[trigger] stack@[
                    jj]) as int] {
                        Some(q) => popped.contains(q as int),
                        None => true,
                    },
                forall|x2: int|
                    popped.contains(x2) ==> {
                        &&& rank.contains_key(x2)
                        &&& rank[x2] < pc
                        &&& match links.parent_of@[x2] {
                            Some(q) => popped.contains(q as int) && rank.contains_key(q as int)
                                && rank[q as int] < rank[x2],
                            None => true,
                        }
                    },
                forall|p: int, k2: int|
                    popped.contains(p) && p != x as int && 0 <= k2 < doc.nodes@[
                    p].children@.len() ==> seen.contains((#[trigger] doc.nodes@[
                    p].children@[k2]) as int),
                forall|k2: int| 0 <= k2 < j ==> seen.contains((#[trigger] doc.nodes@[
                x as int].children@[k2]) as int),
            decreases child_count - j,
        {
            let c = doc.nodes[x].children[j];
            proof {
                assert(c < n);
                assert(links.parent_of@[c as int] == Some(x as u16));
            }
            if !vis[c] {
                vis[c] = true;
                stack.push(c);
                proof {
                    assert(!seen.contains(c as int));
                    let f = choose|f: nat| spec_reachable_fuel(*doc, roots@, x as int, f);
                    assert(spec_reachable_fuel(*doc, roots@, x as int, f));
                    assert(spec_reachable_fuel(*doc, roots@, c as int, f + 1));
                    seen = seen.insert(c as int);
                    vstd::set_lib::lemma_int_range(0, n as int);
                    assert(seen.subset_of(vstd::set_lib::set_int_range(0, n as int)));
                    vstd::set_lib::lemma_len_subset(seen, vstd::set_lib::set_int_range(
                        0,
                        n as int,
                    ));
                }
            }
            j = j + 1;
        }
        proof {
            assert(seen.len() == pc + stack@.len());
            assert(seen.len() <= n);
            assert(stack@.len() <= n - pc);
        }
    }
    proof {
        assert forall|x: int| seen.contains(x) implies popped.contains(x) by {
            if !popped.contains(x) {
                assert(popped.subset_of(seen.remove(x)));
                vstd::set_lib::lemma_len_subset(popped, seen.remove(x));
                assert(seen.remove(x).len() == seen.len() - 1);
            }
        }
        assert forall|i2: int| 0 <= i2 < n && spec_reachable(*doc, roots@, i2) implies vis@[i2]
            by {
            let f = choose|f: nat| spec_reachable_fuel(*doc, roots@, i2, f);
            assert(spec_reachable_fuel(*doc, roots@, i2, f));
            lemma_reachable_visited(*doc, roots@, vis@, i2, f);
        }
        assert forall|p: int, k2: int|
            0 <= p < n && vis@[p] && 0 <= k2 < doc.nodes@[p].children@.len() implies vis@[(
            doc.nodes@[p].children@[k2]) as int] by {
            assert(seen.contains(p));
            assert(popped.contains(p));
            assert(seen.contains(doc.nodes@[p].children@[k2] as int));
        }
        assert forall|i2: int| 0 <= i2 < n && vis@[i2] implies {
            &&& rank.contains_key(i2)
            &&& rank[i2] < n
            &&& match links.parent_of@[i2] {
                Some(q) => vis@[q as int] && rank.contains_key(q as int) && rank[q as int]
                    < rank[i2],
                None => true,
            }
        } by {
            assert(seen.contains(i2));
            assert(popped.contains(i2));
            assert(rank[i2] < pc);
            assert(pc == seen.len() <= n);
            match links.parent_of@[i2] {
                Some(q) => {
                    assert(popped.contains(q as int));
                    assert(seen.contains(q as int));
                },
                None => {},
            }
        }
    }
    (vis, Ghost(rank))
}

/// Whether skin `s` passes every import check: a valid index, joints and
/// skeleton inside the node array and the 16-bit budget, and inverse-bind
/// matrices (when referenced) stored as one mat4 per joint.
pub open spec fn spec_skin_ok(doc: Document, buffers: Seq<Seq<u8>>, s: int) -> bool {
    &&& 0 <= s < doc.skins@.len()
    &&& {
        let sk = doc.skins@[s];
        &&& forall|j: int| 0 <= j < sk.joints@.len() ==> (#[trigger] sk.joints@[j])
            < doc.nodes@.len() && sk.joints@[j] < 0x10000
        &&& match sk.skeleton {
            Some(r) => r < doc.nodes@.len() && r < 0x10000,
            None => true,
        }
        &&& match sk.inverse_bind_matrices {
            Some(a) => spec_accessor_check(doc, buffers, a as int, 5126, AccessorType::Mat4, 64)
                is None && doc.accessors@[a as int].count == sk.joints@.len(),
            None => true,
        }
    }
}

/// Whether `e` is a genuine defect of skin `s`.
pub open spec fn spec_skin_err_matches(
    doc: Document,
    buffers: Seq<Seq<u8>>,
    s: int,
    e: ImportGltfError,
) -> bool {
    if s < 0 || s >= doc.skins@.len() {
        e == ImportGltfError::UnknownSkinIndex(s as usize)
    } else {
        let sk = doc.skins@[s];
        match e {
            ImportGltfError::NodeIndexOutOfRange(x) => x >= 0x10000 && (sk.joints@.contains(x)
                || sk.skeleton == Some(x)),
            ImportGltfError::UnknownNodeIndex(x) => x >= doc.nodes@.len() && (sk.joints@.contains(
                x,
            ) || sk.skeleton == Some(x)),
            ImportGltfError::UnsupportedAccessorFormat(a) => sk.inverse_bind_matrices == Some(a)
                && (spec_accessor_check(doc, buffers, a as int, 5126, AccessorType::Mat4, 64)
                == Some(ImportGltfError::UnsupportedAccessorFormat(a)) || (spec_accessor_check(
                doc,
                buffers,
                a as int,
                5126,
                AccessorType::Mat4,
                64,
            ) is None && doc.accessors@[a as int].count != sk.joints@.len())),
            _ => match sk.inverse_bind_matrices {
                Some(a) => spec_accessor_check(doc, buffers, a as int, 5126, AccessorType::Mat4,
                    64) == Some(e),
                None => false,
            },
        }
    }
}

/// Whether `sk` holds exactly the imported form of document skin `s`: the
/// joint list narrowed to 16 bits, the optional skeleton root, and one
/// inverse-bind matrix per joint — decoded from the referenced accessor, or
/// the identity when the document omits them.
pub open spec fn skin_matches(sk: crate::Skin, doc: Document, buffers: Seq<Seq<u8>>, s: int) -> bool {
    let dsk = doc.skins@[s];
    &&& sk.joints@.len() == dsk.joints@.len()
    &&& forall|j: int| 0 <= j < sk.joints@.len() ==> (#[trigger] sk.joints@[j]) == dsk.joints@[
    j] as u16
    &&& match dsk.skeleton {
        Some(r) => sk.skeleton == Some(r as u16),
        None => sk.skeleton is None,
    }
    &&& sk.inverse_bind_matrices@.len() == dsk.joints@.len()
    &&& match dsk.inverse_bind_matrices {
        Some(a) => forall|j: int, c: int|
            0 <= j < sk.inverse_bind_matrices@.len() && 0 <= c < 16 ==> (
            #[trigger] sk.inverse_bind_matrices@[j]@[c]) == u32_le_at(
                spec_accessor_data(doc, buffers, a as int),
                spec_accessor_start(doc, a as int) + j * 64 + c * 4,
            ),
        None => forall|j: int| 0 <= j < sk.inverse_bind_matrices@.len() ==> (
        #[trigger] sk.inverse_bind_matrices@[j])@ == crate::transform::identity_bits(),
    }
}

/// Builds one node's skin: joint indices, optional skeleton root, and the
/// inverse-bind matrices, defaulted to identities when the source has none.
fn build_skin(doc: &Document, buffers: &Vec<Vec<u8>>, s: usize) -> (r: Result<
    crate::Skin,
    ImportGltfError,
>)
    ensures
        match r {
            Ok(sk) => {
                &&& spec_skin_ok(*doc, buffers.deep_view(), s as int)
                &&& sk.wf()
                &&& skin_matches(sk, *doc, buffers.deep_view(), s as int)
            },
            Err(e) => {
                &&& !spec_skin_ok(*doc, buffers.deep_view(), s as int)
                &&& spec_skin_err_matches(*doc, buffers.deep_view(), s as int, e)
            },
        },
{
    if s >= doc.skins.len() {
        return Err(ImportGltfError::UnknownSkinIndex(s));
    }
    let dsk = &doc.skins[s];
    let joint_count = dsk.joints.len();
    let mut joints: Vec<u16> = Vec::new();
    let mut j: usize = 0;
    while j < joint_count
        invariant
            s < doc.skins@.len(),
            dsk == &doc.skins@[s as int],
            joint_count == dsk.joints@.len(),
            0 <= j <= joint_count,
            joints@.len() == j,
            forall|q: int| 0 <= q < j ==> (#[trigger] dsk.joints@[q]) < doc.nodes@.len()
                && dsk.joints@[q] < 0x10000,
            forall|q: int| 0 <= q < j ==> (#[trigger] joints@[q]) == dsk.joints@[q] as u16,
        decreases joint_count - j,
    {
        let x = dsk.joints[j];
        if x >= 0x10000 {
            return Err(ImportGltfError::NodeIndexOutOfRange(x));
        }
        if x >= doc.nodes.len() {
            return Err(ImportGltfError::UnknownNodeIndex(x));
        }
        joints.push(x as u16);
        j = j + 1;
    }
    let skeleton: Option<u16> = match dsk.skeleton {
        Some(x) => {
            if x >= 0x10000 {
                return Err(ImportGltfError::NodeIndexOutOfRange(x));
            }
            if x >= doc.nodes.len() {
                return Err(ImportGltfError::UnknownNodeIndex(x));
            }
            Some(x as u16)
        },
        None => None,
    };
    let inverse_bind_matrices: Vec<crate::transform::Transform> = match dsk.inverse_bind_matrices {
        Some(a) => {
            let mats = match read_mat4_accessor(doc, buffers, a) {
                Ok(v) => v,
                Err(e) => {
                    return Err(e);
                },
            };
            if mats.len() != joint_count {
                return Err(ImportGltfError::UnsupportedAccessorFormat(a));
            }
            let mut out: Vec<crate::transform::Transform> = Vec::new();
            let mut q: usize = 0;
            while q < joint_count
                invariant
                    joint_count == mats@.len(),
                    0 <= q <= joint_count,
                    out@.len() == q,
                    forall|jj: int| 0 <= jj < q ==> (#[trigger] out@[jj])@ == mats@[jj]@,
                decreases joint_count - q,
            {
                out.push(crate::transform::Transform::from_mat4(mats[q]));
                q = q + 1;
            }
            out
        },
        None => {
            let mut out: Vec<crate::transform::Transform> = Vec::new();
            let mut q: usize = 0;
            while q < joint_count
                invariant
                    0 <= q <= joint_count,
                    out@.len() == q,
                    forall|jj: int| 0 <= jj < q ==> (#[trigger] out@[jj])@
                        == crate::transform::identity_bits(),
                decreases joint_count - q,
            {
                out.push(crate::transform::Transform::identity());
                q = q + 1;
            }
            out
        },
    };
    Ok(crate::Skin { joints, skeleton, inverse_bind_matrices })
}

/// Decodes every image of the document, in order.
fn load_images(doc: &Document, buffers: &Vec<Vec<u8>>, files: &Vec<Option<Vec<u8>>>) -> (r: Result<
    Vec<(Vec<u8>, u32, u32)>,
    ImportGltfError,
>)
    ensures
        match r {
            Ok(images) => {
                &&& images@.len() == doc.images@.len()
                &&& forall|i: int|
                    0 <= i < images@.len() ==> spec_image_ok(*doc, buffers.deep_view(),
                        files.deep_view(), i) == Some(
                        ((#[trigger] images@[i]).0@, images@[i].1, images@[i].2),
                    ) && images@[i].0@.len() == 4 * images@[i].1 * images@[i].2
            },
            Err(e) => exists|i: int|
                0 <= i < doc.images@.len() && (#[trigger] spec_image_ok(*doc,
                    buffers.deep_view(), files.deep_view(), i)) is None
                    && spec_image_err_matches(*doc, buffers.deep_view(), files.deep_view(), i, e),
        },
{
    let n = doc.images.len();
    let mut images: Vec<(Vec<u8>, u32, u32)> = Vec::new();
    let mut i: usize = 0;
    while i < n
        invariant
            n == doc.images@.len(),
            0 <= i <= n,
            images@.len() == i,
            forall|q: int|
                0 <= q < i ==> spec_image_ok(*doc, buffers.deep_view(), files.deep_view(), q)
                    == Some(((#[trigger] images@[q]).0@, images@[q].1, images@[q].2))
                    && images@[q].0@.len() == 4 * images@[q].1 * images@[q].2,
        decreases n - i,
    {
        match import_image(doc, buffers, files, i) {
            Ok(t) => {
                images.push(t);
            },
            Err(e) => {
                return Err(e);
            },
        }
        i = i + 1;
    }
    Ok(images)
}

/// What splitting a binary glTF container yields: the JSON chunk's bytes
/// and, when a binary chunk follows, its bytes. `None` when the bytes are
/// not a well-formed container: too short, wrong magic or version, a first
/// chunk that is not JSON, or a chunk that overruns the data.
pub open spec fn spec_parse_glb(b: Seq<u8>) -> Option<(Seq<u8>, Option<Seq<u8>>)> {
    if b.len() < 20 {
        None
    } else if u32_le_at(b, 0) != 0x46546C67 || u32_le_at(b, 4) != 2 {
        None
    } else {
        let json_len = u32_le_at(b, 12) as int;
        if u32_le_at(b, 16) != 0x4E4F534A || 20 + json_len > b.len() {
            None
        } else {
            let json = b.subrange(20, 20 + json_len);
            let next = 20 + json_len + ((4 - (json_len % 4)) % 4);
            if next + 8 > b.len() {
                Some((json, None))
            } else {
                let bin_len = u32_le_at(b, next) as int;
                if u32_le_at(b, next + 4) != 0x004E4942 {
                    Some((json, None))
                } else if next + 8 + bin_len > b.len() {
                    None
                } else {
                    Some((json, Some(b.subrange(next + 8, next + 8 + bin_len))))
                }
            }
        }
    }
}

/// Splits a binary glTF container into its JSON chunk and optional binary
/// chunk. Succeeds exactly when the bytes form a version-2 container whose
/// declared chunks fit.
pub fn parse_glb(bytes: &[u8]) -> (r: Result<(Vec<u8>, Option<Vec<u8>>), ImportGltfError>)
    ensures
        match r {
            Ok(p) => spec_parse_glb(bytes@) == Some(
                (p.0@, match p.1 {
                    Some(bin) => Some(bin@),
                    None => None,
                }),
            ),
            Err(e) => spec_parse_glb(bytes@) is None && e matches ImportGltfError::GltfError(_),
        },
{
    let n = bytes.len();
    if n < 20 {
        return Err(ImportGltfError::GltfError(String::from_str("binary container too short")));
    }
    if read_u32_le(bytes, 0) != 0x46546C67 {
        return Err(ImportGltfError::GltfError(String::from_str("not a binary container")));
    }
    if read_u32_le(bytes, 4) != 2 {
        return Err(ImportGltfError::GltfError(String::from_str("unsupported container version")));
    }
    let json_len = read_u32_le(bytes, 12) as usize;
    if read_u32_le(bytes, 16) != 0x4E4F534A {
        return Err(ImportGltfError::GltfError(String::from_str("first chunk is not JSON")));
    }
    if json_len > n - 20 {
        return Err(ImportGltfError::GltfError(String::from_str("JSON chunk overruns the data")));
    }
    let json = vstd::slice::slice_to_vec(vstd::slice::slice_subrange(bytes, 20, 20 + json_len));
    let pad = (4 - (json_len % 4)) % 4;
    let base = 20 + json_len;
    if pad > n - base {
        return Ok((json, None));
    }
    let next = base + pad;
    if 8 > n - next {
        return Ok((json, None));
    }
    let bin_len = read_u32_le(bytes, next) as usize;
    if read_u32_le(bytes, next + 4) != 0x004E4942 {
        return Ok((json, None));
    }
    if bin_len > n - next - 8 {
        return Err(ImportGltfError::GltfError(String::from_str(
            "binary chunk overruns the data",
        )));
    }
    let bin = vstd::slice::slice_to_vec(vstd::slice::slice_subrange(bytes, next + 8,
        next + 8 + bin_len));
    Ok((json, Some(bin)))
}

/// Whether node `i`'s own resources pass every import check.
pub open spec fn spec_node_import_ok(doc: Document, bufs: Seq<Seq<u8>>, i: int) -> bool {
    let dn = doc.nodes@[i];
    &&& match dn.mesh {
        Some(mi) => mi < doc.meshes@.len() && forall|k: int|
            0 <= k < doc.meshes@[mi as int].primitives@.len() ==> primitive_ok(doc, bufs,
                doc.images@.len() as int, mi as int, k),
        None => true,
    }
    &&& match dn.skin {
        Some(s) => spec_skin_ok(doc, bufs, s as int),
        None => true,
    }
}

/// The exact condition under which an import succeeds: the default scene's
/// buffers resolve, every image decodes, the hierarchy references form a
/// forest within the 16-bit budget, and every reachable node's mesh and
/// skin data check out.
pub open spec fn spec_import_ok(
    doc: Document,
    blob: Option<Seq<u8>>,
    bfiles: Seq<Option<Seq<u8>>>,
    ifiles: Seq<Option<Seq<u8>>>,
) -> bool {
    match doc.spec_default_scene() {
        None => false,
        Some(sc) => match spec_load_buffers(doc.buffers@, bfiles, blob, 0) {
            Err(_) => false,
            Ok(p) => {
                let bufs = p.0;
                &&& forall|i: int| 0 <= i < doc.images@.len() ==> (#[trigger] spec_image_ok(doc,
                    bufs, ifiles, i)) is Some
                &&& spec_structure_ok(doc, sc.nodes@)
                &&& forall|i: int|
                    0 <= i < doc.nodes@.len() && spec_reachable(doc, sc.nodes@, i)
                        ==> #[trigger] spec_node_import_ok(doc, bufs, i)
            },
        },
    }
}

/// Whether `node` is exactly the imported form of document node `i`.
pub open spec fn imported_node_matches(
    node: crate::Node,
    doc: Document,
    bufs: Seq<Seq<u8>>,
    i: int,
) -> bool {
    let dn = doc.nodes@[i];
    &&& node.children@.len() == dn.children@.len()
    &&& forall|k: int| 0 <= k < node.children@.len() ==> (#[trigger] node.children@[k])
        == dn.children@[k] as u16
    &&& node.transform@ == spec_local_transform(dn)
    &&& match dn.mesh {
        Some(mi) => node.meshes@.len() == doc.meshes@[mi as int].primitives@.len(),
        None => node.meshes@.len() == 0,
    }
    &&& match dn.skin {
        Some(s) => node.skin matches Some(sk) && sk.wf() && skin_matches(sk, doc, bufs, s as int),
        None => node.skin is None,
    }
    &&& match dn.name {
        Some(nm) => node.name matches Some(nm2) && nm2@ == nm@,
        None => node.name is None,
    }
}

/// A node outside the imported scene: an inert placeholder slot.
pub open spec fn placeholder_node(node: crate::Node) -> bool {
    &&& node.parent is None
    &&& node.children@.len() == 0
    &&& node.transform@ == crate::transform::identity_bits()
    &&& node.meshes@.len() == 0
    &&& node.skin is None
    &&& node.name is None
}

/// Everything an import hands back: the scene and the catalogs its handles
/// point into.
pub struct ImportOutput {
    pub scene: crate::Scene,
    pub meshes: Catalog<Mesh>,
    pub materials: Catalog<Material>,
    pub textures: Catalog<Texture>,
}

proof fn lemma_primitive_ok_excludes_error(
    doc: Document,
    bufs: Seq<Seq<u8>>,
    images_len: int,
    m: int,
    k: int,
    e: ImportGltfError,
)
    requires
        primitive_ok(doc, bufs, images_len, m, k),
        doc.images@.len() as int == images_len,
    ensures
        !primitive_error_matches(doc, bufs, images_len, m, k, e),
{
}

fn memo_table<T>(n: usize) -> (r: Vec<Option<Id<T>>>)
    ensures
        r@.len() == n,
        forall|i: int| 0 <= i < n ==> (#[trigger] r@[i]) is None,
{
    let mut v: Vec<Option<Id<T>>> = Vec::new();
    let mut i: usize = 0;
    while i < n
        invariant
            0 <= i <= n,
            v@.len() == i,
            forall|j: int| 0 <= j < i ==> (#[trigger] v@[j]) is None,
        decreases n - i,
    {
        v.push(None);
        i = i + 1;
    }
    v
}

/// Imports the document's default scene: resolves its buffers, decodes its
/// images, deduplicates and uploads every referenced texture, material and
/// mesh, and rebuilds the node hierarchy with composed transforms and
/// skinning data. Succeeds exactly when [`spec_import_ok`] holds; any
/// failure aborts the whole import.
/// The assembled prefix of the node array matches the document: every
/// visited slot is the imported node with its recorded parent and a sound
/// skin, every other slot an inert placeholder.
spec fn nodes_built(
    nodes: Seq<crate::Node>,
    doc: Document,
    bufs: Seq<Seq<u8>>,
    vis: Seq<bool>,
    parent_of: Seq<Option<u16>>,
    upto: int,
) -> bool {
    &&& forall|q: int| 0 <= q < upto && vis[q] ==> #[trigger] imported_node_matches(nodes[q],
        doc, bufs, q)
    &&& forall|q: int| 0 <= q < upto && vis[q] ==> (#[trigger] nodes[q]).parent == parent_of[q]
    &&& forall|q: int| 0 <= q < upto && !vis[q] ==> #[trigger] placeholder_node(nodes[q])
    &&& forall|q: int|
        0 <= q < upto && vis[q] && (#[trigger] doc.nodes@[q].skin) is Some ==> spec_skin_ok(doc,
            bufs, doc.nodes@[q].skin.unwrap() as int)
}

/// Every (mesh, material) pair of the assembled prefix points at live
/// catalog entries: the mesh handle is the one memoized for the node's mesh
/// index, and the material handle is the primitive's own.
spec fn node_pairs_linked(node: crate::Node, imp: Importer, doc: Document, q: int) -> bool {
    forall|k: int|
        0 <= k < node.meshes@.len() ==> {
            &&& doc.nodes@[q].mesh is Some
            &&& imp.mesh_memo@[doc.nodes@[q].mesh.unwrap() as int] == Some(
                (#[trigger] node.meshes@[k]).0,
            )
            &&& imp.meshes.contains_id(node.meshes@[k].0)
            &&& imp.materials.contains_id(node.meshes@[k].1)
            &&& node.meshes@[k].1 == imp.meshes@[node.meshes@[
            k].0.spec_index()].primitives@[k].material
        }
}

proof fn lemma_node_pairs_transfer(
    node: crate::Node,
    imp0: Importer,
    imp1: Importer,
    doc: Document,
    q: int,
)
    requires
        node_pairs_linked(node, imp0, doc, q),
        imp0.meshes@.is_prefix_of(imp1.meshes@),
        imp0.materials@.is_prefix_of(imp1.materials@),
        imp0.mesh_memo@.len() == imp1.mesh_memo@.len(),
        forall|m0: int|
            0 <= m0 < imp0.mesh_memo@.len() && (#[trigger] imp0.mesh_memo@[m0]) is Some
                ==> imp1.mesh_memo@[m0] == imp0.mesh_memo@[m0],
        node.meshes@.len() > 0 ==> doc.nodes@[q].mesh is Some && 0 <= (doc.nodes@[
        q].mesh.unwrap() as int) < imp0.mesh_memo@.len(),
    ensures
        node_pairs_linked(node, imp1, doc, q),
{
    assert forall|k: int| 0 <= k < node.meshes@.len() implies {
        &&& doc.nodes@[q].mesh is Some
        &&& imp1.mesh_memo@[doc.nodes@[q].mesh.unwrap() as int] == Some(
            (#[trigger] node.meshes@[k]).0,
        )
        &&& imp1.meshes.contains_id(node.meshes@[k].0)
        &&& imp1.materials.contains_id(node.meshes@[k].1)
        &&& node.meshes@[k].1 == imp1.meshes@[node.meshes@[
        k].0.spec_index()].primitives@[k].material
    } by {
        let pair = node.meshes@[k];
        assert(imp0.mesh_memo@[doc.nodes@[q].mesh.unwrap() as int] == Some(pair.0));
        lemma_prefix_index(imp0.meshes@, imp1.meshes@, pair.0.spec_index());
        lemma_prefix_index(imp0.materials@, imp1.materials@, pair.1.spec_index());
    }
}

spec fn pairs_linked(nodes: Seq<crate::Node>, imp: Importer, doc: Document, upto: int) -> bool {
    forall|q: int| 0 <= q < upto ==> node_pairs_linked(#[trigger] nodes[q], imp, doc, q)
}

/// Every visited node of the assembled prefix with a mesh has that mesh
/// memoized, and every memoized mesh passed all its primitive checks.
spec fn memo_covers(
    imp: Importer,
    doc: Document,
    bufs: Seq<Seq<u8>>,
    vis: Seq<bool>,
    upto: int,
) -> bool {
    &&& forall|q: int|
        0 <= q < upto && vis[q] && (#[trigger] doc.nodes@[q].mesh) is Some ==> {
            let mi = doc.nodes@[q].mesh.unwrap() as int;
            &&& mi < doc.meshes@.len()
            &&& imp.mesh_memo@[mi] is Some
        }
    &&& forall|mi: int|
        0 <= mi < imp.mesh_memo@.len() && (#[trigger] imp.mesh_memo@[mi]) is Some ==> forall|
            k: int,
        | 0 <= k < doc.meshes@[mi].primitives@.len() ==> primitive_ok(doc, bufs,
            doc.images@.len() as int, mi, k)
}

#[verifier::rlimit(80)]
pub fn import_default_scene(
    doc: &Document,
    blob: &Option<Vec<u8>>,
    buffer_files: &Vec<Option<Vec<u8>>>,
    image_files: &Vec<Option<Vec<u8>>>,
) -> (r: Result<ImportOutput, ImportGltfError>)
    requires
        doc.spec_default_scene() is Some,
    ensures
        (r is Ok) == spec_import_ok(*doc, option_view(*blob), buffer_files.deep_view(),
            image_files.deep_view()),
        match r {
            Ok(out) => {
                let n = doc.nodes@.len();
                let roots = doc.spec_default_scene().unwrap().nodes@;
                let bufs = spec_load_buffers(doc.buffers@, buffer_files.deep_view(), option_view(
                    *blob,
                ), 0).unwrap().0;
                &&& out.scene.wf()
                &&& out.scene.nodes@.len() == n
                &&& out.scene.transform@ == crate::transform::identity_bits()
                &&& out.scene.root_nodes@.len() == roots.len()
                &&& forall|k: int| 0 <= k < roots.len() ==> (#[trigger] out.scene.root_nodes@[
                k]) == roots[k] as u16
                &&& forall|k: int| 0 <= k < roots.len() ==> (#[trigger] out.scene.nodes@[roots[
                k] as int]).parent is None
                &&& forall|i: int|
                    0 <= i < n && spec_reachable(*doc, roots, i)
                        ==> #[trigger] imported_node_matches(out.scene.nodes@[i], *doc, bufs, i)
                &&& forall|i: int| 0 <= i < n && !spec_reachable(*doc, roots, i)
                    ==> #[trigger] placeholder_node(out.scene.nodes@[i])
                &&& forall|h: int| 0 <= h < out.meshes@.len() ==> (#[trigger] out.meshes@[
                h]).wf()
                &&& forall|h: int| 0 <= h < out.textures@.len() ==> (#[trigger] out.textures@[
                h]).wf()
                &&& forall|h: int|
                    0 <= h < out.materials@.len() ==> {
                        let mat = #[trigger] out.materials@[h];
                        &&& match mat.diffuse {
                            Some(t) => out.textures.contains_id(t),
                            None => true,
                        }
                        &&& match mat.normal {
                            Some(t) => out.textures.contains_id(t),
                            None => true,
                        }
                    }
                &&& forall|i: int, k: int|
                    0 <= i < n && 0 <= k < out.scene.nodes@[i].meshes@.len() ==> {
                        let pair = #[trigger] out.scene.nodes@[i].meshes@[k];
                        &&& out.meshes.contains_id(pair.0)
                        &&& out.materials.contains_id(pair.1)
                        &&& pair.1 == out.meshes@[pair.0.spec_index()].primitives@[k].material
                        &&& pair.0 == out.scene.nodes@[i].meshes@[0].0
                    }
                &&& forall|i1: int, i2: int, k1: int, k2: int|
                    0 <= i1 < n && 0 <= i2 < n && doc.nodes@[i1].mesh == doc.nodes@[i2].mesh && 0
                        <= k1 < out.scene.nodes@[i1].meshes@.len() && 0 <= k2
                        < out.scene.nodes@[i2].meshes@.len() ==> (#[trigger] out.scene.nodes@[
                    i1].meshes@[k1]).0 == (#[trigger] out.scene.nodes@[i2].meshes@[k2]).0
            },
            Err(_) => true,
        },
{
    let ghost blob_v = option_view(*blob);
    let ghost bfiles = buffer_files.deep_view();
    let ghost ifiles = image_files.deep_view();
    let scene_decl = doc.default_scene().unwrap();
    let roots = &scene_decl.nodes;
    let ghost roots_v = roots@;
    proof {
        assert(doc.spec_default_scene().unwrap().nodes@ == roots_v);
    }
    let buffers = match load_buffers(doc, blob, buffer_files) {
        Ok(b) => b,
        Err(e) => {
            proof {
                assert(spec_load_buffers(doc.buffers@, bfiles, blob_v, 0) is Err);
                assert(!spec_import_ok(*doc, blob_v, bfiles, ifiles));
            }
            return Err(e);
        },
    };
    let ghost bufs = buffers.deep_view();
    proof {
        assert(spec_load_buffers(doc.buffers@, bfiles, blob_v, 0) matches Ok(p) && p.0 == bufs);
    }
    let images = match load_images(doc, &buffers, image_files) {
        Ok(im) => im,
        Err(e) => {
            proof {
                if spec_import_ok(*doc, blob_v, bfiles, ifiles) {
                    let i = choose|i: int|
                        0 <= i < doc.images@.len() && (#[trigger] spec_image_ok(*doc, bufs,
                            ifiles, i)) is None && spec_image_err_matches(*doc, bufs, ifiles, i,
                            e);
                    assert((spec_image_ok(*doc, bufs, ifiles, i)) is Some);
                    assert(false);
                }
            }
            return Err(e);
        },
    };
    proof {
        assert forall|q: int| 0 <= q < doc.images@.len() implies (#[trigger] spec_image_ok(
            *doc,
            bufs,
            ifiles,
            q,
        )) is Some by {
            assert(spec_image_ok(*doc, bufs, ifiles, q) == Some(
                ((images@[q]).0@, images@[q].1, images@[q].2),
            ));
        }
    }
    let links = match validate_structure(doc, roots) {
        Ok(l) => l,
        Err(e) => {
            proof {
                if spec_import_ok(*doc, blob_v, bfiles, ifiles) {
                    assert(spec_structure_ok(*doc, roots_v));
                    let n0 = doc.nodes@.len();
                    match e {
                        ImportGltfError::NodeIndexOutOfRange(x) => {
                            if spec_node_referenced(*doc, roots_v, x as int) {
                                if roots_v.contains(x) {
                                    let k = choose|k: int|
                                        0 <= k < roots_v.len() && roots_v[k] == x;
                                    assert(roots_v[k] < 0x10000);
                                } else {
                                    let (p, k) = choose|p: int, k: int|
                                        0 <= p < n0 && 0 <= k < doc.nodes@[p].children@.len()
                                            && #[trigger] doc.nodes@[p].children@[k] == x;
                                    assert(doc.nodes@[p].children@[k] < 0x10000);
                                }
                            }
                            assert(false);
                        },
                        ImportGltfError::UnknownNodeIndex(x) => {
                            if roots_v.contains(x) {
                                let k = choose|k: int| 0 <= k < roots_v.len() && roots_v[k] == x;
                                assert(roots_v[k] < n0);
                            } else {
                                let (p, k) = choose|p: int, k: int|
                                    0 <= p < n0 && 0 <= k < doc.nodes@[p].children@.len()
                                        && #[trigger] doc.nodes@[p].children@[k] == x;
                                assert(doc.nodes@[p].children@[k] < n0);
                            }
                            assert(false);
                        },
                        ImportGltfError::DuplicateNodeReference(x) => {
                            assert(!spec_node_multiply_referenced(*doc, roots_v, x as int));
                            assert(false);
                        },
                        _ => {
                            assert(false);
                        },
                    }
                }
            }
            return Err(e);
        },
    };
    let (vis, rank) = reachable_set(doc, roots, &links);
    let n = doc.nodes.len();
    let texture_memo = memo_table(doc.textures.len());
    let material_memo = memo_table(doc.materials.len());
    let mesh_memo = memo_table(doc.meshes.len());
    let mut importer = Importer {
        buffers,
        images,
        texture_memo,
        material_memo,
        mesh_memo,
        textures: Catalog::new(),
        materials: Catalog::new(),
        meshes: Catalog::new(),
    };
    let mut nodes: Vec<crate::Node> = Vec::new();
    let mut i: usize = 0;
    while i < n
        invariant
            doc.spec_default_scene() matches Some(sc) && sc.nodes@ == roots_v,
            blob_v == option_view(*blob),
            bfiles == buffer_files.deep_view(),
            ifiles == image_files.deep_view(),
            spec_load_buffers(doc.buffers@, bfiles, blob_v, 0) matches Ok(p) && p.0 == bufs,
            forall|q: int| 0 <= q < doc.images@.len() ==> (#[trigger] spec_image_ok(*doc, bufs,
                ifiles, q)) is Some,
            spec_structure_ok(*doc, roots_v),
            links_wf(links, *doc, roots_v),
            n == doc.nodes@.len(),
            vis@.len() == n,
            forall|q: int| 0 <= q < n ==> ((#[trigger] vis@[q]) <==> spec_reachable(*doc,
                roots_v, q)),
            forall|p: int, k: int|
                0 <= p < n && vis@[p] && 0 <= k < doc.nodes@[p].children@.len() ==> vis@[(
                #[trigger] doc.nodes@[p].children@[k]) as int],
            forall|q: int|
                0 <= q < n && (#[trigger] vis@[q]) ==> {
                    &&& rank@.contains_key(q)
                    &&& rank@[q] < n
                    &&& match links.parent_of@[q] {
                        Some(pp) => vis@[pp as int] && rank@.contains_key(pp as int) && rank@[
                            pp as int] < rank@[q],
                        None => true,
                    }
                },
            importer.wf(*doc),
            importer.buffers.deep_view() == bufs,
            importer.images@.len() == doc.images@.len(),
            0 <= i <= n,
            nodes@.len() == i,
            nodes_built(nodes@, *doc, bufs, vis@, links.parent_of@, i as int),
            pairs_linked(nodes@, importer, *doc, i as int),
            memo_covers(importer, *doc, bufs, vis@, i as int),
        decreases n - i,
    {
        let ghost importer0 = importer;
        let ghost nodes0 = nodes@;
        if vis[i] {
            let dn = &doc.nodes[i];
            let child_count = dn.children.len();
            let mut children: Vec<u16> = Vec::new();
            let mut k: usize = 0;
            while k < child_count
                invariant
                    spec_structure_ok(*doc, roots_v),
                    n == doc.nodes@.len(),
                    i < n,
                    dn == &doc.nodes@[i as int],
                    child_count == dn.children@.len(),
                    0 <= k <= child_count,
                    children@.len() == k,
                    forall|j: int| 0 <= j < k ==> (#[trigger] children@[j]) == dn.children@[
                    j] as u16,
                decreases child_count - k,
            {
                let c = dn.children[k];
                children.push(c as u16);
                k = k + 1;
            }
            let transform = local_transform(dn);
            let meshes_pairs: Vec<(Id<Mesh>, Id<Material>)> = match dn.mesh {
                Some(mi) => {
                    let h = match importer.import_gltf_mesh(doc, mi) {
                        Ok(h) => h,
                        Err(e) => {
                            proof {
                                if spec_import_ok(*doc, blob_v, bfiles, ifiles) {
                                    assert(spec_reachable(*doc, roots_v, i as int));
                                    assert(spec_node_import_ok(*doc, bufs, i as int));
                                    if mi < doc.meshes@.len() {
                                        let kk = choose|kk: int|
                                            0 <= kk < doc.meshes@[mi as int].primitives@.len()
                                                && #[trigger] primitive_error_matches(*doc,
                                                bufs, doc.images@.len() as int, mi as int, kk,
                                                e,
                                            );
                                        assert(primitive_ok(*doc, bufs,
                                            doc.images@.len() as int, mi as int, kk));
                                        lemma_primitive_ok_excludes_error(*doc, bufs,
                                            doc.images@.len() as int, mi as int, kk, e);
                                    }
                                    assert(false);
                                }
                            }
                            return Err(e);
                        },
                    };
                    let mut pairs: Vec<(Id<Mesh>, Id<Material>)> = Vec::new();
                    let prim_count = match importer.meshes.get(h) {
                        Some(mesh_ref) => mesh_ref.primitives.len(),
                        None => 0,
                    };
                    let mut k2: usize = 0;
                    while k2 < prim_count
                        invariant
                            importer.meshes.contains_id(h),
                            prim_count == importer.meshes@[h.spec_index()].primitives@.len(),
                            importer.wf(*doc),
                            0 <= k2 <= prim_count,
                            pairs@.len() == k2,
                            forall|j: int| 0 <= j < k2 ==> (#[trigger] pairs@[j]).0 == h,
                            forall|j: int| 0 <= j < k2 ==> (#[trigger] pairs@[j]).1
                                == importer.meshes@[h.spec_index()].primitives@[j].material,
                        decreases prim_count - k2,
                    {
                        let mat = match importer.meshes.get(h) {
                            Some(mesh_ref) => mesh_ref.primitives[k2].material,
                            None => {
                                proof {
                                    assert(false);
                                }
                                unreached()
                            },
                        };
                        pairs.push((h, mat));
                        k2 = k2 + 1;
                    }
                    proof {
                        assert forall|j: int| 0 <= j < pairs@.len() implies {
                            let pair = #[trigger] pairs@[j];
                            &&& importer.mesh_memo@[doc.nodes@[i as int].mesh.unwrap() as int]
                                == Some(pair.0)
                            &&& importer.meshes.contains_id(pair.0)
                            &&& importer.materials.contains_id(pair.1)
                            &&& pair.1 == importer.meshes@[pair.0.spec_index()].primitives@[
                            j].material
                        } by {
                            assert(pairs@[j].0 == h);
                            assert(0 <= importer.meshes@[h.spec_index()].primitives@[
                            j].material.spec_index() < importer.materials@.len());
                        }
                    }
                    pairs
                },
                None => Vec::new(),
            };
            let skin: Option<crate::Skin> = match dn.skin {
                Some(s) => match build_skin(doc, &importer.buffers, s) {
                    Ok(sk) => Some(sk),
                    Err(e) => {
                        proof {
                            if spec_import_ok(*doc, blob_v, bfiles, ifiles) {
                                assert(spec_reachable(*doc, roots_v, i as int));
                                assert(spec_node_import_ok(*doc, bufs, i as int));
                                assert(false);
                            }
                        }
                        return Err(e);
                    },
                },
                None => None,
            };
            let name: Option<String> = match &dn.name {
                Some(nm) => Some(nm.clone()),
                None => None,
            };
            let node = crate::Node {
                parent: links.parent_of[i],
                children,
                transform,
                meshes: meshes_pairs,
                skin,
                name,
            };
            nodes.push(node);
            proof {
                assert(imported_node_matches(nodes@[i as int], *doc, bufs, i as int));
                assert(nodes_built(nodes@, *doc, bufs, vis@, links.parent_of@, i + 1));
                assert forall|q: int| 0 <= q < i + 1 implies node_pairs_linked(
                    #[trigger] nodes@[q],
                    importer,
                    *doc,
                    q,
                ) by {
                    if q < i as int {
                        assert(pairs_linked(nodes0, importer0, *doc, i as int));
                        assert(nodes@[q] == nodes0[q]);
                        assert(node_pairs_linked(nodes0[q], importer0, *doc, q));
                        if nodes@[q].meshes@.len() > 0 {
                            assert(nodes0[q].meshes@[0] == nodes@[q].meshes@[0]);
                            if !vis@[q] {
                                assert(placeholder_node(nodes0[q]));
                            }
                            assert(vis@[q]);
                            assert(memo_covers(importer0, *doc, bufs, vis@, i as int));
                            assert(importer0.wf(*doc));
                        }
                        lemma_node_pairs_transfer(nodes@[q], importer0, importer, *doc, q);
                    } else {
                        assert forall|k: int| 0 <= k < nodes@[q].meshes@.len() implies {
                            let pair = #[trigger] nodes@[q].meshes@[k];
                            &&& doc.nodes@[q].mesh is Some
                            &&& importer.mesh_memo@[doc.nodes@[q].mesh.unwrap() as int] == Some(
                                pair.0,
                            )
                            &&& importer.meshes.contains_id(pair.0)
                            &&& importer.materials.contains_id(pair.1)
                            &&& pair.1 == importer.meshes@[pair.0.spec_index()].primitives@[
                            k].material
                        } by {
                            assert(nodes@[i as int].meshes@[k] == nodes@[q].meshes@[k]);
                        }
                        assert(node_pairs_linked(nodes@[q], importer, *doc, q));
                    }
                }
                assert(pairs_linked(nodes@, importer, *doc, i + 1));
                assert forall|q: int|
                    0 <= q < i + 1 && vis@[q] && (#[trigger] doc.nodes@[q].mesh) is Some
                        implies {
                        let mi = doc.nodes@[q].mesh.unwrap() as int;
                        &&& mi < doc.meshes@.len()
                        &&& importer.mesh_memo@[mi] is Some
                    } by {
                    if q < i as int {
                        assert(memo_covers(importer0, *doc, bufs, vis@, i as int));
                        let mi = doc.nodes@[q].mesh.unwrap() as int;
                        assert(importer0.mesh_memo@[mi] is Some);
                        assert(mi < importer0.mesh_memo@.len());
                    }
                }
                assert(memo_covers(importer, *doc, bufs, vis@, i + 1));
            }
        } else {
            nodes.push(crate::Node {
                parent: None,
                children: Vec::new(),
                transform: crate::transform::Transform::identity(),
                meshes: Vec::new(),
                skin: None,
                name: None,
            });
            proof {
                assert(placeholder_node(nodes@[i as int]));
                assert(nodes_built(nodes@, *doc, bufs, vis@, links.parent_of@, i + 1));
                assert forall|q: int| 0 <= q < i + 1 implies node_pairs_linked(
                    #[trigger] nodes@[q],
                    importer,
                    *doc,
                    q,
                ) by {
                    if q < i as int {
                        assert(pairs_linked(nodes0, importer0, *doc, i as int));
                        assert(nodes@[q] == nodes0[q]);
                        assert(node_pairs_linked(nodes0[q], importer0, *doc, q));
                    } else {
                        assert forall|k: int| 0 <= k < nodes@[q].meshes@.len() implies {
                            let pair = #[trigger] nodes@[q].meshes@[k];
                            &&& doc.nodes@[q].mesh is Some
                            &&& importer.mesh_memo@[doc.nodes@[q].mesh.unwrap() as int] == Some(
                                pair.0,
                            )
                            &&& importer.meshes.contains_id(pair.0)
                            &&& importer.materials.contains_id(pair.1)
                            &&& pair.1 == importer.meshes@[pair.0.spec_index()].primitives@[
                            k].material
                        } by {
                            assert(nodes@[q].meshes@.len() == 0);
                        }
                        assert(node_pairs_linked(nodes@[q], importer, *doc, q));
                    }
                }
                assert(pairs_linked(nodes@, importer, *doc, i + 1));
                assert(memo_covers(importer, *doc, bufs, vis@, i + 1));
            }
        }
        i = i + 1;
    }
    let mut root_nodes: Vec<u16> = Vec::new();
    let mut k: usize = 0;
    while k < roots.len()
        invariant
            spec_structure_ok(*doc, roots_v),
            roots@ == roots_v,
            0 <= k <= roots_v.len(),
            root_nodes@.len() == k,
            forall|j: int| 0 <= j < k ==> (#[trigger] root_nodes@[j]) == roots_v[j] as u16,
        decreases roots@.len() - k,
    {
        root_nodes.push(roots[k] as u16);
        k = k + 1;
    }
    let ghost nodes_v = nodes@;
    let scene = crate::Scene {
        nodes,
        root_nodes,
        transform: crate::transform::Transform::identity(),
    };
    proof {
        assert(scene.nodes@ == nodes_v);
        assert(nodes_built(nodes_v, *doc, bufs, vis@, links.parent_of@, n as int));
        assert(pairs_linked(nodes_v, importer, *doc, n as int));
        assert(memo_covers(importer, *doc, bufs, vis@, n as int));
        let rm = rank@;
        let d2 = Map::<int, nat>::new(|q: int| 0 <= q < n, |q: int| if 0 <= q < vis@.len()
            && vis@[q] && rm.contains_key(q) {
            rm[q]
        } else {
            0nat
        });
        assert forall|q: int| 0 <= q < scene.nodes@.len() implies {
            &&& d2.contains_key(q)
            &&& d2[q] < scene.nodes@.len()
            &&& match scene.nodes@[q].parent {
                Some(pp) => d2.contains_key(pp as int) && d2[pp as int] < d2[q],
                None => true,
            }
        } by {
            if vis@[q] {
                assert(rm.contains_key(q) && rm[q] < n);
                assert(scene.nodes@[q].parent == links.parent_of@[q]);
            } else {
                assert(placeholder_node(scene.nodes@[q]));
            }
        }
        assert(scene.ranked(d2));
        assert(scene.acyclic());
        assert forall|q: int, k2: int|
            0 <= q < scene.nodes@.len() && 0 <= k2 < scene.nodes@[q].children@.len() implies {
            let c = #[trigger] scene.nodes@[q].children@[k2];
            &&& q < 0x10000
            &&& c < scene.nodes@.len()
            &&& scene.nodes@[c as int].parent == Some(q as u16)
        } by {
            if !vis@[q] {
                assert(placeholder_node(scene.nodes@[q]));
            }
            assert(vis@[q]);
            assert(imported_node_matches(scene.nodes@[q], *doc, bufs, q));
            assert(scene.nodes@[q].children@[k2] == doc.nodes@[q].children@[k2] as u16);
            let c = doc.nodes@[q].children@[k2];
            assert(vis@[c as int]);
            assert(links.parent_of@[c as int] == Some(q as u16));
            assert(scene.nodes@[c as int].parent == links.parent_of@[c as int]);
        }
        assert(scene.children_consistent());
        assert forall|q: int|
            0 <= q < scene.nodes@.len() && (#[trigger] scene.nodes@[q]).parent is Some implies {
            let pp = scene.nodes@[q].parent->0;
            &&& q < 0x10000
            &&& pp < scene.nodes@.len()
            &&& scene.nodes@[pp as int].children@.contains(q as u16)
        } by {
            if !vis@[q] {
                assert(placeholder_node(scene.nodes@[q]));
            }
            assert(vis@[q]);
            let pp = scene.nodes@[q].parent->0;
            assert(scene.nodes@[q].parent == links.parent_of@[q]);
            assert(links.parent_of@[q] == Some(pp));
            assert(vis@[pp as int]);
            assert(imported_node_matches(scene.nodes@[pp as int], *doc, bufs, pp as int));
            let kk = choose|kk: int|
                0 <= kk < doc.nodes@[pp as int].children@.len() && doc.nodes@[
                pp as int].children@[kk] == q as u16 as usize;
            assert(scene.nodes@[pp as int].children@[kk] == doc.nodes@[pp as int].children@[
            kk] as u16);
            assert(scene.nodes@[pp as int].children@[kk] == q as u16);
        }
        assert(scene.parents_linked());
        assert forall|q: int| 0 <= q < scene.nodes@.len() implies {
            let node = #[trigger] scene.nodes@[q];
            &&& match node.parent {
                Some(pp) => pp < scene.nodes@.len(),
                None => true,
            }
            &&& match node.skin {
                Some(sk) => sk.wf() && match sk.skeleton {
                    Some(rt) => rt < scene.nodes@.len(),
                    None => true,
                },
                None => true,
            }
        } by {
            if !vis@[q] {
                assert(placeholder_node(scene.nodes@[q]));
            } else {
                assert(imported_node_matches(scene.nodes@[q], *doc, bufs, q));
                if doc.nodes@[q].skin is Some {
                    assert(spec_skin_ok(*doc, bufs, doc.nodes@[q].skin.unwrap() as int));
                }
                if scene.nodes@[q].parent is Some {
                    assert(scene.nodes@[q].parent == links.parent_of@[q]);
                }
            }
        }
        assert forall|q: int, k2: int|
            0 <= q < scene.nodes@.len() && scene.nodes@[q].skin is Some && 0 <= k2
                < scene.nodes@[q].skin.unwrap().joints@.len() implies (#[trigger] scene.nodes@[
        q].skin.unwrap().joints@[k2]) < scene.nodes@.len() by {
            if !vis@[q] {
                assert(placeholder_node(scene.nodes@[q]));
            }
            assert(vis@[q]);
            assert(imported_node_matches(scene.nodes@[q], *doc, bufs, q));
            let s = doc.nodes@[q].skin.unwrap() as int;
            assert(spec_skin_ok(*doc, bufs, s));
            assert(scene.nodes@[q].skin.unwrap().joints@[k2] == doc.skins@[s].joints@[
            k2] as u16);
            assert(doc.skins@[s].joints@[k2] < doc.nodes@.len());
        }
        assert(scene.skins_wf());
        assert(scene.nodes_in_range());
        assert(scene.wf());
        assert forall|k2: int| 0 <= k2 < roots_v.len() implies (#[trigger] scene.nodes@[roots_v[
        k2] as int]).parent is None by {
            let x = roots_v[k2] as int;
            assert(links.is_root@[x]);
            assert(links.parent_of@[x] is None);
            assert(spec_reachable_fuel(*doc, roots_v, x, 0));
            assert(spec_reachable(*doc, roots_v, x));
            assert(vis@[x]);
            assert(scene.nodes@[x].parent == links.parent_of@[x]);
        }
        assert forall|q: int| 0 <= q < n && spec_reachable(*doc, roots_v, q) implies
            #[trigger] spec_node_import_ok(*doc, bufs, q) by {
            assert(vis@[q]);
            match doc.nodes@[q].mesh {
                Some(mi) => {
                    assert(importer.mesh_memo@[mi as int] is Some);
                },
                None => {},
            }
            match doc.nodes@[q].skin {
                Some(s) => {
                    assert(spec_skin_ok(*doc, bufs, s as int));
                },
                None => {},
            }
        }
        assert(spec_import_ok(*doc, blob_v, bfiles, ifiles));
        assert forall|i1: int, k2: int|
            0 <= i1 < n && 0 <= k2 < scene.nodes@[i1].meshes@.len() implies {
                let pair = #[trigger] scene.nodes@[i1].meshes@[k2];
                &&& importer.meshes.contains_id(pair.0)
                &&& importer.materials.contains_id(pair.1)
                &&& pair.1 == importer.meshes@[pair.0.spec_index()].primitives@[k2].material
                &&& pair.0 == scene.nodes@[i1].meshes@[0].0
                &&& importer.mesh_memo@[doc.nodes@[i1].mesh.unwrap() as int] == Some(pair.0)
            } by {
            assert(scene.nodes@[i1] == nodes_v[i1]);
            assert(node_pairs_linked(nodes_v[i1], importer, *doc, i1));
            assert(nodes_v[i1].meshes@[k2] == scene.nodes@[i1].meshes@[k2]);
            assert(nodes_v[i1].meshes@[0] == scene.nodes@[i1].meshes@[0]);
        }
    }
    Ok(ImportOutput {
        scene,
        meshes: importer.meshes,
        materials: importer.materials,
        textures: importer.textures,
    })
}

/// The file entry for slot `i`, as a borrow.
fn file_at<'a>(files: &'a Vec<Option<Vec<u8>>>, i: usize) -> (r: Option<&'a Vec<u8>>)
    ensures
        option_ref_view(r) == spec_file_at(files.deep_view(), i as int),
{
    if i < files.len() {
        match &files[i] {
            Some(v) => Some(v),
            None => None,
        }
    } else {
        None
    }
}

} // verus!
