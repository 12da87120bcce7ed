//! GLB (binary glTF) container framing and mesh extraction.
//!
//! The container is framed here byte by byte; the JSON chunk it locates is
//! parsed by the caller into a [`GltfJson`], and the mesh is then read out of
//! the BIN chunk. Float components are carried as their IEEE-754 bit patterns.

use vstd::prelude::*;
use crate::text::{
    decimal, decimal_exec, hex_digits, hex_digits_exec, push_chars, push_str, string_from_chars,
};

verus! {

/// GLB magic number: "glTF" read little-endian.
pub const GLB_MAGIC: u32 = 0x46546C67;

/// JSON chunk type: "JSON" read little-endian.
pub const CHUNK_TYPE_JSON: u32 = 0x4E4F534A;

/// BIN chunk type: "BIN\0" read little-endian.
pub const CHUNK_TYPE_BIN: u32 = 0x004E4942;

/// A vertex position; each component is the bit pattern of an `f32`.
#[derive(Debug, Clone, Copy)]
pub struct Vertex {
    pub x_bits: u32,
    pub y_bits: u32,
    pub z_bits: u32,
}

/// A normal vector; each component is the bit pattern of an `f32`.
#[derive(Debug, Clone, Copy)]
pub struct Normal {
    pub x_bits: u32,
    pub y_bits: u32,
    pub z_bits: u32,
}

/// A texture coordinate; each component is the bit pattern of an `f32`.
#[derive(Debug, Clone, Copy)]
pub struct TexCoord {
    pub u_bits: u32,
    pub v_bits: u32,
}

/// A triangle face with vertex indices.
#[derive(Debug, Clone, Copy)]
pub struct Face {
    /// Indices into the vertices array
    pub vertices: [usize; 3],
    /// Indices into the normals array (if available)
    pub normals: Option<[usize; 3]>,
    /// Indices into the tex_coords array (if available)
    pub tex_coords: Option<[usize; 3]>,
}

/// Parsed GLB mesh data.
#[derive(Debug, Clone)]
pub struct GlbMesh {
    pub vertices: Vec<Vertex>,
    pub faces: Vec<Face>,
    pub normals: Vec<Normal>,
    pub tex_coords: Vec<TexCoord>,
}

/// GLB parsing errors.
#[derive(Debug)]
pub enum GlbParseError {
    InvalidHeader(String),
    UnsupportedVersion(u32),
    InvalidChunk(String),
    JsonError(String),
    NoMeshFound,
    UnsupportedIndexType(u32),
    BufferOverflow(String),
}

/// The subset of glTF JSON that mesh extraction reads.
#[derive(Debug, Clone)]
pub struct GltfJson {
    pub accessors: Vec<Accessor>,
    pub buffer_views: Vec<BufferView>,
    pub meshes: Vec<Mesh>,
}

#[derive(Debug, Clone, Copy)]
pub struct Accessor {
    pub buffer_view: usize,
    pub byte_offset: Option<usize>,
    pub component_type: u32,
    pub count: usize,
}

#[derive(Debug, Clone, Copy)]
pub struct BufferView {
    pub byte_offset: usize,
    pub byte_stride: Option<usize>,
}

#[derive(Debug, Clone)]
pub struct Mesh {
    pub primitives: Vec<Primitive>,
}

#[derive(Debug, Clone, Copy)]
pub struct Primitive {
    pub attributes: Attributes,
    pub indices: Option<usize>,
}

#[derive(Debug, Clone, Copy)]
pub struct Attributes {
    pub position: usize,
    pub normal: Option<usize>,
    pub texcoord_0: Option<usize>,
}

// ---------------------------------------------------------------------------
// Models
// ---------------------------------------------------------------------------

/// What a [`GlbParseError`] states, with its text as a sequence.
pub enum GlbErrorModel {
    InvalidHeader(Seq<char>),
    UnsupportedVersion(u32),
    InvalidChunk(Seq<char>),
    JsonError(Seq<char>),
    NoMeshFound,
    UnsupportedIndexType(u32),
    BufferOverflow(Seq<char>),
}

impl View for GlbParseError {
    type V = GlbErrorModel;

    open spec fn view(&self) -> GlbErrorModel {
        match self {
            GlbParseError::InvalidHeader(s) => GlbErrorModel::InvalidHeader(s@),
            GlbParseError::UnsupportedVersion(v) => GlbErrorModel::UnsupportedVersion(*v),
            GlbParseError::InvalidChunk(s) => GlbErrorModel::InvalidChunk(s@),
            GlbParseError::JsonError(s) => GlbErrorModel::JsonError(s@),
            GlbParseError::NoMeshFound => GlbErrorModel::NoMeshFound,
            GlbParseError::UnsupportedIndexType(t) => GlbErrorModel::UnsupportedIndexType(*t),
            GlbParseError::BufferOverflow(s) => GlbErrorModel::BufferOverflow(s@),
        }
    }
}

/// A face as index sequences.
pub struct FaceModel {
    pub vertices: Seq<usize>,
    pub normals: Option<Seq<usize>>,
    pub tex_coords: Option<Seq<usize>>,
}

/// A mesh as sequences of component bit patterns and faces.
pub struct MeshModel {
    pub vertices: Seq<(u32, u32, u32)>,
    pub normals: Seq<(u32, u32, u32)>,
    pub tex_coords: Seq<(u32, u32)>,
    pub faces: Seq<FaceModel>,
}

pub open spec fn face_view(f: Face) -> FaceModel {
    FaceModel {
        vertices: f.vertices@,
        normals: match f.normals {
            Some(a) => Some(a@),
            None => None,
        },
        tex_coords: match f.tex_coords {
            Some(a) => Some(a@),
            None => None,
        },
    }
}

pub open spec fn mesh_view(m: GlbMesh) -> MeshModel {
    MeshModel {
        vertices: m.vertices@.map_values(|v: Vertex| (v.x_bits, v.y_bits, v.z_bits)),
        normals: m.normals@.map_values(|v: Normal| (v.x_bits, v.y_bits, v.z_bits)),
        tex_coords: m.tex_coords@.map_values(|t: TexCoord| (t.u_bits, t.v_bits)),
        faces: m.faces@.map_values(|f: Face| face_view(f)),
    }
}

pub open spec fn mesh_result_view(r: Result<GlbMesh, GlbParseError>) -> Result<MeshModel, GlbErrorModel> {
    match r {
        Ok(m) => Ok(mesh_view(m)),
        Err(e) => Err(e@),
    }
}

// ---------------------------------------------------------------------------
// Byte-level reading
// ---------------------------------------------------------------------------

/// Little-endian `u32` at byte `i`.
pub open spec fn u32_le(b: Seq<u8>, i: int) -> u32 {
    (b[i] as int + b[i + 1] as int * 256 + b[i + 2] as int * 65536 + b[i + 3] as int
        * 16777216) as u32
}

/// Little-endian `u16` at byte `i`.
pub open spec fn u16_le(b: Seq<u8>, i: int) -> u16 {
    (b[i] as int + b[i + 1] as int * 256) as u16
}

fn read_u32_le(b: &[u8], i: usize) -> (r: u32)
    requires
        i + 4 <= b@.len(),
    ensures
        r == u32_le(b@, i as int),
        r as int == b@[i as int] as int + b@[i + 1] as int * 256 + b@[i + 2] as int * 65536
            + b@[i + 3] as int * 16777216,
{
    let a = b[i] as u32;
    let c = b[i + 1] as u32;
    let d = b[i + 2] as u32;
    let e = b[i + 3] as u32;
    a + c * 256 + d * 65536 + e * 16777216
}

fn read_u16_le(b: &[u8], i: usize) -> (r: u16)
    requires
        i + 2 <= b@.len(),
    ensures
        r == u16_le(b@, i as int),
{
    let a = b[i] as u16;
    let c = b[i + 1] as u16;
    a + c * 256
}

/// `0x` and eight upper-case hex digits, as `{:#010X}`-style `0x{:08X}` prints.
pub open spec fn hex32_text(v: u32) -> Seq<char> {
    "0x"@ + hex_digits(v as nat, 8)
}

fn hex32_exec(v: u32) -> (r: Vec<char>)
    ensures
        r@ == hex32_text(v),
{
    let mut r: Vec<char> = Vec::new();
    push_str(&mut r, "0x");
    let h = hex_digits_exec(v as u64, 8);
    push_chars(&mut r, &h);
    r
}

// ---------------------------------------------------------------------------
// Container framing
// ---------------------------------------------------------------------------

/// Where the JSON chunk lies, or why the header is rejected.
pub open spec fn json_chunk_spec(d: Seq<u8>) -> Result<(int, int), GlbErrorModel> {
    if d.len() < 12 {
        Err(GlbErrorModel::InvalidHeader("File too small"@))
    } else if u32_le(d, 0) != GLB_MAGIC {
        Err(GlbErrorModel::InvalidHeader("Invalid magic number: "@ + hex32_text(u32_le(d, 0))))
    } else if u32_le(d, 4) != 2 {
        Err(GlbErrorModel::UnsupportedVersion(u32_le(d, 4)))
    } else if d.len() < 20 {
        Err(GlbErrorModel::InvalidChunk("File too small for JSON chunk header"@))
    } else if u32_le(d, 16) != CHUNK_TYPE_JSON {
        Err(GlbErrorModel::InvalidChunk("Expected JSON chunk, got "@ + hex32_text(u32_le(d, 16))))
    } else if d.len() < 20 + u32_le(d, 12) {
        Err(GlbErrorModel::InvalidChunk("JSON chunk extends beyond file"@))
    } else {
        Ok((20, 20 + u32_le(d, 12)))
    }
}

/// Offset of the BIN chunk header: the end of the JSON chunk rounded up to 4.
pub open spec fn bin_header_offset(json_end: int) -> int {
    (json_end + 3) / 4 * 4
}

/// Where the BIN chunk lies after a JSON chunk ending at `json_end`.
pub open spec fn bin_chunk_spec(d: Seq<u8>, json_end: int) -> Result<(int, int), GlbErrorModel> {
    let off = bin_header_offset(json_end);
    if d.len() < off + 8 {
        Err(GlbErrorModel::InvalidChunk("Missing BIN chunk"@))
    } else if u32_le(d, off + 4) != CHUNK_TYPE_BIN {
        Err(GlbErrorModel::InvalidChunk("Expected BIN chunk, got "@ + hex32_text(u32_le(d, off + 4))))
    } else if d.len() < off + 8 + u32_le(d, off) {
        Err(GlbErrorModel::InvalidChunk("BIN chunk extends beyond file"@))
    } else {
        Ok((off + 8, off + 8 + u32_le(d, off)))
    }
}

fn invalid_chunk_hex(prefix: &str, v: u32) -> (e: GlbParseError)
    ensures
        e@ == GlbErrorModel::InvalidChunk(prefix@ + hex32_text(v)),
{
    let mut m: Vec<char> = Vec::new();
    push_str(&mut m, prefix);
    let h = hex32_exec(v);
    push_chars(&mut m, &h);
    GlbParseError::InvalidChunk(string_from_chars(&m))
}

/// Checks the GLB header and locates the JSON chunk; returns its byte range.
pub fn locate_json_chunk(data: &[u8]) -> (r: Result<(usize, usize), GlbParseError>)
    ensures
        match r {
            Ok((s, e)) => json_chunk_spec(data@) == Ok::<(int, int), GlbErrorModel>((s as int, e as int)),
            Err(err) => json_chunk_spec(data@) == Err::<(int, int), GlbErrorModel>(err@),
        },
{
    if data.len() < 12 {
        return Err(GlbParseError::InvalidHeader(String::from_str("File too small")));
    }
    let magic = read_u32_le(data, 0);
    if magic != GLB_MAGIC {
        let mut m: Vec<char> = Vec::new();
        push_str(&mut m, "Invalid magic number: ");
        let h = hex32_exec(magic);
        push_chars(&mut m, &h);
        return Err(GlbParseError::InvalidHeader(string_from_chars(&m)));
    }
    let version = read_u32_le(data, 4);
    if version != 2 {
        return Err(GlbParseError::UnsupportedVersion(version));
    }
    if data.len() < 20 {
        return Err(GlbParseError::InvalidChunk(String::from_str("File too small for JSON chunk header")));
    }
    let json_len = read_u32_le(data, 12);
    let json_type = read_u32_le(data, 16);
    if json_type != CHUNK_TYPE_JSON {
        return Err(invalid_chunk_hex("Expected JSON chunk, got ", json_type));
    }
    if (data.len() as u64) < 20 + json_len as u64 {
        return Err(GlbParseError::InvalidChunk(String::from_str("JSON chunk extends beyond file")));
    }
    Ok((20, 20 + json_len as usize))
}

/// Locates the BIN chunk that follows a JSON chunk ending at `json_end`.
pub fn locate_bin_chunk(data: &[u8], json_end: usize) -> (r: Result<(usize, usize), GlbParseError>)
    ensures
        match r {
            Ok((s, e)) => bin_chunk_spec(data@, json_end as int) == Ok::<(int, int), GlbErrorModel>(
                (s as int, e as int),
            ),
            Err(err) => bin_chunk_spec(data@, json_end as int) == Err::<(int, int), GlbErrorModel>(err@),
        },
{
    let off: u128 = (json_end as u128 + 3) / 4 * 4;
    if (data.len() as u128) < off + 8 {
        return Err(GlbParseError::InvalidChunk(String::from_str("Missing BIN chunk")));
    }
    let o = off as usize;
    let bin_len = read_u32_le(data, o);
    let bin_type = read_u32_le(data, o + 4);
    if bin_type != CHUNK_TYPE_BIN {
        return Err(invalid_chunk_hex("Expected BIN chunk, got ", bin_type));
    }
    if (data.len() as u128) < off + 8 + bin_len as u128 {
        return Err(GlbParseError::InvalidChunk(String::from_str("BIN chunk extends beyond file")));
    }
    Ok((o + 8, o + 8 + bin_len as usize))
}

// ---------------------------------------------------------------------------
// Accessors
// ---------------------------------------------------------------------------

pub open spec fn opt_or(o: Option<usize>, d: int) -> int {
    match o {
        Some(v) => v as int,
        None => d,
    }
}

/// Resolves accessor `idx` to (byte offset, stride, count, component type).
pub open spec fn accessor_layout_spec(g: GltfJson, idx: int) -> Result<
    (int, Option<usize>, int, u32),
    GlbErrorModel,
> {
    if idx >= g.accessors@.len() {
        Err(GlbErrorModel::BufferOverflow("Accessor "@ + decimal(idx as nat) + " not found"@))
    } else {
        let acc = g.accessors@[idx];
        if acc.buffer_view >= g.buffer_views@.len() {
            Err(
                GlbErrorModel::BufferOverflow(
                    "BufferView "@ + decimal(acc.buffer_view as nat) + " not found"@,
                ),
            )
        } else {
            let bv = g.buffer_views@[acc.buffer_view as int];
            Ok(
                (
                    bv.byte_offset + opt_or(acc.byte_offset, 0),
                    bv.byte_stride,
                    acc.count as int,
                    acc.component_type,
                ),
            )
        }
    }
}

/// First `i` in `from..count` whose read of `width` bytes at `off + i * step`
/// runs past `len`.
pub open spec fn first_overrun(off: int, step: int, width: int, count: int, len: int, from: int) -> Option<int>
    decreases count - from,
{
    if from >= count {
        None
    } else if off + from * step + width > len {
        Some(from)
    } else {
        first_overrun(off, step, width, count, len, from + 1)
    }
}

pub open spec fn vec3_at(b: Seq<u8>, base: int) -> (u32, u32, u32) {
    (u32_le(b, base), u32_le(b, base + 4), u32_le(b, base + 8))
}

pub open spec fn vec2_at(b: Seq<u8>, base: int) -> (u32, u32) {
    (u32_le(b, base), u32_le(b, base + 4))
}

pub open spec fn extract_vec3_spec(g: GltfJson, bin: Seq<u8>, idx: int) -> Result<Seq<(u32, u32, u32)>, GlbErrorModel> {
    match accessor_layout_spec(g, idx) {
        Err(e) => Err(e),
        Ok((off, stride_opt, count, _ct)) => {
            let stride = opt_or(stride_opt, 12);
            match first_overrun(off, stride, 12, count, bin.len() as int, 0) {
                Some(i) => Err(
                    GlbErrorModel::BufferOverflow(
                        "Vec3 read at "@ + decimal((off + i * stride + 12) as nat)
                            + " exceeds buffer size "@ + decimal(bin.len()),
                    ),
                ),
                None => Ok(Seq::new(count as nat, |i: int| vec3_at(bin, off + i * stride))),
            }
        },
    }
}

pub open spec fn extract_vec2_spec(g: GltfJson, bin: Seq<u8>, idx: int) -> Result<Seq<(u32, u32)>, GlbErrorModel> {
    match accessor_layout_spec(g, idx) {
        Err(e) => Err(e),
        Ok((off, stride_opt, count, _ct)) => {
            let stride = opt_or(stride_opt, 8);
            match first_overrun(off, stride, 8, count, bin.len() as int, 0) {
                Some(i) => Err(
                    GlbErrorModel::BufferOverflow(
                        "Vec2 read at "@ + decimal((off + i * stride + 8) as nat)
                            + " exceeds buffer size "@ + decimal(bin.len()),
                    ),
                ),
                None => Ok(Seq::new(count as nat, |i: int| vec2_at(bin, off + i * stride))),
            }
        },
    }
}

/// Byte width of an index component type, if supported.
pub open spec fn index_width(ct: u32) -> int {
    if ct == 5121 {
        1
    } else if ct == 5123 {
        2
    } else if ct == 5125 {
        4
    } else {
        0
    }
}

pub open spec fn index_at(b: Seq<u8>, ct: u32, base: int) -> usize {
    if ct == 5121 {
        b[base] as usize
    } else if ct == 5123 {
        u16_le(b, base) as usize
    } else {
        u32_le(b, base) as usize
    }
}

pub open spec fn extract_indices_spec(g: GltfJson, bin: Seq<u8>, idx: int) -> Result<Seq<usize>, GlbErrorModel> {
    match accessor_layout_spec(g, idx) {
        Err(e) => Err(e),
        Ok((off, _stride, count, ct)) => {
            let w = index_width(ct);
            if w == 0 {
                Err(GlbErrorModel::UnsupportedIndexType(ct))
            } else {
                match first_overrun(off, w, w, count, bin.len() as int, 0) {
                    Some(i) => Err(
                        GlbErrorModel::BufferOverflow(
                            "Index read at "@ + decimal((off + i * w) as nat) + " exceeds buffer"@,
                        ),
                    ),
                    None => Ok(Seq::new(count as nat, |i: int| index_at(bin, ct, off + i * w))),
                }
            }
        },
    }
}

pub open spec fn face_model(a: usize, b: usize, c: usize, has_normals: bool, has_tex: bool) -> FaceModel {
    FaceModel {
        vertices: seq![a, b, c],
        normals: if has_normals {
            Some(seq![a, b, c])
        } else {
            None
        },
        tex_coords: if has_tex {
            Some(seq![a, b, c])
        } else {
            None
        },
    }
}

/// Indices grouped into triangles; a trailing partial triangle is dropped.
pub open spec fn group_faces(ix: Seq<usize>, has_normals: bool, has_tex: bool) -> Seq<FaceModel> {
    Seq::new(
        ix.len() / 3,
        |k: int| face_model(ix[3 * k], ix[3 * k + 1], ix[3 * k + 2], has_normals, has_tex),
    )
}

/// Faces over consecutive vertex triples, used when a primitive has no indices.
pub open spec fn sequential_faces(n: int, has_normals: bool, has_tex: bool) -> Seq<FaceModel> {
    Seq::new(
        n as nat,
        |k: int| face_model((3 * k) as usize, (3 * k + 1) as usize, (3 * k + 2) as usize, has_normals, has_tex),
    )
}

/// The mesh of the first primitive of the first mesh.
pub open spec fn mesh_spec(g: GltfJson, bin: Seq<u8>) -> Result<MeshModel, GlbErrorModel> {
    if g.meshes@.len() == 0 || g.meshes@[0].primitives@.len() == 0 {
        Err(GlbErrorModel::NoMeshFound)
    } else {
        let p = g.meshes@[0].primitives@[0];
        match extract_vec3_spec(g, bin, p.attributes.position as int) {
            Err(e) => Err(e),
            Ok(v) => {
                let nr = match p.attributes.normal {
                    Some(i) => extract_vec3_spec(g, bin, i as int),
                    None => Ok(Seq::empty()),
                };
                match nr {
                    Err(e) => Err(e),
                    Ok(n) => {
                        let tr = match p.attributes.texcoord_0 {
                            Some(i) => extract_vec2_spec(g, bin, i as int),
                            None => Ok(Seq::empty()),
                        };
                        match tr {
                            Err(e) => Err(e),
                            Ok(t) => {
                                let fr = match p.indices {
                                    Some(i) => match extract_indices_spec(g, bin, i as int) {
                                        Ok(ix) => Ok(group_faces(ix, n.len() > 0, t.len() > 0)),
                                        Err(e) => Err(e),
                                    },
                                    None => Ok(sequential_faces((v.len() / 3) as int, n.len() > 0, t.len() > 0)),
                                };
                                match fr {
                                    Err(e) => Err(e),
                                    Ok(f) => Ok(MeshModel { vertices: v, normals: n, tex_coords: t, faces: f }),
                                }
                            },
                        }
                    },
                }
            },
        }
    }
}


fn overflow_error(prefix: &str, at: u128, middle: &str, size: Option<usize>) -> (e: GlbParseError)
    ensures
        e@ == GlbErrorModel::BufferOverflow(
            prefix@ + decimal(at as nat) + middle@ + match size {
                Some(n) => decimal(n as nat),
                None => Seq::<char>::empty(),
            },
        ),
{
    let mut m: Vec<char> = Vec::new();
    push_str(&mut m, prefix);
    let a = decimal_exec(at);
    push_chars(&mut m, &a);
    push_str(&mut m, middle);
    match size {
        Some(n) => {
            let b = decimal_exec(n as u128);
            push_chars(&mut m, &b);
        },
        None => {
            assert(m@ =~= m@ + Seq::<char>::empty());
        },
    }
    GlbParseError::BufferOverflow(string_from_chars(&m))
}

fn accessor_layout(g: &GltfJson, idx: usize) -> (r: Result<(u128, Option<usize>, usize, u32), GlbParseError>)
    ensures
        match r {
            Ok((o, s, c, t)) => accessor_layout_spec(*g, idx as int) == Ok::<
                (int, Option<usize>, int, u32),
                GlbErrorModel,
            >((o as int, s, c as int, t)),
            Err(e) => accessor_layout_spec(*g, idx as int) == Err::<
                (int, Option<usize>, int, u32),
                GlbErrorModel,
            >(e@),
        },
        r matches Ok((o, _, _, _)) ==> o < 0x2_0000_0000_0000_0000,
{
    if idx >= g.accessors.len() {
        let e = overflow_error("Accessor ", idx as u128, " not found", None);
        assert(Seq::<char>::empty() + " not found"@ =~= " not found"@);
        return Err(e);
    }
    let acc = g.accessors[idx];
    if acc.buffer_view >= g.buffer_views.len() {
        return Err(overflow_error("BufferView ", acc.buffer_view as u128, " not found", None));
    }
    let bv = g.buffer_views[acc.buffer_view];
    let extra: u128 = match acc.byte_offset {
        Some(o) => o as u128,
        None => 0,
    };
    Ok((bv.byte_offset as u128 + extra, bv.byte_stride, acc.count, acc.component_type))
}

/// The three-component entries of accessor `idx` (positions or normals):
/// the `count` entries at the accessor's offset, `byte_stride` apart (12
/// bytes by default), each component the bit pattern of a little-endian
/// `f32`; a read past the buffer's end is an overflow.
pub fn extract_vec3(g: &GltfJson, bin: &[u8], idx: usize) -> (r: Result<Vec<(u32, u32, u32)>, GlbParseError>)
    ensures
        match r {
            Ok(v) => extract_vec3_spec(*g, bin@, idx as int) == Ok::<Seq<(u32, u32, u32)>, GlbErrorModel>(v@),
            Err(e) => extract_vec3_spec(*g, bin@, idx as int) == Err::<Seq<(u32, u32, u32)>, GlbErrorModel>(e@),
        },
{
    let (off, stride_opt, count, ct) = match accessor_layout(g, idx) {
        Ok(l) => l,
        Err(e) => return Err(e),
    };
    let stride: u128 = match stride_opt {
        Some(s) => s as u128,
        None => 12,
    };
    let len: u128 = bin.len() as u128;
    let ghost so = opt_or(stride_opt, 12);
    let mut out: Vec<(u32, u32, u32)> = Vec::new();
    let mut i: usize = 0;
    let mut base: u128 = off;
    while i < count
        invariant
            accessor_layout_spec(*g, idx as int) == Ok::<(int, Option<usize>, int, u32), GlbErrorModel>(
                (off as int, stride_opt, count as int, ct),
            ),
            i <= count,
            so == stride as int,
            so == opt_or(stride_opt, 12),
            stride < 0x1_0000_0000_0000_0000,
            len == bin@.len(),
            len < 0x1_0000_0000_0000_0000,
            len <= usize::MAX,
            off < 0x2_0000_0000_0000_0000,
            base as int == off as int + i as int * stride as int,
            i > 0 ==> base <= len + stride,
            first_overrun(off as int, so, 12, count as int, len as int, 0) == first_overrun(
                off as int,
                so,
                12,
                count as int,
                len as int,
                i as int,
            ),
            out@ == Seq::new(i as nat, |k: int| vec3_at(bin@, off + k * so)),
        decreases count - i,
    {
        if base + 12 > len {
            assert(first_overrun(off as int, so, 12, count as int, len as int, i as int) == Some(i as int));
            return Err(overflow_error("Vec3 read at ", base + 12, " exceeds buffer size ", Some(bin.len())));
        }
        let b = base as usize;
        let x = read_u32_le(bin, b);
        let y = read_u32_le(bin, b + 4);
        let z = read_u32_le(bin, b + 8);
        out.push((x, y, z));
        proof {
            assert(out@ =~= Seq::new((i + 1) as nat, |k: int| vec3_at(bin@, off + k * so)));
            assert((i + 1) * so == i * so + so) by (nonlinear_arith);
        }
        i += 1;
        base = base + stride;
    }
    Ok(out)
}

/// The two-component entries of accessor `idx` (texture coordinates), as
/// `extract_vec3` reads them, 8 bytes apart by default.
pub fn extract_vec2(g: &GltfJson, bin: &[u8], idx: usize) -> (r: Result<Vec<(u32, u32)>, GlbParseError>)
    ensures
        match r {
            Ok(v) => extract_vec2_spec(*g, bin@, idx as int) == Ok::<Seq<(u32, u32)>, GlbErrorModel>(v@),
            Err(e) => extract_vec2_spec(*g, bin@, idx as int) == Err::<Seq<(u32, u32)>, GlbErrorModel>(e@),
        },
{
    let (off, stride_opt, count, ct) = match accessor_layout(g, idx) {
        Ok(l) => l,
        Err(e) => return Err(e),
    };
    let stride: u128 = match stride_opt {
        Some(s) => s as u128,
        None => 8,
    };
    let len: u128 = bin.len() as u128;
    let ghost so = opt_or(stride_opt, 8);
    let mut out: Vec<(u32, u32)> = Vec::new();
    let mut i: usize = 0;
    let mut base: u128 = off;
    while i < count
        invariant
            accessor_layout_spec(*g, idx as int) == Ok::<(int, Option<usize>, int, u32), GlbErrorModel>(
                (off as int, stride_opt, count as int, ct),
            ),
            i <= count,
            so == stride as int,
            so == opt_or(stride_opt, 8),
            stride < 0x1_0000_0000_0000_0000,
            len == bin@.len(),
            len < 0x1_0000_0000_0000_0000,
            len <= usize::MAX,
            off < 0x2_0000_0000_0000_0000,
            base as int == off as int + i as int * stride as int,
            i > 0 ==> base <= len + stride,
            first_overrun(off as int, so, 8, count as int, len as int, 0) == first_overrun(
                off as int,
                so,
                8,
                count as int,
                len as int,
                i as int,
            ),
            out@ == Seq::new(i as nat, |k: int| vec2_at(bin@, off + k * so)),
        decreases count - i,
    {
        if base + 8 > len {
            assert(first_overrun(off as int, so, 8, count as int, len as int, i as int) == Some(i as int));
            return Err(overflow_error("Vec2 read at ", base + 8, " exceeds buffer size ", Some(bin.len())));
        }
        let b = base as usize;
        let x = read_u32_le(bin, b);
        let y = read_u32_le(bin, b + 4);
        out.push((x, y));
        proof {
            assert(out@ =~= Seq::new((i + 1) as nat, |k: int| vec2_at(bin@, off + k * so)));
            assert((i + 1) * so == i * so + so) by (nonlinear_arith);
        }
        i += 1;
        base = base + stride;
    }
    Ok(out)
}

fn extract_indices(g: &GltfJson, bin: &[u8], idx: usize) -> (r: Result<Vec<usize>, GlbParseError>)
    ensures
        match r {
            Ok(v) => extract_indices_spec(*g, bin@, idx as int) == Ok::<Seq<usize>, GlbErrorModel>(v@),
            Err(e) => extract_indices_spec(*g, bin@, idx as int) == Err::<Seq<usize>, GlbErrorModel>(e@),
        },
{
    let (off, stride_opt, count, ct) = match accessor_layout(g, idx) {
        Ok(l) => l,
        Err(e) => return Err(e),
    };
    let w: u128 = if ct == 5121 {
        1
    } else if ct == 5123 {
        2
    } else if ct == 5125 {
        4
    } else {
        return Err(GlbParseError::UnsupportedIndexType(ct));
    };
    let len: u128 = bin.len() as u128;
    let ghost wi = index_width(ct);
    let mut out: Vec<usize> = Vec::new();
    let mut i: usize = 0;
    let mut base: u128 = off;
    while i < count
        invariant
            accessor_layout_spec(*g, idx as int) == Ok::<(int, Option<usize>, int, u32), GlbErrorModel>(
                (off as int, stride_opt, count as int, ct),
            ),
            i <= count,
            wi == w as int,
            wi == index_width(ct),
            w == 1 || w == 2 || w == 4,
            w == 1 ==> ct == 5121,
            w == 2 ==> ct == 5123,
            w == 4 ==> ct == 5125,
            len == bin@.len(),
            len < 0x1_0000_0000_0000_0000,
            len <= usize::MAX,
            off < 0x2_0000_0000_0000_0000,
            base as int == off as int + i as int * w as int,
            i > 0 ==> base <= len + w,
            first_overrun(off as int, wi, wi, count as int, len as int, 0) == first_overrun(
                off as int,
                wi,
                wi,
                count as int,
                len as int,
                i as int,
            ),
            out@ == Seq::new(i as nat, |k: int| index_at(bin@, ct, off + k * wi)),
        decreases count - i,
    {
        if base + w > len {
            assert(first_overrun(off as int, wi, wi, count as int, len as int, i as int) == Some(i as int));
            return Err(overflow_error("Index read at ", base, " exceeds buffer", None));
        }
        let b = base as usize;
        let v: usize = if w == 1 {
            bin[b] as usize
        } else if w == 2 {
            read_u16_le(bin, b) as usize
        } else {
            read_u32_le(bin, b) as usize
        };
        out.push(v);
        proof {
            assert(out@ =~= Seq::new((i + 1) as nat, |k: int| index_at(bin@, ct, off + k * wi)));
            assert((i + 1) * wi == i * wi + wi) by (nonlinear_arith);
        }
        i += 1;
        base = base + w;
    }
    Ok(out)
}

fn face_of(a: usize, b: usize, c: usize, has_normals: bool, has_tex: bool) -> (f: Face)
    ensures
        face_view(f) == face_model(a, b, c, has_normals, has_tex),
{
    let arr: [usize; 3] = [a, b, c];
    assert(arr@ =~= seq![a, b, c]);
    Face {
        vertices: arr,
        normals: if has_normals {
            Some(arr)
        } else {
            None
        },
        tex_coords: if has_tex {
            Some(arr)
        } else {
            None
        },
    }
}

fn group_into_faces(ix: &Vec<usize>, has_normals: bool, has_tex: bool) -> (r: Vec<Face>)
    ensures
        r@.map_values(|f: Face| face_view(f)) == group_faces(ix@, has_normals, has_tex),
{
    let n = ix.len() / 3;
    let mut out: Vec<Face> = Vec::new();
    let mut k: usize = 0;
    while k < n
        invariant
            n == ix.len() / 3,
            k <= n,
            out@.len() == k,
            forall|j: int| 0 <= j < k ==> face_view(#[trigger] out@[j]) == group_faces(ix@, has_normals, has_tex)[j],
        decreases n - k,
    {
        let f = face_of(ix[3 * k], ix[3 * k + 1], ix[3 * k + 2], has_normals, has_tex);
        out.push(f);
        k += 1;
    }
    assert(out@.map_values(|f: Face| face_view(f)) =~= group_faces(ix@, has_normals, has_tex));
    out
}

fn sequential_into_faces(n: usize, has_normals: bool, has_tex: bool) -> (r: Vec<Face>)
    requires
        n <= usize::MAX / 3,
    ensures
        r@.map_values(|f: Face| face_view(f)) == sequential_faces(n as int, has_normals, has_tex),
{
    let mut out: Vec<Face> = Vec::new();
    let mut k: usize = 0;
    while k < n
        invariant
            n <= usize::MAX / 3,
            k <= n,
            out@.len() == k,
            forall|j: int| 0 <= j < k ==> face_view(#[trigger] out@[j]) == sequential_faces(n as int, has_normals, has_tex)[j],
        decreases n - k,
    {
        let f = face_of(3 * k, 3 * k + 1, 3 * k + 2, has_normals, has_tex);
        out.push(f);
        k += 1;
    }
    assert(out@.map_values(|f: Face| face_view(f)) =~= sequential_faces(n as int, has_normals, has_tex));
    out
}

fn to_vertices(v: &Vec<(u32, u32, u32)>) -> (r: Vec<Vertex>)
    ensures
        r@.map_values(|x: Vertex| (x.x_bits, x.y_bits, x.z_bits)) == v@,
{
    let mut out: Vec<Vertex> = Vec::new();
    let mut i: usize = 0;
    while i < v.len()
        invariant
            i <= v.len(),
            out@.len() == i,
            forall|j: int| 0 <= j < i ==> { let x = #[trigger] out@[j]; (x.x_bits, x.y_bits, x.z_bits) } == v@[j],
        decreases v.len() - i,
    {
        let (a, b, c) = v[i];
        out.push(Vertex { x_bits: a, y_bits: b, z_bits: c });
        i += 1;
    }
    assert(out@.map_values(|x: Vertex| (x.x_bits, x.y_bits, x.z_bits)) =~= v@);
    out
}

fn to_normals(v: &Vec<(u32, u32, u32)>) -> (r: Vec<Normal>)
    ensures
        r@.map_values(|x: Normal| (x.x_bits, x.y_bits, x.z_bits)) == v@,
{
    let mut out: Vec<Normal> = Vec::new();
    let mut i: usize = 0;
    while i < v.len()
        invariant
            i <= v.len(),
            out@.len() == i,
            forall|j: int| 0 <= j < i ==> { let x = #[trigger] out@[j]; (x.x_bits, x.y_bits, x.z_bits) } == v@[j],
        decreases v.len() - i,
    {
        let (a, b, c) = v[i];
        out.push(Normal { x_bits: a, y_bits: b, z_bits: c });
        i += 1;
    }
    assert(out@.map_values(|x: Normal| (x.x_bits, x.y_bits, x.z_bits)) =~= v@);
    out
}

fn to_tex_coords(v: &Vec<(u32, u32)>) -> (r: Vec<TexCoord>)
    ensures
        r@.map_values(|x: TexCoord| (x.u_bits, x.v_bits)) == v@,
{
    let mut out: Vec<TexCoord> = Vec::new();
    let mut i: usize = 0;
    while i < v.len()
        invariant
            i <= v.len(),
            out@.len() == i,
            forall|j: int| 0 <= j < i ==> { let x = #[trigger] out@[j]; (x.u_bits, x.v_bits) } == v@[j],
        decreases v.len() - i,
    {
        let (a, b) = v[i];
        out.push(TexCoord { u_bits: a, v_bits: b });
        i += 1;
    }
    assert(out@.map_values(|x: TexCoord| (x.u_bits, x.v_bits)) =~= v@);
    out
}

/// The whole GLB pipeline after the JSON chunk has been parsed.
pub open spec fn glb_from_parts_spec(d: Seq<u8>, json_end: int, g: GltfJson) -> Result<MeshModel, GlbErrorModel> {
    match bin_chunk_spec(d, json_end) {
        Err(e) => Err(e),
        Ok((s, e)) => mesh_spec(g, d.subrange(s, e)),
    }
}

impl GlbMesh {
    /// Reads the mesh of the first primitive of the first mesh out of the BIN chunk.
    pub fn from_gltf(gltf: &GltfJson, bin: &[u8]) -> (r: Result<GlbMesh, GlbParseError>)
        ensures
            mesh_result_view(r) == mesh_spec(*gltf, bin@),
    {
        if gltf.meshes.len() == 0 || gltf.meshes[0].primitives.len() == 0 {
            return Err(GlbParseError::NoMeshFound);
        }
        let p = gltf.meshes[0].primitives[0];
        let v = match extract_vec3(gltf, bin, p.attributes.position) {
            Ok(v) => v,
            Err(e) => return Err(e),
        };
        let n: Vec<(u32, u32, u32)> = match p.attributes.normal {
            Some(i) => match extract_vec3(gltf, bin, i) {
                Ok(n) => n,
                Err(e) => return Err(e),
            },
            None => Vec::new(),
        };
        let t: Vec<(u32, u32)> = match p.attributes.texcoord_0 {
            Some(i) => match extract_vec2(gltf, bin, i) {
                Ok(t) => t,
                Err(e) => return Err(e),
            },
            None => Vec::new(),
        };
        let has_n = n.len() > 0;
        let has_t = t.len() > 0;
        let faces = match p.indices {
            Some(i) => match GlbMesh::extract_faces(gltf, bin, i, has_n, has_t) {
                Ok(fs) => fs,
                Err(e) => return Err(e),
            },
            None => sequential_into_faces(v.len() / 3, has_n, has_t),
        };
        let mesh = GlbMesh {
            vertices: to_vertices(&v),
            faces,
            normals: to_normals(&n),
            tex_coords: to_tex_coords(&t),
        };
        Ok(mesh)
    }

    /// The triangles that index accessor `idx` describes: its indices (of
    /// 1, 2 or 4 bytes, read little-endian) taken three at a time, a partial
    /// triple at the end dropped; normals and texture coordinates share the
    /// vertex indices when the mesh has them.
    pub fn extract_faces(
        gltf: &GltfJson,
        bin: &[u8],
        idx: usize,
        has_normals: bool,
        has_texcoords: bool,
    ) -> (r: Result<Vec<Face>, GlbParseError>)
        ensures
            match extract_indices_spec(*gltf, bin@, idx as int) {
                Ok(ix) => r matches Ok(fs) && fs@.map_values(|f: Face| face_view(f)) == group_faces(
                    ix,
                    has_normals,
                    has_texcoords,
                ),
                Err(e) => r matches Err(x) && x@ == e,
            },
    {
        match extract_indices(gltf, bin, idx) {
            Ok(ix) => Ok(group_into_faces(&ix, has_normals, has_texcoords)),
            Err(e) => Err(e),
        }
    }

    /// Locates the BIN chunk after the JSON chunk ending at `json_end`, then
    /// reads the mesh that `gltf` (the parsed JSON chunk) describes.
    pub fn from_container(data: &[u8], json_end: usize, gltf: &GltfJson) -> (r: Result<GlbMesh, GlbParseError>)
        ensures
            mesh_result_view(r) == glb_from_parts_spec(data@, json_end as int, *gltf),
    {
        let (s, e) = match locate_bin_chunk(data, json_end) {
            Ok(range) => range,
            Err(err) => return Err(err),
        };
        let bin = vstd::slice::slice_subrange(data, s, e);
        GlbMesh::from_gltf(gltf, bin)
    }

    /// Get the number of vertices.
    pub fn vertex_count(&self) -> (n: usize)
        ensures
            n == self.vertices@.len(),
    {
        self.vertices.len()
    }

    /// Get the number of faces.
    pub fn face_count(&self) -> (n: usize)
        ensures
            n == self.faces@.len(),
    {
        self.faces.len()
    }
}

/// The text a GLB error reads as (what `Display` would print).
pub open spec fn glb_error_text(e: GlbErrorModel) -> Seq<char> {
    match e {
        GlbErrorModel::InvalidHeader(s) => "Invalid GLB header: "@ + s,
        GlbErrorModel::UnsupportedVersion(v) => "Unsupported glTF version: "@ + decimal(v as nat),
        GlbErrorModel::InvalidChunk(s) => "Invalid chunk: "@ + s,
        GlbErrorModel::JsonError(s) => "JSON parse error: "@ + s,
        GlbErrorModel::NoMeshFound => "No mesh found in GLB"@,
        GlbErrorModel::UnsupportedIndexType(t) => "Unsupported index type: "@ + decimal(t as nat),
        GlbErrorModel::BufferOverflow(s) => "Buffer overflow: "@ + s,
    }
}

impl GlbParseError {
    pub fn message(&self) -> (s: String)
        ensures
            s@ == glb_error_text(self@),
    {
        let mut m: Vec<char> = Vec::new();
        match self {
            GlbParseError::InvalidHeader(s) => {
                push_str(&mut m, "Invalid GLB header: ");
                push_str(&mut m, s.as_str());
            },
            GlbParseError::UnsupportedVersion(v) => {
                push_str(&mut m, "Unsupported glTF version: ");
                let d = decimal_exec(*v as u128);
                push_chars(&mut m, &d);
            },
            GlbParseError::InvalidChunk(s) => {
                push_str(&mut m, "Invalid chunk: ");
                push_str(&mut m, s.as_str());
            },
            GlbParseError::JsonError(s) => {
                push_str(&mut m, "JSON parse error: ");
                push_str(&mut m, s.as_str());
            },
            GlbParseError::NoMeshFound => {
                push_str(&mut m, "No mesh found in GLB");
                assert(m@ =~= "No mesh found in GLB"@);
            },
            GlbParseError::UnsupportedIndexType(t) => {
                push_str(&mut m, "Unsupported index type: ");
                let d = decimal_exec(*t as u128);
                push_chars(&mut m, &d);
            },
            GlbParseError::BufferOverflow(s) => {
                push_str(&mut m, "Buffer overflow: ");
                push_str(&mut m, s.as_str());
            },
        }
        string_from_chars(&m)
    }
}

proof fn lemma_no_overrun(off: int, step: int, count: int, len: int, from: int)
    requires
        0 <= from,
        step >= 0,
        off + step * count <= len,
    ensures
        first_overrun(off, step, step, count, len, from) is None,
    decreases count - from,
{
    if from < count {
        assert(off + from * step + step <= off + step * count) by (nonlinear_arith)
            requires
                from < count,
                step >= 0,
        ;
        lemma_no_overrun(off, step, count, len, from + 1);
    }
}

/// Texture coordinates packed without a stride lie 8 bytes apart: an
/// accessor of `count` pairs that lies wholly inside the buffer is read
/// without error, its `i`-th pair being the two little-endian words at
/// `view offset + accessor offset + 8 * i`.
pub proof fn law_vec2_tightly_packed(g: GltfJson, bin: Seq<u8>, idx: int)
    requires
        0 <= idx < g.accessors@.len(),
        g.accessors@[idx].buffer_view < g.buffer_views@.len(),
        g.buffer_views@[g.accessors@[idx].buffer_view as int].byte_stride is None,
        g.buffer_views@[g.accessors@[idx].buffer_view as int].byte_offset + opt_or(g.accessors@[idx].byte_offset, 0)
            + 8 * g.accessors@[idx].count <= bin.len(),
    ensures
        ({
            let acc = g.accessors@[idx];
            let off = g.buffer_views@[acc.buffer_view as int].byte_offset + opt_or(acc.byte_offset, 0);
            extract_vec2_spec(g, bin, idx) == Ok::<Seq<(u32, u32)>, GlbErrorModel>(
                Seq::new(acc.count as nat, |i: int| (u32_le(bin, off + 8 * i), u32_le(bin, off + 8 * i + 4))),
            )
        }),
{
    let acc = g.accessors@[idx];
    let off = g.buffer_views@[acc.buffer_view as int].byte_offset + opt_or(acc.byte_offset, 0);
    lemma_no_overrun(off, 8, acc.count as int, bin.len() as int, 0);
    assert(Seq::new(acc.count as nat, |i: int| vec2_at(bin, off + i * 8)) =~= Seq::new(
        acc.count as nat,
        |i: int| (u32_le(bin, off + 8 * i), u32_le(bin, off + 8 * i + 4)),
    ));
}

/// Positions and normals packed without a stride lie 12 bytes apart: an
/// accessor of `count` triples that lies wholly inside the buffer is read
/// without error, its `i`-th triple being the three little-endian words at
/// `view offset + accessor offset + 12 * i`.
pub proof fn law_vec3_tightly_packed(g: GltfJson, bin: Seq<u8>, idx: int)
    requires
        0 <= idx < g.accessors@.len(),
        g.accessors@[idx].buffer_view < g.buffer_views@.len(),
        g.buffer_views@[g.accessors@[idx].buffer_view as int].byte_stride is None,
        g.buffer_views@[g.accessors@[idx].buffer_view as int].byte_offset + opt_or(g.accessors@[idx].byte_offset, 0)
            + 12 * g.accessors@[idx].count <= bin.len(),
    ensures
        ({
            let acc = g.accessors@[idx];
            let off = g.buffer_views@[acc.buffer_view as int].byte_offset + opt_or(acc.byte_offset, 0);
            extract_vec3_spec(g, bin, idx) == Ok::<Seq<(u32, u32, u32)>, GlbErrorModel>(
                Seq::new(
                    acc.count as nat,
                    |i: int| (u32_le(bin, off + 12 * i), u32_le(bin, off + 12 * i + 4), u32_le(bin, off + 12 * i + 8)),
                ),
            )
        }),
{
    let acc = g.accessors@[idx];
    let off = g.buffer_views@[acc.buffer_view as int].byte_offset + opt_or(acc.byte_offset, 0);
    lemma_no_overrun(off, 12, acc.count as int, bin.len() as int, 0);
    assert(Seq::new(acc.count as nat, |i: int| vec3_at(bin, off + i * 12)) =~= Seq::new(
        acc.count as nat,
        |i: int| (u32_le(bin, off + 12 * i), u32_le(bin, off + 12 * i + 4), u32_le(bin, off + 12 * i + 8)),
    ));
}

proof fn lemma_no_overrun_within(off: int, step: int, width: int, count: int, len: int, from: int)
    requires
        0 <= from,
        step >= 0,
        count > 0 ==> off + step * (count - 1) + width <= len,
    ensures
        first_overrun(off, step, width, count, len, from) is None,
    decreases count - from,
{
    if from < count {
        assert(off + from * step + width <= off + step * (count - 1) + width) by (nonlinear_arith)
            requires
                from < count,
                step >= 0,
        ;
        lemma_no_overrun_within(off, step, width, count, len, from + 1);
    }
}

/// Entries of an accessor whose view gives a stride lie that many bytes
/// apart: when the last entry ends inside the buffer, the `i`-th triple is
/// the three little-endian words at `offset + stride * i`.
pub proof fn law_vec3_strided(g: GltfJson, bin: Seq<u8>, idx: int, stride: usize)
    requires
        0 <= idx < g.accessors@.len(),
        g.accessors@[idx].buffer_view < g.buffer_views@.len(),
        g.buffer_views@[g.accessors@[idx].buffer_view as int].byte_stride == Some(stride),
        g.accessors@[idx].count > 0 ==> g.buffer_views@[g.accessors@[idx].buffer_view as int].byte_offset + opt_or(
            g.accessors@[idx].byte_offset,
            0,
        ) + stride * (g.accessors@[idx].count - 1) + 12 <= bin.len(),
    ensures
        ({
            let acc = g.accessors@[idx];
            let off = g.buffer_views@[acc.buffer_view as int].byte_offset + opt_or(acc.byte_offset, 0);
            extract_vec3_spec(g, bin, idx) == Ok::<Seq<(u32, u32, u32)>, GlbErrorModel>(
                Seq::new(
                    acc.count as nat,
                    |i: int| (
                        u32_le(bin, off + stride * i),
                        u32_le(bin, off + stride * i + 4),
                        u32_le(bin, off + stride * i + 8),
                    ),
                ),
            )
        }),
{
    let acc = g.accessors@[idx];
    let off = g.buffer_views@[acc.buffer_view as int].byte_offset + opt_or(acc.byte_offset, 0);
    lemma_no_overrun_within(off, stride as int, 12, acc.count as int, bin.len() as int, 0);
    assert(Seq::new(acc.count as nat, |i: int| vec3_at(bin, off + i * stride)) =~= Seq::new(
        acc.count as nat,
        |i: int| (u32_le(bin, off + stride * i), u32_le(bin, off + stride * i + 4), u32_le(bin, off + stride * i + 8)),
    ));
}

/// Index accessors hold 1-, 2- or 4-byte unsigned integers read
/// little-endian, packed one after another: when the last one ends inside
/// the buffer, the `i`-th index is the one at `offset + width * i`; any
/// other component type is refused as unsupported.
pub proof fn law_indices(g: GltfJson, bin: Seq<u8>, idx: int)
    requires
        0 <= idx < g.accessors@.len(),
        g.accessors@[idx].buffer_view < g.buffer_views@.len(),
    ensures
        ({
            let acc = g.accessors@[idx];
            let off = g.buffer_views@[acc.buffer_view as int].byte_offset + opt_or(acc.byte_offset, 0);
            let ct = acc.component_type;
            let n = acc.count as int;
            &&& (ct != 5121 && ct != 5123 && ct != 5125) ==> extract_indices_spec(g, bin, idx) == Err::<
                Seq<usize>,
                GlbErrorModel,
            >(GlbErrorModel::UnsupportedIndexType(ct))
            &&& (ct == 5121 && off + n <= bin.len()) ==> extract_indices_spec(g, bin, idx) == Ok::<
                Seq<usize>,
                GlbErrorModel,
            >(Seq::new(n as nat, |i: int| bin[off + i] as usize))
            &&& (ct == 5123 && off + 2 * n <= bin.len()) ==> extract_indices_spec(g, bin, idx) == Ok::<
                Seq<usize>,
                GlbErrorModel,
            >(Seq::new(n as nat, |i: int| u16_le(bin, off + 2 * i) as usize))
            &&& (ct == 5125 && off + 4 * n <= bin.len()) ==> extract_indices_spec(g, bin, idx) == Ok::<
                Seq<usize>,
                GlbErrorModel,
            >(Seq::new(n as nat, |i: int| u32_le(bin, off + 4 * i) as usize))
        }),
{
    let acc = g.accessors@[idx];
    let off = g.buffer_views@[acc.buffer_view as int].byte_offset + opt_or(acc.byte_offset, 0);
    let ct = acc.component_type;
    let n = acc.count as int;
    if ct == 5121 && off + n <= bin.len() {
        lemma_no_overrun(off, 1, n, bin.len() as int, 0);
        assert(Seq::new(n as nat, |i: int| index_at(bin, ct, off + i * 1)) =~= Seq::new(n as nat, |i: int| bin[off + i] as usize));
    }
    if ct == 5123 && off + 2 * n <= bin.len() {
        lemma_no_overrun(off, 2, n, bin.len() as int, 0);
        assert(Seq::new(n as nat, |i: int| index_at(bin, ct, off + i * 2)) =~= Seq::new(
            n as nat,
            |i: int| u16_le(bin, off + 2 * i) as usize,
        ));
    }
    if ct == 5125 && off + 4 * n <= bin.len() {
        lemma_no_overrun(off, 4, n, bin.len() as int, 0);
        assert(Seq::new(n as nat, |i: int| index_at(bin, ct, off + i * 4)) =~= Seq::new(
            n as nat,
            |i: int| u32_le(bin, off + 4 * i) as usize,
        ));
    }
}

} // verus!
