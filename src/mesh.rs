//! Parsing of the binary vertex and index streams of a mesh.
//!
//! A vertex stream is a flat run of little-endian `i16`, five per vertex
//! (`x, y, z, u, v`). At load time every vertex is widened to six slots with a
//! zero at slot 3, so that the texture coordinates start on an 8-byte boundary.
//! An index stream is a flat run of little-endian `u16`.
use vstd::prelude::*;

verus! {

/// Bytes in one vertex of the source stream: five 16-bit values.
pub const VERTEX_BYTES: usize = 10;

/// Bytes in one index of the source stream.
pub const INDEX_BYTES: usize = 2;

/// Why a byte stream could not be read as mesh data.
#[derive(Clone, Copy, Debug, PartialEq, Eq, Structural)]
pub enum LoadError {
    /// The vertex stream is not a whole number of vertices.
    MisalignedVertices,
    /// The index stream is not a whole number of indices.
    MisalignedIndices,
    /// The registry has no key or no buffer room left for another model.
    OutOfRoom,
}

/// The unsigned value of two bytes read little-endian.
pub open spec fn le_u16(lo: u8, hi: u8) -> int {
    lo as int + 256 * (hi as int)
}

/// The signed value of two bytes read little-endian, two's complement.
pub open spec fn le_i16(lo: u8, hi: u8) -> int {
    let u = le_u16(lo, hi);
    if u < 0x8000 {
        u
    } else {
        u - 0x10000
    }
}

/// The `k`-th 16-bit word of `b`, read as a signed value.
pub open spec fn short_at(b: Seq<u8>, k: int) -> int {
    le_i16(b[2 * k], b[2 * k + 1])
}

/// The `k`-th 16-bit word of `b`, read as an unsigned value.
pub open spec fn word_at(b: Seq<u8>, k: int) -> int {
    le_u16(b[2 * k], b[2 * k + 1])
}

/// The six slots of vertex `v` of a source stream: position, a zero pad, texture coordinates.
pub open spec fn vertex_of(b: Seq<u8>, v: int) -> Seq<int> {
    seq![
        short_at(b, 5 * v),
        short_at(b, 5 * v + 1),
        short_at(b, 5 * v + 2),
        0,
        short_at(b, 5 * v + 3),
        short_at(b, 5 * v + 4),
    ]
}

/// A parsed vertex as a sequence of integers.
pub open spec fn vertex_view(a: [i16; 6]) -> Seq<int> {
    a@.map_values(|x: i16| x as int)
}

/// `vs` holds exactly the vertices of the source stream `b`.
pub open spec fn arrays_parsed_from(vs: Seq<[i16; 6]>, b: Seq<u8>) -> bool {
    &&& vs.len() == b.len() / (VERTEX_BYTES as nat)
    &&& forall|v: int| 0 <= v < vs.len() ==> vertex_view(#[trigger] vs[v]) == vertex_of(b, v)
}

/// `es` holds exactly the indices of the source stream `b`.
pub open spec fn elements_parsed_from(es: Seq<u16>, b: Seq<u8>) -> bool {
    &&& es.len() == b.len() / (INDEX_BYTES as nat)
    &&& forall|k: int| 0 <= k < es.len() ==> #[trigger] es[k] as int == word_at(b, k)
}

/// Reads the `k`-th little-endian `u16` of `bytes`.
fn read_u16(bytes: &[u8], k: usize) -> (r: u16)
    requires
        2 * k + 1 < bytes@.len(),
    ensures
        r as int == word_at(bytes@, k as int),
{
    let len = bytes.len();
    assert(2 * k + 1 < len);
    let lo = bytes[2 * k] as u16;
    let hi = bytes[2 * k + 1] as u16;
    lo + 256 * hi
}

/// Reads the `k`-th little-endian `i16` of `bytes`.
fn read_i16(bytes: &[u8], k: usize) -> (r: i16)
    requires
        2 * k + 1 < bytes@.len(),
    ensures
        r as int == short_at(bytes@, k as int),
{
    let u = read_u16(bytes, k) as i32;
    if u < 0x8000 {
        u as i16
    } else {
        (u - 0x10000) as i16
    }
}

/// Parses a vertex stream, widening each five-value vertex to six slots.
/// Fails when the stream is not a whole number of vertices.
pub fn parse_arrays(src: &[u8]) -> (r: Result<Vec<[i16; 6]>, LoadError>)
    ensures
        src@.len() % (VERTEX_BYTES as nat) == 0 <==> r is Ok,
        r is Err ==> r == Err::<Vec<[i16; 6]>, LoadError>(LoadError::MisalignedVertices),
        r matches Ok(vs) ==> arrays_parsed_from(vs@, src@),
{
    if src.len() % VERTEX_BYTES != 0 {
        return Err(LoadError::MisalignedVertices);
    }
    let len = src.len();
    let n = len / VERTEX_BYTES;
    let mut arrays: Vec<[i16; 6]> = Vec::with_capacity(n);
    let mut v: usize = 0;
    while v < n
        invariant
            len == src@.len(),
            n == src@.len() / (VERTEX_BYTES as nat),
            src@.len() % (VERTEX_BYTES as nat) == 0,
            v <= n,
            arrays@.len() == v,
            forall|w: int| 0 <= w < v ==> vertex_view(#[trigger] arrays@[w]) == vertex_of(src@, w),
        decreases n - v,
    {
        assert(5 * v + 4 < n * 5 && 2 * (5 * v + 4) + 1 < src@.len()) by (nonlinear_arith)
            requires
                v < n,
                n == src@.len() / 10,
                src@.len() % 10 == 0,
        ;
        let k = 5 * v;
        let vertex = [
            read_i16(src, k),
            read_i16(src, k + 1),
            read_i16(src, k + 2),
            0,
            read_i16(src, k + 3),
            read_i16(src, k + 4),
        ];
        assert(vertex_view(vertex) =~= vertex_of(src@, v as int));
        arrays.push(vertex);
        v += 1;
    }
    Ok(arrays)
}

/// Parses an index stream. Fails when the stream is not a whole number of indices.
pub fn parse_elements(src: &[u8]) -> (r: Result<Vec<u16>, LoadError>)
    ensures
        src@.len() % (INDEX_BYTES as nat) == 0 <==> r is Ok,
        r is Err ==> r == Err::<Vec<u16>, LoadError>(LoadError::MisalignedIndices),
        r matches Ok(es) ==> elements_parsed_from(es@, src@),
{
    if src.len() % INDEX_BYTES != 0 {
        return Err(LoadError::MisalignedIndices);
    }
    let n = src.len() / INDEX_BYTES;
    let mut elements: Vec<u16> = Vec::with_capacity(n);
    let mut k: usize = 0;
    while k < n
        invariant
            n == src@.len() / (INDEX_BYTES as nat),
            src@.len() % (INDEX_BYTES as nat) == 0,
            k <= n,
            elements@.len() == k,
            forall|j: int| 0 <= j < k ==> #[trigger] elements@[j] as int == word_at(src@, j),
        decreases n - k,
    {
        assert(2 * k + 1 < src@.len()) by (nonlinear_arith)
            requires
                k < n,
                n == src@.len() / 2,
                src@.len() % 2 == 0,
        ;
        elements.push(read_u16(src, k));
        k += 1;
    }
    Ok(elements)
}

} // verus!
