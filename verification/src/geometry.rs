//! Assembling per-vertex attributes from the flat arrays of a loaded model:
//! positions come in threes, texture coordinates in twos, normals in threes,
//! and vertex `i` takes the `i`-th group of each. The attribute values are
//! carried through untouched, whatever their type.
use vstd::prelude::*;

verus! {

/// The attributes that one vertex takes from the flat arrays.
pub struct VertexAttributes<T> {
    pub position: (T, T, T),
    /// `None` where the texture coordinate array has no entry for the vertex.
    pub uv: Option<(T, T)>,
    /// `None` where the normal array has no entry for the vertex.
    pub normal: Option<(T, T, T)>,
}

/// The `i`-th group of three in `s`.
pub open spec fn triple_at<T>(s: Seq<T>, i: int) -> (T, T, T) {
    (s[3 * i], s[3 * i + 1], s[3 * i + 2])
}

/// The `i`-th group of two in `s`.
pub open spec fn pair_at<T>(s: Seq<T>, i: int) -> (T, T) {
    (s[2 * i], s[2 * i + 1])
}

/// The flat arrays hold whole groups only. The loader reads the second and
/// third value of every group, so a partial group at the end is out of range.
pub open spec fn whole_groups<T>(positions: Seq<T>, texcoords: Seq<T>, normals: Seq<T>) -> bool {
    &&& positions.len() % 3 == 0
    &&& texcoords.len() % 2 == 0
    &&& normals.len() % 3 == 0
}

/// Vertex `i`: its position group, and its texture coordinate and normal
/// groups where those arrays reach that far.
pub open spec fn vertex_at<T>(positions: Seq<T>, texcoords: Seq<T>, normals: Seq<T>, i: int) -> VertexAttributes<T> {
    VertexAttributes {
        position: triple_at(positions, i),
        uv: if i < texcoords.len() / 2 {
            Some(pair_at(texcoords, i))
        } else {
            None
        },
        normal: if i < normals.len() / 3 {
            Some(triple_at(normals, i))
        } else {
            None
        },
    }
}

/// What vertex `i` takes, in plain terms: its position is the `i`-th group
/// of three positions; its texture coordinate is the `i`-th pair of the
/// texture coordinate array exactly when that array has an `i`-th pair; its
/// normal is the `i`-th group of three normals exactly when the normal array
/// has an `i`-th group.
pub proof fn lemma_vertex_takes_ith_groups<T>(positions: Seq<T>, texcoords: Seq<T>, normals: Seq<T>, i: int)
    requires
        0 <= i,
    ensures
        vertex_at(positions, texcoords, normals, i).position == (positions[3 * i], positions[3 * i
            + 1], positions[3 * i + 2]),
        2 * i + 2 <= texcoords.len() ==> vertex_at(positions, texcoords, normals, i).uv == Some(
            (texcoords[2 * i], texcoords[2 * i + 1]),
        ),
        2 * i + 2 > texcoords.len() ==> vertex_at(positions, texcoords, normals, i).uv is None,
        3 * i + 3 <= normals.len() ==> vertex_at(positions, texcoords, normals, i).normal == Some(
            (normals[3 * i], normals[3 * i + 1], normals[3 * i + 2]),
        ),
        3 * i + 3 > normals.len() ==> vertex_at(positions, texcoords, normals, i).normal is None,
{
}

/// The attribute arrays are independent: a vertex's normal does not depend
/// on the texture coordinates or the positions, its texture coordinate does
/// not depend on the normals or the positions, and its position depends on
/// the positions only.
pub proof fn lemma_attributes_independent<T>(
    p1: Seq<T>,
    t1: Seq<T>,
    n1: Seq<T>,
    p2: Seq<T>,
    t2: Seq<T>,
    n2: Seq<T>,
    i: int,
)
    ensures
        vertex_at(p1, t1, n1, i).normal == vertex_at(p2, t2, n1, i).normal,
        vertex_at(p1, t1, n1, i).uv == vertex_at(p2, t1, n2, i).uv,
        vertex_at(p1, t1, n1, i).position == vertex_at(p1, t2, n2, i).position,
{
}

/// One vertex per position group; texture coordinates and normals are taken
/// where present and left out past the end of their arrays (the thumbnail
/// server fills those in with defaults).
pub fn vertex_attributes_padded<T: Copy>(positions: &[T], texcoords: &[T], normals: &[T]) -> (res:
    Vec<VertexAttributes<T>>)
    requires
        whole_groups(positions@, texcoords@, normals@),
    ensures
        res.len() == positions.len() / 3,
        forall|i: int|
            0 <= i < res.len() ==> #[trigger] res@[i] == vertex_at(positions@, texcoords@, normals@, i),
        forall|i: int|
            0 <= i < res.len() ==> {
                &&& #[trigger] res@[i].position == (positions@[3 * i], positions@[3 * i + 1],
                    positions@[3 * i + 2])
                &&& (2 * i + 2 <= texcoords.len() ==> res@[i].uv == Some(
                    (texcoords@[2 * i], texcoords@[2 * i + 1]),
                ))
                &&& (2 * i + 2 > texcoords.len() ==> res@[i].uv is None)
                &&& (3 * i + 3 <= normals.len() ==> res@[i].normal == Some(
                    (normals@[3 * i], normals@[3 * i + 1], normals@[3 * i + 2]),
                ))
                &&& (3 * i + 3 > normals.len() ==> res@[i].normal is None)
            },
{
    let count = positions.len() / 3;
    let n_uv = texcoords.len() / 2;
    let n_normal = normals.len() / 3;
    let mut res: Vec<VertexAttributes<T>> = Vec::new();
    let mut i: usize = 0;
    while i < count
        invariant
            whole_groups(positions@, texcoords@, normals@),
            count == positions.len() / 3,
            n_uv == texcoords.len() / 2,
            n_normal == normals.len() / 3,
            i <= count,
            res.len() == i,
            forall|j: int|
                0 <= j < i ==> #[trigger] res@[j] == vertex_at(positions@, texcoords@, normals@, j),
        decreases count - i,
    {
        let position = (positions[3 * i], positions[3 * i + 1], positions[3 * i + 2]);
        let uv = if i < n_uv {
            Some((texcoords[2 * i], texcoords[2 * i + 1]))
        } else {
            None
        };
        let normal = if i < n_normal {
            Some((normals[3 * i], normals[3 * i + 1], normals[3 * i + 2]))
        } else {
            None
        };
        res.push(VertexAttributes { position, uv, normal });
        i = i + 1;
    }
    assert forall|i: int| 0 <= i < res.len() implies {
        &&& #[trigger] res@[i].position == (positions@[3 * i], positions@[3 * i + 1], positions@[3
            * i + 2])
        &&& (2 * i + 2 <= texcoords.len() ==> res@[i].uv == Some(
            (texcoords@[2 * i], texcoords@[2 * i + 1]),
        ))
        &&& (2 * i + 2 > texcoords.len() ==> res@[i].uv is None)
        &&& (3 * i + 3 <= normals.len() ==> res@[i].normal == Some(
            (normals@[3 * i], normals@[3 * i + 1], normals@[3 * i + 2]),
        ))
        &&& (3 * i + 3 > normals.len() ==> res@[i].normal is None)
    } by {
        lemma_vertex_takes_ith_groups(positions@, texcoords@, normals@, i);
    }
    res
}

/// One vertex per position group, where the texture coordinate and normal
/// arrays must hold exactly one group per vertex (the previewer's loader
/// asserts this).
pub fn vertex_attributes_exact<T: Copy>(positions: &[T], texcoords: &[T], normals: &[T]) -> (res:
    Vec<VertexAttributes<T>>)
    requires
        whole_groups(positions@, texcoords@, normals@),
        texcoords.len() / 2 == positions.len() / 3,
        normals.len() / 3 == positions.len() / 3,
    ensures
        res.len() == positions.len() / 3,
        forall|i: int|
            0 <= i < res.len() ==> {
                &&& #[trigger] res@[i].position == triple_at(positions@, i)
                &&& res@[i].uv == Some(pair_at(texcoords@, i))
                &&& res@[i].normal == Some(triple_at(normals@, i))
            },
{
    let res = vertex_attributes_padded(positions, texcoords, normals);
    assert forall|i: int| 0 <= i < res.len() implies {
        &&& #[trigger] res@[i].position == triple_at(positions@, i)
        &&& res@[i].uv == Some(pair_at(texcoords@, i))
        &&& res@[i].normal == Some(triple_at(normals@, i))
    } by {
        assert(res@[i] == vertex_at(positions@, texcoords@, normals@, i));
    }
    res
}

/// The triangle indices narrowed to 16 bits: each keeps its low 16 bits.
pub fn narrow_indices(indices: &[u32]) -> (res: Vec<u16>)
    ensures
        res.len() == indices.len(),
        forall|i: int| 0 <= i < res.len() ==> #[trigger] res@[i] as u32 == indices@[i] % 65536,
{
    let mut res: Vec<u16> = Vec::new();
    let mut i: usize = 0;
    while i < indices.len()
        invariant
            i <= indices.len(),
            res.len() == i,
            forall|j: int| 0 <= j < i ==> #[trigger] res@[j] as u32 == indices@[j] % 65536,
        decreases indices.len() - i,
    {
        let x = indices[i];
        let low = x as u16;
        assert(low as u32 == x % 65536) by (bit_vector)
            requires
                low == x as u16,
        ;
        res.push(low);
        i = i + 1;
    }
    res
}

} // verus!
