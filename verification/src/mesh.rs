use vstd::prelude::*;

verus! {

/// Where the texture coordinates of a mesh come from.
#[derive(Debug, Clone, Copy, PartialEq, Eq, Structural)]
pub enum Texcoords {
    /// The mesh has none: every vertex gets the coordinates `0 0`.
    Zeros,
    /// The mesh has one pair for each vertex.
    Given,
}

/// Why a mesh cannot be written.
#[derive(Debug, Clone, Copy, PartialEq, Eq, Structural)]
pub enum MeshFault {
    /// The mesh has texture coordinates, but not one pair for each vertex.
    MismatchingUvs,
}

/// Says where the texture coordinates of a mesh come from, given how many
/// pairs and how many vertices it has.
pub fn texcoord_source(uvs: usize, vertices: usize) -> (result: Result<Texcoords, MeshFault>)
    ensures
        result == if uvs == 0 {
            Ok::<Texcoords, MeshFault>(Texcoords::Zeros)
        } else if uvs != vertices {
            Err::<Texcoords, MeshFault>(MeshFault::MismatchingUvs)
        } else {
            Ok::<Texcoords, MeshFault>(Texcoords::Given)
        },
{
    if uvs == 0 {
        Ok(Texcoords::Zeros)
    } else if uvs != vertices {
        Err(MeshFault::MismatchingUvs)
    } else {
        Ok(Texcoords::Given)
    }
}

/// A vertex index as the signed number of the same 32 bits.
pub open spec fn signed_index(index: u32) -> i32 {
    if index < 0x8000_0000 {
        index as i32
    } else {
        (index - 0x1_0000_0000) as i32
    }
}

/// The vertex indices of the triangles of a primitive: the indices in their
/// order, each as a signed number, without the one or two at the end that
/// make up no triangle.
pub fn triangle_indices(indices: &Vec<u32>) -> (triangles: Vec<i32>)
    ensures
        triangles@.len() == indices@.len() / 3 * 3,
        forall|i: int|
            0 <= i < triangles@.len() ==> #[trigger] triangles@[i] == signed_index(indices@[i]),
{
    let whole: usize = indices.len() / 3 * 3;
    let mut triangles: Vec<i32> = Vec::new();
    let mut i: usize = 0;
    while i < whole
        invariant
            0 <= i <= whole <= indices@.len(),
            whole == indices@.len() / 3 * 3,
            triangles@.len() == i,
            forall|k: int| 0 <= k < i ==> #[trigger] triangles@[k] == signed_index(indices@[k]),
        decreases whole - i,
    {
        let index: u32 = indices[i];
        let signed: i32 = if index < 0x8000_0000 {
            index as i32
        } else {
            (index as i64 - 0x1_0000_0000) as i32
        };
        triangles.push(signed);
        i = i + 1;
    }
    triangles
}

} // verus!
