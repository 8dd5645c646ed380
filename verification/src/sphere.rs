//! Approximating a sphere: starting from a simplex, the surface is
//! subdivided again and again, and after every subdivision every vertex is
//! moved back onto the sphere.
use vstd::prelude::*;
use crate::cell_topology::rows_are;
use crate::combinations::{
    combinations_constsize, combinations_of, is_combination, lemma_subsets_shape,
};
use crate::dedup::first_occurrences;
use crate::edges::all_edges_of_tetrahedra;
use crate::mesh::{rows_are_edges, rows_below, vertices_transformed, Mesh, Mesh3D, Mesh4D};
use crate::subdivide::{
    is_subdivision3, is_subdivision4, lemma_subdivision_unique3, lemma_subdivision_unique4,
    rows_distinct,
};

verus! {

/// `mean` and `normalize` may be asked for any vertices.
pub open spec fn can_refine<V, M: Fn(V, V) -> V, N: Fn(V) -> V>(mean: M, normalize: N) -> bool {
    &&& forall|a: V, b: V| #[trigger] call_requires(mean, (a, b))
    &&& forall|v: V| #[trigger] call_requires(normalize, (v,))
}

/// The mesh over `vertices` whose primitives are all `P`-element
/// combinations of the vertices, without skeleton.
pub open spec fn is_simplex_mesh<V, const P: usize, const S: usize>(
    mesh: Mesh<V, P, S>,
    vertices: Seq<V>,
) -> bool {
    &&& mesh.vertices@ == vertices
    &&& rows_are(mesh.indeces@, combinations_of(vertices.len(), P as nat))
    &&& mesh.skeleton_indeces@.len() == 0
}

/// `mesh` is `fine` with every vertex normalized.
pub open spec fn is_normalized<V, N: Fn(V) -> V, const P: usize, const S: usize>(
    mesh: Mesh<V, P, S>,
    fine: Mesh<V, P, S>,
    normalize: N,
) -> bool {
    &&& vertices_transformed(normalize, fine.vertices@, mesh.vertices@)
    &&& mesh.indeces@ == fine.indeces@
    &&& mesh.skeleton_indeces@ == fine.skeleton_indeces@
}

/// `mesh` is the simplex over `vertices` after `steps` rounds of subdividing
/// its surface and normalizing its vertices.
pub open spec fn is_refined3<V, M: Fn(V, V) -> V, N: Fn(V) -> V>(
    mesh: Mesh3D<V>,
    vertices: Seq<V>,
    steps: nat,
    mean: M,
    normalize: N,
) -> bool
    decreases steps,
{
    if steps == 0 {
        is_simplex_mesh(mesh, vertices)
    } else {
        exists|coarse: Mesh3D<V>, fine: Mesh3D<V>|
            is_refined3(coarse, vertices, (steps - 1) as nat, mean, normalize) && #[trigger] is_subdivision3(
                fine,
                coarse,
                mean,
            ) && is_normalized(mesh, fine, normalize)
    }
}

/// `mesh` is the simplex over `vertices` after `steps` rounds of subdividing
/// its surface and normalizing its vertices.
pub open spec fn is_refined4<V, M: Fn(V, V) -> V, N: Fn(V) -> V>(
    mesh: Mesh4D<V>,
    vertices: Seq<V>,
    steps: nat,
    mean: M,
    normalize: N,
) -> bool
    decreases steps,
{
    if steps == 0 {
        is_simplex_mesh(mesh, vertices)
    } else {
        exists|coarse: Mesh4D<V>, fine: Mesh4D<V>|
            is_refined4(coarse, vertices, (steps - 1) as nat, mean, normalize) && #[trigger] is_subdivision4(
                fine,
                coarse,
                mean,
            ) && is_normalized(mesh, fine, normalize)
    }
}

/// Two simplex meshes over the same vertices have the same primitives.
pub proof fn lemma_simplex_unique<V, const P: usize, const S: usize>(
    first: Mesh<V, P, S>,
    second: Mesh<V, P, S>,
    vertices: Seq<V>,
)
    requires
        is_simplex_mesh(first, vertices),
        is_simplex_mesh(second, vertices),
    ensures
        first.indeces@ == second.indeces@,
{
    let a = first.indeces@;
    let b = second.indeces@;
    assert forall|r: int| 0 <= r < a.len() implies a[r] == b[r] by {
        assert forall|j: int| 0 <= j < P implies a[r][j] == b[r][j] by {
            assert(a[r]@[j] as int == combinations_of(vertices.len(), P as nat)[r][j]);
            assert(b[r]@[j] as int == combinations_of(vertices.len(), P as nat)[r][j]);
        }
        assert(a[r] =~= b[r]);
    }
    assert(a =~= b);
}

/// However the vertices come out, refining a simplex a given number of
/// times gives the same primitives and the same number of vertices.
pub proof fn lemma_refined_unique3<V, M: Fn(V, V) -> V, N: Fn(V) -> V>(
    first: Mesh3D<V>,
    second: Mesh3D<V>,
    vertices: Seq<V>,
    steps: nat,
    mean: M,
    normalize: N,
)
    requires
        is_refined3(first, vertices, steps, mean, normalize),
        is_refined3(second, vertices, steps, mean, normalize),
    ensures
        first.indeces@ == second.indeces@,
        first.vertices@.len() == second.vertices@.len(),
    decreases steps,
{
    if steps == 0 {
        lemma_simplex_unique(first, second, vertices);
    } else {
        let (coarse1, fine1) = choose|coarse: Mesh3D<V>, fine: Mesh3D<V>|
            is_refined3(coarse, vertices, (steps - 1) as nat, mean, normalize)
                && #[trigger] is_subdivision3(fine, coarse, mean) && is_normalized(
                first,
                fine,
                normalize,
            );
        let (coarse2, fine2) = choose|coarse: Mesh3D<V>, fine: Mesh3D<V>|
            is_refined3(coarse, vertices, (steps - 1) as nat, mean, normalize)
                && #[trigger] is_subdivision3(fine, coarse, mean) && is_normalized(
                second,
                fine,
                normalize,
            );
        lemma_refined_unique3(coarse1, coarse2, vertices, (steps - 1) as nat, mean, normalize);
        lemma_subdivision_unique3(fine1, fine2, coarse1, coarse2, mean);
    }
}

/// Refining a simplex more often does not give fewer vertices.
pub proof fn lemma_refined_grows3<V, M: Fn(V, V) -> V, N: Fn(V) -> V>(
    small: Mesh3D<V>,
    large: Mesh3D<V>,
    vertices: Seq<V>,
    fewer: nat,
    more: nat,
    mean: M,
    normalize: N,
)
    requires
        fewer <= more,
        is_refined3(small, vertices, fewer, mean, normalize),
        is_refined3(large, vertices, more, mean, normalize),
    ensures
        small.vertices@.len() <= large.vertices@.len(),
    decreases more,
{
    if fewer == more {
        lemma_refined_unique3(small, large, vertices, more, mean, normalize);
    } else {
        let (coarse, fine) = choose|coarse: Mesh3D<V>, fine: Mesh3D<V>|
            is_refined3(coarse, vertices, (more - 1) as nat, mean, normalize)
                && #[trigger] is_subdivision3(fine, coarse, mean) && is_normalized(
                large,
                fine,
                normalize,
            );
        lemma_refined_grows3(small, coarse, vertices, fewer, (more - 1) as nat, mean, normalize);
    }
}

/// However the vertices come out, refining a simplex a given number of
/// times gives the same primitives and the same number of vertices.
pub proof fn lemma_refined_unique4<V, M: Fn(V, V) -> V, N: Fn(V) -> V>(
    first: Mesh4D<V>,
    second: Mesh4D<V>,
    vertices: Seq<V>,
    steps: nat,
    mean: M,
    normalize: N,
)
    requires
        is_refined4(first, vertices, steps, mean, normalize),
        is_refined4(second, vertices, steps, mean, normalize),
    ensures
        first.indeces@ == second.indeces@,
        first.vertices@.len() == second.vertices@.len(),
    decreases steps,
{
    if steps == 0 {
        lemma_simplex_unique(first, second, vertices);
    } else {
        let (coarse1, fine1) = choose|coarse: Mesh4D<V>, fine: Mesh4D<V>|
            is_refined4(coarse, vertices, (steps - 1) as nat, mean, normalize)
                && #[trigger] is_subdivision4(fine, coarse, mean) && is_normalized(
                first,
                fine,
                normalize,
            );
        let (coarse2, fine2) = choose|coarse: Mesh4D<V>, fine: Mesh4D<V>|
            is_refined4(coarse, vertices, (steps - 1) as nat, mean, normalize)
                && #[trigger] is_subdivision4(fine, coarse, mean) && is_normalized(
                second,
                fine,
                normalize,
            );
        lemma_refined_unique4(coarse1, coarse2, vertices, (steps - 1) as nat, mean, normalize);
        lemma_subdivision_unique4(fine1, fine2, coarse1, coarse2, mean);
    }
}

/// Refining a simplex more often does not give fewer vertices.
pub proof fn lemma_refined_grows4<V, M: Fn(V, V) -> V, N: Fn(V) -> V>(
    small: Mesh4D<V>,
    large: Mesh4D<V>,
    vertices: Seq<V>,
    fewer: nat,
    more: nat,
    mean: M,
    normalize: N,
)
    requires
        fewer <= more,
        is_refined4(small, vertices, fewer, mean, normalize),
        is_refined4(large, vertices, more, mean, normalize),
    ensures
        small.vertices@.len() <= large.vertices@.len(),
    decreases more,
{
    if fewer == more {
        lemma_refined_unique4(small, large, vertices, more, mean, normalize);
    } else {
        let (coarse, fine) = choose|coarse: Mesh4D<V>, fine: Mesh4D<V>|
            is_refined4(coarse, vertices, (more - 1) as nat, mean, normalize)
                && #[trigger] is_subdivision4(fine, coarse, mean) && is_normalized(
                large,
                fine,
                normalize,
            );
        lemma_refined_grows4(small, coarse, vertices, fewer, (more - 1) as nat, mean, normalize);
    }
}

/// The mesh over `vertices` whose primitives are all combinations of `P` of them.
fn simplex_mesh<V, const P: usize, const S: usize>(vertices: Vec<V>) -> (mesh: Mesh<V, P, S>)
    ensures
        is_simplex_mesh(mesh, vertices@),
        rows_below(mesh.indeces@, vertices@.len() as int),
        rows_distinct(mesh.indeces@),
        mesh.wf(),
{
    let mut numbers: Vec<usize> = Vec::new();
    let mut i: usize = 0;
    while i < vertices.len()
        invariant
            0 <= i <= vertices@.len(),
            numbers@.len() == i,
            forall|k: int| 0 <= k < i ==> #[trigger] numbers@[k] == k,
        decreases vertices@.len() - i,
    {
        numbers.push(i);
        i += 1;
    }
    let indeces: Vec<[usize; P]> = combinations_constsize::<P, usize>(numbers.as_slice());
    proof {
        let count = vertices@.len();
        let combos = combinations_of(count, P as nat);
        if P > 0 {
            lemma_subsets_shape(count, P as nat);
        }
        assert forall|r: int, j: int| 0 <= r < indeces@.len() && 0 <= j < P implies (
        #[trigger] indeces@[r]@[j]) as int == combos[r][j] && indeces@[r]@[j] < count by {
            assert(is_combination(combos[r], count, P as nat));
            assert(0 <= combos[r][j] < count);
            assert(indeces@[r]@[j] == numbers@[combos[r][j]]);
        }
        assert forall|r: int, a: int, b: int|
            0 <= r < indeces@.len() && 0 <= a < b < P implies #[trigger] indeces@[r]@[a]
            != #[trigger] indeces@[r]@[b] by {
            assert(is_combination(combos[r], count, P as nat));
            assert(combos[r][a] < combos[r][b]);
            assert(indeces@[r]@[a] as int == combos[r][a]);
            assert(indeces@[r]@[b] as int == combos[r][b]);
        }
    }
    Mesh { vertices, indeces, skeleton_indeces: Vec::new() }
}

/// The triangle mesh of a sphere: the simplex over `vertices`, subdivided
/// and normalized `subdivisions` times.
pub fn sphere_3D_no_skeleton<V: Copy, M: Fn(V, V) -> V, N: Fn(V) -> V>(
    vertices: Vec<V>,
    subdivisions: usize,
    mean: &M,
    normalize: &N,
) -> (mesh: Mesh3D<V>)
    requires
        can_refine(*mean, *normalize),
    ensures
        is_refined3(mesh, vertices@, subdivisions as nat, *mean, *normalize),
        mesh.wf(),
        rows_distinct(mesh.indeces@),
{
    let mut mesh: Mesh3D<V> = simplex_mesh(vertices);
    let mut done: usize = 0;
    while done < subdivisions
        invariant
            0 <= done <= subdivisions,
            can_refine(*mean, *normalize),
            is_refined3(mesh, vertices@, done as nat, *mean, *normalize),
            mesh.wf(),
            rows_distinct(mesh.indeces@),
        decreases subdivisions - done,
    {
        let ghost coarse = mesh;
        let fine = mesh.subdivide_surface(mean);
        let ghost fine_ghost = fine;
        mesh = fine;
        mesh.transform(normalize);
        proof {
            assert(is_subdivision3(fine_ghost, coarse, *mean));
            assert(is_normalized(mesh, fine_ghost, *normalize));
        }
        done += 1;
    }
    mesh
}

/// The tetrahedron mesh of a sphere: the simplex over `vertices`, subdivided
/// and normalized `subdivisions` times.
pub fn sphere_4D_no_skeleton<V: Copy, M: Fn(V, V) -> V, N: Fn(V) -> V>(
    vertices: Vec<V>,
    subdivisions: usize,
    mean: &M,
    normalize: &N,
) -> (mesh: Mesh4D<V>)
    requires
        can_refine(*mean, *normalize),
    ensures
        is_refined4(mesh, vertices@, subdivisions as nat, *mean, *normalize),
        mesh.wf(),
        rows_distinct(mesh.indeces@),
{
    let mut mesh: Mesh4D<V> = simplex_mesh(vertices);
    let mut done: usize = 0;
    while done < subdivisions
        invariant
            0 <= done <= subdivisions,
            can_refine(*mean, *normalize),
            is_refined4(mesh, vertices@, done as nat, *mean, *normalize),
            mesh.wf(),
            rows_distinct(mesh.indeces@),
        decreases subdivisions - done,
    {
        let ghost coarse = mesh;
        let fine = mesh.subdivide_surface(mean);
        let ghost fine_ghost = fine;
        mesh = fine;
        mesh.transform(normalize);
        proof {
            assert(is_subdivision4(fine_ghost, coarse, *mean));
            assert(is_normalized(mesh, fine_ghost, *normalize));
        }
        done += 1;
    }
    mesh
}

fn copy_of<V: Copy>(vertices: &Vec<V>) -> (copy: Vec<V>)
    ensures
        copy@ == vertices@,
{
    let mut copy: Vec<V> = Vec::new();
    let mut i: usize = 0;
    while i < vertices.len()
        invariant
            0 <= i <= vertices@.len(),
            copy@ == vertices@.subrange(0, i as int),
        decreases vertices@.len() - i,
    {
        copy.push(vertices[i]);
        assert(copy@ =~= vertices@.subrange(0, i + 1));
        i += 1;
    }
    assert(vertices@.subrange(0, vertices@.len() as int) =~= vertices@);
    copy
}

/// The triangle mesh of a sphere after `surface_subdivisions` rounds, with
/// one skeleton point for every vertex that the sphere has after
/// `skeleton_subdivisions` rounds.
pub fn sphere_3D<V: Copy, M: Fn(V, V) -> V, N: Fn(V) -> V>(
    vertices: Vec<V>,
    surface_subdivisions: usize,
    skeleton_subdivisions: usize,
    mean: &M,
    normalize: &N,
) -> (mesh: Mesh3D<V>)
    requires
        can_refine(*mean, *normalize),
    ensures
        exists|surface: Mesh3D<V>, skeleton: Mesh3D<V>|
            {
                &&& #[trigger] is_refined3(
                    surface,
                    vertices@,
                    surface_subdivisions as nat,
                    *mean,
                    *normalize,
                )
                &&& #[trigger] is_refined3(
                    skeleton,
                    vertices@,
                    skeleton_subdivisions as nat,
                    *mean,
                    *normalize,
                )
                &&& mesh.vertices@ == surface.vertices@
                &&& mesh.indeces@ == surface.indeces@
                &&& mesh.skeleton_indeces@.len() == skeleton.vertices@.len()
            },
        forall|i: int|
            0 <= i < mesh.skeleton_indeces@.len() ==> (#[trigger] mesh.skeleton_indeces@[i])@[0] == i,
        rows_below(mesh.indeces@, mesh.vertices@.len() as int),
        rows_distinct(mesh.indeces@),
        skeleton_subdivisions <= surface_subdivisions ==> mesh.wf(),
{
    let skeleton_vertices = copy_of(&vertices);
    let mut mesh = sphere_3D_no_skeleton(vertices, surface_subdivisions, mean, normalize);
    let ghost surface = mesh;
    let skeleton_source = sphere_3D_no_skeleton(
        skeleton_vertices,
        skeleton_subdivisions,
        mean,
        normalize,
    );
    let ghost skeleton = skeleton_source;
    mesh.skeleton_indeces = skeleton_source.with_full_skeleton().skeleton_indeces;
    proof {
        assert(is_refined3(surface, vertices@, surface_subdivisions as nat, *mean, *normalize));
        assert(is_refined3(skeleton, vertices@, skeleton_subdivisions as nat, *mean, *normalize));
        if skeleton_subdivisions <= surface_subdivisions {
            lemma_refined_grows3(
                skeleton,
                surface,
                vertices@,
                skeleton_subdivisions as nat,
                surface_subdivisions as nat,
                *mean,
                *normalize,
            );
        }
    }
    mesh
}

/// The tetrahedron mesh of a sphere after `surface_subdivisions` rounds,
/// with the edges that the sphere has after `skeleton_subdivisions` rounds
/// as skeleton.
pub fn sphere_4D<V: Copy, M: Fn(V, V) -> V, N: Fn(V) -> V>(
    vertices: Vec<V>,
    surface_subdivisions: usize,
    skeleton_subdivisions: usize,
    mean: &M,
    normalize: &N,
) -> (mesh: Mesh4D<V>)
    requires
        can_refine(*mean, *normalize),
    ensures
        exists|surface: Mesh4D<V>, skeleton: Mesh4D<V>|
            {
                &&& #[trigger] is_refined4(
                    surface,
                    vertices@,
                    surface_subdivisions as nat,
                    *mean,
                    *normalize,
                )
                &&& #[trigger] is_refined4(
                    skeleton,
                    vertices@,
                    skeleton_subdivisions as nat,
                    *mean,
                    *normalize,
                )
                &&& mesh.vertices@ == surface.vertices@
                &&& mesh.indeces@ == surface.indeces@
                &&& rows_are_edges(
                    mesh.skeleton_indeces@,
                    first_occurrences(all_edges_of_tetrahedra(skeleton.indeces@)),
                )
            },
        rows_below(mesh.indeces@, mesh.vertices@.len() as int),
        rows_distinct(mesh.indeces@),
        skeleton_subdivisions <= surface_subdivisions ==> mesh.wf(),
{
    let skeleton_vertices = copy_of(&vertices);
    let mut mesh = sphere_4D_no_skeleton(vertices, surface_subdivisions, mean, normalize);
    let ghost surface = mesh;
    let skeleton_source = sphere_4D_no_skeleton(
        skeleton_vertices,
        skeleton_subdivisions,
        mean,
        normalize,
    );
    let ghost skeleton = skeleton_source;
    mesh.skeleton_indeces = skeleton_source.with_full_skeleton().skeleton_indeces;
    proof {
        assert(is_refined4(surface, vertices@, surface_subdivisions as nat, *mean, *normalize));
        assert(is_refined4(skeleton, vertices@, skeleton_subdivisions as nat, *mean, *normalize));
        if skeleton_subdivisions <= surface_subdivisions {
            lemma_refined_grows4(
                skeleton,
                surface,
                vertices@,
                skeleton_subdivisions as nat,
                surface_subdivisions as nat,
                *mean,
                *normalize,
            );
        }
    }
    mesh
}

} // verus!
