//! Extraction of triangle and tetrahedron meshes from the zero level set of a
//! scalar field sampled on an integer lattice, in three and four dimensions,
//! together with the mesh algebra (subdivision, skeletons, concatenation) and
//! the corner-sign combinatorics the extraction is built from.
#![allow(non_snake_case)]
#![allow(non_camel_case_types)]

pub mod lattice;
pub mod combinations;
pub mod corner_signs;
pub mod edges;
pub mod cell_topology;
pub mod mesh;
pub mod dedup;
pub mod border_pair;
pub mod field;
pub mod initial_border_pair;
pub mod sample_cloud;
pub mod ordered_keys;
pub mod isosurface;
pub mod get_vertex;
pub mod subdivide;
pub mod primitives;
pub mod sphere;
pub mod visual_mode;
pub mod program_descriptor;
